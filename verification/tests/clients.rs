use harmonic_scheduler::admin_rpc::{
    identity_change, set_tpu, tip_manager, Advertised, SetCall, TpuWatch,
};
use harmonic_scheduler::auth::{
    answer_challenge, bearer_header, challenge_message, renewal, replace_access, token_expiry,
    uses_tls, validate_tokens, AuthTokens, Renewal, Token, TokenError,
};
use harmonic_scheduler::backrun::{
    authorize, bundle_transactions, bundle_uuid, subscription_step, Received, Step, Update,
};
use harmonic_scheduler::block_engine::{fee_info, forward_blocks, is_readable, Bundle};
use harmonic_scheduler::config::{
    parse_pubkey, parse_strategy, SchedulingStrategy, TipConfig, ValidatorConfig,
};
use harmonic_scheduler::keys::{identity_of, AddressError};
use harmonic_scheduler::multicast::{
    addresses_for_cluster, maybe_external_addr, shred_check_targets, ClusterType,
    MulticastRootConfig,
};
use harmonic_scheduler::net::{IpAddress, SocketAddress};
use harmonic_scheduler::remote_tpu::{
    forward_packets, quic_address, tpu_config, Message, TpuConfig,
};
use harmonic_scheduler::shred_receiver::{SetShredReceiverArgs, COMMAND};
use harmonic_scheduler::text::{parse_number, same_text};
use harmonic_scheduler::tpu_override::{published, Contact, TpuOverride};
use solana_keypair::{Keypair, Signer};
use solana_pubkey::Pubkey;

fn address(last: u8, port: u16) -> SocketAddress {
    SocketAddress {
        ip: IpAddress::V4([127, 0, 0, last]),
        port,
    }
}

const MCAST: SocketAddress = SocketAddress {
    ip: IpAddress::V4([233, 84, 178, 16]),
    port: 7733,
};

fn make_config(addr: Option<SocketAddress>) -> MulticastRootConfig {
    MulticastRootConfig {
        receiver_address: addr,
    }
}

#[test]
fn maybe_external_addr_emits_at_turbine_root() {
    let cfg = make_config(Some(MCAST));
    assert_eq!(maybe_external_addr(Some(&cfg), 0), Some(MCAST));
}

#[test]
fn maybe_external_addr_skipped_when_not_root() {
    let cfg = make_config(Some(MCAST));
    assert_eq!(maybe_external_addr(Some(&cfg), 1), None);
}

#[test]
fn maybe_external_addr_skipped_when_address_unset() {
    let cfg = make_config(None);
    assert_eq!(maybe_external_addr(Some(&cfg), 0), None);
}

#[test]
fn maybe_external_addr_skipped_when_no_config() {
    assert_eq!(maybe_external_addr(None, 0), None);
}

#[test]
fn clusters_with_multicast_groups() {
    let (main, test) = (address(1, 1), address(2, 2));
    let found = addresses_for_cluster(ClusterType::MainnetBeta, main, test).unwrap();
    assert_eq!((found.leader, found.root), (main, MCAST));
    let found = addresses_for_cluster(ClusterType::Testnet, main, test).unwrap();
    assert_eq!(found.leader, test);
    assert_eq!(
        found.root,
        SocketAddress {
            ip: IpAddress::V4([233, 84, 178, 12]),
            port: 7733
        }
    );
    for cluster in [ClusterType::Devnet, ClusterType::Development] {
        assert!(addresses_for_cluster(cluster, main, test).is_none());
        assert!(shred_check_targets(true, cluster, main, test).is_empty());
    }
    assert_eq!(
        shred_check_targets(true, ClusterType::MainnetBeta, main, test),
        vec![main, MCAST]
    );
    assert!(shred_check_targets(false, ClusterType::MainnetBeta, main, test).is_empty());
}

#[test]
fn verify_args_struct_by_command_default() {
    assert_eq!(COMMAND, "set-shred-receiver-address");
    assert_eq!(SetShredReceiverArgs::from_clap_arg_match(None), None);
}

#[test]
fn verify_args_struct_by_command_with_addr() {
    assert_eq!(
        SetShredReceiverArgs::from_clap_arg_match(Some("127.0.0.1:9001")),
        Some(SetShredReceiverArgs {
            addr: "127.0.0.1:9001".to_string(),
        })
    );
}

fn token(expires_at: Option<i64>) -> Token {
    Token {
        value: "abc".to_string(),
        expires_at,
    }
}

#[test]
fn tokens_expire_at_a_known_time() {
    assert_eq!(token_expiry(&token(Some(77))), 77);
    assert_eq!(token_expiry(&token(Some(-1))), 0);
    assert_eq!(token_expiry(&token(None)), 0);
    assert_eq!(bearer_header(&token(None)), "Bearer abc");
}

#[test]
fn tokens_are_renewed_within_an_hour_of_expiry() {
    let tokens = |access: i64, refresh: i64| AuthTokens {
        access: token(Some(access)),
        refresh: token(Some(refresh)),
    };
    assert_eq!(renewal(&tokens(4601, 4601), 1000), Renewal::Keep);
    assert_eq!(renewal(&tokens(4600, 4601), 1000), Renewal::Refresh);
    assert_eq!(renewal(&tokens(4601, 4600), 1000), Renewal::Reauthenticate);
    assert_eq!(renewal(&tokens(4600, 4600), 1000), Renewal::Reauthenticate);
    assert_eq!(renewal(&tokens(9999, 1), 1000), Renewal::Reauthenticate);
}

#[test]
fn tokens_that_do_not_expire_are_not_taken() {
    let ok = || Some(token(Some(1)));
    assert!(validate_tokens(ok(), ok()).is_ok());
    assert_eq!(
        validate_tokens(None, ok()).err(),
        Some(TokenError::Access)
    );
    assert_eq!(
        validate_tokens(Some(token(None)), None).err(),
        Some(TokenError::Access)
    );
    assert_eq!(
        validate_tokens(ok(), None).err(),
        Some(TokenError::Refresh)
    );
    assert_eq!(
        validate_tokens(ok(), Some(token(None))).err(),
        Some(TokenError::Refresh)
    );
    let mut tokens = validate_tokens(ok(), ok()).unwrap_or_else(|_| panic!("valid"));
    assert_eq!(
        replace_access(&mut tokens, Some(token(None))),
        Err(TokenError::Access)
    );
    assert_eq!(replace_access(&mut tokens, None), Err(TokenError::Access));
    assert_eq!(tokens.access.expires_at, Some(1));
    assert_eq!(replace_access(&mut tokens, Some(token(Some(9)))), Ok(()));
    assert_eq!(tokens.access.expires_at, Some(9));
    assert_eq!(tokens.refresh.expires_at, Some(1));
}

#[test]
fn a_challenge_is_signed() {
    let identity = Keypair::new_from_array([3; 32]);
    let answer = answer_challenge(&identity.to_bytes(), "xyz").unwrap();
    assert_eq!(answer.message, format!("{}-xyz", identity.pubkey()));
    assert_eq!(answer.client_pubkey, identity.pubkey().to_bytes());
    let expected: [u8; 64] = identity.sign_message(answer.message.as_bytes()).into();
    assert_eq!(answer.signed_challenge, expected);
    assert_eq!(challenge_message("a", "b"), "a-b");
    assert!(answer_challenge(&[0; 63], "xyz").is_none());
    let mut wrong = identity.to_bytes();
    wrong[40] ^= 1;
    assert!(answer_challenge(&wrong, "xyz").is_none());
}

#[test]
fn identities_have_addresses() {
    let identity = Keypair::new_from_array([3; 32]);
    let bytes = identity.to_bytes();
    assert_eq!(identity_of(&bytes), Some(identity.pubkey().to_bytes()));
    assert_eq!(identity_of(&bytes[..63]), None);
    assert_eq!(identity_of(&[]), None);
    let mut wrong = bytes;
    wrong[40] ^= 1;
    assert_eq!(identity_of(&wrong), None);
}

#[test]
fn tls_goes_by_scheme() {
    assert!(uses_tls(Some("https")));
    assert!(!uses_tls(Some("http")));
    assert!(!uses_tls(None));
}

#[test]
fn strategies_are_read_in_any_case() {
    assert_eq!(parse_strategy("fifo"), Ok(SchedulingStrategy::Fifo));
    assert_eq!(parse_strategy("FBA"), Ok(SchedulingStrategy::Fba));
    assert_eq!(parse_strategy("mReV"), Ok(SchedulingStrategy::Mrev));
    assert_eq!(
        parse_strategy("Best"),
        Err("expected one of: fifo, fba, mrev, got 'Best'".to_string())
    );
    assert!(parse_strategy("").is_err());
}

#[test]
fn addresses_are_read() {
    let key = Pubkey::new_from_array([9; 32]);
    assert_eq!(parse_pubkey(&key.to_string()), Ok([9; 32]));
    assert_eq!(
        parse_pubkey("short"),
        Err("invalid pubkey 'short': String is the wrong size".to_string())
    );
    assert_eq!(
        parse_pubkey("0OIl1111111111111111111111111111111111111111"),
        Err(
            "invalid pubkey '0OIl1111111111111111111111111111111111111111': Invalid Base58 string"
                .to_string()
        )
    );
    let info = fee_info(&key.to_string(), 5).unwrap();
    assert_eq!(
        (info.block_builder, info.block_builder_commission),
        ([9; 32], 5)
    );
    assert_eq!(fee_info("short", 5).err(), Some(AddressError::WrongSize));
}

#[test]
fn settings_have_limits() {
    for (num_workers, valid) in [(0, false), (1, true), (64, true), (65, false)] {
        assert_eq!(ValidatorConfig { num_workers }.valid(), valid);
    }
    let tip = |commission_bps: u16| TipConfig {
        tip_payment_program: [1; 32],
        tip_distribution_program: [2; 32],
        merkle_root_upload_authority: [3; 32],
        commission_bps,
    };
    assert!(tip(10000).valid());
    assert!(!tip(10001).valid());
    let settings = tip_manager(&tip(7), [4; 32]);
    assert_eq!(settings.tip_payment_program_id, [1; 32]);
    assert_eq!(settings.tip_distribution_program_id, [2; 32]);
    assert_eq!(settings.merkle_root_upload_authority, [3; 32]);
    assert_eq!((settings.vote_account, settings.commission_bps), ([4; 32], 7));
}

#[test]
fn a_token_is_asked_for_where_one_is_set() {
    assert!(authorize(None, None));
    assert!(authorize(None, Some("x")));
    assert!(authorize(Some("x"), Some("x")));
    assert!(!authorize(Some("x"), Some("y")));
    assert!(!authorize(Some("x"), Some("xx")));
    assert!(!authorize(Some("x"), None));
    assert!(!authorize(Some(""), None));
    assert!(authorize(Some(""), Some("")));
    assert!(!authorize(Some(""), Some("x")));
}

#[test]
fn empty_transactions_leave_a_bundle() {
    assert_eq!(
        bundle_transactions(vec![vec![], vec![1, 2], vec![], vec![3]]),
        Some(vec![vec![1, 2], vec![3]])
    );
    assert_eq!(bundle_transactions(vec![vec![], vec![]]), None);
    assert_eq!(bundle_transactions(vec![]), None);
}

#[test]
fn bundles_are_numbered() {
    assert_eq!(bundle_uuid(0, 0), "000000000000000000000000");
    assert_eq!(bundle_uuid(0x1234abcd, 0xff), "000000001234abcd000000ff");
    assert_eq!(
        bundle_uuid(u64::MAX, u64::MAX),
        "ffffffffffffffffffffffffffffffff"
    );
    for (now, seq) in [(7u64, 9u64), (1 << 40, 1 << 33), (u64::MAX / 3, 10)] {
        assert_eq!(bundle_uuid(now, seq), format!("{now:016x}{seq:08x}"));
    }
}

#[test]
fn bundles_taken_at_the_same_time_differ_by_number() {
    let numbers = [0u64, 1, 0xff, 0xffff_ffff, 0x1_0000_0000, u64::MAX];
    for (i, a) in numbers.iter().enumerate() {
        for b in &numbers[i + 1..] {
            assert_ne!(bundle_uuid(7, *a), bundle_uuid(7, *b));
        }
    }
}

#[test]
fn subscriptions_go_on_until_the_stream_ends() {
    assert!(matches!(
        subscription_step(Received::Data(vec![1])),
        Step::Send(Update::Transaction(data)) if data == vec![1]
    ));
    assert!(matches!(
        subscription_step(Received::Tick),
        Step::Send(Update::Ping)
    ));
    assert!(matches!(
        subscription_step(Received::Lagged(4)),
        Step::Report(4)
    ));
    assert!(matches!(subscription_step(Received::Closed), Step::End));
}

#[test]
fn numbers_are_read() {
    for text in [
        "0",
        "7",
        "+7",
        "007",
        "18446744073709551615",
        "18446744073709551616",
        "99999999999999999999999",
        "",
        "+",
        "-",
        "-1",
        "1 ",
        " 1",
        "1_0",
        "++1",
        "1+",
        "\u{661}",
        "x",
    ] {
        assert_eq!(parse_number(text), text.parse::<u64>().ok(), "{text}");
    }
    assert!(same_text("a\u{e9}", "a\u{e9}"));
    assert!(!same_text("a", "ab"));
}

fn bundle(uuid: &str, packets: Option<Vec<Vec<u8>>>) -> Bundle {
    Bundle {
        uuid: uuid.to_string(),
        packets,
    }
}

#[test]
fn blocks_go_to_the_scheduler_while_there_is_room() {
    let bundles = || {
        vec![
            bundle("12", Some(vec![vec![1]])),
            bundle("not a slot", None),
            bundle("13", Some(vec![vec![2], vec![3]])),
            bundle("14", Some(vec![vec![4], vec![5], vec![6]])),
        ]
    };
    assert!(is_readable(&bundles()));
    let (blocks, dropped) = forward_blocks(bundles(), 2, 10);
    let slots: Vec<u64> = blocks.iter().map(|b| b.slot).collect();
    assert_eq!(slots, vec![12, 13]);
    assert_eq!(blocks[1].txs, vec![vec![2], vec![3]]);
    assert_eq!(dropped, 13);
    let (blocks, dropped) = forward_blocks(bundles(), 9, 0);
    assert_eq!((blocks.len(), dropped), (3, 0));
    let (blocks, dropped) = forward_blocks(bundles(), 0, usize::MAX - 1);
    assert_eq!((blocks.len(), dropped), (0, usize::MAX));
    assert!(!is_readable(&[bundle("x", Some(vec![]))]));
}

#[test]
fn quic_is_six_ports_up() {
    let ip = IpAddress::V4([10, 0, 0, 1]);
    assert_eq!(
        quic_address(ip, 8003),
        Some(SocketAddress { ip, port: 8009 })
    );
    assert_eq!(
        quic_address(ip, 65533),
        Some(SocketAddress { ip, port: 65535 })
    );
    assert_eq!(quic_address(ip, 65536), None);
    assert_eq!(quic_address(ip, -1), None);
    let other = IpAddress::V4([10, 0, 0, 2]);
    assert_eq!(
        tpu_config(Some((ip, 1)), Some((other, 2))),
        Some(TpuConfig {
            tpu_quic: Some(SocketAddress { ip, port: 7 }),
            tpu_forwards_quic: Some(SocketAddress { ip: other, port: 8 }),
        })
    );
    assert_eq!(
        tpu_config(None, Some((other, 2))),
        Some(TpuConfig {
            tpu_quic: None,
            tpu_forwards_quic: Some(SocketAddress { ip: other, port: 8 }),
        })
    );
    assert_eq!(tpu_config(Some((ip, -1)), None), None);
    assert_eq!(tpu_config(Some((ip, 1)), Some((other, 65536))), None);
}

#[test]
fn packets_are_forwarded_as_a_whole() {
    assert_eq!(forward_packets(Message::Batch(5), 5, 1), (true, 1));
    assert_eq!(forward_packets(Message::Batch(6), 5, 1), (false, 7));
    assert_eq!(
        forward_packets(Message::Batch(6), 5, usize::MAX),
        (false, usize::MAX)
    );
    assert_eq!(forward_packets(Message::Heartbeat, 5, 1), (false, 1));
    assert_eq!(forward_packets(Message::Empty, 5, 1), (false, 1));
}

#[test]
fn the_tpu_follows_the_sessions() {
    let original = TpuConfig {
        tpu_quic: Some(address(1, 1)),
        tpu_forwards_quic: Some(address(2, 2)),
    };
    let remote = TpuConfig {
        tpu_quic: Some(address(3, 3)),
        tpu_forwards_quic: None,
    };
    let own = vec![
        SetCall::Tpu(address(1, 1)),
        SetCall::TpuForwards(address(2, 2)),
    ];
    assert_eq!(set_tpu(&original), own);
    let mut watch = TpuWatch::new(original);
    assert!(watch.poll(true, &remote).is_empty());
    assert_eq!(
        watch.poll(false, &remote),
        vec![SetCall::Tpu(address(3, 3))]
    );
    assert!(watch.poll(false, &remote).is_empty());
    assert_eq!(watch.advertised, Advertised::Remote);
    assert_eq!(watch.poll(true, &remote), own);
    assert!(watch.poll(true, &remote).is_empty());
    assert_eq!(watch.shutdown(), own);
}

#[test]
fn changes_of_identity_are_seen() {
    let mut last = None;
    let change = identity_change(&[1; 32], &[1; 32], &mut last, [5; 32]);
    assert_eq!((change.identity, change.vote_account), (false, true));
    let change = identity_change(&[1; 32], &[2; 32], &mut last, [5; 32]);
    assert_eq!((change.identity, change.vote_account), (true, false));
    assert_eq!(last, Some([5; 32]));
}

#[test]
fn an_override_is_undone() {
    let own = published(Some(address(1, 1)), Some(address(2, 2))).unwrap();
    assert!(published(None, Some(address(2, 2))).is_none());
    assert!(published(Some(address(1, 1)), None).is_none());
    let mut state = TpuOverride::new();
    assert_eq!(state.restore(), None);
    let both = |a: SocketAddress| Contact {
        tpu: a,
        tpu_forwards: a,
    };
    assert_eq!(state.apply(own, address(7, 7)), both(address(7, 7)));
    assert_eq!(
        state.apply(both(address(7, 7)), address(8, 8)),
        both(address(8, 8))
    );
    assert_eq!(state.restore(), Some(own));
    assert_eq!(state.restore(), None);
}
