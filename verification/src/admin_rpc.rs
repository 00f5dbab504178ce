//! What is asked of the validator's admin RPC.

use crate::arrays::same_key;
use crate::config::TipConfig;
use crate::net::SocketAddress;
use crate::remote_tpu::TpuConfig;
use vstd::prelude::*;

verus! {

/// A call that changes the address that the validator advertises.
#[derive(Clone, Copy, Debug, PartialEq, Eq)]
pub enum SetCall {
    /// The TPU.
    Tpu(SocketAddress),
    /// The TPU for forwarded transactions.
    TpuForwards(SocketAddress),
}

/// The calls that publish `config`: one for each address that it has, the TPU first.
pub open spec fn publishing(config: TpuConfig) -> Seq<SetCall> {
    (match config.tpu_quic {
        Some(address) => seq![SetCall::Tpu(address)],
        None => Seq::empty(),
    }) + (match config.tpu_forwards_quic {
        Some(address) => seq![SetCall::TpuForwards(address)],
        None => Seq::empty(),
    })
}

/// The calls that publish `config`.
pub fn set_tpu(config: &TpuConfig) -> (calls: Vec<SetCall>)
    ensures
        calls@ == publishing(*config),
{
    let mut calls: Vec<SetCall> = Vec::new();
    if let Some(address) = config.tpu_quic {
        calls.push(SetCall::Tpu(address));
    }
    if let Some(address) = config.tpu_forwards_quic {
        calls.push(SetCall::TpuForwards(address));
    }
    assert(calls@ =~= publishing(*config));
    calls
}

/// What the validator last advertised on behalf of this client.
#[derive(Clone, Copy, Debug, PartialEq, Eq, Structural)]
pub enum Advertised {
    /// Its own addresses.
    Original,
    /// Those of the remote TPU.
    Remote,
}

/// Keeps the validator's TPU addresses in step with the sessions: those of the remote TPU while all
/// sessions are up, its own while one is down.
pub struct TpuWatch {
    pub original: TpuConfig,
    pub advertised: Advertised,
}

impl TpuWatch {
    /// The validator advertises its own addresses.
    pub fn new(original: TpuConfig) -> (result: Self)
        ensures
            result.original == original,
            result.advertised == Advertised::Original,
    {
        TpuWatch { original, advertised: Advertised::Original }
    }

    /// One poll: returns the calls to make now. `down` tells whether some session is down, `remote`
    /// are the addresses of the remote TPU.
    pub fn poll(&mut self, down: bool, remote: &TpuConfig) -> (calls: Vec<SetCall>)
        ensures
            final(self).original == old(self).original,
            final(self).advertised == (if down {
                Advertised::Original
            } else {
                Advertised::Remote
            }),
            calls@ == match old(self).advertised {
                Advertised::Original => if down {
                    Seq::empty()
                } else {
                    publishing(*remote)
                },
                Advertised::Remote => if down {
                    publishing(old(self).original)
                } else {
                    Seq::empty()
                },
            },
    {
        match self.advertised {
            Advertised::Original => {
                if down {
                    Vec::new()
                } else {
                    self.advertised = Advertised::Remote;
                    set_tpu(remote)
                }
            },
            Advertised::Remote => {
                if down {
                    self.advertised = Advertised::Original;
                    set_tpu(&self.original)
                } else {
                    Vec::new()
                }
            },
        }
    }

    /// The calls that put the validator's own addresses back when this client ends.
    pub fn shutdown(&self) -> (calls: Vec<SetCall>)
        ensures
            calls@ == publishing(self.original),
    {
        set_tpu(&self.original)
    }
}

/// What changed with the validator's identity.
#[derive(Clone, Copy, Debug, PartialEq, Eq, Structural)]
pub struct IdentityChange {
    /// The identity is to be published.
    pub identity: bool,
    /// The vote account is to be published.
    pub vote_account: bool,
}

/// Compares what the validator says of its identity and vote account with what was last published,
/// and remembers the vote account.
pub fn identity_change(
    published: &[u8; 32],
    identity: &[u8; 32],
    last_vote_account: &mut Option<[u8; 32]>,
    vote_account: [u8; 32],
) -> (result: IdentityChange)
    ensures
        result.identity == (*published != *identity),
        result.vote_account == (*old(last_vote_account) != Some(vote_account)),
        *final(last_vote_account) == Some(vote_account),
{
    let same_vote = match last_vote_account {
        Some(last) => same_key(last, &vote_account),
        None => false,
    };
    *last_vote_account = Some(vote_account);
    IdentityChange { identity: !same_key(published, identity), vote_account: !same_vote }
}

/// The settings of the tip programs for a vote account.
#[derive(Clone, Copy, Debug)]
pub struct TipManagerConfig {
    pub tip_payment_program_id: [u8; 32],
    pub tip_distribution_program_id: [u8; 32],
    pub merkle_root_upload_authority: [u8; 32],
    pub vote_account: [u8; 32],
    pub commission_bps: u16,
}

/// The settings of the tip programs for the current vote account.
pub fn tip_manager(config: &TipConfig, vote_account: [u8; 32]) -> (result: TipManagerConfig)
    ensures
        result == (TipManagerConfig {
            tip_payment_program_id: config.tip_payment_program,
            tip_distribution_program_id: config.tip_distribution_program,
            merkle_root_upload_authority: config.merkle_root_upload_authority,
            vote_account,
            commission_bps: config.commission_bps,
        }),
{
    TipManagerConfig {
        tip_payment_program_id: config.tip_payment_program,
        tip_distribution_program_id: config.tip_distribution_program,
        merkle_root_upload_authority: config.merkle_root_upload_authority,
        vote_account,
        commission_bps: config.commission_bps,
    }
}

/// Publishing sets each address that there is, the TPU before the TPU for forwarded transactions, and
/// no other.
pub proof fn law_publishing_sets_what_there_is(config: TpuConfig)
    ensures
        config.tpu_quic is Some && config.tpu_forwards_quic is Some ==> publishing(config) == seq![
            SetCall::Tpu(config.tpu_quic->0),
            SetCall::TpuForwards(config.tpu_forwards_quic->0),
        ],
        config.tpu_quic is Some && config.tpu_forwards_quic is None ==> publishing(config) == seq![
            SetCall::Tpu(config.tpu_quic->0),
        ],
        config.tpu_quic is None && config.tpu_forwards_quic is Some ==> publishing(config) == seq![
            SetCall::TpuForwards(config.tpu_forwards_quic->0),
        ],
        config.tpu_quic is None && config.tpu_forwards_quic is None ==> publishing(config).len()
            == 0,
{
    if config.tpu_quic is Some && config.tpu_forwards_quic is Some {
        assert(publishing(config) =~= seq![
            SetCall::Tpu(config.tpu_quic->0),
            SetCall::TpuForwards(config.tpu_forwards_quic->0),
        ]);
    } else if config.tpu_quic is Some {
        assert(publishing(config) =~= seq![SetCall::Tpu(config.tpu_quic->0)]);
    } else if config.tpu_forwards_quic is Some {
        assert(publishing(config) =~= seq![SetCall::TpuForwards(config.tpu_forwards_quic->0)]);
    }
}

} // verus!
