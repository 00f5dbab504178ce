//! Authentication with an Ed25519 challenge.

use crate::keys::{address_text, identity_address, pubkey_of, sign, signature_by, write_address};
use crate::text::same_text;
use vstd::prelude::*;
use vstd::utf8::encode_utf8;

verus! {

/// A token is renewed when it expires within this many seconds.
pub const REFRESH_WITHIN_SECS: u64 = 3600;

/// A token from the authentication service.
pub struct Token {
    pub value: String,
    /// When it expires, in seconds since the epoch.
    pub expires_at: Option<i64>,
}

/// When a token expires, in seconds since the epoch; 0 where that is not known.
pub open spec fn expiry(token: Token) -> u64 {
    match token.expires_at {
        Some(seconds) if seconds >= 0 => seconds as u64,
        _ => 0,
    }
}

/// When `token` expires, in seconds since the epoch; 0 where that is not known.
pub fn token_expiry(token: &Token) -> (result: u64)
    ensures
        result == expiry(*token),
{
    match token.expires_at {
        Some(seconds) => if seconds >= 0 {
            seconds as u64
        } else {
            0
        },
        None => 0,
    }
}

/// The seconds from `now` until `token` expires; 0 where it has.
pub open spec fn remaining(token: Token, now: u64) -> int {
    if expiry(token) >= now {
        expiry(token) - now
    } else {
        0
    }
}

/// The access and the refresh token.
pub struct AuthTokens {
    pub access: Token,
    pub refresh: Token,
}

/// What to do about tokens.
#[derive(Clone, Copy, Debug, PartialEq, Eq, Structural)]
pub enum Renewal {
    /// Sign a new challenge: both tokens are replaced.
    Reauthenticate,
    /// Use the refresh token: the access token is replaced.
    Refresh,
    /// Nothing.
    Keep,
}

/// What is due for tokens at the time `now`.
pub open spec fn due(tokens: AuthTokens, now: u64) -> Renewal {
    if remaining(tokens.refresh, now) <= REFRESH_WITHIN_SECS {
        Renewal::Reauthenticate
    } else if remaining(tokens.access, now) <= REFRESH_WITHIN_SECS {
        Renewal::Refresh
    } else {
        Renewal::Keep
    }
}

/// Decides what to do about tokens at the time `now`.
pub fn renewal(tokens: &AuthTokens, now: u64) -> (result: Renewal)
    ensures
        result == due(*tokens, now),
{
    if token_expiry(&tokens.refresh).saturating_sub(now) <= REFRESH_WITHIN_SECS {
        Renewal::Reauthenticate
    } else if token_expiry(&tokens.access).saturating_sub(now) <= REFRESH_WITHIN_SECS {
        Renewal::Refresh
    } else {
        Renewal::Keep
    }
}

/// Why tokens are not taken.
#[derive(Clone, Copy, Debug, PartialEq, Eq, Structural)]
pub enum TokenError {
    /// There is no access token, or it does not expire.
    Access,
    /// There is no refresh token, or it does not expire.
    Refresh,
}

/// A token that is there and expires.
pub open spec fn usable(token: Option<Token>) -> bool {
    token matches Some(token) && token.expires_at is Some
}

/// Takes the tokens that the service answered with, where both are there and expire.
pub fn validate_tokens(access: Option<Token>, refresh: Option<Token>) -> (result: Result<
    AuthTokens,
    TokenError,
>)
    ensures
        result matches Ok(tokens) ==> access == Some(tokens.access) && refresh == Some(
            tokens.refresh,
        ) && usable(access) && usable(refresh),
        result matches Err(TokenError::Access) ==> !usable(access),
        result matches Err(TokenError::Refresh) ==> usable(access) && !usable(refresh),
        result is Ok <==> usable(access) && usable(refresh),
{
    match (access, refresh) {
        (Some(access), refresh) => {
            if access.expires_at.is_none() {
                return Err(TokenError::Access);
            }
            match refresh {
                Some(refresh) => if refresh.expires_at.is_none() {
                    Err(TokenError::Refresh)
                } else {
                    Ok(AuthTokens { access, refresh })
                },
                None => Err(TokenError::Refresh),
            }
        },
        (None, _) => Err(TokenError::Access),
    }
}

/// Puts a refreshed access token in place, where it is there and expires; else changes nothing.
pub fn replace_access(tokens: &mut AuthTokens, access: Option<Token>) -> (result: Result<
    (),
    TokenError,
>)
    ensures
        final(tokens).refresh == old(tokens).refresh,
        result is Ok <==> usable(access),
        result matches Err(error) ==> error == TokenError::Access && final(tokens).access == old(
            tokens,
        ).access,
        result is Ok ==> Some(final(tokens).access) == access,
{
    match access {
        Some(access) => {
            if access.expires_at.is_none() {
                Err(TokenError::Access)
            } else {
                tokens.access = access;
                Ok(())
            }
        },
        None => Err(TokenError::Access),
    }
}

/// The message that answers `challenge` for the identity that `address` spells.
pub fn challenge_message(address: &str, challenge: &str) -> (message: String)
    ensures
        message@ == address@ + seq!['-'] + challenge@,
{
    let mut message = String::new();
    message.append(address);
    message.append("-");
    message.append(challenge);
    proof {
        reveal_strlit("-");
        assert("-"@ =~= seq!['-']);
        assert(message@ =~= address@ + seq!['-'] + challenge@);
    }
    message
}

/// The answer to a challenge.
pub struct ChallengeAnswer {
    pub message: String,
    pub client_pubkey: [u8; 32],
    pub signed_challenge: [u8; 64],
}

/// The message with which the identity `key` answers `challenge`.
pub open spec fn answer_text(key: [u8; 32], challenge: Seq<char>) -> Seq<char> {
    address_text(key) + seq!['-'] + challenge
}

/// Answers `challenge` for `identity`: the message names the identity and the challenge, and the
/// signature is one of that message. `None` where `identity` is no key pair.
pub fn answer_challenge(identity: &[u8], challenge: &str) -> (result: Option<ChallengeAnswer>)
    ensures
        result is Some <==> identity_address(identity@) is Some,
        result matches Some(answer) ==> Some(answer.client_pubkey) == identity_address(identity@)
            && answer.message@ == answer_text(answer.client_pubkey, challenge@) && Some(
            answer.signed_challenge,
        ) == signature_by(identity@, encode_utf8(answer.message@)),
{
    match pubkey_of(identity) {
        None => None,
        Some(client_pubkey) => {
            let address = write_address(client_pubkey);
            let message = challenge_message(address.as_str(), challenge);
            let signed_challenge = sign(identity, message.as_str().as_bytes()).unwrap();
            Some(ChallengeAnswer { message, client_pubkey, signed_challenge })
        },
    }
}

/// The value of the HTTP authorization header for an access token.
pub fn bearer_header(access: &Token) -> (result: String)
    ensures
        result@ == "Bearer "@ + access.value@,
{
    let mut result = String::new();
    result.append("Bearer ");
    result.append(access.value.as_str());
    assert(result@ =~= "Bearer "@ + access.value@);
    result
}

/// Whether an endpoint with `scheme` is reached over TLS.
pub fn uses_tls(scheme: Option<&str>) -> (result: bool)
    ensures
        result == (scheme matches Some(name) && name@ == "https"@),
{
    match scheme {
        Some(name) => same_text(name, "https"),
        None => false,
    }
}

/// Tokens are renewed in time: what is kept at the time `now` has not expired at any time up to the
/// end of the window within which tokens are renewed, and a refresh is tried only with a refresh
/// token that has not expired.
pub proof fn law_tokens_are_renewed_in_time(tokens: AuthTokens, now: u64, later: u64)
    requires
        now <= later <= now + REFRESH_WITHIN_SECS,
    ensures
        due(tokens, now) == Renewal::Keep ==> expiry(tokens.access) > later && expiry(
            tokens.refresh,
        ) > later,
        due(tokens, now) == Renewal::Refresh ==> expiry(tokens.refresh) > later,
        due(tokens, later) == Renewal::Keep ==> due(tokens, now) == Renewal::Keep,
{
}

/// When tokens are renewed: with a new challenge where the refresh token expires within an hour, and
/// with the refresh token where only the access token does. A token that says nothing of its end, or
/// names a time before the epoch, counts as expired.
pub proof fn law_renewal_goes_by_the_hour(tokens: AuthTokens, now: u64)
    ensures
        ({
            let access = if tokens.access.expires_at is Some && tokens.access.expires_at->0 >= 0 {
                tokens.access.expires_at->0 as int
            } else {
                0
            };
            let refresh = if tokens.refresh.expires_at is Some && tokens.refresh.expires_at->0
                >= 0 {
                tokens.refresh.expires_at->0 as int
            } else {
                0
            };
            &&& expiry(tokens.access) == access
            &&& expiry(tokens.refresh) == refresh
            &&& due(tokens, now) == Renewal::Reauthenticate <==> refresh <= now + 3600
            &&& due(tokens, now) == Renewal::Refresh <==> refresh > now + 3600 && access <= now
                + 3600
            &&& due(tokens, now) == Renewal::Keep <==> refresh > now + 3600 && access > now + 3600
        }),
{
}

/// A token is taken exactly where it is there and says when it expires.
pub proof fn law_tokens_that_are_taken(token: Option<Token>)
    ensures
        usable(token) <==> token is Some && token->0.expires_at is Some,
{
}

/// The message that is signed spells the identity's address, a dash and the challenge, and so differs
/// for different challenges.
pub proof fn law_answers_name_identity_and_challenge(
    key: [u8; 32],
    challenge: Seq<char>,
    other: Seq<char>,
)
    ensures
        ({
            let text = answer_text(key, challenge);
            let address = address_text(key);
            &&& text.len() == address.len() + 1 + challenge.len()
            &&& text.take(address.len() as int) == address
            &&& text[address.len() as int] == '-'
            &&& text.skip((address.len() + 1) as int) == challenge
        }),
        answer_text(key, challenge) == answer_text(key, other) ==> challenge == other,
{
    let address = address_text(key);
    assert(answer_text(key, challenge).take(address.len() as int) =~= address);
    assert(answer_text(key, challenge).skip((address.len() + 1) as int) =~= challenge);
    assert(answer_text(key, other).skip((address.len() + 1) as int) =~= other);
}

} // verus!
