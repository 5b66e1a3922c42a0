use vstd::prelude::*;
use vstd::string::StringSliceAdditionalSpecFns;
use crate::claims::{ClaimsView, JwtTokenPair, TokenType};
use crate::codec::{decode_result, expected_decode, issued_token};
use crate::flow::{issued_for, refresh_finish, refresh_start, refresh_ttl, AuthError};
use crate::issuer::REFRESH_TTL;
use crate::validator::validate_result;

verus! {

/// An expiring record of spent refresh-token ids, held in memory.
pub struct MemoryLedger {
    /// Each entry is a spent id and the instant at which its record lapses.
    entries: Vec<(String, u64)>,
}

/// Whether `key` has a live record at `now`.
pub open spec fn spent(l: Seq<(Seq<char>, u64)>, key: Seq<char>, now: u64) -> bool {
    exists|i: int| 0 <= i < l.len() && (#[trigger] l[i]).0 == key && l[i].1 > now
}

/// A refresh of token `t` at `now` against ledger `l` gets past validation and
/// the replay check.
pub open spec fn refresh_admitted(l: Seq<(Seq<char>, u64)>, t: Seq<char>, key: Seq<u8>, now: u64) -> bool {
    match validate_result(t, key, TokenType::Refresh, now) {
        Ok(c) => !spent(l, c.jti, now),
        Err(_) => false,
    }
}

/// The ledger after an admitted refresh of `t`: the token's id is recorded until it expires.
pub open spec fn ledger_after(l: Seq<(Seq<char>, u64)>, t: Seq<char>, key: Seq<u8>, now: u64) -> Seq<
    (Seq<char>, u64),
> {
    let c = validate_result(t, key, TokenType::Refresh, now)->Ok_0;
    l.push((c.jti, c.exp))
}

impl View for MemoryLedger {
    type V = Seq<(Seq<char>, u64)>;

    closed spec fn view(&self) -> Seq<(Seq<char>, u64)> {
        self.entries@.map_values(|e: (String, u64)| (e.0@, e.1))
    }
}

impl MemoryLedger {
    pub fn new() -> (r: MemoryLedger)
        ensures
            r@ == Seq::<(Seq<char>, u64)>::empty(),
    {
        let r = MemoryLedger { entries: Vec::new() };
        assert(r@ =~= Seq::<(Seq<char>, u64)>::empty());
        r
    }

    /// Whether `key` has a live record at `now`.
    pub fn is_spent(&self, key: &str, now: u64) -> (r: bool)
        ensures
            r == spent(self@, key@, now),
    {
        let mut i: usize = 0;
        while i < self.entries.len()
            invariant
                i <= self.entries@.len(),
                self@.len() == self.entries@.len(),
                forall|k: int| 0 <= k < i ==> !((#[trigger] self@[k]).0 == key@ && self@[k].1 > now),
            decreases self.entries@.len() - i,
        {
            let e = &self.entries[i];
            assert(self@[i as int] == (e.0@, e.1));
            if e.1 > now && crate::text::same_text(e.0.as_str(), key) {
                return true;
            }
            i = i + 1;
        }
        false
    }

    /// Records `key` for `ttl` seconds unless it already has a live record;
    /// tells whether this call was the one that recorded it.
    pub fn consume(&mut self, key: &str, ttl: u64, now: u64) -> (r: bool)
        requires
            now + ttl <= u64::MAX,
        ensures
            r == !spent(old(self)@, key@, now),
            r ==> final(self)@ == old(self)@.push((key@, (now + ttl) as u64)),
            !r ==> final(self)@ == old(self)@,
    {
        if self.is_spent(key, now) {
            return false;
        }
        self.entries.push((key.to_owned(), now + ttl));
        assert(self@ =~= old(self)@.push((key@, (now + ttl) as u64)));
        true
    }
}

/// Exchanges a refresh token for a new pair, spending it in `ledger`.
pub fn refresh_token(ledger: &mut MemoryLedger, token: &str, secret: &str, now: u64) -> (r: Result<
    JwtTokenPair,
    AuthError,
>)
    requires
        now + REFRESH_TTL <= u64::MAX,
    ensures
        !refresh_admitted(old(ledger)@, token@, secret.spec_bytes(), now) ==> r == Err::<
            JwtTokenPair,
            AuthError,
        >(AuthError::Unauthorized) && final(ledger)@ == old(ledger)@,
        refresh_admitted(old(ledger)@, token@, secret.spec_bytes(), now) ==> final(ledger)@
            == ledger_after(old(ledger)@, token@, secret.spec_bytes(), now) && issued_for(
            r,
            validate_result(token@, secret.spec_bytes(), TokenType::Refresh, now)->Ok_0.sub,
            secret.spec_bytes(),
            now,
        ),
        refresh_admitted(old(ledger)@, token@, secret.spec_bytes(), now) ==> r is Ok || r == Err::<
            JwtTokenPair,
            AuthError,
        >(AuthError::IdCollision),
{
    let claims = match refresh_start(token, secret, now) {
        Ok(c) => c,
        Err(e) => {
            return Err(e);
        },
    };
    let seen = ledger.is_spent(claims.jti.as_str(), now);
    let ttl = match refresh_ttl(&claims, Ok(seen), now) {
        Ok(t) => t,
        Err(e) => {
            return Err(e);
        },
    };
    proof {
        crate::codec::lemma_decoded_encodable(token@, secret.spec_bytes(), now);
    }
    let first = ledger.consume(claims.jti.as_str(), ttl, now);
    refresh_finish(&claims, Ok(first), secret, now)
}

/// An issued refresh token whose id has no live record is admitted, and its
/// refresh records that id until the token expires.
pub proof fn lemma_fresh_refresh_admitted(
    l: Seq<(Seq<char>, u64)>,
    t: Seq<char>,
    key: Seq<u8>,
    c: ClaimsView,
    now: u64,
)
    requires
        issued_token(t, key, c),
        c.token_type == TokenType::Refresh,
        now < c.exp,
        !spent(l, c.jti, now),
    ensures
        refresh_admitted(l, t, key, now),
        ledger_after(l, t, key, now) == l.push((c.jti, c.exp)),
{
    assert(decode_result(t, key, now) == expected_decode(c, now));
}

/// A refresh token is honoured once: after one admitted refresh, no later
/// refresh of the same token is admitted, whatever else the ledger records.
pub proof fn lemma_single_use(
    l: Seq<(Seq<char>, u64)>,
    t: Seq<char>,
    key: Seq<u8>,
    now: u64,
    later: u64,
    more: Seq<(Seq<char>, u64)>,
)
    requires
        refresh_admitted(l, t, key, now),
        now <= later,
    ensures
        !refresh_admitted(ledger_after(l, t, key, now) + more, t, key, later),
{
    let c = validate_result(t, key, TokenType::Refresh, now)->Ok_0;
    let l2 = ledger_after(l, t, key, now) + more;
    assert(decode_result(t, key, now) == Ok::<ClaimsView, crate::codec::DecodeError>(c));
    assert(c.exp > now);
    if validate_result(t, key, TokenType::Refresh, later) is Ok {
        let d = validate_result(t, key, TokenType::Refresh, later)->Ok_0;
        assert(d == c);
        assert(l2[l.len() as int] == (c.jti, c.exp));
        assert(c.exp > later);
        assert(spent(l2, c.jti, later));
    }
}

} // verus!
