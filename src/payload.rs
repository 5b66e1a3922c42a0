use vstd::prelude::*;
use vstd::string::StringSliceAdditionalSpecFns;
use vstd::utf8::{decode_utf8, decode_utf8_encode_utf8, encode_utf8, encode_utf8_decode_utf8, encode_utf8_valid_utf8, valid_utf8};
use crate::claims::{Claims, ClaimsView, TokenType};
use crate::decimal::{canonical, digits_of, is_digit, lemma_digits_canonical, parse_decimal, push_decimal, value_of};
use crate::text::{bytes_at, find_byte, first_from, lemma_first_from, lemma_first_from_bounds, push_bytes};
use crate::outside::string_from_utf8;

verus! {

/// `{"sub":"`
pub open spec fn open_sub() -> Seq<u8> {
    seq![123u8, 34, 115, 117, 98, 34, 58, 34]
}

/// `","exp":`
pub open spec fn open_exp() -> Seq<u8> {
    seq![34u8, 44, 34, 101, 120, 112, 34, 58]
}

/// `,"token_type":"`
pub open spec fn open_type() -> Seq<u8> {
    seq![44u8, 34, 116, 111, 107, 101, 110, 95, 116, 121, 112, 101, 34, 58, 34]
}

/// `","jti":"`
pub open spec fn open_jti() -> Seq<u8> {
    seq![34u8, 44, 34, 106, 116, 105, 34, 58, 34]
}

/// `"}`
pub open spec fn close_obj() -> Seq<u8> {
    seq![34u8, 125]
}

/// The JSON string text of a token type.
pub open spec fn type_text(t: TokenType) -> Seq<u8> {
    match t {
        TokenType::Access => seq![65u8, 99, 99, 101, 115, 115],
        TokenType::Refresh => seq![82u8, 101, 102, 114, 101, 115, 104],
    }
}

pub open spec fn type_from_text(b: Seq<u8>) -> Option<TokenType> {
    if b == type_text(TokenType::Access) {
        Some(TokenType::Access)
    } else if b == type_text(TokenType::Refresh) {
        Some(TokenType::Refresh)
    } else {
        None
    }
}

/// A byte that may stand inside a JSON string, escaped if it is a quote or a
/// backslash (control bytes are not written).
pub open spec fn plain_byte(x: u8) -> bool {
    x >= 32
}

/// The JSON string text of one byte.
pub open spec fn escape_byte(x: u8) -> Seq<u8> {
    if x == 34 || x == 92 {
        seq![92u8, x]
    } else {
        seq![x]
    }
}

/// The JSON string text of some bytes: quotes and backslashes get a backslash.
pub open spec fn escaped(b: Seq<u8>) -> Seq<u8>
    decreases b.len(),
{
    if b.len() == 0 {
        Seq::<u8>::empty()
    } else {
        escape_byte(b[0]) + escaped(b.drop_first())
    }
}

/// Reads JSON string text starting at `i` up to its closing quote: the bytes it
/// stands for and the index of that quote.
pub open spec fn scan(p: Seq<u8>, i: int) -> Option<(Seq<u8>, int)>
    decreases p.len() - i,
{
    if i < 0 || i >= p.len() {
        None
    } else if p[i] == 34 {
        Some((Seq::<u8>::empty(), i))
    } else if p[i] == 92 {
        if i + 1 < p.len() && (p[i + 1] == 34 || p[i + 1] == 92) {
            match scan(p, i + 2) {
                Some(r) => Some((seq![p[i + 1]] + r.0, r.1)),
                None => None,
            }
        } else {
            None
        }
    } else {
        match scan(p, i + 1) {
            Some(r) => Some((seq![p[i]] + r.0, r.1)),
            None => None,
        }
    }
}

/// Escaping one more byte adds its text at the end.
pub proof fn lemma_escaped_push(b: Seq<u8>, x: u8)
    ensures
        escaped(b.push(x)) == escaped(b) + escape_byte(x),
    decreases b.len(),
{
    if b.len() == 0 {
        assert(b.push(x).drop_first() =~= Seq::<u8>::empty());
        assert(escaped(b.push(x).drop_first()) == Seq::<u8>::empty());
        assert(escaped(b) == Seq::<u8>::empty());
        assert(b.push(x)[0] == x);
        assert(escaped(b.push(x)) =~= escaped(b) + escape_byte(x));
    } else {
        lemma_escaped_push(b.drop_first(), x);
        assert(b.push(x).drop_first() =~= b.drop_first().push(x));
        assert(b.push(x)[0] == b[0]);
        assert(escaped(b.push(x)) == escape_byte(b[0]) + escaped(b.drop_first().push(x)));
        assert(escaped(b) == escape_byte(b[0]) + escaped(b.drop_first()));
        assert(escaped(b.push(x)) =~= escaped(b) + escape_byte(x));
    }
}

/// Scanning escaped text followed by a quote gives back the bytes.
pub proof fn lemma_scan_escaped(p: Seq<u8>, i: int, b: Seq<u8>)
    requires
        0 <= i,
        i + escaped(b).len() < p.len(),
        p.subrange(i, i + escaped(b).len()) == escaped(b),
        p[i + escaped(b).len()] == 34u8,
        plain_field(b),
    ensures
        scan(p, i) == Some((b, i + escaped(b).len())),
    decreases b.len(),
{
    if b.len() == 0 {
    } else {
        let x = b[0];
        let rest = b.drop_first();
        let w = escape_byte(x).len() as int;
        assert(escaped(b) == escape_byte(x) + escaped(rest));
        assert(p[i] == escaped(b)[0]);
        if x == 34 || x == 92 {
            assert(p[i + 1] == escaped(b)[1]);
        }
        assert(p.subrange(i + w, i + w + escaped(rest).len()) =~= escaped(rest)) by {
            assert forall|k: int| 0 <= k < escaped(rest).len() implies p.subrange(
                i + w,
                i + w + escaped(rest).len(),
            )[k] == escaped(rest)[k] by {
                assert(p[i + w + k] == p.subrange(i, i + escaped(b).len())[w + k]);
            }
        }
        assert(plain_byte(b[0]));
        assert forall|k: int| 0 <= k < rest.len() implies plain_byte(#[trigger] rest[k]) by {
            assert(rest[k] == b[k + 1]);
        }
        lemma_scan_escaped(p, i + w, rest);
        assert(seq![x] + rest =~= b);
    }
}

pub open spec fn plain_field(b: Seq<u8>) -> bool {
    forall|k: int| 0 <= k < b.len() ==> plain_byte(#[trigger] b[k])
}

/// Claims whose text fields hold no control character.
pub open spec fn encodable(c: ClaimsView) -> bool {
    plain_field(encode_utf8(c.sub)) && plain_field(encode_utf8(c.jti))
}

/// The JSON payload of a token: `{"sub":"..","exp":N,"token_type":"..","jti":".."}`.
pub open spec fn payload_bytes(c: ClaimsView) -> Seq<u8> {
    open_sub() + escaped(encode_utf8(c.sub)) + open_exp() + digits_of(c.exp as nat) + open_type()
        + type_text(c.token_type) + open_jti() + escaped(encode_utf8(c.jti)) + close_obj()
}

pub open spec fn lit_at(p: Seq<u8>, i: int, lit: Seq<u8>) -> bool {
    0 <= i && i + lit.len() <= p.len() && p.subrange(i, i + lit.len()) == lit
}

/// Reads a payload written by `payload_bytes`; anything else is `None`.
pub open spec fn parse_payload(p: Seq<u8>) -> Option<ClaimsView> {
    let s1 = scan(p, 8);
    let q1 = s1->Some_0.1;
    let b = q1 + 8;
    let e = first_from(p, b, 44u8);
    let t0 = e + 15;
    let q2 = first_from(p, t0, 34u8);
    let j0 = q2 + 9;
    let s3 = scan(p, j0);
    let q3 = s3->Some_0.1;
    let sub = s1->Some_0.0;
    let num = p.subrange(b, e);
    let ty = p.subrange(t0, q2);
    let jti = s3->Some_0.0;
    if lit_at(p, 0, open_sub()) && s1 is Some && s3 is Some && lit_at(p, q1, open_exp()) && lit_at(p, e, open_type())
        && lit_at(p, q2, open_jti()) && q3 + 2 == p.len() && lit_at(p, q3, close_obj())
        && canonical(num) && value_of(num) <= u64::MAX && type_from_text(ty) is Some
        && plain_field(sub) && plain_field(jti) && valid_utf8(sub) && valid_utf8(jti) {
        Some(
            ClaimsView {
                sub: decode_utf8(sub),
                exp: value_of(num) as u64,
                token_type: type_from_text(ty)->Some_0,
                jti: decode_utf8(jti),
            },
        )
    } else {
        None
    }
}

/// Claims read from a payload can always be written again.
pub proof fn lemma_parsed_encodable(p: Seq<u8>)
    requires
        parse_payload(p) is Some,
    ensures
        encodable(parse_payload(p)->Some_0),
{
    let q1 = scan(p, 8)->Some_0.1;
    let e = first_from(p, q1 + 8, 44u8);
    let q2 = first_from(p, e + 15, 34u8);
    decode_utf8_encode_utf8(scan(p, 8)->Some_0.0);
    decode_utf8_encode_utf8(scan(p, q2 + 9)->Some_0.0);
}

/// Reading back a written payload gives the same claims.
#[verifier::rlimit(100)]
pub proof fn lemma_payload_round_trip(c: ClaimsView)
    requires
        encodable(c),
    ensures
        parse_payload(payload_bytes(c)) == Some(c),
{
    let s = escaped(encode_utf8(c.sub));
    let d = digits_of(c.exp as nat);
    let t = type_text(c.token_type);
    let j = escaped(encode_utf8(c.jti));
    let p = payload_bytes(c);
    lemma_digits_canonical(c.exp as nat);
    let q1: int = 8 + s.len() as int;
    let b: int = q1 + 8;
    let e: int = b + d.len() as int;
    let t0: int = e + 15;
    let q2: int = t0 + t.len() as int;
    let j0: int = q2 + 9;
    let q3: int = j0 + j.len() as int;
    assert(p.len() == q3 + 2);
    assert(p.subrange(0, 8) =~= open_sub());
    assert(p.subrange(8, q1) =~= s);
    assert(p.subrange(q1, b) =~= open_exp());
    assert(p.subrange(b, e) =~= d);
    assert(p.subrange(e, t0) =~= open_type());
    assert(p.subrange(t0, q2) =~= t);
    assert(p.subrange(q2, j0) =~= open_jti());
    assert(p.subrange(j0, q3) =~= j);
    assert(p.subrange(q3, q3 + 2) =~= close_obj());
    assert(p[q1] == open_exp()[0]);
    lemma_scan_escaped(p, 8, encode_utf8(c.sub));
    assert forall|k: int| b <= k < e implies p[k] != 44u8 by {
        assert(p[k] == d[k - b]);
        assert(is_digit(d[k - b]));
    }
    assert(p[e] == open_type()[0]);
    lemma_first_from(p, b, e, 44u8);
    assert forall|k: int| t0 <= k < q2 implies p[k] != 34u8 by {
        assert(p[k] == t[k - t0]);
    }
    assert(p[q2] == open_jti()[0]);
    lemma_first_from(p, t0, q2, 34u8);
    assert(p[q3] == close_obj()[0]);
    lemma_scan_escaped(p, j0, encode_utf8(c.jti));
    encode_utf8_decode_utf8(c.sub);
    encode_utf8_valid_utf8(c.sub);
    encode_utf8_decode_utf8(c.jti);
    encode_utf8_valid_utf8(c.jti);
    assert(type_text(TokenType::Access) != type_text(TokenType::Refresh));
}

fn lit_open_sub() -> (r: Vec<u8>)
    ensures
        r@ == open_sub(),
{
    let r = vec![123u8, 34, 115, 117, 98, 34, 58, 34];
    assert(r@ =~= open_sub());
    r
}

fn lit_open_exp() -> (r: Vec<u8>)
    ensures
        r@ == open_exp(),
{
    let r = vec![34u8, 44, 34, 101, 120, 112, 34, 58];
    assert(r@ =~= open_exp());
    r
}

fn lit_open_type() -> (r: Vec<u8>)
    ensures
        r@ == open_type(),
{
    let r = vec![44u8, 34, 116, 111, 107, 101, 110, 95, 116, 121, 112, 101, 34, 58, 34];
    assert(r@ =~= open_type());
    r
}

fn lit_open_jti() -> (r: Vec<u8>)
    ensures
        r@ == open_jti(),
{
    let r = vec![34u8, 44, 34, 106, 116, 105, 34, 58, 34];
    assert(r@ =~= open_jti());
    r
}

fn lit_close_obj() -> (r: Vec<u8>)
    ensures
        r@ == close_obj(),
{
    let r = vec![34u8, 125];
    assert(r@ =~= close_obj());
    r
}

fn lit_type(t: TokenType) -> (r: Vec<u8>)
    ensures
        r@ == type_text(t),
{
    match t {
        TokenType::Access => {
            let r = vec![65u8, 99, 99, 101, 115, 115];
            assert(r@ =~= type_text(t));
            r
        },
        TokenType::Refresh => {
            let r = vec![82u8, 101, 102, 114, 101, 115, 104];
            assert(r@ =~= type_text(t));
            r
        },
    }
}

/// Whether every byte of `b[from..to]` may stand unescaped in a JSON string.
fn all_plain(b: &[u8], from: usize, to: usize) -> (r: bool)
    requires
        from <= to <= b@.len(),
    ensures
        r == plain_field(b@.subrange(from as int, to as int)),
{
    let ghost f = b@.subrange(from as int, to as int);
    let mut i: usize = from;
    while i < to
        invariant
            from <= i <= to <= b@.len(),
            f == b@.subrange(from as int, to as int),
            forall|k: int| 0 <= k < i - from ==> plain_byte(#[trigger] f[k]),
        decreases to - i,
    {
        let x = b[i];
        if x < 32u8 {
            assert(!plain_byte(f[i - from]));
            return false;
        }
        i = i + 1;
    }
    true
}

/// A copy of `b[from..to]`.
fn copy_range(b: &[u8], from: usize, to: usize) -> (r: Vec<u8>)
    requires
        from <= to <= b@.len(),
    ensures
        r@ == b@.subrange(from as int, to as int),
{
    let mut r: Vec<u8> = Vec::new();
    let mut i: usize = from;
    while i < to
        invariant
            from <= i <= to <= b@.len(),
            r@ == b@.subrange(from as int, i as int),
        decreases to - i,
    {
        r.push(b[i]);
        i = i + 1;
        assert(r@ =~= b@.subrange(from as int, i as int));
    }
    r
}

/// Appends the JSON string text of `src` to `out`.
fn push_escaped(out: &mut Vec<u8>, src: &[u8])
    ensures
        final(out)@ == old(out)@ + escaped(src@),
{
    let mut i: usize = 0;
    while i < src.len()
        invariant
            i <= src@.len(),
            out@ == old(out)@ + escaped(src@.subrange(0, i as int)),
        decreases src@.len() - i,
    {
        let x = src[i];
        proof {
            lemma_escaped_push(src@.subrange(0, i as int), x);
            assert(src@.subrange(0, i as int).push(x) =~= src@.subrange(0, i + 1));
        }
        if x == 34u8 || x == 92u8 {
            out.push(92u8);
        }
        out.push(x);
        i = i + 1;
        assert(out@ =~= old(out)@ + escaped(src@.subrange(0, i as int)));
    }
    assert(src@.subrange(0, i as int) =~= src@);
}

/// Reads JSON string text of `p` from `from` to its closing quote.
fn scan_text(p: &[u8], from: usize) -> (r: Option<(Vec<u8>, usize)>)
    ensures
        match r {
            Some(v) => scan(p@, from as int) == Some((v.0@, v.1 as int)),
            None => scan(p@, from as int) is None,
        },
{
    let n: usize = p.len();
    let mut acc: Vec<u8> = Vec::new();
    let mut i: usize = from;
    while i < n
        invariant
            n == p@.len(),
            from <= i,
            scan(p@, from as int) == match scan(p@, i as int) {
                Some(r) => Some((acc@ + r.0, r.1)),
                None => None,
            },
        decreases n - i,
    {
        let x = p[i];
        if x == 34u8 {
            assert(acc@ + Seq::<u8>::empty() =~= acc@);
            return Some((acc, i));
        }
        if x == 92u8 {
            if i + 1 < n && (p[i + 1] == 34u8 || p[i + 1] == 92u8) {
                let y = p[i + 1];
                let ghost old_acc = acc@;
                acc.push(y);
                proof {
                    assert forall|r: (Seq<u8>, int)| old_acc + (seq![y] + r.0) =~= acc@ + r.0 by {}
                }
                i = i + 2;
            } else {
                return None;
            }
        } else {
            let ghost old_acc = acc@;
            acc.push(x);
            proof {
                assert forall|r: (Seq<u8>, int)| old_acc + (seq![x] + r.0) =~= acc@ + r.0 by {}
            }
            i = i + 1;
        }
    }
    None
}

/// Whether the claims' text fields hold no control character.
pub fn is_encodable(c: &Claims) -> (r: bool)
    ensures
        r == encodable(c@),
{
    let sb: &[u8] = c.sub.as_str().as_bytes();
    let jb: &[u8] = c.jti.as_str().as_bytes();
    assert(sb@.subrange(0, sb@.len() as int) =~= sb@);
    assert(jb@.subrange(0, jb@.len() as int) =~= jb@);
    all_plain(sb, 0, sb.len()) && all_plain(jb, 0, jb.len())
}

/// The payload bytes of `c`.
pub fn write_payload(c: &Claims) -> (r: Vec<u8>)
    ensures
        r@ == payload_bytes(c@),
{
    let mut out: Vec<u8> = lit_open_sub();
    push_escaped(&mut out, c.sub.as_str().as_bytes());
    push_bytes(&mut out, lit_open_exp().as_slice());
    push_decimal(&mut out, c.exp);
    push_bytes(&mut out, lit_open_type().as_slice());
    push_bytes(&mut out, lit_type(c.token_type).as_slice());
    push_bytes(&mut out, lit_open_jti().as_slice());
    push_escaped(&mut out, c.jti.as_str().as_bytes());
    push_bytes(&mut out, lit_close_obj().as_slice());
    out
}

/// Reads payload bytes; exactly what `parse_payload` accepts gives claims.
#[verifier::rlimit(50)]
pub fn read_payload(p: &[u8]) -> (r: Option<Claims>)
    ensures
        match r {
            Some(c) => parse_payload(p@) == Some(c@),
            None => parse_payload(p@) is None,
        },
{
    let ghost g = p@;
    let n: usize = p.len();
    if !bytes_at(p, 0, lit_open_sub().as_slice()) {
        return None;
    }
    let (sub_bytes, q1) = match scan_text(p, 8) {
        Some(r) => r,
        None => {
            return None;
        },
    };
    let l1 = lit_open_exp();
    if !bytes_at(p, q1, l1.as_slice()) {
        return None;
    }
    assert(l1@.len() == 8);
    let b = q1 + 8;
    let e = find_byte(p, b, 44u8);
    let l2 = lit_open_type();
    if !bytes_at(p, e, l2.as_slice()) {
        return None;
    }
    assert(l2@.len() == 15);
    let t0 = e + 15;
    let q2 = find_byte(p, t0, 34u8);
    let l3 = lit_open_jti();
    if !bytes_at(p, q2, l3.as_slice()) {
        return None;
    }
    assert(l3@.len() == 9);
    let j0 = q2 + 9;
    let (jti_bytes, q3) = match scan_text(p, j0) {
        Some(r) => r,
        None => {
            return None;
        },
    };
    proof {
        lemma_first_from_bounds(g, b as int, 44u8);
        lemma_first_from_bounds(g, t0 as int, 34u8);
    }
    if q3 > n || n - q3 != 2 || !bytes_at(p, q3, lit_close_obj().as_slice()) {
        return None;
    }
    let exp = match parse_decimal(p, b, e) {
        Some(v) => v,
        None => {
            return None;
        },
    };
    let token_type = if bytes_at(p, t0, lit_type(TokenType::Access).as_slice()) && t0 + 6 == q2 {
        TokenType::Access
    } else if bytes_at(p, t0, lit_type(TokenType::Refresh).as_slice()) && t0 + 7 == q2 {
        TokenType::Refresh
    } else {
        assert(type_from_text(g.subrange(t0 as int, q2 as int)) is None);
        return None;
    };
    assert(type_from_text(g.subrange(t0 as int, q2 as int)) == Some(token_type));
    assert(sub_bytes@.subrange(0, sub_bytes@.len() as int) =~= sub_bytes@);
    assert(jti_bytes@.subrange(0, jti_bytes@.len() as int) =~= jti_bytes@);
    if !all_plain(sub_bytes.as_slice(), 0, sub_bytes.len()) || !all_plain(
        jti_bytes.as_slice(),
        0,
        jti_bytes.len(),
    ) {
        return None;
    }
    let sub = match string_from_utf8(sub_bytes) {
        Some(s) => s,
        None => {
            return None;
        },
    };
    let jti = match string_from_utf8(jti_bytes) {
        Some(s) => s,
        None => {
            return None;
        },
    };
    proof {
        encode_utf8_decode_utf8(sub@);
        encode_utf8_decode_utf8(jti@);
    }
    Some(Claims { sub, exp, token_type, jti })
}

} // verus!
