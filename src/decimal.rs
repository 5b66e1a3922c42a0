use vstd::prelude::*;

verus! {

pub open spec fn is_digit(b: u8) -> bool {
    48 <= b <= 57
}

/// The decimal digits (ASCII bytes) of `n`, without leading zeros.
pub open spec fn digits_of(n: nat) -> Seq<u8>
    decreases n,
{
    if n < 10 {
        seq![(48 + n) as u8]
    } else {
        digits_of(n / 10).push((48 + n % 10) as u8)
    }
}

/// The number that a run of ASCII digits denotes.
pub open spec fn value_of(d: Seq<u8>) -> nat
    decreases d.len(),
{
    if d.len() == 0 {
        0
    } else {
        value_of(d.drop_last()) * 10 + (d.last() - 48) as nat
    }
}

/// A non-empty run of digits with no leading zero (except "0" itself).
pub open spec fn canonical(d: Seq<u8>) -> bool {
    &&& d.len() >= 1
    &&& forall|k: int| 0 <= k < d.len() ==> is_digit(#[trigger] d[k])
    &&& (d.len() == 1 || d[0] != 48u8)
}

pub proof fn lemma_digits_canonical(n: nat)
    ensures
        canonical(digits_of(n)),
        value_of(digits_of(n)) == n,
        1 <= digits_of(n).len() <= n + 1,
        n >= 1 ==> digits_of(n)[0] != 48u8,
    decreases n,
{
    let d = digits_of(n);
    if n >= 10 {
        lemma_digits_canonical(n / 10);
        let e = digits_of(n / 10);
        assert(d.drop_last() =~= e);
        assert(d[0] == e[0]);
        assert forall|k: int| 0 <= k < d.len() implies is_digit(#[trigger] d[k]) by {
            if k < e.len() {
                assert(d[k] == e[k]);
            }
        }
        assert(value_of(d) == (n / 10) * 10 + n % 10);
        assert(canonical(d));
    } else {
        assert(d == seq![(48 + n) as u8]);
        assert(d.drop_last() =~= Seq::<u8>::empty());
        assert(value_of(d.drop_last()) == 0);
        assert(d.last() == 48 + n);
        assert(value_of(d) == n);
        assert(canonical(d));
    }
}

/// Adding digits never lowers the value.
pub proof fn lemma_value_prefix(d: Seq<u8>, k: int)
    requires
        0 <= k <= d.len(),
        forall|i: int| 0 <= i < d.len() ==> is_digit(#[trigger] d[i]),
    ensures
        value_of(d.subrange(0, k)) <= value_of(d),
    decreases d.len() - k,
{
    if k < d.len() {
        let e = d.subrange(0, k + 1);
        assert(e.drop_last() =~= d.subrange(0, k));
        assert forall|i: int| 0 <= i < e.len() implies is_digit(#[trigger] e[i]) by {
            assert(e[i] == d[i]);
        }
        lemma_value_prefix(d, k + 1);
    } else {
        assert(d.subrange(0, k) =~= d);
    }
}

/// Appends the decimal text of `n` to `out`.
pub fn push_decimal(out: &mut Vec<u8>, n: u64)
    ensures
        final(out)@ == old(out)@ + digits_of(n as nat),
    decreases n,
{
    if n >= 10 {
        push_decimal(out, n / 10);
    }
    let d: u8 = (n % 10) as u8;
    out.push(48u8 + d);
    assert(final(out)@ =~= old(out)@ + digits_of(n as nat));
}

/// Reads `b[from..to]` as a canonical decimal number that fits in `u64`.
pub fn parse_decimal(b: &[u8], from: usize, to: usize) -> (r: Option<u64>)
    requires
        from <= to <= b@.len(),
    ensures
        ({
            let d = b@.subrange(from as int, to as int);
            r == (if canonical(d) && value_of(d) <= u64::MAX {
                Some(value_of(d) as u64)
            } else {
                None
            })
        }),
{
    let ghost d = b@.subrange(from as int, to as int);
    if from == to || (to - from > 1 && b[from] == 48u8) {
        return None;
    }
    let mut i: usize = from;
    while i < to
        invariant
            from <= i <= to <= b@.len(),
            d == b@.subrange(from as int, to as int),
            forall|k: int| from <= k < i ==> is_digit(#[trigger] b@[k]),
        decreases to - i,
    {
        if b[i] < 48u8 || b[i] > 57u8 {
            assert(!is_digit(d[i - from]));
            return None;
        }
        i = i + 1;
    }
    assert forall|k: int| 0 <= k < d.len() implies is_digit(#[trigger] d[k]) by {
        assert(d[k] == b@[from + k]);
    }
    let mut acc: u64 = 0;
    let mut i: usize = from;
    while i < to
        invariant
            from <= i <= to <= b@.len(),
            d == b@.subrange(from as int, to as int),
            forall|k: int| 0 <= k < d.len() ==> is_digit(#[trigger] d[k]),
            acc as nat == value_of(d.subrange(0, i - from)),
        decreases to - i,
    {
        assert(is_digit(d[i - from]));
        let x: u64 = (b[i] - 48u8) as u64;
        let ghost e = d.subrange(0, i + 1 - from);
        assert(e.drop_last() =~= d.subrange(0, i - from));
        assert(e.last() == b@[i as int]);
        assert(value_of(e) == acc * 10 + x);
        if acc > (u64::MAX - x) / 10 {
            assert(acc * 10 + x > u64::MAX) by (nonlinear_arith)
                requires
                    acc > (u64::MAX - x) / 10,
                    x <= 9,
            ;
            proof { lemma_value_prefix(d, i + 1 - from); }
            return None;
        }
        assert(acc * 10 + x <= u64::MAX) by (nonlinear_arith)
            requires
                acc <= (u64::MAX - x) / 10,
                x <= 9,
        ;
        acc = acc * 10 + x;
        i = i + 1;
    }
    assert(d.subrange(0, to - from) =~= d);
    Some(acc)
}

} // verus!
