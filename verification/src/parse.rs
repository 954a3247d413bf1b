use vstd::prelude::*;

verus! {

/// An ASCII decimal digit, `'0'` to `'9'`.
pub open spec fn is_digit(b: u8) -> bool {
    48 <= b <= 57
}

/// A decimal numeral: one digit or more, and nothing else.
pub open spec fn is_numeral(s: Seq<u8>) -> bool {
    s.len() > 0 && forall|i: int| 0 <= i < s.len() ==> is_digit(#[trigger] s[i])
}

/// The value of a string of decimal digits, most significant first.
pub open spec fn digits_value(s: Seq<u8>) -> int
    decreases s.len(),
{
    if s.len() == 0 {
        0
    } else {
        digits_value(s.drop_last()) * 10 + (s.last() - 48)
    }
}

/// `s` without one leading `'+'`, if it has one.
pub open spec fn without_plus(s: Seq<u8>) -> Seq<u8> {
    if s.len() > 0 && s[0] == 43u8 {
        s.drop_first()
    } else {
        s
    }
}

/// Decimal text read as a `usize`: an optional `'+'`, then digits whose value
/// fits; anything else has no value.
pub open spec fn spec_parse_usize(s: Seq<u8>) -> Option<usize> {
    let d = without_plus(s);
    if is_numeral(d) && digits_value(d) <= usize::MAX {
        Some(digits_value(d) as usize)
    } else {
        None
    }
}

/// Decimal text read as an `i64`: an optional `'-'` or `'+'`, then digits
/// whose signed value fits; anything else has no value.
pub open spec fn spec_parse_i64(s: Seq<u8>) -> Option<i64> {
    if s.len() > 0 && s[0] == 45u8 {
        let d = s.drop_first();
        if is_numeral(d) && digits_value(d) <= 0x8000_0000_0000_0000 {
            Some((-digits_value(d)) as i64)
        } else {
            None
        }
    } else {
        let d = without_plus(s);
        if is_numeral(d) && digits_value(d) <= i64::MAX {
            Some(digits_value(d) as i64)
        } else {
            None
        }
    }
}

proof fn lemma_digits_value_nonneg(s: Seq<u8>)
    requires
        forall|i: int| 0 <= i < s.len() ==> is_digit(#[trigger] s[i]),
    ensures
        digits_value(s) >= 0,
    decreases s.len(),
{
    if s.len() > 0 {
        lemma_digits_value_nonneg(s.drop_last());
    }
}

/// A prefix of a string of digits is worth no more than the whole string.
proof fn lemma_digits_value_prefix(s: Seq<u8>, j: int)
    requires
        forall|i: int| 0 <= i < s.len() ==> is_digit(#[trigger] s[i]),
        0 <= j <= s.len(),
    ensures
        digits_value(s.take(j)) <= digits_value(s),
    decreases s.len() - j,
{
    if j == s.len() {
        assert(s.take(j) =~= s);
    } else {
        lemma_digits_value_prefix(s, j + 1);
        assert(s.take(j + 1).drop_last() =~= s.take(j));
        lemma_digits_value_nonneg(s.take(j));
    }
}

/// The value of the digits in `s[lo..hi]` if they form a numeral worth at most
/// `limit`.
fn parse_magnitude(s: &[u8], lo: usize, hi: usize, limit: u64) -> (r: Option<u64>)
    requires
        lo <= hi <= s@.len(),
    ensures
        r == (if is_numeral(s@.subrange(lo as int, hi as int)) && digits_value(
            s@.subrange(lo as int, hi as int),
        ) <= limit {
            Some(digits_value(s@.subrange(lo as int, hi as int)) as u64)
        } else {
            None::<u64>
        }),
        r matches Some(m) ==> m == digits_value(s@.subrange(lo as int, hi as int)) && m <= limit,
{
    let ghost sub = s@.subrange(lo as int, hi as int);
    if lo == hi {
        return None;
    }
    let mut acc: u64 = 0;
    let mut i: usize = lo;
    assert(s@.subrange(lo as int, lo as int) =~= Seq::<u8>::empty());
    while i < hi
        invariant
            lo <= i <= hi <= s@.len(),
            sub == s@.subrange(lo as int, hi as int),
            forall|t: int| lo <= t < i ==> is_digit(#[trigger] s@[t]),
            acc == digits_value(s@.subrange(lo as int, i as int)),
            acc <= limit,
        decreases hi - i,
    {
        let b = s[i];
        if b < 48 || b > 57 {
            assert(sub[i - lo] == b);
            return None;
        }
        let ghost next = s@.subrange(lo as int, i + 1);
        assert(next.drop_last() =~= s@.subrange(lo as int, i as int));
        assert(digits_value(next) == acc * 10 + (b - 48));
        let d: u64 = (b - 48) as u64;
        let grown = match acc.checked_mul(10) {
            Some(t) => t.checked_add(d),
            None => None,
        };
        match grown {
            Some(v) if v <= limit => {
                acc = v;
                i = i + 1;
            },
            _ => {
                proof {
                    if is_numeral(sub) {
                        lemma_digits_value_prefix(sub, i + 1 - lo);
                        assert(sub.take(i + 1 - lo) =~= next);
                    }
                }
                return None;
            },
        }
    }
    assert(s@.subrange(lo as int, i as int) =~= sub);
    Some(acc)
}

/// Reads `s[lo..hi]` as a `usize`, as `spec_parse_usize` says.
pub(crate) fn parse_usize_in(s: &[u8], lo: usize, hi: usize) -> (r: Option<usize>)
    requires
        lo <= hi <= s@.len(),
    ensures
        r == spec_parse_usize(s@.subrange(lo as int, hi as int)),
{
    let ghost whole = s@.subrange(lo as int, hi as int);
    let start: usize = if lo < hi && s[lo] == 43u8 {
        lo + 1
    } else {
        lo
    };
    assert(without_plus(whole) =~= s@.subrange(start as int, hi as int));
    let limit: u64 = usize::MAX as u64;
    match parse_magnitude(s, start, hi, limit) {
        Some(m) => Some(m as usize),
        None => None,
    }
}

/// Reads `s[lo..hi]` as an `i64`, as `spec_parse_i64` says.
pub(crate) fn parse_i64_in(s: &[u8], lo: usize, hi: usize) -> (r: Option<i64>)
    requires
        lo <= hi <= s@.len(),
    ensures
        r == spec_parse_i64(s@.subrange(lo as int, hi as int)),
{
    let ghost whole = s@.subrange(lo as int, hi as int);
    if lo < hi && s[lo] == 45u8 {
        assert(whole.drop_first() =~= s@.subrange(lo + 1, hi as int));
        match parse_magnitude(s, lo + 1, hi, 0x8000_0000_0000_0000u64) {
            Some(m) => {
                if m == 0x8000_0000_0000_0000u64 {
                    Some(i64::MIN)
                } else {
                    let v: i64 = m as i64;
                    Some(-v)
                }
            },
            None => None,
        }
    } else {
        let start: usize = if lo < hi && s[lo] == 43u8 {
            lo + 1
        } else {
            lo
        };
        assert(without_plus(whole) =~= s@.subrange(start as int, hi as int));
        match parse_magnitude(s, start, hi, 0x7fff_ffff_ffff_ffffu64) {
            Some(m) => Some(m as i64),
            None => None,
        }
    }
}

/// Reads decimal text as a `usize`: an optional `'+'` and then digits only,
/// with a value that fits; `None` for anything else.
pub fn parse_usize(s: &[u8]) -> (r: Option<usize>)
    ensures
        r == spec_parse_usize(s@),
{
    assert(s@.subrange(0, s@.len() as int) =~= s@);
    parse_usize_in(s, 0, s.len())
}

/// Reads decimal text as an `i64`: an optional `'-'` or `'+'` and then digits
/// only, with a value that fits; `None` for anything else.
pub fn parse_i64(s: &[u8]) -> (r: Option<i64>)
    ensures
        r == spec_parse_i64(s@),
{
    assert(s@.subrange(0, s@.len() as int) =~= s@);
    parse_i64_in(s, 0, s.len())
}


/// The decimal digits of `n`, most significant first, with no leading zero.
pub open spec fn decimal_text(n: nat) -> Seq<u8>
    decreases n,
{
    if n < 10 {
        seq![(48 + n) as u8]
    } else {
        decimal_text(n / 10).push((48 + n % 10) as u8)
    }
}

/// The decimal text of a signed value: a `'-'` before the digits of a
/// negative one.
pub open spec fn signed_text(v: int) -> Seq<u8> {
    if v < 0 {
        seq![45u8] + decimal_text((-v) as nat)
    } else {
        decimal_text(v as nat)
    }
}

/// The decimal text of `n` is a numeral worth `n`, and it does not start with
/// a sign.
pub proof fn lemma_decimal_text_value(n: nat)
    ensures
        is_numeral(decimal_text(n)),
        digits_value(decimal_text(n)) == n,
        decimal_text(n)[0] != 43u8,
        decimal_text(n)[0] != 45u8,
    decreases n,
{
    let t = decimal_text(n);
    if n >= 10 {
        lemma_decimal_text_value(n / 10);
        assert(t.drop_last() =~= decimal_text(n / 10));
        assert(t[0] == decimal_text(n / 10)[0]);
        assert(t.last() == 48 + n % 10);
        assert(digits_value(t) == (n / 10) * 10 + n % 10);
        assert((n / 10) * 10 + n % 10 == n) by (nonlinear_arith);
    } else {
        assert(t.drop_last() =~= Seq::<u8>::empty());
        assert(digits_value(Seq::<u8>::empty()) == 0);
        assert(t.last() == 48 + n);
    }
}

/// Reading back the decimal text of a `usize` gives that `usize`.
pub proof fn lemma_parse_usize_decimal_text(n: usize)
    ensures
        spec_parse_usize(decimal_text(n as nat)) == Some(n),
{
    lemma_decimal_text_value(n as nat);
}

/// Reading back the signed decimal text of an `i64` gives that `i64`.
pub proof fn lemma_parse_i64_signed_text(v: i64)
    ensures
        spec_parse_i64(signed_text(v as int)) == Some(v),
{
    if v < 0 {
        lemma_decimal_text_value((-v) as nat);
        let t = signed_text(v as int);
        assert(t.drop_first() =~= decimal_text((-v) as nat));
    } else {
        lemma_decimal_text_value(v as nat);
    }
}


/// A single digit reads as its own value.
pub proof fn lemma_parse_usize_one_digit(d: u8)
    requires
        is_digit(d),
    ensures
        spec_parse_usize(seq![d]) == Some((d - 48) as usize),
{
    let s = seq![d];
    assert(without_plus(s) =~= s);
    assert(s.drop_last() =~= Seq::<u8>::empty());
    assert(digits_value(Seq::<u8>::empty()) == 0);
}

/// Writing one more digit after a number multiplies it by ten and adds the
/// digit; past `usize::MAX` the text no longer reads.
pub proof fn lemma_parse_usize_push_digit(s: Seq<u8>, d: u8, v: usize)
    requires
        spec_parse_usize(s) == Some(v),
        is_digit(d),
    ensures
        10 * v + (d - 48) <= usize::MAX ==> spec_parse_usize(s.push(d)) == Some(
            (10 * v + (d - 48)) as usize,
        ),
        10 * v + (d - 48) > usize::MAX ==> spec_parse_usize(s.push(d)) is None,
{
    let t = s.push(d);
    let ds = without_plus(s);
    assert(s.len() > 0);
    assert(without_plus(t) =~= ds.push(d));
    assert(ds.push(d).drop_last() =~= ds);
    assert(is_numeral(ds.push(d)));
    lemma_digits_value_nonneg(ds);
    assert(digits_value(ds) == v);
    assert(digits_value(ds.push(d)) == digits_value(ds) * 10 + (d - 48));
}

/// Any byte that is not a digit, other than one leading `'+'`, keeps text
/// from reading as a `usize`; so does text with no digit at all.
pub proof fn lemma_parse_usize_rejects(s: Seq<u8>, i: int)
    requires
        0 <= i < s.len(),
        !is_digit(s[i]),
        !(i == 0 && s[0] == 43u8),
    ensures
        spec_parse_usize(s) is None,
{
    if s[0] == 43u8 {
        assert(without_plus(s)[i - 1] == s[i]);
    }
}

/// Text with no digit does not read as a `usize`.
pub proof fn lemma_parse_usize_needs_digits()
    ensures
        spec_parse_usize(Seq::<u8>::empty()) is None,
        spec_parse_usize(seq![43u8]) is None,
{
    assert(seq![43u8].drop_first() =~= Seq::<u8>::empty());
}

/// Signed reading agrees with unsigned reading on plain digits: the digits
/// read as the same value, after `'+'` too, and after `'-'` as its negation,
/// as far as the value fits an `i64`.
pub proof fn lemma_parse_i64_from_usize(s: Seq<u8>, v: usize)
    requires
        spec_parse_usize(s) == Some(v),
        is_digit(s[0]),
    ensures
        v <= i64::MAX ==> spec_parse_i64(s) == Some(v as i64),
        v <= i64::MAX ==> spec_parse_i64(seq![43u8] + s) == Some(v as i64),
        v <= 0x8000_0000_0000_0000 ==> spec_parse_i64(seq![45u8] + s) == Some((-v) as i64),
        v > i64::MAX ==> spec_parse_i64(s) is None,
{
    assert(without_plus(s) =~= s);
    lemma_digits_value_nonneg(s);
    assert(digits_value(s) == v);
    assert((seq![43u8] + s).drop_first() =~= s);
    assert((seq![45u8] + s).drop_first() =~= s);
    assert(without_plus(seq![43u8] + s) =~= s);
}

} // verus!
