//! The structured values that are validated, and how a path reaches into one.
use vstd::prelude::*;

verus! {

/// The number of fractional decimal digits a [`Decimal`] holds.
pub const FRACTION_DIGITS: u32 = 18;

/// `10^FRACTION_DIGITS`: the `scaled` value of the number one.
pub const UNIT: i128 = 1_000_000_000_000_000_000;

pub open spec fn pow10(n: nat) -> int
    decreases n,
{
    if n == 0 {
        1
    } else {
        10 * pow10((n - 1) as nat)
    }
}

proof fn lemma_pow10_bounds(a: nat, b: nat)
    requires
        a <= b,
    ensures
        1 <= pow10(a) <= pow10(b),
    decreases b,
{
    if b > a {
        lemma_pow10_bounds(a, (b - 1) as nat);
    } else if a > 0 {
        lemma_pow10_bounds((a - 1) as nat, (a - 1) as nat);
    }
}

/// An exact decimal number: `scaled / UNIT`, that is `FRACTION_DIGITS` digits
/// after the decimal point.
#[derive(Debug, Clone, Copy, PartialEq, Eq, Structural)]
pub struct Decimal {
    pub scaled: i128,
}

impl Decimal {
    /// The whole number `n`.
    pub fn from_int(n: i64) -> (r: Decimal)
        ensures
            r.scaled == n * UNIT,
    {
        Decimal { scaled: n as i128 * UNIT }
    }

    /// `mantissa / 10^scale`, or `None` when `scale` exceeds `FRACTION_DIGITS`.
    pub fn new(mantissa: i64, scale: u32) -> (r: Option<Decimal>)
        ensures
            scale <= FRACTION_DIGITS ==> r == Some(
                Decimal { scaled: (mantissa * pow10((FRACTION_DIGITS - scale) as nat)) as i128 },
            ),
            scale > FRACTION_DIGITS ==> r is None,
    {
        if scale > FRACTION_DIGITS {
            return None;
        }
        let shift: u32 = FRACTION_DIGITS - scale;
        let mut factor: i128 = 1;
        let mut k: u32 = 0;
        while k < shift
            invariant
                k <= shift <= FRACTION_DIGITS,
                factor == pow10(k as nat),
            decreases shift - k,
        {
            proof {
                lemma_pow10_bounds((k + 1) as nat, 18);
                assert(pow10(18) == UNIT) by {
                    reveal_with_fuel(pow10, 19);
                }
            }
            factor = factor * 10;
            k = k + 1;
        }
        proof {
            lemma_pow10_bounds(shift as nat, 18);
            assert(pow10(18) == UNIT) by {
                reveal_with_fuel(pow10, 19);
            }
            assert(-0x8000_0000_0000_0000 * factor <= mantissa * factor
                <= 0x7fff_ffff_ffff_ffff * factor) by (nonlinear_arith)
                requires
                    -0x8000_0000_0000_0000 <= mantissa <= 0x7fff_ffff_ffff_ffff,
                    factor >= 1,
            ;
        }
        Some(Decimal { scaled: mantissa as i128 * factor })
    }

    /// The number that plain decimal text `[-]digits[.digits]` denotes; `None`
    /// for other text, for more than `FRACTION_DIGITS` digits after the point,
    /// and for a number out of range.
    pub fn parse(text: &str) -> (r: Option<Decimal>)
        ensures
            match decimal_text_scaled(text@) {
                Some(v) => if i128::MIN <= v <= i128::MAX {
                    r == Some(Decimal { scaled: v as i128 })
                } else {
                    r is None
                },
                None => r is None,
            },
    {
        let n = text.unicode_len();
        let negative = n > 0 && text.get_char(0) == '-';
        let body: &str = if negative {
            text.substring_char(1, n)
        } else {
            text
        };
        assert(body@ =~= if negative { text@.drop_first() } else { text@ });
        let total = match parse_unsigned(body) {
            Some(t) => t,
            None => {
                return None;
            },
        };
        if negative {
            if total > MAGNITUDE_LIMIT {
                None
            } else if total == MAGNITUDE_LIMIT {
                Some(Decimal { scaled: i128::MIN })
            } else {
                Some(Decimal { scaled: -(total as i128) })
            }
        } else if total >= MAGNITUDE_LIMIT {
            None
        } else {
            Some(Decimal { scaled: total as i128 })
        }
    }
}

pub open spec fn is_digit(c: char) -> bool {
    '0' <= c && c <= '9'
}

/// The number that a run of decimal digits spells.
pub open spec fn digits_value(s: Seq<char>) -> nat
    decreases s.len(),
{
    if s.len() == 0 {
        0
    } else {
        digits_value(s.drop_last()) * 10 + (s.last() as nat - '0' as nat) as nat
    }
}

pub open spec fn all_digits(s: Seq<char>) -> bool {
    s.len() > 0 && forall|i: int| 0 <= i < s.len() ==> is_digit(#[trigger] s[i])
}

/// The index of the first `.` in `s`, or its length when there is none.
pub open spec fn point_index(s: Seq<char>) -> nat
    decreases s.len(),
{
    if s.len() == 0 || s[0] == '.' {
        0
    } else {
        1 + point_index(s.drop_first())
    }
}

/// The `scaled` value of unsigned decimal text `digits[.digits]`, with at
/// most `FRACTION_DIGITS` digits after the point; `None` for other text.
pub open spec fn unsigned_text_scaled(body: Seq<char>) -> Option<nat> {
    let point = point_index(body);
    let whole = body.subrange(0, point as int);
    let frac = if point < body.len() {
        body.subrange(point as int + 1, body.len() as int)
    } else {
        Seq::empty()
    };
    if all_digits(whole) && (point == body.len() || (all_digits(frac) && frac.len() <= FRACTION_DIGITS)) {
        Some(digits_value(whole) * (UNIT as nat) + digits_value(frac) * pow10((FRACTION_DIGITS - frac.len()) as nat) as nat)
    } else {
        None
    }
}

/// The `scaled` value of plain decimal text `[-]digits[.digits]`, with at
/// most `FRACTION_DIGITS` digits after the point; `None` for other text.
pub open spec fn decimal_text_scaled(text: Seq<char>) -> Option<int> {
    let negative = text.len() > 0 && text[0] == '-';
    let body = if negative {
        text.drop_first()
    } else {
        text
    };
    match unsigned_text_scaled(body) {
        Some(m) => Some(
            if negative {
                -m
            } else {
                m as int
            },
        ),
        None => None,
    }
}

proof fn lemma_digits_prefix_le(s: Seq<char>, i: int)
    requires
        0 <= i <= s.len(),
    ensures
        digits_value(s.subrange(0, i)) <= digits_value(s),
    decreases s.len() - i,
{
    if i < s.len() {
        lemma_digits_prefix_le(s, i + 1);
        assert(s.subrange(0, i + 1).drop_last() =~= s.subrange(0, i));
    } else {
        assert(s.subrange(0, i) =~= s);
    }
}

proof fn lemma_point_index(s: Seq<char>, i: int)
    requires
        0 <= i <= s.len(),
        forall|j: int| 0 <= j < i ==> s[j] != '.',
        i == s.len() || s[i] == '.',
    ensures
        point_index(s) == i,
    decreases i,
{
    if i > 0 {
        lemma_point_index(s.drop_first(), i - 1);
    }
}

proof fn lemma_point_index_at_least(s: Seq<char>, i: int)
    requires
        0 <= i <= s.len(),
        forall|j: int| 0 <= j < i ==> s[j] != '.',
    ensures
        point_index(s) >= i,
        point_index(s) <= s.len(),
    decreases s.len(),
{
    if s.len() > 0 && s[0] != '.' {
        lemma_point_index_at_least(s.drop_first(), if i > 0 { i - 1 } else { 0 });
    }
}

proof fn lemma_digits_below_pow10(s: Seq<char>)
    requires
        forall|i: int| 0 <= i < s.len() ==> is_digit(#[trigger] s[i]),
    ensures
        digits_value(s) < pow10(s.len()),
    decreases s.len(),
{
    if s.len() > 0 {
        lemma_digits_below_pow10(s.drop_last());
        assert(is_digit(s[s.len() - 1]));
    }
}

/// Reads decimal digits of `body` from `start` while they last: the index
/// where they stop and their value, or `None` once the value exceeds `cap`.
fn read_digits(body: &str, start: usize, n: usize, cap: u128) -> (r: Option<(usize, u128)>)
    requires
        n == body@.len(),
        start <= n,
        cap <= 1_000_000_000_000_000_000_000,
    ensures
        match r {
            Some((end, v)) => start <= end <= n && v <= cap && v == digits_value(body@.subrange(start as int, end as int))
                && (end == n || !is_digit(body@[end as int]))
                && forall|j: int| start <= j < end ==> is_digit(#[trigger] body@[j]),
            None => exists|end: int| start < end <= n && #[trigger] digits_value(body@.subrange(start as int, end)) > cap
                && forall|j: int| start <= j < end ==> is_digit(#[trigger] body@[j]),
        },
{
    let mut i: usize = start;
    let mut v: u128 = 0;
    assert(body@.subrange(start as int, start as int) =~= Seq::<char>::empty());
    while i < n
        invariant
            n == body@.len(),
            start <= i <= n,
            v <= cap <= 1_000_000_000_000_000_000_000,
            v == digits_value(body@.subrange(start as int, i as int)),
            forall|j: int| start <= j < i ==> is_digit(#[trigger] body@[j]),
        decreases n - i,
    {
        let c = body.get_char(i);
        if !('0' <= c && c <= '9') {
            return Some((i, v));
        }
        let d: u128 = (c as u32 - '0' as u32) as u128;
        let next: u128 = v * 10 + d;
        assert(body@.subrange(start as int, i + 1).drop_last() =~= body@.subrange(start as int, i as int));
        if next > cap {
            assert(digits_value(body@.subrange(start as int, i + 1)) > cap);
            return None;
        }
        v = next;
        i = i + 1;
    }
    Some((i, v))
}

/// The largest whole part that a `Decimal` can hold, rounded up.
const WHOLE_CAP: u128 = 200_000_000_000_000_000_000;

/// `2^127`: the magnitude of the smallest `scaled` value.
const MAGNITUDE_LIMIT: u128 = 0x8000_0000_0000_0000_0000_0000_0000_0000;


/// `f / 10^flen` in units of `1 / UNIT`.
fn scale_fraction(f: u128, flen: u32) -> (r: u128)
    requires
        flen <= FRACTION_DIGITS,
        f < pow10(flen as nat),
    ensures
        r == f * pow10((FRACTION_DIGITS - flen) as nat),
        r < UNIT,
{
    proof {
        assert(pow10(18) == UNIT) by {
            reveal_with_fuel(pow10, 19);
        }
    }
    let mut r: u128 = f;
    let mut k: u32 = 0;
    while k < FRACTION_DIGITS - flen
        invariant
            flen <= 18,
            pow10(18) == UNIT,
            k <= FRACTION_DIGITS - flen,
            r == f * pow10(k as nat),
            r < pow10((flen + k) as nat),
        decreases FRACTION_DIGITS - flen - k,
    {
        proof {
            lemma_pow10_bounds((flen + k + 1) as nat, 18);
            assert(f * pow10((k + 1) as nat) == f * pow10(k as nat) * 10) by (nonlinear_arith)
                requires
                    pow10((k + 1) as nat) == 10 * pow10(k as nat),
            ;
        }
        r = r * 10;
        k = k + 1;
    }
    r
}

/// The `scaled` value of unsigned decimal text; `None` also when the value
/// exceeds `MAGNITUDE_LIMIT`.
fn parse_unsigned(body: &str) -> (r: Option<u128>)
    ensures
        match unsigned_text_scaled(body@) {
            Some(m) => match r {
                Some(x) => x == m,
                None => m > MAGNITUDE_LIMIT,
            },
            None => r is None,
        },
{
    let ghost sb = body@;
    let bn = body.unicode_len();
    let ghost point = point_index(sb);
    let ghost w = sb.subrange(0, point as int);
    let ghost fr = if point < sb.len() { sb.subrange(point as int + 1, sb.len() as int) } else { Seq::empty() };
    let (wend, whole) = match read_digits(body, 0, bn, WHOLE_CAP) {
        Some(x) => x,
        None => {
            proof {
                let end = choose|end: int| 0 < end <= bn && #[trigger] digits_value(sb.subrange(0, end)) > WHOLE_CAP
                    && forall|j: int| 0 <= j < end ==> is_digit(#[trigger] sb[j]);
                lemma_point_index_at_least(sb, end);
                if all_digits(w) {
                    assert(w.subrange(0, end) =~= sb.subrange(0, end));
                    lemma_digits_prefix_le(w, end);
                    let scale = pow10((FRACTION_DIGITS - fr.len()) as nat);
                    lemma_pow10_bounds((FRACTION_DIGITS - fr.len()) as nat, (FRACTION_DIGITS - fr.len()) as nat);
                    let dw = digits_value(w);
                    let df = digits_value(fr);
                    assert(dw * UNIT + df * scale > WHOLE_CAP * UNIT) by (nonlinear_arith)
                        requires
                            dw > WHOLE_CAP,
                            df >= 0,
                            scale >= 1,
                    ;
                }
            }
            return None;
        },
    };
    proof {
        lemma_point_index_at_least(sb, wend as int);
    }
    if wend == 0 {
        proof {
            if point > 0 {
                assert(!is_digit(w[0]));
            }
        }
        return None;
    }
    let mut frac: u128 = 0;
    let mut flen: u32 = 0;
    if wend < bn {
        if body.get_char(wend) != '.' {
            proof {
                lemma_point_index_at_least(sb, wend + 1);
                assert(!is_digit(w[wend as int]));
            }
            return None;
        }
        proof {
            lemma_point_index(sb, wend as int);
        }
        let (fend, f) = match read_digits(body, wend + 1, bn, UNIT as u128) {
            Some(x) => x,
            None => {
                proof {
                    let end = choose|end: int| wend + 1 < end <= bn
                        && #[trigger] digits_value(sb.subrange(wend + 1, end)) > UNIT
                        && forall|j: int| wend + 1 <= j < end ==> is_digit(#[trigger] sb[j]);
                    let run = sb.subrange(wend + 1, end);
                    assert(pow10(18) == UNIT) by {
                        reveal_with_fuel(pow10, 19);
                    }
                    lemma_digits_below_pow10(run);
                    if run.len() <= 18 {
                        lemma_pow10_bounds(run.len(), 18);
                    }
                    if all_digits(fr) && fr.len() <= FRACTION_DIGITS {
                        assert(fr.subrange(0, run.len() as int) =~= run);
                        lemma_digits_prefix_le(fr, run.len() as int);
                        lemma_digits_below_pow10(fr);
                        lemma_pow10_bounds(fr.len(), 18);
                    }
                }
                return None;
            },
        };
        if fend < bn || fend == wend + 1 || fend - wend - 1 > FRACTION_DIGITS as usize {
            proof {
                if fend < bn {
                    assert(!is_digit(fr[fend - wend - 1]));
                }
            }
            return None;
        }
        frac = f;
        flen = (fend - wend - 1) as u32;
        proof {
            assert(sb.subrange(wend + 1, fend as int) =~= fr);
            lemma_digits_below_pow10(fr);
            assert forall|i: int| 0 <= i < fr.len() implies is_digit(#[trigger] fr[i]) by {
                assert(fr[i] == sb[wend + 1 + i]);
            }
        }
    } else {
        proof {
            lemma_point_index(sb, wend as int);
            assert(fr =~= Seq::<char>::empty());
        }
    }
    assert(sb.subrange(0, wend as int) =~= w);
    assert forall|i: int| 0 <= i < w.len() implies is_digit(#[trigger] w[i]) by {
        assert(w[i] == sb[i]);
    }
    assert(frac == digits_value(fr) && flen == fr.len());
    let scaled_frac = scale_fraction(frac, flen);
    assert(whole * UNIT <= WHOLE_CAP * UNIT) by (nonlinear_arith)
        requires
            whole <= WHOLE_CAP,
    ;
    let total: u128 = whole * (UNIT as u128) + scaled_frac;
    proof {
        lemma_pow10_bounds((FRACTION_DIGITS - fr.len()) as nat, (FRACTION_DIGITS - fr.len()) as nat);
        let dw = digits_value(w);
        let sf = digits_value(fr) * pow10((FRACTION_DIGITS - fr.len()) as nat);
        assert(total == dw * (UNIT as nat) + sf) by (nonlinear_arith)
            requires
                total == whole * UNIT + scaled_frac,
                whole == dw,
                scaled_frac == sf,
        ;
    }
    Some(total)
}

/// A structured value: the in-memory form of a JSON document.
#[derive(Debug)]
pub enum Value {
    Null,
    Bool(bool),
    Number(Decimal),
    String(String),
    Array(Vec<Value>),
    /// The members of an object, each name with its value.
    Object(Vec<(String, Value)>),
}

/// The value of the first entry of `entries` named `key`.
pub open spec fn lookup<T>(entries: Seq<(String, T)>, key: Seq<char>) -> Option<T>
    decreases entries.len(),
{
    if entries.len() == 0 {
        None
    } else if entries[0].0@ == key {
        Some(entries[0].1)
    } else {
        lookup(entries.drop_first(), key)
    }
}

/// The value that `path` reaches from `value`; a missing member, or a step
/// through a value that is not an object, reaches `Null`.
pub open spec fn value_at(value: Value, path: Seq<Seq<char>>) -> Value
    decreases path.len(),
{
    if path.len() == 0 {
        value
    } else {
        match value {
            Value::Object(fields) => match lookup(fields@, path[0]) {
                Some(v) => value_at(v, path.drop_first()),
                None => value_at(Value::Null, path.drop_first()),
            },
            _ => value_at(Value::Null, path.drop_first()),
        }
    }
}

/// No two entries share a name.
pub open spec fn keys_unique<T>(entries: Seq<(String, T)>) -> bool {
    forall|i: int, j: int| 0 <= i < j < entries.len() ==> #[trigger] entries[i].0@ != #[trigger] entries[j].0@
}

/// Tests that no two entries share a name.
pub fn has_unique_keys<T>(entries: &Vec<(String, T)>) -> (r: bool)
    ensures
        r == keys_unique(entries@),
{
    let mut j: usize = 0;
    while j < entries.len()
        invariant
            j <= entries@.len(),
            forall|a: int, b: int| 0 <= a < b < j ==> #[trigger] entries@[a].0@ != #[trigger] entries@[b].0@,
        decreases entries.len() - j,
    {
        let mut i: usize = 0;
        while i < j
            invariant
                i <= j < entries@.len(),
                forall|a: int| 0 <= a < i ==> #[trigger] entries@[a].0@ != entries@[j as int].0@,
            decreases j - i,
        {
            if entries[i].0 == entries[j].0 {
                return false;
            }
            i = i + 1;
        }
        j = j + 1;
    }
    true
}

/// Finds the first entry of `entries` named `key`.
pub fn find_entry<'a, T>(entries: &'a Vec<(String, T)>, key: &String) -> (r: Option<&'a T>)
    ensures
        match r {
            Some(v) => lookup(entries@, key@) == Some(*v),
            None => lookup(entries@, key@) is None,
        },
{
    let mut i: usize = 0;
    assert(entries@.subrange(0, entries@.len() as int) =~= entries@);
    while i < entries.len()
        invariant
            i <= entries@.len(),
            lookup(entries@, key@) == lookup(entries@.subrange(i as int, entries@.len() as int), key@),
        decreases entries.len() - i,
    {
        let entry = &entries[i];
        proof {
            let rest = entries@.subrange(i as int, entries@.len() as int);
            assert(rest[0] == entries@[i as int]);
            assert(rest.drop_first() =~= entries@.subrange(i + 1, entries@.len() as int));
        }
        if entry.0 == *key {
            return Some(&entry.1);
        }
        i = i + 1;
    }
    None
}

/// Once a path reaches `Null`, it stays there.
pub proof fn lemma_value_at_null(path: Seq<Seq<char>>)
    ensures
        value_at(Value::Null, path) == Value::Null,
    decreases path.len(),
{
    if path.len() > 0 {
        lemma_value_at_null(path.drop_first());
    }
}

} // verus!
