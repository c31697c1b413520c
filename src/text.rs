//! Text helpers: string comparison, decimal and fixed-point parsing, and
//! decimal rendering of integers.
use vstd::prelude::*;

verus! {

/// Scale of the library's fixed-point numbers: one whole unit.
pub const UNIT: u64 = 1_000_000;

/// Number of fractional digits that `UNIT` can hold.
pub const FRACTION_DIGITS: usize = 6;

pub open spec fn is_digit(c: char) -> bool {
    '0' <= c && c <= '9'
}

pub open spec fn digit_value(c: char) -> int {
    (c as int) - ('0' as int)
}

pub open spec fn all_digits(s: Seq<char>) -> bool {
    forall|i: int| 0 <= i < s.len() ==> is_digit(#[trigger] s[i])
}

/// The number that a sequence of decimal digits denotes.
pub open spec fn digits_value(s: Seq<char>) -> int
    decreases s.len(),
{
    if s.len() == 0 {
        0
    } else {
        digits_value(s.drop_last()) * 10 + digit_value(s.last())
    }
}

pub open spec fn pow10(n: nat) -> nat
    decreases n,
{
    if n == 0 {
        1
    } else {
        10 * pow10((n - 1) as nat)
    }
}

/// A non-empty run of decimal digits, and its value.
pub open spec fn uint_of(s: Seq<char>) -> Option<int> {
    if s.len() > 0 && all_digits(s) {
        Some(digits_value(s))
    } else {
        None
    }
}

/// `k` is the position of the first '.' in `s`, or `s.len()` if it has none.
pub open spec fn first_dot(s: Seq<char>, k: int) -> bool {
    &&& 0 <= k <= s.len()
    &&& k < s.len() ==> s[k] == '.'
    &&& forall|j: int| 0 <= j < k ==> s[j] != '.'
}

pub open spec fn dot_index(s: Seq<char>) -> int {
    choose|k: int| first_dot(s, k)
}

/// A non-negative decimal number with at most `FRACTION_DIGITS` fractional
/// digits ("12", "0.05"), as a multiple of `1 / UNIT`.
pub open spec fn fixed_of(s: Seq<char>) -> Option<int> {
    let k = dot_index(s);
    let whole = s.subrange(0, k);
    let frac = s.subrange(k + 1, s.len() as int);
    if k == s.len() {
        match uint_of(s) {
            Some(v) => Some(v * UNIT),
            None => None,
        }
    } else if uint_of(whole).is_some() && uint_of(frac).is_some() && frac.len() <= FRACTION_DIGITS {
        Some(digits_value(whole) * UNIT + digits_value(frac) * pow10(
            (FRACTION_DIGITS - frac.len()) as nat,
        ))
    } else {
        None
    }
}

/// `Some(v)` where `v` fits in a `u64`.
pub open spec fn fit_u64(v: Option<int>) -> Option<u64> {
    match v {
        Some(x) => if 0 <= x <= u64::MAX {
            Some(x as u64)
        } else {
            None
        },
        None => None,
    }
}

pub open spec fn digit_char(d: nat) -> char {
    (('0' as nat) + d) as char
}

/// Decimal rendering of a natural number, without leading zeros.
pub open spec fn decimal(n: nat) -> Seq<char>
    decreases n,
{
    if n < 10 {
        seq![digit_char(n)]
    } else {
        decimal(n / 10).push(digit_char(n % 10))
    }
}

/// Decimal rendering of an integer, with a leading '-' when negative.
pub open spec fn signed_decimal(v: int) -> Seq<char> {
    if v < 0 {
        seq!['-'] + decimal((-v) as nat)
    } else {
        decimal(v as nat)
    }
}

proof fn lemma_first_dot_unique(s: Seq<char>, k1: int, k2: int)
    requires
        first_dot(s, k1),
        first_dot(s, k2),
    ensures
        k1 == k2,
{
    if k1 < k2 {
        assert(s[k1] != '.');
    } else if k2 < k1 {
        assert(s[k2] != '.');
    }
}

proof fn lemma_digits_nonneg(s: Seq<char>)
    requires
        all_digits(s),
    ensures
        digits_value(s) >= 0,
    decreases s.len(),
{
    if s.len() > 0 {
        assert(all_digits(s.drop_last()));
        lemma_digits_nonneg(s.drop_last());
        assert(is_digit(s[s.len() - 1]));
    }
}

proof fn lemma_digits_monotone(s: Seq<char>, i: int, j: int)
    requires
        all_digits(s),
        0 <= i <= j <= s.len(),
    ensures
        digits_value(s.subrange(0, i)) <= digits_value(s.subrange(0, j)),
    decreases j - i,
{
    if i < j {
        lemma_digits_monotone(s, i, j - 1);
        let p = s.subrange(0, j);
        assert(p.drop_last() =~= s.subrange(0, j - 1));
        assert(all_digits(p.drop_last()));
        lemma_digits_nonneg(p.drop_last());
        assert(is_digit(s[j - 1]));
    }
}

/// Equality of two strings, character by character.
pub fn str_eq(a: &str, b: &str) -> (r: bool)
    ensures
        r == (a@ == b@),
{
    let n = a.unicode_len();
    if n != b.unicode_len() {
        return false;
    }
    let mut i: usize = 0;
    while i < n
        invariant
            n == a@.len(),
            n == b@.len(),
            0 <= i <= n,
            forall|j: int| 0 <= j < i ==> a@[j] == b@[j],
        decreases n - i,
    {
        if a.get_char(i) != b.get_char(i) {
            return false;
        }
        i += 1;
    }
    assert(a@ =~= b@);
    true
}

/// The value of the digits of `s` between `from` and `to`, if they are all
/// digits and the value fits in a `u64`.
fn parse_digits(s: &str, from: usize, to: usize) -> (r: Option<u64>)
    requires
        from <= to <= s@.len(),
    ensures
        ({
            let sub = s@.subrange(from as int, to as int);
            r == if all_digits(sub) && digits_value(sub) <= u64::MAX {
                Some(digits_value(sub) as u64)
            } else {
                None
            }
        }),
{
    let ghost sub = s@.subrange(from as int, to as int);
    let mut acc: u64 = 0;
    let mut i: usize = from;
    while i < to
        invariant
            from <= i <= to <= s@.len(),
            sub == s@.subrange(from as int, to as int),
            all_digits(sub.subrange(0, i - from)),
            acc as int == digits_value(sub.subrange(0, i - from)),
        decreases to - i,
    {
        let c = s.get_char(i);
        if !('0' <= c && c <= '9') {
            assert(sub[i - from] == c);
            return None;
        }
        let d = (c as u32 - '0' as u32) as u64;
        let ghost next = sub.subrange(0, i - from + 1);
        assert(next.drop_last() =~= sub.subrange(0, i - from));
        assert(next.last() == c);
        if acc > (u64::MAX - d) / 10 {
            proof {
                assert(digits_value(next) > u64::MAX);
                if all_digits(sub) {
                    lemma_digits_monotone(sub, i - from + 1, sub.len() as int);
                    assert(sub.subrange(0, sub.len() as int) =~= sub);
                }
            }
            return None;
        }
        acc = acc * 10 + d;
        i += 1;
        assert(all_digits(next)) by {
            assert forall|j: int| 0 <= j < next.len() implies is_digit(#[trigger] next[j]) by {
                if j < next.len() - 1 {
                    assert(next[j] == sub.subrange(0, i - from - 1)[j]);
                }
            }
        }
    }
    assert(sub.subrange(0, to - from) =~= sub);
    Some(acc)
}

/// Parses a whole non-negative number ("42").
pub fn parse_uint(s: &str) -> (r: Option<u64>)
    ensures
        r == fit_u64(uint_of(s@)),
{
    let n = s.unicode_len();
    if n == 0 {
        return None;
    }
    assert(s@.subrange(0, n as int) =~= s@);
    proof {
        if all_digits(s@) {
            lemma_digits_nonneg(s@);
        }
    }
    parse_digits(s, 0, n)
}

/// Parses a non-negative decimal number with at most `FRACTION_DIGITS`
/// fractional digits into a multiple of `1 / UNIT` ("0.05" gives 50 000).
pub fn parse_fixed(s: &str) -> (r: Option<u64>)
    ensures
        r == fit_u64(fixed_of(s@)),
{
    let n = s.unicode_len();
    let mut k: usize = 0;
    while k < n && s.get_char(k) != '.'
        invariant
            n == s@.len(),
            0 <= k <= n,
            forall|j: int| 0 <= j < k ==> s@[j] != '.',
        decreases n - k,
    {
        k += 1;
    }
    proof {
        assert(first_dot(s@, k as int));
        assert(exists|x: int| first_dot(s@, x));
        lemma_first_dot_unique(s@, k as int, dot_index(s@));
    }
    if k == n {
        if n == 0 {
            return None;
        }
        assert(s@.subrange(0, n as int) =~= s@);
        proof {
            if all_digits(s@) {
                lemma_digits_nonneg(s@);
            }
        }
        match parse_digits(s, 0, n) {
            Some(v) => {
                if v > u64::MAX / UNIT {
                    assert(v * UNIT > u64::MAX) by (nonlinear_arith)
                        requires
                            v > u64::MAX as int / (UNIT as int),
                            UNIT == 1_000_000,
                    {
                    }
                    return None;
                }
                assert(v * UNIT <= u64::MAX) by (nonlinear_arith)
                    requires
                        v <= u64::MAX as int / (UNIT as int),
                        UNIT == 1_000_000,
                {
                }
                return Some(v * UNIT);
            },
            None => {
                proof {
                    if all_digits(s@) {
                        assert(digits_value(s@) > u64::MAX);
                    }
                }
                return None;
            },
        }
    }
    if k == 0 || n - (k + 1) == 0 || n - (k + 1) > FRACTION_DIGITS {
        return None;
    }
    let whole = parse_digits(s, 0, k);
    let frac = parse_digits(s, k + 1, n);
    let ghost ws = s@.subrange(0, k as int);
    let ghost fs = s@.subrange(k + 1, n as int);
    let flen: usize = n - (k + 1);
    match (whole, frac) {
        (Some(w), Some(f)) => {
            let mut scale: u64 = 1;
            let mut j: usize = flen;
            while j < FRACTION_DIGITS
                invariant
                    flen <= j <= FRACTION_DIGITS,
                    scale as int == pow10((j - flen) as nat),
                    scale <= 1_000_000,
                decreases FRACTION_DIGITS - j,
            {
                assert(pow10((j + 1 - flen) as nat) == 10 * pow10((j - flen) as nat));
                assert(j - flen < 6);
                proof { lemma_pow10_bound((j - flen) as nat); }
                scale = scale * 10;
                j += 1;
            }
            proof {
                lemma_digits_bound(fs);
                lemma_pow10_mono(flen as nat, FRACTION_DIGITS as nat);
                lemma_pow10_six();
                lemma_digits_nonneg(ws);
            }
            assert(f as int * scale as int <= 999_999) by (nonlinear_arith)
                requires
                    (f as int) < pow10(flen as nat),
                    scale as int == pow10((FRACTION_DIGITS - flen) as nat),
                    pow10(flen as nat) * pow10((FRACTION_DIGITS - flen) as nat) == 1_000_000,
            {
            }
            let rest: u64 = f * scale;
            if w > (u64::MAX - rest) / UNIT {
                assert(w * UNIT + rest > u64::MAX) by (nonlinear_arith)
                    requires
                        w > (u64::MAX - rest) as int / (UNIT as int),
                        rest <= u64::MAX,
                        UNIT == 1_000_000,
                {
                }
                return None;
            }
            assert(w * UNIT + rest <= u64::MAX) by (nonlinear_arith)
                requires
                    w <= (u64::MAX - rest) as int / (UNIT as int),
                    rest <= u64::MAX,
                    UNIT == 1_000_000,
            {
            }
            Some(w * UNIT + rest)
        },
        _ => {
            proof {
                if all_digits(ws) && all_digits(fs) {
                    lemma_digits_bound(fs);
                    lemma_digits_nonneg(ws);
                    lemma_pow10_mono(fs.len(), FRACTION_DIGITS as nat);
                    lemma_pow10_six();
                    let wv = digits_value(ws);
                    let fv = digits_value(fs);
                    let sc = pow10((FRACTION_DIGITS - fs.len()) as nat);
                    lemma_pow10_pos((FRACTION_DIGITS - fs.len()) as nat);
                    if wv <= u64::MAX {
                        assert(fv < pow10(fs.len()));
                        assert(fv <= u64::MAX) by (nonlinear_arith)
                            requires
                                fv < pow10(fs.len()),
                                pow10(fs.len()) * sc == 1_000_000,
                                sc >= 0,
                                fv >= 0,
                        {
                        }
                    }
                    assert(wv > u64::MAX || fv > u64::MAX);
                    assert(wv * UNIT + fv * sc > u64::MAX) by (nonlinear_arith)
                        requires
                            wv > u64::MAX || fv > u64::MAX,
                            wv >= 0,
                            fv >= 0,
                            sc >= 1,
                            UNIT == 1_000_000,
                    {
                    }
                }
            }
            None
        },
    }
}

proof fn lemma_pow10_six()
    ensures
        pow10(FRACTION_DIGITS as nat) == 1_000_000,
{
    reveal_with_fuel(pow10, 7);
}

proof fn lemma_pow10_bound(n: nat)
    requires
        n < 6,
    ensures
        pow10(n) <= 100_000,
{
    reveal_with_fuel(pow10, 7);
}

proof fn lemma_pow10_mono(a: nat, b: nat)
    requires
        a <= b,
    ensures
        pow10(a) * pow10((b - a) as nat) == pow10(b),
    decreases b - a,
{
    assert(pow10(0) == 1);
    if a < b {
        let b1: nat = (b - 1) as nat;
        let d1: nat = (b1 - a) as nat;
        let d: nat = (b - a) as nat;
        lemma_pow10_mono(a, b1);
        assert(d1 == (d - 1) as nat);
        assert(pow10(d) == 10 * pow10(d1));
        assert(pow10(b) == 10 * pow10(b1));
        let pa = pow10(a);
        let pd1 = pow10(d1);
        assert(pa * (10 * pd1) == 10 * (pa * pd1)) by (nonlinear_arith);
        assert(pa * pow10(d) == pa * (10 * pd1));
        assert(pa * pow10(d) == pow10(b));
    } else {
        assert((b - a) as nat == 0);
        assert(pow10(a) * 1 == pow10(a));
    }
}

proof fn lemma_pow10_pos(n: nat)
    ensures
        pow10(n) >= 1,
    decreases n,
{
    if n > 0 {
        lemma_pow10_pos((n - 1) as nat);
    }
}

proof fn lemma_digits_bound(s: Seq<char>)
    requires
        all_digits(s),
    ensures
        0 <= digits_value(s) < pow10(s.len()),
    decreases s.len(),
{
    if s.len() > 0 {
        assert(all_digits(s.drop_last()));
        lemma_digits_bound(s.drop_last());
        assert(is_digit(s[s.len() - 1]));
        let p = pow10(s.drop_last().len());
        let v = digits_value(s.drop_last());
        assert(v * 10 + 9 < p * 10) by (nonlinear_arith)
            requires
                v < p,
        {
        }
    }
}


fn digit_str(d: u64) -> (r: &'static str)
    requires
        d < 10,
    ensures
        r@ == seq![digit_char(d as nat)],
{
    proof {
        reveal_strlit("0");
        reveal_strlit("1");
        reveal_strlit("2");
        reveal_strlit("3");
        reveal_strlit("4");
        reveal_strlit("5");
        reveal_strlit("6");
        reveal_strlit("7");
        reveal_strlit("8");
        reveal_strlit("9");
    }
    let r = match d {
        0 => "0",
        1 => "1",
        2 => "2",
        3 => "3",
        4 => "4",
        5 => "5",
        6 => "6",
        7 => "7",
        8 => "8",
        _ => "9",
    };
    assert(r@ =~= seq![digit_char(d as nat)]);
    r
}

/// Appends the decimal rendering of `n`.
pub fn push_decimal(out: &mut String, n: u64)
    ensures
        final(out)@ == old(out)@ + decimal(n as nat),
    decreases n,
{
    if n >= 10 {
        push_decimal(out, n / 10);
    }
    out.append(digit_str(n % 10));
    proof {
        if n >= 10 {
            assert(decimal(n as nat) == decimal((n / 10) as nat).push(digit_char((n % 10) as nat)));
            assert(old(out)@ + decimal((n / 10) as nat) + seq![digit_char((n % 10) as nat)] =~= old(out)@ + decimal(
                n as nat,
            ));
        } else {
            assert(n % 10 == n);
        }
    }
}

/// Appends the decimal rendering of `v`, with a '-' when negative.
pub fn push_signed(out: &mut String, v: i64)
    ensures
        final(out)@ == old(out)@ + signed_decimal(v as int),
{
    if v < 0 {
        proof {
            reveal_strlit("-");
        }
        out.append("-");
        let m: u64 = ((-(v as i128)) as u64);
        push_decimal(out, m);
        assert(old(out)@ + seq!['-'] + decimal(m as nat) =~= old(out)@ + (seq!['-'] + decimal(m as nat)));
    } else {
        push_decimal(out, v as u64);
    }
}


/// Number of UTF-16 code units of a character.
pub open spec fn utf16_width(c: char) -> int {
    if (c as u32) > 0xFFFF {
        2
    } else {
        1
    }
}

/// Number of UTF-16 code units before the `i`-th character of `s`.
pub open spec fn units_before(s: Seq<char>, i: int) -> int
    decreases i,
{
    if i <= 0 {
        0
    } else {
        units_before(s, i - 1) + utf16_width(s[i - 1])
    }
}

/// `a` is the first character that starts at code unit `u` or later, or
/// `s.len()` when there is none.
pub open spec fn first_at_unit(s: Seq<char>, u: int, a: int) -> bool {
    &&& 0 <= a <= s.len()
    &&& forall|j: int| 0 <= j < a ==> #[trigger] units_before(s, j) < u
    &&& a < s.len() ==> units_before(s, a) >= u
}

pub open spec fn char_at_unit(s: Seq<char>, u: int) -> int {
    choose|a: int| first_at_unit(s, u, a)
}

/// The characters of `s` whose UTF-16 code units lie between `offset` and
/// `offset + length`; `None` when one of the two bounds falls inside a
/// character's surrogate pair. A range past the end is cut at the end.
pub open spec fn utf16_slice(s: Seq<char>, offset: int, length: int) -> Option<Seq<char>> {
    let lo = char_at_unit(s, offset);
    let hi = char_at_unit(s, offset + length);
    if units_before(s, lo) > offset || units_before(s, hi) > offset + length {
        None
    } else {
        Some(s.subrange(lo, hi))
    }
}

proof fn lemma_first_at_unique(s: Seq<char>, u: int, a1: int, a2: int)
    requires
        first_at_unit(s, u, a1),
        first_at_unit(s, u, a2),
    ensures
        a1 == a2,
{
    if a1 < a2 {
        assert(units_before(s, a1) < u);
    } else if a2 < a1 {
        assert(units_before(s, a2) < u);
    }
}

proof fn lemma_first_at_below(s: Seq<char>, u1: int, u2: int, a1: int, a2: int)
    requires
        u1 <= u2,
        first_at_unit(s, u1, a1),
        first_at_unit(s, u2, a2),
    ensures
        a1 <= a2,
{
    if a2 < a1 {
        assert(units_before(s, a2) < u1);
        assert(units_before(s, a2) >= u2);
    }
}

proof fn lemma_units_bound(s: Seq<char>, i: int)
    requires
        i >= 0,
    ensures
        0 <= units_before(s, i) <= 2 * i,
    decreases i,
{
    if i > 0 {
        lemma_units_bound(s, i - 1);
    }
}

/// Scans from the `i`-th character, where `pos` code units have passed, to
/// the first character at code unit `u` or later.
fn scan_units(s: &str, n: usize, i: usize, pos: u128, u: u128) -> (r: (usize, u128))
    requires
        n == s@.len(),
        i <= n,
        pos == units_before(s@, i as int),
        forall|j: int| 0 <= j < i ==> #[trigger] units_before(s@, j) < u,
    ensures
        first_at_unit(s@, u as int, r.0 as int),
        r.1 == units_before(s@, r.0 as int),
{
    let mut i = i;
    let mut pos = pos;
    proof {
        lemma_units_bound(s@, i as int);
    }
    while i < n && pos < u
        invariant
            n == s@.len(),
            i <= n,
            pos == units_before(s@, i as int),
            pos <= 2 * i,
            forall|j: int| 0 <= j < i ==> #[trigger] units_before(s@, j) < u,
        decreases n - i,
    {
        let c = s.get_char(i);
        let w: u128 = if (c as u32) > 0xFFFF {
            2
        } else {
            1
        };
        pos = pos + w;
        i += 1;
    }
    (i, pos)
}

/// The text of a message entity given by UTF-16 offset and length.
pub fn utf16_entity(s: &str, offset: u64, length: u64) -> (r: Option<String>)
    ensures
        match utf16_slice(s@, offset as int, length as int) {
            Some(t) => r matches Some(x) && x@ == t,
            None => r is None,
        },
{
    let n = s.unicode_len();
    let lo_unit = offset as u128;
    let hi_unit = offset as u128 + length as u128;
    let (lo, lo_pos) = scan_units(s, n, 0, 0, lo_unit);
    let (hi, hi_pos) = scan_units(s, n, lo, lo_pos, hi_unit);
    proof {
        let u1: int = offset as int;
        let u2: int = offset + length;
        assert(first_at_unit(s@, u1, lo as int));
        assert(first_at_unit(s@, u2, hi as int));
        assert(exists|a: int| #[trigger] first_at_unit(s@, u1, a));
        assert(exists|a: int| #[trigger] first_at_unit(s@, u2, a));
        lemma_first_at_unique(s@, u1, lo as int, char_at_unit(s@, u1));
        lemma_first_at_unique(s@, u2, hi as int, char_at_unit(s@, u2));
        lemma_first_at_below(s@, u1, u2, lo as int, hi as int);
    }
    if lo_pos > lo_unit || hi_pos > hi_unit {
        return None;
    }
    Some(String::from_str(s.substring_char(lo, hi)))
}

} // verus!
