use vstd::prelude::*;
use crate::points::{Points, MAX_HALF_UNITS};

verus! {

/// The index of the first occurrence of `c` in `s`, or `-1` when `s`
/// does not contain it.
pub open spec fn find_char(s: Seq<char>, c: char) -> int
    decreases s.len(),
{
    if s.len() == 0 {
        -1
    } else if s[0] == c {
        0
    } else {
        let r = find_char(s.skip(1), c);
        if r == -1 {
            -1
        } else {
            r + 1
        }
    }
}

/// `find_char` returns the position of the first occurrence.
pub proof fn lemma_find_char_at(s: Seq<char>, c: char, j: int)
    requires
        0 <= j < s.len(),
        s[j] == c,
        forall|k: int| 0 <= k < j ==> s[k] != c,
    ensures
        find_char(s, c) == j,
    decreases j,
{
    if j > 0 {
        lemma_find_char_at(s.skip(1), c, j - 1);
    }
}

/// `find_char` yields `-1` or a position inside the sequence.
pub proof fn lemma_find_char_range(s: Seq<char>, c: char)
    ensures
        -1 <= find_char(s, c) < s.len(),
    decreases s.len(),
{
    if s.len() > 0 && s[0] != c {
        lemma_find_char_range(s.skip(1), c);
    }
}

/// `find_char` reports absence as `-1`.
pub proof fn lemma_find_char_missing(s: Seq<char>, c: char)
    requires
        forall|k: int| 0 <= k < s.len() ==> s[k] != c,
    ensures
        find_char(s, c) == -1,
    decreases s.len(),
{
    if s.len() > 0 {
        lemma_find_char_missing(s.skip(1), c);
    }
}

/// The decimal digit character for a value in `0..10`.
pub open spec fn digit_char(d: int) -> char {
    if d == 0 {
        '0'
    } else if d == 1 {
        '1'
    } else if d == 2 {
        '2'
    } else if d == 3 {
        '3'
    } else if d == 4 {
        '4'
    } else if d == 5 {
        '5'
    } else if d == 6 {
        '6'
    } else if d == 7 {
        '7'
    } else if d == 8 {
        '8'
    } else {
        '9'
    }
}

/// The decimal representation of a natural number, most significant
/// digit first, with no leading zeros (a single `'0'` for zero).
pub open spec fn dec_digits(n: nat) -> Seq<char>
    decreases n,
{
    if n < 10 {
        seq![digit_char(n as int)]
    } else {
        dec_digits(n / 10).push(digit_char((n % 10) as int))
    }
}

/// The text for a point quantity of `h` half-point units: the whole
/// part in decimal, followed by `.5` when a half point remains.
pub open spec fn points_text(h: int) -> Seq<char> {
    if h % 2 == 0 {
        dec_digits((h / 2) as nat)
    } else {
        dec_digits((h / 2) as nat) + seq!['.', '5']
    }
}

/// Whether `c` is a decimal digit character.
pub open spec fn is_digit(c: char) -> bool {
    '0' <= c && c <= '9'
}

/// The numeric value of a digit character.
pub open spec fn digit_val(c: char) -> int {
    c as int - '0' as int
}

/// Whether every character of `s` is a decimal digit.
pub open spec fn all_digits(s: Seq<char>) -> bool {
    forall|i: int| 0 <= i < s.len() ==> is_digit(#[trigger] s[i])
}

/// The numeric value of a digit sequence, read most significant first.
pub open spec fn digits_val(s: Seq<char>) -> int
    decreases s.len(),
{
    if s.len() == 0 {
        0
    } else {
        digits_val(s.drop_last()) * 10 + digit_val(s.last())
    }
}

/// The value of a digit sequence never shrinks as digits are appended.
pub proof fn lemma_digits_val_monotone(s: Seq<char>, i: int)
    requires
        0 <= i <= s.len(),
        all_digits(s),
    ensures
        digits_val(s.take(i)) <= digits_val(s),
        digits_val(s) >= 0,
    decreases s.len() - i,
{
    if i == s.len() {
        assert(s.take(i) =~= s);
        lemma_digits_val_nonneg(s);
    } else {
        lemma_digits_val_monotone(s, i + 1);
        assert(s.take(i + 1).drop_last() =~= s.take(i));
        lemma_digits_val_nonneg(s.take(i));
        assert(digits_val(s.take(i + 1)) == digits_val(s.take(i)) * 10 + digit_val(s.take(i + 1).last()));
        assert(digit_val(s.take(i + 1).last()) >= 0);
        assert(digits_val(s.take(i)) * 10 >= digits_val(s.take(i))) by (nonlinear_arith)
            requires digits_val(s.take(i)) >= 0;
    }
}

/// A sequence of digits has a non-negative value.
pub proof fn lemma_digits_val_nonneg(s: Seq<char>)
    requires
        all_digits(s),
    ensures
        digits_val(s) >= 0,
    decreases s.len(),
{
    if s.len() > 0 {
        assert(all_digits(s.drop_last()));
        lemma_digits_val_nonneg(s.drop_last());
        assert(digits_val(s.drop_last()) * 10 >= 0) by (nonlinear_arith)
            requires digits_val(s.drop_last()) >= 0;
    }
}

/// The `n`-th power of ten.
pub open spec fn pow10(n: nat) -> int
    decreases n,
{
    if n == 0 {
        1
    } else {
        10 * pow10((n - 1) as nat)
    }
}

/// Powers of ten grow with the exponent.
pub proof fn lemma_pow10_monotone(a: nat, b: nat)
    requires
        a <= b,
    ensures
        pow10(a) <= pow10(b),
        pow10(a) >= 1,
    decreases b,
{
    if b > 0 {
        if a == b {
            lemma_pow10_monotone((a - 1) as nat, (b - 1) as nat);
        } else {
            lemma_pow10_monotone(a, (b - 1) as nat);
        }
    }
}

/// A run of `n` digits has a value below the `n`-th power of ten.
pub proof fn lemma_digits_bound(s: Seq<char>)
    requires
        all_digits(s),
    ensures
        0 <= digits_val(s) < pow10(s.len()),
    decreases s.len(),
{
    if s.len() > 0 {
        assert(all_digits(s.drop_last()));
        lemma_digits_bound(s.drop_last());
        assert(is_digit(s.last()));
        assert(0 <= digit_val(s.last()) <= 9);
    }
}

/// A digit character survives the round trip through its value.
pub proof fn lemma_digit_char_roundtrip(c: char)
    requires
        is_digit(c),
    ensures
        digit_char(digit_val(c)) == c,
{
}

/// A decimal representation is a nonempty run of digits.
pub proof fn lemma_dec_digits_shape(n: nat)
    ensures
        dec_digits(n).len() >= 1,
        all_digits(dec_digits(n)),
    decreases n,
{
    if n < 10 {
        assert(is_digit(digit_char(n as int)));
        assert forall|k: int| 0 <= k < dec_digits(n).len() implies is_digit(
            #[trigger] dec_digits(n)[k],
        ) by {}
    } else {
        lemma_dec_digits_shape(n / 10);
        let s = dec_digits(n);
        let t = dec_digits(n / 10);
        assert(s == t.push(digit_char((n % 10) as int)));
        assert(is_digit(digit_char((n % 10) as int)));
        assert forall|k: int| 0 <= k < s.len() implies is_digit(#[trigger] s[k]) by {
            if k < t.len() {
                assert(s[k] == t[k]);
            }
        }
    }
}

/// Reading a decimal representation back gives the number it was
/// written from.
pub proof fn lemma_dec_digits_value(n: nat)
    ensures
        digits_val(dec_digits(n)) == n,
    decreases n,
{
    if n < 10 {
        let s = dec_digits(n);
        assert(s.drop_last().len() == 0);
        assert(digits_val(s) == digits_val(s.drop_last()) * 10 + digit_val(s.last()));
    } else {
        lemma_dec_digits_value(n / 10);
        let s = dec_digits(n);
        let t = dec_digits(n / 10);
        assert(s == t.push(digit_char((n % 10) as int)));
        assert(s.drop_last() =~= t);
        assert(digits_val(s) == digits_val(t) * 10 + digit_val(s.last()));
    }
}

/// Reading the text of a point quantity back gives the quantity it
/// was written from: the formatter and the reader invert one another.
pub proof fn lemma_points_text_round_trip(h: int)
    requires
        h >= 0,
    ensures
        points_halves_of(points_text(h)) == Some(h),
{
    let n = (h / 2) as nat;
    lemma_dec_digits_shape(n);
    lemma_dec_digits_value(n);
    let d = dec_digits(n);
    if h % 2 == 0 {
        let s = points_text(h);
        assert(s == d);
        assert forall|k: int| 0 <= k < s.len() implies s[k] != '.' by {
            assert(is_digit(s[k]));
        }
        lemma_find_char_missing(s, '.');
        assert(2 * digits_val(s) == h);
    } else {
        let s = points_text(h);
        assert(s == d + seq!['.', '5']);
        assert(s[d.len() as int] == '.');
        assert forall|k: int| 0 <= k < d.len() implies s[k] != '.' by {
            assert(s[k] == d[k]);
            assert(is_digit(d[k]));
        }
        lemma_find_char_at(s, '.', d.len() as int);
        let whole = s.take(d.len() as int);
        let frac = s.skip(d.len() as int + 1);
        assert(whole =~= d);
        assert(frac =~= seq!['5']);
        assert(is_digit('5'));
        assert(all_digits(frac));
        assert(frac.drop_last().len() == 0);
        assert(digits_val(frac) == digits_val(frac.drop_last()) * 10 + digit_val(frac.last()));
        assert(digits_val(frac) == 5);
        assert(frac_halves(5, 1) == 1);
        assert(2 * digits_val(whole) + 1 == h);
    }
}

/// The text of a point quantity is nonempty and free of the
/// characters that delimit roster rows.
pub proof fn lemma_points_text_shape(h: int)
    requires
        h >= 0,
    ensures
        points_text(h).len() >= 1,
        forall|k: int| 0 <= k < points_text(h).len() ==> #[trigger] points_text(h)[k] != '\n'
            && points_text(h)[k] != ',' && points_text(h)[k] != '\r',
{
    let n = (h / 2) as nat;
    lemma_dec_digits_shape(n);
    let d = dec_digits(n);
    let s = points_text(h);
    assert forall|k: int| 0 <= k < s.len() implies #[trigger] s[k] != '\n' && s[k] != ','
        && s[k] != '\r' by {
        if h % 2 == 0 {
            assert(s[k] == d[k]);
            assert(is_digit(s[k]));
        } else {
            if k < d.len() {
                assert(s[k] == d[k]);
                assert(is_digit(s[k]));
            } else if k == d.len() {
                assert(s[k] == '.');
            } else {
                assert(s[k] == '5');
            }
        }
    }
}

/// A run of at most two digits has a value of at most ninety-nine.
pub proof fn lemma_short_digits_bound(s: Seq<char>)
    requires
        all_digits(s),
        s.len() <= 2,
    ensures
        0 <= digits_val(s) <= 99,
{
    if s.len() == 1 {
        assert(s.drop_last().len() == 0);
        assert(digits_val(s.drop_last()) == 0);
        assert(is_digit(s.last()));
        assert(0 <= digit_val(s.last()) <= 9);
        assert(digits_val(s) == digits_val(s.drop_last()) * 10 + digit_val(s.last()));
    } else if s.len() == 2 {
        let t = s.drop_last();
        assert(t.len() == 1);
        assert(all_digits(t));
        assert(t.drop_last().len() == 0);
        assert(digits_val(t.drop_last()) == 0);
        assert(is_digit(t.last()));
        assert(0 <= digit_val(t.last()) <= 9);
        assert(digits_val(t) == digits_val(t.drop_last()) * 10 + digit_val(t.last()));
        assert(is_digit(s.last()));
        assert(0 <= digit_val(s.last()) <= 9);
        assert(digits_val(s) == digits_val(t) * 10 + digit_val(s.last()));
    }
}

/// Appends the digit character for `d` to `s`.
pub fn push_digit(s: &mut String, d: u32)
    requires
        d < 10,
    ensures
        final(s)@ == old(s)@.push(digit_char(d as int)),
{
    let ghost pre = s@;
    if d == 0 {
        s.append("0");
        proof {
            reveal_strlit("0");
            assert(final(s)@ =~= pre.push('0'));
        }
    } else if d == 1 {
        s.append("1");
        proof {
            reveal_strlit("1");
            assert(final(s)@ =~= pre.push('1'));
        }
    } else if d == 2 {
        s.append("2");
        proof {
            reveal_strlit("2");
            assert(final(s)@ =~= pre.push('2'));
        }
    } else if d == 3 {
        s.append("3");
        proof {
            reveal_strlit("3");
            assert(final(s)@ =~= pre.push('3'));
        }
    } else if d == 4 {
        s.append("4");
        proof {
            reveal_strlit("4");
            assert(final(s)@ =~= pre.push('4'));
        }
    } else if d == 5 {
        s.append("5");
        proof {
            reveal_strlit("5");
            assert(final(s)@ =~= pre.push('5'));
        }
    } else if d == 6 {
        s.append("6");
        proof {
            reveal_strlit("6");
            assert(final(s)@ =~= pre.push('6'));
        }
    } else if d == 7 {
        s.append("7");
        proof {
            reveal_strlit("7");
            assert(final(s)@ =~= pre.push('7'));
        }
    } else if d == 8 {
        s.append("8");
        proof {
            reveal_strlit("8");
            assert(final(s)@ =~= pre.push('8'));
        }
    } else {
        s.append("9");
        proof {
            reveal_strlit("9");
            assert(final(s)@ =~= pre.push('9'));
        }
    }
}

/// Appends the decimal representation of `n` to `s`.
pub fn append_u32(s: &mut String, n: u32)
    ensures
        final(s)@ == old(s)@ + dec_digits(n as nat),
    decreases n,
{
    if n < 10 {
        push_digit(s, n);
        assert(final(s)@ =~= old(s)@ + dec_digits(n as nat));
    } else {
        append_u32(s, n / 10);
        push_digit(s, n % 10);
        assert(final(s)@ =~= old(s)@ + dec_digits(n as nat));
    }
}

/// The decimal representation of `n` as a fresh string.
pub fn u32_string(n: u32) -> (r: String)
    ensures
        r@ == dec_digits(n as nat),
{
    let mut s = String::new();
    append_u32(&mut s, n);
    assert(s@ =~= dec_digits(n as nat));
    s
}

/// Appends the text for a point quantity to `s`.
pub fn append_points(s: &mut String, p: Points)
    ensures
        final(s)@ == old(s)@ + points_text(p.halves()),
{
    let h = p.half_units();
    append_u32(s, h / 2);
    if h % 2 == 1 {
        s.append(".5");
        proof {
            reveal_strlit(".5");
            assert(".5"@ =~= seq!['.', '5']);
            assert(final(s)@ =~= old(s)@ + points_text(p.halves()));
        }
    } else {
        assert(final(s)@ =~= old(s)@ + points_text(p.halves()));
    }
}

/// The text for a point quantity as a fresh string.
pub fn points_string(p: Points) -> (r: String)
    ensures
        r@ == points_text(p.halves()),
{
    let mut s = String::new();
    append_points(&mut s, p);
    assert(s@ =~= points_text(p.halves()));
    s
}

/// The half-point units contributed by a fraction of `k` decimal
/// digits with value `f`, rounded to the nearest half point (ties up):
/// the value of `2 * f / 10^k` rounded.
pub open spec fn frac_halves(f: int, k: int) -> int {
    if k == 1 {
        (4 * f + 10) / 20
    } else {
        (4 * f + 100) / 200
    }
}

/// The half-point units denoted by a point value written in decimal:
/// digits with an optional fraction of one or two digits, rounded to
/// the nearest half point.  `None` for any other shape.
pub open spec fn points_halves_of(s: Seq<char>) -> Option<int> {
    let dot = find_char(s, '.');
    if dot == -1 {
        if s.len() >= 1 && all_digits(s) {
            Some(2 * digits_val(s))
        } else {
            None
        }
    } else {
        let whole = s.take(dot);
        let frac = s.skip(dot + 1);
        if whole.len() >= 1 && all_digits(whole) && 1 <= frac.len() <= 2 && all_digits(frac) {
            Some(2 * digits_val(whole) + frac_halves(digits_val(frac), frac.len() as int))
        } else {
            None
        }
    }
}

/// Scans `s` between `start` and `end` for the first occurrence of `c`.
pub fn find_in_region(s: &str, start: usize, end: usize, c: char) -> (r: Option<usize>)
    requires
        start <= end <= s@.len(),
    ensures
        r matches Some(j) ==> (start <= j < end && s@[j as int] == c
            && forall|k: int| start <= k < j ==> s@[k] != c),
        r is None ==> forall|k: int| start <= k < end ==> s@[k] != c,
{
    let mut i: usize = start;
    while i < end
        invariant
            start <= i <= end <= s@.len(),
            forall|k: int| start <= k < i ==> s@[k] != c,
        decreases end - i,
    {
        if s.get_char(i) == c {
            return Some(i);
        }
        i += 1;
    }
    None
}

/// Reads a run of decimal digits between `start` and `end` of `s`,
/// refusing an empty run, a non-digit, or a value above ten million.
pub fn parse_digits_region(s: &str, start: usize, end: usize) -> (r: Option<u64>)
    requires
        start <= end <= s@.len(),
    ensures
        ({
            let region = s@.subrange(start as int, end as int);
            &&& (r is Some <==> (region.len() >= 1 && all_digits(region) && digits_val(region)
                <= 10_000_000))
            &&& (r matches Some(v) ==> v == digits_val(region))
        }),
{
    let ghost region = s@.subrange(start as int, end as int);
    if start == end {
        return None;
    }
    let mut acc: u64 = 0;
    let mut i: usize = start;
    while i < end
        invariant
            start <= i <= end <= s@.len(),
            region == s@.subrange(start as int, end as int),
            all_digits(region.take(i - start)),
            acc == digits_val(region.take(i - start)),
            acc <= 10_000_000,
        decreases end - i,
    {
        let c = s.get_char(i);
        match char_digit_value(c) {
            Some(d) => {
                proof {
                    assert(region.take(i + 1 - start).drop_last() =~= region.take(i - start));
                    assert(region.take(i + 1 - start).last() == c);
                }
                acc = acc * 10 + (d as u64);
                i += 1;
                if acc > 10_000_000 {
                    proof {
                        if all_digits(region) {
                            lemma_digits_val_monotone(region, i - start);
                        }
                    }
                    return None;
                }
            }
            None => {
                assert(!is_digit(region[i - start]));
                return None;
            }
        }
    }
    proof {
        assert(region.take(i - start) =~= region);
    }
    Some(acc)
}

/// Reads a point value written in decimal between `start` and `end` of
/// `s`, rounded to the nearest half point; refuses any other shape and
/// any value beyond the representable range.
pub fn parse_points_region(s: &str, start: usize, end: usize) -> (r: Option<Points>)
    requires
        start <= end <= s@.len(),
    ensures
        ({
            let region = s@.subrange(start as int, end as int);
            match r {
                Some(p) => points_halves_of(region) == Some(p.halves()) && p.halves()
                    <= MAX_HALF_UNITS,
                None => points_halves_of(region) is None || (points_halves_of(region)
                    matches Some(h) && h > MAX_HALF_UNITS),
            }
        }),
{
    let ghost region = s@.subrange(start as int, end as int);
    match find_in_region(s, start, end, '.') {
        None => {
            proof {
                lemma_find_char_missing(region, '.');
            }
            match parse_digits_region(s, start, end) {
                Some(v) => Some(Points::from_halves((2 * v) as u32)),
                None => {
                    proof {
                        if region.len() >= 1 && all_digits(region) {
                            lemma_digits_val_nonneg(region);
                        }
                    }
                    None
                }
            }
        }
        Some(j) => {
            proof {
                lemma_find_char_at(region, '.', j - start);
                assert(region.take(j - start) =~= s@.subrange(start as int, j as int));
                assert(region.skip(j - start + 1) =~= s@.subrange(j + 1, end as int));
            }
            let frac_len = end - (j + 1);
            if frac_len < 1 || frac_len > 2 {
                proof {
                    assert(find_char(region, '.') == j - start);
                    assert(region.skip(j - start + 1).len() == end - j - 1);
                    assert(points_halves_of(region) is None);
                }
                return None;
            }
            let whole = match parse_digits_region(s, start, j) {
                Some(v) => v,
                None => {
                    proof {
                        let whole_part = s@.subrange(start as int, j as int);
                        if whole_part.len() >= 1 && all_digits(whole_part) {
                            lemma_digits_val_nonneg(whole_part);
                            let frac_part = s@.subrange(j + 1, end as int);
                            if all_digits(frac_part) {
                                lemma_digits_val_nonneg(frac_part);
                            }
                        }
                    }
                    return None;
                }
            };
            let frac = match parse_digits_region(s, j + 1, end) {
                Some(v) => v,
                None => {
                    proof {
                        let frac_part = s@.subrange(j + 1, end as int);
                        if all_digits(frac_part) {
                            lemma_short_digits_bound(frac_part);
                        }
                    }
                    return None;
                }
            };
            let extra: u64 = if frac_len == 1 {
                (4 * frac + 10) / 20
            } else {
                (4 * frac + 100) / 200
            };
            let halves: u64 = 2 * whole + extra;
            if halves > MAX_HALF_UNITS as u64 {
                return None;
            }
            Some(Points::from_halves(halves as u32))
        }
    }
}

/// Whether two pieces of text hold the same characters.
pub fn str_eq(a: &str, b: &str) -> (r: bool)
    ensures
        r == (a@ == b@),
{
    let n = a.unicode_len();
    if n != b.unicode_len() {
        return false;
    }
    let mut i: usize = 0;
    while i < n
        invariant
            i <= n == a@.len() == b@.len(),
            forall|k: int| 0 <= k < i ==> a@[k] == b@[k],
        decreases n - i,
    {
        if a.get_char(i) != b.get_char(i) {
            return false;
        }
        i += 1;
    }
    proof {
        assert(a@ =~= b@);
    }
    true
}

/// Whether the characters of `s` between `start` and `end` are exactly
/// the characters of `lit`.
pub fn region_matches(s: &str, start: usize, end: usize, lit: &str) -> (r: bool)
    requires
        start <= end <= s@.len(),
    ensures
        r == (s@.subrange(start as int, end as int) == lit@),
{
    let n = lit.unicode_len();
    if end - start != n {
        return false;
    }
    let mut k: usize = 0;
    while k < n
        invariant
            start + n == end,
            end <= s@.len(),
            n == lit@.len(),
            k <= n,
            forall|m: int| 0 <= m < k ==> s@[start + m] == lit@[m],
        decreases n - k,
    {
        if s.get_char(start + k) != lit.get_char(k) {
            return false;
        }
        k += 1;
    }
    proof {
        assert(s@.subrange(start as int, end as int) =~= lit@);
    }
    true
}

/// The numeric value of a digit character, or `None` for any other
/// character; used to read digits out of text.
pub fn char_digit_value(c: char) -> (r: Option<u32>)
    ensures
        match r {
            Some(d) => is_digit(c) && d == digit_val(c) && d < 10,
            None => !is_digit(c),
        },
{
    if '0' <= c && c <= '9' {
        Some(c as u32 - '0' as u32)
    } else {
        None
    }
}

} // verus!
