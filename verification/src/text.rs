//! Character- and string-level helpers shared by the codecs of this crate.

use vstd::prelude::*;
use vstd::string::StringExecFns;

use crate::scheduler::name_less;

verus! {

/// Appends one character to a string (`String::push`).
#[verifier::external_body]
pub(crate) fn push_char(s: &mut String, c: char)
    ensures
        final(s)@ == old(s)@.push(c),
{
    s.push(c);
}

/// The characters of a string slice, in order.
pub fn chars_of(s: &str) -> (v: Vec<char>)
    ensures
        v@ == s@,
{
    let mut v: Vec<char> = Vec::new();
    for c in it: s.chars()
        invariant
            it.seq() == s@,
            v@ == it.seq().take(it.index() as int),
    {
        v.push(c);
    }
    v
}

/// Whether two character sequences are equal.
pub fn chars_eq(a: &Vec<char>, b: &Vec<char>) -> (r: bool)
    ensures
        r == (a@ == b@),
{
    if a.len() != b.len() {
        return false;
    }
    let mut i: usize = 0;
    while i < a.len()
        invariant
            a.len() == b.len(),
            i <= a.len(),
            forall|j: int| 0 <= j < i ==> a@[j] == b@[j],
        decreases a.len() - i,
    {
        if a[i] != b[i] {
            return false;
        }
        i += 1;
    }
    proof {
        assert(a@ =~= b@);
    }
    true
}

// ---------------------------------------------------------------------------
// Decimal numbers
// ---------------------------------------------------------------------------

pub open spec fn is_digit(c: char) -> bool {
    '0' <= c && c <= '9'
}

pub open spec fn digit_value(c: char) -> nat {
    (c as int - '0' as int) as nat
}

pub open spec fn digit_char(d: nat) -> char
    recommends
        d < 10,
{
    (d + '0' as nat) as char
}

/// Value of a run of decimal digits (most significant first).
pub open spec fn digits_value(s: Seq<char>) -> nat
    decreases s.len(),
{
    if s.len() == 0 {
        0
    } else {
        digits_value(s.drop_last()) * 10 + digit_value(s.last())
    }
}

pub open spec fn all_digits(s: Seq<char>) -> bool {
    forall|i: int| 0 <= i < s.len() ==> is_digit(#[trigger] s[i])
}

/// Rust's `str::parse` for an unsigned integer type whose largest value is
/// `max`: an optional `+`, then at least one ASCII digit, and no overflow.
pub open spec fn parse_unsigned(s: Seq<char>, max: nat) -> Option<nat> {
    let body = if s.len() > 0 && s[0] == '+' {
        s.drop_first()
    } else {
        s
    };
    if body.len() == 0 || !all_digits(body) || digits_value(body) > max {
        None
    } else {
        Some(digits_value(body))
    }
}

/// Shortest decimal spelling of `n`.
pub open spec fn decimal(n: nat) -> Seq<char>
    decreases n,
{
    if n < 10 {
        seq![digit_char(n)]
    } else {
        decimal(n / 10).push(digit_char(n % 10))
    }
}

/// `s` left-padded with `'0'` to at least `width` characters.
pub open spec fn zero_pad(s: Seq<char>, width: nat) -> Seq<char> {
    if s.len() >= width {
        s
    } else {
        Seq::new((width - s.len()) as nat, |i: int| '0') + s
    }
}

pub proof fn lemma_digit_char(d: nat)
    requires
        d < 10,
    ensures
        is_digit(digit_char(d)),
        digit_value(digit_char(d)) == d,
{
}

pub proof fn lemma_decimal(n: nat)
    ensures
        all_digits(decimal(n)),
        digits_value(decimal(n)) == n,
        decimal(n).len() >= 1,
    decreases n,
{
    if n < 10 {
        lemma_digit_char(n);
        assert(decimal(n).drop_last() =~= Seq::<char>::empty());
        assert(decimal(n).last() == digit_char(n));
        assert(digits_value(Seq::<char>::empty()) == 0);
    } else {
        lemma_decimal(n / 10);
        lemma_digit_char(n % 10);
        let d = decimal(n);
        assert(d.drop_last() =~= decimal(n / 10));
        assert(d.last() == digit_char(n % 10));
        assert(n == (n / 10) * 10 + n % 10);
        assert(all_digits(d)) by {
            assert forall|i: int| 0 <= i < d.len() implies is_digit(#[trigger] d[i]) by {
                if i < d.len() - 1 {
                    assert(d[i] == decimal(n / 10)[i]);
                }
            }
        }
    }
}

/// Leading zeros do not change the value of a digit run.
pub proof fn lemma_zeros_prefix_value(z: nat, s: Seq<char>)
    ensures
        digits_value(Seq::new(z, |i: int| '0') + s) == digits_value(s) + digits_value(
            Seq::new(z, |i: int| '0'),
        ) * pow10(s.len()),
        digits_value(Seq::new(z, |i: int| '0')) == 0,
    decreases s.len(), z,
{
    let zs = Seq::new(z, |i: int| '0');
    lemma_zeros_value(z);
    lemma_concat_value(zs, s);
}

pub open spec fn pow10(n: nat) -> nat
    decreases n,
{
    if n == 0 {
        1
    } else {
        10 * pow10((n - 1) as nat)
    }
}

pub proof fn lemma_zeros_value(z: nat)
    ensures
        digits_value(Seq::new(z, |i: int| '0')) == 0,
    decreases z,
{
    if z > 0 {
        lemma_zeros_value((z - 1) as nat);
        assert(Seq::new(z, |i: int| '0').drop_last() =~= Seq::new((z - 1) as nat, |i: int| '0'));
    }
}

pub proof fn lemma_concat_value(a: Seq<char>, b: Seq<char>)
    ensures
        digits_value(a + b) == digits_value(a) * pow10(b.len()) + digits_value(b),
    decreases b.len(),
{
    if b.len() == 0 {
        assert(a + b =~= a);
        assert(pow10(0) == 1);
    } else {
        lemma_concat_value(a, b.drop_last());
        assert((a + b).drop_last() =~= a + b.drop_last());
        assert((a + b).last() == b.last());
        let p = pow10((b.len() - 1) as nat);
        assert(pow10(b.len()) == 10 * p);
        let x = digits_value(a);
        let y = digits_value(b.drop_last());
        assert(digits_value(a + b) == (x * p + y) * 10 + digit_value(b.last()));
        assert(digits_value(b) == y * 10 + digit_value(b.last()));
        assert((x * p + y) * 10 == x * (10 * p) + y * 10) by (nonlinear_arith);
    }
}

pub proof fn lemma_all_digits_concat(a: Seq<char>, b: Seq<char>)
    requires
        all_digits(a),
        all_digits(b),
    ensures
        all_digits(a + b),
{
    assert forall|i: int| 0 <= i < (a + b).len() implies is_digit(#[trigger] (a + b)[i]) by {
        if i < a.len() {
            assert((a + b)[i] == a[i]);
        } else {
            assert((a + b)[i] == b[i - a.len()]);
        }
    }
}

/// A zero-padded decimal spelling parses back to its number.
pub proof fn lemma_parse_zero_padded(n: nat, width: nat, max: nat)
    requires
        n <= max,
    ensures
        parse_unsigned(zero_pad(decimal(n), width), max) == Some(n),
{
    lemma_decimal(n);
    let d = decimal(n);
    let p = zero_pad(d, width);
    if d.len() < width {
        let z = (width - d.len()) as nat;
        let zs = Seq::new(z, |i: int| '0');
        lemma_zeros_value(z);
        lemma_concat_value(zs, d);
        assert(all_digits(zs));
        lemma_all_digits_concat(zs, d);
        assert(p == zs + d);
        assert(p[0] == '0') by {
            if z > 0 {
                assert(p[0] == zs[0]);
            }
        }
    }
    assert(p.len() > 0);
    assert(is_digit(p[0]));
}

/// A run that is not all digits, or whose value exceeds `max`, is refused.
pub proof fn lemma_parse_refused(s: Seq<char>, body: Seq<char>, max: nat)
    requires
        body == (if s.len() > 0 && s[0] == '+' {
            s.drop_first()
        } else {
            s
        }),
        !all_digits(body) || digits_value(body) > max,
    ensures
        parse_unsigned(s, max) is None,
{
}

/// Writes the shortest decimal spelling of `n`.
pub fn decimal_u64(n: u64) -> (s: Vec<char>)
    ensures
        s@ == decimal(n as nat),
    decreases n,
{
    if n < 10 {
        let mut v: Vec<char> = Vec::new();
        v.push(digit_of(n));
        proof {
            assert(v@ =~= seq![digit_char(n as nat)]);
        }
        v
    } else {
        let mut v = decimal_u64(n / 10);
        v.push(digit_of(n % 10));
        v
    }
}

fn digit_of(d: u64) -> (c: char)
    requires
        d < 10,
    ensures
        c == digit_char(d as nat),
{
    let table: [char; 10] = ['0', '1', '2', '3', '4', '5', '6', '7', '8', '9'];
    let c = table[d as usize];
    proof {
        assert(table@ =~= seq!['0', '1', '2', '3', '4', '5', '6', '7', '8', '9']);
        assert(d == 0 || d == 1 || d == 2 || d == 3 || d == 4 || d == 5 || d == 6 || d == 7
            || d == 8 || d == 9);
    }
    c
}

/// Writes `n` in decimal, left-padded with zeros to `width` characters.
pub fn zero_padded_u64(n: u64, width: usize) -> (s: Vec<char>)
    ensures
        s@ == zero_pad(decimal(n as nat), width as nat),
{
    let digits = decimal_u64(n);
    if digits.len() >= width {
        return digits;
    }
    let pad: usize = width - digits.len();
    let mut out: Vec<char> = Vec::new();
    let mut i: usize = 0;
    while i < pad
        invariant
            i <= pad,
            out@ == Seq::new(i as nat, |j: int| '0'),
        decreases pad - i,
    {
        out.push('0');
        proof {
            assert(out@ =~= Seq::new((i + 1) as nat, |j: int| '0'));
        }
        i += 1;
    }
    let mut k: usize = 0;
    while k < digits.len()
        invariant
            k <= digits.len(),
            out@ == Seq::new(pad as nat, |j: int| '0') + digits@.take(k as int),
        decreases digits.len() - k,
    {
        out.push(digits[k]);
        proof {
            assert(digits@.take(k + 1) == digits@.take(k as int).push(digits@[k as int]));
        }
        k += 1;
    }
    proof {
        assert(digits@.take(digits.len() as int) == digits@);
    }
    out
}

/// Parses `s` as an unsigned decimal no larger than `max` (Rust's
/// `str::parse` for unsigned types).
pub fn parse_unsigned_chars(s: &[char], max: u64) -> (r: Option<u64>)
    ensures
        r matches Some(v) ==> parse_unsigned(s@, max as nat) == Some(v as nat),
        r is None ==> parse_unsigned(s@, max as nat) is None,
{
    let start: usize = if s.len() > 0 && s[0] == '+' {
        1
    } else {
        0
    };
    let ghost body = if s@.len() > 0 && s@[0] == '+' {
        s@.drop_first()
    } else {
        s@
    };
    proof {
        assert(body =~= s@.skip(start as int));
    }
    if start >= s.len() {
        return None;
    }
    let mut value: u64 = 0;
    let mut i: usize = start;
    while i < s.len()
        invariant
            start <= i <= s.len(),
            body =~= s@.skip(start as int),
            body == (if s@.len() > 0 && s@[0] == '+' {
                s@.drop_first()
            } else {
                s@
            }),
            all_digits(s@.subrange(start as int, i as int)),
            value as nat == digits_value(s@.subrange(start as int, i as int)),
            value <= max,
        decreases s.len() - i,
    {
        let c = s[i];
        let ghost prefix = s@.subrange(start as int, i as int);
        let ghost next = s@.subrange(start as int, i + 1);
        proof {
            assert(next.drop_last() =~= prefix);
            assert(next.last() == c);
        }
        if !('0' <= c && c <= '9') {
            proof {
                assert(body[i - start] == c);
                assert(!is_digit(body[i - start]));
                assert(!all_digits(body));
                lemma_parse_refused(s@, body, max as nat);
            }
            return None;
        }
        let d: u64 = (c as u32 - '0' as u32) as u64;
        if d > max || value > (max - d) / 10 {
            proof {
                assert(digits_value(next) == value * 10 + d);
                if d <= max {
                    assert(value * 10 + d > max) by (nonlinear_arith)
                        requires
                            value > (max - d) / 10,
                            d <= max,
                    ;
                }
                assert(body.take((i + 1 - start) as int) =~= next);
                lemma_prefix_value_bound(body, (i + 1 - start) as nat);
                lemma_parse_refused(s@, body, max as nat);
            }
            return None;
        }
        proof {
            assert(value * 10 + d <= max) by (nonlinear_arith)
                requires
                    value <= (max - d) / 10,
                    d <= max,
            ;
            assert(all_digits(next)) by {
                assert forall|j: int| 0 <= j < next.len() implies is_digit(#[trigger] next[j]) by {
                    if j < prefix.len() {
                        assert(next[j] == prefix[j]);
                    }
                }
            }
        }
        value = value * 10 + d;
        i += 1;
    }
    proof {
        assert(s@.subrange(start as int, s.len() as int) =~= body);
    }
    Some(value)
}

/// The value of a digit run is at least the value of any of its prefixes.
pub proof fn lemma_prefix_value_bound(s: Seq<char>, k: nat)
    requires
        k <= s.len(),
        all_digits(s.take(k as int)),
    ensures
        all_digits(s) ==> digits_value(s) >= digits_value(s.take(k as int)),
    decreases s.len() - k,
{
    if k < s.len() && all_digits(s) {
        assert(all_digits(s.take(k as int + 1))) by {
            assert forall|j: int| 0 <= j < k + 1 implies is_digit(#[trigger] s.take(k as int + 1)[j]) by {
                assert(s.take(k as int + 1)[j] == s[j]);
            }
        }
        lemma_prefix_value_bound(s, k + 1);
        assert(s.take(k as int + 1).drop_last() =~= s.take(k as int));
    } else if k == s.len() {
        assert(s.take(k as int) =~= s);
    }
}

// ---------------------------------------------------------------------------
// Lines, whitespace and substrings (the semantics of `str::lines`,
// `char::is_whitespace`, `str::trim*`, `str::contains`, `str::split_once`)
// ---------------------------------------------------------------------------

/// Unicode `White_Space`, as `char::is_whitespace` tests it.
pub open spec fn is_whitespace(c: char) -> bool {
    ('\u{9}' <= c && c <= '\u{d}') || c == ' ' || c == '\u{85}' || c == '\u{a0}' || c
        == '\u{1680}' || ('\u{2000}' <= c && c <= '\u{200a}') || c == '\u{2028}' || c
        == '\u{2029}' || c == '\u{202f}' || c == '\u{205f}' || c == '\u{3000}'
}

pub fn is_whitespace_exec(c: char) -> (r: bool)
    ensures
        r == is_whitespace(c),
{
    ('\u{9}' <= c && c <= '\u{d}') || c == ' ' || c == '\u{85}' || c == '\u{a0}' || c
        == '\u{1680}' || ('\u{2000}' <= c && c <= '\u{200a}') || c == '\u{2028}' || c
        == '\u{2029}' || c == '\u{202f}' || c == '\u{205f}' || c == '\u{3000}'
}

/// Index of the first occurrence of `c` in `s`, if any.
pub open spec fn find_char(s: Seq<char>, c: char) -> Option<int>
    decreases s.len(),
{
    if s.len() == 0 {
        None
    } else if s[0] == c {
        Some(0)
    } else {
        match find_char(s.drop_first(), c) {
            Some(i) => Some(i + 1),
            None => None,
        }
    }
}

pub proof fn lemma_find_char_bounds(s: Seq<char>, c: char)
    ensures
        find_char(s, c) matches Some(i) ==> 0 <= i < s.len() && s[i] == c && forall|j: int|
            0 <= j < i ==> s[j] != c,
        find_char(s, c) is None ==> forall|j: int| 0 <= j < s.len() ==> s[j] != c,
    decreases s.len(),
{
    if s.len() > 0 {
        lemma_find_char_bounds(s.drop_first(), c);
        if s[0] != c {
            assert forall|j: int| 1 <= j < s.len() implies s[j] == s.drop_first()[j - 1] by {}
        }
    }
}

/// A line without its terminating `"\n"` and, only then, its `"\r"`.
pub open spec fn strip_cr(line: Seq<char>) -> Seq<char> {
    if line.len() > 0 && line.last() == '\r' {
        line.drop_last()
    } else {
        line
    }
}

/// `str::lines`: the pieces between `'\n'`s; a `'\r'` right before a `'\n'`
/// is dropped; a final `'\n'` does not start an empty last line.
pub open spec fn lines_of(s: Seq<char>) -> Seq<Seq<char>>
    decreases s.len(),
{
    if s.len() == 0 {
        Seq::empty()
    } else {
        match find_char(s, '\n') {
            Some(i) => {
                proof {
                    lemma_find_char_bounds(s, '\n');
                }
                seq![strip_cr(s.take(i))] + lines_of(s.skip(i + 1))
            },
            None => seq![s],
        }
    }
}

/// `str::trim_start`.
pub open spec fn trim_start(s: Seq<char>) -> Seq<char>
    decreases s.len(),
{
    if s.len() > 0 && is_whitespace(s[0]) {
        trim_start(s.drop_first())
    } else {
        s
    }
}

/// `str::trim_end`.
pub open spec fn trim_end(s: Seq<char>) -> Seq<char>
    decreases s.len(),
{
    if s.len() > 0 && is_whitespace(s.last()) {
        trim_end(s.drop_last())
    } else {
        s
    }
}

/// `str::trim`.
pub open spec fn trim(s: Seq<char>) -> Seq<char> {
    trim_end(trim_start(s))
}

/// `str::trim_end_matches(c)` for one character.
pub open spec fn trim_end_char(s: Seq<char>, c: char) -> Seq<char>
    decreases s.len(),
{
    if s.len() > 0 && s.last() == c {
        trim_end_char(s.drop_last(), c)
    } else {
        s
    }
}

/// `s` starts with `prefix`.
pub open spec fn starts_with(s: Seq<char>, prefix: Seq<char>) -> bool {
    prefix.len() <= s.len() && s.take(prefix.len() as int) == prefix
}

/// `s` ends with `suffix`.
pub open spec fn ends_with(s: Seq<char>, suffix: Seq<char>) -> bool {
    suffix.len() <= s.len() && s.skip(s.len() - suffix.len()) == suffix
}

/// `needle` occurs in `s` at position `i`.
pub open spec fn occurs_at(s: Seq<char>, needle: Seq<char>, i: int) -> bool {
    0 <= i && i + needle.len() <= s.len() && s.subrange(i, i + needle.len()) == needle
}

/// `str::contains` for a string pattern.
pub open spec fn contains(s: Seq<char>, needle: Seq<char>) -> bool {
    exists|i: int| #[trigger] occurs_at(s, needle, i)
}

/// Index of the first character in `s[from..]` equal to `c`.
fn find_char_from(s: &Vec<char>, from: usize, c: char) -> (r: Option<usize>)
    requires
        from <= s.len(),
    ensures
        r matches Some(i) ==> find_char(s@.skip(from as int), c) == Some((i - from) as int) && from
            <= i < s.len(),
        r is None ==> find_char(s@.skip(from as int), c) is None,
    decreases s.len() - from,
{
    if from == s.len() {
        return None;
    }
    if s[from] == c {
        return Some(from);
    }
    let r = find_char_from(s, from + 1, c);
    proof {
        assert(s@.skip(from as int).drop_first() =~= s@.skip(from + 1));
    }
    r
}

/// `str::lines` on a character vector.
pub fn split_lines(s: &Vec<char>) -> (lines: Vec<Vec<char>>)
    ensures
        lines@.map_values(|l: Vec<char>| l@) == lines_of(s@),
{
    let mut lines: Vec<Vec<char>> = Vec::new();
    let mut start: usize = 0;
    proof {
        assert(s@.skip(0) =~= s@);
        assert(lines@.map_values(|l: Vec<char>| l@) =~= Seq::<Seq<char>>::empty());
        assert(Seq::<Seq<char>>::empty() + lines_of(s@) =~= lines_of(s@));
    }
    while start < s.len()
        invariant
            start <= s.len(),
            lines@.map_values(|l: Vec<char>| l@) + lines_of(s@.skip(start as int)) == lines_of(s@),
        decreases s.len() - start,
    {
        let ghost rest = s@.skip(start as int);
        match find_char_from(s, start, '\n') {
            Some(i) => {
                let mut end: usize = i;
                if end > start && s[end - 1] == '\r' {
                    end = end - 1;
                }
                let line = slice_vec(s, start, end);
                proof {
                    let k = (i - start) as int;
                    assert(rest.take(k) =~= s@.subrange(start as int, i as int));
                    assert(rest.skip(k + 1) =~= s@.skip(i + 1));
                    if i > start && s@[i - 1] == '\r' {
                        assert(strip_cr(rest.take(k)) =~= s@.subrange(start as int, i - 1));
                    } else {
                        assert(strip_cr(rest.take(k)) =~= s@.subrange(start as int, i as int));
                    }
                    assert(lines_of(rest) == seq![strip_cr(rest.take(k))] + lines_of(rest.skip(k + 1)));
                }
                let ghost before = lines@.map_values(|l: Vec<char>| l@);
                lines.push(line);
                proof {
                    assert(lines@.map_values(|l: Vec<char>| l@) =~= before.push(line@));
                    assert(before.push(line@) + lines_of(s@.skip(i + 1)) =~= before + (seq![line@]
                        + lines_of(s@.skip(i + 1))));
                }
                start = i + 1;
            },
            None => {
                let line = slice_vec(s, start, s.len());
                proof {
                    assert(line@ =~= rest);
                    assert(lines_of(rest) == seq![rest]);
                }
                let ghost before = lines@.map_values(|l: Vec<char>| l@);
                lines.push(line);
                proof {
                    assert(lines@.map_values(|l: Vec<char>| l@) =~= before.push(line@));
                    assert(s@.skip(s.len() as int) =~= Seq::<char>::empty());
                    assert(before.push(line@) =~= before + seq![rest]);
                }
                start = s.len();
            },
        }
    }
    proof {
        assert(lines_of(s@.skip(start as int)) =~= Seq::<Seq<char>>::empty());
        assert(lines@.map_values(|l: Vec<char>| l@) + Seq::<Seq<char>>::empty() =~= lines@.map_values(
            |l: Vec<char>| l@,
        ));
    }
    lines
}

/// A copy of `s[start..end]`.
pub fn slice_vec(s: &Vec<char>, start: usize, end: usize) -> (r: Vec<char>)
    requires
        start <= end <= s.len(),
    ensures
        r@ == s@.subrange(start as int, end as int),
{
    let mut r: Vec<char> = Vec::new();
    let mut i: usize = start;
    while i < end
        invariant
            start <= i <= end <= s.len(),
            r@ == s@.subrange(start as int, i as int),
        decreases end - i,
    {
        r.push(s[i]);
        i += 1;
    }
    r
}

/// `str::trim_start` on a character vector.
pub fn trim_start_vec(s: &Vec<char>) -> (r: Vec<char>)
    ensures
        r@ == trim_start(s@),
{
    let mut start: usize = 0;
    proof {
        assert(s@.skip(0) =~= s@);
    }
    while start < s.len() && is_whitespace_exec(s[start])
        invariant
            start <= s.len(),
            trim_start(s@) == trim_start(s@.skip(start as int)),
        decreases s.len() - start,
    {
        proof {
            assert(s@.skip(start as int).drop_first() =~= s@.skip(start + 1));
        }
        start += 1;
    }
    proof {
        assert(s@.subrange(start as int, s.len() as int) =~= s@.skip(start as int));
    }
    slice_vec(s, start, s.len())
}

/// Appends a string slice (`String::push_str`).
pub fn push_str(s: &mut String, other: &str)
    ensures
        final(s)@ == old(s)@ + other@,
{
    s.append(other);
}

/// `str::trim` on a character vector.
pub fn trim_chars(s: &Vec<char>) -> (r: Vec<char>)
    ensures
        r@ == trim(s@),
{
    let mut start: usize = 0;
    proof {
        assert(s@.skip(0) =~= s@);
    }
    while start < s.len() && is_whitespace_exec(s[start])
        invariant
            start <= s.len(),
            trim_start(s@) == trim_start(s@.skip(start as int)),
        decreases s.len() - start,
    {
        proof {
            assert(s@.skip(start as int).drop_first() =~= s@.skip(start + 1));
        }
        start += 1;
    }
    let mut end: usize = s.len();
    let ghost t = s@.skip(start as int);
    proof {
        assert(trim_start(s@) == t);
    }
    while end > start && is_whitespace_exec(s[end - 1])
        invariant
            start <= end <= s.len(),
            t == s@.skip(start as int),
            trim_end(t) == trim_end(s@.subrange(start as int, end as int)),
        decreases end - start,
    {
        proof {
            assert(s@.subrange(start as int, end as int).drop_last() =~= s@.subrange(
                start as int,
                end - 1,
            ));
        }
        end -= 1;
    }
    proof {
        assert(s@.subrange(start as int, s.len() as int) =~= t);
    }
    slice_vec(s, start, end)
}

/// `str::trim_end_matches(c)` for one character.
pub fn trim_end_char_vec(s: &Vec<char>, c: char) -> (r: Vec<char>)
    ensures
        r@ == trim_end_char(s@, c),
{
    let mut end: usize = s.len();
    proof {
        assert(s@.subrange(0, s.len() as int) =~= s@);
    }
    while end > 0 && s[end - 1] == c
        invariant
            end <= s.len(),
            trim_end_char(s@, c) == trim_end_char(s@.subrange(0, end as int), c),
        decreases end,
    {
        proof {
            assert(s@.subrange(0, end as int).drop_last() =~= s@.subrange(0, end - 1));
        }
        end -= 1;
    }
    slice_vec(s, 0, end)
}

/// Whether `needle` occurs in `s` at `i`.
fn occurs_at_exec(s: &Vec<char>, needle: &Vec<char>, i: usize) -> (r: bool)
    requires
        i <= s.len(),
    ensures
        r == occurs_at(s@, needle@, i as int),
{
    if needle.len() > s.len() - i {
        return false;
    }
    let mut k: usize = 0;
    while k < needle.len()
        invariant
            k <= needle.len(),
            i + needle.len() <= s.len(),
            forall|j: int| 0 <= j < k ==> s@[i + j] == needle@[j],
        decreases needle.len() - k,
    {
        if s[i + k] != needle[k] {
            proof {
                assert(s@.subrange(i as int, i + needle.len())[k as int] != needle@[k as int]);
            }
            return false;
        }
        k += 1;
    }
    proof {
        assert(s@.subrange(i as int, i + needle.len()) =~= needle@);
    }
    true
}

/// `str::starts_with` for a string pattern.
pub fn starts_with_vec(s: &Vec<char>, prefix: &Vec<char>) -> (r: bool)
    ensures
        r == starts_with(s@, prefix@),
{
    let r = occurs_at_exec(s, prefix, 0);
    proof {
        if prefix@.len() <= s@.len() {
            assert(s@.subrange(0, prefix@.len() as int) =~= s@.take(prefix@.len() as int));
        }
    }
    r
}

/// `str::ends_with` for a string pattern.
pub fn ends_with_vec(s: &Vec<char>, suffix: &Vec<char>) -> (r: bool)
    ensures
        r == ends_with(s@, suffix@),
{
    if suffix.len() > s.len() {
        return false;
    }
    let at: usize = s.len() - suffix.len();
    let r = occurs_at_exec(s, suffix, at);
    proof {
        assert(s@.subrange(at as int, s.len() as int) =~= s@.skip(at as int));
    }
    r
}

/// `str::contains` for a string pattern.
pub fn contains_vec(s: &Vec<char>, needle: &Vec<char>) -> (r: bool)
    ensures
        r == contains(s@, needle@),
{
    let mut i: usize = 0;
    while i < s.len()
        invariant
            i <= s.len(),
            forall|j: int| 0 <= j < i ==> !occurs_at(s@, needle@, j),
        decreases s.len() - i,
    {
        if occurs_at_exec(s, needle, i) {
            return true;
        }
        i += 1;
    }
    if occurs_at_exec(s, needle, i) {
        return true;
    }
    proof {
        assert forall|j: int| !#[trigger] occurs_at(s@, needle@, j) by {
            if 0 <= j < i {
            } else {
            }
        }
    }
    false
}

/// A string holding the characters of `v`.
pub fn string_of(v: &Vec<char>) -> (s: String)
    ensures
        s@ == v@,
{
    let mut s = String::new();
    let mut i: usize = 0;
    while i < v.len()
        invariant
            i <= v.len(),
            s@ == v@.take(i as int),
        decreases v.len() - i,
    {
        push_char(&mut s, v[i]);
        proof {
            assert(v@.take(i + 1) == v@.take(i as int).push(v@[i as int]));
        }
        i += 1;
    }
    proof {
        assert(v@.take(v.len() as int) == v@);
    }
    s
}

/// `str::splitn(n, c)`: at most `n` pieces; the last one keeps the rest.
pub open spec fn splitn_char(s: Seq<char>, n: nat, c: char) -> Seq<Seq<char>>
    decreases n,
{
    if n == 0 {
        Seq::empty()
    } else if n == 1 {
        seq![s]
    } else {
        match find_char(s, c) {
            Some(i) => {
                proof {
                    lemma_find_char_bounds(s, c);
                }
                seq![s.take(i)] + splitn_char(s.skip(i + 1), (n - 1) as nat, c)
            },
            None => seq![s],
        }
    }
}

/// `str::splitn` for a single-character pattern.
pub fn splitn_vec(s: &Vec<char>, n: usize, c: char) -> (parts: Vec<Vec<char>>)
    ensures
        parts@.map_values(|p: Vec<char>| p@) == splitn_char(s@, n as nat, c),
{
    let mut parts: Vec<Vec<char>> = Vec::new();
    if n == 0 {
        proof {
            assert(parts@.map_values(|p: Vec<char>| p@) =~= Seq::<Seq<char>>::empty());
        }
        return parts;
    }
    let mut start: usize = 0;
    let mut left: usize = n;
    proof {
        assert(s@.skip(0) =~= s@);
        assert(parts@.map_values(|p: Vec<char>| p@) + splitn_char(s@, n as nat, c) =~= splitn_char(s@, n as nat, c));
    }
    loop
        invariant
            start <= s.len(),
            1 <= left <= n,
            parts@.map_values(|p: Vec<char>| p@) + splitn_char(s@.skip(start as int), left as nat, c)
                == splitn_char(s@, n as nat, c),
        decreases left,
    {
        let ghost before = parts@.map_values(|p: Vec<char>| p@);
        let ghost rest = s@.skip(start as int);
        if left == 1 {
            let piece = slice_vec(s, start, s.len());
            parts.push(piece);
            proof {
                assert(piece@ =~= rest);
                assert(parts@.map_values(|p: Vec<char>| p@) =~= before + seq![rest]);
            }
            return parts;
        }
        match find_char_from(s, start, c) {
            Some(i) => {
                let piece = slice_vec(s, start, i);
                parts.push(piece);
                proof {
                    let k = (i - start) as int;
                    assert(rest.take(k) =~= piece@);
                    assert(rest.skip(k + 1) =~= s@.skip(i + 1));
                    assert(parts@.map_values(|p: Vec<char>| p@) =~= before.push(piece@));
                    assert(before.push(piece@) + splitn_char(s@.skip(i + 1), (left - 1) as nat, c)
                        =~= before + (seq![piece@] + splitn_char(s@.skip(i + 1), (left - 1) as nat, c)));
                }
                start = i + 1;
                left = left - 1;
            },
            None => {
                let piece = slice_vec(s, start, s.len());
                parts.push(piece);
                proof {
                    assert(piece@ =~= rest);
                    assert(parts@.map_values(|p: Vec<char>| p@) =~= before + seq![rest]);
                }
                return parts;
            },
        }
    }
}

/// `str::split(c)` for a single-character pattern: the pieces between the
/// occurrences of `c` (one more piece than there are occurrences).
pub open spec fn split_char(s: Seq<char>, c: char) -> Seq<Seq<char>>
    decreases s.len(),
{
    match find_char(s, c) {
        Some(i) => {
            proof {
                lemma_find_char_bounds(s, c);
            }
            seq![s.take(i)] + split_char(s.skip(i + 1), c)
        },
        None => seq![s],
    }
}

/// `str::split` for a single-character pattern.
pub fn split_vec(s: &Vec<char>, c: char) -> (parts: Vec<Vec<char>>)
    ensures
        parts@.map_values(|p: Vec<char>| p@) == split_char(s@, c),
{
    let mut parts: Vec<Vec<char>> = Vec::new();
    let mut start: usize = 0;
    proof {
        assert(s@.skip(0) =~= s@);
        assert(parts@.map_values(|p: Vec<char>| p@) + split_char(s@, c) =~= split_char(s@, c));
    }
    loop
        invariant
            start <= s.len(),
            parts@.map_values(|p: Vec<char>| p@) + split_char(s@.skip(start as int), c) == split_char(
                s@,
                c,
            ),
        decreases s.len() - start,
    {
        let ghost before = parts@.map_values(|p: Vec<char>| p@);
        let ghost rest = s@.skip(start as int);
        match find_char_from(s, start, c) {
            Some(i) => {
                let piece = slice_vec(s, start, i);
                parts.push(piece);
                proof {
                    lemma_find_char_bounds(rest, c);
                    let k = (i - start) as int;
                    assert(rest.take(k) =~= piece@);
                    assert(rest.skip(k + 1) =~= s@.skip(i + 1));
                    assert(parts@.map_values(|p: Vec<char>| p@) =~= before.push(piece@));
                    assert(before.push(piece@) + split_char(s@.skip(i + 1), c) =~= before + (seq![piece@]
                        + split_char(s@.skip(i + 1), c)));
                }
                start = i + 1;
            },
            None => {
                let piece = slice_vec(s, start, s.len());
                parts.push(piece);
                proof {
                    assert(piece@ =~= rest);
                    assert(parts@.map_values(|p: Vec<char>| p@) =~= before + seq![rest]);
                }
                return parts;
            },
        }
    }
}

/// A name for the text `String::from_utf8_lossy` makes of `bytes`.
pub uninterp spec fn utf8_lossy(bytes: Seq<u8>) -> Seq<char>;

/// `String::from_utf8_lossy`: the bytes decoded as UTF-8, each invalid
/// sequence replaced by U+FFFD.  Only that the result is this function of
/// the bytes is stated.
#[verifier::external_body]
pub(crate) fn decode_lossy(bytes: &[u8]) -> (r: String)
    ensures
        r@ == utf8_lossy(bytes@),
{
    String::from_utf8_lossy(bytes).into_owned()
}

/// Whether two string slices are equal.
pub fn str_eq(a: &str, b: &str) -> (r: bool)
    ensures
        r == (a@ == b@),
{
    let x = chars_of(a);
    let y = chars_of(b);
    chars_eq(&x, &y)
}

/// The decimal spelling of `n` as a string.
pub fn decimal_string(n: u64) -> (r: String)
    ensures
        r@ == decimal(n as nat),
{
    let digits = decimal_u64(n);
    string_of(&digits)
}

proof fn lemma_digits_bound(s: Seq<char>)
    requires
        all_digits(s),
    ensures
        digits_value(s) < pow10(s.len()),
    decreases s.len(),
{
    if s.len() > 0 {
        let d = s.drop_last();
        assert(all_digits(d)) by {
            assert forall|i: int| 0 <= i < d.len() implies is_digit(#[trigger] d[i]) by {
                assert(d[i] == s[i]);
            }
        }
        lemma_digits_bound(d);
        let v = digits_value(d);
        let p = pow10(d.len());
        let x = digit_value(s.last());
        assert(is_digit(s[s.len() - 1]));
        assert(x < 10);
        assert(v * 10 + x < p * 10) by (nonlinear_arith)
            requires
                v < p,
                x < 10,
        ;
    }
}

proof fn lemma_digits_first(s: Seq<char>)
    requires
        s.len() > 0,
    ensures
        digits_value(s) == digit_value(s[0]) * pow10((s.len() - 1) as nat) + digits_value(s.drop_first()),
{
    let head = seq![s[0]];
    lemma_concat_value(head, s.drop_first());
    assert(head + s.drop_first() =~= s);
    assert(head.drop_last() =~= Seq::<char>::empty());
    assert(head.last() == s[0]);
    assert(digits_value(head.drop_last()) == 0);
}

/// Digit runs of one length are in character order as their values are.
pub proof fn lemma_digits_order(s: Seq<char>, t: Seq<char>)
    requires
        all_digits(s),
        all_digits(t),
        s.len() == t.len(),
        digits_value(s) < digits_value(t),
    ensures
        name_less(s, t),
    decreases s.len(),
{
    if s.len() == 0 {
        assert(digits_value(s) == 0 && digits_value(t) == 0);
    } else {
        let rs = s.drop_first();
        let rt = t.drop_first();
        assert(all_digits(rs) && all_digits(rt)) by {
            assert forall|i: int| 0 <= i < rs.len() implies is_digit(#[trigger] rs[i]) by {
                assert(rs[i] == s[i + 1]);
            }
            assert forall|i: int| 0 <= i < rt.len() implies is_digit(#[trigger] rt[i]) by {
                assert(rt[i] == t[i + 1]);
            }
        }
        lemma_digits_first(s);
        lemma_digits_first(t);
        lemma_digits_bound(rs);
        lemma_digits_bound(rt);
        let p = pow10((s.len() - 1) as nat);
        let ds = digit_value(s[0]);
        let dt = digit_value(t[0]);
        assert(is_digit(s[0]) && is_digit(t[0]));
        if s[0] == t[0] {
            lemma_digits_order(rs, rt);
        } else {
            assert(ds < dt) by {
                if ds > dt {
                    assert(ds * p + digits_value(rs) > dt * p + digits_value(rt)) by (nonlinear_arith)
                        requires
                            ds > dt,
                            digits_value(rt) < p,
                    ;
                } else if ds == dt {
                    assert(s[0] == t[0]);
                }
            }
        }
    }
}

proof fn lemma_decimal_len(n: nat, k: nat)
    requires
        k >= 1,
        n < pow10(k),
    ensures
        decimal(n).len() <= k,
    decreases n,
{
    if n >= 10 {
        assert(k >= 2) by {
            if k == 1 {
                assert(pow10(1) == 10 * pow10(0));
            }
        }
        let q = pow10((k - 1) as nat);
        assert(pow10(k) == 10 * q);
        assert(n / 10 < q) by (nonlinear_arith)
            requires
                n < 10 * q,
        ;
        lemma_decimal_len(n / 10, (k - 1) as nat);
    }
}

/// A `u64` zero-padded to 20 places is 20 digits worth the number.
pub proof fn lemma_padded_u64(n: u64)
    ensures
        zero_pad(decimal(n as nat), 20).len() == 20,
        all_digits(zero_pad(decimal(n as nat), 20)),
        digits_value(zero_pad(decimal(n as nat), 20)) == n,
{
    reveal_with_fuel(pow10, 21);
    assert(pow10(20) == 100000000000000000000nat);
    lemma_decimal_len(n as nat, 20);
    lemma_decimal(n as nat);
    let d = decimal(n as nat);
    if d.len() < 20 {
        let z = (20 - d.len()) as nat;
        let zs = Seq::new(z, |i: int| '0');
        lemma_zeros_prefix_value(z, d);
        assert(all_digits(zs));
        lemma_all_digits_concat(zs, d);
    }
}

/// Runs of one length keep their order whatever follows them.
pub proof fn lemma_name_less_extend(x: Seq<char>, y: Seq<char>, q1: Seq<char>, q2: Seq<char>)
    requires
        x.len() == y.len(),
        name_less(x, y),
    ensures
        name_less(x + q1, y + q2),
    decreases x.len(),
{
    if x.len() > 0 {
        assert((x + q1)[0] == x[0] && (y + q2)[0] == y[0]);
        if x[0] == y[0] {
            assert((x + q1).drop_first() =~= x.drop_first() + q1);
            assert((y + q2).drop_first() =~= y.drop_first() + q2);
            lemma_name_less_extend(x.drop_first(), y.drop_first(), q1, q2);
        }
    }
}

/// A common prefix keeps the order of what follows it.
pub proof fn lemma_name_less_common_prefix(p: Seq<char>, u: Seq<char>, v: Seq<char>)
    requires
        name_less(u, v),
    ensures
        name_less(p + u, p + v),
    decreases p.len(),
{
    if p.len() == 0 {
        assert(p + u =~= u && p + v =~= v);
    } else {
        assert((p + u)[0] == (p + v)[0]);
        assert((p + u).drop_first() =~= p.drop_first() + u);
        assert((p + v).drop_first() =~= p.drop_first() + v);
        lemma_name_less_common_prefix(p.drop_first(), u, v);
    }
}

} // verus!
