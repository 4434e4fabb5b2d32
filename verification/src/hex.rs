//! Lowercase hexadecimal spelling of byte strings, used for journal file keys,
//! page cursors and control-message paths, and its decoding with the
//! semantics of `u8::from_str_radix(pair, 16)` applied pair by pair.

use vstd::prelude::*;
use vstd::string::StringSliceAdditionalSpecFns;
use vstd::utf8::*;

use crate::text::push_char;

verus! {

pub open spec fn hex_digit(n: nat) -> char
    recommends
        n < 16,
{
    if n < 10 {
        (n + '0' as nat) as char
    } else {
        ((n - 10) + 'a' as nat) as char
    }
}

/// Two lowercase hex digits per byte, most significant digit first.
pub open spec fn hex_encode(bytes: Seq<u8>) -> Seq<char>
    decreases bytes.len(),
{
    if bytes.len() == 0 {
        Seq::empty()
    } else {
        hex_encode(bytes.drop_last()).push(hex_digit(bytes.last() as nat / 16)).push(
            hex_digit(bytes.last() as nat % 16),
        )
    }
}

/// Value of one hexadecimal digit, either case.
pub open spec fn hex_value(c: char) -> Option<nat> {
    if '0' <= c && c <= '9' {
        Some((c as nat - '0' as nat) as nat)
    } else if 'a' <= c && c <= 'f' {
        Some((c as nat - 'a' as nat + 10) as nat)
    } else if 'A' <= c && c <= 'F' {
        Some((c as nat - 'A' as nat + 10) as nat)
    } else {
        None
    }
}

/// `u8::from_str_radix` on a two-byte ASCII string: two hex digits, or `+`
/// followed by one.  A byte outside ASCII is no digit.
pub open spec fn pair_value(hi: u8, lo: u8) -> Option<u8> {
    if hi >= 128 || lo >= 128 {
        None
    } else if hi == 43 {
        match hex_value(lo as char) {
            Some(v) => Some(v as u8),
            None => None,
        }
    } else {
        match (hex_value(hi as char), hex_value(lo as char)) {
            (Some(h), Some(l)) => Some((h * 16 + l) as u8),
            _ => None,
        }
    }
}

/// Decodes consecutive pairs; `None` for an odd length or any bad pair.
pub open spec fn hex_decode(bytes: Seq<u8>) -> Option<Seq<u8>>
    decreases bytes.len(),
{
    if bytes.len() % 2 != 0 {
        None
    } else if bytes.len() == 0 {
        Some(Seq::empty())
    } else {
        let n = bytes.len() as int;
        match (hex_decode(bytes.subrange(0, n - 2)), pair_value(bytes[n - 2], bytes[n - 1])) {
            (Some(prefix), Some(b)) => Some(prefix.push(b)),
            _ => None,
        }
    }
}

/// Whether decoding would slice the text inside a character before a bad
/// pair ends it (pair-wise `&text[i..i + 2]` slicing panics there).
pub open spec fn pair_slicing_panics(bytes: Seq<u8>) -> bool {
    &&& bytes.len() % 2 == 0
    &&& exists|i: int|
        0 <= i && i + 2 <= bytes.len() && i % 2 == 0 && !is_char_boundary(bytes, i + 2)
            && #[trigger] hex_decode(bytes.take(i)) is Some
}

/// Slicing every two bytes stays on character boundaries (decoding slices
/// the text at each even offset).
pub open spec fn even_offsets_on_boundaries(bytes: Seq<u8>) -> bool {
    forall|k: int| 0 <= k <= bytes.len() && k % 2 == 0 ==> is_char_boundary(bytes, k)
}

fn hex_char(n: u8) -> (c: char)
    requires
        n < 16,
    ensures
        c == hex_digit(n as nat),
{
    let table: [char; 16] = [
        '0',
        '1',
        '2',
        '3',
        '4',
        '5',
        '6',
        '7',
        '8',
        '9',
        'a',
        'b',
        'c',
        'd',
        'e',
        'f',
    ];
    proof {
        assert(table@ =~= seq![
            '0',
            '1',
            '2',
            '3',
            '4',
            '5',
            '6',
            '7',
            '8',
            '9',
            'a',
            'b',
            'c',
            'd',
            'e',
            'f',
        ]);
        assert(n == 0 || n == 1 || n == 2 || n == 3 || n == 4 || n == 5 || n == 6 || n == 7 || n
            == 8 || n == 9 || n == 10 || n == 11 || n == 12 || n == 13 || n == 14 || n == 15);
    }
    table[n as usize]
}

/// Hex spelling of a byte slice.
pub fn hex_encode_bytes(bytes: &[u8]) -> (s: String)
    ensures
        s@ == hex_encode(bytes@),
{
    let mut s = String::new();
    let mut i: usize = 0;
    while i < bytes.len()
        invariant
            i <= bytes@.len(),
            s@ == hex_encode(bytes@.take(i as int)),
        decreases bytes.len() - i,
    {
        let b = bytes[i];
        proof {
            assert(bytes@.take(i + 1).drop_last() == bytes@.take(i as int));
            assert(bytes@.take(i + 1).last() == b);
        }
        push_char(&mut s, hex_char(b / 16));
        push_char(&mut s, hex_char(b % 16));
        i += 1;
    }
    proof {
        assert(bytes@.take(bytes@.len() as int) == bytes@);
    }
    s
}

/// Hex spelling of the UTF-8 bytes of a string.
pub fn hex_name(value: &str) -> (s: String)
    ensures
        s@ == hex_encode(value.spec_bytes()),
{
    hex_encode_bytes(value.as_bytes())
}

fn hex_value_exec(b: u8) -> (r: Option<u8>)
    requires
        b < 128,
    ensures
        r matches Some(v) ==> hex_value(b as char) == Some(v as nat),
        r is None ==> hex_value(b as char) is None,
{
    if 48 <= b && b <= 57 {
        Some(b - 48)
    } else if 97 <= b && b <= 102 {
        Some(b - 87)
    } else if 65 <= b && b <= 70 {
        Some(b - 55)
    } else {
        None
    }
}

fn pair_value_exec(hi: u8, lo: u8) -> (r: Option<u8>)
    ensures
        r == pair_value(hi, lo),
{
    if hi >= 128 || lo >= 128 {
        return None;
    }
    if hi == 43 {
        return hex_value_exec(lo);
    }
    match (hex_value_exec(hi), hex_value_exec(lo)) {
        (Some(h), Some(l)) => Some(h * 16 + l),
        _ => None,
    }
}

/// Decodes a hex spelling pair by pair (`None` for an odd length or a pair
/// that is not a byte in radix 16).
pub fn hex_decode_bytes(bytes: &[u8]) -> (r: Option<Vec<u8>>)
    ensures
        r matches Some(v) ==> hex_decode(bytes@) == Some(v@),
        r is None ==> hex_decode(bytes@) is None,
{
    if bytes.len() % 2 != 0 {
        return None;
    }
    let mut out: Vec<u8> = Vec::new();
    let mut i: usize = 0;
    while i < bytes.len()
        invariant
            i <= bytes@.len(),
            i % 2 == 0,
            bytes@.len() % 2 == 0,
            hex_decode(bytes@.take(i as int)) == Some(out@),
        decreases bytes.len() - i,
    {
        let hi = bytes[i];
        let lo = bytes[i + 1];
        let ghost next = bytes@.take(i + 2);
        proof {
            assert(next.subrange(0, next.len() - 2) =~= bytes@.take(i as int));
            assert(next[next.len() - 2] == hi);
            assert(next[next.len() - 1] == lo);
        }
        match pair_value_exec(hi, lo) {
            Some(b) => {
                out.push(b);
            },
            None => {
                proof {
                    lemma_decode_prefix_none(bytes@, (i + 2) as nat);
                }
                return None;
            },
        }
        i += 2;
    }
    proof {
        assert(bytes@.take(bytes@.len() as int) == bytes@);
    }
    Some(out)
}

/// Whether decoding the hex text `s` pair by pair would slice it inside a
/// character (see `pair_slicing_panics`).
pub fn pair_slicing_panics_exec(s: &str) -> (r: bool)
    ensures
        r == pair_slicing_panics(s.spec_bytes()),
{
    let bytes = s.as_bytes();
    let n: usize = bytes.len();
    if n % 2 != 0 {
        return false;
    }
    let mut i: usize = 0;
    while i < n
        invariant
            bytes@ == s.spec_bytes(),
            n == bytes@.len(),
            n % 2 == 0,
            i <= n,
            i % 2 == 0,
            hex_decode(bytes@.take(i as int)) is Some,
            forall|j: int|
                0 <= j < i && j % 2 == 0 && #[trigger] hex_decode(bytes@.take(j)) is Some
                    ==> is_char_boundary(bytes@, j + 2),
        decreases n - i,
    {
        if !s.is_char_boundary(i + 2) {
            proof {
                assert(0 <= i && i + 2 <= bytes@.len() && i % 2 == 0 && !is_char_boundary(bytes@, i + 2)
                    && hex_decode(bytes@.take(i as int)) is Some);
            }
            return true;
        }
        let ghost next = bytes@.take(i + 2);
        proof {
            assert(next.subrange(0, next.len() - 2) =~= bytes@.take(i as int));
            assert(next[next.len() - 2] == bytes@[i as int]);
            assert(next[next.len() - 1] == bytes@[i + 1]);
        }
        match pair_value_exec(bytes[i], bytes[i + 1]) {
            Some(_) => {},
            None => {
                proof {
                    assert(hex_decode(next) is None);
                    assert forall|j: int|
                        0 <= j && j + 2 <= bytes@.len() && j % 2 == 0 && !is_char_boundary(bytes@, j + 2)
                            implies #[trigger] hex_decode(bytes@.take(j)) is None by {
                        if j > i {
                            assert(bytes@.take(j).take(i + 2) =~= next);
                            lemma_decode_prefix_none(bytes@.take(j), (i + 2) as nat);
                        }
                    }
                }
                return false;
            },
        }
        i += 2;
    }
    proof {
        assert forall|j: int|
            0 <= j && j + 2 <= bytes@.len() && j % 2 == 0 && !is_char_boundary(bytes@, j + 2)
                implies #[trigger] hex_decode(bytes@.take(j)) is None by {
            assert(j < i);
        }
    }
    false
}

/// A bad pair anywhere makes the whole decoding fail.
proof fn lemma_decode_prefix_none(bytes: Seq<u8>, k: nat)
    requires
        k <= bytes.len(),
        k % 2 == 0,
        bytes.len() % 2 == 0,
        hex_decode(bytes.take(k as int)) is None,
    ensures
        hex_decode(bytes) is None,
    decreases bytes.len() - k,
{
    if k < bytes.len() {
        let next = bytes.take(k as int + 2);
        assert(next.subrange(0, next.len() - 2) =~= bytes.take(k as int));
        lemma_decode_prefix_none(bytes, (k + 2) as nat);
    } else {
        assert(bytes.take(k as int) =~= bytes);
    }
}

/// Decoding a hex spelling gives the bytes back.
pub proof fn lemma_hex_round_trip(bytes: Seq<u8>)
    ensures
        hex_decode(hex_spelling_bytes(bytes)) == Some(bytes),
    decreases bytes.len(),
{
    lemma_hex_encode_len(bytes);
    if bytes.len() > 0 {
        let prefix = bytes.drop_last();
        lemma_hex_round_trip(prefix);
        lemma_hex_encode_len(prefix);
        let e = hex_spelling_bytes(bytes);
        let n = e.len() as int;
        assert(e.subrange(0, n - 2) =~= hex_spelling_bytes(prefix));
        let b = bytes.last();
        lemma_digit_byte((b as nat / 16) as nat);
        lemma_digit_byte((b as nat % 16) as nat);
        assert(e[n - 2] == hex_digit(b as nat / 16) as u8);
        assert(e[n - 1] == hex_digit(b as nat % 16) as u8);
        assert(prefix.push(b) =~= bytes);
    }
}

/// The ASCII bytes of the hex spelling (each digit is one byte).
pub open spec fn hex_spelling_bytes(bytes: Seq<u8>) -> Seq<u8> {
    hex_encode(bytes).map_values(|c: char| c as u8)
}

/// The hex spelling has two lowercase hexadecimal digits per byte.
pub proof fn lemma_hex_encode_len(bytes: Seq<u8>)
    ensures
        hex_encode(bytes).len() == 2 * bytes.len(),
        forall|i: int|
            0 <= i < hex_encode(bytes).len() ==> #[trigger] is_hex_lower(hex_encode(bytes)[i]),
    decreases bytes.len(),
{
    if bytes.len() > 0 {
        lemma_hex_encode_len(bytes.drop_last());
        let b = bytes.last();
        lemma_digit_lower((b as nat / 16) as nat);
        lemma_digit_lower((b as nat % 16) as nat);
        let e = hex_encode(bytes);
        let p = hex_encode(bytes.drop_last());
        assert forall|i: int| 0 <= i < e.len() implies #[trigger] is_hex_lower(e[i]) by {
            if i < p.len() {
                assert(e[i] == p[i]);
            }
        }
    }
}

pub open spec fn is_hex_lower(c: char) -> bool {
    ('0' <= c && c <= '9') || ('a' <= c && c <= 'f')
}

proof fn lemma_digit_lower(n: nat)
    requires
        n < 16,
    ensures
        is_hex_lower(hex_digit(n)),
        (hex_digit(n) as u8) < 128,
        hex_digit(n) as u8 as char == hex_digit(n),
        hex_value(hex_digit(n)) == Some(n),
{
}

proof fn lemma_digit_byte(n: nat)
    requires
        n < 16,
    ensures
        (hex_digit(n) as u8) < 128,
        (hex_digit(n) as u8) != 43,
        hex_value(hex_digit(n) as u8 as char) == Some(n),
{
    lemma_digit_lower(n);
}

/// A hex file name is safe and names one value: it consists only of
/// lowercase hexadecimal digits, two per byte, and two values with the same
/// spelling are the same bytes.
pub proof fn lemma_hex_name_safe_and_injective(a: Seq<u8>, b: Seq<u8>)
    ensures
        hex_encode(a).len() == 2 * a.len(),
        forall|i: int| 0 <= i < hex_encode(a).len() ==> #[trigger] is_hex_lower(hex_encode(a)[i]),
        hex_encode(a) == hex_encode(b) ==> a == b,
{
    lemma_hex_encode_len(a);
    lemma_hex_round_trip(a);
    lemma_hex_round_trip(b);
    if hex_encode(a) == hex_encode(b) {
        assert(hex_spelling_bytes(a) == hex_spelling_bytes(b));
    }
}

/// The hex spelling is ASCII: its UTF-8 bytes are its characters, and every
/// offset into it is a character boundary.
pub proof fn lemma_spelling_is_ascii(bytes: Seq<u8>)
    ensures
        encode_utf8(hex_encode(bytes)) == hex_spelling_bytes(bytes),
        valid_utf8(hex_spelling_bytes(bytes)),
        forall|k: int|
            0 <= k <= hex_spelling_bytes(bytes).len() ==> #[trigger] is_char_boundary(
                hex_spelling_bytes(bytes),
                k,
            ),
{
    lemma_hex_encode_len(bytes);
    let chars = hex_encode(bytes);
    assert(is_ascii_chars(chars)) by {
        assert forall|i: int| 0 <= i < chars.len() implies '\0' <= #[trigger] chars[i] <= '\u{7f}' by {
            assert(is_hex_lower(chars[i]));
        }
    }
    is_ascii_chars_encode_utf8(chars);
    let e = encode_utf8(chars);
    assert(e =~= hex_spelling_bytes(bytes));
    encode_utf8_valid_utf8(chars);
    assert forall|k: int| 0 <= k <= e.len() implies #[trigger] is_char_boundary(e, k) by {
        if k == e.len() {
            is_char_boundary_start_end_of_seq(e);
        } else {
            is_char_boundary_iff_not_is_continuation_byte(e, k);
            assert(e[k] == chars[k] as u8);
            assert(is_hex_lower(chars[k]));
        }
    }
}

} // verus!
