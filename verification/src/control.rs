//! The control protocol between a detached log proxy and its group reapers:
//! identity messages (`READY pid pgid generation`, `ANCHOR pid pgid
//! generation hex-path`), their parsing, and the reaper's protocol steps.

use vstd::prelude::*;
use vstd::string::StringSliceAdditionalSpecFns;
use vstd::utf8::*;

use crate::hex::{hex_decode, hex_decode_bytes, hex_encode, hex_encode_bytes, pair_slicing_panics};
use crate::text::{
    chars_eq, chars_of, decimal, decimal_string, is_whitespace, is_whitespace_exec, parse_unsigned,
    parse_unsigned_chars, push_str, splitn_char, splitn_vec, string_of,
};

verus! {

/// The verified identity of a process-group leader announced over the
/// control channel, with the journal path (raw bytes) of an `ANCHOR`.
#[derive(Debug)]
pub struct GroupIdentity {
    pub pid: u32,
    pub pgid: u32,
    pub generation: String,
    pub journal: Option<Vec<u8>>,
}

/// Abstract value of a parsed identity.
pub struct IdentityView {
    pub pid: nat,
    pub pgid: nat,
    pub generation: Seq<char>,
    pub journal: Option<Seq<u8>>,
}

pub open spec fn identity_view(id: GroupIdentity) -> IdentityView {
    IdentityView {
        pid: id.pid as nat,
        pgid: id.pgid as nat,
        generation: id.generation@,
        journal: match id.journal {
            Some(j) => Some(j@),
            None => None,
        },
    }
}

pub open spec fn has_whitespace(s: Seq<char>) -> bool {
    exists|i: int| 0 <= i < s.len() && is_whitespace(#[trigger] s[i])
}

pub open spec fn decode_path_spec(encoded: Seq<char>) -> Option<Seq<u8>> {
    hex_decode(encode_utf8(encoded))
}

/// What `parse_identity(message, expected)` yields.
pub open spec fn parse_identity_spec(message: Seq<char>, expected: Seq<char>) -> Result<
    IdentityView,
    Seq<char>,
> {
    let parts = splitn_char(message, 5, ' ');
    if parts[0] != expected {
        Err("expected "@ + expected + " control message"@)
    } else if parts.len() < 2 {
        Err("missing proxy PID"@)
    } else if parse_unsigned(parts[1], u32::MAX as nat) is None {
        Err("invalid proxy PID"@)
    } else if parts.len() < 3 {
        Err("missing target PGID"@)
    } else if parse_unsigned(parts[2], u32::MAX as nat) is None {
        Err("invalid target PGID"@)
    } else if parts.len() < 4 {
        Err("missing proxy generation"@)
    } else {
        let pid = parse_unsigned(parts[1], u32::MAX as nat)->0;
        let pgid = parse_unsigned(parts[2], u32::MAX as nat)->0;
        let generation = parts[3];
        if pid == 0 || pgid == 0 || generation.len() == 0 || has_whitespace(generation) {
            Err("invalid target group identity"@)
        } else if expected == "ANCHOR"@ {
            if parts.len() < 5 {
                Err("missing detached journal path"@)
            } else {
                match decode_path_spec(parts[4]) {
                    Some(path) => Ok(
                        IdentityView { pid, pgid, generation, journal: Some(path) },
                    ),
                    None => Err("invalid detached journal path encoding"@),
                }
            }
        } else if parts.len() < 5 {
            Ok(IdentityView { pid, pgid, generation, journal: None })
        } else {
            Err("unexpected detached journal path"@)
        }
    }
}

/// The path piece that parsing decodes: that of an `ANCHOR` whose identity
/// fields all passed.
pub open spec fn decoded_path_piece(message: Seq<char>, expected: Seq<char>) -> Option<Seq<char>> {
    let parts = splitn_char(message, 5, ' ');
    let pid = parse_unsigned(parts[1], u32::MAX as nat);
    let pgid = parse_unsigned(parts[2], u32::MAX as nat);
    if parts[0] == expected && parts.len() == 5 && expected == "ANCHOR"@ && pid is Some && pid->0
        != 0 && pgid is Some && pgid->0 != 0 && parts[3].len() != 0 && !has_whitespace(parts[3]) {
        Some(parts[4])
    } else {
        None
    }
}

/// Decodes the hex-encoded journal path of an `ANCHOR` message.
pub fn decode_path(encoded: &str) -> (r: Result<Vec<u8>, String>)
    requires
        !pair_slicing_panics(encoded.spec_bytes()),
    ensures
        r matches Ok(path) ==> decode_path_spec(encoded@) == Some(path@),
        r matches Err(m) ==> decode_path_spec(encoded@) is None && m@
            == "invalid detached journal path encoding"@,
{
    match hex_decode_bytes(encoded.as_bytes()) {
        Some(path) => Ok(path),
        None => Err("invalid detached journal path encoding".to_string()),
    }
}

fn has_whitespace_exec(s: &Vec<char>) -> (r: bool)
    ensures
        r == has_whitespace(s@),
{
    let mut i: usize = 0;
    while i < s.len()
        invariant
            i <= s.len(),
            forall|j: int| 0 <= j < i ==> !is_whitespace(s@[j]),
        decreases s.len() - i,
    {
        if is_whitespace_exec(s[i]) {
            return true;
        }
        i += 1;
    }
    false
}

fn parse_u32(s: &Vec<char>) -> (r: Option<u32>)
    ensures
        r matches Some(v) ==> parse_unsigned(s@, u32::MAX as nat) == Some(v as nat),
        r is None ==> parse_unsigned(s@, u32::MAX as nat) is None,
{
    match parse_unsigned_chars(s.as_slice(), 4294967295) {
        Some(v) => {
            let n: u32 = v as u32;
            Some(n)
        },
        None => None,
    }
}

/// Parses an identity message of kind `expected`; every malformed message
/// is refused with its reason.  An `ANCHOR` must carry the journal path, any
/// other kind must not.
pub fn parse_identity(message: &str, expected: &str) -> (r: Result<GroupIdentity, String>)
    requires
        decoded_path_piece(message@, expected@) matches Some(piece) ==> !pair_slicing_panics(
            encode_utf8(piece),
        ),
    ensures
        r matches Ok(id) ==> parse_identity_spec(message@, expected@) == Ok::<
            IdentityView,
            Seq<char>,
        >(identity_view(id)),
        r matches Err(m) ==> parse_identity_spec(message@, expected@) == Err::<
            IdentityView,
            Seq<char>,
        >(m@),
{
    let chars = chars_of(message);
    let parts = splitn_vec(&chars, 5, ' ');
    let ghost views = parts@.map_values(|p: Vec<char>| p@);
    proof {
        assert(views == splitn_char(message@, 5, ' '));
        assert(views.len() == parts@.len());
        lemma_splitn_nonempty(message@, 5, ' ');
    }
    let expected_chars = chars_of(expected);
    if !chars_eq(&parts[0], &expected_chars) {
        let mut m = "expected ".to_string();
        push_str(&mut m, expected);
        push_str(&mut m, " control message");
        return Err(m);
    }
    if parts.len() < 2 {
        return Err("missing proxy PID".to_string());
    }
    let pid = match parse_u32(&parts[1]) {
        Some(v) => v,
        None => {
            return Err("invalid proxy PID".to_string());
        },
    };
    if parts.len() < 3 {
        return Err("missing target PGID".to_string());
    }
    let pgid = match parse_u32(&parts[2]) {
        Some(v) => v,
        None => {
            return Err("invalid target PGID".to_string());
        },
    };
    if parts.len() < 4 {
        return Err("missing proxy generation".to_string());
    }
    let generation = string_of(&parts[3]);
    if pid == 0 || pgid == 0 || parts[3].len() == 0 || has_whitespace_exec(&parts[3]) {
        return Err("invalid target group identity".to_string());
    }
    let anchor = chars_of("ANCHOR");
    let is_anchor = chars_eq(&expected_chars, &anchor);
    if is_anchor {
        if parts.len() < 5 {
            return Err("missing detached journal path".to_string());
        }
        let encoded = string_of(&parts[4]);
        let encoded_text = encoded.as_str();
        proof {
            assert(encoded_text@ == views[4]);
            assert(decoded_path_piece(message@, expected@) == Some(views[4]));
        }
        match decode_path(encoded_text) {
            Ok(path) => Ok(GroupIdentity { pid, pgid, generation, journal: Some(path) }),
            Err(m) => Err(m),
        }
    } else if parts.len() < 5 {
        Ok(GroupIdentity { pid, pgid, generation, journal: None })
    } else {
        Err("unexpected detached journal path".to_string())
    }
}

/// Whether parsing `message` as `expected` would slice its journal path
/// inside a character (the condition `parse_identity` requires to be false).
pub fn identity_parse_panics(message: &str, expected: &str) -> (r: bool)
    ensures
        r == (decoded_path_piece(message@, expected@) matches Some(piece) && pair_slicing_panics(
            encode_utf8(piece),
        )),
{
    let chars = chars_of(message);
    let parts = splitn_vec(&chars, 5, ' ');
    let ghost views = parts@.map_values(|p: Vec<char>| p@);
    proof {
        assert(views == splitn_char(message@, 5, ' '));
        lemma_splitn_nonempty(message@, 5, ' ');
    }
    let expected_chars = chars_of(expected);
    let anchor = chars_of("ANCHOR");
    if parts.len() != 5 || !chars_eq(&parts[0], &expected_chars) || !chars_eq(&expected_chars, &anchor) {
        return false;
    }
    let pid = match parse_u32(&parts[1]) {
        Some(v) => v,
        None => {
            return false;
        },
    };
    let pgid = match parse_u32(&parts[2]) {
        Some(v) => v,
        None => {
            return false;
        },
    };
    if pid == 0 || pgid == 0 || parts[3].len() == 0 || has_whitespace_exec(&parts[3]) {
        return false;
    }
    let piece = string_of(&parts[4]);
    proof {
        assert(decoded_path_piece(message@, expected@) == Some(views[4]));
    }
    crate::hex::pair_slicing_panics_exec(piece.as_str())
}

proof fn lemma_splitn_nonempty(s: Seq<char>, n: nat, c: char)
    requires
        n >= 1,
    ensures
        splitn_char(s, n, c).len() >= 1,
        splitn_char(s, n, c).len() <= n,
    decreases n,
{
    if n > 1 {
        if let Some(i) = crate::text::find_char(s, c) {
            crate::text::lemma_find_char_bounds(s, c);
            lemma_splitn_nonempty(s.skip(i + 1), (n - 1) as nat, c);
        }
    }
}

// ---------------------------------------------------------------------------
// Messages
// ---------------------------------------------------------------------------

/// `<kind> <pid> <pgid> <generation>`.
pub open spec fn identity_message(kind: Seq<char>, pid: nat, pgid: nat, generation: Seq<char>) -> Seq<
    char,
> {
    kind + " "@ + decimal(pid) + " "@ + decimal(pgid) + " "@ + generation
}

/// `ANCHOR <pid> <pgid> <generation> <hex path>`.
pub open spec fn anchor_message(pid: nat, pgid: nat, generation: Seq<char>, journal: Seq<u8>) -> Seq<
    char,
> {
    identity_message("ANCHOR"@, pid, pgid, generation) + " "@ + hex_encode(journal)
}

/// Writes an identity announcement (`READY ...`).
pub fn identity_message_text(kind: &str, pid: u32, pgid: u32, generation: &str) -> (r: String)
    ensures
        r@ == identity_message(kind@, pid as nat, pgid as nat, generation@),
{
    let mut r = kind.to_string();
    push_str(&mut r, " ");
    let p = decimal_string(pid as u64);
    push_str(&mut r, p.as_str());
    push_str(&mut r, " ");
    let g = decimal_string(pgid as u64);
    push_str(&mut r, g.as_str());
    push_str(&mut r, " ");
    push_str(&mut r, generation);
    r
}

/// Writes the anchor announcement that arms the reapers for a journal.
pub fn anchor_message_text(pid: u32, pgid: u32, generation: &str, journal: &[u8]) -> (r: String)
    ensures
        r@ == anchor_message(pid as nat, pgid as nat, generation@, journal@),
{
    let mut r = identity_message_text("ANCHOR", pid, pgid, generation);
    push_str(&mut r, " ");
    let path = hex_encode_bytes(journal);
    push_str(&mut r, path.as_str());
    r
}

// ---------------------------------------------------------------------------
// Laws of the protocol
// ---------------------------------------------------------------------------

pub open spec fn no_space(s: Seq<char>) -> bool {
    forall|i: int| 0 <= i < s.len() ==> s[i] != ' '
}

proof fn lemma_split_first(a: Seq<char>, b: Seq<char>, n: nat)
    requires
        no_space(a),
        n >= 2,
    ensures
        splitn_char(a + seq![' '] + b, n, ' ') == seq![a] + splitn_char(b, (n - 1) as nat, ' '),
{
    let s = a + seq![' '] + b;
    lemma_find_after(a, b);
    assert(s.take(a.len() as int) =~= a);
    assert(s.skip(a.len() as int + 1) =~= b);
}

proof fn lemma_find_after(a: Seq<char>, b: Seq<char>)
    requires
        no_space(a),
    ensures
        crate::text::find_char(a + seq![' '] + b, ' ') == Some(a.len() as int),
    decreases a.len(),
{
    let s = a + seq![' '] + b;
    if a.len() == 0 {
        assert(s[0] == ' ');
    } else {
        lemma_find_after(a.drop_first(), b);
        assert(s.drop_first() =~= a.drop_first() + seq![' '] + b);
        assert(s[0] == a[0]);
    }
}

proof fn lemma_decimal_no_space(n: nat)
    ensures
        no_space(decimal(n)),
{
    crate::text::lemma_decimal(n);
    assert forall|i: int| 0 <= i < decimal(n).len() implies decimal(n)[i] != ' ' by {
        assert(crate::text::is_digit(decimal(n)[i]));
    }
}

proof fn lemma_parse_decimal(n: nat)
    requires
        n <= u32::MAX,
    ensures
        parse_unsigned(decimal(n), u32::MAX as nat) == Some(n),
{
    crate::text::lemma_parse_zero_padded(n, 0, u32::MAX as nat);
    crate::text::lemma_decimal(n);
}

/// A well-formed identity group: live ids, a non-empty generation token
/// without whitespace.
pub open spec fn announceable(pid: nat, pgid: nat, generation: Seq<char>) -> bool {
    &&& 0 < pid <= u32::MAX
    &&& 0 < pgid <= u32::MAX
    &&& generation.len() > 0
    &&& !has_whitespace(generation)
}

proof fn lemma_split_identity(kind: Seq<char>, pid: nat, pgid: nat, generation: Seq<char>, tail: Seq<char>)
    requires
        no_space(kind),
        announceable(pid, pgid, generation),
    ensures
        splitn_char(identity_message(kind, pid, pgid, generation) + tail, 5, ' ') == seq![
            kind,
            decimal(pid),
            decimal(pgid),
        ] + splitn_char(generation + tail, 2, ' '),
{
    reveal_strlit(" ");
    lemma_decimal_no_space(pid);
    lemma_decimal_no_space(pgid);
    let rest3 = generation + tail;
    let rest2 = decimal(pgid) + seq![' '] + rest3;
    let rest1 = decimal(pid) + seq![' '] + rest2;
    assert(identity_message(kind, pid, pgid, generation) + tail =~= kind + seq![' '] + rest1);
    lemma_split_first(kind, rest1, 5);
    lemma_split_first(decimal(pid), rest2, 4);
    lemma_split_first(decimal(pgid), rest3, 3);
    assert(seq![kind] + (seq![decimal(pid)] + (seq![decimal(pgid)] + splitn_char(rest3, 2, ' ')))
        =~= seq![kind, decimal(pid), decimal(pgid)] + splitn_char(rest3, 2, ' '));
}

proof fn lemma_generation_no_space(generation: Seq<char>)
    requires
        !has_whitespace(generation),
    ensures
        no_space(generation),
{
    assert forall|i: int| 0 <= i < generation.len() implies generation[i] != ' ' by {
        if generation[i] == ' ' {
            assert(is_whitespace(generation[i]));
        }
    }
}

/// The reaper parses a proxy's `READY` announcement back to the identity
/// that was announced.
pub proof fn lemma_ready_round_trip(pid: nat, pgid: nat, generation: Seq<char>)
    requires
        announceable(pid, pgid, generation),
    ensures
        parse_identity_spec(identity_message("READY"@, pid, pgid, generation), "READY"@) == Ok::<
            IdentityView,
            Seq<char>,
        >(IdentityView { pid, pgid, generation, journal: None }),
        decoded_path_piece(identity_message("READY"@, pid, pgid, generation), "READY"@) is None,
{
    reveal_strlit("READY");
    reveal_strlit("ANCHOR");
    let m = identity_message("READY"@, pid, pgid, generation);
    assert(no_space("READY"@));
    lemma_split_identity("READY"@, pid, pgid, generation, Seq::empty());
    assert(m + Seq::<char>::empty() =~= m);
    assert(generation + Seq::<char>::empty() =~= generation);
    lemma_generation_no_space(generation);
    crate::text::lemma_find_char_bounds(generation, ' ');
    assert(splitn_char(generation, 2, ' ') == seq![generation]);
    let parts = splitn_char(m, 5, ' ');
    assert(parts =~= seq!["READY"@, decimal(pid), decimal(pgid), generation]);
    lemma_parse_decimal(pid);
    lemma_parse_decimal(pgid);
    assert("READY"@ != "ANCHOR"@) by {
        assert("READY"@.len() != "ANCHOR"@.len());
    }
}

/// The reaper parses a proxy's `ANCHOR` announcement back to the identity
/// and the exact journal path bytes that were announced, and decoding the
/// path never slices inside a character.
pub proof fn lemma_anchor_round_trip(pid: nat, pgid: nat, generation: Seq<char>, journal: Seq<u8>)
    requires
        announceable(pid, pgid, generation),
    ensures
        parse_identity_spec(anchor_message(pid, pgid, generation, journal), "ANCHOR"@) == Ok::<
            IdentityView,
            Seq<char>,
        >(IdentityView { pid, pgid, generation, journal: Some(journal) }),
        decoded_path_piece(anchor_message(pid, pgid, generation, journal), "ANCHOR"@) matches Some(
            piece,
        ) ==> !pair_slicing_panics(encode_utf8(piece)),
{
    reveal_strlit("ANCHOR");
    reveal_strlit(" ");
    let hex = hex_encode(journal);
    let tail = seq![' '] + hex;
    let m = anchor_message(pid, pgid, generation, journal);
    assert(m =~= identity_message("ANCHOR"@, pid, pgid, generation) + tail);
    assert(no_space("ANCHOR"@));
    lemma_split_identity("ANCHOR"@, pid, pgid, generation, tail);
    lemma_generation_no_space(generation);
    assert(generation + tail =~= generation + seq![' '] + hex);
    lemma_split_first(generation, hex, 2);
    let parts = splitn_char(m, 5, ' ');
    assert(parts =~= seq!["ANCHOR"@, decimal(pid), decimal(pgid), generation, hex]);
    lemma_parse_decimal(pid);
    lemma_parse_decimal(pgid);
    crate::hex::lemma_spelling_is_ascii(journal);
    crate::hex::lemma_hex_round_trip(journal);
}

} // verus!
