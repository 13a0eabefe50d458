//! Sync codes and the recovery of a sync whose Drive folder was deleted.
//!
//! A sync code is `cs-{folderId}-{hexKey}`. Drive folder ids may contain
//! `-`, so the last `-` separates the key. The Drive folder name is derived
//! from the key, so two computers re-creating the same deleted sync meet in
//! one folder.

use vstd::prelude::*;
use vstd::string::{StringSliceAdditionalSpecFns, StrSliceExecFns};
use vstd::utf8::{decode_utf8, is_char_boundary};
use crate::codec::{random_bytes, to_hex};
use crate::text::{
    chars_of, chars_starts_with, hex_lower, is_hex, lemma_hex_lower_len, push_str, rfind_char,
    rfind_chars, starts_with,
};

verus! {

/// Prefix of every sync code.
pub open spec fn code_prefix() -> Seq<char> {
    seq!['c', 's', '-']
}

/// `cs-{folderId}-{hexKey}` → (folder id, key), both non-empty, split at
/// the last `-`. Legacy codes without the prefix have none.
pub open spec fn spec_parse_code(c: Seq<char>) -> Option<(Seq<char>, Seq<char>)> {
    if starts_with(c, code_prefix()) {
        let rest = c.subrange(3, c.len() as int);
        match rfind_char(rest, '-') {
            Some(p) => {
                let f = rest.subrange(0, p);
                let k = rest.subrange(p + 1, rest.len() as int);
                if f.len() > 0 && k.len() > 0 {
                    Some((f, k))
                } else {
                    None
                }
            },
            None => None,
        }
    } else {
        None
    }
}

#[derive(Debug, Clone, PartialEq, Eq)]
pub struct MissingSync {
    /// Sync id in the configuration (= the sync code).
    pub code: String,
    pub name: String,
}

/// A sync whose Drive folder is gone, waiting for the user's decision.
pub struct MissingStore {
    pub pending: Option<MissingSync>,
    /// The dialog must be (re)shown.
    pub dirty: bool,
}

impl Default for MissingStore {
    fn default() -> (r: Self)
        ensures
            r.pending is None,
            !r.dirty,
    {
        MissingStore { pending: None, dirty: false }
    }
}

/// The folder id and the key of a sync code.
pub fn parse_code(code: &str) -> (r: Option<(&str, &str)>)
    ensures
        match r {
            Some((f, k)) => spec_parse_code(code@) == Some((f@, k@)),
            None => spec_parse_code(code@) is None,
        },
{
    let c = chars_of(code);
    let prefix = chars_of("cs-");
    proof {
        reveal_strlit("cs-");
        assert(prefix@ =~= code_prefix());
    }
    if !chars_starts_with(c.as_slice(), prefix.as_slice()) {
        return None;
    }
    let rest = code.substring_char(3, c.len());
    let rc = chars_of(rest);
    proof {
        crate::text::lemma_rfind_char(rc@, '-');
    }
    match rfind_chars(rc.as_slice(), '-') {
        Some(p) => {
            if p == 0 || p + 1 == rc.len() {
                return None;
            }
            let f = rest.substring_char(0, p);
            let k = rest.substring_char(p + 1, rc.len());
            Some((f, k))
        },
        None => None,
    }
}

/// The sync code of a folder id and a key.
pub fn new_code(folder_id: &str, hex_key: &str) -> (r: String)
    ensures
        r@ == code_prefix() + folder_id@ + seq!['-'] + hex_key@,
{
    let mut s = String::new();
    push_str(&mut s, "cs-");
    push_str(&mut s, folder_id);
    push_str(&mut s, "-");
    push_str(&mut s, hex_key);
    proof {
        reveal_strlit("cs-");
        reveal_strlit("-");
        assert(s@ =~= code_prefix() + folder_id@ + seq!['-'] + hex_key@);
    }
    s
}

pub open spec fn folder_name_prefix() -> Seq<char> {
    seq!['C', 'o', 'n', 'n', 'e', 'c', 't', 'S', 'y', 'n', 'c', '_']
}

/// Number of key bytes that go into the folder name.
pub open spec fn folder_name_bytes(key: Seq<u8>) -> int {
    if key.len() < 8 {
        key.len() as int
    } else {
        8
    }
}

/// Drive folder name of a key: `ConnectSync_` and the key's first 8 bytes
/// (fewer for a shorter key). The cut must fall between characters.
pub fn drive_folder_name(hex_key: &str) -> (r: String)
    requires
        is_char_boundary(hex_key.spec_bytes(), folder_name_bytes(hex_key.spec_bytes())),
    ensures
        r@ == folder_name_prefix() + decode_utf8(
            hex_key.spec_bytes().subrange(0, folder_name_bytes(hex_key.spec_bytes())),
        ),
{
    let b = hex_key.as_bytes();
    let n = if b.len() < 8 {
        b.len()
    } else {
        8
    };
    let (head, _) = hex_key.split_at(n);
    let mut s = String::new();
    push_str(&mut s, "ConnectSync_");
    push_str(&mut s, head);
    proof {
        reveal_strlit("ConnectSync_");
        vstd::utf8::encode_utf8_decode_utf8(head@);
        assert(s@ =~= folder_name_prefix() + head@);
    }
    s
}

/// A fresh random key: 16 random bytes in lower-case hexadecimal (32
/// characters). Fails only when the system's random source does.
pub fn fresh_key() -> (r: Result<String, String>)
    ensures
        r matches Ok(k) ==> k@.len() == 32 && (forall|i: int| 0 <= i < 32 ==> is_hex(#[trigger] k@[i]))
            && exists|b: Seq<u8>| b.len() == 16 && k@ == hex_lower(b),
{
    let raw = random_bytes(16);
    match raw {
        Ok(b) => {
            let k = to_hex(b.as_slice());
            proof {
                lemma_hex_lower_len(b@);
            }
            Ok(k)
        },
        Err(e) => Err(e),
    }
}

/// Parsing a freshly built code gives back its folder id and key, provided
/// the folder id is non-empty and the key is non-empty and holds no `-`.
pub proof fn law_new_code_round_trips(folder_id: Seq<char>, key: Seq<char>)
    requires
        folder_id.len() > 0,
        key.len() > 0,
        forall|i: int| 0 <= i < key.len() ==> key[i] != '-',
    ensures
        spec_parse_code(code_prefix() + folder_id + seq!['-'] + key) == Some((folder_id, key)),
{
    let c = code_prefix() + folder_id + seq!['-'] + key;
    assert(c.subrange(0, 3) =~= code_prefix());
    let rest = c.subrange(3, c.len() as int);
    assert(rest =~= folder_id + seq!['-'] + key);
    let p = folder_id.len() as int;
    crate::text::lemma_rfind_char(rest, '-');
    assert(rest[p] == '-');
    match rfind_char(rest, '-') {
        Some(q) => {
            if q > p {
                assert(rest[q] == key[q - p - 1]);
            }
            if q < p {
                assert(rest[p] != '-');
            }
            assert(q == p);
            assert(rest.subrange(0, p) =~= folder_id);
            assert(rest.subrange(p + 1, rest.len() as int) =~= key);
        },
        None => {},
    }
}

} // verus!
