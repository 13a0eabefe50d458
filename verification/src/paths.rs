//! Unix path semantics on strings, as `std::path::Path` computes them: the
//! last component (`file_name`), the parent, `with_file_name`, and the stem
//! and extension of a file name.

use vstd::prelude::*;
use crate::text::{rfind_char, rfind_chars, slice_chars, lemma_rfind_char};

verus! {

/// The path without trailing separators and trailing `.` components (a lone
/// `/` stays): the part of the path that its last component ends.
pub open spec fn trim_end(s: Seq<char>) -> Seq<char>
    decreases s.len(),
{
    if s.len() > 1 && s.last() == '/' {
        trim_end(s.drop_last())
    } else if s.len() >= 2 && s.last() == '.' && s[s.len() - 2] == '/' {
        trim_end(s.drop_last())
    } else {
        s
    }
}

pub proof fn lemma_trim_end_prefix(s: Seq<char>)
    ensures
        trim_end(s).len() <= s.len(),
        trim_end(s) == s.subrange(0, trim_end(s).len() as int),
        s.len() > 0 ==> trim_end(s).len() > 0,
    decreases s.len(),
{
    if s.len() > 1 && s.last() == '/' {
        lemma_trim_end_prefix(s.drop_last());
    } else if s.len() >= 2 && s.last() == '.' && s[s.len() - 2] == '/' {
        lemma_trim_end_prefix(s.drop_last());
    } else {
        assert(s.subrange(0, s.len() as int) == s);
    }
}

/// Everything after the last `/` (the whole string if there is none).
pub open spec fn last_segment(t: Seq<char>) -> Seq<char> {
    match rfind_char(t, '/') {
        Some(i) => t.subrange(i + 1, t.len() as int),
        None => t,
    }
}

/// Everything up to and including the last `/` (empty if there is none).
pub open spec fn before_last_segment(t: Seq<char>) -> Seq<char> {
    match rfind_char(t, '/') {
        Some(i) => t.subrange(0, i + 1),
        None => Seq::empty(),
    }
}

pub open spec fn is_dot(s: Seq<char>) -> bool {
    s == seq!['.']
}

pub open spec fn is_dotdot(s: Seq<char>) -> bool {
    s == seq!['.', '.']
}

/// `Path::file_name`: the last component if it is a normal name.
pub open spec fn file_name(s: Seq<char>) -> Option<Seq<char>> {
    let seg = last_segment(trim_end(s));
    if seg.len() == 0 || is_dot(seg) || is_dotdot(seg) {
        None
    } else {
        Some(seg)
    }
}

/// `Path::parent`: the path without its last component; none for a root or
/// an empty path.
pub open spec fn parent(s: Seq<char>) -> Option<Seq<char>> {
    let t = trim_end(s);
    if t.len() == 0 || t == seq!['/'] {
        None
    } else if is_dot(t) {
        Some(Seq::empty())
    } else {
        Some(trim_end(before_last_segment(t)))
    }
}

/// `PathBuf::push` of a relative name: a separator is added unless the path
/// is empty or already ends with one.
pub open spec fn push_name(base: Seq<char>, name: Seq<char>) -> Seq<char> {
    if base.len() == 0 || base.last() == '/' {
        base + name
    } else {
        base + seq!['/'] + name
    }
}

/// `Path::with_file_name` for a relative `name`: the last component is
/// replaced when there is a file name, otherwise `name` is appended.
pub open spec fn with_file_name(s: Seq<char>, name: Seq<char>) -> Seq<char> {
    match file_name(s) {
        Some(_) => push_name(parent(s).unwrap(), name),
        None => push_name(s, name),
    }
}

fn trim_end_len(s: &[char]) -> (r: usize)
    ensures
        r as int == trim_end(s@).len(),
        r <= s@.len(),
{
    proof {
        lemma_trim_end_prefix(s@);
    }
    let mut e: usize = s.len();
    assert(s@.subrange(0, e as int) == s@);
    while (e > 1 && s[e - 1] == '/') || (e >= 2 && s[e - 1] == '.' && s[e - 2] == '/')
        invariant
            e <= s@.len(),
            trim_end(s@) == trim_end(s@.subrange(0, e as int)),
        decreases e,
    {
        let ghost p = s@.subrange(0, e as int);
        assert(p.drop_last() == s@.subrange(0, e - 1));
        assert(p.last() == s@[e - 1]);
        e = e - 1;
    }
    proof {
        let p = s@.subrange(0, e as int);
        if e >= 2 {
            assert(p[e - 2] == s@[e - 2]);
        }
        assert(trim_end(p) == p);
    }
    e
}

fn is_dot_chars(s: &[char]) -> (r: bool)
    ensures
        r == is_dot(s@),
{
    if s.len() == 1 && s[0] == '.' {
        assert(s@ =~= seq!['.']);
        true
    } else {
        false
    }
}

fn is_dotdot_chars(s: &[char]) -> (r: bool)
    ensures
        r == is_dotdot(s@),
{
    if s.len() == 2 && s[0] == '.' && s[1] == '.' {
        assert(s@ =~= seq!['.', '.']);
        true
    } else {
        false
    }
}

/// The last path component, if it is a normal name.
pub fn file_name_chars(s: &[char]) -> (r: Option<Vec<char>>)
    ensures
        match r {
            Some(v) => file_name(s@) == Some(v@),
            None => file_name(s@) is None,
        },
{
    let e = trim_end_len(s);
    let t = slice_chars(s, 0, e);
    proof {
        lemma_trim_end_prefix(s@);
        assert(t@ == trim_end(s@));
        lemma_rfind_char(t@, '/');
    }
    let seg = match rfind_chars(t.as_slice(), '/') {
        Some(i) => slice_chars(t.as_slice(), i + 1, e),
        None => t,
    };
    if seg.len() == 0 || is_dot_chars(seg.as_slice()) || is_dotdot_chars(seg.as_slice()) {
        None
    } else {
        Some(seg)
    }
}

/// The parent path.
pub fn parent_chars(s: &[char]) -> (r: Option<Vec<char>>)
    ensures
        match r {
            Some(v) => parent(s@) == Some(v@),
            None => parent(s@) is None,
        },
{
    let e = trim_end_len(s);
    let t = slice_chars(s, 0, e);
    proof {
        lemma_trim_end_prefix(s@);
        assert(t@ == trim_end(s@));
        lemma_rfind_char(t@, '/');
    }
    if e == 0 || (e == 1 && t[0] == '/') {
        assert(e == 1 ==> t@ =~= seq!['/'] || t@ != seq!['/']);
        return None;
    }
    assert(t@ != seq!['/']) by {
        if t@ == seq!['/'] {
            assert(t@.len() == 1);
        }
    }
    if is_dot_chars(t.as_slice()) {
        return Some(Vec::new());
    }
    let head = match rfind_chars(t.as_slice(), '/') {
        Some(i) => slice_chars(t.as_slice(), 0, i + 1),
        None => Vec::new(),
    };
    assert(head@ == before_last_segment(t@));
    let he = trim_end_len(head.as_slice());
    proof {
        lemma_trim_end_prefix(head@);
    }
    let p = slice_chars(head.as_slice(), 0, he);
    Some(p)
}

/// `PathBuf::push` of a relative name.
pub fn push_name_chars(base: &[char], name: &[char]) -> (r: Vec<char>)
    ensures
        r@ == push_name(base@, name@),
{
    let mut r = slice_chars(base, 0, base.len());
    assert(r@ =~= base@);
    if base.len() > 0 && base[base.len() - 1] != '/' {
        r.push('/');
    }
    let mut i: usize = 0;
    let ghost start = r@;
    while i < name.len()
        invariant
            i <= name@.len(),
            r@ == start + name@.subrange(0, i as int),
        decreases name@.len() - i,
    {
        r.push(name[i]);
        i = i + 1;
        assert(r@ =~= start + name@.subrange(0, i as int));
    }
    assert(name@.subrange(0, name@.len() as int) == name@);
    r
}

/// `Path::with_file_name` for a relative `name`.
pub fn with_file_name_chars(s: &[char], name: &[char]) -> (r: Vec<char>)
    ensures
        r@ == with_file_name(s@, name@),
{
    match file_name_chars(s) {
        Some(_) => {
            proof {
                lemma_trim_end_prefix(s@);
            }
            let p = parent_chars(s);
            match p {
                Some(pv) => push_name_chars(pv.as_slice(), name),
                None => {
                    proof {
                        let t = trim_end(s@);
                        assert(last_segment(t).len() > 0);
                        lemma_rfind_char(t, '/');
                        if t == seq!['/'] {
                            assert(t[0] == '/');
                            assert(rfind_char(t, '/') == Some(0int));
                        }
                    }
                    push_name_chars(s, name)
                },
            }
        },
        None => push_name_chars(s, name),
    }
}

/// `rsplit_file_at_dot` of std: (part before the last dot, part after it),
/// where a name without an inner dot is all "after" and a name whose only dot
/// leads it (or `..`) is all "before".
pub open spec fn split_at_dot(f: Seq<char>) -> (Option<Seq<char>>, Option<Seq<char>>) {
    if is_dotdot(f) {
        (Some(f), None)
    } else {
        match rfind_char(f, '.') {
            None => (None, Some(f)),
            Some(i) => if i == 0 {
                (Some(f), None)
            } else {
                (Some(f.subrange(0, i)), Some(f.subrange(i + 1, f.len() as int)))
            },
        }
    }
}

/// `Path::file_stem`.
pub open spec fn file_stem(s: Seq<char>) -> Option<Seq<char>> {
    match file_name(s) {
        None => None,
        Some(f) => match split_at_dot(f) {
            (Some(b), _) => Some(b),
            (None, a) => a,
        },
    }
}

/// `Path::extension`.
pub open spec fn extension(s: Seq<char>) -> Option<Seq<char>> {
    match file_name(s) {
        None => None,
        Some(f) => match split_at_dot(f) {
            (Some(_), a) => a,
            (None, _) => None,
        },
    }
}

/// Stem and extension of a path, as `Path::file_stem` and `Path::extension`.
pub fn stem_and_extension(s: &[char]) -> (r: (Option<Vec<char>>, Option<Vec<char>>))
    ensures
        match r.0 {
            Some(v) => file_stem(s@) == Some(v@),
            None => file_stem(s@) is None,
        },
        match r.1 {
            Some(v) => extension(s@) == Some(v@),
            None => extension(s@) is None,
        },
{
    match file_name_chars(s) {
        None => (None, None),
        Some(f) => {
            proof {
                lemma_rfind_char(f@, '.');
            }
            if is_dotdot_chars(f.as_slice()) {
                return (Some(f), None);
            }
            match rfind_chars(f.as_slice(), '.') {
                None => (Some(f), None),
                Some(i) => {
                    if i == 0 {
                        (Some(f), None)
                    } else {
                        let b = slice_chars(f.as_slice(), 0, i);
                        let a = slice_chars(f.as_slice(), i + 1, f.len());
                        (Some(b), Some(a))
                    }
                },
            }
        },
    }
}

} // verus!
