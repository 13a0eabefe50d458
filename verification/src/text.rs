//! Character-level helpers shared by the string-processing parts of the
//! library: conversion between strings and character vectors, character
//! classes, lexicographic order, decimal numbers and small sequence facts.

use vstd::prelude::*;

verus! {

/// The characters of `s`, in order.
pub(crate) fn chars_of(s: &str) -> (r: Vec<char>)
    ensures
        r@ == s@,
{
    broadcast use vstd::string::axiom_spec_iter;
    let mut r: Vec<char> = Vec::new();
    for c in it: s.chars()
        invariant
            it.seq() == s@,
            r@ == it.seq().take(it.index() as int),
    {
        r.push(c);
    }
    r
}

/// The string made of the characters of `v`, in order.
pub(crate) fn string_of(v: &[char]) -> (r: String)
    ensures
        r@ == v@,
{
    let mut r = String::new();
    let mut i: usize = 0;
    while i < v.len()
        invariant
            i <= v@.len(),
            r@ == v@.take(i as int),
        decreases v@.len() - i,
    {
        push_char(&mut r, v[i]);
        assert(v@.take(i + 1) =~= v@.take(i as int).push(v@[i as int]));
        i = i + 1;
    }
    assert(v@.take(v@.len() as int) =~= v@);
    r
}

/// Appends one character to a string.
#[verifier::external_body]
pub(crate) fn push_char(s: &mut String, c: char)
    ensures
        final(s)@ == old(s)@.push(c),
{
    s.push(c)
}

/// Appends the characters of `t` to `s`.
pub fn push_chars(s: &mut String, t: &[char])
    ensures
        final(s)@ == old(s)@ + t@,
{
    let mut i: usize = 0;
    while i < t.len()
        invariant
            i <= t@.len(),
            s@ == old(s)@ + t@.subrange(0, i as int),
        decreases t@.len() - i,
    {
        push_char(s, t[i]);
        i = i + 1;
        assert(t@.subrange(0, i as int) == t@.subrange(0, i - 1).push(t@[i - 1]));
    }
    assert(t@.subrange(0, t@.len() as int) == t@);
}

/// Appends a string slice to a string.
pub fn push_str(s: &mut String, t: &str)
    ensures
        final(s)@ == old(s)@ + t@,
{
    let v = chars_of(t);
    push_chars(s, v.as_slice());
}

/// A new string holding the characters of `t`.
pub fn owned(t: &str) -> (r: String)
    ensures
        r@ == t@,
{
    let mut s = String::new();
    push_str(&mut s, t);
    assert(s@ == Seq::<char>::empty() + t@);
    s
}

/// The character sequences of a sequence of strings.
pub open spec fn str_views(v: Seq<String>) -> Seq<Seq<char>> {
    Seq::new(v.len(), |i: int| v[i]@)
}

/// Copies a vector of strings.
pub fn clone_strings(v: &Vec<String>) -> (r: Vec<String>)
    ensures
        r@ == v@,
{
    let mut r: Vec<String> = Vec::new();
    let mut i: usize = 0;
    while i < v.len()
        invariant
            i <= v@.len(),
            r@ == v@.subrange(0, i as int),
        decreases v@.len() - i,
    {
        r.push(v[i].clone());
        i = i + 1;
        assert(r@ == v@.subrange(0, i as int));
    }
    assert(v@.subrange(0, v@.len() as int) == v@);
    r
}

// ---------------------------------------------------------------------------
// Character classes
// ---------------------------------------------------------------------------

/// ASCII decimal digit.
pub open spec fn is_digit(c: char) -> bool {
    '0' <= c && c <= '9'
}

/// ASCII hexadecimal digit, either case.
pub open spec fn is_hex(c: char) -> bool {
    ('0' <= c && c <= '9') || ('a' <= c && c <= 'f') || ('A' <= c && c <= 'F')
}

/// Unicode `White_Space`, the class that `char::is_whitespace`, `str::trim`
/// and `str::split_whitespace` use.
pub open spec fn is_ws(c: char) -> bool {
    let u = c as u32;
    (0x9 <= u && u <= 0xd) || u == 0x20 || u == 0x85 || u == 0xa0 || u == 0x1680 || (0x2000 <= u
        && u <= 0x200a) || u == 0x2028 || u == 0x2029 || u == 0x202f || u == 0x205f || u == 0x3000
}

pub fn char_is_digit(c: char) -> (r: bool)
    ensures
        r == is_digit(c),
{
    '0' <= c && c <= '9'
}

pub fn char_is_hex(c: char) -> (r: bool)
    ensures
        r == is_hex(c),
{
    ('0' <= c && c <= '9') || ('a' <= c && c <= 'f') || ('A' <= c && c <= 'F')
}

pub fn char_is_ws(c: char) -> (r: bool)
    ensures
        r == is_ws(c),
{
    let u = c as u32;
    (0x9 <= u && u <= 0xd) || u == 0x20 || u == 0x85 || u == 0xa0 || u == 0x1680 || (0x2000 <= u
        && u <= 0x200a) || u == 0x2028 || u == 0x2029 || u == 0x202f || u == 0x205f || u == 0x3000
}

/// `char::to_ascii_lowercase`: ASCII capitals become small letters, every
/// other character stays.
pub open spec fn ascii_lower(c: char) -> char {
    if 'A' <= c && c <= 'Z' {
        ((c as u32) + 32) as char
    } else {
        c
    }
}

pub fn char_ascii_lower(c: char) -> (r: char)
    ensures
        r == ascii_lower(c),
{
    if 'A' <= c && c <= 'Z' {
        let u: u8 = (c as u32 + 32) as u8;
        let r = u as char;
        assert(r as u32 == c as u32 + 32);
        r
    } else {
        c
    }
}

pub open spec fn lower_seq(s: Seq<char>) -> Seq<char> {
    s.map_values(|c: char| ascii_lower(c))
}

// ---------------------------------------------------------------------------
// Lexicographic order (the order of `str`: UTF-8 byte order is code point order)
// ---------------------------------------------------------------------------

/// `a < b` in the order of Rust strings.
pub open spec fn lex_lt(a: Seq<char>, b: Seq<char>) -> bool
    decreases a.len(),
{
    if b.len() == 0 {
        false
    } else if a.len() == 0 {
        true
    } else if a[0] != b[0] {
        a[0] < b[0]
    } else {
        lex_lt(a.drop_first(), b.drop_first())
    }
}

pub open spec fn lex_le(a: Seq<char>, b: Seq<char>) -> bool {
    a == b || lex_lt(a, b)
}

pub proof fn lemma_lex_irreflexive(a: Seq<char>)
    ensures
        !lex_lt(a, a),
    decreases a.len(),
{
    if a.len() > 0 {
        lemma_lex_irreflexive(a.drop_first());
    }
}

pub proof fn lemma_lex_total(a: Seq<char>, b: Seq<char>)
    ensures
        a == b || lex_lt(a, b) || lex_lt(b, a),
    decreases a.len(),
{
    if a.len() > 0 && b.len() > 0 && a[0] == b[0] {
        lemma_lex_total(a.drop_first(), b.drop_first());
        if a.drop_first() == b.drop_first() {
            assert(a == seq![a[0]] + a.drop_first());
            assert(b == seq![b[0]] + b.drop_first());
        }
    } else if a.len() == 0 && b.len() == 0 {
        assert(a == b);
    }
}

pub proof fn lemma_lex_asym(a: Seq<char>, b: Seq<char>)
    ensures
        lex_lt(a, b) ==> !lex_lt(b, a),
    decreases a.len(),
{
    if a.len() > 0 && b.len() > 0 && a[0] == b[0] {
        lemma_lex_asym(a.drop_first(), b.drop_first());
    }
}

pub proof fn lemma_lex_trans(a: Seq<char>, b: Seq<char>, c: Seq<char>)
    requires
        lex_lt(a, b),
        lex_lt(b, c),
    ensures
        lex_lt(a, c),
    decreases a.len(),
{
    if a.len() > 0 && b.len() > 0 && c.len() > 0 && a[0] == b[0] && b[0] == c[0] {
        lemma_lex_trans(a.drop_first(), b.drop_first(), c.drop_first());
    }
}

/// String order as a relation, for `sort_by` and `sorted_by`.
pub open spec fn lex_leq() -> spec_fn(Seq<char>, Seq<char>) -> bool {
    |a: Seq<char>, b: Seq<char>| lex_le(a, b)
}

pub proof fn lemma_lex_total_ordering()
    ensures
        vstd::relations::total_ordering(lex_leq()),
{
    assert forall|a: Seq<char>| #[trigger] lex_leq()(a, a) by {}
    assert forall|a: Seq<char>, b: Seq<char>| #[trigger]
        lex_leq()(a, b) && #[trigger] lex_leq()(b, a) implies a == b by {
        lemma_lex_asym(a, b);
    }
    assert forall|a: Seq<char>, b: Seq<char>, c: Seq<char>| #[trigger]
        lex_leq()(a, b) && #[trigger] lex_leq()(b, c) implies lex_leq()(a, c) by {
        if a != b && b != c {
            lemma_lex_trans(a, b, c);
        }
    }
    assert forall|a: Seq<char>, b: Seq<char>| #[trigger]
        lex_leq()(a, b) || #[trigger] lex_leq()(b, a) by {
        lemma_lex_total(a, b);
    }
}

/// Compares two character sequences in string order.
pub fn chars_lt(a: &[char], b: &[char]) -> (r: bool)
    ensures
        r == lex_lt(a@, b@),
{
    let mut i: usize = 0;
    assert(a@.subrange(0, a@.len() as int) == a@);
    assert(b@.subrange(0, b@.len() as int) == b@);
    while i < a.len() && i < b.len() && a[i] == b[i]
        invariant
            i <= a@.len(),
            i <= b@.len(),
            a@.subrange(0, i as int) == b@.subrange(0, i as int),
            lex_lt(a@, b@) == lex_lt(a@.subrange(i as int, a@.len() as int), b@.subrange(i as int, b@.len() as int)),
        decreases a@.len() - i,
    {
        let ghost sa = a@.subrange(i as int, a@.len() as int);
        let ghost sb = b@.subrange(i as int, b@.len() as int);
        assert(sa.drop_first() == a@.subrange(i + 1, a@.len() as int));
        assert(sb.drop_first() == b@.subrange(i + 1, b@.len() as int));
        i = i + 1;
        assert(a@.subrange(0, i as int) == a@.subrange(0, i - 1).push(a@[i - 1]));
        assert(b@.subrange(0, i as int) == b@.subrange(0, i - 1).push(b@[i - 1]));
    }
    let ghost sa = a@.subrange(i as int, a@.len() as int);
    let ghost sb = b@.subrange(i as int, b@.len() as int);
    if i == b.len() {
        assert(sb.len() == 0);
        false
    } else if i == a.len() {
        assert(sa.len() == 0);
        true
    } else {
        assert(sa[0] == a@[i as int]);
        assert(sb[0] == b@[i as int]);
        a[i] < b[i]
    }
}

/// Equality of two character slices.
pub fn chars_eq(a: &[char], b: &[char]) -> (r: bool)
    ensures
        r == (a@ == b@),
{
    if a.len() != b.len() {
        return false;
    }
    let mut i: usize = 0;
    while i < a.len()
        invariant
            a@.len() == b@.len(),
            i <= a@.len(),
            forall|j: int| 0 <= j < i ==> a@[j] == b@[j],
        decreases a@.len() - i,
    {
        if a[i] != b[i] {
            return false;
        }
        i = i + 1;
    }
    assert(a@ == b@);
    true
}

/// Equality of two strings.
pub fn str_eq(a: &str, b: &str) -> (r: bool)
    ensures
        r == (a@ == b@),
{
    let va = chars_of(a);
    let vb = chars_of(b);
    chars_eq(va.as_slice(), vb.as_slice())
}

/// Compares two strings in string order.
pub fn str_lt(a: &str, b: &str) -> (r: bool)
    ensures
        r == lex_lt(a@, b@),
{
    let va = chars_of(a);
    let vb = chars_of(b);
    chars_lt(va.as_slice(), vb.as_slice())
}

/// The strings of `v` in ascending string order (the result of `sort`).
pub fn sort_strings(v: &Vec<String>) -> (r: Vec<String>)
    ensures
        str_views(r@) == str_views(v@).sort_by(lex_leq()),
{
    let mut r: Vec<String> = Vec::new();
    let mut i: usize = 0;
    proof {
        lemma_lex_total_ordering();
        assert(str_views(r@) =~= str_views(v@.subrange(0, 0)));
    }
    while i < v.len()
        invariant
            i <= v@.len(),
            vstd::relations::sorted_by(str_views(r@), lex_leq()),
            str_views(r@).to_multiset() == str_views(v@.subrange(0, i as int)).to_multiset(),
            vstd::relations::total_ordering(lex_leq()),
        decreases v@.len() - i,
    {
        let x = v[i].clone();
        let mut pos: usize = 0;
        while pos < r.len() && !str_lt(x.as_str(), r[pos].as_str())
            invariant
                pos <= r@.len(),
                x@ == v@[i as int]@,
                forall|j: int| 0 <= j < pos ==> !lex_lt(x@, #[trigger] r@[j]@),
            decreases r@.len() - pos,
        {
            pos = pos + 1;
        }
        let ghost old_r = r@;
        r.insert(pos, x);
        proof {
            let sv = str_views(r@);
            let so = str_views(old_r);
            assert(sv =~= so.insert(pos as int, x@));
            assert(vstd::relations::sorted_by(sv, lex_leq())) by {
                assert forall|a: int, b: int| 0 <= a < b < sv.len() implies #[trigger] lex_leq()(
                    sv[a],
                    sv[b],
                ) by {
                    if a < pos && b == pos {
                        assert(!lex_lt(x@, old_r[a]@));
                        lemma_lex_total(x@, old_r[a]@);
                    } else if a == pos && b > pos {
                        assert(pos < old_r.len());
                        assert(lex_lt(x@, old_r[pos as int]@));
                        assert(lex_leq()(so[pos as int], so[b - 1]));
                        if old_r[pos as int]@ != old_r[b - 1]@ {
                            lemma_lex_trans(x@, old_r[pos as int]@, old_r[b - 1]@);
                        }
                    } else if a < pos && b < pos {
                        assert(lex_leq()(so[a], so[b]));
                    } else if a < pos && b > pos {
                        assert(lex_leq()(so[a], so[b - 1]));
                    } else {
                        assert(lex_leq()(so[a - 1], so[b - 1]));
                    }
                }
            }
            vstd::seq_lib::to_multiset_insert(so, pos as int, x@);
            assert(str_views(v@.subrange(0, i + 1)) =~= str_views(v@.subrange(0, i as int)).push(
                x@,
            ));
            vstd::seq_lib::to_multiset_build(str_views(v@.subrange(0, i as int)), x@);
        }
        i = i + 1;
    }
    proof {
        assert(v@.subrange(0, v@.len() as int) == v@);
        str_views(v@).lemma_sort_by_ensures(lex_leq());
        vstd::seq_lib::lemma_sorted_unique(
            str_views(r@),
            str_views(v@).sort_by(lex_leq()),
            lex_leq(),
        );
    }
    r
}

/// `list` joined with `sep` between neighbours (the result of `join`).
pub open spec fn join_with(list: Seq<Seq<char>>, sep: Seq<char>) -> Seq<char>
    decreases list.len(),
{
    if list.len() == 0 {
        Seq::empty()
    } else if list.len() == 1 {
        list[0]
    } else {
        join_with(list.drop_last(), sep) + sep + list.last()
    }
}

/// Joins the strings with `sep` between neighbours.
pub fn join_strings(list: &[String], sep: &str) -> (r: String)
    ensures
        r@ == join_with(str_views(list@), sep@),
{
    let r = join_prefix(list, list.len(), sep);
    assert(list@.subrange(0, list@.len() as int) == list@);
    r
}

/// Joins the first `n` strings with `sep` between neighbours.
pub fn join_prefix(list: &[String], n: usize, sep: &str) -> (r: String)
    requires
        n <= list@.len(),
    ensures
        r@ == join_with(str_views(list@.subrange(0, n as int)), sep@),
{
    let mut r = String::new();
    let mut i: usize = 0;
    while i < n
        invariant
            n <= list@.len(),
            i <= n,
            r@ == join_with(str_views(list@.subrange(0, i as int)), sep@),
        decreases n - i,
    {
        let ghost prev = str_views(list@.subrange(0, i as int));
        if i > 0 {
            push_str(&mut r, sep);
        }
        push_str(&mut r, list[i].as_str());
        i = i + 1;
        proof {
            let cur = str_views(list@.subrange(0, i as int));
            assert(cur.drop_last() =~= prev);
            assert(cur.last() == list@[i - 1]@);
            if i == 1 {
                assert(r@ =~= cur[0]);
            }
        }
    }
    r
}

// ---------------------------------------------------------------------------
// Splitting, trimming, searching
// ---------------------------------------------------------------------------

/// The pieces of `s` between occurrences of `c` (the result of `split(c)`):
/// one more piece than there are occurrences, empty pieces included.
pub open spec fn split_char(s: Seq<char>, c: char) -> Seq<Seq<char>>
    decreases s.len(),
{
    if s.len() == 0 {
        seq![Seq::<char>::empty()]
    } else if s.last() == c {
        split_char(s.drop_last(), c).push(Seq::empty())
    } else {
        let p = split_char(s.drop_last(), c);
        p.update(p.len() - 1, p.last().push(s.last()))
    }
}

pub proof fn lemma_split_char_len(s: Seq<char>, c: char)
    ensures
        split_char(s, c).len() >= 1,
    decreases s.len(),
{
    if s.len() > 0 {
        lemma_split_char_len(s.drop_last(), c);
    }
}

/// Splits at every occurrence of `c`.
pub fn split_chars(s: &[char], c: char) -> (r: Vec<Vec<char>>)
    ensures
        r@.len() == split_char(s@, c).len(),
        forall|i: int| 0 <= i < r@.len() ==> #[trigger] r@[i]@ == split_char(s@, c)[i],
{
    let mut r: Vec<Vec<char>> = Vec::new();
    r.push(Vec::new());
    let mut i: usize = 0;
    assert(s@.subrange(0, 0) =~= Seq::<char>::empty());
    while i < s.len()
        invariant
            i <= s@.len(),
            r@.len() == split_char(s@.subrange(0, i as int), c).len(),
            r@.len() >= 1,
            forall|j: int| 0 <= j < r@.len() ==> #[trigger] r@[j]@ == split_char(
                s@.subrange(0, i as int),
                c,
            )[j],
        decreases s@.len() - i,
    {
        let ghost pre = s@.subrange(0, i as int);
        let ghost post = s@.subrange(0, i + 1);
        assert(post.drop_last() == pre);
        assert(post.last() == s@[i as int]);
        if s[i] == c {
            r.push(Vec::new());
        } else {
            let last = r.len() - 1;
            let mut piece = r.pop().unwrap();
            piece.push(s[i]);
            r.push(piece);
            proof {
                assert(split_char(post, c) == split_char(pre, c).update(
                    last as int,
                    split_char(pre, c).last().push(s@[i as int]),
                ));
            }
        }
        i = i + 1;
    }
    assert(s@.subrange(0, s@.len() as int) == s@);
    r
}

/// Position of the first occurrence of `c`, if any.
pub open spec fn find_char(s: Seq<char>, c: char) -> Option<int>
    decreases s.len(),
{
    if s.len() == 0 {
        None
    } else if s[0] == c {
        Some(0)
    } else {
        match find_char(s.drop_first(), c) {
            Some(i) => Some(i + 1),
            None => None,
        }
    }
}

/// Position of the last occurrence of `c`, if any.
pub open spec fn rfind_char(s: Seq<char>, c: char) -> Option<int>
    decreases s.len(),
{
    if s.len() == 0 {
        None
    } else if s.last() == c {
        Some(s.len() - 1)
    } else {
        rfind_char(s.drop_last(), c)
    }
}

pub proof fn lemma_rfind_char(s: Seq<char>, c: char)
    ensures
        match rfind_char(s, c) {
            Some(i) => 0 <= i < s.len() && s[i] == c && forall|j: int| i < j < s.len() ==> s[j] != c,
            None => forall|j: int| 0 <= j < s.len() ==> s[j] != c,
        },
    decreases s.len(),
{
    if s.len() > 0 {
        lemma_rfind_char(s.drop_last(), c);
        if s.last() != c {
            match rfind_char(s.drop_last(), c) {
                Some(i) => {
                    assert forall|j: int| i < j < s.len() implies s[j] != c by {
                        if j < s.len() - 1 {
                            assert(s.drop_last()[j] == s[j]);
                        }
                    }
                },
                None => {
                    assert forall|j: int| 0 <= j < s.len() implies s[j] != c by {
                        if j < s.len() - 1 {
                            assert(s.drop_last()[j] == s[j]);
                        }
                    }
                },
            }
        }
    }
}

/// Index of the last occurrence of `c`.
pub fn rfind_chars(s: &[char], c: char) -> (r: Option<usize>)
    ensures
        match r {
            Some(i) => rfind_char(s@, c) == Some(i as int),
            None => rfind_char(s@, c) is None,
        },
{
    let mut i: usize = s.len();
    assert(s@.subrange(0, s@.len() as int) == s@);
    while i > 0
        invariant
            i <= s@.len(),
            rfind_char(s@, c) == rfind_char(s@.subrange(0, i as int), c),
        decreases i,
    {
        let ghost pre = s@.subrange(0, i as int);
        assert(pre.last() == s@[i - 1]);
        if s[i - 1] == c {
            return Some(i - 1);
        }
        assert(pre.drop_last() == s@.subrange(0, i - 1));
        i = i - 1;
    }
    None
}

/// Does `s` start with `p`?
pub open spec fn starts_with(s: Seq<char>, p: Seq<char>) -> bool {
    p.len() <= s.len() && s.subrange(0, p.len() as int) == p
}

/// Does `s` end with `p`?
pub open spec fn ends_with(s: Seq<char>, p: Seq<char>) -> bool {
    p.len() <= s.len() && s.subrange(s.len() - p.len(), s.len() as int) == p
}

pub fn chars_starts_with(s: &[char], p: &[char]) -> (r: bool)
    ensures
        r == starts_with(s@, p@),
{
    if p.len() > s.len() {
        return false;
    }
    let mut i: usize = 0;
    while i < p.len()
        invariant
            p@.len() <= s@.len(),
            i <= p@.len(),
            forall|j: int| 0 <= j < i ==> s@[j] == p@[j],
        decreases p@.len() - i,
    {
        if s[i] != p[i] {
            assert(s@.subrange(0, p@.len() as int)[i as int] != p@[i as int]);
            return false;
        }
        i = i + 1;
    }
    assert(s@.subrange(0, p@.len() as int) =~= p@);
    true
}

pub fn chars_ends_with(s: &[char], p: &[char]) -> (r: bool)
    ensures
        r == ends_with(s@, p@),
{
    if p.len() > s.len() {
        return false;
    }
    let off = s.len() - p.len();
    let mut i: usize = 0;
    while i < p.len()
        invariant
            p@.len() <= s@.len(),
            off == s@.len() - p@.len(),
            off + p@.len() == s@.len(),
            s@.len() == s.len(),
            i <= p@.len(),
            forall|j: int| 0 <= j < i ==> s@[off + j] == p@[j],
        decreases p@.len() - i,
    {
        if s[off + i] != p[i] {
            assert(s@.subrange(off as int, s@.len() as int)[i as int] != p@[i as int]);
            return false;
        }
        i = i + 1;
    }
    assert(s@.subrange(off as int, s@.len() as int) =~= p@);
    true
}

/// A copy of `s[from..to]`.
pub fn slice_chars(s: &[char], from: usize, to: usize) -> (r: Vec<char>)
    requires
        from <= to <= s@.len(),
    ensures
        r@ == s@.subrange(from as int, to as int),
{
    let mut r: Vec<char> = Vec::new();
    let mut i: usize = from;
    while i < to
        invariant
            from <= i <= to,
            to <= s@.len(),
            r@ == s@.subrange(from as int, i as int),
        decreases to - i,
    {
        r.push(s[i]);
        i = i + 1;
        assert(r@ =~= s@.subrange(from as int, i as int));
    }
    r
}

/// Number of leading characters that are white space.
pub open spec fn lead_ws(s: Seq<char>) -> int
    decreases s.len(),
{
    if s.len() > 0 && is_ws(s[0]) {
        1 + lead_ws(s.drop_first())
    } else {
        0
    }
}

/// Number of trailing characters that are white space.
pub open spec fn trail_ws(s: Seq<char>) -> int
    decreases s.len(),
{
    if s.len() > 0 && is_ws(s.last()) {
        1 + trail_ws(s.drop_last())
    } else {
        0
    }
}

pub proof fn lemma_lead_ws(s: Seq<char>)
    ensures
        0 <= lead_ws(s) <= s.len(),
        forall|j: int| 0 <= j < lead_ws(s) ==> is_ws(#[trigger] s[j]),
        lead_ws(s) < s.len() ==> !is_ws(s[lead_ws(s)]),
    decreases s.len(),
{
    if s.len() > 0 && is_ws(s[0]) {
        lemma_lead_ws(s.drop_first());
        assert forall|j: int| 0 <= j < lead_ws(s) implies is_ws(#[trigger] s[j]) by {
            if j > 0 {
                assert(s.drop_first()[j - 1] == s[j]);
            }
        }
    }
}

/// `str::trim`: `s` without leading and trailing white space.
pub open spec fn trim(s: Seq<char>) -> Seq<char> {
    let t = s.subrange(lead_ws(s), s.len() as int);
    t.subrange(0, t.len() - trail_ws(t))
}

proof fn lemma_trail_ws(s: Seq<char>)
    ensures
        0 <= trail_ws(s) <= s.len(),
    decreases s.len(),
{
    if s.len() > 0 && is_ws(s.last()) {
        lemma_trail_ws(s.drop_last());
    }
}

/// `str::trim` on characters.
pub fn trim_chars(s: &[char]) -> (r: Vec<char>)
    ensures
        r@ == trim(s@),
{
    let mut a: usize = 0;
    assert(s@.subrange(0, s@.len() as int) == s@);
    while a < s.len() && char_is_ws(s[a])
        invariant
            a <= s@.len(),
            lead_ws(s@) == a + lead_ws(s@.subrange(a as int, s@.len() as int)),
        decreases s@.len() - a,
    {
        let ghost t = s@.subrange(a as int, s@.len() as int);
        assert(t.drop_first() == s@.subrange(a + 1, s@.len() as int));
        a = a + 1;
    }
    let ghost t = s@.subrange(a as int, s@.len() as int);
    assert(lead_ws(t) == 0);
    let mut b: usize = s.len();
    proof {
        lemma_trail_ws(t);
        assert(t.subrange(0, t.len() as int) == t);
    }
    while b > a && char_is_ws(s[b - 1])
        invariant
            a <= b <= s@.len(),
            t == s@.subrange(a as int, s@.len() as int),
            trail_ws(t) == (s@.len() - b) + trail_ws(s@.subrange(a as int, b as int)),
        decreases b,
    {
        let ghost u = s@.subrange(a as int, b as int);
        assert(u.drop_last() == s@.subrange(a as int, b - 1));
        assert(u.last() == s@[b - 1]);
        b = b - 1;
    }
    let ghost u = s@.subrange(a as int, b as int);
    assert(trail_ws(u) == 0);
    let r = slice_chars(s, a, b);
    assert(r@ =~= t.subrange(0, t.len() - trail_ws(t)));
    r
}

/// Lower-hexadecimal digit for a value below 16.
pub open spec fn hex_digit(n: u8) -> char {
    if n < 10 {
        ((n + 48) as u32) as char
    } else {
        ((n + 87) as u32) as char
    }
}

/// Lower-case hexadecimal encoding, two digits per byte (`hex::encode`).
pub open spec fn hex_lower(b: Seq<u8>) -> Seq<char>
    decreases b.len(),
{
    if b.len() == 0 {
        Seq::empty()
    } else {
        hex_lower(b.drop_last()) + seq![hex_digit(b.last() / 16), hex_digit(b.last() % 16)]
    }
}

pub proof fn lemma_hex_lower_len(b: Seq<u8>)
    ensures
        hex_lower(b).len() == 2 * b.len(),
        forall|i: int| 0 <= i < hex_lower(b).len() ==> is_hex(#[trigger] hex_lower(b)[i]),
    decreases b.len(),
{
    if b.len() > 0 {
        lemma_hex_lower_len(b.drop_last());
        let p = hex_lower(b.drop_last());
        let q = seq![hex_digit(b.last() / 16), hex_digit(b.last() % 16)];
        assert forall|i: int| 0 <= i < hex_lower(b).len() implies is_hex(#[trigger] hex_lower(b)[i]) by {
            if i < p.len() {
                assert(hex_lower(b)[i] == p[i]);
            } else {
                assert(hex_lower(b)[i] == q[i - p.len()]);
            }
        }
    }
}

// ---------------------------------------------------------------------------
// Decimal numbers
// ---------------------------------------------------------------------------

pub open spec fn digit_char(d: nat) -> char
    recommends
        d < 10,
{
    ((d + 48) as u32) as char
}

pub open spec fn digit_val(c: char) -> nat {
    ((c as u32) - 48) as nat
}

/// Decimal representation of `n`, without leading zeros.
pub open spec fn dec(n: nat) -> Seq<char>
    decreases n,
{
    if n < 10 {
        seq![digit_char(n)]
    } else {
        dec(n / 10).push(digit_char(n % 10))
    }
}

/// Value of a sequence of decimal digits.
pub open spec fn digits_val(d: Seq<char>) -> nat
    decreases d.len(),
{
    if d.len() == 0 {
        0
    } else {
        digits_val(d.drop_last()) * 10 + digit_val(d.last())
    }
}

pub open spec fn all_digits(d: Seq<char>) -> bool {
    forall|i: int| 0 <= i < d.len() ==> is_digit(#[trigger] d[i])
}

/// `str::parse::<u64>`: an optional `+`, then one or more ASCII digits whose
/// value fits in 64 bits.
pub open spec fn parse_u64(s: Seq<char>) -> Option<u64> {
    let d = if s.len() > 0 && s[0] == '+' {
        s.drop_first()
    } else {
        s
    };
    if d.len() > 0 && all_digits(d) && digits_val(d) <= u64::MAX {
        Some(digits_val(d) as u64)
    } else {
        None
    }
}

fn digit_to_char(d: u64) -> (c: char)
    requires
        d < 10,
    ensures
        c == digit_char(d as nat),
{
    let b: u8 = (d + 48) as u8;
    let c = b as char;
    assert(c as u32 == d + 48);
    c
}

/// Appends the decimal representation of `n`.
pub fn push_dec(s: &mut String, n: u64)
    ensures
        final(s)@ == old(s)@ + dec(n as nat),
    decreases n,
{
    if n < 10 {
        push_char(s, digit_to_char(n));
        assert(dec(n as nat) == seq![digit_char(n as nat)]);
    } else {
        push_dec(s, n / 10);
        push_char(s, digit_to_char(n % 10));
    }
}

/// Decimal representation of `n` as a new string.
pub fn u64_to_string(n: u64) -> (r: String)
    ensures
        r@ == dec(n as nat),
{
    let mut s = String::new();
    push_dec(&mut s, n);
    assert(s@ == Seq::<char>::empty() + dec(n as nat));
    s
}

proof fn lemma_digits_val_prefix_bound(d: Seq<char>, k: int)
    requires
        0 <= k <= d.len(),
        all_digits(d),
    ensures
        digits_val(d) >= digits_val(d.subrange(0, k)),
    decreases d.len() - k,
{
    if k < d.len() {
        lemma_digits_val_prefix_bound(d, k + 1);
        let p = d.subrange(0, k + 1);
        assert(p.drop_last() == d.subrange(0, k));
        assert(digits_val(p) == digits_val(d.subrange(0, k)) * 10 + digit_val(p.last()));
    } else {
        assert(d.subrange(0, k) == d);
    }
}

/// `str::parse::<u64>` on a character slice.
pub fn parse_u64_chars(s: &[char]) -> (r: Option<u64>)
    ensures
        r == parse_u64(s@),
{
    let start: usize = if s.len() > 0 && s[0] == '+' {
        1
    } else {
        0
    };
    let ghost d = if s@.len() > 0 && s@[0] == '+' {
        s@.drop_first()
    } else {
        s@
    };
    assert(d == s@.subrange(start as int, s@.len() as int));
    if start == s.len() {
        return None;
    }
    let mut acc: u64 = 0;
    let mut i: usize = start;
    while i < s.len()
        invariant
            start <= i <= s@.len(),
            d == s@.subrange(start as int, s@.len() as int),
            d == (if s@.len() > 0 && s@[0] == '+' {
                s@.drop_first()
            } else {
                s@
            }),
            d.len() > 0,
            all_digits(s@.subrange(start as int, i as int)),
            acc as nat == digits_val(s@.subrange(start as int, i as int)),
        decreases s@.len() - i,
    {
        let c = s[i];
        if !char_is_digit(c) {
            assert(d[i - start] == c);
            assert(!is_digit(d[i - start]));
            return None;
        }
        let dv: u64 = (c as u32 - 48) as u64;
        let ghost p = s@.subrange(start as int, i + 1);
        assert(p.drop_last() == s@.subrange(start as int, i as int));
        assert(p.last() == c);
        if acc > (u64::MAX - dv) / 10 {
            proof {
                assert(digits_val(p) == acc * 10 + dv);
                assert(acc * 10 + dv > u64::MAX) by (nonlinear_arith)
                    requires
                        acc > (u64::MAX - dv) / 10,
                        dv < 10,
                ;
                if all_digits(d) {
                    lemma_digits_val_prefix_bound(d, i + 1 - start);
                    assert(d.subrange(0, i + 1 - start) == p);
                }
            }
            return None;
        }
        acc = acc * 10 + dv;
        i = i + 1;
        proof {
            assert forall|j: int| 0 <= j < p.len() implies is_digit(#[trigger] p[j]) by {
                if j < p.len() - 1 {
                    assert(p[j] == s@.subrange(start as int, i - 1)[j]);
                }
            }
        }
    }
    assert(s@.subrange(start as int, i as int) == d);
    Some(acc)
}

/// The decimal text of a number is one or more digits worth that number.
pub proof fn lemma_dec(n: nat)
    ensures
        dec(n).len() > 0,
        all_digits(dec(n)),
        digits_val(dec(n)) == n,
    decreases n,
{
    if n < 10 {
        assert(digit_char(n) as u32 == n + 48);
        assert(dec(n) == seq![digit_char(n)]);
        assert(dec(n).drop_last() =~= Seq::<char>::empty());
        assert(digit_val(digit_char(n)) == n);
        assert(digits_val(dec(n)) == digits_val(dec(n).drop_last()) * 10 + digit_val(dec(n).last()));
    } else {
        lemma_dec(n / 10);
        let d = n % 10;
        assert(digit_char(d) as u32 == d + 48);
        let s = dec(n);
        assert(s.drop_last() == dec(n / 10));
        assert(s.last() == digit_char(d));
        assert(digit_val(digit_char(d)) == d);
        assert((n / 10) * 10 + n % 10 == n);
        assert(digits_val(s) == digits_val(dec(n / 10)) * 10 + digit_val(s.last()));
        assert forall|i: int| 0 <= i < s.len() implies is_digit(#[trigger] s[i]) by {
            if i < s.len() - 1 {
                assert(s[i] == dec(n / 10)[i]);
            }
        }
    }
}

/// Trimming leaves alone a text that neither begins nor ends with white space.
pub proof fn lemma_trim_nothing(s: Seq<char>)
    requires
        s.len() > 0,
        !is_ws(s[0]),
        !is_ws(s.last()),
    ensures
        trim(s) == s,
{
    assert(lead_ws(s) == 0);
    assert(s.subrange(0, s.len() as int) =~= s);
    assert(trail_ws(s) == 0);
    assert(s.subrange(0, s.len() - 0) =~= s);
}

/// Splitting a text that holds no separator gives the text itself.
pub proof fn lemma_split_none(y: Seq<char>, c: char)
    requires
        !y.contains(c),
    ensures
        split_char(y, c) == seq![y],
    decreases y.len(),
{
    if y.len() > 0 {
        assert(!y.drop_last().contains(c)) by {
            if y.drop_last().contains(c) {
                let i = choose|i: int| 0 <= i < y.drop_last().len() && y.drop_last()[i] == c;
                assert(y[i] == c);
            }
        }
        lemma_split_char_len(y.drop_last(), c);
        lemma_split_none(y.drop_last(), c);
        assert(y.last() != c) by {
            assert(y[y.len() - 1] == y.last());
        }
        assert(y.drop_last().push(y.last()) =~= y);
        assert(seq![y.drop_last()].update(0, y.drop_last().push(y.last())) =~= seq![y]);
    } else {
        assert(y =~= Seq::<char>::empty());
    }
}

/// A separator followed by a text without one adds that text as the last
/// piece.
pub proof fn lemma_split_append(a: Seq<char>, c: char, y: Seq<char>)
    requires
        !y.contains(c),
    ensures
        split_char(a + seq![c] + y, c) == split_char(a, c).push(y),
    decreases y.len(),
{
    let s = a + seq![c] + y;
    if y.len() == 0 {
        assert(s =~= a.push(c));
        assert(s.drop_last() =~= a);
        assert(y =~= Seq::<char>::empty());
    } else {
        assert(!y.drop_last().contains(c)) by {
            if y.drop_last().contains(c) {
                let i = choose|i: int| 0 <= i < y.drop_last().len() && y.drop_last()[i] == c;
                assert(y[i] == c);
            }
        }
        lemma_split_append(a, c, y.drop_last());
        assert(s.drop_last() =~= a + seq![c] + y.drop_last());
        assert(s.last() == y.last());
        assert(y.last() != c) by {
            assert(y[y.len() - 1] == y.last());
        }
        let p = split_char(a + seq![c] + y.drop_last(), c);
        assert(p == split_char(a, c).push(y.drop_last()));
        assert(p.update(p.len() - 1, p.last().push(y.last())) =~= split_char(a, c).push(y)) by {
            assert(y.drop_last().push(y.last()) =~= y);
        }
    }
}

} // verus!
