//! Translations: one table of texts per language, the chosen language, and
//! the fallback to Turkish and then to the key itself.

use vstd::prelude::*;
use crate::strmap::StrMap;
use crate::text::{chars_of, chars_starts_with, owned, push_char, push_chars, push_str, slice_chars, starts_with, str_eq};

verus! {

/// The languages the application offers, by code. German is no longer
/// offered: a `de` left in an old setting is an unknown code.
pub open spec fn lang_codes() -> Seq<Seq<char>> {
    seq!["tr"@, "en"@, "es"@, "fr"@, "zh"@, "ko"@, "ja"@]
}

/// The language whose table answers when the chosen one lacks a key.
pub const FALLBACK: &'static str = "tr";

/// A known code stays; anything else (an old setting's `de`, say) becomes
/// English.
pub open spec fn spec_normalize(code: Seq<char>) -> Seq<char> {
    if lang_codes().contains(code) {
        code
    } else {
        "en"@
    }
}

pub fn normalize(code: &str) -> (r: &'static str)
    ensures
        r@ == spec_normalize(code@),
{
    proof {
        reveal_strlit("tr");
        reveal_strlit("en");
        reveal_strlit("es");
        reveal_strlit("fr");
        reveal_strlit("zh");
        reveal_strlit("ko");
        reveal_strlit("ja");
    }
    let r = if str_eq(code, "tr") {
        "tr"
    } else if str_eq(code, "en") {
        "en"
    } else if str_eq(code, "es") {
        "es"
    } else if str_eq(code, "fr") {
        "fr"
    } else if str_eq(code, "zh") {
        "zh"
    } else if str_eq(code, "ko") {
        "ko"
    } else if str_eq(code, "ja") {
        "ja"
    } else {
        "en"
    };
    proof {
        let l = lang_codes();
        if l.contains(code@) {
            let i = choose|i: int| 0 <= i < l.len() && l[i] == code@;
            assert(i == 0 || i == 1 || i == 2 || i == 3 || i == 4 || i == 5 || i == 6);
        } else {
            assert(code@ != l[0] && code@ != l[1] && code@ != l[2] && code@ != l[3]);
            assert(code@ != l[4] && code@ != l[5] && code@ != l[6]);
        }
    }
    r
}

/// A code of an offered language is kept as it is; any other code becomes
/// English; and a normalized code stays the same when normalized again.
pub proof fn law_offered_languages_are_kept(code: Seq<char>)
    ensures
        lang_codes().contains(code) ==> spec_normalize(code) == code,
        !lang_codes().contains(code) ==> spec_normalize(code) == "en"@,
        spec_normalize(spec_normalize(code)) == spec_normalize(code),
{
    assert(lang_codes()[1] == "en"@);
}

/// The interface is offered in Turkish, English, Spanish, French, Chinese,
/// Korean and Japanese: each of these codes is kept, and the `de` of an old
/// setting becomes English.
pub proof fn law_the_offered_languages()
    ensures
        spec_normalize("tr"@) == "tr"@,
        spec_normalize("en"@) == "en"@,
        spec_normalize("es"@) == "es"@,
        spec_normalize("fr"@) == "fr"@,
        spec_normalize("zh"@) == "zh"@,
        spec_normalize("ko"@) == "ko"@,
        spec_normalize("ja"@) == "ja"@,
        spec_normalize("de"@) == "en"@,
{
    reveal_strlit("tr");
    reveal_strlit("en");
    reveal_strlit("es");
    reveal_strlit("fr");
    reveal_strlit("zh");
    reveal_strlit("ko");
    reveal_strlit("ja");
    reveal_strlit("de");
    let l = lang_codes();
    assert(l[0] == "tr"@ && l[1] == "en"@ && l[2] == "es"@ && l[3] == "fr"@);
    assert(l[4] == "zh"@ && l[5] == "ko"@ && l[6] == "ja"@);
    if l.contains("de"@) {
        let i = choose|i: int| 0 <= i < l.len() && l[i] == "de"@;
        assert(l[i][0] != 'd' || l[i][1] != 'e');
    }
}

/// The texts of every language and the language chosen.
pub struct Translations {
    tables: Vec<(String, StrMap<String>)>,
    current: String,
}

/// The table of language `code`, if there is one (the first of that code).
pub open spec fn table_of(tables: Seq<(String, StrMap<String>)>, code: Seq<char>) -> Option<
    Map<Seq<char>, String>,
>
    decreases tables.len(),
{
    if tables.len() == 0 {
        None
    } else if tables[0].0@ == code {
        Some(tables[0].1@)
    } else {
        table_of(tables.drop_first(), code)
    }
}

/// The text of `key` in a table, if the table has it.
pub open spec fn lookup(table: Option<Map<Seq<char>, String>>, key: Seq<char>) -> Option<Seq<char>> {
    match table {
        Some(m) => if m.contains_key(key) {
            Some(m[key]@)
        } else {
            None
        },
        None => None,
    }
}

impl Translations {
    pub closed spec fn wf(&self) -> bool {
        forall|i: int| 0 <= i < self.tables@.len() ==> (#[trigger] self.tables@[i]).1.wf()
    }

    /// The language tables in the order they were added.
    pub closed spec fn table_list(&self) -> Seq<(String, StrMap<String>)> {
        self.tables@
    }

    /// The chosen language; empty before one is chosen.
    pub closed spec fn chosen(&self) -> Seq<char> {
        self.current@
    }

    /// The language in use: the chosen one, or the fallback.
    pub open spec fn active(&self) -> Seq<char> {
        if self.chosen().len() == 0 {
            FALLBACK@
        } else {
            self.chosen()
        }
    }

    /// The translation of `key`: in the active language, else in the
    /// fallback language, else the key itself.
    pub open spec fn text(&self, key: Seq<char>) -> Seq<char> {
        match lookup(table_of(self.table_list(), self.active()), key) {
            Some(t) => t,
            None => match lookup(table_of(self.table_list(), FALLBACK@), key) {
                Some(t) => t,
                None => key,
            },
        }
    }

    /// No tables, no language chosen.
    pub fn new() -> (r: Self)
        ensures
            r.wf(),
            r.table_list().len() == 0,
            r.chosen().len() == 0,
    {
        Translations { tables: Vec::new(), current: String::new() }
    }

    /// Adds the table of a language.
    pub fn add_table(&mut self, code: String, table: StrMap<String>)
        requires
            old(self).wf(),
            table.wf(),
        ensures
            final(self).wf(),
            final(self).table_list() == old(self).table_list().push((code, table)),
            final(self).chosen() == old(self).chosen(),
    {
        self.tables.push((code, table));
    }

    /// Chooses a language; an unknown code chooses English.
    pub fn set_language(&mut self, code: &str)
        requires
            old(self).wf(),
        ensures
            final(self).wf(),
            final(self).chosen() == spec_normalize(code@),
            final(self).table_list() == old(self).table_list(),
    {
        self.current = owned(normalize(code));
    }

    /// The language in use.
    pub fn current(&self) -> (r: String)
        ensures
            r@ == self.active(),
    {
        if self.current.as_str().is_empty() {
            owned(FALLBACK)
        } else {
            self.current.clone()
        }
    }

    fn find_table(&self, code: &str) -> (r: Option<&StrMap<String>>)
        requires
            self.wf(),
        ensures
            match r {
                Some(t) => t.wf() && table_of(self.table_list(), code@) == Some(t@),
                None => table_of(self.table_list(), code@) is None,
            },
    {
        let mut i: usize = 0;
        assert(self.tables@.skip(0) =~= self.tables@);
        while i < self.tables.len()
            invariant
                self.wf(),
                i <= self.tables@.len(),
                table_of(self.tables@, code@) == table_of(self.tables@.skip(i as int), code@),
            decreases self.tables@.len() - i,
        {
            assert(self.tables@.skip(i as int).drop_first() =~= self.tables@.skip(i + 1));
            assert(self.tables@.skip(i as int)[0] == self.tables@[i as int]);
            if str_eq(self.tables[i].0.as_str(), code) {
                return Some(&self.tables[i].1);
            }
            i = i + 1;
        }
        None
    }

    fn lookup_in(&self, code: &str, key: &str) -> (r: Option<String>)
        requires
            self.wf(),
        ensures
            match r {
                Some(t) => lookup(table_of(self.table_list(), code@), key@) == Some(t@),
                None => lookup(table_of(self.table_list(), code@), key@) is None,
            },
    {
        match self.find_table(code) {
            Some(t) => match t.get(key) {
                Some(v) => Some(v.clone()),
                None => None,
            },
            None => None,
        }
    }

    /// The translation of `key`; the fallback language's, or the key itself,
    /// where the active language has none.
    pub fn t(&self, key: &str) -> (r: String)
        requires
            self.wf(),
        ensures
            r@ == self.text(key@),
    {
        let cur = self.current();
        match self.lookup_in(cur.as_str(), key) {
            Some(v) => v,
            None => match self.lookup_in(FALLBACK, key) {
                Some(v) => v,
                None => owned(key),
            },
        }
    }

    /// The translation of `key` with each `{name}` placeholder replaced by its
    /// value, the pairs taken in order.
    pub fn tf(&self, key: &str, args: &[(&str, &str)]) -> (r: String)
        requires
            self.wf(),
        ensures
            r@ == fill_all(self.text(key@), args@, args@.len() as int),
    {
        let mut s = self.t(key);
        let mut i: usize = 0;
        while i < args.len()
            invariant
                i <= args@.len(),
                s@ == fill_all(self.text(key@), args@, i as int),
            decreases args@.len() - i,
        {
            let mut pat = owned("{");
            push_str(&mut pat, args[i].0);
            push_str(&mut pat, "}");
            s = replace_all(s.as_str(), pat.as_str(), args[i].1);
            i = i + 1;
        }
        s
    }
}

/// `{name}`, the placeholder for an argument.
pub open spec fn placeholder(name: Seq<char>) -> Seq<char> {
    "{"@ + name + "}"@
}

/// `str::replace`: every non-overlapping occurrence of `pat`, from the left,
/// replaced by `rep` (`pat` is never empty here).
pub open spec fn replace_spec(s: Seq<char>, pat: Seq<char>, rep: Seq<char>) -> Seq<char>
    decreases s.len(),
{
    if s.len() == 0 || pat.len() == 0 {
        s
    } else if starts_with(s, pat) {
        rep + replace_spec(s.skip(pat.len() as int), pat, rep)
    } else {
        seq![s[0]] + replace_spec(s.skip(1), pat, rep)
    }
}

/// The text after the first `n` arguments were filled in.
pub open spec fn fill_all(s: Seq<char>, args: Seq<(&str, &str)>, n: int) -> Seq<char>
    decreases n,
{
    if n <= 0 {
        s
    } else {
        replace_spec(fill_all(s, args, n - 1), placeholder(args[n - 1].0@), args[n - 1].1@)
    }
}

proof fn lemma_replace_step(s: Seq<char>, pat: Seq<char>, rep: Seq<char>, k: int)
    requires
        0 <= k < s.len(),
        pat.len() > 0,
    ensures
        starts_with(s.skip(k), pat) ==> replace_spec(s.skip(k), pat, rep) == rep + replace_spec(
            s.skip(k + pat.len()),
            pat,
            rep,
        ),
        !starts_with(s.skip(k), pat) ==> replace_spec(s.skip(k), pat, rep) == seq![s[k]]
            + replace_spec(s.skip(k + 1), pat, rep),
{
    assert(s.skip(k).len() > 0);
    if starts_with(s.skip(k), pat) {
        assert(s.skip(k).skip(pat.len() as int) =~= s.skip(k + pat.len()));
    } else {
        assert(s.skip(k).skip(1) =~= s.skip(k + 1));
        assert(s.skip(k)[0] == s[k]);
    }
}

/// Replaces every occurrence of `pat` in `s` by `rep`.
pub fn replace_all(s: &str, pat: &str, rep: &str) -> (r: String)
    ensures
        r@ == replace_spec(s@, pat@, rep@),
{
    let c = chars_of(s);
    let p = chars_of(pat);
    let rc = chars_of(rep);
    if p.len() == 0 {
        return owned(s);
    }
    let mut out = String::new();
    let mut k: usize = 0;
    assert(c@.skip(0) =~= c@);
    while k < c.len()
        invariant
            p@ == pat@,
            rc@ == rep@,
            p@.len() > 0,
            k <= c@.len(),
            out@ + replace_spec(c@.skip(k as int), p@, rc@) == replace_spec(c@, p@, rc@),
        decreases c@.len() - k,
    {
        proof {
            lemma_replace_step(c@, p@, rc@, k as int);
        }
        let ghost before = out@;
        if p.len() <= c.len() - k && chars_starts_with(
            slice_chars(c.as_slice(), k, c.len()).as_slice(),
            p.as_slice(),
        ) {
            push_chars(&mut out, rc.as_slice());
            proof {
                assert(out@ + replace_spec(c@.skip(k + p@.len()), p@, rc@) =~= before + (rc@
                    + replace_spec(c@.skip(k + p@.len()), p@, rc@)));
            }
            k = k + p.len();
        } else {
            proof {
                if p@.len() > c@.len() - k {
                    assert(!starts_with(c@.skip(k as int), p@));
                }
            }
            push_char(&mut out, c[k]);
            proof {
                assert(out@ + replace_spec(c@.skip(k + 1), p@, rc@) =~= before + (seq![c@[k as int]]
                    + replace_spec(c@.skip(k + 1), p@, rc@)));
            }
            k = k + 1;
        }
    }
    assert(c@.skip(k as int).len() == 0);
    assert(out@ + Seq::<char>::empty() =~= out@);
    let r = out;
    r
}

} // verus!
