//! In-app update: version tags, the release asset for this platform, the
//! checksum file, and the paths used while replacing the running binary.
//! Network and file system work happens outside; these are its decisions.

use vstd::prelude::*;
use crate::paths::{file_name, file_name_chars, with_file_name, with_file_name_chars};
use crate::codec::to_hex;
use sha2::Digest;
use crate::text::hex_lower;
use crate::text::{all_digits, char_ascii_lower, char_is_hex, char_is_ws, chars_eq, chars_ends_with, chars_of, dec, ends_with, is_hex, is_ws, lead_ws, lower_seq, owned, parse_u64, parse_u64_chars, push_dec, push_str, slice_chars, split_char, split_chars, str_eq, string_of, trim, trim_chars, lemma_dec, lemma_trim_nothing, lemma_split_none, lemma_split_append, is_digit};

verus! {

pub const REPO: &'static str = "KaanAlper/ConnectSync";

/// Version of this build.
pub const CURRENT_VERSION: &'static str = "0.1.0";

/// (major, minor, patch); tuple order is version order.
pub type Version = (u64, u64, u64);

// ---------------------------------------------------------------------------
// Versions
// ---------------------------------------------------------------------------

/// Number of leading `v`/`V` characters.
pub open spec fn lead_v(s: Seq<char>) -> int
    decreases s.len(),
{
    if s.len() > 0 && (s[0] == 'v' || s[0] == 'V') {
        1 + lead_v(s.drop_first())
    } else {
        0
    }
}

/// Length of the part before the first `-` or `+`.
pub open spec fn core_len(s: Seq<char>) -> int
    decreases s.len(),
{
    if s.len() == 0 || s[0] == '-' || s[0] == '+' {
        0
    } else {
        1 + core_len(s.drop_first())
    }
}

proof fn lemma_lead_v(s: Seq<char>)
    ensures
        0 <= lead_v(s) <= s.len(),
    decreases s.len(),
{
    if s.len() > 0 && (s[0] == 'v' || s[0] == 'V') {
        lemma_lead_v(s.drop_first());
    }
}

proof fn lemma_core_len(s: Seq<char>)
    ensures
        0 <= core_len(s) <= s.len(),
    decreases s.len(),
{
    if !(s.len() == 0 || s[0] == '-' || s[0] == '+') {
        lemma_core_len(s.drop_first());
    }
}

/// "v1.0.12", "1.0.12" or "1.2.3-beta+abc": white space trimmed, leading
/// `v`/`V` dropped, pre-release and build parts cut at the first `-` or `+`,
/// then exactly three dot-separated unsigned numbers.
pub open spec fn spec_parse_version(s: Seq<char>) -> Option<Version> {
    let t = trim(s);
    let u = t.subrange(lead_v(t), t.len() as int);
    let core = u.subrange(0, core_len(u));
    let parts = split_char(core, '.');
    if parts.len() == 3 && parse_u64(parts[0]) is Some && parse_u64(parts[1]) is Some && parse_u64(
        parts[2],
    ) is Some {
        Some((parse_u64(parts[0]).unwrap(), parse_u64(parts[1]).unwrap(), parse_u64(parts[2]).unwrap()))
    } else {
        None
    }
}

pub fn parse_version(s: &str) -> (r: Option<Version>)
    ensures
        r == spec_parse_version(s@),
{
    let c = chars_of(s);
    let t = trim_chars(c.as_slice());
    let mut a: usize = 0;
    assert(t@.subrange(0, t@.len() as int) == t@);
    proof {
        lemma_lead_v(t@);
    }
    while a < t.len() && (t[a] == 'v' || t[a] == 'V')
        invariant
            a <= t@.len(),
            lead_v(t@) == a + lead_v(t@.subrange(a as int, t@.len() as int)),
        decreases t@.len() - a,
    {
        assert(t@.subrange(a as int, t@.len() as int).drop_first() == t@.subrange(
            a + 1,
            t@.len() as int,
        ));
        a = a + 1;
    }
    let u = slice_chars(t.as_slice(), a, t.len());
    let mut b: usize = 0;
    assert(u@.subrange(0, u@.len() as int) == u@);
    while b < u.len() && u[b] != '-' && u[b] != '+'
        invariant
            b <= u@.len(),
            core_len(u@) == b + core_len(u@.subrange(b as int, u@.len() as int)),
        decreases u@.len() - b,
    {
        assert(u@.subrange(b as int, u@.len() as int).drop_first() == u@.subrange(
            b + 1,
            u@.len() as int,
        ));
        b = b + 1;
    }
    let core = slice_chars(u.as_slice(), 0, b);
    let parts = split_chars(core.as_slice(), '.');
    if parts.len() != 3 {
        return None;
    }
    let x = parse_u64_chars(parts[0].as_slice());
    let y = parse_u64_chars(parts[1].as_slice());
    let z = parse_u64_chars(parts[2].as_slice());
    match (x, y, z) {
        (Some(x), Some(y), Some(z)) => Some((x, y, z)),
        _ => None,
    }
}

/// `major.minor.patch`.
pub open spec fn spec_format_version(v: Version) -> Seq<char> {
    dec(v.0 as nat) + seq!['.'] + dec(v.1 as nat) + seq!['.'] + dec(v.2 as nat)
}

pub fn format_version(v: Version) -> (r: String)
    ensures
        r@ == spec_format_version(v),
{
    let mut s = String::new();
    push_dec(&mut s, v.0);
    push_str(&mut s, ".");
    push_dec(&mut s, v.1);
    push_str(&mut s, ".");
    push_dec(&mut s, v.2);
    proof {
        reveal_strlit(".");
        assert(s@ =~= spec_format_version(v));
    }
    s
}

proof fn lemma_core_len_all(s: Seq<char>)
    requires
        forall|i: int| 0 <= i < s.len() ==> #[trigger] s[i] != '-' && s[i] != '+',
    ensures
        core_len(s) == s.len(),
    decreases s.len(),
{
    if s.len() > 0 {
        assert forall|i: int| 0 <= i < s.drop_first().len() implies #[trigger] s.drop_first()[i]
            != '-' && s.drop_first()[i] != '+' by {
            assert(s.drop_first()[i] == s[i + 1]);
        }
        lemma_core_len_all(s.drop_first());
        assert(s[0] != '-' && s[0] != '+');
    }
}

proof fn lemma_digits_no_dot(d: Seq<char>)
    requires
        all_digits(d),
    ensures
        !d.contains('.'),
{
    if d.contains('.') {
        let i = choose|i: int| 0 <= i < d.len() && d[i] == '.';
        assert(is_digit(d[i]));
    }
}

/// A version written as `major.minor.patch` reads back as the same version.
pub proof fn law_version_text_round_trips(v: Version)
    ensures
        spec_parse_version(spec_format_version(v)) == Some(v),
{
    let a = dec(v.0 as nat);
    let b = dec(v.1 as nat);
    let c = dec(v.2 as nat);
    lemma_dec(v.0 as nat);
    lemma_dec(v.1 as nat);
    lemma_dec(v.2 as nat);
    let s = spec_format_version(v);
    let ab = a + seq!['.'] + b;
    assert(s =~= ab + seq!['.'] + c);
    assert forall|i: int| 0 <= i < s.len() implies (is_digit(#[trigger] s[i]) || s[i] == '.') by {
        if i < a.len() {
            assert(s[i] == a[i]);
        } else if i == a.len() {
        } else if i < a.len() + 1 + b.len() {
            assert(s[i] == b[i - a.len() - 1]);
        } else if i == a.len() + 1 + b.len() {
        } else {
            assert(s[i] == c[i - a.len() - 2 - b.len()]);
        }
    }
    assert(is_digit(s[0])) by {
        assert(s[0] == a[0]);
    }
    assert(is_digit(s.last())) by {
        assert(s.last() == c[c.len() - 1]);
    }
    lemma_trim_nothing(s);
    assert(lead_v(s) == 0);
    assert(s.subrange(0, s.len() as int) =~= s);
    lemma_core_len_all(s);
    lemma_digits_no_dot(a);
    lemma_digits_no_dot(b);
    lemma_digits_no_dot(c);
    lemma_split_none(a, '.');
    lemma_split_append(a, '.', b);
    lemma_split_append(ab, '.', c);
    let parts = split_char(s, '.');
    assert(parts =~= seq![a, b, c]);
    assert(a[0] != '+' && b[0] != '+' && c[0] != '+') by {
        assert(is_digit(a[0]) && is_digit(b[0]) && is_digit(c[0]));
    }
}

/// Version of this build, (0, 0, 0) if the constant were unreadable.
pub fn current_version() -> (r: Version)
    ensures
        r == (match spec_parse_version(CURRENT_VERSION@) {
            Some(v) => v,
            None => (0u64, 0u64, 0u64),
        }),
{
    match parse_version(CURRENT_VERSION) {
        Some(v) => v,
        None => (0, 0, 0),
    }
}

// ---------------------------------------------------------------------------
// Errors and releases
// ---------------------------------------------------------------------------

#[derive(Debug, Clone, PartialEq, Eq)]
pub enum UpdateError {
    Network(String),
    Release(String),
    NoAsset(String),
    NoChecksum(String),
    Checksum,
    Io(String),
    Unsupported,
}

/// What the user reads for an update failure.
pub open spec fn spec_update_message(e: UpdateError) -> Seq<char> {
    match e {
        UpdateError::Network(m) => "GitHub'a ulaşılamadı: "@ + m@,
        UpdateError::Release(m) => "Sürüm bilgisi okunamadı: "@ + m@,
        UpdateError::NoAsset(n) => "Bu sürümde bu sistem için dosya yok ("@ + n@ + ")"@,
        UpdateError::NoChecksum(n) => n@ + " için .sha256 dosyası yok; doğrulanamadığından indirme reddedildi"@,
        UpdateError::Checksum => "İndirilen dosya bozuk (SHA-256 uyuşmuyor)"@,
        UpdateError::Io(m) => "Dosya hatası: "@ + m@,
        UpdateError::Unsupported => "Bu sistemde uygulama içi güncelleme desteklenmiyor"@,
    }
}

impl UpdateError {
    pub fn message(&self) -> (r: String)
        ensures
            r@ == spec_update_message(*self),
    {
        let mut s = String::new();
        match self {
            UpdateError::Network(m) => {
                push_str(&mut s, "GitHub'a ulaşılamadı: ");
                push_str(&mut s, m.as_str());
            },
            UpdateError::Release(m) => {
                push_str(&mut s, "Sürüm bilgisi okunamadı: ");
                push_str(&mut s, m.as_str());
            },
            UpdateError::NoAsset(n) => {
                push_str(&mut s, "Bu sürümde bu sistem için dosya yok (");
                push_str(&mut s, n.as_str());
                push_str(&mut s, ")");
            },
            UpdateError::NoChecksum(n) => {
                push_str(&mut s, n.as_str());
                push_str(&mut s, " için .sha256 dosyası yok; doğrulanamadığından indirme reddedildi");
            },
            UpdateError::Checksum => {
                push_str(&mut s, "İndirilen dosya bozuk (SHA-256 uyuşmuyor)");
            },
            UpdateError::Io(m) => {
                push_str(&mut s, "Dosya hatası: ");
                push_str(&mut s, m.as_str());
            },
            UpdateError::Unsupported => {
                push_str(&mut s, "Bu sistemde uygulama içi güncelleme desteklenmiyor");
            },
        }
        s
    }
}

#[derive(Debug, PartialEq, Eq)]
pub struct Release {
    pub tag: String,
    pub version: Version,
    pub asset_name: String,
    pub asset_url: String,
    pub sha256_url: Option<String>,
    pub size: u64,
}

impl Clone for Release {
    fn clone(&self) -> (r: Self)
        ensures
            r == *self,
    {
        let sha256_url = match &self.sha256_url {
            Some(u) => Some(u.clone()),
            None => None,
        };
        Release {
            tag: self.tag.clone(),
            version: self.version,
            asset_name: self.asset_name.clone(),
            asset_url: self.asset_url.clone(),
            sha256_url,
            size: self.size,
        }
    }
}

/// One downloadable file of a GitHub release.
pub struct GhAsset {
    pub name: String,
    pub browser_download_url: String,
    pub size: u64,
}

/// The fields of GitHub's `releases/latest` answer that an update needs.
pub struct GhRelease {
    pub tag_name: String,
    pub assets: Vec<GhAsset>,
}

/// Name of the raw binary published for an operating system
/// (`std::env::consts::OS`): Linux and Windows have one.
pub fn platform_asset_name(os: &str) -> (r: Option<&'static str>)
    ensures
        os@ == "linux"@ ==> (r matches Some(n) && n@ == "ConnectSync-Linux"@),
        os@ == "windows"@ ==> (r matches Some(n) && n@ == "ConnectSync-Windows-Portable.exe"@),
        os@ != "linux"@ && os@ != "windows"@ ==> r is None,
{
    proof {
        reveal_strlit("linux");
        reveal_strlit("windows");
        assert("linux"@ != "windows"@) by {
            assert("linux"@.len() != "windows"@.len());
        }
    }
    if str_eq(os, "linux") {
        Some("ConnectSync-Linux")
    } else if str_eq(os, "windows") {
        Some("ConnectSync-Windows-Portable.exe")
    } else {
        None
    }
}

/// Position of the first asset called `name`.
pub open spec fn first_asset(assets: Seq<GhAsset>, name: Seq<char>) -> Option<int>
    decreases assets.len(),
{
    if assets.len() == 0 {
        None
    } else if assets[0].name@ == name {
        Some(0)
    } else {
        match first_asset(assets.drop_first(), name) {
            Some(i) => Some(i + 1),
            None => None,
        }
    }
}

proof fn lemma_first_asset(assets: Seq<GhAsset>, name: Seq<char>)
    ensures
        match first_asset(assets, name) {
            Some(i) => 0 <= i < assets.len() && assets[i].name@ == name && forall|j: int|
                0 <= j < i ==> assets[j].name@ != name,
            None => forall|j: int| 0 <= j < assets.len() ==> assets[j].name@ != name,
        },
    decreases assets.len(),
{
    if assets.len() > 0 && assets[0].name@ != name {
        lemma_first_asset(assets.drop_first(), name);
        assert forall|j: int| 1 <= j < assets.len() implies assets[j] == assets.drop_first()[j - 1] by {}
    }
}

fn find_asset(assets: &Vec<GhAsset>, name: &str) -> (r: Option<usize>)
    ensures
        match r {
            Some(i) => first_asset(assets@, name@) == Some(i as int),
            None => first_asset(assets@, name@) is None,
        },
{
    proof {
        lemma_first_asset(assets@, name@);
    }
    let mut i: usize = 0;
    while i < assets.len()
        invariant
            i <= assets@.len(),
            forall|j: int| 0 <= j < i ==> assets@[j].name@ != name@,
            match first_asset(assets@, name@) {
                Some(k) => 0 <= k < assets@.len() && assets@[k].name@ == name@ && forall|j: int|
                    0 <= j < k ==> assets@[j].name@ != name@,
                None => forall|j: int| 0 <= j < assets@.len() ==> assets@[j].name@ != name@,
            },
        decreases assets@.len() - i,
    {
        if str_eq(assets[i].name.as_str(), name) {
            return Some(i);
        }
        i = i + 1;
    }
    None
}

/// The release for `asset_name`: its version must parse, the asset must be
/// there; the `.sha256` file beside it is optional here (a download without
/// it is refused later).
pub open spec fn spec_release_ok(gh: GhRelease, asset_name: Seq<char>) -> bool {
    spec_parse_version(gh.tag_name@) is Some && first_asset(gh.assets@, asset_name) is Some
}

/// Reduces GitHub's answer to the file for this platform.
pub fn release_from_gh(gh: &GhRelease, asset_name: &str) -> (r: Result<Release, UpdateError>)
    ensures
        spec_parse_version(gh.tag_name@) is None ==> (r matches Err(UpdateError::Release(m))
            && m@ == "anlaşılmayan sürüm etiketi: "@ + gh.tag_name@),
        spec_parse_version(gh.tag_name@) is Some && first_asset(gh.assets@, asset_name@) is None
            ==> (r matches Err(UpdateError::NoAsset(n)) && n@ == asset_name@),
        spec_release_ok(*gh, asset_name@) ==> (r matches Ok(rel) && {
            let i = first_asset(gh.assets@, asset_name@).unwrap();
            &&& rel.tag@ == gh.tag_name@
            &&& rel.version == spec_parse_version(gh.tag_name@).unwrap()
            &&& rel.asset_name@ == gh.assets@[i].name@
            &&& rel.asset_url@ == gh.assets@[i].browser_download_url@
            &&& rel.size == gh.assets@[i].size
            &&& match first_asset(gh.assets@, asset_name@ + ".sha256"@) {
                Some(j) => rel.sha256_url matches Some(u) && u@
                    == gh.assets@[j].browser_download_url@,
                None => rel.sha256_url is None,
            }
        }),
{
    proof {
        lemma_first_asset(gh.assets@, asset_name@);
        lemma_first_asset(gh.assets@, asset_name@ + ".sha256"@);
    }
    let version = match parse_version(gh.tag_name.as_str()) {
        Some(v) => v,
        None => {
            let mut m = owned("anlaşılmayan sürüm etiketi: ");
            push_str(&mut m, gh.tag_name.as_str());
            return Err(UpdateError::Release(m));
        },
    };
    let i = match find_asset(&gh.assets, asset_name) {
        Some(i) => i,
        None => {
            return Err(UpdateError::NoAsset(owned(asset_name)));
        },
    };
    let mut sha_name = owned(asset_name);
    push_str(&mut sha_name, ".sha256");
    let sha256_url = match find_asset(&gh.assets, sha_name.as_str()) {
        Some(j) => Some(gh.assets[j].browser_download_url.clone()),
        None => None,
    };
    let asset = &gh.assets[i];
    Ok(
        Release {
            tag: gh.tag_name.clone(),
            version,
            asset_name: asset.name.clone(),
            asset_url: asset.browser_download_url.clone(),
            sha256_url,
            size: asset.size,
        },
    )
}

/// Should the release be offered? Only when it is newer than this build.
pub fn is_newer(release: &Release, current: Version) -> (r: bool)
    ensures
        r == (release.version.0 > current.0 || (release.version.0 == current.0 && (
        release.version.1 > current.1 || (release.version.1 == current.1 && release.version.2
            > current.2)))),
{
    let v = release.version;
    v.0 > current.0 || (v.0 == current.0 && (v.1 > current.1 || (v.1 == current.1 && v.2
        > current.2)))
}

// ---------------------------------------------------------------------------
// Checksum file
// ---------------------------------------------------------------------------

/// Number of leading characters that are not white space.
pub open spec fn lead_nonws(s: Seq<char>) -> int
    decreases s.len(),
{
    if s.len() > 0 && !is_ws(s[0]) {
        1 + lead_nonws(s.drop_first())
    } else {
        0
    }
}

proof fn lemma_lead_nonws(s: Seq<char>)
    ensures
        0 <= lead_nonws(s) <= s.len(),
    decreases s.len(),
{
    if s.len() > 0 && !is_ws(s[0]) {
        lemma_lead_nonws(s.drop_first());
    }
}

/// Number of leading `*` characters.
pub open spec fn lead_star(s: Seq<char>) -> int
    decreases s.len(),
{
    if s.len() > 0 && s[0] == '*' {
        1 + lead_star(s.drop_first())
    } else {
        0
    }
}

proof fn lemma_lead_star(s: Seq<char>)
    ensures
        0 <= lead_star(s) <= s.len(),
    decreases s.len(),
{
    if s.len() > 0 && s[0] == '*' {
        lemma_lead_star(s.drop_first());
    }
}

/// The first white-space separated word (`split_whitespace().next()`).
pub open spec fn first_word(s: Seq<char>) -> Option<Seq<char>> {
    let r = s.subrange(lead_ws(s), s.len() as int);
    if r.len() == 0 {
        None
    } else {
        Some(r.subrange(0, lead_nonws(r)))
    }
}

/// `sha256sum` output ("<64 hex>  file", the name may carry a `*`) or a bare
/// hash → the hash in lower case.
pub open spec fn spec_parse_sha256(text: Seq<char>) -> Option<Seq<char>> {
    match first_word(text) {
        None => None,
        Some(w) => {
            let tok = w.subrange(lead_star(w), w.len() as int);
            if tok.len() == 64 && forall|i: int| 0 <= i < 64 ==> is_hex(#[trigger] tok[i]) {
                Some(lower_seq(tok))
            } else {
                None
            }
        },
    }
}

pub fn parse_sha256(text: &str) -> (r: Option<String>)
    ensures
        match r {
            Some(h) => spec_parse_sha256(text@) == Some(h@),
            None => spec_parse_sha256(text@) is None,
        },
{
    let s = chars_of(text);
    proof {
        crate::text::lemma_lead_ws(s@);
    }
    let mut a: usize = 0;
    assert(s@.subrange(0, s@.len() as int) == s@);
    while a < s.len() && char_is_ws(s[a])
        invariant
            a <= s@.len(),
            lead_ws(s@) == a + lead_ws(s@.subrange(a as int, s@.len() as int)),
        decreases s@.len() - a,
    {
        assert(s@.subrange(a as int, s@.len() as int).drop_first() == s@.subrange(
            a + 1,
            s@.len() as int,
        ));
        a = a + 1;
    }
    if a == s.len() {
        return None;
    }
    let ghost r = s@.subrange(a as int, s@.len() as int);
    proof {
        lemma_lead_nonws(r);
    }
    let mut b: usize = a;
    assert(r.subrange(0, r.len() as int) == r);
    while b < s.len() && !char_is_ws(s[b])
        invariant
            a <= b <= s@.len(),
            r == s@.subrange(a as int, s@.len() as int),
            lead_nonws(r) == (b - a) + lead_nonws(s@.subrange(b as int, s@.len() as int)),
        decreases s@.len() - b,
    {
        assert(s@.subrange(b as int, s@.len() as int).drop_first() == s@.subrange(
            b + 1,
            s@.len() as int,
        ));
        b = b + 1;
    }
    let w = slice_chars(s.as_slice(), a, b);
    assert(w@ =~= r.subrange(0, lead_nonws(r)));
    proof {
        lemma_lead_star(w@);
    }
    let mut c: usize = 0;
    assert(w@.subrange(0, w@.len() as int) == w@);
    while c < w.len() && w[c] == '*'
        invariant
            c <= w@.len(),
            lead_star(w@) == c + lead_star(w@.subrange(c as int, w@.len() as int)),
        decreases w@.len() - c,
    {
        assert(w@.subrange(c as int, w@.len() as int).drop_first() == w@.subrange(
            c + 1,
            w@.len() as int,
        ));
        c = c + 1;
    }
    let tok = slice_chars(w.as_slice(), c, w.len());
    if tok.len() != 64 {
        return None;
    }
    let ghost expect = spec_parse_sha256(text@);
    assert(expect == (if forall|k: int| 0 <= k < 64 ==> is_hex(#[trigger] tok@[k]) {
        Some(lower_seq(tok@))
    } else {
        None::<Seq<char>>
    }));
    let mut out = String::new();
    let mut i: usize = 0;
    while i < 64
        invariant
            expect == spec_parse_sha256(text@),
            expect == (if forall|k: int| 0 <= k < 64 ==> is_hex(#[trigger] tok@[k]) {
                Some(lower_seq(tok@))
            } else {
                None::<Seq<char>>
            }),
            tok@.len() == 64,
            i <= 64,
            forall|j: int| 0 <= j < i ==> is_hex(#[trigger] tok@[j]),
            out@ == lower_seq(tok@.subrange(0, i as int)),
        decreases 64 - i,
    {
        if !char_is_hex(tok[i]) {
            assert(!is_hex(tok@[i as int]));
            return None;
        }
        crate::text::push_char(&mut out, char_ascii_lower(tok[i]));
        i = i + 1;
        assert(out@ =~= lower_seq(tok@.subrange(0, i as int)));
    }
    assert(tok@.subrange(0, 64) == tok@);
    Some(out)
}

// ---------------------------------------------------------------------------
// Paths
// ---------------------------------------------------------------------------

/// The path with each separator written as `/`: on Windows (`windows`) a
/// backslash separates components too.
pub open spec fn with_slashes(p: Seq<char>, windows: bool) -> Seq<char> {
    if windows {
        p.map_values(|c: char| if c == '\\' { '/' } else { c })
    } else {
        p
    }
}

/// Does the path run through a cargo build directory: a `target` component
/// followed, anywhere later, by `debug` or `release`?
pub open spec fn spec_is_cargo_target_dir(exe: Seq<char>, windows: bool) -> bool {
    target_then_profile(split_char(with_slashes(exe, windows), '/'))
}

fn slashes_of(p: &[char], windows: bool) -> (r: Vec<char>)
    ensures
        r@ == with_slashes(p@, windows),
{
    let mut r: Vec<char> = Vec::new();
    let mut i: usize = 0;
    while i < p.len()
        invariant
            i <= p@.len(),
            r@.len() == i,
            forall|k: int|
                0 <= k < i ==> #[trigger] r@[k] == (if windows && p@[k] == '\\' {
                    '/'
                } else {
                    p@[k]
                }),
        decreases p@.len() - i,
    {
        if windows && p[i] == '\\' {
            r.push('/');
        } else {
            r.push(p[i]);
        }
        i = i + 1;
    }
    assert(r@ =~= with_slashes(p@, windows));
    r
}

/// Some component is `target` and a later one is `debug` or `release`.
pub open spec fn target_then_profile(segs: Seq<Seq<char>>) -> bool {
    exists|i: int, j: int|
        #![trigger segs[i], segs[j]]
        0 <= i < j < segs.len() && segs[i] == "target"@ && (segs[j] == "debug"@ || segs[j]
            == "release"@)
}

pub fn is_cargo_target_dir(exe: &str, windows: bool) -> (r: bool)
    ensures
        r == spec_is_cargo_target_dir(exe@, windows),
{
    let c = slashes_of(chars_of(exe).as_slice(), windows);
    let segs = split_chars(c.as_slice(), '/');
    let target = chars_of("target");
    let debug = chars_of("debug");
    let release = chars_of("release");
    let ghost sp = split_char(with_slashes(exe@, windows), '/');
    let mut i: usize = 0;
    while i < segs.len()
        invariant
            i <= segs@.len(),
            segs@.len() == sp.len(),
            target@ == "target"@,
            forall|k: int| 0 <= k < segs@.len() ==> #[trigger] segs@[k]@ == sp[k],
            forall|k: int| 0 <= k < i ==> sp[k] != "target"@,
        ensures
            i <= segs@.len(),
            i < segs@.len() ==> sp[i as int] == "target"@,
            forall|k: int| 0 <= k < i ==> sp[k] != "target"@,
        decreases segs@.len() - i,
    {
        assert(segs@[i as int]@ == sp[i as int]);
        if chars_eq(segs[i].as_slice(), target.as_slice()) {
            break;
        }
        i = i + 1;
    }
    if i == segs.len() {
        proof {
            assert forall|a: int, b: int|
                #![trigger sp[a], sp[b]]
                0 <= a < b < sp.len() && sp[a] == "target"@ implies !(sp[b] == "debug"@ || sp[b]
                    == "release"@) by {}
        }
        return false;
    }
    assert(segs@[i as int]@ == sp[i as int]);
    let mut j: usize = i + 1;
    while j < segs.len()
        invariant
            i < j <= segs@.len(),
            segs@.len() == sp.len(),
            forall|k: int| 0 <= k < segs@.len() ==> #[trigger] segs@[k]@ == sp[k],
            sp == split_char(with_slashes(exe@, windows), '/'),
            sp[i as int] == "target"@,
            debug@ == "debug"@,
            release@ == "release"@,
            forall|k: int| 0 <= k < i ==> sp[k] != "target"@,
            forall|k: int| i < k < j ==> sp[k] != "debug"@ && sp[k] != "release"@,
        decreases segs@.len() - j,
    {
        assert(segs@[j as int]@ == sp[j as int]);
        if chars_eq(segs[j].as_slice(), debug.as_slice()) || chars_eq(
            segs[j].as_slice(),
            release.as_slice(),
        ) {
            assert(sp[j as int] == "debug"@ || sp[j as int] == "release"@);
            assert(sp[i as int] == "target"@);
            assert(target_then_profile(sp)) by {
                let ii = i as int;
                let jj = j as int;
                assert(0 <= ii < jj < sp.len() && sp[ii] == "target"@ && (sp[jj] == "debug"@
                    || sp[jj] == "release"@));
            }
            return true;
        }
        j = j + 1;
    }
    proof {
        assert forall|a: int, b: int|
            #![trigger sp[a], sp[b]]
            0 <= a < b < sp.len() && sp[a] == "target"@ implies !(sp[b] == "debug"@ || sp[b]
                == "release"@) by {
            assert(a >= i);
        }
    }
    false
}

/// Linux shows the path of a replaced running binary with a " (deleted)"
/// suffix; the suffix is dropped.
pub open spec fn spec_clean_exe_path(p: Seq<char>) -> Seq<char> {
    if ends_with(p, " (deleted)"@) {
        p.subrange(0, p.len() - " (deleted)"@.len())
    } else {
        p
    }
}

pub fn clean_exe_path(p: &str) -> (r: String)
    ensures
        r@ == spec_clean_exe_path(p@),
{
    let c = chars_of(p);
    let suffix = chars_of(" (deleted)");
    if chars_ends_with(c.as_slice(), suffix.as_slice()) {
        let k = slice_chars(c.as_slice(), 0, c.len() - suffix.len());
        string_of(k.as_slice())
    } else {
        owned(p)
    }
}

/// Hidden staging file beside the binary (`.{name}.update`): on the same
/// file system, so the final rename is atomic.
pub open spec fn spec_staging_path(exe: Seq<char>) -> Seq<char> {
    let name = match file_name(exe) {
        Some(n) => n,
        None => Seq::empty(),
    };
    with_file_name(exe, seq!['.'] + name + ".update"@)
}

pub fn staging_path(exe: &str) -> (r: String)
    ensures
        r@ == spec_staging_path(exe@),
{
    let c = chars_of(exe);
    let mut name: Vec<char> = Vec::new();
    name.push('.');
    match file_name_chars(c.as_slice()) {
        Some(n) => {
            let mut i: usize = 0;
            while i < n.len()
                invariant
                    i <= n@.len(),
                    name@ == seq!['.'] + n@.subrange(0, i as int),
                decreases n@.len() - i,
            {
                name.push(n[i]);
                i = i + 1;
                assert(name@ =~= seq!['.'] + n@.subrange(0, i as int));
            }
            assert(n@.subrange(0, n@.len() as int) == n@);
        },
        None => {
            assert(name@ =~= seq!['.'] + Seq::<char>::empty());
        },
    }
    let suffix = chars_of(".update");
    let ghost before = name@;
    let mut i: usize = 0;
    while i < suffix.len()
        invariant
            i <= suffix@.len(),
            name@ == before + suffix@.subrange(0, i as int),
        decreases suffix@.len() - i,
    {
        name.push(suffix[i]);
        i = i + 1;
        assert(name@ =~= before + suffix@.subrange(0, i as int));
    }
    assert(suffix@.subrange(0, suffix@.len() as int) == suffix@);
    let p = with_file_name_chars(c.as_slice(), name.as_slice());
    string_of(p.as_slice())
}

/// What `install` did.
#[derive(Debug, Clone, Copy, PartialEq, Eq, Structural)]
pub enum InstallOutcome {
    Replaced,
    /// A binary in a cargo build directory is deliberately left alone.
    SkippedDevBuild,
}

// ---------------------------------------------------------------------------
// Download checks
// ---------------------------------------------------------------------------

/// A release is only offered when it is newer than the running build.
pub fn offer_release(release: Release, current: Version) -> (r: Option<Release>)
    ensures
        r is Some <==> (release.version.0 > current.0 || (release.version.0 == current.0 && (
        release.version.1 > current.1 || (release.version.1 == current.1 && release.version.2
            > current.2)))),
        r matches Some(x) ==> x == release,
{
    if is_newer(&release, current) {
        Some(release)
    } else {
        None
    }
}

/// The checksum file to fetch before the binary; a release without one is
/// refused before anything is downloaded.
pub fn checksum_url(release: &Release) -> (r: Result<String, UpdateError>)
    ensures
        match release.sha256_url {
            Some(u) => r matches Ok(x) && x@ == u@,
            None => r matches Err(UpdateError::NoChecksum(n)) && n@ == release.asset_name@,
        },
{
    match &release.sha256_url {
        Some(u) => Ok(u.clone()),
        None => Err(UpdateError::NoChecksum(release.asset_name.clone())),
    }
}

/// The expected hash read from the checksum file; unreadable text is a
/// missing checksum.
pub fn expected_checksum(release: &Release, sha_text: &str) -> (r: Result<String, UpdateError>)
    ensures
        match spec_parse_sha256(sha_text@) {
            Some(h) => r matches Ok(x) && x@ == h,
            None => r matches Err(UpdateError::NoChecksum(n)) && n@ == release.asset_name@
                + " (biçim geçersiz)"@,
        },
{
    match parse_sha256(sha_text) {
        Some(h) => Ok(h),
        None => {
            let mut n = owned(release.asset_name.as_str());
            push_str(&mut n, " (biçim geçersiz)");
            Err(UpdateError::NoChecksum(n))
        },
    }
}

/// The size the progress bar counts towards: what the server announces,
/// else the size GitHub listed.
pub fn download_total(content_length: Option<u64>, release: &Release) -> (r: u64)
    ensures
        r == match content_length {
            Some(n) => n,
            None => release.size,
        },
{
    match content_length {
        Some(n) => n,
        None => release.size,
    }
}

/// The downloaded file is accepted only when its SHA-256 is the expected one.
pub fn check_digest(digest: &[u8; 32], expected: &str) -> (r: Result<(), UpdateError>)
    ensures
        r is Ok <==> hex_lower(digest@) == expected@,
        r is Err ==> r matches Err(UpdateError::Checksum),
{
    let got = to_hex(digest.as_slice());
    if str_eq(got.as_str(), expected) {
        Ok(())
    } else {
        Err(UpdateError::Checksum)
    }
}

/// SHA-256 of `data`.
pub uninterp spec fn sha256_of(data: Seq<u8>) -> Seq<u8>;

/// `sha2::Sha256::digest`: the 32-byte SHA-256 of the bytes. Nothing more is
/// stated of the hash function itself.
#[verifier::external_body]
fn sha256(data: &[u8]) -> (r: [u8; 32])
    ensures
        r@ == sha256_of(data@),
{
    sha2::Sha256::digest(data).into()
}

/// A downloaded binary is accepted only when its SHA-256, in lower-case hex,
/// is the one the checksum file gave.
pub fn check_download(data: &[u8], expected: &str) -> (r: Result<(), UpdateError>)
    ensures
        r is Ok <==> hex_lower(sha256_of(data@)) == expected@,
        r is Err ==> r matches Err(UpdateError::Checksum),
{
    let digest = sha256(data);
    check_digest(&digest, expected)
}

} // verus!
