//! The sync engine's decisions: how many transfers run at once, which local
//! files are pushed and which manifest entries are dropped, what a finished
//! file becomes, where a pulled file may be written, how a chunk is sealed,
//! opened and checked, when a remote manifest is accepted, and which orphan
//! chunks garbage collection removes. Reading files, walking directories and
//! talking to Drive happen around these functions.

use vstd::prelude::*;
use vstd::string::StringSliceAdditionalSpecFns;
use crate::limits::{clamp_threads, clamped, MAX_THREADS, MIN_THREADS};
use crate::text::{
    chars_eq, chars_of, join_with, owned, push_chars, push_str, split_char, split_chars,
    string_of, str_views, lemma_split_char_len,
};
use crate::paths::{
    extension, file_name, file_name_chars, push_name, stem_and_extension, with_file_name,
    with_file_name_chars,
};
use crate::text::{lower_seq, dec, str_eq, u64_to_string, hex_lower, lex_leq, sort_strings, parse_u64, parse_u64_chars, trim, trim_chars};
use crate::codec::{hex_decode, hex_decode_str, random_bytes, to_hex};
use crate::manifest::SCHEMA_VERSION;
use crate::drive::IndexedFile;
use crate::manifest::{FileInfo, Manifest};
use crate::sync_state::{decide_pull, spec_decide_pull, FileStat, PullDecision, SyncState, STATE_FILE};
use crate::drive::{DriveIndex, IndexEntry};
use crate::crypto::{
    decrypt_chunk, encrypt_chunk, hash_chunk_name, hmac_sha256_tag, nonce_failure, spec_decrypt_chunk,
    Keys, AEAD_MAX,
};
use vstd::utf8::encode_utf8;
use crate::chunker::{join, law_chunks_join_to_the_file, spec_chunks};

verus! {

// ---------------------------------------------------------------------------
// Concurrency
// ---------------------------------------------------------------------------

/// Parallelism derived from the "concurrent transfers" setting.
#[derive(Debug, Clone, Copy, PartialEq, Eq, Structural)]
pub struct Concurrency {
    /// Files processed at the same time.
    pub files: usize,
    /// Chunk uploads running at the same time, over all files.
    pub uploads: usize,
}

/// Files handled at once for a setting of `t` threads: three quarters of
/// the upload slots, at least one.
pub open spec fn files_for(t: int) -> int {
    let u = clamped(t);
    if u * 3 / 4 >= 1 {
        u * 3 / 4
    } else {
        1
    }
}

impl Concurrency {
    /// The setting is clamped first; uploads get all its slots, files about
    /// three quarters of them (at least one). The default 4 gives 3 files
    /// and 4 uploads.
    pub fn from_threads(threads: u32) -> (r: Self)
        ensures
            r.uploads == clamped(threads as int),
            r.files == files_for(threads as int),
    {
        let t = clamp_threads(threads) as usize;
        let f = t * 3 / 4;
        Concurrency { files: if f >= 1 { f } else { 1 }, uploads: t }
    }
}

/// Neither limit is ever zero, and no more files run than there are upload
/// slots.
pub proof fn law_concurrency_never_starves(t: u32)
    ensures
        1 <= files_for(t as int) <= clamped(t as int),
        MIN_THREADS <= clamped(t as int) <= MAX_THREADS,
{
}

/// More threads never mean fewer files or uploads.
pub proof fn law_concurrency_is_monotonic(a: u32, b: u32)
    requires
        a <= b,
    ensures
        files_for(a as int) <= files_for(b as int),
        clamped(a as int) <= clamped(b as int),
{
    let ua = clamped(a as int);
    let ub = clamped(b as int);
    assert(ua * 3 <= ub * 3);
    assert(ua * 3 / 4 <= ub * 3 / 4) by (nonlinear_arith)
        requires
            ua * 3 <= ub * 3,
            0 <= ua,
    ;
}

// ---------------------------------------------------------------------------
// Reports and options
// ---------------------------------------------------------------------------

pub struct PushOptions {
    /// Turns off the empty-folder and mass-delete guard.
    pub allow_mass_delete: bool,
}

impl Default for PushOptions {
    fn default() -> (r: Self)
        ensures
            !r.allow_mass_delete,
    {
        PushOptions { allow_mass_delete: false }
    }
}

pub struct SyncReport {
    pub scanned_files: usize,
    pub uploaded_files: usize,
    pub unchanged_files: usize,
    /// Files pushed again because Drive lost one of their chunks.
    pub repaired_files: usize,
    pub removed_from_manifest: usize,
    pub changed_during_sync: Vec<String>,
    pub failed_files: Vec<(String, String)>,
    pub scan_errors: usize,
    pub chunks_uploaded: u64,
    pub chunks_deduped: u64,
    pub bytes_uploaded: u64,
    pub manifest_revision: u32,
}

impl SyncReport {
    /// Nothing failed and the scan saw every file.
    pub fn is_clean(&self) -> (r: bool)
        ensures
            r == (self.failed_files@.len() == 0 && self.scan_errors == 0),
    {
        self.failed_files.len() == 0 && self.scan_errors == 0
    }
}

impl Default for SyncReport {
    fn default() -> (r: Self)
        ensures
            r.scanned_files == 0 && r.uploaded_files == 0 && r.unchanged_files == 0,
            r.repaired_files == 0 && r.removed_from_manifest == 0 && r.scan_errors == 0,
            r.changed_during_sync@.len() == 0 && r.failed_files@.len() == 0,
            r.chunks_uploaded == 0 && r.chunks_deduped == 0 && r.bytes_uploaded == 0,
            r.manifest_revision == 0,
    {
        SyncReport {
            scanned_files: 0,
            uploaded_files: 0,
            unchanged_files: 0,
            repaired_files: 0,
            removed_from_manifest: 0,
            changed_during_sync: Vec::new(),
            failed_files: Vec::new(),
            scan_errors: 0,
            chunks_uploaded: 0,
            chunks_deduped: 0,
            bytes_uploaded: 0,
            manifest_revision: 0,
        }
    }
}

pub struct PullReport {
    pub restored_files: usize,
    pub skipped_up_to_date: usize,
    /// A different local file that is kept: overwriting was off, or only
    /// the local side changed since the last synchronisation.
    pub skipped_existing: Vec<String>,
    /// Both sides changed since the last synchronisation, or this device has
    /// no record of it: the local file is kept and the user is asked.
    pub conflicts: Vec<String>,
    /// Unsafe or malformed paths (`..`, absolute, empty components).
    pub invalid_paths: Vec<String>,
    pub failed_files: Vec<(String, String)>,
    pub bytes_written: u64,
}

impl PullReport {
    /// Nothing failed and every path was usable.
    pub fn is_clean(&self) -> (r: bool)
        ensures
            r == (self.failed_files@.len() == 0 && self.invalid_paths@.len() == 0),
    {
        self.failed_files.len() == 0 && self.invalid_paths.len() == 0
    }
}

impl Default for PullReport {
    fn default() -> (r: Self)
        ensures
            r.restored_files == 0 && r.skipped_up_to_date == 0 && r.bytes_written == 0,
            r.skipped_existing@.len() == 0 && r.invalid_paths@.len() == 0,
            r.conflicts@.len() == 0,
            r.failed_files@.len() == 0,
    {
        PullReport {
            restored_files: 0,
            skipped_up_to_date: 0,
            skipped_existing: Vec::new(),
            conflicts: Vec::new(),
            invalid_paths: Vec::new(),
            failed_files: Vec::new(),
            bytes_written: 0,
        }
    }
}

// ---------------------------------------------------------------------------
// Paths
// ---------------------------------------------------------------------------

/// The character sequences of a vector of character vectors.
pub open spec fn char_views(v: Seq<Vec<char>>) -> Seq<Seq<char>> {
    Seq::new(v.len(), |i: int| v[i]@)
}

/// The pieces that name something: neither empty nor `.`.
pub open spec fn named_pieces(s: Seq<Seq<char>>) -> Seq<Seq<char>>
    decreases s.len(),
{
    if s.len() == 0 {
        Seq::empty()
    } else {
        let k = named_pieces(s.drop_last());
        if s.last().len() == 0 || s.last() == "."@ {
            k
        } else {
            k.push(s.last())
        }
    }
}

/// `Path::components` on Unix, each component written as its text: `/` for
/// the root, `.` for a leading current directory, `..` for a parent, and
/// the name itself for a normal component.
pub open spec fn unix_components(p: Seq<char>) -> Seq<Seq<char>> {
    let rooted = p.len() > 0 && p[0] == '/';
    let body = if rooted {
        p.skip(1)
    } else {
        p
    };
    let segs = split_char(body, '/');
    let cur = !rooted && segs[0] == "."@;
    let rest = if cur {
        segs.skip(1)
    } else {
        segs
    };
    let head: Seq<Seq<char>> = if rooted {
        seq!["/"@]
    } else if cur {
        seq!["."@]
    } else {
        Seq::empty()
    };
    head + named_pieces(rest)
}

/// A component that is a plain name.
pub open spec fn is_normal_component(c: Seq<char>) -> bool {
    c != "/"@ && c != "."@ && c != ".."@
}

/// The path of `full` relative to `root`, with `/` between its components:
/// `root`'s components must begin `full`'s, and what is left must be one or
/// more plain names.
pub open spec fn spec_rel_path(root: Seq<char>, full: Seq<char>) -> Option<Seq<char>> {
    let rc = unix_components(root);
    let fc = unix_components(full);
    if rc.len() <= fc.len() && fc.take(rc.len() as int) == rc {
        let rest = fc.skip(rc.len() as int);
        if rest.len() > 0 && forall|i: int| 0 <= i < rest.len() ==> is_normal_component(
            #[trigger] rest[i],
        ) {
            Some(join_with(rest, "/"@))
        } else {
            None
        }
    } else {
        None
    }
}

fn is_text(s: &[char], t: &str) -> (r: bool)
    ensures
        r == (s@ == t@),
{
    let tc = chars_of(t);
    chars_eq(s, tc.as_slice())
}

/// Keeps the pieces that name something.
fn keep_named(segs: &Vec<Vec<char>>, from: usize, out: &mut Vec<Vec<char>>)
    requires
        from <= segs@.len(),
    ensures
        char_views(final(out)@) == char_views(old(out)@) + named_pieces(
            char_views(segs@).skip(from as int),
        ),
{
    let ghost base = char_views(out@);
    let ghost all = char_views(segs@).skip(from as int);
    let mut i: usize = from;
    assert(all.take(0) =~= Seq::<Seq<char>>::empty());
    while i < segs.len()
        invariant
            from <= i <= segs@.len(),
            all == char_views(segs@).skip(from as int),
            char_views(out@) == base + named_pieces(all.take(i - from)),
        decreases segs@.len() - i,
    {
        let ghost before = out@;
        assert(all.take(i + 1 - from).drop_last() =~= all.take(i - from));
        assert(all.take(i + 1 - from).last() == segs@[i as int]@);
        if segs[i].len() != 0 && !is_text(segs[i].as_slice(), ".") {
            out.push(segs[i].clone());
            assert(char_views(out@) =~= char_views(before).push(segs@[i as int]@));
        }
        i = i + 1;
    }
    assert(all.take(segs@.len() - from) =~= all);
}

/// `Path::components` of a Unix path, each component as its text.
pub fn components(p: &[char]) -> (r: Vec<Vec<char>>)
    ensures
        char_views(r@) == unix_components(p@),
{
    let rooted = p.len() > 0 && p[0] == '/';
    let body: Vec<char> = if rooted {
        crate::text::slice_chars(p, 1, p.len())
    } else {
        crate::text::slice_chars(p, 0, p.len())
    };
    assert(body@ == (if rooted {
        p@.skip(1)
    } else {
        p@
    }));
    let segs = split_chars(body.as_slice(), '/');
    proof {
        lemma_split_char_len(body@, '/');
    }
    assert(char_views(segs@) =~= split_char(body@, '/'));
    let cur = !rooted && is_text(segs[0].as_slice(), ".");
    let mut out: Vec<Vec<char>> = Vec::new();
    if rooted {
        out.push(chars_of("/"));
    } else if cur {
        out.push(chars_of("."));
    }
    let ghost head = char_views(out@);
    keep_named(&segs, if cur {
        1
    } else {
        0
    }, &mut out);
    proof {
        if rooted {
            assert(head =~= seq!["/"@]);
        } else if cur {
            assert(head =~= seq!["."@]);
        } else {
            assert(head =~= Seq::<Seq<char>>::empty());
        }
        assert(char_views(segs@).skip(0) =~= char_views(segs@));
    }
    out
}

/// The path of `full` below `root`, components joined by `/`; `None` when
/// `full` is not below `root`, is `root` itself, or goes through `..`.
pub fn rel_path_string(root: &str, full: &str) -> (r: Option<String>)
    ensures
        match r {
            Some(s) => spec_rel_path(root@, full@) == Some(s@),
            None => spec_rel_path(root@, full@) is None,
        },
{
    let rc = components(chars_of(root).as_slice());
    let fc = components(chars_of(full).as_slice());
    let ghost rv = char_views(rc@);
    let ghost fv = char_views(fc@);
    if rc.len() > fc.len() {
        return None;
    }
    let mut i: usize = 0;
    while i < rc.len()
        invariant
            rc@.len() <= fc@.len(),
            i <= rc@.len(),
            rv == unix_components(root@),
            fv == unix_components(full@),
            rv == char_views(rc@),
            fv == char_views(fc@),
            forall|j: int| 0 <= j < i ==> fv[j] == rv[j],
        decreases rc@.len() - i,
    {
        if !chars_eq(rc[i].as_slice(), fc[i].as_slice()) {
            assert(fv.take(rv.len() as int)[i as int] != rv[i as int]);
            return None;
        }
        i = i + 1;
    }
    assert(fv.take(rv.len() as int) =~= rv);
    let ghost rest = fv.skip(rv.len() as int);
    if rc.len() == fc.len() {
        return None;
    }
    let mut out = String::new();
    let mut k: usize = rc.len();
    while k < fc.len()
        invariant
            rc@.len() < fc@.len(),
            rc@.len() <= k <= fc@.len(),
            rv == unix_components(root@),
            fv == unix_components(full@),
            rv == char_views(rc@),
            fv == char_views(fc@),
            rest == fv.skip(rv.len() as int),
            forall|j: int| 0 <= j < k - rc@.len() ==> is_normal_component(#[trigger] rest[j]),
            out@ == join_with(rest.take(k - rc@.len()), "/"@),
        decreases fc@.len() - k,
    {
        let c = fc[k].as_slice();
        if is_text(c, "/") || is_text(c, ".") || is_text(c, "..") {
            assert(!is_normal_component(rest[k - rc@.len()]));
            return None;
        }
        let ghost before = out@;
        if k > rc.len() {
            crate::text::push_char(&mut out, '/');
        }
        push_chars(&mut out, c);
        proof {
            let n = k + 1 - rc@.len();
            assert(rest.take(n).drop_last() =~= rest.take(n - 1));
            assert(rest.take(n).last() == fv[k as int]);
            if n == 1 {
                assert(rest.take(n) =~= seq![fv[k as int]]);
                assert(out@ =~= fv[k as int]);
            } else {
                assert(out@ =~= before + "/"@ + fv[k as int]) by {
                    reveal_strlit("/");
                }
            }
        }
        k = k + 1;
    }
    assert(rest.take(fc@.len() - rc@.len()) =~= rest);
    Some(out)
}

/// A name Windows reserves: one holding `:` (a drive or stream), one
/// holding `\` (its other separator), or a device name (`CON`, `PRN`,
/// `AUX`, `NUL`, `COM` or `LPT` and a digit) in any ASCII case.
pub open spec fn windows_reserved(part: Seq<char>) -> bool {
    let l = lower_seq(part);
    ||| part.contains(':')
    ||| part.contains('\\')
    ||| l == "con"@
    ||| l == "prn"@
    ||| l == "aux"@
    ||| l == "nul"@
    ||| (part.len() == 4 && (l.take(3) == "com"@ || l.take(3) == "lpt"@) && '0' <= part[3]
        && part[3] <= '9')
}

/// A piece that can be a file or folder name below the base: not empty, not
/// `.`, not `..`, and on Windows (`windows`) not a reserved name.
pub open spec fn plain_piece(part: Seq<char>, windows: bool) -> bool {
    &&& part.len() > 0
    &&& part != "."@
    &&& part != ".."@
    &&& !(windows && windows_reserved(part))
}

/// Every piece of `rel` between slashes is a plain name.
pub open spec fn safe_pieces(rel: Seq<char>, windows: bool) -> bool {
    let segs = split_char(rel, '/');
    forall|i: int| 0 <= i < segs.len() ==> plain_piece(#[trigger] segs[i], windows)
}

/// `PathBuf::push` of each piece in turn.
pub open spec fn push_all(base: Seq<char>, pieces: Seq<Seq<char>>) -> Seq<char>
    decreases pieces.len(),
{
    if pieces.len() == 0 {
        base
    } else {
        push_name(push_all(base, pieces.drop_last()), pieces.last())
    }
}

pub open spec fn spec_safe_join(base: Seq<char>, rel: Seq<char>, windows: bool) -> Option<
    Seq<char>,
> {
    if safe_pieces(rel, windows) {
        Some(push_all(base, split_char(rel, '/')))
    } else {
        None
    }
}

fn char_in(s: &[char], c: char) -> (r: bool)
    ensures
        r == s@.contains(c),
{
    let mut i: usize = 0;
    while i < s.len()
        invariant
            i <= s@.len(),
            forall|j: int| 0 <= j < i ==> s@[j] != c,
        decreases s@.len() - i,
    {
        if s[i] == c {
            return true;
        }
        i = i + 1;
    }
    false
}

fn lower_chars(s: &[char]) -> (r: Vec<char>)
    ensures
        r@ == lower_seq(s@),
{
    let mut r: Vec<char> = Vec::new();
    let mut i: usize = 0;
    while i < s.len()
        invariant
            i <= s@.len(),
            r@ =~= lower_seq(s@.take(i as int)),
        decreases s@.len() - i,
    {
        r.push(crate::text::char_ascii_lower(s[i]));
        proof {
            assert(lower_seq(s@.take(i + 1)) =~= lower_seq(s@.take(i as int)).push(
                crate::text::ascii_lower(s@[i as int]),
            ));
        }
        i = i + 1;
    }
    assert(s@.take(s@.len() as int) =~= s@);
    r
}

fn windows_reserved_chars(part: &[char]) -> (r: bool)
    ensures
        r == windows_reserved(part@),
{
    let l = lower_chars(part);
    if char_in(part, ':') || char_in(part, '\\') {
        return true;
    }
    if is_text(l.as_slice(), "con") || is_text(l.as_slice(), "prn") || is_text(l.as_slice(), "aux")
        || is_text(l.as_slice(), "nul") {
        return true;
    }
    if part.len() == 4 {
        let head: Vec<char> = vec![l[0], l[1], l[2]];
        assert(head@ =~= l@.take(3));
        let d = part[3];
        if (is_text(head.as_slice(), "com") || is_text(head.as_slice(), "lpt")) && '0' <= d && d <= '9' {
            return true;
        }
    }
    false
}

fn plain_piece_chars(part: &[char], windows: bool) -> (r: bool)
    ensures
        r == plain_piece(part@, windows),
{
    if part.len() == 0 || is_text(part, ".") || is_text(part, "..") {
        return false;
    }
    !(windows && windows_reserved_chars(part))
}

/// Joins a path from the manifest under `base`, refusing everything that
/// could leave it: `..`, absolute paths, empty or `.` components, and on
/// Windows (`windows`) drive prefixes, backslashes and device names.
pub fn safe_join(base: &str, rel: &str, windows: bool) -> (r: Option<String>)
    ensures
        match r {
            Some(p) => spec_safe_join(base@, rel@, windows) == Some(p@),
            None => spec_safe_join(base@, rel@, windows) is None,
        },
{
    let segs = split_chars(chars_of(rel).as_slice(), '/');
    let ghost sv = split_char(rel@, '/');
    let mut out = chars_of(base);
    let mut i: usize = 0;
    assert(sv.take(0) =~= Seq::<Seq<char>>::empty());
    while i < segs.len()
        invariant
            i <= segs@.len(),
            sv == split_char(rel@, '/'),
            segs@.len() == sv.len(),
            forall|j: int| 0 <= j < segs@.len() ==> #[trigger] segs@[j]@ == sv[j],
            forall|j: int| 0 <= j < i ==> plain_piece(#[trigger] sv[j], windows),
            out@ == push_all(base@, sv.take(i as int)),
        decreases segs@.len() - i,
    {
        let part = segs[i].as_slice();
        assert(part@ == sv[i as int]);
        if !plain_piece_chars(part, windows) {
            return None;
        }
        out = crate::paths::push_name_chars(out.as_slice(), part);
        assert(sv.take(i + 1).drop_last() =~= sv.take(i as int));
        i = i + 1;
    }
    assert(sv.take(sv.len() as int) =~= sv);
    Some(string_of(out.as_slice()))
}

// ---------------------------------------------------------------------------
// Push: what to upload and what to drop
// ---------------------------------------------------------------------------

/// A regular file found under the sync folder.
pub struct LocalFile {
    /// Path below the sync folder, components joined by `/`.
    pub rel_path: String,
    pub abs_path: String,
    pub size: u64,
    /// Modification time in milliseconds since the Unix epoch.
    pub modified_ms: u64,
}

impl Clone for LocalFile {
    fn clone(&self) -> (r: Self)
        ensures
            r == *self,
    {
        LocalFile {
            rel_path: self.rel_path.clone(),
            abs_path: self.abs_path.clone(),
            size: self.size,
            modified_ms: self.modified_ms,
        }
    }
}

/// The result of walking the sync folder: the files, and how many entries
/// could not be read.
pub struct ScanResult {
    pub files: Vec<LocalFile>,
    pub errors: usize,
}

/// What a push round does before uploading.
pub struct PushPlan {
    /// Manifest entries whose file is gone, in manifest order.
    pub removed: Vec<String>,
    /// Files to chunk and upload, in scan order.
    pub work: Vec<LocalFile>,
    pub unchanged: usize,
    /// Unchanged files queued again because Drive lost one of their chunks.
    pub repaired: usize,
}

/// Below this many missing files a push may always drop entries.
pub const MASS_DELETE_MIN: usize = 20;

pub open spec fn scanned_paths(files: Seq<LocalFile>) -> Seq<Seq<char>> {
    Seq::new(files.len(), |i: int| files[i].rel_path@)
}

/// The keys whose file the scan did not see, in order.
pub open spec fn missing_keys(keys: Seq<Seq<char>>, seen: Seq<Seq<char>>) -> Seq<Seq<char>>
    decreases keys.len(),
{
    if keys.len() == 0 {
        Seq::empty()
    } else {
        let k = missing_keys(keys.drop_last(), seen);
        if seen.contains(keys.last()) {
            k
        } else {
            k.push(keys.last())
        }
    }
}

/// Entries a push drops: only a scan without errors can tell that a file is
/// gone.
pub open spec fn spec_removed(m: Manifest, scan: ScanResult) -> Seq<Seq<char>> {
    if scan.errors == 0 {
        missing_keys(m.files.key_order(), scanned_paths(scan.files@))
    } else {
        Seq::empty()
    }
}

/// The guard against a disconnected disk or an emptied folder: some entries
/// would go, and either nothing was found or at least `MASS_DELETE_MIN` and
/// more than half of the manifest would go.
pub open spec fn mass_delete(total: int, scanned: int, removed: int) -> bool {
    removed > 0 && (scanned == 0 || (removed >= MASS_DELETE_MIN && removed * 2 > total))
}

pub open spec fn mass_delete_message(total: nat, removed: nat) -> Seq<char> {
    "Toplu silme engellendi: manifest'te "@ + dec(total) + " dosya var, yerelde "@ + dec(removed)
        + " tanesi bulunamadı (klasör boş veya bağlı olmayan bir disk olabilir). Bilerek yapıyorsan PushOptions { allow_mass_delete: true } ile tekrar dene."@
}

/// Every chunk of the list is in the Drive folder.
pub open spec fn chunks_present(chunks: Seq<[u8; 32]>, idx: Map<Seq<char>, IndexEntry>) -> bool {
    forall|i: int| 0 <= i < chunks.len() ==> idx.contains_key(hex_lower((#[trigger] chunks[i])@))
}

/// The manifest records the file with the same size and time.
pub open spec fn recorded_same(mf: Map<Seq<char>, FileInfo>, lf: LocalFile) -> bool {
    &&& mf.contains_key(lf.rel_path@)
    &&& mf[lf.rel_path@].size == lf.size
    &&& mf[lf.rel_path@].modified_at == lf.modified_ms
}

pub open spec fn is_unchanged(
    mf: Map<Seq<char>, FileInfo>,
    idx: Map<Seq<char>, IndexEntry>,
    lf: LocalFile,
) -> bool {
    recorded_same(mf, lf) && chunks_present(mf[lf.rel_path@].chunks@, idx)
}

pub open spec fn is_repair(
    mf: Map<Seq<char>, FileInfo>,
    idx: Map<Seq<char>, IndexEntry>,
    lf: LocalFile,
) -> bool {
    recorded_same(mf, lf) && !chunks_present(mf[lf.rel_path@].chunks@, idx)
}

/// The files to upload, in scan order: all but the unchanged ones.
pub open spec fn work_of(
    mf: Map<Seq<char>, FileInfo>,
    idx: Map<Seq<char>, IndexEntry>,
    files: Seq<LocalFile>,
) -> Seq<LocalFile>
    decreases files.len(),
{
    if files.len() == 0 {
        Seq::empty()
    } else {
        let w = work_of(mf, idx, files.drop_last());
        if is_unchanged(mf, idx, files.last()) {
            w
        } else {
            w.push(files.last())
        }
    }
}

pub open spec fn count_unchanged(
    mf: Map<Seq<char>, FileInfo>,
    idx: Map<Seq<char>, IndexEntry>,
    files: Seq<LocalFile>,
) -> nat
    decreases files.len(),
{
    if files.len() == 0 {
        0
    } else {
        count_unchanged(mf, idx, files.drop_last()) + if is_unchanged(mf, idx, files.last()) {
            1nat
        } else {
            0nat
        }
    }
}

pub open spec fn count_repair(
    mf: Map<Seq<char>, FileInfo>,
    idx: Map<Seq<char>, IndexEntry>,
    files: Seq<LocalFile>,
) -> nat
    decreases files.len(),
{
    if files.len() == 0 {
        0
    } else {
        count_repair(mf, idx, files.drop_last()) + if is_repair(mf, idx, files.last()) {
            1nat
        } else {
            0nat
        }
    }
}

proof fn lemma_counts_bounded(
    mf: Map<Seq<char>, FileInfo>,
    idx: Map<Seq<char>, IndexEntry>,
    files: Seq<LocalFile>,
)
    ensures
        count_unchanged(mf, idx, files) <= files.len(),
        count_repair(mf, idx, files) <= files.len(),
    decreases files.len(),
{
    if files.len() > 0 {
        lemma_counts_bounded(mf, idx, files.drop_last());
    }
}

/// A push plan splits the scanned files: each one either stays as it is or
/// is uploaded, never both, and every file that is repaired is uploaded.
pub proof fn law_push_plan_splits_the_scan(
    mf: Map<Seq<char>, FileInfo>,
    idx: Map<Seq<char>, IndexEntry>,
    files: Seq<LocalFile>,
)
    ensures
        count_unchanged(mf, idx, files) + work_of(mf, idx, files).len() == files.len(),
        count_repair(mf, idx, files) <= work_of(mf, idx, files).len(),
        forall|i: int|
            0 <= i < work_of(mf, idx, files).len() ==> !is_unchanged(
                mf,
                idx,
                #[trigger] work_of(mf, idx, files)[i],
            ) && files.contains(work_of(mf, idx, files)[i]),
    decreases files.len(),
{
    if files.len() > 0 {
        let f = files.drop_last();
        law_push_plan_splits_the_scan(mf, idx, f);
        let w = work_of(mf, idx, f);
        assert forall|i: int|
            0 <= i < work_of(mf, idx, files).len() implies !is_unchanged(
            mf,
            idx,
            #[trigger] work_of(mf, idx, files)[i],
        ) && files.contains(work_of(mf, idx, files)[i]) by {
            if i < w.len() {
                assert(work_of(mf, idx, files)[i] == w[i]);
                let k = choose|k: int| 0 <= k < f.len() && f[k] == w[i];
                assert(files[k] == f[k]);
            } else {
                assert(work_of(mf, idx, files)[i] == files.last());
                assert(files[files.len() - 1] == files.last());
            }
        }
    }
}

proof fn lemma_work_of_keeps_changed(
    mf: Map<Seq<char>, FileInfo>,
    idx: Map<Seq<char>, IndexEntry>,
    files: Seq<LocalFile>,
    i: int,
)
    requires
        0 <= i < files.len(),
        !is_unchanged(mf, idx, files[i]),
    ensures
        work_of(mf, idx, files).contains(files[i]),
    decreases files.len(),
{
    let f = files.drop_last();
    let w = work_of(mf, idx, f);
    if i == files.len() - 1 {
        assert(work_of(mf, idx, files) == w.push(files.last()));
        assert(work_of(mf, idx, files)[w.len() as int] == files[i]);
    } else {
        assert(f[i] == files[i]);
        lemma_work_of_keeps_changed(mf, idx, f, i);
        let j = choose|j: int| 0 <= j < w.len() && w[j] == files[i];
        assert(work_of(mf, idx, files)[j] == files[i]);
    }
}

/// A push uploads every scanned file that the manifest does not record with
/// the same size and the same change time, or whose recorded chunks are
/// not all on Drive; a file recorded with the same size and change time
/// whose chunks are all on Drive stays as it is.
pub proof fn law_push_uploads_every_changed_file(
    mf: Map<Seq<char>, FileInfo>,
    idx: Map<Seq<char>, IndexEntry>,
    files: Seq<LocalFile>,
    i: int,
)
    requires
        0 <= i < files.len(),
    ensures
        ({
            let f = files[i];
            let k = f.rel_path@;
            let kept = mf.contains_key(k) && mf[k].size == f.size && mf[k].modified_at
                == f.modified_ms && forall|c: int|
                0 <= c < mf[k].chunks@.len() ==> idx.contains_key(
                    hex_lower((#[trigger] mf[k].chunks@[c])@),
                );
            &&& !kept ==> work_of(mf, idx, files).contains(f)
            &&& kept ==> !work_of(mf, idx, files).contains(f)
        }),
{
    let f = files[i];
    if is_unchanged(mf, idx, f) {
        law_push_plan_splits_the_scan(mf, idx, files);
        if work_of(mf, idx, files).contains(f) {
            let j = choose|j: int| 0 <= j < work_of(mf, idx, files).len() && work_of(mf, idx, files)[j] == f;
            assert(!is_unchanged(mf, idx, work_of(mf, idx, files)[j]));
        }
    } else {
        lemma_work_of_keeps_changed(mf, idx, files, i);
    }
}

proof fn lemma_missing_keys_len(keys: Seq<Seq<char>>, seen: Seq<Seq<char>>)
    ensures
        missing_keys(keys, seen).len() <= keys.len(),
    decreases keys.len(),
{
    if keys.len() > 0 {
        lemma_missing_keys_len(keys.drop_last(), seen);
    }
}

/// Did the scan see `p`?
fn path_scanned(files: &Vec<LocalFile>, p: &str) -> (r: bool)
    ensures
        r == scanned_paths(files@).contains(p@),
{
    let mut i: usize = 0;
    while i < files.len()
        invariant
            i <= files@.len(),
            forall|j: int| 0 <= j < i ==> files@[j].rel_path@ != p@,
        decreases files@.len() - i,
    {
        if str_eq(files[i].rel_path.as_str(), p) {
            assert(scanned_paths(files@)[i as int] == p@);
            return true;
        }
        i = i + 1;
    }
    proof {
        if scanned_paths(files@).contains(p@) {
            let j = choose|j: int| 0 <= j < scanned_paths(files@).len() && scanned_paths(files@)[j] == p@;
            assert(files@[j].rel_path@ == p@);
        }
    }
    false
}

/// Is every chunk of the list in the Drive folder?
fn all_chunks_indexed(chunks: &Vec<[u8; 32]>, index: &DriveIndex) -> (r: bool)
    requires
        index.wf(),
    ensures
        r == chunks_present(chunks@, index@),
{
    let mut i: usize = 0;
    while i < chunks.len()
        invariant
            index.wf(),
            i <= chunks@.len(),
            forall|j: int| 0 <= j < i ==> index@.contains_key(hex_lower((#[trigger] chunks@[j])@)),
        decreases chunks@.len() - i,
    {
        let name = to_hex(chunks[i].as_slice());
        if !index.has(name.as_str()) {
            return false;
        }
        i = i + 1;
    }
    true
}

/// The entries a push would drop (before the guard).
fn removed_entries(manifest: &Manifest, scan: &ScanResult) -> (r: Vec<String>)
    requires
        manifest.wf(),
    ensures
        str_views(r@) == spec_removed(*manifest, *scan),
{
    let mut r: Vec<String> = Vec::new();
    if scan.errors != 0 {
        assert(str_views(r@) =~= Seq::<Seq<char>>::empty());
        return r;
    }
    let ghost keys = manifest.files.key_order();
    let ghost seen = scanned_paths(scan.files@);
    proof {
        manifest.files.lemma_view();
    }
    let n = manifest.files.len();
    let mut i: usize = 0;
    assert(keys.take(0) =~= Seq::<Seq<char>>::empty());
    while i < n
        invariant
            manifest.wf(),
            keys == manifest.files.key_order(),
            seen == scanned_paths(scan.files@),
            n == keys.len(),
            i <= n,
            str_views(r@) == missing_keys(keys.take(i as int), seen),
        decreases n - i,
    {
        let (k, _) = manifest.files.entry(i);
        assert(keys.take(i + 1).drop_last() =~= keys.take(i as int));
        assert(keys.take(i + 1).last() == k@);
        if !path_scanned(&scan.files, k.as_str()) {
            let ghost before = r@;
            r.push(k.clone());
            assert(str_views(r@) =~= str_views(before).push(k@));
        }
        i = i + 1;
    }
    assert(keys.take(n as int) =~= keys);
    r
}

/// Decides a push round: which manifest entries go (none after a scan with
/// errors), whether the mass-delete guard stops the round, which files are
/// uploaded and how many stay as they are. A file whose manifest entry
/// matches in size and time but lost a chunk on Drive is uploaded again.
pub fn plan_push(manifest: &Manifest, scan: &ScanResult, index: &DriveIndex, opts: &PushOptions) -> (r:
    Result<PushPlan, String>)
    requires
        manifest.wf(),
        index.wf(),
    ensures
        ({
            let removed = spec_removed(*manifest, *scan);
            let blocked = !opts.allow_mass_delete && mass_delete(
                manifest.files@.len() as int,
                scan.files@.len() as int,
                removed.len() as int,
            );
            match r {
                Err(m) => blocked && m@ == mass_delete_message(
                    manifest.files@.len(),
                    removed.len(),
                ),
                Ok(p) => {
                    &&& !blocked
                    &&& str_views(p.removed@) == removed
                    &&& p.work@ == work_of(manifest.files@, index@, scan.files@)
                    &&& p.unchanged == count_unchanged(manifest.files@, index@, scan.files@)
                    &&& p.repaired == count_repair(manifest.files@, index@, scan.files@)
                    &&& p.unchanged + p.work@.len() == scan.files@.len()
                },
            }
        }),
{
    let removed = removed_entries(manifest, scan);
    proof {
        manifest.files.lemma_view();
        lemma_missing_keys_len(manifest.files.key_order(), scanned_paths(scan.files@));
    }
    let total = manifest.files.len();
    if !opts.allow_mass_delete && removed.len() > 0 {
        let n = removed.len();
        let empty_scan = scan.files.len() == 0;
        let mass = n >= MASS_DELETE_MIN && (n as u128) * 2 > total as u128;
        if empty_scan || mass {
            let mut m = owned("Toplu silme engellendi: manifest'te ");
            push_str(&mut m, u64_to_string(total as u64).as_str());
            push_str(&mut m, " dosya var, yerelde ");
            push_str(&mut m, u64_to_string(n as u64).as_str());
            push_str(
                &mut m,
                " tanesi bulunamadı (klasör boş veya bağlı olmayan bir disk olabilir). Bilerek yapıyorsan PushOptions { allow_mass_delete: true } ile tekrar dene.",
            );
            return Err(m);
        }
    }
    let ghost mf = manifest.files@;
    let ghost idx = index@;
    let ghost files = scan.files@;
    let mut work: Vec<LocalFile> = Vec::new();
    let mut unchanged: usize = 0;
    let mut repaired: usize = 0;
    let mut i: usize = 0;
    assert(files.take(0) =~= Seq::<LocalFile>::empty());
    while i < scan.files.len()
        invariant
            manifest.wf(),
            index.wf(),
            mf == manifest.files@,
            idx == index@,
            files == scan.files@,
            i <= files.len(),
            work@ == work_of(mf, idx, files.take(i as int)),
            unchanged == count_unchanged(mf, idx, files.take(i as int)),
            repaired == count_repair(mf, idx, files.take(i as int)),
        decreases files.len() - i,
    {
        let lf = &scan.files[i];
        proof {
            assert(files.take(i + 1).drop_last() =~= files.take(i as int));
            assert(files.take(i + 1).last() == *lf);
            lemma_counts_bounded(mf, idx, files.take(i as int));
        }
        let mut keep_as_is = false;
        match manifest.files.get(lf.rel_path.as_str()) {
            Some(ex) => {
                if ex.size == lf.size && ex.modified_at == lf.modified_ms {
                    if all_chunks_indexed(&ex.chunks, index) {
                        keep_as_is = true;
                        unchanged = unchanged + 1;
                    } else {
                        repaired = repaired + 1;
                    }
                }
            },
            None => {},
        }
        if !keep_as_is {
            work.push(lf.clone());
        }
        i = i + 1;
    }
    assert(files.take(files.len() as int) =~= files);
    proof {
        law_push_plan_splits_the_scan(mf, index@, files);
    }
    Ok(PushPlan { removed, work, unchanged, repaired })
}

/// Drops the entries of files that are gone; every other entry stays as it
/// was.
pub fn apply_removals(manifest: &mut Manifest, removed: &Vec<String>)
    requires
        old(manifest).wf(),
    ensures
        final(manifest).wf(),
        final(manifest).schema_version == old(manifest).schema_version,
        final(manifest).revision == old(manifest).revision,
        forall|k: Seq<char>|
            #[trigger] final(manifest).files@.contains_key(k) <==> old(manifest).files@.contains_key(
                k,
            ) && !str_views(removed@).contains(k),
        forall|k: Seq<char>|
            #[trigger] final(manifest).files@.contains_key(k) ==> final(manifest).files@[k]
                == old(manifest).files@[k],
{
    let mut i: usize = 0;
    while i < removed.len()
        invariant
            manifest.wf(),
            manifest.schema_version == old(manifest).schema_version,
            manifest.revision == old(manifest).revision,
            i <= removed@.len(),
            forall|k: Seq<char>|
                #[trigger] manifest.files@.contains_key(k) <==> old(manifest).files@.contains_key(k)
                    && !str_views(removed@.take(i as int)).contains(k),
            forall|k: Seq<char>|
                #[trigger] manifest.files@.contains_key(k) ==> manifest.files@[k] == old(
                    manifest,
                ).files@[k],
        decreases removed@.len() - i,
    {
        let ghost before = manifest.files@;
        manifest.files.remove(removed[i].as_str());
        proof {
            let prev = str_views(removed@.take(i as int));
            let next = str_views(removed@.take(i + 1));
            assert(next =~= prev.push(removed@[i as int]@));
            assert forall|k: Seq<char>| next.contains(k) <==> prev.contains(k) || k
                == removed@[i as int]@ by {
                if next.contains(k) {
                    let j = choose|j: int| 0 <= j < next.len() && next[j] == k;
                    if j < prev.len() {
                        assert(prev[j] == k);
                    }
                }
                if prev.contains(k) {
                    let j = choose|j: int| 0 <= j < prev.len() && prev[j] == k;
                    assert(next[j] == k);
                }
                if k == removed@[i as int]@ {
                    assert(next[i as int] == k);
                }
            }
        }
        i = i + 1;
    }
    assert(removed@.take(removed@.len() as int) =~= removed@);
}

// ---------------------------------------------------------------------------
// Push: one file
// ---------------------------------------------------------------------------

pub enum FileOutcome {
    Synced(FileInfo),
    /// The file changed or vanished while it was read; it is not recorded.
    ChangedDuringSync,
}

pub open spec fn size_mismatch_message(total: nat, size: nat) -> Seq<char> {
    "okunan bayt sayısı ("@ + dec(total) + ") dosya boyutuyla ("@ + dec(size) + ") uyuşmuyor"@
}

/// What a file that was chunked and uploaded becomes: when its size or time
/// changed meanwhile (or it is gone: `restat` is `None`) it is left for the
/// next round; when fewer or more bytes were read than its size, an error;
/// otherwise its manifest record with the chunk names in order.
pub fn file_outcome(lf: &LocalFile, restat: Option<(u64, u64)>, total_read: u64, chunks: Vec<
    [u8; 32],
>) -> (r: Result<FileOutcome, String>)
    ensures
        restat != Some((lf.size, lf.modified_ms)) ==> r matches Ok(FileOutcome::ChangedDuringSync),
        restat == Some((lf.size, lf.modified_ms)) && total_read != lf.size ==> (r matches Err(m)
            && m@ == size_mismatch_message(total_read as nat, lf.size as nat)),
        restat == Some((lf.size, lf.modified_ms)) && total_read == lf.size ==> (r matches Ok(
            FileOutcome::Synced(info),
        ) && info.path@ == lf.rel_path@ && info.size == lf.size && info.modified_at
            == lf.modified_ms && info.chunks@ == chunks@),
{
    match restat {
        Some((size, mtime)) => {
            if size != lf.size || mtime != lf.modified_ms {
                return Ok(FileOutcome::ChangedDuringSync);
            }
        },
        None => {
            return Ok(FileOutcome::ChangedDuringSync);
        },
    }
    if total_read != lf.size {
        let mut m = owned("okunan bayt sayısı (");
        push_str(&mut m, u64_to_string(total_read).as_str());
        push_str(&mut m, ") dosya boyutuyla (");
        push_str(&mut m, u64_to_string(lf.size).as_str());
        push_str(&mut m, ") uyuşmuyor");
        return Err(m);
    }
    Ok(
        FileOutcome::Synced(
            FileInfo {
                path: lf.rel_path.clone(),
                size: lf.size,
                modified_at: lf.modified_ms,
                chunks,
            },
        ),
    )
}

/// How the reading and the uploads of one file ended, as one result: an
/// upload failure is the real cause and wins over the reader's failure
/// (which then only says that its receiver went away); otherwise the reader's
/// result, the number of bytes read.
pub fn settle_chunking(upload_error: Option<String>, read: Result<u64, String>) -> (r: Result<u64, String>)
    ensures
        match upload_error {
            Some(e) => r == Err::<u64, String>(e),
            None => r == read,
        },
{
    match upload_error {
        Some(e) => Err(e),
        None => read,
    }
}

/// After this many recorded changes a push saves the manifest on the way.
pub const CHECKPOINT_FILES: usize = 200;

/// After this many seconds since the last save a push saves the manifest on
/// the way.
pub const CHECKPOINT_INTERVAL_SECS: u64 = 60;

/// Does a push save the manifest now? Only with unsaved changes, and then
/// after enough of them or after enough time, so that a crash loses little.
pub fn should_checkpoint(unsaved: usize, secs_since_save: u64) -> (r: bool)
    ensures
        r == (unsaved > 0 && (unsaved >= CHECKPOINT_FILES || secs_since_save
            >= CHECKPOINT_INTERVAL_SECS)),
{
    unsaved > 0 && (unsaved >= CHECKPOINT_FILES || secs_since_save >= CHECKPOINT_INTERVAL_SECS)
}

/// Books the end of one file's upload: a synced file enters the manifest
/// under its path, becomes this device's record of the path's last
/// synchronisation, and counts as uploaded; a file that changed meanwhile is
/// left for the next round; a failure is reported with its reason. Nothing
/// but a synced file ever changes the manifest. Returns whether the
/// manifest changed.
pub fn record_push_outcome(
    manifest: &mut Manifest,
    report: &mut SyncReport,
    sync: &mut SyncState,
    rel: String,
    outcome: Result<FileOutcome, String>,
) -> (changed: bool)
    requires
        old(manifest).wf(),
        old(sync).wf(),
        old(report).uploaded_files < usize::MAX,
    ensures
        final(manifest).wf(),
        final(sync).wf(),
        match outcome {
            Ok(FileOutcome::Synced(info)) => final(sync)@ == old(sync)@.insert(rel@, remote_stat(info)),
            _ => final(sync)@ == old(sync)@,
        },
        final(manifest).schema_version == old(manifest).schema_version,
        final(manifest).revision == old(manifest).revision,
        changed == (outcome matches Ok(FileOutcome::Synced(_))),
        final(report).uploaded_files + final(report).changed_during_sync@.len()
            + final(report).failed_files@.len() == old(report).uploaded_files
            + old(report).changed_during_sync@.len() + old(report).failed_files@.len() + 1,
        match outcome {
            Ok(FileOutcome::Synced(info)) => {
                &&& final(manifest).files@ == old(manifest).files@.insert(rel@, info)
                &&& final(report).uploaded_files == old(report).uploaded_files + 1
                &&& final(report).changed_during_sync@ == old(report).changed_during_sync@
                &&& final(report).failed_files@ == old(report).failed_files@
            },
            Ok(FileOutcome::ChangedDuringSync) => {
                &&& final(manifest).files@ == old(manifest).files@
                &&& final(report).uploaded_files == old(report).uploaded_files
                &&& final(report).changed_during_sync@ == old(report).changed_during_sync@.push(rel)
                &&& final(report).failed_files@ == old(report).failed_files@
            },
            Err(e) => {
                &&& final(manifest).files@ == old(manifest).files@
                &&& final(report).uploaded_files == old(report).uploaded_files
                &&& final(report).changed_during_sync@ == old(report).changed_during_sync@
                &&& final(report).failed_files@ == old(report).failed_files@.push((rel, e))
            },
        },
        final(report).scanned_files == old(report).scanned_files,
        final(report).unchanged_files == old(report).unchanged_files,
        final(report).repaired_files == old(report).repaired_files,
        final(report).removed_from_manifest == old(report).removed_from_manifest,
        final(report).scan_errors == old(report).scan_errors,
        final(report).chunks_uploaded == old(report).chunks_uploaded,
        final(report).chunks_deduped == old(report).chunks_deduped,
        final(report).bytes_uploaded == old(report).bytes_uploaded,
        final(report).manifest_revision == old(report).manifest_revision,
{
    match outcome {
        Ok(FileOutcome::Synced(info)) => {
            sync.set(rel.as_str(), FileStat { size: info.size, modified_ms: info.modified_at });
            manifest.files.insert(rel, info);
            report.uploaded_files = report.uploaded_files + 1;
            true
        },
        Ok(FileOutcome::ChangedDuringSync) => {
            report.changed_during_sync.push(rel);
            false
        },
        Err(e) => {
            report.failed_files.push((rel, e));
            false
        },
    }
}

/// Books the end of one file's restore: a restored file counts with its
/// bytes and becomes this device's record of the path's last
/// synchronisation, the manifest's size and change time (the restore gives
/// the file that change time); a path the manifest does not hold is only
/// counted; a failure is reported with its reason.
pub fn record_pull_outcome(
    report: &mut PullReport,
    sync: &mut SyncState,
    manifest: &Manifest,
    rel: String,
    outcome: Result<u64, String>,
)
    requires
        old(report).restored_files < usize::MAX,
        old(sync).wf(),
        manifest.wf(),
    ensures
        final(sync).wf(),
        match outcome {
            Ok(_) => final(sync)@ == if manifest.files@.contains_key(rel@) {
                old(sync)@.insert(rel@, remote_stat(manifest.files@[rel@]))
            } else {
                old(sync)@
            },
            Err(_) => final(sync)@ == old(sync)@,
        },
        match outcome {
            Ok(n) => {
                &&& final(report).restored_files == old(report).restored_files + 1
                &&& final(report).bytes_written == (old(report).bytes_written + n) % 0x1_0000_0000_0000_0000
                &&& final(report).failed_files@ == old(report).failed_files@
            },
            Err(e) => {
                &&& final(report).restored_files == old(report).restored_files
                &&& final(report).bytes_written == old(report).bytes_written
                &&& final(report).failed_files@ == old(report).failed_files@.push((rel, e))
            },
        },
        final(report).skipped_up_to_date == old(report).skipped_up_to_date,
        final(report).skipped_existing@ == old(report).skipped_existing@,
        final(report).invalid_paths@ == old(report).invalid_paths@,
        final(report).conflicts@ == old(report).conflicts@,
{
    match outcome {
        Ok(n) => {
            match manifest.files.get(rel.as_str()) {
                Some(info) => sync.set(rel.as_str(), FileStat { size: info.size, modified_ms: info.modified_at }),
                None => {},
            }
            report.restored_files = report.restored_files + 1;
            report.bytes_written = report.bytes_written.wrapping_add(n);
        },
        Err(e) => {
            report.failed_files.push((rel, e));
        },
    }
}

// ---------------------------------------------------------------------------
// Chunks
// ---------------------------------------------------------------------------

/// A chunk ready for upload: its name, and its sealed bytes unless Drive
/// already holds a chunk of that name.
pub struct PreparedChunk {
    pub name: [u8; 32],
    pub sealed: Option<Vec<u8>>,
    pub plain_len: u64,
}

/// The text form of a chunk name, which is also its file name on Drive.
pub open spec fn chunk_file_name(name: Seq<u8>) -> Seq<char> {
    hex_lower(name)
}

/// What `open_chunk` gives for a downloaded chunk: the plaintext, if it
/// decrypts under the name and its HMAC is that name.
pub open spec fn spec_open_chunk(keys: Keys, name: Seq<char>, enc: Seq<u8>) -> Option<Seq<u8>> {
    match spec_decrypt_chunk(keys.enc_key@, encode_utf8(name), enc) {
        Some(p) => if hex_lower(hmac_sha256_tag(keys.hmac_key@, p)) == name {
            Some(p)
        } else {
            None
        },
        None => None,
    }
}

/// Names a chunk by the HMAC of its content and seals it under that name,
/// unless the index already holds it. What is sealed opens, under the same
/// keys and name, to the chunk itself.
pub fn prepare_chunk(keys: &Keys, index: &DriveIndex, data: &[u8]) -> (r: Result<
    PreparedChunk,
    String,
>)
    requires
        index.wf(),
    ensures
        match r {
            Ok(c) => {
                &&& c.name@ == hmac_sha256_tag(keys.hmac_key@, data@)
                &&& c.plain_len == data@.len()
                &&& (c.sealed is None <==> index@.contains_key(chunk_file_name(c.name@)))
                &&& (c.sealed matches Some(enc) ==> spec_open_chunk(
                    *keys,
                    chunk_file_name(c.name@),
                    enc@,
                ) == Some(data@))
            },
            Err(m) => {
                &&& !index@.contains_key(chunk_file_name(hmac_sha256_tag(keys.hmac_key@, data@)))
                &&& exists|e: Seq<char>|
                    m@ == "şifreleme hatası: "@ + e && (nonce_failure(e) || (data@.len() > AEAD_MAX
                        && exists|e2: Seq<char>| e == "Şifreleme hatası: "@ + e2))
            },
        },
        data@.len() > AEAD_MAX && !index@.contains_key(
            chunk_file_name(hmac_sha256_tag(keys.hmac_key@, data@)),
        ) ==> r is Err,
{
    let name = hash_chunk_name(&keys.hmac_key, data);
    let hex_name = to_hex(name.as_slice());
    let plain_len = data.len() as u64;
    if index.has(hex_name.as_str()) {
        return Ok(PreparedChunk { name, sealed: None, plain_len });
    }
    assert(encode_utf8(hex_name@).len() == 64) by {
        crate::codec::lemma_hex_is_ascii(name@);
    }
    match encrypt_chunk(&keys.enc_key, hex_name.as_str(), data) {
        Ok(enc) => Ok(PreparedChunk { name, sealed: Some(enc), plain_len }),
        Err(e) => {
            let mut m = owned("şifreleme hatası: ");
            push_str(&mut m, e.as_str());
            assert(m@ == "şifreleme hatası: "@ + e@);
            assert(nonce_failure(e@) || (data@.len() > AEAD_MAX && exists|e2: Seq<char>|
                e@ == "Şifreleme hatası: "@ + e2));
            Err(m)
        },
    }
}

/// A file pushed and pulled again is the same file: when each chunk of the
/// file is stored as a blob that opens, under the chunk's name, to that
/// chunk (as `prepare_chunk` seals it), opening the blobs in manifest order
/// and writing what they hold one after the other gives back the file.
pub proof fn law_pull_gives_back_the_pushed_file(keys: Keys, d: Seq<u8>, blobs: Seq<Seq<u8>>)
    requires
        blobs.len() == spec_chunks(d).len(),
        forall|i: int|
            0 <= i < blobs.len() ==> spec_open_chunk(
                keys,
                chunk_file_name(hmac_sha256_tag(keys.hmac_key@, spec_chunks(d)[i])),
                #[trigger] blobs[i],
            ) == Some(spec_chunks(d)[i]),
    ensures
        join(
            Seq::new(
                blobs.len(),
                |i: int|
                    spec_open_chunk(
                        keys,
                        chunk_file_name(hmac_sha256_tag(keys.hmac_key@, spec_chunks(d)[i])),
                        blobs[i],
                    ).unwrap(),
            ),
        ) == d,
{
    let opened = Seq::new(
        blobs.len(),
        |i: int|
            spec_open_chunk(
                keys,
                chunk_file_name(hmac_sha256_tag(keys.hmac_key@, spec_chunks(d)[i])),
                blobs[i],
            ).unwrap(),
    );
    assert forall|i: int| 0 <= i < opened.len() implies opened[i] == spec_chunks(d)[i] by {
        assert(spec_open_chunk(
            keys,
            chunk_file_name(hmac_sha256_tag(keys.hmac_key@, spec_chunks(d)[i])),
            blobs[i],
        ) == Some(spec_chunks(d)[i]));
    }
    assert(opened =~= spec_chunks(d));
    law_chunks_join_to_the_file(d);
}

/// Opens a downloaded chunk and checks that it is the chunk its name says:
/// a chunk swapped for another or altered is refused.
pub fn open_chunk(keys: &Keys, name: &str, enc: &[u8]) -> (r: Result<Vec<u8>, String>)
    ensures
        match r {
            Ok(p) => spec_open_chunk(*keys, name@, enc@) == Some(p@),
            Err(_) => spec_open_chunk(*keys, name@, enc@) is None,
        },
{
    let plain = match decrypt_chunk(&keys.enc_key, name, enc) {
        Ok(p) => p,
        Err(e) => {
            let mut m = owned("chunk çözülemedi (");
            push_str(&mut m, name);
            push_str(&mut m, "): ");
            push_str(&mut m, e.as_str());
            return Err(m);
        },
    };
    let got = to_hex(hash_chunk_name(&keys.hmac_key, plain.as_slice()).as_slice());
    if !str_eq(got.as_str(), name) {
        let mut m = owned("chunk bütünlük kontrolü başarısız (");
        push_str(&mut m, name);
        push_str(&mut m, ")");
        return Err(m);
    }
    Ok(plain)
}

// ---------------------------------------------------------------------------
// Pull: where each file goes
// ---------------------------------------------------------------------------

/// A manifest entry and where it would be written.
pub struct PullTarget {
    pub rel: String,
    /// `None` for a path that could leave the target folder.
    pub dest: Option<String>,
}

/// What is at a destination before a pull.
pub enum DestState {
    Missing,
    File { len: u64, modified_ms: u64 },
    /// A directory or another non-file.
    NotAFile,
}

#[derive(PartialEq, Eq, Structural)]
pub enum PullStep {
    Invalid,
    UpToDate,
    KeepExisting,
    Conflict,
    NotAFile,
    Restore,
}

/// A file to download and write.
pub struct PullJob {
    pub rel: String,
    pub dest: String,
}

pub struct PullPlan {
    pub report: PullReport,
    pub jobs: Vec<PullJob>,
    /// Entries whose local file already is the remote version.
    pub in_sync: Vec<String>,
}

pub open spec fn opt_view(o: Option<String>) -> Option<Seq<char>> {
    match o {
        Some(s) => Some(s@),
        None => None,
    }
}

/// A manifest entry's size and change time, as the per-device state
/// records a file.
pub open spec fn remote_stat(info: FileInfo) -> FileStat {
    FileStat { size: info.size, modified_ms: info.modified_at }
}

/// The state this device recorded for a path at its last synchronisation.
pub open spec fn base_of(bases: Map<Seq<char>, FileStat>, rel: Seq<char>) -> Option<FileStat> {
    if bases.contains_key(rel) {
        Some(bases[rel])
    } else {
        None
    }
}

/// The decision for one entry: an unsafe path is refused and something that
/// is not a file is an error; otherwise the three-way decision on the local
/// file, its recorded base and the manifest's record decides, so a local
/// edit since the last synchronisation is never overwritten.
pub open spec fn pull_step(
    info: FileInfo,
    dest: Option<Seq<char>>,
    st: DestState,
    base: Option<FileStat>,
    overwrite: bool,
) -> PullStep {
    match dest {
        None => PullStep::Invalid,
        Some(_) => match st {
            DestState::Missing => PullStep::Restore,
            DestState::File { len, modified_ms } => match spec_decide_pull(
                Some(FileStat { size: len, modified_ms }),
                base,
                remote_stat(info),
                overwrite,
            ) {
                PullDecision::UpToDate => PullStep::UpToDate,
                PullDecision::Restore => PullStep::Restore,
                PullDecision::KeepLocal => PullStep::KeepExisting,
                PullDecision::Conflict => PullStep::Conflict,
            },
            DestState::NotAFile => PullStep::NotAFile,
        },
    }
}

pub open spec fn step_at(
    mf: Map<Seq<char>, FileInfo>,
    targets: Seq<PullTarget>,
    states: Seq<DestState>,
    bases: Map<Seq<char>, FileStat>,
    overwrite: bool,
    i: int,
) -> PullStep {
    pull_step(
        mf[targets[i].rel@],
        opt_view(targets[i].dest),
        states[i],
        base_of(bases, targets[i].rel@),
        overwrite,
    )
}

/// The positions, among the first `n`, whose decision is `want`.
pub open spec fn positions(
    mf: Map<Seq<char>, FileInfo>,
    targets: Seq<PullTarget>,
    states: Seq<DestState>,
    bases: Map<Seq<char>, FileStat>,
    overwrite: bool,
    want: PullStep,
    n: nat,
) -> Seq<int>
    decreases n,
{
    if n == 0 {
        Seq::empty()
    } else {
        let p = positions(mf, targets, states, bases, overwrite, want, (n - 1) as nat);
        if step_at(mf, targets, states, bases, overwrite, n - 1) == want {
            p.push(n - 1)
        } else {
            p
        }
    }
}

/// The paths of the targets at the given positions.
pub open spec fn rels_at(targets: Seq<PullTarget>, pos: Seq<int>) -> Seq<Seq<char>> {
    Seq::new(pos.len(), |j: int| targets[pos[j]].rel@)
}

proof fn lemma_positions_len(
    mf: Map<Seq<char>, FileInfo>,
    targets: Seq<PullTarget>,
    states: Seq<DestState>,
    bases: Map<Seq<char>, FileStat>,
    overwrite: bool,
    want: PullStep,
    n: nat,
)
    ensures
        positions(mf, targets, states, bases, overwrite, want, n).len() <= n,
        forall|j: int|
            0 <= j < positions(mf, targets, states, bases, overwrite, want, n).len() ==> 0 <= (
            #[trigger] positions(mf, targets, states, bases, overwrite, want, n)[j]) < n,
    decreases n,
{
    if n > 0 {
        lemma_positions_len(mf, targets, states, bases, overwrite, want, (n - 1) as nat);
    }
}

pub open spec fn not_a_file_message() -> Seq<char> {
    "hedef yol bir dosya değil"@
}

/// The manifest's entries in path order, each with the place under
/// `target_dir` where it may be written (`windows`: with the Windows
/// refusals of `safe_join`).
pub fn pull_targets(manifest: &Manifest, target_dir: &str, windows: bool) -> (r: Vec<PullTarget>)
    requires
        manifest.wf(),
    ensures
        r@.len() == manifest.files.key_order().len(),
        Seq::new(r@.len(), |i: int| r@[i].rel@) == manifest.files.key_order().sort_by(lex_leq()),
        forall|i: int| 0 <= i < r@.len() ==> manifest.files@.contains_key((#[trigger] r@[i]).rel@),
        forall|i: int|
            0 <= i < r@.len() ==> opt_view(#[trigger] r@[i].dest) == spec_safe_join(
                target_dir@,
                r@[i].rel@,
                windows,
            ),
{
    let keys = manifest.files.keys();
    let order = sort_strings(&keys);
    proof {
        let sorted = str_views(keys@).sort_by(lex_leq());
        crate::text::lemma_lex_total_ordering();
        str_views(keys@).lemma_sort_by_ensures(lex_leq());
        str_views(keys@).to_multiset_ensures();
        sorted.to_multiset_ensures();
        assert(str_views(order@).len() == str_views(keys@).len());
        manifest.files.lemma_view();
        assert forall|j: int| 0 <= j < order@.len() implies manifest.files@.contains_key(
            #[trigger] order@[j]@,
        ) by {
            assert(sorted[j] == order@[j]@);
            assert(sorted.contains(order@[j]@));
            assert(str_views(keys@).contains(order@[j]@));
        }
    }
    let mut r: Vec<PullTarget> = Vec::new();
    let mut i: usize = 0;
    while i < order.len()
        invariant
            i <= order@.len(),
            r@.len() == i,
            forall|j: int| 0 <= j < order@.len() ==> manifest.files@.contains_key(#[trigger] order@[j]@),
            forall|j: int| 0 <= j < i ==> (#[trigger] r@[j]).rel@ == order@[j]@,
            forall|j: int|
                0 <= j < i ==> opt_view(#[trigger] r@[j].dest) == spec_safe_join(
                    target_dir@,
                    r@[j].rel@,
                    windows,
                ),
        decreases order@.len() - i,
    {
        let dest = safe_join(target_dir, order[i].as_str(), windows);
        r.push(PullTarget { rel: order[i].clone(), dest });
        i = i + 1;
    }
    assert(Seq::new(r@.len(), |j: int| r@[j].rel@) =~= str_views(order@));
    r
}

/// Turns the entries, what stands at their destinations and what this
/// device recorded at its last synchronisation (`sync`) into the pull
/// report's skips, conflicts and refusals, the entries already in sync, and
/// the files to download, in the order of the entries. An existing file
/// becomes a download only when the three-way decision says `Restore`.
pub fn plan_pull(
    manifest: &Manifest,
    targets: &Vec<PullTarget>,
    states: &Vec<DestState>,
    sync: &SyncState,
    overwrite: bool,
) -> (r: PullPlan)
    requires
        manifest.wf(),
        sync.wf(),
        targets@.len() == states@.len(),
        forall|i: int|
            0 <= i < targets@.len() ==> manifest.files@.contains_key((#[trigger] targets@[i]).rel@),
    ensures
        ({
            let mf = manifest.files@;
            let sb = sync@;
            let n = targets@.len();
            let ts = targets@;
            let ss = states@;
            let ok = positions(mf, ts, ss, sb, overwrite, PullStep::UpToDate, n);
            let inv = positions(mf, ts, ss, sb, overwrite, PullStep::Invalid, n);
            let keep = positions(mf, ts, ss, sb, overwrite, PullStep::KeepExisting, n);
            let both = positions(mf, ts, ss, sb, overwrite, PullStep::Conflict, n);
            let bad = positions(mf, ts, ss, sb, overwrite, PullStep::NotAFile, n);
            let rest = positions(mf, ts, ss, sb, overwrite, PullStep::Restore, n);
            &&& r.report.skipped_up_to_date == ok.len()
            &&& str_views(r.in_sync@) == rels_at(ts, ok)
            &&& str_views(r.report.invalid_paths@) == rels_at(ts, inv)
            &&& str_views(r.report.skipped_existing@) == rels_at(ts, keep)
            &&& str_views(r.report.conflicts@) == rels_at(ts, both)
            &&& r.report.failed_files@.len() == bad.len()
            &&& (forall|j: int|
                0 <= j < bad.len() ==> (#[trigger] r.report.failed_files@[j]).0@
                    == ts[bad[j]].rel@ && r.report.failed_files@[j].1@ == not_a_file_message())
            &&& r.jobs@.len() == rest.len()
            &&& (forall|j: int|
                0 <= j < rest.len() ==> (#[trigger] r.jobs@[j]).rel@ == ts[rest[j]].rel@
                    && opt_view(ts[rest[j]].dest) == Some(r.jobs@[j].dest@))
            &&& r.report.restored_files == 0
            &&& r.report.bytes_written == 0
        }),
{
    let ghost mf = manifest.files@;
    let ghost ts = targets@;
    let ghost ss = states@;
    let ghost sb = sync@;
    let mut report = PullReport::default();
    let mut jobs: Vec<PullJob> = Vec::new();
    let mut in_sync: Vec<String> = Vec::new();
    let mut i: usize = 0;
    proof {
        assert(str_views(in_sync@) =~= Seq::<Seq<char>>::empty());
        assert(str_views(report.invalid_paths@) =~= Seq::<Seq<char>>::empty());
        assert(str_views(report.skipped_existing@) =~= Seq::<Seq<char>>::empty());
        assert(str_views(report.conflicts@) =~= Seq::<Seq<char>>::empty());
    }
    while i < targets.len()
        invariant
            manifest.wf(),
            sync.wf(),
            mf == manifest.files@,
            sb == sync@,
            ts == targets@,
            ss == states@,
            ts.len() == ss.len(),
            forall|k: int| 0 <= k < ts.len() ==> mf.contains_key((#[trigger] ts[k]).rel@),
            i <= ts.len(),
            report.restored_files == 0,
            report.bytes_written == 0,
            report.skipped_up_to_date == positions(mf, ts, ss, sb, overwrite, PullStep::UpToDate, i as nat).len(),
            str_views(in_sync@) == rels_at(ts, positions(mf, ts, ss, sb, overwrite, PullStep::UpToDate, i as nat)),
            str_views(report.invalid_paths@) == rels_at(ts, positions(mf, ts, ss, sb, overwrite, PullStep::Invalid, i as nat)),
            str_views(report.skipped_existing@) == rels_at(ts, positions(mf, ts, ss, sb, overwrite, PullStep::KeepExisting, i as nat)),
            str_views(report.conflicts@) == rels_at(ts, positions(mf, ts, ss, sb, overwrite, PullStep::Conflict, i as nat)),
            report.failed_files@.len() == positions(mf, ts, ss, sb, overwrite, PullStep::NotAFile, i as nat).len(),
            forall|j: int|
                0 <= j < report.failed_files@.len() ==> (#[trigger] report.failed_files@[j]).0@
                    == ts[positions(mf, ts, ss, sb, overwrite, PullStep::NotAFile, i as nat)[j]].rel@
                    && report.failed_files@[j].1@ == not_a_file_message(),
            jobs@.len() == positions(mf, ts, ss, sb, overwrite, PullStep::Restore, i as nat).len(),
            forall|j: int|
                0 <= j < jobs@.len() ==> (#[trigger] jobs@[j]).rel@ == ts[positions(
                    mf,
                    ts,
                    ss,
                    sb,
                    overwrite,
                    PullStep::Restore,
                    i as nat,
                )[j]].rel@ && opt_view(
                    ts[positions(mf, ts, ss, sb, overwrite, PullStep::Restore, i as nat)[j]].dest,
                ) == Some(jobs@[j].dest@),
        decreases ts.len() - i,
    {
        let t = &targets[i];
        let ghost st = step_at(mf, ts, ss, sb, overwrite, i as int);
        let ghost n1 = (i + 1) as nat;
        assert(manifest.files@.contains_key(t.rel@));
        proof {
            assert(positions(mf, ts, ss, sb, overwrite, PullStep::UpToDate, i as nat).len() <= i) by {
                lemma_positions_len(mf, ts, ss, sb, overwrite, PullStep::UpToDate, i as nat);
            }
        }
        match &t.dest {
            None => {
                assert(st == PullStep::Invalid);
                let ghost before = report.invalid_paths@;
                report.invalid_paths.push(t.rel.clone());
                assert(str_views(report.invalid_paths@) =~= str_views(before).push(t.rel@));
            },
            Some(dest) => {
                let info = match manifest.files.get(t.rel.as_str()) {
                    Some(info) => info,
                    None => {
                        assert(false);
                        return PullPlan { report, jobs, in_sync };
                    },
                };
                match &states[i] {
                    DestState::Missing => {
                        assert(st == PullStep::Restore);
                        jobs.push(PullJob { rel: t.rel.clone(), dest: dest.clone() });
                    },
                    DestState::File { len, modified_ms } => {
                        let local = FileStat { size: *len, modified_ms: *modified_ms };
                        let remote = FileStat { size: info.size, modified_ms: info.modified_at };
                        let base = sync.get(t.rel.as_str());
                        assert(base == base_of(sb, t.rel@));
                        match decide_pull(Some(local), base, remote, overwrite) {
                            PullDecision::UpToDate => {
                                assert(st == PullStep::UpToDate);
                                report.skipped_up_to_date = report.skipped_up_to_date + 1;
                                let ghost before = in_sync@;
                                in_sync.push(t.rel.clone());
                                assert(str_views(in_sync@) =~= str_views(before).push(t.rel@));
                            },
                            PullDecision::Restore => {
                                assert(st == PullStep::Restore);
                                jobs.push(PullJob { rel: t.rel.clone(), dest: dest.clone() });
                            },
                            PullDecision::KeepLocal => {
                                assert(st == PullStep::KeepExisting);
                                let ghost before = report.skipped_existing@;
                                report.skipped_existing.push(t.rel.clone());
                                assert(str_views(report.skipped_existing@) =~= str_views(before).push(t.rel@));
                            },
                            PullDecision::Conflict => {
                                assert(st == PullStep::Conflict);
                                let ghost before = report.conflicts@;
                                report.conflicts.push(t.rel.clone());
                                assert(str_views(report.conflicts@) =~= str_views(before).push(t.rel@));
                            },
                        }
                    },
                    DestState::NotAFile => {
                        assert(st == PullStep::NotAFile);
                        report.failed_files.push((t.rel.clone(), owned("hedef yol bir dosya değil")));
                    },
                }
            },
        }
        proof {
            assert(rels_at(ts, positions(mf, ts, ss, sb, overwrite, PullStep::UpToDate, n1)) =~= if st == PullStep::UpToDate {
                rels_at(ts, positions(mf, ts, ss, sb, overwrite, PullStep::UpToDate, i as nat)).push(ts[i as int].rel@)
            } else {
                rels_at(ts, positions(mf, ts, ss, sb, overwrite, PullStep::UpToDate, i as nat))
            });
            assert(rels_at(ts, positions(mf, ts, ss, sb, overwrite, PullStep::Invalid, n1)) =~= if st == PullStep::Invalid {
                rels_at(ts, positions(mf, ts, ss, sb, overwrite, PullStep::Invalid, i as nat)).push(ts[i as int].rel@)
            } else {
                rels_at(ts, positions(mf, ts, ss, sb, overwrite, PullStep::Invalid, i as nat))
            });
            assert(rels_at(ts, positions(mf, ts, ss, sb, overwrite, PullStep::KeepExisting, n1)) =~= if st == PullStep::KeepExisting {
                rels_at(ts, positions(mf, ts, ss, sb, overwrite, PullStep::KeepExisting, i as nat)).push(ts[i as int].rel@)
            } else {
                rels_at(ts, positions(mf, ts, ss, sb, overwrite, PullStep::KeepExisting, i as nat))
            });
            assert(rels_at(ts, positions(mf, ts, ss, sb, overwrite, PullStep::Conflict, n1)) =~= if st == PullStep::Conflict {
                rels_at(ts, positions(mf, ts, ss, sb, overwrite, PullStep::Conflict, i as nat)).push(ts[i as int].rel@)
            } else {
                rels_at(ts, positions(mf, ts, ss, sb, overwrite, PullStep::Conflict, i as nat))
            });
        }
        i = i + 1;
    }
    PullPlan { report, jobs, in_sync }
}

/// A pull writes over an existing file only when that file is exactly what
/// this device recorded at its last synchronisation and differs from the
/// manifest's version, and never without `overwrite`: a local edit since the
/// last synchronisation is never overwritten.
pub proof fn law_pull_overwrites_only_unedited_files(
    info: FileInfo,
    dest: Option<Seq<char>>,
    len: u64,
    modified_ms: u64,
    base: Option<FileStat>,
    overwrite: bool,
)
    ensures
        pull_step(info, dest, DestState::File { len, modified_ms }, base, overwrite)
            == PullStep::Restore ==> {
            &&& overwrite
            &&& base == Some(FileStat { size: len, modified_ms })
            &&& FileStat { size: len, modified_ms } != remote_stat(info)
        },
{
}

/// The paths of `rels` that the manifest holds, each with the manifest's size
/// and change time.
pub open spec fn in_sync_bases(mf: Map<Seq<char>, FileInfo>, rels: Seq<Seq<char>>) -> Map<
    Seq<char>,
    FileStat,
> {
    Map::new(|k: Seq<char>| rels.contains(k) && mf.contains_key(k), |k: Seq<char>| remote_stat(mf[k]))
}

/// Records, for the entries a pull found already in sync, the manifest's
/// version as this device's last synchronised state.
pub fn record_in_sync(sync: &mut SyncState, manifest: &Manifest, rels: &Vec<String>)
    requires
        old(sync).wf(),
        manifest.wf(),
    ensures
        final(sync).wf(),
        final(sync)@ == old(sync)@.union_prefer_right(in_sync_bases(manifest.files@, str_views(rels@))),
{
    let ghost mf = manifest.files@;
    let ghost start = sync@;
    let mut i: usize = 0;
    proof {
        assert(start.union_prefer_right(in_sync_bases(mf, str_views(rels@.subrange(0, 0)))) =~= start);
    }
    while i < rels.len()
        invariant
            i <= rels@.len(),
            sync.wf(),
            manifest.wf(),
            mf == manifest.files@,
            sync@ == start.union_prefer_right(in_sync_bases(mf, str_views(rels@.subrange(0, i as int)))),
        decreases rels@.len() - i,
    {
        let ghost before = sync@;
        let r = &rels[i];
        match manifest.files.get(r.as_str()) {
            Some(info) => {
                sync.set(r.as_str(), FileStat { size: info.size, modified_ms: info.modified_at });
            },
            None => {},
        }
        proof {
            let a = str_views(rels@.subrange(0, i as int));
            let b = str_views(rels@.subrange(0, i as int + 1));
            assert(b =~= a.push(r@));
            assert forall|k: Seq<char>| b.contains(k) <==> (a.contains(k) || k == r@) by {
                if b.contains(k) {
                    let j = choose|j: int| 0 <= j < b.len() && b[j] == k;
                    if j < a.len() {
                        assert(a[j] == k);
                    }
                }
                if a.contains(k) {
                    let j = choose|j: int| 0 <= j < a.len() && a[j] == k;
                    assert(b[j] == k);
                }
                if k == r@ {
                    assert(b[a.len() as int] == k);
                }
            }
            assert(sync@ =~= start.union_prefer_right(in_sync_bases(mf, b)));
        }
        i = i + 1;
    }
    assert(rels@.subrange(0, rels@.len() as int) =~= rels@);
}

pub open spec fn size_check_message(written: nat, size: nat) -> Seq<char> {
    "geri yüklenen boyut ("@ + dec(written) + ") manifest'teki boyutla ("@ + dec(size) + ") uyuşmuyor"@
}

/// A restored file must have exactly the size the manifest records.
pub fn check_restored_size(written: u64, expected: u64) -> (r: Result<(), String>)
    ensures
        written == expected ==> r is Ok,
        written != expected ==> (r matches Err(m) && m@ == size_check_message(
            written as nat,
            expected as nat,
        )),
{
    if written != expected {
        let mut m = owned("geri yüklenen boyut (");
        push_str(&mut m, u64_to_string(written).as_str());
        push_str(&mut m, ") manifest'teki boyutla (");
        push_str(&mut m, u64_to_string(expected).as_str());
        push_str(&mut m, ") uyuşmuyor");
        return Err(m);
    }
    Ok(())
}

// ---------------------------------------------------------------------------
// The remote manifest
// ---------------------------------------------------------------------------

/// The manifest's file name on Drive; it is also the associated data it is
/// sealed with.
pub const MANIFEST_NAME: &'static str = "manifest.bin";

pub open spec fn no_manifest_message() -> Seq<char> {
    "Drive'da manifest bulunamadı; geri yüklenecek bir şey yok."@
}

/// A pull needs a manifest on Drive: without one it fails before anything
/// is written.
pub fn pull_may_start(index: &DriveIndex) -> (r: Result<(), String>)
    requires
        index.wf(),
    ensures
        (r is Ok) == index@.contains_key(MANIFEST_NAME@),
        r matches Err(m) ==> m@ == no_manifest_message(),
{
    if index.has(MANIFEST_NAME) {
        Ok(())
    } else {
        Err(owned("Drive'da manifest bulunamadı; geri yüklenecek bir şey yok."))
    }
}

/// The salt file's name on Drive.
pub const VAULT_NAME: &'static str = "vault.json";

pub open spec fn schema_message(v: nat) -> Seq<char> {
    "Desteklenmeyen manifest sürümü: "@ + dec(v) + ". Lütfen uygulamayı güncelleyin."@
}

pub open spec fn rollback_message(remote: nat, local: nat) -> Seq<char> {
    "Sunucudaki manifest eski (rollback algılandı). Uzak: "@ + dec(remote) + ", Yerel: "@ + dec(
        local,
    )
}

/// Accepts a downloaded manifest against the highest revision this device
/// has seen: an unknown schema is refused, and so is an older revision (a
/// rollback). On success the manifest's revision becomes the one seen.
pub fn accept_manifest(m: &Manifest, known_revision: u64) -> (r: Result<u64, String>)
    ensures
        m.schema_version != SCHEMA_VERSION ==> (r matches Err(e) && e@ == schema_message(
            m.schema_version as nat,
        )),
        m.schema_version == SCHEMA_VERSION && m.revision < known_revision ==> (r matches Err(e)
            && e@ == rollback_message(m.revision as nat, known_revision as nat)),
        m.schema_version == SCHEMA_VERSION && m.revision >= known_revision ==> r == Ok::<
            u64,
            String,
        >(m.revision),
{
    if m.schema_version != SCHEMA_VERSION {
        let mut e = owned("Desteklenmeyen manifest sürümü: ");
        push_str(&mut e, u64_to_string(m.schema_version as u64).as_str());
        push_str(&mut e, ". Lütfen uygulamayı güncelleyin.");
        return Err(e);
    }
    if m.revision < known_revision {
        let mut e = owned("Sunucudaki manifest eski (rollback algılandı). Uzak: ");
        push_str(&mut e, u64_to_string(m.revision).as_str());
        push_str(&mut e, ", Yerel: ");
        push_str(&mut e, u64_to_string(known_revision).as_str());
        return Err(e);
    }
    Ok(m.revision)
}

/// The revision a saved manifest gets: one more, stopping at the largest.
pub fn next_revision(revision: u64) -> (r: u64)
    ensures
        revision < u64::MAX ==> r == revision + 1,
        revision == u64::MAX ==> r == revision,
{
    revision.saturating_add(1)
}

/// Decrypts the manifest's bytes; a failure stops the sync (a wrong sync
/// code must not let an empty manifest replace the real one).
pub fn open_manifest(keys: &Keys, enc: &[u8]) -> (r: Result<Vec<u8>, String>)
    ensures
        match r {
            Ok(b) => spec_decrypt_chunk(keys.enc_key@, MANIFEST_NAME.spec_bytes(), enc@) == Some(
                b@,
            ),
            Err(_) => spec_decrypt_chunk(keys.enc_key@, MANIFEST_NAME.spec_bytes(), enc@) is None,
        },
{
    match decrypt_chunk(&keys.enc_key, MANIFEST_NAME, enc) {
        Ok(b) => Ok(b),
        Err(e) => {
            let mut m = owned(
                "Manifest çözülemedi (sync code yanlış olabilir veya dosya bozuk), sync durduruldu: ",
            );
            push_str(&mut m, e.as_str());
            Err(m)
        },
    }
}

/// Seals the manifest's bytes for upload; what comes back opens to them.
pub fn seal_manifest(keys: &Keys, bin: &[u8]) -> (r: Result<Vec<u8>, String>)
    ensures
        r matches Ok(enc) ==> spec_decrypt_chunk(keys.enc_key@, MANIFEST_NAME.spec_bytes(), enc@)
            == Some(bin@),
        bin@.len() > AEAD_MAX ==> r is Err,
        r matches Err(m) ==> exists|e: Seq<char>|
            m@ == "Manifest şifrelenemedi: "@ + e && (nonce_failure(e) || (bin@.len() > AEAD_MAX
                && exists|c: Seq<char>| e == "Şifreleme hatası: "@ + c)),
{
    proof {
        reveal_strlit("manifest.bin");
    }
    match encrypt_chunk(&keys.enc_key, MANIFEST_NAME, bin) {
        Ok(enc) => Ok(enc),
        Err(e) => {
            let mut m = owned("Manifest şifrelenemedi: ");
            push_str(&mut m, e.as_str());
            assert(m@ == "Manifest şifrelenemedi: "@ + e@);
            proof {
                assert(vstd::utf8::is_ascii_chars(MANIFEST_NAME@));
                vstd::utf8::is_ascii_chars_encode_utf8(MANIFEST_NAME@);
                assert(MANIFEST_NAME.spec_bytes().len() <= AEAD_MAX);
                assert(m@ == "Manifest şifrelenemedi: "@ + e@ && (nonce_failure(e@) || (bin@.len()
                    > AEAD_MAX && exists|c: Seq<char>| e@ == "Şifreleme hatası: "@ + c)));
            }
            Err(m)
        },
    }
}

// ---------------------------------------------------------------------------
// The salt file
// ---------------------------------------------------------------------------

/// A new salt for a sync folder: 32 bytes from the system's random source,
/// which is the only thing that can fail.
pub fn fresh_salt() -> (r: Result<[u8; 32], String>)
    ensures
        r matches Err(m) ==> exists|e: Seq<char>| m@ == "Salt üretilemedi: "@ + e,
{
    match random_bytes(32) {
        Ok(b) => {
            let mut out = [0u8; 32];
            let mut i: usize = 0;
            while i < 32
                invariant
                    i <= 32,
                    b@.len() == 32,
                decreases 32 - i,
            {
                out[i] = b[i];
                i = i + 1;
            }
            Ok(out)
        },
        Err(e) => {
            let mut m = owned("Salt üretilemedi: ");
            push_str(&mut m, e.as_str());
            assert(m@ == "Salt üretilemedi: "@ + e@);
            Err(m)
        },
    }
}

pub open spec fn salt_size_message(n: nat) -> Seq<char> {
    "vault.json salt boyutu hatalı: "@ + dec(n)
}

/// The folder's salt from the `salt` field of `vault.json`: 32 bytes written
/// as hexadecimal.
pub fn salt_from_vault(field: Option<&str>) -> (r: Result<[u8; 32], String>)
    ensures
        field is None ==> (r matches Err(m) && m@ == "vault.json 'salt' alanı eksik"@),
        field matches Some(f) ==> match hex_decode(f.spec_bytes()) {
            None => r is Err,
            Some(b) => if b.len() == 32 {
                r matches Ok(s) && s@ == b
            } else {
                r matches Err(m) && m@ == salt_size_message(b.len())
            },
        },
{
    let f = match field {
        Some(f) => f,
        None => {
            return Err(owned("vault.json 'salt' alanı eksik"));
        },
    };
    let bytes = match hex_decode_str(f) {
        Ok(b) => b,
        Err(e) => {
            let mut m = owned("vault.json salt hex decode hatası: ");
            push_str(&mut m, e.as_str());
            return Err(m);
        },
    };
    if bytes.len() != 32 {
        let mut m = owned("vault.json salt boyutu hatalı: ");
        push_str(&mut m, u64_to_string(bytes.len() as u64).as_str());
        return Err(m);
    }
    let mut out = [0u8; 32];
    let mut i: usize = 0;
    while i < 32
        invariant
            bytes@.len() == 32,
            i <= 32,
            forall|j: int| 0 <= j < i ==> out@[j] == bytes@[j],
        decreases 32 - i,
    {
        out[i] = bytes[i];
        i = i + 1;
    }
    assert(out@ =~= bytes@);
    Ok(out)
}

pub open spec fn vault_text(salt: Seq<u8>) -> Seq<char> {
    "{\"salt\":\""@ + hex_lower(salt) + "\"}"@
}

/// The content of a new `vault.json`: `{"salt":"<hex>"}`.
pub fn vault_json(salt: &[u8; 32]) -> (r: String)
    ensures
        r@ == vault_text(salt@),
{
    let mut s = owned("{\"salt\":\"");
    push_str(&mut s, to_hex(salt.as_slice()).as_str());
    push_str(&mut s, "\"}");
    s
}

/// The salt written into a new `vault.json` is what reading its `salt`
/// field gives back: its hexadecimal text decodes to the same 32 bytes.
pub proof fn law_vault_salt_round_trips(salt: [u8; 32], field: &str)
    requires
        field@ == hex_lower(salt@),
    ensures
        hex_decode(field.spec_bytes()) == Some(salt@),
        salt@.len() == 32,
{
    crate::codec::law_hex_round_trips(salt@);
}

// ---------------------------------------------------------------------------
// Garbage collection
// ---------------------------------------------------------------------------

/// Orphan chunks younger than this are left alone: another device may be
/// uploading the file they belong to.
pub const GC_MIN_AGE_SECS: u64 = 86400;

/// Seconds and nanoseconds since the Unix epoch of an RFC 3339 time, as
/// `chrono` parses it.
pub uninterp spec fn rfc3339_instant(s: Seq<char>) -> Option<(i64, u32)>;

/// `chrono::DateTime::parse_from_rfc3339`, reduced to the instant it names.
#[verifier::external_body]
fn parse_rfc3339(s: &str) -> (r: Option<(i64, u32)>)
    ensures
        r == rfc3339_instant(s@),
{
    match chrono::DateTime::parse_from_rfc3339(s) {
        Ok(dt) => Some((dt.timestamp(), dt.timestamp_subsec_nanos())),
        Err(_) => None,
    }
}

pub open spec fn instant_nanos(secs: int, nanos: int) -> int {
    secs * 1_000_000_000 + nanos
}

/// Was a file created more than a day before `now` (in nanoseconds since
/// the epoch)? A file without a creation time counts as old; one whose time
/// does not parse, or lies in the future, does not.
pub open spec fn old_enough(created: Option<String>, now: int) -> bool {
    match created {
        None => true,
        Some(t) => match rfc3339_instant(t@) {
            None => false,
            Some((s, n)) => {
                let age = now - instant_nanos(s as int, n as int);
                age >= 0 && age / 1_000_000_000 > GC_MIN_AGE_SECS
            },
        },
    }
}

/// Does the manifest refer to a chunk of this file name?
pub open spec fn is_live(mf: Map<Seq<char>, FileInfo>, name: Seq<char>) -> bool {
    exists|k: Seq<char>, i: int|
        #![trigger mf[k].chunks@[i]]
        mf.contains_key(k) && 0 <= i < mf[k].chunks@.len() && hex_lower(mf[k].chunks@[i]@) == name
}

pub open spec fn gc_deletes(mf: Map<Seq<char>, FileInfo>, f: IndexedFile, now: int) -> bool {
    &&& f.name@ != MANIFEST_NAME@
    &&& f.name@ != VAULT_NAME@
    &&& !is_live(mf, f.name@)
    &&& old_enough(f.created_time, now)
}

/// Positions, among the first `n` files, that garbage collection deletes.
pub open spec fn gc_positions(
    mf: Map<Seq<char>, FileInfo>,
    files: Seq<IndexedFile>,
    now: int,
    n: nat,
) -> Seq<int>
    decreases n,
{
    if n == 0 {
        Seq::empty()
    } else {
        let p = gc_positions(mf, files, now, (n - 1) as nat);
        if gc_deletes(mf, files[n - 1], now) {
            p.push(n - 1)
        } else {
            p
        }
    }
}

proof fn lemma_gc_positions_contains(
    mf: Map<Seq<char>, FileInfo>,
    files: Seq<IndexedFile>,
    now: int,
    n: nat,
    i: int,
)
    requires
        0 <= i < n,
    ensures
        gc_positions(mf, files, now, n).contains(i) == gc_deletes(mf, files[i], now),
    decreases n,
{
    let p = gc_positions(mf, files, now, (n - 1) as nat);
    lemma_gc_positions_below(mf, files, now, (n - 1) as nat);
    if i < n - 1 {
        lemma_gc_positions_contains(mf, files, now, (n - 1) as nat, i);
        if gc_deletes(mf, files[n - 1], now) {
            assert(gc_positions(mf, files, now, n) == p.push(n - 1));
            if p.contains(i) {
                let j = choose|j: int| 0 <= j < p.len() && p[j] == i;
                assert(p.push(n - 1)[j] == i);
            }
            let q = p.push(n - 1);
            if q.contains(i) {
                let j = choose|j: int| 0 <= j < q.len() && q[j] == i;
                assert(j < p.len());
                assert(p[j] == i);
            }
        }
    } else {
        if gc_deletes(mf, files[n - 1], now) {
            assert(gc_positions(mf, files, now, n)[p.len() as int] == i);
        } else {
            if p.contains(i) {
                let j = choose|j: int| 0 <= j < p.len() && p[j] == i;
                assert(p[j] < n - 1);
            }
        }
    }
}

proof fn lemma_gc_positions_below(
    mf: Map<Seq<char>, FileInfo>,
    files: Seq<IndexedFile>,
    now: int,
    n: nat,
)
    ensures
        forall|j: int|
            0 <= j < gc_positions(mf, files, now, n).len() ==> 0 <= #[trigger] gc_positions(
                mf,
                files,
                now,
                n,
            )[j] < n,
    decreases n,
{
    if n > 0 {
        lemma_gc_positions_below(mf, files, now, (n - 1) as nat);
        let p = gc_positions(mf, files, now, (n - 1) as nat);
        assert forall|j: int| 0 <= j < gc_positions(mf, files, now, n).len() implies 0
            <= #[trigger] gc_positions(mf, files, now, n)[j] < n by {
            if j < p.len() {
                assert(gc_positions(mf, files, now, n)[j] == p[j]);
            }
        }
    }
}

/// Garbage collection deletes a file of the Drive folder exactly when it is
/// neither `manifest.bin` nor `vault.json`, no manifest entry lists it among
/// its chunks, and it has no creation time or one that parses and lies at
/// least 86401 whole seconds (more than a day) before `now`, in nanoseconds
/// since the epoch. A younger orphan, or one whose time does not parse, is
/// kept.
pub proof fn law_gc_deletes_exactly_old_orphans(
    mf: Map<Seq<char>, FileInfo>,
    files: Seq<IndexedFile>,
    now: int,
    i: int,
)
    requires
        0 <= i < files.len(),
    ensures
        gc_positions(mf, files, now, files.len()).contains(i) <==> {
            let f = files[i];
            &&& f.name@ != "manifest.bin"@
            &&& f.name@ != "vault.json"@
            &&& forall|k: Seq<char>, c: int|
                #![trigger mf[k].chunks@[c]]
                mf.contains_key(k) && 0 <= c < mf[k].chunks@.len() ==> hex_lower(
                    mf[k].chunks@[c]@,
                ) != f.name@
            &&& match f.created_time {
                None => true,
                Some(t) => match rfc3339_instant(t@) {
                    None => false,
                    Some((s, n)) => now - (s * 1_000_000_000 + n) >= 86_401_000_000_000,
                },
            }
        },
{
    lemma_gc_positions_contains(mf, files, now, files.len(), i);
    let f = files[i];
    match f.created_time {
        None => {},
        Some(t) => match rfc3339_instant(t@) {
            None => {},
            Some((s, n)) => {
                let age = now - instant_nanos(s as int, n as int);
                assert(age == now - (s * 1_000_000_000 + n));
                assert((age >= 0 && age / 1_000_000_000 > 86400) == (age >= 86_401_000_000_000))
                    by (nonlinear_arith);
            },
        },
    }
}

/// The chunk file names the manifest refers to.
fn live_names(manifest: &Manifest) -> (r: Vec<String>)
    requires
        manifest.wf(),
    ensures
        forall|x: Seq<char>| #[trigger] str_views(r@).contains(x) <==> is_live(manifest.files@, x),
{
    let ghost mf = manifest.files@;
    let ghost keys = manifest.files.key_order();
    proof {
        manifest.files.lemma_view();
    }
    let mut r: Vec<String> = Vec::new();
    let n = manifest.files.len();
    let mut i: usize = 0;
    while i < n
        invariant
            manifest.wf(),
            mf == manifest.files@,
            keys == manifest.files.key_order(),
            n == keys.len(),
            i <= n,
            forall|k: Seq<char>| #[trigger] mf.contains_key(k) <==> keys.contains(k),
            forall|x: Seq<char>|
                #[trigger] str_views(r@).contains(x) <==> exists|a: int, c: int|
                    #![trigger mf[keys[a]].chunks@[c]]
                    0 <= a < i && 0 <= c < mf[keys[a]].chunks@.len() && hex_lower(
                        mf[keys[a]].chunks@[c]@,
                    ) == x,
        decreases n - i,
    {
        let (k, info) = manifest.files.entry(i);
        let mut c: usize = 0;
        while c < info.chunks.len()
            invariant
                i < n,
                k@ == keys[i as int],
                mf.contains_key(k@),
                mf[k@] == *info,
                c <= info.chunks@.len(),
                forall|x: Seq<char>|
                    #[trigger] str_views(r@).contains(x) <==> (exists|a: int, cc: int|
                        #![trigger mf[keys[a]].chunks@[cc]]
                        0 <= a < i && 0 <= cc < mf[keys[a]].chunks@.len() && hex_lower(
                            mf[keys[a]].chunks@[cc]@,
                        ) == x) || (exists|cc: int|
                        0 <= cc < c && hex_lower(#[trigger] info.chunks@[cc]@) == x),
            decreases info.chunks@.len() - c,
        {
            let name = to_hex(info.chunks[c].as_slice());
            let ghost before = str_views(r@);
            r.push(name);
            proof {
                assert(str_views(r@) =~= before.push(hex_lower(info.chunks@[c as int]@)));
                assert forall|x: Seq<char>| #[trigger] str_views(r@).contains(x) <==> (exists|
                    a: int,
                    cc: int,
                |
                    #![trigger mf[keys[a]].chunks@[cc]]
                    0 <= a < i && 0 <= cc < mf[keys[a]].chunks@.len() && hex_lower(
                        mf[keys[a]].chunks@[cc]@,
                    ) == x) || (exists|cc: int|
                    0 <= cc < c + 1 && hex_lower(#[trigger] info.chunks@[cc]@) == x) by {
                    if str_views(r@).contains(x) {
                        let j = choose|j: int| 0 <= j < str_views(r@).len() && str_views(r@)[j] == x;
                        if j < before.len() {
                            assert(before[j] == x);
                            assert(before.contains(x));
                        } else {
                            assert(hex_lower(info.chunks@[c as int]@) == x);
                        }
                    }
                    if exists|cc: int| 0 <= cc < c + 1 && hex_lower(#[trigger] info.chunks@[cc]@) == x {
                        let cc = choose|cc: int| 0 <= cc < c + 1 && hex_lower(#[trigger] info.chunks@[cc]@) == x;
                        if cc == c {
                            assert(str_views(r@)[before.len() as int] == x);
                        } else {
                            assert(before.contains(x));
                            let j = choose|j: int| 0 <= j < before.len() && before[j] == x;
                            assert(str_views(r@)[j] == x);
                        }
                    }
                    if exists|a: int, cc: int|
                        #![trigger mf[keys[a]].chunks@[cc]]
                        0 <= a < i && 0 <= cc < mf[keys[a]].chunks@.len() && hex_lower(
                            mf[keys[a]].chunks@[cc]@,
                        ) == x {
                        assert(before.contains(x));
                        let j = choose|j: int| 0 <= j < before.len() && before[j] == x;
                        assert(str_views(r@)[j] == x);
                    }
                }
            }
            c = c + 1;
        }
        proof {
            assert forall|x: Seq<char>| #[trigger] str_views(r@).contains(x) <==> exists|a: int, cc: int|
                #![trigger mf[keys[a]].chunks@[cc]]
                0 <= a < i + 1 && 0 <= cc < mf[keys[a]].chunks@.len() && hex_lower(
                    mf[keys[a]].chunks@[cc]@,
                ) == x by {
                if exists|cc: int| 0 <= cc < c && hex_lower(#[trigger] info.chunks@[cc]@) == x {
                    let cc = choose|cc: int| 0 <= cc < c && hex_lower(#[trigger] info.chunks@[cc]@) == x;
                    assert(mf[keys[i as int]].chunks@[cc] == info.chunks@[cc]);
                }
                if exists|a: int, cc: int|
                    #![trigger mf[keys[a]].chunks@[cc]]
                    0 <= a < i + 1 && 0 <= cc < mf[keys[a]].chunks@.len() && hex_lower(
                        mf[keys[a]].chunks@[cc]@,
                    ) == x {
                    let (a, cc) = choose|a: int, cc: int|
                        #![trigger mf[keys[a]].chunks@[cc]]
                        0 <= a < i + 1 && 0 <= cc < mf[keys[a]].chunks@.len() && hex_lower(
                            mf[keys[a]].chunks@[cc]@,
                        ) == x;
                    if a == i {
                        assert(hex_lower(info.chunks@[cc]@) == x);
                    }
                }
            }
        }
        i = i + 1;
    }
    proof {
        assert forall|x: Seq<char>| #[trigger] str_views(r@).contains(x) <==> is_live(mf, x) by {
            if is_live(mf, x) {
                let (k, c) = choose|k: Seq<char>, c: int|
                    #![trigger mf[k].chunks@[c]]
                    mf.contains_key(k) && 0 <= c < mf[k].chunks@.len() && hex_lower(mf[k].chunks@[c]@)
                        == x;
                assert(keys.contains(k));
                let a = choose|a: int| 0 <= a < keys.len() && keys[a] == k;
                assert(mf[keys[a]].chunks@[c] == mf[k].chunks@[c]);
            }
            if str_views(r@).contains(x) {
                let (a, c) = choose|a: int, c: int|
                    #![trigger mf[keys[a]].chunks@[c]]
                    0 <= a < n && 0 <= c < mf[keys[a]].chunks@.len() && hex_lower(
                        mf[keys[a]].chunks@[c]@,
                    ) == x;
                assert(keys.contains(keys[a]));
                assert(mf.contains_key(keys[a]));
            }
        }
    }
    r
}

fn listed(names: &Vec<String>, x: &str) -> (r: bool)
    ensures
        r == str_views(names@).contains(x@),
{
    let mut i: usize = 0;
    while i < names.len()
        invariant
            i <= names@.len(),
            forall|j: int| 0 <= j < i ==> names@[j]@ != x@,
        decreases names@.len() - i,
    {
        if str_eq(names[i].as_str(), x) {
            assert(str_views(names@)[i as int] == x@);
            return true;
        }
        i = i + 1;
    }
    proof {
        if str_views(names@).contains(x@) {
            let j = choose|j: int| 0 <= j < str_views(names@).len() && str_views(names@)[j] == x@;
            assert(names@[j]@ == x@);
        }
    }
    false
}

/// Is the file at least a day older than `now`?
fn created_long_ago(created: &Option<String>, now_secs: u64, now_nanos: u32) -> (r: bool)
    requires
        now_nanos < 1_000_000_000,
    ensures
        r == old_enough(*created, instant_nanos(now_secs as int, now_nanos as int)),
{
    match created {
        None => true,
        Some(t) => match parse_rfc3339(t.as_str()) {
            None => false,
            Some((s, n)) => {
                let now: i128 = (now_secs as i128) * 1_000_000_000 + (now_nanos as i128);
                let then: i128 = (s as i128) * 1_000_000_000 + (n as i128);
                let age: i128 = now - then;
                age >= 0 && age / 1_000_000_000 > GC_MIN_AGE_SECS as i128
            },
        },
    }
}

/// Which files of the Drive folder garbage collection deletes: chunks that
/// no manifest entry refers to and that are more than a day old (or carry
/// no creation time). The manifest and the salt file are never deleted.
/// `now` is the current time since the Unix epoch.
pub fn gc_victims(manifest: &Manifest, files: &Vec<IndexedFile>, now_secs: u64, now_nanos: u32) -> (r:
    Vec<usize>)
    requires
        manifest.wf(),
        now_nanos < 1_000_000_000,
    ensures
        r@.len() == gc_positions(
            manifest.files@,
            files@,
            instant_nanos(now_secs as int, now_nanos as int),
            files@.len(),
        ).len(),
        forall|j: int|
            0 <= j < r@.len() ==> (#[trigger] r@[j]) as int == gc_positions(
                manifest.files@,
                files@,
                instant_nanos(now_secs as int, now_nanos as int),
                files@.len(),
            )[j],
{
    let live = live_names(manifest);
    let ghost now = instant_nanos(now_secs as int, now_nanos as int);
    let ghost mf = manifest.files@;
    let mut r: Vec<usize> = Vec::new();
    let mut i: usize = 0;
    while i < files.len()
        invariant
            mf == manifest.files@,
            now == instant_nanos(now_secs as int, now_nanos as int),
            now_nanos < 1_000_000_000,
            forall|x: Seq<char>| #[trigger] str_views(live@).contains(x) <==> is_live(mf, x),
            i <= files@.len(),
            r@.len() == gc_positions(mf, files@, now, i as nat).len(),
            forall|j: int|
                0 <= j < r@.len() ==> (#[trigger] r@[j]) as int == gc_positions(
                    mf,
                    files@,
                    now,
                    i as nat,
                )[j],
        decreases files@.len() - i,
    {
        let f = &files[i];
        let keep = str_eq(f.name.as_str(), MANIFEST_NAME) || str_eq(f.name.as_str(), VAULT_NAME)
            || listed(&live, f.name.as_str());
        if !keep && created_long_ago(&f.created_time, now_secs, now_nanos) {
            r.push(i);
        }
        i = i + 1;
    }
    r
}

// ---------------------------------------------------------------------------
// Files the sync leaves out
// ---------------------------------------------------------------------------

/// Extension of the temporary files a pull writes before renaming them.
pub const PART_EXTENSION: &'static str = "connectsync-part";

/// The file that keeps the last manifest revision this device saw.
pub const REVISION_FILE: &'static str = ".connectsync-revision";

/// A revision written to the revision file in decimal reads back as the
/// same revision, so a restart keeps the rollback guard.
pub proof fn law_revision_file_round_trips(n: u64)
    ensures
        (match parse_u64(trim(dec(n as nat))) {
            Some(m) => m,
            None => 0,
        }) == n,
{
    crate::text::lemma_dec(n as nat);
    let d = dec(n as nat);
    assert(crate::text::is_digit(d[0]));
    assert(crate::text::is_digit(d.last()));
    crate::text::lemma_trim_nothing(d);
}

/// The revision this device last saw, read back from the revision file's
/// text: the number it holds (white space around it ignored), 0 when the
/// file is missing or holds no number.
pub fn saved_revision(text: Option<&str>) -> (r: u64)
    ensures
        r == match text {
            Some(t) => match parse_u64(trim(t@)) {
                Some(n) => n,
                None => 0,
            },
            None => 0,
        },
{
    match text {
        Some(t) => match parse_u64_chars(trim_chars(chars_of(t).as_slice()).as_slice()) {
            Some(n) => n,
            None => 0,
        },
        None => 0,
    }
}

/// A file of the sync's own below the sync folder `root`: a partial
/// download, a revision file, or the per-device state file at the folder's
/// root (a file of that name deeper down is an ordinary file). The folder
/// scan and the change watcher skip them (a watcher reacting to the pull's
/// own temporary files would never rest).
pub open spec fn spec_is_internal_file(root: Seq<char>, p: Seq<char>) -> bool {
    ||| extension(p) == Some(PART_EXTENSION@)
    ||| file_name(p) == Some(REVISION_FILE@)
    ||| spec_rel_path(root, p) == Some(STATE_FILE@)
}

pub fn is_internal_file(root: &str, p: &str) -> (r: bool)
    ensures
        r == spec_is_internal_file(root@, p@),
{
    let c = chars_of(p);
    let (_, ext) = stem_and_extension(c.as_slice());
    let part = match ext {
        Some(e) => is_text(e.as_slice(), PART_EXTENSION),
        None => false,
    };
    if part {
        return true;
    }
    let revision = match file_name_chars(c.as_slice()) {
        Some(n) => is_text(n.as_slice(), REVISION_FILE),
        None => false,
    };
    if revision {
        return true;
    }
    match rel_path_string(root, p) {
        Some(rel) => str_eq(rel.as_str(), STATE_FILE),
        None => false,
    }
}

/// Where a pull writes a file before moving it into place: the same name
/// with `.connectsync-part` added, beside it.
pub open spec fn spec_tmp_path(dest: Seq<char>) -> Seq<char> {
    let name = match file_name(dest) {
        Some(n) => n,
        None => "file"@,
    };
    with_file_name(dest, name + "."@ + PART_EXTENSION@)
}

pub fn tmp_path(dest: &str) -> (r: String)
    ensures
        r@ == spec_tmp_path(dest@),
{
    let c = chars_of(dest);
    let mut name = match file_name_chars(c.as_slice()) {
        Some(n) => string_of(n.as_slice()),
        None => owned("file"),
    };
    push_str(&mut name, ".");
    push_str(&mut name, PART_EXTENSION);
    string_of(with_file_name_chars(c.as_slice(), chars_of(name.as_str()).as_slice()).as_slice())
}

} // verus!
