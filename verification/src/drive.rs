//! The Google Drive side of a sync, without the HTTP transport: the cache of
//! the files in a sync folder, the retry policy for requests, the request
//! bodies and queries the client builds, and what a folder's metadata means.

use vstd::prelude::*;
use vstd::string::StringSliceAdditionalSpecFns;
use crate::strmap::StrMap;
use crate::text::{
    chars_eq, chars_of, chars_starts_with, dec, owned, parse_u64, parse_u64_chars, push_char,
    push_str, slice_chars, starts_with, string_of, trim, trim_chars, u64_to_string,
};
use vstd::utf8::encode_utf8;

verus! {

// ---------------------------------------------------------------------------
// The folder index
// ---------------------------------------------------------------------------

/// One file of the sync folder as Drive listed it.
pub struct IndexEntry {
    pub id: String,
    /// RFC 3339 creation time; absent for files this process uploaded.
    pub created_time: Option<String>,
}

/// A file of the index with its name, as garbage collection walks them.
pub struct IndexedFile {
    pub name: String,
    pub id: String,
    pub created_time: Option<String>,
}

/// File name → Drive file of the sync folder. Where Drive holds several files
/// of one name, the first listed stays.
pub struct DriveIndex {
    files: StrMap<IndexEntry>,
}

impl DriveIndex {
    pub closed spec fn wf(&self) -> bool {
        self.files.wf()
    }

    pub closed spec fn view(&self) -> Map<Seq<char>, IndexEntry> {
        self.files@
    }

    /// The names in the order they entered the index.
    pub closed spec fn names(&self) -> Seq<Seq<char>> {
        self.files.key_order()
    }

    pub fn new() -> (r: Self)
        ensures
            r.wf(),
            r@ == Map::<Seq<char>, IndexEntry>::empty(),
    {
        DriveIndex { files: StrMap::new() }
    }

    /// Adds a listed file unless a file of that name is already indexed.
    pub fn add_listed(&mut self, name: String, entry: IndexEntry)
        requires
            old(self).wf(),
        ensures
            final(self).wf(),
            old(self)@.contains_key(name@) ==> final(self)@ == old(self)@,
            !old(self)@.contains_key(name@) ==> final(self)@ == old(self)@.insert(name@, entry),
    {
        self.files.insert_if_absent(name, entry);
    }

    /// Records a file this process created under `name` (an existing entry
    /// of that name stays).
    pub fn add_created(&mut self, name: &str, id: String)
        requires
            old(self).wf(),
        ensures
            final(self).wf(),
            old(self)@.contains_key(name@) ==> final(self)@ == old(self)@,
            !old(self)@.contains_key(name@) ==> final(self)@ == old(self)@.insert(
                name@,
                IndexEntry { id, created_time: None },
            ),
    {
        self.files.insert_if_absent(owned(name), IndexEntry { id, created_time: None });
    }

    /// Records the file that now holds `name`, replacing any entry.
    pub fn set_file(&mut self, name: &str, id: String)
        requires
            old(self).wf(),
        ensures
            final(self).wf(),
            final(self)@ == old(self)@.insert(name@, IndexEntry { id, created_time: None }),
    {
        self.files.insert(owned(name), IndexEntry { id, created_time: None });
    }

    pub fn len(&self) -> (r: usize)
        requires
            self.wf(),
        ensures
            r == self@.len(),
    {
        proof {
            self.files.lemma_view();
        }
        self.files.len()
    }

    /// Is a file of this name in the folder?
    pub fn has(&self, name: &str) -> (r: bool)
        requires
            self.wf(),
        ensures
            r == self@.contains_key(name@),
    {
        self.files.contains_key(name)
    }

    /// The Drive id of the file called `name`.
    pub fn file_id(&self, name: &str) -> (r: Option<String>)
        requires
            self.wf(),
        ensures
            match r {
                Some(id) => self@.contains_key(name@) && id@ == self@[name@].id@,
                None => !self@.contains_key(name@),
            },
    {
        match self.files.get(name) {
            Some(e) => Some(e.id.clone()),
            None => None,
        }
    }

    /// Every (name, id) pair.
    pub fn all_names(&self) -> (r: Vec<(String, String)>)
        requires
            self.wf(),
        ensures
            r@.len() == self.names().len(),
            forall|i: int|
                0 <= i < r@.len() ==> (#[trigger] r@[i]).0@ == self.names()[i] && r@[i].1@
                    == self@[self.names()[i]].id@,
    {
        let mut r: Vec<(String, String)> = Vec::new();
        let n = self.files.len();
        proof {
            self.files.lemma_view();
        }
        let mut i: usize = 0;
        while i < n
            invariant
                self.wf(),
                n == self.names().len(),
                i <= n,
                r@.len() == i,
                forall|j: int|
                    0 <= j < i ==> (#[trigger] r@[j]).0@ == self.names()[j] && r@[j].1@
                        == self@[self.names()[j]].id@,
            decreases n - i,
        {
            let (k, e) = self.files.entry(i);
            r.push((k.clone(), e.id.clone()));
            i = i + 1;
        }
        r
    }

    /// Every file with its name, id and creation time.
    pub fn all_files_info(&self) -> (r: Vec<IndexedFile>)
        requires
            self.wf(),
        ensures
            r@.len() == self.names().len(),
            forall|i: int|
                0 <= i < r@.len() ==> {
                    let e = self@[self.names()[i]];
                    &&& (#[trigger] r@[i]).name@ == self.names()[i]
                    &&& r@[i].id@ == e.id@
                    &&& r@[i].created_time == e.created_time
                },
    {
        let mut r: Vec<IndexedFile> = Vec::new();
        let n = self.files.len();
        proof {
            self.files.lemma_view();
        }
        let mut i: usize = 0;
        while i < n
            invariant
                self.wf(),
                n == self.names().len(),
                i <= n,
                r@.len() == i,
                forall|j: int|
                    0 <= j < i ==> {
                        let e = self@[self.names()[j]];
                        &&& (#[trigger] r@[j]).name@ == self.names()[j]
                        &&& r@[j].id@ == e.id@
                        &&& r@[j].created_time == e.created_time
                    },
            decreases n - i,
        {
            let (k, e) = self.files.entry(i);
            let created_time = match &e.created_time {
                Some(t) => Some(t.clone()),
                None => None,
            };
            r.push(IndexedFile { name: k.clone(), id: e.id.clone(), created_time });
            i = i + 1;
        }
        r
    }
}

// ---------------------------------------------------------------------------
// Errors
// ---------------------------------------------------------------------------

#[verifier::external_type_specification]
#[verifier::external_body]
pub struct ExReqwestError(reqwest::Error);

#[derive(Debug)]
pub enum DriveError {
    Http(reqwest::Error),
    Api { status: u16, body: String },
    Auth(String),
    Protocol(String),
}

/// Did Drive answer "no such file" (404)? A deleted folder is told apart
/// from a network or permission failure by this alone.
pub fn is_not_found(e: &DriveError) -> (r: bool)
    ensures
        r == (e matches DriveError::Api { status, .. } && status == 404),
{
    match e {
        DriveError::Api { status, .. } => *status == 404,
        _ => false,
    }
}

/// `reqwest::Error`'s `Display` text; its wording is not stated.
#[verifier::external_body]
fn http_error_text(e: &reqwest::Error) -> (r: String) {
    e.to_string()
}

impl DriveError {
    /// The error as the user reads it.
    pub fn message(&self) -> (r: String)
        ensures
            self matches DriveError::Api { status, body } ==> r@ == "Drive API hatası ("@ + dec(
                status as nat,
            ) + "): "@ + body@,
            self matches DriveError::Auth(m) ==> r@ == "Yetkilendirme hatası: "@ + m@,
            self matches DriveError::Protocol(m) ==> r@ == "Beklenmeyen yanıt: "@ + m@,
    {
        match self {
            DriveError::Http(e) => {
                let mut r = owned("HTTP hatası: ");
                push_str(&mut r, http_error_text(e).as_str());
                r
            },
            DriveError::Api { status, body } => {
                let mut r = owned("Drive API hatası (");
                push_str(&mut r, u64_to_string(*status as u64).as_str());
                push_str(&mut r, "): ");
                push_str(&mut r, body.as_str());
                r
            },
            DriveError::Auth(m) => {
                let mut r = owned("Yetkilendirme hatası: ");
                push_str(&mut r, m.as_str());
                r
            },
            DriveError::Protocol(m) => {
                let mut r = owned("Beklenmeyen yanıt: ");
                push_str(&mut r, m.as_str());
                r
            },
        }
    }
}

// ---------------------------------------------------------------------------
// Retry policy
// ---------------------------------------------------------------------------

/// Retries of a request that Drive answered with a retryable status.
pub const MAX_RETRIES: u32 = 6;
/// Retries while the network is down (time-outs, refused connections):
/// many more, at short intervals.
pub const NET_MAX_RETRIES: u32 = 120;
/// Times a download whose body broke off is fetched again.
pub const BODY_READ_RETRIES: u32 = 5;
/// Wait before fetching such a download again, in milliseconds.
pub const BODY_RETRY_WAIT_MS: u64 = 2000;

/// A download's body broke off after `attempts` earlier breaks: fetch it
/// again after a wait, showing `attempts + 1` as the retry in progress, or
/// give up.
pub fn body_retry(attempts: u32) -> (r: Option<(u32, u64)>)
    ensures
        attempts < BODY_READ_RETRIES ==> r == Some(((attempts + 1) as u32, BODY_RETRY_WAIT_MS)),
        attempts >= BODY_READ_RETRIES ==> r is None,
{
    if attempts < BODY_READ_RETRIES {
        Some((attempts + 1, BODY_RETRY_WAIT_MS))
    } else {
        None
    }
}

/// Longest wait a `Retry-After` header can ask for, in seconds.
pub const RETRY_AFTER_MAX_SECS: u64 = 120;
/// Longest error body kept, in characters.
pub const ERROR_BODY_MAX: usize = 500;

pub open spec fn is_server_error(status: u16) -> bool {
    500 <= status <= 599
}

/// Does `text` occur in `s`?
pub open spec fn occurs_in(s: Seq<char>, text: Seq<char>) -> bool {
    exists|i: int| 0 <= i <= s.len() - text.len() && #[trigger] s.subrange(i, i + text.len()) == text
}

/// Too many requests, a server error, or Drive's rate limit reported as 403
/// (`rateLimitExceeded`, `userRateLimitExceeded`).
pub open spec fn spec_is_retryable(status: u16, body: Seq<char>) -> bool {
    status == 429 || is_server_error(status) || (status == 403 && occurs_in(
        body,
        "ateLimitExceeded"@,
    ))
}

pub fn contains_text(s: &[char], t: &[char]) -> (r: bool)
    ensures
        r == occurs_in(s@, t@),
{
    if t.len() == 0 {
        assert(s@.subrange(0, 0 + t@.len() as int) =~= t@);
        assert(occurs_in(s@, t@));
        return true;
    }
    if t.len() > s.len() {
        return false;
    }
    let mut i: usize = 0;
    while t.len() <= s.len() - i
        invariant
            1 <= t@.len() <= s@.len(),
            i <= s@.len(),
            i <= s@.len() - t@.len() + 1,
            forall|j: int| 0 <= j < i ==> #[trigger] s@.subrange(j, j + t@.len()) != t@,
        decreases s@.len() - i,
    {
        let piece = slice_chars(s, i, i + t.len());
        if chars_eq(piece.as_slice(), t) {
            return true;
        }
        i = i + 1;
    }
    false
}

/// Is an answer with this status worth retrying?
pub fn is_retryable(status: u16, body: &str) -> (r: bool)
    ensures
        r == spec_is_retryable(status, body@),
{
    if status == 429 || (500 <= status && status <= 599) {
        return true;
    }
    status == 403 && contains_text(chars_of(body).as_slice(), chars_of("ateLimitExceeded").as_slice())
}

/// The wait a `Retry-After` header asks for, in whole seconds, capped at two
/// minutes; `None` when the value is not a number of seconds.
pub fn retry_after_secs(value: &str) -> (r: Option<u64>)
    ensures
        match parse_u64(value@) {
            Some(n) => r == Some(if n > RETRY_AFTER_MAX_SECS {
                RETRY_AFTER_MAX_SECS
            } else {
                n
            }),
            None => r is None,
        },
{
    match parse_u64_chars(chars_of(value).as_slice()) {
        Some(n) => Some(if n > RETRY_AFTER_MAX_SECS {
            RETRY_AFTER_MAX_SECS
        } else {
            n
        }),
        None => None,
    }
}

pub open spec fn pow2(e: nat) -> nat
    decreases e,
{
    if e == 0 {
        1
    } else {
        2 * pow2((e - 1) as nat)
    }
}

/// Exponential backoff in milliseconds: 1, 2, 4, 8, 16, then 32 seconds,
/// plus up to 999 ms of jitter taken from the clock's sub-second part.
pub open spec fn spec_backoff(attempt: u32, subsec_nanos: u32) -> int {
    let e: nat = if attempt > 5 {
        5
    } else {
        attempt as nat
    };
    pow2(e) * 1000 + (subsec_nanos % 1000) as int
}

pub fn backoff(attempt: u32, subsec_nanos: u32) -> (r: u64)
    ensures
        r == spec_backoff(attempt, subsec_nanos),
{
    let e: u32 = if attempt > 5 {
        5
    } else {
        attempt
    };
    proof {
        reveal_with_fuel(pow2, 6);
    }
    let base: u64 = if e == 0 {
        1
    } else if e == 1 {
        2
    } else if e == 2 {
        4
    } else if e == 3 {
        8
    } else if e == 4 {
        16
    } else {
        32
    };
    base * 1000 + (subsec_nanos % 1000) as u64
}

/// Where a request stands between attempts.
#[derive(Clone, Copy, PartialEq, Eq, Structural)]
pub struct SendState {
    pub attempt: u32,
    /// The token was already refreshed once for this request.
    pub refreshed: bool,
}

/// What came back from one attempt.
pub enum SendEvent {
    Success,
    /// An answer other than success; `retry_after` is the text of its
    /// `Retry-After` header, if it has a readable one.
    Status { status: u16, body: String, retry_after: Option<String> },
    /// No answer at all; `transient` for time-outs, refused connections and
    /// failed requests.
    NetError { transient: bool },
}

pub enum SendAction {
    /// Hand the response over.
    Done,
    /// Fetch a fresh token, then try again.
    RefreshToken,
    /// Sleep this many milliseconds, then try again.
    Wait { millis: u64 },
    /// Give up with Drive's answer (its body cut to 500 characters).
    FailApi { status: u16, body: String },
    /// Give up with the network error.
    FailNet,
}

/// The wait before the next attempt after a retryable answer: what a
/// readable `Retry-After` asks (capped), else the backoff.
pub open spec fn wait_after(retry_after: Option<String>, attempt: u32, subsec_nanos: u32) -> int {
    match retry_after {
        Some(v) => match parse_u64(v@) {
            Some(n) => (if n > RETRY_AFTER_MAX_SECS {
                RETRY_AFTER_MAX_SECS
            } else {
                n
            }) * 1000,
            None => spec_backoff(attempt, subsec_nanos),
        },
        None => spec_backoff(attempt, subsec_nanos),
    }
}

pub struct SendStep {
    pub state: SendState,
    pub action: SendAction,
    /// The value for the "network down, attempt n" indicator (0: clear).
    pub net_retry: u32,
}

pub open spec fn first_chars(s: Seq<char>, n: nat) -> Seq<char> {
    if s.len() <= n {
        s
    } else {
        s.take(n as int)
    }
}

/// One turn of the request loop. A success ends it. Any answer from the
/// server clears the network indicator; a 401 refreshes the token once when
/// a refresher exists; a retryable status waits (as long as `Retry-After`
/// asks, else the backoff) up to `MAX_RETRIES` times; any other status
/// fails. A transient network error waits a short backoff up to
/// `NET_MAX_RETRIES` times and reports the attempt; others fail.
pub fn send_step(state: SendState, event: &SendEvent, has_refresher: bool, subsec_nanos: u32) -> (r:
    SendStep)
    ensures
        (*event matches SendEvent::Status { status, .. } && (500 <= status <= 599 || status
            == 429) && state.attempt < 6) ==> r.action is Wait && r.state.attempt
            == state.attempt + 1,
        match *event {
            SendEvent::Success => r.action is Done && r.net_retry == 0 && r.state == state,
            SendEvent::Status { status, body, retry_after } => {
                &&& r.net_retry == 0
                &&& if status == 401 && !state.refreshed && has_refresher {
                    r.action is RefreshToken && r.state == SendState {
                        attempt: state.attempt,
                        refreshed: true,
                    }
                } else if spec_is_retryable(status, body@) && state.attempt < MAX_RETRIES {
                    &&& r.state == SendState { attempt: (state.attempt + 1) as u32, refreshed: state.refreshed }
                    &&& r.action matches SendAction::Wait { millis } && millis == wait_after(
                        retry_after,
                        state.attempt,
                        subsec_nanos,
                    )
                } else {
                    &&& r.state == state
                    &&& r.action matches SendAction::FailApi { status: s, body: b } && s == status
                        && b@ == first_chars(body@, ERROR_BODY_MAX as nat)
                }
            },
            SendEvent::NetError { transient } => if transient && state.attempt < NET_MAX_RETRIES {
                &&& r.net_retry == state.attempt + 1
                &&& r.state == SendState { attempt: (state.attempt + 1) as u32, refreshed: state.refreshed }
                &&& r.action matches SendAction::Wait { millis } && millis == spec_backoff(
                    if state.attempt > 5 {
                        5
                    } else {
                        state.attempt
                    },
                    subsec_nanos,
                )
            } else {
                r.net_retry == 0 && r.action is FailNet && r.state == state
            },
        },
{
    match event {
        SendEvent::Success => SendStep { state, action: SendAction::Done, net_retry: 0 },
        SendEvent::Status { status, body, retry_after } => {
            if *status == 401 && !state.refreshed && has_refresher {
                return SendStep {
                    state: SendState { attempt: state.attempt, refreshed: true },
                    action: SendAction::RefreshToken,
                    net_retry: 0,
                };
            }
            if is_retryable(*status, body.as_str()) && state.attempt < MAX_RETRIES {
                let parsed = match retry_after {
                    Some(v) => retry_after_secs(v.as_str()),
                    None => None,
                };
                let millis = match parsed {
                    Some(secs) => secs * 1000,
                    None => backoff(state.attempt, subsec_nanos),
                };
                return SendStep {
                    state: SendState { attempt: state.attempt + 1, refreshed: state.refreshed },
                    action: SendAction::Wait { millis },
                    net_retry: 0,
                };
            }
            let c = chars_of(body.as_str());
            let cut = if c.len() > ERROR_BODY_MAX {
                slice_chars(c.as_slice(), 0, ERROR_BODY_MAX)
            } else {
                c
            };
            SendStep {
                state,
                action: SendAction::FailApi { status: *status, body: string_of(cut.as_slice()) },
                net_retry: 0,
            }
        },
        SendEvent::NetError { transient } => {
            if *transient && state.attempt < NET_MAX_RETRIES {
                let a = if state.attempt > 5 {
                    5
                } else {
                    state.attempt
                };
                SendStep {
                    state: SendState { attempt: state.attempt + 1, refreshed: state.refreshed },
                    action: SendAction::Wait { millis: backoff(a, subsec_nanos) },
                    net_retry: state.attempt + 1,
                }
            } else {
                SendStep { state, action: SendAction::FailNet, net_retry: 0 }
            }
        },
    }
}

/// Which answers are retried: every server error (500 to 599) and every
/// "too many requests" (429), whatever the body; no other 4xx status but a
/// 403 (which is retried only as Drive's rate limit), and no success or
/// redirect. While fewer than six retries were made, such an answer is
/// waited out and tried again.
pub proof fn law_server_errors_and_rate_limits_are_retried(status: u16, body: Seq<char>, attempt: u32)
    ensures
        (500 <= status <= 599 || status == 429) ==> spec_is_retryable(status, body),
        (500 <= status <= 599 || status == 429) && attempt < 6 ==> spec_is_retryable(status, body)
            && attempt < MAX_RETRIES,
        (400 <= status <= 499 && status != 429 && status != 403) ==> !spec_is_retryable(
            status,
            body,
        ),
        (100 <= status <= 399) ==> !spec_is_retryable(status, body),
        attempt >= 6 ==> !(attempt < MAX_RETRIES),
{
}

/// How much retrying is left: every turn that tries again uses some of it,
/// so a request ends.
pub open spec fn retry_budget(s: SendState) -> int {
    2 * (NET_MAX_RETRIES - s.attempt) + if s.refreshed {
        0int
    } else {
        1int
    }
}

/// Every turn that tries again (refresh or wait) leaves strictly less
/// retrying budget, and the attempt count never passes `NET_MAX_RETRIES`.
pub proof fn law_send_loop_ends(
    state: SendState,
    event: SendEvent,
    has_refresher: bool,
    subsec_nanos: u32,
    step: SendStep,
)
    requires
        state.attempt <= NET_MAX_RETRIES,
        match event {
            SendEvent::Success => step.action is Done && step.state == state,
            SendEvent::Status { status, body, retry_after } => if status == 401
                && !state.refreshed && has_refresher {
                step.action is RefreshToken && step.state == SendState {
                    attempt: state.attempt,
                    refreshed: true,
                }
            } else if spec_is_retryable(status, body@) && state.attempt < MAX_RETRIES {
                step.action is Wait && step.state == SendState {
                    attempt: (state.attempt + 1) as u32,
                    refreshed: state.refreshed,
                }
            } else {
                step.action is FailApi && step.state == state
            },
            SendEvent::NetError { transient } => if transient && state.attempt < NET_MAX_RETRIES {
                step.action is Wait && step.state == SendState {
                    attempt: (state.attempt + 1) as u32,
                    refreshed: state.refreshed,
                }
            } else {
                step.action is FailNet && step.state == state
            },
        },
    ensures
        step.state.attempt <= NET_MAX_RETRIES,
        (step.action is RefreshToken || step.action is Wait) ==> 0 <= retry_budget(step.state)
            < retry_budget(state),
{
}

// ---------------------------------------------------------------------------
// Request bodies and queries
// ---------------------------------------------------------------------------

/// Boundary of the multipart upload bodies.
pub const BOUNDARY: &'static str = "connectsync_9f2b7c41d8e5a360";
pub const FOLDER_MIME: &'static str = "application/vnd.google-apps.folder";

/// A Drive query string literal: `\` and `'` are escaped with a backslash.
pub open spec fn escape_q_spec(s: Seq<char>) -> Seq<char>
    decreases s.len(),
{
    if s.len() == 0 {
        Seq::empty()
    } else {
        let c = s.last();
        escape_q_spec(s.drop_last()) + if c == '\\' || c == '\'' {
            seq!['\\', c]
        } else {
            seq![c]
        }
    }
}

pub fn escape_q(s: &str) -> (r: String)
    ensures
        r@ == escape_q_spec(s@),
{
    let c = chars_of(s);
    let mut r = String::new();
    let mut i: usize = 0;
    while i < c.len()
        invariant
            c@ == s@,
            i <= c@.len(),
            r@ == escape_q_spec(c@.take(i as int)),
        decreases c@.len() - i,
    {
        assert(c@.take(i + 1).drop_last() =~= c@.take(i as int));
        let ghost before = r@;
        if c[i] == '\\' || c[i] == '\'' {
            push_char(&mut r, '\\');
        }
        push_char(&mut r, c[i]);
        assert(r@ =~= escape_q_spec(c@.take(i + 1)));
        i = i + 1;
    }
    assert(c@.take(c@.len() as int) =~= c@);
    r
}

pub open spec fn multipart_head(metadata_json: Seq<char>) -> Seq<char> {
    "--"@ + BOUNDARY@ + "\r\nContent-Type: application/json; charset=UTF-8\r\n\r\n"@
        + metadata_json + "\r\n--"@ + BOUNDARY@
        + "\r\nContent-Type: application/octet-stream\r\n\r\n"@
}

pub open spec fn multipart_tail() -> Seq<char> {
    "\r\n--"@ + BOUNDARY@ + "--"@
}

/// The `multipart/related` body Drive expects for an upload: the metadata
/// part, then the content part, then the closing boundary.
pub fn multipart_related(metadata_json: &str, data: &[u8]) -> (r: Vec<u8>)
    ensures
        r@ == encode_utf8(multipart_head(metadata_json@)) + data@ + encode_utf8(multipart_tail()),
{
    let mut head = owned("--");
    push_str(&mut head, BOUNDARY);
    push_str(&mut head, "\r\nContent-Type: application/json; charset=UTF-8\r\n\r\n");
    push_str(&mut head, metadata_json);
    push_str(&mut head, "\r\n--");
    push_str(&mut head, BOUNDARY);
    push_str(&mut head, "\r\nContent-Type: application/octet-stream\r\n\r\n");
    let mut tail = owned("\r\n--");
    push_str(&mut tail, BOUNDARY);
    push_str(&mut tail, "--");
    let mut body: Vec<u8> = Vec::new();
    append_bytes(&mut body, head.as_str().as_bytes());
    append_bytes(&mut body, data);
    append_bytes(&mut body, tail.as_str().as_bytes());
    body
}

/// Boundary of the body that creates the key registry.
pub const REGISTRY_BOUNDARY: &'static str = "foo_bar_baz";

/// The `multipart/related` body that creates the key registry: its metadata
/// and its JSON content, each a part of its own.
pub open spec fn spec_registry_multipart(meta_json: Seq<char>, registry_json: Seq<char>) -> Seq<char> {
    "--"@ + REGISTRY_BOUNDARY@ + "\r\nContent-Type: application/json; charset=UTF-8\r\n\r\n"@
        + meta_json + "\r\n--"@ + REGISTRY_BOUNDARY@ + "\r\nContent-Type: application/json\r\n\r\n"@
        + registry_json + "\r\n--"@ + REGISTRY_BOUNDARY@ + "--"@
}

pub fn registry_multipart(meta_json: &str, registry_json: &str) -> (r: String)
    ensures
        r@ == spec_registry_multipart(meta_json@, registry_json@),
{
    let mut body = owned("--");
    push_str(&mut body, REGISTRY_BOUNDARY);
    push_str(&mut body, "\r\nContent-Type: application/json; charset=UTF-8\r\n\r\n");
    push_str(&mut body, meta_json);
    push_str(&mut body, "\r\n--");
    push_str(&mut body, REGISTRY_BOUNDARY);
    push_str(&mut body, "\r\nContent-Type: application/json\r\n\r\n");
    push_str(&mut body, registry_json);
    push_str(&mut body, "\r\n--");
    push_str(&mut body, REGISTRY_BOUNDARY);
    push_str(&mut body, "--");
    body
}

fn append_bytes(v: &mut Vec<u8>, b: &[u8])
    ensures
        final(v)@ == old(v)@ + b@,
{
    let mut i: usize = 0;
    let ghost start = v@;
    while i < b.len()
        invariant
            i <= b@.len(),
            v@ == start + b@.take(i as int),
        decreases b@.len() - i,
    {
        v.push(b[i]);
        i = i + 1;
        assert(v@ =~= start + b@.take(i as int));
    }
    assert(b@.take(b@.len() as int) =~= b@);
}

/// The query that finds a live folder of this name (in `parent`, if given).
pub fn folder_query(name: &str, parent: Option<&str>) -> (r: String)
    ensures
        r@ == "name = '"@ + escape_q_spec(name@) + "' and mimeType = '"@ + FOLDER_MIME@
            + "' and trashed = false"@ + match parent {
            Some(p) => " and '"@ + escape_q_spec(p@) + "' in parents"@,
            None => Seq::empty(),
        },
{
    let mut q = owned("name = '");
    push_str(&mut q, escape_q(name).as_str());
    push_str(&mut q, "' and mimeType = '");
    push_str(&mut q, FOLDER_MIME);
    push_str(&mut q, "' and trashed = false");
    match parent {
        Some(p) => {
            push_str(&mut q, " and '");
            push_str(&mut q, escape_q(p).as_str());
            push_str(&mut q, "' in parents");
        },
        None => {},
    }
    q
}

/// The query that lists the live files of a folder.
pub fn children_query(folder_id: &str) -> (r: String)
    ensures
        r@ == "'"@ + escape_q_spec(folder_id@) + "' in parents and trashed = false"@,
{
    let mut q = owned("'");
    push_str(&mut q, escape_q(folder_id).as_str());
    push_str(&mut q, "' in parents and trashed = false");
    q
}

// ---------------------------------------------------------------------------
// Folder metadata
// ---------------------------------------------------------------------------

/// The `appProperties` key holding the name the user gave a sync.
pub const NAME_PROP: &'static str = "cs_name";

/// Prefix of the sync folders' names on Drive.
pub const FOLDER_PREFIX: &'static str = "ConnectSync_";

/// What Drive says about a folder.
pub struct FolderInfo {
    pub name: String,
    pub trashed: bool,
    pub app_properties: Option<StrMap<String>>,
}

#[derive(Debug, Clone, Copy, PartialEq, Eq, Structural)]
pub enum FolderAccess {
    /// The folder exists and is not in the bin.
    Available,
    /// The folder is in Drive's bin (it can be restored).
    Trashed,
    /// Drive answered 404: deleted for good, or not visible to this account
    /// or to the app's narrow scope.
    NotVisible,
}

/// What a `folder_info` answer means for the user.
pub fn folder_access(info: Option<&FolderInfo>) -> (r: FolderAccess)
    ensures
        r == match info {
            Some(f) => if f.trashed {
                FolderAccess::Trashed
            } else {
                FolderAccess::Available
            },
            None => FolderAccess::NotVisible,
        },
{
    match info {
        Some(f) => if f.trashed {
            FolderAccess::Trashed
        } else {
            FolderAccess::Available
        },
        None => FolderAccess::NotVisible,
    }
}

/// The stored real name, if the folder has one.
pub open spec fn stored_name(props: Option<StrMap<String>>) -> Option<Seq<char>> {
    match props {
        Some(p) => if p@.contains_key(NAME_PROP@) {
            Some(p@[NAME_PROP@]@)
        } else {
            None
        },
        None => None,
    }
}

/// The name shown for a folder: the real name given at creation, trimmed,
/// when it is not blank; otherwise Drive's name without the
/// `ConnectSync_` prefix.
pub open spec fn spec_display_name(name: Seq<char>, props: Option<StrMap<String>>) -> Seq<char> {
    match stored_name(props) {
        Some(n) if trim(n).len() > 0 => trim(n),
        _ => if starts_with(name, FOLDER_PREFIX@) {
            name.skip(FOLDER_PREFIX@.len() as int)
        } else {
            name
        },
    }
}

impl FolderInfo {
    pub open spec fn wf(&self) -> bool {
        match self.app_properties {
            Some(p) => p.wf(),
            None => true,
        }
    }

    pub fn display_name(&self) -> (r: String)
        requires
            self.wf(),
        ensures
            r@ == spec_display_name(self.name@, self.app_properties),
    {
        match &self.app_properties {
            Some(p) => match p.get(NAME_PROP) {
                Some(n) => {
                    let t = trim_chars(chars_of(n.as_str()).as_slice());
                    if t.len() > 0 {
                        return string_of(t.as_slice());
                    }
                },
                None => {},
            },
            None => {},
        }
        let c = chars_of(self.name.as_str());
        let pre = chars_of(FOLDER_PREFIX);
        if chars_starts_with(c.as_slice(), pre.as_slice()) {
            string_of(slice_chars(c.as_slice(), pre.len(), c.len()).as_slice())
        } else {
            owned(self.name.as_str())
        }
    }
}

/// The name listed for a sync folder found on Drive: the stored real name
/// when it is not empty, otherwise Drive's name as it is.
pub open spec fn spec_listed_name(name: Seq<char>, props: Option<StrMap<String>>) -> Seq<char> {
    match stored_name(props) {
        Some(n) if n.len() > 0 => n,
        _ => name,
    }
}

pub fn listed_folder_name(name: &str, props: &Option<StrMap<String>>) -> (r: String)
    requires
        match props {
            Some(p) => p.wf(),
            None => true,
        },
    ensures
        r@ == spec_listed_name(name@, *props),
{
    match props {
        Some(p) => match p.get(NAME_PROP) {
            Some(n) => {
                if !n.as_str().is_empty() {
                    return owned(n.as_str());
                }
            },
            None => {},
        },
        None => {},
    }
    owned(name)
}

// ---------------------------------------------------------------------------
// Request addresses
// ---------------------------------------------------------------------------

pub const API: &'static str = "https://www.googleapis.com/drive/v3";
pub const UPLOAD_API: &'static str = "https://www.googleapis.com/upload/drive/v3";

/// Bytes that a URL carries as they are: ASCII letters and digits, `-`,
/// `.`, `_`, `~`.
pub open spec fn url_safe(b: u8) -> bool {
    (48 <= b <= 57) || (65 <= b <= 90) || (97 <= b <= 122) || b == 45 || b == 46 || b == 95
        || b == 126
}

/// Upper-case hexadecimal digit for a value below 16.
pub open spec fn hex_upper_digit(n: u8) -> char {
    if n < 10 {
        ((n + 48) as u32) as char
    } else {
        ((n + 55) as u32) as char
    }
}

/// Percent-encoding of bytes: safe bytes stay, every other byte becomes `%`
/// and two upper-case hexadecimal digits.
pub open spec fn percent_encode(b: Seq<u8>) -> Seq<char>
    decreases b.len(),
{
    if b.len() == 0 {
        Seq::empty()
    } else {
        let x = b.last();
        percent_encode(b.drop_last()) + if url_safe(x) {
            seq![x as char]
        } else {
            seq!['%', hex_upper_digit(x / 16), hex_upper_digit(x % 16)]
        }
    }
}

/// The text as it stands in a URL: its UTF-8 bytes percent-encoded.
pub open spec fn url_text(s: Seq<char>) -> Seq<char> {
    percent_encode(encode_utf8(s))
}

/// `urlencoding::encode`: every byte but ASCII letters, digits and `-._~`
/// percent-encoded with upper-case digits, as the crate documents it.
#[verifier::external_body]
fn url_encode(s: &str) -> (r: String)
    ensures
        r@ == url_text(s@),
{
    urlencoding::encode(s).into_owned()
}

/// The page of the sync folder's listing that `page_token` names (the
/// first page without one), newest changes first.
pub fn list_page_url(folder_id: &str, page_token: Option<&str>) -> (r: String)
    ensures
        r@ == API@ + "/files?q="@ + url_text(children_query_text(folder_id@)) + "&spaces=drive&pageSize=1000&fields="@
            + url_text("nextPageToken,files(id,name,createdTime)"@) + "&orderBy=modifiedTime%20desc"@
            + match page_token {
            Some(t) => "&pageToken="@ + url_text(t@),
            None => Seq::empty(),
        },
{
    let q = children_query(folder_id);
    let mut u = owned(API);
    push_str(&mut u, "/files?q=");
    push_str(&mut u, url_encode(q.as_str()).as_str());
    push_str(&mut u, "&spaces=drive&pageSize=1000&fields=");
    push_str(&mut u, url_encode("nextPageToken,files(id,name,createdTime)").as_str());
    push_str(&mut u, "&orderBy=modifiedTime%20desc");
    match page_token {
        Some(t) => {
            push_str(&mut u, "&pageToken=");
            push_str(&mut u, url_encode(t).as_str());
        },
        None => {},
    }
    u
}

pub open spec fn children_query_text(folder_id: Seq<char>) -> Seq<char> {
    "'"@ + escape_q_spec(folder_id) + "' in parents and trashed = false"@
}

/// The search for the sync folders this account can see.
pub fn cloud_folders_url() -> (r: String)
    ensures
        r@ == API@ + "/files?q="@ + url_text(
            "name contains 'ConnectSync_' and mimeType = 'application/vnd.google-apps.folder' and trashed = false"@,
        ) + "&spaces=drive&pageSize=100&fields="@ + url_text("files(id,name,appProperties)"@),
{
    let mut u = owned(API);
    push_str(&mut u, "/files?q=");
    push_str(
        &mut u,
        url_encode(
            "name contains 'ConnectSync_' and mimeType = 'application/vnd.google-apps.folder' and trashed = false",
        ).as_str(),
    );
    push_str(&mut u, "&spaces=drive&pageSize=100&fields=");
    push_str(&mut u, url_encode("files(id,name,appProperties)").as_str());
    u
}

/// A folder's name, bin state and stored properties.
pub fn folder_info_url(folder_id: &str) -> (r: String)
    ensures
        r@ == API@ + "/files/"@ + url_text(folder_id@) + "?fields="@ + url_text(
            "name,trashed,appProperties"@,
        ),
{
    let mut u = owned(API);
    push_str(&mut u, "/files/");
    push_str(&mut u, url_encode(folder_id).as_str());
    push_str(&mut u, "?fields=");
    push_str(&mut u, url_encode("name,trashed,appProperties").as_str());
    u
}

/// The search for a live folder of this name (in `parent`, if given).
pub fn folder_search_url(name: &str, parent: Option<&str>) -> (r: String)
    ensures
        r@ == API@ + "/files?q="@ + url_text(
            "name = '"@ + escape_q_spec(name@) + "' and mimeType = '"@ + FOLDER_MIME@
                + "' and trashed = false"@ + match parent {
                Some(p) => " and '"@ + escape_q_spec(p@) + "' in parents"@,
                None => Seq::empty(),
            },
        ) + "&spaces=drive&pageSize=10&fields="@ + url_text("files(id,name)"@),
{
    let q = folder_query(name, parent);
    let mut u = owned(API);
    push_str(&mut u, "/files?q=");
    push_str(&mut u, url_encode(q.as_str()).as_str());
    push_str(&mut u, "&spaces=drive&pageSize=10&fields=");
    push_str(&mut u, url_encode("files(id,name)").as_str());
    u
}

/// A file's content.
pub fn media_url(file_id: &str) -> (r: String)
    ensures
        r@ == API@ + "/files/"@ + url_text(file_id@) + "?alt=media"@,
{
    let mut u = owned(API);
    push_str(&mut u, "/files/");
    push_str(&mut u, url_encode(file_id).as_str());
    push_str(&mut u, "?alt=media");
    u
}

/// A file, for deleting it or patching its metadata (`fields` asks for
/// what the answer holds; none for a deletion).
pub fn file_url(file_id: &str, fields: Option<&str>) -> (r: String)
    ensures
        r@ == API@ + "/files/"@ + url_text(file_id@) + match fields {
            Some(f) => "?fields="@ + f@,
            None => Seq::empty(),
        },
{
    let mut u = owned(API);
    push_str(&mut u, "/files/");
    push_str(&mut u, url_encode(file_id).as_str());
    match fields {
        Some(f) => {
            push_str(&mut u, "?fields=");
            push_str(&mut u, f);
        },
        None => {},
    }
    u
}

/// Replacing a file's content.
pub fn update_media_url(file_id: &str) -> (r: String)
    ensures
        r@ == UPLOAD_API@ + "/files/"@ + url_text(file_id@) + "?uploadType=media&fields=id"@,
{
    let mut u = owned(UPLOAD_API);
    push_str(&mut u, "/files/");
    push_str(&mut u, url_encode(file_id).as_str());
    push_str(&mut u, "?uploadType=media&fields=id");
    u
}

/// The signed-in account's e-mail address.
pub fn about_url() -> (r: String)
    ensures
        r@ == API@ + "/about?fields="@ + url_text("user(emailAddress)"@),
{
    let mut u = owned(API);
    push_str(&mut u, "/about?fields=");
    push_str(&mut u, url_encode("user(emailAddress)").as_str());
    u
}

/// The key registry file in the application data folder.
pub fn key_registry_url() -> (r: String)
    ensures
        r@ == API@ + "/files?q="@ + url_text(
            "name = 'connectsync_keys.json' and 'appDataFolder' in parents and trashed = false"@,
        ) + "&spaces=appDataFolder&fields="@ + url_text("files(id)"@),
{
    let mut u = owned(API);
    push_str(&mut u, "/files?q=");
    push_str(
        &mut u,
        url_encode(
            "name = 'connectsync_keys.json' and 'appDataFolder' in parents and trashed = false",
        ).as_str(),
    );
    push_str(&mut u, "&spaces=appDataFolder&fields=");
    push_str(&mut u, url_encode("files(id)").as_str());
    u
}

} // verus!
