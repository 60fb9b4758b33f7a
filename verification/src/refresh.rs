//! Keeping the list of map versions fresh, and the options under which
//! anything is fetched.
//!
//! A fetched list replaces the old one only after it was read and found good;
//! whatever goes wrong, the old one stays in use.
use vstd::prelude::*;
use vstd::utf8::encode_utf8;

use crate::checksums::{
    has_row, is_list, is_row_text, is_stale, lists_with_rows_are_kept, load_csv, valid_csv,
    CSV_MAX_AGE,
};
use crate::mapfetch::Platform;
use crate::text::{cat, dec_string, dec_text, lines_of, string_views};

verus! {

/// Where the list comes from.
pub const CSV_URL: &'static str = "https://venus.fastdl.me/lump_checksums.csv";

/// How long the list may take, in seconds.
pub const LIST_SECONDS: u32 = 30;

/// How long records may take, in seconds, and how large they may be.
pub const RECORD_SECONDS: u32 = 10;

pub const MAX_RECORD_BYTES: u64 = 4_194_304;

/// Which list a system takes.
pub open spec fn is_good(platform: Platform, csv: Seq<char>) -> bool {
    match platform {
        Platform::Linux => has_row(csv),
        Platform::Windows => is_list(csv),
    }
}

/// Whether a system takes a list.
pub fn good(platform: Platform, csv: &str) -> (r: bool)
    ensures
        r == is_good(platform, csv@),
{
    match platform {
        Platform::Linux => valid_csv(csv),
        Platform::Windows => load_csv(csv),
    }
}

/// What is done next.
pub enum Refresh {
    /// The age of the list is asked.
    Age,
    /// The list is fetched to a file beside it.
    Fetch,
    /// The fetched file is read.
    Judge,
    /// The fetched file replaces the list.
    Install,
    /// The fetched file is removed.
    Discard,
    /// The list is read.
    Read,
    /// The list, if there is a good one.
    Done(Option<String>),
}

/// The value of a `Refresh`.
#[verifier::ext_equal]
pub enum RefreshView {
    Age,
    Fetch,
    Judge,
    Install,
    Discard,
    Read,
    Done(Option<Seq<char>>),
}

/// The value of an optional text.
pub open spec fn content_view(v: Option<String>) -> Option<Seq<char>> {
    match v {
        Some(s) => Some(s@),
        None => None,
    }
}

impl View for Refresh {
    type V = RefreshView;

    open spec fn view(&self) -> RefreshView {
        match *self {
            Refresh::Age => RefreshView::Age,
            Refresh::Fetch => RefreshView::Fetch,
            Refresh::Judge => RefreshView::Judge,
            Refresh::Install => RefreshView::Install,
            Refresh::Discard => RefreshView::Discard,
            Refresh::Read => RefreshView::Read,
            Refresh::Done(t) => RefreshView::Done(content_view(t)),
        }
    }
}

/// What came of the last action.
pub enum RefreshReply {
    /// How old the list is, in seconds, if that can be told.
    Age(Option<u64>),
    /// Whether the list was fetched.
    Fetched(bool),
    /// What a file holds, if it is a text that could be read.
    Content(Option<String>),
    /// Done, or what went wrong.
    Finished(Option<String>),
}

/// The value of a `RefreshReply`.
#[verifier::ext_equal]
pub enum RefreshReplyView {
    Age(Option<u64>),
    Fetched(bool),
    Content(Option<Seq<char>>),
    Finished(Option<Seq<char>>),
}

impl View for RefreshReply {
    type V = RefreshReplyView;

    open spec fn view(&self) -> RefreshReplyView {
        match *self {
            RefreshReply::Age(a) => RefreshReplyView::Age(a),
            RefreshReply::Fetched(ok) => RefreshReplyView::Fetched(ok),
            RefreshReply::Content(t) => RefreshReplyView::Content(content_view(t)),
            RefreshReply::Finished(e) => RefreshReplyView::Finished(content_view(e)),
        }
    }
}

/// What is told before a fetch.
pub open spec fn fetch_text(platform: Platform) -> Seq<char> {
    match platform {
        Platform::Linux => "downloading lump_checksums.csv from fastdl.me (~4MB)..."@,
        Platform::Windows => "fastdl: refreshing lump_checksums.csv (~4 MB)"@,
    }
}

/// What is told of a fetch that gave nothing good.
pub open spec fn failure_text(platform: Platform) -> Seq<char> {
    match platform {
        Platform::Linux => "fastdl.me csv download failed or returned invalid data"@,
        Platform::Windows => "fastdl: checksum refresh failed; using any valid cached copy"@,
    }
}

impl RefreshView {
    /// What comes after a reply, and what is told.
    pub open spec fn next(self, platform: Platform, reply: RefreshReplyView) -> (
        RefreshView,
        Option<Seq<char>>,
    ) {
        match (self, reply) {
            (RefreshView::Age, RefreshReplyView::Age(age)) => if age is None || age->0
                > CSV_MAX_AGE {
                (RefreshView::Fetch, Some(fetch_text(platform)))
            } else {
                (RefreshView::Read, None)
            },
            (RefreshView::Fetch, RefreshReplyView::Fetched(ok)) => if ok {
                (RefreshView::Judge, None)
            } else {
                (RefreshView::Discard, Some(failure_text(platform)))
            },
            (RefreshView::Judge, RefreshReplyView::Content(t)) => if t is Some && is_good(
                platform,
                t->0,
            ) {
                (RefreshView::Install, None)
            } else {
                (RefreshView::Discard, Some(failure_text(platform)))
            },
            (RefreshView::Install, RefreshReplyView::Finished(e)) => match (platform, e) {
                (Platform::Windows, Some(e)) => (
                    RefreshView::Discard,
                    Some("fastdl: installing checksum cache failed: "@ + e),
                ),
                _ => (RefreshView::Read, None),
            },
            (RefreshView::Discard, RefreshReplyView::Finished(_)) => (RefreshView::Read, None),
            (RefreshView::Read, RefreshReplyView::Content(t)) => if t is Some && is_good(
                platform,
                t->0,
            ) {
                (RefreshView::Done(t), None)
            } else {
                (RefreshView::Done(None), None)
            },
            (at, _) => (at, None),
        }
    }
}

fn failure(platform: Platform) -> (r: Option<String>)
    ensures
        r is Some && r->0@ == failure_text(platform),
{
    match platform {
        Platform::Linux => Some(
            "fastdl.me csv download failed or returned invalid data".to_owned(),
        ),
        Platform::Windows => Some(
            "fastdl: checksum refresh failed; using any valid cached copy".to_owned(),
        ),
    }
}

/// A list that a system takes, or nothing.
fn keep(platform: Platform, t: Option<String>) -> (r: Option<String>)
    ensures
        content_view(r) == (if t is Some && is_good(platform, t->0@) {
            Some(t->0@)
        } else {
            None
        }),
{
    match t {
        Some(csv) => if good(platform, csv.as_str()) {
            Some(csv)
        } else {
            None
        },
        None => None,
    }
}

impl Refresh {
    /// Takes a reply; gives what to tell.
    pub fn step(self, platform: Platform, reply: RefreshReply) -> (r: (Refresh, Option<String>))
        ensures
            (r.0@, content_view(r.1)) == self@.next(platform, reply@),
    {
        match (self, reply) {
            (Refresh::Age, RefreshReply::Age(age)) => {
                if is_stale(age) {
                    let line: String = match platform {
                        Platform::Linux =>
                        "downloading lump_checksums.csv from fastdl.me (~4MB)...".to_owned(),
                        Platform::Windows =>
                        "fastdl: refreshing lump_checksums.csv (~4 MB)".to_owned(),
                    };
                    (Refresh::Fetch, Some(line))
                } else {
                    (Refresh::Read, None)
                }
            },
            (Refresh::Fetch, RefreshReply::Fetched(ok)) => {
                if ok {
                    (Refresh::Judge, None)
                } else {
                    (Refresh::Discard, failure(platform))
                }
            },
            (Refresh::Judge, RefreshReply::Content(t)) => {
                match keep(platform, t) {
                    Some(_) => (Refresh::Install, None),
                    None => (Refresh::Discard, failure(platform)),
                }
            },
            (Refresh::Install, RefreshReply::Finished(e)) => match (platform, e) {
                (Platform::Windows, Some(e)) => (
                    Refresh::Discard,
                    Some(cat("fastdl: installing checksum cache failed: ", e.as_str())),
                ),
                _ => (Refresh::Read, None),
            },
            (Refresh::Discard, RefreshReply::Finished(_)) => (Refresh::Read, None),
            (Refresh::Read, RefreshReply::Content(t)) => (Refresh::Done(keep(platform, t)), None),
            (at, _) => (at, None),
        }
    }
}

/// A fetched file replaces the list only after it was read and is one that the
/// system takes; and only such a list is ever used.
pub proof fn only_good_lists_are_used(at: RefreshView, platform: Platform, reply: RefreshReplyView)
    ensures
        at.next(platform, reply).0 == RefreshView::Install && at != RefreshView::Install
            ==> exists|csv: Seq<char>|
            reply == RefreshReplyView::Content(Some(csv)) && #[trigger] is_good(platform, csv),
        at is Read ==> (at.next(platform, reply).0 matches RefreshView::Done(Some(csv))
            ==> is_good(platform, csv)),
{
    if at.next(platform, reply).0 == RefreshView::Install && at != RefreshView::Install {
        let csv = reply->Content_0->0;
        assert(is_good(platform, csv));
    }
}

/// The options under which a file is fetched: encrypted, for at most so many
/// seconds, and not larger than so many bytes. The file and the address follow.
pub open spec fn fetch_options(platform: Platform, seconds: int, bytes: int) -> Seq<Seq<char>> {
    match platform {
        Platform::Linux => seq![
            "-fsSL"@,
            "--proto"@,
            "=https"@,
            "--tlsv1.2"@,
            "--max-time"@,
            dec_text(seconds),
            "--max-filesize"@,
            dec_text(bytes),
            "-o"@,
        ],
        Platform::Windows => seq![
            "--fail"@,
            "--silent"@,
            "--show-error"@,
            "--location"@,
            "--proto"@,
            "=https"@,
            "--tlsv1.2"@,
            "--max-time"@,
            dec_text(seconds),
            "--max-filesize"@,
            dec_text(bytes),
            "--output"@,
        ],
    }
}

/// Adds an option.
fn add_option(out: &mut Vec<String>, text: &str)
    ensures
        string_views(final(out)@) == string_views(old(out)@).push(text@),
{
    let copy: String = text.to_owned();
    out.push(copy);
    assert(string_views(out@) =~= string_views(old(out)@).push(text@));
}

/// Adds what all fetches have in common.
fn add_limits(out: &mut Vec<String>, seconds: u32, bytes: u64)
    ensures
        string_views(final(out)@) == string_views(old(out)@) + seq![
            "--proto"@,
            "=https"@,
            "--tlsv1.2"@,
            "--max-time"@,
            dec_text(seconds as int),
            "--max-filesize"@,
            dec_text(bytes as int),
        ],
{
    let time: String = dec_string(seconds as u64);
    let size: String = dec_string(bytes);
    add_option(out, "--proto");
    add_option(out, "=https");
    add_option(out, "--tlsv1.2");
    add_option(out, "--max-time");
    add_option(out, time.as_str());
    add_option(out, "--max-filesize");
    add_option(out, size.as_str());
    assert(string_views(out@) =~= string_views(old(out)@) + seq![
        "--proto"@,
        "=https"@,
        "--tlsv1.2"@,
        "--max-time"@,
        dec_text(seconds as int),
        "--max-filesize"@,
        dec_text(bytes as int),
    ]);
}

/// The options under which a file is fetched.
pub fn curl_to(platform: Platform, seconds: u32, bytes: u64) -> (r: Vec<String>)
    ensures
        string_views(r@) == fetch_options(platform, seconds as int, bytes as int),
{
    let mut out: Vec<String> = Vec::new();
    assert(string_views(out@) =~= Seq::empty());
    match platform {
        Platform::Linux => {
            add_option(&mut out, "-fsSL");
            add_limits(&mut out, seconds, bytes);
            add_option(&mut out, "-o");
        },
        Platform::Windows => {
            add_option(&mut out, "--fail");
            add_option(&mut out, "--silent");
            add_option(&mut out, "--show-error");
            add_option(&mut out, "--location");
            add_limits(&mut out, seconds, bytes);
            add_option(&mut out, "--output");
        },
    }
    assert(string_views(out@) =~= fetch_options(platform, seconds as int, bytes as int));
    out
}

/// The options under which records are fetched, which go to the output. The
/// address follows.
pub open spec fn record_fetch(key: Seq<char>) -> Seq<Seq<char>> {
    seq![
        "-fsS"@,
        "--proto"@,
        "=https"@,
        "--tlsv1.2"@,
        "--max-time"@,
        dec_text(RECORD_SECONDS as int),
        "--max-filesize"@,
        dec_text(MAX_RECORD_BYTES as int),
        "-H"@,
        "api-key: "@ + key,
    ]
}

/// The options under which records are fetched with this key.
pub fn record_options(key: &str) -> (r: Vec<String>)
    ensures
        string_views(r@) == record_fetch(key@),
{
    let mut out: Vec<String> = Vec::new();
    assert(string_views(out@) =~= Seq::empty());
    let header: String = cat("api-key: ", key);
    add_option(&mut out, "-fsS");
    add_limits(&mut out, RECORD_SECONDS, MAX_RECORD_BYTES);
    add_option(&mut out, "-H");
    add_option(&mut out, header.as_str());
    assert(string_views(out@) =~= record_fetch(key@));
    out
}

/// The options allow only encrypted addresses.
pub open spec fn only_https(options: Seq<Seq<char>>) -> bool {
    exists|i: int|
        0 <= i && i + 1 < options.len() && #[trigger] options[i] == "--proto"@ && options[i + 1]
            == "=https"@
}

/// Whatever is fetched, only encrypted addresses are followed.
pub proof fn fetches_are_encrypted(
    platform: Platform,
    seconds: int,
    bytes: int,
    key: Seq<char>,
)
    ensures
        only_https(fetch_options(platform, seconds, bytes)),
        only_https(record_fetch(key)),
{
    let i: int = match platform {
        Platform::Linux => 1,
        Platform::Windows => 4,
    };
    assert(fetch_options(platform, seconds, bytes)[i] == "--proto"@);
    assert(record_fetch(key)[1] == "--proto"@);
}

/// A list of at most a day and a half is used as it is; an older one, or one of
/// unknown age, is fetched anew, and the user is told.
pub proof fn old_lists_are_fetched_anew(platform: Platform, age: u64)
    ensures
        age <= 36 * 3600 ==> RefreshView::Age.next(platform, RefreshReplyView::Age(Some(age))) == (
            RefreshView::Read,
            None::<Seq<char>>,
        ),
        age > 36 * 3600 ==> RefreshView::Age.next(platform, RefreshReplyView::Age(Some(age))).0
            is Fetch,
        RefreshView::Age.next(platform, RefreshReplyView::Age(None)).0 is Fetch,
        RefreshView::Age.next(platform, RefreshReplyView::Age(None)).1 is Some,
{
}

/// A good list that was fetched is installed and then used.
pub proof fn a_good_list_is_used(platform: Platform, csv: Seq<char>)
    requires
        is_good(platform, csv),
    ensures
        RefreshView::Fetch.next(platform, RefreshReplyView::Fetched(true)).0 is Judge,
        RefreshView::Judge.next(platform, RefreshReplyView::Content(Some(csv))).0 is Install,
        RefreshView::Install.next(platform, RefreshReplyView::Finished(None)).0 is Read,
        RefreshView::Read.next(platform, RefreshReplyView::Content(Some(csv))).0
            == RefreshView::Done(Some(csv)),
{
}

/// Whatever goes wrong with a fetch, what was fetched is removed, and the list
/// that is there is read: a good one stays in use.
pub proof fn the_old_list_stays_in_use(
    platform: Platform,
    bad: Option<Seq<char>>,
    e: Option<Seq<char>>,
    old_list: Seq<char>,
)
    requires
        bad matches Some(t) ==> !is_good(platform, t),
        is_good(platform, old_list),
    ensures
        RefreshView::Fetch.next(platform, RefreshReplyView::Fetched(false)).0 is Discard,
        RefreshView::Judge.next(platform, RefreshReplyView::Content(bad)).0 is Discard,
        RefreshView::Discard.next(platform, RefreshReplyView::Finished(e)).0 is Read,
        platform == Platform::Windows && e is Some ==> RefreshView::Install.next(
            platform,
            RefreshReplyView::Finished(e),
        ).0 is Discard,
        platform == Platform::Linux ==> RefreshView::Install.next(
            platform,
            RefreshReplyView::Finished(e),
        ).0 is Read,
        RefreshView::Read.next(platform, RefreshReplyView::Content(Some(old_list))).0
            == RefreshView::Done(Some(old_list)),
        RefreshView::Read.next(platform, RefreshReplyView::Content(bad)).0 == RefreshView::Done(
            None::<Seq<char>>,
        ),
{
}

/// A list with a row is one that Linux takes; Windows takes it from a kilobyte
/// to 32 megabytes.
pub proof fn a_list_with_a_row_is_good(csv: Seq<char>, i: int, sha1: Seq<char>, md5: Seq<char>)
    requires
        0 <= i < lines_of(csv).len(),
        is_row_text(lines_of(csv)[i], sha1, md5),
    ensures
        is_good(Platform::Linux, csv),
        1_024 <= encode_utf8(csv).len() <= 33_554_432 ==> is_good(Platform::Windows, csv),
        !(1_024 <= encode_utf8(csv).len() <= 33_554_432) ==> !is_good(Platform::Windows, csv),
{
    lists_with_rows_are_kept(csv, i, sha1, md5);
}

/// A limit stands behind its option.
pub open spec fn limited(options: Seq<Seq<char>>, name: Seq<char>, limit: Seq<char>) -> bool {
    exists|i: int|
        0 <= i && i + 1 < options.len() && #[trigger] options[i] == name && options[i + 1] == limit
}

/// Whatever is fetched, it may take so long and be so large, and goes to the
/// file that follows; records carry the key.
pub proof fn fetches_are_limited(platform: Platform, seconds: int, bytes: int, key: Seq<char>)
    ensures
        limited(fetch_options(platform, seconds, bytes), "--max-time"@, dec_text(seconds)),
        limited(fetch_options(platform, seconds, bytes), "--max-filesize"@, dec_text(bytes)),
        fetch_options(platform, seconds, bytes).last() == "-o"@ || fetch_options(
            platform,
            seconds,
            bytes,
        ).last() == "--output"@,
        limited(record_fetch(key), "--max-time"@, dec_text(10)),
        limited(record_fetch(key), "--max-filesize"@, dec_text(4_194_304)),
        limited(record_fetch(key), "-H"@, "api-key: "@ + key),
{
    let i: int = match platform {
        Platform::Linux => 4,
        Platform::Windows => 7,
    };
    assert(fetch_options(platform, seconds, bytes)[i] == "--max-time"@);
    assert(fetch_options(platform, seconds, bytes)[i + 2] == "--max-filesize"@);
    assert(record_fetch(key)[4] == "--max-time"@);
    assert(record_fetch(key)[6] == "--max-filesize"@);
    assert(record_fetch(key)[8] == "-H"@);
}

/// The list comes from its server, within half a minute.
pub proof fn the_list_has_its_address()
    ensures
        CSV_URL@ == "https://venus.fastdl.me/lump_checksums.csv"@,
        LIST_SECONDS == 30,
{
}

} // verus!
