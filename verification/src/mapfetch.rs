//! Fetching the version of a map that the server runs.
//!
//! A map is installed only after two checks: it has to be a BSP, and its SHA-1
//! has to be the one that the list of versions gives. The caller performs each
//! action and hands back what came of it.
use std::io::Read;

use sha1::Digest;
use vstd::prelude::*;

use crate::checksums::{hex_bytes, hex_of};
use crate::pakfix::{bsp_magic, has_bsp_magic};
use crate::phrase::{
    case_is_ignored, eq_ignore_case, lower_char, same_but_case, trim, trimmed,
    trimming_takes_the_space_around,
};
use crate::text::{chars, is_white, same_chars};

verus! {

/// What a bzip2 stream holds, if it is one.
pub uninterp spec fn bz2_decoded(data: Seq<u8>) -> Option<Seq<u8>>;

/// `bzip2::read::BzDecoder` over these bytes, read to its end: the bytes that
/// the stream holds, or nothing where reading reports an error. Which streams
/// it accepts, and what it makes of them, is left to the decoder.
#[verifier::external_body]
fn bunzip(data: &[u8]) -> (r: Option<Vec<u8>>)
    ensures
        match r {
            Some(v) => bz2_decoded(data@) == Some(v@),
            None => bz2_decoded(data@) is None,
        },
{
    let mut out: Vec<u8> = Vec::new();
    bzip2::read::BzDecoder::new(data).read_to_end(&mut out).ok().map(|_| out)
}

/// The SHA-1 of bytes.
pub uninterp spec fn sha1_of(data: Seq<u8>) -> Seq<u8>;

/// `sha1::Sha1::digest`: the SHA-1 of these bytes, which has 20 bytes.
#[verifier::external_body]
fn sha1_digest(data: &[u8]) -> (r: Vec<u8>)
    ensures
        r@ == sha1_of(data@),
        r@.len() == 20,
{
    sha1::Sha1::digest(data).to_vec()
}

/// What is wrong with a fetched map.
#[derive(Clone, Copy, Debug, Eq, PartialEq, Structural)]
pub enum MapFault {
    /// It is not a BSP.
    NotBsp,
    /// It is another version.
    WrongHash,
}

/// What is wrong with a map whose SHA-1 is `digest`, if anything.
pub open spec fn map_fault(data: Seq<u8>, digest: Seq<u8>, sha1: Seq<char>) -> Option<MapFault> {
    if !has_bsp_magic(data) {
        Some(MapFault::NotBsp)
    } else if !same_but_case(hex_of(digest), sha1) {
        Some(MapFault::WrongHash)
    } else {
        None
    }
}

/// What is wrong with a map whose SHA-1 is `digest`, if anything.
pub fn judge(data: &[u8], digest: &[u8], sha1: &str) -> (r: Option<MapFault>)
    ensures
        r == map_fault(data@, digest@, sha1@),
{
    if !bsp_magic(data) {
        return Some(MapFault::NotBsp);
    }
    let have: String = hex_bytes(digest);
    let a: Vec<char> = chars(have.as_str());
    let b: Vec<char> = chars(sha1);
    if !eq_ignore_case(a.as_slice(), b.as_slice()) {
        return Some(MapFault::WrongHash);
    }
    None
}

/// Whether bytes have this SHA-1, whatever the case of its digits.
pub fn file_matches_sha1(data: &[u8], sha1: &str) -> (r: bool)
    ensures
        r == same_but_case(hex_of(sha1_of(data@)), sha1@),
{
    let digest: Vec<u8> = sha1_digest(data);
    let have: String = hex_bytes(digest.as_slice());
    let a: Vec<char> = chars(have.as_str());
    let b: Vec<char> = chars(sha1);
    eq_ignore_case(a.as_slice(), b.as_slice())
}

/// What is wrong with a fetched map, if anything.
pub fn check_map(data: &[u8], sha1: &str) -> (r: Option<MapFault>)
    ensures
        r == map_fault(data@, sha1_of(data@), sha1@),
{
    let digest: Vec<u8> = sha1_digest(data);
    judge(data, digest.as_slice(), sha1)
}

/// The bytes that a bzip2 stream holds.
pub fn decompress_bz2(data: &[u8]) -> (r: Option<Vec<u8>>)
    ensures
        match r {
            Some(v) => bz2_decoded(data@) == Some(v@),
            None => bz2_decoded(data@) is None,
        },
{
    bunzip(data)
}

/// Which system's messages and rules apply.
#[derive(Clone, Copy, Debug, Eq, PartialEq, Structural)]
pub enum Platform {
    Linux,
    Windows,
}

/// How long a packed map may take, and a plain one, in seconds.
pub const PACKED_SECONDS: u32 = 20;

pub const PLAIN_SECONDS: u32 = 8;

/// The largest map that is fetched.
pub const MAX_MAP_BYTES: u64 = 1_073_741_824;

/// One map to fetch.
pub struct Fetch {
    pub platform: Platform,
    pub map: String,
    pub sha1: String,
    /// Where the map goes, for messages.
    pub place: String,
}

/// The value of a `Fetch`.
#[verifier::ext_equal]
pub struct FetchView {
    pub platform: Platform,
    pub map: Seq<char>,
    pub sha1: Seq<char>,
    pub place: Seq<char>,
}

impl View for Fetch {
    type V = FetchView;

    open spec fn view(&self) -> FetchView {
        FetchView {
            platform: self.platform,
            map: self.map@,
            sha1: self.sha1@,
            place: self.place@,
        }
    }
}

/// Where fetching stands.
#[derive(Clone, Copy, Debug, Eq, PartialEq, Structural)]
pub enum FetchPhase {
    /// What version is installed is wanted.
    Look,
    /// The packed map is to be downloaded.
    Packed,
    /// It is to be unpacked.
    Unpack,
    /// The plain map is to be downloaded.
    Plain,
    /// The map is to be checked.
    Check,
    /// The map is to be put in its place.
    Install,
    /// It was installed, or not.
    Finished(bool),
}

/// What came of an action.
pub enum FetchReply {
    /// The version that was noted when the map was installed, if the map and
    /// the note are there.
    Noted(Option<String>),
    Downloaded(bool),
    /// How many bytes were unpacked, where that went through.
    Unpacked(Option<u64>),
    Checked(Option<MapFault>),
    Installed(Result<(), String>),
}

/// The value of a `FetchReply`.
pub enum FetchReplyView {
    Noted(Option<Seq<char>>),
    Downloaded(bool),
    Unpacked(Option<u64>),
    Checked(Option<MapFault>),
    Installed(Result<(), Seq<char>>),
}

impl View for FetchReply {
    type V = FetchReplyView;

    open spec fn view(&self) -> FetchReplyView {
        match self {
            FetchReply::Noted(Some(t)) => FetchReplyView::Noted(Some(t@)),
            FetchReply::Noted(None) => FetchReplyView::Noted(None),
            FetchReply::Downloaded(ok) => FetchReplyView::Downloaded(*ok),
            FetchReply::Unpacked(n) => FetchReplyView::Unpacked(*n),
            FetchReply::Checked(f) => FetchReplyView::Checked(*f),
            FetchReply::Installed(Ok(_)) => FetchReplyView::Installed(Ok(())),
            FetchReply::Installed(Err(e)) => FetchReplyView::Installed(Err(e@)),
        }
    }
}

/// What a reply leads to.
pub struct FetchTurn {
    pub phase: FetchPhase,
    /// What to tell the user.
    pub log: Option<String>,
    /// The packed file is no longer needed.
    pub drop_packed: bool,
    /// The plain file is no longer needed.
    pub drop_part: bool,
}

/// The value of a `FetchTurn`.
pub struct FetchTurnView {
    pub phase: FetchPhase,
    pub log: Option<Seq<char>>,
    pub drop_packed: bool,
    pub drop_part: bool,
}

impl View for FetchTurn {
    type V = FetchTurnView;

    open spec fn view(&self) -> FetchTurnView {
        FetchTurnView {
            phase: self.phase,
            log: match self.log {
                Some(t) => Some(t@),
                None => None,
            },
            drop_packed: self.drop_packed,
            drop_part: self.drop_part,
        }
    }
}

/// On to another phase, and nothing else.
pub open spec fn onward(phase: FetchPhase) -> FetchTurnView {
    FetchTurnView { phase, log: None, drop_packed: false, drop_part: false }
}

/// The end without a map: the plain file goes.
pub open spec fn given_up(text: Seq<char>) -> FetchTurnView {
    FetchTurnView {
        phase: FetchPhase::Finished(false),
        log: Some(text),
        drop_packed: false,
        drop_part: true,
    }
}

impl FetchView {
    /// The address of the packed map.
    pub open spec fn packed_url(self) -> Seq<char> {
        "https://mainr2.fastdl.me/hashed/"@ + self.sha1 + ".bsp.bz2"@
    }

    /// The address of the plain map.
    pub open spec fn plain_url(self) -> Seq<char> {
        "https://main.fastdl.me/hashed/"@ + self.sha1 + ".bsp"@
    }

    /// The note says that this version is installed.
    pub open spec fn is_current(self, note: Seq<char>) -> bool {
        match self.platform {
            Platform::Linux => trimmed(note) == self.sha1,
            Platform::Windows => same_but_case(trimmed(note), self.sha1),
        }
    }

    /// Unpacking gave a map: on Linux, nothing at all is no map.
    pub open spec fn is_unpacked(self, n: Option<u64>) -> bool {
        n is Some && (self.platform == Platform::Windows || n->0 > 0)
    }

    /// Said when fetching starts.
    pub open spec fn start_text(self) -> Seq<char> {
        match self.platform {
            Platform::Linux => "fetching correct map version: hashed/"@ + self.sha1
                + ".bsp.bz2 -> "@ + self.map + ".bsp"@,
            Platform::Windows => "fastdl: fetching hashed/"@ + self.sha1 + ".bsp.bz2 as "@
                + self.map + ".bsp"@,
        }
    }

    /// Said when the packed map cannot be unpacked.
    pub open spec fn unpack_text(self) -> Seq<char> {
        match self.platform {
            Platform::Linux => "bzip2 decompression failed (is `bzip2` installed?)"@,
            Platform::Windows => "fastdl: bzip2 decompression failed; trying legacy endpoint"@,
        }
    }

    /// Said when nothing could be downloaded.
    pub open spec fn missing_text(self) -> Seq<char> {
        match self.platform {
            Platform::Linux => "fastdl.me download failed; stock behavior applies"@,
            Platform::Windows => "fastdl: map download failed validation; stock behavior applies"@,
        }
    }

    /// Said of a map that fails a check.
    pub open spec fn fault_text(self, fault: MapFault) -> Seq<char> {
        match (self.platform, fault) {
            (Platform::Linux, MapFault::NotBsp) =>
            "downloaded file is not a BSP; refusing to install"@,
            (Platform::Linux, MapFault::WrongHash) =>
            "downloaded BSP SHA-1 differs from fastdl.me; refusing to install"@,
            (Platform::Windows, MapFault::NotBsp) =>
            "fastdl: map download failed validation; stock behavior applies"@,
            (Platform::Windows, MapFault::WrongHash) =>
            "fastdl: map SHA-1 differs from fastdl.me; stock behavior applies"@,
        }
    }

    /// Said of an installed map.
    pub open spec fn done_text(self) -> Seq<char> {
        match self.platform {
            Platform::Linux => "installed "@ + self.map + ".bsp from fastdl.me"@,
            Platform::Windows => "fastdl: installed "@ + self.map + ".bsp"@,
        }
    }

    /// Said of a map that could not be put in its place.
    pub open spec fn install_text(self, error: Seq<char>) -> Seq<char> {
        match self.platform {
            Platform::Linux => "installing "@ + self.map + ".bsp failed: "@ + error,
            Platform::Windows => "fastdl: installing "@ + self.place + " failed: "@ + error,
        }
    }

    /// What a reply leads to. One that was not waited for changes nothing.
    pub open spec fn next(self, phase: FetchPhase, reply: FetchReplyView) -> FetchTurnView {
        match (phase, reply) {
            (FetchPhase::Look, FetchReplyView::Noted(note)) => match note {
                Some(t) if self.is_current(t) => onward(FetchPhase::Finished(false)),
                _ => FetchTurnView {
                    log: Some(self.start_text()),
                    ..onward(FetchPhase::Packed)
                },
            },
            (FetchPhase::Packed, FetchReplyView::Downloaded(ok)) => if ok {
                onward(FetchPhase::Unpack)
            } else {
                FetchTurnView { drop_packed: true, ..onward(FetchPhase::Plain) }
            },
            (FetchPhase::Unpack, FetchReplyView::Unpacked(n)) => if self.is_unpacked(n) {
                FetchTurnView { drop_packed: true, ..onward(FetchPhase::Check) }
            } else {
                FetchTurnView {
                    phase: FetchPhase::Plain,
                    log: Some(self.unpack_text()),
                    drop_packed: true,
                    drop_part: true,
                }
            },
            (FetchPhase::Plain, FetchReplyView::Downloaded(ok)) => if ok {
                onward(FetchPhase::Check)
            } else {
                given_up(self.missing_text())
            },
            (FetchPhase::Check, FetchReplyView::Checked(fault)) => match fault {
                None => onward(FetchPhase::Install),
                Some(f) => given_up(self.fault_text(f)),
            },
            (FetchPhase::Install, FetchReplyView::Installed(r)) => match r {
                Ok(_) => FetchTurnView {
                    log: Some(self.done_text()),
                    ..onward(FetchPhase::Finished(true))
                },
                Err(e) => given_up(self.install_text(e)),
            },
            _ => onward(phase),
        }
    }
}

/// A text around a word.
fn around(left: &str, word: &str, right: &str) -> (r: String)
    ensures
        r@ == left@ + word@ + right@,
{
    let mut out: String = left.to_owned();
    out.append(word);
    out.append(right);
    out
}

/// On to another phase, and nothing else.
fn go(phase: FetchPhase) -> (r: FetchTurn)
    ensures
        r@ == onward(phase),
{
    FetchTurn { phase, log: None, drop_packed: false, drop_part: false }
}

/// The end without a map.
fn give_up(text: String) -> (r: FetchTurn)
    ensures
        r@ == given_up(text@),
{
    FetchTurn {
        phase: FetchPhase::Finished(false),
        log: Some(text),
        drop_packed: false,
        drop_part: true,
    }
}

impl Fetch {
    /// The address of the packed map.
    pub fn packed_url(&self) -> (r: String)
        ensures
            r@ == self@.packed_url(),
    {
        around("https://mainr2.fastdl.me/hashed/", self.sha1.as_str(), ".bsp.bz2")
    }

    /// The address of the plain map.
    pub fn plain_url(&self) -> (r: String)
        ensures
            r@ == self@.plain_url(),
    {
        around("https://main.fastdl.me/hashed/", self.sha1.as_str(), ".bsp")
    }

    fn is_current(&self, note: &str) -> (r: bool)
        ensures
            r == self@.is_current(note@),
    {
        let n: Vec<char> = chars(note);
        let have: &[char] = trim(n.as_slice());
        let want: Vec<char> = chars(self.sha1.as_str());
        match self.platform {
            Platform::Linux => same_chars(have, want.as_slice()),
            Platform::Windows => eq_ignore_case(have, want.as_slice()),
        }
    }

    fn is_unpacked(&self, n: Option<u64>) -> (r: bool)
        ensures
            r == self@.is_unpacked(n),
    {
        match n {
            Some(len) => match self.platform {
                Platform::Windows => true,
                Platform::Linux => len > 0,
            },
            None => false,
        }
    }

    fn start_text(&self) -> (r: String)
        ensures
            r@ == self@.start_text(),
    {
        let mut text: String = match self.platform {
            Platform::Linux => around(
                "fetching correct map version: hashed/",
                self.sha1.as_str(),
                ".bsp.bz2 -> ",
            ),
            Platform::Windows => around(
                "fastdl: fetching hashed/",
                self.sha1.as_str(),
                ".bsp.bz2 as ",
            ),
        };
        text.append(self.map.as_str());
        text.append(".bsp");
        text
    }

    fn fault_text(&self, fault: MapFault) -> (r: String)
        ensures
            r@ == self@.fault_text(fault),
    {
        match (self.platform, fault) {
            (Platform::Linux, MapFault::NotBsp) => {
                "downloaded file is not a BSP; refusing to install".to_owned()
            },
            (Platform::Linux, MapFault::WrongHash) => {
                "downloaded BSP SHA-1 differs from fastdl.me; refusing to install".to_owned()
            },
            (Platform::Windows, MapFault::NotBsp) => {
                "fastdl: map download failed validation; stock behavior applies".to_owned()
            },
            (Platform::Windows, MapFault::WrongHash) => {
                "fastdl: map SHA-1 differs from fastdl.me; stock behavior applies".to_owned()
            },
        }
    }

    /// Takes the reply to an action. One that was not waited for changes
    /// nothing.
    pub fn step(&self, phase: FetchPhase, reply: FetchReply) -> (r: FetchTurn)
        ensures
            r@ == self@.next(phase, reply@),
    {
        match (phase, reply) {
            (FetchPhase::Look, FetchReply::Noted(note)) => {
                let current: bool = match &note {
                    Some(t) => self.is_current(t.as_str()),
                    None => false,
                };
                if current {
                    go(FetchPhase::Finished(false))
                } else {
                    FetchTurn {
                        phase: FetchPhase::Packed,
                        log: Some(self.start_text()),
                        drop_packed: false,
                        drop_part: false,
                    }
                }
            },
            (FetchPhase::Packed, FetchReply::Downloaded(ok)) => if ok {
                go(FetchPhase::Unpack)
            } else {
                FetchTurn {
                    phase: FetchPhase::Plain,
                    log: None,
                    drop_packed: true,
                    drop_part: false,
                }
            },
            (FetchPhase::Unpack, FetchReply::Unpacked(n)) => if self.is_unpacked(n) {
                FetchTurn {
                    phase: FetchPhase::Check,
                    log: None,
                    drop_packed: true,
                    drop_part: false,
                }
            } else {
                let text: String = match self.platform {
                    Platform::Linux => {
                        "bzip2 decompression failed (is `bzip2` installed?)".to_owned()
                    },
                    Platform::Windows => {
                        "fastdl: bzip2 decompression failed; trying legacy endpoint".to_owned()
                    },
                };
                FetchTurn {
                    phase: FetchPhase::Plain,
                    log: Some(text),
                    drop_packed: true,
                    drop_part: true,
                }
            },
            (FetchPhase::Plain, FetchReply::Downloaded(ok)) => if ok {
                go(FetchPhase::Check)
            } else {
                match self.platform {
                    Platform::Linux => give_up(
                        "fastdl.me download failed; stock behavior applies".to_owned(),
                    ),
                    Platform::Windows => give_up(
                        "fastdl: map download failed validation; stock behavior applies".to_owned(),
                    ),
                }
            },
            (FetchPhase::Check, FetchReply::Checked(fault)) => match fault {
                None => go(FetchPhase::Install),
                Some(f) => give_up(self.fault_text(f)),
            },
            (FetchPhase::Install, FetchReply::Installed(r)) => match r {
                Ok(_) => {
                    let text: String = match self.platform {
                        Platform::Linux => around(
                            "installed ",
                            self.map.as_str(),
                            ".bsp from fastdl.me",
                        ),
                        Platform::Windows => around("fastdl: installed ", self.map.as_str(), ".bsp"),
                    };
                    FetchTurn {
                        phase: FetchPhase::Finished(true),
                        log: Some(text),
                        drop_packed: false,
                        drop_part: false,
                    }
                },
                Err(e) => {
                    let mut text: String = match self.platform {
                        Platform::Linux => around("installing ", self.map.as_str(), ".bsp failed: "),
                        Platform::Windows => around(
                            "fastdl: installing ",
                            self.place.as_str(),
                            " failed: ",
                        ),
                    };
                    text.append(e.as_str());
                    give_up(text)
                },
            },
            (phase, _) => go(phase),
        }
    }
}

/// A map is put in its place only after it was checked: the step before says
/// that nothing is wrong with it. And only what was put in its place counts as
/// installed.
pub proof fn nothing_unchecked_is_installed(
    f: FetchView,
    phase: FetchPhase,
    reply: FetchReplyView,
)
    requires
        f.next(phase, reply).phase != phase,
    ensures
        f.next(phase, reply).phase == FetchPhase::Install ==> phase == FetchPhase::Check && reply
            == FetchReplyView::Checked(None),
        f.next(phase, reply).phase == FetchPhase::Finished(true) ==> phase == FetchPhase::Install
            && reply is Installed && reply->Installed_0 is Ok,
{
}

/// A map that nothing is wrong with is a BSP with the expected SHA-1.
pub proof fn faultless_map_is_the_right_one(data: Seq<u8>, sha1: Seq<char>)
    requires
        map_fault(data, sha1_of(data), sha1) is None,
    ensures
        has_bsp_magic(data),
        same_but_case(hex_of(sha1_of(data)), sha1),
{
}

/// A map on its way: the file that is worked on, and the one in the map's place.
#[verifier::ext_equal]
pub struct FetchMoment {
    pub phase: FetchPhase,
    pub part: Seq<u8>,
    pub place: Option<Seq<u8>>,
}

/// One step of a caller that does what it is asked and says what came of it.
/// What is downloaded or unpacked can be anything.
pub open spec fn honest_fetch(f: FetchView, m: FetchMoment, reply: FetchReplyView, n: FetchMoment)
    -> bool {
    &&& n.phase == f.next(m.phase, reply).phase
    &&& match m.phase {
        FetchPhase::Unpack | FetchPhase::Plain => n.place == m.place,
        FetchPhase::Check => n.part == m.part && n.place == m.place && reply
            == FetchReplyView::Checked(map_fault(m.part, sha1_of(m.part), f.sha1)),
        FetchPhase::Install => reply is Installed && n.part == m.part && n.place == (
        if reply->Installed_0 is Ok {
            Some(m.part)
        } else {
            m.place
        }),
        _ => n.part == m.part && n.place == m.place,
    }
}

/// A map on its way from before anything was done.
pub open spec fn is_fetch(f: FetchView, ms: Seq<FetchMoment>, replies: Seq<FetchReplyView>) -> bool {
    &&& ms.len() == replies.len() + 1
    &&& ms[0].phase == FetchPhase::Look
    &&& forall|i: int|
        0 <= i < replies.len() ==> honest_fetch(f, ms[i], #[trigger] replies[i], ms[i + 1])
}

/// A BSP with the wanted SHA-1.
pub open spec fn is_right_map(data: Seq<u8>, sha1: Seq<char>) -> bool {
    has_bsp_magic(data) && same_but_case(hex_of(sha1_of(data)), sha1)
}

/// Whatever was downloaded: what stands in the map's place is what stood there
/// before, or a BSP with the wanted SHA-1; and it is the latter where the map
/// is said to be installed.
pub proof fn only_the_right_map_is_installed(
    f: FetchView,
    ms: Seq<FetchMoment>,
    replies: Seq<FetchReplyView>,
)
    requires
        is_fetch(f, ms, replies),
    ensures
        ms.last().place == ms[0].place || ms.last().place is Some && is_right_map(
            ms.last().place->0,
            f.sha1,
        ),
        ms.last().phase == FetchPhase::Install ==> is_right_map(ms.last().part, f.sha1),
        ms.last().phase == FetchPhase::Finished(true) ==> ms.last().place is Some
            && is_right_map(ms.last().place->0, f.sha1),
    decreases replies.len(),
{
    if replies.len() > 0 {
        let k = replies.len() - 1;
        assert(honest_fetch(f, ms[k], replies[k], ms[k + 1]));
        assert forall|i: int| 0 <= i < k implies honest_fetch(
            f,
            ms.drop_last()[i],
            #[trigger] replies.drop_last()[i],
            ms.drop_last()[i + 1],
        ) by {
            assert(honest_fetch(f, ms[i], replies[i], ms[i + 1]));
        }
        only_the_right_map_is_installed(f, ms.drop_last(), replies.drop_last());
        if ms[k].phase == FetchPhase::Check {
            assert(map_fault(ms[k].part, sha1_of(ms[k].part), f.sha1) is None ==> is_right_map(
                ms[k].part,
                f.sha1,
            ));
        }
    }
}

/// How many steps are left at most.
pub open spec fn steps_left(phase: FetchPhase) -> int {
    match phase {
        FetchPhase::Look => 6,
        FetchPhase::Packed => 5,
        FetchPhase::Unpack => 4,
        FetchPhase::Plain => 3,
        FetchPhase::Check => 2,
        FetchPhase::Install => 1,
        FetchPhase::Finished(_) => 0,
    }
}

/// Fetching comes to an end: every reply that was waited for leads on.
pub proof fn fetching_ends(f: FetchView, phase: FetchPhase, reply: FetchReplyView)
    requires
        f.next(phase, reply).phase != phase,
    ensures
        steps_left(f.next(phase, reply).phase) < steps_left(phase),
{
}

/// A map that is there gets installed: another version is fetched packed,
/// unpacked, checked and put in its place, in this order; and where no packed
/// one is to be had, or it cannot be unpacked, the plain one takes its way.
pub proof fn a_map_that_is_there_gets_installed(f: FetchView, note: Option<Seq<char>>, n: u64)
    requires
        note matches Some(t) ==> !f.is_current(t),
        n > 0,
    ensures
        f.next(FetchPhase::Look, FetchReplyView::Noted(note)).phase == FetchPhase::Packed,
        f.next(FetchPhase::Packed, FetchReplyView::Downloaded(true)).phase == FetchPhase::Unpack,
        f.next(FetchPhase::Packed, FetchReplyView::Downloaded(false)).phase == FetchPhase::Plain,
        f.next(FetchPhase::Unpack, FetchReplyView::Unpacked(Some(n))).phase == FetchPhase::Check,
        f.next(FetchPhase::Unpack, FetchReplyView::Unpacked(None)).phase == FetchPhase::Plain,
        f.next(FetchPhase::Plain, FetchReplyView::Downloaded(true)).phase == FetchPhase::Check,
        f.next(FetchPhase::Check, FetchReplyView::Checked(None)).phase == FetchPhase::Install,
        f.next(FetchPhase::Install, FetchReplyView::Installed(Ok(()))).phase
            == FetchPhase::Finished(true),
{
}

/// What fails ends without a map: no download at all, a fault, or a place that
/// could not be written to.
pub proof fn a_failed_fetch_installs_nothing(f: FetchView, fault: MapFault, e: Seq<char>)
    ensures
        f.next(FetchPhase::Plain, FetchReplyView::Downloaded(false)).phase == FetchPhase::Finished(
            false,
        ),
        f.next(FetchPhase::Check, FetchReplyView::Checked(Some(fault))).phase
            == FetchPhase::Finished(false),
        f.next(FetchPhase::Install, FetchReplyView::Installed(Err(e))).phase
            == FetchPhase::Finished(false),
        f.platform == Platform::Linux ==> f.next(
            FetchPhase::Unpack,
            FetchReplyView::Unpacked(Some(0)),
        ).phase == FetchPhase::Plain,
{
}

/// The files that are worked on are dropped in time, and never too early: the
/// packed one once it is no longer of use, the plain one where it is given up
/// or to be fetched anew, and not while it is to be checked or installed.
pub proof fn files_are_dropped_in_time(f: FetchView, phase: FetchPhase, reply: FetchReplyView)
    requires
        f.next(phase, reply).phase != phase,
    ensures
        ({
            let t = f.next(phase, reply);
            &&& (phase == FetchPhase::Unpack || phase == FetchPhase::Packed) && t.phase
                != FetchPhase::Unpack ==> t.drop_packed
            &&& t.phase == FetchPhase::Unpack ==> !t.drop_packed
            &&& t.phase == FetchPhase::Check || t.phase == FetchPhase::Install || t.phase
                == FetchPhase::Finished(true) ==> !t.drop_part
            &&& t.phase == FetchPhase::Finished(false) && phase != FetchPhase::Look ==> t.drop_part
            &&& t.phase == FetchPhase::Plain && phase == FetchPhase::Unpack ==> t.drop_part
        }),
{
}

/// The version that is installed already is not fetched, whatever white space
/// stands around its note; a note of another version does not hinder.
pub proof fn the_installed_version_stays(
    f: FetchView,
    before: Seq<char>,
    note: Seq<char>,
    after: Seq<char>,
)
    requires
        forall|i: int| 0 <= i < before.len() ==> is_white(#[trigger] before[i]),
        forall|i: int| 0 <= i < after.len() ==> is_white(#[trigger] after[i]),
        note.len() > 0 ==> !is_white(note[0]) && !is_white(note.last()),
    ensures
        note == f.sha1 ==> f.next(
            FetchPhase::Look,
            FetchReplyView::Noted(Some(before + note + after)),
        ).phase == FetchPhase::Finished(false),
        f.platform == Platform::Windows && same_but_case(note, f.sha1) ==> f.next(
            FetchPhase::Look,
            FetchReplyView::Noted(Some(before + note + after)),
        ).phase == FetchPhase::Finished(false),
        f.platform == Platform::Linux && note != f.sha1 ==> f.next(
            FetchPhase::Look,
            FetchReplyView::Noted(Some(before + note + after)),
        ).phase == FetchPhase::Packed,
        f.platform == Platform::Windows && !same_but_case(note, f.sha1) ==> f.next(
            FetchPhase::Look,
            FetchReplyView::Noted(Some(before + note + after)),
        ).phase == FetchPhase::Packed,
        f.next(FetchPhase::Look, FetchReplyView::Noted(None)).phase == FetchPhase::Packed,
{
    trimming_takes_the_space_around(before, note, after);
    case_is_ignored(note, note);
}

/// The right map passes the check, and no other: it starts with `VBSP`, and the
/// digits of its SHA-1 are those of the list.
pub proof fn the_right_map_passes(data: Seq<u8>, digest: Seq<u8>, sha1: Seq<char>)
    ensures
        map_fault(data, digest, sha1) is None <==> data.len() >= 4 && data[0] == 'V' as u8
            && data[1] == 'B' as u8 && data[2] == 'S' as u8 && data[3] == 'P' as u8 && sha1.len()
            == hex_of(digest).len() && forall|i: int|
            0 <= i < sha1.len() ==> lower_char(#[trigger] sha1[i]) == lower_char(
                hex_of(digest)[i],
            ),
        map_fault(data, digest, sha1) == Some(MapFault::NotBsp) <==> !(data.len() >= 4 && data[0]
            == 'V' as u8 && data[1] == 'B' as u8 && data[2] == 'S' as u8 && data[3] == 'P' as u8),
{
    let have = hex_of(digest);
    if sha1.len() == have.len() && forall|i: int|
        0 <= i < sha1.len() ==> lower_char(#[trigger] sha1[i]) == lower_char(have[i]) {
        assert forall|i: int| 0 <= i < have.len() implies lower_char(#[trigger] have[i])
            == lower_char(sha1[i]) by {
            assert(lower_char(sha1[i]) == lower_char(have[i]));
        }
    }
    if same_but_case(have, sha1) {
        assert forall|i: int| 0 <= i < sha1.len() implies lower_char(#[trigger] sha1[i])
            == lower_char(have[i]) by {
            assert(lower_char(have[i]) == lower_char(sha1[i]));
        }
    }
}

/// The addresses are encrypted ones, and each version has its own.
pub proof fn each_version_has_its_address(f: FetchView, g: FetchView)
    ensures
        f.packed_url() == g.packed_url() ==> f.sha1 == g.sha1,
        f.plain_url() == g.plain_url() ==> f.sha1 == g.sha1,
        f.packed_url() == "https://mainr2.fastdl.me/hashed/"@ + f.sha1 + ".bsp.bz2"@,
        f.plain_url() == "https://main.fastdl.me/hashed/"@ + f.sha1 + ".bsp"@,
{
    middle_is("https://mainr2.fastdl.me/hashed/"@, f.sha1, ".bsp.bz2"@);
    middle_is("https://mainr2.fastdl.me/hashed/"@, g.sha1, ".bsp.bz2"@);
    middle_is("https://main.fastdl.me/hashed/"@, f.sha1, ".bsp"@);
    middle_is("https://main.fastdl.me/hashed/"@, g.sha1, ".bsp"@);
}

proof fn middle_is(a: Seq<char>, b: Seq<char>, c: Seq<char>)
    ensures
        b == (a + b + c).subrange(a.len() as int, (a + b + c).len() - c.len()),
{
    assert(b =~= (a + b + c).subrange(a.len() as int, (a + b + c).len() - c.len()));
}

/// A packed map may take 20 seconds and a plain one 8, and neither may be
/// larger than a gigabyte.
pub proof fn downloads_have_limits()
    ensures
        PACKED_SECONDS == 20,
        PLAIN_SECONDS == 8,
        MAX_MAP_BYTES == 1024 * 1024 * 1024,
{
}

} // verus!
