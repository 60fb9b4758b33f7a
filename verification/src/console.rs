//! The game's console, demos and download progress.
//!
//! Commands come from any thread and run on the game's main thread, so they
//! are queued. The queue is short, and so is each command: the engine copies
//! it into a fixed buffer.
use vstd::prelude::*;
use vstd::utf8::{encode_utf8, is_ascii_chars_encode_utf8};

use crate::phrase::has_char;
use crate::text::{
    chars, copy_str, dec_text, push_dec, push_signed, signed_text, string_of, string_views,
};

verus! {

/// How many commands are queued at most.
pub const MAX_COMMANDS: usize = 32;

/// How many bytes a command has at most.
pub const MAX_COMMAND: usize = 180;

/// The longest beginning of a text with at most `n` bytes.
pub open spec fn fitted(s: Seq<char>, n: nat) -> Seq<char>
    decreases s.len(),
{
    if s.len() == 0 || encode_utf8(s).len() <= n {
        s
    } else {
        fitted(s.drop_last(), n)
    }
}

proof fn fitted_fits(s: Seq<char>, n: nat)
    ensures
        encode_utf8(fitted(s, n)).len() <= n,
        fitted(s, n).len() <= s.len(),
        fitted(s, n) == s.take(fitted(s, n).len() as int),
    decreases s.len(),
{
    if s.len() == 0 {
        assert(s.take(0) =~= s);
    } else if encode_utf8(s).len() <= n {
        assert(s.take(s.len() as int) =~= s);
    } else {
        fitted_fits(s.drop_last(), n);
        let k = fitted(s, n).len() as int;
        assert(s.drop_last().take(k) =~= s.take(k));
    }
}

/// The longest beginning of a text with at most `n` bytes.
fn fit(s: &str, n: usize) -> (r: String)
    ensures
        r@ == fitted(s@, n as nat),
{
    let cs: Vec<char> = chars(s);
    let mut out: String = s.to_owned();
    let mut k: usize = cs.len();
    assert(cs@.take(k as int) =~= cs@);
    while k > 0 && out.as_str().as_bytes().len() > n
        invariant
            k <= cs.len(),
            cs@ == s@,
            out@ == cs@.take(k as int),
            fitted(s@, n as nat) == fitted(out@, n as nat),
        decreases k,
    {
        assert(cs@.take(k as int).drop_last() =~= cs@.take(k - 1));
        k = k - 1;
        let part: &[char] = vstd::slice::slice_subrange(cs.as_slice(), 0, k);
        assert(part@ =~= cs@.take(k as int));
        out = string_of(part);
    }
    out
}

/// The commands that wait, and the map whose demo is to be recorded.
pub struct Console {
    ready: bool,
    demos: bool,
    commands: Vec<String>,
    demo: Option<String>,
}

/// The value of a `Console`.
#[verifier::ext_equal]
pub struct ConsoleView {
    /// Whether the engine's console was found.
    pub ready: bool,
    /// Whether demos are recorded.
    pub demos: bool,
    pub commands: Seq<Seq<char>>,
    pub demo: Option<Seq<char>>,
}

impl View for Console {
    type V = ConsoleView;

    closed spec fn view(&self) -> ConsoleView {
        ConsoleView {
            ready: self.ready,
            demos: self.demos,
            commands: string_views(self.commands@),
            demo: match self.demo {
                Some(m) => Some(m@),
                None => None,
            },
        }
    }
}

impl ConsoleView {
    /// There are few commands, and each is short.
    pub open spec fn wf(self) -> bool {
        &&& self.commands.len() <= MAX_COMMANDS
        &&& forall|i: int|
            0 <= i < self.commands.len() ==> encode_utf8(#[trigger] self.commands[i]).len()
                <= MAX_COMMAND
    }

    /// After a command was queued. Without a console, or with a full queue, it
    /// is dropped.
    pub open spec fn queued(self, command: Seq<char>) -> ConsoleView {
        if self.ready && self.commands.len() < MAX_COMMANDS {
            ConsoleView {
                commands: self.commands.push(fitted(command, MAX_COMMAND as nat)),
                ..self
            }
        } else {
            self
        }
    }

    /// After a map was named: its demo is wanted, if demos are.
    pub open spec fn armed(self, map: Seq<char>) -> ConsoleView {
        if self.demos && self.ready {
            ConsoleView { demo: Some(map), ..self }
        } else {
            self
        }
    }

    /// After the first moment in the game: a wanted demo starts.
    pub open spec fn ticked(self, time: int) -> ConsoleView {
        match self.demo {
            None => self,
            Some(map) => (ConsoleView { demo: None, ..self }).queued("stop"@).queued(
                "record "@ + map + "_"@ + dec_text(time),
            ),
        }
    }
}

/// The commands that can be handed over: those without a NUL.
pub open spec fn runnable(commands: Seq<Seq<char>>) -> Seq<Seq<char>>
    decreases commands.len(),
{
    if commands.len() == 0 {
        Seq::empty()
    } else if commands.last().contains('\0') {
        runnable(commands.drop_last())
    } else {
        runnable(commands.drop_last()).push(commands.last())
    }
}

impl Console {
    #[verifier::type_invariant]
    spec fn inv(self) -> bool {
        self@.wf()
    }

    /// A console, as far as it was found.
    pub fn new(ready: bool, demos: bool) -> (r: Console)
        ensures
            r@ == (ConsoleView { ready, demos, commands: Seq::empty(), demo: None }),
    {
        let r: Console = Console { ready, demos, commands: Vec::new(), demo: None };
        assert(r@.commands =~= Seq::empty());
        r
    }

    /// How many commands wait.
    pub fn waiting(&self) -> (r: usize)
        ensures
            r == self@.commands.len(),
            self@.wf(),
    {
        proof {
            use_type_invariant(self);
        }
        self.commands.len()
    }

    fn copies(&self) -> (r: Vec<String>)
        ensures
            string_views(r@) == self@.commands,
    {
        let mut out: Vec<String> = Vec::new();
        let mut i: usize = 0;
        let ghost all = string_views(self.commands@);
        assert(string_views(out@) =~= all.take(0));
        while i < self.commands.len()
            invariant
                i <= self.commands.len(),
                all == string_views(self.commands@),
                string_views(out@) == all.take(i as int),
            decreases self.commands.len() - i,
        {
            let ghost so_far = string_views(out@);
            let copy: String = copy_str(&self.commands[i]);
            out.push(copy);
            assert(string_views(out@) =~= so_far.push(copy@));
            assert(all.take(i + 1) =~= all.take(i as int).push(all[i as int]));
            i = i + 1;
        }
        assert(all.take(all.len() as int) =~= all);
        out
    }

    /// Queues a command, cut to its greatest length at a character border.
    pub fn queue_command(&mut self, command: &str)
        ensures
            final(self)@ == old(self)@.queued(command@),
    {
        proof {
            use_type_invariant(&*self);
        }
        if !self.ready || self.commands.len() >= MAX_COMMANDS {
            return;
        }
        let short: String = fit(command, MAX_COMMAND);
        proof {
            fitted_fits(command@, MAX_COMMAND as nat);
        }
        let ghost before = self@.commands;
        let mut all: Vec<String> = self.copies();
        all.push(short);
        assert(string_views(all@) =~= before.push(short@));
        self.commands = all;
    }

    /// Takes the commands that wait, for the engine to run. Those that hold a
    /// NUL are dropped.
    pub fn pump(&mut self) -> (r: Vec<String>)
        ensures
            string_views(r@) == if old(self)@.ready {
                runnable(old(self)@.commands)
            } else {
                Seq::empty()
            },
            final(self)@ == if old(self)@.ready {
                ConsoleView { commands: Seq::empty(), ..old(self)@ }
            } else {
                old(self)@
            },
    {
        proof {
            use_type_invariant(&*self);
        }
        let mut out: Vec<String> = Vec::new();
        assert(string_views(out@) =~= Seq::empty());
        if !self.ready {
            return out;
        }
        let ghost all = string_views(self.commands@);
        assert(all.take(0) =~= Seq::empty());
        let mut i: usize = 0;
        while i < self.commands.len()
            invariant
                i <= self.commands.len(),
                all == string_views(self.commands@),
                string_views(out@) == runnable(all.take(i as int)),
            decreases self.commands.len() - i,
        {
            let ghost so_far = string_views(out@);
            assert(all[i as int] == self.commands@[i as int]@);
            assert(all.take(i + 1).drop_last() =~= all.take(i as int));
            assert(all.take(i + 1).last() == all[i as int]);
            let cs: Vec<char> = chars(self.commands[i].as_str());
            if !has_char(cs.as_slice(), '\0') {
                let copy: String = copy_str(&self.commands[i]);
                out.push(copy);
                assert(string_views(out@) =~= so_far.push(copy@));
            }
            i = i + 1;
        }
        assert(all.take(all.len() as int) =~= all);
        let none: Vec<String> = Vec::new();
        assert(string_views(none@) =~= Seq::empty());
        self.commands = none;
        out
    }

    /// The engine's console is gone, and with it what waits.
    pub fn shutdown(&mut self)
        ensures
            final(self)@ == (ConsoleView {
                ready: false,
                demos: old(self)@.demos,
                commands: Seq::empty(),
                demo: None,
            }),
    {
        proof {
            use_type_invariant(&*self);
        }
        self.ready = false;
        let none: Vec<String> = Vec::new();
        assert(string_views(none@) =~= Seq::empty());
        self.commands = none;
        self.demo = None;
    }
}

/// Queues a command. One that is too long has to have a character border where
/// it is cut.
pub fn queue_cmd(console: &mut Console, cmd: &str)
    requires
        old(console)@.ready ==> encode_utf8(cmd@).len() <= MAX_COMMAND || exists|k: int|
            0 <= k <= cmd@.len() && encode_utf8(#[trigger] cmd@.take(k)).len() == MAX_COMMAND,
    ensures
        final(console)@ == old(console)@.queued(cmd@),
{
    console.queue_command(cmd);
}

/// Wants a demo of a map, if demos are recorded.
pub fn arm_demo(console: &mut Console, mapname: &str)
    ensures
        final(console)@ == old(console)@.armed(mapname@),
{
    proof {
        use_type_invariant(&*console);
    }
    if !console.demos || !console.ready {
        return;
    }
    console.demo = Some(mapname.to_owned());
}

/// Starts a wanted demo: stops any other, and records one named after the map
/// and the time. Gives what to tell the user.
pub fn demo_tick(console: &mut Console, time: u64) -> (r: Option<String>)
    ensures
        final(console)@ == old(console)@.ticked(time as int),
        match (r, old(console)@.demo) {
            (Some(t), Some(map)) => t@ == "demo: recording "@ + map + "_"@ + dec_text(time as int)
                + ".dem"@,
            (None, None) => true,
            _ => false,
        },
{
    proof {
        use_type_invariant(&*console);
    }
    let map: String = match &console.demo {
        None => {
            return None;
        },
        Some(m) => copy_str(m),
    };
    console.demo = None;
    console.queue_command("stop");
    let mut command: String = "record ".to_owned();
    command.append(map.as_str());
    command.append("_");
    push_dec(&mut command, time);
    console.queue_command(command.as_str());
    let mut text: String = "demo: recording ".to_owned();
    text.append(map.as_str());
    text.append("_");
    push_dec(&mut text, time);
    text.append(".dem");
    Some(text)
}

/// Queueing keeps the queue short and every command short, and what waits
/// already stays in place.
pub proof fn queue_stays_short(c: ConsoleView, command: Seq<char>)
    requires
        c.wf(),
    ensures
        c.queued(command).wf(),
        c.queued(command).commands.len() >= c.commands.len(),
        forall|i: int|
            0 <= i < c.commands.len() ==> c.queued(command).commands[i] == #[trigger] c.commands[i],
{
    fitted_fits(command, MAX_COMMAND as nat);
    let q = c.queued(command);
    assert forall|i: int| 0 <= i < q.commands.len() implies encode_utf8(
        #[trigger] q.commands[i],
    ).len() <= MAX_COMMAND by {
        if i < c.commands.len() {
            assert(q.commands[i] == c.commands[i]);
        }
    }
}

/// What has been seen of a download.
#[derive(Clone, Copy, Debug, Eq, PartialEq, Structural)]
pub struct Downloads {
    /// How many looks came since the last one that counted.
    pub skipped: u32,
    /// Whether one is under way.
    pub active: bool,
    /// The percentage that was told last, or a negative number.
    pub last: i32,
}

/// The percentage before anything was told.
pub const UNTOLD: i32 = -1;

/// How many looks make one that counts.
pub const LOOKS: u32 = 16;

/// Pointers below this are none.
pub const LOW_POINTER: u64 = 0x1_0000;

/// What the engine shows of a download, as far as it could be read.
pub struct Sample {
    /// The pointer to the request.
    pub request: Option<u64>,
    pub http: Option<u8>,
    pub state: Option<i32>,
    pub total: Option<i32>,
    pub current: Option<i32>,
    pub name: Option<String>,
}

/// What to do after a look.
pub enum Progress {
    Nothing,
    /// The download has ended: tell the user, and flash the window.
    Complete,
    /// Tell the user this.
    Tell(String),
}

/// The value of a `Progress`.
pub enum ProgressView {
    Nothing,
    Complete,
    Tell(Seq<char>),
}

impl View for Progress {
    type V = ProgressView;

    open spec fn view(&self) -> ProgressView {
        match self {
            Progress::Nothing => ProgressView::Nothing,
            Progress::Complete => ProgressView::Complete,
            Progress::Tell(t) => ProgressView::Tell(t@),
        }
    }
}

/// Division that rounds towards zero.
pub open spec fn quotient(a: int, b: int) -> int {
    if a >= 0 {
        a / b
    } else {
        -((-a) / b)
    }
}

/// A number as 32 bits hold it.
pub open spec fn wrapped(v: int) -> int {
    let m = v % 0x1_0000_0000;
    if m >= 0x8000_0000 {
        m - 0x1_0000_0000
    } else {
        m
    }
}

/// The percentage of a download, as 32 bits hold it.
pub open spec fn percent(current: int, total: int) -> int {
    wrapped(quotient(current * 100, total))
}

/// A percentage that is worth telling after `last`.
pub open spec fn is_news(pct: int, last: int) -> bool {
    last < 0 || pct >= last + 5 || pct >= 100
}

/// A text of printable ASCII.
pub open spec fn is_printable(s: Seq<char>) -> bool {
    forall|i: int| 0 <= i < s.len() ==> ' ' <= #[trigger] s[i] <= '~'
}

/// What stands behind the last separator, up to `n`.
pub open spec fn base_name(s: Seq<char>, back: bool, n: int) -> Seq<char>
    decreases n,
{
    if n <= 0 {
        s
    } else if s[n - 1] == '/' || (back && s[n - 1] == '\\') {
        s.skip(n)
    } else {
        base_name(s, back, n - 1)
    }
}

/// The name of a request that looks like a file in a directory. On Windows a
/// backslash separates too.
pub open spec fn is_asset(s: Seq<char>, back: bool) -> bool {
    s.len() > 0 && (s.contains('/') || (back && s.contains('\\'))) && is_printable(s)
}

/// What to tell of a download.
pub open spec fn progress_text(
    name: Seq<char>,
    back: bool,
    pct: int,
    current: int,
    total: int,
) -> Seq<char> {
    "downloading "@ + base_name(name, back, name.len() as int) + ": "@ + signed_text(pct) + "% ("@
        + signed_text(quotient(current, 1024)) + " / "@ + signed_text(quotient(total, 1024))
        + " KB)"@
}

/// A number, or zero.
pub open spec fn or_zero(v: Option<i32>) -> int {
    match v {
        Some(x) => x as int,
        None => 0,
    }
}

impl Downloads {
    /// Nothing has been seen.
    pub fn new() -> (r: Downloads)
        ensures
            r == (Downloads { skipped: 0, active: false, last: UNTOLD }),
    {
        Downloads { skipped: 0, active: false, last: UNTOLD }
    }

    /// Whether this look counts: every sixteenth does.
    pub fn is_due(&mut self) -> (r: bool)
        requires
            old(self).skipped < LOOKS,
        ensures
            r == (old(self).skipped == 0),
            *final(self) == (Downloads {
                skipped: (if old(self).skipped + 1 < LOOKS {
                    (old(self).skipped + 1) as u32
                } else {
                    0
                }),
                ..*old(self)
            }),
    {
        let due: bool = self.skipped == 0;
        self.skipped = if self.skipped + 1 < LOOKS {
            self.skipped + 1
        } else {
            0
        };
        due
    }

    /// No request: a download that was under way has ended.
    pub open spec fn ended(self) -> (Downloads, ProgressView) {
        if self.active {
            (Downloads { active: false, last: UNTOLD, ..self }, ProgressView::Complete)
        } else {
            (self, ProgressView::Nothing)
        }
    }

    /// After a look, on Linux.
    pub open spec fn polled(self, s: Sample) -> (Downloads, ProgressView) {
        match s.request {
            Some(r) if r > LOW_POINTER => {
                let total = or_zero(s.total);
                let current = or_zero(s.current);
                if (s.http is None || s.http == Some(0u8)) || or_zero(s.state) != 1 || total <= 0 {
                    (self, ProgressView::Nothing)
                } else {
                    let pct = percent(current, total);
                    if !is_news(pct, self.last as int) {
                        (Downloads { active: true, ..self }, ProgressView::Nothing)
                    } else {
                        (
                            Downloads { active: true, last: pct as i32, ..self },
                            match s.name {
                                Some(name) if is_asset(name@, false) => ProgressView::Tell(
                                    progress_text(name@, false, pct, current, total),
                                ),
                                _ => ProgressView::Nothing,
                            },
                        )
                    }
                }
            },
            _ => self.ended(),
        }
    }

    /// After a look, on Windows.
    pub open spec fn polled_windows(self, s: Sample) -> (Downloads, ProgressView) {
        match (s.request, s.http, s.state, s.total, s.current, s.name) {
            (None, _, _, _, _, _) => (self, ProgressView::Nothing),
            (Some(0u64), _, _, _, _, _) => self.ended(),
            (Some(_), Some(http), Some(state), Some(total), Some(current), Some(name)) => {
                let pct = percent(current as int, total as int);
                if http == 0 || state != 1 || total <= 0 || current < 0 || current > total
                    || !is_news(pct, self.last as int) || !is_asset(name@, true) {
                    (self, ProgressView::Nothing)
                } else {
                    (
                        Downloads { active: true, last: pct as i32, ..self },
                        ProgressView::Tell(
                            progress_text(name@, true, pct, current as int, total as int),
                        ),
                    )
                }
            },
            _ => (self, ProgressView::Nothing),
        }
    }
}

/// A number as 32 bits hold it.
fn wrap(v: i64) -> (r: i32)
    ensures
        r == wrapped(v as int),
{
    let shifted: i128 = v as i128 + 0x1_0000_0000_0000_0000;
    let m: u128 = (shifted as u128) % 0x1_0000_0000;
    assert(m == (v as int) % 0x1_0000_0000) by {
        assert((v as int + 0x1_0000_0000_0000_0000) % 0x1_0000_0000 == (v as int) % 0x1_0000_0000)
            by (nonlinear_arith);
    }
    if m >= 0x8000_0000 {
        ((m as i64) - 0x1_0000_0000) as i32
    } else {
        m as i32
    }
}

/// Division that rounds towards zero.
fn divide(a: i64, b: i64) -> (r: i64)
    requires
        b > 0,
        a > i64::MIN,
    ensures
        r == quotient(a as int, b as int),
        -(if a >= 0 { a as int } else { -(a as int) }) <= r <= (if a >= 0 { a as int } else { -(a as int) }),
{
    if a >= 0 {
        let r: i64 = ((a as u64) / (b as u64)) as i64;
        assert(r <= a) by (nonlinear_arith)
            requires
                r == (a as int) / (b as int),
                a >= 0,
                b > 0,
        ;
        r
    } else {
        let n: u64 = (0 - a) as u64;
        let q: u64 = n / (b as u64);
        assert(q <= n) by (nonlinear_arith)
            requires
                q == (n as int) / (b as int),
                b > 0,
        ;
        0 - (q as i64)
    }
}

/// Whether a text is printable ASCII.
fn printable(s: &[char]) -> (r: bool)
    ensures
        r == is_printable(s@),
{
    let mut i: usize = 0;
    while i < s.len()
        invariant
            i <= s.len(),
            forall|j: int| 0 <= j < i ==> ' ' <= #[trigger] s@[j] <= '~',
        decreases s.len() - i,
    {
        if !(' ' <= s[i] && s[i] <= '~') {
            assert(!(' ' <= s@[i as int] <= '~'));
            return false;
        }
        i = i + 1;
    }
    true
}

/// Whether the name of a request looks like a file in a directory.
fn asset_name(s: &[char], back: bool) -> (r: bool)
    ensures
        r == is_asset(s@, back),
{
    s.len() > 0 && (has_char(s, '/') || (back && has_char(s, '\\'))) && printable(s)
}

/// What to tell of a download.
fn tell(name: &[char], back: bool, pct: i32, current: i32, total: i32) -> (r: String)
    ensures
        r@ == progress_text(name@, back, pct as int, current as int, total as int),
{
    let mut n: usize = name.len();
    while n > 0 && !(name[n - 1] == '/' || (back && name[n - 1] == '\\'))
        invariant
            n <= name.len(),
            base_name(name@, back, name@.len() as int) == base_name(name@, back, n as int),
        decreases n,
    {
        n = n - 1;
    }
    let base: &[char] = vstd::slice::slice_subrange(name, n, name.len());
    assert(base@ =~= name@.skip(n as int));
    assert(name@.skip(0) =~= name@);
    let mut text: String = "downloading ".to_owned();
    let base_text: String = string_of(base);
    text.append(base_text.as_str());
    text.append(": ");
    push_signed(&mut text, pct);
    text.append("% (");
    push_signed(&mut text, kilobytes(current));
    text.append(" / ");
    push_signed(&mut text, kilobytes(total));
    text.append(" KB)");
    text
}

/// Whole kilobytes.
fn kilobytes(n: i32) -> (r: i32)
    ensures
        r == quotient(n as int, 1024),
{
    divide(n as i64, 1024) as i32
}

/// The percentage of a download.
fn percent_of(current: i32, total: i32) -> (r: i32)
    requires
        total > 0,
    ensures
        r == percent(current as int, total as int),
{
    wrap(divide(current as i64 * 100, total as i64))
}

/// Whether a percentage is worth telling.
fn news(pct: i32, last: i32) -> (r: bool)
    ensures
        r == is_news(pct as int, last as int),
{
    last < 0 || pct as i64 >= last as i64 + 5 || pct >= 100
}

fn end_download(d: &mut Downloads) -> (r: Progress)
    ensures
        (*final(d), r@) == old(d).ended(),
{
    if d.active {
        d.active = false;
        d.last = UNTOLD;
        Progress::Complete
    } else {
        Progress::Nothing
    }
}

fn zero_or(v: Option<i32>) -> (r: i32)
    ensures
        r == or_zero(v),
{
    match v {
        Some(x) => x,
        None => 0,
    }
}

/// Looks at a download, on Linux.
pub fn poll_downloads(d: &mut Downloads, s: &Sample) -> (r: Progress)
    ensures
        (*final(d), r@) == old(d).polled(*s),
{
    let request: u64 = match s.request {
        Some(r) => r,
        None => 0,
    };
    if request <= LOW_POINTER {
        return end_download(d);
    }
    let http: u8 = match s.http {
        Some(h) => h,
        None => 0,
    };
    let state: i32 = zero_or(s.state);
    let total: i32 = zero_or(s.total);
    let current: i32 = zero_or(s.current);
    if http == 0 || state != 1 || total <= 0 {
        return Progress::Nothing;
    }
    d.active = true;
    let pct: i32 = percent_of(current, total);
    if !news(pct, d.last) {
        return Progress::Nothing;
    }
    d.last = pct;
    match &s.name {
        Some(name) => {
            let cs: Vec<char> = chars(name.as_str());
            if asset_name(cs.as_slice(), false) {
                Progress::Tell(tell(cs.as_slice(), false, pct, current, total))
            } else {
                Progress::Nothing
            }
        },
        None => Progress::Nothing,
    }
}

/// Looks at a download, on Windows.
pub fn poll_downloads_windows(d: &mut Downloads, s: &Sample) -> (r: Progress)
    ensures
        (*final(d), r@) == old(d).polled_windows(*s),
{
    let request: u64 = match s.request {
        Some(r) => r,
        None => {
            return Progress::Nothing;
        },
    };
    if request == 0 {
        return end_download(d);
    }
    match (s.http, s.state, s.total, s.current, &s.name) {
        (Some(http), Some(state), Some(total), Some(current), Some(name)) => {
            if http == 0 || state != 1 || total <= 0 || current < 0 || current > total {
                return Progress::Nothing;
            }
            let pct: i32 = percent_of(current, total);
            let cs: Vec<char> = chars(name.as_str());
            if !news(pct, d.last) || !asset_name(cs.as_slice(), true) {
                return Progress::Nothing;
            }
            d.last = pct;
            d.active = true;
            Progress::Tell(tell(cs.as_slice(), true, pct, current, total))
        },
        _ => Progress::Nothing,
    }
}

/// The end of a download is told once: after it, nothing is under way.
pub proof fn completion_is_told_once(d: Downloads, s: Sample)
    ensures
        d.polled(s).1 is Complete ==> d.active && !d.polled(s).0.active,
        d.polled_windows(s).1 is Complete ==> d.active && !d.polled_windows(s).0.active,
{
}

/// A short command waits whole, behind those that wait already, wherever a
/// console was found and fewer than 32 wait.
pub proof fn a_short_command_waits_whole(c: ConsoleView, command: Seq<char>)
    requires
        encode_utf8(command).len() <= 180,
    ensures
        c.ready && c.commands.len() < 32 ==> c.queued(command) == (ConsoleView {
            commands: c.commands.push(command),
            ..c
        }),
        !c.ready || c.commands.len() >= 32 ==> c.queued(command) == c,
{
}

/// A long command is cut to its longest beginning of at most 180 bytes: one
/// character more would not fit.
pub proof fn a_long_command_is_cut(s: Seq<char>, n: nat)
    ensures
        encode_utf8(fitted(s, n)).len() <= n,
        fitted(s, n) == s.take(fitted(s, n).len() as int),
        fitted(s, n).len() < s.len() ==> encode_utf8(s.take(fitted(s, n).len() as int + 1)).len() > n,
        encode_utf8(s).len() <= n ==> fitted(s, n) == s,
    decreases s.len(),
{
    fitted_fits(s, n);
    if s.len() > 0 && encode_utf8(s).len() > n {
        let t = s.drop_last();
        a_long_command_is_cut(t, n);
        fitted_fits(t, n);
        let k = fitted(s, n).len() as int;
        if k < t.len() {
            assert(t.take(k + 1) =~= s.take(k + 1));
        } else {
            assert(s.take(k + 1) =~= s);
        }
    }
}

/// Every command without a NUL reaches the game, in order; one with a NUL is
/// left out and hinders no other.
pub proof fn commands_reach_the_game(commands: Seq<Seq<char>>, c: Seq<char>)
    ensures
        runnable(Seq::empty()) == Seq::<Seq<char>>::empty(),
        !c.contains('\0') ==> runnable(commands.push(c)) == runnable(commands).push(c),
        c.contains('\0') ==> runnable(commands.push(c)) == runnable(commands),
        (forall|i: int| 0 <= i < commands.len() ==> !(#[trigger] commands[i]).contains('\0'))
            ==> runnable(commands) == commands,
    decreases commands.len(),
{
    assert(commands.push(c).drop_last() =~= commands);
    if commands.len() > 0 {
        commands_reach_the_game(commands.drop_last(), commands.last());
        if forall|i: int| 0 <= i < commands.len() ==> !(#[trigger] commands[i]).contains('\0') {
            assert forall|i: int| 0 <= i < commands.drop_last().len() implies !(
            #[trigger] commands.drop_last()[i]).contains('\0') by {
                assert(!commands[i].contains('\0'));
            }
            assert(!commands[commands.len() - 1].contains('\0'));
            assert(commands =~= commands.drop_last().push(commands.last()));
        }
    } else {
        assert(runnable(commands) =~= commands);
    }
}

/// A wanted demo is recorded once: the first moment in the game stops any other
/// and starts one named after the map and the time, and the next moment starts
/// none.
pub proof fn a_wanted_demo_is_recorded(c: ConsoleView, map: Seq<char>, time: int, later: int)
    requires
        c.demos,
        c.ready,
        c.commands.len() <= 30,
        encode_utf8("record "@ + map + "_"@ + dec_text(time)).len() <= 180,
    ensures
        ({
            let d = c.armed(map).ticked(time);
            &&& d.commands == c.commands.push("stop"@).push(
                "record "@ + map + "_"@ + dec_text(time),
            )
            &&& d.demo is None
            &&& d.ticked(later) == d
        }),
        c.armed(map).demo == Some(map),
{
    reveal_strlit("stop");
    is_ascii_chars_encode_utf8("stop"@);
}

/// Without a wish for demos, or without a console, none is recorded.
pub proof fn an_unwanted_demo_is_not_recorded(c: ConsoleView, map: Seq<char>, time: int)
    requires
        !c.demos || !c.ready,
        c.demo is None,
    ensures
        c.armed(map).ticked(time) == c,
{
}

proof fn quotient_is(a: int, b: int)
    requires
        a >= 0,
        b > 0,
    ensures
        quotient(a, b) * b <= a < (quotient(a, b) + 1) * b,
        quotient(a, b) >= 0,
{
    let q = a / b;
    assert(q * b <= a < (q + 1) * b && q >= 0) by (nonlinear_arith)
        requires
            q == a / b,
            a >= 0,
            b > 0,
    ;
}

/// The percentage is the whole hundredths that are there: none at the start, a
/// hundred at the end and only then, and never more than there is.
pub proof fn percentage_is_what_is_there(current: int, total: int)
    requires
        0 <= current <= total,
        0 < total <= 0x7fff_ffff,
    ensures
        percent(current, total) * total <= current * 100 < (percent(current, total) + 1) * total,
        0 <= percent(current, total) <= 100,
        percent(current, total) == 100 <==> current == total,
        percent(0, total) == 0,
{
    let q = quotient(current * 100, total);
    quotient_is(current * 100, total);
    assert(q <= 100) by (nonlinear_arith)
        requires
            q * total <= current * 100,
            current <= total,
            total > 0,
    ;
    assert(wrapped(q) == q);
    if current == total {
        assert(q == 100) by (nonlinear_arith)
            requires
                q <= 100,
                total * 100 < (q + 1) * total,
                total > 0,
        ;
    } else if q == 100 {
        assert(false) by (nonlinear_arith)
            requires
                q == 100,
                q * total <= current * 100,
                current < total,
        ;
    }
    quotient_is(0, total);
    let z = quotient(0, total);
    assert(z == 0) by (nonlinear_arith)
        requires
            z * total <= 0,
            z >= 0,
            total > 0,
    ;
}

/// Progress is told at first, then every five percent, and at the end; not in
/// between.
pub proof fn progress_is_told_in_steps(pct: int, last: int)
    requires
        0 <= pct <= 100,
    ensures
        is_news(pct, -1),
        is_news(100, last),
        0 <= last && pct < 100 ==> (is_news(pct, last) <==> pct - last >= 5),
{
}

/// A download that goes on is told, with its file, and is then under way; once
/// the request is gone its end is told.
pub proof fn a_download_is_told(d: Downloads, s: Sample, gone: Sample)
    requires
        s.request matches Some(r) && r > 0x1_0000,
        s.http matches Some(h) && h != 0,
        s.state == Some(1i32),
        s.total is Some && s.total->0 > 0,
        s.current is Some && 0 <= s.current->0 <= s.total->0,
        s.name is Some,
        s.name->0@.contains('/'),
        forall|i: int| 0 <= i < s.name->0@.len() ==> 32 <= (#[trigger] s.name->0@[i]) as int <= 126,
        d.last < 0,
        gone.request == Some(0u64),
    ensures
        d.polled(s).1 is Tell,
        d.polled_windows(s).1 is Tell,
        d.polled(s).0.active,
        d.polled_windows(s).0.active,
        d.polled(s).0.last == percent(s.current->0 as int, s.total->0 as int),
        d.polled_windows(s).0.last == percent(s.current->0 as int, s.total->0 as int),
        d.polled(s).0.polled(gone).1 is Complete,
        d.polled_windows(s).0.polled_windows(gone).1 is Complete,
        d.polled(s).0.polled(gone).0.last < 0,
        d.polled_windows(s).0.polled_windows(gone).0.last < 0,
{
    let name = s.name->0@;
    assert(name.len() > 0);
    assert(is_printable(name)) by {
        assert forall|i: int| 0 <= i < name.len() implies ' ' <= #[trigger] name[i] <= '~' by {
            assert(32 <= name[i] as int <= 126);
        }
    }
    percentage_is_what_is_there(s.current->0 as int, s.total->0 as int);
}

/// Nothing is told of what is no running download over HTTP.
pub proof fn other_requests_are_not_told(d: Downloads, s: Sample)
    requires
        s.request matches Some(r) && r > 0x1_0000,
        s.http == Some(0u8) || (s.state is Some && s.state->0 != 1) || (s.total is Some
            && s.total->0 <= 0),
    ensures
        d.polled(s) == (d, ProgressView::Nothing),
        d.polled_windows(s) == (d, ProgressView::Nothing),
{
}

/// The file that is told is what stands behind the last separator.
pub proof fn the_file_is_behind_the_last_separator(dir: Seq<char>, file: Seq<char>, back: bool)
    requires
        !file.contains('/'),
        back ==> !file.contains('\\'),
    ensures
        base_name(dir + seq!['/'] + file, back, (dir + seq!['/'] + file).len() as int) == file,
        back ==> base_name(
            dir + seq!['\\'] + file,
            back,
            (dir + seq!['\\'] + file).len() as int,
        ) == file,
        base_name(file, back, file.len() as int) == file,
{
    let s = dir + seq!['/'] + file;
    let t = dir + seq!['\\'] + file;
    let n = dir.len() as int + 1;
    assert(s.skip(n) =~= file);
    assert(t.skip(n) =~= file);
    assert(s[n - 1] == '/' && t[n - 1] == '\\');
    assert forall|j: int| n <= j < s.len() implies s[j] != '/' && (back ==> s[j] != '\\') by {
        assert(file.contains(file[j - n]));
    }
    assert forall|j: int| n <= j < t.len() implies t[j] != '/' && (back ==> t[j] != '\\') by {
        assert(file.contains(file[j - n]));
    }
    assert forall|j: int| 0 <= j < file.len() implies file[j] != '/' && (back ==> file[j]
        != '\\') by {
        assert(file.contains(file[j]));
    }
    base_name_is(s, back, s.len() as int, n);
    if back {
        base_name_is(t, back, t.len() as int, n);
    }
    base_name_is(file, back, file.len() as int, 0);
}

proof fn base_name_is(s: Seq<char>, back: bool, n: int, at: int)
    requires
        0 <= at <= n <= s.len(),
        forall|j: int| at <= j < n ==> s[j] != '/' && (back ==> s[j] != '\\'),
        at > 0 ==> s[at - 1] == '/' || (back && s[at - 1] == '\\'),
    ensures
        base_name(s, back, n) == s.skip(at),
    decreases n,
{
    if n > at {
        base_name_is(s, back, n - 1, at);
    } else if n == 0 {
        assert(s.skip(0) =~= s);
    }
}

/// Every sixteenth look counts, and a percentage before the first is none.
pub proof fn every_sixteenth_look_counts()
    ensures
        LOOKS == 16,
        UNTOLD < 0,
{
}

} // verus!
