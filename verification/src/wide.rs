//! UTF-16 text out of the Windows process, and the way to its command line.
use vstd::prelude::*;

use crate::bytes::{le16, le64, rd_u16, rd_u64};

verus! {

/// `char::from_u32` of std: the character with this scalar value, where the
/// number is one.
pub assume_specification[ char::from_u32 ](i: u32) -> (r: Option<char>)
    ensures
        match r {
            Some(c) => is_scalar(i as int) && c as u32 == i,
            None => !is_scalar(i as int),
        },
;

/// The number is a Unicode scalar value.
pub open spec fn is_scalar(n: int) -> bool {
    0 <= n < 0xd800 || 0xe000 <= n <= 0x10_ffff
}

/// What stands for a unit that is half of no pair.
pub const REPLACEMENT: char = '\u{fffd}';

pub open spec fn is_lead(u: int) -> bool {
    0xd800 <= u < 0xdc00
}

pub open spec fn is_trail(u: int) -> bool {
    0xdc00 <= u < 0xe000
}

/// The units are a pair that stands for one character.
pub open spec fn is_pair(w: Seq<u16>) -> bool {
    w.len() >= 2 && is_lead(w[0] as int) && is_trail(w[1] as int)
}

/// The first character of some units: an unpaired half becomes the replacement.
pub open spec fn first_char(w: Seq<u16>) -> char {
    if is_pair(w) {
        (0x1_0000 + 0x400 * (w[0] - 0xd800) + (w[1] - 0xdc00)) as char
    } else if is_lead(w[0] as int) || is_trail(w[0] as int) {
        REPLACEMENT
    } else {
        w[0] as char
    }
}

/// The text of some units.
pub open spec fn utf16_text(w: Seq<u16>) -> Seq<char>
    decreases w.len(),
{
    if w.len() == 0 {
        Seq::empty()
    } else {
        seq![first_char(w)] + utf16_text(
            w.skip(
                if is_pair(w) {
                    2
                } else {
                    1
                },
            ),
        )
    }
}

/// The character with a scalar value.
fn scalar(n: u32) -> (r: char)
    requires
        is_scalar(n as int),
    ensures
        r == n as char,
{
    match char::from_u32(n) {
        Some(c) => {
            proof {
                vstd::utf8::char_u32_cast(c, n);
            }
            c
        },
        None => REPLACEMENT,
    }
}

/// The text of some units; an unpaired half becomes the replacement character.
pub fn from_utf16_lossy(w: &[u16]) -> (r: Vec<char>)
    ensures
        r@ == utf16_text(w@),
{
    let mut out: Vec<char> = Vec::new();
    let size: usize = w.len();
    let mut i: usize = 0;
    assert(w@.skip(0) =~= w@);
    assert(out@ + utf16_text(w@) =~= utf16_text(w@));
    while i < size
        invariant
            i <= size,
            size == w@.len(),
            out@ + utf16_text(w@.skip(i as int)) == utf16_text(w@),
        decreases size - i,
    {
        let ghost rest = w@.skip(i as int);
        let ghost before = out@;
        let u: u32 = w[i] as u32;
        assert(rest[0] == w@[i as int]);
        let lead: bool = 0xd800 <= u && u < 0xdc00;
        let v: u32 = if i + 1 < size {
            assert(rest[1] == w@[i + 1]);
            w[i + 1] as u32
        } else {
            0
        };
        let pair: bool = lead && 0xdc00 <= v && v < 0xe000;
        assert(pair == is_pair(rest));
        let c: char = if pair {
            scalar(0x1_0000 + 0x400 * (u - 0xd800) + (v - 0xdc00))
        } else if 0xd800 <= u && u < 0xe000 {
            REPLACEMENT
        } else {
            scalar(u)
        };
        assert(c == first_char(rest));
        out.push(c);
        let step: usize = if pair {
            2
        } else {
            1
        };
        assert(rest.skip(step as int) =~= w@.skip(i + step));
        assert(before + (seq![c] + utf16_text(w@.skip(i + step))) =~= out@ + utf16_text(
            w@.skip(i + step),
        ));
        i = i + step;
    }
    assert(w@.skip(size as int) =~= Seq::empty());
    assert(out@ =~= utf16_text(w@));
    out
}

/// The units before the first zero.
pub open spec fn before_nul(w: Seq<u16>) -> Seq<u16>
    decreases w.len(),
{
    if w.len() == 0 || w[0] == 0 {
        Seq::empty()
    } else {
        seq![w[0]] + before_nul(w.skip(1))
    }
}

/// The text before the first zero.
pub fn wide_to_string(w: &[u16]) -> (r: Vec<char>)
    ensures
        r@ == utf16_text(before_nul(w@)),
{
    let size: usize = w.len();
    let mut n: usize = 0;
    assert(w@.skip(0) =~= w@);
    assert(w@.take(0) + before_nul(w@) =~= before_nul(w@));
    while n < size && w[n] != 0
        invariant
            n <= size,
            size == w@.len(),
            w@.take(n as int) + before_nul(w@.skip(n as int)) == before_nul(w@),
        decreases size - n,
    {
        assert(w@.skip(n as int)[0] == w@[n as int]);
        assert(w@.skip(n as int).skip(1) =~= w@.skip(n + 1));
        assert(w@.take(n as int) + (seq![w@[n as int]] + before_nul(w@.skip(n + 1))) =~= w@.take(
            n + 1,
        ) + before_nul(w@.skip(n + 1)));
        n = n + 1;
    }
    if n < size {
        assert(w@.skip(n as int)[0] == w@[n as int]);
    }
    let head: &[u16] = vstd::slice::slice_subrange(w, 0, n);
    assert(head@ =~= before_nul(w@));
    from_utf16_lossy(head)
}

/// The units that little-endian bytes hold.
pub open spec fn units_of(b: Seq<u8>) -> Seq<u16> {
    Seq::new((b.len() / 2) as nat, |i: int| le16(b, 2 * i) as u16)
}

/// The units that little-endian bytes hold.
pub fn units(b: &[u8]) -> (r: Vec<u16>)
    ensures
        r@ == units_of(b@),
{
    let size: usize = b.len();
    let mut out: Vec<u16> = Vec::new();
    let mut i: usize = 0;
    while i < size / 2
        invariant
            i <= size / 2,
            size == b@.len(),
            out@.len() == i,
            forall|k: int| 0 <= k < i ==> #[trigger] out@[k] == le16(b@, 2 * k) as u16,
        decreases size / 2 - i,
    {
        out.push(rd_u16(b, 2 * i));
        i = i + 1;
    }
    assert(out@ =~= units_of(b@));
    out
}

/// Where the process block points at its parameters.
pub const PEB64_PROCESS_PARAMETERS: u64 = 0x20;

/// Where the parameters hold the command line.
pub const PARAMS64_COMMAND_LINE: u64 = 0x70;

/// Reading a command line out of another process: what is read next.
pub enum CommandLineRead {
    /// The pointer to the parameters, in the process block.
    Parameters { at: u64 },
    /// Length and place of the text.
    Line { at: u64 },
    /// The text.
    Text { at: u64, len: usize },
    /// The text, or nothing where a read failed.
    Done(Option<Vec<char>>),
}

/// The value of a `CommandLineRead`.
#[verifier::ext_equal]
pub enum CommandLineView {
    Parameters { at: int },
    Line { at: int },
    Text { at: int, len: int },
    Done(Option<Seq<char>>),
}

/// The value of an optional text.
pub open spec fn chars_view(v: Option<Vec<char>>) -> Option<Seq<char>> {
    match v {
        Some(s) => Some(s@),
        None => None,
    }
}

/// The value of optional bytes.
pub open spec fn reply_view(v: Option<Vec<u8>>) -> Option<Seq<u8>> {
    match v {
        Some(s) => Some(s@),
        None => None,
    }
}

impl View for CommandLineRead {
    type V = CommandLineView;

    open spec fn view(&self) -> CommandLineView {
        match *self {
            CommandLineRead::Parameters { at } => CommandLineView::Parameters { at: at as int },
            CommandLineRead::Line { at } => CommandLineView::Line { at: at as int },
            CommandLineRead::Text { at, len } => CommandLineView::Text {
                at: at as int,
                len: len as int,
            },
            CommandLineRead::Done(t) => CommandLineView::Done(chars_view(t)),
        }
    }
}

impl CommandLineView {
    /// The bytes that are asked for.
    pub open spec fn wants(self) -> Option<(int, int)> {
        match self {
            CommandLineView::Parameters { at } => Some((at, 8)),
            CommandLineView::Line { at } => Some((at, 16)),
            CommandLineView::Text { at, len } => Some((at, len)),
            CommandLineView::Done(_) => None,
        }
    }

    /// Where reading begins, for a process block at `peb`.
    pub open spec fn start(peb: int) -> CommandLineView {
        if peb == 0 || peb + PEB64_PROCESS_PARAMETERS > u64::MAX {
            CommandLineView::Done(None)
        } else {
            CommandLineView::Parameters { at: peb + PEB64_PROCESS_PARAMETERS }
        }
    }

    /// What comes after a read that gave `bytes`. A read that failed, or gave
    /// another number of bytes than were asked for, ends it with nothing.
    pub open spec fn next(self, bytes: Option<Seq<u8>>) -> CommandLineView {
        match (self, bytes) {
            (CommandLineView::Done(t), _) => CommandLineView::Done(t),
            (_, None) => CommandLineView::Done(None),
            (phase, Some(b)) => if b.len() != (phase.wants()->0).1 {
                CommandLineView::Done(None)
            } else {
                match phase {
                    CommandLineView::Parameters { .. } => {
                        let params = le64(b, 0);
                        if params + PARAMS64_COMMAND_LINE > u64::MAX {
                            CommandLineView::Done(None)
                        } else {
                            CommandLineView::Line { at: params + PARAMS64_COMMAND_LINE }
                        }
                    },
                    CommandLineView::Line { .. } => {
                        let len = le16(b, 0);
                        let at = le64(b, 8);
                        if at == 0 || len == 0 || len % 2 != 0 {
                            CommandLineView::Done(None)
                        } else {
                            CommandLineView::Text { at, len }
                        }
                    },
                    _ => CommandLineView::Done(Some(utf16_text(units_of(b)))),
                }
            },
        }
    }
}

impl CommandLineRead {
    /// Begins reading, for a process block at `peb`.
    pub fn start(peb: u64) -> (r: CommandLineRead)
        ensures
            r@ == CommandLineView::start(peb as int),
    {
        if peb == 0 || peb > u64::MAX - PEB64_PROCESS_PARAMETERS {
            CommandLineRead::Done(None)
        } else {
            CommandLineRead::Parameters { at: peb + PEB64_PROCESS_PARAMETERS }
        }
    }

    /// The bytes that are asked for.
    pub fn wants(&self) -> (r: Option<(u64, usize)>)
        ensures
            match r {
                Some((at, len)) => self@.wants() == Some((at as int, len as int)),
                None => self@.wants() is None,
            },
    {
        match self {
            CommandLineRead::Parameters { at } => Some((*at, 8)),
            CommandLineRead::Line { at } => Some((*at, 16)),
            CommandLineRead::Text { at, len } => Some((*at, *len)),
            CommandLineRead::Done(_) => None,
        }
    }

    /// Takes what a read gave.
    pub fn step(self, bytes: Option<Vec<u8>>) -> (r: CommandLineRead)
        ensures
            r@ == self@.next(reply_view(bytes)),
    {
        match self {
            CommandLineRead::Done(t) => CommandLineRead::Done(t),
            CommandLineRead::Parameters { .. } => match bytes {
                Some(b) if b.len() == 8 => {
                    let params: u64 = rd_u64(b.as_slice(), 0);
                    if params > u64::MAX - PARAMS64_COMMAND_LINE {
                        CommandLineRead::Done(None)
                    } else {
                        CommandLineRead::Line { at: params + PARAMS64_COMMAND_LINE }
                    }
                },
                _ => CommandLineRead::Done(None),
            },
            CommandLineRead::Line { .. } => match bytes {
                Some(b) if b.len() == 16 => {
                    let len: u16 = rd_u16(b.as_slice(), 0);
                    let at: u64 = rd_u64(b.as_slice(), 8);
                    if at == 0 || len == 0 || len % 2 != 0 {
                        CommandLineRead::Done(None)
                    } else {
                        CommandLineRead::Text { at, len: len as usize }
                    }
                },
                _ => CommandLineRead::Done(None),
            },
            CommandLineRead::Text { len, .. } => match bytes {
                Some(b) if b.len() == len => {
                    let us: Vec<u16> = units(b.as_slice());
                    CommandLineRead::Done(Some(from_utf16_lossy(us.as_slice())))
                },
                _ => CommandLineRead::Done(None),
            },
        }
    }
}

/// However the reads turn out, a command line is known, or known to be
/// unreadable, after three of them.
pub proof fn three_reads_are_enough(
    peb: int,
    a: Option<Seq<u8>>,
    b: Option<Seq<u8>>,
    c: Option<Seq<u8>>,
)
    ensures
        CommandLineView::start(peb).next(a).next(b).next(c) is Done,
{
}

/// Units that are no halves of pairs are characters, one each.
pub proof fn plain_units_are_characters(w: Seq<u16>, i: int)
    requires
        forall|j: int|
            0 <= j < w.len() ==> (#[trigger] w[j]) < 0xd800 || w[j] >= 0xe000,
        0 <= i < w.len(),
    ensures
        utf16_text(w).len() == w.len(),
        utf16_text(w)[i] == w[i] as char,
    decreases w.len(),
{
    let rest = w.skip(1);
    assert(w[0] < 0xd800 || w[0] >= 0xe000);
    assert forall|j: int| 0 <= j < rest.len() implies (#[trigger] rest[j]) < 0xd800 || rest[j]
        >= 0xe000 by {
        assert(rest[j] == w[j + 1]);
    }
    assert(utf16_text(w) == seq![w[0] as char] + utf16_text(rest));
    if rest.len() > 0 {
        if i > 0 {
            plain_units_are_characters(rest, i - 1);
        } else {
            plain_units_are_characters(rest, 0);
        }
    }
}

/// A pair is one character, and a lone half stands for none.
pub proof fn pairs_are_characters(lead: u16, trail: u16, rest: Seq<u16>)
    requires
        0xd800 <= lead < 0xdc00,
        0xdc00 <= trail < 0xe000,
    ensures
        utf16_text(seq![lead, trail] + rest) == seq![
            (0x1_0000 + 0x400 * (lead - 0xd800) + (trail - 0xdc00)) as char,
        ] + utf16_text(rest),
        utf16_text(seq![trail] + rest) == seq!['\u{fffd}'] + utf16_text(rest),
        utf16_text(seq![lead]) == seq!['\u{fffd}'],
        utf16_text(Seq::empty()) == Seq::<char>::empty(),
{
    let a = seq![lead, trail] + rest;
    assert(a[0] == lead && a[1] == trail);
    assert(a.skip(2) =~= rest);
    let b = seq![trail] + rest;
    assert(b[0] == trail);
    assert(b.skip(1) =~= rest);
    let c = seq![lead];
    assert(c[0] == lead);
    assert(c.skip(1) =~= Seq::empty());
    assert(utf16_text(c) == seq![first_char(c)] + utf16_text(c.skip(1)));
    assert(utf16_text(Seq::<u16>::empty()) =~= Seq::empty());
    assert(utf16_text(c) =~= seq!['\u{fffd}']);
}

/// A fixed field holds what stands before its first zero.
pub proof fn a_field_ends_at_its_zero(name: Seq<u16>, rest: Seq<u16>)
    requires
        !name.contains(0u16),
    ensures
        before_nul(name + seq![0u16] + rest) == name,
        before_nul(name) == name,
    decreases name.len(),
{
    let s = name + seq![0u16] + rest;
    if name.len() == 0 {
        assert(s[0] == 0);
        assert(before_nul(name) =~= name);
    } else {
        assert(name.contains(name[0]));
        let t = name.skip(1);
        assert forall|x: u16| t.contains(x) implies name.contains(x) by {
            let i = choose|i: int| 0 <= i < t.len() && t[i] == x;
            assert(name[i + 1] == x);
        }
        a_field_ends_at_its_zero(t, rest);
        assert(s[0] == name[0]);
        assert(s.skip(1) =~= t + seq![0u16] + rest);
        assert(seq![name[0]] + t =~= name);
    }
}

/// A command line is read in three steps: the parameters 20h bytes into the
/// process block, length and place 70h bytes into them, and the text.
pub proof fn a_command_line_is_read(peb: int, p: Seq<u8>, l: Seq<u8>, t: Seq<u8>)
    requires
        0 < peb < 0x7fff_ffff_ffff_ffff,
        p.len() == 8,
        le64(p, 0) < 0x7fff_ffff_ffff_ffff,
        l.len() == 16,
        le64(l, 8) != 0,
        le16(l, 0) > 0,
        le16(l, 0) % 2 == 0,
        t.len() == le16(l, 0),
    ensures
        CommandLineView::start(peb) == (CommandLineView::Parameters { at: peb + 0x20 }),
        (CommandLineView::Parameters { at: peb + 0x20 }).wants() == Some((peb + 0x20, 8int)),
        (CommandLineView::Parameters { at: peb + 0x20 }).next(Some(p)) == (CommandLineView::Line {
            at: le64(p, 0) + 0x70,
        }),
        (CommandLineView::Line { at: le64(p, 0) + 0x70 }).wants() == Some(
            (le64(p, 0) + 0x70, 16int),
        ),
        (CommandLineView::Line { at: le64(p, 0) + 0x70 }).next(Some(l)) == (CommandLineView::Text {
            at: le64(l, 8),
            len: le16(l, 0),
        }),
        (CommandLineView::Text { at: le64(l, 8), len: le16(l, 0) }).next(Some(t))
            == CommandLineView::Done(Some(utf16_text(units_of(t)))),
{
}

/// Units are read from bytes, two each, the lower first.
pub proof fn units_are_read(b: Seq<u8>, i: int)
    requires
        0 <= i,
        2 * i + 1 < b.len(),
    ensures
        i < units_of(b).len(),
        units_of(b)[i] == b[2 * i] + 256 * b[2 * i + 1],
        units_of(b).len() == b.len() / 2,
{
}

} // verus!
