//! Finding the engine's console command and its download manager.
//!
//! The console command is a virtual of the engine client, found by its code.
//! The download manager is an object in writable memory, found by its vtable
//! pointer. A feature whose place is not certain stays off.
use vstd::prelude::*;
use vstd::utf8::encode_utf8;

use crate::bytes::{le64, rd_u64, same_bytes};
use crate::elf::{first_vtable, ElfImage};
use crate::procfs::{Mapping, MappingView};
use crate::sig::{
    all_found, all_in, first_word, last_word, next_word, parse_all, pattern_of, pattern_views,
    patterns_of, spells, Pattern,
};
use crate::text::{chars, ends_with, same_chars};
use crate::vtable::{one_table, table_is_word};

verus! {

/// Class of the engine client, in the Linux engine.
pub const ENGINE_CLIENT_CLASS: &'static str = "13CEngineClient";

/// Class of the download manager, in the Linux engine.
pub const DLMGR_CLASS: &'static str = "16CDownloadManager";

/// `mov %rsi,%r12`: the command is put aside.
pub const CLIENTCMD_STASH: &'static str = "49 89 F4";

/// `mov %r12,%rdi; pop %r12; pop %rbp; jmp`: the command is handed on.
pub const CLIENTCMD_JUMP: &'static str = "4C 89 E7 41 5C 5D E9";

/// Bytes of a virtual that are looked at.
pub const CLIENTCMD_WINDOW: usize = 0x40;

/// The mapping belongs to the engine.
pub open spec fn of_engine(m: MappingView) -> bool {
    ends_with(m.path, "/engine.so"@)
}

/// The span of the engine's mappings among the first `n`.
pub open spec fn engine_span(maps: Seq<Mapping>, n: int) -> Option<(int, int)>
    decreases n,
{
    if n <= 0 {
        None
    } else {
        let before = engine_span(maps, n - 1);
        let m = maps[n - 1]@;
        if !of_engine(m) {
            before
        } else {
            match before {
                None => Some((m.start, m.end)),
                Some((lo, hi)) => Some(
                    (
                        if m.start < lo {
                            m.start
                        } else {
                            lo
                        },
                        if m.end > hi {
                            m.end
                        } else {
                            hi
                        },
                    ),
                ),
            }
        }
    }
}

/// From the first byte of the engine's mappings to behind the last.
pub fn engine_region(maps: &[Mapping]) -> (r: Option<(u64, u64)>)
    ensures
        match r {
            Some((lo, hi)) => engine_span(maps@, maps@.len() as int) == Some(
                (lo as int, hi as int),
            ),
            None => engine_span(maps@, maps@.len() as int) is None,
        },
{
    let tail: Vec<char> = chars("/engine.so");
    let mut found: Option<(u64, u64)> = None;
    let mut i: usize = 0;
    while i < maps.len()
        invariant
            i <= maps.len(),
            tail@ == "/engine.so"@,
            engine_span(maps@, i as int) == (match found {
                Some((lo, hi)) => Some((lo as int, hi as int)),
                None => None,
            }),
        decreases maps.len() - i,
    {
        let path: &[char] = maps[i].path.as_slice();
        let ours: bool = if tail.len() > path.len() {
            false
        } else {
            let part: &[char] = vstd::slice::slice_subrange(
                path,
                path.len() - tail.len(),
                path.len(),
            );
            assert(part@ =~= path@.skip(path@.len() - tail@.len()));
            same_chars(part, tail.as_slice())
        };
        if ours {
            let s: u64 = maps[i].start;
            let e: u64 = maps[i].end;
            found =
            match found {
                None => Some((s, e)),
                Some((lo, hi)) => Some(
                    (
                        if s < lo {
                            s
                        } else {
                            lo
                        },
                        if e > hi {
                            e
                        } else {
                            hi
                        },
                    ),
                ),
            };
        }
        i = i + 1;
    }
    found
}

/// The address lies in the engine.
pub open spec fn is_in_engine(span: (int, int), a: int) -> bool {
    span.0 != 0 && span.0 <= a < span.1
}

/// Whether an address lies in the engine.
pub fn in_engine(span: (u64, u64), a: u64) -> (r: bool)
    ensures
        r == is_in_engine((span.0 as int, span.1 as int), a as int),
{
    span.0 != 0 && a >= span.0 && a < span.1
}

/// Virtual `i` is within the walk: it and all before it lie in the engine.
pub open spec fn walked(span: (int, int), slots: Seq<u64>, i: int) -> bool {
    0 <= i < slots.len() && forall|j: int|
        0 <= j <= i ==> is_in_engine(span, (#[trigger] slots[j]) as int)
}

/// Virtual `i` looks like the console command.
pub open spec fn looks_like(
    span: (int, int),
    slots: Seq<u64>,
    bodies: Seq<Option<Vec<u8>>>,
    ps: Seq<Seq<Option<u8>>>,
    i: int,
) -> bool {
    walked(span, slots, i) && (bodies[i] matches Some(body) && all_in(ps, body@))
}

/// `f` is the one virtual that looks like the console command.
pub open spec fn is_clientcmd(
    span: (int, int),
    slots: Seq<u64>,
    bodies: Seq<Option<Vec<u8>>>,
    f: u64,
) -> bool {
    match patterns_of(seq![CLIENTCMD_STASH, CLIENTCMD_JUMP]) {
        None => false,
        Some(ps) => is_only(span, slots, bodies, ps, f),
    }
}

/// `f` is the one virtual that matches the patterns.
pub open spec fn is_only(
    span: (int, int),
    slots: Seq<u64>,
    bodies: Seq<Option<Vec<u8>>>,
    ps: Seq<Seq<Option<u8>>>,
    f: u64,
) -> bool {
    exists|i: int| #[trigger]
        looks_like(span, slots, bodies, ps, i) && slots[i] == f && forall|j: int| #[trigger]
            looks_like(span, slots, bodies, ps, j) ==> j == i
}

/// Finds the console command in a live vtable: `slots` are the pointers that
/// could be read, and `bodies` the code behind each, where it could be read.
/// `None` where nothing looks like it, or two do.
pub fn find_clientcmd(span: (u64, u64), slots: &[u64], bodies: &[Option<Vec<u8>>]) -> (r: Option<
    u64,
>)
    requires
        slots.len() == bodies.len(),
    ensures
        match r {
            Some(f) => is_clientcmd((span.0 as int, span.1 as int), slots@, bodies@, f),
            None => forall|f: u64|
                !is_clientcmd((span.0 as int, span.1 as int), slots@, bodies@, f),
        },
{
    let ghost sp = (span.0 as int, span.1 as int);
    let specs: [&str; 2] = [CLIENTCMD_STASH, CLIENTCMD_JUMP];
    assert(specs@ =~= seq![CLIENTCMD_STASH, CLIENTCMD_JUMP]);
    let pats: Vec<Pattern> = match parse_all(&specs) {
        None => {
            return None;
        },
        Some(p) => p,
    };
    let ghost ps = pattern_views(pats@);
    let mut found: Option<usize> = None;
    let mut i: usize = 0;
    while i < slots.len() && in_engine(span, slots[i])
        invariant
            i <= slots.len(),
            slots.len() == bodies.len(),
            sp == (span.0 as int, span.1 as int),
            ps == pattern_views(pats@),
            patterns_of(seq![CLIENTCMD_STASH, CLIENTCMD_JUMP]) == Some(ps),
            forall|j: int| 0 <= j < i ==> is_in_engine(sp, (#[trigger] slots@[j]) as int),
            match found {
                Some(k) => k < i && looks_like(sp, slots@, bodies@, ps, k as int) && forall|j: int|
                    #[trigger]
                    looks_like(sp, slots@, bodies@, ps, j) && j < i ==> j == k,
                None => forall|j: int| #[trigger]
                    looks_like(sp, slots@, bodies@, ps, j) ==> j >= i,
            },
        decreases slots.len() - i,
    {
        match &bodies[i] {
            Some(body) => {
                if all_found(pats.as_slice(), body.as_slice()) {
                    assert(walked(sp, slots@, i as int));
                    assert(looks_like(sp, slots@, bodies@, ps, i as int));
                    match found {
                        Some(k) => {
                            assert forall|f: u64| !is_only(sp, slots@, bodies@, ps, f) by {
                                if is_only(sp, slots@, bodies@, ps, f) {
                                    assert(looks_like(sp, slots@, bodies@, ps, k as int));
                                }
                            }
                            return None;
                        },
                        None => {},
                    }
                    found = Some(i);
                }
            },
            None => {},
        }
        i = i + 1;
    }
    proof {
        assert forall|j: int| #[trigger] looks_like(sp, slots@, bodies@, ps, j) implies j < i by {
            if j >= i {
                assert(is_in_engine(sp, slots@[i as int] as int));
            }
        }
    }
    match found {
        Some(k) => {
            assert(is_only(sp, slots@, bodies@, ps, slots@[k as int]));
            Some(slots[k])
        },
        None => None,
    }
}

/// The first word of an image that is `want`, at or after word `i`.
pub open spec fn word_from(image: Seq<u8>, want: int, i: int) -> Option<int>
    decreases image.len() - 8 * i,
{
    if i < 0 || 8 * i + 8 > image.len() {
        None
    } else if le64(image, 8 * i) == want {
        Some(i)
    } else {
        word_from(image, want, i + 1)
    }
}

/// The first word of an image that is `want`.
fn find_word(image: &[u8], want: u64) -> (r: Option<usize>)
    ensures
        match r {
            Some(i) => word_from(image@, want as int, 0) == Some(i as int) && 8 * i + 8
                <= image@.len(),
            None => word_from(image@, want as int, 0) is None,
        },
{
    let size: usize = image.len();
    let count: usize = size / 8;
    let mut i: usize = 0;
    while i < count
        invariant
            i <= count,
            count == size / 8,
            size == image@.len(),
            word_from(image@, want as int, 0) == word_from(image@, want as int, i as int),
        decreases count - i,
    {
        if rd_u64(image, 8 * i) == want {
            return Some(i);
        }
        i = i + 1;
    }
    None
}

/// The manager is the object at this place of the writable image that starts
/// with a pointer to the class's vtable.
pub open spec fn is_manager(m: ElfImage, base: int, start: int, image: Seq<u8>, at: int) -> bool {
    exists|t: int| #[trigger]
        first_vtable(m, encode_utf8(DLMGR_CLASS@), t) && (word_from(image, base + t + 8, 0) matches Some(
            i,
        ) && at == start + 8 * i)
}

/// Finds the download manager: `image` is the engine's writable memory from
/// `start` on, with zeros where it could not be read.
pub fn resolve_dlmgr(engine: &crate::elf::Module, base: u64, start: u64, image: &[u8]) -> (r: Option<
    u64,
>)
    requires
        start + image.len() <= u64::MAX,
    ensures
        match r {
            Some(a) => is_manager(engine@, base as int, start as int, image@, a as int),
            None => forall|a: int|
                !is_manager(engine@, base as int, start as int, image@, a),
        },
{
    let ghost class = encode_utf8(DLMGR_CLASS@);
    let ghost m = engine@;
    let t: u64 = match engine.vtable(DLMGR_CLASS) {
        None => {
            assert forall|a: int| !is_manager(m, base as int, start as int, image@, a) by {
                if is_manager(m, base as int, start as int, image@, a) {
                    let t = choose|t: int| #[trigger] first_vtable(m, class, t);
                    table_is_word(m, class, t);
                    assert(!m.is_vtable(class, (t as u64) as int, 0));
                }
            }
            return None;
        },
        Some(t) => t,
    };
    let want: u128 = base as u128 + t as u128 + 8;
    let found: Option<usize> = if want > u64::MAX as u128 {
        proof {
            no_such_word(image@, want as int, 0);
        }
        None
    } else {
        find_word(image, want as u64)
    };
    proof {
        assert forall|u: int| first_vtable(m, class, u) implies u == t by {
            one_table(m, class, u, t as int);
        }
        assert(first_vtable(m, class, t as int));
    }
    match found {
        Some(i) => Some(start + 8 * (i as u64)),
        None => None,
    }
}

proof fn no_such_word(image: Seq<u8>, want: int, i: int)
    requires
        want > u64::MAX,
        0 <= i,
    ensures
        word_from(image, want, i) is None,
    decreases image.len() - 8 * i,
{
    if 8 * i + 8 <= image.len() {
        no_such_word(image, want, i + 1);
    }
}

/// What was found behind one interface name.
pub struct Candidate {
    /// The object, or 0 where the engine gave none.
    pub interface: u64,
    /// Whether its vtable could be read.
    pub readable: bool,
    /// The name of its class, where that could be read.
    pub class: Option<Vec<u8>>,
    /// Its console command, where one virtual looks like it.
    pub command: Option<u64>,
}

/// Why an interface is not used.
#[derive(Clone, Copy, Debug, PartialEq, Eq, Structural)]
pub enum ClientFault {
    /// The engine gave no object, or it cannot be read.
    Missing,
    /// It is of another class.
    Class,
    /// No virtual looks like the console command.
    NoCommand,
    /// The command lies outside the engine.
    Outside(u64),
}

/// Object and console command behind an interface name, or why it is not used.
pub open spec fn client_of(c: Candidate, region: Option<(u64, u64)>) -> Result<
    (u64, u64),
    ClientFault,
> {
    if c.interface == 0 || !c.readable {
        Err(ClientFault::Missing)
    } else if c.class is None || c.class->0@ != encode_utf8(ENGINE_CLIENT_CLASS@) {
        Err(ClientFault::Class)
    } else {
        match c.command {
            None => Err(ClientFault::NoCommand),
            Some(f) => if region is Some && (region->0).0 <= f && f < (region->0).1 {
                Ok((c.interface, f))
            } else {
                Err(ClientFault::Outside(f))
            },
        }
    }
}

/// Object and console command behind an interface name.
pub fn check_engine_client(c: &Candidate, region: Option<(u64, u64)>) -> (r: Result<
    (u64, u64),
    ClientFault,
>)
    ensures
        r == client_of(*c, region),
{
    if c.interface == 0 || !c.readable {
        return Err(ClientFault::Missing);
    }
    let named: bool = match &c.class {
        Some(name) => same_bytes(name.as_slice(), ENGINE_CLIENT_CLASS.as_bytes()),
        None => false,
    };
    if !named {
        return Err(ClientFault::Class);
    }
    match c.command {
        None => Err(ClientFault::NoCommand),
        Some(f) => match region {
            Some((lo, hi)) if lo <= f && f < hi => Ok((c.interface, f)),
            _ => Err(ClientFault::Outside(f)),
        },
    }
}

/// The first interface from `i` on that can be used.
pub open spec fn client_from(cs: Seq<Candidate>, region: Option<(u64, u64)>, i: int) -> Option<
    (u64, u64),
>
    decreases cs.len() - i,
{
    if i < 0 || i >= cs.len() {
        None
    } else {
        match client_of(cs[i], region) {
            Ok(x) => Some(x),
            Err(_) => client_from(cs, region, i + 1),
        }
    }
}

/// The first interface that can be used, of those that the engine gave for the
/// names in order.
pub fn resolve_engine_client(cs: &[Candidate], region: Option<(u64, u64)>) -> (r: Option<
    (u64, u64),
>)
    ensures
        r == client_from(cs@, region, 0),
{
    let mut i: usize = 0;
    while i < cs.len()
        invariant
            i <= cs.len(),
            client_from(cs@, region, 0) == client_from(cs@, region, i as int),
        decreases cs.len() - i,
    {
        match check_engine_client(&cs[i], region) {
            Ok(x) => {
                return Some(x);
            },
            Err(_) => {},
        }
        i = i + 1;
    }
    None
}

/// The console command that is used is code of the engine.
pub proof fn engine_client_is_engine_code(
    cs: Seq<Candidate>,
    region: Option<(u64, u64)>,
    i: int,
)
    requires
        0 <= i,
    ensures
        client_from(cs, region, i) matches Some((_, f)) ==> region is Some && (region->0).0 <= f
            && f < (region->0).1,
    decreases cs.len() - i,
{
    if i < cs.len() {
        engine_client_is_engine_code(cs, region, i + 1);
    }
}

/// The console command on Linux keeps its argument in r12.
pub proof fn command_stash_is_known()
    ensures
        pattern_of(CLIENTCMD_STASH@) matches Some(p) && spells(
            p,
            seq![
            0x49, 0x89, 0xf4,
            ],
        ),
{
    reveal_strlit("49 89 F4");
    let text = "49 89 F4"@;
    first_word(text);
    next_word(text, 0, 0, 3, Some(0x49));
    next_word(text, 1, 3, 6, Some(0x89));
    next_word(text, 2, 6, 8, Some(0xf4));
    last_word(text, 3);
    assert(CLIENTCMD_STASH@ == text);
    let p = pattern_of(text)->0;
    assert(p[0] == Some(0x49u8));
    assert(p[1] == Some(0x89u8));
    assert(p[2] == Some(0xf4u8));
    let bytes: Seq<int> = seq![
            0x49, 0x89, 0xf4,
    ];
    assert forall|j: int| 0 <= j < bytes.len() implies if bytes[j] < 0 {
        #[trigger] p[j] is None
    } else {
        p[j] == Some(bytes[j] as u8)
    } by {
        assert(j == 0 || j == 1 || j == 2);
    }
}

/// The console command on Linux ends in a jump with its argument in rdi.
pub proof fn command_jump_is_known()
    ensures
        pattern_of(CLIENTCMD_JUMP@) matches Some(p) && spells(
            p,
            seq![
            0x4c, 0x89, 0xe7, 0x41, 0x5c, 0x5d, 0xe9,
            ],
        ),
{
    reveal_strlit("4C 89 E7 41 5C 5D E9");
    let text = "4C 89 E7 41 5C 5D E9"@;
    first_word(text);
    next_word(text, 0, 0, 3, Some(0x4c));
    next_word(text, 1, 3, 6, Some(0x89));
    next_word(text, 2, 6, 9, Some(0xe7));
    next_word(text, 3, 9, 12, Some(0x41));
    next_word(text, 4, 12, 15, Some(0x5c));
    next_word(text, 5, 15, 18, Some(0x5d));
    next_word(text, 6, 18, 20, Some(0xe9));
    last_word(text, 7);
    assert(CLIENTCMD_JUMP@ == text);
    let p = pattern_of(text)->0;
    assert(p[0] == Some(0x4cu8));
    assert(p[1] == Some(0x89u8));
    assert(p[2] == Some(0xe7u8));
    assert(p[3] == Some(0x41u8));
    assert(p[4] == Some(0x5cu8));
    assert(p[5] == Some(0x5du8));
    assert(p[6] == Some(0xe9u8));
    let bytes: Seq<int> = seq![
            0x4c, 0x89, 0xe7, 0x41, 0x5c, 0x5d, 0xe9,
    ];
    assert forall|j: int| 0 <= j < bytes.len() implies if bytes[j] < 0 {
        #[trigger] p[j] is None
    } else {
        p[j] == Some(bytes[j] as u8)
    } by {
        assert(j == 0 || j == 1 || j == 2 || j == 3 || j == 4 || j == 5 || j == 6);
    }
}

/// The engine's span holds each of its mappings.
pub proof fn the_span_holds_every_mapping(maps: Seq<Mapping>, n: int, i: int)
    requires
        0 <= i < n <= maps.len(),
        ends_with(maps[i].path@, "/engine.so"@),
    ensures
        engine_span(maps, n) matches Some((lo, hi)) && lo <= maps[i].start && maps[i].end <= hi,
    decreases n,
{
    if i < n - 1 {
        the_span_holds_every_mapping(maps, n - 1, i);
    }
}

/// The first word that points at the vtable is found.
pub proof fn the_first_word_is_found(image: Seq<u8>, want: int, i: int)
    requires
        0 <= i,
        8 * i + 8 <= image.len(),
        le64(image, 8 * i) == want,
        forall|j: int| 0 <= j < i ==> #[trigger] le64(image, 8 * j) != want,
    ensures
        word_from(image, want, 0) == Some(i),
{
    word_is(image, want, 0, i);
}

proof fn word_is(image: Seq<u8>, want: int, from: int, i: int)
    requires
        0 <= from <= i,
        8 * i + 8 <= image.len(),
        le64(image, 8 * i) == want,
        forall|j: int| 0 <= j < i ==> #[trigger] le64(image, 8 * j) != want,
    ensures
        word_from(image, want, from) == Some(i),
    decreases i - from,
{
    if from < i {
        assert(le64(image, 8 * from) != want);
        word_is(image, want, from + 1, i);
    }
}

/// The first interface that can be used is taken.
pub proof fn the_first_client_is_taken(cs: Seq<Candidate>, region: Option<(u64, u64)>, i: int)
    requires
        0 <= i < cs.len(),
        client_of(cs[i], region) is Ok,
        forall|j: int| 0 <= j < i ==> client_of(#[trigger] cs[j], region) is Err,
    ensures
        client_from(cs, region, 0) == Some(client_of(cs[i], region)->Ok_0),
{
    client_is(cs, region, 0, i);
}

proof fn client_is(cs: Seq<Candidate>, region: Option<(u64, u64)>, from: int, i: int)
    requires
        0 <= from <= i < cs.len(),
        client_of(cs[i], region) is Ok,
        forall|j: int| 0 <= j < i ==> client_of(#[trigger] cs[j], region) is Err,
    ensures
        client_from(cs, region, from) == Some(client_of(cs[i], region)->Ok_0),
    decreases i - from,
{
    if from < i {
        assert(client_of(cs[from], region) is Err);
        client_is(cs, region, from + 1, i);
    }
}

/// The command that looks like it is found, where it is the only one.
pub proof fn the_only_command_is_found(
    span: (int, int),
    slots: Seq<u64>,
    bodies: Seq<Option<Vec<u8>>>,
    ps: Seq<Seq<Option<u8>>>,
    i: int,
)
    requires
        0 <= i < slots.len(),
        span.0 != 0,
        forall|j: int| 0 <= j <= i ==> span.0 <= (#[trigger] slots[j]) < span.1,
        bodies[i] matches Some(body) && all_in(ps, body@),
        forall|j: int| #[trigger] looks_like(span, slots, bodies, ps, j) ==> j == i,
    ensures
        is_only(span, slots, bodies, ps, slots[i]),
{
    assert(walked(span, slots, i));
    assert(looks_like(span, slots, bodies, ps, i));
}

/// An address lies in the engine where it is in its span.
pub proof fn the_engine_is_its_span(lo: int, hi: int, a: int)
    ensures
        lo != 0 && lo <= a < hi ==> is_in_engine((lo, hi), a),
        a < lo || a >= hi || lo == 0 ==> !is_in_engine((lo, hi), a),
{
}

/// The download manager is the first object in the engine's data that starts
/// with the address of its class's vtable.
pub proof fn the_manager_is_found(m: ElfImage, base: int, start: int, image: Seq<u8>, t: int, i: int)
    requires
        first_vtable(m, encode_utf8("16CDownloadManager"@), t),
        0 <= i,
        8 * i + 8 <= image.len(),
        le64(image, 8 * i) == base + t + 8,
        forall|j: int| 0 <= j < i ==> #[trigger] le64(image, 8 * j) != base + t + 8,
    ensures
        is_manager(m, base, start, image, start + 8 * i),
{
    the_first_word_is_found(image, base + t + 8, i);
}

/// The engine client is taken where its object can be read, is of the right
/// class, and its command lies in the engine.
pub proof fn a_sound_client_is_taken(c: Candidate, lo: u64, hi: u64, f: u64)
    requires
        c.interface != 0,
        c.readable,
        c.class is Some,
        c.class->0@ == encode_utf8("13CEngineClient"@),
        c.command == Some(f),
    ensures
        lo <= f < hi ==> client_of(c, Some((lo, hi))) == Ok::<(u64, u64), ClientFault>(
            (c.interface, f),
        ),
        !(lo <= f < hi) ==> client_of(c, Some((lo, hi))) == Err::<(u64, u64), ClientFault>(
            ClientFault::Outside(f),
        ),
        client_of(c, None) is Err,
{
}

} // verus!
