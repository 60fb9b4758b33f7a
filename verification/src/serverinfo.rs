//! `CClientState::ProcessServerInfo`: the handler of the message that names the
//! server's map, and where the message keeps the map's MD5 and name.
//!
//! The handler is found in the class's vtable by what only it does: it copies
//! the 16 bytes of the MD5 out of the message. The offsets are read out of the
//! matched instructions.
use vstd::prelude::*;
use vstd::utf8::encode_utf8;

use crate::code::{
    filled, jumps_are_whole, movabs_jump, nops, page_span, pages_hold_the_bytes, pages_of,
    register_jump, trampoline,
};
use crate::elf::{first_vtable, virtuals_of, ElfImage};
use crate::sig::{
    first_match, first_word, last_word, next_word, pattern_at, pattern_in, pattern_of, spells,
    Pattern,
};
use crate::text::{hex_text, with_hex};
use crate::vtable::{in_walk, one_table, table_is_word, walk_is_listed, VTABLE_MAX};

verus! {

/// Class of the handler, in the Linux engine.
pub const CLIENTSTATE_CLASS: &'static str = "12CClientState";

/// `movdqu md5(%rbx),%xmm2; movups %xmm2,disp32(%r12)`: the copy of the MD5.
/// The first wildcard is its offset in the message.
pub const PROCSERVINFO_MD5_COPY: &'static str = "F3 0F 6F 53 ?? 41 0F 11 94 24 ?? ?? ?? ??";

/// The entry of the handler. It tells the handler from the thunks that share
/// its code, and it is free of relative operands, so it can be moved.
pub const PROCSERVINFO_PROLOGUE: &'static str =
    "55 48 89 E5 41 55 41 54 49 89 FC 53 48 89 F3 48 83 EC ??";

/// Bytes of the entry.
pub const PROLOGUE_LEN: usize = 19;

/// How far into the body the copy is looked for.
pub const PROCSERVINFO_WINDOW: usize = 0x200;

/// Virtual `k` of the vtable at `t` is a handler: it starts with the entry `p`
/// and does the copy `q`.
pub open spec fn handles(
    m: ElfImage,
    t: int,
    p: Seq<Option<u8>>,
    q: Seq<Option<u8>>,
    k: int,
) -> bool {
    in_walk(m, t, k) && (m.read_va(m.vfn(t, k)->0, PROCSERVINFO_WINDOW as int) matches Some(body)
        && pattern_at(p, body, 0) && pattern_in(q, body))
}

/// `d` is the first wildcard of a pattern.
pub open spec fn first_wildcard(q: Seq<Option<u8>>, d: int) -> bool {
    0 <= d < q.len() && q[d] is None && forall|j: int| 0 <= j < d ==> q[j] is Some
}

/// The byte `d` bytes into the first match of `q` is `v`.
pub open spec fn byte_in_match(q: Seq<Option<u8>>, body: Seq<u8>, d: int, v: int) -> bool {
    exists|at: int| #[trigger] first_match(q, body, 0, at) && body[at + d] == v
}

/// `f` is the one handler of the class, and `off` the offset of the MD5.
pub open spec fn is_target(m: ElfImage, f: int, off: int) -> bool {
    match (pattern_of(PROCSERVINFO_PROLOGUE@), pattern_of(PROCSERVINFO_MD5_COPY@)) {
        (Some(p), Some(q)) => p.len() == PROLOGUE_LEN && is_handler(m, p, q, f, off),
        _ => false,
    }
}

/// `f` is the one virtual of the class that starts with `p` and does `q`, and
/// `off` is the byte at the first wildcard of `q` there.
pub open spec fn is_handler(
    m: ElfImage,
    p: Seq<Option<u8>>,
    q: Seq<Option<u8>>,
    f: int,
    off: int,
) -> bool {
    exists|t: int, k: int, d: int|
        #![trigger handles(m, t, p, q, k), first_wildcard(q, d)]
        first_vtable(m, encode_utf8(CLIENTSTATE_CLASS@), t) && handles(m, t, p, q, k) && (forall|
            j: int,
        |
            handles(m, t, p, q, j) ==> j == k) && m.vfn(t, k) == Some(f) && first_wildcard(q, d)
            && byte_in_match(
            q,
            m.read_va(f, PROCSERVINFO_WINDOW as int)->0,
            d,
            off,
        )
}

proof fn two_handlers_are_none(
    m: ElfImage,
    t: int,
    p: Seq<Option<u8>>,
    q: Seq<Option<u8>>,
    a: int,
    b: int,
)
    requires
        first_vtable(m, encode_utf8(CLIENTSTATE_CLASS@), t),
        handles(m, t, p, q, a),
        handles(m, t, p, q, b),
        a != b,
    ensures
        forall|f: int, off: int| !is_handler(m, p, q, f, off),
{
    assert forall|f: int, off: int| !is_handler(m, p, q, f, off) by {
        if is_handler(m, p, q, f, off) {
            let (u, k, d) = choose|u: int, k: int, d: int|
                #![trigger handles(m, u, p, q, k), first_wildcard(q, d)]
                first_vtable(m, encode_utf8(CLIENTSTATE_CLASS@), u) && handles(m, u, p, q, k) && (
                forall|j: int| handles(m, u, p, q, j) ==> j == k) && first_wildcard(q, d);
            one_table(m, encode_utf8(CLIENTSTATE_CLASS@), u, t);
        }
    }
}

/// Finds the handler in the Linux engine: its address, and the offset of the
/// MD5 in the message. `None` where it is missing, or there are two.
pub fn resolve_target(engine: &crate::elf::Module) -> (r: Option<(u64, u64)>)
    ensures
        match r {
            Some((f, off)) => is_target(engine@, f as int, off as int) && off < 256,
            None => forall|f: int, off: int| !is_target(engine@, f, off),
        },
{
    let ghost m = engine@;
    let ghost class = encode_utf8(CLIENTSTATE_CLASS@);
    let prologue: Pattern = match Pattern::parse(PROCSERVINFO_PROLOGUE) {
        None => {
            return None;
        },
        Some(p) => p,
    };
    let md5: Pattern = match Pattern::parse(PROCSERVINFO_MD5_COPY) {
        None => {
            return None;
        },
        Some(q) => q,
    };
    let ghost p = prologue@;
    let ghost q = md5@;
    if prologue.len() != PROLOGUE_LEN {
        return None;
    }
    // The length of the pattern is a machine word.
    let size: usize = md5.len();
    let wild: Vec<usize> = md5.wildcards();
    if wild.len() == 0 {
        assert forall|d: int| !first_wildcard(q, d) by {
            if first_wildcard(q, d) {
                assert(wild@.contains(d as usize));
            }
        }
        return None;
    }
    let disp_at: usize = wild[0];
    proof {
        assert(wild@.contains(disp_at));
        assert forall|j: int| 0 <= j < disp_at implies q[j] is Some by {
            if q[j] is None {
                assert(wild@.contains(j as usize));
                let i = choose|i: int| 0 <= i < wild@.len() && wild@[i] == j as usize;
                assert(i == 0 || wild@[0] < wild@[i]);
            }
        }
        assert(first_wildcard(q, disp_at as int));
    }
    let t: u64 = match engine.vtable(CLIENTSTATE_CLASS) {
        Some(t) => t,
        None => {
            assert forall|f: int, off: int| !is_handler(m, p, q, f, off) by {
                if is_handler(m, p, q, f, off) {
                    let (u, k, d) = choose|u: int, k: int, d: int|
                        #![trigger handles(m, u, p, q, k), first_wildcard(q, d)]
                        first_vtable(m, class, u) && handles(m, u, p, q, k) && first_wildcard(q, d);
                    table_is_word(m, class, u);
                    assert(!m.is_vtable(class, (u as u64) as int, 0));
                }
            }
            return None;
        },
    };
    let all: Vec<(usize, u64)> = engine.virtuals(t, VTABLE_MAX);
    assert forall|k: int| in_walk(m, t as int, k) <==> 0 <= k < all@.len() by {
        walk_is_listed(m, t as int, all@, k);
    }
    let mut found: Option<(usize, u64, u64)> = None;
    let mut i: usize = 0;
    while i < all.len()
        invariant
            i <= all@.len(),
            m == engine@,
            class == encode_utf8(CLIENTSTATE_CLASS@),
            p == prologue@,
            q == md5@,
            first_wildcard(q, disp_at as int),
            first_vtable(m, class, t as int),
            pattern_of(PROCSERVINFO_PROLOGUE@) == Some(p),
            pattern_of(PROCSERVINFO_MD5_COPY@) == Some(q),
            virtuals_of(m, t as int, VTABLE_MAX as int, all@),
            forall|k: int| in_walk(m, t as int, k) <==> 0 <= k < all@.len(),
            match found {
                Some((k, f, off)) => k < i && handles(m, t as int, p, q, k as int) && m.vfn(
                    t as int,
                    k as int,
                ) == Some(f as int) && byte_in_match(
                    q,
                    m.read_va(f as int, PROCSERVINFO_WINDOW as int)->0,
                    disp_at as int,
                    off as int,
                ) && off < 256 && (forall|j: int| j < i && handles(m, t as int, p, q, j) ==> j == k),
                None => forall|j: int| j < i ==> !handles(m, t as int, p, q, j),
            },
        decreases all@.len() - i,
    {
        let f: u64 = all[i].1;
        assert(all@[i as int].0 == i && m.vfn(t as int, i as int) == Some(f as int));
        match engine.read_va(f, PROCSERVINFO_WINDOW) {
            Some(body) => {
                if prologue.matches_at(body.as_slice(), 0) {
                    match md5.find(body.as_slice()) {
                        Some(at) => {
                            assert(pattern_at(q, body@, at as int));
                            assert(handles(m, t as int, p, q, i as int));
                            if found.is_some() {
                                proof {
                                    two_handlers_are_none(
                                        m,
                                        t as int,
                                        p,
                                        q,
                                        (found->0).0 as int,
                                        i as int,
                                    );
                                }
                                return None;
                            }
                            let off: u64 = body[at + disp_at] as u64;
                            assert(byte_in_match(q, body@, disp_at as int, off as int));
                            found = Some((i, f, off));
                        },
                        None => {},
                    }
                }
            },
            None => {},
        }
        i = i + 1;
    }
    match found {
        Some((k, f, off)) => {
            assert(is_handler(m, p, q, f as int, off as int));
            Some((f, off))
        },
        None => {
            assert forall|f: int, off: int| !is_handler(m, p, q, f, off) by {
                if is_handler(m, p, q, f, off) {
                    let (u, k, d) = choose|u: int, k: int, d: int|
                        #![trigger handles(m, u, p, q, k), first_wildcard(q, d)]
                        first_vtable(m, class, u) && handles(m, u, p, q, k) && first_wildcard(q, d);
                    one_table(m, class, u, t as int);
                    assert(in_walk(m, t as int, k));
                }
            }
            None
        },
    }
}

/// The handler is resolved without a guess: there is at most one answer, and
/// it is code of the class.
pub proof fn target_is_unique(m: ElfImage, f: int, off: int, g: int, other: int)
    requires
        is_target(m, f, off),
        is_target(m, g, other),
    ensures
        f == g,
        off == other,
        m.is_exec(f),
{
    let p = pattern_of(PROCSERVINFO_PROLOGUE@)->0;
    let q = pattern_of(PROCSERVINFO_MD5_COPY@)->0;
    let class = encode_utf8(CLIENTSTATE_CLASS@);
    let (t, k, d) = choose|t: int, k: int, d: int|
        #![trigger handles(m, t, p, q, k), first_wildcard(q, d)]
        first_vtable(m, class, t) && handles(m, t, p, q, k) && (forall|j: int|
            handles(m, t, p, q, j) ==> j == k) && m.vfn(t, k) == Some(f) && first_wildcard(q, d)
            && byte_in_match(q, m.read_va(f, PROCSERVINFO_WINDOW as int)->0, d, off);
    let (u, l, e) = choose|u: int, l: int, e: int|
        #![trigger handles(m, u, p, q, l), first_wildcard(q, e)]
        first_vtable(m, class, u) && handles(m, u, p, q, l) && (forall|j: int|
            handles(m, u, p, q, j) ==> j == l) && m.vfn(u, l) == Some(g) && first_wildcard(q, e)
            && byte_in_match(q, m.read_va(g, PROCSERVINFO_WINDOW as int)->0, e, other);
    one_table(m, class, t, u);
    assert(k == l);
    assert(d == e) by {
        if d < e {
            assert(q[d] is Some);
        }
        if e < d {
            assert(q[e] is Some);
        }
    }
    let body = m.read_va(f, PROCSERVINFO_WINDOW as int)->0;
    let a = choose|at: int| #[trigger] first_match(q, body, 0, at) && body[at + d] == off;
    let b = choose|at: int| #[trigger] first_match(q, body, 0, at) && body[at + d] == other;
    assert(a == b) by {
        if a < b {
            assert(!pattern_at(q, body, a));
        }
        if b < a {
            assert(!pattern_at(q, body, b));
        }
    }
}

/// What is written to intercept the Linux handler.
pub struct Interceptor {
    /// Where the handler is loaded.
    pub target: u64,
    /// Runs the displaced entry and goes on behind it.
    pub trampoline: Vec<u8>,
    /// Goes to the replacement.
    pub patch: Vec<u8>,
    /// The pages that are written to.
    pub page: u64,
    pub page_len: u64,
}

/// The value of an `Interceptor`.
#[verifier::ext_equal]
pub struct InterceptorView {
    pub target: int,
    pub trampoline: Seq<u8>,
    pub patch: Seq<u8>,
    pub page: int,
    pub page_len: int,
}

impl View for Interceptor {
    type V = InterceptorView;

    open spec fn view(&self) -> InterceptorView {
        InterceptorView {
            target: self.target as int,
            trampoline: self.trampoline@,
            patch: self.patch@,
            page: self.page as int,
            page_len: self.page_len as int,
        }
    }
}

/// What is written to intercept a handler at `target` whose entry is `current`:
/// the entry has to be the expected one.
pub open spec fn intercepted(target: int, current: Seq<u8>, ours: int) -> Result<
    InterceptorView,
    Seq<char>,
> {
    if !(pattern_of(PROCSERVINFO_PROLOGUE@) matches Some(p) && pattern_at(p, current, 0)) {
        Err(
            "fastdl: ProcessServerInfo at 0x"@ + hex_text(target)
                + " already modified; not hooking"@,
        )
    } else {
        Ok(
            InterceptorView {
                target,
                trampoline: current + movabs_jump(target + PROLOGUE_LEN),
                patch: movabs_jump(ours) + nops(7),
                page: pages_of(target, PROLOGUE_LEN as int).0,
                page_len: pages_of(target, PROLOGUE_LEN as int).1,
            },
        )
    }
}

/// Works out what is written to intercept a handler.
pub fn intercept(target: u64, current: &[u8], ours: u64) -> (r: Result<Interceptor, String>)
    requires
        current.len() == PROLOGUE_LEN,
        target + PROLOGUE_LEN + 4095 <= u64::MAX,
    ensures
        match r {
            Ok(i) => intercepted(target as int, current@, ours as int) == Ok::<
                InterceptorView,
                Seq<char>,
            >(i@) && i.patch@.len() == PROLOGUE_LEN,
            Err(e) => intercepted(target as int, current@, ours as int) == Err::<
                InterceptorView,
                Seq<char>,
            >(e@),
        },
{
    let same: bool = match Pattern::parse(PROCSERVINFO_PROLOGUE) {
        Some(p) => p.matches_at(current, 0),
        None => false,
    };
    if !same {
        return Err(
            with_hex(
                "fastdl: ProcessServerInfo at 0x",
                target,
                " already modified; not hooking",
            ),
        );
    }
    let back: Vec<u8> = register_jump(target + PROLOGUE_LEN as u64);
    let patch: Vec<u8> = filled(register_jump(ours), PROLOGUE_LEN);
    let (page, page_len) = page_span(target, PROLOGUE_LEN as u64);
    let i: Interceptor = Interceptor {
        target,
        trampoline: trampoline(current, back),
        patch,
        page,
        page_len,
    };
    Ok(i)
}

/// The copy of the MD5 on Linux: `movdqu md5(%rbx),%xmm2` and
/// `movups %xmm2,disp32(%r12)`.
pub proof fn md5_copy_is_known()
    ensures
        pattern_of(PROCSERVINFO_MD5_COPY@) matches Some(p) && spells(
            p,
            seq![
            0xf3, 0x0f, 0x6f, 0x53, -1, 0x41, 0x0f, 0x11, 0x94, 0x24, -1, -1, -1, -1,
            ],
        ),
{
    reveal_strlit("F3 0F 6F 53 ?? 41 0F 11 94 24 ?? ?? ?? ??");
    let text = "F3 0F 6F 53 ?? 41 0F 11 94 24 ?? ?? ?? ??"@;
    first_word(text);
    next_word(text, 0, 0, 3, Some(0xf3));
    next_word(text, 1, 3, 6, Some(0x0f));
    next_word(text, 2, 6, 9, Some(0x6f));
    next_word(text, 3, 9, 12, Some(0x53));
    next_word(text, 4, 12, 15, None);
    next_word(text, 5, 15, 18, Some(0x41));
    next_word(text, 6, 18, 21, Some(0x0f));
    next_word(text, 7, 21, 24, Some(0x11));
    next_word(text, 8, 24, 27, Some(0x94));
    next_word(text, 9, 27, 30, Some(0x24));
    next_word(text, 10, 30, 33, None);
    next_word(text, 11, 33, 36, None);
    next_word(text, 12, 36, 39, None);
    next_word(text, 13, 39, 41, None);
    last_word(text, 14);
    assert(PROCSERVINFO_MD5_COPY@ == text);
    let p = pattern_of(text)->0;
    assert(p[0] == Some(0xf3u8));
    assert(p[1] == Some(0x0fu8));
    assert(p[2] == Some(0x6fu8));
    assert(p[3] == Some(0x53u8));
    assert(p[4] is None);
    assert(p[5] == Some(0x41u8));
    assert(p[6] == Some(0x0fu8));
    assert(p[7] == Some(0x11u8));
    assert(p[8] == Some(0x94u8));
    assert(p[9] == Some(0x24u8));
    assert(p[10] is None);
    assert(p[11] is None);
    assert(p[12] is None);
    assert(p[13] is None);
    let bytes: Seq<int> = seq![
            0xf3, 0x0f, 0x6f, 0x53, -1, 0x41, 0x0f, 0x11, 0x94, 0x24, -1, -1, -1, -1,
    ];
    assert forall|j: int| 0 <= j < bytes.len() implies if bytes[j] < 0 {
        #[trigger] p[j] is None
    } else {
        p[j] == Some(bytes[j] as u8)
    } by {
        assert(j == 0 || j == 1 || j == 2 || j == 3 || j == 4 || j == 5 || j == 6 || j == 7 || j == 8 || j == 9 || j == 10 || j == 11 || j == 12 || j == 13);
    }
}

/// The entry of the handler on Linux: it saves its registers and makes room.
pub proof fn handler_entry_is_known()
    ensures
        pattern_of(PROCSERVINFO_PROLOGUE@) matches Some(p) && spells(
            p,
            seq![
            0x55, 0x48, 0x89, 0xe5, 0x41, 0x55, 0x41, 0x54, 0x49, 0x89, 0xfc, 0x53, 0x48, 0x89,
            0xf3, 0x48, 0x83, 0xec, -1,
            ],
        ),
{
    reveal_strlit("55 48 89 E5 41 55 41 54 49 89 FC 53 48 89 F3 48 83 EC ??");
    let text = "55 48 89 E5 41 55 41 54 49 89 FC 53 48 89 F3 48 83 EC ??"@;
    first_word(text);
    next_word(text, 0, 0, 3, Some(0x55));
    next_word(text, 1, 3, 6, Some(0x48));
    next_word(text, 2, 6, 9, Some(0x89));
    next_word(text, 3, 9, 12, Some(0xe5));
    next_word(text, 4, 12, 15, Some(0x41));
    next_word(text, 5, 15, 18, Some(0x55));
    next_word(text, 6, 18, 21, Some(0x41));
    next_word(text, 7, 21, 24, Some(0x54));
    next_word(text, 8, 24, 27, Some(0x49));
    next_word(text, 9, 27, 30, Some(0x89));
    next_word(text, 10, 30, 33, Some(0xfc));
    next_word(text, 11, 33, 36, Some(0x53));
    next_word(text, 12, 36, 39, Some(0x48));
    next_word(text, 13, 39, 42, Some(0x89));
    next_word(text, 14, 42, 45, Some(0xf3));
    next_word(text, 15, 45, 48, Some(0x48));
    next_word(text, 16, 48, 51, Some(0x83));
    next_word(text, 17, 51, 54, Some(0xec));
    next_word(text, 18, 54, 56, None);
    last_word(text, 19);
    assert(PROCSERVINFO_PROLOGUE@ == text);
    let p = pattern_of(text)->0;
    assert(p[0] == Some(0x55u8));
    assert(p[1] == Some(0x48u8));
    assert(p[2] == Some(0x89u8));
    assert(p[3] == Some(0xe5u8));
    assert(p[4] == Some(0x41u8));
    assert(p[5] == Some(0x55u8));
    assert(p[6] == Some(0x41u8));
    assert(p[7] == Some(0x54u8));
    assert(p[8] == Some(0x49u8));
    assert(p[9] == Some(0x89u8));
    assert(p[10] == Some(0xfcu8));
    assert(p[11] == Some(0x53u8));
    assert(p[12] == Some(0x48u8));
    assert(p[13] == Some(0x89u8));
    assert(p[14] == Some(0xf3u8));
    assert(p[15] == Some(0x48u8));
    assert(p[16] == Some(0x83u8));
    assert(p[17] == Some(0xecu8));
    assert(p[18] is None);
    let bytes: Seq<int> = seq![
            0x55, 0x48, 0x89, 0xe5, 0x41, 0x55, 0x41, 0x54, 0x49, 0x89, 0xfc, 0x53, 0x48, 0x89,
            0xf3, 0x48, 0x83, 0xec, -1,
    ];
    assert forall|j: int| 0 <= j < bytes.len() implies if bytes[j] < 0 {
        #[trigger] p[j] is None
    } else {
        p[j] == Some(bytes[j] as u8)
    } by {
        assert(j == 0 || j == 1 || j == 2 || j == 3 || j == 4 || j == 5 || j == 6 || j == 7 || j == 8 || j == 9 || j == 10 || j == 11 || j == 12 || j == 13 || j == 14 || j == 15 || j == 16 || j == 17 || j == 18);
    }
}

/// The offset of the MD5 is read out of the copy: in the handler's body stands
/// `movdqu off(%rbx),%xmm2` with the store behind it.
pub proof fn the_md5_offset_is_read(m: ElfImage, f: int, off: int)
    requires
        is_target(m, f, off),
    ensures
        m.read_va(f, 0x200) matches Some(body) && exists|at: int|
            0 <= at && at + 14 <= body.len() && #[trigger] body[at] == 0xf3 && body[at + 1] == 0x0f
                && body[at + 2] == 0x6f && body[at + 3] == 0x53 && body[at + 4] == off && body[at
                + 5] == 0x41 && body[at + 6] == 0x0f && body[at + 7] == 0x11 && body[at + 8]
                == 0x94 && body[at + 9] == 0x24,
{
    let p = pattern_of(PROCSERVINFO_PROLOGUE@)->0;
    let q = pattern_of(PROCSERVINFO_MD5_COPY@)->0;
    md5_copy_is_known();
    let (t, k, d) = choose|t: int, k: int, d: int|
        #![trigger handles(m, t, p, q, k), first_wildcard(q, d)]
        first_vtable(m, encode_utf8(CLIENTSTATE_CLASS@), t) && handles(m, t, p, q, k) && m.vfn(
            t,
            k,
        ) == Some(f) && first_wildcard(q, d) && byte_in_match(
            q,
            m.read_va(f, PROCSERVINFO_WINDOW as int)->0,
            d,
            off,
        );
    let body = m.read_va(f, PROCSERVINFO_WINDOW as int)->0;
    assert(q[0] == Some(0xf3u8) && q[1] == Some(0x0fu8) && q[2] == Some(0x6fu8) && q[3] == Some(
        0x53u8,
    ) && q[4] is None);
    assert(d == 4) by {
        if d > 4 {
            assert(q[4] is Some);
        }
    }
    let at = choose|at: int| #[trigger] first_match(q, body, 0, at) && body[at + d] == off;
    assert(pattern_at(q, body, at));
    assert(q[5] == Some(0x41u8) && q[6] == Some(0x0fu8) && q[7] == Some(0x11u8) && q[8] == Some(
        0x94u8,
    ) && q[9] == Some(0x24u8));
    assert(body[at + 0] == 0xf3);
    assert(body[at] == 0xf3);
}

/// What is written over the handler's entry: a jump to the replacement that
/// fills its 19 bytes; and what keeps the handler reachable: the entry, and a
/// jump back behind it.
pub proof fn the_handler_stays_reachable(target: u64, current: Seq<u8>, ours: u64)
    requires
        current.len() == 19,
        target + 19 <= u64::MAX,
        intercepted(target as int, current, ours as int) is Ok,
    ensures
        ({
            let i = intercepted(target as int, current, ours as int)->Ok_0;
            &&& i.target == target
            &&& i.patch.len() == 19
            &&& i.patch.take(12) == movabs_jump(ours as int)
            &&& forall|k: int| 12 <= k < 19 ==> #[trigger] i.patch[k] == 0x90
            &&& i.trampoline.take(19) == current
            &&& i.trampoline.skip(19) == movabs_jump(target + 19)
            &&& i.page <= target
            &&& target + 19 <= i.page + i.page_len
        }),
{
    let i = intercepted(target as int, current, ours as int)->Ok_0;
    jumps_are_whole(ours);
    jumps_are_whole((target + 19) as u64);
    assert(i.patch.take(12) =~= movabs_jump(ours as int));
    assert(i.trampoline.take(19) =~= current);
    assert(i.trampoline.skip(19) =~= movabs_jump(target + 19));
    pages_hold_the_bytes(target as int, 19);
}

/// The handler is intercepted where its entry is the expected one, and only
/// there.
pub proof fn only_the_expected_entry_is_intercepted(target: int, current: Seq<u8>, ours: int)
    requires
        current.len() == 19,
    ensures
        intercepted(target, current, ours) is Ok <==> current[0] == 0x55 && current[1] == 0x48
            && current[2] == 0x89 && current[3] == 0xe5 && current[4] == 0x41 && current[5] == 0x55
            && current[6] == 0x41 && current[7] == 0x54 && current[8] == 0x49 && current[9] == 0x89
            && current[10] == 0xfc && current[11] == 0x53 && current[12] == 0x48 && current[13]
            == 0x89 && current[14] == 0xf3 && current[15] == 0x48 && current[16] == 0x83
            && current[17] == 0xec,
{
    handler_entry_is_known();
    let p = pattern_of(PROCSERVINFO_PROLOGUE@)->0;
    assert(p[0] == Some(0x55u8) && p[1] == Some(0x48u8) && p[2] == Some(0x89u8) && p[3] == Some(
        0xe5u8,
    ) && p[4] == Some(0x41u8) && p[5] == Some(0x55u8) && p[6] == Some(0x41u8) && p[7] == Some(
        0x54u8,
    ) && p[8] == Some(0x49u8) && p[9] == Some(0x89u8) && p[10] == Some(0xfcu8) && p[11] == Some(
        0x53u8,
    ) && p[12] == Some(0x48u8) && p[13] == Some(0x89u8) && p[14] == Some(0xf3u8) && p[15] == Some(
        0x48u8,
    ) && p[16] == Some(0x83u8) && p[17] == Some(0xecu8) && p[18] is None);
    if current[0] == 0x55 && current[1] == 0x48 && current[2] == 0x89 && current[3] == 0xe5
        && current[4] == 0x41 && current[5] == 0x55 && current[6] == 0x41 && current[7] == 0x54
        && current[8] == 0x49 && current[9] == 0x89 && current[10] == 0xfc && current[11] == 0x53
        && current[12] == 0x48 && current[13] == 0x89 && current[14] == 0xf3 && current[15] == 0x48
        && current[16] == 0x83 && current[17] == 0xec {
        assert forall|j: int| 0 <= j < p.len() implies #[trigger] p[j] is None || p[j] == Some(
            current[0 + j],
        ) by {
            assert(j == 0 || j == 1 || j == 2 || j == 3 || j == 4 || j == 5 || j == 6 || j == 7 || j
                == 8 || j == 9 || j == 10 || j == 11 || j == 12 || j == 13 || j == 14 || j == 15
                || j == 16 || j == 17 || j == 18);
        }
        assert(pattern_at(p, current, 0));
    }
}

/// The class whose handler is looked for, as the compiler spells its name.
pub proof fn the_class_is_spelled_so()
    ensures
        CLIENTSTATE_CLASS@ == "12CClientState"@,
{
}

} // verus!
