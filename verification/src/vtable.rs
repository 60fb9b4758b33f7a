//! What is hooked in the Linux modules.
//!
//! Nothing here is a link-time address or a vtable slot index: a stale slot
//! address still points at a valid function pointer of some other class.
//! Classes come from RTTI, each method is identified by what its code *does*,
//! and a match must be unique: two slots that match would be a guess.
use vstd::prelude::*;
use vstd::utf8::encode_utf8;

use crate::elf::{first_vtable, virtuals_of, ElfImage, Module};
use crate::sig::{
    all_found, all_in, first_word, last_word, next_word, parse_all, pattern_at, pattern_in,
    pattern_of, pattern_views, patterns_of, spells, Pattern,
};

verus! {

/// Class whose vtable declares CreateMove (RTTI typeinfo name).
pub const INPUT_CLASS: &'static str = "6CInput";

/// Class that inherits CreateMove, and whose vtable the engine dispatches
/// through.
pub const CS_INPUT_CLASS: &'static str = "8CCSInput";

/// `imul $0xb60b60b7,%rax,%rax`: the division by 90 of the command ring.
pub const CREATEMOVE_DIV: &'static str = "48 69 C0 B7 60 0B B6";

/// `imul $0x5a,%eax,%eax`: the multiplication back.
pub const CREATEMOVE_MUL: &'static str = "6B C0 5A";

/// `movss %xmm0,disp32(%rbp)`: the float argument spill.
pub const CREATEMOVE_SPILL: &'static str = "F3 0F 11 85";

/// How far into a function body to look for the patterns above.
pub const BODY_WINDOW: usize = 0x80;

/// launcher.so's ILauncherMgr implementation, which owns the raw mouse
/// accumulators (RTTI typeinfo name).
pub const LAUNCHER_MGR_CLASS: &'static str = "7CSDLMgr";

/// `GetRawMouseAccumulators(int &x, int &y)`: a tiny leaf function, matched at
/// the entry point, with the field displacements wildcarded.
pub const GETRAWACCUM_BODY: &'static str = "8B 47 ?? 89 06 8B 47 ?? 89 02 48 C7 47 ?? 00 00 00 00 C3";

/// Upper bound when walking a vtable of unknown size.
pub const VTABLE_MAX: usize = 256;

/// Virtual `k` of the vtable at `t` is within the walk: it and all before it
/// hold code.
pub open spec fn in_walk(m: ElfImage, t: int, k: int) -> bool {
    0 <= k < VTABLE_MAX && forall|j: int| 0 <= j <= k ==> (#[trigger] m.vfn(t, j)) is Some
}

/// Virtual `k` of the vtable at `t` is within the walk, and its body of
/// `window` bytes matches every pattern.
pub open spec fn body_matches(
    m: ElfImage,
    t: int,
    ps: Seq<Seq<Option<u8>>>,
    window: int,
    k: int,
) -> bool {
    in_walk(m, t, k) && (m.read_va(m.vfn(t, k)->0, window) matches Some(body) && all_in(ps, body))
}

/// `slot` and `f` are the slot and the code of the one virtual of the class's
/// primary vtable whose body matches every pattern.
pub open spec fn is_virtual(
    m: ElfImage,
    class: Seq<u8>,
    ps: Seq<Seq<Option<u8>>>,
    window: int,
    slot: int,
    f: int,
) -> bool {
    exists|t: int, k: int|
        #![trigger body_matches(m, t, ps, window, k)]
        first_vtable(m, class, t) && body_matches(m, t, ps, window, k) && (forall|j: int|
            body_matches(m, t, ps, window, j) ==> j == k) && slot == t + 8 + 8 * k && m.vfn(t, k)
            == Some(f)
}

/// Finds the one virtual in `class`'s vtable whose body matches every pattern
/// in `specs`, searching `window` bytes from the entry point. Returns (slot
/// address, function address, body bytes), or `None` if there is no match or
/// more than one.
pub fn resolve_virtual(m: &Module, class: &str, specs: &[&str], window: usize) -> (r: Option<
    (u64, u64, Vec<u8>),
>)
    ensures
        match r {
            Some((slot, f, body)) => patterns_of(specs@) matches Some(ps) && is_virtual(
                m@,
                encode_utf8(class@),
                ps,
                window as int,
                slot as int,
                f as int,
            ) && m@.read_va(f as int, window as int) == Some(body@) && body@.len() == window
                && all_in(ps, body@),
            None => patterns_of(specs@) matches Some(ps) ==> forall|slot: int, f: int|
                !is_virtual(m@, encode_utf8(class@), ps, window as int, slot, f),
        },
{
    let pats: Vec<Pattern> = match parse_all(specs) {
        Some(pats) => pats,
        None => {
            return None;
        },
    };
    let ghost ps = pattern_views(pats@);
    let ghost name = encode_utf8(class@);
    let t: u64 = match m.vtable(class) {
        Some(t) => t,
        None => {
            assert forall|slot: int, f: int|
                !is_virtual(m@, name, ps, window as int, slot, f) by {
                if is_virtual(m@, name, ps, window as int, slot, f) {
                    let (u, k) = choose|u: int, k: int|
                        #![trigger body_matches(m@, u, ps, window as int, k)]
                        first_vtable(m@, name, u) && body_matches(m@, u, ps, window as int, k);
                    table_is_word(m@, name, u);
                    assert(!m@.is_vtable(name, (u as u64) as int, 0));
                }
            }
            return None;
        },
    };
    let all: Vec<(usize, u64)> = m.virtuals(t, VTABLE_MAX);
    assert forall|k: int| in_walk(m@, t as int, k) <==> 0 <= k < all@.len() by {
        walk_is_listed(m@, t as int, all@, k);
    }
    let mut found: Option<(usize, u64, Vec<u8>)> = None;
    let mut i: usize = 0;
    while i < all.len()
        invariant
            i <= all@.len(),
            ps == pattern_views(pats@),
            virtuals_of(m@, t as int, VTABLE_MAX as int, all@),
            forall|k: int| in_walk(m@, t as int, k) <==> 0 <= k < all@.len(),
            match found {
                Some((k, f, body)) => k < i && body_matches(
                    m@,
                    t as int,
                    ps,
                    window as int,
                    k as int,
                ) && m@.vfn(t as int, k as int) == Some(f as int) && m@.read_va(
                    f as int,
                    window as int,
                ) == Some(body@) && body@.len() == window && (forall|j: int|
                    j < i && body_matches(m@, t as int, ps, window as int, j) ==> j == k),
                None => forall|j: int|
                    j < i ==> !body_matches(m@, t as int, ps, window as int, j),
            },
            patterns_of(specs@) == Some(ps),
            name == encode_utf8(class@),
            first_vtable(m@, name, t as int),
        decreases all@.len() - i,
    {
        let f: u64 = all[i].1;
        assert(all@[i as int].0 == i && m@.vfn(t as int, i as int) == Some(f as int));
        match m.read_va(f, window) {
            Some(body) => {
                if all_found(pats.as_slice(), body.as_slice()) {
                    assert(body_matches(m@, t as int, ps, window as int, i as int));
                    if found.is_some() {
                        proof {
                            let k = (found->0).0 as int;
                            assert forall|slot: int, g: int|
                                !is_virtual(m@, name, ps, window as int, slot, g) by {
                                two_are_none(m@, name, t as int, ps, window as int, k, i as int);
                            }
                        }
                        return None;
                    }
                    found = Some((i, f, body));
                }
            },
            None => {},
        }
        i = i + 1;
    }
    match found {
        Some((k, f, body)) => {
            let slot: u64 = Module::vslot(t, k);
            Some((slot, f, body))
        },
        None => {
            assert forall|slot: int, g: int|
                !is_virtual(m@, name, ps, window as int, slot, g) by {
                if is_virtual(m@, name, ps, window as int, slot, g) {
                    let (u, k) = choose|u: int, k: int|
                        #![trigger body_matches(m@, u, ps, window as int, k)]
                        first_vtable(m@, name, u) && body_matches(m@, u, ps, window as int, k);
                    one_table(m@, name, u, t as int);
                    assert(in_walk(m@, t as int, k));
                }
            }
            None
        },
    }
}

/// Locates `GetRawMouseAccumulators`: the launcher manager virtual whose entry
/// point *is* the accumulator-serving body. Returns (slot address, function
/// address).
pub fn resolve_getrawaccum(m: &Module) -> (r: Option<(u64, u64)>)
    ensures
        match r {
            Some((slot, f)) => pattern_of(GETRAWACCUM_BODY@) matches Some(p)
                && is_virtual(
                m@,
                encode_utf8(LAUNCHER_MGR_CLASS@),
                seq![p],
                p.len() as int,
                slot as int,
                f as int,
            ),
            None => pattern_of(GETRAWACCUM_BODY@) matches Some(p) ==> forall|
                slot: int,
                f: int,
            |
                !is_virtual(
                    m@,
                    encode_utf8(LAUNCHER_MGR_CLASS@),
                    seq![p],
                    p.len() as int,
                    slot,
                    f,
                ),
        },
{
    let pat: Pattern = match Pattern::parse(GETRAWACCUM_BODY) {
        Some(p) => p,
        None => {
            return None;
        },
    };
    let specs: [&str; 1] = [GETRAWACCUM_BODY];
    assert(specs@[0]@ == GETRAWACCUM_BODY@);
    assert(patterns_of(specs@) is Some);
    assert(patterns_of(specs@)->0 =~= seq![pat@]);
    match resolve_virtual(m, LAUNCHER_MGR_CLASS, specs.as_slice(), pat.len()) {
        Some((slot, f, body)) => {
            assert(pattern_in(seq![pat@][0], body@));
            assert(pattern_at(pat@, body@, 0));
            if pat.matches_at(body.as_slice(), 0) {
                Some((slot, f))
            } else {
                None
            }
        },
        None => None,
    }
}

/// Whether `slot` and `f` are slot and code of the CreateMove of a class.
pub open spec fn is_createmove(m: ElfImage, class: Seq<u8>, slot: int, f: int) -> bool {
    patterns_of(
        seq![CREATEMOVE_DIV, CREATEMOVE_MUL, CREATEMOVE_SPILL],
    ) matches Some(ps) && is_virtual(m, class, ps, BODY_WINDOW as int, slot, f)
}

/// CreateMove of one class: its slot and its code.
fn createmove_of(m: &Module, class: &str) -> (r: Option<(u64, u64)>)
    ensures
        match r {
            Some((slot, f)) => is_createmove(m@, encode_utf8(class@), slot as int, f as int),
            None => forall|slot: int, f: int| !is_createmove(m@, encode_utf8(class@), slot, f),
        },
{
    let specs: [&str; 3] = [CREATEMOVE_DIV, CREATEMOVE_MUL, CREATEMOVE_SPILL];
    assert(specs@ =~= seq![CREATEMOVE_DIV, CREATEMOVE_MUL, CREATEMOVE_SPILL]);
    match resolve_virtual(m, class, specs.as_slice(), BODY_WINDOW) {
        Some((slot, f, _)) => Some((slot, f)),
        None => None,
    }
}

/// Locates `CreateMove` and every input vtable slot that dispatches to it.
/// Returns (function address, slot addresses).
///
/// CInput declares the implementation and CCSInput inherits it unchanged, and
/// the singleton the engine dispatches through is the derived one: the function
/// is found once, then every vtable that carries it.
pub fn resolve_createmove(m: &Module) -> (r: Option<(u64, Vec<u64>)>)
    ensures
        match r {
            Some((f, slots)) => {
                &&& slots@.len() == 1 || slots@.len() == 2
                &&& is_createmove(m@, encode_utf8(INPUT_CLASS@), slots@[0] as int, f as int)
                &&& slots@.len() == 2 ==> is_createmove(
                    m@,
                    encode_utf8(CS_INPUT_CLASS@),
                    slots@[1] as int,
                    f as int,
                )
                &&& slots@.len() == 1 ==> forall|slot: int|
                    !is_createmove(m@, encode_utf8(CS_INPUT_CLASS@), slot, f as int)
            },
            None => forall|slot: int, f: int|
                !is_createmove(m@, encode_utf8(INPUT_CLASS@), slot, f),
        },
{
    match createmove_of(m, INPUT_CLASS) {
        None => None,
        Some((slot, f)) => {
            let mut slots: Vec<u64> = Vec::new();
            slots.push(slot);
            match createmove_of(m, CS_INPUT_CLASS) {
                Some((derived, g)) => {
                    if g == f {
                        slots.push(derived);
                    } else {
                        proof {
                            let c = encode_utf8(CS_INPUT_CLASS@);
                            assert forall|s: int| !is_createmove(m@, c, s, f as int) by {
                                if is_createmove(m@, c, s, f as int) {
                                    let ps = patterns_of(
                                        seq![CREATEMOVE_DIV, CREATEMOVE_MUL, CREATEMOVE_SPILL],
                                    )->0;
                                    virtual_is_unique(
                                        m@,
                                        c,
                                        ps,
                                        BODY_WINDOW as int,
                                        s,
                                        f as int,
                                        derived as int,
                                        g as int,
                                    );
                                }
                            }
                        }
                    }
                },
                None => {},
            }
            Some((f, slots))
        },
    }
}

/// What resolves is unambiguous: no two slots and no two functions are the one
/// matching virtual of a class.
pub proof fn virtual_is_unique(
    m: ElfImage,
    class: Seq<u8>,
    ps: Seq<Seq<Option<u8>>>,
    window: int,
    slot1: int,
    f1: int,
    slot2: int,
    f2: int,
)
    requires
        is_virtual(m, class, ps, window, slot1, f1),
        is_virtual(m, class, ps, window, slot2, f2),
    ensures
        slot1 == slot2,
        f1 == f2,
{
    let (t1, k1) = choose|t: int, k: int|
        #![trigger body_matches(m, t, ps, window, k)]
        first_vtable(m, class, t) && body_matches(m, t, ps, window, k) && (forall|j: int|
            body_matches(m, t, ps, window, j) ==> j == k) && slot1 == t + 8 + 8 * k && m.vfn(t, k)
            == Some(f1);
    let (t2, k2) = choose|t: int, k: int|
        #![trigger body_matches(m, t, ps, window, k)]
        first_vtable(m, class, t) && body_matches(m, t, ps, window, k) && (forall|j: int|
            body_matches(m, t, ps, window, j) ==> j == k) && slot2 == t + 8 + 8 * k && m.vfn(t, k)
            == Some(f2);
    one_table(m, class, t1, t2);
}

/// What resolves is in the module: the slot holds the function, and the
/// function is code.
pub proof fn virtual_is_held_by_its_slot(
    m: ElfImage,
    class: Seq<u8>,
    ps: Seq<Seq<Option<u8>>>,
    window: int,
    slot: int,
    f: int,
)
    requires
        is_virtual(m, class, ps, window, slot, f),
    ensures
        m.u64_va(slot) == Some(f),
        m.is_exec(f),
{
}

pub(crate) proof fn table_is_word(m: ElfImage, class: Seq<u8>, t: int)
    requires
        m.is_vtable(class, t, 0),
    ensures
        0 <= t <= u64::MAX,
{
}

pub(crate) proof fn one_table(m: ElfImage, class: Seq<u8>, t: int, u: int)
    requires
        first_vtable(m, class, t),
        first_vtable(m, class, u),
    ensures
        t == u,
{
    table_is_word(m, class, t);
    table_is_word(m, class, u);
    if t < u {
        assert(!m.is_vtable(class, (t as u64) as int, 0));
    }
    if u < t {
        assert(!m.is_vtable(class, (u as u64) as int, 0));
    }
}

proof fn two_are_none(
    m: ElfImage,
    class: Seq<u8>,
    t: int,
    ps: Seq<Seq<Option<u8>>>,
    window: int,
    a: int,
    b: int,
)
    requires
        first_vtable(m, class, t),
        body_matches(m, t, ps, window, a),
        body_matches(m, t, ps, window, b),
        a != b,
    ensures
        forall|slot: int, f: int| !is_virtual(m, class, ps, window, slot, f),
{
    assert forall|slot: int, f: int| !is_virtual(m, class, ps, window, slot, f) by {
        if is_virtual(m, class, ps, window, slot, f) {
            let (u, k) = choose|u: int, k: int|
                #![trigger body_matches(m, u, ps, window, k)]
                first_vtable(m, class, u) && body_matches(m, u, ps, window, k) && (forall|j: int|
                    body_matches(m, u, ps, window, j) ==> j == k);
            one_table(m, class, u, t);
        }
    }
}

pub(crate) proof fn walk_is_listed(m: ElfImage, t: int, all: Seq<(usize, u64)>, k: int)
    requires
        virtuals_of(m, t, VTABLE_MAX as int, all),
    ensures
        in_walk(m, t, k) <==> 0 <= k < all.len(),
{
    if 0 <= k < all.len() {
        assert forall|j: int| 0 <= j <= k implies (#[trigger] m.vfn(t, j)) is Some by {
            assert(all[j].0 == j);
        }
    } else if in_walk(m, t, k) {
        assert(m.vfn(t, all.len() as int) is Some);
    }
}

/// The division of `CreateMove`: `imul rax, rax, -1240768329`.
pub proof fn createmove_division_is_known()
    ensures
        pattern_of(CREATEMOVE_DIV@) matches Some(p) && spells(
            p,
            seq![
            0x48, 0x69, 0xc0, 0xb7, 0x60, 0x0b, 0xb6,
            ],
        ),
{
    reveal_strlit("48 69 C0 B7 60 0B B6");
    let text = "48 69 C0 B7 60 0B B6"@;
    first_word(text);
    next_word(text, 0, 0, 3, Some(0x48));
    next_word(text, 1, 3, 6, Some(0x69));
    next_word(text, 2, 6, 9, Some(0xc0));
    next_word(text, 3, 9, 12, Some(0xb7));
    next_word(text, 4, 12, 15, Some(0x60));
    next_word(text, 5, 15, 18, Some(0x0b));
    next_word(text, 6, 18, 20, Some(0xb6));
    last_word(text, 7);
    assert(CREATEMOVE_DIV@ == text);
    let p = pattern_of(text)->0;
    assert(p[0] == Some(0x48u8));
    assert(p[1] == Some(0x69u8));
    assert(p[2] == Some(0xc0u8));
    assert(p[3] == Some(0xb7u8));
    assert(p[4] == Some(0x60u8));
    assert(p[5] == Some(0x0bu8));
    assert(p[6] == Some(0xb6u8));
    let bytes: Seq<int> = seq![
            0x48, 0x69, 0xc0, 0xb7, 0x60, 0x0b, 0xb6,
    ];
    assert forall|j: int| 0 <= j < bytes.len() implies if bytes[j] < 0 {
        #[trigger] p[j] is None
    } else {
        p[j] == Some(bytes[j] as u8)
    } by {
        assert(j == 0 || j == 1 || j == 2 || j == 3 || j == 4 || j == 5 || j == 6);
    }
}

/// The multiplication of `CreateMove` by 90.
pub proof fn createmove_product_is_known()
    ensures
        pattern_of(CREATEMOVE_MUL@) matches Some(p) && spells(
            p,
            seq![
            0x6b, 0xc0, 0x5a,
            ],
        ),
{
    reveal_strlit("6B C0 5A");
    let text = "6B C0 5A"@;
    first_word(text);
    next_word(text, 0, 0, 3, Some(0x6b));
    next_word(text, 1, 3, 6, Some(0xc0));
    next_word(text, 2, 6, 8, Some(0x5a));
    last_word(text, 3);
    assert(CREATEMOVE_MUL@ == text);
    let p = pattern_of(text)->0;
    assert(p[0] == Some(0x6bu8));
    assert(p[1] == Some(0xc0u8));
    assert(p[2] == Some(0x5au8));
    let bytes: Seq<int> = seq![
            0x6b, 0xc0, 0x5a,
    ];
    assert forall|j: int| 0 <= j < bytes.len() implies if bytes[j] < 0 {
        #[trigger] p[j] is None
    } else {
        p[j] == Some(bytes[j] as u8)
    } by {
        assert(j == 0 || j == 1 || j == 2);
    }
}

/// The spill of `CreateMove`: `movss %xmm0, disp32(%rbp)`.
pub proof fn createmove_spill_is_known()
    ensures
        pattern_of(CREATEMOVE_SPILL@) matches Some(p) && spells(
            p,
            seq![
            0xf3, 0x0f, 0x11, 0x85,
            ],
        ),
{
    reveal_strlit("F3 0F 11 85");
    let text = "F3 0F 11 85"@;
    first_word(text);
    next_word(text, 0, 0, 3, Some(0xf3));
    next_word(text, 1, 3, 6, Some(0x0f));
    next_word(text, 2, 6, 9, Some(0x11));
    next_word(text, 3, 9, 11, Some(0x85));
    last_word(text, 4);
    assert(CREATEMOVE_SPILL@ == text);
    let p = pattern_of(text)->0;
    assert(p[0] == Some(0xf3u8));
    assert(p[1] == Some(0x0fu8));
    assert(p[2] == Some(0x11u8));
    assert(p[3] == Some(0x85u8));
    let bytes: Seq<int> = seq![
            0xf3, 0x0f, 0x11, 0x85,
    ];
    assert forall|j: int| 0 <= j < bytes.len() implies if bytes[j] < 0 {
        #[trigger] p[j] is None
    } else {
        p[j] == Some(bytes[j] as u8)
    } by {
        assert(j == 0 || j == 1 || j == 2 || j == 3);
    }
}

/// The accumulator on Linux: both values are handed out and reset.
pub proof fn accumulator_is_known()
    ensures
        pattern_of(GETRAWACCUM_BODY@) matches Some(p) && spells(
            p,
            seq![
            0x8b, 0x47, -1, 0x89, 0x06, 0x8b, 0x47, -1, 0x89, 0x02, 0x48, 0xc7, 0x47, -1, 0x00,
            0x00, 0x00, 0x00, 0xc3,
            ],
        ),
{
    reveal_strlit("8B 47 ?? 89 06 8B 47 ?? 89 02 48 C7 47 ?? 00 00 00 00 C3");
    let text = "8B 47 ?? 89 06 8B 47 ?? 89 02 48 C7 47 ?? 00 00 00 00 C3"@;
    first_word(text);
    next_word(text, 0, 0, 3, Some(0x8b));
    next_word(text, 1, 3, 6, Some(0x47));
    next_word(text, 2, 6, 9, None);
    next_word(text, 3, 9, 12, Some(0x89));
    next_word(text, 4, 12, 15, Some(0x06));
    next_word(text, 5, 15, 18, Some(0x8b));
    next_word(text, 6, 18, 21, Some(0x47));
    next_word(text, 7, 21, 24, None);
    next_word(text, 8, 24, 27, Some(0x89));
    next_word(text, 9, 27, 30, Some(0x02));
    next_word(text, 10, 30, 33, Some(0x48));
    next_word(text, 11, 33, 36, Some(0xc7));
    next_word(text, 12, 36, 39, Some(0x47));
    next_word(text, 13, 39, 42, None);
    next_word(text, 14, 42, 45, Some(0x00));
    next_word(text, 15, 45, 48, Some(0x00));
    next_word(text, 16, 48, 51, Some(0x00));
    next_word(text, 17, 51, 54, Some(0x00));
    next_word(text, 18, 54, 56, Some(0xc3));
    last_word(text, 19);
    assert(GETRAWACCUM_BODY@ == text);
    let p = pattern_of(text)->0;
    assert(p[0] == Some(0x8bu8));
    assert(p[1] == Some(0x47u8));
    assert(p[2] is None);
    assert(p[3] == Some(0x89u8));
    assert(p[4] == Some(0x06u8));
    assert(p[5] == Some(0x8bu8));
    assert(p[6] == Some(0x47u8));
    assert(p[7] is None);
    assert(p[8] == Some(0x89u8));
    assert(p[9] == Some(0x02u8));
    assert(p[10] == Some(0x48u8));
    assert(p[11] == Some(0xc7u8));
    assert(p[12] == Some(0x47u8));
    assert(p[13] is None);
    assert(p[14] == Some(0x00u8));
    assert(p[15] == Some(0x00u8));
    assert(p[16] == Some(0x00u8));
    assert(p[17] == Some(0x00u8));
    assert(p[18] == Some(0xc3u8));
    let bytes: Seq<int> = seq![
            0x8b, 0x47, -1, 0x89, 0x06, 0x8b, 0x47, -1, 0x89, 0x02, 0x48, 0xc7, 0x47, -1, 0x00,
            0x00, 0x00, 0x00, 0xc3,
    ];
    assert forall|j: int| 0 <= j < bytes.len() implies if bytes[j] < 0 {
        #[trigger] p[j] is None
    } else {
        p[j] == Some(bytes[j] as u8)
    } by {
        assert(j == 0 || j == 1 || j == 2 || j == 3 || j == 4 || j == 5 || j == 6 || j == 7 || j == 8 || j == 9 || j == 10 || j == 11 || j == 12 || j == 13 || j == 14 || j == 15 || j == 16 || j == 17 || j == 18);
    }
}

/// The only virtual of the class whose body matches every pattern is found.
pub proof fn a_lone_virtual_is_found(
    m: ElfImage,
    class: Seq<u8>,
    ps: Seq<Seq<Option<u8>>>,
    window: int,
    t: int,
    k: int,
    f: int,
)
    requires
        first_vtable(m, class, t),
        0 <= k < 256,
        forall|j: int| 0 <= j <= k ==> (#[trigger] m.vfn(t, j)) is Some,
        m.vfn(t, k) == Some(f),
        m.read_va(f, window) matches Some(body) && all_in(ps, body),
        forall|j: int| body_matches(m, t, ps, window, j) ==> j == k,
    ensures
        is_virtual(m, class, ps, window, t + 8 + 8 * k, f),
{
    assert(in_walk(m, t, k));
    assert(body_matches(m, t, ps, window, k));
}

/// `CreateMove` is the virtual that holds all three of its marks.
pub proof fn createmove_holds_its_marks(m: ElfImage, class: Seq<u8>, slot: int, f: int)
    requires
        is_createmove(m, class, slot, f),
    ensures
        m.u64_va(slot) == Some(f),
        m.is_exec(f),
        m.read_va(f, 0x80) matches Some(body) && pattern_in(
            pattern_of(CREATEMOVE_DIV@)->0,
            body,
        ) && pattern_in(pattern_of(CREATEMOVE_MUL@)->0, body) && pattern_in(
            pattern_of(CREATEMOVE_SPILL@)->0,
            body,
        ),
{
    let specs = seq![CREATEMOVE_DIV, CREATEMOVE_MUL, CREATEMOVE_SPILL];
    let ps = patterns_of(specs)->0;
    let (t, k) = choose|t: int, k: int|
        #![trigger body_matches(m, t, ps, BODY_WINDOW as int, k)]
        first_vtable(m, class, t) && body_matches(m, t, ps, BODY_WINDOW as int, k) && slot == t + 8
            + 8 * k && m.vfn(t, k) == Some(f);
    assert(specs[0] == CREATEMOVE_DIV && specs[1] == CREATEMOVE_MUL && specs[2]
        == CREATEMOVE_SPILL);
    let body = m.read_va(f, BODY_WINDOW as int)->0;
    assert(all_in(ps, body));
    assert(pattern_in(ps[0], body) && pattern_in(ps[1], body) && pattern_in(ps[2], body));
}

/// The classes that are looked for, as the compiler spells their names.
pub proof fn classes_are_spelled_so()
    ensures
        INPUT_CLASS@ == "6CInput"@,
        CS_INPUT_CLASS@ == "8CCSInput"@,
        LAUNCHER_MGR_CLASS@ == "7CSDLMgr"@,
{
}

} // verus!
