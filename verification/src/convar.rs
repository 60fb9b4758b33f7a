//! Where the game keeps the value of `m_rawinput`.
//!
//! On Linux the variable is found by its name: the text in the client, a
//! pointer to that text in writable memory, and around the pointer an object
//! of the right shape. On Windows it is found by the instruction of the
//! client's accumulator that loads it.
use vstd::prelude::*;
use vstd::utf8::{encode_utf8, is_ascii_chars_encode_utf8};

use crate::bytes::{
    find_subslice, le32, le64, occurs_at, rd_i32, rd_u64, same_bytes, signed32,
};
use crate::live::{LiveModule, LiveView};
use crate::pe::{is_writable, Access, PeImage};
use crate::procfs::{maps_addr, Mapping, MappingView};
use crate::sig::{first_word, last_word, next_word, pattern_of, patterns_of, spells};
use crate::text::{chars, ends_with, push_signed, same_chars, signed_text, starts_with};

verus! {

/// Where a variable keeps the pointer to its name.
pub const CONVAR_NAME_OFFSET: u64 = 0x18;

/// Where a variable keeps its value.
pub const CONVAR_VALUE_OFFSET: u64 = 0x50;

/// Greatest size of an anonymous mapping that is searched.
pub const ANONYMOUS_MAX: u64 = 33_554_432;

/// `m_rawinput` with its closing NUL.
pub open spec fn rawinput_name() -> Seq<u8> {
    seq![109u8, 95, 114, 97, 119, 105, 110, 112, 117, 116, 0]
}

/// The bytes of a mapping.
pub struct Region {
    pub start: u64,
    pub bytes: Vec<u8>,
}

/// The mapping belongs to the client.
pub open spec fn of_client(m: MappingView) -> bool {
    ends_with(m.path, "/client.so"@)
}

/// The mapping is readable.
pub open spec fn is_readable(m: MappingView) -> bool {
    starts_with(m.perms, seq!['r'])
}

/// A mapping that may hold the name.
pub open spec fn may_hold_name(m: MappingView) -> bool {
    of_client(m) && is_readable(m)
}

/// A mapping that may hold the variable: writable, and the client's or a small
/// anonymous one.
pub open spec fn may_hold_convar(m: MappingView) -> bool {
    starts_with(m.perms, seq!['r', 'w']) && (of_client(m) || (m.path.len() == 0 && m.end - m.start
        < ANONYMOUS_MAX))
}

/// Whether characters end with a text.
fn tail_is(s: &[char], tail: &str) -> (r: bool)
    ensures
        r == ends_with(s@, tail@),
{
    let t: Vec<char> = chars(tail);
    if t.len() > s.len() {
        return false;
    }
    let part: &[char] = vstd::slice::slice_subrange(s, s.len() - t.len(), s.len());
    assert(part@ =~= s@.skip(s@.len() - t@.len()));
    same_chars(part, t.as_slice())
}

/// Whether a mapping belongs to the client.
fn client_mapping(m: &Mapping) -> (r: bool)
    ensures
        r == of_client(m@),
{
    tail_is(m.path.as_slice(), "/client.so")
}

/// Whether a mapping is readable.
fn readable_mapping(m: &Mapping) -> (r: bool)
    ensures
        r == is_readable(m@),
{
    let r: bool = m.perms.len() > 0 && m.perms[0] == 'r';
    proof {
        if m.perms@.len() > 0 {
            assert(m.perms@.take(1) =~= seq![m.perms@[0]]);
            assert(m.perms@.take(1)[0] == m.perms@[0]);
            assert(seq!['r'][0] == 'r');
        }
    }
    r
}

/// Whether a mapping may hold the name.
pub fn name_mapping(m: &Mapping) -> (r: bool)
    ensures
        r == may_hold_name(m@),
{
    client_mapping(m) && readable_mapping(m)
}

/// Whether a mapping may hold the variable.
pub fn convar_mapping(m: &Mapping) -> (r: bool)
    requires
        m.start <= m.end,
    ensures
        r == may_hold_convar(m@),
{
    let rw: bool = m.perms.len() > 1 && m.perms[0] == 'r' && m.perms[1] == 'w';
    proof {
        if m.perms@.len() > 1 {
            assert(m.perms@.take(2) =~= seq![m.perms@[0], m.perms@[1]]);
            assert(m.perms@.take(2)[0] == m.perms@[0] && m.perms@.take(2)[1] == m.perms@[1]);
            assert(seq!['r', 'w'][0] == 'r' && seq!['r', 'w'][1] == 'w');
        }
    }
    rw && (client_mapping(m) || (m.path.len() == 0 && m.end - m.start < ANONYMOUS_MAX))
}

/// The name stands in this region first at this place.
pub open spec fn name_in(bytes: Seq<u8>, at: int) -> bool {
    occurs_at(bytes, rawinput_name(), at) && forall|q: int|
        q < at ==> !occurs_at(bytes, rawinput_name(), q)
}

/// The region holds the name.
pub open spec fn holds_name(bytes: Seq<u8>) -> bool {
    exists|at: int| occurs_at(bytes, rawinput_name(), at)
}

/// Where the name stands: the first place in the first region that holds it.
pub fn find_name(regions: &[Region]) -> (r: Option<u64>)
    requires
        forall|i: int|
            0 <= i < regions@.len() ==> (#[trigger] regions@[i]).start + regions@[i].bytes.len()
                <= u64::MAX,
    ensures
        match r {
            Some(a) => exists|i: int, at: int|
                0 <= i < regions@.len() && #[trigger] name_in(regions@[i].bytes@, at) && a
                    == regions@[i].start + at && forall|j: int|
                    0 <= j < i ==> !holds_name((#[trigger] regions@[j]).bytes@),
            None => forall|j: int|
                0 <= j < regions@.len() ==> !holds_name((#[trigger] regions@[j]).bytes@),
        },
{
    let needle: [u8; 11] = [109, 95, 114, 97, 119, 105, 110, 112, 117, 116, 0];
    assert(needle@ =~= rawinput_name());
    let mut i: usize = 0;
    while i < regions.len()
        invariant
            i <= regions.len(),
            needle@ == rawinput_name(),
            forall|j: int| 0 <= j < i ==> !holds_name((#[trigger] regions@[j]).bytes@),
            forall|j: int|
                0 <= j < regions@.len() ==> (#[trigger] regions@[j]).start
                    + regions@[j].bytes.len() <= u64::MAX,
        decreases regions.len() - i,
    {
        let size: usize = regions[i].bytes.len();
        match find_subslice(regions[i].bytes.as_slice(), &needle) {
            Some(at) => {
                assert(name_in(regions@[i as int].bytes@, at as int));
                return Some(regions[i].start + at as u64);
            },
            None => {},
        }
        i = i + 1;
    }
    None
}

/// The address is mapped readable.
pub open spec fn in_readable(maps: Seq<Mapping>, a: int) -> bool {
    exists|i: int|
        0 <= i < maps.len() && is_readable((#[trigger] maps[i])@) && maps_addr(maps[i]@, a)
}

/// The address lies in the client.
pub open spec fn in_client(maps: Seq<Mapping>, a: int) -> bool {
    exists|i: int|
        0 <= i < maps.len() && of_client((#[trigger] maps[i])@) && maps_addr(maps[i]@, a)
}

/// Whether an address is mapped readable.
fn address_readable(maps: &[Mapping], a: u64) -> (r: bool)
    ensures
        r == in_readable(maps@, a as int),
{
    let mut i: usize = 0;
    while i < maps.len()
        invariant
            i <= maps.len(),
            forall|j: int|
                0 <= j < i ==> !(is_readable((#[trigger] maps@[j])@) && maps_addr(
                    maps@[j]@,
                    a as int,
                )),
        decreases maps.len() - i,
    {
        if readable_mapping(&maps[i]) && maps[i].start <= a && a < maps[i].end {
            return true;
        }
        i = i + 1;
    }
    false
}

/// Whether an address lies in the client.
fn address_in_client(maps: &[Mapping], a: u64) -> (r: bool)
    ensures
        r == in_client(maps@, a as int),
{
    let mut i: usize = 0;
    while i < maps.len()
        invariant
            i <= maps.len(),
            forall|j: int|
                0 <= j < i ==> !(of_client((#[trigger] maps@[j])@) && maps_addr(
                    maps@[j]@,
                    a as int,
                )),
        decreases maps.len() - i,
    {
        if client_mapping(&maps[i]) && maps[i].start <= a && a < maps[i].end {
            return true;
        }
        i = i + 1;
    }
    false
}

/// The pointer at slot `k` of a region makes a candidate: it points at the
/// name, and the object around it starts and keeps its value in readable
/// memory.
pub open spec fn is_candidate(
    maps: Seq<Mapping>,
    start: int,
    bytes: Seq<u8>,
    name: int,
    k: int,
) -> bool {
    let object = start + 8 * k - CONVAR_NAME_OFFSET;
    &&& 0 <= k
    &&& 8 * k + 8 < bytes.len()
    &&& le64(bytes, 8 * k) == name
    &&& 0 <= object
    &&& object + CONVAR_VALUE_OFFSET <= u64::MAX
    &&& in_readable(maps, object)
    &&& in_readable(maps, object + CONVAR_VALUE_OFFSET)
}

/// The candidates of the first `k` slots of a region, in order.
pub open spec fn region_candidates(
    maps: Seq<Mapping>,
    start: int,
    bytes: Seq<u8>,
    name: int,
    k: int,
) -> Seq<u64>
    decreases k,
{
    if k <= 0 {
        Seq::empty()
    } else {
        let before = region_candidates(maps, start, bytes, name, k - 1);
        if is_candidate(maps, start, bytes, name, k - 1) {
            before.push((start + 8 * (k - 1) - CONVAR_NAME_OFFSET) as u64)
        } else {
            before
        }
    }
}

/// The candidates of the first `n` regions, in order.
pub open spec fn candidates(
    maps: Seq<Mapping>,
    regions: Seq<Region>,
    name: int,
    n: int,
) -> Seq<u64>
    decreases n,
{
    if n <= 0 {
        Seq::empty()
    } else {
        candidates(maps, regions, name, n - 1) + region_candidates(
            maps,
            regions[n - 1].start as int,
            regions[n - 1].bytes@,
            name,
            regions[n - 1].bytes@.len() as int / 8,
        )
    }
}

/// The objects that may be the variable, in order.
pub fn convar_candidates(maps: &[Mapping], regions: &[Region], name: u64) -> (r: Vec<u64>)
    requires
        forall|i: int|
            0 <= i < regions@.len() ==> (#[trigger] regions@[i]).start + regions@[i].bytes.len()
                <= u64::MAX,
    ensures
        r@ == candidates(maps@, regions@, name as int, regions@.len() as int),
        forall|i: int| 0 <= i < r@.len() ==> #[trigger] r@[i] + CONVAR_VALUE_OFFSET <= u64::MAX,
{
    let mut out: Vec<u64> = Vec::new();
    let mut i: usize = 0;
    while i < regions.len()
        invariant
            i <= regions.len(),
            out@ == candidates(maps@, regions@, name as int, i as int),
            forall|j: int| 0 <= j < out@.len() ==> #[trigger] out@[j] + CONVAR_VALUE_OFFSET <= u64::MAX,
            forall|j: int|
                0 <= j < regions@.len() ==> (#[trigger] regions@[j]).start
                    + regions@[j].bytes.len() <= u64::MAX,
        decreases regions.len() - i,
    {
        let start: u64 = regions[i].start;
        let bytes: &[u8] = regions[i].bytes.as_slice();
        let size: usize = bytes.len();
        let count: usize = size / 8;
        let ghost before = out@;
        let mut k: usize = 0;
        assert(before + region_candidates(maps@, start as int, bytes@, name as int, 0) =~= before);
        while k < count
            invariant
                k <= count,
                count == size / 8,
                size == bytes@.len(),
                start + size <= u64::MAX,
                out@ == before + region_candidates(
                    maps@,
                    start as int,
                    bytes@,
                    name as int,
                    k as int,
                ),
                forall|j: int|
                    0 <= j < out@.len() ==> #[trigger] out@[j] + CONVAR_VALUE_OFFSET <= u64::MAX,
            decreases count - k,
        {
            if 8 * k + 8 < size && rd_u64(bytes, 8 * k) == name {
                let at: u64 = start + 8 * (k as u64);
                if at >= CONVAR_NAME_OFFSET {
                    let object: u64 = at - CONVAR_NAME_OFFSET;
                    if object <= u64::MAX - CONVAR_VALUE_OFFSET && address_readable(maps, object)
                        && address_readable(maps, object + CONVAR_VALUE_OFFSET) {
                        out.push(object);
                        assert(out@ =~= before + region_candidates(
                            maps@,
                            start as int,
                            bytes@,
                            name as int,
                            k + 1,
                        ));
                    }
                }
            }
            k = k + 1;
        }
        i = i + 1;
    }
    out
}

/// What an object holds: the pointer it starts with, and its value.
#[derive(Clone, Copy, Debug, Eq, PartialEq, Structural)]
pub struct ConvarProbe {
    pub vtable: u64,
    pub value: i32,
}

/// The object is the variable: it starts with a pointer into the client, and
/// its value is a raw-input mode.
pub open spec fn is_convar(maps: Seq<Mapping>, p: ConvarProbe) -> bool {
    in_client(maps, p.vtable as int) && 0 <= p.value <= 3
}

/// The address of the variable's value: of the first candidate that is the
/// variable.
pub fn resolve_convar(maps: &[Mapping], objects: &[u64], probes: &[ConvarProbe]) -> (r: Option<u64>)
    requires
        objects.len() == probes.len(),
        forall|i: int|
            0 <= i < objects@.len() ==> #[trigger] objects@[i] + CONVAR_VALUE_OFFSET <= u64::MAX,
    ensures
        match r {
            Some(a) => exists|i: int|
                0 <= i < probes@.len() && is_convar(maps@, #[trigger] probes@[i]) && a
                    == objects@[i] + CONVAR_VALUE_OFFSET && forall|j: int|
                    0 <= j < i ==> !is_convar(maps@, #[trigger] probes@[j]),
            None => forall|j: int|
                0 <= j < probes@.len() ==> !is_convar(maps@, #[trigger] probes@[j]),
        },
{
    let mut i: usize = 0;
    while i < probes.len()
        invariant
            i <= probes.len(),
            objects.len() == probes.len(),
            forall|j: int|
                0 <= j < objects@.len() ==> #[trigger] objects@[j] + CONVAR_VALUE_OFFSET
                    <= u64::MAX,
            forall|j: int| 0 <= j < i ==> !is_convar(maps@, #[trigger] probes@[j]),
        decreases probes.len() - i,
    {
        let p: ConvarProbe = probes[i];
        if address_in_client(maps, p.vtable) && 0 <= p.value && p.value <= 3 {
            assert(is_convar(maps@, probes@[i as int]));
            return Some(objects[i] + CONVAR_VALUE_OFFSET);
        }
        i = i + 1;
    }
    None
}

/// The client's accumulator, up to where it looks at the variable.
pub const ACCUMULATE_PATTERN: &'static str =
    "48 89 5C 24 18 48 89 74 24 20 57 48 83 EC 20 8B 41 0C 49 8B F8 89 02 48 8B F2 8B 41 10 48 8B D9 41 89 00 48 8B 05 ?? ?? ?? ?? 83 78 58 00";

/// Where the load of the variable stands in it.
pub const LOAD_OFFSET: usize = 35;

/// Where the Windows variable keeps its value.
pub const VALUE_OFFSET: u64 = 0x58;

/// The object starts and its value ends within the span of the writable
/// sections.
pub open spec fn in_writable_span(pe: PeImage, from: int, to: int) -> bool {
    &&& exists|i: int| #[trigger] is_writable(pe.sections, i) && pe.sections[i].rva <= from
    &&& exists|i: int| #[trigger]
        is_writable(pe.sections, i) && to <= pe.sections[i].rva + pe.sections[i].virtual_size
}

/// The image has a writable section.
pub open spec fn has_writable(pe: PeImage) -> bool {
    exists|i: int| is_writable(pe.sections, i)
}

/// Bytes at a runtime address of the module.
pub open spec fn bytes_at(c: LiveView, address: int, len: int) -> Option<Seq<u8>> {
    if c.contains(address) {
        c.live_bytes(address - c.base, len)
    } else {
        None
    }
}

/// The RVA that the load reads from, or what is wrong with the load.
pub open spec fn load_target(rva: int, bytes: Seq<u8>) -> Result<int, Seq<char>> {
    if bytes.len() < LOAD_OFFSET + 3 || bytes.subrange(LOAD_OFFSET as int, LOAD_OFFSET + 3) != seq![
        0x48u8,
        0x8b,
        0x05,
    ] {
        Err("client raw-input ConVar instruction changed"@)
    } else if bytes.len() < LOAD_OFFSET + 7 {
        Err("client raw-input displacement is truncated"@)
    } else {
        let cell = rva + LOAD_OFFSET + 7 + signed32(le32(bytes, LOAD_OFFSET + 3));
        if cell < 0 || cell > u64::MAX {
            Err("client raw-input ConVar displacement overflowed"@)
        } else {
            Ok(cell)
        }
    }
}

/// The address of the value of an object that should be the variable, or what
/// is wrong with it.
pub open spec fn checked_object(c: LiveView, object: int) -> Result<int, Seq<char>> {
    let rva = object - c.base;
    if !c.contains(object) {
        Err("m_rawinput object is outside client.dll"@)
    } else if !has_writable(c.pe) {
        Err("client.dll has no writable PE span"@)
    } else if !in_writable_span(c.pe, rva, rva + VALUE_OFFSET + 4) || c.live_bytes(
        rva,
        VALUE_OFFSET + 4,
    ) is None {
        Err("m_rawinput object is not in writable client data"@)
    } else {
        let whole = c.live_bytes(rva, VALUE_OFFSET + 4)->0;
        let name = le64(whole, 0x18);
        let value = signed32(le32(whole, VALUE_OFFSET as int));
        if !c.contains(name) {
            Err("m_rawinput name pointer is outside client.dll"@)
        } else if bytes_at(c, name, 11) != Some(rawinput_name()) {
            Err("resolved ConVar is not m_rawinput"@)
        } else if !(0 <= value <= 2) {
            Err("m_rawinput has invalid live value "@ + signed_text(value))
        } else {
            Ok(object + VALUE_OFFSET)
        }
    }
}

/// The address of the variable's value in the Windows client, or what is wrong.
pub open spec fn rawinput_value(c: LiveView) -> Result<int, Seq<char>> {
    match c.unique_of(patterns_of(seq![ACCUMULATE_PATTERN]), Access::Code) {
        None => Err("client raw-input accumulator signature is missing or ambiguous"@),
        Some((rva, bytes)) => match load_target(rva as int, bytes) {
            Err(e) => Err(e),
            Ok(cell) => match c.live_bytes(cell, 8) {
                None => Err("client raw-input ConVar pointer is outside client.dll"@),
                Some(b) => checked_object(c, le64(b, 0)),
            },
        },
    }
}

/// An address or what is wrong with it, as a value.
pub open spec fn address_view(r: Result<u64, String>) -> Result<int, Seq<char>> {
    match r {
        Ok(a) => Ok(a as int),
        Err(e) => Err(e@),
    }
}

/// The RVA that the load reads from.
fn find_load(rva: u64, bytes: &[u8]) -> (r: Result<u64, String>)
    ensures
        address_view(r) == load_target(rva as int, bytes@),
{
    let opcode: [u8; 3] = [0x48, 0x8b, 0x05];
    assert(opcode@ =~= seq![0x48u8, 0x8b, 0x05]);
    if bytes.len() < LOAD_OFFSET + 3 || !same_bytes(
        vstd::slice::slice_subrange(bytes, LOAD_OFFSET, LOAD_OFFSET + 3),
        &opcode,
    ) {
        return Err("client raw-input ConVar instruction changed".to_owned());
    }
    if bytes.len() < LOAD_OFFSET + 7 {
        return Err("client raw-input displacement is truncated".to_owned());
    }
    let displacement: i32 = rd_i32(bytes, LOAD_OFFSET + 3);
    let cell: i128 = rva as i128 + LOAD_OFFSET as i128 + 7 + displacement as i128;
    if cell < 0 || cell > u64::MAX as i128 {
        return Err("client raw-input ConVar displacement overflowed".to_owned());
    }
    Ok(cell as u64)
}

/// The address of the value of an object that should be the variable.
fn check_object(client: &LiveModule, object: u64) -> (r: Result<u64, String>)
    ensures
        address_view(r) == checked_object(client@, object as int),
{
    let ghost c = client@;
    if !client.contains(object) {
        return Err("m_rawinput object is outside client.dll".to_owned());
    }
    let base: u64 = client.base();
    let rva: u64 = object - base;
    let (lo, hi) = match client.pe().writable_span() {
        None => {
            return Err("client.dll has no writable PE span".to_owned());
        },
        Some(x) => x,
    };
    proof {
        let i = choose|i: int| is_writable(c.pe.sections, i) && c.pe.sections[i].rva == lo;
        assert(is_writable(c.pe.sections, i));
        assert(has_writable(c.pe));
        let j = choose|j: int|
            is_writable(c.pe.sections, j) && c.pe.sections[j].rva + c.pe.sections[j].virtual_size
                == hi;
        assert(is_writable(c.pe.sections, j));
        assert(in_writable_span(c.pe, rva as int, rva + VALUE_OFFSET + 4) <==> lo <= rva && rva
            + VALUE_OFFSET + 4 <= hi);
    }
    if rva > u64::MAX - 0x5c || rva < lo || rva + 0x5c > hi {
        return Err("m_rawinput object is not in writable client data".to_owned());
    }
    let whole: &[u8] = match client.live_bytes(rva, 0x5c) {
        None => {
            return Err("m_rawinput object is not in writable client data".to_owned());
        },
        Some(b) => b,
    };
    let name: u64 = rd_u64(whole, 0x18);
    let value: i32 = rd_i32(whole, 0x58);
    if !client.contains(name) {
        return Err("m_rawinput name pointer is outside client.dll".to_owned());
    }
    let wanted: [u8; 11] = [109, 95, 114, 97, 119, 105, 110, 112, 117, 116, 0];
    assert(wanted@ =~= rawinput_name());
    let same: bool = match client.live_bytes(name - base, 11) {
        Some(b) => same_bytes(b, &wanted),
        None => false,
    };
    if !same {
        return Err("resolved ConVar is not m_rawinput".to_owned());
    }
    if value < 0 || value > 2 {
        let mut text: String = "m_rawinput has invalid live value ".to_owned();
        push_signed(&mut text, value);
        return Err(text);
    }
    Ok(object + VALUE_OFFSET)
}

/// The address of the variable's value in the Windows client.
pub fn resolve_m_rawinput(client: &LiveModule) -> (r: Result<u64, String>)
    ensures
        address_view(r) == rawinput_value(client@),
{
    let specs: [&str; 1] = [ACCUMULATE_PATTERN];
    assert(specs@ =~= seq![ACCUMULATE_PATTERN]);
    match client.find_unique(&specs, Access::Code) {
        None => Err(
            "client raw-input accumulator signature is missing or ambiguous".to_owned(),
        ),
        Some((rva, bytes)) => match find_load(rva, bytes.as_slice()) {
            Err(e) => Err(e),
            Ok(cell) => match client.live_bytes(cell, 8) {
                None => Err("client raw-input ConVar pointer is outside client.dll".to_owned()),
                Some(b) => check_object(client, rd_u64(b, 0)),
            },
        },
    }
}

/// The client's accumulator on Windows, up to the comparison of the variable's
/// value with zero.
pub proof fn client_accumulator_is_known()
    ensures
        pattern_of(ACCUMULATE_PATTERN@) matches Some(p) && spells(
            p,
            seq![
            0x48, 0x89, 0x5c, 0x24, 0x18, 0x48, 0x89, 0x74, 0x24, 0x20, 0x57, 0x48, 0x83, 0xec,
            0x20, 0x8b, 0x41, 0x0c, 0x49, 0x8b, 0xf8, 0x89, 0x02, 0x48, 0x8b, 0xf2, 0x8b, 0x41,
            0x10, 0x48, 0x8b, 0xd9, 0x41, 0x89, 0x00, 0x48, 0x8b, 0x05, -1, -1, -1, -1, 0x83,
            0x78, 0x58, 0x00,
            ],
        ),
{
    reveal_strlit("48 89 5C 24 18 48 89 74 24 20 57 48 83 EC 20 8B 41 0C 49 8B F8 89 02 48 8B F2 8B 41 10 48 8B D9 41 89 00 48 8B 05 ?? ?? ?? ?? 83 78 58 00");
    let text = "48 89 5C 24 18 48 89 74 24 20 57 48 83 EC 20 8B 41 0C 49 8B F8 89 02 48 8B F2 8B 41 10 48 8B D9 41 89 00 48 8B 05 ?? ?? ?? ?? 83 78 58 00"@;
    first_word(text);
    next_word(text, 0, 0, 3, Some(0x48));
    next_word(text, 1, 3, 6, Some(0x89));
    next_word(text, 2, 6, 9, Some(0x5c));
    next_word(text, 3, 9, 12, Some(0x24));
    next_word(text, 4, 12, 15, Some(0x18));
    next_word(text, 5, 15, 18, Some(0x48));
    next_word(text, 6, 18, 21, Some(0x89));
    next_word(text, 7, 21, 24, Some(0x74));
    next_word(text, 8, 24, 27, Some(0x24));
    next_word(text, 9, 27, 30, Some(0x20));
    next_word(text, 10, 30, 33, Some(0x57));
    next_word(text, 11, 33, 36, Some(0x48));
    next_word(text, 12, 36, 39, Some(0x83));
    next_word(text, 13, 39, 42, Some(0xec));
    next_word(text, 14, 42, 45, Some(0x20));
    next_word(text, 15, 45, 48, Some(0x8b));
    next_word(text, 16, 48, 51, Some(0x41));
    next_word(text, 17, 51, 54, Some(0x0c));
    next_word(text, 18, 54, 57, Some(0x49));
    next_word(text, 19, 57, 60, Some(0x8b));
    next_word(text, 20, 60, 63, Some(0xf8));
    next_word(text, 21, 63, 66, Some(0x89));
    next_word(text, 22, 66, 69, Some(0x02));
    next_word(text, 23, 69, 72, Some(0x48));
    next_word(text, 24, 72, 75, Some(0x8b));
    next_word(text, 25, 75, 78, Some(0xf2));
    next_word(text, 26, 78, 81, Some(0x8b));
    next_word(text, 27, 81, 84, Some(0x41));
    next_word(text, 28, 84, 87, Some(0x10));
    next_word(text, 29, 87, 90, Some(0x48));
    next_word(text, 30, 90, 93, Some(0x8b));
    next_word(text, 31, 93, 96, Some(0xd9));
    next_word(text, 32, 96, 99, Some(0x41));
    next_word(text, 33, 99, 102, Some(0x89));
    next_word(text, 34, 102, 105, Some(0x00));
    next_word(text, 35, 105, 108, Some(0x48));
    next_word(text, 36, 108, 111, Some(0x8b));
    next_word(text, 37, 111, 114, Some(0x05));
    next_word(text, 38, 114, 117, None);
    next_word(text, 39, 117, 120, None);
    next_word(text, 40, 120, 123, None);
    next_word(text, 41, 123, 126, None);
    next_word(text, 42, 126, 129, Some(0x83));
    next_word(text, 43, 129, 132, Some(0x78));
    next_word(text, 44, 132, 135, Some(0x58));
    next_word(text, 45, 135, 137, Some(0x00));
    last_word(text, 46);
    assert(ACCUMULATE_PATTERN@ == text);
    let p = pattern_of(text)->0;
    assert(p[0] == Some(0x48u8));
    assert(p[1] == Some(0x89u8));
    assert(p[2] == Some(0x5cu8));
    assert(p[3] == Some(0x24u8));
    assert(p[4] == Some(0x18u8));
    assert(p[5] == Some(0x48u8));
    assert(p[6] == Some(0x89u8));
    assert(p[7] == Some(0x74u8));
    assert(p[8] == Some(0x24u8));
    assert(p[9] == Some(0x20u8));
    assert(p[10] == Some(0x57u8));
    assert(p[11] == Some(0x48u8));
    assert(p[12] == Some(0x83u8));
    assert(p[13] == Some(0xecu8));
    assert(p[14] == Some(0x20u8));
    assert(p[15] == Some(0x8bu8));
    assert(p[16] == Some(0x41u8));
    assert(p[17] == Some(0x0cu8));
    assert(p[18] == Some(0x49u8));
    assert(p[19] == Some(0x8bu8));
    assert(p[20] == Some(0xf8u8));
    assert(p[21] == Some(0x89u8));
    assert(p[22] == Some(0x02u8));
    assert(p[23] == Some(0x48u8));
    assert(p[24] == Some(0x8bu8));
    assert(p[25] == Some(0xf2u8));
    assert(p[26] == Some(0x8bu8));
    assert(p[27] == Some(0x41u8));
    assert(p[28] == Some(0x10u8));
    assert(p[29] == Some(0x48u8));
    assert(p[30] == Some(0x8bu8));
    assert(p[31] == Some(0xd9u8));
    assert(p[32] == Some(0x41u8));
    assert(p[33] == Some(0x89u8));
    assert(p[34] == Some(0x00u8));
    assert(p[35] == Some(0x48u8));
    assert(p[36] == Some(0x8bu8));
    assert(p[37] == Some(0x05u8));
    assert(p[38] is None);
    assert(p[39] is None);
    assert(p[40] is None);
    assert(p[41] is None);
    assert(p[42] == Some(0x83u8));
    assert(p[43] == Some(0x78u8));
    assert(p[44] == Some(0x58u8));
    assert(p[45] == Some(0x00u8));
    let bytes: Seq<int> = seq![
            0x48, 0x89, 0x5c, 0x24, 0x18, 0x48, 0x89, 0x74, 0x24, 0x20, 0x57, 0x48, 0x83, 0xec,
            0x20, 0x8b, 0x41, 0x0c, 0x49, 0x8b, 0xf8, 0x89, 0x02, 0x48, 0x8b, 0xf2, 0x8b, 0x41,
            0x10, 0x48, 0x8b, 0xd9, 0x41, 0x89, 0x00, 0x48, 0x8b, 0x05, -1, -1, -1, -1, 0x83,
            0x78, 0x58, 0x00,
    ];
    assert forall|j: int| 0 <= j < bytes.len() implies if bytes[j] < 0 {
        #[trigger] p[j] is None
    } else {
        p[j] == Some(bytes[j] as u8)
    } by {
        assert(j == 0 || j == 1 || j == 2 || j == 3 || j == 4 || j == 5 || j == 6 || j == 7 || j == 8 || j == 9 || j == 10 || j == 11 || j == 12 || j == 13 || j == 14 || j == 15 || j == 16 || j == 17 || j == 18 || j == 19 || j == 20 || j == 21 || j == 22 || j == 23 || j == 24 || j == 25 || j == 26 || j == 27 || j == 28 || j == 29 || j == 30 || j == 31 || j == 32 || j == 33 || j == 34 || j == 35 || j == 36 || j == 37 || j == 38 || j == 39 || j == 40 || j == 41 || j == 42 || j == 43 || j == 44 || j == 45);
    }
}

/// The variable is known by its name.
pub proof fn the_variable_is_known()
    ensures
        rawinput_name() == encode_utf8("m_rawinput"@) + seq![0u8],
{
    reveal_strlit("m_rawinput");
    is_ascii_chars_encode_utf8("m_rawinput"@);
    assert(rawinput_name() =~= encode_utf8("m_rawinput"@) + seq![0u8]);
}

/// The load reads from where its distance says, counted from behind it.
pub proof fn the_load_leads_to_the_variable(rva: int, bytes: Seq<u8>, cell: int)
    requires
        bytes.len() >= 42,
        bytes[35] == 0x48,
        bytes[36] == 0x8b,
        bytes[37] == 0x05,
        0 <= cell <= u64::MAX,
        signed32(le32(bytes, 38)) == cell - (rva + 42),
    ensures
        load_target(rva, bytes) == Ok::<int, Seq<char>>(cell),
{
    assert(bytes.subrange(35, 38) =~= seq![0x48u8, 0x8b, 0x05]);
}

/// Every object that may be the variable is looked at, in order.
pub proof fn every_candidate_is_looked_at(
    maps: Seq<Mapping>,
    start: int,
    bytes: Seq<u8>,
    name: int,
    n: int,
    k: int,
)
    requires
        0 <= k < n,
        is_candidate(maps, start, bytes, name, k),
    ensures
        region_candidates(maps, start, bytes, name, n).contains(
            (start + 8 * k - CONVAR_NAME_OFFSET) as u64,
        ),
    decreases n,
{
    let all = region_candidates(maps, start, bytes, name, n);
    let before = region_candidates(maps, start, bytes, name, n - 1);
    let want = (start + 8 * k - CONVAR_NAME_OFFSET) as u64;
    if k < n - 1 {
        every_candidate_is_looked_at(maps, start, bytes, name, n - 1, k);
        let i = choose|i: int| 0 <= i < before.len() && before[i] == want;
        assert(all[i] == want);
    } else {
        assert(all[before.len() as int] == want);
    }
}

/// An object is the Windows variable where its name and its value are: the
/// value stands 58h bytes into it.
pub proof fn the_object_gives_its_value(c: LiveView, object: int, whole: Seq<u8>, i: int)
    requires
        c.contains(object),
        is_writable(c.pe.sections, i),
        c.pe.sections[i].rva <= object - c.base,
        object - c.base + 0x5c <= c.pe.sections[i].rva + c.pe.sections[i].virtual_size,
        c.live_bytes(object - c.base, 0x5c) == Some(whole),
        c.contains(le64(whole, 0x18)),
        c.live_bytes(le64(whole, 0x18) - c.base, 11) == Some(rawinput_name()),
        0 <= signed32(le32(whole, 0x58)) <= 2,
    ensures
        checked_object(c, object) == Ok::<int, Seq<char>>(object + 0x58),
{
}

/// Where the variable and its name are looked for: the name in what can be read
/// of the client, the variable in what can be written of it, or in an anonymous
/// mapping of less than 32 megabytes.
pub proof fn mappings_are_told_apart(m: MappingView)
    ensures
        may_hold_name(m) <==> ends_with(m.path, "/client.so"@) && m.perms.len() > 0 && m.perms[0]
            == 'r',
        may_hold_convar(m) <==> m.perms.len() > 1 && m.perms[0] == 'r' && m.perms[1] == 'w' && (
        ends_with(m.path, "/client.so"@) || (m.path.len() == 0 && m.end - m.start < 32 * 1024
            * 1024)),
{
    let r = seq!['r'];
    let rw = seq!['r', 'w'];
    if m.perms.len() > 0 {
        assert(m.perms.take(1)[0] == m.perms[0]);
        assert(r[0] == 'r');
        if m.perms[0] == 'r' {
            assert(m.perms.take(1) =~= r);
        }
    }
    if m.perms.len() > 1 {
        assert(m.perms.take(2)[0] == m.perms[0] && m.perms.take(2)[1] == m.perms[1]);
        assert(rw[0] == 'r' && rw[1] == 'w');
        if m.perms[0] == 'r' && m.perms[1] == 'w' {
            assert(m.perms.take(2) =~= rw);
        }
    }
}

/// An object on Linux may be the variable where it holds the name's address 18h
/// bytes in, and its start and its value, 50h bytes in, can be read; and it is
/// the variable where it starts with a pointer into the client and its value is
/// a mode.
pub proof fn the_variable_is_told(
    maps: Seq<Mapping>,
    start: int,
    bytes: Seq<u8>,
    name: int,
    k: int,
    p: ConvarProbe,
    i: int,
)
    requires
        0 <= k,
        8 * k + 8 < bytes.len(),
        le64(bytes, 8 * k) == name,
        0 <= start + 8 * k - 0x18,
        start + 8 * k - 0x18 + 0x50 <= u64::MAX,
        0 <= i < maps.len(),
    ensures
        maps[i].perms@.len() > 0 && maps[i].perms@[0] == 'r' && maps[i].start <= start + 8 * k - 0x18
            && start + 8 * k - 0x18 + 0x50 < maps[i].end ==> is_candidate(
            maps,
            start,
            bytes,
            name,
            k,
        ),
        ends_with(maps[i].path@, "/client.so"@) && maps[i].start <= p.vtable < maps[i].end && 0
            <= p.value <= 3 ==> is_convar(maps, p),
        !(0 <= p.value <= 3) ==> !is_convar(maps, p),
{
    mappings_are_told_apart(maps[i]@);
    let r = seq!['r'];
    if maps[i].perms@.len() > 0 && maps[i].perms@[0] == 'r' {
        assert(maps[i]@.perms.take(1) =~= r);
        assert(is_readable(maps[i]@));
        if maps[i].start <= start + 8 * k - 0x18 && start + 8 * k - 0x18 + 0x50 < maps[i].end {
            assert(maps_addr(maps[i]@, start + 8 * k - 0x18));
            assert(maps_addr(maps[i]@, start + 8 * k - 0x18 + 0x50));
        }
    }
    if ends_with(maps[i].path@, "/client.so"@) && maps[i].start <= p.vtable < maps[i].end {
        assert(of_client(maps[i]@));
        assert(maps_addr(maps[i]@, p.vtable as int));
    }
}

/// The candidates of every region count, in order.
pub proof fn every_region_counts(maps: Seq<Mapping>, regions: Seq<Region>, name: int, n: int)
    requires
        0 < n <= regions.len(),
    ensures
        candidates(maps, regions, name, n) == candidates(maps, regions, name, n - 1)
            + region_candidates(
            maps,
            regions[n - 1].start as int,
            regions[n - 1].bytes@,
            name,
            regions[n - 1].bytes@.len() as int / 8,
        ),
{
}

/// The Windows variable is found: the accumulator leads to a pointer, and that
/// to the object.
pub proof fn the_windows_variable_is_found(
    c: LiveView,
    rva: u64,
    bytes: Seq<u8>,
    cell: int,
    b: Seq<u8>,
    value: int,
)
    requires
        c.unique_of(patterns_of(seq![ACCUMULATE_PATTERN]), Access::Code) == Some((rva, bytes)),
        load_target(rva as int, bytes) == Ok::<int, Seq<char>>(cell),
        c.live_bytes(cell, 8) == Some(b),
        checked_object(c, le64(b, 0)) == Ok::<int, Seq<char>>(value),
    ensures
        rawinput_value(c) == Ok::<int, Seq<char>>(value),
{
}

} // verus!
