//! `CClientState::ProcessServerInfo` in the Windows engine: its vtable slot, and
//! where the message keeps the map's MD5 and name.
use vstd::prelude::*;
use vstd::utf8::encode_utf8;

use crate::bytes::{le32, rd_i32, signed32};
use crate::live::{in_walk, walk_is_listed, LiveModule, LiveView, VTABLE_MAX};
use crate::pe::{before, ordered, virtuals_of, PeImage, Vtable};
use crate::sig::{
    first_word, index_views, last_word, matches_are_all_places, matches_of, next_word,
    only_place_is_the_match, pattern_at, pattern_of, patterns_of, spells, Pattern,
};
use crate::text::{dec_text, hex_text, push_dec, push_hex, with_hex};

verus! {

/// Class of the handler.
pub const CLIENT_STATE_CLASS: &'static str = ".?AVCClientState@@";

/// The entry of the handler, with its two direct calls.
pub const PROCESS_SERVER_INFO: &'static str =
    "48 89 5C 24 08 57 48 83 EC 20 48 8B FA 48 8B D9 E8 ?? ?? ?? ?? 48 8B D7 48 8B CB E8 ?? ?? ?? ?? 84 C0";

/// The copy of the MD5. The first wildcard is its offset in the message.
pub const MD5_COPY: &'static str = "0F 10 47 ?? 0F 11 83 ?? ?? ?? ??";

/// The copy of the map name. The first wildcard is its offset in the message.
pub const MAP_COPY: &'static str =
    "48 8B 56 ?? 48 8D 8F ?? ?? ?? ?? 48 89 5C 24 ?? 41 B8 04 01 00 00";

/// Bytes of the handler that are looked at.
pub const HANDLER_WINDOW: usize = 0x200;

/// Bytes of the base implementation that are looked at.
pub const BASE_WINDOW: usize = 0x440;

/// Where the call of the base implementation stands in the handler.
pub const BASE_CALL: usize = 27;

/// The subobject that the handler belongs to.
pub const HANDLER_SUBOBJECT: u32 = 16;

/// The one match of a pattern.
pub open spec fn only_match(p: Seq<Option<u8>>, bytes: Seq<u8>) -> Option<int> {
    if matches_of(p, bytes).len() == 1 {
        Some(matches_of(p, bytes)[0])
    } else {
        None
    }
}

/// The one match of a pattern.
pub fn unique_match(pattern: &Pattern, bytes: &[u8]) -> (r: Option<usize>)
    ensures
        match r {
            Some(i) => only_match(pattern@, bytes@) == Some(i as int) && i < bytes@.len(),
            None => only_match(pattern@, bytes@) is None,
        },
{
    let all: Vec<usize> = pattern.find_all(bytes);
    assert(index_views(all@).len() == all@.len());
    if all.len() == 1 {
        assert(index_views(all@)[0] == all@[0]);
        assert(all@.contains(all@[0]));
        Some(all[0])
    } else {
        None
    }
}

/// The target of a direct call in a function body.
pub open spec fn call_target(function: int, body: Seq<u8>, at: int) -> Option<int> {
    if 0 <= at && at + 5 <= body.len() && body[at] == 0xe8 {
        let target = function + at + 5 + signed32(le32(body, at + 1));
        if function + at + 5 <= u64::MAX && 0 <= target <= u64::MAX {
            Some(target)
        } else {
            None
        }
    } else {
        None
    }
}

/// The target of a direct call in a function body.
pub fn relative_call_target(function_rva: u64, body: &[u8], opcode_at: usize) -> (r: Option<u64>)
    ensures
        match r {
            Some(t) => call_target(function_rva as int, body@, opcode_at as int) == Some(
                t as int,
            ),
            None => call_target(function_rva as int, body@, opcode_at as int) is None,
        },
{
    if body.len() < 5 || opcode_at > body.len() - 5 || body[opcode_at] != 0xe8 {
        return None;
    }
    let displacement: i32 = rd_i32(body, opcode_at + 1);
    let next: i128 = function_rva as i128 + opcode_at as i128 + 5;
    let target: i128 = next + displacement as i128;
    if next > u64::MAX as i128 || target < 0 || target > u64::MAX as i128 {
        return None;
    }
    Some(target as u64)
}

/// A vtable of the class and the place in it that holds the slot and the code.
pub open spec fn is_owner(pe: PeImage, slot: int, f: int, x: (Vtable, int)) -> bool {
    &&& pe.is_vtable(
        encode_utf8(CLIENT_STATE_CLASS@),
        x.0.rva as int,
        x.0.object_offset as int,
    )
    &&& in_walk(pe, x.0.rva as int, x.1)
    &&& pe.vfn(x.0.rva as int, x.1) == Some(f)
    &&& x.0.rva + 8 * x.1 == slot
}

/// Two places hold the slot and the code.
pub open spec fn has_two_owners(pe: PeImage, slot: int, f: int) -> bool {
    exists|x: (Vtable, int), y: (Vtable, int)| #[trigger]
        is_owner(pe, slot, f, x) && #[trigger] is_owner(pe, slot, f, y) && x != y
}

/// The one place that holds the slot and the code.
pub open spec fn owner_of(pe: PeImage, slot: int, f: int) -> Result<(Vtable, int), Seq<char>> {
    if has_two_owners(pe, slot, f) {
        Err("ProcessServerInfo vtable owner is ambiguous"@)
    } else if exists|x: (Vtable, int)| is_owner(pe, slot, f, x) {
        Ok(choose|x: (Vtable, int)| is_owner(pe, slot, f, x))
    } else {
        Err("ProcessServerInfo has no CClientState vtable owner"@)
    }
}

/// The owners seen before table `i`, place `k` are the found one, which stands
/// in table `at`.
spec fn seen(
    pe: PeImage,
    slot: int,
    f: int,
    all: Seq<Vtable>,
    i: int,
    k: int,
    found: Option<(Vtable, usize)>,
    at: int,
) -> bool {
    match found {
        Some((t, j)) => 0 <= at < all.len() && all[at] == t && (at < i || (at == i && j < k))
            && is_owner(pe, slot, f, (t, j as int)) && forall|a: int, b: int|
            0 <= a < all.len() && (a < i || (a == i && b < k)) && #[trigger] is_owner(
                pe,
                slot,
                f,
                (all[a], b),
            ) ==> (all[a], b) == (t, j as int),
        None => forall|a: int, b: int|
            0 <= a < all.len() && (a < i || (a == i && b < k)) ==> !#[trigger] is_owner(
                pe,
                slot,
                f,
                (all[a], b),
            ),
    }
}

/// The one place that holds the slot and the code.
fn find_owner(engine: &LiveModule, slot: u64, f: u64) -> (r: Result<(Vtable, usize), String>)
    ensures
        match r {
            Ok((t, k)) => owner_of(engine@.pe, slot as int, f as int) == Ok::<
                (Vtable, int),
                Seq<char>,
            >((t, k as int)),
            Err(e) => owner_of(engine@.pe, slot as int, f as int) == Err::<
                (Vtable, int),
                Seq<char>,
            >(e@),
        },
{
    let ghost pe = engine@.pe;
    let all: Vec<Vtable> = engine.pe().vtables(CLIENT_STATE_CLASS);
    let mut found: Option<(Vtable, usize)> = None;
    let ghost mut place: int = 0;
    let mut i: usize = 0;
    while i < all.len()
        invariant
            i <= all.len(),
            pe == engine@.pe,
            ordered(all@),
            forall|v: Vtable| #[trigger]
                all@.contains(v) <==> pe.is_vtable(
                    encode_utf8(CLIENT_STATE_CLASS@),
                    v.rva as int,
                    v.object_offset as int,
                ),
            seen(pe, slot as int, f as int, all@, i as int, 0, found, place),
        decreases all.len() - i,
    {
        let table: Vtable = all[i];
        assert(all@.contains(table));
        let fs: Vec<(usize, u64)> = engine.pe().virtuals(table.rva, VTABLE_MAX);
        assert forall|k: int| in_walk(pe, table.rva as int, k) <==> 0 <= k < fs@.len() by {
            walk_is_listed(pe, table.rva as int, fs@, k);
        }
        let mut k: usize = 0;
        while k < fs.len()
            invariant
                k <= fs.len(),
                i < all.len(),
                table == all@[i as int],
                pe == engine@.pe,
                ordered(all@),
                all@.contains(table),
                virtuals_of(pe, table.rva as int, VTABLE_MAX as int, fs@),
                forall|v: Vtable| #[trigger]
                    all@.contains(v) <==> pe.is_vtable(
                        encode_utf8(CLIENT_STATE_CLASS@),
                        v.rva as int,
                        v.object_offset as int,
                    ),
                forall|j: int| in_walk(pe, table.rva as int, j) <==> 0 <= j < fs@.len(),
                seen(pe, slot as int, f as int, all@, i as int, k as int, found, place),
            decreases fs.len() - k,
        {
            assert(fs@[k as int].0 == k && pe.vfn(table.rva as int, k as int) == Some(
                fs@[k as int].1 as int,
            ));
            let at: u128 = table.rva as u128 + 8 * (k as u128);
            if at == slot as u128 && fs[k].1 == f {
                assert(is_owner(pe, slot as int, f as int, (table, k as int)));
                match found {
                    Some((t, j)) => {
                        proof {
                            let x = (t, j as int);
                            let y = (table, k as int);
                            assert(is_owner(pe, slot as int, f as int, x));
                            assert(x != y) by {
                                if place < i {
                                    assert(before(all@[place], all@[i as int]));
                                }
                            }
                            assert(has_two_owners(pe, slot as int, f as int));
                        }
                        return Err("ProcessServerInfo vtable owner is ambiguous".to_owned());
                    },
                    None => {},
                }
                found = Some((table, k));
                proof {
                    place = i as int;
                }
            }
            k = k + 1;
        }
        i = i + 1;
    }
    proof {
        assert forall|x: (Vtable, int)| is_owner(pe, slot as int, f as int, x) implies (found
            is Some && x == ((found->0).0, (found->0).1 as int)) by {
            assert(all@.contains(x.0));
            let a = choose|a: int| 0 <= a < all@.len() && all@[a] == x.0;
            assert(is_owner(pe, slot as int, f as int, (all@[a], x.1)));
        }
    }
    match found {
        Some(x) => {
            assert(is_owner(pe, slot as int, f as int, (x.0, x.1 as int)));
            Ok(x)
        },
        None => Err("ProcessServerInfo has no CClientState vtable owner".to_owned()),
    }
}

/// The byte that stands three bytes into the one match of a pattern: the
/// displacement of a copy.
pub open spec fn copy_offset(
    spec: Seq<char>,
    body: Seq<u8>,
    invalid: Seq<char>,
    missing: Seq<char>,
    truncated: Seq<char>,
) -> Result<int, Seq<char>> {
    match pattern_of(spec) {
        None => Err(invalid),
        Some(p) => match only_match(p, body) {
            None => Err(missing),
            Some(at) => if at + 3 < body.len() {
                Ok(body[at + 3] as int)
            } else {
                Err(truncated)
            },
        },
    }
}

/// The byte that stands three bytes into the one match of a pattern.
fn find_offset(
    spec: &str,
    body: &[u8],
    invalid: &str,
    missing: &str,
    truncated: &str,
) -> (r: Result<u64, String>)
    ensures
        match r {
            Ok(v) => copy_offset(spec@, body@, invalid@, missing@, truncated@) == Ok::<
                int,
                Seq<char>,
            >(v as int) && v < 256,
            Err(e) => copy_offset(spec@, body@, invalid@, missing@, truncated@) == Err::<
                int,
                Seq<char>,
            >(e@),
        },
{
    match Pattern::parse(spec) {
        None => Err(invalid.to_owned()),
        Some(p) => match unique_match(&p, body) {
            None => Err(missing.to_owned()),
            Some(at) => if body.len() >= 4 && at < body.len() - 3 {
                Ok(body[at + 3] as u64)
            } else {
                Err(truncated.to_owned())
            },
        },
    }
}

/// The offset of the MD5: read out of its copy in the handler.
pub open spec fn md5_offset(body: Seq<u8>) -> Result<int, Seq<char>> {
    copy_offset(
        MD5_COPY@,
        body,
        "invalid MD5 resolver pattern"@,
        "ProcessServerInfo MD5 copy is missing or ambiguous"@,
        "ProcessServerInfo MD5 displacement is truncated"@,
    )
}

/// The offset of the map name: read out of its copy in the base implementation
/// that the handler calls.
pub open spec fn map_offset(pe: PeImage, f: int, body: Seq<u8>) -> Result<int, Seq<char>> {
    match call_target(f, body, BASE_CALL as int) {
        None => Err("ProcessServerInfo base call changed"@),
        Some(base) => if !pe.is_exec(base) {
            Err("ProcessServerInfo base call changed"@)
        } else {
            match pe.read_rva(base, BASE_WINDOW as int) {
                None => Err("base ProcessServerInfo body is truncated"@),
                Some(b) => copy_offset(
                    MAP_COPY@,
                    b,
                    "invalid map resolver pattern"@,
                    "base ProcessServerInfo map copy is missing or ambiguous"@,
                    "ProcessServerInfo map displacement is truncated"@,
                ),
            }
        },
    }
}

/// The offsets are where such fields can be.
pub open spec fn plausible_layout(md5: int, map: int) -> bool {
    0x20 <= md5 <= 0x100 && 0x40 <= map <= 0x100 && map % 8 == 0
}

/// The offsets of the MD5 and the map name, or what is wrong.
pub open spec fn layout_of(pe: PeImage, f: int) -> Result<(int, int), Seq<char>> {
    match pe.read_rva(f, HANDLER_WINDOW as int) {
        None => Err("ProcessServerInfo body is truncated"@),
        Some(body) => match md5_offset(body) {
            Err(e) => Err(e),
            Ok(md5) => match map_offset(pe, f, body) {
                Err(e) => Err(e),
                Ok(map) => if plausible_layout(md5, map) {
                    Ok((md5, map))
                } else {
                    Err(
                        "implausible server-info layout: MD5 +0x"@ + hex_text(md5) + ", map +0x"@
                            + hex_text(map),
                    )
                },
            },
        },
    }
}

/// Where the handler is hooked and what its message looks like.
#[derive(Clone, Copy, Debug, Eq, PartialEq, Structural)]
pub struct ServerInfo {
    /// Address of the vtable slot.
    pub slot: u64,
    /// Address of the handler.
    pub function: u64,
    /// Offset of the subobject whose vtable holds the slot.
    pub object_offset: u32,
    /// Position of the slot in that vtable.
    pub slot_index: usize,
    /// Offset of the MD5 in the message.
    pub md5_offset: u64,
    /// Offset of the map name in the message.
    pub map_offset: u64,
}

/// Where the handler is hooked, or the first thing that is wrong.
pub open spec fn server_info(e: LiveView) -> Result<ServerInfo, Seq<char>> {
    match e.virtual_of(
        encode_utf8(CLIENT_STATE_CLASS@),
        patterns_of(seq![PROCESS_SERVER_INFO]),
        HANDLER_WINDOW as int,
    ) {
        None => Err("CClientState::ProcessServerInfo is missing or ambiguous"@),
        Some((slot, f)) => match owner_of(e.pe, slot, f) {
            Err(x) => Err(x),
            Ok((table, index)) => if table.object_offset != HANDLER_SUBOBJECT {
                Err(
                    "ProcessServerInfo resolved on unexpected CClientState subobject +0x"@
                        + hex_text(table.object_offset as int),
                )
            } else {
                match layout_of(e.pe, f) {
                    Err(x) => Err(x),
                    Ok((md5, map)) => match e.address(slot) {
                        None => Err("ProcessServerInfo slot RVA is invalid"@),
                        Some(slot_address) => match e.address(f) {
                            None => Err(
                                "ProcessServerInfo function is not executable engine code"@,
                            ),
                            Some(address) => if e.contains_exec(address) {
                                Ok(
                                    ServerInfo {
                                        slot: slot_address as u64,
                                        function: address as u64,
                                        object_offset: table.object_offset,
                                        slot_index: index as usize,
                                        md5_offset: md5 as u64,
                                        map_offset: map as u64,
                                    },
                                )
                            } else {
                                Err("ProcessServerInfo function is not executable engine code"@)
                            },
                        },
                    },
                }
            },
        },
    }
}

/// The offset of the map name.
fn find_map_offset(engine: &LiveModule, f: u64, body: &[u8]) -> (r: Result<u64, String>)
    ensures
        match r {
            Ok(v) => map_offset(engine@.pe, f as int, body@) == Ok::<int, Seq<char>>(v as int)
                && v < 256,
            Err(e) => map_offset(engine@.pe, f as int, body@) == Err::<int, Seq<char>>(e@),
        },
{
    match relative_call_target(f, body, BASE_CALL) {
        None => Err("ProcessServerInfo base call changed".to_owned()),
        Some(base) => {
            if !engine.pe().is_exec(base) {
                return Err("ProcessServerInfo base call changed".to_owned());
            }
            match engine.pe().read_rva(base, BASE_WINDOW) {
                None => Err("base ProcessServerInfo body is truncated".to_owned()),
                Some(b) => find_offset(
                    MAP_COPY,
                    b,
                    "invalid map resolver pattern",
                    "base ProcessServerInfo map copy is missing or ambiguous",
                    "ProcessServerInfo map displacement is truncated",
                ),
            }
        },
    }
}

/// The offsets of the MD5 and the map name.
fn find_layout(engine: &LiveModule, f: u64) -> (r: Result<(u64, u64), String>)
    ensures
        match r {
            Ok((a, b)) => layout_of(engine@.pe, f as int) == Ok::<(int, int), Seq<char>>(
                (a as int, b as int),
            ),
            Err(e) => layout_of(engine@.pe, f as int) == Err::<(int, int), Seq<char>>(e@),
        },
{
    match engine.pe().read_rva(f, HANDLER_WINDOW) {
        None => Err("ProcessServerInfo body is truncated".to_owned()),
        Some(body) => match find_offset(
            MD5_COPY,
            body,
            "invalid MD5 resolver pattern",
            "ProcessServerInfo MD5 copy is missing or ambiguous",
            "ProcessServerInfo MD5 displacement is truncated",
        ) {
            Err(e) => Err(e),
            Ok(md5) => match find_map_offset(engine, f, body) {
                Err(e) => Err(e),
                Ok(map) => {
                    if 0x20 <= md5 && md5 <= 0x100 && 0x40 <= map && map <= 0x100 && map % 8 == 0 {
                        Ok((md5, map))
                    } else {
                        let mut text: String = with_hex(
                            "implausible server-info layout: MD5 +0x",
                            md5,
                            ", map +0x",
                        );
                        push_hex(&mut text, map);
                        Err(text)
                    }
                },
            },
        },
    }
}

/// Works out where the handler is hooked and what its message looks like.
pub fn resolve(engine: &LiveModule) -> (r: Result<ServerInfo, String>)
    ensures
        match r {
            Ok(s) => server_info(engine@) == Ok::<ServerInfo, Seq<char>>(s),
            Err(e) => server_info(engine@) == Err::<ServerInfo, Seq<char>>(e@),
        },
{
    let specs: [&str; 1] = [PROCESS_SERVER_INFO];
    assert(specs@ =~= seq![PROCESS_SERVER_INFO]);
    let (slot, f) = match engine.resolve_virtual(CLIENT_STATE_CLASS, &specs, HANDLER_WINDOW) {
        None => {
            return Err("CClientState::ProcessServerInfo is missing or ambiguous".to_owned());
        },
        Some(x) => x,
    };
    let (table, slot_index) = match find_owner(engine, slot, f) {
        Err(e) => {
            return Err(e);
        },
        Ok(x) => x,
    };
    if table.object_offset != HANDLER_SUBOBJECT {
        let mut text: String =
            "ProcessServerInfo resolved on unexpected CClientState subobject +0x".to_owned();
        push_hex(&mut text, table.object_offset as u64);
        return Err(text);
    }
    let (md5_offset, map_offset) = match find_layout(engine, f) {
        Err(e) => {
            return Err(e);
        },
        Ok(x) => x,
    };
    let slot_address: u64 = match engine.address(slot) {
        None => {
            return Err("ProcessServerInfo slot RVA is invalid".to_owned());
        },
        Some(x) => x,
    };
    match engine.address(f) {
        None => Err("ProcessServerInfo function is not executable engine code".to_owned()),
        Some(function) => {
            if engine.contains_exec(function) {
                Ok(
                    ServerInfo {
                        slot: slot_address,
                        function,
                        object_offset: table.object_offset,
                        slot_index,
                        md5_offset,
                        map_offset,
                    },
                )
            } else {
                Err("ProcessServerInfo function is not executable engine code".to_owned())
            }
        },
    }
}

/// The log line that says where the handler and its fields were found.
pub open spec fn found_text(s: ServerInfo) -> Seq<char> {
    "fastdl: CClientState+0x"@ + hex_text(s.object_offset as int) + " slot "@ + dec_text(
        s.slot_index as int,
    ) + ", MD5 msg+0x"@ + hex_text(s.md5_offset as int) + ", map msg+0x"@ + hex_text(
        s.map_offset as int,
    )
}

/// The log line that says where the handler and its fields were found.
pub fn found_line(s: &ServerInfo) -> (r: String)
    ensures
        r@ == found_text(*s),
{
    let mut text: String = with_hex("fastdl: CClientState+0x", s.object_offset as u64, " slot ");
    push_dec(&mut text, s.slot_index as u64);
    text.append(", MD5 msg+0x");
    push_hex(&mut text, s.md5_offset);
    text.append(", map msg+0x");
    push_hex(&mut text, s.map_offset);
    text
}

/// A resolved handler is code of the engine, its slot belongs to the subobject
/// that the hook knows, and the offsets are where such fields can be.
pub proof fn resolved_handler_is_plausible(e: LiveView)
    requires
        e.whole(),
        server_info(e) is Ok,
    ensures
        e.contains_exec(server_info(e)->Ok_0.function as int),
        e.contains(server_info(e)->Ok_0.slot as int),
        server_info(e)->Ok_0.object_offset == HANDLER_SUBOBJECT,
        plausible_layout(
            server_info(e)->Ok_0.md5_offset as int,
            server_info(e)->Ok_0.map_offset as int,
        ),
{
}

/// The entry of the handler on Windows, with its two direct calls.
pub proof fn handler_start_is_known()
    ensures
        pattern_of(PROCESS_SERVER_INFO@) matches Some(p) && spells(
            p,
            seq![
            0x48, 0x89, 0x5c, 0x24, 0x08, 0x57, 0x48, 0x83, 0xec, 0x20, 0x48, 0x8b, 0xfa, 0x48,
            0x8b, 0xd9, 0xe8, -1, -1, -1, -1, 0x48, 0x8b, 0xd7, 0x48, 0x8b, 0xcb, 0xe8, -1, -1,
            -1, -1, 0x84, 0xc0,
            ],
        ),
{
    reveal_strlit("48 89 5C 24 08 57 48 83 EC 20 48 8B FA 48 8B D9 E8 ?? ?? ?? ?? 48 8B D7 48 8B CB E8 ?? ?? ?? ?? 84 C0");
    let text = "48 89 5C 24 08 57 48 83 EC 20 48 8B FA 48 8B D9 E8 ?? ?? ?? ?? 48 8B D7 48 8B CB E8 ?? ?? ?? ?? 84 C0"@;
    first_word(text);
    next_word(text, 0, 0, 3, Some(0x48));
    next_word(text, 1, 3, 6, Some(0x89));
    next_word(text, 2, 6, 9, Some(0x5c));
    next_word(text, 3, 9, 12, Some(0x24));
    next_word(text, 4, 12, 15, Some(0x08));
    next_word(text, 5, 15, 18, Some(0x57));
    next_word(text, 6, 18, 21, Some(0x48));
    next_word(text, 7, 21, 24, Some(0x83));
    next_word(text, 8, 24, 27, Some(0xec));
    next_word(text, 9, 27, 30, Some(0x20));
    next_word(text, 10, 30, 33, Some(0x48));
    next_word(text, 11, 33, 36, Some(0x8b));
    next_word(text, 12, 36, 39, Some(0xfa));
    next_word(text, 13, 39, 42, Some(0x48));
    next_word(text, 14, 42, 45, Some(0x8b));
    next_word(text, 15, 45, 48, Some(0xd9));
    next_word(text, 16, 48, 51, Some(0xe8));
    next_word(text, 17, 51, 54, None);
    next_word(text, 18, 54, 57, None);
    next_word(text, 19, 57, 60, None);
    next_word(text, 20, 60, 63, None);
    next_word(text, 21, 63, 66, Some(0x48));
    next_word(text, 22, 66, 69, Some(0x8b));
    next_word(text, 23, 69, 72, Some(0xd7));
    next_word(text, 24, 72, 75, Some(0x48));
    next_word(text, 25, 75, 78, Some(0x8b));
    next_word(text, 26, 78, 81, Some(0xcb));
    next_word(text, 27, 81, 84, Some(0xe8));
    next_word(text, 28, 84, 87, None);
    next_word(text, 29, 87, 90, None);
    next_word(text, 30, 90, 93, None);
    next_word(text, 31, 93, 96, None);
    next_word(text, 32, 96, 99, Some(0x84));
    next_word(text, 33, 99, 101, Some(0xc0));
    last_word(text, 34);
    assert(PROCESS_SERVER_INFO@ == text);
    let p = pattern_of(text)->0;
    assert(p[0] == Some(0x48u8));
    assert(p[1] == Some(0x89u8));
    assert(p[2] == Some(0x5cu8));
    assert(p[3] == Some(0x24u8));
    assert(p[4] == Some(0x08u8));
    assert(p[5] == Some(0x57u8));
    assert(p[6] == Some(0x48u8));
    assert(p[7] == Some(0x83u8));
    assert(p[8] == Some(0xecu8));
    assert(p[9] == Some(0x20u8));
    assert(p[10] == Some(0x48u8));
    assert(p[11] == Some(0x8bu8));
    assert(p[12] == Some(0xfau8));
    assert(p[13] == Some(0x48u8));
    assert(p[14] == Some(0x8bu8));
    assert(p[15] == Some(0xd9u8));
    assert(p[16] == Some(0xe8u8));
    assert(p[17] is None);
    assert(p[18] is None);
    assert(p[19] is None);
    assert(p[20] is None);
    assert(p[21] == Some(0x48u8));
    assert(p[22] == Some(0x8bu8));
    assert(p[23] == Some(0xd7u8));
    assert(p[24] == Some(0x48u8));
    assert(p[25] == Some(0x8bu8));
    assert(p[26] == Some(0xcbu8));
    assert(p[27] == Some(0xe8u8));
    assert(p[28] is None);
    assert(p[29] is None);
    assert(p[30] is None);
    assert(p[31] is None);
    assert(p[32] == Some(0x84u8));
    assert(p[33] == Some(0xc0u8));
    let bytes: Seq<int> = seq![
            0x48, 0x89, 0x5c, 0x24, 0x08, 0x57, 0x48, 0x83, 0xec, 0x20, 0x48, 0x8b, 0xfa, 0x48,
            0x8b, 0xd9, 0xe8, -1, -1, -1, -1, 0x48, 0x8b, 0xd7, 0x48, 0x8b, 0xcb, 0xe8, -1, -1,
            -1, -1, 0x84, 0xc0,
    ];
    assert forall|j: int| 0 <= j < bytes.len() implies if bytes[j] < 0 {
        #[trigger] p[j] is None
    } else {
        p[j] == Some(bytes[j] as u8)
    } by {
        assert(j == 0 || j == 1 || j == 2 || j == 3 || j == 4 || j == 5 || j == 6 || j == 7 || j == 8 || j == 9 || j == 10 || j == 11 || j == 12 || j == 13 || j == 14 || j == 15 || j == 16 || j == 17 || j == 18 || j == 19 || j == 20 || j == 21 || j == 22 || j == 23 || j == 24 || j == 25 || j == 26 || j == 27 || j == 28 || j == 29 || j == 30 || j == 31 || j == 32 || j == 33);
    }
}

/// The copy of the MD5 on Windows: `movups xmm0, [rdi+md5]` and its store.
pub proof fn md5_copy_is_known()
    ensures
        pattern_of(MD5_COPY@) matches Some(p) && spells(
            p,
            seq![
            0x0f, 0x10, 0x47, -1, 0x0f, 0x11, 0x83, -1, -1, -1, -1,
            ],
        ),
{
    reveal_strlit("0F 10 47 ?? 0F 11 83 ?? ?? ?? ??");
    let text = "0F 10 47 ?? 0F 11 83 ?? ?? ?? ??"@;
    first_word(text);
    next_word(text, 0, 0, 3, Some(0x0f));
    next_word(text, 1, 3, 6, Some(0x10));
    next_word(text, 2, 6, 9, Some(0x47));
    next_word(text, 3, 9, 12, None);
    next_word(text, 4, 12, 15, Some(0x0f));
    next_word(text, 5, 15, 18, Some(0x11));
    next_word(text, 6, 18, 21, Some(0x83));
    next_word(text, 7, 21, 24, None);
    next_word(text, 8, 24, 27, None);
    next_word(text, 9, 27, 30, None);
    next_word(text, 10, 30, 32, None);
    last_word(text, 11);
    assert(MD5_COPY@ == text);
    let p = pattern_of(text)->0;
    assert(p[0] == Some(0x0fu8));
    assert(p[1] == Some(0x10u8));
    assert(p[2] == Some(0x47u8));
    assert(p[3] is None);
    assert(p[4] == Some(0x0fu8));
    assert(p[5] == Some(0x11u8));
    assert(p[6] == Some(0x83u8));
    assert(p[7] is None);
    assert(p[8] is None);
    assert(p[9] is None);
    assert(p[10] is None);
    let bytes: Seq<int> = seq![
            0x0f, 0x10, 0x47, -1, 0x0f, 0x11, 0x83, -1, -1, -1, -1,
    ];
    assert forall|j: int| 0 <= j < bytes.len() implies if bytes[j] < 0 {
        #[trigger] p[j] is None
    } else {
        p[j] == Some(bytes[j] as u8)
    } by {
        assert(j == 0 || j == 1 || j == 2 || j == 3 || j == 4 || j == 5 || j == 6 || j == 7 || j == 8 || j == 9 || j == 10);
    }
}

/// The copy of the map name on Windows: `mov rdx, [rsi+map]`, and 260 as its
/// greatest length.
pub proof fn map_copy_is_known()
    ensures
        pattern_of(MAP_COPY@) matches Some(p) && spells(
            p,
            seq![
            0x48, 0x8b, 0x56, -1, 0x48, 0x8d, 0x8f, -1, -1, -1, -1, 0x48, 0x89, 0x5c, 0x24, -1,
            0x41, 0xb8, 0x04, 0x01, 0x00, 0x00,
            ],
        ),
{
    reveal_strlit("48 8B 56 ?? 48 8D 8F ?? ?? ?? ?? 48 89 5C 24 ?? 41 B8 04 01 00 00");
    let text = "48 8B 56 ?? 48 8D 8F ?? ?? ?? ?? 48 89 5C 24 ?? 41 B8 04 01 00 00"@;
    first_word(text);
    next_word(text, 0, 0, 3, Some(0x48));
    next_word(text, 1, 3, 6, Some(0x8b));
    next_word(text, 2, 6, 9, Some(0x56));
    next_word(text, 3, 9, 12, None);
    next_word(text, 4, 12, 15, Some(0x48));
    next_word(text, 5, 15, 18, Some(0x8d));
    next_word(text, 6, 18, 21, Some(0x8f));
    next_word(text, 7, 21, 24, None);
    next_word(text, 8, 24, 27, None);
    next_word(text, 9, 27, 30, None);
    next_word(text, 10, 30, 33, None);
    next_word(text, 11, 33, 36, Some(0x48));
    next_word(text, 12, 36, 39, Some(0x89));
    next_word(text, 13, 39, 42, Some(0x5c));
    next_word(text, 14, 42, 45, Some(0x24));
    next_word(text, 15, 45, 48, None);
    next_word(text, 16, 48, 51, Some(0x41));
    next_word(text, 17, 51, 54, Some(0xb8));
    next_word(text, 18, 54, 57, Some(0x04));
    next_word(text, 19, 57, 60, Some(0x01));
    next_word(text, 20, 60, 63, Some(0x00));
    next_word(text, 21, 63, 65, Some(0x00));
    last_word(text, 22);
    assert(MAP_COPY@ == text);
    let p = pattern_of(text)->0;
    assert(p[0] == Some(0x48u8));
    assert(p[1] == Some(0x8bu8));
    assert(p[2] == Some(0x56u8));
    assert(p[3] is None);
    assert(p[4] == Some(0x48u8));
    assert(p[5] == Some(0x8du8));
    assert(p[6] == Some(0x8fu8));
    assert(p[7] is None);
    assert(p[8] is None);
    assert(p[9] is None);
    assert(p[10] is None);
    assert(p[11] == Some(0x48u8));
    assert(p[12] == Some(0x89u8));
    assert(p[13] == Some(0x5cu8));
    assert(p[14] == Some(0x24u8));
    assert(p[15] is None);
    assert(p[16] == Some(0x41u8));
    assert(p[17] == Some(0xb8u8));
    assert(p[18] == Some(0x04u8));
    assert(p[19] == Some(0x01u8));
    assert(p[20] == Some(0x00u8));
    assert(p[21] == Some(0x00u8));
    let bytes: Seq<int> = seq![
            0x48, 0x8b, 0x56, -1, 0x48, 0x8d, 0x8f, -1, -1, -1, -1, 0x48, 0x89, 0x5c, 0x24, -1,
            0x41, 0xb8, 0x04, 0x01, 0x00, 0x00,
    ];
    assert forall|j: int| 0 <= j < bytes.len() implies if bytes[j] < 0 {
        #[trigger] p[j] is None
    } else {
        p[j] == Some(bytes[j] as u8)
    } by {
        assert(j == 0 || j == 1 || j == 2 || j == 3 || j == 4 || j == 5 || j == 6 || j == 7 || j == 8 || j == 9 || j == 10 || j == 11 || j == 12 || j == 13 || j == 14 || j == 15 || j == 16 || j == 17 || j == 18 || j == 19 || j == 20 || j == 21);
    }
}

proof fn read_at_only_place(
    spec: Seq<char>,
    body: Seq<u8>,
    invalid: Seq<char>,
    missing: Seq<char>,
    truncated: Seq<char>,
    at: int,
)
    requires
        pattern_of(spec) is Some,
        pattern_of(spec)->0.len() > 3,
        pattern_at(pattern_of(spec)->0, body, at),
        forall|j: int| pattern_at(pattern_of(spec)->0, body, j) ==> j == at,
    ensures
        copy_offset(spec, body, invalid, missing, truncated) == Ok::<int, Seq<char>>(
            body[at + 3] as int,
        ),
{
    only_place_is_the_match(pattern_of(spec)->0, body, at);
}

/// A copy of the MD5 stands at `i`: `movups xmm0, [rdi+..]` and its store.
pub open spec fn copies_md5(body: Seq<u8>, i: int) -> bool {
    &&& 0 <= i
    &&& i + 11 <= body.len()
    &&& body[i] == 0x0f
    &&& body[i + 1] == 0x10
    &&& body[i + 2] == 0x47
    &&& body[i + 4] == 0x0f
    &&& body[i + 5] == 0x11
    &&& body[i + 6] == 0x83
}

proof fn copies_md5_is(body: Seq<u8>, i: int)
    ensures
        pattern_of(MD5_COPY@) is Some,
        pattern_of(MD5_COPY@)->0.len() == 11,
        pattern_at(pattern_of(MD5_COPY@)->0, body, i) <==> copies_md5(body, i),
{
    md5_copy_is_known();
    let p = pattern_of(MD5_COPY@)->0;
    assert(p[0] == Some(0x0fu8) && p[1] == Some(0x10u8) && p[2] == Some(0x47u8) && p[3] is None
        && p[4] == Some(0x0fu8) && p[5] == Some(0x11u8) && p[6] == Some(0x83u8) && p[7] is None
        && p[8] is None && p[9] is None && p[10] is None);
    if copies_md5(body, i) {
        assert forall|j: int| 0 <= j < p.len() implies #[trigger] p[j] is None || p[j] == Some(
            body[i + j],
        ) by {
            assert(j == 0 || j == 1 || j == 2 || j == 3 || j == 4 || j == 5 || j == 6 || j == 7 || j
                == 8 || j == 9 || j == 10);
        }
    }
}

/// The offset of the MD5 is the byte in its only copy; without one, or with
/// two, there is none.
pub proof fn the_md5_offset_is_read(body: Seq<u8>, at: int, other: int)
    ensures
        copies_md5(body, at) && (forall|j: int| copies_md5(body, j) ==> j == at) ==> md5_offset(
            body,
        ) == Ok::<int, Seq<char>>(body[at + 3] as int),
        (forall|j: int| !copies_md5(body, j)) ==> md5_offset(body) is Err,
        copies_md5(body, at) && copies_md5(body, other) && at != other ==> md5_offset(body) is Err,
{
    copies_md5_is(body, at);
    copies_md5_is(body, other);
    let p = pattern_of(MD5_COPY@)->0;
    assert forall|j: int| #[trigger] pattern_at(p, body, j) <==> copies_md5(body, j) by {
        copies_md5_is(body, j);
    }
    if copies_md5(body, at) && forall|j: int| copies_md5(body, j) ==> j == at {
        read_at_only_place(
            MD5_COPY@,
            body,
            "invalid MD5 resolver pattern"@,
            "ProcessServerInfo MD5 copy is missing or ambiguous"@,
            "ProcessServerInfo MD5 displacement is truncated"@,
            at,
        );
    }
    let ms = matches_of(p, body);
    matches_are_all_places(p, body, at);
    matches_are_all_places(p, body, other);
    if ms.len() == 1 {
        matches_are_all_places(p, body, ms[0]);
        assert(ms.contains(ms[0]));
        if copies_md5(body, at) {
            let a = choose|a: int| 0 <= a < ms.len() && ms[a] == at;
        }
        if copies_md5(body, other) {
            let a = choose|a: int| 0 <= a < ms.len() && ms[a] == other;
        }
    }
}

/// A direct call leads to where its distance says, counted from behind it.
pub proof fn a_call_leads_to_its_target(function: int, body: Seq<u8>, at: int, target: int)
    requires
        0 <= at,
        at + 5 <= body.len(),
        body[at] == 0xe8,
        0 <= function,
        function + at + 5 <= u64::MAX,
        0 <= target <= u64::MAX,
        -0x8000_0000 <= target - (function + at + 5) <= 0x7fff_ffff,
        body[at + 1] + 256 * body[at + 2] + 65_536 * body[at + 3] + 16_777_216 * body[at + 4] == if target
            >= function + at + 5 {
            target - (function + at + 5)
        } else {
            target - (function + at + 5) + 0x1_0000_0000
        },
    ensures
        call_target(function, body, at) == Some(target),
{
}

/// Offsets are believed where such fields can be: the MD5 from 20h, the map
/// name from 40h on, both up to 100h, and the latter on a word.
pub proof fn plausible_offsets_are_believed(md5: int, map: int)
    ensures
        plausible_layout(0x38, 0x48),
        plausible_layout(md5, map) ==> 32 <= md5 <= 256 && 64 <= map <= 256 && map % 8 == 0,
        32 <= md5 <= 256 && 64 <= map <= 256 && map % 8 == 0 ==> plausible_layout(md5, map),
{
}

/// A copy of the map name stands at `i`: `mov rdx, [rsi+..]`, an address, and
/// 260 as the greatest length.
pub open spec fn copies_map(body: Seq<u8>, i: int) -> bool {
    &&& 0 <= i
    &&& i + 22 <= body.len()
    &&& body[i] == 0x48
    &&& body[i + 1] == 0x8b
    &&& body[i + 2] == 0x56
    &&& body[i + 4] == 0x48
    &&& body[i + 5] == 0x8d
    &&& body[i + 6] == 0x8f
    &&& body[i + 11] == 0x48
    &&& body[i + 12] == 0x89
    &&& body[i + 13] == 0x5c
    &&& body[i + 14] == 0x24
    &&& body[i + 16] == 0x41
    &&& body[i + 17] == 0xb8
    &&& body[i + 18] == 0x04
    &&& body[i + 19] == 0x01
    &&& body[i + 20] == 0x00
    &&& body[i + 21] == 0x00
}

proof fn copies_map_is(body: Seq<u8>, i: int)
    ensures
        pattern_of(MAP_COPY@) is Some,
        pattern_of(MAP_COPY@)->0.len() == 22,
        pattern_at(pattern_of(MAP_COPY@)->0, body, i) <==> copies_map(body, i),
{
    map_copy_is_known();
    let p = pattern_of(MAP_COPY@)->0;
    assert(p[0] == Some(0x48u8) && p[1] == Some(0x8bu8) && p[2] == Some(0x56u8) && p[3] is None
        && p[4] == Some(0x48u8) && p[5] == Some(0x8du8) && p[6] == Some(0x8fu8) && p[7] is None
        && p[8] is None && p[9] is None && p[10] is None && p[11] == Some(0x48u8) && p[12] == Some(
        0x89u8,
    ) && p[13] == Some(0x5cu8) && p[14] == Some(0x24u8) && p[15] is None && p[16] == Some(0x41u8)
        && p[17] == Some(0xb8u8) && p[18] == Some(0x04u8) && p[19] == Some(0x01u8) && p[20] == Some(
        0x00u8,
    ) && p[21] == Some(0x00u8));
    if copies_map(body, i) {
        assert forall|j: int| 0 <= j < p.len() implies #[trigger] p[j] is None || p[j] == Some(
            body[i + j],
        ) by {
            assert(j == 0 || j == 1 || j == 2 || j == 3 || j == 4 || j == 5 || j == 6 || j == 7 || j
                == 8 || j == 9 || j == 10 || j == 11 || j == 12 || j == 13 || j == 14 || j == 15
                || j == 16 || j == 17 || j == 18 || j == 19 || j == 20 || j == 21);
        }
    }
}

/// The offset of the map name is the byte in its only copy, in the code that
/// the handler calls 27 bytes in.
pub proof fn the_map_offset_is_read(pe: PeImage, f: int, body: Seq<u8>, base: int, b: Seq<u8>, at: int)
    requires
        call_target(f, body, 27) == Some(base),
        pe.is_exec(base),
        pe.read_rva(base, 0x440) == Some(b),
        copies_map(b, at),
        forall|j: int| copies_map(b, j) ==> j == at,
    ensures
        map_offset(pe, f, body) == Ok::<int, Seq<char>>(b[at + 3] as int),
{
    copies_map_is(b, at);
    let p = pattern_of(MAP_COPY@)->0;
    assert forall|j: int| #[trigger] pattern_at(p, b, j) implies j == at by {
        copies_map_is(b, j);
    }
    read_at_only_place(
        MAP_COPY@,
        b,
        "invalid map resolver pattern"@,
        "base ProcessServerInfo map copy is missing or ambiguous"@,
        "ProcessServerInfo map displacement is truncated"@,
        at,
    );
}

/// The handler is resolved where it is found in the subobject that the hook
/// knows, with a believable layout, as code of the loaded engine.
pub proof fn the_handler_is_resolved(
    e: LiveView,
    slot: int,
    f: int,
    table: Vtable,
    index: int,
    md5: int,
    map: int,
)
    requires
        e.whole(),
        e.virtual_of(
            encode_utf8(".?AVCClientState@@"@),
            patterns_of(seq![PROCESS_SERVER_INFO]),
            0x200,
        ) == Some((slot, f)),
        owner_of(e.pe, slot, f) == Ok::<(Vtable, int), Seq<char>>((table, index)),
        table.object_offset == 16,
        layout_of(e.pe, f) == Ok::<(int, int), Seq<char>>((md5, map)),
        0 <= slot < e.pe.image_size,
        0 <= f < e.pe.image_size,
        e.pe.is_exec(f),
        0 <= index < 256,
    ensures
        server_info(e) matches Ok(s) && s.slot == e.base + slot && s.function == e.base + f
            && s.object_offset == 16 && s.slot_index == index && s.md5_offset == md5 && s.map_offset
            == map,
{
}

/// The place that holds the slot and the code is found, where it is the only
/// one.
pub proof fn the_owner_is_found(pe: PeImage, slot: int, f: int, v: Vtable, k: int)
    requires
        is_owner(pe, slot, f, (v, k)),
        forall|x: (Vtable, int)| #[trigger] is_owner(pe, slot, f, x) ==> x == (v, k),
    ensures
        owner_of(pe, slot, f) == Ok::<(Vtable, int), Seq<char>>((v, k)),
        v.rva + 8 * k == slot,
        pe.vfn(v.rva as int, k) == Some(f),
{
}

} // verus!
