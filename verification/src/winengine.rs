//! Finding the console command and the download manager of the Windows engine.
use vstd::prelude::*;
use vstd::utf8::encode_utf8;

use crate::bytes::{le64, rd_u64};
use crate::live::{LiveModule, LiveView};
use crate::pe::{before, is_writable, ordered, PeImage, Vtable};
use crate::sig::{first_word, last_word, next_word, pattern_of, patterns_of, spells};
use crate::text::{hex_text, push_hex, push_signed, signed_text, with_hex};

verus! {

/// Class of the engine client.
pub const ENGINE_CLIENT_CLASS: &'static str = ".?AVCEngineClient@@";

/// The start of its console command.
pub const CLIENT_CMD_PATTERN: &'static str = "40 53 48 83 EC 20 80 3D ?? ?? ?? ?? 00 48 8B DA";

/// Class of the download manager.
pub const DOWNLOAD_MANAGER_CLASS: &'static str = ".?AVCDownloadManager@@";

/// The start of its update, which shows where it keeps the request.
pub const DOWNLOAD_UPDATE_PATTERN: &'static str =
    "40 53 48 81 EC 40 02 00 00 4C 8B 41 28 48 8B D9";

/// An address or what is wrong with it, as a value.
pub open spec fn address_view(r: Result<u64, String>) -> Result<int, Seq<char>> {
    match r {
        Ok(a) => Ok(a as int),
        Err(e) => Err(e@),
    }
}

/// The address of the engine's factory, or what is wrong.
pub open spec fn factory_of(e: LiveView) -> Result<int, Seq<char>> {
    match e.pe.export(encode_utf8("CreateInterface"@)) {
        None => Err("engine.dll does not export CreateInterface"@),
        Some(rva) => match e.address(rva) {
            None => Err("engine CreateInterface export is not executable"@),
            Some(a) => if e.contains_exec(a) {
                Ok(a)
            } else {
                Err("engine CreateInterface export is not executable"@)
            },
        },
    }
}

/// The address of the engine's factory.
pub fn create_interface(engine: &LiveModule) -> (r: Result<u64, String>)
    ensures
        address_view(r) == factory_of(engine@),
{
    let rva: u64 = match engine.pe().export("CreateInterface") {
        None => {
            return Err("engine.dll does not export CreateInterface".to_owned());
        },
        Some(rva) => rva,
    };
    match engine.address(rva) {
        None => Err("engine CreateInterface export is not executable".to_owned()),
        Some(a) => if engine.contains_exec(a) {
            Ok(a)
        } else {
            Err("engine CreateInterface export is not executable".to_owned())
        },
    }
}

/// A vtable of the engine client that a slot can belong to.
pub open spec fn may_own(pe: PeImage, slot: int, v: Vtable) -> bool {
    &&& pe.is_vtable(encode_utf8(ENGINE_CLIENT_CLASS@), v.rva as int, v.object_offset as int)
    &&& v.rva <= slot < v.rva + 2048
    &&& (slot - v.rva) % 8 == 0
}

/// The first of them.
pub open spec fn owns(pe: PeImage, slot: int, v: Vtable) -> bool {
    may_own(pe, slot, v) && forall|u: Vtable| #[trigger]
        may_own(pe, slot, u) ==> u == v || before(v, u)
}

/// The RVA of the vtable that a slot belongs to.
pub open spec fn owner_rva(pe: PeImage, slot: int) -> Option<int> {
    if exists|v: Vtable| owns(pe, slot, v) {
        Some((choose|v: Vtable| owns(pe, slot, v)).rva as int)
    } else {
        None
    }
}

/// The RVA of the vtable that a slot belongs to.
fn find_owner(engine: &LiveModule, slot: u64) -> (r: Option<u64>)
    ensures
        match r {
            Some(v) => owner_rva(engine@.pe, slot as int) == Some(v as int),
            None => owner_rva(engine@.pe, slot as int) is None,
        },
{
    let ghost pe = engine@.pe;
    let all: Vec<Vtable> = engine.pe().vtables(ENGINE_CLIENT_CLASS);
    let mut i: usize = 0;
    while i < all.len()
        invariant
            i <= all.len(),
            pe == engine@.pe,
            ordered(all@),
            forall|v: Vtable| #[trigger]
                all@.contains(v) <==> pe.is_vtable(
                    encode_utf8(ENGINE_CLIENT_CLASS@),
                    v.rva as int,
                    v.object_offset as int,
                ),
            forall|j: int| 0 <= j < i ==> !may_own(pe, slot as int, #[trigger] all@[j]),
        decreases all.len() - i,
    {
        let v: Vtable = all[i];
        assert(all@.contains(v));
        if slot >= v.rva && slot - v.rva < 2048 && (slot - v.rva) % 8 == 0 {
            proof {
                assert(may_own(pe, slot as int, v));
                assert forall|u: Vtable| #[trigger] may_own(pe, slot as int, u) implies u == v
                    || before(v, u) by {
                    assert(all@.contains(u));
                    let k = choose|k: int| 0 <= k < all@.len() && all@[k] == u;
                    assert(k >= i);
                    if k > i {
                        assert(before(all@[i as int], all@[k]));
                    }
                }
                assert(owns(pe, slot as int, v));
                let w = choose|w: Vtable| owns(pe, slot as int, w);
                assert(owns(pe, slot as int, w));
                assert(may_own(pe, slot as int, w));
            }
            return Some(v.rva);
        }
        i = i + 1;
    }
    proof {
        assert forall|v: Vtable| !owns(pe, slot as int, v) by {
            if owns(pe, slot as int, v) {
                assert(all@.contains(v));
                let k = choose|k: int| 0 <= k < all@.len() && all@[k] == v;
                assert(!may_own(pe, slot as int, all@[k]));
            }
        }
    }
    None
}

/// What the factory gave: the interface and the status, and the pointer that
/// the interface starts with, if it could be read.
#[derive(Clone, Copy, Debug, Eq, PartialEq, Structural)]
pub struct Interface {
    pub address: u64,
    pub status: i32,
    pub vtable: Option<u64>,
}

/// The address of the console command behind an interface, or what is wrong.
pub open spec fn client_cmd_of(e: LiveView, i: Interface) -> Result<int, Seq<char>> {
    if i.address == 0 {
        Err(
            "CreateInterface(VEngineClient014) failed ("@ + signed_text(i.status as int) + ")"@,
        )
    } else {
        match i.vtable {
            None => Err("VEngineClient014 object is unreadable"@),
            Some(vtable) => match e.virtual_of(
                encode_utf8(ENGINE_CLIENT_CLASS@),
                patterns_of(seq![CLIENT_CMD_PATTERN]),
                0x70,
            ) {
                None => Err("CEngineClient ClientCmd virtual is missing or ambiguous"@),
                Some((slot, f)) => match owner_rva(e.pe, slot) {
                    None => Err("ClientCmd slot has no CEngineClient vtable owner"@),
                    Some(owner) => match e.address(owner) {
                        None => Err("CEngineClient vtable RVA is invalid"@),
                        Some(expected) => if vtable != expected {
                            Err(
                                "VEngineClient014 vptr 0x"@ + hex_text(vtable as int)
                                    + " is not CEngineClient 0x"@ + hex_text(expected),
                            )
                        } else {
                            live_function(e, slot, f)
                        },
                    },
                },
            },
        }
    }
}

/// The address of a function that its slot holds in the loaded engine too.
pub open spec fn live_function(e: LiveView, slot: int, f: int) -> Result<int, Seq<char>> {
    match e.address(f) {
        None => Err("ClientCmd function is not executable engine code"@),
        Some(function) => if !e.contains_exec(function) {
            Err("ClientCmd function is not executable engine code"@)
        } else {
            match e.live_bytes(slot, 8) {
                None => Err("ClientCmd vtable slot is unreadable"@),
                Some(b) => if le64(b, 0) != function {
                    Err("ClientCmd live vtable slot differs from engine.dll"@)
                } else {
                    Ok(function)
                },
            }
        },
    }
}

/// The address of a function that its slot holds in the loaded engine too.
fn check_function(engine: &LiveModule, slot: u64, f: u64) -> (r: Result<u64, String>)
    ensures
        address_view(r) == live_function(engine@, slot as int, f as int),
{
    match engine.address(f) {
        None => Err("ClientCmd function is not executable engine code".to_owned()),
        Some(function) => {
            if !engine.contains_exec(function) {
                return Err("ClientCmd function is not executable engine code".to_owned());
            }
            match engine.live_bytes(slot, 8) {
                None => Err("ClientCmd vtable slot is unreadable".to_owned()),
                Some(b) => if rd_u64(b, 0) != function {
                    Err("ClientCmd live vtable slot differs from engine.dll".to_owned())
                } else {
                    Ok(function)
                },
            }
        },
    }
}

/// The address of the console command behind an interface.
pub fn resolve_client_cmd(engine: &LiveModule, i: Interface) -> (r: Result<u64, String>)
    ensures
        address_view(r) == client_cmd_of(engine@, i),
{
    if i.address == 0 {
        let mut text: String = "CreateInterface(VEngineClient014) failed (".to_owned();
        push_signed(&mut text, i.status);
        text.append(")");
        return Err(text);
    }
    let vtable: u64 = match i.vtable {
        None => {
            return Err("VEngineClient014 object is unreadable".to_owned());
        },
        Some(v) => v,
    };
    let specs: [&str; 1] = [CLIENT_CMD_PATTERN];
    assert(specs@ =~= seq![CLIENT_CMD_PATTERN]);
    let (slot, f) = match engine.resolve_virtual(ENGINE_CLIENT_CLASS, &specs, 0x70) {
        None => {
            return Err("CEngineClient ClientCmd virtual is missing or ambiguous".to_owned());
        },
        Some(x) => x,
    };
    let owner: u64 = match find_owner(engine, slot) {
        None => {
            return Err("ClientCmd slot has no CEngineClient vtable owner".to_owned());
        },
        Some(x) => x,
    };
    let expected: u64 = match engine.address(owner) {
        None => {
            return Err("CEngineClient vtable RVA is invalid".to_owned());
        },
        Some(x) => x,
    };
    if vtable != expected {
        let mut text: String = with_hex(
            "VEngineClient014 vptr 0x",
            vtable,
            " is not CEngineClient 0x",
        );
        push_hex(&mut text, expected);
        return Err(text);
    }
    check_function(engine, slot, f)
}

/// A resolved console command is code of the engine.
pub proof fn client_cmd_is_engine_code(e: LiveView, i: Interface)
    requires
        client_cmd_of(e, i) is Ok,
    ensures
        e.contains_exec(client_cmd_of(e, i)->Ok_0),
        i.address != 0,
{
}

/// This is the class's only vtable.
pub open spec fn is_only_vtable(pe: PeImage, class: Seq<u8>, v: Vtable) -> bool {
    pe.is_vtable(class, v.rva as int, v.object_offset as int) && forall|u: Vtable|
        #![trigger pe.is_vtable(class, u.rva as int, u.object_offset as int)]
        pe.is_vtable(class, u.rva as int, u.object_offset as int) ==> u == v
}

/// The class's only vtable.
pub open spec fn only_vtable(pe: PeImage, class: Seq<u8>) -> Option<Vtable> {
    if exists|v: Vtable| is_only_vtable(pe, class, v) {
        Some(choose|v: Vtable| is_only_vtable(pe, class, v))
    } else {
        None
    }
}

/// The lowest start and the highest end of the writable sections.
pub open spec fn is_span(pe: PeImage, lo: int, hi: int) -> bool {
    &&& exists|i: int| #[trigger] is_writable(pe.sections, i) && pe.sections[i].rva == lo
    &&& exists|i: int| #[trigger]
        is_writable(pe.sections, i) && pe.sections[i].rva + pe.sections[i].virtual_size == hi
    &&& forall|i: int| #[trigger]
        is_writable(pe.sections, i) ==> lo <= pe.sections[i].rva && pe.sections[i].rva
            + pe.sections[i].virtual_size <= hi
}

/// The span of the writable sections.
pub open spec fn span_of(pe: PeImage) -> Option<(int, int)> {
    if exists|x: (int, int)| is_span_pair(pe, x) {
        Some(choose|x: (int, int)| is_span_pair(pe, x))
    } else {
        None
    }
}

/// The span of the writable sections, as a pair.
pub open spec fn is_span_pair(pe: PeImage, x: (int, int)) -> bool {
    is_span(pe, x.0, x.1)
}

/// The words of the data that are `want`, among the first `n`.
pub open spec fn words_that_are(data: Seq<u8>, want: int, n: int) -> Seq<int>
    decreases n,
{
    if n <= 0 {
        Seq::empty()
    } else if le64(data, 8 * (n - 1)) == want {
        words_that_are(data, want, n - 1).push(n - 1)
    } else {
        words_that_are(data, want, n - 1)
    }
}

/// The address of the one object in the data that starts with `want`.
pub open spec fn only_object(data: Seq<u8>, want: int, base: int) -> Result<int, Seq<char>> {
    let found = words_that_are(data, want, data.len() as int / 8);
    if found.len() > 1 {
        Err("multiple live CDownloadManager objects found"@)
    } else if found.len() == 0 {
        Err("live CDownloadManager singleton was not found"@)
    } else {
        Ok(base + 8 * found[0])
    }
}

/// The address of the download manager, or what is wrong.
pub open spec fn manager_of(e: LiveView) -> Result<int, Seq<char>> {
    let class = encode_utf8(DOWNLOAD_MANAGER_CLASS@);
    match only_vtable(e.pe, class) {
        None => Err("CDownloadManager primary vtable is missing or ambiguous"@),
        Some(v) => if v.object_offset != 0 {
            Err("CDownloadManager primary vtable has a nonzero object offset"@)
        } else if e.virtual_of(class, patterns_of(seq![DOWNLOAD_UPDATE_PATTERN]), 0x30) is None {
            Err("CDownloadManager request layout validation failed"@)
        } else {
            match e.address(v.rva as int) {
                None => Err("CDownloadManager vtable RVA is invalid"@),
                Some(wanted) => match span_of(e.pe) {
                    None => Err("engine.dll has no writable image span"@),
                    Some((start, end)) => match e.live_bytes(start, end - start) {
                        None => Err("engine writable image is unreadable"@),
                        Some(data) => only_object(data, wanted, e.base + start),
                    },
                },
            }
        },
    }
}

proof fn words_grow(data: Seq<u8>, want: int, a: int, b: int)
    requires
        a <= b,
    ensures
        words_that_are(data, want, a).len() <= words_that_are(data, want, b).len(),
    decreases b - a,
{
    if a < b {
        words_grow(data, want, a, b - 1);
    }
}

/// The address of the one object in the data that starts with `want`.
fn find_object(data: &[u8], want: u64, base: u64) -> (r: Result<u64, String>)
    requires
        base + data.len() <= u64::MAX,
    ensures
        address_view(r) == only_object(data@, want as int, base as int),
{
    let size: usize = data.len();
    let count: usize = size / 8;
    let mut found: Option<usize> = None;
    let mut i: usize = 0;
    while i < count
        invariant
            i <= count,
            count == size / 8,
            size == data@.len(),
            base + size <= u64::MAX,
            match found {
                Some(k) => k < i && words_that_are(data@, want as int, i as int) == seq![k as int],
                None => words_that_are(data@, want as int, i as int) == Seq::<int>::empty(),
            },
        decreases count - i,
    {
        if rd_u64(data, 8 * i) == want {
            match found {
                Some(k) => {
                    proof {
                        words_grow(data@, want as int, i + 1, count as int);
                    }
                    return Err("multiple live CDownloadManager objects found".to_owned());
                },
                None => {},
            }
            found = Some(i);
            assert(words_that_are(data@, want as int, i + 1) =~= seq![i as int]);
        }
        i = i + 1;
    }
    match found {
        Some(k) => Ok(base + 8 * (k as u64)),
        None => Err("live CDownloadManager singleton was not found".to_owned()),
    }
}

/// The address of the download manager.
pub fn resolve_download_manager(engine: &LiveModule) -> (r: Result<u64, String>)
    ensures
        address_view(r) == manager_of(engine@),
{
    let ghost e = engine@;
    let ghost class = encode_utf8(DOWNLOAD_MANAGER_CLASS@);
    let all: Vec<Vtable> = engine.pe().vtables(DOWNLOAD_MANAGER_CLASS);
    if all.len() != 1 {
        proof {
            assert forall|v: Vtable| !is_only_vtable(e.pe, class, v) by {
                if is_only_vtable(e.pe, class, v) {
                    assert(all@.contains(v));
                    if all@.len() > 1 {
                        assert(all@.contains(all@[0]));
                        assert(all@.contains(all@[1]));
                        assert(before(all@[0], all@[1]));
                    }
                }
            }
        }
        return Err("CDownloadManager primary vtable is missing or ambiguous".to_owned());
    }
    let v: Vtable = all[0];
    proof {
        assert(all@.contains(v));
        assert forall|u: Vtable|
            #![trigger e.pe.is_vtable(class, u.rva as int, u.object_offset as int)]
            e.pe.is_vtable(class, u.rva as int, u.object_offset as int) implies u == v by {
            assert(all@.contains(u));
        }
        assert(is_only_vtable(e.pe, class, v));
        let w = choose|w: Vtable| is_only_vtable(e.pe, class, w);
        assert(is_only_vtable(e.pe, class, w));
        assert(w == v);
    }
    if v.object_offset != 0 {
        return Err("CDownloadManager primary vtable has a nonzero object offset".to_owned());
    }
    let specs: [&str; 1] = [DOWNLOAD_UPDATE_PATTERN];
    assert(specs@ =~= seq![DOWNLOAD_UPDATE_PATTERN]);
    if engine.resolve_virtual(DOWNLOAD_MANAGER_CLASS, &specs, 0x30).is_none() {
        return Err("CDownloadManager request layout validation failed".to_owned());
    }
    let wanted: u64 = match engine.address(v.rva) {
        None => {
            return Err("CDownloadManager vtable RVA is invalid".to_owned());
        },
        Some(x) => x,
    };
    let (start, end) = match engine.pe().writable_span() {
        None => {
            proof {
                assert forall|x: (int, int)| !is_span_pair(e.pe, x) by {}
            }
            return Err("engine.dll has no writable image span".to_owned());
        },
        Some(x) => x,
    };
    proof {
        assert(is_span_pair(e.pe, (start as int, end as int)));
        let x = choose|x: (int, int)| is_span_pair(e.pe, x);
        assert(is_span_pair(e.pe, x));
        assert(x == (start as int, end as int));
    }
    let base: u64 = engine.base();
    let len: u64 = end - start;
    if len > usize::MAX as u64 {
        return Err("engine writable image is unreadable".to_owned());
    }
    match engine.live_bytes(start, len as usize) {
        None => Err("engine writable image is unreadable".to_owned()),
        Some(data) => find_object(data, wanted, base + start),
    }
}

/// The start of the console command: `push rbx`, `sub rsp, 20h`, a flag that is
/// compared with zero, and `mov rbx, rdx`.
pub proof fn client_cmd_is_known()
    ensures
        pattern_of(CLIENT_CMD_PATTERN@) matches Some(p) && spells(
            p,
            seq![
            0x40, 0x53, 0x48, 0x83, 0xec, 0x20, 0x80, 0x3d, -1, -1, -1, -1, 0x00, 0x48, 0x8b,
            0xda,
            ],
        ),
{
    reveal_strlit("40 53 48 83 EC 20 80 3D ?? ?? ?? ?? 00 48 8B DA");
    let text = "40 53 48 83 EC 20 80 3D ?? ?? ?? ?? 00 48 8B DA"@;
    first_word(text);
    next_word(text, 0, 0, 3, Some(0x40));
    next_word(text, 1, 3, 6, Some(0x53));
    next_word(text, 2, 6, 9, Some(0x48));
    next_word(text, 3, 9, 12, Some(0x83));
    next_word(text, 4, 12, 15, Some(0xec));
    next_word(text, 5, 15, 18, Some(0x20));
    next_word(text, 6, 18, 21, Some(0x80));
    next_word(text, 7, 21, 24, Some(0x3d));
    next_word(text, 8, 24, 27, None);
    next_word(text, 9, 27, 30, None);
    next_word(text, 10, 30, 33, None);
    next_word(text, 11, 33, 36, None);
    next_word(text, 12, 36, 39, Some(0x00));
    next_word(text, 13, 39, 42, Some(0x48));
    next_word(text, 14, 42, 45, Some(0x8b));
    next_word(text, 15, 45, 47, Some(0xda));
    last_word(text, 16);
    assert(CLIENT_CMD_PATTERN@ == text);
    let p = pattern_of(text)->0;
    assert(p[0] == Some(0x40u8));
    assert(p[1] == Some(0x53u8));
    assert(p[2] == Some(0x48u8));
    assert(p[3] == Some(0x83u8));
    assert(p[4] == Some(0xecu8));
    assert(p[5] == Some(0x20u8));
    assert(p[6] == Some(0x80u8));
    assert(p[7] == Some(0x3du8));
    assert(p[8] is None);
    assert(p[9] is None);
    assert(p[10] is None);
    assert(p[11] is None);
    assert(p[12] == Some(0x00u8));
    assert(p[13] == Some(0x48u8));
    assert(p[14] == Some(0x8bu8));
    assert(p[15] == Some(0xdau8));
    let bytes: Seq<int> = seq![
            0x40, 0x53, 0x48, 0x83, 0xec, 0x20, 0x80, 0x3d, -1, -1, -1, -1, 0x00, 0x48, 0x8b,
            0xda,
    ];
    assert forall|j: int| 0 <= j < bytes.len() implies if bytes[j] < 0 {
        #[trigger] p[j] is None
    } else {
        p[j] == Some(bytes[j] as u8)
    } by {
        assert(j == 0 || j == 1 || j == 2 || j == 3 || j == 4 || j == 5 || j == 6 || j == 7 || j == 8 || j == 9 || j == 10 || j == 11 || j == 12 || j == 13 || j == 14 || j == 15);
    }
}

/// The start of the download manager's update, which reads the request at 28h.
pub proof fn download_update_is_known()
    ensures
        pattern_of(DOWNLOAD_UPDATE_PATTERN@) matches Some(p) && spells(
            p,
            seq![
            0x40, 0x53, 0x48, 0x81, 0xec, 0x40, 0x02, 0x00, 0x00, 0x4c, 0x8b, 0x41, 0x28, 0x48,
            0x8b, 0xd9,
            ],
        ),
{
    reveal_strlit("40 53 48 81 EC 40 02 00 00 4C 8B 41 28 48 8B D9");
    let text = "40 53 48 81 EC 40 02 00 00 4C 8B 41 28 48 8B D9"@;
    first_word(text);
    next_word(text, 0, 0, 3, Some(0x40));
    next_word(text, 1, 3, 6, Some(0x53));
    next_word(text, 2, 6, 9, Some(0x48));
    next_word(text, 3, 9, 12, Some(0x81));
    next_word(text, 4, 12, 15, Some(0xec));
    next_word(text, 5, 15, 18, Some(0x40));
    next_word(text, 6, 18, 21, Some(0x02));
    next_word(text, 7, 21, 24, Some(0x00));
    next_word(text, 8, 24, 27, Some(0x00));
    next_word(text, 9, 27, 30, Some(0x4c));
    next_word(text, 10, 30, 33, Some(0x8b));
    next_word(text, 11, 33, 36, Some(0x41));
    next_word(text, 12, 36, 39, Some(0x28));
    next_word(text, 13, 39, 42, Some(0x48));
    next_word(text, 14, 42, 45, Some(0x8b));
    next_word(text, 15, 45, 47, Some(0xd9));
    last_word(text, 16);
    assert(DOWNLOAD_UPDATE_PATTERN@ == text);
    let p = pattern_of(text)->0;
    assert(p[0] == Some(0x40u8));
    assert(p[1] == Some(0x53u8));
    assert(p[2] == Some(0x48u8));
    assert(p[3] == Some(0x81u8));
    assert(p[4] == Some(0xecu8));
    assert(p[5] == Some(0x40u8));
    assert(p[6] == Some(0x02u8));
    assert(p[7] == Some(0x00u8));
    assert(p[8] == Some(0x00u8));
    assert(p[9] == Some(0x4cu8));
    assert(p[10] == Some(0x8bu8));
    assert(p[11] == Some(0x41u8));
    assert(p[12] == Some(0x28u8));
    assert(p[13] == Some(0x48u8));
    assert(p[14] == Some(0x8bu8));
    assert(p[15] == Some(0xd9u8));
    let bytes: Seq<int> = seq![
            0x40, 0x53, 0x48, 0x81, 0xec, 0x40, 0x02, 0x00, 0x00, 0x4c, 0x8b, 0x41, 0x28, 0x48,
            0x8b, 0xd9,
    ];
    assert forall|j: int| 0 <= j < bytes.len() implies if bytes[j] < 0 {
        #[trigger] p[j] is None
    } else {
        p[j] == Some(bytes[j] as u8)
    } by {
        assert(j == 0 || j == 1 || j == 2 || j == 3 || j == 4 || j == 5 || j == 6 || j == 7 || j == 8 || j == 9 || j == 10 || j == 11 || j == 12 || j == 13 || j == 14 || j == 15);
    }
}

/// The command is found where its slot holds it in the loaded engine too.
pub proof fn a_live_command_is_found(e: LiveView, slot: int, f: int, b: Seq<u8>)
    requires
        0 <= f < e.pe.image_size,
        e.pe.is_exec(f),
        e.live_bytes(slot, 8) == Some(b),
        le64(b, 0) == e.base + f,
    ensures
        live_function(e, slot, f) == Ok::<int, Seq<char>>(e.base + f),
{
}

/// The only object that starts with the vtable's address is found.
pub proof fn the_only_object_is_found(data: Seq<u8>, want: int, base: int, i: int)
    requires
        0 <= i < data.len() as int / 8,
        le64(data, 8 * i) == want,
        forall|j: int|
            0 <= j < data.len() as int / 8 && #[trigger] le64(data, 8 * j) == want ==> j == i,
    ensures
        only_object(data, want, base) == Ok::<int, Seq<char>>(base + 8 * i),
{
    only_word(data, want, data.len() as int / 8, i);
}

proof fn only_word(data: Seq<u8>, want: int, n: int, i: int)
    requires
        0 <= n <= data.len() as int / 8,
        le64(data, 8 * i) == want,
        forall|j: int|
            0 <= j < data.len() as int / 8 && #[trigger] le64(data, 8 * j) == want ==> j == i,
        0 <= i,
    ensures
        words_that_are(data, want, n) == if i < n {
            seq![i]
        } else {
            Seq::empty()
        },
    decreases n,
{
    if n > 0 {
        only_word(data, want, n - 1, i);
        if i == n - 1 {
            assert(Seq::<int>::empty().push(i) =~= seq![i]);
        } else if le64(data, 8 * (n - 1)) == want {
            assert(n - 1 == i);
        }
    }
}

/// The factory is the export of that name, where it is code of the loaded
/// engine.
pub proof fn the_factory_is_found(e: LiveView, rva: int)
    requires
        e.pe.export(encode_utf8("CreateInterface"@)) == Some(rva),
        0 <= rva < e.pe.image_size,
        e.pe.is_exec(rva),
    ensures
        factory_of(e) == Ok::<int, Seq<char>>(e.base + rva),
{
}

/// A slot belongs to the vtable of the engine client that holds it.
pub proof fn a_slot_has_its_vtable(pe: PeImage, slot: int, v: Vtable)
    requires
        pe.is_vtable(encode_utf8(".?AVCEngineClient@@"@), v.rva as int, v.object_offset as int),
        v.rva <= slot < v.rva + 2048,
        (slot - v.rva) % 8 == 0,
        forall|u: Vtable| #[trigger] may_own(pe, slot, u) ==> u == v,
    ensures
        owner_rva(pe, slot) == Some(v.rva as int),
{
    assert(may_own(pe, slot, v));
    assert(owns(pe, slot, v));
    let w = choose|w: Vtable| owns(pe, slot, w);
    assert(owns(pe, slot, w));
    assert(may_own(pe, slot, w));
}

/// The command is found behind an interface whose object is the engine
/// client's.
pub proof fn the_command_is_found(
    e: LiveView,
    i: Interface,
    slot: int,
    f: int,
    owner: int,
    function: int,
)
    requires
        i.address != 0,
        e.virtual_of(
            encode_utf8(".?AVCEngineClient@@"@),
            patterns_of(seq![CLIENT_CMD_PATTERN]),
            0x70,
        ) == Some((slot, f)),
        owner_rva(e.pe, slot) == Some(owner),
        0 <= owner < e.pe.image_size,
        i.vtable is Some,
        i.vtable->0 == e.base + owner,
        live_function(e, slot, f) == Ok::<int, Seq<char>>(function),
    ensures
        client_cmd_of(e, i) == Ok::<int, Seq<char>>(function),
{
}

/// The manager is found where its class has one vtable, its update looks as
/// expected, and one object in the engine's writable data starts with the
/// vtable's address.
pub proof fn the_manager_is_found(
    e: LiveView,
    v: Vtable,
    update: (int, int),
    start: int,
    end: int,
    data: Seq<u8>,
    at: int,
)
    requires
        is_only_vtable(e.pe, encode_utf8(".?AVCDownloadManager@@"@), v),
        v.object_offset == 0,
        e.virtual_of(
            encode_utf8(".?AVCDownloadManager@@"@),
            patterns_of(seq![DOWNLOAD_UPDATE_PATTERN]),
            0x30,
        ) == Some(update),
        0 <= v.rva < e.pe.image_size,
        is_span(e.pe, start, end),
        e.live_bytes(start, end - start) == Some(data),
        only_object(data, e.base + v.rva, e.base + start) == Ok::<int, Seq<char>>(at),
    ensures
        manager_of(e) == Ok::<int, Seq<char>>(at),
{
    let class = encode_utf8(DOWNLOAD_MANAGER_CLASS@);
    let w = choose|w: Vtable| is_only_vtable(e.pe, class, w);
    assert(is_only_vtable(e.pe, class, w));
    assert(w == v);
    assert(is_span_pair(e.pe, (start, end)));
    let x = choose|x: (int, int)| is_span_pair(e.pe, x);
    assert(is_span_pair(e.pe, x));
    assert(x == (start, end));
}

} // verus!
