//! Fullscreen preservation on Windows: two branches that keep the game in its
//! video mode when it loses the focus.
//!
//! Both places are found and checked before either can be patched.
use vstd::prelude::*;
use vstd::utf8::encode_utf8;

use crate::hook::{prepared, Patch, PatchView};
use crate::live::{LiveModule, LiveView};
use crate::pe::Access;
use crate::sig::{first_word, last_word, next_word, pattern_of, patterns_of, spells};

verus! {

/// The class whose virtual gives the video mode up.
pub const VIDEO_MODE_CLASS: &'static str = ".?AVCVideoMode_MaterialSystem@@";

/// The body of that virtual.
pub const RELEASE_VIDEO: &'static str =
    "40 53 48 83 EC 20 48 8B 01 48 8B D9 FF 90 ?? ?? ?? ?? 84 C0 75 ?? 48 8B 03 48 8B CB 48 83 C4 20 5B 48 FF A0 ?? ?? ?? ?? 48 83 C4 20 5B C3";

/// Where in it the branch stands.
pub const RELEASE_BRANCH_OFFSET: u64 = 20;

/// How much of a virtual's body is looked at.
pub const RELEASE_WINDOW: usize = 0x40;

/// The branch around the minimized window, with what follows it.
pub const D3D9_SHOW_WINDOW: &'static str =
    "0F 84 ?? ?? ?? ?? 48 8B 8B ?? ?? ?? ?? BA 07 00 00 00";

/// The two patches, and where they go.
pub struct Preservation {
    pub release_rva: u64,
    pub release: Patch,
    pub show_rva: u64,
    pub show: Patch,
}

/// The value of a `Preservation`.
#[verifier::ext_equal]
pub struct PreservationView {
    pub release_rva: int,
    pub release: PatchView,
    pub show_rva: int,
    pub show: PatchView,
}

impl View for Preservation {
    type V = PreservationView;

    open spec fn view(&self) -> PreservationView {
        PreservationView {
            release_rva: self.release_rva as int,
            release: self.release@,
            show_rva: self.show_rva as int,
            show: self.show@,
        }
    }
}

/// The patch of the branch that gives the video mode up: it becomes an
/// unconditional one.
pub open spec fn release_patch(engine: LiveView) -> Result<(int, PatchView), Seq<char>> {
    match engine.virtual_of(
        encode_utf8(VIDEO_MODE_CLASS@),
        patterns_of(seq![RELEASE_VIDEO]),
        RELEASE_WINDOW as int,
    ) {
        None => Err("CVideoMode_MaterialSystem::ReleaseVideo is missing or ambiguous"@),
        Some((_, f)) => {
            let rva = f + RELEASE_BRANCH_OFFSET;
            if rva > u64::MAX {
                Err("ReleaseVideo branch RVA overflowed"@)
            } else {
                match engine.live_bytes(rva, 2) {
                    None => Err("ReleaseVideo branch is unreadable"@),
                    Some(b) => if b[0] != 0x75 {
                        Err("ReleaseVideo conditional branch changed"@)
                    } else {
                        match engine.address(rva) {
                            None => Err("ReleaseVideo branch RVA is invalid"@),
                            Some(a) => match prepared(a, seq![0x75u8], seq![0xebu8], b.take(1)) {
                                Ok(p) => Ok((rva, p)),
                                Err(e) => Err(e),
                            },
                        }
                    },
                }
            }
        },
    }
}

/// The patch of the branch around the minimized window: it is always taken.
pub open spec fn show_patch(d3d9: LiveView) -> Result<(int, PatchView), Seq<char>> {
    match d3d9.unique_of(patterns_of(seq![D3D9_SHOW_WINDOW]), Access::Code) {
        None => Err("D3D9 ShowWindow(SW_SHOWMINNOACTIVE) branch is missing or ambiguous"@),
        Some((rva, bytes)) => if bytes.len() < 2 || bytes[0] != 0x0f || bytes[1] != 0x84 {
            Err("D3D9 fullscreen branch opcode changed"@)
        } else {
            match (d3d9.address(rva as int), d3d9.live_bytes(rva as int, 2)) {
                (Some(a), Some(live)) => match prepared(
                    a,
                    seq![0x0fu8, 0x84u8],
                    seq![0x90u8, 0xe9u8],
                    live,
                ) {
                    Ok(p) => Ok((rva as int, p)),
                    Err(e) => Err(e),
                },
                _ => Err("D3D9 fullscreen branch RVA is invalid"@),
            }
        },
    }
}

/// Both patches, or what is wrong with the first that cannot be had.
pub open spec fn preservation_of(engine: LiveView, d3d9: LiveView) -> Result<
    PreservationView,
    Seq<char>,
> {
    match release_patch(engine) {
        Err(e) => Err(e),
        Ok((release_rva, release)) => match show_patch(d3d9) {
            Err(e) => Err(e),
            Ok((show_rva, show)) => Ok(
                PreservationView { release_rva, release, show_rva, show },
            ),
        },
    }
}

/// A patch and its place, or what is wrong, as a value.
pub open spec fn placed_view(r: Result<(u64, Patch), String>) -> Result<
    (int, PatchView),
    Seq<char>,
> {
    match r {
        Ok((rva, p)) => Ok((rva as int, p@)),
        Err(e) => Err(e@),
    }
}

fn prepare_release(engine: &LiveModule) -> (r: Result<(u64, Patch), String>)
    ensures
        placed_view(r) == release_patch(engine@),
{
    let specs: [&str; 1] = [RELEASE_VIDEO];
    assert(specs@ =~= seq![RELEASE_VIDEO]);
    let f: u64 = match engine.resolve_virtual(VIDEO_MODE_CLASS, &specs, RELEASE_WINDOW) {
        None => {
            return Err(
                "CVideoMode_MaterialSystem::ReleaseVideo is missing or ambiguous".to_owned(),
            );
        },
        Some((_, f)) => f,
    };
    if f > u64::MAX - RELEASE_BRANCH_OFFSET {
        return Err("ReleaseVideo branch RVA overflowed".to_owned());
    }
    let rva: u64 = f + RELEASE_BRANCH_OFFSET;
    let b: &[u8] = match engine.live_bytes(rva, 2) {
        None => {
            return Err("ReleaseVideo branch is unreadable".to_owned());
        },
        Some(b) => b,
    };
    if b[0] != 0x75 {
        return Err("ReleaseVideo conditional branch changed".to_owned());
    }
    let a: u64 = match engine.address(rva) {
        None => {
            return Err("ReleaseVideo branch RVA is invalid".to_owned());
        },
        Some(a) => a,
    };
    let expected: [u8; 1] = [0x75];
    assert(expected@ =~= seq![0x75u8]);
    let mut replacement: Vec<u8> = Vec::new();
    replacement.push(0xeb);
    assert(replacement@ =~= seq![0xebu8]);
    let current: &[u8] = vstd::slice::slice_subrange(b, 0, 1);
    assert(current@ =~= b@.take(1));
    match Patch::prepare(a, &expected, replacement, current) {
        Ok(p) => Ok((rva, p)),
        Err(e) => Err(e),
    }
}

fn prepare_show(d3d9: &LiveModule) -> (r: Result<(u64, Patch), String>)
    ensures
        placed_view(r) == show_patch(d3d9@),
{
    let specs: [&str; 1] = [D3D9_SHOW_WINDOW];
    assert(specs@ =~= seq![D3D9_SHOW_WINDOW]);
    let (rva, bytes) = match d3d9.find_unique(&specs, Access::Code) {
        None => {
            return Err(
                "D3D9 ShowWindow(SW_SHOWMINNOACTIVE) branch is missing or ambiguous".to_owned(),
            );
        },
        Some(x) => x,
    };
    if bytes.len() < 2 || bytes[0] != 0x0f || bytes[1] != 0x84 {
        return Err("D3D9 fullscreen branch opcode changed".to_owned());
    }
    match (d3d9.address(rva), d3d9.live_bytes(rva, 2)) {
        (Some(a), Some(live)) => {
            let expected: [u8; 2] = [0x0f, 0x84];
            assert(expected@ =~= seq![0x0fu8, 0x84u8]);
            let mut replacement: Vec<u8> = Vec::new();
            replacement.push(0x90);
            replacement.push(0xe9);
            assert(replacement@ =~= seq![0x90u8, 0xe9u8]);
            match Patch::prepare(a, &expected, replacement, live) {
                Ok(p) => Ok((rva, p)),
                Err(e) => Err(e),
            }
        },
        _ => Err("D3D9 fullscreen branch RVA is invalid".to_owned()),
    }
}

/// Finds and prepares both patches. Neither is applied.
pub fn plan_fullscreen(engine: &LiveModule, d3d9: &LiveModule) -> (r: Result<Preservation, String>)
    ensures
        match r {
            Ok(p) => preservation_of(engine@, d3d9@) == Ok::<PreservationView, Seq<char>>(p@),
            Err(e) => preservation_of(engine@, d3d9@) == Err::<PreservationView, Seq<char>>(e@),
        },
{
    match prepare_release(engine) {
        Err(e) => Err(e),
        Ok((release_rva, release)) => match prepare_show(d3d9) {
            Err(e) => Err(e),
            Ok((show_rva, show)) => Ok(Preservation { release_rva, release, show_rva, show }),
        },
    }
}

/// What is prepared keeps where a branch leads: only its condition goes. The
/// short branch stays a short branch, and behind the NOP the near branch keeps
/// its four bytes of distance and its end.
pub proof fn only_the_condition_goes(engine: LiveView, d3d9: LiveView)
    ensures
        preservation_of(engine, d3d9) matches Ok(p) ==> {
            &&& p.release.original == seq![0x75u8]
            &&& p.release.replacement == seq![0xebu8]
            &&& p.show.original == seq![0x0fu8, 0x84u8]
            &&& p.show.replacement == seq![0x90u8, 0xe9u8]
            &&& p.show.original.len() == p.show.replacement.len()
        },
{
}

/// The virtual that gives the video mode up, with its branch 20 bytes in.
pub proof fn release_is_known()
    ensures
        pattern_of(RELEASE_VIDEO@) matches Some(p) && spells(
            p,
            seq![
            0x40, 0x53, 0x48, 0x83, 0xec, 0x20, 0x48, 0x8b, 0x01, 0x48, 0x8b, 0xd9, 0xff, 0x90,
            -1, -1, -1, -1, 0x84, 0xc0, 0x75, -1, 0x48, 0x8b, 0x03, 0x48, 0x8b, 0xcb, 0x48,
            0x83, 0xc4, 0x20, 0x5b, 0x48, 0xff, 0xa0, -1, -1, -1, -1, 0x48, 0x83, 0xc4, 0x20,
            0x5b, 0xc3,
            ],
        ),
{
    reveal_strlit("40 53 48 83 EC 20 48 8B 01 48 8B D9 FF 90 ?? ?? ?? ?? 84 C0 75 ?? 48 8B 03 48 8B CB 48 83 C4 20 5B 48 FF A0 ?? ?? ?? ?? 48 83 C4 20 5B C3");
    let text = "40 53 48 83 EC 20 48 8B 01 48 8B D9 FF 90 ?? ?? ?? ?? 84 C0 75 ?? 48 8B 03 48 8B CB 48 83 C4 20 5B 48 FF A0 ?? ?? ?? ?? 48 83 C4 20 5B C3"@;
    first_word(text);
    next_word(text, 0, 0, 3, Some(0x40));
    next_word(text, 1, 3, 6, Some(0x53));
    next_word(text, 2, 6, 9, Some(0x48));
    next_word(text, 3, 9, 12, Some(0x83));
    next_word(text, 4, 12, 15, Some(0xec));
    next_word(text, 5, 15, 18, Some(0x20));
    next_word(text, 6, 18, 21, Some(0x48));
    next_word(text, 7, 21, 24, Some(0x8b));
    next_word(text, 8, 24, 27, Some(0x01));
    next_word(text, 9, 27, 30, Some(0x48));
    next_word(text, 10, 30, 33, Some(0x8b));
    next_word(text, 11, 33, 36, Some(0xd9));
    next_word(text, 12, 36, 39, Some(0xff));
    next_word(text, 13, 39, 42, Some(0x90));
    next_word(text, 14, 42, 45, None);
    next_word(text, 15, 45, 48, None);
    next_word(text, 16, 48, 51, None);
    next_word(text, 17, 51, 54, None);
    next_word(text, 18, 54, 57, Some(0x84));
    next_word(text, 19, 57, 60, Some(0xc0));
    next_word(text, 20, 60, 63, Some(0x75));
    next_word(text, 21, 63, 66, None);
    next_word(text, 22, 66, 69, Some(0x48));
    next_word(text, 23, 69, 72, Some(0x8b));
    next_word(text, 24, 72, 75, Some(0x03));
    next_word(text, 25, 75, 78, Some(0x48));
    next_word(text, 26, 78, 81, Some(0x8b));
    next_word(text, 27, 81, 84, Some(0xcb));
    next_word(text, 28, 84, 87, Some(0x48));
    next_word(text, 29, 87, 90, Some(0x83));
    next_word(text, 30, 90, 93, Some(0xc4));
    next_word(text, 31, 93, 96, Some(0x20));
    next_word(text, 32, 96, 99, Some(0x5b));
    next_word(text, 33, 99, 102, Some(0x48));
    next_word(text, 34, 102, 105, Some(0xff));
    next_word(text, 35, 105, 108, Some(0xa0));
    next_word(text, 36, 108, 111, None);
    next_word(text, 37, 111, 114, None);
    next_word(text, 38, 114, 117, None);
    next_word(text, 39, 117, 120, None);
    next_word(text, 40, 120, 123, Some(0x48));
    next_word(text, 41, 123, 126, Some(0x83));
    next_word(text, 42, 126, 129, Some(0xc4));
    next_word(text, 43, 129, 132, Some(0x20));
    next_word(text, 44, 132, 135, Some(0x5b));
    next_word(text, 45, 135, 137, Some(0xc3));
    last_word(text, 46);
    assert(RELEASE_VIDEO@ == text);
    let p = pattern_of(text)->0;
    assert(p[0] == Some(0x40u8));
    assert(p[1] == Some(0x53u8));
    assert(p[2] == Some(0x48u8));
    assert(p[3] == Some(0x83u8));
    assert(p[4] == Some(0xecu8));
    assert(p[5] == Some(0x20u8));
    assert(p[6] == Some(0x48u8));
    assert(p[7] == Some(0x8bu8));
    assert(p[8] == Some(0x01u8));
    assert(p[9] == Some(0x48u8));
    assert(p[10] == Some(0x8bu8));
    assert(p[11] == Some(0xd9u8));
    assert(p[12] == Some(0xffu8));
    assert(p[13] == Some(0x90u8));
    assert(p[14] is None);
    assert(p[15] is None);
    assert(p[16] is None);
    assert(p[17] is None);
    assert(p[18] == Some(0x84u8));
    assert(p[19] == Some(0xc0u8));
    assert(p[20] == Some(0x75u8));
    assert(p[21] is None);
    assert(p[22] == Some(0x48u8));
    assert(p[23] == Some(0x8bu8));
    assert(p[24] == Some(0x03u8));
    assert(p[25] == Some(0x48u8));
    assert(p[26] == Some(0x8bu8));
    assert(p[27] == Some(0xcbu8));
    assert(p[28] == Some(0x48u8));
    assert(p[29] == Some(0x83u8));
    assert(p[30] == Some(0xc4u8));
    assert(p[31] == Some(0x20u8));
    assert(p[32] == Some(0x5bu8));
    assert(p[33] == Some(0x48u8));
    assert(p[34] == Some(0xffu8));
    assert(p[35] == Some(0xa0u8));
    assert(p[36] is None);
    assert(p[37] is None);
    assert(p[38] is None);
    assert(p[39] is None);
    assert(p[40] == Some(0x48u8));
    assert(p[41] == Some(0x83u8));
    assert(p[42] == Some(0xc4u8));
    assert(p[43] == Some(0x20u8));
    assert(p[44] == Some(0x5bu8));
    assert(p[45] == Some(0xc3u8));
    let bytes: Seq<int> = seq![
            0x40, 0x53, 0x48, 0x83, 0xec, 0x20, 0x48, 0x8b, 0x01, 0x48, 0x8b, 0xd9, 0xff, 0x90,
            -1, -1, -1, -1, 0x84, 0xc0, 0x75, -1, 0x48, 0x8b, 0x03, 0x48, 0x8b, 0xcb, 0x48,
            0x83, 0xc4, 0x20, 0x5b, 0x48, 0xff, 0xa0, -1, -1, -1, -1, 0x48, 0x83, 0xc4, 0x20,
            0x5b, 0xc3,
    ];
    assert forall|j: int| 0 <= j < bytes.len() implies if bytes[j] < 0 {
        #[trigger] p[j] is None
    } else {
        p[j] == Some(bytes[j] as u8)
    } by {
        assert(j == 0 || j == 1 || j == 2 || j == 3 || j == 4 || j == 5 || j == 6 || j == 7 || j == 8 || j == 9 || j == 10 || j == 11 || j == 12 || j == 13 || j == 14 || j == 15 || j == 16 || j == 17 || j == 18 || j == 19 || j == 20 || j == 21 || j == 22 || j == 23 || j == 24 || j == 25 || j == 26 || j == 27 || j == 28 || j == 29 || j == 30 || j == 31 || j == 32 || j == 33 || j == 34 || j == 35 || j == 36 || j == 37 || j == 38 || j == 39 || j == 40 || j == 41 || j == 42 || j == 43 || j == 44 || j == 45);
    }
}

/// The branch around the minimized window, with what follows it.
pub proof fn show_window_is_known()
    ensures
        pattern_of(D3D9_SHOW_WINDOW@) matches Some(p) && spells(
            p,
            seq![
            0x0f, 0x84, -1, -1, -1, -1, 0x48, 0x8b, 0x8b, -1, -1, -1, -1, 0xba, 0x07, 0x00,
            0x00, 0x00,
            ],
        ),
{
    reveal_strlit("0F 84 ?? ?? ?? ?? 48 8B 8B ?? ?? ?? ?? BA 07 00 00 00");
    let text = "0F 84 ?? ?? ?? ?? 48 8B 8B ?? ?? ?? ?? BA 07 00 00 00"@;
    first_word(text);
    next_word(text, 0, 0, 3, Some(0x0f));
    next_word(text, 1, 3, 6, Some(0x84));
    next_word(text, 2, 6, 9, None);
    next_word(text, 3, 9, 12, None);
    next_word(text, 4, 12, 15, None);
    next_word(text, 5, 15, 18, None);
    next_word(text, 6, 18, 21, Some(0x48));
    next_word(text, 7, 21, 24, Some(0x8b));
    next_word(text, 8, 24, 27, Some(0x8b));
    next_word(text, 9, 27, 30, None);
    next_word(text, 10, 30, 33, None);
    next_word(text, 11, 33, 36, None);
    next_word(text, 12, 36, 39, None);
    next_word(text, 13, 39, 42, Some(0xba));
    next_word(text, 14, 42, 45, Some(0x07));
    next_word(text, 15, 45, 48, Some(0x00));
    next_word(text, 16, 48, 51, Some(0x00));
    next_word(text, 17, 51, 53, Some(0x00));
    last_word(text, 18);
    assert(D3D9_SHOW_WINDOW@ == text);
    let p = pattern_of(text)->0;
    assert(p[0] == Some(0x0fu8));
    assert(p[1] == Some(0x84u8));
    assert(p[2] is None);
    assert(p[3] is None);
    assert(p[4] is None);
    assert(p[5] is None);
    assert(p[6] == Some(0x48u8));
    assert(p[7] == Some(0x8bu8));
    assert(p[8] == Some(0x8bu8));
    assert(p[9] is None);
    assert(p[10] is None);
    assert(p[11] is None);
    assert(p[12] is None);
    assert(p[13] == Some(0xbau8));
    assert(p[14] == Some(0x07u8));
    assert(p[15] == Some(0x00u8));
    assert(p[16] == Some(0x00u8));
    assert(p[17] == Some(0x00u8));
    let bytes: Seq<int> = seq![
            0x0f, 0x84, -1, -1, -1, -1, 0x48, 0x8b, 0x8b, -1, -1, -1, -1, 0xba, 0x07, 0x00,
            0x00, 0x00,
    ];
    assert forall|j: int| 0 <= j < bytes.len() implies if bytes[j] < 0 {
        #[trigger] p[j] is None
    } else {
        p[j] == Some(bytes[j] as u8)
    } by {
        assert(j == 0 || j == 1 || j == 2 || j == 3 || j == 4 || j == 5 || j == 6 || j == 7 || j == 8 || j == 9 || j == 10 || j == 11 || j == 12 || j == 13 || j == 14 || j == 15 || j == 16 || j == 17);
    }
}

/// The branch that gives the video mode up is patched where the virtual is
/// found and its branch is in place: 20 bytes in, from a conditional jump to
/// one that is always taken.
pub proof fn the_release_is_patched(engine: LiveView, slot: int, f: int, b: Seq<u8>)
    requires
        engine.virtual_of(
            encode_utf8(".?AVCVideoMode_MaterialSystem@@"@),
            patterns_of(seq![RELEASE_VIDEO]),
            0x40,
        ) == Some((slot, f)),
        0 <= f,
        f + 22 <= engine.pe.image_size,
        engine.live_bytes(f + 20, 2) == Some(b),
        b[0] == 0x75,
        b.len() == 2,
    ensures
        release_patch(engine) matches Ok((rva, p)) && rva == f + 20 && p.address == engine.base + f
            + 20 && p.original == seq![0x75u8] && p.replacement == seq![0xebu8],
{
    assert(b.take(1) =~= seq![0x75u8]);
}

/// The branch around the minimized window is patched where it is found: from a
/// conditional jump to one that is always taken, behind a NOP.
pub proof fn the_window_is_patched(d3d9: LiveView, rva: u64, bytes: Seq<u8>)
    requires
        d3d9.unique_of(patterns_of(seq![D3D9_SHOW_WINDOW]), Access::Code) == Some((rva, bytes)),
        bytes.len() >= 2,
        bytes[0] == 0x0f,
        bytes[1] == 0x84,
        rva + 2 <= d3d9.pe.image_size,
        d3d9.live_bytes(rva as int, 2) == Some(seq![0x0fu8, 0x84u8]),
    ensures
        show_patch(d3d9) matches Ok((at, p)) && at == rva && p.address == d3d9.base + rva
            && p.original == seq![0x0fu8, 0x84u8] && p.replacement == seq![0x90u8, 0xe9u8],
{
}

} // verus!
