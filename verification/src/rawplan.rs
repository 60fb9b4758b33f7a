//! Where the Windows raw-input hooks go.
//!
//! Everything is resolved before the first hook is installed, so a game build
//! that does not look as expected is left untouched.
use vstd::prelude::*;
use vstd::utf8::encode_utf8;

use crate::convar::{rawinput_value, resolve_m_rawinput};
use crate::live::{LiveModule, LiveView};
use crate::pe::Access;
use crate::sig::{first_word, last_word, next_word, pattern_of, patterns_of, spells};
use crate::text::cat;

verus! {

/// The start of `CInputSystem::WindowProc`.
pub const WINDOW_PROC_PATTERN: &'static str =
    "44 89 44 24 ?? 48 89 54 24 ?? 55 56 57 41 56 41 57";

/// `CInputSystem::GetRawMouseAccumulators`.
pub const GET_RAW_PATTERN: &'static str = "8B 81 DC 48 00 00 89 02 8B 81 E0 48 00 00 41 89 00";

/// `CInput::IN_SetSampleTime`.
pub const SET_SAMPLE_PATTERN: &'static str = "F3 0F 11 49 20 C3";

/// Class of the accumulator.
pub const INPUT_SYSTEM_CLASS: &'static str = ".?AVCInputSystem@@";

/// Classes of the sample-time slot.
pub const INPUT_CLASS: &'static str = ".?AVCInput@@";

pub const CS_INPUT_CLASS: &'static str = ".?AVCCSInput@@";

/// What is hooked, and what stands there.
pub struct RawPlan {
    /// The window procedure and its first bytes.
    pub window: u64,
    pub window_bytes: Vec<u8>,
    /// The accumulator's slot and code.
    pub get_slot: u64,
    pub get_original: u64,
    /// The sample-time slots and their common code.
    pub first_slot: u64,
    pub second_slot: u64,
    pub sample_original: u64,
    /// The value of `m_rawinput`.
    pub rawinput: u64,
}

/// The value of a `RawPlan`.
#[verifier::ext_equal]
pub struct RawPlanView {
    pub window: int,
    pub window_bytes: Seq<u8>,
    pub get_slot: int,
    pub get_original: int,
    pub first_slot: int,
    pub second_slot: int,
    pub sample_original: int,
    pub rawinput: int,
}

impl View for RawPlan {
    type V = RawPlanView;

    open spec fn view(&self) -> RawPlanView {
        RawPlanView {
            window: self.window as int,
            window_bytes: self.window_bytes@,
            get_slot: self.get_slot as int,
            get_original: self.get_original as int,
            first_slot: self.first_slot as int,
            second_slot: self.second_slot as int,
            sample_original: self.sample_original as int,
            rawinput: self.rawinput as int,
        }
    }
}

/// Slot and code of a sample-time virtual.
pub open spec fn sample_of(client: LiveView, class: Seq<char>) -> Option<(int, int)> {
    client.virtual_of(encode_utf8(class), patterns_of(seq![SET_SAMPLE_PATTERN]), 16)
}

/// The two sample-time slots and their code: both classes have one, in two
/// slots, of one implementation.
pub open spec fn samples(client: LiveView) -> Result<(int, int, int), Seq<char>> {
    match sample_of(client, INPUT_CLASS@) {
        None => Err(INPUT_CLASS@ + "::IN_SetSampleTime vtable slot is missing"@),
        Some(a) => match sample_of(client, CS_INPUT_CLASS@) {
            None => Err(CS_INPUT_CLASS@ + "::IN_SetSampleTime vtable slot is missing"@),
            Some(b) => if a == b {
                Err("CInput sample-time vtables did not resolve exactly twice"@)
            } else if a.1 != b.1 {
                Err("CInput sample-time vtables do not share one validated implementation"@)
            } else {
                Ok((a.0, b.0, a.1))
            },
        },
    }
}

/// The places of what was found, or the first that is invalid.
pub open spec fn placed(
    system: LiveView,
    client: LiveView,
    window: (u64, Seq<u8>),
    get: (int, int),
    sample: (int, int, int),
    rawinput: int,
) -> Result<RawPlanView, Seq<char>> {
    if system.address(get.1) is None {
        Err("raw-input function RVA is invalid"@)
    } else if client.address(sample.2) is None {
        Err("sample-time function RVA is invalid"@)
    } else if system.address(window.0 as int) is None {
        Err("window-proc function RVA is invalid"@)
    } else if system.address(get.0) is None {
        Err("raw-input vtable slot RVA is invalid"@)
    } else if client.address(sample.0) is None || client.address(sample.1) is None {
        Err("sample-time vtable slot RVA is invalid"@)
    } else {
        Ok(
            RawPlanView {
                window: system.address(window.0 as int)->0,
                window_bytes: window.1,
                get_slot: system.address(get.0)->0,
                get_original: system.address(get.1)->0,
                first_slot: client.address(sample.0)->0,
                second_slot: client.address(sample.1)->0,
                sample_original: client.address(sample.2)->0,
                rawinput,
            },
        )
    }
}

/// Where the hooks go, or the first thing that is wrong.
pub open spec fn raw_plan(system: LiveView, client: LiveView) -> Result<RawPlanView, Seq<char>> {
    match system.unique_of(patterns_of(seq![WINDOW_PROC_PATTERN]), Access::Code) {
        None => Err("CInputSystem::WindowProc signature is missing or ambiguous"@),
        Some(window) => match system.virtual_of(
            encode_utf8(INPUT_SYSTEM_CLASS@),
            patterns_of(seq![GET_RAW_PATTERN]),
            32,
        ) {
            None => Err("CInputSystem::GetRawMouseAccumulators vtable slot is missing"@),
            Some(get) => match samples(client) {
                Err(e) => Err(e),
                Ok(sample) => match rawinput_value(client) {
                    Err(e) => Err(e),
                    Ok(value) => placed(system, client, window, get, sample, value),
                },
            },
        },
    }
}

/// The two sample-time slots and their code.
fn find_samples(client: &LiveModule) -> (r: Result<(u64, u64, u64), String>)
    ensures
        match r {
            Ok((a, b, f)) => samples(client@) == Ok::<(int, int, int), Seq<char>>(
                (a as int, b as int, f as int),
            ),
            Err(e) => samples(client@) == Err::<(int, int, int), Seq<char>>(e@),
        },
{
    let specs: [&str; 1] = [SET_SAMPLE_PATTERN];
    assert(specs@ =~= seq![SET_SAMPLE_PATTERN]);
    let a: (u64, u64) = match client.resolve_virtual(INPUT_CLASS, &specs, 16) {
        None => {
            return Err(cat(INPUT_CLASS, "::IN_SetSampleTime vtable slot is missing"));
        },
        Some(a) => a,
    };
    let b: (u64, u64) = match client.resolve_virtual(CS_INPUT_CLASS, &specs, 16) {
        None => {
            return Err(cat(CS_INPUT_CLASS, "::IN_SetSampleTime vtable slot is missing"));
        },
        Some(b) => b,
    };
    if a.0 == b.0 && a.1 == b.1 {
        return Err("CInput sample-time vtables did not resolve exactly twice".to_owned());
    }
    if a.1 != b.1 {
        return Err(
            "CInput sample-time vtables do not share one validated implementation".to_owned(),
        );
    }
    Ok((a.0, b.0, a.1))
}

/// A plan or what is wrong, as a value.
pub open spec fn plan_view(r: Result<RawPlan, String>) -> Result<RawPlanView, Seq<char>> {
    match r {
        Ok(p) => Ok(p@),
        Err(e) => Err(e@),
    }
}

/// Works out where the hooks go.
pub fn plan_rawinput(system: &LiveModule, client: &LiveModule) -> (r: Result<RawPlan, String>)
    ensures
        plan_view(r) == raw_plan(system@, client@),
{
    let window_specs: [&str; 1] = [WINDOW_PROC_PATTERN];
    assert(window_specs@ =~= seq![WINDOW_PROC_PATTERN]);
    let (window_rva, window_bytes) = match system.find_unique(&window_specs, Access::Code) {
        None => {
            return Err("CInputSystem::WindowProc signature is missing or ambiguous".to_owned());
        },
        Some(x) => x,
    };
    let get_specs: [&str; 1] = [GET_RAW_PATTERN];
    assert(get_specs@ =~= seq![GET_RAW_PATTERN]);
    let (get_slot_rva, get_rva) = match system.resolve_virtual(
        INPUT_SYSTEM_CLASS,
        &get_specs,
        32,
    ) {
        None => {
            return Err("CInputSystem::GetRawMouseAccumulators vtable slot is missing".to_owned());
        },
        Some(x) => x,
    };
    let (first_rva, second_rva, sample_rva) = match find_samples(client) {
        Err(e) => {
            return Err(e);
        },
        Ok(x) => x,
    };
    let rawinput: u64 = match resolve_m_rawinput(client) {
        Err(e) => {
            return Err(e);
        },
        Ok(x) => x,
    };
    let get_original: u64 = match system.address(get_rva) {
        None => {
            return Err("raw-input function RVA is invalid".to_owned());
        },
        Some(x) => x,
    };
    let sample_original: u64 = match client.address(sample_rva) {
        None => {
            return Err("sample-time function RVA is invalid".to_owned());
        },
        Some(x) => x,
    };
    let window: u64 = match system.address(window_rva) {
        None => {
            return Err("window-proc function RVA is invalid".to_owned());
        },
        Some(x) => x,
    };
    let get_slot: u64 = match system.address(get_slot_rva) {
        None => {
            return Err("raw-input vtable slot RVA is invalid".to_owned());
        },
        Some(x) => x,
    };
    match (client.address(first_rva), client.address(second_rva)) {
        (Some(first_slot), Some(second_slot)) => {
            let plan: RawPlan = RawPlan {
                window,
                window_bytes,
                get_slot,
                get_original,
                first_slot,
                second_slot,
                sample_original,
                rawinput,
            };
            Ok(plan)
        },
        _ => Err("sample-time vtable slot RVA is invalid".to_owned()),
    }
}

/// The start of the window procedure on Windows.
pub proof fn window_procedure_is_known()
    ensures
        pattern_of(WINDOW_PROC_PATTERN@) matches Some(p) && spells(
            p,
            seq![
            0x44, 0x89, 0x44, 0x24, -1, 0x48, 0x89, 0x54, 0x24, -1, 0x55, 0x56, 0x57, 0x41,
            0x56, 0x41, 0x57,
            ],
        ),
{
    reveal_strlit("44 89 44 24 ?? 48 89 54 24 ?? 55 56 57 41 56 41 57");
    let text = "44 89 44 24 ?? 48 89 54 24 ?? 55 56 57 41 56 41 57"@;
    first_word(text);
    next_word(text, 0, 0, 3, Some(0x44));
    next_word(text, 1, 3, 6, Some(0x89));
    next_word(text, 2, 6, 9, Some(0x44));
    next_word(text, 3, 9, 12, Some(0x24));
    next_word(text, 4, 12, 15, None);
    next_word(text, 5, 15, 18, Some(0x48));
    next_word(text, 6, 18, 21, Some(0x89));
    next_word(text, 7, 21, 24, Some(0x54));
    next_word(text, 8, 24, 27, Some(0x24));
    next_word(text, 9, 27, 30, None);
    next_word(text, 10, 30, 33, Some(0x55));
    next_word(text, 11, 33, 36, Some(0x56));
    next_word(text, 12, 36, 39, Some(0x57));
    next_word(text, 13, 39, 42, Some(0x41));
    next_word(text, 14, 42, 45, Some(0x56));
    next_word(text, 15, 45, 48, Some(0x41));
    next_word(text, 16, 48, 50, Some(0x57));
    last_word(text, 17);
    assert(WINDOW_PROC_PATTERN@ == text);
    let p = pattern_of(text)->0;
    assert(p[0] == Some(0x44u8));
    assert(p[1] == Some(0x89u8));
    assert(p[2] == Some(0x44u8));
    assert(p[3] == Some(0x24u8));
    assert(p[4] is None);
    assert(p[5] == Some(0x48u8));
    assert(p[6] == Some(0x89u8));
    assert(p[7] == Some(0x54u8));
    assert(p[8] == Some(0x24u8));
    assert(p[9] is None);
    assert(p[10] == Some(0x55u8));
    assert(p[11] == Some(0x56u8));
    assert(p[12] == Some(0x57u8));
    assert(p[13] == Some(0x41u8));
    assert(p[14] == Some(0x56u8));
    assert(p[15] == Some(0x41u8));
    assert(p[16] == Some(0x57u8));
    let bytes: Seq<int> = seq![
            0x44, 0x89, 0x44, 0x24, -1, 0x48, 0x89, 0x54, 0x24, -1, 0x55, 0x56, 0x57, 0x41,
            0x56, 0x41, 0x57,
    ];
    assert forall|j: int| 0 <= j < bytes.len() implies if bytes[j] < 0 {
        #[trigger] p[j] is None
    } else {
        p[j] == Some(bytes[j] as u8)
    } by {
        assert(j == 0 || j == 1 || j == 2 || j == 3 || j == 4 || j == 5 || j == 6 || j == 7 || j == 8 || j == 9 || j == 10 || j == 11 || j == 12 || j == 13 || j == 14 || j == 15 || j == 16);
    }
}

/// The accumulator on Windows: it hands out the words at 48DCh and 48E0h.
pub proof fn accumulator_is_known()
    ensures
        pattern_of(GET_RAW_PATTERN@) matches Some(p) && spells(
            p,
            seq![
            0x8b, 0x81, 0xdc, 0x48, 0x00, 0x00, 0x89, 0x02, 0x8b, 0x81, 0xe0, 0x48, 0x00, 0x00,
            0x41, 0x89, 0x00,
            ],
        ),
{
    reveal_strlit("8B 81 DC 48 00 00 89 02 8B 81 E0 48 00 00 41 89 00");
    let text = "8B 81 DC 48 00 00 89 02 8B 81 E0 48 00 00 41 89 00"@;
    first_word(text);
    next_word(text, 0, 0, 3, Some(0x8b));
    next_word(text, 1, 3, 6, Some(0x81));
    next_word(text, 2, 6, 9, Some(0xdc));
    next_word(text, 3, 9, 12, Some(0x48));
    next_word(text, 4, 12, 15, Some(0x00));
    next_word(text, 5, 15, 18, Some(0x00));
    next_word(text, 6, 18, 21, Some(0x89));
    next_word(text, 7, 21, 24, Some(0x02));
    next_word(text, 8, 24, 27, Some(0x8b));
    next_word(text, 9, 27, 30, Some(0x81));
    next_word(text, 10, 30, 33, Some(0xe0));
    next_word(text, 11, 33, 36, Some(0x48));
    next_word(text, 12, 36, 39, Some(0x00));
    next_word(text, 13, 39, 42, Some(0x00));
    next_word(text, 14, 42, 45, Some(0x41));
    next_word(text, 15, 45, 48, Some(0x89));
    next_word(text, 16, 48, 50, Some(0x00));
    last_word(text, 17);
    assert(GET_RAW_PATTERN@ == text);
    let p = pattern_of(text)->0;
    assert(p[0] == Some(0x8bu8));
    assert(p[1] == Some(0x81u8));
    assert(p[2] == Some(0xdcu8));
    assert(p[3] == Some(0x48u8));
    assert(p[4] == Some(0x00u8));
    assert(p[5] == Some(0x00u8));
    assert(p[6] == Some(0x89u8));
    assert(p[7] == Some(0x02u8));
    assert(p[8] == Some(0x8bu8));
    assert(p[9] == Some(0x81u8));
    assert(p[10] == Some(0xe0u8));
    assert(p[11] == Some(0x48u8));
    assert(p[12] == Some(0x00u8));
    assert(p[13] == Some(0x00u8));
    assert(p[14] == Some(0x41u8));
    assert(p[15] == Some(0x89u8));
    assert(p[16] == Some(0x00u8));
    let bytes: Seq<int> = seq![
            0x8b, 0x81, 0xdc, 0x48, 0x00, 0x00, 0x89, 0x02, 0x8b, 0x81, 0xe0, 0x48, 0x00, 0x00,
            0x41, 0x89, 0x00,
    ];
    assert forall|j: int| 0 <= j < bytes.len() implies if bytes[j] < 0 {
        #[trigger] p[j] is None
    } else {
        p[j] == Some(bytes[j] as u8)
    } by {
        assert(j == 0 || j == 1 || j == 2 || j == 3 || j == 4 || j == 5 || j == 6 || j == 7 || j == 8 || j == 9 || j == 10 || j == 11 || j == 12 || j == 13 || j == 14 || j == 15 || j == 16);
    }
}

/// The sample time on Windows: `movss [rcx+20h], xmm1` and a return.
pub proof fn sample_time_is_known()
    ensures
        pattern_of(SET_SAMPLE_PATTERN@) matches Some(p) && spells(
            p,
            seq![
            0xf3, 0x0f, 0x11, 0x49, 0x20, 0xc3,
            ],
        ),
{
    reveal_strlit("F3 0F 11 49 20 C3");
    let text = "F3 0F 11 49 20 C3"@;
    first_word(text);
    next_word(text, 0, 0, 3, Some(0xf3));
    next_word(text, 1, 3, 6, Some(0x0f));
    next_word(text, 2, 6, 9, Some(0x11));
    next_word(text, 3, 9, 12, Some(0x49));
    next_word(text, 4, 12, 15, Some(0x20));
    next_word(text, 5, 15, 17, Some(0xc3));
    last_word(text, 6);
    assert(SET_SAMPLE_PATTERN@ == text);
    let p = pattern_of(text)->0;
    assert(p[0] == Some(0xf3u8));
    assert(p[1] == Some(0x0fu8));
    assert(p[2] == Some(0x11u8));
    assert(p[3] == Some(0x49u8));
    assert(p[4] == Some(0x20u8));
    assert(p[5] == Some(0xc3u8));
    let bytes: Seq<int> = seq![
            0xf3, 0x0f, 0x11, 0x49, 0x20, 0xc3,
    ];
    assert forall|j: int| 0 <= j < bytes.len() implies if bytes[j] < 0 {
        #[trigger] p[j] is None
    } else {
        p[j] == Some(bytes[j] as u8)
    } by {
        assert(j == 0 || j == 1 || j == 2 || j == 3 || j == 4 || j == 5);
    }
}

/// The two sample-time slots are found where both classes have one, in two
/// slots of one implementation.
pub proof fn both_slots_are_found(client: LiveView, a: int, b: int, f: int)
    requires
        sample_of(client, ".?AVCInput@@"@) == Some((a, f)),
        sample_of(client, ".?AVCCSInput@@"@) == Some((b, f)),
        a != b,
    ensures
        samples(client) == Ok::<(int, int, int), Seq<char>>((a, b, f)),
{
}

/// What was found is hooked where it is loaded: each place is the module's base
/// and its place in the module.
pub proof fn hooks_go_where_the_modules_are(
    system: LiveView,
    client: LiveView,
    window: (u64, Seq<u8>),
    get: (int, int),
    sample: (int, int, int),
    rawinput: int,
)
    requires
        0 <= window.0 < system.pe.image_size,
        0 <= get.0 < system.pe.image_size,
        0 <= get.1 < system.pe.image_size,
        0 <= sample.0 < client.pe.image_size,
        0 <= sample.1 < client.pe.image_size,
        0 <= sample.2 < client.pe.image_size,
    ensures
        placed(system, client, window, get, sample, rawinput) == Ok::<RawPlanView, Seq<char>>(
            RawPlanView {
                window: system.base + window.0,
                window_bytes: window.1,
                get_slot: system.base + get.0,
                get_original: system.base + get.1,
                first_slot: client.base + sample.0,
                second_slot: client.base + sample.1,
                sample_original: client.base + sample.2,
                rawinput,
            },
        ),
{
}

/// The plan is made where the window procedure, the accumulator, the two
/// sample-time slots and the variable are all found.
pub proof fn the_plan_is_made(
    system: LiveView,
    client: LiveView,
    window: (u64, Seq<u8>),
    get: (int, int),
    sample: (int, int, int),
    value: int,
)
    requires
        system.unique_of(patterns_of(seq![WINDOW_PROC_PATTERN]), Access::Code) == Some(window),
        system.virtual_of(
            encode_utf8(".?AVCInputSystem@@"@),
            patterns_of(seq![GET_RAW_PATTERN]),
            32,
        ) == Some(get),
        samples(client) == Ok::<(int, int, int), Seq<char>>(sample),
        rawinput_value(client) == Ok::<int, Seq<char>>(value),
    ensures
        raw_plan(system, client) == placed(system, client, window, get, sample, value),
{
}

} // verus!
