//! The Linux side of the resolvers, on small modules that are put together here.
use bunnyhopfix::elf::{Access, Module};
use bunnyhopfix::engine::{
    check_engine_client, engine_region, find_clientcmd, in_engine, resolve_dlmgr,
    resolve_engine_client, Candidate, ClientFault,
};
use bunnyhopfix::procfs::parse_maps;
use bunnyhopfix::punchpatch::{armed_line, find_punch, plan_punch};
use bunnyhopfix::serverinfo::{intercept, resolve_target, PROLOGUE_LEN};
use bunnyhopfix::slot::{got_hook, vtable_hook};
use bunnyhopfix::viewpunch::{find_addss, punch_sites, select_punch_sites, Site};
use bunnyhopfix::vtable::{resolve_createmove, resolve_getrawaccum, resolve_virtual};

const RODATA: u64 = 0x1000;
const RODATA_LEN: usize = 0x2000;
const TEXT: u64 = 0x3000;
const TEXT_LEN: usize = 0x2000;
const DATA_OFF: u64 = 0x5000;
const DATA: u64 = 0x8000;
const DATA_LEN: usize = 0x2000;
const DATA_MEM: u64 = 0x3000;

/// An ELF64 shared object with a read-only, an executable and a writable
/// segment. The file offset of the last differs from its address.
struct Builder {
    rodata: Vec<u8>,
    text: Vec<u8>,
    data: Vec<u8>,
    relative: Vec<(u64, u64)>,
    imports: Vec<(String, u64)>,
}

fn put(v: &mut [u8], at: usize, bytes: &[u8]) {
    v[at..at + bytes.len()].copy_from_slice(bytes);
}

impl Builder {
    fn new() -> Builder {
        Builder {
            rodata: vec![0],
            text: Vec::new(),
            data: Vec::new(),
            relative: Vec::new(),
            imports: Vec::new(),
        }
    }

    /// Adds a function, with more room behind it than any search looks at.
    fn function(&mut self, body: &[u8]) -> u64 {
        let at = TEXT + self.text.len() as u64;
        self.text.extend_from_slice(body);
        let len = self.text.len().div_ceil(0x200) * 0x200;
        self.text.resize(len, 0xcc);
        at
    }

    /// Adds a class with one vtable; gives where its typeinfo slot stands.
    fn class(&mut self, mangled: &str, virtuals: &[u64]) -> u64 {
        let name = RODATA + self.rodata.len() as u64;
        self.rodata.extend_from_slice(mangled.as_bytes());
        self.rodata.push(0);
        let typeinfo = DATA + self.data.len() as u64;
        self.data.extend_from_slice(&0u64.to_le_bytes());
        self.data.extend_from_slice(&name.to_le_bytes());
        self.relative.push((typeinfo + 8, name));
        // offset to top, typeinfo, virtuals
        self.data.extend_from_slice(&0u64.to_le_bytes());
        let slot = DATA + self.data.len() as u64;
        self.data.extend_from_slice(&typeinfo.to_le_bytes());
        self.relative.push((slot, typeinfo));
        for f in virtuals {
            self.data.extend_from_slice(&f.to_le_bytes());
        }
        self.data.extend_from_slice(&0u64.to_le_bytes());
        slot
    }

    /// Adds an imported function; gives the slot that its address goes to.
    fn import(&mut self, name: &str) -> u64 {
        let slot = DATA + self.data.len() as u64;
        self.data.extend_from_slice(&0u64.to_le_bytes());
        self.imports.push((name.to_string(), slot));
        slot
    }

    fn bytes(&self) -> Vec<u8> {
        let mut rodata = self.rodata.clone();
        // strings, symbols, relocations, dynamic table
        let strings = RODATA + rodata.len() as u64;
        rodata.push(0);
        let mut names = Vec::new();
        for (name, _) in &self.imports {
            names.push((rodata.len() as u64 + RODATA - strings) as u32);
            rodata.extend_from_slice(name.as_bytes());
            rodata.push(0);
        }
        rodata.extend_from_slice(&[0; 96]);
        let symbols = RODATA + rodata.len() as u64;
        rodata.extend_from_slice(&[0; 24]);
        for n in &names {
            let mut sym = [0u8; 24];
            sym[..4].copy_from_slice(&n.to_le_bytes());
            rodata.extend_from_slice(&sym);
        }
        let rela = RODATA + rodata.len() as u64;
        for (slot, target) in &self.relative {
            rodata.extend_from_slice(&slot.to_le_bytes());
            rodata.extend_from_slice(&8u64.to_le_bytes());
            rodata.extend_from_slice(&target.to_le_bytes());
        }
        let rela_len = 24 * self.relative.len() as u64;
        let jmprel = RODATA + rodata.len() as u64;
        for (i, (_, slot)) in self.imports.iter().enumerate() {
            rodata.extend_from_slice(&slot.to_le_bytes());
            let info = ((i as u64 + 1) << 32) | 7;
            rodata.extend_from_slice(&info.to_le_bytes());
            rodata.extend_from_slice(&0u64.to_le_bytes());
        }
        let jmprel_len = 24 * self.imports.len() as u64;
        let dynamic = RODATA + rodata.len() as u64;
        for (tag, value) in [
            (7u64, rela),
            (8, rela_len),
            (23, jmprel),
            (2, jmprel_len),
            (6, symbols),
            (5, strings),
            (11, 24),
            (0, 0),
        ] {
            rodata.extend_from_slice(&tag.to_le_bytes());
            rodata.extend_from_slice(&value.to_le_bytes());
        }
        let dynamic_len = 16 * 8u64;
        assert!(rodata.len() <= RODATA_LEN);
        rodata.resize(RODATA_LEN, 0);

        let mut file = vec![0u8; DATA_OFF as usize + DATA_LEN];
        put(&mut file, 0, b"\x7fELF\x02");
        put(&mut file, 32, &64u64.to_le_bytes());
        put(&mut file, 54, &56u16.to_le_bytes());
        put(&mut file, 56, &4u16.to_le_bytes());
        let headers: [(u32, u32, u64, u64, u64, u64); 4] = [
            (1, 4, RODATA, RODATA, RODATA_LEN as u64, RODATA_LEN as u64),
            (1, 5, TEXT, TEXT, TEXT_LEN as u64, TEXT_LEN as u64),
            (1, 6, DATA_OFF, DATA, DATA_LEN as u64, DATA_MEM),
            (2, 4, dynamic, dynamic, dynamic_len, dynamic_len),
        ];
        for (i, (ty, flags, off, va, fsz, msz)) in headers.into_iter().enumerate() {
            let at = 64 + 56 * i;
            put(&mut file, at, &ty.to_le_bytes());
            put(&mut file, at + 4, &flags.to_le_bytes());
            put(&mut file, at + 8, &off.to_le_bytes());
            put(&mut file, at + 16, &va.to_le_bytes());
            put(&mut file, at + 32, &fsz.to_le_bytes());
            put(&mut file, at + 40, &msz.to_le_bytes());
        }
        put(&mut file, RODATA as usize, &rodata);
        put(&mut file, TEXT as usize, &self.text);
        put(&mut file, DATA_OFF as usize, &self.data);
        file
    }

    fn open(&self) -> Module {
        match Module::open(self.bytes()) {
            Some(m) => m,
            None => panic!("the module is an ELF"),
        }
    }
}

/// A body that adds a stretch of code around `parts`.
fn body(parts: &[&[u8]]) -> Vec<u8> {
    let mut b = vec![0x55, 0x48, 0x89, 0xe5];
    for p in parts {
        b.extend_from_slice(p);
        b.push(0x90);
    }
    b.push(0xc3);
    b
}

fn createmove_body() -> Vec<u8> {
    body(&[
        &[0xf3, 0x0f, 0x11, 0x85, 1, 2, 3, 4],
        &[0x48, 0x69, 0xc0, 0xb7, 0x60, 0x0b, 0xb6],
        &[0x6b, 0xc0, 0x5a],
    ])
}

const GETRAW: [u8; 19] = [
    0x8b, 0x47, 0x48, 0x89, 0x06, 0x8b, 0x47, 0x4c, 0x89, 0x02, 0x48, 0xc7, 0x47, 0x48, 0, 0, 0, 0,
    0xc3,
];

const PROLOGUE: [u8; 19] = [
    0x55, 0x48, 0x89, 0xe5, 0x41, 0x55, 0x41, 0x54, 0x49, 0x89, 0xfc, 0x53, 0x48, 0x89, 0xf3, 0x48,
    0x83, 0xec, 0x18,
];

fn server_info_body(md5: u8) -> Vec<u8> {
    let mut b = PROLOGUE.to_vec();
    b.extend_from_slice(&[0x90; 40]);
    b.extend_from_slice(&[
        0xf3, 0x0f, 0x6f, 0x53, md5, 0x41, 0x0f, 0x11, 0x94, 0x24, 0x10, 0x20, 0, 0,
    ]);
    b.push(0xc3);
    b
}

fn client() -> (Module, u64, [u64; 2]) {
    let mut b = Builder::new();
    let other = b.function(&[0x31, 0xc0, 0xc3]);
    let create = b.function(&createmove_body());
    let input = b.class("6CInput", &[other, other, other, create]);
    let cs_input = b.class("8CCSInput", &[other, other, other, create, other]);
    (b.open(), create, [input + 32, cs_input + 32])
}

fn launcher() -> (Module, u64, u64, u64) {
    let mut b = Builder::new();
    let other = b.function(&[0x31, 0xc0, 0xc3]);
    let accumulators = b.function(&GETRAW);
    let table = b.class("7CSDLMgr", &[other, accumulators, other]);
    let poll = b.import("SDL_PollEvent");
    let flash = b.import("SDL_FlashWindow");
    assert!(poll != flash);
    (b.open(), table + 16, accumulators, poll)
}

fn engine() -> (Module, u64, u64) {
    let mut b = Builder::new();
    let other = b.function(&[0x31, 0xc0, 0xc3]);
    let handler = b.function(&server_info_body(0x38));
    b.class("13CEngineClient", &[other]);
    let manager = b.class("16CDownloadManager", &[other, other]);
    b.class("12CClientState", &[other, handler]);
    (b.open(), handler, manager)
}

#[test]
fn engine_engine_glue_classes_exist() {
    let (m, _, _) = engine();
    assert!(
        m.vtable("13CEngineClient").is_some(),
        "CEngineClient vtable"
    );
    assert!(
        m.vtable("16CDownloadManager").is_some(),
        "CDownloadManager vtable"
    );
}

#[test]
fn lib_engine_glue_classes_exist() {
    let (m, _, manager) = engine();
    assert!(
        m.vtable("13CEngineClient").is_some(),
        "CEngineClient vtable"
    );
    assert!(
        m.vtable("16CDownloadManager").is_some(),
        "CDownloadManager vtable"
    );
    assert_eq!(m.vtable("16CDownloadManager"), Some(manager));
    assert_eq!(m.vtable("16CDownloadManagerX"), None);
}

#[test]
fn fastdl_process_server_info_resolves_and_yields_the_md5_offset() {
    let (m, handler, _) = engine();
    let (fn_va, md5_off) = resolve_target(&m).expect("CClientState::ProcessServerInfo");
    assert!(
        m.is_exec(fn_va),
        "ProcessServerInfo 0x{fn_va:x} is not code"
    );
    assert!(
        md5_off > 0 && md5_off < 0x400,
        "implausible msg MD5 offset 0x{md5_off:x}"
    );
    assert_eq!((fn_va, md5_off), (handler, 0x38));
}

#[test]
fn lib_process_server_info_resolves_and_yields_the_md5_offset() {
    let mut b = Builder::new();
    let first = b.function(&server_info_body(0x20));
    let decoy = b.function(&PROLOGUE);
    b.class("12CClientState", &[decoy, first]);
    let m = b.open();
    let (fn_va, md5_off) = resolve_target(&m).expect("CClientState::ProcessServerInfo");
    assert!(
        m.is_exec(fn_va),
        "ProcessServerInfo 0x{fn_va:x} is not code"
    );
    assert!(
        md5_off > 0 && md5_off < 0x400,
        "implausible msg MD5 offset 0x{md5_off:x}"
    );
    assert_eq!((fn_va, md5_off), (first, 0x20));
}

#[test]
fn two_handlers_are_refused() {
    let mut b = Builder::new();
    let first = b.function(&server_info_body(0x20));
    let second = b.function(&server_info_body(0x28));
    b.class("12CClientState", &[first, second]);
    assert_eq!(resolve_target(&b.open()), None);
}

#[test]
fn rawinput_sdl_pollevent_got_slot_comes_from_a_relocation() {
    let (m, _, _, poll) = launcher();
    let slot = m
        .jump_slot("SDL_PollEvent")
        .expect("launcher.so imports SDL_PollEvent");
    assert!(
        m.u64_va(slot).is_some(),
        "slot 0x{slot:x} outside the image"
    );
    assert_eq!(slot, poll);
}

#[test]
fn lib_sdl_pollevent_got_slot_comes_from_a_relocation() {
    let (m, _, _, poll) = launcher();
    let slot = m
        .jump_slot("SDL_PollEvent")
        .expect("launcher.so imports SDL_PollEvent");
    assert!(
        m.u64_va(slot).is_some(),
        "slot 0x{slot:x} outside the image"
    );
    assert_eq!(m.jump_slot("SDL_FlashWindow"), Some(poll + 8));
    assert_eq!(m.jump_slot("SDL_Poll"), None);
}

#[test]
fn vtable_createmove_resolves_on_every_input_vtable() {
    let (m, create, expected) = client();
    let (fn_va, slots) = resolve_createmove(&m).expect("CInput::CreateMove");
    assert!(m.is_exec(fn_va), "CreateMove 0x{fn_va:x} is not code");
    assert_eq!(
        slots.len(),
        2,
        "expected a slot per input class, got {slots:x?}"
    );
    for s in &slots {
        assert_eq!(m.u64_va(*s), Some(fn_va), "slot 0x{s:x}");
    }
    assert_eq!(fn_va, create);
    assert_eq!(slots, expected.to_vec());
}

#[test]
fn lib_createmove_resolves_on_every_input_vtable() {
    // the derived class overrides it: only the base's slot is the same function
    let mut b = Builder::new();
    let create = b.function(&createmove_body());
    let derived = b.function(&createmove_body());
    let input = b.class("6CInput", &[create]);
    b.class("8CCSInput", &[derived]);
    let m = b.open();
    let (fn_va, slots) = resolve_createmove(&m).expect("CInput::CreateMove");
    assert!(m.is_exec(fn_va), "CreateMove 0x{fn_va:x} is not code");
    assert_eq!(slots, vec![input + 8]);
    for s in slots {
        assert_eq!(m.u64_va(s), Some(fn_va), "slot 0x{s:x}");
    }
    let (both, _, _) = client();
    assert_eq!(resolve_createmove(&both).unwrap().1.len(), 2);
}

#[test]
fn vtable_raw_accumulator_virtual_is_unambiguous() {
    let (m, expected, accumulators, _) = launcher();
    let (slot, fn_va) = resolve_getrawaccum(&m).expect("GetRawMouseAccumulators");
    assert_eq!(m.u64_va(slot), Some(fn_va));
    assert!(m.is_exec(fn_va), "accumulator fn 0x{fn_va:x} is not code");
    assert_eq!((slot, fn_va), (expected, accumulators));
}

#[test]
fn lib_raw_accumulator_virtual_is_unambiguous() {
    let mut b = Builder::new();
    let one = b.function(&GETRAW);
    let two = b.function(&GETRAW);
    b.class("7CSDLMgr", &[one, two]);
    assert_eq!(resolve_getrawaccum(&b.open()), None, "two virtuals match");
    let (m, _, _, _) = launcher();
    let (slot, fn_va) = resolve_getrawaccum(&m).expect("GetRawMouseAccumulators");
    assert_eq!(m.u64_va(slot), Some(fn_va));
    assert!(m.is_exec(fn_va), "accumulator fn 0x{fn_va:x} is not code");
}

#[test]
fn a_virtual_is_found_with_its_body() {
    let (m, create, slots) = client();
    let (slot, f, code) = resolve_virtual(&m, "6CInput", &["48 69 C0 B7 60 0B B6"], 0x20).unwrap();
    assert_eq!((slot, f), (slots[0], create));
    assert_eq!(code[..4], [0x55, 0x48, 0x89, 0xe5]);
    assert!(resolve_virtual(&m, "6CInput", &["31 C0 C3"], 0x10).is_none());
    assert!(resolve_virtual(&m, "7CNobody", &["31 C0 C3"], 0x10).is_none());
    assert!(resolve_virtual(&m, "6CInput", &["XX"], 0x10).is_none());
}

#[test]
fn addresses_are_link_time_addresses() {
    let (m, _, slots) = client();
    // the writable segment stands elsewhere in the file than in memory
    assert!(slots[0] >= DATA);
    assert_eq!(m.read_va(TEXT, 3), Some(vec![0x31, 0xc0, 0xc3]));
    assert_eq!(m.read_va(DATA + DATA_LEN as u64, 1), None);
    assert_eq!(m.u64_va(0x10), None);
    assert_eq!(m.writable_span(), Some((DATA, DATA + DATA_MEM)));
    assert!(m.is_exec(TEXT) && !m.is_exec(TEXT + TEXT_LEN as u64) && !m.is_exec(DATA));
    let code = m.scan(Access::Code, 15);
    // one window, and the overlap at its end
    assert_eq!(code.len(), 2);
    assert_eq!(code[0].0, TEXT);
    assert_eq!(code[0].1.len(), TEXT_LEN);
    assert_eq!(code[1].0, TEXT + TEXT_LEN as u64 - 15);
    assert_eq!(code[1].1.len(), 15);
}

#[test]
fn a_read_stays_in_the_file_backed_part_of_a_segment() {
    let mut b = Builder::new();
    b.function(&[0x31, 0xc0, 0xc3]);
    let mut file = b.bytes();
    // the last bytes of the code, and what follows them in the file
    let end = TEXT + TEXT_LEN as u64;
    put(&mut file, end as usize - 8, &[1, 2, 3, 4, 5, 6, 7, 8]);
    put(&mut file, DATA_OFF as usize, &[9; 16]);
    // half of the writable segment is backed; the file goes on
    put(&mut file, 64 + 56 * 2 + 32, &0x1000u64.to_le_bytes());
    put(&mut file, DATA_OFF as usize + 0x1000 - 2, &[10, 11, 12, 13]);
    let m = match Module::open(file) {
        Some(m) => m,
        None => panic!("the module is an ELF"),
    };
    assert_eq!(m.read_va(end - 2, 2), Some(vec![7, 8]));
    assert_eq!(m.read_va(end - 2, 3), None);
    assert_eq!(m.read_va(end - 1, 2), None);
    assert_eq!(m.u64_va(end - 8), Some(0x0807_0605_0403_0201));
    assert_eq!(m.u64_va(end - 7), None);
    assert_eq!(m.read_va(DATA, 16), Some(vec![9; 16]));
    assert_eq!(m.read_va(DATA + 0x1000 - 2, 2), Some(vec![10, 11]));
    assert_eq!(m.read_va(DATA + 0x1000 - 2, 4), None);
    assert_eq!(m.read_va(DATA + 0x1000, 1), None);
    assert_eq!(m.read_va(TEXT, TEXT_LEN).map(|b| b.len()), Some(TEXT_LEN));
    assert_eq!(m.read_va(TEXT, TEXT_LEN + 1), None);
}

#[test]
fn a_name_at_the_end_of_a_segment_is_found() {
    let name = b"SDL_PollEvent\0";
    let mut b = Builder::new();
    let slot = b.import("SDL_PollEvent");
    let mut file = b.bytes();
    // the strings move to the end of the code
    let end = TEXT as usize + TEXT_LEN;
    put(&mut file, end - name.len(), name);
    let at = 64 + 56 * 3 + 8;
    let dynamic = file[at] as usize | (file[at + 1] as usize) << 8;
    let strings = dynamic + 16 * 5 + 8;
    put(&mut file, strings, &(end as u64 - name.len() as u64 - 1).to_le_bytes());
    match Module::open(file.clone()) {
        Some(m) => assert_eq!(m.jump_slot("SDL_PollEvent"), Some(slot)),
        None => panic!("the module is an ELF"),
    }
    // a name that runs over the end of the segment is none
    put(&mut file, end - name.len() + 1, &name[..name.len() - 1]);
    put(&mut file, end - name.len(), b"_");
    match Module::open(file) {
        Some(m) => assert_eq!(m.jump_slot("_SDL_PollEvent"), None),
        None => panic!("the module is an ELF"),
    }
}

#[test]
fn only_elf64_is_opened() {
    let (m, _, _) = client();
    assert!(m.vtables("6CInput").len() == 1);
    let good = Builder::new().bytes();
    assert!(Module::open(good.clone()).is_some());
    let mut narrow = good.clone();
    narrow[4] = 1;
    assert!(Module::open(narrow).is_none());
    let mut other = good.clone();
    other[0] = b'M';
    assert!(Module::open(other).is_none());
    assert!(Module::open(good[..63].to_vec()).is_none());
    let mut no_dynamic = good;
    put(&mut no_dynamic, 64 + 56 * 3, &9u32.to_le_bytes());
    assert!(Module::open(no_dynamic).is_none());
}

/// `addss disp32(%rbx),%xmm0`.
fn addss(disp: u32) -> Vec<u8> {
    let mut b = vec![0xf3, 0x0f, 0x58, 0x83];
    b.extend_from_slice(&disp.to_le_bytes());
    b
}

fn punched_client(fields: &[u32]) -> Module {
    let mut b = Builder::new();
    b.function(&addss(0x1330));
    b.function(&[0xf3, 0x44, 0x0f, 0x58, 0x83, 0x04, 0x11, 0, 0]);
    for f in fields {
        let mut code = Vec::new();
        for k in 0..3 {
            code.extend_from_slice(&addss(f + 4 * k));
            code.extend_from_slice(&[0x90; 9]);
        }
        b.function(&code);
    }
    b.class("8CCSInput", &[TEXT]);
    b.open()
}

#[test]
fn viewpunch_finds_punch_angle_triples() {
    let m = punched_client(&[0x1100, 0x1200, 0x1100, 0x1100]);
    let sites = find_addss(&m);
    let (disp, chosen) = punch_sites(&sites);
    // pitch/yaw/roll per view path, so always a whole number of triples
    assert!(!chosen.is_empty(), "no punch-angle add triples found");
    assert_eq!(chosen.len() % 3, 0, "partial triple: {chosen:?}");
    // every chosen site adds one of the three Vector components
    for &i in &chosen {
        let d = sites[i].disp;
        assert!(
            d == disp || d == disp + 4 || d == disp + 8,
            "site 0x{:x} disp 0x{d:x} is not part of the vector at 0x{disp:x}",
            sites[i].va
        );
    }
    assert_eq!(disp, 0x1100);
    assert_eq!(chosen.len(), 9);
}

#[test]
fn lib_finds_punch_angle_triples() {
    let m = punched_client(&[0x1248, 0x1248]);
    let sites = find_addss(&m);
    let (disp, chosen) = punch_sites(&sites);
    assert!(!chosen.is_empty(), "no punch-angle add triples found");
    assert_eq!(chosen.len() % 3, 0, "partial triple: {chosen:?}");
    for &i in &chosen {
        let d = sites[i].disp;
        assert!(
            d == disp || d == disp + 4 || d == disp + 8,
            "site 0x{:x} disp 0x{d:x} is not part of the vector at 0x{disp:x}",
            sites[i].va
        );
    }
    assert_eq!((disp, chosen.len()), (0x1248, 6));
    assert_eq!(sites.len(), 7);
    assert!(sites.windows(2).all(|w| w[0].va < w[1].va));
}

fn site(va: u64, disp: u32) -> Site {
    Site {
        va,
        disp,
        bytes: vec![0x90; 8],
    }
}

#[test]
fn a_tie_is_refused_where_one_field_is_needed() {
    let mut sites = Vec::new();
    for (k, f) in [(0u64, 0x600u32), (1, 0x700)] {
        for c in 0..3u32 {
            sites.push(site(0x1000 * (k + 1) + 16 * u64::from(c), f + 4 * c));
        }
    }
    assert_eq!(
        select_punch_sites(&sites).unwrap_err(),
        "multiple equally likely viewpunch fields found"
    );
    // without the need, the lower field is taken
    assert_eq!(punch_sites(&sites), (0x600, vec![0, 1, 2]));
    sites.truncate(3);
    assert_eq!(select_punch_sites(&sites).unwrap(), (0x600, vec![0, 1, 2]));
    sites.truncate(2);
    assert_eq!(
        select_punch_sites(&sites).unwrap_err(),
        "no pitch/yaw/roll addss triple found"
    );
    assert_eq!(punch_sites(&sites), (0, vec![]));
}

#[test]
fn a_triple_lies_close_together() {
    let far = vec![site(0x1000, 0x600), site(0x1010, 0x604), site(0x1100, 0x608)];
    assert_eq!(punch_sites(&far), (0, vec![]));
    let near = vec![site(0x1000, 0x600), site(0x1010, 0x604), site(0x10ff, 0x608)];
    assert_eq!(punch_sites(&near), (0x600, vec![0, 1, 2]));
}

#[test]
fn punch_adds_are_overwritten_only_where_the_code_is_the_files() {
    let m = punched_client(&[0x1100]);
    let (sites, disp, chosen) = find_punch(&m);
    assert_eq!((disp, chosen.len()), (0x1100, 3));
    let base = 0x7f00_0000_0000u64;
    let mut live: Vec<Vec<u8>> = chosen.iter().map(|&i| sites[i].bytes.clone()).collect();
    let plan = plan_punch(&m, base, &sites, &chosen, &live);
    let writes = match plan {
        Ok(w) => w,
        Err(e) => panic!("{e}"),
    };
    assert_eq!(writes.len(), 3);
    assert_eq!(writes[0].addr, base + sites[chosen[0]].va);
    assert_eq!(writes[0].len, 8);
    assert_eq!(writes[0].page, base + 0x3000);
    assert_eq!(writes[0].page_len, 0x1000);
    live[1][0] = 0x90;
    let at = base + sites[chosen[1]].va;
    match plan_punch(&m, base, &sites, &chosen, &live) {
        Ok(_) => panic!("other code was taken"),
        Err(e) => assert_eq!(
            e,
            format!("viewpunch: code at 0x{at:x} differs from client.so; NOT patching")
        ),
    }
    match plan_punch(&m, base, &sites, &[], &[]) {
        Ok(_) => panic!("nothing was chosen"),
        Err(e) => assert_eq!(
            e,
            "viewpunch: no punch-angle add triples found in client.so (game updated?); NOT patching"
        ),
    }
    assert_eq!(
        armed_line(9, 9, 0x1100),
        "viewpunch remover armed: NOP'd 9/9 punch adds (m_vecPunchAngle @ +0x1100, 3 view paths)"
    );
}

#[test]
fn an_untouched_handler_is_intercepted() {
    let target = 0x7f12_3456_7ff8u64;
    let i = match intercept(target, &PROLOGUE, 0x1122_3344_5566_7788) {
        Ok(i) => i,
        Err(e) => panic!("{e}"),
    };
    assert_eq!(i.target, target);
    assert_eq!(i.patch.len(), PROLOGUE_LEN);
    assert_eq!(i.patch[..2], [0x48, 0xb8]);
    assert_eq!(i.patch[2..10], 0x1122_3344_5566_7788u64.to_le_bytes());
    assert_eq!(i.patch[10..12], [0xff, 0xe0]);
    assert!(i.patch[12..].iter().all(|&b| b == 0x90));
    assert_eq!(i.trampoline[..PROLOGUE_LEN], PROLOGUE);
    assert_eq!(
        i.trampoline[PROLOGUE_LEN + 2..PROLOGUE_LEN + 10],
        (target + 19).to_le_bytes()
    );
    assert_eq!((i.page, i.page_len), (0x7f12_3456_7000, 0x2000));
    let mut touched = PROLOGUE;
    touched[0] = 0xe9;
    match intercept(target, &touched, 1) {
        Ok(_) => panic!("a touched handler was taken"),
        Err(e) => assert_eq!(
            e,
            "fastdl: ProcessServerInfo at 0x7f1234567ff8 already modified; not hooking"
        ),
    }
}

#[test]
fn the_download_manager_is_the_object_with_its_vtable() {
    let (m, _, table) = engine();
    let base = 0x5000_0000u64;
    let mut image = vec![0u8; 64];
    image[24..32].copy_from_slice(&(base + table + 8).to_le_bytes());
    assert_eq!(resolve_dlmgr(&m, base, 0x9000, &image), Some(0x9018));
    // the pointer has to stand on a word's bounds
    let mut odd = vec![0u8; 64];
    odd[12..20].copy_from_slice(&(base + table + 8).to_le_bytes());
    assert_eq!(resolve_dlmgr(&m, base, 0x9000, &odd), None);
    assert_eq!(resolve_dlmgr(&client().0, base, 0x9000, &image), None);
}

fn clientcmd_body() -> Vec<u8> {
    let mut b = vec![0x55, 0x48, 0x89, 0xe5, 0x41, 0x54, 0x49, 0x89, 0xf4];
    b.extend_from_slice(&[0x4c, 0x89, 0xe7, 0x41, 0x5c, 0x5d, 0xe9, 0, 0, 0, 0]);
    b.resize(0x40, 0x90);
    b
}

#[test]
fn the_console_command_is_the_one_virtual_that_looks_like_it() {
    let span = (0x1000u64, 0x2000u64);
    let other = Some(vec![0x90u8; 0x40]);
    let cmd = Some(clientcmd_body());
    let slots = [0x1100u64, 0x1200, 0x1300, 0x9999, 0x1400];
    assert_eq!(
        find_clientcmd(
            span,
            &slots,
            &[other.clone(), cmd.clone(), None, None, cmd.clone()]
        ),
        Some(0x1200),
        "the walk ends at the first slot outside the engine"
    );
    assert_eq!(
        find_clientcmd(
            span,
            &slots,
            &[cmd.clone(), cmd.clone(), None, None, None]
        ),
        None
    );
    assert_eq!(
        find_clientcmd(span, &slots[..1], &[other]),
        None
    );
    assert!(in_engine(span, 0x1000) && !in_engine(span, 0x2000));
}

#[test]
fn an_engine_client_needs_its_class_and_a_command_in_the_engine() {
    let region = Some((0x1000u64, 0x2000u64));
    let good = Candidate {
        interface: 0x4000,
        readable: true,
        class: Some(b"13CEngineClient".to_vec()),
        command: Some(0x1234),
    };
    assert_eq!(check_engine_client(&good, region), Ok((0x4000, 0x1234)));
    assert_eq!(
        check_engine_client(&good, None),
        Err(ClientFault::Outside(0x1234))
    );
    let missing = Candidate {
        interface: 0,
        readable: true,
        class: None,
        command: None,
    };
    let unreadable = Candidate {
        interface: 0x4000,
        readable: false,
        class: None,
        command: None,
    };
    let strange = Candidate {
        interface: 0x4000,
        readable: true,
        class: Some(b"13CEngineServer".to_vec()),
        command: Some(0x1234),
    };
    let mute = Candidate {
        interface: 0x4000,
        readable: true,
        class: Some(b"13CEngineClient".to_vec()),
        command: None,
    };
    assert_eq!(check_engine_client(&missing, region), Err(ClientFault::Missing));
    assert_eq!(
        check_engine_client(&unreadable, region),
        Err(ClientFault::Missing)
    );
    assert_eq!(check_engine_client(&strange, region), Err(ClientFault::Class));
    assert_eq!(check_engine_client(&mute, region), Err(ClientFault::NoCommand));
    assert_eq!(
        resolve_engine_client(&[missing, strange, good], region),
        Some((0x4000, 0x1234))
    );
    assert_eq!(resolve_engine_client(&[mute], region), None);
}

const MAPS: &str = "\
7f0000000000-7f0000001000 r--p 00000000 08:02 11 /game/bin/engine.so
7f0000001000-7f0000003000 r-xp 00001000 08:02 11 /game/bin/engine.so
7f0000003000-7f0000004000 rw-p 00003000 08:02 11 /game/bin/engine.so
7f0000004000-7f0000005000 rw-p 00000000 00:00 0
";

#[test]
fn the_engine_spans_its_mappings() {
    let maps = parse_maps(MAPS);
    assert_eq!(
        engine_region(&maps),
        Some((0x7f00_0000_0000, 0x7f00_0000_4000))
    );
    assert_eq!(engine_region(&[]), None);
}

#[test]
fn slots_are_checked_before_they_are_rewritten() {
    let maps = parse_maps(MAPS);
    assert_eq!(vtable_hook(0x10, 0x10), Ok(()));
    assert_eq!(
        vtable_hook(0x11, 0x10),
        Err("holds 0x11, expected 0x10 (game updated?)".to_string())
    );
    assert_eq!(got_hook(0x7f00_0000_1080, &maps), Ok(()));
    assert!(got_hook(0x7f00_0000_3080, &maps).is_err());
}
