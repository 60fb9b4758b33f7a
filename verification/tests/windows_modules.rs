//! The Windows side of the resolvers, on small images that are put together here.
use bunnyhopfix::convar::resolve_m_rawinput;
use bunnyhopfix::fullscreen::plan_fullscreen;
use bunnyhopfix::live::LiveModule;
use bunnyhopfix::pe::{Access, Module};
use bunnyhopfix::punchpatch::{install_punch, resolved_line};
use bunnyhopfix::rawplan::plan_rawinput;
use bunnyhopfix::winengine::{
    create_interface, resolve_client_cmd, resolve_download_manager, Interface,
};
use bunnyhopfix::winserver::{found_line, relative_call_target, resolve};

const BASE: u64 = 0x1_8000_0000;
const LOADED: u64 = 0x7ff6_0000_0000;
const TEXT: u64 = 0x1000;
const TEXT_RAW: usize = 0x400;
const TEXT_LEN: usize = 0x8000;
const RDATA: u64 = 0x9000;
const RDATA_RAW: usize = TEXT_RAW + TEXT_LEN;
const RDATA_LEN: usize = 0x2000;
const DATA: u64 = 0xb000;
const DATA_RAW: usize = RDATA_RAW + RDATA_LEN;
const DATA_LEN: usize = 0x1000;
const DATA_MEM: u32 = 0x2000;
const IMAGE: u32 = 0xd000;

/// An AMD64 PE32+ image with a code, a read-only and a writable section.
struct Builder {
    text: Vec<u8>,
    rdata: Vec<u8>,
    data: Vec<u8>,
    pointers: Vec<u64>,
    export: Option<(u64, u64)>,
}

fn put(v: &mut [u8], at: usize, bytes: &[u8]) {
    v[at..at + bytes.len()].copy_from_slice(bytes);
}

fn align(v: &mut Vec<u8>, to: usize) {
    let len = v.len().div_ceil(to) * to;
    v.resize(len, 0);
}

impl Builder {
    fn new() -> Builder {
        Builder {
            text: vec![0xcc; 16],
            rdata: Vec::new(),
            data: Vec::new(),
            pointers: Vec::new(),
            export: None,
        }
    }

    fn function(&mut self, body: &[u8]) -> u64 {
        let at = TEXT + self.text.len() as u64;
        self.text.extend_from_slice(body);
        let len = self.text.len().div_ceil(0x480) * 0x480;
        self.text.resize(len, 0xcc);
        at
    }

    fn rdata_pointer(&mut self, target: u64) {
        self.pointers.push(RDATA + self.rdata.len() as u64);
        self.rdata.extend_from_slice(&(BASE + target).to_le_bytes());
    }

    /// Adds a class with a vtable; gives where slot 0 stands.
    fn class(&mut self, name: &str, object_offset: u32, virtuals: &[u64]) -> u64 {
        align(&mut self.data, 8);
        let descriptor = DATA + self.data.len() as u64;
        self.data.extend_from_slice(&[0; 16]);
        self.data.extend_from_slice(name.as_bytes());
        self.data.push(0);
        align(&mut self.rdata, 8);
        let locator = RDATA + self.rdata.len() as u64;
        for word in [
            1u32,
            object_offset,
            0,
            descriptor as u32,
            0,
            locator as u32,
        ] {
            self.rdata.extend_from_slice(&word.to_le_bytes());
        }
        self.rdata_pointer(locator);
        let table = RDATA + self.rdata.len() as u64;
        for f in virtuals {
            self.rdata_pointer(*f);
        }
        self.rdata.extend_from_slice(&0u64.to_le_bytes());
        table
    }

    fn export(&mut self, name: &str, function: u64) {
        align(&mut self.rdata, 8);
        let dir = RDATA + self.rdata.len() as u64;
        let functions = dir + 40;
        let names = functions + 4;
        let ordinals = names + 4;
        let text = ordinals + 4;
        let mut head = vec![0u8; 20];
        for word in [1u32, 1, functions as u32, names as u32, ordinals as u32] {
            head.extend_from_slice(&word.to_le_bytes());
        }
        self.rdata.extend_from_slice(&head);
        self.rdata.extend_from_slice(&(function as u32).to_le_bytes());
        self.rdata.extend_from_slice(&(text as u32).to_le_bytes());
        self.rdata.extend_from_slice(&0u32.to_le_bytes());
        self.rdata.extend_from_slice(name.as_bytes());
        self.rdata.push(0);
        self.export = Some((dir, 52 + name.len() as u64 + 1));
    }

    fn bytes(&self) -> Vec<u8> {
        assert!(self.text.len() <= TEXT_LEN);
        assert!(self.rdata.len() + 256 <= RDATA_LEN && self.data.len() <= DATA_LEN);
        let mut file = vec![0u8; DATA_RAW + DATA_LEN];
        put(&mut file, 0, b"MZ");
        put(&mut file, 0x3c, &0x80u32.to_le_bytes());
        put(&mut file, 0x80, b"PE\0\0");
        let coff = 0x84;
        put(&mut file, coff, &0x8664u16.to_le_bytes());
        put(&mut file, coff + 2, &3u16.to_le_bytes());
        put(&mut file, coff + 16, &240u16.to_le_bytes());
        let optional = coff + 20;
        put(&mut file, optional, &0x20bu16.to_le_bytes());
        put(&mut file, optional + 24, &BASE.to_le_bytes());
        put(&mut file, optional + 56, &IMAGE.to_le_bytes());
        if let Some((rva, len)) = self.export {
            put(&mut file, optional + 112, &(rva as u32).to_le_bytes());
            put(&mut file, optional + 116, &(len as u32).to_le_bytes());
        }
        let sections: [(u32, u64, usize, usize, u32); 3] = [
            (TEXT_LEN as u32, TEXT, TEXT_LEN, TEXT_RAW, 0x6000_0020),
            (RDATA_LEN as u32, RDATA, RDATA_LEN, RDATA_RAW, 0x4000_0040),
            (DATA_MEM, DATA, DATA_LEN, DATA_RAW, 0xc000_0040),
        ];
        for (i, (virtual_size, rva, raw_size, raw, flags)) in sections.into_iter().enumerate() {
            let at = optional + 240 + 40 * i;
            put(&mut file, at + 8, &virtual_size.to_le_bytes());
            put(&mut file, at + 12, &(rva as u32).to_le_bytes());
            put(&mut file, at + 16, &(raw_size as u32).to_le_bytes());
            put(&mut file, at + 20, &(raw as u32).to_le_bytes());
            put(&mut file, at + 36, &flags.to_le_bytes());
        }
        put(&mut file, TEXT_RAW, &self.text);
        put(&mut file, RDATA_RAW, &self.rdata);
        put(&mut file, DATA_RAW, &self.data);
        file
    }

    fn open(&self) -> Module {
        match Module::open(self.bytes()) {
            Some(m) => m,
            None => panic!("the image is a PE32+"),
        }
    }

    /// The image as it is loaded, with its pointers moved.
    fn loaded(&self) -> Vec<u8> {
        let mut image = vec![0u8; IMAGE as usize];
        put(&mut image, TEXT as usize, &self.text);
        put(&mut image, RDATA as usize, &self.rdata);
        put(&mut image, DATA as usize, &self.data);
        for p in &self.pointers {
            let at = *p as usize;
            let old = u64::from_le_bytes(image[at..at + 8].try_into().unwrap());
            put(&mut image, at, &(old - BASE + LOADED).to_le_bytes());
        }
        image
    }

    fn live_with(&self, image: Vec<u8>) -> LiveModule {
        match LiveModule::open(LOADED, "C:\\game\\module.dll".to_string(), self.open(), image) {
            Some(m) => m,
            None => panic!("the image is loaded whole"),
        }
    }

    fn live(&self) -> LiveModule {
        self.live_with(self.loaded())
    }
}

fn hex(pattern: &str) -> Vec<u8> {
    pattern
        .split_whitespace()
        .map(|w| if w == "??" { 0x11 } else { u8::from_str_radix(w, 16).unwrap() })
        .collect()
}

const NOTHING: [u8; 3] = [0x31, 0xc0, 0xc3];

fn client_builder() -> (Builder, u64, [u64; 2]) {
    let mut b = Builder::new();
    let other = b.function(&NOTHING);
    let sample = b.function(&hex("F3 0F 11 49 20 C3"));
    let mut virtuals = [other; 10];
    virtuals[7] = sample;
    let input = b.class(".?AVCInput@@", 0, &virtuals);
    let cs_input = b.class(".?AVCCSInput@@", 0, &virtuals);
    b.export("CreateInterface", other);
    (b, sample, [input + 56, cs_input + 56])
}

#[test]
fn resolves_current_client_exports_and_input_vtables() {
    let client = client_builder().0.open();
    assert!(client.export("CreateInterface").is_some());
    for class in [".?AVCInput@@", ".?AVCCSInput@@"] {
        let vtable = client
            .vtable(class)
            .unwrap_or_else(|| panic!("{class} vtable"));
        assert!(client.virtuals(vtable, 256).len() > 8, "{class} virtuals");
    }
    assert_eq!(client.export("CreateInterface"), Some(TEXT + 16));
    assert_eq!(client.export("CreateInterfac"), None);
}

const HANDLER: &str = "48 89 5C 24 08 57 48 83 EC 20 48 8B FA 48 8B D9 E8 00 00 00 00 48 8B D7 48 8B CB E8";

fn engine_builder(offset: u32, md5: u8, map: u8) -> Builder {
    let mut b = Builder::new();
    let other = b.function(&NOTHING);
    let mut base = vec![0x90; 32];
    base.extend_from_slice(&hex("48 8B 56"));
    base.push(map);
    base.extend_from_slice(&hex("48 8D 8F 20 30 00 00 48 89 5C 24 40 41 B8 04 01 00 00 C3"));
    let base = b.function(&base);
    let at = TEXT + b.text.len() as u64;
    let mut handler = hex(HANDLER);
    let rel = base as i64 - (at as i64 + 27 + 5);
    handler.extend_from_slice(&(rel as i32).to_le_bytes());
    handler.extend_from_slice(&hex("84 C0 74 20 0F 10 47"));
    handler.push(md5);
    handler.extend_from_slice(&hex("0F 11 83 10 20 00 00 C3"));
    let handler = b.function(&handler);
    let command = b.function(&hex("40 53 48 83 EC 20 80 3D 01 02 03 04 00 48 8B DA C3"));
    let update = b.function(&hex("40 53 48 81 EC 40 02 00 00 4C 8B 41 28 48 8B D9 C3"));
    b.class(".?AVCClientState@@", 0, &[other]);
    b.class(".?AVCClientState@@", offset, &[other, handler]);
    b.class(".?AVCEngineClient@@", 0, &[other, other, command]);
    b.class(".?AVCDownloadManager@@", 0, &[other, update]);
    b.export("CreateInterface", other);
    b
}

#[test]
fn resolves_current_engine_and_inputsystem_rtti() {
    let engine = engine_builder(16, 0x30, 0x48).open();
    assert!(engine.export("CreateInterface").is_some());
    for class in [
        ".?AVCClientState@@",
        ".?AVCDownloadManager@@",
        ".?AVCEngineClient@@",
    ] {
        assert!(engine.vtable(class).is_some(), "{class} vtable");
    }

    let inputsystem = system_builder().open();
    assert!(inputsystem.export("CreateInterface").is_some());
    assert!(inputsystem.vtable(".?AVCInputSystem@@").is_some());
}

const WINDOW_PROC: &str = "44 89 44 24 18 48 89 54 24 10 55 56 57 41 56 41 57";
const GET_RAW: &str = "8B 81 DC 48 00 00 89 02 8B 81 E0 48 00 00 41 89 00 C3";

fn system_builder() -> Builder {
    let mut b = Builder::new();
    let other = b.function(&NOTHING);
    b.function(&hex(WINDOW_PROC));
    let get = b.function(&hex(GET_RAW));
    b.class(".?AVCInputSystem@@", 0, &[other, get]);
    b.export("CreateInterface", other);
    b
}

#[test]
fn an_image_is_read_by_rva() {
    let (b, sample, slots) = client_builder();
    let m = b.open();
    assert_eq!((m.image_base(), m.image_size()), (BASE, u64::from(IMAGE)));
    assert_eq!(m.read_rva(sample, 3), Some(&[0xf3, 0x0f, 0x11][..]));
    assert_eq!(m.read_rva(0, 2), Some(&b"MZ"[..]));
    assert_eq!(m.pointer_rva(slots[0]), Some(BASE + sample));
    assert_eq!(m.va_to_rva(BASE + sample), Some(sample));
    assert_eq!(m.va_to_rva(BASE - 1), None);
    assert!(m.is_exec(sample) && !m.is_exec(RDATA));
    assert_eq!(m.writable_span(), Some((DATA, DATA + u64::from(DATA_MEM))));
    assert_eq!(m.vfn(slots[0], 0), Some(sample));
    assert_eq!(m.scan(Access::Code, 5)[0].0, TEXT);
    assert_eq!(m.vtables(".?AVCInput@@").len(), 1);
    assert_eq!(m.vtables(".?AVCInputs@@").len(), 0);
}

#[test]
fn only_amd64_images_are_opened() {
    let good = client_builder().0.bytes();
    assert!(Module::open(good.clone()).is_some());
    let mut no_dos = good.clone();
    no_dos[0] = 0;
    assert!(Module::open(no_dos).is_none());
    let mut x86 = good.clone();
    put(&mut x86, 0x84, &0x14cu16.to_le_bytes());
    assert!(Module::open(x86).is_none());
    let mut pe32 = good.clone();
    put(&mut pe32, 0x98, &0x10bu16.to_le_bytes());
    assert!(Module::open(pe32).is_none());
    assert!(Module::open(good[..good.len() - 1].to_vec()).is_none());
}

#[test]
fn a_loaded_module_is_checked_against_its_file() {
    let (b, sample, slots) = client_builder();
    let live = b.live();
    assert_eq!(live.base(), LOADED);
    assert_eq!(live.path(), "C:\\game\\module.dll");
    assert_eq!(live.address(sample), Some(LOADED + sample));
    assert_eq!(live.address(u64::from(IMAGE)), None);
    assert!(live.contains(LOADED) && !live.contains(LOADED - 1));
    assert!(live.contains_exec(LOADED + sample) && !live.contains_exec(LOADED + RDATA));
    assert_eq!(
        live.resolve_virtual(".?AVCInput@@", &["F3 0F 11 49 20 C3"], 16),
        Some((slots[0], sample))
    );
    let (rva, bytes) = live.find_unique(&["F3 0F 11 49 20 C3"], Access::Code).unwrap();
    assert_eq!((rva, bytes), (sample, hex("F3 0F 11 49 20 C3")));
    assert!(live.find_unique(&["CC CC"], Access::Code).is_none());
    let short = vec![0u8; IMAGE as usize - 1];
    assert!(LiveModule::open(LOADED, "x".to_string(), b.open(), short).is_none());
}

#[test]
fn the_server_info_handler_is_found() {
    let b = engine_builder(16, 0x30, 0x48);
    let info = resolve(&b.live()).unwrap();
    assert_eq!((info.md5_offset, info.map_offset), (0x30, 0x48));
    assert_eq!((info.object_offset, info.slot_index), (16, 1));
    assert_eq!(
        found_line(&info),
        "fastdl: CClientState+0x10 slot 1, MD5 msg+0x30, map msg+0x48"
    );
    assert!(b.live().contains_exec(info.function));
    let slot = (info.slot - LOADED) as usize;
    assert_eq!(
        b.loaded()[slot..slot + 8],
        info.function.to_le_bytes()
    );
}

#[test]
fn a_changed_server_info_handler_is_refused() {
    let text = |b: Builder| match resolve(&b.live()) {
        Ok(_) => panic!("was accepted"),
        Err(e) => e,
    };
    assert_eq!(
        text(engine_builder(24, 0x30, 0x48)),
        "ProcessServerInfo resolved on unexpected CClientState subobject +0x18"
    );
    assert_eq!(
        text(engine_builder(16, 0x10, 0x48)),
        "implausible server-info layout: MD5 +0x10, map +0x48"
    );
    assert_eq!(
        text(engine_builder(16, 0x30, 0x4c)),
        "implausible server-info layout: MD5 +0x30, map +0x4c"
    );
    assert_eq!(
        text(client_builder().0),
        "CClientState::ProcessServerInfo is missing or ambiguous"
    );
}

#[test]
fn a_relative_call_counts_from_its_end() {
    let body = [0x90, 0xe8, 0xfb, 0xff, 0xff, 0xff];
    assert_eq!(relative_call_target(0x1000, &body, 1), Some(0x1001));
    assert_eq!(relative_call_target(0x1000, &body, 0), None);
    assert_eq!(relative_call_target(0x1000, &body, 2), None);
}

#[test]
fn the_console_command_belongs_to_the_engine_client() {
    let b = engine_builder(16, 0x30, 0x48);
    let live = b.live();
    assert_eq!(create_interface(&live), Ok(LOADED + TEXT + 16));
    let table = live.address(live.pe().vtable(".?AVCEngineClient@@").unwrap()).unwrap();
    let object = |address, vtable| Interface {
        address,
        status: 1,
        vtable,
    };
    let f = resolve_client_cmd(&live, object(0x5000, Some(table))).unwrap();
    assert!(live.contains_exec(f));
    assert_eq!(
        resolve_client_cmd(&live, object(0, None)).unwrap_err(),
        "CreateInterface(VEngineClient014) failed (1)"
    );
    assert_eq!(
        resolve_client_cmd(&live, object(0x5000, None)).unwrap_err(),
        "VEngineClient014 object is unreadable"
    );
    assert_eq!(
        resolve_client_cmd(&live, object(0x5000, Some(table + 8))).unwrap_err(),
        format!(
            "VEngineClient014 vptr 0x{:x} is not CEngineClient 0x{table:x}",
            table + 8
        )
    );
    let mut image = b.loaded();
    let slot = (table - LOADED) as usize + 16;
    put(&mut image, slot, &(f + 1).to_le_bytes());
    assert_eq!(
        resolve_client_cmd(&b.live_with(image), object(0x5000, Some(table))).unwrap_err(),
        "ClientCmd live vtable slot differs from engine.dll"
    );
    assert_eq!(
        create_interface(&Builder::new().live()).unwrap_err(),
        "engine.dll does not export CreateInterface"
    );
}

#[test]
fn the_download_manager_is_the_one_object() {
    let b = engine_builder(16, 0x30, 0x48);
    let table = b.live().pe().vtable(".?AVCDownloadManager@@").unwrap();
    assert_eq!(
        resolve_download_manager(&b.live()).unwrap_err(),
        "live CDownloadManager singleton was not found"
    );
    let mut image = b.loaded();
    put(&mut image, 0xc800, &(LOADED + table).to_le_bytes());
    assert_eq!(
        resolve_download_manager(&b.live_with(image.clone())),
        Ok(LOADED + 0xc800)
    );
    put(&mut image, 0xc900, &(LOADED + table).to_le_bytes());
    assert_eq!(
        resolve_download_manager(&b.live_with(image)).unwrap_err(),
        "multiple live CDownloadManager objects found"
    );
}

const ACCUMULATE: &str = "48 89 5C 24 18 48 89 74 24 20 57 48 83 EC 20 8B 41 0C 49 8B F8 89 02 48 8B F2 8B 41 10 48 8B D9 41 89 00 48 8B 05";

/// A client with the accumulator that loads the variable's pointer at `cell`.
fn rawinput_client(cell: u64) -> (Builder, u64, [u64; 2]) {
    let (mut b, sample, slots) = client_builder();
    let at = TEXT + b.text.len() as u64;
    let mut body = hex(ACCUMULATE);
    let rel = cell as i64 - (at as i64 + 42);
    body.extend_from_slice(&(rel as i32).to_le_bytes());
    body.extend_from_slice(&hex("83 78 58 00 C3"));
    b.function(&body);
    (b, sample, slots)
}

/// The loaded client, with the variable's object in its writable data.
fn with_variable(b: &Builder, name: &[u8], value: i32) -> Vec<u8> {
    let mut image = b.loaded();
    put(&mut image, 0xc000, &(LOADED + 0xc100).to_le_bytes());
    put(&mut image, 0xc118, &(LOADED + 0xc200).to_le_bytes());
    put(&mut image, 0xc158, &value.to_le_bytes());
    put(&mut image, 0xc200, name);
    image
}

#[test]
fn the_windows_variable_is_found_by_its_load() {
    let (b, _, _) = rawinput_client(0xc000);
    let found = |image| resolve_m_rawinput(&b.live_with(image));
    assert_eq!(
        found(with_variable(&b, b"m_rawinput\0", 1)),
        Ok(LOADED + 0xc158)
    );
    assert_eq!(
        found(with_variable(&b, b"m_rawinputs\0", 1)).unwrap_err(),
        "resolved ConVar is not m_rawinput"
    );
    assert_eq!(
        found(with_variable(&b, b"m_rawinput\0", -3)).unwrap_err(),
        "m_rawinput has invalid live value -3"
    );
    assert_eq!(
        found(b.loaded()).unwrap_err(),
        "m_rawinput object is outside client.dll"
    );
    let mut code = b.loaded();
    put(&mut code, 0xc000, &(LOADED + TEXT).to_le_bytes());
    assert_eq!(
        found(code).unwrap_err(),
        "m_rawinput object is not in writable client data"
    );
    assert_eq!(
        resolve_m_rawinput(&client_builder().0.live()).unwrap_err(),
        "client raw-input accumulator signature is missing or ambiguous"
    );
}

#[test]
fn the_rawinput_hooks_are_planned_together() {
    let (b, sample, slots) = rawinput_client(0xc000);
    let client = b.live_with(with_variable(&b, b"m_rawinput\0", 2));
    let system = system_builder().live();
    let plan = match plan_rawinput(&system, &client) {
        Ok(p) => p,
        Err(e) => panic!("{e}"),
    };
    assert_eq!(plan.window_bytes, hex(WINDOW_PROC));
    assert!(system.contains_exec(plan.window) && system.contains_exec(plan.get_original));
    assert_eq!(plan.first_slot, LOADED + slots[0]);
    assert_eq!(plan.second_slot, LOADED + slots[1]);
    assert_eq!(plan.sample_original, LOADED + sample);
    assert_eq!(plan.rawinput, LOADED + 0xc158);
    let fails = |s: &LiveModule, c: &LiveModule| match plan_rawinput(s, c) {
        Ok(_) => panic!("was accepted"),
        Err(e) => e,
    };
    assert_eq!(
        fails(&client, &client),
        "CInputSystem::WindowProc signature is missing or ambiguous"
    );
    assert_eq!(
        fails(&system, &system),
        ".?AVCInput@@::IN_SetSampleTime vtable slot is missing"
    );
    let mut split = Builder::new();
    let one = split.function(&hex("F3 0F 11 49 20 C3"));
    let two = split.function(&hex("F3 0F 11 49 20 C3"));
    split.class(".?AVCInput@@", 0, &[one]);
    split.class(".?AVCCSInput@@", 0, &[two]);
    assert_eq!(
        fails(&system, &split.live()),
        "CInput sample-time vtables do not share one validated implementation"
    );
}

const RELEASE: &str = "40 53 48 83 EC 20 48 8B 01 48 8B D9 FF 90 20 01 00 00 84 C0 75 10 48 8B 03 48 8B CB 48 83 C4 20 5B 48 FF A0 28 01 00 00 48 83 C4 20 5B C3";
const SHOW: &str = "0F 84 10 00 00 00 48 8B 8B 20 00 00 00 BA 07 00 00 00";

fn fullscreen_builders() -> (Builder, u64, Builder, u64) {
    let mut engine = Builder::new();
    let other = engine.function(&NOTHING);
    let release = engine.function(&hex(RELEASE));
    engine.class(".?AVCVideoMode_MaterialSystem@@", 0, &[other, release]);
    let mut d3d9 = Builder::new();
    let show = d3d9.function(&hex(SHOW));
    (engine, release, d3d9, show)
}

#[test]
fn fullscreen_preservation_is_planned_as_a_pair() {
    let (engine, release, d3d9, show) = fullscreen_builders();
    let p = match plan_fullscreen(&engine.live(), &d3d9.live()) {
        Ok(p) => p,
        Err(e) => panic!("{e}"),
    };
    assert_eq!((p.release_rva, p.show_rva), (release + 20, show));
    assert_eq!(p.release.address(), LOADED + release + 20);
    assert_eq!(p.release.original(), [0x75]);
    assert_eq!(p.release.replacement(), [0xeb]);
    assert_eq!(p.show.address(), LOADED + show);
    assert_eq!(p.show.original(), [0x0f, 0x84]);
    assert_eq!(p.show.replacement(), [0x90, 0xe9]);
}

#[test]
fn a_changed_fullscreen_branch_is_refused() {
    let (engine, release, d3d9, show) = fullscreen_builders();
    let fails = |e: &LiveModule, d: &LiveModule| match plan_fullscreen(e, d) {
        Ok(_) => panic!("was accepted"),
        Err(e) => e,
    };
    let mut image = engine.loaded();
    image[release as usize + 20] = 0xeb;
    assert_eq!(
        fails(&engine.live_with(image), &d3d9.live()),
        "ReleaseVideo conditional branch changed"
    );
    assert_eq!(
        fails(&d3d9.live(), &d3d9.live()),
        "CVideoMode_MaterialSystem::ReleaseVideo is missing or ambiguous"
    );
    assert_eq!(
        fails(&engine.live(), &engine.live()),
        "D3D9 ShowWindow(SW_SHOWMINNOACTIVE) branch is missing or ambiguous"
    );
    let mut image = d3d9.loaded();
    image[show as usize] = 0x90;
    assert_eq!(
        fails(&engine.live(), &d3d9.live_with(image)),
        format!(
            "original bytes at 0x{:x} changed; refusing blind patch",
            LOADED + show
        )
    );
}

fn punch_builder(fields: &[u32]) -> Builder {
    let mut b = Builder::new();
    for f in fields {
        let mut code = Vec::new();
        for k in 0..3u32 {
            code.extend_from_slice(&[0xf3, 0x0f, 0x58, 0x83]);
            code.extend_from_slice(&(f + 4 * k).to_le_bytes());
            code.extend_from_slice(&[0x90; 9]);
        }
        b.function(&code);
    }
    b
}

#[test]
fn punch_patches_are_prepared_over_the_files_bytes() {
    let b = punch_builder(&[0x800, 0x900, 0x800]);
    let (disp, patches) = match install_punch(&b.live()) {
        Ok(x) => x,
        Err(e) => panic!("{e}"),
    };
    assert_eq!((disp, patches.len()), (0x800, 6));
    for p in &patches {
        assert_eq!(p.original()[..4], [0xf3, 0x0f, 0x58, 0x83]);
        assert_eq!(p.replacement(), [0x90; 8]);
    }
    assert_eq!(patches[0].address(), LOADED + TEXT + 16);
    let fails = |live: LiveModule| match install_punch(&live) {
        Ok(_) => panic!("was accepted"),
        Err(e) => e,
    };
    let mut image = b.loaded();
    image[TEXT as usize + 16] = 0x90;
    assert_eq!(
        fails(b.live_with(image)),
        format!(
            "viewpunch bytes at 0x{:x} differ from client.dll",
            LOADED + TEXT + 16
        )
    );
    assert_eq!(
        fails(punch_builder(&[0x800, 0x900]).live()),
        "multiple equally likely viewpunch fields found"
    );
    assert_eq!(
        fails(punch_builder(&[]).live()),
        "no pitch/yaw/roll addss triple found"
    );
    assert_eq!(
        resolved_line(6, 0x800, true),
        "viewpunch: resolved 6 adds at m_vecPunchAngle +0x800 (removed)"
    );
    assert_eq!(
        resolved_line(6, 0x800, false),
        "viewpunch: resolved 6 adds at m_vecPunchAngle +0x800 (preserved)"
    );
}
