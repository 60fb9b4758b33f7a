//! What is read out of texts, and what is written into them.
use bunnyhopfix::console::{
    arm_demo, demo_tick, poll_downloads, poll_downloads_windows, queue_cmd, Console, Downloads,
    Progress, Sample,
};
use bunnyhopfix::controller::{
    feature_matrix, hook_flags, linux_scroll_lock, match_line, parse_linux, parse_windows,
    site_line, version_line, LinuxRequest, Options, WindowsRequest,
};
use bunnyhopfix::convar::{
    convar_candidates, convar_mapping, find_name, name_mapping, resolve_convar, ConvarProbe, Region,
};
use bunnyhopfix::launch::{
    css_dirs, cut_entry, dxvk_config, keep_preload, launch_css, library_dirs, pin_audio, primary_resolution,
    save_display_modes, LaunchOptions,
};
use bunnyhopfix::procfs::{
    client_so_region, has_insecure, is_code, is_game_comm, is_pid_name, is_writable, led_is_on,
    module_base, parent_pid, parse_maps, parse_pid, read_span, running_i3, Lineage,
};
use bunnyhopfix::sourcejump::{
    bounded_body, echo_line, num_field, parse_records, record_row, record_url, report, sanitize,
    split_objects, str_field, Lookups, Row,
};
use bunnyhopfix::target::{
    enumeration_end, find_module, has_exact_arg, is_alive, is_game_exe, is_native_x64,
    judge_target, Verdict,
};
use bunnyhopfix::wide::{from_utf16_lossy, units, wide_to_string, CommandLineRead};

#[test]
fn parses_sourcejump_record_rows_in_api_order() {
    let json = r#"[
            {"name":"mukez","time":"4:33.732","sync":96.022,"strafes":445},
            {"name":"hystereo","time":"4:36.526","sync":95.205,"strafes":517}
        ]"#;
    let rows = parse_records(json, 3);
    assert_eq!(rows.len(), 2);
    assert_eq!(rows[0].name, "mukez");
    assert_eq!(rows[0].time, "4:33.732");
    let sync: f64 = rows[0].sync.as_deref().unwrap().parse().unwrap();
    assert!((sync - 96.022).abs() < f64::EPSILON);
    assert_eq!(rows[0].strafes.as_deref().unwrap().parse::<i64>(), Ok(445));
    assert_eq!(rows[1].name, "hystereo");
}

#[test]
fn sanitizes_untrusted_player_names() {
    assert_eq!(sanitize("\u{1b}[31mrunner\n"), "[31mrunner");
    assert_eq!(sanitize("\n\r\t"), "?");
    assert_eq!(
        sanitize("abcdefghijklmnopqrstuvwxyz"),
        "abcdefghijklmnopqrstuvwx"
    );
}

#[test]
fn a_brace_that_closes_nothing_makes_no_object() {
    assert_eq!(split_objects("{}}"), vec!["{}"]);
    assert_eq!(split_objects("}"), Vec::<String>::new());
    assert_eq!(
        split_objects(r#"}{"a":{"b":1}}}}{"c":2}"#),
        vec![r#"{"a":{"b":1}}"#, r#"{"c":2}"#]
    );
    assert_eq!(parse_records(r#"[{"name":"a"}}]"#, 3).len(), 1);
}

#[test]
fn records_are_read_tolerantly() {
    assert_eq!(
        split_objects(r#"[{"a":"}"},{"b":1}]"#),
        vec![r#"{"a":"}"}"#, r#"{"b":1}"#]
    );
    assert_eq!(
        str_field(r#"{"name":"a\"b","time":"1"}"#, "name").as_deref(),
        Some("a\\\"b"),
        "escapes are left as they are"
    );
    assert_eq!(str_field(r#"{"name":5}"#, "name"), None);
    assert_eq!(
        num_field(r#"{"sync":96.5,"x":1}"#, "sync").as_deref(),
        Some("96.5")
    );
    assert_eq!(num_field(r#"{"sync":"x"}"#, "sync").as_deref(), Some(""));
    assert_eq!(num_field(r#"{"x":1}"#, "sync"), None);
    assert_eq!(parse_records(r#"[{"x":1}]"#, 3).len(), 0);
    assert_eq!(
        parse_records(r#"[{"time":"1"},{"time":"2"},{"time":"3"}]"#, 2).len(),
        2
    );
    assert_eq!(parse_records(r#"[{"time":"1"}]"#, 3)[0].name, "?");
    assert_eq!(parse_records(r#"[{"name":"a"}]"#, 1).len(), 1);
    assert_eq!(parse_records(r#"[{"name":"a"}]"#, 0).len(), 0);
    assert_eq!(bounded_body(&vec![0; 600_000]).len(), 512 * 1024);
    assert!(record_url("bhop_x").ends_with("bhop_x"));
}

fn row(time: &str, name: &str) -> Row {
    Row {
        time: time.to_string(),
        name: name.to_string(),
        sync: "93.8".to_string(),
        strafes: "614".to_string(),
    }
}

#[test]
fn records_are_reported_to_the_log_and_the_console() {
    assert_eq!(
        record_row(true, "5:58.330", "Jehoshaphat", "93.8", "614"),
        "  WR 5:58.330   Jehoshaphat  (sync 93.8%, 614 strafes)"
    );
    assert_eq!(echo_line(" a;quit \"b\"\n"), "echo a quit  b");
    let (log, commands) = report("bhop_x", &[row("5:58.330", "A;b"), row("6:00", "C")]);
    assert_eq!(
        log,
        vec![
            "sourcejump WRs for bhop_x:",
            "  WR 5:58.330   A;b  (sync 93.8%, 614 strafes)",
            "     6:00       C  (sync 93.8%, 614 strafes)",
        ]
    );
    assert_eq!(
        commands,
        vec![
            "echo [SourceJump] bhop_x:",
            "echo WR 5:58.330   A b  (sync 93.8%  614 strafes)",
            "echo 6:00       C  (sync 93.8%  614 strafes)",
        ]
    );
    let (log, commands) = report("bhop_x", &[]);
    assert_eq!(log, vec!["sourcejump: no records for bhop_x"]);
    assert!(commands.is_empty());
}

#[test]
fn lookups_run_one_at_a_time_and_the_last_map_wins() {
    let mut l = Lookups::new();
    assert!(l.show_wr("bhop_a"));
    assert!(!l.show_wr("bhop_b"), "a worker runs");
    assert!(!l.show_wr("bhop_c"));
    assert_eq!(l.next_map().as_deref(), Some("bhop_c"));
    assert!(!l.show_wr("bhop_c"), "it is shown");
    assert_eq!(l.next_map(), None);
    assert!(!l.show_wr("bhop_c"));
    assert!(!l.show_wr("bad name") && !l.show_wr("") && !l.show_wr(&"x".repeat(65)));
    assert!(l.show_wr("bhop_d"));
    l.reset_inflight();
    assert!(l.show_wr("bhop_d"));
    l.stop();
    l.stopped();
    assert!(!l.show_wr("bhop_e"));
    l.start();
    assert!(l.show_wr("bhop_e"));
}

#[test]
fn commands_are_few_and_short() {
    let mut c = Console::new(true, true);
    for i in 0..40 {
        c.queue_command(&format!("cmd{i}"));
    }
    assert_eq!(c.waiting(), 32);
    assert_eq!(c.pump()[31], "cmd31");
    assert_eq!(c.waiting(), 0);
    c.queue_command(&"é".repeat(200));
    c.queue_command("a\0b");
    queue_cmd(&mut c, "retry");
    let run = c.pump();
    assert_eq!(run, vec!["é".repeat(90), "retry".to_string()]);
    let mut off = Console::new(false, true);
    off.queue_command("x");
    assert_eq!(off.pump().len(), 0);
    assert_eq!(off.waiting(), 0);
}

#[test]
fn a_demo_starts_with_the_first_tick() {
    let mut c = Console::new(true, true);
    assert_eq!(demo_tick(&mut c, 5), None);
    arm_demo(&mut c, "bhop_x");
    assert_eq!(
        demo_tick(&mut c, 1_700_000_000).as_deref(),
        Some("demo: recording bhop_x_1700000000.dem")
    );
    assert_eq!(c.pump(), vec!["stop", "record bhop_x_1700000000"]);
    assert_eq!(demo_tick(&mut c, 6), None);
    let mut without = Console::new(true, false);
    arm_demo(&mut without, "bhop_x");
    assert_eq!(demo_tick(&mut without, 5), None);
    arm_demo(&mut c, "bhop_y");
    c.queue_command("x");
    c.shutdown();
    assert_eq!(demo_tick(&mut c, 7), None);
    assert_eq!(c.waiting(), 0);
}

fn sample(request: u64, current: i32, total: i32) -> Sample {
    Sample {
        request: Some(request),
        http: Some(1),
        state: Some(1),
        total: Some(total),
        current: Some(current),
        name: Some("maps/bhop_x.bsp.bz2".to_string()),
    }
}

fn text(p: Progress) -> String {
    match p {
        Progress::Nothing => String::new(),
        Progress::Complete => "complete".to_string(),
        Progress::Tell(t) => t,
    }
}

#[test]
fn downloads_are_told_in_steps_and_their_end_once() {
    for poll in [poll_downloads, poll_downloads_windows] {
        let mut d = Downloads::new();
        assert_eq!(
            text(poll(&mut d, &sample(0x10_0000, 1024, 102_400))),
            "downloading bhop_x.bsp.bz2: 1% (1 / 100 KB)"
        );
        assert_eq!(text(poll(&mut d, &sample(0x10_0000, 2048, 102_400))), "");
        assert_eq!(
            text(poll(&mut d, &sample(0x10_0000, 6144, 102_400))),
            "downloading bhop_x.bsp.bz2: 6% (6 / 100 KB)"
        );
        assert_eq!(text(poll(&mut d, &sample(0, 0, 0))), "complete");
        assert_eq!(text(poll(&mut d, &sample(0, 0, 0))), "");
        assert_eq!(text(poll(&mut d, &sample(0x10_0000, 0, 0))), "");
    }
    let mut d = Downloads::new();
    assert!(d.is_due());
    assert!(!d.is_due());
}

const MAPS: &str = "\
55d0c0000000-55d0c0001000 r-xp 00000000 08:02 1 /game/cstrike_linux64
7f0000000000-7f0000001000 r--p 00000000 08:02 11 /game/cstrike/bin/linux64/client.so
7f0000001000-7f0000003000 r-xp 00001000 08:02 11 /game/cstrike/bin/linux64/client.so
7f0000003000-7f0000004000 rw-p 00003000 08:02 11 /game/cstrike/bin/linux64/client.so
7f0000004000-7f0000005000 rw-p 00000000 00:00 0
7f0000010000-7f0000011000 rw-p 00000000 08:02 12 /game/bin/linux64/a b/other.so
";

#[test]
fn mappings_are_read() {
    let maps = parse_maps(MAPS);
    assert_eq!(maps.len(), 6);
    assert_eq!((maps[4].start, maps[4].end), (0x7f00_0000_4000, 0x7f00_0000_5000));
    assert_eq!(
        module_base(&maps, "/client.so"),
        Some((
            0x7f00_0000_0000,
            "/game/cstrike/bin/linux64/client.so".to_string()
        ))
    );
    assert_eq!(module_base(&maps, "/engine.so"), None);
    assert!(is_code(&maps, 0x7f00_0000_1000) && !is_code(&maps, 0x7f00_0000_3000));
    assert!(is_writable(&maps, 0x7f00_0000_3fff) && !is_writable(&maps, 0x7f00_0000_5000));
    assert_eq!(
        client_so_region(MAPS),
        Some((0x7f00_0000_1000, 0x7f00_0000_3000))
    );
    assert_eq!(client_so_region(""), None);
    assert_eq!(parse_maps("garbage\n").len(), 0);
}

#[test]
fn the_insecure_flag_is_a_whole_argument() {
    assert!(has_insecure(b"./game\0-insecure\0-novid\0"));
    assert!(has_insecure(b"./game\0-insecure"));
    assert!(!has_insecure(b"./game\0-insecured\0x-insecure\0"));
    assert!(!has_insecure(b""));
}

#[test]
fn processes_are_told_apart() {
    assert_eq!(parent_pid("12 (a) b) S 7 12 12"), Some(7));
    assert_eq!(parent_pid("12"), None);
    assert!(is_game_comm("cstrike_linux64\n") && is_game_comm("hl2_linux"));
    assert!(!is_game_comm("bash"));
    assert!(is_pid_name("123") && !is_pid_name("self"));
    assert_eq!(parse_pid("123"), Some(123));
    assert_eq!(parse_pid("99999999999"), None);
    assert!(running_i3("sway:I3") && !running_i3("i3wm"));
    assert!(led_is_on("1\n") && !led_is_on("0\n"));
}

#[test]
fn a_descendant_is_found_through_its_parents() {
    let parents = |pid: u32| match pid {
        40 => Some(30),
        30 => Some(20),
        20 => Some(1),
        _ => None,
    };
    let walk = |pid: u32, ancestor: u32| {
        let mut at = Lineage::start(pid, ancestor);
        loop {
            match at {
                Lineage::Asking(pid, _) => at = at.step(ancestor, parents(pid)),
                Lineage::Known(yes) => return yes,
            }
        }
    };
    assert!(walk(40, 20));
    assert!(!walk(40, 7));
    assert!(!walk(1, 20));
}

#[test]
fn unreadable_parts_are_zero() {
    let parts = vec![Some(vec![1, 2, 3, 4]), None, Some(vec![9, 9])];
    assert_eq!(
        read_span(10, 4, &parts),
        vec![1, 2, 3, 4, 0, 0, 0, 0, 9, 9]
    );
}

#[test]
fn the_linux_variable_is_found_by_its_name() {
    let maps = parse_maps(MAPS);
    assert!(name_mapping(&maps[1]) && !name_mapping(&maps[5]));
    assert!(convar_mapping(&maps[4]) && !convar_mapping(&maps[2]));
    let mut names = vec![0u8; 64];
    names[16..27].copy_from_slice(b"m_rawinput\0");
    let regions = vec![Region {
        start: 0x7f00_0000_0000,
        bytes: names,
    }];
    let name = find_name(&regions).unwrap();
    assert_eq!(name, 0x7f00_0000_0010);
    let mut data = vec![0u8; 0x100];
    data[0x20..0x28].copy_from_slice(&name.to_le_bytes());
    let objects = convar_candidates(
        &maps,
        &[Region {
            start: 0x7f00_0000_4000,
            bytes: data,
        }],
        name,
    );
    assert_eq!(objects, vec![0x7f00_0000_4008]);
    let probe = |vtable, value| ConvarProbe { vtable, value };
    assert_eq!(
        resolve_convar(
            &maps,
            &objects,
            &[probe(0x7f00_0000_3010, 1)]
        ),
        Some(0x7f00_0000_4008 + 0x50)
    );
    assert_eq!(
        resolve_convar(&maps, &objects, &[probe(0x10, 1)]),
        None
    );
}

#[test]
fn libraries_are_read_out_of_steams_list() {
    let vdf = "\"libraryfolders\"\n{\n\t\"0\"\n\t{\n\t\t\"path\"\t\t\"/home/a/.local/share/Steam\"\n\t}\n\
        \t\"1\"\n\t{\n\t\t\"path\"\t\t\"D:\\\\Games\\\\Steam\"\n\t\t\"path\"\n\t}\n}\n";
    assert_eq!(
        library_dirs(vdf),
        vec![
            "/home/a/.local/share/Steam/steamapps/common/Counter-Strike Source",
            "D:/Games/Steam/steamapps/common/Counter-Strike Source",
        ]
    );
    assert_eq!(
        css_dirs("/home/u", &[vdf.to_string()])[..3],
        [
            "/home/u/.local/share/Steam/steamapps/common/Counter-Strike Source",
            "/home/u/.steam/steam/steamapps/common/Counter-Strike Source",
            "/home/u/.steam/root/steamapps/common/Counter-Strike Source",
        ]
    );
    assert_eq!(
        css_dirs("/home/u", &[vdf.to_string()])[3..],
        library_dirs(vdf)[..]
    );
}

const XRANDR: &str = "\
Screen 0: minimum 8 x 8, current 3840 x 1080, maximum 32767 x 32767
HDMI-0 disconnected (normal left inverted right x axis y axis)
DP-4 connected primary 1920x1080+0+500 (normal left inverted) 531mm x 299mm
   1920x1080     60.00 +  144.00*   119.98
   1680x1050     59.95
DP-2 connected 2560x1440+1920+0 (normal) 600mm x 340mm
   2560x1440     59.95*+  74.97
";

#[test]
fn display_modes_are_read() {
    let modes: Vec<(String, String, String)> = save_display_modes(XRANDR)
        .into_iter()
        .map(|m| (m.output, m.mode, m.rate))
        .collect();
    let want = |a: &str, b: &str, c: &str| (a.to_string(), b.to_string(), c.to_string());
    assert_eq!(
        modes,
        vec![
            want("DP-4", "1920x1080", "144.00"),
            want("DP-2", "2560x1440", "59.95"),
        ]
    );
    assert_eq!(primary_resolution(XRANDR), Some((1920, 1080)));
    assert_eq!(primary_resolution("DP-2 connected 2560x1440+0+0\n"), None);
}

fn launch(fullscreen: bool, freq: Option<&str>, size: Option<(u32, u32)>, keep: bool) -> String {
    launch_css(&LaunchOptions {
        fullscreen,
        freq: freq.map(str::to_string),
        size,
        keep_rawinput: keep,
    })
    .join(" ")
}

#[test]
fn the_game_is_started_insecurely() {
    assert_eq!(
        launch(false, None, Some((1920, 1080)), false),
        "-game cstrike -insecure -novid -windowed -noborder -w 1920 -h 1080 +m_rawinput 2"
    );
    assert_eq!(
        launch(false, None, None, true),
        "-game cstrike -insecure -novid -windowed -noborder"
    );
    assert_eq!(
        launch(true, None, None, true),
        "-game cstrike -insecure -novid -freq 144"
    );
    assert_eq!(
        launch(true, Some("240"), None, true),
        "-game cstrike -insecure -novid -freq 240"
    );
    assert_eq!(
        launch(true, Some("off"), None, true),
        "-game cstrike -insecure -novid"
    );
}

#[test]
fn only_the_overlay_leaves_the_preload_list() {
    let list = "/a/gameoverlayrenderer.so:/b/x.so /gameoverlayrenderer.so/y.so\t::/c/gameoverlayrenderer.so/";
    assert_eq!(
        keep_preload(list, false),
        vec!["/b/x.so", "/gameoverlayrenderer.so/y.so"]
    );
    assert_eq!(keep_preload(list, true).len(), 4);
    let parts = vec!["/a.so".to_string(), "/b c.so".to_string()];
    assert_eq!(cut_entry(&parts), Some(1));
    assert_eq!(cut_entry(&parts[..1]), None);
}

#[test]
fn a_users_graphics_settings_stay() {
    assert_eq!(dxvk_config("").as_deref(), Some("d3d9.maxFrameLatency = 1"));
    assert_eq!(
        dxvk_config("dxgi.maxFrameLatency = 2").as_deref(),
        Some("dxgi.maxFrameLatency = 2; d3d9.maxFrameLatency = 1")
    );
    assert_eq!(
        dxvk_config("a = 1; ").as_deref(),
        Some("a = 1; d3d9.maxFrameLatency = 1")
    );
    assert_eq!(dxvk_config("d3d9.maxFrameLatency = 3"), None);
    assert!(pin_audio(false, false, true));
    assert!(!pin_audio(true, false, true) && !pin_audio(false, true, true));
    assert!(!pin_audio(false, false, false));
}

fn args(list: &[&str]) -> Vec<String> {
    list.iter().map(|s| s.to_string()).collect()
}

#[test]
fn the_windows_command_line_is_read() {
    let parse = |list: &[&str]| parse_windows(&args(list));
    assert_eq!(parse(&[]), (WindowsRequest::Find, false));
    assert_eq!(parse(&["--scroll-lock"]), (WindowsRequest::Find, true));
    assert_eq!(parse(&["x", "-h", "-V"]), (WindowsRequest::Help, false));
    assert_eq!(parse(&["--version"]), (WindowsRequest::Version, false));
    assert_eq!(
        parse(&["--attach", "123", "--scroll-lock"]),
        (WindowsRequest::Attach(123), true)
    );
    assert_eq!(parse(&["--attach"]), (WindowsRequest::Misuse, false));
    assert_eq!(parse(&["--attach", "x"]), (WindowsRequest::Misuse, false));
    assert_eq!(
        parse(&["--attach", "4294967296"]),
        (WindowsRequest::Misuse, false)
    );
}

#[test]
fn the_linux_command_line_is_read() {
    let parse = |list: &[&str]| parse_linux(&args(list));
    assert_eq!(parse(&[]), LinuxRequest::Launch(0));
    assert_eq!(parse(&["--help"]), LinuxRequest::Help);
    assert_eq!(parse(&["x", "--help"]), LinuxRequest::Launch(2));
    assert_eq!(parse(&["--version"]), LinuxRequest::Version);
    assert_eq!(parse(&["-V"]), LinuxRequest::Version);
    assert_eq!(parse(&["--", "-V"]), LinuxRequest::Launch(1));
    assert_eq!(parse(&["--scan-file"]), LinuxRequest::Misuse);
    assert_eq!(parse(&["--scan-file", "a"]), LinuxRequest::ScanFile(1));
    assert_eq!(parse(&["--fix-maps"]), LinuxRequest::FixMaps);
    assert_eq!(parse(&["--fix-maps", "/g"]), LinuxRequest::FixMapsIn(1));
    assert_eq!(parse(&["--fix-maps", "-x"]), LinuxRequest::Misuse);
    assert_eq!(parse(&["--fix-maps", "/g", "y"]), LinuxRequest::Misuse);
    assert_eq!(parse(&["--attach"]), LinuxRequest::AttachFound);
    assert_eq!(parse(&["--attach", "77"]), LinuxRequest::Attach(77));
    assert_eq!(parse(&["--attach", "x"]), LinuxRequest::BadPid(1));
    assert_eq!(
        parse(&["--scroll-lock", "--", "-w", "1"]),
        LinuxRequest::Launch(2)
    );
    assert!(linux_scroll_lock(&args(&["--scroll-lock"])));
    assert!(!linux_scroll_lock(&args(&["--scroll"])));
}

#[test]
fn options_become_flags() {
    let none = Options {
        debug: false,
        no_force: true,
        demos: false,
        keep_viewpunch: false,
        no_sourcejump: false,
    };
    assert_eq!(hook_flags(none), 0);
    assert_eq!(
        hook_flags(Options {
            no_force: false,
            ..none
        }),
        2
    );
    assert_eq!(
        hook_flags(Options {
            debug: true,
            no_force: false,
            demos: true,
            keep_viewpunch: true,
            no_sourcejump: true,
        }),
        31
    );
}

#[test]
fn lines_are_laid_out() {
    let lines = feature_matrix(1 | 64);
    assert_eq!(lines.len(), 7);
    assert_eq!(lines[0], "    rawinput2                   ready");
    assert_eq!(lines[1], "    viewpunch remover           disabled");
    assert_eq!(lines[6], "    SourceJump records          ready");
    assert_eq!(version_line("2.0.0", false), "bunnyhopfix 2.0.0 (release)");
    assert_eq!(version_line("2.0.0", true), "bunnyhopfix 2.0.0 (debug)");
    assert_eq!(
        site_line("win64 CheckJumpButton #1", 0x7ff6_1234),
        "    win64 CheckJumpButton #1     @ 0x7ff61234"
    );
    assert_eq!(
        match_line("linux64 CheckJumpButton #1", 0x10, 21, 6),
        "MATCH linux64 CheckJumpButton #1   file offset 0x10 (patch at 0x25, 6 bytes)"
    );
}

fn wide(s: &str) -> Vec<u16> {
    s.encode_utf16().collect()
}

#[test]
fn utf16_is_decoded_with_replacements() {
    for s in ["", "abc", "ä€", "😀x", "\u{d7ff}\u{e000}\u{10ffff}"] {
        assert_eq!(from_utf16_lossy(&wide(s)), s.chars().collect::<Vec<_>>());
    }
    for units in [
        vec![0xd800],
        vec![0xdc00, 0x41],
        vec![0xd800, 0x41],
        vec![0xd800, 0xd800, 0xdc00],
        vec![0x41, 0xdbff],
    ] {
        assert_eq!(
            from_utf16_lossy(&units),
            String::from_utf16_lossy(&units).chars().collect::<Vec<_>>()
        );
    }
    assert_eq!(wide_to_string(&[0x61, 0, 0x62]), vec!['a']);
    assert_eq!(units(&[0x61, 0, 0x62, 1, 9]), vec![0x61, 0x162]);
}

#[test]
fn a_command_line_is_read_in_three_steps() {
    let mut at = CommandLineRead::start(0x1000);
    assert_eq!(at.wants(), Some((0x1020, 8)));
    at = at.step(Some(0x5000u64.to_le_bytes().to_vec()));
    assert_eq!(at.wants(), Some((0x5070, 16)));
    let mut line = vec![6, 0, 8, 0, 0, 0, 0, 0];
    line.extend_from_slice(&0x9000u64.to_le_bytes());
    at = at.step(Some(line));
    assert_eq!(at.wants(), Some((0x9000, 6)));
    at = at.step(Some(vec![0x61, 0, 0x62, 0, 0x63, 0]));
    match at {
        CommandLineRead::Done(t) => assert_eq!(t, Some(vec!['a', 'b', 'c'])),
        _ => panic!("it is read"),
    }
    let mut odd = vec![5, 0, 8, 0, 0, 0, 0, 0];
    odd.extend_from_slice(&0x9000u64.to_le_bytes());
    let at = CommandLineRead::Line { at: 1 }.step(Some(odd));
    assert!(matches!(at, CommandLineRead::Done(None)));
    let at = CommandLineRead::start(0x1000).step(None);
    assert!(matches!(at, CommandLineRead::Done(None)));
    assert!(matches!(CommandLineRead::start(0), CommandLineRead::Done(None)));
}

#[test]
fn the_game_is_known_by_its_names() {
    assert!(is_game_exe(&wide("CStrike_Win64.EXE\0junk")));
    assert!(!is_game_exe(&wide("hl2.exe")));
    let modules = vec![wide("ntdll.dll"), wide("CLIENT.dll\0"), wide("client.dll")];
    assert_eq!(find_module(&modules, "client.dll"), Some(1));
    assert_eq!(find_module(&modules, "engine.dll"), None);
    assert_eq!(enumeration_end("Module32NextW", 18), Ok(()));
    assert_eq!(
        enumeration_end("Module32NextW", 5),
        Err("Module32NextW failed (5)".to_string())
    );
    assert!(is_alive(Some(259)) && !is_alive(Some(0)) && !is_alive(None));
    assert!(is_native_x64(0, 0x8664) && !is_native_x64(0x14c, 0x8664));
    assert!(!is_native_x64(0, 0xaa64));
}

#[test]
fn a_target_is_admitted_only_if_it_is_known_to_be_insecure() {
    let line: Vec<char> = "game -insecure".chars().collect();
    let nul: Vec<char> = "game\0".chars().collect();
    let good = vec![wide("game"), wide("-INSECURE")];
    let bad = vec![wide("game"), wide("-insecured")];
    let native = Ok((0, 0x8664));
    let judge = |m, l: Option<&[char]>, a: Result<&[Vec<u16>], u32>| judge_target(m, l, a);
    assert_eq!(judge(native, Some(&line), Ok(&good)), Verdict::Admitted);
    assert_eq!(judge(native, Some(&line), Ok(&bad)), Verdict::Secure);
    assert_eq!(judge(native, None, Ok(&good)), Verdict::Unreadable);
    assert_eq!(judge(native, Some(&nul), Ok(&good)), Verdict::EmbeddedNul);
    assert_eq!(judge(native, Some(&line), Err(7)), Verdict::Unsplit(7));
    assert_eq!(
        judge(Ok((0x14c, 0x8664)), Some(&line), Ok(&good)),
        Verdict::Foreign
    );
    assert_eq!(judge(Err(5), Some(&line), Ok(&good)), Verdict::Unchecked(5));
    assert_eq!(Verdict::Unchecked(5).message(), "IsWow64Process2 failed (5)");
    assert_eq!(Verdict::Unsplit(7).message(), "CommandLineToArgvW failed (7)");
    assert_eq!(
        Verdict::EmbeddedNul.message(),
        "target command line contains an embedded NUL"
    );
    let long = vec![vec![0x2d; 40_000]];
    assert!(!has_exact_arg(&long, "-insecure"));
}
