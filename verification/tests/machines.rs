//! The state machines, driven against small models of what they act on.
use bunnyhopfix::code::{absolute_jump, filled, nop_fill, page_span, register_jump, trampoline};
use bunnyhopfix::control::{ControlBlock, LogLevel};
use bunnyhopfix::hook::{
    allocated, finalized, page_protection, plan_inline, release_trampoline, write_code, Action,
    Install, Patch, PatchState, Phase, Reply, WriteSteps,
};
use bunnyhopfix::hookset::{Feature, HookSet, Task, TaskAction, TaskReply};
use bunnyhopfix::init::{Init, InitPhase, InitReply};
use bunnyhopfix::injection::{
    open_library, remote_system_function, Inject, InjectReply, Library, PathMemory, Unload,
    UnloadReply,
};
use bunnyhopfix::patcher::{status_head, Branch, Patcher, Switch as Patching, SwitchReply};
use bunnyhopfix::predict::{
    discover, find_branch, find_sites, linux_signatures, protection, scan, windows_signatures,
    PatchSite, Probe,
};
use bunnyhopfix::procfs::parse_maps;
use bunnyhopfix::rawinput::{
    force_rawinput_default, mouse_delta, rawinput_mode, Delta, RawMessage, Ring, Sampler,
};
use bunnyhopfix::session::{
    block_name, flush_logs, is_our_block, should_stop, wait_thread, SessionAction, SessionPhase,
    SessionReply,
};
use bunnyhopfix::slot::{SlotAccess, SlotAction, SlotPhase, SlotReply, SlotWrite};
use bunnyhopfix::startup::{admit_attach, Startup, StartupReply};
use bunnyhopfix::target::Verdict;
use bunnyhopfix::threads::{
    after_failure, classify_thread_failure, thread_ids, Retry, Scope, SuspendAction, SuspendError,
    SuspendReply, Suspension, ThreadFailure, ERROR_ACCESS_DENIED, ERROR_INVALID_PARAMETER,
};
use bunnyhopfix::toggle::{Group, Switch, SwitchAction, Throw};
use bunnyhopfix::transaction::{
    End, Stage, StageAction, StageReply, Transaction, WriteAction, WriteCall, WritePhase,
    WriteReply,
};
use bunnyhopfix::watch::{
    wait_for_module, Guard, GuardEvent, GuardPhase, Seek, SeekEvent, Wait, Watch, WatchEvent,
    WatchPhase,
};
use bunnyhopfix::worker::{
    begin, fail, initial_viewpunch, step, Action as WorkerAction, Phase as WorkerPhase, Quiet,
    Reply as WorkerReply,
};

#[test]
fn classifies_thread_churn_without_skipping_live_failures() {
    assert_eq!(
        classify_thread_failure(ERROR_INVALID_PARAMETER, false),
        ThreadFailure::Gone
    );
    assert_eq!(
        classify_thread_failure(ERROR_ACCESS_DENIED, false),
        ThreadFailure::Retry
    );
    assert_eq!(classify_thread_failure(1234, true), ThreadFailure::Gone);
    assert_eq!(classify_thread_failure(1234, false), ThreadFailure::Fatal);
}

#[test]
fn threads_are_listed_once_and_in_order() {
    let entries = vec![(1, 9), (2, 5), (1, 7), (1, 9), (1, 8)];
    assert_eq!(thread_ids(&entries, 18, 1, Some(8)), Ok(vec![7, 9]));
    assert_eq!(thread_ids(&entries, 18, 1, None), Ok(vec![7, 8, 9]));
    assert!(thread_ids(&entries, 5, 1, None).is_err());
}

/// Runs a suspension over threads that appear one list after the other.
fn suspend(lists: &[&[u32]], gone: &[u32]) -> Result<Vec<u32>, SuspendError> {
    let mut s = Suspension::start(Scope::Own);
    let mut n = 0;
    loop {
        match s.action() {
            SuspendAction::List => {
                let list = lists[n.min(lists.len() - 1)].to_vec();
                n += 1;
                s.step(SuspendReply::Listed(Ok(list)));
            }
            SuspendAction::Open(t) => s.step(if gone.contains(&t) {
                SuspendReply::OpenFailed(ERROR_INVALID_PARAMETER)
            } else {
                SuspendReply::Opened
            }),
            SuspendAction::Suspend(_) => s.step(SuspendReply::Suspended),
            SuspendAction::Done => return s.outcome().unwrap(),
        }
    }
}

#[test]
fn a_suspension_ends_when_no_thread_runs() {
    let held = suspend(&[&[3, 5], &[3, 5, 6], &[3, 5, 6]], &[]);
    match held {
        Ok(h) => assert_eq!(h, vec![3, 5, 6]),
        Err(_) => panic!("the set is stable"),
    }
    match suspend(&[&[3, 4], &[3]], &[4]) {
        Ok(h) => assert_eq!(h, vec![3]),
        Err(_) => panic!("a thread that ended is skipped"),
    }
}

#[test]
fn a_suspension_fails_on_a_live_failure() {
    let mut s = Suspension::start(Scope::Remote);
    s.step(SuspendReply::Listed(Ok(vec![3])));
    s.step(SuspendReply::OpenFailed(1234));
    assert!(matches!(
        s.outcome(),
        Some(Err(SuspendError::Fatal(_)))
    ));
    match after_failure(SuspendError::Retry("x".to_string()), 10) {
        Retry::Again => {}
        Retry::GiveUp(_) => panic!("there is time"),
    }
    match after_failure(SuspendError::Retry("x".to_string()), 2000) {
        Retry::Again => panic!("time is up"),
        Retry::GiveUp(t) => assert_eq!(
            t,
            "x; thread set did not become suspendable within 2000 ms"
        ),
    }
    match after_failure(SuspendError::Fatal("x".to_string()), 0) {
        Retry::Again => panic!("it is fatal"),
        Retry::GiveUp(t) => assert_eq!(t, "x"),
    }
}

#[test]
fn jumps_and_trampolines_hold_their_targets() {
    assert_eq!(
        absolute_jump(0x1122_3344_5566_7788),
        [
            0xff, 0x25, 0, 0, 0, 0, 0x88, 0x77, 0x66, 0x55, 0x44, 0x33, 0x22, 0x11
        ]
    );
    assert_eq!(
        register_jump(1),
        [0x48, 0xb8, 1, 0, 0, 0, 0, 0, 0, 0, 0xff, 0xe0]
    );
    assert_eq!(nop_fill(2), [0x90, 0x90]);
    assert_eq!(filled(vec![1], 3), [1, 0x90, 0x90]);
    assert_eq!(trampoline(&[1, 2], vec![3]), [1, 2, 3]);
    assert_eq!(page_span(0x1ffe, 4), (0x1000, 0x2000));
    assert_eq!(page_span(0x2000, 1), (0x2000, 0x1000));
    match plan_inline(0x1000, &[0x90; 16], 0x2000) {
        Ok(p) => {
            assert_eq!(p.entry.len(), 16);
            assert_eq!(p.trampoline.len(), 30);
            assert_eq!(p.trampoline[22..], 0x1010u64.to_le_bytes());
        }
        Err(e) => panic!("{}", e.message()),
    }
    match plan_inline(0x1000, &[0x90; 13], 0x2000) {
        Ok(_) => panic!("too short"),
        Err(e) => assert!(e.is_clean() && e.message() == "inline hook needs at least 14 safe bytes"),
    }
    assert_eq!(
        allocated(Err(8)).unwrap_err().message(),
        "VirtualAlloc failed (8)"
    );
    assert!(allocated(Ok(7)).is_ok_and(|a| a == 7));
    assert!(finalized(true, true, 0).is_ok());
    assert_eq!(
        finalized(true, false, 5).unwrap_err().message(),
        "finalizing the trampoline failed (5)"
    );
}

#[test]
fn every_fault_of_a_code_write_is_told() {
    let mut steps = WriteSteps {
        protect: Ok(0x20),
        flush: None,
        restore: None,
        verified: true,
    };
    assert_eq!(write_code(&steps), Ok(()));
    steps.flush = Some(1);
    steps.restore = Some(2);
    steps.verified = false;
    assert_eq!(
        write_code(&steps).unwrap_err(),
        "FlushInstructionCache failed (1); VirtualProtect restore failed (2); \
         code write did not verify"
    );
    steps.protect = Err(3);
    assert_eq!(write_code(&steps).unwrap_err(), "VirtualProtect failed (3)");
    let mut original = None;
    assert_eq!(page_protection(&mut original, 0x20), 0x20);
    assert_eq!(page_protection(&mut original, 0x40), 0x20);
}

/// Code that patches act on; writes may fail.
struct Memory {
    bytes: Vec<u8>,
    failing: bool,
}

impl Memory {
    fn run(&mut self, patch: &mut Patch, mut at: Phase) -> Result<(), String> {
        loop {
            let reply = match at.action() {
                Action::Observe => Reply::Bytes(self.bytes.clone()),
                Action::Stop => Reply::Stopped(Ok(())),
                Action::WriteOriginal | Action::WriteReplacement if self.failing => {
                    Reply::Wrote(Err("denied".to_string()))
                }
                Action::WriteOriginal => {
                    self.bytes = patch.original().to_vec();
                    Reply::Wrote(Ok(()))
                }
                Action::WriteReplacement => {
                    self.bytes = patch.replacement().to_vec();
                    Reply::Wrote(Ok(()))
                }
                Action::Done => match at {
                    Phase::Finished(r) => return r,
                    _ => panic!("it is done"),
                },
            };
            at = patch.step(at, reply);
        }
    }
}

fn patch() -> Patch {
    match Patch::prepare(0x1000, &[1, 2], vec![0x90, 0x90], &[1, 2]) {
        Ok(p) => p,
        Err(e) => panic!("{e}"),
    }
}

#[test]
fn a_patch_is_applied_and_taken_back() {
    let mut p = patch();
    let mut m = Memory {
        bytes: vec![1, 2],
        failing: false,
    };
    let at = p.apply();
    assert_eq!(m.run(&mut p, at), Ok(()));
    assert_eq!(m.bytes, [0x90, 0x90]);
    assert_eq!(p.state(&m.bytes), PatchState::Replacement);
    assert!(release_trampoline(&p, &m.bytes).is_err());
    let at = p.restore();
    assert_eq!(m.run(&mut p, at), Ok(()));
    assert_eq!(m.bytes, [1, 2]);
    assert_eq!(release_trampoline(&p, &m.bytes), Ok(()));
    assert!(!p.tainted());
}

#[test]
fn unknown_bytes_are_never_overwritten() {
    let mut p = patch();
    let mut m = Memory {
        bytes: vec![7, 7],
        failing: false,
    };
    let at = p.apply();
    assert!(m.run(&mut p, at).is_err());
    assert_eq!(m.bytes, [7, 7]);
    let prepare = |e: &[u8], r: &[u8], c: &[u8]| match Patch::prepare(0x1000, e, r.to_vec(), c) {
        Ok(_) => panic!("was accepted"),
        Err(e) => e,
    };
    assert_eq!(
        prepare(&[1, 2], &[3, 4], &[1, 3]),
        "original bytes at 0x1000 changed; refusing blind patch"
    );
    assert_eq!(prepare(&[1, 2], &[3], &[1, 2]), "patch lengths are invalid");
    let pointer = |slot, current| match Patch::prepare_pointer(slot, 5, 6, current) {
        Ok(p) => Ok(p.replacement().to_vec()),
        Err(e) => Err(e),
    };
    assert_eq!(pointer(0x1000, 5), Ok(6u64.to_le_bytes().to_vec()));
    assert_eq!(
        pointer(0x1000, 4).unwrap_err(),
        "slot 0x1000 holds 0x4, expected 0x5"
    );
    assert_eq!(
        pointer(0x1004, 5).unwrap_err(),
        "pointer slot is not aligned"
    );
}

#[test]
fn an_installation_that_fails_is_cleaned_up() {
    let mut p = patch();
    let mut bytes = vec![1u8, 2];
    let mut at = p.install();
    let mut first = true;
    let end = loop {
        let reply = match at.action() {
            Action::Observe => Reply::Bytes(bytes.clone()),
            Action::Stop => Reply::Stopped(Ok(())),
            Action::WriteReplacement if first => {
                // half of it is written, and then it fails
                first = false;
                bytes[0] = 0x90;
                Reply::Wrote(Err("denied".to_string()))
            }
            Action::WriteReplacement => panic!("it failed once"),
            Action::WriteOriginal => {
                bytes = vec![1, 2];
                Reply::Wrote(Ok(()))
            }
            Action::Done => match at {
                Install::Finished(r) => break r,
                _ => panic!("it is done"),
            },
        };
        at = p.install_step(at, reply);
    };
    let e = end.unwrap_err();
    assert!(e.is_clean(), "{}", e.message());
    assert_eq!(bytes, [1, 2]);
}

/// Throws a switch over patches of which one cannot be applied.
fn throw(s: &mut Switch, mut at: Throw, on: &mut [bool], bad: Option<usize>) -> Result<(), String> {
    loop {
        let r = match at.action() {
            SwitchAction::Apply(i) if bad == Some(i) => Err(format!("patch {i}")),
            SwitchAction::Apply(i) => {
                on[i] = true;
                Ok(())
            }
            SwitchAction::Restore(i) => {
                on[i] = false;
                Ok(())
            }
            SwitchAction::Done => match at {
                Throw::Finished(r) => return r,
                _ => panic!("it is done"),
            },
        };
        at = s.step(at, r);
    }
}

#[test]
fn a_group_is_switched_as_one() {
    let mut s = Switch::new(Group::Viewpunch, 3);
    let mut on = [false; 3];
    let at = s.toggle();
    assert_eq!(
        throw(&mut s, at, &mut on, Some(2)),
        Err("patch 2".to_string())
    );
    assert_eq!(on, [false; 3]);
    assert!(!s.enabled() && s.is_quiescent());
    let at = s.toggle();
    assert_eq!(throw(&mut s, at, &mut on, None), Ok(()));
    assert_eq!(on, [true; 3]);
    assert!(s.enabled() && !s.is_quiescent());
    let at = s.restore();
    assert_eq!(throw(&mut s, at, &mut on, None), Ok(()));
    assert_eq!(on, [false; 3]);
    assert_eq!(Group::Viewpunch.message(true), "viewpunch remover enabled");
    assert_eq!(
        Group::Fullscreen.message(false),
        "fullscreen preservation disabled"
    );
}

#[test]
fn hooks_are_installed_all_or_none() {
    for bad in [None, Some(2)] {
        let mut set = HookSet::new(Feature::Rawinput);
        let mut on = [false; 4];
        let mut at = set.install();
        let end = loop {
            let reply = match at.action() {
                TaskAction::Install(i) if bad == Some(i) => TaskReply::Installed(Err(
                    bunnyhopfix::hook::InstallError::clean("no slot".to_string()),
                )),
                TaskAction::Install(i) => {
                    on[i] = true;
                    TaskReply::Installed(Ok(()))
                }
                TaskAction::Restore(i) => {
                    on[i] = false;
                    TaskReply::Restored(Ok(()))
                }
                TaskAction::CheckQuiet => TaskReply::Quiet(true),
                TaskAction::Sleep => TaskReply::Slept,
                TaskAction::Release => TaskReply::Released(Ok(())),
                TaskAction::Done => match at {
                    Task::Finished(r) => break r,
                    _ => panic!("it is done"),
                },
            };
            at = set.step(at, reply);
        };
        match bad {
            None => {
                assert_eq!(end, Ok(()));
                assert_eq!(on, [true; 4]);
                assert!(!set.is_quiescent(0));
            }
            Some(_) => {
                assert!(end.is_err());
                assert_eq!(on, [false; 4]);
                assert!(set.is_quiescent(0) && !set.is_quiescent(1));
            }
        }
    }
}

#[test]
fn a_slot_write_puts_the_protection_back() {
    let maps = parse_maps("1000-3000 r--p 00000000 08:02 11 /game/client.so\n");
    let w = SlotWrite::new(0x2008, 0x55, 0x44, &maps);
    let mut at = SlotPhase::Unlock;
    let mut seen = Vec::new();
    let end = loop {
        let action = w.action(&at);
        seen.push(action);
        let reply = match action {
            SlotAction::Protect(..) => SlotReply::Protected(true),
            SlotAction::Write => SlotReply::Wrote,
            SlotAction::Read => SlotReply::Value(0x55),
            SlotAction::Done => match at {
                SlotPhase::Finished(r) => break r,
                _ => panic!("it is done"),
            },
        };
        at = w.step(at, reply);
    };
    assert_eq!(end, Ok(0x44));
    assert_eq!(seen[0], SlotAction::Protect(0x2000, SlotAccess::ReadWrite));
    assert_eq!(seen[2], SlotAction::Protect(0x2000, SlotAccess::ReadOnly));
    match w.step(SlotPhase::Check, SlotReply::Value(1)) {
        SlotPhase::Finished(Err(e)) => assert_eq!(e, "write to 0x2008 did not stick"),
        _ => panic!("it did not stick"),
    }
    match w.step(SlotPhase::Unlock, SlotReply::Protected(false)) {
        SlotPhase::Finished(Err(e)) => assert_eq!(e, "mprotect of 0x2000 failed"),
        _ => panic!("it failed"),
    }
}

/// A byte of code for each pattern byte of the signatures.
fn code_with(pattern: &str) -> Vec<u8> {
    pattern
        .split_whitespace()
        .map(|w| {
            if w == "??" {
                0x10
            } else {
                u8::from_str_radix(w, 16).unwrap()
            }
        })
        .collect()
}

fn windows_code() -> Vec<u8> {
    let sigs = windows_signatures();
    let mut code = vec![0xcc; 32];
    code.extend(code_with(sigs[0].pat));
    code.extend([0xcc; 32]);
    code.extend(code_with(sigs[1].pat));
    code.extend([0xcc; 8]);
    code
}

fn probes(code: &[u8]) -> Vec<Probe> {
    windows_signatures()
        .iter()
        .map(|s| {
            let (addr, bytes) = find_branch(s, code, 0x1000).unwrap();
            assert_eq!(code[(addr - 0x1000) as usize], bytes[0]);
            Probe {
                live: Some(bytes),
                protection: Ok(0x20),
            }
        })
        .collect()
}

#[test]
fn both_branches_are_found_on_windows() {
    let code = windows_code();
    let sites = match find_sites(&code, 0x1000, &probes(&code)) {
        Ok(s) => s,
        Err(e) => panic!("{e}"),
    };
    assert_eq!(sites.len(), 2);
    assert_eq!(sites[0].addr, 0x1000 + 32 + 21);
    assert_eq!(sites[0].original[..2], [0x0f, 0x85]);
    assert_eq!(sites[0].replacement, [0x90; 6]);
    assert_eq!(sites[1].original, [0x75, 0x10]);
    let fails = |code: &[u8], probes: Vec<Probe>| match find_sites(code, 0x1000, &probes) {
        Ok(_) => panic!("was accepted"),
        Err(e) => e,
    };
    let mut twice = code.clone();
    twice.extend(code.clone());
    assert_eq!(
        fails(&twice, probes(&code)),
        "win64 CheckJumpButton #1 matched 2 times; expected exactly one"
    );
    assert_eq!(
        fails(&[], probes(&code)),
        "win64 CheckJumpButton #1 matched 0 times; expected exactly one"
    );
    let mut changed = probes(&code);
    changed[1].live = None;
    assert_eq!(
        fails(&code, changed),
        "win64 CheckJumpButton #2 live bytes changed during discovery"
    );
    assert_eq!(protection(0x1000, Ok(0x20)), Ok(0x20));
    assert_eq!(
        protection(0x1000, Ok(0x04)).unwrap_err(),
        "0x1000 is not in executable memory (protection 0x4)"
    );
    assert_eq!(
        protection(0x1000, Err(9)).unwrap_err(),
        "VirtualQueryEx failed at 0x1000 (9)"
    );
}

/// A process whose memory a transaction acts on; some writes fail.
struct Process {
    mem: Vec<u8>,
    base: u64,
    failing: Vec<usize>,
    writes: usize,
}

impl Process {
    fn run(&mut self, t: &Transaction) -> End {
        let mut at = Stage::Suspend;
        loop {
            let reply = match at.action() {
                StageAction::Suspend => StageReply::Suspended(Ok(())),
                StageAction::Read(i) => {
                    let s: &PatchSite = &t.sites()[i];
                    let from = (s.addr - self.base) as usize;
                    StageReply::Read(Some(self.mem[from..from + s.original.len()].to_vec()))
                }
                StageAction::Query(_) => StageReply::Protection(Ok(0x20)),
                StageAction::Write(i) => {
                    StageReply::Wrote(self.write(t.sites()[i].addr, t.desired(i)))
                }
                StageAction::Undo(i) => {
                    StageReply::Wrote(self.write(t.sites()[i].addr, t.prior(i)))
                }
                StageAction::Done => match at {
                    Stage::Finished(end) => return end,
                    _ => panic!("it is done"),
                },
            };
            at = t.step(at, reply);
        }
    }

    fn write(&mut self, addr: u64, data: &[u8]) -> Result<(), String> {
        let n = self.writes;
        self.writes += 1;
        if self.failing.contains(&n) {
            return Err("denied".to_string());
        }
        let from = (addr - self.base) as usize;
        self.mem[from..from + data.len()].copy_from_slice(data);
        Ok(())
    }
}

#[test]
fn a_transaction_is_all_or_nothing() {
    let code = windows_code();
    let sites = || match find_sites(&code, 0x1000, &probes(&code)) {
        Ok(s) => s,
        Err(e) => panic!("{e}"),
    };
    let process = |failing: &[usize]| Process {
        mem: code.clone(),
        base: 0x1000,
        failing: failing.to_vec(),
        writes: 0,
    };
    let mut p = process(&[]);
    let on = Transaction::new(sites(), true);
    assert!(matches!(p.run(&on), End::Done));
    assert_eq!(p.mem[32 + 21..32 + 27], [0x90; 6]);
    // again: the prior state is not there
    match p.run(&on).outcome() {
        Ok(_) => panic!("it is on"),
        Err(e) => assert_eq!(
            e,
            "win64 CheckJumpButton #1 @ 0x1035 is not in the expected prior state"
        ),
    }
    let off = Transaction::new(on.into_sites(), false);
    assert!(matches!(p.run(&off), End::Done));
    assert_eq!(p.mem, code);

    let mut p = process(&[1]);
    match p.run(&Transaction::new(sites(), true)) {
        End::RolledBack(e) => assert_eq!(
            e,
            format!(
                "writing win64 CheckJumpButton #2 @ 0x{:x}: denied; transaction rolled back",
                sites()[1].addr
            )
        ),
        _ => panic!("the second write fails"),
    }
    assert_eq!(p.mem, code);
    let mut p = process(&[1, 3]);
    assert!(matches!(
        p.run(&Transaction::new(sites(), true)),
        End::Broken(_)
    ));
}

/// Runs a transaction whose sites stand on one page, write by write. The given
/// writes fail.
fn run_on_page(t: &Transaction, mem: &mut [u8], page: &mut u32, failing: &[usize]) -> End {
    let mut writes = 0;
    let mut at = Stage::Suspend;
    loop {
        let action = at.action();
        let reply = match action {
            StageAction::Suspend => StageReply::Suspended(Ok(())),
            StageAction::Read(i) => {
                let s: &PatchSite = &t.sites()[i];
                let from = (s.addr - 0x1000) as usize;
                StageReply::Read(Some(mem[from..from + s.original.len()].to_vec()))
            }
            StageAction::Query(_) => StageReply::Protection(Ok(*page)),
            StageAction::Write(i) | StageAction::Undo(i) => {
                let repair = matches!(action, StageAction::Undo(_));
                let data = if repair { t.prior(i) } else { t.desired(i) }.to_vec();
                let from = (t.sites()[i].addr - 0x1000) as usize;
                let fails = failing.contains(&writes);
                writes += 1;
                let s = &t.sites()[i];
                let w = WriteCall::new(s.addr, data.clone(), s.protection, repair);
                let mut phase = w.start();
                let r = loop {
                    let reply = match w.action(&phase) {
                        WriteAction::Protect(p) => {
                            let before = *page;
                            // a failing write leaves the page unlocked
                            if !fails || p == 0x40 {
                                *page = p;
                            }
                            WriteReply::Protected(if fails && p != 0x40 { Err(5) } else { Ok(before) })
                        }
                        WriteAction::Write => {
                            mem[from..from + data.len()].copy_from_slice(&data);
                            WriteReply::Wrote(true, data.len(), 0)
                        }
                        WriteAction::Flush => WriteReply::Flushed(Ok(())),
                        WriteAction::Read => {
                            WriteReply::Read(Some(mem[from..from + data.len()].to_vec()))
                        }
                        WriteAction::Done => match phase {
                            WritePhase::Finished(r) => break r,
                            _ => panic!("it is done"),
                        },
                    };
                    phase = w.step(phase, reply);
                };
                StageReply::Wrote(r)
            }
            StageAction::Done => match at {
                Stage::Finished(end) => return end,
                _ => panic!("it is done"),
            },
        };
        at = t.step(at, reply);
    }
}

#[test]
fn a_transaction_keeps_the_protection_of_its_page() {
    let code = windows_code();
    let sites = || match find_sites(&code, 0x1000, &probes(&code)) {
        Ok(s) => s,
        Err(e) => panic!("{e}"),
    };
    let t = Transaction::new(sites(), true);

    let (mut mem, mut page) = (code.clone(), 0x20);
    assert!(matches!(run_on_page(&t, &mut mem, &mut page, &[]), End::Done));
    assert_eq!(page, 0x20);
    assert!(mem != code);

    // the second write leaves the page writable; taking it back repairs that
    let (mut mem, mut page) = (code.clone(), 0x20);
    assert!(matches!(
        run_on_page(&t, &mut mem, &mut page, &[1]),
        End::RolledBack(_)
    ));
    assert_eq!((page, mem), (0x20, code.clone()));

    let (mut mem, mut page) = (code.clone(), 0x80);
    match run_on_page(&t, &mut mem, &mut page, &[]) {
        End::Refused(e) => assert_eq!(
            e,
            "win64 CheckJumpButton #1 @ 0x1035 protection changed from 0x20 to 0x80"
        ),
        _ => panic!("the page is another"),
    }
    assert_eq!((page, mem), (0x80, code.clone()));
}

#[test]
fn a_write_is_read_back() {
    let run = |mut old: u32, data: &[u8], read: Option<Vec<u8>>| {
        let w = WriteCall::new(0x1000, data.to_vec(), 0x20, false);
        let mut at = w.start();
        loop {
            let reply = match w.action(&at) {
                WriteAction::Protect(p) => {
                    let before = old;
                    old = p;
                    WriteReply::Protected(Ok(before))
                }
                WriteAction::Write => WriteReply::Wrote(true, data.len(), 0),
                WriteAction::Flush => WriteReply::Flushed(Ok(())),
                WriteAction::Read => WriteReply::Read(read.clone()),
                WriteAction::Done => match at {
                    WritePhase::Finished(r) => return (r, old),
                    _ => panic!("it is done"),
                },
            };
            at = w.step(at, reply);
        }
    };
    assert_eq!(run(0x20, &[1], Some(vec![1])), (Ok(()), 0x20));
    assert_eq!(
        run(0x20, &[1], Some(vec![2])).0.unwrap_err(),
        "executable-memory write did not verify"
    );
    let (r, left) = run(0x40, &[1], Some(vec![1]));
    assert_eq!(
        r.unwrap_err(),
        "page protection changed from 0x20 to 0x40"
    );
    assert_eq!(left, 0x40);
    assert_eq!(
        run(0x20, &[], None).0.unwrap_err(),
        "refusing an empty executable-memory write"
    );
}

#[test]
fn the_linux_branches_are_found_and_switched() {
    let sigs = linux_signatures();
    let mut code = vec![0x90; 16];
    for s in &sigs[..2] {
        code.extend(code_with(s.pat));
        code.extend([0xcc; 16]);
    }
    assert_eq!(scan(&code).len(), 2);
    let sites = match discover(0x40_0000, &code) {
        Ok(s) => s,
        Err(e) => panic!("{e}"),
    };
    assert_eq!(sites[0].addr, 0x40_0000 + 16 + 21);
    match discover(0x40_0000, &[0x90; 64]) {
        Ok(_) => panic!("there is nothing"),
        Err(e) => assert_eq!(e, "no signatures matched (game updated? already patched?)"),
    }
    // One branch alone, or one branch twice, is not patched.
    let lone = code_with(sigs[0].pat);
    match discover(0x40_0000, &lone) {
        Ok(_) => panic!("there is one branch only"),
        Err(e) => assert_eq!(
            e,
            "linux64 CheckJumpButton #2 matched 0 times; expected exactly one"
        ),
    }
    let mut twice = code.clone();
    twice.extend(&lone);
    match discover(0x40_0000, &twice) {
        Ok(_) => panic!("there is one branch too many"),
        Err(e) => assert_eq!(
            e,
            "linux64 CheckJumpButton #1 matched 2 times; expected exactly one"
        ),
    }
    let branches = sites
        .iter()
        .map(|s| {
            let from = (s.addr - 0x40_0000) as usize;
            Branch {
                site: *s,
                original: code[from..from + s.len].to_vec(),
            }
        })
        .collect();
    let mut p = Patcher::new(branches);
    let mut mem = code.clone();
    let switch = |p: &mut Patcher, mem: &mut Vec<u8>, on: bool, game: bool| {
        let mut at = Patching::Check;
        loop {
            let reply = match &at {
                Patching::Check => SwitchReply::Game(game),
                Patching::Write(i) => {
                    let data = p.bytes(*i, on);
                    let from = (p.branches[*i].site.addr - 0x40_0000) as usize;
                    mem[from..from + data.len()].copy_from_slice(&data);
                    SwitchReply::Wrote(Ok(()))
                }
                Patching::Done(r) => return p.settle(on, r),
            };
            at = p.step(at, reply);
        }
    };
    assert_eq!(switch(&mut p, &mut mem, true, true), None);
    assert!(p.enabled);
    assert_eq!(mem[37..43], [0x90; 6]);
    assert_eq!(
        switch(&mut p, &mut mem, false, false).as_deref(),
        Some("[!] failed to restore: target pid is no longer a CS:S process")
    );
    assert!(p.enabled);
    assert_eq!(switch(&mut p, &mut mem, false, true), None);
    assert_eq!(mem, code);
    assert_eq!(status_head(true), "\n=== Autobhop prediction: ON ===");
    assert_eq!(status_head(false), "\n=== Autobhop prediction: OFF ===");
}

const QUIET: Quiet = Quiet {
    rawinput: true,
    viewpunch: true,
    fullscreen: true,
    fastdl: true,
};

/// Runs a worker until it exits; one action may fail.
fn work(bad: Option<WorkerAction>, quiet: Quiet, insecure: bool) -> (u32, ControlBlock) {
    let mut block = ControlBlock::new(1, 0);
    let mut at = begin(&mut block);
    let mut looks = 0;
    loop {
        let action = at.action();
        let reply = match action {
            WorkerAction::CheckInsecure => WorkerReply::Flag(insecure),
            WorkerAction::CheckStop => {
                looks += 1;
                WorkerReply::Flag(looks > 3)
            }
            WorkerAction::FindModules => WorkerReply::Flag(true),
            WorkerAction::ReadF6 | WorkerAction::ReadF7 => WorkerReply::Flag(true),
            WorkerAction::AskQuiet => WorkerReply::Quiet(quiet),
            WorkerAction::SleepModules
            | WorkerAction::ShutdownEngine
            | WorkerAction::StartLookups
            | WorkerAction::StopLookups
            | WorkerAction::Sleep => WorkerReply::Done,
            WorkerAction::Exit => match at {
                WorkerPhase::Exited(code) => return (code, block),
                _ => panic!("it exits"),
            },
            _ if bad == Some(action) => WorkerReply::Outcome(Err("broken".to_string())),
            _ => WorkerReply::Outcome(Ok(())),
        };
        at = step(&mut block, at, reply);
    }
}

fn last_log(block: &ControlBlock) -> String {
    let mut out = [0u8; 240];
    let (_, len) = block
        .read_log(block.latest_log_sequence(), &mut out)
        .unwrap();
    String::from_utf8(out[..len].to_vec()).unwrap()
}

#[test]
fn a_worker_serves_and_restores() {
    let (code, block) = work(None, QUIET, true);
    assert_eq!(code, 0);
    assert_eq!(block.unload_safe, 1);
    assert_eq!(block.features, 0);
    assert_eq!(last_log(&block), "Windows x64 hooks restored");
}

#[test]
fn a_failed_worker_says_whether_it_may_be_unloaded() {
    for (bad, code, text) in [
        (
            WorkerAction::InstallEngine,
            5,
            "engine integration failed: broken",
        ),
        (
            WorkerAction::InstallFullscreen,
            6,
            "fullscreen integration failed: broken",
        ),
        (
            WorkerAction::InstallRawinput,
            7,
            "rawinput2 install failed: broken",
        ),
        (
            WorkerAction::InstallViewpunch,
            8,
            "viewpunch install failed: broken",
        ),
        (WorkerAction::InstallFastdl, 9, "fastdl install failed: broken"),
    ] {
        let (got, block) = work(Some(bad), QUIET, true);
        assert_eq!(got, code);
        assert_eq!(last_log(&block), text);
        assert_eq!((block.unload_safe, block.error), (1, code));
    }
    let busy = Quiet {
        rawinput: false,
        ..QUIET
    };
    let (code, block) = work(Some(WorkerAction::InstallRawinput), busy, true);
    assert_eq!((code, block.unload_safe), (7, 0));
    let (code, block) = work(Some(WorkerAction::RestoreFastdl), QUIET, true);
    assert_eq!((code, block.unload_safe), (10, 0));
    assert_eq!(
        last_log(&block),
        "hook restoration failed: fastdl: broken"
    );
}

#[test]
fn a_secure_game_is_left_alone() {
    let (code, block) = work(None, QUIET, false);
    assert_eq!((code, block.unload_safe), (3, 1));
    assert_eq!(
        last_log(&block),
        "hook start rejected: game was not launched with -insecure"
    );
    let mut used = ControlBlock::new(1, 8);
    assert!(!initial_viewpunch(&used));
    assert_eq!(fail(&mut used, 4, "x", false), 4);
    match begin(&mut used) {
        WorkerPhase::Exited(code) => assert_eq!(code, 2),
        _ => panic!("the block is not new"),
    }
}

#[test]
fn the_controller_reads_the_workers_log() {
    let mut block = ControlBlock::new(7, 0);
    assert!(is_our_block(&block));
    assert!(!should_stop(&block, false) && should_stop(&block, true));
    let mut next = 1;
    for i in 0..3 {
        block.push_log(LogLevel::Info, &format!("line {i}"));
    }
    let (overrun, records) = flush_logs(&block, &mut next);
    assert_eq!(overrun, None);
    assert_eq!(records.len(), 3);
    assert_eq!(records[2].1, b"line 2");
    let (_, records) = flush_logs(&block, &mut next);
    assert!(records.is_empty());
    for i in 0..500 {
        block.push_log(LogLevel::Warn, &format!("line {i}"));
    }
    let (overrun, records) = flush_logs(&block, &mut next);
    assert!(overrun.is_some());
    assert_eq!(records.last().unwrap().1, b"line 499");
    assert_eq!(block_name(42), "Local\\bunnyhopfix-42");
}

#[test]
fn a_session_unloads_only_what_is_safe() {
    let stopped = |state, unload_safe, code| {
        let mut at = SessionPhase::shutdown(false);
        loop {
            let reply = match at.action() {
                SessionAction::StopWorker(_) => SessionReply::Waited(Ok(code), state, unload_safe),
                SessionAction::Unload => SessionReply::Unloaded(Ok(())),
                SessionAction::Done => match at {
                    SessionPhase::Finished(r) => return r,
                    _ => panic!("it is done"),
                },
                _ => panic!("it is not asked"),
            };
            at = at.step(reply);
        }
    };
    assert_eq!(stopped(4, 1, 0), Ok(()));
    assert_eq!(
        stopped(4, 0, 0).unwrap_err(),
        "hook did not restore cleanly (state 4, worker code 0, unload-safe 0); DLL remains loaded"
    );
    assert!(stopped(5, 1, 10).is_err());
    assert!(matches!(
        SessionPhase::shutdown(true),
        SessionPhase::Finished(Ok(()))
    ));
    assert_eq!(wait_thread(0, Ok(3), 0), Ok(3));
    assert_eq!(
        wait_thread(258, Ok(3), 0).unwrap_err(),
        "remote thread timed out"
    );
    assert_eq!(
        wait_thread(1, Ok(3), 6).unwrap_err(),
        "WaitForSingleObject failed (6)"
    );
    assert_eq!(
        wait_thread(0, Err(6), 0).unwrap_err(),
        "GetExitCodeThread failed (6)"
    );
}

#[test]
fn a_worker_that_does_not_start_is_told_of() {
    let mut at = SessionPhase::wait_ready();
    at = at.step(SessionReply::State(5, 7));
    at = at.step(SessionReply::Waited(Ok(7), 5, 1));
    at = at.step(SessionReply::Unloaded(Ok(())));
    match at {
        SessionPhase::Failed(e, gone) => {
            assert!(gone);
            assert_eq!(
                e,
                "hook worker failed (code 7); startup changes were restored and the DLL was unloaded"
            );
        }
        _ => panic!("it failed"),
    }
    let mut at = SessionPhase::wait_ready();
    let mut rounds = 0;
    while !matches!(at, SessionPhase::Failing(_)) {
        at = match at.action() {
            SessionAction::Look => at.step(SessionReply::State(1, 0)),
            SessionAction::CheckWorker => at.step(SessionReply::Ended(false)),
            _ => {
                rounds += 1;
                at.step(SessionReply::Slept)
            }
        };
    }
    assert_eq!(rounds, 3000);
    match SessionPhase::Alive(0).step(SessionReply::Ended(true)) {
        SessionPhase::Failing(e) => {
            assert_eq!(e, "hook worker exited before publishing ready state");
        }
        _ => panic!("it ended"),
    }
}

fn library() -> Library {
    Library {
        name: "bhopfix.dll".to_string(),
        start_rva: 0x40,
    }
}

#[test]
fn the_library_is_loaded_in_steps() {
    let l = library();
    let mut at = Inject::Look;
    at = l.step(at, InjectReply::Module(None));
    for _ in 0..4 {
        at = l.step(at, InjectReply::Outcome(Ok(())));
    }
    assert!(matches!(at, Inject::WaitLoader));
    assert_eq!(
        l.path_memory(&at, &InjectReply::Outcome(Ok(()))),
        PathMemory::Free
    );
    assert_eq!(
        l.path_memory(&at, &InjectReply::Outcome(Err("x".to_string()))),
        PathMemory::Leak
    );
    at = l.step(at, InjectReply::Outcome(Ok(())));
    at = l.step(at, InjectReply::Module(None));
    at = l.step(at, InjectReply::Slept);
    at = l.step(at, InjectReply::Module(Some(0x1000)));
    match at {
        Inject::StartWorker(entry, module) => assert_eq!((entry, module), (0x1040, 0x1000)),
        _ => panic!("it was found"),
    }
    match l.step(at, InjectReply::Outcome(Ok(()))) {
        Inject::Finished(r) => assert_eq!(r, Ok(0x1000)),
        _ => panic!("it runs"),
    }
    match l.step(Inject::Look, InjectReply::Module(Some(1))) {
        Inject::Finished(Err(e)) => assert_eq!(
            e,
            "bhopfix.dll is already loaded in the target; restart the game"
        ),
        _ => panic!("it is loaded"),
    }
    let at = l.step(
        Inject::StartWorker(1, 2),
        InjectReply::Outcome(Err("no thread".to_string())),
    );
    match l.step(at, InjectReply::Outcome(Err("stuck".to_string()))) {
        Inject::Finished(Err(e)) => assert_eq!(e, "no thread; DLL cleanup failed: stuck"),
        _ => panic!("it failed"),
    }
    let e = open_library("x".to_string(), "x.dll", vec![0; 10]);
    assert_eq!(e.map(|_| ()).unwrap_err(), "x.dll is not a valid x64 PE DLL");
}

#[test]
fn unloading_waits_until_the_library_is_gone() {
    let at = Unload::Call.step("a.dll", UnloadReply::Called(Ok(1)));
    let at = at.step("a.dll", UnloadReply::Present(Ok(true)));
    let at = at.step("a.dll", UnloadReply::Slept);
    match at.step("a.dll", UnloadReply::Present(Ok(false))) {
        Unload::Finished(r) => assert_eq!(r, Ok(())),
        _ => panic!("it is gone"),
    }
    match Unload::Call.step("a.dll", UnloadReply::Called(Ok(0))) {
        Unload::Finished(r) => assert_eq!(r.unwrap_err(), "remote FreeLibrary returned false"),
        _ => panic!("it was refused"),
    }
    match Unload::Pause(99).step("a.dll", UnloadReply::Slept) {
        Unload::Finished(r) => assert_eq!(
            r.unwrap_err(),
            "remote FreeLibrary returned true but a.dll remains loaded"
        ),
        _ => panic!("patience is over"),
    }
}

#[test]
fn a_system_function_keeps_its_place() {
    assert_eq!(
        remote_system_function(0x1234, 0x1000, "LoadLibraryW", 0x9000, 0x1000),
        Ok(0x9234)
    );
    assert_eq!(
        remote_system_function(0x2000, 0x1000, "LoadLibraryW", 0x9000, 0x1000).unwrap_err(),
        "resolved LoadLibraryW function RVA is outside the target module"
    );
    assert_eq!(
        remote_system_function(0xfff, 0x1000, "LoadLibraryW", 0x9000, 0x1000).unwrap_err(),
        "resolved system function precedes its module"
    );
}

fn delta(time: i64, x: i32, y: i32) -> Delta {
    Delta { time, x, y }
}

#[test]
fn deltas_are_served_up_to_the_threshold() {
    let mut r = Ring::new();
    for t in 1..=10 {
        r.push_over(delta(t, 1, -2));
    }
    assert_eq!(r.serve(2, 4), (4, -8));
    assert_eq!(r.queued(), 6);
    assert_eq!(r.serve(1, 0), (6, -12));
    assert_eq!(r.queued(), 0);
    r.push(delta(1, i32::MAX, 5));
    r.push(delta(2, 7, 6));
    assert_eq!(r.serve_stock(2, 9, (1, 1)), (i32::MAX, 11));
    r.push(delta(3, 7, 6));
    assert_eq!(r.serve_stock(1, 9, (1, 1)), (1, 1));
    assert_eq!(r.queued(), 0);
}

#[test]
fn a_full_ring_drops_the_oldest_or_the_newest() {
    let mut over = Ring::new();
    let mut under = Ring::new();
    for t in 0..1030 {
        over.push_over(delta(t, 1, t as i32));
        under.push(delta(t, 1, t as i32));
    }
    assert_eq!(over.drain(Some(5)), (0, 0), "the oldest are gone");
    let (n, _) = under.drain_saturating(Some(5));
    assert_eq!(n, 6);
}

#[test]
fn the_threshold_counts_the_tick_down() {
    let mut s = Sampler::new();
    assert_eq!(s.threshold(100), 100);
    s.begin_tick(50);
    assert_eq!(s.threshold(120), 90);
    assert_eq!(s.threshold(160), 160);
    s.begin_sample(40, 200);
    assert_eq!(s.threshold(210), 180);
    assert_eq!(s.threshold(260), 260);
    s.begin_sample(-7, 300);
    assert_eq!(s.threshold(300), 300);
}

#[test]
fn the_mode_is_forced_once() {
    let mut forced = false;
    assert!(!force_rawinput_default(true, &mut forced, false));
    assert!(force_rawinput_default(true, &mut forced, true));
    assert!(!force_rawinput_default(true, &mut forced, true));
    let mut never = false;
    assert!(!force_rawinput_default(false, &mut never, true));
    assert_eq!(rawinput_mode(Some(2)), 2);
    let message = RawMessage {
        needed: 40,
        copied: 48,
        kind: 0,
        flags: 0,
        x: 3,
        y: -4,
    };
    assert_eq!(mouse_delta(message), Some((3, -4)));
    assert_eq!(mouse_delta(RawMessage { flags: 1, ..message }), None);
    assert_eq!(mouse_delta(RawMessage { kind: 1, ..message }), None);
    assert_eq!(mouse_delta(RawMessage { x: 0, y: 0, ..message }), None);
    assert_eq!(
        mouse_delta(RawMessage {
            copied: u32::MAX,
            ..message
        }),
        None
    );
}

#[test]
fn a_key_switches_once_and_the_end_restores() {
    let look = |quitting, readable, f5, scroll| WatchEvent::Look {
        quitting,
        readable,
        f5,
        scroll,
    };
    let mut w = Watch::new(false, true, false);
    w = w.step(look(false, true, true, false));
    assert_eq!(w.phase, WatchPhase::Watching, "it was down before");
    w = w.step(look(false, true, false, true));
    w = w.step(look(false, true, true, true));
    assert_eq!(w.phase, WatchPhase::Toggling(false));
    w = w.step(WatchEvent::Switched(false));
    assert!(w.on, "the switch was refused");
    w = w.step(look(false, true, true, true));
    assert_eq!(w.phase, WatchPhase::Watching);
    w = w.step(look(true, true, false, false));
    assert_eq!(w.phase, WatchPhase::Restoring);
    w = w.step(WatchEvent::Switched(true));
    w = w.step(WatchEvent::Unloaded(true));
    assert_eq!((w.phase, w.on), (WatchPhase::Done(0), false));
    let stuck = Watch::new(true, false, false)
        .step(look(true, true, false, false))
        .step(WatchEvent::Switched(false))
        .step(WatchEvent::Unloaded(true));
    assert_eq!(stuck.phase, WatchPhase::Done(1));
    let gone = Watch::new(true, false, false).step(look(false, false, true, true));
    assert_eq!(gone.phase, WatchPhase::Done(0));
    let scroll = Watch::new(true, false, false).step(look(false, true, false, true));
    assert_eq!(scroll.phase, WatchPhase::Toggling(false));
    assert_eq!(wait_for_module(false, true, false, false), Wait::Quit);
    assert_eq!(wait_for_module(false, false, false, false), Wait::Again);
    assert_eq!(wait_for_module(true, false, false, false), Wait::Gone);
    assert_eq!(wait_for_module(true, true, true, false), Wait::Found);
}

#[test]
fn the_linux_game_is_sought_until_it_is_loaded() {
    let polled = SeekEvent::Polled {
        term: false,
        launcher_exited: false,
    };
    let at = Seek::Poll(None).step(polled);
    assert_eq!(at, Seek::Find);
    assert_eq!(at.step(SeekEvent::Game(None)), Seek::Sleep(None, 250));
    let at = at.step(SeekEvent::Game(Some(9)));
    assert_eq!(at.step(SeekEvent::Client(false)), Seek::Sleep(Some(9), 250));
    let at = at.step(SeekEvent::Client(true));
    let again = at.step(SeekEvent::Discovered(false));
    assert_eq!(again, Seek::Sleep(Some(9), 1000));
    assert_eq!(again.step(SeekEvent::Slept), Seek::Poll(Some(9)));
    assert_eq!(at.step(SeekEvent::Discovered(true)), Seek::Ready(9));
    assert_eq!(
        Seek::Poll(None).step(SeekEvent::Polled {
            term: false,
            launcher_exited: true,
        }),
        Seek::LauncherExited
    );
    assert_eq!(
        Seek::Poll(Some(1)).step(SeekEvent::Polled {
            term: true,
            launcher_exited: true,
        }),
        Seek::Terminated
    );
}

#[test]
fn the_linux_loop_takes_the_patch_out() {
    let signals = |term, toggle| GuardEvent::Signals { term, toggle };
    let here = GuardEvent::Presence {
        client: true,
        launcher_exited: false,
    };
    let g = Guard::new(false, false, true);
    let g = g.step(signals(false, true));
    assert_eq!(g.phase, GuardPhase::Signalled(false));
    let g = g.step(GuardEvent::Switched(true));
    assert!(!g.enabled);
    let g = g.step(GuardEvent::Scroll(true)).step(here);
    assert_eq!(g.phase, GuardPhase::Signals);
    assert_eq!(g.step(signals(true, false)).phase, GuardPhase::Done);
    let g = Guard::new(true, false, true).step(signals(false, false));
    let g = g.step(GuardEvent::Scroll(true));
    assert_eq!(g.phase, GuardPhase::Scrolled(false));
    let g = g.step(GuardEvent::Switched(false));
    assert!(g.enabled && g.last_scroll);
    let g = g.step(GuardEvent::Presence {
        client: false,
        launcher_exited: false,
    });
    assert_eq!(g.phase, GuardPhase::Closing);
    let g = g.step(GuardEvent::Switched(false));
    assert_eq!(g.phase, GuardPhase::Done);
    let g = Guard::new(true, false, true).step(signals(true, true));
    assert_eq!(g.phase, GuardPhase::Restoring);
    assert_eq!(
        g.step(GuardEvent::Switched(false)).phase,
        GuardPhase::Closing
    );
    assert_eq!(g.step(GuardEvent::Switched(true)).phase, GuardPhase::Done);
}

/// Arms the preloaded library; gives the lines, and whether the accumulator was
/// taken over and how many slots were hooked.
fn arm(poll: Option<(u64, Result<(), String>)>, slots: &[bool], engine: bool) -> (Vec<String>, bool, usize) {
    let mut init = Init::new(false);
    let mut lines = Vec::new();
    let mut poll = Some(poll);
    let (mut accumulator, mut moves) = (false, 0);
    loop {
        let reply = match init.phase {
            InitPhase::Insecure => InitReply::Insecure(true),
            InitPhase::Modules(_) => InitReply::Modules {
                client: Some(0x1000),
                launcher: Some(0x2000),
                engine,
            },
            InitPhase::Parse | InitPhase::EngineParse => InitReply::Parsed(true),
            InitPhase::Sdl => InitReply::Sdl {
                library: true,
                poll: true,
            },
            InitPhase::Poll => InitReply::Poll(poll.take().unwrap()),
            InitPhase::Accumulator => {
                accumulator = true;
                InitReply::Accumulator(Some((0x10, 0x20, Ok(()))))
            }
            InitPhase::CreateMove => InitReply::CreateMove(Some((
                0x30,
                (0..slots.len() as u64).map(|i| 0x40 + 8 * i).collect(),
            ))),
            InitPhase::Slot { index, .. } => InitReply::Slot(if slots[index] {
                moves += 1;
                Ok(())
            } else {
                Err("no".to_string())
            }),
            InitPhase::Fastdl => InitReply::Fastdl(true),
            InitPhase::Done => return (lines, accumulator, moves),
            _ => InitReply::Finished,
        };
        lines.extend(init.step(reply));
    }
}

#[test]
fn the_preloaded_library_is_armed_in_order() {
    let (lines, accumulator, moves) = arm(Some((0x88, Ok(()))), &[true, false], true);
    assert!(accumulator);
    assert_eq!(moves, 1);
    assert_eq!(
        lines,
        vec![
            "modules found: client 0x1000 launcher 0x2000",
            "SDL symbols resolved",
            "hooked SDL_PollEvent (GOT +0x88)",
            "hooked GetRawMouseAccumulators (7CSDLMgr slot +0x10, fn +0x20)",
            "CreateMove slot +0x48 NOT hooked: no",
            "hooked CreateMove (1/2 input vtables, fn +0x30)",
            "hooked ProcessServerInfo (fastdl.me map hijack armed)",
            "ready. set `m_rawinput 2` in game for tick-aligned sampling",
        ]
    );
}

#[test]
fn the_accumulator_stays_without_the_event_poll() {
    let (lines, accumulator, _) = arm(None, &[false], false);
    assert!(!accumulator);
    assert_eq!(
        lines[2..],
        [
            "FAILED to hook SDL_PollEvent: launcher.so has no relocation for it",
            "NOT hooking GetRawMouseAccumulators without the SDL hook (mouse would stop)",
            "CreateMove slot +0x40 NOT hooked: no",
            "FAILED to hook CreateMove (no slot validated)",
            "ready. set `m_rawinput 2` in game for tick-aligned sampling",
        ]
    );
    let mut secure = Init::new(false);
    assert_eq!(
        secure.step(InitReply::Insecure(false)),
        vec!["game was not started with -insecure; NOT installing hooks"]
    );
    assert_eq!(secure.phase, InitPhase::Done);
    let mut late = Init::new(true);
    late.step(InitReply::Insecure(true));
    let mut lines = Vec::new();
    while late.phase != InitPhase::Done {
        lines = late.step(InitReply::Modules {
            client: None,
            launcher: Some(1),
            engine: true,
        });
    }
    assert_eq!(lines, vec!["timed out waiting for client.so/launcher.so"]);
}

#[test]
fn nothing_is_patched_before_the_library_serves() {
    let replies = [
        StartupReply::Opened(true),
        StartupReply::Judged(Verdict::Admitted),
        StartupReply::Client(true),
        StartupReply::Discovered(true),
        StartupReply::Library(true),
        StartupReply::Injected(true),
        StartupReply::Ready(true),
        StartupReply::Patched(true),
    ];
    let mut at = Startup::Open;
    for reply in replies {
        assert!(at != Startup::Serve);
        at = at.step(reply);
    }
    assert_eq!(at, Startup::Serve);
    assert_eq!(
        Startup::Judge.step(StartupReply::Judged(Verdict::Secure)),
        Startup::Exit(1)
    );
    assert_eq!(Startup::Client.step(StartupReply::Client(false)), Startup::Exit(0));
    assert_eq!(Startup::Library.step(StartupReply::Library(false)), Startup::Exit(1));
    let failed = Startup::Patch.step(StartupReply::Patched(false));
    assert_eq!(failed, Startup::Withdraw);
    assert_eq!(failed.step(StartupReply::Withdrawn(true)), Startup::Exit(1));
    // A reply that was not waited for changes nothing.
    assert_eq!(Startup::Patch.step(StartupReply::Ready(false)), Startup::Patch);
}

#[test]
fn only_insecure_games_are_attached_to() {
    assert!(admit_attach(Some(b"hl2\0-insecure\0")).is_ok());
    for line in [None, Some(&b"hl2\0-insecured\0"[..])] {
        let text = admit_attach(line).unwrap_err();
        assert!(text.starts_with("[!] the game was NOT started with -insecure."));
    }
}
