//! Cross-process control block shared by the Windows patcher and hook DLL.
use vstd::prelude::*;
use vstd::utf8::{
    decode_utf8, decode_utf8_encode_utf8, decode_utf8_split, encode_utf8, encode_utf8_decode_utf8,
    encode_utf8_valid_utf8, is_char_boundary, is_char_boundary_iff_not_is_continuation_byte,
    is_char_boundary_start_end_of_seq, is_continuation_byte, valid_utf8, valid_utf8_split,
};

verus! {

/// Magic identifying a mapped bunnyhopfix control block (`BHFX`).
pub const MAGIC: u32 = 0x5846_4842;

/// Version of the shared layout.
pub const VERSION: u32 = 5;

/// Number of fixed log records retained in shared memory.
pub const LOG_SLOTS: usize = 64;

/// Maximum UTF-8 bytes in one shared log record.
pub const LOG_BYTES: usize = 240;

/// Hook worker has not started.
pub const STATE_CREATED: u32 = 0;

/// Hook worker is resolving and installing features.
pub const STATE_STARTING: u32 = 1;

/// Hook worker finished installation and is servicing the game.
pub const STATE_READY: u32 = 2;

/// Controller requested shutdown and hooks are being restored.
pub const STATE_STOPPING: u32 = 3;

/// Every installed hook and patch has been restored.
pub const STATE_STOPPED: u32 = 4;

/// Hook worker refused startup; the block's error field holds a code.
pub const STATE_FAILED: u32 = 5;

/// Enable resolver and input instrumentation logs.
pub const FLAG_DEBUG: u32 = 1;

/// Stamp `m_rawinput` to 2 once after spawn.
pub const FLAG_FORCE_RAWINPUT2: u32 = 2;

/// Automatically record one POV demo per map.
pub const FLAG_DEMOS: u32 = 4;

/// Do not install the viewpunch remover.
pub const FLAG_KEEP_VIEWPUNCH: u32 = 8;

/// Disable SourceJump API lookups.
pub const FLAG_NO_SOURCEJUMP: u32 = 16;

/// Tick-aligned raw-input hooks are fully installed.
pub const FEATURE_RAWINPUT2: u64 = 1;

/// Viewpunch application sites are disabled.
pub const FEATURE_VIEWPUNCH: u64 = 2;

/// Fastdl map-version interception is installed.
pub const FEATURE_FASTDL: u64 = 4;

/// Validated `IVEngineClient::ClientCmd` integration is available.
pub const FEATURE_CONSOLE: u64 = 8;

/// Download progress polling and completion flash are available.
pub const FEATURE_DOWNLOADS: u64 = 16;

/// Windows exclusive-fullscreen preservation patches are available.
pub const FEATURE_FULLSCREEN: u64 = 32;

/// SourceJump lookups and in-console results are enabled.
pub const FEATURE_SOURCEJUMP: u64 = 64;

/// Severity carried with one Windows hook log record.
#[derive(Clone, Copy, Debug, Eq, PartialEq, Structural)]
pub enum LogLevel {
    /// A feature or cleanup operation failed.
    Error,
    /// A recoverable condition requires user attention.
    Warn,
    /// Normal lifecycle and feature status.
    Info,
    /// Opt-in resolver or input instrumentation.
    Debug,
}

impl LogLevel {
    /// The number that stands for a level in a record.
    pub open spec fn code_of(self) -> u8 {
        match self {
            LogLevel::Error => 1,
            LogLevel::Warn => 2,
            LogLevel::Info => 3,
            LogLevel::Debug => 4,
        }
    }

    /// The level that a number in a record stands for.
    pub open spec fn of_code(value: u8) -> Option<LogLevel> {
        if value == 1 {
            Some(LogLevel::Error)
        } else if value == 2 {
            Some(LogLevel::Warn)
        } else if value == 3 {
            Some(LogLevel::Info)
        } else if value == 4 {
            Some(LogLevel::Debug)
        } else {
            None
        }
    }

    /// The number that stands for a level in a record.
    pub fn code(self) -> (r: u8)
        ensures
            r == self.code_of(),
    {
        match self {
            LogLevel::Error => 1,
            LogLevel::Warn => 2,
            LogLevel::Info => 3,
            LogLevel::Debug => 4,
        }
    }

    /// The level that a number in a record stands for.
    pub fn try_from(value: u8) -> (r: Result<LogLevel, ()>)
        ensures
            match r {
                Ok(level) => LogLevel::of_code(value) == Some(level),
                Err(_) => LogLevel::of_code(value) is None,
            },
    {
        if value == 1 {
            Ok(LogLevel::Error)
        } else if value == 2 {
            Ok(LogLevel::Warn)
        } else if value == 3 {
            Ok(LogLevel::Info)
        } else if value == 4 {
            Ok(LogLevel::Debug)
        } else {
            Err(())
        }
    }
}

/// One fixed-size record in the cross-process log ring.
#[derive(Clone, Copy)]
pub struct LogSlot {
    pub sequence: u32,
    pub len: u32,
    pub level: u8,
    pub data: [u8; 240],
}

impl LogSlot {
    /// A record that holds nothing yet.
    pub fn new() -> (r: LogSlot)
        ensures
            r.sequence == 0,
            r.len == 0,
            r.level == LogLevel::Info.code_of(),
            r.data@ == Seq::new(240, |i: int| 0u8),
    {
        LogSlot { sequence: 0, len: 0, level: 3, data: [0u8;240] }
    }
}

/// Shared Windows hook lifecycle, feature status, counters and bounded logs.
pub struct ControlBlock {
    /// [`MAGIC`].
    pub magic: u32,
    /// [`VERSION`].
    pub version: u32,
    /// PID of the patcher that owns this session.
    pub controller_pid: u32,
    /// Session configuration flags.
    pub flags: u32,
    /// One of the `STATE_*` constants.
    pub state: u32,
    /// Nonzero platform error or resolver-specific failure code.
    pub error: u32,
    /// Controller sets this to request restoration and shutdown.
    pub stop: u32,
    /// One only after the hook worker has exited every callback path and no
    /// process memory still points into the DLL. The controller must not call
    /// `FreeLibrary` unless this is set.
    pub unload_safe: u32,
    /// Installed `FEATURE_*` bits.
    pub features: u64,
    /// Number of captured raw mouse messages.
    pub raw_events: u64,
    /// Number of tick-aligned accumulator serves.
    pub raw_serves: u64,
    /// Sequence number of the last record written.
    pub log_write: u32,
    /// The log ring.
    pub logs: [LogSlot; 64],
}

/// The ring slot of a sequence number.
pub open spec fn slot_of(sequence: u32) -> int {
    (if sequence == 0 {
        u32::MAX as int
    } else {
        sequence - 1
    }) % LOG_SLOTS as int
}

/// The sequence number after `sequence`.
pub open spec fn next_sequence(sequence: u32) -> u32 {
    if sequence == u32::MAX {
        0
    } else {
        (sequence + 1) as u32
    }
}

/// The last place at or before `n` at which a character of a text begins.
pub open spec fn character_start(text: Seq<u8>, n: int) -> int
    decreases n,
{
    if n <= 0 {
        0
    } else if is_continuation_byte(text[n]) {
        character_start(text, n - 1)
    } else {
        n
    }
}

/// How many bytes of a message a record keeps: all of them, or as many whole
/// characters as fit.
pub open spec fn kept(message: Seq<u8>) -> int {
    if message.len() <= LOG_BYTES {
        message.len() as int
    } else {
        character_start(message, LOG_BYTES as int)
    }
}

/// `bytes` spell the first characters of a text.
pub open spec fn spells_beginning(bytes: Seq<u8>, text: Seq<char>) -> bool {
    exists|n: int| 0 <= n <= text.len() && bytes == encode_utf8(#[trigger] text.take(n))
}

proof fn character_start_bounds(text: Seq<u8>, n: int)
    requires
        0 <= n,
    ensures
        0 <= character_start(text, n) <= n,
        character_start(text, n) == 0 || !is_continuation_byte(text[character_start(text, n)]),
        forall|j: int| character_start(text, n) < j <= n ==> is_continuation_byte(#[trigger] text[j]),
    decreases n,
{
    if n > 0 && is_continuation_byte(text[n]) {
        character_start_bounds(text, n - 1);
    }
}

/// A record is text: it holds the first characters of its message, each of them
/// whole, and as many as fit into 240 bytes.
pub proof fn records_hold_whole_characters(message: Seq<char>)
    ensures
        0 <= kept(encode_utf8(message)) <= LOG_BYTES,
        valid_utf8(encode_utf8(message).take(kept(encode_utf8(message)))),
        spells_beginning(encode_utf8(message).take(kept(encode_utf8(message))), message),
        is_char_boundary(encode_utf8(message), kept(encode_utf8(message))),
        forall|j: int|
            kept(encode_utf8(message)) < j <= LOG_BYTES ==> !is_char_boundary(
                encode_utf8(message),
                j,
            ),
{
    let bytes = encode_utf8(message);
    let k = kept(bytes);
    encode_utf8_valid_utf8(message);
    is_char_boundary_start_end_of_seq(bytes);
    if bytes.len() > LOG_BYTES {
        character_start_bounds(bytes, LOG_BYTES as int);
        if k > 0 {
            is_char_boundary_iff_not_is_continuation_byte(bytes, k);
        }
        assert forall|j: int| k < j <= LOG_BYTES implies !is_char_boundary(bytes, j) by {
            is_char_boundary_iff_not_is_continuation_byte(bytes, j);
        }
    }
    valid_utf8_split(bytes, k);
    decode_utf8_split(bytes, k);
    encode_utf8_decode_utf8(message);
    let front = bytes.take(k);
    decode_utf8_encode_utf8(front);
    let n = decode_utf8(front).len() as int;
    assert(message.take(n) =~= decode_utf8(front));
}

/// The slot holds this record.
pub open spec fn slot_holds(slot: LogSlot, sequence: u32, level: LogLevel, message: Seq<u8>) -> bool {
    &&& slot.sequence == sequence
    &&& slot.level == level.code_of()
    &&& slot.len == kept(message)
    &&& slot.data@.take(kept(message)) == message.take(kept(message))
}

/// `after` is `before` with one record published: the next sequence number, in
/// its slot, cut to what a record keeps. Everything else is as it was.
pub open spec fn published(
    before: ControlBlock,
    after: ControlBlock,
    level: LogLevel,
    message: Seq<u8>,
) -> bool {
    let sequence = next_sequence(before.log_write);
    let at = slot_of(sequence);
    let old_slot = before.logs@[at];
    let slot = after.logs@[at];
    &&& after == (ControlBlock { log_write: sequence, logs: after.logs, ..before })
    &&& after.logs@ == before.logs@.update(at, slot)
    &&& slot_holds(slot, sequence, level, message)
    &&& slot.data@.skip(kept(message)) == old_slot.data@.skip(kept(message))
}

/// The record of a sequence number can be read.
pub open spec fn readable(block: ControlBlock, sequence: u32) -> bool {
    &&& sequence != 0
    &&& block.logs@[slot_of(sequence)].sequence == sequence
    &&& LogLevel::of_code(block.logs@[slot_of(sequence)].level) is Some
}

/// How many bytes of a slot hold a message.
pub open spec fn slot_len(slot: LogSlot) -> int {
    if slot.len < LOG_BYTES {
        slot.len as int
    } else {
        LOG_BYTES as int
    }
}

/// How many bytes of a message a record keeps.
fn kept_len(message: &[u8]) -> (r: usize)
    ensures
        r == kept(message@),
        r <= message.len(),
{
    if message.len() <= LOG_BYTES {
        return message.len();
    }
    let mut n: usize = LOG_BYTES;
    while n > 0 && 0x80 <= message[n] && message[n] <= 0xbf
        invariant
            n <= LOG_BYTES < message.len(),
            kept(message@) == character_start(message@, n as int),
        decreases n,
    {
        n = n - 1;
    }
    n
}

impl ControlBlock {
    /// Constructs a fresh controller-owned block.
    pub fn new(controller_pid: u32, flags: u32) -> (r: ControlBlock)
        ensures
            r.magic == MAGIC,
            r.version == VERSION,
            r.controller_pid == controller_pid,
            r.flags == flags,
            r.state == STATE_CREATED,
            r.error == 0,
            r.stop == 0,
            r.unload_safe == 0,
            r.features == 0,
            r.raw_events == 0,
            r.raw_serves == 0,
            r.log_write == 0,
            forall|i: int| 0 <= i < 64 ==> (#[trigger] r.logs@[i]).sequence == 0,
            forall|i: int| 0 <= i < 64 ==> (#[trigger] r.logs@[i]).len == 0,
            forall|i: int|
                0 <= i < 64 ==> (#[trigger] r.logs@[i]).level == LogLevel::Info.code_of(),
            forall|i: int|
                0 <= i < 64 ==> (#[trigger] r.logs@[i]).data@ == Seq::new(240, |k: int| 0u8),
    {
        let slot: LogSlot = LogSlot::new();
        ControlBlock {
            magic: MAGIC,
            version: VERSION,
            controller_pid,
            flags,
            state: STATE_CREATED,
            error: 0,
            stop: 0,
            unload_safe: 0,
            features: 0,
            raw_events: 0,
            raw_serves: 0,
            log_write: 0,
            logs: [slot;64],
        }
    }

    /// Publishes one bounded UTF-8 log record.
    pub fn push_log(&mut self, level: LogLevel, message: &str)
        ensures
            published(*old(self), *final(self), level, encode_utf8(message@)),
            spells_beginning(encode_utf8(message@).take(kept(encode_utf8(message@))), message@),
    {
        let sequence: u32 = self.log_write.wrapping_add(1);
        self.log_write = sequence;
        let at: usize = (sequence.wrapping_sub(1) as usize) % LOG_SLOTS;
        let mut slot: LogSlot = self.logs[at];
        let bytes: &[u8] = message.as_bytes();
        let len: usize = kept_len(bytes);
        proof {
            records_hold_whole_characters(message@);
        }
        let ghost first = slot;
        let mut i: usize = 0;
        while i < len
            invariant
                i <= len <= bytes.len(),
                len <= 240,
                slot.data@.take(i as int) == bytes@.take(i as int),
                slot.data@.skip(i as int) == first.data@.skip(i as int),
            decreases len - i,
        {
            let ghost prior = slot.data@;
            slot.data[i] = bytes[i];
            proof {
                assert(slot.data@ =~= prior.update(i as int, bytes@[i as int]));
                assert(slot.data@.take(i + 1) =~= prior.take(i as int).push(bytes@[i as int]));
                assert(bytes@.take(i + 1) =~= bytes@.take(i as int).push(bytes@[i as int]));
                assert(slot.data@.skip(i + 1) =~= prior.skip(i as int).skip(1));
                assert(first.data@.skip(i + 1) =~= first.data@.skip(i as int).skip(1));
            }
            i = i + 1;
        }
        slot.level = level.code();
        slot.len = len as u32;
        slot.sequence = sequence;
        self.logs[at] = slot;
        assert(self.logs@ =~= old(self).logs@.update(at as int, slot));
    }

    /// Copies log record `sequence` if it is still present.
    pub fn read_log(&self, sequence: u32, out: &mut [u8; 240]) -> (r: Option<(LogLevel, usize)>)
        ensures
            match r {
                Some((level, len)) => {
                    let slot = self.logs@[slot_of(sequence)];
                    &&& readable(*self, sequence)
                    &&& LogLevel::of_code(slot.level) == Some(level)
                    &&& len == slot_len(slot)
                    &&& final(out)@.take(len as int) == slot.data@.take(len as int)
                    &&& final(out)@.skip(len as int) == old(out)@.skip(len as int)
                },
                None => !readable(*self, sequence) && final(out)@ == old(out)@,
            },
    {
        if sequence == 0 {
            return None;
        }
        let at: usize = (sequence.wrapping_sub(1) as usize) % LOG_SLOTS;
        let slot: LogSlot = self.logs[at];
        if slot.sequence != sequence {
            return None;
        }
        let level: LogLevel = match LogLevel::try_from(slot.level) {
            Ok(level) => level,
            Err(_) => {
                return None;
            },
        };
        let len: usize = if (slot.len as usize) < LOG_BYTES {
            slot.len as usize
        } else {
            LOG_BYTES
        };
        let mut i: usize = 0;
        while i < len
            invariant
                i <= len <= 240,
                out@.take(i as int) == slot.data@.take(i as int),
                out@.skip(i as int) == old(out)@.skip(i as int),
            decreases len - i,
        {
            let ghost prior = out@;
            out[i] = slot.data[i];
            proof {
                assert(out@ =~= prior.update(i as int, slot.data@[i as int]));
                assert(out@.take(i + 1) =~= prior.take(i as int).push(slot.data@[i as int]));
                assert(slot.data@.take(i + 1) =~= slot.data@.take(i as int).push(
                    slot.data@[i as int],
                ));
                assert(out@.skip(i + 1) =~= prior.skip(i as int).skip(1));
                assert(old(out)@.skip(i + 1) =~= old(out)@.skip(i as int).skip(1));
            }
            i = i + 1;
        }
        Some((level, len))
    }

    /// Latest sequence allocated by a writer.
    pub fn latest_log_sequence(&self) -> (r: u32)
        ensures
            r == self.log_write,
    {
        self.log_write
    }
}

/// A published record can be read back: its level, its length, its bytes.
pub proof fn published_reads_back(
    before: ControlBlock,
    after: ControlBlock,
    level: LogLevel,
    message: Seq<u8>,
)
    requires
        published(before, after, level, message),
        before.log_write < u32::MAX,
    ensures
        readable(after, after.log_write),
        LogLevel::of_code(after.logs@[slot_of(after.log_write)].level) == Some(level),
        slot_len(after.logs@[slot_of(after.log_write)]) == kept(message),
        after.logs@[slot_of(after.log_write)].data@.take(kept(message)) == message.take(
            kept(message),
        ),
{
    character_start_bounds(message, LOG_BYTES as int);
}

/// A run of blocks, each with one more record published than the one before.
pub open spec fn log_run(blocks: Seq<ControlBlock>, records: Seq<(LogLevel, Seq<u8>)>) -> bool {
    &&& blocks.len() == records.len() + 1
    &&& forall|i: int|
        #![trigger blocks[i + 1]]
        0 <= i < records.len() ==> published(blocks[i], blocks[i + 1], records[i].0, records[i].1)
}

/// The block holds no record.
pub open spec fn without_records(block: ControlBlock) -> bool {
    &&& block.log_write == 0
    &&& forall|at: int| 0 <= at < 64 ==> (#[trigger] block.logs@[at]).sequence == 0
}

/// Of `n` records the ring keeps this one.
pub open spec fn in_ring(n: int, sequence: u32) -> bool {
    1 <= sequence <= n && n - 64 < sequence
}

/// The ring keeps the latest 64 records and no other: after any run of records
/// published on a block without any, each of the last 64 is in its slot and can
/// be read, and nothing can be read under an older sequence number, under zero,
/// or under one that was not given out yet.
pub proof fn ring_keeps_the_latest(
    blocks: Seq<ControlBlock>,
    records: Seq<(LogLevel, Seq<u8>)>,
    sequence: u32,
)
    requires
        log_run(blocks, records),
        without_records(blocks[0]),
        records.len() <= u32::MAX,
    ensures
        blocks.last().log_write == records.len(),
        readable(blocks.last(), sequence) <==> in_ring(records.len() as int, sequence),
        in_ring(records.len() as int, sequence) ==> slot_holds(
            blocks.last().logs@[slot_of(sequence)],
            sequence,
            records[sequence - 1].0,
            records[sequence - 1].1,
        ),
{
    let n = records.len() as int;
    run_counts(blocks, records, n);
    run_slots(blocks, records, n);
    let at = slot_of(sequence);
    assert(0 <= at < 64);
    assert(slot_kept(blocks[n], records, n, at));
    latest_in_bounds(n, at);
    if in_ring(n, sequence) {
        assert((sequence - 1) % 64 == at);
        assert(latest_in(n, at) == sequence);
    }
}

/// The latest of `n` sequence numbers that share a slot, or zero.
spec fn latest_in(n: int, at: int) -> int
    decreases n,
{
    if n <= 0 {
        0
    } else if (n - 1) % 64 == at {
        n
    } else {
        latest_in(n - 1, at)
    }
}

/// After `n` records the slot holds the latest of them that belongs into it.
spec fn slot_kept(
    block: ControlBlock,
    records: Seq<(LogLevel, Seq<u8>)>,
    n: int,
    at: int,
) -> bool {
    let held = latest_in(n, at);
    if held == 0 {
        block.logs@[at].sequence == 0
    } else {
        slot_holds(block.logs@[at], held as u32, records[held - 1].0, records[held - 1].1)
    }
}

proof fn latest_in_bounds(n: int, at: int)
    requires
        0 <= n,
        0 <= at < 64,
    ensures
        0 <= latest_in(n, at) <= n,
        latest_in(n, at) != 0 ==> (latest_in(n, at) - 1) % 64 == at,
        latest_in(n, at) != 0 ==> n - 64 < latest_in(n, at),
        forall|j: int| latest_in(n, at) < j <= n ==> #[trigger] ((j - 1) % 64) != at,
    decreases n,
{
    if n > 0 && (n - 1) % 64 != at {
        latest_in_bounds(n - 1, at);
        let held = latest_in(n, at);
        if held != 0 && held <= n - 64 {
            assert(held < held + 64 <= n);
            assert((held + 64 - 1) % 64 == at);
        }
    }
}

proof fn run_slots(blocks: Seq<ControlBlock>, records: Seq<(LogLevel, Seq<u8>)>, n: int)
    requires
        log_run(blocks, records),
        without_records(blocks[0]),
        records.len() <= u32::MAX,
        0 <= n <= records.len(),
    ensures
        forall|at: int| 0 <= at < 64 ==> #[trigger] slot_kept(blocks[n], records, n, at),
    decreases n,
{
    if n > 0 {
        run_slots(blocks, records, n - 1);
        run_counts(blocks, records, n - 1);
        assert(blocks[n - 1 + 1] == blocks[n]);
        assert forall|at: int| 0 <= at < 64 implies #[trigger] slot_kept(
            blocks[n],
            records,
            n,
            at,
        ) by {
            assert(slot_kept(blocks[n - 1], records, n - 1, at));
        }
    }
}

proof fn run_counts(blocks: Seq<ControlBlock>, records: Seq<(LogLevel, Seq<u8>)>, n: int)
    requires
        log_run(blocks, records),
        blocks[0].log_write == 0,
        records.len() <= u32::MAX,
        0 <= n <= records.len(),
    ensures
        blocks[n].log_write == n,
    decreases n,
{
    if n > 0 {
        run_counts(blocks, records, n - 1);
        assert(blocks[n - 1 + 1] == blocks[n]);
    }
}

/// The numbers of the levels tell them apart: one to four, from an error to
/// what helps in debugging, and no other number is a level.
pub proof fn levels_are_told_apart(level: LogLevel, value: u8)
    ensures
        LogLevel::of_code(level.code_of()) == Some(level),
        LogLevel::of_code(value) is Some <==> 1 <= value <= 4,
        LogLevel::Error.code_of() < LogLevel::Warn.code_of() < LogLevel::Info.code_of()
            < LogLevel::Debug.code_of(),
{
}

/// The block is the one that both sides know: its magic, its version, and the
/// numbers of its states and of its features, each feature a bit of its own.
pub proof fn both_sides_know_the_block()
    ensures
        MAGIC == 0x5846_4842,
        VERSION == 5,
        STATE_CREATED == 0,
        STATE_STARTING == 1,
        STATE_READY == 2,
        STATE_STOPPING == 3,
        STATE_STOPPED == 4,
        STATE_FAILED == 5,
        FEATURE_RAWINPUT2 == 1,
        FEATURE_VIEWPUNCH == 2,
        FEATURE_FASTDL == 4,
        FEATURE_CONSOLE == 8,
        FEATURE_DOWNLOADS == 16,
        FEATURE_FULLSCREEN == 32,
        FEATURE_SOURCEJUMP == 64,
{
}

} // verus!
