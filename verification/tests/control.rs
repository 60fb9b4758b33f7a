use bunnyhopfix::control::{
    ControlBlock, LogLevel, LogSlot, LOG_BYTES, LOG_SLOTS, MAGIC, STATE_CREATED, VERSION,
};

#[test]
fn log_records_are_bounded() {
    let mut block = ControlBlock::new(7, 0);
    block.push_log(LogLevel::Warn, &"x".repeat(LOG_BYTES + 32));
    let mut output = [0u8; LOG_BYTES];
    let (level, length) = block.read_log(1, &mut output).unwrap();
    assert_eq!(level, LogLevel::Warn);
    assert_eq!(length, LOG_BYTES);
    assert!(output.iter().all(|&byte| byte == b'x'));
}

#[test]
fn log_records_end_with_a_whole_character() {
    let read = |message: &str| {
        let mut block = ControlBlock::new(7, 0);
        block.push_log(LogLevel::Info, message);
        let mut output = [0u8; LOG_BYTES];
        let (_, length) = block.read_log(1, &mut output).unwrap();
        String::from_utf8(output[..length].to_vec()).unwrap()
    };
    let odd = format!("x{}", "é".repeat(120));
    assert_eq!(odd.len(), LOG_BYTES + 1);
    assert_eq!(read(&odd), format!("x{}", "é".repeat(119)));
    let even = "é".repeat(121);
    assert_eq!(read(&even), "é".repeat(120));
    let wide = format!("abc{}", "🐇".repeat(60));
    assert_eq!(read(&wide), format!("abc{}", "🐇".repeat(59)));
    let whole = "é".repeat(120);
    assert_eq!(read(&whole), whole);
    assert_eq!(read(""), "");
}

#[test]
fn unknown_log_levels_are_rejected() {
    let mut block = ControlBlock::new(7, 0);
    block.push_log(LogLevel::Info, "message");
    block.logs[0].level = u8::MAX;

    assert!(block.read_log(1, &mut [0u8; LOG_BYTES]).is_none());
}

#[test]
fn a_fresh_block_holds_nothing() {
    let block = ControlBlock::new(7, 3);
    assert_eq!(block.magic, MAGIC);
    assert_eq!(MAGIC.to_le_bytes(), *b"BHFX");
    assert_eq!(block.version, VERSION);
    assert_eq!(block.controller_pid, 7);
    assert_eq!(block.flags, 3);
    assert_eq!(block.state, STATE_CREATED);
    assert_eq!(block.latest_log_sequence(), 0);
    for sequence in [0, 1, 64] {
        assert!(block.read_log(sequence, &mut [0u8; LOG_BYTES]).is_none());
    }
    assert_eq!(LogSlot::new().level, 3);
}

#[test]
fn the_ring_keeps_the_latest_records() {
    let mut block = ControlBlock::new(7, 0);
    for i in 1..=200u32 {
        block.push_log(LogLevel::Debug, &format!("record {i}"));
    }
    assert_eq!(block.latest_log_sequence(), 200);
    let oldest = 200 - LOG_SLOTS as u32 + 1;
    for sequence in (0..oldest).chain([201, 264, u32::MAX]) {
        assert!(block.read_log(sequence, &mut [0u8; LOG_BYTES]).is_none());
    }
    for sequence in oldest..=200 {
        let mut output = [0u8; LOG_BYTES];
        let (level, length) = block.read_log(sequence, &mut output).unwrap();
        assert_eq!(level, LogLevel::Debug);
        assert_eq!(
            std::str::from_utf8(&output[..length]).unwrap(),
            format!("record {sequence}")
        );
    }
}

#[test]
fn levels_have_fixed_codes() {
    for (level, code) in [
        (LogLevel::Error, 1),
        (LogLevel::Warn, 2),
        (LogLevel::Info, 3),
        (LogLevel::Debug, 4),
    ] {
        assert_eq!(level.code(), code);
        assert_eq!(LogLevel::try_from(code), Ok(level));
    }
    assert_eq!(LogLevel::try_from(0), Err(()));
    assert_eq!(LogLevel::try_from(5), Err(()));
}
