use onewire::{
    pack_samples, read_sequence, reset_sequence, write_sequence, BusOp, READ_INIT_LOW_US,
    READ_SAMPLE_WAIT_US, SLOT_US, WRITE_ONE_LOW_US, WRITE_ZERO_LOW_US,
};

fn low_times(ops: &[BusOp]) -> Vec<u32> {
    let mut out = Vec::new();
    for k in 0..ops.len() {
        if ops[k] == BusOp::DriveLow {
            if let BusOp::WaitUs(us) = ops[k + 1] {
                out.push(us);
            }
        }
    }
    out
}

fn total_wait(ops: &[BusOp]) -> u32 {
    ops.iter()
        .map(|op| match op {
            BusOp::WaitUs(us) => *us,
            _ => 0,
        })
        .sum()
}

#[test]
fn reset_is_one_pulse_one_sample() {
    let ops = reset_sequence();
    assert_eq!(
        ops,
        vec![
            BusOp::DriveLow,
            BusOp::WaitUs(480),
            BusOp::DriveHigh,
            BusOp::Release,
            BusOp::WaitUs(90),
            BusOp::Sample,
            BusOp::WaitUs(390),
        ]
    );
    assert_eq!(ops.iter().filter(|op| **op == BusOp::Sample).count(), 1);
    assert_eq!(total_wait(&ops), 960);
}

#[test]
fn write_slots_follow_every_bit_of_every_byte() {
    for command in 0..=255u8 {
        let ops = write_sequence(command);
        assert_eq!(ops.len(), 32);
        for i in 0..8 {
            let bit = (command >> i) & 1 == 1;
            let low = if bit { 6 } else { 60 };
            assert_eq!(
                ops[4 * i..4 * i + 4].to_vec(),
                vec![
                    BusOp::DriveLow,
                    BusOp::WaitUs(low),
                    BusOp::Release,
                    BusOp::WaitUs(61 - low),
                ],
                "command {command:#010b}, bit {i}"
            );
        }
        assert_eq!(total_wait(&ops), 8 * 61);
        assert!(!ops.contains(&BusOp::Sample));
    }
}

#[test]
fn write_low_times_of_one_command() {
    // 0b1011_0000 sent least significant bit first: 0, 0, 0, 0, 1, 1, 0, 1.
    let ops = write_sequence(0b1011_0000);
    assert_eq!(low_times(&ops), vec![60, 60, 60, 60, 6, 6, 60, 6]);
}

#[test]
fn write_all_zero_and_all_one_bytes() {
    let zeros = write_sequence(0x00);
    let ones = write_sequence(0xFF);
    assert_eq!(low_times(&zeros), vec![WRITE_ZERO_LOW_US; 8]);
    assert_eq!(low_times(&ones), vec![WRITE_ONE_LOW_US; 8]);
    assert_eq!(low_times(&zeros).iter().sum::<u32>(), 480);
    assert_eq!(low_times(&ones).iter().sum::<u32>(), 48);
    assert_eq!(total_wait(&zeros), 488);
    assert_eq!(total_wait(&ones), 488);
}

#[test]
fn read_slots_for_each_buffer_length() {
    let slot = vec![
        BusOp::DriveLow,
        BusOp::WaitUs(2),
        BusOp::Release,
        BusOp::WaitUs(9),
        BusOp::Sample,
        BusOp::WaitUs(50),
    ];
    for len in 0..5usize {
        let ops = read_sequence(len);
        assert_eq!(ops.len(), 48 * len);
        for j in 0..8 * len {
            assert_eq!(ops[6 * j..6 * j + 6].to_vec(), slot);
        }
        assert_eq!(ops.iter().filter(|op| **op == BusOp::Sample).count(), 8 * len);
        assert_eq!(total_wait(&ops), 61 * 8 * len as u32);
    }
    assert_eq!(READ_INIT_LOW_US + READ_SAMPLE_WAIT_US, 11);
    assert_eq!(SLOT_US, 61);
}

#[test]
fn pack_samples_least_significant_bit_first() {
    let mut samples = vec![true, false, false, false, false, false, false, false];
    samples.extend([false, false, false, false, false, false, false, true]);
    assert_eq!(pack_samples(&samples), vec![0x01, 0x80]);
}

#[test]
fn pack_samples_drops_an_incomplete_group() {
    assert_eq!(pack_samples(&vec![]), Vec::<u8>::new());
    assert_eq!(pack_samples(&vec![true; 7]), Vec::<u8>::new());
    assert_eq!(pack_samples(&vec![true; 11]), vec![0xFF]);
}

#[test]
fn pack_samples_all_levels() {
    assert_eq!(pack_samples(&vec![false; 16]), vec![0x00, 0x00]);
    assert_eq!(pack_samples(&vec![true; 16]), vec![0xFF, 0xFF]);
    let samples = vec![false, true, false, true, true, false, true, false];
    assert_eq!(pack_samples(&samples), vec![0b0101_1010]);
}
