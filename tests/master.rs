use onewire::{BusOp, OneWire, PinMode};

/// A simulated bus: the master's pin, a clock, and a slave that holds the
/// line low over the intervals that `slave_low` gives for each time.
struct Bus<F: Fn(u32, &[u32]) -> bool> {
    now: u32,
    master_low: bool,
    mode: PinMode,
    slot_starts: Vec<u32>,
    releases: Vec<u32>,
    trace: Vec<BusOp>,
    modes: Vec<PinMode>,
    slave_low: F,
}

impl<F: Fn(u32, &[u32]) -> bool> Bus<F> {
    fn new(slave_low: F) -> Self {
        Bus {
            now: 0,
            master_low: false,
            mode: PinMode::Input,
            slot_starts: Vec::new(),
            releases: Vec::new(),
            trace: Vec::new(),
            modes: Vec::new(),
            slave_low,
        }
    }

    fn run(&mut self, master: &mut OneWire) {
        while let Some(op) = master.next_op() {
            self.trace.push(op);
            match op {
                BusOp::DriveLow => {
                    assert_eq!(self.mode, PinMode::Input);
                    self.mode = PinMode::Output;
                    self.master_low = true;
                    self.slot_starts.push(self.now);
                }
                BusOp::DriveHigh => {
                    assert_eq!(self.mode, PinMode::Output);
                    self.master_low = false;
                }
                BusOp::Release => {
                    assert_eq!(self.mode, PinMode::Output);
                    self.mode = PinMode::Input;
                    self.master_low = false;
                    self.releases.push(self.now);
                }
                BusOp::WaitUs(us) => self.now += us,
                BusOp::Sample => {
                    assert_eq!(self.mode, PinMode::Input);
                    assert!(master.awaiting_sample());
                    let low = self.master_low || (self.slave_low)(self.now, &self.slot_starts);
                    master.record_sample(!low);
                    assert!(!master.awaiting_sample());
                }
            }
            self.modes.push(self.mode);
            assert_eq!(master.pin_mode(), self.mode);
        }
    }
}

fn no_slave(_now: u32, _starts: &[u32]) -> bool {
    false
}

/// A slave that answers a reset: it pulls the line low from 15 µs to 135 µs
/// after the master releases it at the end of the 480 µs pulse.
fn present_slave(now: u32, _starts: &[u32]) -> bool {
    (480 + 15..480 + 135).contains(&now)
}

#[test]
fn reset_detects_a_present_slave() {
    let mut master = OneWire::new();
    let mut bus = Bus::new(present_slave);
    master.bus_reset();
    bus.run(&mut master);
    assert!(master.presence());
    assert_eq!(bus.now, 960);
}

#[test]
fn reset_reports_no_slave() {
    let mut master = OneWire::new();
    let mut bus = Bus::new(no_slave);
    master.bus_reset();
    bus.run(&mut master);
    assert!(!master.presence());
    assert_eq!(
        bus.trace,
        vec![
            BusOp::DriveLow,
            BusOp::WaitUs(480),
            BusOp::DriveHigh,
            BusOp::Release,
            BusOp::WaitUs(90),
            BusOp::Sample,
            BusOp::WaitUs(390),
        ]
    );
}

#[test]
fn read_returns_the_pattern_a_slave_sends() {
    let pattern: [u8; 2] = [0b1010_0101, 0b0011_1100];
    let slave = move |now: u32, starts: &[u32]| {
        let slot = starts.len() - 1;
        let bit = (pattern[slot / 8] >> (slot % 8)) & 1 == 1;
        // A one bit is released at once; a zero is held low past the sample point.
        let hold = if bit { 0 } else { 30 };
        now < starts[slot] + hold
    };
    let mut master = OneWire::new();
    let mut bus = Bus::new(slave);
    master.read(2);
    bus.run(&mut master);
    assert_eq!(master.received(), pattern.to_vec());
    assert_eq!(bus.slot_starts.len(), 16);
    assert_eq!(bus.now, 16 * 61);
}

#[test]
fn read_with_no_slave_gives_all_ones() {
    let mut master = OneWire::new();
    let mut bus = Bus::new(no_slave);
    master.read(3);
    bus.run(&mut master);
    assert_eq!(master.received(), vec![0xFF, 0xFF, 0xFF]);
}

#[test]
fn pin_is_released_after_each_operation() {
    let mut master = OneWire::new();
    assert!(master.is_idle());
    assert_eq!(master.pin_mode(), PinMode::Input);
    let mut bus = Bus::new(present_slave);

    master.bus_reset();
    bus.run(&mut master);
    assert!(master.is_idle());
    assert_eq!(master.pin_mode(), PinMode::Input);

    master.write(0xCC);
    assert!(!master.is_idle());
    bus.run(&mut master);
    assert!(master.is_idle());
    assert_eq!(master.pin_mode(), PinMode::Input);

    master.read(2);
    bus.run(&mut master);
    assert!(master.is_idle());
    assert_eq!(master.pin_mode(), PinMode::Input);
    assert_eq!(*bus.modes.last().unwrap(), PinMode::Input);
}

#[test]
fn write_traces_low_times_through_the_master() {
    let mut master = OneWire::new();
    let mut bus = Bus::new(no_slave);
    master.write(0b1011_0000);
    bus.run(&mut master);
    let lows: Vec<u32> = bus
        .releases
        .iter()
        .zip(bus.slot_starts.iter())
        .map(|(r, s)| r - s)
        .collect();
    assert_eq!(lows, vec![60, 60, 60, 60, 6, 6, 60, 6]);
    assert_eq!(bus.now, 8 * 61);
}

#[test]
fn next_op_on_an_idle_master_gives_nothing() {
    let mut master = OneWire::new();
    assert_eq!(master.next_op(), None);
    assert_eq!(master.pin_mode(), PinMode::Input);
    assert!(!master.presence());
    assert_eq!(master.received(), Vec::<u8>::new());
}

#[test]
fn a_new_operation_clears_recorded_levels() {
    let mut master = OneWire::new();
    let mut bus = Bus::new(present_slave);
    master.bus_reset();
    bus.run(&mut master);
    assert!(master.presence());
    master.write(0x33);
    assert!(!master.presence());
    bus.run(&mut master);
    assert!(!master.presence());
}
