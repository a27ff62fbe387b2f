use vstd::prelude::*;

verus! {

/// Width of the reset pulse that the master drives low, in microseconds.
pub const RESET_LOW_US: u32 = 480;

/// Time from releasing the line to sampling for a presence pulse.
pub const PRESENCE_WAIT_US: u32 = 90;

/// Time after the presence sample that completes the reset window.
pub const RESET_TAIL_US: u32 = 390;

/// Total duration of one bit time slot, read or write.
pub const SLOT_US: u32 = 61;

/// Low time of a write slot that sends a one.
pub const WRITE_ONE_LOW_US: u32 = 6;

/// Low time of a write slot that sends a zero.
pub const WRITE_ZERO_LOW_US: u32 = 60;

/// Low time that opens a read slot.
pub const READ_INIT_LOW_US: u32 = 2;

/// Time from releasing the line to sampling it in a read slot.
pub const READ_SAMPLE_WAIT_US: u32 = 9;

/// The two mutually exclusive modes of the bus pin.
#[derive(Clone, Copy, Debug, PartialEq, Eq, Structural)]
pub enum PinMode {
    /// Floating input: the line is released and can only be sampled.
    Input,
    /// Push-pull output: the line is driven by the master.
    Output,
}

/// One primitive action on the bus pin.
#[derive(Clone, Copy, Debug, PartialEq, Eq, Structural)]
pub enum BusOp {
    /// Switch the pin from input to push-pull output and assert logic low.
    DriveLow,
    /// Assert logic high while the pin is an output.
    DriveHigh,
    /// Switch the pin from output to floating input, releasing the line.
    Release,
    /// Block for the given number of microseconds.
    WaitUs(u32),
    /// Sample the line level while the pin is an input.
    Sample,
}

/// Whether `op` may be carried out with the pin in `mode`.
pub open spec fn op_allowed(mode: PinMode, op: BusOp) -> bool {
    match op {
        BusOp::DriveLow => mode == PinMode::Input,
        BusOp::DriveHigh => mode == PinMode::Output,
        BusOp::Release => mode == PinMode::Output,
        BusOp::WaitUs(_) => true,
        BusOp::Sample => mode == PinMode::Input,
    }
}

/// The pin's mode after `op` is carried out in `mode`.
pub open spec fn mode_after_op(mode: PinMode, op: BusOp) -> PinMode {
    match op {
        BusOp::DriveLow => PinMode::Output,
        BusOp::Release => PinMode::Input,
        _ => mode,
    }
}

/// Whether every action of `ops`, carried out in order from `mode`, is allowed
/// in the mode the pin is in at that point.
pub open spec fn runs_from(mode: PinMode, ops: Seq<BusOp>) -> bool
    decreases ops.len(),
{
    if ops.len() == 0 {
        true
    } else {
        op_allowed(mode, ops[0]) && runs_from(mode_after_op(mode, ops[0]), ops.drop_first())
    }
}

/// The pin's mode after all of `ops` are carried out from `mode`.
pub open spec fn mode_after(mode: PinMode, ops: Seq<BusOp>) -> PinMode
    decreases ops.len(),
{
    if ops.len() == 0 {
        mode
    } else {
        mode_after(mode_after_op(mode, ops[0]), ops.drop_first())
    }
}

/// Total time that `ops` spend blocking, in microseconds.
pub open spec fn duration(ops: Seq<BusOp>) -> nat
    decreases ops.len(),
{
    if ops.len() == 0 {
        0
    } else {
        let head: nat = match ops[0] {
            BusOp::WaitUs(us) => us as nat,
            _ => 0,
        };
        head + duration(ops.drop_first())
    }
}

/// Number of line samples that `ops` take.
pub open spec fn sample_count(ops: Seq<BusOp>) -> nat
    decreases ops.len(),
{
    if ops.len() == 0 {
        0
    } else {
        (if ops[0] == BusOp::Sample { 1nat } else { 0nat }) + sample_count(ops.drop_first())
    }
}

/// The reset and presence-detect sequence.
pub open spec fn reset_spec() -> Seq<BusOp> {
    seq![
        BusOp::DriveLow,
        BusOp::WaitUs(RESET_LOW_US),
        BusOp::DriveHigh,
        BusOp::Release,
        BusOp::WaitUs(PRESENCE_WAIT_US),
        BusOp::Sample,
        BusOp::WaitUs(RESET_TAIL_US),
    ]
}

/// Bit `i` of `b`, counting from the least significant bit.
pub open spec fn bit_of(b: u8, i: u8) -> bool {
    (b >> i) & 1u8 == 1u8
}

/// How long a write slot holds the line low for the bit `bit`.
pub open spec fn write_low_us(bit: bool) -> u32 {
    if bit {
        WRITE_ONE_LOW_US
    } else {
        WRITE_ZERO_LOW_US
    }
}

/// The write slot that sends `bit`.
pub open spec fn write_slot_spec(bit: bool) -> Seq<BusOp> {
    seq![
        BusOp::DriveLow,
        BusOp::WaitUs(write_low_us(bit)),
        BusOp::Release,
        BusOp::WaitUs((SLOT_US - write_low_us(bit)) as u32),
    ]
}

/// The write slots for bits `0 .. k` of `command`, least significant first.
pub open spec fn write_bits_spec(command: u8, k: nat) -> Seq<BusOp>
    decreases k,
{
    if k == 0 {
        Seq::empty()
    } else {
        write_bits_spec(command, (k - 1) as nat) + write_slot_spec(bit_of(command, (k - 1) as u8))
    }
}

/// The sequence that sends the byte `command`.
pub open spec fn write_spec(command: u8) -> Seq<BusOp> {
    write_bits_spec(command, 8)
}

/// One read slot: a short low pulse, release, a sample, and the rest of the slot.
pub open spec fn read_slot_spec() -> Seq<BusOp> {
    seq![
        BusOp::DriveLow,
        BusOp::WaitUs(READ_INIT_LOW_US),
        BusOp::Release,
        BusOp::WaitUs(READ_SAMPLE_WAIT_US),
        BusOp::Sample,
        BusOp::WaitUs((SLOT_US - READ_INIT_LOW_US - READ_SAMPLE_WAIT_US) as u32),
    ]
}

/// `k` read slots in a row.
pub open spec fn read_slots_spec(k: nat) -> Seq<BusOp>
    decreases k,
{
    if k == 0 {
        Seq::empty()
    } else {
        read_slots_spec((k - 1) as nat) + read_slot_spec()
    }
}

/// The sequence that reads `len` bytes: eight read slots for each byte.
pub open spec fn read_spec(len: nat) -> Seq<BusOp> {
    read_slots_spec(8 * len)
}


/// Appends to `ops` the write slot that sends `bit`.
fn push_write_slot(ops: &mut Vec<BusOp>, bit: bool)
    ensures
        final(ops)@ == old(ops)@ + write_slot_spec(bit),
{
    let low: u32 = if bit {
        WRITE_ONE_LOW_US
    } else {
        WRITE_ZERO_LOW_US
    };
    ops.push(BusOp::DriveLow);
    ops.push(BusOp::WaitUs(low));
    ops.push(BusOp::Release);
    ops.push(BusOp::WaitUs(SLOT_US - low));
    assert(ops@ =~= old(ops)@ + write_slot_spec(bit));
}

/// Appends one read slot to `ops`.
fn push_read_slot(ops: &mut Vec<BusOp>)
    ensures
        final(ops)@ == old(ops)@ + read_slot_spec(),
{
    ops.push(BusOp::DriveLow);
    ops.push(BusOp::WaitUs(READ_INIT_LOW_US));
    ops.push(BusOp::Release);
    ops.push(BusOp::WaitUs(READ_SAMPLE_WAIT_US));
    ops.push(BusOp::Sample);
    ops.push(BusOp::WaitUs(SLOT_US - READ_INIT_LOW_US - READ_SAMPLE_WAIT_US));
    assert(ops@ =~= old(ops)@ + read_slot_spec());
}

/// The actions of a bus reset with presence detection: a long low pulse,
/// release, one sample of the line, and the rest of the reset window.
pub fn reset_sequence() -> (r: Vec<BusOp>)
    ensures
        r@ == reset_spec(),
{
    let mut ops: Vec<BusOp> = Vec::new();
    ops.push(BusOp::DriveLow);
    ops.push(BusOp::WaitUs(RESET_LOW_US));
    ops.push(BusOp::DriveHigh);
    ops.push(BusOp::Release);
    ops.push(BusOp::WaitUs(PRESENCE_WAIT_US));
    ops.push(BusOp::Sample);
    ops.push(BusOp::WaitUs(RESET_TAIL_US));
    assert(ops@ =~= reset_spec());
    ops
}

/// The actions that send `command`: eight write slots, least significant bit
/// first.
pub fn write_sequence(command: u8) -> (r: Vec<BusOp>)
    ensures
        r@ == write_spec(command),
{
    let mut ops: Vec<BusOp> = Vec::new();
    let mut i: u8 = 0;
    assert(ops@ =~= write_bits_spec(command, 0));
    while i < 8
        invariant
            i <= 8,
            ops@ == write_bits_spec(command, i as nat),
        decreases 8 - i,
    {
        let bit: bool = (command >> i) & 1u8 == 1u8;
        push_write_slot(&mut ops, bit);
        i = i + 1;
    }
    ops
}

/// The actions that read `len` bytes: eight read slots for each byte.
pub fn read_sequence(len: usize) -> (r: Vec<BusOp>)
    requires
        len <= usize::MAX / 48,
    ensures
        r@ == read_spec(len as nat),
{
    let mut ops: Vec<BusOp> = Vec::new();
    let slots: usize = 8 * len;
    let mut k: usize = 0;
    assert(ops@ =~= read_slots_spec(0));
    while k < slots
        invariant
            k <= slots,
            slots == 8 * len,
            ops@ == read_slots_spec(k as nat),
        decreases slots - k,
    {
        push_read_slot(&mut ops);
        k = k + 1;
    }
    ops
}

/// Running `a` then `b` is running their concatenation.
pub(crate) proof fn lemma_concat(mode: PinMode, a: Seq<BusOp>, b: Seq<BusOp>)
    ensures
        runs_from(mode, a + b) == (runs_from(mode, a) && runs_from(mode_after(mode, a), b)),
        mode_after(mode, a + b) == mode_after(mode_after(mode, a), b),
        duration(a + b) == duration(a) + duration(b),
        sample_count(a + b) == sample_count(a) + sample_count(b),
    decreases a.len(),
{
    if a.len() == 0 {
        assert(a + b =~= b);
    } else {
        assert((a + b).drop_first() =~= a.drop_first() + b);
        lemma_concat(mode_after_op(mode, a[0]), a.drop_first(), b);
    }
}

/// A sequence takes at most one sample per action.
pub(crate) proof fn lemma_sample_count_bound(ops: Seq<BusOp>)
    ensures
        sample_count(ops) <= ops.len(),
    decreases ops.len(),
{
    if ops.len() > 0 {
        lemma_sample_count_bound(ops.drop_first());
    }
}

/// Whether `ops`, started with the pin released, carries out every action in
/// a mode that allows it and leaves the pin released.
pub open spec fn released_round(ops: Seq<BusOp>) -> bool {
    runs_from(PinMode::Input, ops) && mode_after(PinMode::Input, ops) == PinMode::Input
}

proof fn lemma_write_slot(bit: bool)
    ensures
        released_round(write_slot_spec(bit)),
        duration(write_slot_spec(bit)) == SLOT_US as nat,
        sample_count(write_slot_spec(bit)) == 0,
{
    reveal_with_fuel(runs_from, 5);
    reveal_with_fuel(mode_after, 5);
    reveal_with_fuel(duration, 5);
    reveal_with_fuel(sample_count, 5);
}

proof fn lemma_read_slot()
    ensures
        released_round(read_slot_spec()),
        duration(read_slot_spec()) == SLOT_US as nat,
        sample_count(read_slot_spec()) == 1,
{
    reveal_with_fuel(runs_from, 7);
    reveal_with_fuel(mode_after, 7);
    reveal_with_fuel(duration, 7);
    reveal_with_fuel(sample_count, 7);
}

proof fn lemma_write_bits(command: u8, k: nat)
    ensures
        released_round(write_bits_spec(command, k)),
        write_bits_spec(command, k).len() == 4 * k,
        duration(write_bits_spec(command, k)) == SLOT_US as nat * k,
        sample_count(write_bits_spec(command, k)) == 0,
    decreases k,
{
    if k > 0 {
        let prev = write_bits_spec(command, (k - 1) as nat);
        let slot = write_slot_spec(bit_of(command, (k - 1) as u8));
        lemma_write_bits(command, (k - 1) as nat);
        lemma_write_slot(bit_of(command, (k - 1) as u8));
        lemma_concat(PinMode::Input, prev, slot);
    }
}

proof fn lemma_read_slots(k: nat)
    ensures
        released_round(read_slots_spec(k)),
        read_slots_spec(k).len() == 6 * k,
        duration(read_slots_spec(k)) == SLOT_US as nat * k,
        sample_count(read_slots_spec(k)) == k,
    decreases k,
{
    if k > 0 {
        lemma_read_slots((k - 1) as nat);
        lemma_read_slot();
        lemma_concat(PinMode::Input, read_slots_spec((k - 1) as nat), read_slot_spec());
    }
}


proof fn lemma_write_bits_slot(command: u8, k: nat, i: nat)
    requires
        i < k,
    ensures
        write_bits_spec(command, k).subrange(4 * i as int, 4 * i as int + 4) == write_slot_spec(
            bit_of(command, i as u8),
        ),
    decreases k,
{
    let prev = write_bits_spec(command, (k - 1) as nat);
    let slot = write_slot_spec(bit_of(command, (k - 1) as u8));
    lemma_write_bits(command, (k - 1) as nat);
    if i < k - 1 {
        lemma_write_bits_slot(command, (k - 1) as nat, i);
        assert((prev + slot).subrange(4 * i as int, 4 * i as int + 4) =~= prev.subrange(4 * i as int, 4 * i as int + 4));
    } else {
        assert((prev + slot).subrange(4 * i as int, 4 * i as int + 4) =~= slot);
    }
}

proof fn lemma_read_slots_slot(k: nat, j: nat)
    requires
        j < k,
    ensures
        read_slots_spec(k).subrange(6 * j as int, 6 * j as int + 6) == read_slot_spec(),
    decreases k,
{
    let prev = read_slots_spec((k - 1) as nat);
    lemma_read_slots((k - 1) as nat);
    if j < k - 1 {
        lemma_read_slots_slot((k - 1) as nat, j);
        assert((prev + read_slot_spec()).subrange(6 * j as int, 6 * j as int + 6) =~= prev.subrange(6 * j as int, 6 * j as int + 6));
    } else {
        assert((prev + read_slot_spec()).subrange(6 * j as int, 6 * j as int + 6) =~= read_slot_spec());
    }
}

/// Sending a byte takes exactly eight slots of `SLOT_US` each, one per bit,
/// least significant bit first: slot `i` holds the line low for
/// `WRITE_ONE_LOW_US` when bit `i` of the command is one and for
/// `WRITE_ZERO_LOW_US` when it is zero, then releases it for the rest of the
/// slot (`write_slot_spec`, `write_low_us`).
pub proof fn lemma_write_timing(command: u8)
    ensures
        write_spec(command).len() == 32,
        forall|i: u8|
            i < 8 ==> #[trigger] write_spec(command).subrange(4 * i as int, 4 * i as int + 4)
                == write_slot_spec(bit_of(command, i)),
        forall|bit: bool| duration(#[trigger] write_slot_spec(bit)) == SLOT_US as nat,
        duration(write_spec(command)) == 8 * SLOT_US as nat,
        sample_count(write_spec(command)) == 0,
{
    lemma_write_bits(command, 8);
    assert forall|i: u8| i < 8 implies #[trigger] write_spec(command).subrange(4 * i as int, 4 * i as int + 4)
        == write_slot_spec(bit_of(command, i)) by {
        lemma_write_bits_slot(command, 8, i as nat);
    }
    assert forall|bit: bool| duration(#[trigger] write_slot_spec(bit)) == SLOT_US as nat by {
        lemma_write_slot(bit);
    }
}

/// Reading `len` bytes takes exactly `8 * len` read slots: each is a low
/// pulse of `READ_INIT_LOW_US`, release, a wait of `READ_SAMPLE_WAIT_US`, one
/// sample, and the rest of a slot of `SLOT_US`.
pub proof fn lemma_read_timing(len: nat)
    ensures
        read_spec(len).len() == 48 * len,
        forall|j: nat|
            j < 8 * len ==> #[trigger] read_spec(len).subrange(6 * j as int, 6 * j as int + 6)
                == read_slot_spec(),
        read_slot_spec() == seq![
            BusOp::DriveLow,
            BusOp::WaitUs(READ_INIT_LOW_US),
            BusOp::Release,
            BusOp::WaitUs(READ_SAMPLE_WAIT_US),
            BusOp::Sample,
            BusOp::WaitUs((SLOT_US - READ_INIT_LOW_US - READ_SAMPLE_WAIT_US) as u32),
        ],
        duration(read_slot_spec()) == SLOT_US as nat,
        duration(read_spec(len)) == 8 * len * SLOT_US as nat,
        sample_count(read_spec(len)) == 8 * len,
{
    lemma_read_slots(8 * len);
    lemma_read_slot();
    assert forall|j: nat| j < 8 * len implies #[trigger] read_spec(len).subrange(6 * j as int, 6 * j as int + 6)
        == read_slot_spec() by {
        lemma_read_slots_slot(8 * len, j);
    }
    assert(8 * len * SLOT_US as nat == SLOT_US as nat * (8 * len)) by (nonlinear_arith);
}

/// A reset is one low pulse of `RESET_LOW_US`, release, a wait of
/// `PRESENCE_WAIT_US`, exactly one sample, and a trailing wait of
/// `RESET_TAIL_US`, whatever the sample shows.
pub proof fn lemma_reset_timing()
    ensures
        reset_spec().len() == 7,
        reset_spec()[0] == BusOp::DriveLow,
        reset_spec()[1] == BusOp::WaitUs(RESET_LOW_US),
        reset_spec()[2] == BusOp::DriveHigh,
        reset_spec()[3] == BusOp::Release,
        reset_spec()[4] == BusOp::WaitUs(PRESENCE_WAIT_US),
        reset_spec()[5] == BusOp::Sample,
        reset_spec()[6] == BusOp::WaitUs(RESET_TAIL_US),
        sample_count(reset_spec()) == 1,
        duration(reset_spec()) == RESET_LOW_US + PRESENCE_WAIT_US + RESET_TAIL_US,
{
    reveal_with_fuel(sample_count, 8);
    reveal_with_fuel(duration, 8);
}

/// Each operation starts and ends with the pin in floating-input mode, and
/// every action in it is carried out in a mode that allows it.
pub proof fn lemma_operations_release_pin(command: u8, len: nat)
    ensures
        released_round(reset_spec()),
        released_round(write_spec(command)),
        released_round(read_spec(len)),
{
    reveal_with_fuel(runs_from, 8);
    reveal_with_fuel(mode_after, 8);
    lemma_write_bits(command, 8);
    lemma_read_slots(8 * len);
}

} // verus!
