use vstd::prelude::*;

use crate::bits::{pack_samples, unpack};
use crate::bus::{
    lemma_concat, lemma_operations_release_pin, lemma_sample_count_bound, mode_after, mode_after_op, op_allowed,
    read_sequence, read_spec, released_round, reset_sequence, reset_spec, runs_from, sample_count,
    write_sequence, write_spec, BusOp, PinMode,
};

verus! {

/// The bus master's protocol state.
///
/// An operation (`bus_reset`, `write`, `read`) loads the actions that it
/// consists of; the caller then takes them one at a time with `next_op`,
/// carries each out on the pin, and hands back the line level with
/// `record_sample` after each `BusOp::Sample`. The master tracks the pin's
/// mode throughout, so every action it hands out is valid in the mode the pin
/// is in, and the pin is a floating input again once the operation is done.
pub struct OneWire {
    ops: Vec<BusOp>,
    next: usize,
    mode: PinMode,
    issued: usize,
    samples: Vec<bool>,
}

impl OneWire {
    /// The actions of the current operation.
    pub closed spec fn program(&self) -> Seq<BusOp> {
        self.ops@
    }

    /// How many actions of the current operation have been handed out.
    pub closed spec fn position(&self) -> int {
        self.next as int
    }

    /// The mode the pin is in once the actions handed out so far are done.
    pub closed spec fn mode(&self) -> PinMode {
        self.mode
    }

    /// The line levels recorded in the current operation, oldest first.
    pub closed spec fn samples(&self) -> Seq<bool> {
        self.samples@
    }

    /// Whether the state is consistent: the program starts and ends with the
    /// pin released, the mode is the one reached by the actions handed out,
    /// and at most one sample is awaited.
    pub closed spec fn wf(&self) -> bool {
        &&& 0 <= self.next <= self.ops@.len()
        &&& released_round(self.ops@)
        &&& self.mode == mode_after(PinMode::Input, self.ops@.take(self.next as int))
        &&& self.issued == sample_count(self.ops@.take(self.next as int))
        &&& self.samples@.len() <= self.issued <= self.samples@.len() + 1
    }

    /// Whether every action of the current operation has been handed out.
    pub open spec fn idle(&self) -> bool {
        self.position() == self.program().len()
    }

    /// Whether a `BusOp::Sample` was handed out whose level is not recorded yet.
    pub open spec fn sample_pending(&self) -> bool {
        self.samples().len() < sample_count(self.program().take(self.position()))
    }

    /// A master with the pin released and no operation under way.
    pub fn new() -> (r: OneWire)
        ensures
            r.wf(),
            r.idle(),
            r.program() == Seq::<BusOp>::empty(),
            r.mode() == PinMode::Input,
            r.samples() == Seq::<bool>::empty(),
    {
        let r = OneWire {
            ops: Vec::new(),
            next: 0,
            mode: PinMode::Input,
            issued: 0,
            samples: Vec::new(),
        };
        assert(r.ops@.take(0) =~= Seq::<BusOp>::empty());
        r
    }

    /// Once an operation is done the pin is a floating input.
    pub proof fn lemma_idle_pin_released(&self)
        requires
            self.wf(),
            self.idle(),
        ensures
            self.mode() == PinMode::Input,
            !self.sample_pending() || self.samples().len() + 1 == sample_count(self.program()),
    {
        assert(self.ops@.take(self.next as int) =~= self.ops@);
    }

    /// Loads `ops` as the current operation.
    fn start(&mut self, ops: Vec<BusOp>)
        requires
            old(self).wf(),
            old(self).idle(),
            !old(self).sample_pending(),
            released_round(ops@),
        ensures
            final(self).wf(),
            final(self).program() == ops@,
            final(self).position() == 0,
            final(self).mode() == PinMode::Input,
            final(self).samples() == Seq::<bool>::empty(),
    {
        proof {
            self.lemma_idle_pin_released();
        }
        self.ops = ops;
        self.next = 0;
        self.issued = 0;
        self.samples = Vec::new();
        assert(self.ops@.take(0) =~= Seq::<BusOp>::empty());
    }

    /// Starts a bus reset with presence detection (see `reset_sequence`).
    pub fn bus_reset(&mut self)
        requires
            old(self).wf(),
            old(self).idle(),
            !old(self).sample_pending(),
        ensures
            final(self).wf(),
            final(self).program() == reset_spec(),
            final(self).position() == 0,
            final(self).mode() == PinMode::Input,
            final(self).samples() == Seq::<bool>::empty(),
    {
        proof {
            lemma_operations_release_pin(0, 0);
        }
        let ops = reset_sequence();
        self.start(ops);
    }

    /// Starts sending `command`, least significant bit first (see
    /// `write_sequence`).
    pub fn write(&mut self, command: u8)
        requires
            old(self).wf(),
            old(self).idle(),
            !old(self).sample_pending(),
        ensures
            final(self).wf(),
            final(self).program() == write_spec(command),
            final(self).position() == 0,
            final(self).mode() == PinMode::Input,
            final(self).samples() == Seq::<bool>::empty(),
    {
        proof {
            lemma_operations_release_pin(command, 0);
        }
        let ops = write_sequence(command);
        self.start(ops);
    }

    /// Starts reading `len` bytes (see `read_sequence`).
    pub fn read(&mut self, len: usize)
        requires
            old(self).wf(),
            old(self).idle(),
            !old(self).sample_pending(),
            len <= usize::MAX / 48,
        ensures
            final(self).wf(),
            final(self).program() == read_spec(len as nat),
            final(self).position() == 0,
            final(self).mode() == PinMode::Input,
            final(self).samples() == Seq::<bool>::empty(),
    {
        proof {
            lemma_operations_release_pin(0, len as nat);
        }
        let ops = read_sequence(len);
        self.start(ops);
    }

    /// Whether every action of the current operation has been handed out.
    pub fn is_idle(&self) -> (r: bool)
        requires
            self.wf(),
        ensures
            r == self.idle(),
    {
        self.next == self.ops.len()
    }

    /// Whether a line level must be recorded before the next action.
    pub fn awaiting_sample(&self) -> (r: bool)
        requires
            self.wf(),
        ensures
            r == self.sample_pending(),
    {
        self.samples.len() < self.issued
    }

    /// The mode the pin is in once the actions handed out so far are done.
    pub fn pin_mode(&self) -> (r: PinMode)
        ensures
            r == self.mode(),
    {
        self.mode
    }

    /// Hands out the next action of the current operation, or `None` when the
    /// operation is done. The action is valid in the pin's present mode.
    pub fn next_op(&mut self) -> (r: Option<BusOp>)
        requires
            old(self).wf(),
            !old(self).sample_pending(),
        ensures
            final(self).wf(),
            final(self).program() == old(self).program(),
            final(self).samples() == old(self).samples(),
            old(self).idle() ==> r == None::<BusOp> && final(self).position() == old(self).position()
                && final(self).mode() == old(self).mode(),
            !old(self).idle() ==> r == Some(old(self).program()[old(self).position()])
                && final(self).position() == old(self).position() + 1
                && op_allowed(old(self).mode(), r.unwrap())
                && final(self).mode() == mode_after_op(old(self).mode(), r.unwrap())
                && final(self).sample_pending() == (r.unwrap() == BusOp::Sample),
    {
        if self.next == self.ops.len() {
            return None;
        }
        let op = self.ops[self.next];
        proof {
            let s = self.ops@;
            let n = self.next as int;
            assert(s.take(n + 1) =~= s.take(n) + seq![op]);
            assert(s =~= s.take(n + 1) + s.skip(n + 1));
            lemma_concat(PinMode::Input, s.take(n + 1), s.skip(n + 1));
            lemma_concat(PinMode::Input, s.take(n), seq![op]);
            reveal_with_fuel(runs_from, 2);
            reveal_with_fuel(mode_after, 2);
            reveal_with_fuel(sample_count, 2);
            lemma_sample_count_bound(s.take(n + 1));
        }
        self.mode = match op {
            BusOp::DriveLow => PinMode::Output,
            BusOp::Release => PinMode::Input,
            _ => self.mode,
        };
        if let BusOp::Sample = op {
            self.issued = self.issued + 1;
        }
        self.next = self.next + 1;
        Some(op)
    }

    /// Records the line level sampled for the last `BusOp::Sample` handed out:
    /// `true` when the line was high.
    pub fn record_sample(&mut self, line_high: bool)
        requires
            old(self).wf(),
            old(self).sample_pending(),
        ensures
            final(self).wf(),
            final(self).program() == old(self).program(),
            final(self).position() == old(self).position(),
            final(self).mode() == old(self).mode(),
            final(self).samples() == old(self).samples().push(line_high),
            !final(self).sample_pending(),
    {
        self.samples.push(line_high);
    }

    /// Whether a slave answered the last reset with a presence pulse: the
    /// line was low when it was sampled.
    pub fn presence(&self) -> (r: bool)
        ensures
            r == (self.samples().len() > 0 && !self.samples()[0]),
    {
        self.samples.len() > 0 && !self.samples[0]
    }

    /// The bytes received by the current read: the recorded levels eight to
    /// a byte, least significant bit first, a high level giving a one bit.
    pub fn received(&self) -> (r: Vec<u8>)
        ensures
            r.len() == self.samples().len() / 8,
            unpack(r@) == self.samples().take(8 * r.len()),
    {
        pack_samples(&self.samples)
    }
}

} // verus!
