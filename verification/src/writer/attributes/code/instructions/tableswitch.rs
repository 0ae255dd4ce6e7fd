//! The writer for a switch over a dense range of keys.
//!
//! The instruction is the opcode, padding up to a multiple of four bytes from
//! the start of the instruction stream, the default label, the lower and the
//! upper bound of the range, and one jump label for every key of the range.
//! The writer takes these one at a time and only in this order.

use crate::bigendian::{be_bytes, unsigned};
use crate::error::{state_check, Context, EncodeError, EncodeErrorKind};
use crate::writer::attributes::code::{Code, CodeWriter, LabelRef};
use crate::writer::encoding::{Encode, Offset};
use vstd::prelude::*;

verus! {

/// What is written next.
#[derive(Debug, Clone, Copy, PartialEq, Eq, Structural)]
pub enum WriteState {
    Default,
    Low,
    High,
    Jumps,
    Finished,
}

impl WriteState {
    /// The place of the step in the order in which the steps are taken.
    pub open spec fn rank(self) -> nat {
        match self {
            WriteState::Default => 0,
            WriteState::Low => 1,
            WriteState::High => 2,
            WriteState::Jumps => 3,
            WriteState::Finished => 4,
        }
    }

    fn exec_rank(self) -> (r: u8)
        ensures
            r == self.rank(),
    {
        match self {
            WriteState::Default => 0,
            WriteState::Low => 1,
            WriteState::High => 2,
            WriteState::Jumps => 3,
            WriteState::Finished => 4,
        }
    }
}

/// What a [`TableSwitchWriter`] stands for.
pub struct TableSwitch {
    /// The instruction stream that the switch is written to.
    pub code: Code,
    /// The step that comes next.
    pub state: WriteState,
    /// The lower bound, once it has been written.
    pub low: i32,
    /// The number of jump labels that are still to come, once both bounds
    /// have been written.
    pub remaining: nat,
}

/// The failure of a step that is asked for while the writer is in `state`
/// but belongs to `expected`.
pub open spec fn wrong_step(state: WriteState, expected: WriteState) -> Result<(), EncodeError> {
    state_check(state.rank(), expected.rank(), Context::Code)
}

/// `n` zero bytes.
pub open spec fn zeros(n: nat) -> Seq<u8> {
    Seq::new(n, |i: int| 0u8)
}

/// The bytes that open a switch whose opcode stands `offset` bytes behind
/// the start of the instruction stream: the opcode and as many zero bytes as
/// it takes to reach the next multiple of four.
pub open spec fn opening(offset: nat) -> Seq<u8> {
    seq![0xaau8] + zeros((3 - offset % 4) as nat)
}

/// The writer for one switch. It takes the default label, the lower bound,
/// the upper bound and the jump labels in this order, and exactly as many
/// jump labels as the range has keys.
#[derive(Debug)]
pub struct TableSwitchWriter {
    code_writer: CodeWriter,
    state: WriteState,
    low: i32,
    remaining: u64,
}

impl View for TableSwitchWriter {
    type V = TableSwitch;

    closed spec fn view(&self) -> TableSwitch {
        TableSwitch {
            code: self.code_writer@,
            state: self.state,
            low: self.low,
            remaining: self.remaining as nat,
        }
    }
}

impl TableSwitchWriter {
    /// The code writer is well formed, and while jump labels are expected at
    /// least one is still to come.
    pub open spec fn wf(&self) -> bool {
        self.writer_wf() && (self@.state == WriteState::Jumps ==> self@.remaining > 0)
    }

    /// The code writer is well formed.
    pub closed spec fn writer_wf(&self) -> bool {
        self.code_writer.wf()
    }

    /// Starts a switch whose opcode stands `offset` bytes behind the start of
    /// the instruction stream.
    pub fn new(code_writer: CodeWriter, offset: Offset) -> (r: Result<
        TableSwitchWriter,
        EncodeError,
    >)
        requires
            code_writer.wf(),
        ensures
            r matches Ok(w) && w.wf() && w@ == (TableSwitch {
                code: code_writer@.appended(opening(offset.0 as nat)),
                state: WriteState::Default,
                low: 0,
                remaining: 0,
            }),
    {
        let mut code_writer = code_writer;
        let ghost before = code_writer@;
        let _ = code_writer.write(0xaau8);
        assert(0xaau8.encoding() == seq![0xaau8]) by {
            reveal_with_fuel(be_bytes, 2);
        }
        let padding = 3 - offset.get() % 4;
        let mut i: usize = 0;
        while i < padding
            invariant
                i <= padding,
                code_writer.wf(),
                code_writer@ == before.appended(seq![0xaau8] + zeros(i as nat)),
            decreases padding - i,
        {
            let _ = code_writer.write(0u8);
            proof {
                reveal_with_fuel(be_bytes, 2);
                assert(0u8.encoding() == seq![0u8]);
                assert(zeros(i as nat) + seq![0u8] == zeros((i + 1) as nat));
                assert(before.output.tail + (seq![0xaau8] + zeros(i as nat)) + seq![0u8]
                    == before.output.tail + (seq![0xaau8] + zeros((i + 1) as nat)));
            }
            i += 1;
        }
        Ok(TableSwitchWriter { code_writer, state: WriteState::Default, low: 0, remaining: 0 })
    }

    /// Hands the code writer back once every jump label has been written.
    pub fn finish(self) -> (r: Result<CodeWriter, EncodeError>)
        requires
            self.wf(),
        ensures
            match r {
                Ok(code_writer) => self@.state == WriteState::Finished && code_writer.wf()
                    && code_writer@ == self@.code,
                Err(e) => self@.state != WriteState::Finished && Err::<(), EncodeError>(e)
                    == wrong_step(self@.state, WriteState::Finished),
            },
    {
        match EncodeError::result_from_state(
            self.state.exec_rank(),
            WriteState::Finished.exec_rank(),
            Context::Code,
        ) {
            Ok(()) => {},
            Err(e) => {
                return Err(e);
            },
        }
        Ok(self.code_writer)
    }

    /// Writes the label that is jumped to for a key outside the range.
    pub fn write_default(&mut self, label: LabelRef) -> (r: Result<&mut Self, EncodeError>)
        requires
            old(self).wf(),
        ensures
            match r {
                Ok(w) => old(self)@.state == WriteState::Default && w.wf() && w@ == (TableSwitch {
                    code: old(self)@.code.appended(be_bytes(label.0 as nat, 4)),
                    state: WriteState::Low,
                    ..old(self)@
                }) && *final(w) == *final(self),
                Err(e) => old(self)@.state != WriteState::Default && Err::<(), EncodeError>(e)
                    == wrong_step(old(self)@.state, WriteState::Default) && final(self).wf()
                    && final(self)@ == old(self)@,
            },
    {
        match EncodeError::result_from_state(
            self.state.exec_rank(),
            WriteState::Default.exec_rank(),
            Context::Code,
        ) {
            Ok(()) => {},
            Err(e) => {
                return Err(e);
            },
        }
        let _ = self.code_writer.write(label.0);
        self.state = WriteState::Low;
        Ok(self)
    }

    /// Writes the lower bound of the range.
    pub fn write_low(&mut self, low: i32) -> (r: Result<&mut Self, EncodeError>)
        requires
            old(self).wf(),
        ensures
            match r {
                Ok(w) => old(self)@.state == WriteState::Low && w.wf() && w@ == (TableSwitch {
                    code: old(self)@.code.appended(be_bytes(unsigned(low as int, 4), 4)),
                    state: WriteState::High,
                    low,
                    ..old(self)@
                }) && *final(w) == *final(self),
                Err(e) => old(self)@.state != WriteState::Low && Err::<(), EncodeError>(e)
                    == wrong_step(old(self)@.state, WriteState::Low) && final(self).wf()
                        && final(self)@ == old(self)@,
            },
    {
        match EncodeError::result_from_state(
            self.state.exec_rank(),
            WriteState::Low.exec_rank(),
            Context::Code,
        ) {
            Ok(()) => {},
            Err(e) => {
                return Err(e);
            },
        }
        let _ = self.code_writer.write(low);
        self.low = low;
        self.state = WriteState::High;
        Ok(self)
    }

    /// Writes the upper bound of the range. The bound is written even if it
    /// lies below the lower bound; the writer then fails and stays where it
    /// is. Otherwise one jump label is expected for every key from the lower
    /// to the upper bound.
    pub fn write_high(&mut self, high: i32) -> (r: Result<&mut Self, EncodeError>)
        requires
            old(self).wf(),
        ensures
            match r {
                Ok(w) => old(self)@.state == WriteState::High && old(self)@.low <= high && w.wf()
                    && w@ == (TableSwitch {
                    code: old(self)@.code.appended(be_bytes(unsigned(high as int, 4), 4)),
                    state: WriteState::Jumps,
                    remaining: (high - old(self)@.low + 1) as nat,
                    ..old(self)@
                }) && *final(w) == *final(self),
                Err(e) => final(self).wf() && if old(self)@.state != WriteState::High {
                    Err::<(), EncodeError>(e) == wrong_step(old(self)@.state, WriteState::High)
                        && final(self)@ == old(self)@
                } else {
                    old(self)@.low > high && e == (EncodeError {
                        kind: EncodeErrorKind::IncorrectBounds,
                        position: None,
                        context: Context::Code,
                    }) && final(self)@ == (TableSwitch {
                        code: old(self)@.code.appended(be_bytes(unsigned(high as int, 4), 4)),
                        ..old(self)@
                    })
                },
            },
    {
        match EncodeError::result_from_state(
            self.state.exec_rank(),
            WriteState::High.exec_rank(),
            Context::Code,
        ) {
            Ok(()) => {},
            Err(e) => {
                return Err(e);
            },
        }
        let _ = self.code_writer.write(high);

        let low = self.low;
        if low > high {
            return Err(
                EncodeError::with_context(EncodeErrorKind::IncorrectBounds, Context::Code),
            );
        }
        self.remaining = (high as i64 - low as i64 + 1) as u64;

        self.state = WriteState::Jumps;
        Ok(self)
    }

    /// Writes the label that is jumped to for the next key of the range. The
    /// label for the last key completes the switch.
    pub fn write_jump(&mut self, label: LabelRef) -> (r: Result<&mut Self, EncodeError>)
        requires
            old(self).wf(),
        ensures
            match r {
                Ok(w) => old(self)@.state == WriteState::Jumps && w.wf() && w@ == (TableSwitch {
                    code: old(self)@.code.appended(be_bytes(label.0 as nat, 4)),
                    state: if old(self)@.remaining == 1 {
                        WriteState::Finished
                    } else {
                        WriteState::Jumps
                    },
                    remaining: (old(self)@.remaining - 1) as nat,
                    ..old(self)@
                }) && *final(w) == *final(self),
                Err(e) => old(self)@.state != WriteState::Jumps && Err::<(), EncodeError>(e)
                    == wrong_step(old(self)@.state, WriteState::Jumps) && final(self).wf()
                    && final(self)@ == old(self)@,
            },
    {
        match EncodeError::result_from_state(
            self.state.exec_rank(),
            WriteState::Jumps.exec_rank(),
            Context::Code,
        ) {
            Ok(()) => {},
            Err(e) => {
                return Err(e);
            },
        }
        let _ = self.code_writer.write(label.0);
        if self.remaining == 1 {
            self.state = WriteState::Finished;
        }
        self.remaining -= 1;

        Ok(self)
    }
}

/// The bytes of the labels in `labels`, one after the other.
pub open spec fn labels_bytes(labels: Seq<LabelRef>) -> Seq<u8>
    decreases labels.len(),
{
    if labels.len() == 0 {
        Seq::empty()
    } else {
        labels_bytes(labels.drop_last()) + be_bytes(labels.last().0 as nat, 4)
    }
}

/// The bytes of a whole switch whose opcode stands `offset` bytes behind the
/// start of the instruction stream.
pub open spec fn switch_bytes(
    offset: nat,
    default: LabelRef,
    low: i32,
    high: i32,
    jumps: Seq<LabelRef>,
) -> Seq<u8> {
    opening(offset) + be_bytes(default.0 as nat, 4) + be_bytes(unsigned(low as int, 4), 4)
        + be_bytes(unsigned(high as int, 4), 4) + labels_bytes(jumps)
}

/// The failure that is met in the instruction stream and not tied to a
/// position.
pub open spec fn code_failure(kind: EncodeErrorKind) -> EncodeError {
    EncodeError { kind, position: None, context: Context::Code }
}

/// Writes a whole switch at the end of the instruction stream. The switch is
/// written if and only if the range is not empty and there is exactly one
/// jump label for each of its keys. Bounds in the wrong order are refused as
/// `IncorrectBounds`, a label too many as `CantChangeAnymore`, and labels that
/// are missing as `ValuesMissing`.
#[verifier::rlimit(40)]
pub fn write_table_switch(
    code_writer: CodeWriter,
    default: LabelRef,
    low: i32,
    high: i32,
    jumps: &[LabelRef],
) -> (r: Result<CodeWriter, EncodeError>)
    requires
        code_writer.wf(),
    ensures
        match r {
            Ok(w) => low <= high && jumps@.len() == high - low + 1 && w.wf() && w@
                == code_writer@.appended(
                switch_bytes(code_writer@.stream().len(), default, low, high, jumps@),
            ),
            Err(e) => if low > high {
                e == code_failure(EncodeErrorKind::IncorrectBounds)
            } else if jumps@.len() > high - low + 1 {
                e == code_failure(EncodeErrorKind::CantChangeAnymore)
            } else {
                jumps@.len() < high - low + 1 && e == code_failure(EncodeErrorKind::ValuesMissing)
            },
        },
{
    let offset = code_writer.position();
    let ghost start = code_writer@;
    let mut writer = match TableSwitchWriter::new(code_writer, offset) {
        Ok(writer) => writer,
        Err(e) => {
            return Err(e);
        },
    };
    match writer.write_default(default) {
        Ok(_) => {},
        Err(e) => {
            return Err(e);
        },
    }
    match writer.write_low(low) {
        Ok(_) => {},
        Err(e) => {
            return Err(e);
        },
    }
    match writer.write_high(high) {
        Ok(_) => {},
        Err(e) => {
            return Err(e);
        },
    }
    let ghost range = high - low + 1;
    let ghost head = opening(offset.0 as nat) + be_bytes(default.0 as nat, 4) + be_bytes(
        unsigned(low as int, 4),
        4,
    ) + be_bytes(unsigned(high as int, 4), 4);
    proof {
        assert(jumps@.take(0) == Seq::<LabelRef>::empty());
        assert(start.output.tail + opening(offset.0 as nat) + be_bytes(default.0 as nat, 4)
            + be_bytes(unsigned(low as int, 4), 4) + be_bytes(unsigned(high as int, 4), 4)
            == start.output.tail + (head + labels_bytes(jumps@.take(0))));
    }
    let mut i: usize = 0;
    while i < jumps.len()
        invariant
            i <= jumps@.len(),
            i <= range,
            low <= high,
            range == high - low + 1,
            writer.wf(),
            writer@.code == start.appended(head + labels_bytes(jumps@.take(i as int))),
            writer@.state == (if i < range {
                WriteState::Jumps
            } else {
                WriteState::Finished
            }),
            writer@.remaining == range - i,
        decreases jumps@.len() - i,
    {
        let ghost done = jumps@.take(i as int);
        match writer.write_jump(jumps[i]) {
            Ok(_) => {},
            Err(e) => {
                return Err(e);
            },
        }
        proof {
            assert(jumps@.take(i + 1).drop_last() == done);
            assert(start.output.tail + (head + labels_bytes(done)) + be_bytes(
                jumps@[i as int].0 as nat,
                4,
            ) == start.output.tail + (head + labels_bytes(jumps@.take(i + 1))));
        }
        i += 1;
    }
    proof {
        assert(jumps@.take(i as int) == jumps@);
    }
    writer.finish()
}

} // verus!
