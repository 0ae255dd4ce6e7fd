//! The writer for the instruction stream of a method body.

pub mod instructions;

use crate::error::EncodeError;
use crate::writer::encoding::{Encode, Encoder, Offset};
use crate::writer::{ClassWriter, Layout};
use vstd::prelude::*;

verus! {

/// A reference to a place in the instruction stream.
#[derive(Debug, Clone, Copy, PartialEq, Eq, Structural)]
pub struct LabelRef(pub u32);

/// What a [`CodeWriter`] stands for.
pub struct Code {
    /// The class that is being written.
    pub output: Layout,
    /// The position in the tail at which the instruction stream starts.
    pub start: nat,
}

impl Code {
    /// The instructions written so far.
    pub open spec fn stream(self) -> Seq<u8> {
        self.output.tail.skip(self.start as int)
    }

    /// This state with `bytes` appended to the instruction stream.
    pub open spec fn appended(self, bytes: Seq<u8>) -> Code {
        Code { output: self.output.appended(bytes), start: self.start }
    }
}

/// A writer that appends instructions to the tail of a class.
#[derive(Debug)]
pub struct CodeWriter {
    class_writer: ClassWriter,
    start: Offset,
}

impl View for CodeWriter {
    type V = Code;

    closed spec fn view(&self) -> Code {
        Code { output: self.class_writer@, start: self.start.0 as nat }
    }
}

impl CodeWriter {
    /// The class writer is well formed and the instruction stream starts
    /// inside its tail.
    pub open spec fn wf(&self) -> bool {
        self.writer_wf() && self@.start <= self@.output.tail.len()
    }

    /// The class writer is well formed.
    pub closed spec fn writer_wf(&self) -> bool {
        self.class_writer.wf()
    }

    /// An empty instruction stream at the end of the tail.
    pub fn new(class_writer: ClassWriter) -> (r: CodeWriter)
        requires
            class_writer.wf(),
        ensures
            r.wf(),
            r@ == (Code { output: class_writer@, start: class_writer@.tail.len() }),
    {
        let start = class_writer.position();
        CodeWriter { class_writer, start }
    }

    /// The offset of the next instruction from the start of the stream.
    pub fn position(&self) -> (r: Offset)
        requires
            self.wf(),
        ensures
            r.0 == self@.stream().len(),
    {
        self.class_writer.position().sub(self.start)
    }

    /// Appends the encoding of `value` to the instruction stream and hands
    /// the writer back for the next write.
    pub fn write<T: Encode>(&mut self, value: T) -> (r: Result<&mut Self, EncodeError>)
        requires
            old(self).wf(),
        ensures
            r matches Ok(w) && w.wf() && w@ == old(self)@.appended(value.encoding()) && *final(w)
                == *final(self),
    {
        let _ = value.encode(self);
        Ok(self)
    }

    /// Hands the class writer back.
    pub fn finish(self) -> (r: ClassWriter)
        requires
            self.wf(),
        ensures
            r.wf(),
            r@ == self@.output,
    {
        self.class_writer
    }
}

impl Encoder for CodeWriter {
    /// A well-formed writer always has room at the end of the stream.
    open spec fn fits(self, n: nat) -> bool {
        self.wf()
    }

    /// The bytes are appended to the instruction stream. This never fails.
    open spec fn wrote(
        before: CodeWriter,
        bytes: Seq<u8>,
        after: CodeWriter,
        r: Result<(), EncodeError>,
    ) -> bool {
        r is Ok && after.wf() && after@ == before@.appended(bytes)
    }

    fn write_bytes(&mut self, bytes: &[u8]) -> (r: Result<(), EncodeError>) {
        let _ = self.class_writer.write_bytes(bytes);
        Ok(())
    }
}

} // verus!
