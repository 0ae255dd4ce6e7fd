//! Failure values of the decoder and of the encoder.
//!
//! Every failure carries a kind, the place in the class structure where it
//! happened (its [`Context`]) and, for failures that come from running out of
//! input or output room, an absolute byte position.

use crate::text::{decimal, decimal_text};
use crate::writer::encoding::Offset;
use vstd::prelude::*;
use vstd::string::StringExecFns;

verus! {

/// What went wrong while decoding.
#[derive(Debug, Clone, Copy, PartialEq, Eq, Structural)]
pub enum DecodeErrorKind {
    /// The input ended before the requested bytes were available.
    UnexpectedEoi,
    /// A string constant is not valid modified UTF-8.
    InvalidMutf8,
    /// A constant pool entry starts with a tag that names no entry kind.
    InvalidTag,
    /// A constant pool index is zero, past the end of the pool, or names the
    /// unusable slot behind an eight-byte constant.
    InvalidIndex,
    /// A typed index names an entry of another kind.
    TagMismatch,
    /// The name of an attribute is none of the names whose content is known.
    UnknownAttributeName,
}

/// Where in the class structure a failure happened.
#[derive(Debug, Clone, Copy, PartialEq, Eq, Structural)]
pub enum Context {
    /// No particular place.
    Nowhere,
    /// Either the `0xCAFEBABE` prefix or the major and minor versions.
    Start,
    /// The constant pool, along with the slot that was being read or asked
    /// for. Slots are counted from zero.
    ConstantPool(u16),
    /// The field table.
    Fields,
    /// An attribute table.
    Attributes,
    /// The content of a single attribute.
    AttributeContent,
    /// The instruction stream of a method body.
    Code,
}

/// A failed decode operation.
#[derive(Debug)]
pub struct DecodeError {
    pub kind: DecodeErrorKind,
    /// The absolute byte position at which the input ran out; absent for
    /// failures that are not tied to a position.
    pub position: Option<usize>,
    pub context: Context,
}

impl DecodeErrorKind {
    /// The kind in words.
    pub open spec fn text(self) -> Seq<char> {
        match self {
            DecodeErrorKind::UnexpectedEoi => "unexpected end of input"@,
            DecodeErrorKind::InvalidMutf8 => "invalid modified utf8"@,
            DecodeErrorKind::InvalidTag => "invalid tag"@,
            DecodeErrorKind::InvalidIndex => "invalid index"@,
            DecodeErrorKind::TagMismatch => "tag mismatch"@,
            DecodeErrorKind::UnknownAttributeName => "unknown attribute name"@,
        }
    }

    /// The kind in words.
    pub fn description(&self) -> (r: &'static str)
        ensures
            r@ == self.text(),
    {
        match *self {
            DecodeErrorKind::UnexpectedEoi => "unexpected end of input",
            DecodeErrorKind::InvalidMutf8 => "invalid modified utf8",
            DecodeErrorKind::InvalidTag => "invalid tag",
            DecodeErrorKind::InvalidIndex => "invalid index",
            DecodeErrorKind::TagMismatch => "tag mismatch",
            DecodeErrorKind::UnknownAttributeName => "unknown attribute name",
        }
    }
}

impl Context {
    /// The context in words.
    pub open spec fn text(self) -> Seq<char> {
        match self {
            Context::Nowhere => "none"@,
            Context::Start => "start"@,
            Context::ConstantPool(index) => "constant pool at "@ + decimal_text(index as nat),
            Context::Fields => "fields"@,
            Context::Attributes => "attributes"@,
            Context::AttributeContent => "attribute content"@,
            Context::Code => "code"@,
        }
    }

    /// The context in words.
    pub fn description(&self) -> (r: String)
        ensures
            r@ == self.text(),
    {
        match *self {
            Context::Nowhere => String::from_str("none"),
            Context::Start => String::from_str("start"),
            Context::ConstantPool(index) => {
                let mut text = String::from_str("constant pool at ");
                text.append(decimal(index as usize).as_str());
                text
            },
            Context::Fields => String::from_str("fields"),
            Context::Attributes => String::from_str("attributes"),
            Context::AttributeContent => String::from_str("attribute content"),
            Context::Code => String::from_str("code"),
        }
    }
}

/// The message of a failure of kind `kind` in `context`: the kind alone if
/// the failure is not tied to a position, else kind, position and context.
pub open spec fn message_text(kind: Seq<char>, position: Option<usize>, context: Context) -> Seq<
    char,
> {
    match position {
        Some(position) => kind + " at "@ + decimal_text(position as nat) + " in "@ + context.text(),
        None => kind,
    }
}

/// The message of a failure of kind `kind` in `context`.
fn message(kind: &str, position: Option<usize>, context: Context) -> (r: String)
    ensures
        r@ == message_text(kind@, position, context),
{
    let mut text = String::from_str(kind);
    match position {
        Some(position) => {
            text.append(" at ");
            text.append(decimal(position).as_str());
            text.append(" in ");
            text.append(context.description().as_str());
        },
        None => {},
    }
    text
}

impl DecodeError {
    /// What went wrong, where in the input and in which part of the class,
    /// in words.
    pub fn message(&self) -> (r: String)
        ensures
            r@ == message_text(self.kind.text(), self.position, self.context),
    {
        message(self.kind.description(), self.position, self.context)
    }

    /// A failure without position and context.
    pub fn new(kind: DecodeErrorKind) -> (r: DecodeError)
        ensures
            r == (DecodeError { kind, position: None, context: Context::Nowhere }),
    {
        DecodeError { kind, position: None, context: Context::Nowhere }
    }

    /// A failure met while decoding `context`, not tied to a position.
    pub fn with_context(kind: DecodeErrorKind, context: Context) -> (r: DecodeError)
        ensures
            r == (DecodeError { kind, position: None, context }),
    {
        DecodeError { kind, position: None, context }
    }

    /// A failure at the absolute byte `position`, met while decoding `context`.
    pub fn with_info(kind: DecodeErrorKind, position: usize, context: Context) -> (r: DecodeError)
        ensures
            r == (DecodeError { kind, position: Some(position), context }),
    {
        DecodeError { kind, position: Some(position), context }
    }

    pub fn kind(&self) -> (r: DecodeErrorKind)
        ensures
            r == self.kind,
    {
        self.kind
    }

    /// The absolute byte position at which the error occurred.
    pub fn position(&self) -> (r: Option<usize>)
        ensures
            r == self.position,
    {
        self.position
    }

    pub fn context(&self) -> (r: Context)
        ensures
            r == self.context,
    {
        self.context
    }
}

impl Clone for DecodeError {
    fn clone(&self) -> (r: DecodeError)
        ensures
            r == *self,
    {
        DecodeError { kind: self.kind, position: self.position, context: self.context }
    }
}

/// What went wrong while encoding.
#[derive(Debug, Clone, Copy, PartialEq, Eq, Structural)]
pub enum EncodeErrorKind {
    /// A counted sequence already holds as many items as its counter can express.
    TooManyItems,
    /// A length-prefixed region would grow past what its length field can express.
    TooManyBytes,
    /// The lower bound of a range lies above its upper bound.
    IncorrectBounds,
    /// A writer was asked for a later step while an earlier one is still missing.
    ValuesMissing,
    /// A writer was asked for a step that it has already left behind.
    CantChangeAnymore,
    /// The writer has failed before and can no longer be used.
    ErroredBefore,
}

/// A failed encode operation.
#[derive(Debug)]
pub struct EncodeError {
    pub kind: EncodeErrorKind,
    /// The absolute position in the output at which the failure happened;
    /// absent for failures that are not tied to a position.
    pub position: Option<Offset>,
    pub context: Context,
}

/// What a writer that expects to be in one step says when it is in another:
/// nothing if the two agree, `CantChangeAnymore` if the writer is already past
/// the expected step, `ValuesMissing` if it has not reached it yet. Steps are
/// given by their rank in the writer's protocol.
pub open spec fn state_check(current: nat, expected: nat, context: Context) -> Result<
    (),
    EncodeError,
> {
    if current == expected {
        Ok(())
    } else if expected < current {
        Err(EncodeError { kind: EncodeErrorKind::CantChangeAnymore, position: None, context })
    } else {
        Err(EncodeError { kind: EncodeErrorKind::ValuesMissing, position: None, context })
    }
}

impl EncodeErrorKind {
    /// The kind in words.
    pub open spec fn text(self) -> Seq<char> {
        match self {
            EncodeErrorKind::TooManyItems => "too many items"@,
            EncodeErrorKind::TooManyBytes => "too many bytes"@,
            EncodeErrorKind::IncorrectBounds => "incorrect bounds"@,
            EncodeErrorKind::ValuesMissing => "some values are missing"@,
            EncodeErrorKind::CantChangeAnymore => "cannot change anymore"@,
            EncodeErrorKind::ErroredBefore => "errored before"@,
        }
    }

    /// The kind in words.
    pub fn description(&self) -> (r: &'static str)
        ensures
            r@ == self.text(),
    {
        match *self {
            EncodeErrorKind::TooManyItems => "too many items",
            EncodeErrorKind::TooManyBytes => "too many bytes",
            EncodeErrorKind::IncorrectBounds => "incorrect bounds",
            EncodeErrorKind::ValuesMissing => "some values are missing",
            EncodeErrorKind::CantChangeAnymore => "cannot change anymore",
            EncodeErrorKind::ErroredBefore => "errored before",
        }
    }
}

impl EncodeError {
    /// What went wrong, where in the output and in which part of the class,
    /// in words.
    pub fn message(&self) -> (r: String)
        ensures
            r@ == message_text(
                self.kind.text(),
                match self.position {
                    Some(offset) => Some(offset.0),
                    None => None,
                },
                self.context,
            ),
    {
        let position = match self.position {
            Some(offset) => Some(offset.get()),
            None => None,
        };
        message(self.kind.description(), position, self.context)
    }

    /// A failure met while encoding `context`, not tied to a position.
    pub fn with_context(kind: EncodeErrorKind, context: Context) -> (r: EncodeError)
        ensures
            r == (EncodeError { kind, position: None, context }),
    {
        EncodeError { kind, position: None, context }
    }

    /// A failure at `position` in the output, met while encoding `context`.
    pub fn with_info(kind: EncodeErrorKind, position: Offset, context: Context) -> (r: EncodeError)
        ensures
            r == (EncodeError { kind, position: Some(position), context }),
    {
        EncodeError { kind, position: Some(position), context }
    }

    /// Compares the step a writer is in with the step an operation expects,
    /// both given by their rank in the writer's protocol.
    pub fn result_from_state(current: u8, expected: u8, context: Context) -> (r: Result<
        (),
        EncodeError,
    >)
        ensures
            r == state_check(current as nat, expected as nat, context),
    {
        if current == expected {
            Ok(())
        } else if expected < current {
            Err(EncodeError::with_context(EncodeErrorKind::CantChangeAnymore, context))
        } else {
            Err(EncodeError::with_context(EncodeErrorKind::ValuesMissing, context))
        }
    }

    pub fn kind(&self) -> (r: EncodeErrorKind)
        ensures
            r == self.kind,
    {
        self.kind
    }

    /// The position in the output at which the error occurred.
    pub fn position(&self) -> (r: Option<Offset>)
        ensures
            r == self.position,
    {
        self.position
    }

    pub fn context(&self) -> (r: Context)
        ensures
            r == self.context,
    {
        self.context
    }
}

impl Clone for EncodeError {
    fn clone(&self) -> (r: EncodeError)
        ensures
            r == *self,
    {
        EncodeError { kind: self.kind, position: self.position, context: self.context }
    }
}

} // verus!
