//! An inbound invocation, picked out of the fields of its frame.

use std::collections::HashMap;
use vstd::prelude::*;

verus! {

/// One field of the first level of a JSON object, as a reader hands it over.
pub struct PayloadField<'s> {
    pub name: &'s str,
    /// The value as text, where it has one.
    pub text: Option<&'s str>,
    /// The value as the bytes it was written with, where it has them.
    pub raw: Option<&'s [u8]>,
}

pub struct SignalrMessage<'s> {
    pub headers: Option<HashMap<String, String>>,
    pub invocation_id: Option<&'s str>,
    pub target: &'s str,
    pub arguments: &'s [u8],
}

/// Why a frame is no invocation.
#[derive(Debug, Clone, Copy, PartialEq, Eq, Structural)]
pub enum SignalrMessageError {
    TargetNotFound,
    ArgumentsNotFound,
}

/// Whether two texts are the same.
pub fn same_text(a: &str, b: &str) -> (same: bool)
    ensures
        same == (a@ == b@),
{
    a.to_owned() == b.to_owned()
}

/// The last field of `fields` that is named `name`.
pub open spec fn last_named<'s>(fields: Seq<PayloadField<'s>>, name: Seq<char>) -> Option<
    PayloadField<'s>,
>
    decreases fields.len(),
{
    if fields.len() == 0 {
        None
    } else if fields.last().name@ == name {
        Some(fields.last())
    } else {
        last_named(fields.drop_last(), name)
    }
}

/// The text of the last field named `name`, where there is such a field and
/// its value has a text.
pub open spec fn text_of<'s>(fields: Seq<PayloadField<'s>>, name: Seq<char>) -> Option<&'s str> {
    match last_named(fields, name) {
        Some(field) => field.text,
        None => None,
    }
}

/// The bytes of the last field named `name`, where there is such a field and
/// its value has bytes.
pub open spec fn raw_of<'s>(fields: Seq<PayloadField<'s>>, name: Seq<char>) -> Option<&'s [u8]> {
    match last_named(fields, name) {
        Some(field) => field.raw,
        None => None,
    }
}

/// What `parse` makes of `fields`: the invocation, or the first thing that
/// is missing.
pub open spec fn parsed<'s>(fields: Seq<PayloadField<'s>>) -> Result<
    SignalrMessage<'s>,
    SignalrMessageError,
> {
    match (text_of(fields, "target"@), raw_of(fields, "arguments"@)) {
        (None, _) => Err(SignalrMessageError::TargetNotFound),
        (Some(_), None) => Err(SignalrMessageError::ArgumentsNotFound),
        (Some(target), Some(arguments)) => Ok(
            SignalrMessage {
                headers: None,
                invocation_id: text_of(fields, "invocationId"@),
                target,
                arguments,
            },
        ),
    }
}

impl SignalrMessageError {
    pub open spec fn message_text(self) -> Seq<char> {
        match self {
            SignalrMessageError::TargetNotFound => "Target is not found"@,
            SignalrMessageError::ArgumentsNotFound => "Arguments is not found"@,
        }
    }

    /// The error in words.
    pub fn message(&self) -> (text: &'static str)
        ensures
            text@ == self.message_text(),
    {
        match self {
            SignalrMessageError::TargetNotFound => "Target is not found",
            SignalrMessageError::ArgumentsNotFound => "Arguments is not found",
        }
    }
}

impl<'s> SignalrMessage<'s> {
    /// Picks the invocation out of the fields of a frame. Of several fields
    /// with one name the last one counts. A frame without a target that has a
    /// text, or without arguments that have bytes, is no invocation.
    pub fn parse(fields: &[PayloadField<'s>]) -> (message: Result<Self, SignalrMessageError>)
        ensures
            message == parsed(fields@),
    {
        let mut invocation_id: Option<&'s str> = None;
        let mut target: Option<&'s str> = None;
        let mut arguments: Option<&'s [u8]> = None;
        proof {
            reveal_strlit("invocationId");
            reveal_strlit("arguments");
            reveal_strlit("target");
            assert("invocationId"@.len() == 12);
            assert("arguments"@.len() == 9);
            assert("target"@.len() == 6);
        }
        let mut i: usize = 0;
        while i < fields.len()
            invariant
                i <= fields@.len(),
                "invocationId"@ != "arguments"@,
                "invocationId"@ != "target"@,
                "arguments"@ != "target"@,
                invocation_id == text_of(fields@.subrange(0, i as int), "invocationId"@),
                target == text_of(fields@.subrange(0, i as int), "target"@),
                arguments == raw_of(fields@.subrange(0, i as int), "arguments"@),
            decreases fields@.len() - i,
        {
            let field = &fields[i];
            proof {
                let next = fields@.subrange(0, i + 1);
                assert(next.drop_last() =~= fields@.subrange(0, i as int));
                assert(next.last() == fields@[i as int]);
            }
            if same_text(field.name, "invocationId") {
                invocation_id = field.text;
            } else if same_text(field.name, "arguments") {
                arguments = field.raw;
            } else if same_text(field.name, "target") {
                target = field.text;
            }
            i += 1;
        }
        proof {
            assert(fields@.subrange(0, i as int) =~= fields@);
        }
        match target {
            None => Err(SignalrMessageError::TargetNotFound),
            Some(target) => match arguments {
                None => Err(SignalrMessageError::ArgumentsNotFound),
                Some(arguments) => Ok(
                    Self { headers: None, invocation_id, target, arguments },
                ),
            },
        }
    }
}

} // verus!
