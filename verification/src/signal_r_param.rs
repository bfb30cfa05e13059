//! The parameter of an outbound invocation, and its text inside the frame's
//! `arguments` array.

use crate::decimal::{push_signed_decimal, signed_decimal};
use vstd::prelude::*;
use vstd::string::StringSliceAdditionalSpecFns;
use vstd::utf8::encode_utf8;

verus! {

/// What an outbound invocation carries as its arguments.
pub enum SignalRParam<'s> {
    /// A JSON object, as the bytes it was written to.
    JsonObject(&'s [u8]),
    /// A string, as the text that stands between the quotes: already escaped
    /// for JSON.
    String(&'s str),
    Number(i64),
    /// A floating-point number, as its decimal text.
    Float(&'s str),
    Boolean(bool),
    /// Parameters that are JSON already, one item each.
    Raw(&'s [Vec<u8>]),
    Nothing,
}

/// The items, with a comma between each two.
pub open spec fn joined_with_commas(items: Seq<Vec<u8>>) -> Seq<u8>
    decreases items.len(),
{
    if items.len() == 0 {
        Seq::empty()
    } else if items.len() == 1 {
        items[0]@
    } else {
        joined_with_commas(items.drop_last()) + seq![0x2cu8] + items.last()@
    }
}

impl<'s> SignalRParam<'s> {
    /// The bytes that stand for the parameter between the brackets of the
    /// `arguments` array.
    pub open spec fn json_bytes(self) -> Seq<u8> {
        match self {
            SignalRParam::JsonObject(object) => object@,
            SignalRParam::String(escaped) => seq![0x22u8] + escaped.spec_bytes() + seq![0x22u8],
            SignalRParam::Number(number) => encode_utf8(signed_decimal(number as int)),
            SignalRParam::Float(text) => text.spec_bytes(),
            SignalRParam::Boolean(value) => if value {
                "true".spec_bytes()
            } else {
                "false".spec_bytes()
            },
            SignalRParam::Raw(items) => joined_with_commas(items@),
            SignalRParam::Nothing => Seq::empty(),
        }
    }

    /// Appends the parameter's bytes to `out`.
    pub fn write_into(&self, out: &mut Vec<u8>)
        ensures
            final(out)@ == old(out)@ + self.json_bytes(),
    {
        match self {
            SignalRParam::JsonObject(object) => {
                append_bytes(out, object);
            },
            SignalRParam::String(escaped) => {
                out.push(0x22u8);
                append_bytes(out, escaped.as_bytes());
                out.push(0x22u8);
                proof {
                    assert(out@ =~= old(out)@ + self.json_bytes());
                }
            },
            SignalRParam::Number(number) => {
                let mut text = String::new();
                push_signed_decimal(&mut text, *number);
                proof {
                    assert(text@ =~= signed_decimal(*number as int));
                }
                append_bytes(out, text.as_str().as_bytes());
            },
            SignalRParam::Float(text) => {
                append_bytes(out, text.as_bytes());
            },
            SignalRParam::Boolean(value) => {
                if *value {
                    append_bytes(out, "true".as_bytes());
                } else {
                    append_bytes(out, "false".as_bytes());
                }
            },
            SignalRParam::Raw(items) => {
                let mut index: usize = 0;
                while index < items.len()
                    invariant
                        index <= items@.len(),
                        out@ == old(out)@ + joined_with_commas(items@.subrange(0, index as int)),
                    decreases items@.len() - index,
                {
                    let ghost done = items@.subrange(0, index as int);
                    let ghost next = items@.subrange(0, index + 1);
                    proof {
                        assert(next.drop_last() =~= done);
                        assert(next.last() == items@[index as int]);
                    }
                    if index > 0 {
                        out.push(0x2cu8);
                    }
                    append_bytes(out, items[index].as_slice());
                    proof {
                        assert(out@ =~= old(out)@ + joined_with_commas(next));
                    }
                    index += 1;
                }
                proof {
                    assert(items@.subrange(0, index as int) =~= items@);
                }
            },
            SignalRParam::Nothing => {
                proof {
                    assert(out@ =~= old(out)@ + self.json_bytes());
                }
            },
        }
    }
}

/// Appends `bytes` to `out`.
pub fn append_bytes(out: &mut Vec<u8>, bytes: &[u8])
    ensures
        final(out)@ == old(out)@ + bytes@,
{
    let mut index: usize = 0;
    while index < bytes.len()
        invariant
            index <= bytes@.len(),
            out@ == old(out)@ + bytes@.subrange(0, index as int),
        decreases bytes@.len() - index,
    {
        out.push(bytes[index]);
        proof {
            assert(out@ =~= old(out)@ + bytes@.subrange(0, index + 1));
        }
        index += 1;
    }
    proof {
        assert(bytes@.subrange(0, index as int) =~= bytes@);
    }
}

} // verus!
