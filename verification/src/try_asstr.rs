use vstd::prelude::*;
use vstd::string::StringExecFns;

use crate::{CodecError, Emitted, Mode, Textual};

verus! {

/// The lenient display adapter, encode side: identical to the strict
/// display/parse adapter — the string form is always produced in text mode.
pub fn serialize<T: Textual>(val: T, mode: Mode) -> (r: Emitted<T>)
    ensures
        mode is Binary ==> r == Emitted::Native(val),
        mode is Text ==> (r matches Emitted::Text(s) && s@ == val.text()),
{
    crate::asstr::serialize(val, mode)
}

/// What the lenient decode yields, over views: in text mode the two input
/// branches are distinguished by their shape alone — a string is parsed, a
/// natively shaped value is taken as it is — so no branch is tried and
/// discarded on failure.
pub open spec fn decode_model<T: Textual>(input: Emitted<T>, mode: Mode) -> Result<
    Seq<char>,
    CodecError,
> {
    match mode {
        Mode::Binary => match input {
            Emitted::Native(v) => Ok(v.text()),
            Emitted::Text(_) => Err(CodecError::Malformed),
        },
        Mode::Text => {
            if crate::text_decode_ok(input, true) {
                Ok(crate::text_decoded_text(input, true))
            } else {
                Err(CodecError::ParseError)
            }
        }
    }
}

/// The lenient display adapter, decode side: text mode accepts either the
/// canonical string form or the value's native structured form.
pub fn deserialize<T: Textual>(input: Emitted<T>, mode: Mode) -> (r: Result<T, CodecError>)
    ensures
        match decode_model(input, mode) {
            Ok(t) => r matches Ok(v) && v.text() == t,
            Err(e) => r == Err::<T, CodecError>(e),
        },
        mode is Binary ==> (input matches Emitted::Native(v) ==> r == Ok::<_, CodecError>(v)),
        mode is Text ==> (input matches Emitted::Native(v) ==> r == Ok::<_, CodecError>(v)),
{
    match mode {
        Mode::Binary => match input {
            Emitted::Native(v) => Ok(v),
            Emitted::Text(_) => Err(CodecError::Malformed),
        },
        Mode::Text => match input {
            Emitted::Text(s) => T::from_text(s.as_str()),
            Emitted::Native(v) => Ok(v),
        },
    }
}

/// Either text-mode form of one value — its canonical string, or the value
/// itself — decodes leniently to a value with the very same canonical text.
pub proof fn lemma_lenient_either_form<T: Textual>(v: T, s: String)
    requires
        s@ == v.text(),
    ensures
        crate::text_decode_ok(Emitted::<T>::Text(s), true),
        crate::text_decode_ok(Emitted::Native(v), true),
        crate::text_decoded_text(Emitted::<T>::Text(s), true) == crate::text_decoded_text(
            Emitted::Native(v),
            true,
        ),
{
    v.lemma_text_canonical();
}

/// A one-field value whose canonical text is its field's content, and whose
/// grammar admits every string: the simplest shape that has both a string
/// form and a native structured form.
#[derive(Debug, PartialEq, Eq)]
pub struct Labeled {
    pub laboo: String,
}

impl Textual for Labeled {
    open spec fn grammar(s: Seq<char>) -> bool {
        true
    }

    open spec fn text(&self) -> Seq<char> {
        self.laboo@
    }

    open spec fn parsed_text(s: Seq<char>) -> Seq<char> {
        s
    }

    proof fn lemma_text_canonical(&self) {
    }

    fn to_text(&self) -> (r: String) {
        self.laboo.clone()
    }

    fn from_text(s: &str) -> (r: Result<Self, CodecError>) {
        Ok(Labeled { laboo: String::from_str(s) })
    }
}

} // verus!
