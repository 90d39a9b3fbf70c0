use vstd::prelude::*;

use crate::{CodecError, Emitted, Mode, Textual};

verus! {

/// The display/parse adapter, encode side: binary mode hands the value
/// through for its native encoding; text mode renders its canonical string.
pub fn serialize<T: Textual>(val: T, mode: Mode) -> (r: Emitted<T>)
    ensures
        mode is Binary ==> r == Emitted::Native(val),
        mode is Text ==> (r matches Emitted::Text(s) && s@ == val.text()),
{
    match mode {
        Mode::Binary => Emitted::Native(val),
        Mode::Text => Emitted::Text(val.to_text()),
    }
}

/// What the strict display/parse decode yields, over views.
pub open spec fn decode_model<T: Textual>(input: Emitted<T>, mode: Mode) -> Result<
    Seq<char>,
    CodecError,
> {
    match mode {
        Mode::Binary => match input {
            Emitted::Native(v) => Ok(v.text()),
            Emitted::Text(_) => Err(CodecError::Malformed),
        },
        Mode::Text => {
            if crate::text_decode_ok(input, false) {
                Ok(crate::text_decoded_text(input, false))
            } else {
                Err(CodecError::ParseError)
            }
        }
    }
}

/// The display/parse adapter, decode side.  Binary mode takes the native
/// value only; text mode parses the string against the type's grammar and
/// fails with `ParseError` on anything else — a natively shaped input
/// included, for this strict adapter accepts only the string branch.
pub fn deserialize<T: Textual>(input: Emitted<T>, mode: Mode) -> (r: Result<T, CodecError>)
    ensures
        match decode_model(input, mode) {
            Ok(t) => r matches Ok(v) && v.text() == t,
            Err(e) => r == Err::<T, CodecError>(e),
        },
        mode is Binary ==> (input matches Emitted::Native(v) ==> r == Ok::<_, CodecError>(v)),
{
    match mode {
        Mode::Binary => match input {
            Emitted::Native(v) => Ok(v),
            Emitted::Text(_) => Err(CodecError::Malformed),
        },
        Mode::Text => match input {
            Emitted::Text(s) => T::from_text(s.as_str()),
            Emitted::Native(_) => Err(CodecError::ParseError),
        },
    }
}

} // verus!
