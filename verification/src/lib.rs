use vstd::prelude::*;

pub mod asstr;
mod codec;
mod hashval;
mod hexcode;
pub mod hexvec;
mod keys;
pub mod try_asstr;
mod varint;

pub use codec::{
    conforms, deserialize, enc, encode_into, parse_value, serialize, SchModel, Schema, ValModel,
    Value,
};
pub use codec::{
    decode_spec, lemma_encode_deterministic, lemma_encode_injective, lemma_order_sensitive,
    lemma_decode_canonical, lemma_round_trip, lemma_size_limit, lemma_trailing_rejected,
    wf_schema,
};
pub use hexcode::{
    hex_bytes, hex_chars, hex_decode, hex_encode, is_hex_char, lemma_hex_roundtrip, valid_hex,
};
pub use hashval::{bitwise_majority, hash_keyed, hash_single, majority_beacon, majority_of, HashVal, Hashable};
pub use hashval::{addr_decoded, addr_key, blake3_keyed_of, blake3_of, crockford_decode_of, crockford_of, hash_column};
pub use keys::{ed25519_keygen, ed25519_pk_of, ed25519_sig_of, ed25519_verifies, sk_well_formed, Ed25519PK, Ed25519SK};
pub use varint::{read_varint, varint_bytes, varint_read, write_varint};

verus! {

/// The ways a decode can fail.  Encoding never fails: every well-formed value
/// has exactly one canonical byte string.
#[derive(Clone, Copy, Debug, PartialEq, Eq, Structural)]
pub enum CodecError {
    /// A structurally invalid byte sequence: truncated input, a non-minimal
    /// varint, or an out-of-range union discriminant.
    Malformed,
    /// Decoding finished but bytes remained unconsumed.
    TrailingData,
    /// A declared length would need more bytes than the input still holds.
    SizeLimitExceeded,
    /// A text-mode scalar did not match its textual grammar.
    ParseError,
    /// A text-mode byte string was not valid even-length hexadecimal.
    InvalidHex,
}

/// The representation mode of one whole encode or decode call: binary
/// (canonical) or text (human readable).  It is chosen once by the caller and
/// governs every wrapped field uniformly; it is never stored in the data.
#[derive(Clone, Copy, Debug, PartialEq, Eq, Structural)]
pub enum Mode {
    Binary,
    Text,
}

/// What an adapter hands to (or receives from) the surrounding format: the
/// value itself, to be encoded in its native form, or a rendered text.
#[derive(Debug, PartialEq, Eq)]
pub enum Emitted<T> {
    Native(T),
    Text(String),
}

/// A type with a canonical text form and a textual grammar, usable with the
/// display/parse and lenient adapters.  Dispatch is by trait impl, chosen
/// where the field is declared; no runtime negotiation.
pub trait Textual: Sized {
    /// Whether `s` belongs to this type's textual grammar.
    spec fn grammar(s: Seq<char>) -> bool;

    /// The canonical text of a value.
    spec fn text(&self) -> Seq<char>;

    /// The canonical text of the value a grammatical input denotes.
    spec fn parsed_text(s: Seq<char>) -> Seq<char>;

    /// A value's own text is grammatical and already canonical.
    proof fn lemma_text_canonical(&self)
        ensures
            Self::grammar(self.text()),
            Self::parsed_text(self.text()) == self.text(),
    ;

    fn to_text(&self) -> (r: String)
        ensures
            r@ == self.text(),
    ;

    fn from_text(s: &str) -> (r: Result<Self, CodecError>)
        ensures
            Self::grammar(s@) ==> (r matches Ok(v) && v.text() == Self::parsed_text(s@)),
            !Self::grammar(s@) ==> r == Err::<Self, CodecError>(CodecError::ParseError),
    ;
}

/// Whether a text-mode decode of `input` succeeds; `lenient` is whether the
/// native branch is accepted as well as the string branch.
pub open spec fn text_decode_ok<T: Textual>(input: Emitted<T>, lenient: bool) -> bool {
    match input {
        Emitted::Text(s) => T::grammar(s@),
        Emitted::Native(_) => lenient,
    }
}

/// The canonical text of the value a successful text-mode decode yields.
pub open spec fn text_decoded_text<T: Textual>(input: Emitted<T>, lenient: bool) -> Seq<char> {
    match input {
        Emitted::Text(s) => T::parsed_text(s@),
        Emitted::Native(v) => v.text(),
    }
}

/// A byte buffer that renders as raw bytes in binary mode and as lowercase
/// hex text in text mode.  It exists to attach the hex rendering to an
/// otherwise plain buffer; it converts losslessly to and from `Vec<u8>`.
#[derive(Clone, Debug, PartialEq, Eq)]
pub struct HexBytesInner(Vec<u8>);

impl View for HexBytesInner {
    type V = Seq<u8>;

    closed spec fn view(&self) -> Seq<u8> {
        self.0@
    }
}

impl HexBytesInner {
    /// Wraps an owned buffer; no bytes change.
    pub fn from_vec(v: Vec<u8>) -> (r: Self)
        ensures
            r@ == v@,
    {
        HexBytesInner(v)
    }

    /// Copies a borrowed byte string into a wrapped buffer.
    pub fn from_slice(b: &[u8]) -> (r: Self)
        ensures
            r@ == b@,
    {
        HexBytesInner(vstd::slice::slice_to_vec(b))
    }

    /// Copies the buffer out; no bytes change.
    pub fn to_vec(&self) -> (r: Vec<u8>)
        ensures
            r@ == self@,
    {
        vstd::slice::slice_to_vec(self.0.as_slice())
    }

    /// Unwraps back to the owned buffer; no bytes change.
    pub fn into_vec(self) -> (r: Vec<u8>)
        ensures
            r@ == self@,
    {
        self.0
    }

    /// Hands the buffer over as a shared `bytes::Bytes` value.
    pub fn into_bytes(self) -> (r: bytes::Bytes)
        ensures
            bytes_content(r) == self@,
    {
        vec_to_bytes(self.0)
    }

    /// The buffer's text form: lowercase hex, two digits per byte.
    pub fn to_hex(&self) -> (r: String)
        ensures
            r@ == hex_chars(self@),
    {
        hex_encode(self.0.as_slice())
    }

    /// Reads the text form back.  Succeeds exactly on even-length hex text
    /// (either case); anything else is `InvalidHex`.
    pub fn from_hex(s: &str) -> (r: Result<Self, CodecError>)
        ensures
            valid_hex(s@) ==> (r matches Ok(v) && v@ == hex_bytes(s@)),
            !valid_hex(s@) ==> r == Err::<Self, CodecError>(CodecError::InvalidHex),
    {
        match hex_decode(s) {
            Ok(v) => Ok(HexBytesInner(v)),
            Err(e) => Err(e),
        }
    }
}

#[verifier::external_type_specification]
#[verifier::external_body]
pub struct ExBytes(bytes::Bytes);

/// The bytes a `bytes::Bytes` buffer holds.
pub uninterp spec fn bytes_content(b: bytes::Bytes) -> Seq<u8>;

/// Relies on `bytes::Bytes::from`, which wraps the vector's bytes unchanged.
#[verifier::external_body]
fn vec_to_bytes(v: Vec<u8>) -> (r: bytes::Bytes)
    ensures
        bytes_content(r) == v@,
{
    bytes::Bytes::from(v)
}

/// A wrapper that makes its content use the display/parse adapter: native
/// binary form in binary mode, canonical string form in text mode.
#[derive(Debug, PartialEq, Eq)]
pub struct SerializeAsString<T: Textual>(pub T);

impl<T: Textual> SerializeAsString<T> {
    pub fn serialize(self, mode: Mode) -> (r: Emitted<T>)
        ensures
            mode is Binary ==> r == Emitted::Native(self.0),
            mode is Text ==> (r matches Emitted::Text(s) && s@ == self.0.text()),
    {
        crate::asstr::serialize(self.0, mode)
    }

    pub fn deserialize(input: Emitted<T>, mode: Mode) -> (r: Result<Self, CodecError>)
        ensures
            mode is Binary ==> (match input {
                Emitted::Native(v) => r matches Ok(w) && w.0 == v,
                Emitted::Text(_) => r == Err::<Self, CodecError>(CodecError::Malformed),
            }),
            mode is Text ==> {
                if text_decode_ok(input, false) {
                    r matches Ok(w) && w.0.text() == text_decoded_text(input, false)
                } else {
                    r == Err::<Self, CodecError>(CodecError::ParseError)
                }
            },
    {
        match crate::asstr::deserialize(input, mode) {
            Ok(v) => Ok(SerializeAsString(v)),
            Err(e) => Err(e),
        }
    }
}

/// Everything with a canonical encoding can hand its byte string out.
pub trait StdcodeSerializeExt {
    /// The canonical byte string this value encodes to.
    spec fn enc_model(&self) -> Seq<u8>;

    fn stdcode(&self) -> (r: Vec<u8>)
        ensures
            r@ == self.enc_model(),
    ;
}

impl StdcodeSerializeExt for Value {
    open spec fn enc_model(&self) -> Seq<u8> {
        enc(self@)
    }

    fn stdcode(&self) -> (r: Vec<u8>) {
        serialize(self)
    }
}

} // verus!
