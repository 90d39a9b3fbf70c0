use vstd::prelude::*;
use vstd::string::{StrSliceExecFns, StringExecFns};

use crate::hexcode::{digit_str, hex_bytes, hex_chars, hex_digit, valid_hex};
use crate::CodecError;

verus! {

/// What `blake3::hash` returns for an input: a function of the bytes alone.
pub uninterp spec fn blake3_of(v: Seq<u8>) -> Seq<u8>;

/// What `blake3::keyed_hash` returns for a 32-byte key and an input.
pub uninterp spec fn blake3_keyed_of(key: Seq<u8>, v: Seq<u8>) -> Seq<u8>;

/// What `base32::encode` with the Crockford alphabet returns for some bytes.
pub uninterp spec fn crockford_of(b: Seq<u8>) -> Seq<char>;

/// What `base32::decode` with the Crockford alphabet returns for a text.
pub uninterp spec fn crockford_decode_of(s: Seq<char>) -> Option<Seq<u8>>;

/// Relies on `blake3::hash`: a 32-byte digest of the input alone.
#[verifier::external_body]
fn blake3_hash_raw(v: &[u8]) -> (r: [u8; 32])
    ensures
        r@ == blake3_of(v@),
{
    *blake3::hash(v).as_bytes()
}

/// Relies on `blake3::keyed_hash`: a 32-byte digest of key and input alone.
#[verifier::external_body]
fn blake3_keyed_raw(key: &[u8; 32], v: &[u8]) -> (r: [u8; 32])
    ensures
        r@ == blake3_keyed_of(key@, v@),
{
    *blake3::keyed_hash(key, v).as_bytes()
}

/// Relies on `base32::encode` with the Crockford alphabet: the result is a
/// function of the bytes alone.
#[verifier::external_body]
fn crockford_encode(b: &[u8]) -> (r: String)
    ensures
        r@ == crockford_of(b@),
{
    base32::encode(base32::Alphabet::Crockford, b)
}

/// Relies on `base32::decode` with the Crockford alphabet: the result is a
/// function of the text alone.
#[verifier::external_body]
fn crockford_decode(s: &str) -> (r: Option<Vec<u8>>)
    ensures
        match r {
            Some(v) => crockford_decode_of(s@) == Some(v@),
            None => crockford_decode_of(s@) is None,
        },
{
    base32::decode(base32::Alphabet::Crockford, s)
}

/// Relies on `rand::thread_rng`: 32 bytes from the thread-local generator.
/// Nothing is promised of them.
#[verifier::external_body]
fn random_bytes32() -> [u8; 32] {
    rand::Rng::gen(&mut rand::thread_rng())
}

/// An ASCII capital lowered; every other character kept.
pub open spec fn ascii_lower_char(c: char) -> char {
    if 'A' <= c && c <= 'Z' {
        (((c as u8) + 32) as char)
    } else {
        c
    }
}

pub open spec fn ascii_lower(s: Seq<char>) -> Seq<char> {
    s.map_values(|c: char| ascii_lower_char(c))
}

/// Relies on `str::to_ascii_lowercase`: ASCII capitals are lowered, all else
/// is kept in place.
#[verifier::external_body]
fn ascii_lowercase(s: &str) -> (r: String)
    ensures
        r@ == ascii_lower(s@),
{
    s.to_ascii_lowercase()
}

/// Relies on `str::replace` with a one-character pattern: every dash is
/// removed and everything else kept in order.
#[verifier::external_body]
fn strip_dashes(s: &str) -> (r: String)
    ensures
        r@ == s@.filter(|c: char| c != '-'),
{
    s.replace("-", "")
}

/// A 32-byte hash value.
#[derive(Clone, Copy, Debug, Default, PartialEq, Eq, Hash)]
pub struct HashVal(pub [u8; 32]);

/// The fixed key that the address checksum is derived with.
pub open spec fn addr_key() -> Seq<u8> {
    seq![97u8, 100u8, 100u8, 114u8, 101u8, 115u8, 115u8, 45u8, 99u8, 104u8, 101u8, 99u8, 107u8,
        115u8, 117u8, 109u8]
}

/// The dash-stripped text of an address.
pub open spec fn addr_body(a: Seq<char>) -> Seq<char> {
    a.filter(|c: char| c != '-')
}

/// The 32 bytes an address text denotes, if it denotes any: the text must be
/// long enough, and everything after its two-character prefix must decode as
/// Crockford base32 to exactly 32 bytes.
pub open spec fn addr_decoded(a: Seq<char>) -> Option<Seq<u8>> {
    if a.len() < 10 || addr_body(a).len() < 2 {
        None
    } else {
        match crockford_decode_of(addr_body(a).subrange(2, addr_body(a).len() as int)) {
            Some(b) => if b.len() == 32 {
                Some(b)
            } else {
                None
            },
            None => None,
        }
    }
}

impl HashVal {
    /// A uniformly random hash value; it will almost certainly not collide
    /// with the hash of anything.
    pub fn random() -> Self {
        HashVal(random_bytes32())
    }

    /// The address text of this hash: a `t`, a checksum digit derived from a
    /// keyed hash of the bytes, then the lowercased Crockford base32 of the
    /// bytes.
    pub fn to_addr(&self) -> (r: String)
        ensures
            r@ == seq!['t'] + seq![
                hex_digit((blake3_keyed_of(blake3_of(addr_key()), self.0@)[0] % 10) as nat),
            ] + ascii_lower(crockford_of(self.0@)),
    {
        let mut key: Vec<u8> = Vec::new();
        key.push(97u8);
        key.push(100u8);
        key.push(100u8);
        key.push(114u8);
        key.push(101u8);
        key.push(115u8);
        key.push(115u8);
        key.push(45u8);
        key.push(99u8);
        key.push(104u8);
        key.push(101u8);
        key.push(99u8);
        key.push(107u8);
        key.push(115u8);
        key.push(117u8);
        key.push(109u8);
        proof {
            assert(key@ =~= addr_key());
        }
        let ck = hash_keyed(key.as_slice(), self.0.as_slice());
        let csum: u8 = ck.0[0] % 10;
        let raw = crockford_encode(self.0.as_slice());
        let low = ascii_lowercase(raw.as_str());
        proof {
            reveal_strlit("t");
        }
        let mut out = String::from_str("t");
        proof {
            assert(out@ =~= seq!['t']);
        }
        out.append(digit_str(csum));
        out.append(low.as_str());
        proof {
            assert(out@ =~= seq!['t'] + seq![
                hex_digit((blake3_keyed_of(blake3_of(addr_key()), self.0@)[0] % 10) as nat),
            ] + ascii_lower(crockford_of(self.0@)));
        }
        out
    }

    /// Reads an address text back to its 32 bytes; `None` for any text that
    /// does not denote exactly 32 bytes.
    pub fn from_addr(addr: &str) -> (r: Option<Self>)
        ensures
            match addr_decoded(addr@) {
                Some(b) => r matches Some(h) && h.0@ == b,
                None => r is None,
            },
    {
        let n = addr.unicode_len();
        if n < 10 {
            return None;
        }
        let body = strip_dashes(addr);
        let m = body.as_str().unicode_len();
        if m < 2 {
            return None;
        }
        let tail = body.as_str().substring_char(2, m);
        match crockford_decode(tail) {
            Some(v) => {
                if v.len() == 32 {
                    Some(HashVal(vec_to_arr32(&v)))
                } else {
                    None
                }
            }
            None => None,
        }
    }
}

/// Copies a 32-byte vector into an array.
pub(crate) fn vec_to_arr32(v: &Vec<u8>) -> (r: [u8; 32])
    requires
        v@.len() == 32,
    ensures
        r@ == v@,
{
    let mut a = [0u8; 32];
    let mut i: usize = 0;
    while i < 32
        invariant
            i <= 32,
            v@.len() == 32,
            forall|j: int| 0 <= j < i ==> a@[j] == v@[j],
        decreases 32 - i,
    {
        a[i] = v[i];
        i = i + 1;
    }
    assert(a@ =~= v@);
    a
}

/// Hashes one byte string.
pub fn hash_single(val: &[u8]) -> (r: HashVal)
    ensures
        r.0@ == blake3_of(val@),
{
    HashVal(blake3_hash_raw(val))
}

/// Hashes a byte string under a key: the key is first hashed down to the
/// fixed key size, then used for the keyed digest.
pub fn hash_keyed(key: &[u8], val: &[u8]) -> (r: HashVal)
    ensures
        r.0@ == blake3_keyed_of(blake3_of(key@), val@),
{
    let kh = hash_single(key);
    HashVal(blake3_keyed_raw(&kh.0, val))
}

/// Everything made of bytes can be hashed, plainly or under a key.
pub trait Hashable {
    spec fn bytes_model(&self) -> Seq<u8>;

    fn byte_slice(&self) -> (r: &[u8])
        ensures
            r@ == self.bytes_model(),
    ;

    fn hash(&self) -> (r: HashVal)
        ensures
            r.0@ == blake3_of(self.bytes_model()),
    {
        hash_single(self.byte_slice())
    }

    fn hash_keyed(&self, key: &[u8]) -> (r: HashVal)
        ensures
            r.0@ == blake3_keyed_of(blake3_of(key@), self.bytes_model()),
    {
        crate::hashval::hash_keyed(key, self.byte_slice())
    }
}

impl Hashable for Vec<u8> {
    open spec fn bytes_model(&self) -> Seq<u8> {
        self@
    }

    fn byte_slice(&self) -> (r: &[u8]) {
        self.as_slice()
    }
}

impl Hashable for HashVal {
    open spec fn bytes_model(&self) -> Seq<u8> {
        self.0@
    }

    fn byte_slice(&self) -> (r: &[u8]) {
        self.0.as_slice()
    }
}

/// Whether strictly more members have bit `b` set than clear.
pub open spec fn maj_bit(s: Seq<u8>, b: nat) -> bool {
    2 * count_hits(s, b) > s.len()
}

/// How many members of `s` have bit `b` set.
pub open spec fn count_hits(s: Seq<u8>, b: nat) -> nat
    decreases s,
{
    if s.len() == 0 {
        0
    } else {
        (if s[0] & (1u8 << b) != 0 {
            1nat
        } else {
            0nat
        }) + count_hits(s.subrange(1, s.len() as int), b)
    }
}

/// The majority byte over bits `0` to `b - 1`.
pub open spec fn maj_accum(s: Seq<u8>, b: nat) -> u8
    decreases b,
{
    if b == 0 {
        0u8
    } else if maj_bit(s, (b - 1) as nat) {
        maj_accum(s, (b - 1) as nat) | (1u8 << ((b - 1) as u8))
    } else {
        maj_accum(s, (b - 1) as nat)
    }
}

/// The bitwise majority of a set of bytes, bit by bit.
pub open spec fn majority_of(s: Seq<u8>) -> u8 {
    maj_accum(s, 8)
}

/// One more member extends the hit count by its own test.
pub proof fn lemma_count_hits_push(s: Seq<u8>, x: u8, b: nat)
    ensures
        count_hits(s.push(x), b) == count_hits(s, b) + (if x & (1u8 << b) != 0 {
            1nat
        } else {
            0nat
        }),
    decreases s,
{
    let w = s.push(x);
    if s.len() == 0 {
        assert(w.len() == 1);
        assert(w[0] == x);
        let t = w.subrange(1, w.len() as int);
        assert(t =~= Seq::<u8>::empty());
        assert(count_hits(t, b) == 0);
    } else {
        assert(w.subrange(1, w.len() as int) =~= s.subrange(1, s.len() as int).push(x));
        lemma_count_hits_push(s.subrange(1, s.len() as int), x, b);
        assert(w[0] == s[0]);
    }
}

/// Takes the bitwise majority of the bytes: bit `b` of the result is set
/// exactly when strictly more members have bit `b` set than clear.
pub fn bitwise_majority(bytes: &[u8]) -> (r: u8)
    ensures
        r == majority_of(bytes@),
{
    let mut toret: u8 = 0;
    let mut bit: u8 = 0;
    while bit < 8
        invariant
            bit <= 8,
            toret == maj_accum(bytes@, bit as nat),
        decreases 8 - bit,
    {
        let mut ones: usize = 0;
        let mut j: usize = 0;
        while j < bytes.len()
            invariant
                j <= bytes@.len(),
                bit < 8,
                ones == count_hits(bytes@.subrange(0, j as int), bit as nat),
                ones <= j,
            decreases bytes@.len() - j,
        {
            proof {
                lemma_count_hits_push(bytes@.subrange(0, j as int), bytes@[j as int], bit as nat);
                assert(bytes@.subrange(0, j + 1int) =~= bytes@.subrange(0, j as int).push(
                    bytes@[j as int],
                ));
            }
            if bytes[j] & (1u8 << bit) != 0 {
                ones = ones + 1;
            }
            j = j + 1;
        }
        proof {
            assert(bytes@.subrange(0, bytes@.len() as int) =~= bytes@);
        }
        if ones > bytes.len() - ones {
            toret = toret | (1u8 << bit);
        }
        bit = bit + 1;
    }
    toret
}

/// The column of byte `i` of each hash.
pub open spec fn hash_column(elems: Seq<HashVal>, i: int) -> Seq<u8> {
    elems.map_values(|h: HashVal| h.0@[i])
}

/// Derives an entropy seed from many hashes: byte by byte, the bitwise
/// majority of that byte across all inputs.
pub fn majority_beacon(elems: &Vec<HashVal>) -> (r: HashVal)
    ensures
        forall|i: int| 0 <= i < 32 ==> r.0@[i] == majority_of(#[trigger] hash_column(elems@, i)),
{
    let mut out = [0u8; 32];
    let mut i: usize = 0;
    while i < 32
        invariant
            i <= 32,
            forall|k: int| 0 <= k < i ==> out@[k] == majority_of(#[trigger] hash_column(elems@, k)),
        decreases 32 - i,
    {
        let mut column: Vec<u8> = Vec::new();
        let mut j: usize = 0;
        while j < elems.len()
            invariant
                j <= elems@.len(),
                i < 32,
                column@.len() == j,
                forall|k: int| 0 <= k < j ==> column@[k] == elems@[k].0@[i as int],
            decreases elems@.len() - j,
        {
            column.push(elems[j].0[i]);
            j = j + 1;
        }
        proof {
            assert(column@ =~= hash_column(elems@, i as int));
        }
        out[i] = bitwise_majority(column.as_slice());
        i = i + 1;
    }
    HashVal(out)
}

impl crate::Textual for HashVal {
    /// Exactly 64 hex digits, either case.
    open spec fn grammar(s: Seq<char>) -> bool {
        s.len() == 64 && valid_hex(s)
    }

    open spec fn text(&self) -> Seq<char> {
        hex_chars(self.0@)
    }

    open spec fn parsed_text(s: Seq<char>) -> Seq<char> {
        hex_chars(hex_bytes(s))
    }

    proof fn lemma_text_canonical(&self) {
        crate::hexcode::lemma_hex_roundtrip(self.0@);
    }

    fn to_text(&self) -> (r: String) {
        crate::hexcode::hex_encode(self.0.as_slice())
    }

    fn from_text(s: &str) -> (r: Result<Self, CodecError>) {
        let n = s.unicode_len();
        if n != 64 {
            return Err(CodecError::ParseError);
        }
        match crate::hexcode::hex_decode(s) {
            Ok(v) => {
                proof {
                    crate::hexcode::lemma_hex_bytes_len(s@);
                }
                Ok(HashVal(vec_to_arr32(&v)))
            }
            Err(_) => Err(CodecError::ParseError),
        }
    }
}

} // verus!
