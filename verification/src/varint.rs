use vstd::prelude::*;

use crate::CodecError;

verus! {

/// Variable-length integer wire form: one byte for small values, otherwise a
/// marker byte followed by the little-endian bytes of the smallest unsigned
/// width that holds the value.  Decoding rejects any non-minimal form, so each
/// integer has exactly one accepted encoding.
pub open spec fn varint_bytes(n: u64) -> Seq<u8> {
    if n <= 250 {
        seq![n as u8]
    } else if n <= 0xFFFF {
        seq![251u8] + vstd::bytes::spec_u16_to_le_bytes(n as u16)
    } else if n <= 0xFFFF_FFFF {
        seq![252u8] + vstd::bytes::spec_u32_to_le_bytes(n as u32)
    } else {
        seq![253u8] + vstd::bytes::spec_u64_to_le_bytes(n)
    }
}

pub proof fn lemma_varint_len(n: u64)
    ensures
        1 <= varint_bytes(n).len() <= 9,
        n <= 250 ==> varint_bytes(n).len() == 1,
{
    vstd::bytes::lemma_auto_spec_u16_to_from_le_bytes();
    vstd::bytes::lemma_auto_spec_u32_to_from_le_bytes();
    vstd::bytes::lemma_auto_spec_u64_to_from_le_bytes();
}

/// What reading a varint at position `pos` of `inp` yields: the value and the
/// position just past it, or the error for a truncated or non-minimal form.
pub open spec fn varint_read(inp: Seq<u8>, pos: int) -> Result<(u64, int), CodecError> {
    if !(0 <= pos < inp.len()) {
        Err(CodecError::Malformed)
    } else {
        let tag = inp[pos];
        if tag <= 250 {
            Ok((tag as u64, pos + 1))
        } else if tag == 251 {
            if pos + 3 > inp.len() {
                Err(CodecError::Malformed)
            } else {
                let v = vstd::bytes::spec_u16_from_le_bytes(inp.subrange(pos + 1, pos + 3)) as u64;
                if v <= 250 {
                    Err(CodecError::Malformed)
                } else {
                    Ok((v, pos + 3))
                }
            }
        } else if tag == 252 {
            if pos + 5 > inp.len() {
                Err(CodecError::Malformed)
            } else {
                let v = vstd::bytes::spec_u32_from_le_bytes(inp.subrange(pos + 1, pos + 5)) as u64;
                if v <= 0xFFFF {
                    Err(CodecError::Malformed)
                } else {
                    Ok((v, pos + 5))
                }
            }
        } else if tag == 253 {
            if pos + 9 > inp.len() {
                Err(CodecError::Malformed)
            } else {
                let v = vstd::bytes::spec_u64_from_le_bytes(inp.subrange(pos + 1, pos + 9));
                if v <= 0xFFFF_FFFF {
                    Err(CodecError::Malformed)
                } else {
                    Ok((v, pos + 9))
                }
            }
        } else {
            Err(CodecError::Malformed)
        }
    }
}

/// Reading at the start of a value's varint form yields that value back and
/// stops exactly past it, whatever follows.
pub proof fn lemma_varint_read_of_bytes(n: u64, inp: Seq<u8>, pos: int)
    requires
        0 <= pos,
        pos + varint_bytes(n).len() <= inp.len(),
        inp.subrange(pos, pos + varint_bytes(n).len()) == varint_bytes(n),
    ensures
        varint_read(inp, pos) == Ok::<_, CodecError>((n, pos + varint_bytes(n).len())),
{
    vstd::bytes::lemma_auto_spec_u16_to_from_le_bytes();
    vstd::bytes::lemma_auto_spec_u32_to_from_le_bytes();
    vstd::bytes::lemma_auto_spec_u64_to_from_le_bytes();
    let w = varint_bytes(n);
    let sub = inp.subrange(pos, pos + w.len());
    assert(inp[pos] == sub[0]);
    if n <= 250 {
    } else if n <= 0xFFFF {
        assert(inp.subrange(pos + 1, pos + 3) =~= sub.subrange(1, 3));
        assert(sub.subrange(1, 3) =~= vstd::bytes::spec_u16_to_le_bytes(n as u16));
    } else if n <= 0xFFFF_FFFF {
        assert(inp.subrange(pos + 1, pos + 5) =~= sub.subrange(1, 5));
        assert(sub.subrange(1, 5) =~= vstd::bytes::spec_u32_to_le_bytes(n as u32));
    } else {
        assert(inp.subrange(pos + 1, pos + 9) =~= sub.subrange(1, 9));
        assert(sub.subrange(1, 9) =~= vstd::bytes::spec_u64_to_le_bytes(n));
    }
}

/// Whatever a successful read returns was stored in exactly the canonical
/// varint form: the bytes consumed are `varint_bytes` of the value read.
pub proof fn lemma_varint_read_sound(inp: Seq<u8>, pos: int)
    requires
        varint_read(inp, pos) is Ok,
    ensures
        ({
            let (n, end) = varint_read(inp, pos)->Ok_0;
            &&& 0 <= pos < end <= inp.len()
            &&& end == pos + varint_bytes(n).len()
            &&& inp.subrange(pos, end) == varint_bytes(n)
        }),
{
    vstd::bytes::lemma_auto_spec_u16_to_from_le_bytes();
    vstd::bytes::lemma_auto_spec_u32_to_from_le_bytes();
    vstd::bytes::lemma_auto_spec_u64_to_from_le_bytes();
    let (n, end) = varint_read(inp, pos)->Ok_0;
    let tag = inp[pos];
    if tag <= 250 {
        assert(inp.subrange(pos, end) =~= seq![n as u8]);
    } else if tag == 251 {
        let lo = inp.subrange(pos + 1, pos + 3);
        assert(vstd::bytes::spec_u16_to_le_bytes(vstd::bytes::spec_u16_from_le_bytes(lo)) == lo);
        assert(inp.subrange(pos, end) =~= seq![251u8] + lo);
    } else if tag == 252 {
        let lo = inp.subrange(pos + 1, pos + 5);
        assert(vstd::bytes::spec_u32_to_le_bytes(vstd::bytes::spec_u32_from_le_bytes(lo)) == lo);
        assert(inp.subrange(pos, end) =~= seq![252u8] + lo);
    } else {
        let lo = inp.subrange(pos + 1, pos + 9);
        assert(vstd::bytes::spec_u64_to_le_bytes(vstd::bytes::spec_u64_from_le_bytes(lo)) == lo);
        assert(inp.subrange(pos, end) =~= seq![253u8] + lo);
    }
}

/// Appends the canonical varint form of `n` to `out`.
pub fn write_varint(out: &mut Vec<u8>, n: u64)
    ensures
        final(out)@ == old(out)@ + varint_bytes(n),
{
    proof {
        vstd::bytes::lemma_auto_spec_u16_to_from_le_bytes();
        vstd::bytes::lemma_auto_spec_u32_to_from_le_bytes();
        vstd::bytes::lemma_auto_spec_u64_to_from_le_bytes();
    }
    if n <= 250 {
        out.push(n as u8);
        assert(out@ =~= old(out)@ + varint_bytes(n));
    } else if n <= 0xFFFF {
        out.push(251u8);
        let mut tail = vstd::bytes::u16_to_le_bytes(n as u16);
        out.append(&mut tail);
        assert(out@ =~= old(out)@ + varint_bytes(n));
    } else if n <= 0xFFFF_FFFF {
        out.push(252u8);
        let mut tail = vstd::bytes::u32_to_le_bytes(n as u32);
        out.append(&mut tail);
        assert(out@ =~= old(out)@ + varint_bytes(n));
    } else {
        out.push(253u8);
        let mut tail = vstd::bytes::u64_to_le_bytes(n);
        out.append(&mut tail);
        assert(out@ =~= old(out)@ + varint_bytes(n));
    }
}

/// Reads a varint at `pos`, enforcing the minimal (canonical) form.
pub fn read_varint(inp: &[u8], pos: usize) -> (r: Result<(u64, usize), CodecError>)
    requires
        pos <= inp@.len(),
    ensures
        match r {
            Ok((n, end)) => varint_read(inp@, pos as int) == Ok::<_, CodecError>((n, end as int)),
            Err(e) => varint_read(inp@, pos as int) == Err::<(u64, int), _>(e),
        },
{
    if pos >= inp.len() {
        return Err(CodecError::Malformed);
    }
    let tag = inp[pos];
    if tag <= 250 {
        Ok((tag as u64, pos + 1))
    } else if tag == 251 {
        if inp.len() - pos < 3 {
            return Err(CodecError::Malformed);
        }
        let lo = vstd::slice::slice_subrange(inp, pos + 1, pos + 3);
        let v = vstd::bytes::u16_from_le_bytes(lo) as u64;
        if v <= 250 {
            Err(CodecError::Malformed)
        } else {
            Ok((v, pos + 3))
        }
    } else if tag == 252 {
        if inp.len() - pos < 5 {
            return Err(CodecError::Malformed);
        }
        let lo = vstd::slice::slice_subrange(inp, pos + 1, pos + 5);
        let v = vstd::bytes::u32_from_le_bytes(lo) as u64;
        if v <= 0xFFFF {
            Err(CodecError::Malformed)
        } else {
            Ok((v, pos + 5))
        }
    } else if tag == 253 {
        if inp.len() - pos < 9 {
            return Err(CodecError::Malformed);
        }
        let lo = vstd::slice::slice_subrange(inp, pos + 1, pos + 9);
        let v = vstd::bytes::u64_from_le_bytes(lo);
        if v <= 0xFFFF_FFFF {
            Err(CodecError::Malformed)
        } else {
            Ok((v, pos + 9))
        }
    } else {
        Err(CodecError::Malformed)
    }
}

} // verus!
