use vstd::prelude::*;

use crate::varint::{read_varint, varint_bytes, varint_read, write_varint};
use crate::CodecError;

verus! {

broadcast use {vstd::std_specs::vec::group_vec_axioms, vstd::seq::axiom_seq_index_decreases,
    vstd::seq::axiom_seq_subrange_decreases};

/// A structured value: the canonical codec encodes exactly these shapes.
/// Composite values keep their parts in a fixed, declared order; that order is
/// part of the value's identity.
#[derive(Debug, PartialEq, Eq)]
pub enum Value {
    /// An unsigned integer, wire form: varint.
    Int(u64),
    /// A variable-length byte string, wire form: varint length then the bytes.
    Bytes(Vec<u8>),
    /// A fixed-length byte string, wire form: the raw bytes with no prefix
    /// (the length is fixed by the schema and known to both sides).
    Fixed(Vec<u8>),
    /// A sequence of same-typed elements, wire form: varint count then the
    /// concatenated element encodings.
    List(Vec<Value>),
    /// A composite with fields in declared order, wire form: the concatenated
    /// field encodings with no count.
    Record(Vec<Value>),
    /// A tagged union, wire form: varint discriminant then the payload.
    Tagged(u64, Box<Value>),
}

/// The shape a decoder expects; it directs schema-driven decoding.
#[derive(Debug, PartialEq, Eq)]
pub enum Schema {
    Int,
    Bytes,
    Fixed(usize),
    List(Box<Schema>),
    Record(Vec<Schema>),
    Tagged(Vec<Schema>),
}

/// Ghost mirror of `Value`, the type the specifications speak of.
pub enum ValModel {
    Int(u64),
    Bytes(Seq<u8>),
    Fixed(Seq<u8>),
    List(Seq<ValModel>),
    Record(Seq<ValModel>),
    Tagged(u64, Box<ValModel>),
}

/// Ghost mirror of `Schema`.
pub enum SchModel {
    Int,
    Bytes,
    Fixed(nat),
    List(Box<SchModel>),
    Record(Seq<SchModel>),
    Tagged(Seq<SchModel>),
}

pub open spec fn value_model(v: Value) -> ValModel
    decreases v,
{
    match v {
        Value::Int(n) => ValModel::Int(n),
        Value::Bytes(b) => ValModel::Bytes(b@),
        Value::Fixed(b) => ValModel::Fixed(b@),
        Value::List(vs) => ValModel::List(vals_model(vs@)),
        Value::Record(vs) => ValModel::Record(vals_model(vs@)),
        Value::Tagged(d, p) => ValModel::Tagged(d, Box::new(value_model(*p))),
    }
}

pub open spec fn vals_model(vs: Seq<Value>) -> Seq<ValModel>
    decreases vs,
{
    if vs.len() == 0 {
        Seq::empty()
    } else {
        seq![value_model(vs[0])] + vals_model(vs.subrange(1, vs.len() as int))
    }
}

pub open spec fn schema_model(s: Schema) -> SchModel
    decreases s,
{
    match s {
        Schema::Int => SchModel::Int,
        Schema::Bytes => SchModel::Bytes,
        Schema::Fixed(k) => SchModel::Fixed(k as nat),
        Schema::List(e) => SchModel::List(Box::new(schema_model(*e))),
        Schema::Record(fs) => SchModel::Record(schemas_model(fs@)),
        Schema::Tagged(fs) => SchModel::Tagged(schemas_model(fs@)),
    }
}

pub open spec fn schemas_model(ss: Seq<Schema>) -> Seq<SchModel>
    decreases ss,
{
    if ss.len() == 0 {
        Seq::empty()
    } else {
        seq![schema_model(ss[0])] + schemas_model(ss.subrange(1, ss.len() as int))
    }
}

impl View for Value {
    type V = ValModel;

    open spec fn view(&self) -> ValModel {
        value_model(*self)
    }
}

impl View for Schema {
    type V = SchModel;

    open spec fn view(&self) -> SchModel {
        schema_model(*self)
    }
}

/// Whether a value has the shape the schema declares (and lengths small
/// enough that their varint prefixes exist).
pub open spec fn conforms(v: ValModel, s: SchModel) -> bool
    decreases v,
{
    match v {
        ValModel::Int(_) => s is Int,
        ValModel::Bytes(b) => s is Bytes && b.len() <= u64::MAX,
        ValModel::Fixed(b) => s matches SchModel::Fixed(k) && b.len() == k,
        ValModel::List(vs) => s matches SchModel::List(e) && vs.len() <= u64::MAX
            && conforms_all(vs, *e),
        ValModel::Record(vs) => s matches SchModel::Record(fs) && conforms_each(vs, fs),
        ValModel::Tagged(d, p) => s matches SchModel::Tagged(vars) && (d as int) < vars.len()
            && conforms(*p, vars[d as int]),
    }
}

pub open spec fn conforms_all(vs: Seq<ValModel>, e: SchModel) -> bool
    decreases vs,
{
    if vs.len() == 0 {
        true
    } else {
        conforms(vs[0], e) && conforms_all(vs.subrange(1, vs.len() as int), e)
    }
}

pub open spec fn conforms_each(vs: Seq<ValModel>, fs: Seq<SchModel>) -> bool
    decreases vs,
{
    if vs.len() != fs.len() {
        false
    } else if vs.len() == 0 {
        true
    } else {
        conforms(vs[0], fs[0]) && conforms_each(
            vs.subrange(1, vs.len() as int),
            fs.subrange(1, fs.len() as int),
        )
    }
}

/// The canonical encoding: a total, deterministic function of the value's
/// logical content alone.  No padding, no encoder choice, no reordering.
pub open spec fn enc(v: ValModel) -> Seq<u8>
    decreases v,
{
    match v {
        ValModel::Int(n) => varint_bytes(n),
        ValModel::Bytes(b) => varint_bytes(b.len() as u64) + b,
        ValModel::Fixed(b) => b,
        ValModel::List(vs) => varint_bytes(vs.len() as u64) + enc_list(vs),
        ValModel::Record(vs) => enc_list(vs),
        ValModel::Tagged(d, p) => varint_bytes(d) + enc(*p),
    }
}

pub open spec fn enc_list(vs: Seq<ValModel>) -> Seq<u8>
    decreases vs,
{
    if vs.len() == 0 {
        Seq::empty()
    } else {
        enc(vs[0]) + enc_list(vs.subrange(1, vs.len() as int))
    }
}

/// Appends the canonical encoding of `v` to `out`.
pub fn encode_into(out: &mut Vec<u8>, v: &Value)
    ensures
        final(out)@ == old(out)@ + enc(v@),
    decreases *v,
{
    match v {
        Value::Int(n) => {
            write_varint(out, *n);
        }
        Value::Bytes(b) => {
            write_varint(out, b.len() as u64);
            let mut tail = b.clone();
            out.append(&mut tail);
            assert(out@ =~= old(out)@ + enc(v@));
        }
        Value::Fixed(b) => {
            let mut tail = b.clone();
            out.append(&mut tail);
            assert(out@ =~= old(out)@ + enc(v@));
        }
        Value::List(vs) => {
            write_varint(out, vs.len() as u64);
            let ghost mid = out@;
            let mut i: usize = 0;
            while i < vs.len()
                invariant
                    i <= vs.len(),
                    *v == Value::List(*vs),
                    out@ == mid + enc_list(vals_model(vs@.subrange(0, i as int))),
                decreases vs.len() - i,
            {
                proof {
                    assert(decreases_to!(*v => (*v)->List_0));
                    assert((*v)->List_0 == *vs);
                    assert(decreases_to!(*vs => vs@));
                    assert(decreases_to!(vs@ => vs@[i as int]));
                }
                let ghost pre = vs@.subrange(0, i as int);
                encode_into(out, &vs[i]);
                proof {
                    let post = vs@.subrange(0, i + 1int);
                    lemma_vals_model_push(pre, vs@[i as int]);
                    assert(post =~= pre.push(vs@[i as int]));
                    lemma_enc_list_push(vals_model(pre), value_model(vs@[i as int]));
                    assert(out@ =~= mid + enc_list(vals_model(post)));
                }
                i = i + 1;
            }
            proof {
                assert(vs@.subrange(0, vs@.len() as int) =~= vs@);
                lemma_vals_model_len(vs@);
                assert(out@ =~= old(out)@ + enc(v@));
            }
        }
        Value::Record(vs) => {
            let ghost mid = out@;
            let mut i: usize = 0;
            while i < vs.len()
                invariant
                    i <= vs.len(),
                    *v == Value::Record(*vs),
                    out@ == mid + enc_list(vals_model(vs@.subrange(0, i as int))),
                decreases vs.len() - i,
            {
                proof {
                    assert(decreases_to!(*v => (*v)->Record_0));
                    assert((*v)->Record_0 == *vs);
                    assert(decreases_to!(*vs => vs@));
                    assert(decreases_to!(vs@ => vs@[i as int]));
                }
                let ghost pre = vs@.subrange(0, i as int);
                encode_into(out, &vs[i]);
                proof {
                    let post = vs@.subrange(0, i + 1int);
                    lemma_vals_model_push(pre, vs@[i as int]);
                    assert(post =~= pre.push(vs@[i as int]));
                    lemma_enc_list_push(vals_model(pre), value_model(vs@[i as int]));
                    assert(out@ =~= mid + enc_list(vals_model(post)));
                }
                i = i + 1;
            }
            proof {
                assert(vs@.subrange(0, vs@.len() as int) =~= vs@);
                assert(out@ =~= old(out)@ + enc(v@));
            }
        }
        Value::Tagged(d, p) => {
            write_varint(out, *d);
            encode_into(out, p);
            assert(out@ =~= old(out)@ + enc(v@));
        }
    }
}

/// A model list grown by one value at the end.
pub proof fn lemma_vals_model_push(vs: Seq<Value>, x: Value)
    ensures
        vals_model(vs.push(x)) == vals_model(vs).push(value_model(x)),
    decreases vs,
{
    let w = vs.push(x);
    if vs.len() == 0 {
        assert(w.len() == 1);
        assert(vals_model(w.subrange(1, 1)) == Seq::<ValModel>::empty());
        assert(vals_model(w) =~= vals_model(vs).push(value_model(x)));
    } else {
        assert(w.subrange(1, w.len() as int) =~= vs.subrange(1, vs.len() as int).push(x));
        lemma_vals_model_push(vs.subrange(1, vs.len() as int), x);
        assert(vals_model(w) =~= vals_model(vs).push(value_model(x)));
    }
}

/// Encoding a list grown by one value appends that value's encoding.
pub proof fn lemma_enc_list_push(vs: Seq<ValModel>, x: ValModel)
    ensures
        enc_list(vs.push(x)) == enc_list(vs) + enc(x),
    decreases vs,
{
    let w = vs.push(x);
    if vs.len() == 0 {
        assert(w.len() == 1);
        assert(w[0] == x);
        let t = w.subrange(1, w.len() as int);
        assert(t =~= Seq::<ValModel>::empty());
        assert(enc_list(t) == Seq::<u8>::empty());
        assert(enc_list(w) == enc(w[0]) + enc_list(t));
        assert(enc_list(vs) == Seq::<u8>::empty());
        assert(enc_list(w) =~= enc_list(vs) + enc(x));
    } else {
        assert(w.subrange(1, w.len() as int) =~= vs.subrange(1, vs.len() as int).push(x));
        lemma_enc_list_push(vs.subrange(1, vs.len() as int), x);
        assert(w[0] == vs[0]);
        assert(enc_list(w) == enc(w[0]) + enc_list(w.subrange(1, w.len() as int)));
        assert(enc_list(vs) == enc(vs[0]) + enc_list(vs.subrange(1, vs.len() as int)));
        assert(enc_list(w.subrange(1, w.len() as int)) == enc_list(
            vs.subrange(1, vs.len() as int),
        ) + enc(x));
        assert(enc_list(w) =~= enc_list(vs) + enc(x));
    }
}

/// The ghost mirror of a value list keeps its length.
pub proof fn lemma_vals_model_len(vs: Seq<Value>)
    ensures
        vals_model(vs).len() == vs.len(),
    decreases vs,
{
    if vs.len() != 0 {
        lemma_vals_model_len(vs.subrange(1, vs.len() as int));
    }
}

/// Encodes a value to its canonical byte string.  Total and deterministic:
/// the result is a function of the value's logical content alone.
pub fn serialize(v: &Value) -> (r: Vec<u8>)
    ensures
        r@ == enc(v@),
{
    let mut out: Vec<u8> = Vec::new();
    encode_into(&mut out, v);
    out
}

/// Schema-directed parse of one value at `pos`: the value and the position
/// just past it, or the first error met.  A declared length is checked
/// against the bytes that remain before anything is taken.
pub open spec fn parse_val(s: SchModel, inp: Seq<u8>, pos: int) -> Result<
    (ValModel, int),
    CodecError,
>
    decreases s, 0int,
{
    match s {
        SchModel::Int => match varint_read(inp, pos) {
            Ok((n, end)) => Ok((ValModel::Int(n), end)),
            Err(e) => Err(e),
        },
        SchModel::Bytes => match varint_read(inp, pos) {
            Ok((n, p2)) => if n > inp.len() - p2 {
                Err(CodecError::SizeLimitExceeded)
            } else {
                Ok((ValModel::Bytes(inp.subrange(p2, p2 + n)), p2 + n))
            },
            Err(e) => Err(e),
        },
        SchModel::Fixed(k) => if pos + k > inp.len() {
            Err(CodecError::Malformed)
        } else {
            Ok((ValModel::Fixed(inp.subrange(pos, pos + k)), pos + k))
        },
        SchModel::List(e) => match varint_read(inp, pos) {
            Ok((n, p2)) => if n > inp.len() - p2 {
                Err(CodecError::SizeLimitExceeded)
            } else {
                match parse_elems(*e, n as int, inp, p2) {
                    Ok((vs, end)) => Ok((ValModel::List(vs), end)),
                    Err(e2) => Err(e2),
                }
            },
            Err(e2) => Err(e2),
        },
        SchModel::Record(fs) => match parse_fields(fs, inp, pos) {
            Ok((vs, end)) => Ok((ValModel::Record(vs), end)),
            Err(e2) => Err(e2),
        },
        SchModel::Tagged(vars) => match varint_read(inp, pos) {
            Ok((d, p2)) => if d >= vars.len() {
                Err(CodecError::Malformed)
            } else {
                match parse_val(vars[d as int], inp, p2) {
                    Ok((v, end)) => Ok((ValModel::Tagged(d, Box::new(v)), end)),
                    Err(e2) => Err(e2),
                }
            },
            Err(e2) => Err(e2),
        },
    }
}

/// Parses `n` consecutive elements, all of schema `e`.
pub open spec fn parse_elems(e: SchModel, n: int, inp: Seq<u8>, pos: int) -> Result<
    (Seq<ValModel>, int),
    CodecError,
>
    decreases e, n,
{
    if n <= 0 {
        Ok((Seq::empty(), pos))
    } else {
        match parse_val(e, inp, pos) {
            Ok((v, p2)) => match parse_elems(e, n - 1, inp, p2) {
                Ok((vs, end)) => Ok((seq![v] + vs, end)),
                Err(e2) => Err(e2),
            },
            Err(e2) => Err(e2),
        }
    }
}

/// Parses one value for each field schema, in declared order.
pub open spec fn parse_fields(fs: Seq<SchModel>, inp: Seq<u8>, pos: int) -> Result<
    (Seq<ValModel>, int),
    CodecError,
>
    decreases fs, 0int,
{
    if fs.len() == 0 {
        Ok((Seq::empty(), pos))
    } else {
        match parse_val(fs[0], inp, pos) {
            Ok((v, p2)) => match parse_fields(fs.subrange(1, fs.len() as int), inp, p2) {
                Ok((vs, end)) => Ok((seq![v] + vs, end)),
                Err(e2) => Err(e2),
            },
            Err(e2) => Err(e2),
        }
    }
}

/// What decoding a whole buffer yields: the parsed value if it consumes the
/// buffer exactly, `TrailingData` if bytes remain, else the parse error.
pub open spec fn decode_spec(s: SchModel, inp: Seq<u8>) -> Result<ValModel, CodecError> {
    match parse_val(s, inp, 0) {
        Ok((v, end)) => if end == inp.len() {
            Ok(v)
        } else {
            Err(CodecError::TrailingData)
        },
        Err(e) => Err(e),
    }
}

/// The ghost mirror of a schema list keeps its length and maps its entries.
pub proof fn lemma_schemas_model_index(ss: Seq<Schema>)
    ensures
        schemas_model(ss).len() == ss.len(),
        forall|i: int|
            0 <= i < ss.len() ==> #[trigger] schemas_model(ss)[i] == schema_model(ss[i]),
    decreases ss,
{
    if ss.len() != 0 {
        lemma_schemas_model_index(ss.subrange(1, ss.len() as int));
    }
}

/// Reads one value of shape `s` at `pos`, exactly as `parse_val` says.
pub fn parse_value(s: &Schema, inp: &[u8], pos: usize) -> (r: Result<(Value, usize), CodecError>)
    requires
        pos <= inp@.len(),
    ensures
        match r {
            Ok((v, end)) => pos <= end <= inp@.len() && parse_val(s@, inp@, pos as int)
                == Ok::<_, CodecError>((v@, end as int)),
            Err(e) => parse_val(s@, inp@, pos as int) == Err::<(ValModel, int), _>(e),
        },
    decreases *s,
{
    match s {
        Schema::Int => {
            match read_varint(inp, pos) {
                Ok((n, end)) => {
                    proof {
                        crate::varint::lemma_varint_read_sound(inp@, pos as int);
                    }
                    Ok((Value::Int(n), end))
                }
                Err(e) => Err(e),
            }
        }
        Schema::Bytes => {
            match read_varint(inp, pos) {
                Ok((n, p2)) => {
                    proof {
                        crate::varint::lemma_varint_read_sound(inp@, pos as int);
                    }
                    if n > (inp.len() - p2) as u64 {
                        Err(CodecError::SizeLimitExceeded)
                    } else {
                        let n_us = n as usize;
                        let sub = vstd::slice::slice_subrange(inp, p2, p2 + n_us);
                        let bts = vstd::slice::slice_to_vec(sub);
                        Ok((Value::Bytes(bts), p2 + n_us))
                    }
                }
                Err(e) => Err(e),
            }
        }
        Schema::Fixed(k) => {
            if *k > inp.len() - pos {
                Err(CodecError::Malformed)
            } else {
                let sub = vstd::slice::slice_subrange(inp, pos, pos + *k);
                let bts = vstd::slice::slice_to_vec(sub);
                Ok((Value::Fixed(bts), pos + *k))
            }
        }
        Schema::List(e) => {
            match read_varint(inp, pos) {
                Ok((n, p2)) => {
                    proof {
                        crate::varint::lemma_varint_read_sound(inp@, pos as int);
                    }
                    if n > (inp.len() - p2) as u64 {
                        Err(CodecError::SizeLimitExceeded)
                    } else {
                        let ghost em = schema_model(**e);
                        let n_us = n as usize;
                        let mut acc: Vec<Value> = Vec::new();
                        let mut cur: usize = p2;
                        let mut i: usize = 0;
                        proof {
                            match parse_elems(em, n_us as int, inp@, p2 as int) {
                                Ok((vs, end)) => {
                                    assert(vals_model(acc@) + vs =~= vs);
                                }
                                Err(_) => {}
                            }
                        }
                        while i < n_us
                            invariant
                                *s == Schema::List(*e),
                                em == schema_model(**e),
                                i <= n_us,
                                pos <= p2 <= cur <= inp@.len(),
                                n_us <= inp@.len() - p2,
                                varint_read(inp@, pos as int) == Ok::<_, CodecError>((
                                    n_us as u64,
                                    p2 as int,
                                )),
                                (match parse_elems(em, n_us - i, inp@, cur as int) {
                                    Ok((vs, end)) => parse_elems(em, n_us as int, inp@, p2 as int)
                                        == Ok::<_, CodecError>((vals_model(acc@) + vs, end)),
                                    Err(x) => parse_elems(em, n_us as int, inp@, p2 as int)
                                        == Err::<(Seq<ValModel>, int), _>(x),
                                }),
                            decreases n_us - i,
                        {
                            proof {
                                assert(decreases_to!(*s => (*s)->List_0));
                                assert((*s)->List_0 == *e);
                            }
                            match parse_value(e, inp, cur) {
                                Ok((v, p3)) => {
                                    let ghost old_acc = acc@;
                                    acc.push(v);
                                    proof {
                                        assert(acc@ =~= old_acc.push(v));
                                        lemma_vals_model_push(old_acc, v);
                                        match parse_elems(em, n_us - i - 1, inp@, p3 as int) {
                                            Ok((vs2, end2)) => {
                                                assert(vals_model(old_acc) + (seq![v@] + vs2)
                                                    =~= vals_model(acc@) + vs2);
                                            }
                                            Err(_) => {}
                                        }
                                    }
                                    cur = p3;
                                    i = i + 1;
                                }
                                Err(x) => {
                                    proof {
                                        assert(parse_elems(em, n_us - i, inp@, cur as int)
                                            == Err::<(Seq<ValModel>, int), _>(x));
                                    }
                                    return Err(x);
                                }
                            }
                        }
                        proof {
                            assert(parse_elems(em, 0, inp@, cur as int) == Ok::<_, CodecError>((
                                Seq::<ValModel>::empty(),
                                cur as int,
                            )));
                            assert(vals_model(acc@) + Seq::<ValModel>::empty() =~= vals_model(
                                acc@,
                            ));
                        }
                        Ok((Value::List(acc), cur))
                    }
                }
                Err(e2) => Err(e2),
            }
        }
        Schema::Record(fields) => {
            let ghost fsm = schemas_model(fields@);
            proof {
                lemma_schemas_model_index(fields@);
            }
            let mut acc: Vec<Value> = Vec::new();
            let mut cur: usize = pos;
            let mut i: usize = 0;
            proof {
                assert(fsm.subrange(0, fsm.len() as int) =~= fsm);
                match parse_fields(fsm, inp@, pos as int) {
                    Ok((vs, end)) => {
                        assert(vals_model(acc@) + vs =~= vs);
                    }
                    Err(_) => {}
                }
            }
            while i < fields.len()
                invariant
                    *s == Schema::Record(*fields),
                    fsm == schemas_model(fields@),
                    fsm.len() == fields@.len(),
                    forall|j: int|
                        0 <= j < fields@.len() ==> #[trigger] fsm[j] == schema_model(fields@[j]),
                    i <= fields@.len(),
                    pos <= cur <= inp@.len(),
                    (match parse_fields(fsm.subrange(i as int, fsm.len() as int), inp@, cur as int) {
                        Ok((vs, end)) => parse_fields(fsm, inp@, pos as int) == Ok::<_, CodecError>((
                            vals_model(acc@) + vs,
                            end,
                        )),
                        Err(x) => parse_fields(fsm, inp@, pos as int) == Err::<
                            (Seq<ValModel>, int),
                            _,
                        >(x),
                    }),
                decreases fields@.len() - i,
            {
                proof {
                    assert(decreases_to!(*s => (*s)->Record_0));
                    assert((*s)->Record_0 == *fields);
                    assert(decreases_to!(*fields => fields@));
                    assert(decreases_to!(fields@ => fields@[i as int]));
                }
                let ghost tail = fsm.subrange(i as int, fsm.len() as int);
                proof {
                    assert(tail[0] == fsm[i as int]);
                    assert(tail.subrange(1, tail.len() as int) =~= fsm.subrange(
                        i + 1int,
                        fsm.len() as int,
                    ));
                }
                match parse_value(&fields[i], inp, cur) {
                    Ok((v, p3)) => {
                        let ghost old_acc = acc@;
                        acc.push(v);
                        proof {
                            assert(acc@ =~= old_acc.push(v));
                            lemma_vals_model_push(old_acc, v);
                            match parse_fields(
                                fsm.subrange(i + 1int, fsm.len() as int),
                                inp@,
                                p3 as int,
                            ) {
                                Ok((vs2, end2)) => {
                                    assert(vals_model(old_acc) + (seq![v@] + vs2) =~= vals_model(
                                        acc@,
                                    ) + vs2);
                                }
                                Err(_) => {}
                            }
                        }
                        cur = p3;
                        i = i + 1;
                    }
                    Err(x) => {
                        proof {
                            assert(parse_fields(tail, inp@, cur as int) == Err::<
                                (Seq<ValModel>, int),
                                _,
                            >(x));
                        }
                        return Err(x);
                    }
                }
            }
            proof {
                assert(fsm.subrange(fsm.len() as int, fsm.len() as int)
                    =~= Seq::<SchModel>::empty());
                assert(parse_fields(Seq::<SchModel>::empty(), inp@, cur as int)
                    == Ok::<_, CodecError>((Seq::<ValModel>::empty(), cur as int)));
                assert(vals_model(acc@) + Seq::<ValModel>::empty() =~= vals_model(acc@));
            }
            Ok((Value::Record(acc), cur))
        }
        Schema::Tagged(vars) => {
            proof {
                lemma_schemas_model_index(vars@);
            }
            match read_varint(inp, pos) {
                Ok((d, p2)) => {
                    proof {
                        crate::varint::lemma_varint_read_sound(inp@, pos as int);
                    }
                    if d >= vars.len() as u64 {
                        Err(CodecError::Malformed)
                    } else {
                        let d_us = d as usize;
                        proof {
                            assert(decreases_to!(*s => (*s)->Tagged_0));
                            assert((*s)->Tagged_0 == *vars);
                            assert(decreases_to!(*vars => vars@));
                            assert(decreases_to!(vars@ => vars@[d_us as int]));
                        }
                        match parse_value(&vars[d_us], inp, p2) {
                            Ok((v, end)) => Ok((Value::Tagged(d, Box::new(v)), end)),
                            Err(e2) => Err(e2),
                        }
                    }
                }
                Err(e2) => Err(e2),
            }
        }
    }
}

/// Decodes a whole buffer against `schema`.  Succeeds exactly on the canonical
/// encodings of conforming values; rejects unconsumed trailing bytes, declared
/// lengths that exceed the remaining input (before any allocation), and every
/// structurally invalid byte sequence.
pub fn deserialize(schema: &Schema, inp: &[u8]) -> (r: Result<Value, CodecError>)
    ensures
        match r {
            Ok(v) => decode_spec(schema@, inp@) == Ok::<_, CodecError>(v@),
            Err(e) => decode_spec(schema@, inp@) == Err::<ValModel, _>(e),
        },
{
    match parse_value(schema, inp, 0) {
        Ok((v, end)) => {
            if end == inp.len() {
                Ok(v)
            } else {
                Err(CodecError::TrailingData)
            }
        }
        Err(e) => Err(e),
    }
}


/// The least number of bytes any value of shape `s` can encode to.
pub open spec fn min_len(s: SchModel) -> nat
    decreases s, 0int,
{
    match s {
        SchModel::Int => 1,
        SchModel::Bytes => 1,
        SchModel::Fixed(k) => k,
        SchModel::List(_) => 1,
        SchModel::Record(fs) => min_len_sum(fs),
        SchModel::Tagged(_) => 1,
    }
}

pub open spec fn min_len_sum(fs: Seq<SchModel>) -> nat
    decreases fs, 0int,
{
    if fs.len() == 0 {
        0
    } else {
        min_len(fs[0]) + min_len_sum(fs.subrange(1, fs.len() as int))
    }
}

/// A well-formed schema: fixed fields are nonempty, list elements occupy at
/// least one byte each (so a declared count can be held against the input),
/// and a union has at least one variant.
pub open spec fn wf_schema(s: SchModel) -> bool
    decreases s, 0int,
{
    match s {
        SchModel::Int => true,
        SchModel::Bytes => true,
        SchModel::Fixed(k) => k >= 1,
        SchModel::List(e) => min_len(*e) >= 1 && wf_schema(*e),
        SchModel::Record(fs) => wf_each(fs),
        SchModel::Tagged(vars) => vars.len() >= 1 && wf_each(vars),
    }
}

pub open spec fn wf_each(fs: Seq<SchModel>) -> bool
    decreases fs, 0int,
{
    if fs.len() == 0 {
        true
    } else {
        wf_schema(fs[0]) && wf_each(fs.subrange(1, fs.len() as int))
    }
}

/// A conforming value encodes to at least the schema's minimum size.
pub proof fn lemma_enc_min(v: ValModel, s: SchModel)
    requires
        conforms(v, s),
    ensures
        enc(v).len() >= min_len(s),
    decreases v,
{
    crate::varint::lemma_varint_len(0);
    match v {
        ValModel::Int(n) => {
            crate::varint::lemma_varint_len(n);
        }
        ValModel::Bytes(b) => {
            crate::varint::lemma_varint_len(b.len() as u64);
        }
        ValModel::Fixed(_) => {}
        ValModel::List(vs) => {
            crate::varint::lemma_varint_len(vs.len() as u64);
        }
        ValModel::Record(vs) => {
            let fs = s->Record_0;
            lemma_enc_min_each(vs, fs);
        }
        ValModel::Tagged(d, _) => {
            crate::varint::lemma_varint_len(d);
        }
    }
}

pub proof fn lemma_enc_min_each(vs: Seq<ValModel>, fs: Seq<SchModel>)
    requires
        conforms_each(vs, fs),
    ensures
        enc_list(vs).len() >= min_len_sum(fs),
    decreases vs,
{
    if vs.len() != 0 {
        lemma_enc_min(vs[0], fs[0]);
        lemma_enc_min_each(vs.subrange(1, vs.len() as int), fs.subrange(1, fs.len() as int));
    }
}

/// Each element of a list costs at least one byte, so a list's element count
/// never exceeds the length of its encoded elements.
pub proof fn lemma_enc_list_min(vs: Seq<ValModel>, e: SchModel)
    requires
        conforms_all(vs, e),
        min_len(e) >= 1,
    ensures
        enc_list(vs).len() >= vs.len(),
    decreases vs,
{
    if vs.len() != 0 {
        lemma_enc_min(vs[0], e);
        lemma_enc_list_min(vs.subrange(1, vs.len() as int), e);
    }
}

/// Splits knowledge of a stored concatenation into its two halves.
proof fn lemma_subrange_split(inp: Seq<u8>, pos: int, x: Seq<u8>, y: Seq<u8>)
    requires
        0 <= pos,
        pos + x.len() + y.len() <= inp.len(),
        inp.subrange(pos, pos + x.len() + y.len()) == x + y,
    ensures
        inp.subrange(pos, pos + x.len()) == x,
        inp.subrange(pos + x.len(), pos + x.len() + y.len()) == y,
{
    let whole = inp.subrange(pos, pos + x.len() + y.len());
    assert forall|i: int| 0 <= i < x.len() implies inp.subrange(pos, pos + x.len() as int)[i]
        == x[i] by {
        assert(whole[i] == (x + y)[i]);
    }
    assert(inp.subrange(pos, pos + x.len()) =~= x);
    assert forall|i: int| 0 <= i < y.len() implies inp.subrange(
        pos + x.len(),
        pos + x.len() + y.len(),
    )[i] == y[i] by {
        assert(whole[x.len() + i] == (x + y)[x.len() + i]);
    }
    assert(inp.subrange(pos + x.len(), pos + x.len() + y.len()) =~= y);
}

/// Parsing at the start of a conforming value's encoding yields exactly that
/// value and stops exactly past it, whatever bytes follow.
pub proof fn lemma_parse_of_enc(s: SchModel, v: ValModel, inp: Seq<u8>, pos: int)
    requires
        wf_schema(s),
        conforms(v, s),
        0 <= pos,
        pos + enc(v).len() <= inp.len(),
        inp.subrange(pos, pos + enc(v).len()) == enc(v),
    ensures
        parse_val(s, inp, pos) == Ok::<_, CodecError>((v, pos + enc(v).len())),
    decreases v,
{
    match v {
        ValModel::Int(n) => {
            crate::varint::lemma_varint_read_of_bytes(n, inp, pos);
        }
        ValModel::Bytes(b) => {
            let ln = b.len() as u64;
            let w = varint_bytes(ln);
            lemma_subrange_split(inp, pos, w, b);
            crate::varint::lemma_varint_read_of_bytes(ln, inp, pos);
            assert(inp.subrange(pos + w.len(), pos + w.len() + b.len()) == b);
        }
        ValModel::Fixed(b) => {
            assert(inp.subrange(pos, pos + b.len()) == b);
        }
        ValModel::List(vs) => {
            let e = s->List_0;
            let ln = vs.len() as u64;
            let w = varint_bytes(ln);
            lemma_subrange_split(inp, pos, w, enc_list(vs));
            crate::varint::lemma_varint_read_of_bytes(ln, inp, pos);
            let p2 = pos + w.len();
            lemma_enc_list_min(vs, *e);
            lemma_parse_elems_of_enc(*e, vs, inp, p2);
        }
        ValModel::Record(vs) => {
            let fs = s->Record_0;
            lemma_parse_fields_of_enc(fs, vs, inp, pos);
        }
        ValModel::Tagged(d, p) => {
            let vars = s->Tagged_0;
            let w = varint_bytes(d);
            lemma_subrange_split(inp, pos, w, enc(*p));
            crate::varint::lemma_varint_read_of_bytes(d, inp, pos);
            let p2 = pos + w.len();
            lemma_wf_each_index(vars);
            lemma_parse_of_enc(vars[d as int], *p, inp, p2);
            assert(ValModel::Tagged(d, Box::new(*p)) == v);
        }
    }
}

/// Parsing `vs.len()` elements at the start of their concatenated encodings
/// yields exactly `vs`.
pub proof fn lemma_parse_elems_of_enc(e: SchModel, vs: Seq<ValModel>, inp: Seq<u8>, pos: int)
    requires
        wf_schema(e),
        min_len(e) >= 1,
        conforms_all(vs, e),
        0 <= pos,
        pos + enc_list(vs).len() <= inp.len(),
        inp.subrange(pos, pos + enc_list(vs).len()) == enc_list(vs),
    ensures
        parse_elems(e, vs.len() as int, inp, pos) == Ok::<_, CodecError>((
            vs,
            pos + enc_list(vs).len(),
        )),
    decreases vs,
{
    if vs.len() == 0 {
        assert(parse_elems(e, 0, inp, pos) == Ok::<_, CodecError>((Seq::<ValModel>::empty(), pos)));
        assert(vs =~= Seq::<ValModel>::empty());
    } else {
        let rest = vs.subrange(1, vs.len() as int);
        lemma_subrange_split(inp, pos, enc(vs[0]), enc_list(rest));
        lemma_parse_of_enc(e, vs[0], inp, pos);
        let p2 = pos + enc(vs[0]).len();
        lemma_parse_elems_of_enc(e, rest, inp, p2);
        assert(seq![vs[0]] + rest =~= vs);
    }
}

/// Parsing one value per field schema at the start of their concatenated
/// encodings yields exactly the field values.
pub proof fn lemma_parse_fields_of_enc(fs: Seq<SchModel>, vs: Seq<ValModel>, inp: Seq<u8>, pos: int)
    requires
        wf_each(fs),
        conforms_each(vs, fs),
        0 <= pos,
        pos + enc_list(vs).len() <= inp.len(),
        inp.subrange(pos, pos + enc_list(vs).len()) == enc_list(vs),
    ensures
        parse_fields(fs, inp, pos) == Ok::<_, CodecError>((vs, pos + enc_list(vs).len())),
    decreases vs,
{
    if vs.len() == 0 {
        assert(vs =~= Seq::<ValModel>::empty());
    } else {
        let rest = vs.subrange(1, vs.len() as int);
        let frest = fs.subrange(1, fs.len() as int);
        lemma_subrange_split(inp, pos, enc(vs[0]), enc_list(rest));
        lemma_parse_of_enc(fs[0], vs[0], inp, pos);
        let p2 = pos + enc(vs[0]).len();
        lemma_parse_fields_of_enc(frest, rest, inp, p2);
        assert(seq![vs[0]] + rest =~= vs);
    }
}

/// Every entry of a well-formed schema list is well formed.
pub proof fn lemma_wf_each_index(fs: Seq<SchModel>)
    requires
        wf_each(fs),
    ensures
        forall|i: int| 0 <= i < fs.len() ==> wf_schema(#[trigger] fs[i]),
    decreases fs,
{
    if fs.len() != 0 {
        lemma_wf_each_index(fs.subrange(1, fs.len() as int));
        assert forall|i: int| 0 <= i < fs.len() implies wf_schema(#[trigger] fs[i]) by {
            if i > 0 {
                assert(fs.subrange(1, fs.len() as int)[i - 1] == fs[i]);
            }
        }
    }
}

/// Whatever one parse accepts was stored in exactly the canonical encoding
/// of the value it returns: the bytes consumed are `enc` of that value.
pub proof fn lemma_parse_sound(s: SchModel, inp: Seq<u8>, pos: int)
    requires
        0 <= pos <= inp.len(),
        parse_val(s, inp, pos) is Ok,
    ensures
        ({
            let (v, end) = parse_val(s, inp, pos)->Ok_0;
            &&& pos <= end <= inp.len()
            &&& conforms(v, s)
            &&& inp.subrange(pos, end) == enc(v)
        }),
    decreases s, 0int,
{
    match s {
        SchModel::Int => {
            crate::varint::lemma_varint_read_sound(inp, pos);
        }
        SchModel::Bytes => {
            crate::varint::lemma_varint_read_sound(inp, pos);
            let (n, p2) = varint_read(inp, pos)->Ok_0;
            let b = inp.subrange(p2, p2 + n);
            assert(b.len() == n);
            assert(inp.subrange(pos, p2 + n) =~= inp.subrange(pos, p2) + b);
        }
        SchModel::Fixed(k) => {
        }
        SchModel::List(e) => {
            crate::varint::lemma_varint_read_sound(inp, pos);
            let (n, p2) = varint_read(inp, pos)->Ok_0;
            lemma_parse_elems_sound(*e, n as int, inp, p2);
            let (vs, end) = parse_elems(*e, n as int, inp, p2)->Ok_0;
            assert(vs.len() == n);
            assert(inp.subrange(pos, end) =~= inp.subrange(pos, p2) + inp.subrange(p2, end));
        }
        SchModel::Record(fs) => {
            lemma_parse_fields_sound(fs, inp, pos);
        }
        SchModel::Tagged(vars) => {
            crate::varint::lemma_varint_read_sound(inp, pos);
            let (d, p2) = varint_read(inp, pos)->Ok_0;
            lemma_parse_sound(vars[d as int], inp, p2);
            let (p, end) = parse_val(vars[d as int], inp, p2)->Ok_0;
            assert(inp.subrange(pos, end) =~= inp.subrange(pos, p2) + inp.subrange(p2, end));
        }
    }
}

/// Soundness for a run of `n` parsed elements.
pub proof fn lemma_parse_elems_sound(e: SchModel, n: int, inp: Seq<u8>, pos: int)
    requires
        0 <= pos <= inp.len(),
        parse_elems(e, n, inp, pos) is Ok,
    ensures
        ({
            let (vs, end) = parse_elems(e, n, inp, pos)->Ok_0;
            &&& pos <= end <= inp.len()
            &&& vs.len() == (if n <= 0 { 0int } else { n })
            &&& conforms_all(vs, e)
            &&& inp.subrange(pos, end) == enc_list(vs)
        }),
    decreases e, n,
{
    if n <= 0 {
        let (vs, end) = parse_elems(e, n, inp, pos)->Ok_0;
        assert(inp.subrange(pos, pos) =~= enc_list(vs));
    } else {
        lemma_parse_sound(e, inp, pos);
        let (v, p2) = parse_val(e, inp, pos)->Ok_0;
        lemma_parse_elems_sound(e, n - 1, inp, p2);
        let (vs2, end) = parse_elems(e, n - 1, inp, p2)->Ok_0;
        let vs = seq![v] + vs2;
        assert(vs[0] == v);
        assert(vs.subrange(1, vs.len() as int) =~= vs2);
        assert(enc_list(vs) == enc(vs[0]) + enc_list(vs.subrange(1, vs.len() as int)));
        assert(inp.subrange(pos, end) =~= inp.subrange(pos, p2) + inp.subrange(p2, end));
    }
}

/// Soundness for one parsed value per field schema.
pub proof fn lemma_parse_fields_sound(fs: Seq<SchModel>, inp: Seq<u8>, pos: int)
    requires
        0 <= pos <= inp.len(),
        parse_fields(fs, inp, pos) is Ok,
    ensures
        ({
            let (vs, end) = parse_fields(fs, inp, pos)->Ok_0;
            &&& pos <= end <= inp.len()
            &&& conforms_each(vs, fs)
            &&& inp.subrange(pos, end) == enc_list(vs)
        }),
    decreases fs, 0int,
{
    if fs.len() == 0 {
        let (vs, end) = parse_fields(fs, inp, pos)->Ok_0;
        assert(inp.subrange(pos, pos) =~= enc_list(vs));
    } else {
        lemma_parse_sound(fs[0], inp, pos);
        let (v, p2) = parse_val(fs[0], inp, pos)->Ok_0;
        lemma_parse_fields_sound(fs.subrange(1, fs.len() as int), inp, p2);
        let (vs2, end) = parse_fields(fs.subrange(1, fs.len() as int), inp, p2)->Ok_0;
        let vs = seq![v] + vs2;
        assert(vs[0] == v);
        assert(vs.subrange(1, vs.len() as int) =~= vs2);
        assert(enc_list(vs) == enc(vs[0]) + enc_list(vs.subrange(1, vs.len() as int)));
        assert(inp.subrange(pos, end) =~= inp.subrange(pos, p2) + inp.subrange(p2, end));
    }
}

/// Canonicity: decoding is injective on inputs — whatever decodes to a value
/// was exactly that value's canonical byte string, so no non-canonical input
/// and no two distinct inputs are accepted for one value.
pub proof fn lemma_decode_canonical(s: SchModel, inp: Seq<u8>, v: ValModel)
    requires
        decode_spec(s, inp) == Ok::<_, CodecError>(v),
    ensures
        conforms(v, s),
        enc(v) == inp,
{
    lemma_parse_sound(s, inp, 0);
    assert(inp.subrange(0, inp.len() as int) =~= inp);
}

/// Round trip: decoding the canonical encoding of any conforming value gives
/// that value back, for every value the schema allows.
pub proof fn lemma_round_trip(s: SchModel, v: ValModel)
    requires
        wf_schema(s),
        conforms(v, s),
    ensures
        decode_spec(s, enc(v)) == Ok::<_, CodecError>(v),
{
    let b = enc(v);
    assert(b.subrange(0, b.len() as int) =~= b);
    lemma_parse_of_enc(s, v, b, 0);
}

/// Determinism: the encoding is a function of the value's logical content
/// alone, so equal values give byte-identical encodings, on every call and in
/// every process.
pub proof fn lemma_encode_deterministic(v1: ValModel, v2: ValModel)
    requires
        v1 == v2,
    ensures
        enc(v1) == enc(v2),
{
}

/// Trailing bytes are rejected: a canonical encoding followed by anything at
/// all decodes to `TrailingData`, never to a value.
pub proof fn lemma_trailing_rejected(s: SchModel, v: ValModel, extra: Seq<u8>)
    requires
        wf_schema(s),
        conforms(v, s),
        extra.len() > 0,
    ensures
        decode_spec(s, enc(v) + extra) == Err::<ValModel, _>(CodecError::TrailingData),
{
    let b = enc(v) + extra;
    assert(b.subrange(0, enc(v).len() as int) =~= enc(v));
    lemma_parse_of_enc(s, v, b, 0);
}

/// Size-limit enforcement: a byte-string or list whose declared length
/// exceeds what remains of the input fails with `SizeLimitExceeded` before
/// anything is taken from the input.
pub proof fn lemma_size_limit(s: SchModel, inp: Seq<u8>, n: u64, p2: int)
    requires
        s is Bytes || s is List,
        varint_read(inp, 0) == Ok::<_, CodecError>((n, p2)),
        n > inp.len() - p2,
    ensures
        decode_spec(s, inp) == Err::<ValModel, _>(CodecError::SizeLimitExceeded),
{
}

/// Injectivity: two conforming values with the same canonical encoding are
/// the same value.
pub proof fn lemma_encode_injective(s: SchModel, v1: ValModel, v2: ValModel)
    requires
        wf_schema(s),
        conforms(v1, s),
        conforms(v2, s),
        enc(v1) == enc(v2),
    ensures
        v1 == v2,
{
    lemma_round_trip(s, v1);
    lemma_round_trip(s, v2);
}

/// Ordering sensitivity: container order is part of a value's identity, so
/// two structurally equal but differently ordered container values (distinct
/// as values) have different canonical encodings.
pub proof fn lemma_order_sensitive(s: SchModel, v1: ValModel, v2: ValModel)
    requires
        wf_schema(s),
        conforms(v1, s),
        conforms(v2, s),
        v1 != v2,
    ensures
        enc(v1) != enc(v2),
{
    if enc(v1) == enc(v2) {
        lemma_encode_injective(s, v1, v2);
    }
}

} // verus!
