//! The wire format itself: a reference semantics for the encoders and
//! decoders the generator emits.  A dynamic value stands for an instance
//! of any generated type; encoding and decoding are defined against a type
//! expression and a symbol table, and proved inverse to one another.

use vstd::prelude::*;
use crate::ast::{Type, Decl, UnionCase};
use crate::symtab::{Symtab, spec_value};
use crate::codegen::spec_to_i32;
use crate::wire::{spec_u32_be, spec_u32_of_be, spec_u64_be, spec_u64_of_be};

verus! {

broadcast use vstd::seq::group_seq_axioms, vstd::std_specs::vec::group_vec_axioms;

/// A value of some generated type: scalars, byte blocks (opaque data and
/// text), element lists, optional values, aggregate fields in declared
/// order, and a union variant as its discriminant, optional payload and
/// whether it is the default variant.
#[derive(Debug, PartialEq, Eq)]
pub enum XdrValue {
    VU32(u32),
    VI32(i32),
    VU64(u64),
    VI64(i64),
    VBool(bool),
    VBytes(Vec<u8>),
    VList(Vec<XdrValue>),
    VOpt(Option<Box<XdrValue>>),
    VStruct(Vec<XdrValue>),
    VUnion(i32, Option<Box<XdrValue>>, bool),
}

/// The abstract shape of a value.
pub enum XdrValV {
    U32(u32),
    I32(i32),
    U64(u64),
    I64(i64),
    Bool(bool),
    Bytes(Seq<u8>),
    List(Seq<XdrValV>),
    Opt(Option<Box<XdrValV>>),
    Struct(Seq<XdrValV>),
    Union(i32, Option<Box<XdrValV>>, bool),
}

/// The view of a value.
pub open spec fn xview(v: XdrValue) -> XdrValV
    decreases v, 0int,
{
    match v {
        XdrValue::VU32(x) => XdrValV::U32(x),
        XdrValue::VI32(x) => XdrValV::I32(x),
        XdrValue::VU64(x) => XdrValV::U64(x),
        XdrValue::VI64(x) => XdrValV::I64(x),
        XdrValue::VBool(b) => XdrValV::Bool(b),
        XdrValue::VBytes(b) => XdrValV::Bytes(b@),
        XdrValue::VList(es) => XdrValV::List(xviews(es@, 0)),
        XdrValue::VOpt(o) => XdrValV::Opt(
            match o {
                Some(b) => Some(Box::new(xview(*b))),
                None => None,
            },
        ),
        XdrValue::VStruct(fs) => XdrValV::Struct(xviews(fs@, 0)),
        XdrValue::VUnion(d, p, def) => XdrValV::Union(
            d,
            match p {
                Some(b) => Some(Box::new(xview(*b))),
                None => None,
            },
            def,
        ),
    }
}

/// The views of the values from the given position on.
pub open spec fn xviews(es: Seq<XdrValue>, i: int) -> Seq<XdrValV>
    decreases es, es.len() - i,
{
    if i < 0 || i >= es.len() {
        Seq::empty()
    } else {
        seq![xview(es[i])] + xviews(es, i + 1)
    }
}

/// Each position of the view sequence is the view at that position.
pub proof fn lemma_xviews_index(es: Seq<XdrValue>, i: int)
    requires
        0 <= i <= es.len(),
    ensures
        xviews(es, i).len() == es.len() - i,
        forall|k: int| i <= k < es.len() ==> xviews(es, i)[k - i] == xview(#[trigger] es[k]),
    decreases es.len() - i,
{
    if i < es.len() {
        lemma_xviews_index(es, i + 1);
    }
}

/// A runtime codec failure.
#[derive(Debug, PartialEq, Eq, Clone, Copy)]
pub enum CodecErr {
    /// Encoding a union's default variant, or decoding a discriminant
    /// with no matching case and no default.
    InvalidCase,
    /// The value does not fit the type it is encoded at.
    BadValue,
    /// The input ends before the value does.
    Short,
    /// The type has no wire form here: a floating-point scalar, a bare
    /// byte-sequence marker, an unresolvable name or size.
    Unsupported,
}

/// The zero padding that rounds a byte count up to a multiple of four.
pub open spec fn pad_of(n: int) -> int {
    (4 - (n % 4)) % 4
}

/// A run of zero bytes.
pub open spec fn zeros(n: int) -> Seq<u8> {
    Seq::new(n as nat, |i: int| 0u8)
}

/// The signed 32-bit wire form.
pub open spec fn spec_i32_be(x: i32) -> Seq<u8> {
    spec_u32_be(x as u32)
}

/// The first case whose label resolves to the given discriminant.
pub open spec fn spec_find_case(
    cm: Map<Seq<char>, (i64, Option<Seq<char>>)>,
    cases: Seq<UnionCase>,
    d: i32,
    i: int,
) -> Option<int>
    decreases cases.len() - i,
{
    if i < 0 || i >= cases.len() {
        None
    } else {
        match spec_value(cm, cases[i].0) {
            Some(v64) => if spec_to_i32(v64) == d {
                Some(i)
            } else {
                spec_find_case(cm, cases, d, i + 1)
            },
            None => spec_find_case(cm, cases, d, i + 1),
        }
    }
}

/// What encoding a value at a type produces.
pub open spec fn spec_encode(
    ty: Type,
    cm: Map<Seq<char>, (i64, Option<Seq<char>>)>,
    tm: Map<Seq<char>, Type>,
    fuel: nat,
    v: XdrValV,
) -> Result<Seq<u8>, CodecErr>
    decreases fuel, ty, 0int,
{
    match ty {
        Type::UInt => match v {
            XdrValV::U32(x) => Ok(spec_u32_be(x)),
            _ => Err(CodecErr::BadValue),
        },
        Type::Int => match v {
            XdrValV::I32(x) => Ok(spec_i32_be(x)),
            _ => Err(CodecErr::BadValue),
        },
        Type::UHyper => match v {
            XdrValV::U64(x) => Ok(spec_u64_be(x)),
            _ => Err(CodecErr::BadValue),
        },
        Type::Hyper => match v {
            XdrValV::I64(x) => Ok(spec_u64_be(x as u64)),
            _ => Err(CodecErr::BadValue),
        },
        Type::Bool => match v {
            XdrValV::Bool(b) => Ok(
                spec_u32_be(
                    if b {
                        1
                    } else {
                        0
                    },
                ),
            ),
            _ => Err(CodecErr::BadValue),
        },
        Type::Enum(_) => match v {
            XdrValV::I32(x) => Ok(spec_i32_be(x)),
            _ => Err(CodecErr::BadValue),
        },
        Type::Struct(decls) => match v {
            XdrValV::Struct(vs) => spec_encode_fields(decls@, cm, tm, fuel, vs, 0, 0),
            _ => Err(CodecErr::BadValue),
        },
        Type::Union(_, cases, _) => match v {
            XdrValV::Union(d, p, def) => if def {
                Err(CodecErr::InvalidCase)
            } else {
                match spec_find_case(cm, cases@, d, 0) {
                    None => Err(CodecErr::BadValue),
                    Some(ci) => if !(0 <= ci < cases@.len()) {
                        Err(CodecErr::BadValue)
                    } else {
                        match cases@[ci].1 {
                        Decl::Void => match p {
                            None => Ok(spec_i32_be(d)),
                            Some(_) => Err(CodecErr::BadValue),
                        },
                        Decl::Named(_, cty) => match p {
                            Some(pv) => match spec_encode(cty, cm, tm, fuel, *pv) {
                                Ok(pb) => Ok(spec_i32_be(d) + pb),
                                Err(e) => Err(e),
                            },
                            None => Err(CodecErr::BadValue),
                        },
                        }
                    },
                }
            },
            _ => Err(CodecErr::BadValue),
        },
        Type::Option(t) => match v {
            XdrValV::Opt(o) => match o {
                None => Ok(spec_u32_be(0)),
                Some(b) => match spec_encode(*t, cm, tm, fuel, *b) {
                    Ok(pb) => Ok(spec_u32_be(1) + pb),
                    Err(e) => Err(e),
                },
            },
            _ => Err(CodecErr::BadValue),
        },
        Type::Array(t, val) => match *t {
            Type::String => match v {
                XdrValV::Bytes(b) => if b.len() <= u32::MAX {
                    Ok(spec_u32_be(b.len() as u32) + b + zeros(pad_of(b.len() as int)))
                } else {
                    Err(CodecErr::BadValue)
                },
                _ => Err(CodecErr::BadValue),
            },
            Type::Opaque => match spec_value(cm, val) {
                None => Err(CodecErr::Unsupported),
                Some(n) => match v {
                    XdrValV::Bytes(b) => if b.len() == n {
                        Ok(b + zeros(pad_of(n as int)))
                    } else {
                        Err(CodecErr::BadValue)
                    },
                    _ => Err(CodecErr::BadValue),
                },
            },
            _ => match spec_value(cm, val) {
                None => Err(CodecErr::Unsupported),
                Some(n) => match v {
                    XdrValV::List(es) => if es.len() == n {
                        spec_encode_elems(*t, cm, tm, fuel, es, 0)
                    } else {
                        Err(CodecErr::BadValue)
                    },
                    _ => Err(CodecErr::BadValue),
                },
            },
        },
        Type::Flex(t, _) => match *t {
            Type::String => match v {
                XdrValV::Bytes(b) => if b.len() <= u32::MAX {
                    Ok(spec_u32_be(b.len() as u32) + b + zeros(pad_of(b.len() as int)))
                } else {
                    Err(CodecErr::BadValue)
                },
                _ => Err(CodecErr::BadValue),
            },
            Type::Opaque => match v {
                XdrValV::Bytes(b) => if b.len() <= u32::MAX {
                    Ok(spec_u32_be(b.len() as u32) + b + zeros(pad_of(b.len() as int)))
                } else {
                    Err(CodecErr::BadValue)
                },
                _ => Err(CodecErr::BadValue),
            },
            _ => match v {
                XdrValV::List(es) => if es.len() <= u32::MAX {
                    match spec_encode_elems(*t, cm, tm, fuel, es, 0) {
                        Ok(body) => Ok(spec_u32_be(es.len() as u32) + body),
                        Err(e) => Err(e),
                    }
                } else {
                    Err(CodecErr::BadValue)
                },
                _ => Err(CodecErr::BadValue),
            },
        },
        Type::Ident(id) => if fuel > 0 && tm.contains_key(id@) {
            spec_encode(tm[id@], cm, tm, (fuel - 1) as nat, v)
        } else {
            Err(CodecErr::Unsupported)
        },
        _ => Err(CodecErr::Unsupported),
    }
}

/// Encoding an aggregate's fields from the given declaration and value
/// positions on: void declarations carry no value.
pub open spec fn spec_encode_fields(
    decls: Seq<Decl>,
    cm: Map<Seq<char>, (i64, Option<Seq<char>>)>,
    tm: Map<Seq<char>, Type>,
    fuel: nat,
    vs: Seq<XdrValV>,
    i: int,
    j: int,
) -> Result<Seq<u8>, CodecErr>
    decreases fuel, decls, decls.len() - i,
{
    if i < 0 || i >= decls.len() {
        if j == vs.len() {
            Ok(Seq::empty())
        } else {
            Err(CodecErr::BadValue)
        }
    } else {
        match decls[i] {
            Decl::Void => spec_encode_fields(decls, cm, tm, fuel, vs, i + 1, j),
            Decl::Named(_, fty) => if 0 <= j < vs.len() {
                match spec_encode(fty, cm, tm, fuel, vs[j]) {
                    Err(e) => Err(e),
                    Ok(fb) => match spec_encode_fields(decls, cm, tm, fuel, vs, i + 1, j + 1) {
                        Err(e) => Err(e),
                        Ok(rb) => Ok(fb + rb),
                    },
                }
            } else {
                Err(CodecErr::BadValue)
            },
        }
    }
}

/// The four bytes at `pos` as a 32-bit word.
pub open spec fn word_at(s: Seq<u8>, pos: int) -> u32 {
    spec_u32_of_be(s[pos], s[pos + 1], s[pos + 2], s[pos + 3])
}

/// What decoding at a type from position `pos` yields: the value and the
/// bytes consumed.
pub open spec fn spec_decode(
    ty: Type,
    cm: Map<Seq<char>, (i64, Option<Seq<char>>)>,
    tm: Map<Seq<char>, Type>,
    fuel: nat,
    s: Seq<u8>,
    pos: int,
) -> Result<(XdrValV, int), CodecErr>
    decreases fuel, ty, 0int,
{
    match ty {
        Type::UInt => if 0 <= pos && pos + 4 <= s.len() {
            Ok((XdrValV::U32(word_at(s, pos)), 4))
        } else {
            Err(CodecErr::Short)
        },
        Type::Int => if 0 <= pos && pos + 4 <= s.len() {
            Ok((XdrValV::I32(word_at(s, pos) as i32), 4))
        } else {
            Err(CodecErr::Short)
        },
        Type::UHyper => if 0 <= pos && pos + 8 <= s.len() {
            Ok((XdrValV::U64(spec_u64_of_be(s.subrange(pos, pos + 8))), 8))
        } else {
            Err(CodecErr::Short)
        },
        Type::Hyper => if 0 <= pos && pos + 8 <= s.len() {
            Ok((XdrValV::I64(spec_u64_of_be(s.subrange(pos, pos + 8)) as i64), 8))
        } else {
            Err(CodecErr::Short)
        },
        Type::Bool => if 0 <= pos && pos + 4 <= s.len() {
            if word_at(s, pos) == 0 {
                Ok((XdrValV::Bool(false), 4))
            } else if word_at(s, pos) == 1 {
                Ok((XdrValV::Bool(true), 4))
            } else {
                Err(CodecErr::BadValue)
            }
        } else {
            Err(CodecErr::Short)
        },
        Type::Enum(_) => if 0 <= pos && pos + 4 <= s.len() {
            Ok((XdrValV::I32(word_at(s, pos) as i32), 4))
        } else {
            Err(CodecErr::Short)
        },
        Type::Struct(decls) => match spec_decode_fields(decls@, cm, tm, fuel, s, pos, 0) {
            Err(e) => Err(e),
            Ok((vs, n)) => Ok((XdrValV::Struct(vs), n)),
        },
        Type::Union(_, cases, defl) => if 0 <= pos && pos + 4 <= s.len() {
            let d = word_at(s, pos) as i32;
            match spec_find_case(cm, cases@, d, 0) {
                Some(ci) => if !(0 <= ci < cases@.len()) {
                    Err(CodecErr::BadValue)
                } else {
                    match cases@[ci].1 {
                        Decl::Void => Ok((XdrValV::Union(d, None, false), 4)),
                        Decl::Named(_, cty) => match spec_decode(cty, cm, tm, fuel, s, pos + 4) {
                            Err(e) => Err(e),
                            Ok((pv, n)) => Ok(
                                (XdrValV::Union(d, Some(Box::new(pv)), false), 4 + n),
                            ),
                        },
                    }
                },
                None => match defl {
                    Some(dd) => match *dd {
                        Decl::Void => Ok((XdrValV::Union(d, None, true), 4)),
                        Decl::Named(_, dty) => match spec_decode(dty, cm, tm, fuel, s, pos + 4) {
                            Err(e) => Err(e),
                            Ok((pv, n)) => Ok((XdrValV::Union(d, Some(Box::new(pv)), true), 4 + n)),
                        },
                    },
                    None => Err(CodecErr::InvalidCase),
                },
            }
        } else {
            Err(CodecErr::Short)
        },
        Type::Option(t) => if 0 <= pos && pos + 4 <= s.len() {
            if word_at(s, pos) == 0 {
                Ok((XdrValV::Opt(None), 4))
            } else if word_at(s, pos) == 1 {
                match spec_decode(*t, cm, tm, fuel, s, pos + 4) {
                    Err(e) => Err(e),
                    Ok((pv, n)) => Ok((XdrValV::Opt(Some(Box::new(pv))), 4 + n)),
                }
            } else {
                Err(CodecErr::BadValue)
            }
        } else {
            Err(CodecErr::Short)
        },
        Type::Array(t, val) => match *t {
            Type::String => spec_decode_var_bytes(s, pos),
            Type::Opaque => match spec_value(cm, val) {
                None => Err(CodecErr::Unsupported),
                Some(n) => if n < 0 {
                    Err(CodecErr::Unsupported)
                } else if 0 <= pos && pos + n + pad_of(n as int) <= s.len() {
                    Ok((XdrValV::Bytes(s.subrange(pos, pos + n)), n + pad_of(n as int)))
                } else {
                    Err(CodecErr::Short)
                },
            },
            _ => match spec_value(cm, val) {
                None => Err(CodecErr::Unsupported),
                Some(n) => if n < 0 {
                    Err(CodecErr::Unsupported)
                } else {
                    match spec_decode_elems(*t, cm, tm, fuel, s, pos, n as int) {
                        Err(e) => Err(e),
                        Ok((es, m)) => Ok((XdrValV::List(es), m)),
                    }
                },
            },
        },
        Type::Flex(t, _) => match *t {
            Type::String => spec_decode_var_bytes(s, pos),
            Type::Opaque => spec_decode_var_bytes(s, pos),
            _ => if 0 <= pos && pos + 4 <= s.len() {
                let n = word_at(s, pos) as int;
                match spec_decode_elems(*t, cm, tm, fuel, s, pos + 4, n) {
                    Err(e) => Err(e),
                    Ok((es, m)) => Ok((XdrValV::List(es), 4 + m)),
                }
            } else {
                Err(CodecErr::Short)
            },
        },
        Type::Ident(id) => if fuel > 0 && tm.contains_key(id@) {
            spec_decode(tm[id@], cm, tm, (fuel - 1) as nat, s, pos)
        } else {
            Err(CodecErr::Unsupported)
        },
        _ => Err(CodecErr::Unsupported),
    }
}

/// Decoding a length-prefixed, zero-padded byte block.
pub open spec fn spec_decode_var_bytes(s: Seq<u8>, pos: int) -> Result<(XdrValV, int), CodecErr> {
    if 0 <= pos && pos + 4 <= s.len() {
        let n = word_at(s, pos) as int;
        if pos + 4 + n + pad_of(n) <= s.len() {
            Ok((XdrValV::Bytes(s.subrange(pos + 4, pos + 4 + n)), 4 + n + pad_of(n)))
        } else {
            Err(CodecErr::Short)
        }
    } else {
        Err(CodecErr::Short)
    }
}

/// Decoding an aggregate's fields from the given declaration position on.
pub open spec fn spec_decode_fields(
    decls: Seq<Decl>,
    cm: Map<Seq<char>, (i64, Option<Seq<char>>)>,
    tm: Map<Seq<char>, Type>,
    fuel: nat,
    s: Seq<u8>,
    pos: int,
    i: int,
) -> Result<(Seq<XdrValV>, int), CodecErr>
    decreases fuel, decls, decls.len() - i,
{
    if i < 0 || i >= decls.len() {
        Ok((Seq::empty(), 0))
    } else {
        match decls[i] {
            Decl::Void => spec_decode_fields(decls, cm, tm, fuel, s, pos, i + 1),
            Decl::Named(_, fty) => match spec_decode(fty, cm, tm, fuel, s, pos) {
                Err(e) => Err(e),
                Ok((fv, n)) => match spec_decode_fields(decls, cm, tm, fuel, s, pos + n, i + 1) {
                    Err(e) => Err(e),
                    Ok((vs, m)) => Ok((seq![fv] + vs, n + m)),
                },
            },
        }
    }
}

/// Decoding exactly `remaining` sequential elements: a fixed array's
/// element count comes from the type, never from the wire.
pub open spec fn spec_decode_elems(
    t: Type,
    cm: Map<Seq<char>, (i64, Option<Seq<char>>)>,
    tm: Map<Seq<char>, Type>,
    fuel: nat,
    s: Seq<u8>,
    pos: int,
    remaining: int,
) -> Result<(Seq<XdrValV>, int), CodecErr>
    decreases fuel, t, remaining + 1,
{
    if remaining <= 0 {
        Ok((Seq::empty(), 0))
    } else {
        match spec_decode(t, cm, tm, fuel, s, pos) {
            Err(e) => Err(e),
            Ok((hv, n)) => match spec_decode_elems(t, cm, tm, fuel, s, pos + n, remaining - 1) {
                Err(e) => Err(e),
                Ok((es, m)) => Ok((seq![hv] + es, n + m)),
            },
        }
    }
}

/// Encoding a homogeneous element list from the given position on.
pub open spec fn spec_encode_elems(
    t: Type,
    cm: Map<Seq<char>, (i64, Option<Seq<char>>)>,
    tm: Map<Seq<char>, Type>,
    fuel: nat,
    es: Seq<XdrValV>,
    i: int,
) -> Result<Seq<u8>, CodecErr>
    decreases fuel, t, es.len() - i + 1,
{
    if i < 0 || i >= es.len() {
        Ok(Seq::empty())
    } else {
        match spec_encode(t, cm, tm, fuel, es[i]) {
            Err(e) => Err(e),
            Ok(hb) => match spec_encode_elems(t, cm, tm, fuel, es, i + 1) {
                Err(e) => Err(e),
                Ok(rb) => Ok(hb + rb),
            },
        }
    }
}

/// An aggregate's encoding is its named fields' encodings laid end to
/// end, fields in declared order, so its byte count is the sum of the
/// fields' byte counts.
pub proof fn lemma_struct_encode_bytes(
    decls: Seq<Decl>,
    cm: Map<Seq<char>, (i64, Option<Seq<char>>)>,
    tm: Map<Seq<char>, Type>,
    fuel: nat,
    vs: Seq<XdrValV>,
    i: int,
    j: int,
)
    requires
        0 <= i < decls.len(),
        decls[i] is Named,
        0 <= j < vs.len(),
        spec_encode_fields(decls, cm, tm, fuel, vs, i, j) is Ok,
    ensures
        spec_encode(decls[i]->Named_1, cm, tm, fuel, vs[j]) is Ok,
        spec_encode_fields(decls, cm, tm, fuel, vs, i + 1, j + 1) is Ok,
        spec_encode_fields(decls, cm, tm, fuel, vs, i, j)->Ok_0 == spec_encode(
            decls[i]->Named_1,
            cm,
            tm,
            fuel,
            vs[j],
        )->Ok_0 + spec_encode_fields(decls, cm, tm, fuel, vs, i + 1, j + 1)->Ok_0,
        spec_encode_fields(decls, cm, tm, fuel, vs, i, j)->Ok_0.len() == spec_encode(
            decls[i]->Named_1,
            cm,
            tm,
            fuel,
            vs[j],
        )->Ok_0.len() + spec_encode_fields(decls, cm, tm, fuel, vs, i + 1, j + 1)->Ok_0.len(),
{
}

/// Encoding at a union type always fails on the default variant: it has
/// no single discriminant to write.
pub proof fn lemma_union_default_encode_fails(
    ty: Type,
    cm: Map<Seq<char>, (i64, Option<Seq<char>>)>,
    tm: Map<Seq<char>, Type>,
    fuel: nat,
    v: XdrValV,
)
    requires
        ty is Union,
        v matches XdrValV::Union(_, _, true),
    ensures
        spec_encode(ty, cm, tm, fuel, v) == Err::<Seq<u8>, CodecErr>(CodecErr::InvalidCase),
{
}

/// A discriminant that matches no case dispatches to the default arm if
/// one was declared, and otherwise fails as an invalid discriminant.
pub proof fn lemma_union_decode_unmatched(
    ty: Type,
    cm: Map<Seq<char>, (i64, Option<Seq<char>>)>,
    tm: Map<Seq<char>, Type>,
    fuel: nat,
    s: Seq<u8>,
    pos: int,
)
    requires
        ty is Union,
        0 <= pos,
        pos + 4 <= s.len(),
        spec_find_case(cm, ty->Union_1@, word_at(s, pos) as i32, 0) is None,
    ensures
        ({
            let d = word_at(s, pos) as i32;
            match ty->Union_2 {
                None => spec_decode(ty, cm, tm, fuel, s, pos) == Err::<(XdrValV, int), CodecErr>(
                    CodecErr::InvalidCase,
                ),
                Some(dd) => match *dd {
                    Decl::Void => spec_decode(ty, cm, tm, fuel, s, pos) == Ok::<
                        (XdrValV, int),
                        CodecErr,
                    >((XdrValV::Union(d, None, true), 4)),
                    Decl::Named(_, dty) => spec_decode(ty, cm, tm, fuel, s, pos) == (
                    match spec_decode(dty, cm, tm, fuel, s, pos + 4) {
                        Err(e) => Err::<(XdrValV, int), CodecErr>(e),
                        Ok((pv, n)) => Ok((XdrValV::Union(d, Some(Box::new(pv)), true), 4 + n)),
                    }),
                },
            }
        }),
{
}

/// Decoding a fixed element count yields exactly that many elements.
pub proof fn lemma_decode_elems_count(
    t: Type,
    cm: Map<Seq<char>, (i64, Option<Seq<char>>)>,
    tm: Map<Seq<char>, Type>,
    fuel: nat,
    s: Seq<u8>,
    pos: int,
    remaining: int,
)
    requires
        spec_decode_elems(t, cm, tm, fuel, s, pos, remaining) is Ok,
    ensures
        spec_decode_elems(t, cm, tm, fuel, s, pos, remaining)->Ok_0.0.len() == if remaining >= 0 {
            remaining
        } else {
            0
        },
    decreases fuel, t, remaining + 1,
{
    if remaining > 0 {
        let n = spec_decode(t, cm, tm, fuel, s, pos)->Ok_0.1;
        lemma_decode_elems_count(t, cm, tm, fuel, s, pos + n, remaining - 1);
    }
}

/// A fixed array's element count comes from the type alone: encoding
/// succeeds only on a list of exactly that count, and a successful decode
/// yields exactly that count, whatever the stream holds — the wire
/// carries no length for it.
pub proof fn lemma_fixed_array_count(
    ty: Type,
    cm: Map<Seq<char>, (i64, Option<Seq<char>>)>,
    tm: Map<Seq<char>, Type>,
    fuel: nat,
    v: XdrValV,
    s: Seq<u8>,
    pos: int,
)
    requires
        ty matches Type::Array(t, val) && !(*t is String) && !(*t is Opaque),
    ensures
        spec_encode(ty, cm, tm, fuel, v) is Ok ==> v is List && Some(
            v->List_0.len() as i64,
        ) == spec_value(cm, ty->Array_1) && v->List_0.len() == spec_value(cm, ty->Array_1)->0,
        spec_decode(ty, cm, tm, fuel, s, pos) is Ok ==> spec_decode(
            ty,
            cm,
            tm,
            fuel,
            s,
            pos,
        )->Ok_0.0 is List && spec_decode(ty, cm, tm, fuel, s, pos)->Ok_0.0->List_0.len()
            == spec_value(cm, ty->Array_1)->0,
{
    if spec_decode(ty, cm, tm, fuel, s, pos) is Ok {
        match ty {
            Type::Array(t, val) => {
                let n = spec_value(cm, val)->0;
                lemma_decode_elems_count(*t, cm, tm, fuel, s, pos, n as int);
            },
            _ => {},
        }
    }
}

/// Shortens a buffer back to an earlier length.
fn shrink_to(out: &mut Vec<u8>, n: usize)
    requires
        n <= old(out)@.len(),
    ensures
        final(out)@ == old(out)@.subrange(0, n as int),
{
    while out.len() > n
        invariant
            n <= out@.len(),
            out@.len() <= old(out)@.len(),
            out@ == old(out)@.subrange(0, out@.len() as int),
        decreases out@.len(),
    {
        let ghost prev = out@;
        let _ = out.pop();
        proof {
            assert(out@ == prev.subrange(0, prev.len() - 1));
            assert forall|k: int| 0 <= k < out@.len() implies out@[k] == old(out)@[k] by {
                assert(out@[k] == prev[k]);
                assert(prev[k] == old(out)@.subrange(0, prev.len() as int)[k]);
            }
            assert(out@ =~= old(out)@.subrange(0, out@.len() as int));
        }
    }
}

/// Appends a run of zero bytes.
fn push_zeros(out: &mut Vec<u8>, n: usize)
    ensures
        final(out)@ == old(out)@ + zeros(n as int),
{
    let mut k: usize = 0;
    while k < n
        invariant
            k <= n,
            out@ == old(out)@ + zeros(k as int),
        decreases n - k,
    {
        out.push(0);
        k = k + 1;
        assert(out@ =~= old(out)@ + zeros(k as int));
    }
    assert(out@ =~= old(out)@ + zeros(n as int));
}

/// The padding that rounds a length up to a multiple of four.
fn pad_len(n: usize) -> (r: usize)
    ensures
        r as int == pad_of(n as int),
{
    (4 - (n % 4)) % 4
}

/// Finds the first case whose label resolves to the discriminant.
fn find_case(symtab: &Symtab, cases: &Vec<UnionCase>, d: i32, i: usize) -> (r: Option<usize>)
    requires
        symtab.wf(),
        i <= cases@.len(),
    ensures
        match r {
            Some(ci) => i <= ci < cases@.len() && spec_find_case(
                symtab.consts_map(),
                cases@,
                d,
                i as int,
            ) == Some(ci as int),
            None => spec_find_case(symtab.consts_map(), cases@, d, i as int) is None,
        },
    decreases cases@.len() - i,
{
    if i == cases.len() {
        return None;
    }
    let UnionCase(label, _) = &cases[i];
    match symtab.value(label) {
        Some(v64) => {
            let disc: i32 = #[verifier::truncate] (v64 as i32);
            if disc == d {
                Some(i)
            } else {
                find_case(symtab, cases, d, i + 1)
            }
        },
        None => find_case(symtab, cases, d, i + 1),
    }
}

/// Encodes a value at a type against a symbol table.
pub fn encode_value(ty: &Type, symtab: &Symtab, v: &XdrValue) -> (r: Result<Vec<u8>, CodecErr>)
    requires
        symtab.wf(),
    ensures
        ({
            let want = spec_encode(
                *ty,
                symtab.consts_map(),
                symtab.typedefs_map(),
                crate::classify::spec_fuel(*symtab),
                xview(*v),
            );
            match r {
                Ok(out) => want == Ok::<Seq<u8>, CodecErr>(out@),
                Err(e) => want == Err::<Seq<u8>, CodecErr>(e),
            }
        }),
{
    let fuel: usize = crate::classify::fuel_of(symtab);
    let mut out: Vec<u8> = Vec::new();
    match enc_into(ty, symtab, fuel, v, &mut out) {
        Ok(_) => {
            proof {
                assert(Seq::<u8>::empty() + out@ =~= out@);
            }
            Ok(out)
        },
        Err(e) => Err(e),
    }
}

fn enc_into(ty: &Type, symtab: &Symtab, fuel: usize, v: &XdrValue, out: &mut Vec<u8>) -> (r: Result<
    (),
    CodecErr,
>)
    requires
        symtab.wf(),
    ensures
        ({
            let want = spec_encode(
                *ty,
                symtab.consts_map(),
                symtab.typedefs_map(),
                fuel as nat,
                xview(*v),
            );
            match r {
                Ok(_) => want is Ok && final(out)@ == old(out)@ + want->Ok_0,
                Err(e) => want == Err::<Seq<u8>, CodecErr>(e) && final(out)@ == old(out)@,
            }
        }),
    decreases fuel, *ty, 0int,
{
    let ghost cm = symtab.consts_map();
    let ghost tm = symtab.typedefs_map();
    match ty {
        Type::UInt => match v {
            XdrValue::VU32(x) => {
                crate::wire::put_u32_be(out, *x);
                Ok(())
            },
            _ => Err(CodecErr::BadValue),
        },
        Type::Int => match v {
            XdrValue::VI32(x) => {
                crate::wire::put_u32_be(out, #[verifier::truncate] (*x as u32));
                Ok(())
            },
            _ => Err(CodecErr::BadValue),
        },
        Type::UHyper => match v {
            XdrValue::VU64(x) => {
                crate::wire::put_u64_be(out, *x);
                Ok(())
            },
            _ => Err(CodecErr::BadValue),
        },
        Type::Hyper => match v {
            XdrValue::VI64(x) => {
                crate::wire::put_u64_be(out, #[verifier::truncate] (*x as u64));
                Ok(())
            },
            _ => Err(CodecErr::BadValue),
        },
        Type::Bool => match v {
            XdrValue::VBool(b) => {
                crate::wire::put_u32_be(
                    out,
                    if *b {
                        1
                    } else {
                        0
                    },
                );
                Ok(())
            },
            _ => Err(CodecErr::BadValue),
        },
        Type::Enum(_) => match v {
            XdrValue::VI32(x) => {
                crate::wire::put_u32_be(out, #[verifier::truncate] (*x as u32));
                Ok(())
            },
            _ => Err(CodecErr::BadValue),
        },
        Type::Struct(decls) => match v {
            XdrValue::VStruct(fs) => enc_fields_into(decls, symtab, fuel, fs, 0, 0, out),
            _ => Err(CodecErr::BadValue),
        },
        Type::Union(_, cases, _) => match v {
            XdrValue::VUnion(d, p, def) => {
                if *def {
                    return Err(CodecErr::InvalidCase);
                }
                let ci = match find_case(symtab, cases, *d, 0) {
                    None => {
                        return Err(CodecErr::BadValue);
                    },
                    Some(ci) => ci,
                };
                match &cases[ci].1 {
                    Decl::Void => match p {
                        None => {
                            crate::wire::put_u32_be(out, #[verifier::truncate] (*d as u32));
                            Ok(())
                        },
                        Some(_) => Err(CodecErr::BadValue),
                    },
                    Decl::Named(_, cty) => match p {
                        Some(pv) => {
                            let len0: usize = out.len();
                            crate::wire::put_u32_be(out, #[verifier::truncate] (*d as u32));
                            match enc_into(cty, symtab, fuel, pv, out) {
                                Ok(_) => {
                                    proof {
                                        assert(out@ =~= old(out)@ + (spec_i32_be(*d) + spec_encode(
                                            *cty,
                                            cm,
                                            tm,
                                            fuel as nat,
                                            xview(**pv),
                                        )->Ok_0));
                                    }
                                    Ok(())
                                },
                                Err(e) => {
                                    shrink_to(out, len0);
                                    proof {
                                        assert(out@ =~= old(out)@);
                                    }
                                    Err(e)
                                },
                            }
                        },
                        None => Err(CodecErr::BadValue),
                    },
                }
            },
            _ => Err(CodecErr::BadValue),
        },
        Type::Option(t) => match v {
            XdrValue::VOpt(o) => match o {
                None => {
                    crate::wire::put_u32_be(out, 0);
                    Ok(())
                },
                Some(b) => {
                    let len0: usize = out.len();
                    crate::wire::put_u32_be(out, 1);
                    match enc_into(t, symtab, fuel, b, out) {
                        Ok(_) => {
                            proof {
                                assert(out@ =~= old(out)@ + (spec_u32_be(1) + spec_encode(
                                    **t,
                                    cm,
                                    tm,
                                    fuel as nat,
                                    xview(**b),
                                )->Ok_0));
                            }
                            Ok(())
                        },
                        Err(e) => {
                            shrink_to(out, len0);
                            proof {
                                assert(out@ =~= old(out)@);
                            }
                            Err(e)
                        },
                    }
                },
            },
            _ => Err(CodecErr::BadValue),
        },
        Type::Array(t, val) => match &**t {
            Type::String => enc_var_bytes(v, out),
            Type::Opaque => {
                let n: i64 = match symtab.value(val) {
                    None => {
                        return Err(CodecErr::Unsupported);
                    },
                    Some(n) => n,
                };
                match v {
                    XdrValue::VBytes(b) => {
                        if n >= 0 && b.len() as u64 == n as u64 {
                            let blen: usize = b.len();
                            append_bytes(out, b);
                            push_zeros(out, pad_len(blen));
                            proof {
                                assert(out@ =~= old(out)@ + (b@ + zeros(pad_of(n as int))));
                            }
                            Ok(())
                        } else {
                            Err(CodecErr::BadValue)
                        }
                    },
                    _ => Err(CodecErr::BadValue),
                }
            },
            _ => {
                let n: i64 = match symtab.value(val) {
                    None => {
                        return Err(CodecErr::Unsupported);
                    },
                    Some(n) => n,
                };
                match v {
                    XdrValue::VList(es) => {
                        if n >= 0 && es.len() as u64 == n as u64 {
                            proof {
                                lemma_xviews_index(es@, 0);
                            }
                            enc_elems_into(t, symtab, fuel, es, 0, out)
                        } else {
                            proof {
                                lemma_xviews_index(es@, 0);
                            }
                            Err(CodecErr::BadValue)
                        }
                    },
                    _ => Err(CodecErr::BadValue),
                }
            },
        },
        Type::Flex(t, _) => match &**t {
            Type::String => enc_var_bytes(v, out),
            Type::Opaque => enc_var_bytes(v, out),
            _ => match v {
                XdrValue::VList(es) => {
                    proof {
                        lemma_xviews_index(es@, 0);
                    }
                    if es.len() as u64 <= 0xffff_ffffu64 {
                        let len0: usize = out.len();
                        crate::wire::put_u32_be(out, es.len() as u32);
                        match enc_elems_into(t, symtab, fuel, es, 0, out) {
                            Ok(_) => {
                                proof {
                                    assert(out@ =~= old(out)@ + (spec_u32_be(es@.len() as u32)
                                        + spec_encode_elems(
                                        **t,
                                        cm,
                                        tm,
                                        fuel as nat,
                                        xviews(es@, 0),
                                        0,
                                    )->Ok_0));
                                }
                                Ok(())
                            },
                            Err(e) => {
                                shrink_to(out, len0);
                                proof {
                                    assert(out@ =~= old(out)@);
                                }
                                Err(e)
                            },
                        }
                    } else {
                        Err(CodecErr::BadValue)
                    }
                },
                _ => Err(CodecErr::BadValue),
            },
        },
        Type::Ident(id) => {
            if fuel == 0 {
                return Err(CodecErr::Unsupported);
            }
            match symtab.typedef(id) {
                None => Err(CodecErr::Unsupported),
                Some(t2) => enc_into(t2, symtab, fuel - 1, v, out),
            }
        },
        _ => Err(CodecErr::Unsupported),
    }
}

/// Appends a length-prefixed, zero-padded byte block.
fn enc_var_bytes(v: &XdrValue, out: &mut Vec<u8>) -> (r: Result<(), CodecErr>)
    ensures
        match r {
            Ok(_) => v matches XdrValue::VBytes(b) && b@.len() <= u32::MAX && final(out)@ == old(
                out,
            )@ + (spec_u32_be(b@.len() as u32) + b@ + zeros(pad_of(b@.len() as int))),
            Err(e) => e == CodecErr::BadValue && final(out)@ == old(out)@ && match *v {
                XdrValue::VBytes(b) => b@.len() > u32::MAX,
                _ => true,
            },
        },
{
    match v {
        XdrValue::VBytes(b) => {
            if b.len() as u64 <= 0xffff_ffffu64 {
                let blen: usize = b.len();
                crate::wire::put_u32_be(out, blen as u32);
                append_bytes(out, b);
                push_zeros(out, pad_len(blen));
                proof {
                    assert(out@ =~= old(out)@ + (spec_u32_be(b@.len() as u32) + b@ + zeros(
                        pad_of(b@.len() as int),
                    )));
                }
                Ok(())
            } else {
                Err(CodecErr::BadValue)
            }
        },
        _ => Err(CodecErr::BadValue),
    }
}

/// Appends a byte block.
fn append_bytes(out: &mut Vec<u8>, b: &Vec<u8>)
    ensures
        final(out)@ == old(out)@ + b@,
{
    let n: usize = b.len();
    let mut k: usize = 0;
    while k < n
        invariant
            k <= n,
            n == b@.len(),
            out@ == old(out)@ + b@.subrange(0, k as int),
        decreases n - k,
    {
        let x: u8 = b[k];
        out.push(x);
        k = k + 1;
        assert(out@ =~= old(out)@ + b@.subrange(0, k as int));
    }
    assert(out@ =~= old(out)@ + b@);
}

fn enc_fields_into(
    decls: &Vec<Decl>,
    symtab: &Symtab,
    fuel: usize,
    fs: &Vec<XdrValue>,
    i: usize,
    j: usize,
    out: &mut Vec<u8>,
) -> (r: Result<(), CodecErr>)
    requires
        symtab.wf(),
        i <= decls@.len(),
        j <= fs@.len(),
    ensures
        ({
            let want = spec_encode_fields(
                decls@,
                symtab.consts_map(),
                symtab.typedefs_map(),
                fuel as nat,
                xviews(fs@, 0),
                i as int,
                j as int,
            );
            match r {
                Ok(_) => want is Ok && final(out)@ == old(out)@ + want->Ok_0,
                Err(e) => want == Err::<Seq<u8>, CodecErr>(e) && final(out)@ == old(out)@,
            }
        }),
    decreases fuel, decls@, decls@.len() - i,
{
    proof {
        lemma_xviews_index(fs@, 0);
    }
    if i == decls.len() {
        if j == fs.len() {
            return Ok(());
        } else {
            return Err(CodecErr::BadValue);
        }
    }
    match &decls[i] {
        Decl::Void => enc_fields_into(decls, symtab, fuel, fs, i + 1, j, out),
        Decl::Named(_, fty) => {
            if j == fs.len() {
                return Err(CodecErr::BadValue);
            }
            let len0: usize = out.len();
            match enc_into(fty, symtab, fuel, &fs[j], out) {
                Err(e) => {
                    return Err(e);
                },
                Ok(_) => (),
            }
            match enc_fields_into(decls, symtab, fuel, fs, i + 1, j + 1, out) {
                Ok(_) => {
                    proof {
                        let cm = symtab.consts_map();
                        let tm = symtab.typedefs_map();
                        assert(out@ =~= old(out)@ + (spec_encode(
                            decls@[i as int]->Named_1,
                            cm,
                            tm,
                            fuel as nat,
                            xviews(fs@, 0)[j as int],
                        )->Ok_0 + spec_encode_fields(
                            decls@,
                            cm,
                            tm,
                            fuel as nat,
                            xviews(fs@, 0),
                            i + 1,
                            j + 1,
                        )->Ok_0));
                    }
                    Ok(())
                },
                Err(e) => {
                    shrink_to(out, len0);
                    proof {
                        assert(out@ =~= old(out)@);
                    }
                    Err(e)
                },
            }
        },
    }
}

fn enc_elems_into(
    t: &Type,
    symtab: &Symtab,
    fuel: usize,
    es: &Vec<XdrValue>,
    i: usize,
    out: &mut Vec<u8>,
) -> (r: Result<(), CodecErr>)
    requires
        symtab.wf(),
        i <= es@.len(),
    ensures
        ({
            let want = spec_encode_elems(
                *t,
                symtab.consts_map(),
                symtab.typedefs_map(),
                fuel as nat,
                xviews(es@, 0),
                i as int,
            );
            match r {
                Ok(_) => want is Ok && final(out)@ == old(out)@ + want->Ok_0,
                Err(e) => want == Err::<Seq<u8>, CodecErr>(e) && final(out)@ == old(out)@,
            }
        }),
    decreases fuel, *t, es@.len() - i + 1,
{
    proof {
        lemma_xviews_index(es@, 0);
    }
    if i == es.len() {
        return Ok(());
    }
    let len0: usize = out.len();
    match enc_into(t, symtab, fuel, &es[i], out) {
        Err(e) => {
            return Err(e);
        },
        Ok(_) => (),
    }
    match enc_elems_into(t, symtab, fuel, es, i + 1, out) {
        Ok(_) => {
            proof {
                let cm = symtab.consts_map();
                let tm = symtab.typedefs_map();
                assert(out@ =~= old(out)@ + (spec_encode(
                    *t,
                    cm,
                    tm,
                    fuel as nat,
                    xviews(es@, 0)[i as int],
                )->Ok_0 + spec_encode_elems(*t, cm, tm, fuel as nat, xviews(es@, 0), i + 1)->Ok_0));
            }
            Ok(())
        },
        Err(e) => {
            shrink_to(out, len0);
            proof {
                assert(out@ =~= old(out)@);
            }
            Err(e)
        },
    }
}

/// Copies `n` bytes starting at `pos`.
fn read_bytes(data: &Vec<u8>, pos: usize, n: usize) -> (r: Vec<u8>)
    requires
        pos + n <= data@.len(),
    ensures
        r@ == data@.subrange(pos as int, pos + n),
{
    let dlen: usize = data.len();
    let mut out: Vec<u8> = Vec::new();
    let mut k: usize = 0;
    assert(out@ =~= data@.subrange(pos as int, pos as int));
    while k < n
        invariant
            k <= n,
            dlen == data@.len(),
            pos + n <= dlen,
            out@ == data@.subrange(pos as int, pos + k),
        decreases n - k,
    {
        let x: u8 = data[pos + k];
        out.push(x);
        k = k + 1;
        assert(out@ =~= data@.subrange(pos as int, pos + k));
    }
    out
}

/// Decodes a value at a type against a symbol table, from the given
/// position of a byte buffer; yields the value and the bytes consumed.
pub fn decode_value(ty: &Type, symtab: &Symtab, data: &Vec<u8>, pos: usize) -> (r: Result<
    (XdrValue, usize),
    CodecErr,
>)
    requires
        symtab.wf(),
        pos <= data@.len(),
    ensures
        ({
            let want = spec_decode(
                *ty,
                symtab.consts_map(),
                symtab.typedefs_map(),
                crate::classify::spec_fuel(*symtab),
                data@,
                pos as int,
            );
            match r {
                Ok(p) => want == Ok::<(XdrValV, int), CodecErr>((xview(p.0), p.1 as int)) && pos
                    + p.1 <= data@.len(),
                Err(e) => want == Err::<(XdrValV, int), CodecErr>(e),
            }
        }),
{
    let fuel: usize = crate::classify::fuel_of(symtab);
    dec_val(ty, symtab, fuel, data, pos)
}

fn dec_val(ty: &Type, symtab: &Symtab, fuel: usize, data: &Vec<u8>, pos: usize) -> (r: Result<
    (XdrValue, usize),
    CodecErr,
>)
    requires
        symtab.wf(),
        pos <= data@.len(),
    ensures
        ({
            let want = spec_decode(
                *ty,
                symtab.consts_map(),
                symtab.typedefs_map(),
                fuel as nat,
                data@,
                pos as int,
            );
            match r {
                Ok(p) => want == Ok::<(XdrValV, int), CodecErr>((xview(p.0), p.1 as int)) && pos
                    + p.1 <= data@.len(),
                Err(e) => want == Err::<(XdrValV, int), CodecErr>(e),
            }
        }),
    decreases fuel, *ty, 0int,
{
    let ghost cm = symtab.consts_map();
    let ghost tm = symtab.typedefs_map();
    let len: usize = data.len();
    match ty {
        Type::UInt => {
            if len - pos < 4 {
                return Err(CodecErr::Short);
            }
            let x: u32 = crate::wire::get_u32_be(data, pos);
            Ok((XdrValue::VU32(x), 4))
        },
        Type::Int => {
            if len - pos < 4 {
                return Err(CodecErr::Short);
            }
            let x: u32 = crate::wire::get_u32_be(data, pos);
            Ok((XdrValue::VI32(#[verifier::truncate] (x as i32)), 4))
        },
        Type::UHyper => {
            if len - pos < 8 {
                return Err(CodecErr::Short);
            }
            let x: u64 = crate::wire::get_u64_be(data, pos);
            Ok((XdrValue::VU64(x), 8))
        },
        Type::Hyper => {
            if len - pos < 8 {
                return Err(CodecErr::Short);
            }
            let x: u64 = crate::wire::get_u64_be(data, pos);
            Ok((XdrValue::VI64(#[verifier::truncate] (x as i64)), 8))
        },
        Type::Bool => {
            if len - pos < 4 {
                return Err(CodecErr::Short);
            }
            let x: u32 = crate::wire::get_u32_be(data, pos);
            if x == 0 {
                Ok((XdrValue::VBool(false), 4))
            } else if x == 1 {
                Ok((XdrValue::VBool(true), 4))
            } else {
                Err(CodecErr::BadValue)
            }
        },
        Type::Enum(_) => {
            if len - pos < 4 {
                return Err(CodecErr::Short);
            }
            let x: u32 = crate::wire::get_u32_be(data, pos);
            Ok((XdrValue::VI32(#[verifier::truncate] (x as i32)), 4))
        },
        Type::Struct(decls) => match dec_fields(decls, symtab, fuel, data, pos, 0) {
            Err(e) => Err(e),
            Ok((vals, n)) => Ok((XdrValue::VStruct(vals), n)),
        },
        Type::Union(_, cases, defl) => {
            if len - pos < 4 {
                return Err(CodecErr::Short);
            }
            let w: u32 = crate::wire::get_u32_be(data, pos);
            let d: i32 = #[verifier::truncate] (w as i32);
            match find_case(symtab, cases, d, 0) {
                Some(ci) => match &cases[ci].1 {
                    Decl::Void => Ok((XdrValue::VUnion(d, None, false), 4)),
                    Decl::Named(_, cty) => match dec_val(cty, symtab, fuel, data, pos + 4) {
                        Err(e) => Err(e),
                        Ok((pv, n)) => Ok((XdrValue::VUnion(d, Some(Box::new(pv)), false), 4 + n)),
                    },
                },
                None => match defl {
                    Some(dd) => match &**dd {
                        Decl::Void => Ok((XdrValue::VUnion(d, None, true), 4)),
                        Decl::Named(_, dty) => match dec_val(dty, symtab, fuel, data, pos + 4) {
                            Err(e) => Err(e),
                            Ok((pv, n)) => Ok(
                                (XdrValue::VUnion(d, Some(Box::new(pv)), true), 4 + n),
                            ),
                        },
                    },
                    None => Err(CodecErr::InvalidCase),
                },
            }
        },
        Type::Option(t) => {
            if len - pos < 4 {
                return Err(CodecErr::Short);
            }
            let x: u32 = crate::wire::get_u32_be(data, pos);
            if x == 0 {
                Ok((XdrValue::VOpt(None), 4))
            } else if x == 1 {
                match dec_val(t, symtab, fuel, data, pos + 4) {
                    Err(e) => Err(e),
                    Ok((pv, n)) => Ok((XdrValue::VOpt(Some(Box::new(pv))), 4 + n)),
                }
            } else {
                Err(CodecErr::BadValue)
            }
        },
        Type::Array(t, val) => match &**t {
            Type::String => dec_var_bytes(data, pos),
            Type::Opaque => {
                let n64: i64 = match symtab.value(val) {
                    None => {
                        return Err(CodecErr::Unsupported);
                    },
                    Some(n) => n,
                };
                if n64 < 0 {
                    return Err(CodecErr::Unsupported);
                }
                if (n64 as u64) > (len - pos) as u64 {
                    return Err(CodecErr::Short);
                }
                let n: usize = n64 as usize;
                let pad: usize = pad_len(n);
                if (len - pos) - n < pad {
                    return Err(CodecErr::Short);
                }
                let b = read_bytes(data, pos, n);
                Ok((XdrValue::VBytes(b), n + pad))
            },
            _ => {
                let n64: i64 = match symtab.value(val) {
                    None => {
                        return Err(CodecErr::Unsupported);
                    },
                    Some(n) => n,
                };
                if n64 < 0 {
                    return Err(CodecErr::Unsupported);
                }
                match dec_elems(t, symtab, fuel, data, pos, n64 as u64) {
                    Err(e) => Err(e),
                    Ok((es, n)) => Ok((XdrValue::VList(es), n)),
                }
            },
        },
        Type::Flex(t, _) => match &**t {
            Type::String => dec_var_bytes(data, pos),
            Type::Opaque => dec_var_bytes(data, pos),
            _ => {
                if len - pos < 4 {
                    return Err(CodecErr::Short);
                }
                let w: u32 = crate::wire::get_u32_be(data, pos);
                match dec_elems(t, symtab, fuel, data, pos + 4, w as u64) {
                    Err(e) => Err(e),
                    Ok((es, n)) => Ok((XdrValue::VList(es), 4 + n)),
                }
            },
        },
        Type::Ident(id) => {
            if fuel == 0 {
                return Err(CodecErr::Unsupported);
            }
            match symtab.typedef(id) {
                None => Err(CodecErr::Unsupported),
                Some(t2) => dec_val(t2, symtab, fuel - 1, data, pos),
            }
        },
        _ => Err(CodecErr::Unsupported),
    }
}

/// Reads a length-prefixed, zero-padded byte block.
fn dec_var_bytes(data: &Vec<u8>, pos: usize) -> (r: Result<(XdrValue, usize), CodecErr>)
    requires
        pos <= data@.len(),
    ensures
        ({
            let want = spec_decode_var_bytes(data@, pos as int);
            match r {
                Ok(p) => want == Ok::<(XdrValV, int), CodecErr>((xview(p.0), p.1 as int)) && pos
                    + p.1 <= data@.len(),
                Err(e) => want == Err::<(XdrValV, int), CodecErr>(e),
            }
        }),
{
    let len: usize = data.len();
    if len - pos < 4 {
        return Err(CodecErr::Short);
    }
    let w: u32 = crate::wire::get_u32_be(data, pos);
    let rest: usize = len - (pos + 4);
    if (w as u64) > rest as u64 {
        return Err(CodecErr::Short);
    }
    let n: usize = w as usize;
    let pad: usize = pad_len(n);
    if rest - n < pad {
        return Err(CodecErr::Short);
    }
    let b = read_bytes(data, pos + 4, n);
    Ok((XdrValue::VBytes(b), 4 + n + pad))
}

fn dec_fields(
    decls: &Vec<Decl>,
    symtab: &Symtab,
    fuel: usize,
    data: &Vec<u8>,
    pos: usize,
    i: usize,
) -> (r: Result<(Vec<XdrValue>, usize), CodecErr>)
    requires
        symtab.wf(),
        pos <= data@.len(),
        i <= decls@.len(),
    ensures
        ({
            let want = spec_decode_fields(
                decls@,
                symtab.consts_map(),
                symtab.typedefs_map(),
                fuel as nat,
                data@,
                pos as int,
                i as int,
            );
            match r {
                Ok(p) => want == Ok::<(Seq<XdrValV>, int), CodecErr>(
                    (xviews(p.0@, 0), p.1 as int),
                ) && pos + p.1 <= data@.len(),
                Err(e) => want == Err::<(Seq<XdrValV>, int), CodecErr>(e),
            }
        }),
    decreases fuel, decls@, decls@.len() - i,
{
    if i == decls.len() {
        let r: Vec<XdrValue> = Vec::new();
        proof {
            assert(xviews(r@, 0) =~= Seq::<XdrValV>::empty());
        }
        return Ok((r, 0));
    }
    match &decls[i] {
        Decl::Void => dec_fields(decls, symtab, fuel, data, pos, i + 1),
        Decl::Named(_, fty) => {
            let dlen: usize = data.len();
            let (fv, n) = match dec_val(fty, symtab, fuel, data, pos) {
                Err(e) => {
                    return Err(e);
                },
                Ok(p) => p,
            };
            assert(pos + n <= dlen);
            let (mut vals, m) = match dec_fields(decls, symtab, fuel, data, pos + n, i + 1) {
                Err(e) => {
                    return Err(e);
                },
                Ok(p) => p,
            };
            let ghost restv = xviews(vals@, 0);
            let ghost oldseq = vals@;
            let ghost hvg = fv;
            vals.insert(0, fv);
            proof {
                assert(vals@ =~= seq![hvg] + oldseq);
                lemma_xviews_index(vals@, 0);
                lemma_xviews_index(oldseq, 0);
                assert forall|k: int| 0 <= k < restv.len() implies xviews(vals@, 0)[k + 1]
                    == restv[k] by {
                    assert(xviews(vals@, 0)[k + 1] == xview(vals@[k + 1]));
                    assert(vals@[k + 1] == oldseq[k]);
                    assert(restv[k] == xview(oldseq[k]));
                }
                assert(xviews(vals@, 0)[0] == xview(vals@[0]));
                assert(xviews(vals@, 0) =~= seq![xview(hvg)] + restv);
            }
            assert((pos + n) + m <= dlen);
            Ok((vals, n + m))
        },
    }
}

fn dec_elems(
    t: &Type,
    symtab: &Symtab,
    fuel: usize,
    data: &Vec<u8>,
    pos: usize,
    count: u64,
) -> (r: Result<(Vec<XdrValue>, usize), CodecErr>)
    requires
        symtab.wf(),
        pos <= data@.len(),
    ensures
        ({
            let want = spec_decode_elems(
                *t,
                symtab.consts_map(),
                symtab.typedefs_map(),
                fuel as nat,
                data@,
                pos as int,
                count as int,
            );
            match r {
                Ok(p) => want == Ok::<(Seq<XdrValV>, int), CodecErr>(
                    (xviews(p.0@, 0), p.1 as int),
                ) && pos + p.1 <= data@.len(),
                Err(e) => want == Err::<(Seq<XdrValV>, int), CodecErr>(e),
            }
        }),
    decreases fuel, *t, count + 1,
{
    if count == 0 {
        let r: Vec<XdrValue> = Vec::new();
        proof {
            assert(xviews(r@, 0) =~= Seq::<XdrValV>::empty());
        }
        return Ok((r, 0));
    }
    let dlen: usize = data.len();
    let (hv, n) = match dec_val(t, symtab, fuel, data, pos) {
        Err(e) => {
            return Err(e);
        },
        Ok(p) => p,
    };
    assert(pos + n <= dlen);
    let (mut vals, m) = match dec_elems(t, symtab, fuel, data, pos + n, count - 1) {
        Err(e) => {
            return Err(e);
        },
        Ok(p) => p,
    };
        let ghost restv = xviews(vals@, 0);
        let ghost oldseq = vals@;
        let ghost hvg = hv;
        vals.insert(0, hv);
        proof {
            assert(vals@ =~= seq![hvg] + oldseq);
            lemma_xviews_index(vals@, 0);
            lemma_xviews_index(oldseq, 0);
            assert forall|k: int| 0 <= k < restv.len() implies xviews(vals@, 0)[k + 1]
                == restv[k] by {
                assert(xviews(vals@, 0)[k + 1] == xview(vals@[k + 1]));
                assert(vals@[k + 1] == oldseq[k]);
                assert(restv[k] == xview(oldseq[k]));
            }
            assert(xviews(vals@, 0)[0] == xview(vals@[0]));
            assert(xviews(vals@, 0) =~= seq![xview(hvg)] + restv);
        }
    Ok((vals, n + m))
}

/// A slice equal to a concatenation splits at the seam.
pub proof fn lemma_split_prefix(s: Seq<u8>, pos: int, a: Seq<u8>, b: Seq<u8>)
    requires
        0 <= pos,
        pos + a.len() + b.len() <= s.len(),
        s.subrange(pos, pos + a.len() + b.len()) == a + b,
    ensures
        s.subrange(pos, pos + a.len()) =~= a,
        s.subrange(pos + a.len(), pos + a.len() + b.len()) =~= b,
{
    assert forall|k: int| 0 <= k < a.len() implies s.subrange(pos, pos + a.len())[k] == a[k] by {
        assert(s.subrange(pos, pos + a.len() + b.len())[k] == (a + b)[k]);
    }
    assert forall|k: int| 0 <= k < b.len() implies s.subrange(
        pos + a.len(),
        pos + a.len() + b.len(),
    )[k] == b[k] by {
        assert(s.subrange(pos, pos + a.len() + b.len())[a.len() + k] == (a + b)[a.len() + k]);
        assert(s.subrange(pos, pos + a.len() + b.len())[a.len() + k] == s[pos + a.len() + k]);
        assert((a + b)[a.len() + k] == b[k]);
        assert(s.subrange(pos + a.len(), pos + a.len() + b.len())[k] == s[pos + a.len() + k]);
    }
}

/// The four bytes at the seam of an encoded word read back as that word.
pub proof fn lemma_word_at(s: Seq<u8>, pos: int, x: u32)
    requires
        0 <= pos,
        pos + 4 <= s.len(),
        s.subrange(pos, pos + 4) == spec_u32_be(x),
    ensures
        word_at(s, pos) == x,
{
    assert(s[pos] == spec_u32_be(x)[0]);
    assert(s[pos + 1] == spec_u32_be(x)[1]);
    assert(s[pos + 2] == spec_u32_be(x)[2]);
    assert(s[pos + 3] == spec_u32_be(x)[3]);
    crate::wire::lemma_u32_be_round_trip(x);
}

/// Decoding reads back exactly what encoding wrote: the same value, and
/// exactly as many bytes as the encoder produced, whatever else follows in
/// the stream.
pub proof fn lemma_round_trip(
    ty: Type,
    cm: Map<Seq<char>, (i64, Option<Seq<char>>)>,
    tm: Map<Seq<char>, Type>,
    fuel: nat,
    v: XdrValV,
    s: Seq<u8>,
    pos: int,
)
    requires
        spec_encode(ty, cm, tm, fuel, v) is Ok,
        0 <= pos,
        pos + spec_encode(ty, cm, tm, fuel, v)->Ok_0.len() <= s.len(),
        s.subrange(pos, pos + spec_encode(ty, cm, tm, fuel, v)->Ok_0.len()) == spec_encode(
            ty,
            cm,
            tm,
            fuel,
            v,
        )->Ok_0,
    ensures
        spec_decode(ty, cm, tm, fuel, s, pos) == Ok::<(XdrValV, int), CodecErr>(
            (v, spec_encode(ty, cm, tm, fuel, v)->Ok_0.len() as int),
        ),
    decreases fuel, ty, 0int,
{
    let enc = spec_encode(ty, cm, tm, fuel, v)->Ok_0;
    match ty {
        Type::UInt => {
            let x = v->U32_0;
            lemma_word_at(s, pos, x);
        },
        Type::Int => {
            let x = v->I32_0;
            lemma_word_at(s, pos, x as u32);
            crate::wire::lemma_i32_bits_round_trip(x);
        },
        Type::UHyper => {
            let x = v->U64_0;
            assert(s.subrange(pos, pos + 8) == spec_u64_be(x));
            crate::wire::lemma_u64_be_round_trip(x);
        },
        Type::Hyper => {
            let x = v->I64_0;
            assert(s.subrange(pos, pos + 8) == spec_u64_be(x as u64));
            crate::wire::lemma_u64_be_round_trip(x as u64);
            crate::wire::lemma_i64_bits_round_trip(x);
        },
        Type::Bool => {
            let b = v->Bool_0;
            if b {
                lemma_word_at(s, pos, 1);
            } else {
                lemma_word_at(s, pos, 0);
            }
        },
        Type::Enum(_) => {
            let x = v->I32_0;
            lemma_word_at(s, pos, x as u32);
            crate::wire::lemma_i32_bits_round_trip(x);
        },
        Type::Struct(decls) => {
            let vs = v->Struct_0;
            lemma_round_trip_fields(decls@, cm, tm, fuel, vs, 0, 0, s, pos);
            assert(vs.skip(0) =~= vs);
        },
        Type::Union(sel, cases, defl) => {
            let d = v->Union_0;
            let p = v->Union_1;
            match spec_find_case(cm, cases@, d, 0) {
                Some(ci) => {
                    if 0 <= ci < cases@.len() {
                        match cases@[ci].1 {
                            Decl::Void => {
                                lemma_word_at(s, pos, (d as u32));
                                crate::wire::lemma_i32_bits_round_trip(d);
                            },
                            Decl::Named(_, cty) => {
                                let pv = *p->Some_0;
                                let pb = spec_encode(cty, cm, tm, fuel, pv)->Ok_0;
                                lemma_split_prefix(s, pos, spec_i32_be(d), pb);
                                lemma_word_at(s, pos, (d as u32));
                                crate::wire::lemma_i32_bits_round_trip(d);
                                lemma_round_trip(cty, cm, tm, fuel, pv, s, pos + 4);
                                assert(v == XdrValV::Union(d, Some(Box::new(pv)), false));
                            },
                        }
                    } else {
                        assert(false);
                    }
                },
                None => {
                    assert(false);
                },
            }
        },
        Type::Option(t) => {
            let o = v->Opt_0;
            match o {
                None => {
                    lemma_word_at(s, pos, 0);
                },
                Some(b) => {
                    let pb = spec_encode(*t, cm, tm, fuel, *b)->Ok_0;
                    lemma_split_prefix(s, pos, spec_u32_be(1), pb);
                    lemma_word_at(s, pos, 1);
                    lemma_round_trip(*t, cm, tm, fuel, *b, s, pos + 4);
                    assert(v == XdrValV::Opt(Some(Box::new(*b))));
                },
            }
        },
        Type::Array(t, val) => {
            match *t {
                Type::String => {
                    lemma_round_trip_var_bytes(v->Bytes_0, s, pos);
                },
                Type::Opaque => {
                    let b = v->Bytes_0;
                    let n = spec_value(cm, val)->0;
                    lemma_split_prefix(s, pos, b, zeros(pad_of(n as int)));
                    assert(v == XdrValV::Bytes(b));
                },
                _ => {
                    let es = v->List_0;
                    let n = spec_value(cm, val)->0;
                    lemma_round_trip_elems(*t, cm, tm, fuel, es, 0, s, pos);
                    assert(es.skip(0) =~= es);
                },
            }
        },
        Type::Flex(t, _) => {
            match *t {
                Type::String => {
                    lemma_round_trip_var_bytes(v->Bytes_0, s, pos);
                },
                Type::Opaque => {
                    lemma_round_trip_var_bytes(v->Bytes_0, s, pos);
                },
                _ => {
                    let es = v->List_0;
                    let body = spec_encode_elems(*t, cm, tm, fuel, es, 0)->Ok_0;
                    lemma_split_prefix(s, pos, spec_u32_be(es.len() as u32), body);
                    lemma_word_at(s, pos, es.len() as u32);
                    lemma_round_trip_elems(*t, cm, tm, fuel, es, 0, s, pos + 4);
                    assert(es.skip(0) =~= es);
                },
            }
        },
        Type::Ident(id) => {
            lemma_round_trip(tm[id@], cm, tm, (fuel - 1) as nat, v, s, pos);
        },
        _ => {},
    }
}

/// A length-prefixed byte block reads back as itself.
pub proof fn lemma_round_trip_var_bytes(b: Seq<u8>, s: Seq<u8>, pos: int)
    requires
        b.len() <= u32::MAX,
        0 <= pos,
        pos + 4 + b.len() + pad_of(b.len() as int) <= s.len(),
        s.subrange(pos, pos + 4 + b.len() + pad_of(b.len() as int)) == spec_u32_be(
            b.len() as u32,
        ) + b + zeros(pad_of(b.len() as int)),
    ensures
        spec_decode_var_bytes(s, pos) == Ok::<(XdrValV, int), CodecErr>(
            (XdrValV::Bytes(b), 4 + b.len() + pad_of(b.len() as int)),
        ),
{
    let n = b.len() as int;
    assert(spec_u32_be(b.len() as u32) + b + zeros(pad_of(n)) =~= spec_u32_be(b.len() as u32) + (b
        + zeros(pad_of(n))));
    lemma_split_prefix(s, pos, spec_u32_be(b.len() as u32), b + zeros(pad_of(n)));
    lemma_word_at(s, pos, b.len() as u32);
    lemma_split_prefix(s, pos + 4, b, zeros(pad_of(n)));
    assert(s.subrange(pos + 4, pos + 4 + n) =~= b);
}

/// Fields decode back to the encoded values, in order.
pub proof fn lemma_round_trip_fields(
    decls: Seq<Decl>,
    cm: Map<Seq<char>, (i64, Option<Seq<char>>)>,
    tm: Map<Seq<char>, Type>,
    fuel: nat,
    vs: Seq<XdrValV>,
    i: int,
    j: int,
    s: Seq<u8>,
    pos: int,
)
    requires
        spec_encode_fields(decls, cm, tm, fuel, vs, i, j) is Ok,
        0 <= pos,
        0 <= j,
        pos + spec_encode_fields(decls, cm, tm, fuel, vs, i, j)->Ok_0.len() <= s.len(),
        s.subrange(pos, pos + spec_encode_fields(decls, cm, tm, fuel, vs, i, j)->Ok_0.len())
            == spec_encode_fields(decls, cm, tm, fuel, vs, i, j)->Ok_0,
    ensures
        spec_decode_fields(decls, cm, tm, fuel, s, pos, i) == Ok::<(Seq<XdrValV>, int), CodecErr>(
            (vs.skip(j), spec_encode_fields(decls, cm, tm, fuel, vs, i, j)->Ok_0.len() as int),
        ),
    decreases fuel, decls, decls.len() - i,
{
    if i < 0 || i >= decls.len() {
        assert(vs.skip(j) =~= Seq::<XdrValV>::empty());
    } else {
        match decls[i] {
            Decl::Void => {
                lemma_round_trip_fields(decls, cm, tm, fuel, vs, i + 1, j, s, pos);
            },
            Decl::Named(_, fty) => {
                let fb = spec_encode(fty, cm, tm, fuel, vs[j])->Ok_0;
                let rb = spec_encode_fields(decls, cm, tm, fuel, vs, i + 1, j + 1)->Ok_0;
                lemma_split_prefix(s, pos, fb, rb);
                lemma_round_trip(fty, cm, tm, fuel, vs[j], s, pos);
                lemma_round_trip_fields(decls, cm, tm, fuel, vs, i + 1, j + 1, s, pos + fb.len());
                assert(seq![vs[j]] + vs.skip(j + 1) =~= vs.skip(j));
            },
        }
    }
}

/// Elements decode back to the encoded list, one decode per element.
pub proof fn lemma_round_trip_elems(
    t: Type,
    cm: Map<Seq<char>, (i64, Option<Seq<char>>)>,
    tm: Map<Seq<char>, Type>,
    fuel: nat,
    es: Seq<XdrValV>,
    i: int,
    s: Seq<u8>,
    pos: int,
)
    requires
        spec_encode_elems(t, cm, tm, fuel, es, i) is Ok,
        0 <= pos,
        0 <= i <= es.len(),
        pos + spec_encode_elems(t, cm, tm, fuel, es, i)->Ok_0.len() <= s.len(),
        s.subrange(pos, pos + spec_encode_elems(t, cm, tm, fuel, es, i)->Ok_0.len())
            == spec_encode_elems(t, cm, tm, fuel, es, i)->Ok_0,
    ensures
        spec_decode_elems(t, cm, tm, fuel, s, pos, es.len() - i) == Ok::<
            (Seq<XdrValV>, int),
            CodecErr,
        >((es.skip(i), spec_encode_elems(t, cm, tm, fuel, es, i)->Ok_0.len() as int)),
    decreases fuel, t, es.len() - i + 1,
{
    if i >= es.len() {
        assert(es.skip(i) =~= Seq::<XdrValV>::empty());
    } else {
        let hb = spec_encode(t, cm, tm, fuel, es[i])->Ok_0;
        let rb = spec_encode_elems(t, cm, tm, fuel, es, i + 1)->Ok_0;
        lemma_split_prefix(s, pos, hb, rb);
        lemma_round_trip(t, cm, tm, fuel, es[i], s, pos);
        lemma_round_trip_elems(t, cm, tm, fuel, es, i + 1, s, pos + hb.len());
        assert(seq![es[i]] + es.skip(i + 1) =~= es.skip(i));
    }
}

} // verus!
