use xdrgen::ast::{Decl, Defn, Type, UnionCase, Value};
use xdrgen::codec::{decode_value, encode_value, CodecErr, XdrValue};
use xdrgen::symtab::Symtab;

fn empty_symtab() -> Symtab {
    Symtab::new(vec![])
}

fn round_trip(ty: &Type, st: &Symtab, v: &XdrValue) {
    let bytes = encode_value(ty, st, v).expect("encoding should succeed");
    let (back, used) = decode_value(ty, st, &bytes, 0).expect("decoding should succeed");
    assert_eq!(&back, v);
    assert_eq!(used, bytes.len());
}

#[test]
fn scalar_round_trips() {
    let st = empty_symtab();
    round_trip(&Type::UInt, &st, &XdrValue::VU32(0xdead_beef));
    round_trip(&Type::Int, &st, &XdrValue::VI32(-7));
    round_trip(&Type::UHyper, &st, &XdrValue::VU64(0x0102_0304_0506_0708));
    round_trip(&Type::Hyper, &st, &XdrValue::VI64(-1234567890123));
    round_trip(&Type::Bool, &st, &XdrValue::VBool(true));
    round_trip(&Type::Bool, &st, &XdrValue::VBool(false));
}

#[test]
fn uint_wire_form_is_big_endian() {
    let st = empty_symtab();
    let bytes = encode_value(&Type::UInt, &st, &XdrValue::VU32(0x01020304)).unwrap();
    assert_eq!(bytes, vec![1, 2, 3, 4]);
}

#[test]
fn struct_round_trip_and_byte_count() {
    let st = empty_symtab();
    let ty = Type::Struct(vec![
        Decl::Named("a".to_string(), Type::UInt),
        Decl::Void,
        Decl::Named("b".to_string(), Type::Hyper),
    ]);
    let v = XdrValue::VStruct(vec![XdrValue::VU32(5), XdrValue::VI64(-2)]);
    let bytes = encode_value(&ty, &st, &v).unwrap();
    // The struct's bytes are the fields' bytes laid end to end: 4 + 8.
    let a = encode_value(&Type::UInt, &st, &XdrValue::VU32(5)).unwrap();
    let b = encode_value(&Type::Hyper, &st, &XdrValue::VI64(-2)).unwrap();
    let mut cat = a.clone();
    cat.extend(b.iter());
    assert_eq!(bytes, cat);
    assert_eq!(bytes.len(), a.len() + b.len());
    round_trip(&ty, &st, &v);
}

#[test]
fn fixed_array_has_no_length_on_the_wire() {
    let st = empty_symtab();
    let ty = Type::array(Type::UInt, Value::Const(3));
    let v = XdrValue::VList(vec![
        XdrValue::VU32(1),
        XdrValue::VU32(2),
        XdrValue::VU32(3),
    ]);
    let bytes = encode_value(&ty, &st, &v).unwrap();
    assert_eq!(bytes.len(), 12);
    assert_eq!(bytes, vec![0, 0, 0, 1, 0, 0, 0, 2, 0, 0, 0, 3]);
    // Decoding consumes exactly three elements, whatever follows.
    let mut longer = bytes.clone();
    longer.extend(vec![9, 9, 9, 9]);
    let (back, used) = decode_value(&ty, &st, &longer, 0).unwrap();
    assert_eq!(back, v);
    assert_eq!(used, 12);
}

#[test]
fn fixed_array_rejects_wrong_count() {
    let st = empty_symtab();
    let ty = Type::array(Type::UInt, Value::Const(3));
    let v = XdrValue::VList(vec![XdrValue::VU32(1)]);
    assert_eq!(encode_value(&ty, &st, &v), Err(CodecErr::BadValue));
}

#[test]
fn flex_is_length_prefixed() {
    let st = empty_symtab();
    let ty = Type::flex(Type::UInt, None);
    let v = XdrValue::VList(vec![XdrValue::VU32(7), XdrValue::VU32(8)]);
    let bytes = encode_value(&ty, &st, &v).unwrap();
    assert_eq!(bytes, vec![0, 0, 0, 2, 0, 0, 0, 7, 0, 0, 0, 8]);
    round_trip(&ty, &st, &v);
}

#[test]
fn variable_opaque_pads_to_four() {
    let st = empty_symtab();
    let ty = Type::flex(Type::Opaque, None);
    let v = XdrValue::VBytes(vec![0xaa, 0xbb, 0xcc, 0xdd, 0xee]);
    let bytes = encode_value(&ty, &st, &v).unwrap();
    assert_eq!(
        bytes,
        vec![0, 0, 0, 5, 0xaa, 0xbb, 0xcc, 0xdd, 0xee, 0, 0, 0]
    );
    round_trip(&ty, &st, &v);
}

#[test]
fn fixed_opaque_carries_no_length() {
    let st = empty_symtab();
    let ty = Type::array(Type::Opaque, Value::Const(3));
    let v = XdrValue::VBytes(vec![1, 2, 3]);
    let bytes = encode_value(&ty, &st, &v).unwrap();
    assert_eq!(bytes, vec![1, 2, 3, 0]);
    round_trip(&ty, &st, &v);
}

#[test]
fn string_round_trip() {
    let st = empty_symtab();
    let ty = Type::flex(Type::String, None);
    let v = XdrValue::VBytes(b"hello".to_vec());
    let bytes = encode_value(&ty, &st, &v).unwrap();
    assert_eq!(bytes, vec![0, 0, 0, 5, 104, 101, 108, 108, 111, 0, 0, 0]);
    round_trip(&ty, &st, &v);
}

#[test]
fn option_round_trips() {
    let st = empty_symtab();
    let ty = Type::option(Type::UInt);
    round_trip(&ty, &st, &XdrValue::VOpt(None));
    round_trip(
        &ty,
        &st,
        &XdrValue::VOpt(Some(Box::new(XdrValue::VU32(3)))),
    );
}

fn sample_union(with_default: bool) -> Type {
    Type::union((
        Decl::Named("sel".to_string(), Type::Int),
        vec![
            UnionCase(Value::Const(0), Decl::Named("x".to_string(), Type::UInt)),
            UnionCase(Value::Const(1), Decl::Void),
        ],
        if with_default {
            Some(Decl::Named("other".to_string(), Type::Int))
        } else {
            None
        },
    ))
}

#[test]
fn union_round_trips() {
    let st = empty_symtab();
    let ty = sample_union(false);
    round_trip(
        &ty,
        &st,
        &XdrValue::VUnion(0, Some(Box::new(XdrValue::VU32(9))), false),
    );
    round_trip(&ty, &st, &XdrValue::VUnion(1, None, false));
}

#[test]
fn union_default_variant_never_encodes() {
    let st = empty_symtab();
    let ty = sample_union(true);
    let v = XdrValue::VUnion(7, Some(Box::new(XdrValue::VI32(1))), true);
    assert_eq!(encode_value(&ty, &st, &v), Err(CodecErr::InvalidCase));
    let void_default = XdrValue::VUnion(7, None, true);
    assert_eq!(
        encode_value(&ty, &st, &void_default),
        Err(CodecErr::InvalidCase)
    );
}

#[test]
fn union_unmatched_discriminant_uses_default() {
    let st = empty_symtab();
    let ty = sample_union(true);
    // Discriminant 9 matches no case; the default arm decodes an Int.
    let wire = vec![0, 0, 0, 9, 0, 0, 0, 42];
    let (v, used) = decode_value(&ty, &st, &wire, 0).unwrap();
    assert_eq!(used, 8);
    assert_eq!(
        v,
        XdrValue::VUnion(9, Some(Box::new(XdrValue::VI32(42))), true)
    );
}

#[test]
fn union_unmatched_discriminant_without_default_fails() {
    let st = empty_symtab();
    let ty = sample_union(false);
    let wire = vec![0, 0, 0, 9];
    assert_eq!(decode_value(&ty, &st, &wire, 0), Err(CodecErr::InvalidCase));
}

#[test]
fn named_type_resolves_through_the_table() {
    let st = Symtab::new(vec![Defn::Typedef("count".to_string(), Type::UInt)]);
    let ty = Type::Ident("count".to_string());
    round_trip(&ty, &st, &XdrValue::VU32(11));
}

#[test]
fn unresolved_name_is_unsupported() {
    let st = empty_symtab();
    let ty = Type::Ident("nowhere".to_string());
    assert_eq!(
        encode_value(&ty, &st, &XdrValue::VU32(1)),
        Err(CodecErr::Unsupported)
    );
}

#[test]
fn short_input_is_reported() {
    let st = empty_symtab();
    let wire = vec![0, 0];
    assert_eq!(decode_value(&Type::UInt, &st, &wire, 0), Err(CodecErr::Short));
}

#[test]
fn bad_bool_on_the_wire_is_rejected() {
    let st = empty_symtab();
    let wire = vec![0, 0, 0, 2];
    assert_eq!(
        decode_value(&Type::Bool, &st, &wire, 0),
        Err(CodecErr::BadValue)
    );
}

#[test]
fn mismatched_value_is_rejected() {
    let st = empty_symtab();
    assert_eq!(
        encode_value(&Type::UInt, &st, &XdrValue::VBool(true)),
        Err(CodecErr::BadValue)
    );
}

#[test]
fn nested_composite_round_trip() {
    let st = Symtab::new(vec![Defn::Typedef(
        "pair".to_string(),
        Type::Struct(vec![
            Decl::Named("lo".to_string(), Type::UInt),
            Decl::Named("hi".to_string(), Type::UInt),
        ]),
    )]);
    let ty = Type::flex(Type::Ident("pair".to_string()), None);
    let v = XdrValue::VList(vec![
        XdrValue::VStruct(vec![XdrValue::VU32(1), XdrValue::VU32(2)]),
        XdrValue::VStruct(vec![XdrValue::VU32(3), XdrValue::VU32(4)]),
    ]);
    round_trip(&ty, &st, &v);
}

#[test]
fn parsed_types_round_trip() {
    let src = "const N = 2;\nstruct point { int x; int y; };\nstruct path { point pts[N]; string label<>; };";
    let defns = xdrgen::parser::specification(src).unwrap();
    let st = Symtab::new(defns);
    let ty = Type::Ident("path".to_string());
    let v = XdrValue::VStruct(vec![
        XdrValue::VList(vec![
            XdrValue::VStruct(vec![XdrValue::VI32(1), XdrValue::VI32(-2)]),
            XdrValue::VStruct(vec![XdrValue::VI32(3), XdrValue::VI32(4)]),
        ]),
        XdrValue::VBytes(b"diag".to_vec()),
    ]);
    round_trip(&ty, &st, &v);
}
