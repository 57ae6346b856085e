use xdrgen::ast::{Const, Decl, Defn, EnumDefn, Type, Typedef, UnionCase, Value};
use xdrgen::classify::{GenErr, SizeRef, TypeTok};
use xdrgen::codegen::{Emit, Emitpack, Item, PackBody, UnpackBody, UnpackStep};
use xdrgen::generate::generate_defns;
use xdrgen::symtab::Symtab;

#[test]
fn classify_primitives_and_boxing() {
    let st = Symtab::new(vec![
        Defn::Typedef("alias".to_string(), Type::Int),
        Defn::Typedef(
            "agg".to_string(),
            Type::Struct(vec![Decl::Named("x".to_string(), Type::Int)]),
        ),
    ]);
    assert!(Type::Int.is_prim(&st));
    assert!(Type::Ident("alias".to_string()).is_prim(&st));
    assert!(!Type::Ident("agg".to_string()).is_prim(&st));
    assert!(!Type::Ident("missing".to_string()).is_prim(&st));

    assert!(!Type::Int.is_boxed(&st));
    assert!(!Type::option(Type::Int).is_boxed(&st));
    assert!(Type::Ident("agg".to_string()).is_boxed(&st));
    // An unresolvable reference conservatively needs indirection.
    assert!(Type::Ident("missing".to_string()).is_boxed(&st));
}

#[test]
fn tokens_for_common_shapes() {
    let st = Symtab::new(vec![Defn::Typedef(
        "e".to_string(),
        Type::Enum(vec![EnumDefn("SIZE".to_string(), Some(Value::Const(4)))]),
    )]);
    assert_eq!(Type::Int.as_token(&st), Ok(TypeTok::TokInt));
    assert_eq!(
        Type::array(Type::Opaque, Value::Const(8)).as_token(&st),
        Ok(TypeTok::TokOpaqueArray(SizeRef::Lit(8)))
    );
    // A named size scoped to its enumerated type is emitted qualified.
    assert_eq!(
        Type::array(Type::Opaque, Value::Ident("SIZE".to_string())).as_token(&st),
        Ok(TypeTok::TokOpaqueArray(SizeRef::Scoped(
            "e".to_string(),
            "SIZE".to_string()
        )))
    );
    assert_eq!(Type::flex(Type::Opaque, None).as_token(&st), Ok(TypeTok::TokBytes));
    assert_eq!(Type::flex(Type::String, None).as_token(&st), Ok(TypeTok::TokText));
    assert_eq!(
        Type::option(Type::UInt).as_token(&st),
        Ok(TypeTok::TokOption(Box::new(TypeTok::TokUInt)))
    );
    // A bare compound shape has no token: it was never bound to a name.
    assert_eq!(
        Type::Struct(vec![]).as_token(&st),
        Err(GenErr::UnnamedType)
    );
}

#[test]
fn enum_definition_lists_only_its_own_members() {
    let defns = vec![
        Defn::Typedef(
            "color".to_string(),
            Type::Enum(vec![
                EnumDefn("RED".to_string(), None),
                EnumDefn("GREEN".to_string(), None),
                EnumDefn("MISSING".to_string(), Some(Value::Ident("NOPE".to_string()))),
            ]),
        ),
    ];
    let st = Symtab::new(defns);
    let td = Typedef(
        "color".to_string(),
        Type::Enum(vec![
            EnumDefn("RED".to_string(), None),
            EnumDefn("GREEN".to_string(), None),
            EnumDefn("MISSING".to_string(), Some(Value::Ident("NOPE".to_string()))),
        ]),
    );
    let item = td.define(&st).unwrap();
    assert_eq!(
        item,
        Item::EnumDef(
            "color".to_string(),
            vec![("RED".to_string(), 0), ("GREEN".to_string(), 1)]
        )
    );
}

#[test]
fn struct_definition_skips_void_fields() {
    let st = Symtab::new(vec![]);
    let td = Typedef(
        "p".to_string(),
        Type::Struct(vec![
            Decl::Named("a".to_string(), Type::UInt),
            Decl::Void,
            Decl::Named("b".to_string(), Type::Bool),
        ]),
    );
    assert_eq!(
        td.define(&st).unwrap(),
        Item::StructDef(
            "p".to_string(),
            vec![
                ("a".to_string(), TypeTok::TokUInt),
                ("b".to_string(), TypeTok::TokBool)
            ]
        )
    );
}

#[test]
fn union_drops_incompatible_cases() {
    let st = Symtab::new(vec![]);
    let td = Typedef(
        "u".to_string(),
        Type::union((
            Decl::Named("sel".to_string(), Type::UInt),
            vec![
                // A negative label is incompatible with an unsigned selector.
                UnionCase(Value::Const(-1), Decl::Void),
                UnionCase(Value::Const(0), Decl::Named("x".to_string(), Type::Int)),
            ],
            None,
        )),
    );
    assert_eq!(
        td.define(&st).unwrap(),
        Item::UnionDef(
            "u".to_string(),
            vec![(Value::Const(0), Some(TypeTok::TokInt))],
            None
        )
    );
}

#[test]
fn union_boolean_selector_takes_boolean_labels() {
    let st = Symtab::new(vec![]);
    let td = Typedef(
        "u".to_string(),
        Type::union((
            Decl::Named("sel".to_string(), Type::Bool),
            vec![
                UnionCase(Value::Ident("TRUE".to_string()), Decl::Void),
                UnionCase(Value::Ident("OTHER".to_string()), Decl::Void),
            ],
            Some(Decl::Named("d".to_string(), Type::Int)),
        )),
    );
    assert_eq!(
        td.define(&st).unwrap(),
        Item::UnionDef(
            "u".to_string(),
            vec![(Value::Ident("TRUE".to_string()), None)],
            Some(Some(TypeTok::TokInt))
        )
    );
}

#[test]
fn no_codec_for_enums_aliases_and_primitives() {
    let st = Symtab::new(vec![]);
    let e = Typedef("e".to_string(), Type::Enum(vec![]));
    let a = Typedef("a".to_string(), Type::Ident("other".to_string()));
    let p = Typedef("p".to_string(), Type::UInt);
    assert_eq!(e.pack(&st).unwrap(), None);
    assert_eq!(a.pack(&st).unwrap(), None);
    assert_eq!(p.pack(&st).unwrap(), None);
    assert_eq!(e.unpack(&st).unwrap(), None);
    assert_eq!(a.unpack(&st).unwrap(), None);
    assert_eq!(p.unpack(&st).unwrap(), None);
}

#[test]
fn struct_codec_touches_fields_in_order() {
    let st = Symtab::new(vec![]);
    let td = Typedef(
        "p".to_string(),
        Type::Struct(vec![
            Decl::Named("a".to_string(), Type::UInt),
            Decl::Named("b".to_string(), Type::array(Type::UInt, Value::Const(2))),
        ]),
    );
    assert_eq!(
        td.pack(&st).unwrap(),
        Some(Item::PackImpl(
            "p".to_string(),
            PackBody::PackStruct(vec!["a".to_string(), "b".to_string()])
        ))
    );
    // A fixed-array field decodes as exactly its element count.
    assert_eq!(
        td.unpack(&st).unwrap(),
        Some(Item::UnpackImpl(
            "p".to_string(),
            UnpackBody::UnpackStruct(vec![
                ("a".to_string(), UnpackStep::StepSingle),
                ("b".to_string(), UnpackStep::StepArray(2)),
            ])
        ))
    );
}

#[test]
fn union_codec_arms_carry_discriminants() {
    let st = Symtab::new(vec![]);
    let td = Typedef(
        "u".to_string(),
        Type::union((
            Decl::Named("sel".to_string(), Type::Int),
            vec![
                UnionCase(Value::Const(4), Decl::Named("x".to_string(), Type::Int)),
                UnionCase(Value::Const(5), Decl::Void),
                UnionCase(Value::Ident("NOPE".to_string()), Decl::Void),
            ],
            Some(Decl::Void),
        )),
    );
    assert_eq!(
        td.pack(&st).unwrap(),
        Some(Item::PackImpl(
            "u".to_string(),
            PackBody::PackUnion(
                vec![
                    (Value::Const(4), 4, true),
                    (Value::Const(5), 5, false),
                ],
                Some(false)
            )
        ))
    );
}

#[test]
fn fixed_array_typedef_decoder_knows_its_count() {
    let st = Symtab::new(vec![Defn::Const("N".to_string(), 3)]);
    let td = Typedef(
        "arr".to_string(),
        Type::array(Type::UInt, Value::Ident("N".to_string())),
    );
    assert_eq!(
        td.unpack(&st).unwrap(),
        Some(Item::UnpackImpl("arr".to_string(), UnpackBody::UnpackArray(3)))
    );
    let bad = Typedef(
        "arr".to_string(),
        Type::array(Type::UInt, Value::Ident("M".to_string())),
    );
    assert_eq!(bad.unpack(&st), Err(GenErr::UnresolvedCount));
}

#[test]
fn const_definition_emits_binding() {
    let st = Symtab::new(vec![]);
    let c = Const("LIMIT".to_string(), 512);
    assert_eq!(c.define(&st).unwrap(), Item::ConstDef("LIMIT".to_string(), 512));
}

#[test]
fn generation_emits_sections_in_name_order() {
    let defns = vec![
        Defn::Typedef(
            "zz".to_string(),
            Type::Struct(vec![Decl::Named("f".to_string(), Type::UInt)]),
        ),
        Defn::Const("beta".to_string(), 2),
        Defn::Const("alpha".to_string(), 1),
        Defn::Typedef(
            "aa".to_string(),
            Type::Enum(vec![EnumDefn("ONE".to_string(), None)]),
        ),
    ];
    let (_st, items) = generate_defns(defns);
    let items = items.unwrap();
    // Top-level constants first (in name order), then declarations, then
    // the encoders and decoders; enum members are not re-emitted as
    // separate constants.
    assert_eq!(
        items,
        vec![
            Item::ConstDef("alpha".to_string(), 1),
            Item::ConstDef("beta".to_string(), 2),
            Item::EnumDef("aa".to_string(), vec![("ONE".to_string(), 0)]),
            Item::StructDef(
                "zz".to_string(),
                vec![("f".to_string(), TypeTok::TokUInt)]
            ),
            Item::PackImpl(
                "zz".to_string(),
                PackBody::PackStruct(vec!["f".to_string()])
            ),
            Item::UnpackImpl(
                "zz".to_string(),
                UnpackBody::UnpackStruct(vec![("f".to_string(), UnpackStep::StepSingle)])
            ),
        ]
    );
}

#[test]
fn union_void_default_still_declares_a_default_variant() {
    let st = Symtab::new(vec![]);
    let td = Typedef(
        "u".to_string(),
        Type::union((
            Decl::Named("sel".to_string(), Type::Int),
            vec![UnionCase(Value::Const(0), Decl::Void)],
            Some(Decl::Void),
        )),
    );
    assert_eq!(
        td.define(&st).unwrap(),
        Item::UnionDef("u".to_string(), vec![(Value::Const(0), None)], Some(None))
    );
}

#[test]
fn diagnostics_report_what_generation_drops() {
    let src = "enum e { A = MISSING, B };\nunion u switch (unsigned int s) {\n case -1:\n   void;\n case 0:\n   int x;\n};";
    let defns = xdrgen::parser::specification(src).unwrap();
    let (_st, items, diags) = xdrgen::generate::generate_with_diags(defns);
    assert!(items.is_ok());
    // The member naming an unknown constant is reported and dropped.
    assert_eq!(diags.unresolved, vec![Value::Ident("MISSING".to_string())]);
    // The negative label on an unsigned selector is reported and dropped.
    assert_eq!(diags.incompatible, vec![Value::Const(-1)]);
}

#[test]
fn clean_input_yields_no_diagnostics() {
    let defns = xdrgen::parser::specification("enum e { A, B };").unwrap();
    let (_st, items, diags) = xdrgen::generate::generate_with_diags(defns);
    assert!(items.is_ok());
    assert!(diags.unresolved.is_empty());
    assert!(diags.incompatible.is_empty());
}
