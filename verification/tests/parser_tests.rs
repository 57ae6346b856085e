use xdrgen::ast::{Decl, Defn, EnumDefn, Type, UnionCase, Value};
use xdrgen::parser::specification;

#[test]
fn constants_and_aliases() {
    let src = "const LIMIT = 512;\ntypedef unsigned int counter;\n";
    let defns = specification(src).unwrap();
    assert_eq!(
        defns,
        vec![
            Defn::Const("LIMIT".to_string(), 512),
            Defn::Typedef("counter".to_string(), Type::UInt),
        ]
    );
}

#[test]
fn negative_constant() {
    let defns = specification("const OFF = -3;").unwrap();
    assert_eq!(defns, vec![Defn::Const("OFF".to_string(), -3)]);
}

#[test]
fn enum_declaration() {
    let src = "enum color { RED, GREEN = 5, BLUE };";
    let defns = specification(src).unwrap();
    assert_eq!(
        defns,
        vec![Defn::Typedef(
            "color".to_string(),
            Type::Enum(vec![
                EnumDefn("RED".to_string(), None),
                EnumDefn("GREEN".to_string(), Some(Value::Const(5))),
                EnumDefn("BLUE".to_string(), None),
            ])
        )]
    );
}

#[test]
fn struct_declaration_with_qualifiers() {
    let src = "struct blob {\n  opaque data<64>;\n  string name<>;\n  unsigned hyper stamp;\n  int fixed[4];\n  blob *next;\n};";
    let defns = specification(src).unwrap();
    assert_eq!(
        defns,
        vec![Defn::Typedef(
            "blob".to_string(),
            Type::Struct(vec![
                Decl::Named(
                    "data".to_string(),
                    Type::flex(Type::Opaque, Some(Value::Const(64)))
                ),
                Decl::Named("name".to_string(), Type::flex(Type::String, None)),
                Decl::Named("stamp".to_string(), Type::UHyper),
                Decl::Named(
                    "fixed".to_string(),
                    Type::array(Type::Int, Value::Const(4))
                ),
                Decl::Named(
                    "next".to_string(),
                    Type::option(Type::Ident("blob".to_string()))
                ),
            ])
        )]
    );
}

#[test]
fn union_declaration() {
    let src = "union reply switch (int status) {\n case 0:\n   int result;\n case 1:\n   void;\n default:\n   string message<>;\n};";
    let defns = specification(src).unwrap();
    assert_eq!(
        defns,
        vec![Defn::Typedef(
            "reply".to_string(),
            Type::union((
                Decl::Named("status".to_string(), Type::Int),
                vec![
                    UnionCase(
                        Value::Const(0),
                        Decl::Named("result".to_string(), Type::Int)
                    ),
                    UnionCase(Value::Const(1), Decl::Void),
                ],
                Some(Decl::Named(
                    "message".to_string(),
                    Type::flex(Type::String, None)
                )),
            ))
        )]
    );
}

#[test]
fn comments_are_skipped() {
    let src = "/* leading\n comment */ const A = 1; // trailing\nconst B = 2;";
    let defns = specification(src).unwrap();
    assert_eq!(
        defns,
        vec![
            Defn::Const("A".to_string(), 1),
            Defn::Const("B".to_string(), 2)
        ]
    );
}

#[test]
fn source_order_is_preserved() {
    let src = "const Z = 1; const A = 2; const M = 3;";
    let defns = specification(src).unwrap();
    let names: Vec<String> = defns
        .iter()
        .map(|d| match d {
            Defn::Const(n, _) => n.clone(),
            Defn::Typedef(n, _) => n.clone(),
        })
        .collect();
    assert_eq!(names, vec!["Z", "A", "M"]);
}

#[test]
fn malformed_text_is_rejected() {
    assert!(specification("const = 5;").is_err());
    assert!(specification("struct s { int x }").is_err());
    assert!(specification("%!").is_err());
    assert!(specification("/* unterminated").is_err());
}

#[test]
fn parse_then_generate_round() {
    let src = "enum kind { K_A, K_B };\nstruct item { unsigned int id; opaque body<>; };";
    let defns = specification(src).unwrap();
    let (st, items) = xdrgen::generate::generate_defns(defns);
    let items = items.unwrap();
    assert_eq!(st.getconst(&"K_B".to_string()), Some((1, Some("kind".to_string()))));
    assert_eq!(items.len(), 4);
}

#[test]
fn extreme_literals_fit() {
    let defns = specification("const HI = 9223372036854775807; const LO = -9223372036854775808;").unwrap();
    assert_eq!(
        defns,
        vec![
            Defn::Const("HI".to_string(), i64::MAX),
            Defn::Const("LO".to_string(), i64::MIN),
        ]
    );
}

#[test]
fn oversized_literals_are_rejected() {
    assert!(specification("const X = 9223372036854775808;").is_err());
    assert!(specification("const X = -9223372036854775809;").is_err());
    assert!(specification("const X = 18446744073709551616;").is_err());
}
