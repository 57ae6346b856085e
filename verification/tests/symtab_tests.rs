use xdrgen::ast::{Defn, EnumDefn, Type, Value};
use xdrgen::symtab::Symtab;

fn enum_type(members: Vec<(&str, Option<Value>)>) -> Type {
    Type::Enum(
        members
            .into_iter()
            .map(|(n, v)| EnumDefn(n.to_string(), v))
            .collect(),
    )
}

#[test]
fn implicit_members_count_from_zero() {
    let defns = vec![Defn::Typedef(
        "color".to_string(),
        enum_type(vec![("RED", None), ("GREEN", None), ("BLUE", None)]),
    )];
    let st = Symtab::new(defns);
    assert_eq!(
        st.getconst(&"RED".to_string()),
        Some((0, Some("color".to_string())))
    );
    assert_eq!(
        st.getconst(&"GREEN".to_string()),
        Some((1, Some("color".to_string())))
    );
    assert_eq!(
        st.getconst(&"BLUE".to_string()),
        Some((2, Some("color".to_string())))
    );
}

#[test]
fn explicit_member_resets_running_value() {
    let defns = vec![Defn::Typedef(
        "e".to_string(),
        enum_type(vec![
            ("A", None),
            ("B", Some(Value::Const(10))),
            ("C", None),
        ]),
    )];
    let st = Symtab::new(defns);
    assert_eq!(st.getconst(&"A".to_string()), Some((0, Some("e".to_string()))));
    assert_eq!(st.getconst(&"B".to_string()), Some((10, Some("e".to_string()))));
    assert_eq!(st.getconst(&"C".to_string()), Some((11, Some("e".to_string()))));
}

#[test]
fn member_value_through_earlier_constant() {
    let defns = vec![
        Defn::Const("BASE".to_string(), 7),
        Defn::Typedef(
            "e".to_string(),
            enum_type(vec![("X", Some(Value::Ident("BASE".to_string()))), ("Y", None)]),
        ),
    ];
    let st = Symtab::new(defns);
    assert_eq!(st.getconst(&"BASE".to_string()), Some((7, None)));
    assert_eq!(st.getconst(&"X".to_string()), Some((7, Some("e".to_string()))));
    assert_eq!(st.getconst(&"Y".to_string()), Some((8, Some("e".to_string()))));
}

#[test]
fn forward_reference_is_dropped() {
    let defns = vec![
        Defn::Typedef(
            "e".to_string(),
            enum_type(vec![("X", Some(Value::Ident("LATER".to_string()))), ("Y", None)]),
        ),
        Defn::Const("LATER".to_string(), 5),
    ];
    let st = Symtab::new(defns);
    // The member naming a not-yet-defined constant is dropped and does not
    // advance the running value.
    assert_eq!(st.getconst(&"X".to_string()), None);
    assert_eq!(st.getconst(&"Y".to_string()), Some((0, Some("e".to_string()))));
    assert_eq!(st.getconst(&"LATER".to_string()), Some((5, None)));
}

#[test]
fn iteration_is_lexicographic_whatever_the_source_order() {
    let a = Symtab::new(vec![
        Defn::Const("zeta".to_string(), 1),
        Defn::Const("alpha".to_string(), 2),
        Defn::Const("mid".to_string(), 3),
        Defn::Typedef("t2".to_string(), Type::Int),
        Defn::Typedef("t1".to_string(), Type::Bool),
    ]);
    let b = Symtab::new(vec![
        Defn::Typedef("t1".to_string(), Type::Bool),
        Defn::Const("mid".to_string(), 3),
        Defn::Typedef("t2".to_string(), Type::Int),
        Defn::Const("alpha".to_string(), 2),
        Defn::Const("zeta".to_string(), 1),
    ]);
    let names_a: Vec<&String> = a.constants().iter().map(|p| &p.0).collect();
    assert_eq!(names_a, vec!["alpha", "mid", "zeta"]);
    assert_eq!(a.constants(), b.constants());
    let tnames: Vec<&String> = a.typedefs().iter().map(|p| &p.0).collect();
    assert_eq!(tnames, vec!["t1", "t2"]);
    assert_eq!(a.typedefs(), b.typedefs());
}

#[test]
fn last_write_wins_on_repeated_name() {
    let st = Symtab::new(vec![
        Defn::Const("K".to_string(), 1),
        Defn::Const("K".to_string(), 9),
    ]);
    assert_eq!(st.getconst(&"K".to_string()), Some((9, None)));
    assert_eq!(st.constants().len(), 1);
}

#[test]
fn value_resolves_literals_and_names() {
    let st = Symtab::new(vec![Defn::Const("N".to_string(), 4)]);
    assert_eq!(st.value(&Value::Const(12)), Some(12));
    assert_eq!(st.value(&Value::Ident("N".to_string())), Some(4));
    assert_eq!(st.value(&Value::Ident("M".to_string())), None);
}

#[test]
fn typedef_lookup() {
    let st = Symtab::new(vec![Defn::Typedef("t".to_string(), Type::UInt)]);
    assert_eq!(st.typedef(&"t".to_string()), Some(&Type::UInt));
    assert_eq!(st.typedef(&"u".to_string()), None);
}
