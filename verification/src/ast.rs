//! The abstract syntax of an XDR specification: values, type shapes,
//! declarations and top-level definitions.

use vstd::prelude::*;

verus! {

/// A size or case label: either a reference to a named constant or a
/// literal integer.
#[derive(Debug, PartialEq, Eq, Clone)]
pub enum Value {
    Ident(String),
    Const(i64),
}

/// Every type shape the language knows.  `Opaque` and `String` are markers
/// that only occur as the element of an `Array` or `Flex`; `Ident` refers to
/// another named type, possibly one defined outside the specification.
#[derive(Debug, PartialEq, Eq)]
pub enum Type {
    UInt,
    Int,
    UHyper,
    Hyper,
    Float,
    Double,
    Quadruple,
    Bool,
    Opaque,
    String,
    Enum(Vec<EnumDefn>),
    Struct(Vec<Decl>),
    Union(Box<Decl>, Vec<UnionCase>, Option<Box<Decl>>),
    Option(Box<Type>),
    Array(Box<Type>, Value),
    Flex(Box<Type>, Option<Value>),
    Ident(String),
}

/// One member of an enumerated type: a name and an optional explicit value.
#[derive(Debug, PartialEq, Eq, Clone)]
pub struct EnumDefn(pub String, pub Option<Value>);

/// One arm of a discriminated union: a case label and the arm's declaration.
#[derive(Debug, PartialEq, Eq)]
pub struct UnionCase(pub Value, pub Decl);

/// A declaration: void (no payload) or a named field of some type.
#[derive(Debug, PartialEq, Eq)]
pub enum Decl {
    Void,
    Named(String, Type),
}

/// A named type definition.
#[derive(Debug, PartialEq, Eq)]
pub struct Typedef(pub String, pub Type);

/// A named constant definition.
#[derive(Debug, PartialEq, Eq, Clone)]
pub struct Const(pub String, pub i64);

/// A top-level definition as the parser produces it.
#[derive(Debug, PartialEq, Eq)]
pub enum Defn {
    Typedef(String, Type),
    Const(String, i64),
}

impl Type {
    /// Builds a fixed-size array type.
    pub fn array(ty: Type, sz: Value) -> (r: Type)
        ensures
            r == Type::Array(Box::new(ty), sz),
    {
        Type::Array(Box::new(ty), sz)
    }

    /// Builds a variable-length sequence type with an optional bound.
    pub fn flex(ty: Type, sz: Option<Value>) -> (r: Type)
        ensures
            r == Type::Flex(Box::new(ty), sz),
    {
        Type::Flex(Box::new(ty), sz)
    }

    /// Builds an optional (presence-tagged) type.
    pub fn option(ty: Type) -> (r: Type)
        ensures
            r == Type::Option(Box::new(ty)),
    {
        Type::Option(Box::new(ty))
    }

    /// Builds a discriminated union from a selector declaration, its case
    /// arms and an optional default arm.
    pub fn union(parts: (Decl, Vec<UnionCase>, Option<Decl>)) -> (r: Type)
        ensures
            ({
                let (d, c, dfl) = parts;
                r == Type::Union(Box::new(d), c, match dfl {
                    Some(x) => Some(Box::new(x)),
                    None => None,
                })
            }),
    {
        let (d, c, dfl) = parts;
        Type::Union(Box::new(d), c, match dfl {
            Some(x) => Some(Box::new(x)),
            None => None,
        })
    }
}

/// The view of a value: a name as a character sequence, or the literal.
pub enum ValueV {
    Ident(Seq<char>),
    Lit(i64),
}

/// The abstract shape of a value.
pub open spec fn value_view(v: Value) -> ValueV {
    match v {
        Value::Ident(id) => ValueV::Ident(id@),
        Value::Const(c) => ValueV::Lit(c),
    }
}

/// The shapes of a value list, from position `i` on.
pub open spec fn value_views(s: Seq<Value>, i: int) -> Seq<ValueV>
    decreases s.len() - i,
{
    if i < 0 || i >= s.len() {
        Seq::empty()
    } else {
        seq![value_view(s[i])] + value_views(s, i + 1)
    }
}

/// Copies a value.
pub fn value_clone(v: &Value) -> (r: Value)
    ensures
        value_view(r) == value_view(*v),
{
    match v {
        Value::Ident(id) => Value::Ident(id.clone()),
        Value::Const(c) => Value::Const(*c),
    }
}

/// Each position of the view sequence is the view at that position.
pub proof fn lemma_value_views_index(s: Seq<Value>, i: int)
    requires
        0 <= i <= s.len(),
    ensures
        value_views(s, i).len() == s.len() - i,
        forall|k: int| i <= k < s.len() ==> value_views(s, i)[k - i] == value_view(#[trigger] s[k]),
    decreases s.len() - i,
{
    if i < s.len() {
        lemma_value_views_index(s, i + 1);
    }
}

/// Appending one value appends its view.
pub proof fn lemma_value_views_push(s: Seq<Value>, x: Value)
    ensures
        value_views(s.push(x), 0) == value_views(s, 0).push(value_view(x)),
{
    lemma_value_views_index(s.push(x), 0);
    lemma_value_views_index(s, 0);
    assert forall|k: int| 0 <= k < s.len() implies value_views(s.push(x), 0)[k] == value_views(
        s,
        0,
    )[k] by {
        assert(value_views(s.push(x), 0)[k] == value_view(s.push(x)[k]));
        assert(s.push(x)[k] == s[k]);
    }
    assert(value_views(s.push(x), 0)[s.len() as int] == value_view(s.push(x)[s.len() as int]));
    assert(value_views(s.push(x), 0) =~= value_views(s, 0).push(value_view(x)));
}

} // verus!
