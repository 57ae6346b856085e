//! The type classifier: primitiveness, the boxing (indirection) analysis,
//! and the mapping from a type expression to its target-language
//! declaration token.
//!
//! Classification resolves named types through the symbol table.  The
//! resolution depth is bounded by the number of type definitions plus one;
//! a reference chain longer than that can only be cyclic, and a cycle
//! conservatively classifies as non-primitive and boxed.

use vstd::prelude::*;
use crate::ast::{Value, Type, Decl};
use crate::symtab::Symtab;

verus! {

/// Whether a type maps directly to a scalar wire representation.
pub open spec fn spec_is_prim(ty: Type, tm: Map<Seq<char>, Type>, fuel: nat) -> bool
    decreases fuel,
{
    match ty {
        Type::Int => true,
        Type::UInt => true,
        Type::Hyper => true,
        Type::UHyper => true,
        Type::Float => true,
        Type::Double => true,
        Type::Quadruple => true,
        Type::Bool => true,
        Type::Ident(id) => if fuel > 0 && tm.contains_key(id@) {
            spec_is_prim(tm[id@], tm, (fuel - 1) as nat)
        } else {
            false
        },
        _ => false,
    }
}

/// Whether a reference to the type must stand behind an owning
/// indirection.  Arrays, sequences and optionals already carry their own
/// indirection; every other compound shape is boxed, and an unresolvable
/// name conservatively so.
pub open spec fn spec_is_boxed(ty: Type, tm: Map<Seq<char>, Type>, fuel: nat) -> bool
    decreases fuel,
{
    if spec_is_prim(ty, tm, fuel) {
        false
    } else {
        match ty {
            Type::Array(_, _) => false,
            Type::Flex(_, _) => false,
            Type::Option(_) => false,
            Type::Ident(id) => if fuel > 0 && tm.contains_key(id@) {
                spec_is_boxed(tm[id@], tm, (fuel - 1) as nat)
            } else {
                true
            },
            _ => true,
        }
    }
}

/// The resolution depth the classifier grants a symbol table: one more
/// than the number of type definitions, so that only a cyclic reference
/// chain can exhaust it.
pub open spec fn spec_fuel(st: Symtab) -> nat {
    if st.typedefs@.len() < usize::MAX {
        st.typedefs@.len() + 1
    } else {
        st.typedefs@.len()
    }
}

/// The resolution depth as a machine word.
pub fn fuel_of(symtab: &Symtab) -> (r: usize)
    ensures
        r as nat == spec_fuel(*symtab),
{
    let n: usize = symtab.typedefs().len();
    if n < usize::MAX {
        n + 1
    } else {
        n
    }
}

impl Type {
    /// True when the type maps directly to a scalar wire representation;
    /// a named type is as primitive as its referent.
    pub fn is_prim(&self, symtab: &Symtab) -> (r: bool)
        requires
            symtab.wf(),
        ensures
            r == spec_is_prim(*self, symtab.typedefs_map(), spec_fuel(*symtab)),
    {
        let fuel: usize = fuel_of(symtab);
        is_prim_fuel(self, symtab, fuel)
    }

    /// True when a reference to the type needs an owning indirection to
    /// stay representable.
    pub fn is_boxed(&self, symtab: &Symtab) -> (r: bool)
        requires
            symtab.wf(),
        ensures
            r == spec_is_boxed(*self, symtab.typedefs_map(), spec_fuel(*symtab)),
    {
        let fuel: usize = fuel_of(symtab);
        is_boxed_fuel(self, symtab, fuel)
    }
}

fn is_prim_fuel(ty: &Type, symtab: &Symtab, fuel: usize) -> (r: bool)
    requires
        symtab.wf(),
    ensures
        r == spec_is_prim(*ty, symtab.typedefs_map(), fuel as nat),
    decreases fuel,
{
    match ty {
        Type::Int => true,
        Type::UInt => true,
        Type::Hyper => true,
        Type::UHyper => true,
        Type::Float => true,
        Type::Double => true,
        Type::Quadruple => true,
        Type::Bool => true,
        Type::Ident(id) => {
            if fuel == 0 {
                return false;
            }
            match symtab.typedef(id) {
                None => false,
                Some(t) => is_prim_fuel(t, symtab, fuel - 1),
            }
        },
        _ => false,
    }
}

fn is_boxed_fuel(ty: &Type, symtab: &Symtab, fuel: usize) -> (r: bool)
    requires
        symtab.wf(),
    ensures
        r == spec_is_boxed(*ty, symtab.typedefs_map(), fuel as nat),
    decreases fuel,
{
    if is_prim_fuel(ty, symtab, fuel) {
        return false;
    }
    match ty {
        Type::Array(_, _) => false,
        Type::Flex(_, _) => false,
        Type::Option(_) => false,
        Type::Ident(id) => {
            if fuel == 0 {
                return true;
            }
            match symtab.typedef(id) {
                None => true,
                Some(t) => is_boxed_fuel(t, symtab, fuel - 1),
            }
        },
        _ => true,
    }
}

/// How a size bound is written in a declaration: a literal, a plain named
/// constant, or a constant qualified by the enumerated type that owns it.
#[derive(Debug, PartialEq, Eq)]
pub enum SizeRef {
    Lit(i64),
    Named(String),
    Scoped(String, String),
}

/// The view of a size reference, with names as character sequences.
pub enum SizeRefV {
    Lit(i64),
    Named(Seq<char>),
    Scoped(Seq<char>, Seq<char>),
}

impl SizeRef {
    /// The abstract shape of the reference.
    pub open spec fn view(self) -> SizeRefV {
        match self {
            SizeRef::Lit(c) => SizeRefV::Lit(c),
            SizeRef::Named(n) => SizeRefV::Named(n@),
            SizeRef::Scoped(sc, n) => SizeRefV::Scoped(sc@, n@),
        }
    }
}

/// The declaration token a type expression maps to.
#[derive(Debug, PartialEq, Eq)]
pub enum TypeTok {
    TokInt,
    TokUInt,
    TokHyper,
    TokUHyper,
    TokFloat,
    TokDouble,
    TokQuadruple,
    TokBool,
    TokText,
    TokOpaqueArray(SizeRef),
    TokBytes,
    TokArray(Box<TypeTok>, SizeRef),
    TokVec(Box<TypeTok>),
    TokOption(Box<TypeTok>),
    TokOptionBoxed(Box<TypeTok>),
    TokBoxed(Box<TypeTok>),
    TokNamed(String),
}

/// The view of a declaration token.
pub enum TypeTokV {
    TokInt,
    TokUInt,
    TokHyper,
    TokUHyper,
    TokFloat,
    TokDouble,
    TokQuadruple,
    TokBool,
    TokText,
    TokOpaqueArray(SizeRefV),
    TokBytes,
    TokArray(Box<TypeTokV>, SizeRefV),
    TokVec(Box<TypeTokV>),
    TokOption(Box<TypeTokV>),
    TokOptionBoxed(Box<TypeTokV>),
    TokBoxed(Box<TypeTokV>),
    TokNamed(Seq<char>),
}

impl TypeTok {
    /// The abstract shape of the token.
    pub open spec fn view(self) -> TypeTokV
        decreases self,
    {
        match self {
            TypeTok::TokInt => TypeTokV::TokInt,
            TypeTok::TokUInt => TypeTokV::TokUInt,
            TypeTok::TokHyper => TypeTokV::TokHyper,
            TypeTok::TokUHyper => TypeTokV::TokUHyper,
            TypeTok::TokFloat => TypeTokV::TokFloat,
            TypeTok::TokDouble => TypeTokV::TokDouble,
            TypeTok::TokQuadruple => TypeTokV::TokQuadruple,
            TypeTok::TokBool => TypeTokV::TokBool,
            TypeTok::TokText => TypeTokV::TokText,
            TypeTok::TokOpaqueArray(s) => TypeTokV::TokOpaqueArray(s.view()),
            TypeTok::TokBytes => TypeTokV::TokBytes,
            TypeTok::TokArray(t, s) => TypeTokV::TokArray(Box::new(t.view()), s.view()),
            TypeTok::TokVec(t) => TypeTokV::TokVec(Box::new(t.view())),
            TypeTok::TokOption(t) => TypeTokV::TokOption(Box::new(t.view())),
            TypeTok::TokOptionBoxed(t) => TypeTokV::TokOptionBoxed(Box::new(t.view())),
            TypeTok::TokBoxed(t) => TypeTokV::TokBoxed(Box::new(t.view())),
            TypeTok::TokNamed(n) => TypeTokV::TokNamed(n@),
        }
    }
}

/// A generation failure: the intermediate structure was malformed.
#[derive(Debug, PartialEq, Eq, Clone, Copy)]
pub enum GenErr {
    /// A compound type stands where only a named reference may: it was
    /// never bound to a typedef name, so no declaration can refer to it.
    UnnamedType,
    /// A fixed-array element count did not resolve to a constant.
    UnresolvedCount,
}

/// How a size value is written: a literal as itself; a named constant
/// qualified by its owning scope if it has one.
pub open spec fn spec_size_ref(cm: Map<Seq<char>, (i64, Option<Seq<char>>)>, v: Value) -> SizeRefV {
    match v {
        Value::Const(c) => SizeRefV::Lit(c),
        Value::Ident(id) => if cm.contains_key(id@) && cm[id@].1 is Some {
            SizeRefV::Scoped(cm[id@].1->0, id@)
        } else {
            SizeRefV::Named(id@)
        },
    }
}

/// The declaration token a type maps to, or the failure for a compound
/// shape that was never bound to a name.
pub open spec fn spec_as_token(
    ty: Type,
    cm: Map<Seq<char>, (i64, Option<Seq<char>>)>,
    tm: Map<Seq<char>, Type>,
    fuel: nat,
) -> Result<TypeTokV, GenErr>
    decreases ty,
{
    match ty {
        Type::Int => Ok(TypeTokV::TokInt),
        Type::UInt => Ok(TypeTokV::TokUInt),
        Type::Hyper => Ok(TypeTokV::TokHyper),
        Type::UHyper => Ok(TypeTokV::TokUHyper),
        Type::Float => Ok(TypeTokV::TokFloat),
        Type::Double => Ok(TypeTokV::TokDouble),
        Type::Quadruple => Ok(TypeTokV::TokQuadruple),
        Type::Bool => Ok(TypeTokV::TokBool),
        Type::Option(t) => match spec_as_token(*t, cm, tm, fuel) {
            Err(e) => Err(e),
            Ok(tok) => if spec_is_boxed(*t, tm, fuel) {
                Ok(TypeTokV::TokOptionBoxed(Box::new(tok)))
            } else {
                Ok(TypeTokV::TokOption(Box::new(tok)))
            },
        },
        Type::Array(t, val) => match *t {
            Type::String => Ok(TypeTokV::TokText),
            Type::Opaque => Ok(TypeTokV::TokOpaqueArray(spec_size_ref(cm, val))),
            _ => match spec_as_token(*t, cm, tm, fuel) {
                Err(e) => Err(e),
                Ok(tok) => Ok(TypeTokV::TokArray(Box::new(tok), spec_size_ref(cm, val))),
            },
        },
        Type::Flex(t, _) => match *t {
            Type::String => Ok(TypeTokV::TokText),
            Type::Opaque => Ok(TypeTokV::TokBytes),
            _ => match spec_as_token(*t, cm, tm, fuel) {
                Err(e) => Err(e),
                Ok(tok) => Ok(TypeTokV::TokVec(Box::new(tok))),
            },
        },
        Type::Ident(name) => Ok(TypeTokV::TokNamed(name@)),
        _ => Err(GenErr::UnnamedType),
    }
}

impl Type {
    /// Maps the type to its declaration token.  A bare compound shape in a
    /// position that needs a reference is a malformed intermediate
    /// structure and aborts generation with an error.
    pub fn as_token(&self, symtab: &Symtab) -> (r: Result<TypeTok, GenErr>)
        requires
            symtab.wf(),
        ensures
            match r {
                Ok(tok) => spec_as_token(
                    *self,
                    symtab.consts_map(),
                    symtab.typedefs_map(),
                    spec_fuel(*symtab),
                ) == Ok::<TypeTokV, GenErr>(tok.view()),
                Err(e) => spec_as_token(
                    *self,
                    symtab.consts_map(),
                    symtab.typedefs_map(),
                    spec_fuel(*symtab),
                ) == Err::<TypeTokV, GenErr>(e),
            },
        decreases *self,
    {
        match self {
            Type::Int => Ok(TypeTok::TokInt),
            Type::UInt => Ok(TypeTok::TokUInt),
            Type::Hyper => Ok(TypeTok::TokHyper),
            Type::UHyper => Ok(TypeTok::TokUHyper),
            Type::Float => Ok(TypeTok::TokFloat),
            Type::Double => Ok(TypeTok::TokDouble),
            Type::Quadruple => Ok(TypeTok::TokQuadruple),
            Type::Bool => Ok(TypeTok::TokBool),
            Type::Option(t) => match t.as_token(symtab) {
                Err(e) => Err(e),
                Ok(tok) => if t.is_boxed(symtab) {
                    Ok(TypeTok::TokOptionBoxed(Box::new(tok)))
                } else {
                    Ok(TypeTok::TokOption(Box::new(tok)))
                },
            },
            Type::Array(t, val) => match &**t {
                Type::String => Ok(TypeTok::TokText),
                Type::Opaque => Ok(TypeTok::TokOpaqueArray(size_ref(symtab, val))),
                _ => match t.as_token(symtab) {
                    Err(e) => Err(e),
                    Ok(tok) => Ok(TypeTok::TokArray(Box::new(tok), size_ref(symtab, val))),
                },
            },
            Type::Flex(t, _) => match &**t {
                Type::String => Ok(TypeTok::TokText),
                Type::Opaque => Ok(TypeTok::TokBytes),
                _ => match t.as_token(symtab) {
                    Err(e) => Err(e),
                    Ok(tok) => Ok(TypeTok::TokVec(Box::new(tok))),
                },
            },
            Type::Ident(name) => Ok(TypeTok::TokNamed(name.clone())),
            _ => Err(GenErr::UnnamedType),
        }
    }
}

/// Writes a size value as it will stand in a declaration.
fn size_ref(symtab: &Symtab, val: &Value) -> (r: SizeRef)
    requires
        symtab.wf(),
    ensures
        r.view() == spec_size_ref(symtab.consts_map(), *val),
{
    match val {
        Value::Const(c) => SizeRef::Lit(*c),
        Value::Ident(id) => match symtab.getconst(id) {
            Some((_, Some(scope))) => SizeRef::Scoped(scope, id.clone()),
            _ => SizeRef::Named(id.clone()),
        },
    }
}

impl Decl {
    /// The field a declaration contributes: nothing for void, a name and
    /// token pair otherwise.
    pub fn as_token(&self, symtab: &Symtab) -> (r: Result<Option<(String, TypeTok)>, GenErr>)
        requires
            symtab.wf(),
        ensures
            match *self {
                Decl::Void => r == Ok::<Option<(String, TypeTok)>, GenErr>(None),
                Decl::Named(name, ty) => match r {
                    Ok(opt) => match opt {
                        Some(p) => p.0@ == name@ && spec_as_token(
                            ty,
                            symtab.consts_map(),
                            symtab.typedefs_map(),
                            spec_fuel(*symtab),
                        ) == Ok::<TypeTokV, GenErr>(p.1.view()),
                        None => false,
                    },
                    Err(e) => spec_as_token(
                        ty,
                        symtab.consts_map(),
                        symtab.typedefs_map(),
                        spec_fuel(*symtab),
                    ) == Err::<TypeTokV, GenErr>(e),
                },
            },
    {
        match self {
            Decl::Void => Ok(None),
            Decl::Named(name, ty) => match ty.as_token(symtab) {
                Err(e) => Err(e),
                Ok(tok) => Ok(Some((name.clone(), tok))),
            },
        }
    }
}

impl Value {
    /// Resolves the value through the symbol table: a literal as itself,
    /// an identifier through the constants.
    pub fn as_i64(&self, symtab: &Symtab) -> (r: Option<i64>)
        requires
            symtab.wf(),
        ensures
            r == crate::symtab::spec_value(symtab.consts_map(), *self),
    {
        symtab.value(self)
    }
}

} // verus!
