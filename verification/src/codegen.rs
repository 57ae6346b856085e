//! The code generator: for every definition an emitted declaration and,
//! for composite non-alias types, an encoder and a decoder body, all as a
//! neutral intermediate representation that a target-language printer can
//! render.

use vstd::prelude::*;
use crate::ast::{Value, ValueV, value_view, value_clone, Type, EnumDefn, UnionCase, Decl, Typedef,
    Const};
use crate::classify::{TypeTok, TypeTokV, GenErr, spec_as_token, spec_is_boxed, spec_fuel};
use crate::symtab::{Symtab, spec_value};

verus! {

/// How one declared field is decoded: as one wire value, or as a fixed
/// count of sequential element decodes.
#[derive(Debug, PartialEq, Eq, Clone, Copy)]
pub enum UnpackStep {
    StepSingle,
    StepArray(i64),
}

/// The body of an emitted encoder.
#[derive(Debug, PartialEq, Eq)]
pub enum PackBody {
    /// Encode each named field in declared order; the result is the sum of
    /// the bytes each field wrote.
    PackStruct(Vec<String>),
    /// Dispatch on the live variant: each arm writes its 32-bit
    /// discriminant, then its payload if it carries one.  The default arm,
    /// if present, always fails.
    PackUnion(Vec<(Value, i32, bool)>, Option<bool>),
    /// The wire shape is uniform: delegate to the generic encoder.
    PackDelegate,
}

/// The view of an encoder body.
pub enum PackBodyV {
    PackStruct(Seq<Seq<char>>),
    PackUnion(Seq<(ValueV, i32, bool)>, Option<bool>),
    PackDelegate,
}

/// The body of an emitted decoder.
#[derive(Debug, PartialEq, Eq)]
pub enum UnpackBody {
    /// Decode each named field in declared order.
    UnpackStruct(Vec<(String, UnpackStep)>),
    /// Decode the discriminant, then dispatch to the matching arm; with no
    /// match, decode the default payload if an arm exists, else fail.
    UnpackUnion(Vec<(Value, i32, bool)>, Option<bool>),
    /// Exactly this many sequential element decodes, no length prefix.
    UnpackArray(i64),
    /// Delegate to the generic decoder.
    UnpackDelegate,
}

/// The view of a decoder body.
pub enum UnpackBodyV {
    UnpackStruct(Seq<(Seq<char>, UnpackStep)>),
    UnpackUnion(Seq<(ValueV, i32, bool)>, Option<bool>),
    UnpackArray(i64),
    UnpackDelegate,
}

/// One emitted item.
#[derive(Debug, PartialEq, Eq)]
pub enum Item {
    /// A constant binding.
    ConstDef(String, i64),
    /// An enumerated type with its resolved members.
    EnumDef(String, Vec<(String, i64)>),
    /// An aggregate with one field per non-void declaration.
    StructDef(String, Vec<(String, TypeTok)>),
    /// A discriminated type: one variant per compatible case, and an
    /// optional default variant, itself with an optional payload.
    UnionDef(String, Vec<(Value, Option<TypeTok>)>, Option<Option<TypeTok>>),
    /// A direct alias of a declaration token.
    AliasDef(String, TypeTok),
    /// An encoder for the named type.
    PackImpl(String, PackBody),
    /// A decoder for the named type.
    UnpackImpl(String, UnpackBody),
}

/// The view of an emitted item.
pub enum ItemV {
    ConstDef(Seq<char>, i64),
    EnumDef(Seq<char>, Seq<(Seq<char>, i64)>),
    StructDef(Seq<char>, Seq<(Seq<char>, TypeTokV)>),
    UnionDef(Seq<char>, Seq<(ValueV, Option<TypeTokV>)>, Option<Option<TypeTokV>>),
    AliasDef(Seq<char>, TypeTokV),
    PackImpl(Seq<char>, PackBodyV),
    UnpackImpl(Seq<char>, UnpackBodyV),
}

impl PackBody {
    /// The abstract shape of the body.
    pub open spec fn view(self) -> PackBodyV {
        match self {
            PackBody::PackStruct(fields) => PackBodyV::PackStruct(
                Seq::new(fields@.len(), |i: int| fields@[i]@),
            ),
            PackBody::PackUnion(arms, dfl) => PackBodyV::PackUnion(
                Seq::new(arms@.len(), |i: int| (value_view(arms@[i].0), arms@[i].1, arms@[i].2)),
                dfl,
            ),
            PackBody::PackDelegate => PackBodyV::PackDelegate,
        }
    }
}

impl UnpackBody {
    /// The abstract shape of the body.
    pub open spec fn view(self) -> UnpackBodyV {
        match self {
            UnpackBody::UnpackStruct(fields) => UnpackBodyV::UnpackStruct(
                Seq::new(fields@.len(), |i: int| (fields@[i].0@, fields@[i].1)),
            ),
            UnpackBody::UnpackUnion(arms, dfl) => UnpackBodyV::UnpackUnion(
                Seq::new(arms@.len(), |i: int| (value_view(arms@[i].0), arms@[i].1, arms@[i].2)),
                dfl,
            ),
            UnpackBody::UnpackArray(n) => UnpackBodyV::UnpackArray(n),
            UnpackBody::UnpackDelegate => UnpackBodyV::UnpackDelegate,
        }
    }
}

impl Item {
    /// The abstract shape of the item.
    pub open spec fn view(self) -> ItemV {
        match self {
            Item::ConstDef(n, v) => ItemV::ConstDef(n@, v),
            Item::EnumDef(n, ms) => ItemV::EnumDef(
                n@,
                Seq::new(ms@.len(), |i: int| (ms@[i].0@, ms@[i].1)),
            ),
            Item::StructDef(n, fs) => ItemV::StructDef(
                n@,
                Seq::new(fs@.len(), |i: int| (fs@[i].0@, fs@[i].1.view())),
            ),
            Item::UnionDef(n, arms, dfl) => ItemV::UnionDef(
                n@,
                Seq::new(
                    arms@.len(),
                    |i: int|
                        (
                            value_view(arms@[i].0),
                            match arms@[i].1 {
                                Some(t) => Some(t.view()),
                                None => None,
                            },
                        ),
                ),
                match dfl {
                    Some(Some(t)) => Some(Some(t.view())),
                    Some(None) => Some(None),
                    None => None,
                },
            ),
            Item::AliasDef(n, t) => ItemV::AliasDef(n@, t.view()),
            Item::PackImpl(n, b) => ItemV::PackImpl(n@, b.view()),
            Item::UnpackImpl(n, b) => ItemV::UnpackImpl(n@, b.view()),
        }
    }
}

/// Whether a case label is compatible with a union's selector: a negative
/// literal needs a signed selector; a non-negative literal any integer
/// selector; an identifier needs a boolean selector and the boolean
/// literals, or an enumerated selector owning the named constant.
pub open spec fn spec_compat_case(
    cm: Map<Seq<char>, (i64, Option<Seq<char>>)>,
    selector: Decl,
    label: Value,
) -> bool {
    match selector {
        Decl::Void => false,
        Decl::Named(_, seltype) => match label {
            Value::Const(val) => if val < 0 {
                seltype is Int || seltype is Hyper
            } else {
                seltype is Int || seltype is Hyper || seltype is UInt || seltype is UHyper
            },
            Value::Ident(id) => if seltype is Bool {
                id@ == "TRUE"@ || id@ == "FALSE"@
            } else {
                match seltype {
                    Type::Ident(selname) => cm.contains_key(id@) && match cm[id@].1 {
                        Some(scope) => scope == selname@,
                        None => false,
                    },
                    _ => false,
                }
            },
        },
    }
}

/// The members an enumerated declaration carries: those whose resolved
/// constant is scoped to this very type.
pub open spec fn spec_enum_members(
    cm: Map<Seq<char>, (i64, Option<Seq<char>>)>,
    name: Seq<char>,
    edefs: Seq<EnumDefn>,
) -> Seq<(Seq<char>, i64)>
    decreases edefs.len(),
{
    if edefs.len() == 0 {
        Seq::empty()
    } else {
        let field = edefs[0].0;
        let rest = spec_enum_members(cm, name, edefs.drop_first());
        if cm.contains_key(field@) && match cm[field@].1 {
            Some(scope) => scope == name,
            None => false,
        } {
            seq![(field@, cm[field@].0)] + rest
        } else {
            rest
        }
    }
}

/// The fields an aggregate declaration carries: one per non-void
/// declaration, in order; a field whose type has no token aborts.
pub open spec fn spec_struct_fields(
    cm: Map<Seq<char>, (i64, Option<Seq<char>>)>,
    tm: Map<Seq<char>, Type>,
    fuel: nat,
    decls: Seq<Decl>,
) -> Result<Seq<(Seq<char>, TypeTokV)>, GenErr>
    decreases decls.len(),
{
    if decls.len() == 0 {
        Ok(Seq::empty())
    } else {
        match decls[0] {
            Decl::Void => spec_struct_fields(cm, tm, fuel, decls.drop_first()),
            Decl::Named(fname, fty) => match spec_as_token(fty, cm, tm, fuel) {
                Err(e) => Err(e),
                Ok(tok) => match spec_struct_fields(cm, tm, fuel, decls.drop_first()) {
                    Err(e) => Err(e),
                    Ok(rest) => Ok(seq![(fname@, tok)] + rest),
                },
            },
        }
    }
}

/// The variants a discriminated declaration carries: one per compatible
/// case, incompatible cases dropped; a boxed payload stands behind an
/// owning indirection.
pub open spec fn spec_union_arms(
    cm: Map<Seq<char>, (i64, Option<Seq<char>>)>,
    tm: Map<Seq<char>, Type>,
    fuel: nat,
    selector: Decl,
    cases: Seq<UnionCase>,
) -> Result<Seq<(ValueV, Option<TypeTokV>)>, GenErr>
    decreases cases.len(),
{
    if cases.len() == 0 {
        Ok(Seq::empty())
    } else {
        let UnionCase(label, decl) = cases[0];
        match spec_union_arms(cm, tm, fuel, selector, cases.drop_first()) {
            Err(e) => Err(e),
            Ok(rest) => if !spec_compat_case(cm, selector, label) {
                Ok(rest)
            } else {
                match decl {
                    Decl::Void => Ok(seq![(value_view(label), Option::<TypeTokV>::None)] + rest),
                    Decl::Named(_, ty) => match spec_as_token(ty, cm, tm, fuel) {
                        Err(e) => Err(e),
                        Ok(tok) => {
                            let wrapped = if spec_is_boxed(ty, tm, fuel) {
                                TypeTokV::TokBoxed(Box::new(tok))
                            } else {
                                tok
                            };
                            Ok(seq![(value_view(label), Some(wrapped))] + rest)
                        },
                    },
                }
            },
        }
    }
}

/// The declaration a typedef emits, chosen by shape.
pub open spec fn spec_define(
    cm: Map<Seq<char>, (i64, Option<Seq<char>>)>,
    tm: Map<Seq<char>, Type>,
    fuel: nat,
    name: Seq<char>,
    ty: Type,
) -> Result<ItemV, GenErr> {
    match ty {
        Type::Enum(edefs) => Ok(ItemV::EnumDef(name, spec_enum_members(cm, name, edefs@))),
        Type::Struct(decls) => match spec_struct_fields(cm, tm, fuel, decls@) {
            Err(e) => Err(e),
            Ok(fields) => Ok(ItemV::StructDef(name, fields)),
        },
        Type::Union(selector, cases, defl) => match spec_union_arms(
            cm,
            tm,
            fuel,
            *selector,
            cases@,
        ) {
            Err(e) => Err(e),
            Ok(arms) => match defl {
                Some(d) => match *d {
                    Decl::Named(_, dty) => match spec_as_token(dty, cm, tm, fuel) {
                        Err(e) => Err(e),
                        Ok(tok) => Ok(ItemV::UnionDef(
                            name,
                            arms,
                            Some(
                                Some(
                                    if spec_is_boxed(dty, tm, fuel) {
                                        TypeTokV::TokBoxed(Box::new(tok))
                                    } else {
                                        tok
                                    },
                                ),
                            ),
                        )),
                    },
                    // A declared default arm always yields a default
                    // variant, payload-less when its declaration is void.
                    Decl::Void => Ok(ItemV::UnionDef(name, arms, Some(None))),
                },
                None => Ok(ItemV::UnionDef(name, arms, None)),
            },
        },
        _ => match spec_as_token(ty, cm, tm, fuel) {
            Err(e) => Err(e),
            Ok(tok) => Ok(ItemV::AliasDef(name, tok)),
        },
    }
}

/// A resolved case value as the emitted 32-bit discriminant.
pub open spec fn spec_to_i32(x: i64) -> i32 {
    x as i32
}

/// The encoder arms of a discriminated type: one per case whose label
/// resolves, with its discriminant and whether it carries a payload.
pub open spec fn spec_codec_arms(
    cm: Map<Seq<char>, (i64, Option<Seq<char>>)>,
    cases: Seq<UnionCase>,
) -> Seq<(ValueV, i32, bool)>
    decreases cases.len(),
{
    if cases.len() == 0 {
        Seq::empty()
    } else {
        let UnionCase(label, decl) = cases[0];
        let rest = spec_codec_arms(cm, cases.drop_first());
        match spec_value(cm, label) {
            None => rest,
            Some(v64) => seq![(value_view(label), spec_to_i32(v64), decl is Named)] + rest,
        }
    }
}

/// The field names an aggregate's encoder touches, in declared order.
pub open spec fn spec_pack_fields(
    cm: Map<Seq<char>, (i64, Option<Seq<char>>)>,
    tm: Map<Seq<char>, Type>,
    fuel: nat,
    decls: Seq<Decl>,
) -> Result<Seq<Seq<char>>, GenErr>
    decreases decls.len(),
{
    if decls.len() == 0 {
        Ok(Seq::empty())
    } else {
        match decls[0] {
            Decl::Void => spec_pack_fields(cm, tm, fuel, decls.drop_first()),
            Decl::Named(fname, fty) => match spec_as_token(fty, cm, tm, fuel) {
                Err(e) => Err(e),
                Ok(_) => match spec_pack_fields(cm, tm, fuel, decls.drop_first()) {
                    Err(e) => Err(e),
                    Ok(rest) => Ok(seq![fname@] + rest),
                },
            },
        }
    }
}

/// How one declared field is decoded: a fixed array as exactly its
/// element count of decodes, anything else as one wire value.
pub open spec fn spec_unpack_step(
    cm: Map<Seq<char>, (i64, Option<Seq<char>>)>,
    fty: Type,
) -> Result<UnpackStep, GenErr> {
    match fty {
        Type::Array(_, val) => match spec_value(cm, val) {
            None => Err(GenErr::UnresolvedCount),
            Some(n) => Ok(UnpackStep::StepArray(n)),
        },
        _ => Ok(UnpackStep::StepSingle),
    }
}

/// The fields an aggregate's decoder fills, in declared order.
pub open spec fn spec_unpack_fields(
    cm: Map<Seq<char>, (i64, Option<Seq<char>>)>,
    tm: Map<Seq<char>, Type>,
    fuel: nat,
    decls: Seq<Decl>,
) -> Result<Seq<(Seq<char>, UnpackStep)>, GenErr>
    decreases decls.len(),
{
    if decls.len() == 0 {
        Ok(Seq::empty())
    } else {
        match decls[0] {
            Decl::Void => spec_unpack_fields(cm, tm, fuel, decls.drop_first()),
            Decl::Named(fname, fty) => match spec_as_token(fty, cm, tm, fuel) {
                Err(e) => Err(e),
                Ok(_) => match spec_unpack_step(cm, fty) {
                    Err(e) => Err(e),
                    Ok(step) => match spec_unpack_fields(cm, tm, fuel, decls.drop_first()) {
                        Err(e) => Err(e),
                        Ok(rest) => Ok(seq![(fname@, step)] + rest),
                    },
                },
            },
        }
    }
}

/// The encoder a typedef emits: none for enumerated types, plain aliases
/// and primitives, which rely on the external primitive capability.
pub open spec fn spec_pack(
    cm: Map<Seq<char>, (i64, Option<Seq<char>>)>,
    tm: Map<Seq<char>, Type>,
    fuel: nat,
    ty: Type,
) -> Result<Option<PackBodyV>, GenErr> {
    match ty {
        Type::Struct(decls) => match spec_pack_fields(cm, tm, fuel, decls@) {
            Err(e) => Err(e),
            Ok(fields) => Ok(Some(PackBodyV::PackStruct(fields))),
        },
        Type::Union(_, cases, defl) => Ok(
            Some(
                PackBodyV::PackUnion(
                    spec_codec_arms(cm, cases@),
                    match defl {
                        Some(d) => Some(*d is Named),
                        None => None,
                    },
                ),
            ),
        ),
        Type::Flex(_, _) => Ok(Some(PackBodyV::PackDelegate)),
        Type::Option(_) => Ok(Some(PackBodyV::PackDelegate)),
        Type::Array(_, _) => Ok(Some(PackBodyV::PackDelegate)),
        Type::Opaque => Err(GenErr::UnnamedType),
        Type::String => Err(GenErr::UnnamedType),
        _ => Ok(None),
    }
}

/// The decoder a typedef emits, with the same exclusions as the encoder.
pub open spec fn spec_unpack(
    cm: Map<Seq<char>, (i64, Option<Seq<char>>)>,
    tm: Map<Seq<char>, Type>,
    fuel: nat,
    ty: Type,
) -> Result<Option<UnpackBodyV>, GenErr> {
    match ty {
        Type::Struct(decls) => match spec_unpack_fields(cm, tm, fuel, decls@) {
            Err(e) => Err(e),
            Ok(fields) => Ok(Some(UnpackBodyV::UnpackStruct(fields))),
        },
        Type::Union(_, cases, defl) => Ok(
            Some(
                UnpackBodyV::UnpackUnion(
                    spec_codec_arms(cm, cases@),
                    match defl {
                        Some(d) => Some(*d is Named),
                        None => None,
                    },
                ),
            ),
        ),
        Type::Flex(_, _) => Ok(Some(UnpackBodyV::UnpackDelegate)),
        Type::Option(_) => Ok(Some(UnpackBodyV::UnpackDelegate)),
        Type::Array(_, val) => match spec_value(cm, val) {
            None => Err(GenErr::UnresolvedCount),
            Some(n) => Ok(Some(UnpackBodyV::UnpackArray(n))),
        },
        Type::Opaque => Err(GenErr::UnnamedType),
        Type::String => Err(GenErr::UnnamedType),
        _ => Ok(None),
    }
}

/// The case labels a discriminated declaration drops: those incompatible
/// with the selector, in declaration order.
pub open spec fn spec_incompat_labels(
    cm: Map<Seq<char>, (i64, Option<Seq<char>>)>,
    selector: Decl,
    cases: Seq<UnionCase>,
) -> Seq<ValueV>
    decreases cases.len(),
{
    if cases.len() == 0 {
        Seq::empty()
    } else {
        let rest = spec_incompat_labels(cm, selector, cases.drop_first());
        if !spec_compat_case(cm, selector, cases[0].0) {
            seq![value_view(cases[0].0)] + rest
        } else {
            rest
        }
    }
}

/// The case labels one type drops: a union's incompatible labels, nothing
/// for any other shape.
pub open spec fn spec_type_incompat(
    cm: Map<Seq<char>, (i64, Option<Seq<char>>)>,
    ty: Type,
) -> Seq<ValueV> {
    match ty {
        Type::Union(selector, cases, _) => spec_incompat_labels(cm, *selector, cases@),
        _ => Seq::empty(),
    }
}

fn incompat_labels_from(symtab: &Symtab, selector: &Decl, cases: &Vec<UnionCase>, i: usize) -> (r:
    Vec<Value>)
    requires
        symtab.wf(),
        i <= cases@.len(),
    ensures
        crate::ast::value_views(r@, 0) == spec_incompat_labels(
            symtab.consts_map(),
            *selector,
            cases@.skip(i as int),
        ),
    decreases cases@.len() - i,
{
    let ghost tail = cases@.skip(i as int);
    if i == cases.len() {
        let r: Vec<Value> = Vec::new();
        proof {
            assert(crate::ast::value_views(r@, 0) =~= Seq::<ValueV>::empty());
        }
        return r;
    }
    assert(tail[0] == cases@[i as int]);
    assert(tail.drop_first() =~= cases@.skip(i + 1));
    let UnionCase(label, _) = &cases[i];
    let mut rest = incompat_labels_from(symtab, selector, cases, i + 1);
    if !compat_case(symtab, selector, label) {
        let ghost restseq = rest@;
        let cloned = value_clone(label);
        let ghost cv = value_view(cloned);
        rest.insert(0, cloned);
        proof {
            crate::ast::lemma_value_views_index(rest@, 0);
            crate::ast::lemma_value_views_index(restseq, 0);
            assert forall|k: int| 0 <= k < restseq.len() implies crate::ast::value_views(
                rest@,
                0,
            )[k + 1] == crate::ast::value_views(restseq, 0)[k] by {
                assert(crate::ast::value_views(rest@, 0)[k + 1] == value_view(rest@[k + 1]));
                assert(rest@[k + 1] == restseq[k]);
            }
            assert(crate::ast::value_views(rest@, 0)[0] == value_view(rest@[0]));
            assert(crate::ast::value_views(rest@, 0) =~= seq![cv] + crate::ast::value_views(
                restseq,
                0,
            ));
        }
    }
    rest
}

/// The case labels a type drops as incompatible with its selector,
/// against a built symbol table.
pub fn type_incompat_diags(ty: &Type, symtab: &Symtab) -> (r: Vec<Value>)
    requires
        symtab.wf(),
    ensures
        crate::ast::value_views(r@, 0) == spec_type_incompat(symtab.consts_map(), *ty),
{
    match ty {
        Type::Union(selector, cases, _) => {
            assert(cases@.skip(0) =~= cases@);
            incompat_labels_from(symtab, selector, cases, 0)
        },
        _ => {
            let r: Vec<Value> = Vec::new();
            proof {
                assert(crate::ast::value_views(r@, 0) =~= Seq::<ValueV>::empty());
            }
            r
        },
    }
}

/// Whether a case label is compatible with the selector.
fn compat_case(symtab: &Symtab, selector: &Decl, label: &Value) -> (r: bool)
    requires
        symtab.wf(),
    ensures
        r == spec_compat_case(symtab.consts_map(), *selector, *label),
{
    let seltype: &Type = match selector {
        Decl::Void => {
            return false;
        },
        Decl::Named(_, ty) => ty,
    };
    match label {
        Value::Const(val) => {
            if *val < 0 {
                matches!(seltype, Type::Int | Type::Hyper)
            } else {
                matches!(seltype, Type::Int | Type::Hyper | Type::UInt | Type::UHyper)
            }
        },
        Value::Ident(id) => {
            if matches!(seltype, Type::Bool) {
                *id == String::from_str("TRUE") || *id == String::from_str("FALSE")
            } else {
                if let Type::Ident(selname) = seltype {
                    match symtab.getconst(id) {
                        Some((_, Some(scope))) => scope == *selname,
                        _ => false,
                    }
                } else {
                    false
                }
            }
        },
    }
}

fn enum_members_from(symtab: &Symtab, name: &String, edefs: &Vec<EnumDefn>, i: usize) -> (r: Vec<
    (String, i64),
>)
    requires
        symtab.wf(),
        i <= edefs@.len(),
    ensures
        Seq::new(r@.len(), |j: int| (r@[j].0@, r@[j].1)) == spec_enum_members(
            symtab.consts_map(),
            name@,
            edefs@.skip(i as int),
        ),
    decreases edefs@.len() - i,
{
    let ghost tail = edefs@.skip(i as int);
    if i == edefs.len() {
        let r: Vec<(String, i64)> = Vec::new();
        proof {
            assert(Seq::new(0, |j: int| (r@[j].0@, r@[j].1)) =~= Seq::<(Seq<char>, i64)>::empty());
        }
        return r;
    }
    assert(tail[0] == edefs@[i as int]);
    assert(tail.drop_first() =~= edefs@.skip(i + 1));
    let field: &String = &edefs[i].0;
    let mut rest = enum_members_from(symtab, name, edefs, i + 1);
    let keep: Option<i64> = match symtab.getconst(field) {
        Some((val, Some(scope))) => if scope == *name {
            Some(val)
        } else {
            None
        },
        _ => None,
    };
    match keep {
        Some(val) => {
            rest.insert(0, (field.clone(), val));
            proof {
                assert(Seq::new(rest@.len(), |j: int| (rest@[j].0@, rest@[j].1)) =~= seq![
                    (field@, val),
                ] + spec_enum_members(symtab.consts_map(), name@, tail.drop_first()));
            }
            rest
        },
        None => rest,
    }
}

fn struct_fields_from(symtab: &Symtab, decls: &Vec<Decl>, i: usize) -> (r: Result<
    Vec<(String, TypeTok)>,
    GenErr,
>)
    requires
        symtab.wf(),
        i <= decls@.len(),
    ensures
        ({
            let want = spec_struct_fields(
                symtab.consts_map(),
                symtab.typedefs_map(),
                spec_fuel(*symtab),
                decls@.skip(i as int),
            );
            match r {
                Ok(fields) => want == Ok::<Seq<(Seq<char>, TypeTokV)>, GenErr>(
                    Seq::new(fields@.len(), |j: int| (fields@[j].0@, fields@[j].1.view())),
                ),
                Err(e) => want == Err::<Seq<(Seq<char>, TypeTokV)>, GenErr>(e),
            }
        }),
    decreases decls@.len() - i,
{
    let ghost tail = decls@.skip(i as int);
    if i == decls.len() {
        let r: Vec<(String, TypeTok)> = Vec::new();
        proof {
            assert(Seq::new(0, |j: int| (r@[j].0@, r@[j].1.view())) =~= Seq::<
                (Seq<char>, TypeTokV),
            >::empty());
        }
        return Ok(r);
    }
    assert(tail[0] == decls@[i as int]);
    assert(tail.drop_first() =~= decls@.skip(i + 1));
    match &decls[i] {
        Decl::Void => struct_fields_from(symtab, decls, i + 1),
        Decl::Named(fname, fty) => {
            let tok = match fty.as_token(symtab) {
                Err(e) => {
                    return Err(e);
                },
                Ok(t) => t,
            };
            let mut rest = match struct_fields_from(symtab, decls, i + 1) {
                Err(e) => {
                    return Err(e);
                },
                Ok(v) => v,
            };
            let ghost restv = Seq::new(rest@.len(), |j: int| (rest@[j].0@, rest@[j].1.view()));
            rest.insert(0, (fname.clone(), tok));
            proof {
                assert(Seq::new(rest@.len(), |j: int| (rest@[j].0@, rest@[j].1.view())) =~= seq![
                    (fname@, tok.view()),
                ] + restv);
            }
            Ok(rest)
        },
    }
}

fn union_arms_from(symtab: &Symtab, selector: &Decl, cases: &Vec<UnionCase>, i: usize) -> (r:
    Result<Vec<(Value, Option<TypeTok>)>, GenErr>)
    requires
        symtab.wf(),
        i <= cases@.len(),
    ensures
        ({
            let want = spec_union_arms(
                symtab.consts_map(),
                symtab.typedefs_map(),
                spec_fuel(*symtab),
                *selector,
                cases@.skip(i as int),
            );
            match r {
                Ok(arms) => want == Ok::<Seq<(ValueV, Option<TypeTokV>)>, GenErr>(
                    Seq::new(
                        arms@.len(),
                        |j: int|
                            (
                                value_view(arms@[j].0),
                                match arms@[j].1 {
                                    Some(t) => Some(t.view()),
                                    None => None,
                                },
                            ),
                    ),
                ),
                Err(e) => want == Err::<Seq<(ValueV, Option<TypeTokV>)>, GenErr>(e),
            }
        }),
    decreases cases@.len() - i,
{
    let ghost tail = cases@.skip(i as int);
    if i == cases.len() {
        let r: Vec<(Value, Option<TypeTok>)> = Vec::new();
        proof {
            assert(Seq::new(
                0,
                |j: int|
                    (
                        value_view(r@[j].0),
                        match r@[j].1 {
                            Some(t) => Some(t.view()),
                            None => None,
                        },
                    ),
            ) =~= Seq::<(ValueV, Option<TypeTokV>)>::empty());
        }
        return Ok(r);
    }
    assert(tail[0] == cases@[i as int]);
    assert(tail.drop_first() =~= cases@.skip(i + 1));
    let UnionCase(label, decl) = &cases[i];
    let mut rest = match union_arms_from(symtab, selector, cases, i + 1) {
        Err(e) => {
            return Err(e);
        },
        Ok(v) => v,
    };
    if !compat_case(symtab, selector, label) {
        // An incompatible case is dropped from the declaration; the run
        // goes on with a best-effort type.
        return Ok(rest);
    }
    let ghost restv = Seq::new(
        rest@.len(),
        |j: int|
            (
                value_view(rest@[j].0),
                match rest@[j].1 {
                    Some(t) => Some(t.view()),
                    None => None,
                },
            ),
    );
    match decl {
        Decl::Void => {
            rest.insert(0, (value_clone(label), None));
            proof {
                assert(Seq::new(
                    rest@.len(),
                    |j: int|
                        (
                            value_view(rest@[j].0),
                            match rest@[j].1 {
                                Some(t) => Some(t.view()),
                                None => None,
                            },
                        ),
                ) =~= seq![(value_view(*label), Option::<TypeTokV>::None)] + restv);
            }
            Ok(rest)
        },
        Decl::Named(_, ty) => {
            let tok = match ty.as_token(symtab) {
                Err(e) => {
                    return Err(e);
                },
                Ok(t) => t,
            };
            let wrapped = if ty.is_boxed(symtab) {
                TypeTok::TokBoxed(Box::new(tok))
            } else {
                tok
            };
            rest.insert(0, (value_clone(label), Some(wrapped)));
            proof {
                assert(Seq::new(
                    rest@.len(),
                    |j: int|
                        (
                            value_view(rest@[j].0),
                            match rest@[j].1 {
                                Some(t) => Some(t.view()),
                                None => None,
                            },
                        ),
                ) =~= seq![
                    (
                        value_view(*label),
                        Some(
                            if spec_is_boxed(
                                *ty,
                                symtab.typedefs_map(),
                                spec_fuel(*symtab),
                            ) {
                                TypeTokV::TokBoxed(
                                    Box::new(
                                        spec_as_token(
                                            *ty,
                                            symtab.consts_map(),
                                            symtab.typedefs_map(),
                                            spec_fuel(*symtab),
                                        )->Ok_0,
                                    ),
                                )
                            } else {
                                spec_as_token(
                                    *ty,
                                    symtab.consts_map(),
                                    symtab.typedefs_map(),
                                    spec_fuel(*symtab),
                                )->Ok_0
                            },
                        ),
                    ),
                ] + restv);
            }
            Ok(rest)
        },
    }
}

fn codec_arms_from(symtab: &Symtab, cases: &Vec<UnionCase>, i: usize) -> (r: Vec<(Value, i32, bool)>)
    requires
        symtab.wf(),
        i <= cases@.len(),
    ensures
        Seq::new(r@.len(), |j: int| (value_view(r@[j].0), r@[j].1, r@[j].2)) == spec_codec_arms(
            symtab.consts_map(),
            cases@.skip(i as int),
        ),
    decreases cases@.len() - i,
{
    let ghost tail = cases@.skip(i as int);
    if i == cases.len() {
        let r: Vec<(Value, i32, bool)> = Vec::new();
        proof {
            assert(Seq::new(0, |j: int| (value_view(r@[j].0), r@[j].1, r@[j].2)) =~= Seq::<
                (ValueV, i32, bool),
            >::empty());
        }
        return r;
    }
    assert(tail[0] == cases@[i as int]);
    assert(tail.drop_first() =~= cases@.skip(i + 1));
    let UnionCase(label, decl) = &cases[i];
    let mut rest = codec_arms_from(symtab, cases, i + 1);
    match symtab.value(label) {
        None => rest,
        Some(v64) => {
            let ghost restv = Seq::new(
                rest@.len(),
                |j: int| (value_view(rest@[j].0), rest@[j].1, rest@[j].2),
            );
            let disc: i32 = #[verifier::truncate] (v64 as i32);
            let has_payload: bool = matches!(decl, Decl::Named(_, _));
            rest.insert(0, (value_clone(label), disc, has_payload));
            proof {
                assert(Seq::new(
                    rest@.len(),
                    |j: int| (value_view(rest@[j].0), rest@[j].1, rest@[j].2),
                ) =~= seq![(value_view(*label), spec_to_i32(v64), *decl is Named)] + restv);
            }
            rest
        },
    }
}

fn pack_fields_from(symtab: &Symtab, decls: &Vec<Decl>, i: usize) -> (r: Result<Vec<String>, GenErr>)
    requires
        symtab.wf(),
        i <= decls@.len(),
    ensures
        ({
            let want = spec_pack_fields(
                symtab.consts_map(),
                symtab.typedefs_map(),
                spec_fuel(*symtab),
                decls@.skip(i as int),
            );
            match r {
                Ok(fields) => want == Ok::<Seq<Seq<char>>, GenErr>(
                    Seq::new(fields@.len(), |j: int| fields@[j]@),
                ),
                Err(e) => want == Err::<Seq<Seq<char>>, GenErr>(e),
            }
        }),
    decreases decls@.len() - i,
{
    let ghost tail = decls@.skip(i as int);
    if i == decls.len() {
        let r: Vec<String> = Vec::new();
        proof {
            assert(Seq::new(0, |j: int| r@[j]@) =~= Seq::<Seq<char>>::empty());
        }
        return Ok(r);
    }
    assert(tail[0] == decls@[i as int]);
    assert(tail.drop_first() =~= decls@.skip(i + 1));
    match &decls[i] {
        Decl::Void => pack_fields_from(symtab, decls, i + 1),
        Decl::Named(fname, fty) => {
            match fty.as_token(symtab) {
                Err(e) => {
                    return Err(e);
                },
                Ok(_) => (),
            }
            let mut rest = match pack_fields_from(symtab, decls, i + 1) {
                Err(e) => {
                    return Err(e);
                },
                Ok(v) => v,
            };
            let ghost restv = Seq::new(rest@.len(), |j: int| rest@[j]@);
            rest.insert(0, fname.clone());
            proof {
                assert(Seq::new(rest@.len(), |j: int| rest@[j]@) =~= seq![fname@] + restv);
            }
            Ok(rest)
        },
    }
}

fn unpack_fields_from(symtab: &Symtab, decls: &Vec<Decl>, i: usize) -> (r: Result<
    Vec<(String, UnpackStep)>,
    GenErr,
>)
    requires
        symtab.wf(),
        i <= decls@.len(),
    ensures
        ({
            let want = spec_unpack_fields(
                symtab.consts_map(),
                symtab.typedefs_map(),
                spec_fuel(*symtab),
                decls@.skip(i as int),
            );
            match r {
                Ok(fields) => want == Ok::<Seq<(Seq<char>, UnpackStep)>, GenErr>(
                    Seq::new(fields@.len(), |j: int| (fields@[j].0@, fields@[j].1)),
                ),
                Err(e) => want == Err::<Seq<(Seq<char>, UnpackStep)>, GenErr>(e),
            }
        }),
    decreases decls@.len() - i,
{
    let ghost tail = decls@.skip(i as int);
    if i == decls.len() {
        let r: Vec<(String, UnpackStep)> = Vec::new();
        proof {
            assert(Seq::new(0, |j: int| (r@[j].0@, r@[j].1)) =~= Seq::<
                (Seq<char>, UnpackStep),
            >::empty());
        }
        return Ok(r);
    }
    assert(tail[0] == decls@[i as int]);
    assert(tail.drop_first() =~= decls@.skip(i + 1));
    match &decls[i] {
        Decl::Void => unpack_fields_from(symtab, decls, i + 1),
        Decl::Named(fname, fty) => {
            match fty.as_token(symtab) {
                Err(e) => {
                    return Err(e);
                },
                Ok(_) => (),
            }
            let step: UnpackStep = match fty {
                Type::Array(_, val) => match symtab.value(val) {
                    None => {
                        return Err(GenErr::UnresolvedCount);
                    },
                    Some(n) => UnpackStep::StepArray(n),
                },
                _ => UnpackStep::StepSingle,
            };
            let mut rest = match unpack_fields_from(symtab, decls, i + 1) {
                Err(e) => {
                    return Err(e);
                },
                Ok(v) => v,
            };
            let ghost restv = Seq::new(rest@.len(), |j: int| (rest@[j].0@, rest@[j].1));
            rest.insert(0, (fname.clone(), step));
            proof {
                assert(Seq::new(rest@.len(), |j: int| (rest@[j].0@, rest@[j].1)) =~= seq![
                    (fname@, step),
                ] + restv);
            }
            Ok(rest)
        },
    }
}

/// Emitting a definition's declaration.
pub trait Emit {
    /// The declaration this definition emits for a given symbol table.
    spec fn spec_define_of(&self, st: Symtab) -> Result<ItemV, GenErr>;

    /// Emits the declaration.
    fn define(&self, symtab: &Symtab) -> (r: Result<Item, GenErr>)
        requires
            symtab.wf(),
        ensures
            match r {
                Ok(item) => self.spec_define_of(*symtab) == Ok::<ItemV, GenErr>(item.view()),
                Err(e) => self.spec_define_of(*symtab) == Err::<ItemV, GenErr>(e),
            },
    ;
}

/// Emitting a definition's encoder and decoder.
pub trait Emitpack: Emit {
    /// The encoder this definition emits, if its shape gets one.
    spec fn spec_pack_of(&self, st: Symtab) -> Result<Option<PackBodyV>, GenErr>;

    /// The decoder this definition emits, if its shape gets one.
    spec fn spec_unpack_of(&self, st: Symtab) -> Result<Option<UnpackBodyV>, GenErr>;

    /// Emits the encoder.
    fn pack(&self, symtab: &Symtab) -> (r: Result<Option<Item>, GenErr>)
        requires
            symtab.wf(),
        ensures
            match r {
                Ok(Some(item)) => match item.view() {
                    ItemV::PackImpl(n, bv) => n == self.spec_name() && self.spec_pack_of(*symtab)
                        == Ok::<Option<PackBodyV>, GenErr>(Some(bv)),
                    _ => false,
                },
                Ok(None) => self.spec_pack_of(*symtab) == Ok::<Option<PackBodyV>, GenErr>(None),
                Err(e) => self.spec_pack_of(*symtab) == Err::<Option<PackBodyV>, GenErr>(e),
            },
    ;

    /// Emits the decoder.
    fn unpack(&self, symtab: &Symtab) -> (r: Result<Option<Item>, GenErr>)
        requires
            symtab.wf(),
        ensures
            match r {
                Ok(Some(item)) => match item.view() {
                    ItemV::UnpackImpl(n, bv) => n == self.spec_name() && self.spec_unpack_of(
                        *symtab,
                    ) == Ok::<Option<UnpackBodyV>, GenErr>(Some(bv)),
                    _ => false,
                },
                Ok(None) => self.spec_unpack_of(*symtab) == Ok::<Option<UnpackBodyV>, GenErr>(
                    None,
                ),
                Err(e) => self.spec_unpack_of(*symtab) == Err::<Option<UnpackBodyV>, GenErr>(e),
            },
    ;

    /// The defined name the emitted impls are for.
    spec fn spec_name(&self) -> Seq<char>;
}

impl Emit for Const {
    open spec fn spec_define_of(&self, st: Symtab) -> Result<ItemV, GenErr> {
        Ok(ItemV::ConstDef(self.0@, self.1))
    }

    fn define(&self, symtab: &Symtab) -> (r: Result<Item, GenErr>) {
        Ok(Item::ConstDef(self.0.clone(), self.1))
    }
}

impl Emit for Typedef {
    open spec fn spec_define_of(&self, st: Symtab) -> Result<ItemV, GenErr> {
        spec_define(st.consts_map(), st.typedefs_map(), spec_fuel(st), self.0@, self.1)
    }

    fn define(&self, symtab: &Symtab) -> (r: Result<Item, GenErr>) {
        define_type(&self.0, &self.1, symtab)
    }
}

/// Emits the declaration a named type definition stands for.
pub fn define_type(name: &String, ty: &Type, symtab: &Symtab) -> (r: Result<Item, GenErr>)
    requires
        symtab.wf(),
    ensures
        ({
            let want = spec_define(
                symtab.consts_map(),
                symtab.typedefs_map(),
                spec_fuel(*symtab),
                name@,
                *ty,
            );
            match r {
                Ok(item) => want == Ok::<ItemV, GenErr>(item.view()),
                Err(e) => want == Err::<ItemV, GenErr>(e),
            }
        }),
{
    match ty {
        Type::Enum(edefs) => {
            assert(edefs@.skip(0) =~= edefs@);
            Ok(Item::EnumDef(name.clone(), enum_members_from(symtab, name, edefs, 0)))
        },
        Type::Struct(decls) => {
            assert(decls@.skip(0) =~= decls@);
            match struct_fields_from(symtab, decls, 0) {
                Err(e) => Err(e),
                Ok(fields) => Ok(Item::StructDef(name.clone(), fields)),
            }
        },
        Type::Union(selector, cases, defl) => {
            assert(cases@.skip(0) =~= cases@);
            let arms = match union_arms_from(symtab, selector, cases, 0) {
                Err(e) => {
                    return Err(e);
                },
                Ok(v) => v,
            };
            let dfl: Option<Option<TypeTok>> = match defl {
                Some(d) => match &**d {
                    Decl::Named(_, dty) => {
                        let tok = match dty.as_token(symtab) {
                            Err(e) => {
                                return Err(e);
                            },
                            Ok(t) => t,
                        };
                        if dty.is_boxed(symtab) {
                            Some(Some(TypeTok::TokBoxed(Box::new(tok))))
                        } else {
                            Some(Some(tok))
                        }
                    },
                    Decl::Void => Some(None),
                },
                None => None,
            };
            Ok(Item::UnionDef(name.clone(), arms, dfl))
        },
        _ => match ty.as_token(symtab) {
            Err(e) => Err(e),
            Ok(tok) => Ok(Item::AliasDef(name.clone(), tok)),
        },
    }
}
impl Emitpack for Typedef {
    open spec fn spec_pack_of(&self, st: Symtab) -> Result<Option<PackBodyV>, GenErr> {
        spec_pack(st.consts_map(), st.typedefs_map(), spec_fuel(st), self.1)
    }

    open spec fn spec_unpack_of(&self, st: Symtab) -> Result<Option<UnpackBodyV>, GenErr> {
        spec_unpack(st.consts_map(), st.typedefs_map(), spec_fuel(st), self.1)
    }

    open spec fn spec_name(&self) -> Seq<char> {
        self.0@
    }

    fn pack(&self, symtab: &Symtab) -> (r: Result<Option<Item>, GenErr>) {
        pack_type(&self.0, &self.1, symtab)
    }

    fn unpack(&self, symtab: &Symtab) -> (r: Result<Option<Item>, GenErr>) {
        unpack_type(&self.0, &self.1, symtab)
    }
}

/// Emits the encoder a named type definition gets, if its shape gets one.
pub fn pack_type(name: &String, ty: &Type, symtab: &Symtab) -> (r: Result<Option<Item>, GenErr>)
    requires
        symtab.wf(),
    ensures
        ({
            let want = spec_pack(symtab.consts_map(), symtab.typedefs_map(), spec_fuel(*symtab), *ty);
            match r {
                Ok(Some(item)) => match item.view() {
                    ItemV::PackImpl(n, bv) => n == name@ && want == Ok::<
                        Option<PackBodyV>,
                        GenErr,
                    >(Some(bv)),
                    _ => false,
                },
                Ok(None) => want == Ok::<Option<PackBodyV>, GenErr>(None),
                Err(e) => want == Err::<Option<PackBodyV>, GenErr>(e),
            }
        }),
{
    match ty {
        Type::Struct(decls) => {
            assert(decls@.skip(0) =~= decls@);
            match pack_fields_from(symtab, decls, 0) {
                Err(e) => Err(e),
                Ok(fields) => Ok(Some(Item::PackImpl(name.clone(), PackBody::PackStruct(fields)))),
            }
        },
        Type::Union(_, cases, defl) => {
            assert(cases@.skip(0) =~= cases@);
            let arms = codec_arms_from(symtab, cases, 0);
            let dfl: Option<bool> = match defl {
                Some(d) => Some(matches!(&**d, Decl::Named(_, _))),
                None => None,
            };
            Ok(Some(Item::PackImpl(name.clone(), PackBody::PackUnion(arms, dfl))))
        },
        Type::Flex(_, _) => Ok(Some(Item::PackImpl(name.clone(), PackBody::PackDelegate))),
        Type::Option(_) => Ok(Some(Item::PackImpl(name.clone(), PackBody::PackDelegate))),
        Type::Array(_, _) => Ok(Some(Item::PackImpl(name.clone(), PackBody::PackDelegate))),
        Type::Opaque => Err(GenErr::UnnamedType),
        Type::String => Err(GenErr::UnnamedType),
        _ => Ok(None),
    }
}

/// Emits the decoder a named type definition gets, if its shape gets one.
pub fn unpack_type(name: &String, ty: &Type, symtab: &Symtab) -> (r: Result<Option<Item>, GenErr>)
    requires
        symtab.wf(),
    ensures
        ({
            let want = spec_unpack(
                symtab.consts_map(),
                symtab.typedefs_map(),
                spec_fuel(*symtab),
                *ty,
            );
            match r {
                Ok(Some(item)) => match item.view() {
                    ItemV::UnpackImpl(n, bv) => n == name@ && want == Ok::<
                        Option<UnpackBodyV>,
                        GenErr,
                    >(Some(bv)),
                    _ => false,
                },
                Ok(None) => want == Ok::<Option<UnpackBodyV>, GenErr>(None),
                Err(e) => want == Err::<Option<UnpackBodyV>, GenErr>(e),
            }
        }),
{
    match ty {
        Type::Struct(decls) => {
            assert(decls@.skip(0) =~= decls@);
            match unpack_fields_from(symtab, decls, 0) {
                Err(e) => Err(e),
                Ok(fields) => Ok(
                    Some(Item::UnpackImpl(name.clone(), UnpackBody::UnpackStruct(fields))),
                ),
            }
        },
        Type::Union(_, cases, defl) => {
            assert(cases@.skip(0) =~= cases@);
            let arms = codec_arms_from(symtab, cases, 0);
            let dfl: Option<bool> = match defl {
                Some(d) => Some(matches!(&**d, Decl::Named(_, _))),
                None => None,
            };
            Ok(Some(Item::UnpackImpl(name.clone(), UnpackBody::UnpackUnion(arms, dfl))))
        },
        Type::Flex(_, _) => Ok(Some(Item::UnpackImpl(name.clone(), UnpackBody::UnpackDelegate))),
        Type::Option(_) => Ok(Some(Item::UnpackImpl(name.clone(), UnpackBody::UnpackDelegate))),
        Type::Array(_, val) => match symtab.value(val) {
            None => Err(GenErr::UnresolvedCount),
            Some(n) => Ok(Some(Item::UnpackImpl(name.clone(), UnpackBody::UnpackArray(n)))),
        },
        Type::Opaque => Err(GenErr::UnnamedType),
        Type::String => Err(GenErr::UnnamedType),
        _ => Ok(None),
    }
}

} // verus!
