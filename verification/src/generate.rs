//! The generation pass: one symbol table built from the definition
//! sequence, then every emitted item, ordered by the table's lexicographic
//! iteration so that output is independent of declaration order.

use vstd::prelude::*;
use crate::ast::{Value, ValueV, value_views, lemma_value_views_index, Type, Defn};
use crate::classify::{GenErr, spec_fuel};
use crate::codegen::{Item, ItemV, spec_define, spec_pack, spec_unpack, spec_type_incompat,
    define_type, pack_type, unpack_type, type_incompat_diags};
use crate::symtab::{Symtab, spec_defns_diags, resolution_diags};

verus! {

/// The constant bindings emitted: every top-level (unscoped) constant, in
/// table order; constants synthesized from enumerated members are left to
/// their type's own declaration.
pub open spec fn spec_const_items(cs: Seq<(String, (i64, Option<String>))>) -> Seq<ItemV>
    decreases cs.len(),
{
    if cs.len() == 0 {
        Seq::empty()
    } else {
        let rest = spec_const_items(cs.drop_first());
        if cs[0].1.1 is None {
            seq![ItemV::ConstDef(cs[0].0@, cs[0].1.0)] + rest
        } else {
            rest
        }
    }
}

/// The declarations emitted: one per typedef, in table order.
pub open spec fn spec_define_items(st: Symtab, tds: Seq<(String, Type)>) -> Result<
    Seq<ItemV>,
    GenErr,
>
    decreases tds.len(),
{
    if tds.len() == 0 {
        Ok(Seq::empty())
    } else {
        match spec_define(st.consts_map(), st.typedefs_map(), spec_fuel(st), tds[0].0@, tds[0].1) {
            Err(e) => Err(e),
            Ok(item) => match spec_define_items(st, tds.drop_first()) {
                Err(e) => Err(e),
                Ok(rest) => Ok(seq![item] + rest),
            },
        }
    }
}

/// The encoders emitted, in table order; shapes without one contribute
/// nothing.
pub open spec fn spec_pack_items(st: Symtab, tds: Seq<(String, Type)>) -> Result<Seq<ItemV>, GenErr>
    decreases tds.len(),
{
    if tds.len() == 0 {
        Ok(Seq::empty())
    } else {
        match spec_pack(st.consts_map(), st.typedefs_map(), spec_fuel(st), tds[0].1) {
            Err(e) => Err(e),
            Ok(body) => match spec_pack_items(st, tds.drop_first()) {
                Err(e) => Err(e),
                Ok(rest) => match body {
                    Some(b) => Ok(seq![ItemV::PackImpl(tds[0].0@, b)] + rest),
                    None => Ok(rest),
                },
            },
        }
    }
}

/// The decoders emitted, in table order.
pub open spec fn spec_unpack_items(st: Symtab, tds: Seq<(String, Type)>) -> Result<
    Seq<ItemV>,
    GenErr,
>
    decreases tds.len(),
{
    if tds.len() == 0 {
        Ok(Seq::empty())
    } else {
        match spec_unpack(st.consts_map(), st.typedefs_map(), spec_fuel(st), tds[0].1) {
            Err(e) => Err(e),
            Ok(body) => match spec_unpack_items(st, tds.drop_first()) {
                Err(e) => Err(e),
                Ok(rest) => match body {
                    Some(b) => Ok(seq![ItemV::UnpackImpl(tds[0].0@, b)] + rest),
                    None => Ok(rest),
                },
            },
        }
    }
}

/// Everything one run emits: constants, then declarations, then encoders,
/// then decoders.
pub open spec fn spec_generate(st: Symtab) -> Result<Seq<ItemV>, GenErr> {
    match spec_define_items(st, st.typedefs@) {
        Err(e) => Err(e),
        Ok(defines) => match spec_pack_items(st, st.typedefs@) {
            Err(e) => Err(e),
            Ok(packs) => match spec_unpack_items(st, st.typedefs@) {
                Err(e) => Err(e),
                Ok(unpacks) => Ok(spec_const_items(st.consts@) + defines + packs + unpacks),
            },
        },
    }
}

/// The view of an item sequence.
pub open spec fn items_view(items: Seq<Item>) -> Seq<ItemV> {
    Seq::new(items.len(), |i: int| items[i].view())
}

fn const_items_from(symtab: &Symtab, i: usize) -> (r: Vec<Item>)
    requires
        symtab.wf(),
        i <= symtab.consts@.len(),
    ensures
        items_view(r@) == spec_const_items(symtab.consts@.skip(i as int)),
    decreases symtab.consts@.len() - i,
{
    let ghost tail = symtab.consts@.skip(i as int);
    let cs = symtab.constants();
    if i == cs.len() {
        let r: Vec<Item> = Vec::new();
        proof {
            assert(items_view(r@) =~= Seq::<ItemV>::empty());
        }
        return r;
    }
    assert(tail[0] == symtab.consts@[i as int]);
    assert(tail.drop_first() =~= symtab.consts@.skip(i + 1));
    let keep: bool = matches!(cs[i].1.1, Option::None);
    let mut rest = const_items_from(symtab, i + 1);
    if keep {
        let ghost restv = items_view(rest@);
        let name: String = cs[i].0.clone();
        let val: i64 = cs[i].1.0;
        rest.insert(0, Item::ConstDef(name, val));
        proof {
            assert(items_view(rest@) =~= seq![
                ItemV::ConstDef(symtab.consts@[i as int].0@, symtab.consts@[i as int].1.0),
            ] + restv);
        }
    }
    rest
}

fn define_items_from(symtab: &Symtab, i: usize) -> (r: Result<Vec<Item>, GenErr>)
    requires
        symtab.wf(),
        i <= symtab.typedefs@.len(),
    ensures
        ({
            let want = spec_define_items(*symtab, symtab.typedefs@.skip(i as int));
            match r {
                Ok(items) => want == Ok::<Seq<ItemV>, GenErr>(items_view(items@)),
                Err(e) => want == Err::<Seq<ItemV>, GenErr>(e),
            }
        }),
    decreases symtab.typedefs@.len() - i,
{
    let ghost tail = symtab.typedefs@.skip(i as int);
    let tds = symtab.typedefs();
    if i == tds.len() {
        let r: Vec<Item> = Vec::new();
        proof {
            assert(items_view(r@) =~= Seq::<ItemV>::empty());
        }
        return Ok(r);
    }
    assert(tail[0] == symtab.typedefs@[i as int]);
    assert(tail.drop_first() =~= symtab.typedefs@.skip(i + 1));
    let item = match define_type(&tds[i].0, &tds[i].1, symtab) {
        Err(e) => {
            return Err(e);
        },
        Ok(it) => it,
    };
    let mut rest = match define_items_from(symtab, i + 1) {
        Err(e) => {
            return Err(e);
        },
        Ok(v) => v,
    };
    let ghost restv = items_view(rest@);
    let ghost itemv = item.view();
    rest.insert(0, item);
    proof {
        assert(items_view(rest@) =~= seq![itemv] + restv);
    }
    Ok(rest)
}

fn pack_items_from(symtab: &Symtab, i: usize) -> (r: Result<Vec<Item>, GenErr>)
    requires
        symtab.wf(),
        i <= symtab.typedefs@.len(),
    ensures
        ({
            let want = spec_pack_items(*symtab, symtab.typedefs@.skip(i as int));
            match r {
                Ok(items) => want == Ok::<Seq<ItemV>, GenErr>(items_view(items@)),
                Err(e) => want == Err::<Seq<ItemV>, GenErr>(e),
            }
        }),
    decreases symtab.typedefs@.len() - i,
{
    let ghost tail = symtab.typedefs@.skip(i as int);
    let tds = symtab.typedefs();
    if i == tds.len() {
        let r: Vec<Item> = Vec::new();
        proof {
            assert(items_view(r@) =~= Seq::<ItemV>::empty());
        }
        return Ok(r);
    }
    assert(tail[0] == symtab.typedefs@[i as int]);
    assert(tail.drop_first() =~= symtab.typedefs@.skip(i + 1));
    let emitted = match pack_type(&tds[i].0, &tds[i].1, symtab) {
        Err(e) => {
            return Err(e);
        },
        Ok(o) => o,
    };
    let mut rest = match pack_items_from(symtab, i + 1) {
        Err(e) => {
            return Err(e);
        },
        Ok(v) => v,
    };
    let ghost restv = items_view(rest@);
    match emitted {
        Some(item) => {
            let ghost itemv = item.view();
            rest.insert(0, item);
            proof {
                assert(items_view(rest@) =~= seq![itemv] + restv);
            }
            Ok(rest)
        },
        None => Ok(rest),
    }
}

fn unpack_items_from(symtab: &Symtab, i: usize) -> (r: Result<Vec<Item>, GenErr>)
    requires
        symtab.wf(),
        i <= symtab.typedefs@.len(),
    ensures
        ({
            let want = spec_unpack_items(*symtab, symtab.typedefs@.skip(i as int));
            match r {
                Ok(items) => want == Ok::<Seq<ItemV>, GenErr>(items_view(items@)),
                Err(e) => want == Err::<Seq<ItemV>, GenErr>(e),
            }
        }),
    decreases symtab.typedefs@.len() - i,
{
    let ghost tail = symtab.typedefs@.skip(i as int);
    let tds = symtab.typedefs();
    if i == tds.len() {
        let r: Vec<Item> = Vec::new();
        proof {
            assert(items_view(r@) =~= Seq::<ItemV>::empty());
        }
        return Ok(r);
    }
    assert(tail[0] == symtab.typedefs@[i as int]);
    assert(tail.drop_first() =~= symtab.typedefs@.skip(i + 1));
    let emitted = match unpack_type(&tds[i].0, &tds[i].1, symtab) {
        Err(e) => {
            return Err(e);
        },
        Ok(o) => o,
    };
    let mut rest = match unpack_items_from(symtab, i + 1) {
        Err(e) => {
            return Err(e);
        },
        Ok(v) => v,
    };
    let ghost restv = items_view(rest@);
    match emitted {
        Some(item) => {
            let ghost itemv = item.view();
            rest.insert(0, item);
            proof {
                assert(items_view(rest@) =~= seq![itemv] + restv);
            }
            Ok(rest)
        },
        None => Ok(rest),
    }
}

/// Emits everything a symbol table holds: constants, declarations,
/// encoders, decoders, each section in ascending name order.
pub fn generate_items(symtab: &Symtab) -> (r: Result<Vec<Item>, GenErr>)
    requires
        symtab.wf(),
    ensures
        match r {
            Ok(items) => spec_generate(*symtab) == Ok::<Seq<ItemV>, GenErr>(items_view(items@)),
            Err(e) => spec_generate(*symtab) == Err::<Seq<ItemV>, GenErr>(e),
        },
{
    proof {
        assert(symtab.consts@.skip(0) =~= symtab.consts@);
        assert(symtab.typedefs@.skip(0) =~= symtab.typedefs@);
    }
    let mut out = const_items_from(symtab, 0);
    let ghost cv = items_view(out@);
    let mut defines = match define_items_from(symtab, 0) {
        Err(e) => {
            return Err(e);
        },
        Ok(v) => v,
    };
    let ghost dv = items_view(defines@);
    let mut packs = match pack_items_from(symtab, 0) {
        Err(e) => {
            return Err(e);
        },
        Ok(v) => v,
    };
    let ghost pv = items_view(packs@);
    let mut unpacks = match unpack_items_from(symtab, 0) {
        Err(e) => {
            return Err(e);
        },
        Ok(v) => v,
    };
    let ghost uv = items_view(unpacks@);
    out.append(&mut defines);
    out.append(&mut packs);
    out.append(&mut unpacks);
    proof {
        assert(items_view(out@) =~= cv + dv + pv + uv);
    }
    Ok(out)
}

/// Builds the symbol table from a definition sequence and emits every
/// item.  The table comes back beside the items, so a caller can consult
/// it and state facts against it.
pub fn generate_defns(defns: Vec<Defn>) -> (r: (Symtab, Result<Vec<Item>, GenErr>))
    ensures
        r.0.wf(),
        (r.0.consts_map(), r.0.typedefs_map()) == crate::symtab::spec_apply_defns(
            Map::empty(),
            Map::empty(),
            defns@,
        ),
        match r.1 {
            Ok(items) => spec_generate(r.0) == Ok::<Seq<ItemV>, GenErr>(items_view(items@)),
            Err(e) => spec_generate(r.0) == Err::<Seq<ItemV>, GenErr>(e),
        },
{
    let symtab = Symtab::new(defns);
    let items = generate_items(&symtab);
    (symtab, items)
}

/// The diagnostics one generation run collects and returns, so a caller
/// can choose its own fail-or-continue policy.
pub struct Diagnostics {
    /// Values of enumerated members that failed to resolve and were
    /// dropped from the constants table.
    pub unresolved: Vec<Value>,
    /// Union case labels dropped from declarations as incompatible with
    /// their selector, in the table's name order.
    pub incompatible: Vec<Value>,
}

/// The incompatible case labels over a typedef table, in table order.
pub open spec fn spec_table_incompat(st: Symtab, tds: Seq<(String, Type)>) -> Seq<ValueV>
    decreases tds.len(),
{
    if tds.len() == 0 {
        Seq::empty()
    } else {
        spec_type_incompat(st.consts_map(), tds[0].1) + spec_table_incompat(st, tds.drop_first())
    }
}

fn incompat_from(symtab: &Symtab, i: usize) -> (r: Vec<Value>)
    requires
        symtab.wf(),
        i <= symtab.typedefs@.len(),
    ensures
        value_views(r@, 0) == spec_table_incompat(*symtab, symtab.typedefs@.skip(i as int)),
    decreases symtab.typedefs@.len() - i,
{
    let ghost tail = symtab.typedefs@.skip(i as int);
    let tds = symtab.typedefs();
    if i == tds.len() {
        let r: Vec<Value> = Vec::new();
        proof {
            assert(value_views(r@, 0) =~= Seq::<ValueV>::empty());
        }
        return r;
    }
    assert(tail[0] == symtab.typedefs@[i as int]);
    assert(tail.drop_first() =~= symtab.typedefs@.skip(i + 1));
    let mut head = type_incompat_diags(&tds[i].1, symtab);
    let ghost headseq = head@;
    let mut rest = incompat_from(symtab, i + 1);
    let ghost restseq = rest@;
    head.append(&mut rest);
    proof {
        lemma_value_views_index(head@, 0);
        lemma_value_views_index(headseq, 0);
        lemma_value_views_index(restseq, 0);
        assert forall|k: int| 0 <= k < head@.len() implies value_views(head@, 0)[k] == (
        value_views(headseq, 0) + value_views(restseq, 0))[k] by {
            assert(value_views(head@, 0)[k] == crate::ast::value_view(head@[k]));
            if k < headseq.len() {
                assert(head@[k] == headseq[k]);
            } else {
                assert(head@[k] == restseq[k - headseq.len()]);
            }
        }
        assert(value_views(head@, 0) =~= value_views(headseq, 0) + value_views(restseq, 0));
    }
    head
}

/// Builds the symbol table, emits every item, and collects the
/// diagnostics of what generation dropped along the way: unresolvable
/// enumerated members and incompatible union cases.
pub fn generate_with_diags(defns: Vec<Defn>) -> (r: (
    Symtab,
    Result<Vec<Item>, GenErr>,
    Diagnostics,
))
    ensures
        r.0.wf(),
        (r.0.consts_map(), r.0.typedefs_map()) == crate::symtab::spec_apply_defns(
            Map::empty(),
            Map::empty(),
            defns@,
        ),
        match r.1 {
            Ok(items) => spec_generate(r.0) == Ok::<Seq<ItemV>, GenErr>(items_view(items@)),
            Err(e) => spec_generate(r.0) == Err::<Seq<ItemV>, GenErr>(e),
        },
        value_views(r.2.unresolved@, 0) == spec_defns_diags(Map::empty(), defns@),
        value_views(r.2.incompatible@, 0) == spec_table_incompat(r.0, r.0.typedefs@),
{
    let unresolved = resolution_diags(&defns);
    let symtab = Symtab::new(defns);
    let items = generate_items(&symtab);
    proof {
        assert(symtab.typedefs@.skip(0) =~= symtab.typedefs@);
    }
    let incompatible = incompat_from(&symtab, 0);
    (symtab, items, Diagnostics { unresolved, incompatible })
}

} // verus!
