//! The symbol table: two name-keyed tables, one for constants and one for
//! type definitions, built in a single left-to-right pass over a definition
//! sequence.  Entries are kept strictly ascending in lexicographic name
//! order, so iteration is deterministic whatever the declaration order was.

use vstd::prelude::*;
use vstd::map::*;
use crate::ast::{Value, ValueV, value_view, value_views, value_clone, lemma_value_views_push, Type,
    EnumDefn, Defn};
use crate::order::{chars_lt, str_lt, lemma_chars_lt_trans, lemma_chars_lt_connex,
    lemma_chars_lt_neq, lemma_chars_lt_irrefl};

verus! {

/// Entry keys strictly ascend in lexicographic order.
pub open spec fn keys_sorted<V>(s: Seq<(String, V)>) -> bool {
    forall|i: int, j: int| 0 <= i < j < s.len() ==> chars_lt(#[trigger] s[i].0@, #[trigger] s[j].0@)
}

/// The mapping a key-value sequence denotes; a later binding for the same
/// name wins.
pub open spec fn assoc_map<V>(s: Seq<(String, V)>) -> Map<Seq<char>, V>
    decreases s.len(),
{
    if s.len() == 0 {
        Map::empty()
    } else {
        assoc_map(s.drop_last()).insert(s.last().0@, s.last().1)
    }
}

/// A shorter sequence of sorted keys is still sorted.
pub proof fn lemma_sorted_drop_last<V>(s: Seq<(String, V)>)
    requires
        keys_sorted(s),
        s.len() > 0,
    ensures
        keys_sorted(s.drop_last()),
{
    assert forall|p: int, q: int| 0 <= p < q < s.drop_last().len() implies chars_lt(
        #[trigger] s.drop_last()[p].0@,
        #[trigger] s.drop_last()[q].0@,
    ) by {
        assert(s.drop_last()[p] == s[p]);
        assert(s.drop_last()[q] == s[q]);
    }
}

/// A name stands in the mapping exactly when some entry bears it.
pub proof fn lemma_assoc_contains<V>(s: Seq<(String, V)>, k: Seq<char>)
    ensures
        assoc_map(s).contains_key(k) <==> exists|i: int|
            0 <= i < s.len() && (#[trigger] s[i].0@) == k,
    decreases s.len(),
{
    if s.len() > 0 {
        lemma_assoc_contains(s.drop_last(), k);
        if k == s.last().0@ {
            assert(s[s.len() - 1].0@ == k);
        } else {
            if exists|i: int| 0 <= i < s.len() && (#[trigger] s[i].0@) == k {
                let w = choose|i: int| 0 <= i < s.len() && (#[trigger] s[i].0@) == k;
                assert(w < s.len() - 1);
                assert(s.drop_last()[w] == s[w]);
            }
            if exists|i: int| 0 <= i < s.drop_last().len() && (#[trigger] s.drop_last()[i].0@)
                == k {
                let w = choose|i: int|
                    0 <= i < s.drop_last().len() && (#[trigger] s.drop_last()[i].0@) == k;
                assert(s[w] == s.drop_last()[w]);
            }
        }
    }
}

/// The mapping agrees with the sequence at every index.
pub proof fn lemma_assoc_at<V>(s: Seq<(String, V)>, i: int)
    requires
        keys_sorted(s),
        0 <= i < s.len(),
    ensures
        assoc_map(s).contains_key(s[i].0@),
        assoc_map(s)[s[i].0@] == s[i].1,
    decreases s.len(),
{
    if i == s.len() - 1 {
        assert(s.last() == s[i]);
    } else {
        lemma_sorted_drop_last(s);
        assert(s.drop_last()[i] == s[i]);
        lemma_assoc_at(s.drop_last(), i);
        lemma_chars_lt_neq(s[i].0@, s.last().0@);
    }
}

/// Inserts a binding, keeping the keys sorted; an existing binding for the
/// same name is replaced.
fn sorted_insert<V>(v: &mut Vec<(String, V)>, name: String, val: V)
    requires
        keys_sorted(old(v)@),
    ensures
        keys_sorted(final(v)@),
        assoc_map(final(v)@) == assoc_map(old(v)@).insert(name@, val),
{
    let mut i: usize = 0;
    while i < v.len() && str_lt(v[i].0.as_str(), name.as_str())
        invariant
            keys_sorted(v@),
            v@ == old(v)@,
            i <= v@.len(),
            forall|j: int| 0 <= j < i ==> chars_lt(#[trigger] v@[j].0@, name@),
        decreases v@.len() - i,
    {
        i = i + 1;
    }
    let ghost s0 = v@;
    let matched: bool = i < v.len() && v[i].0 == name;
    if matched {
        v.remove(i);
    }
    let ghost s1 = v@;
    v.insert(i, (name, val));
    proof {
        let s2 = v@;
        let ii = i as int;
        // Keys before the insertion point are below `name`; keys at or
        // after it are above it.
        assert forall|j: int| ii <= j < s1.len() implies chars_lt(name@, #[trigger] s1[j].0@) by {
            if matched {
                assert(s0[ii].0@ == name@);
                assert(s1[j] == s0[j + 1]);
                assert(chars_lt(s0[ii].0@, s0[j + 1].0@));
            } else {
                assert(s1[j] == s0[j]);
                assert(!chars_lt(s0[ii].0@, name@));
                assert(s0[ii].0@ != name@);
                if !chars_lt(name@, s0[ii].0@) {
                    lemma_chars_lt_connex(name@, s0[ii].0@);
                }
                if j > ii {
                    assert(chars_lt(s0[ii].0@, s0[j].0@));
                    lemma_chars_lt_trans(name@, s0[ii].0@, s0[j].0@);
                }
            }
        }
        assert forall|p: int, q: int| 0 <= p < q < s2.len() implies chars_lt(
            #[trigger] s2[p].0@,
            #[trigger] s2[q].0@,
        ) by {
            if p < ii && q < ii {
                assert(s2[p] == s1[p] && s2[q] == s1[q]);
            } else if p < ii && q == ii {
                assert(s2[p] == s1[p]);
            } else if p < ii && q > ii {
                assert(s2[p] == s1[p] && s2[q] == s1[q - 1]);
                lemma_chars_lt_trans(s2[p].0@, name@, s2[q].0@);
            } else if p == ii {
                assert(s2[q] == s1[q - 1]);
            } else {
                assert(s2[p] == s1[p - 1] && s2[q] == s1[q - 1]);
            }
        }
        assert(keys_sorted(s2));
        // The denoted mapping gains exactly the new binding.
        assert_maps_equal!(assoc_map(s2), assoc_map(s0).insert(name@, val), k => {
            lemma_assoc_contains(s2, k);
            lemma_assoc_contains(s0, k);
            assert(s2[ii] == (name, val));
            if k == name@ {
                lemma_assoc_at(s2, ii);
            } else {
                if assoc_map(s2).contains_key(k) {
                    let w = choose|w: int| 0 <= w < s2.len() && (#[trigger] s2[w].0@) == k;
                    lemma_assoc_at(s2, w);
                    if w < ii {
                        assert(s2[w] == s0[w]);
                        lemma_assoc_at(s0, w);
                    } else {
                        assert(w != ii);
                        if matched {
                            assert(s2[w] == s1[w - 1]);
                            assert(s1[w - 1] == s0[w]);
                            lemma_assoc_at(s0, w);
                        } else {
                            assert(s2[w] == s1[w - 1]);
                            assert(s1[w - 1] == s0[w - 1]);
                            lemma_assoc_at(s0, w - 1);
                        }
                    }
                }
                if assoc_map(s0).contains_key(k) {
                    let w = choose|w: int| 0 <= w < s0.len() && (#[trigger] s0[w].0@) == k;
                    lemma_assoc_at(s0, w);
                    if w < ii {
                        assert(s2[w] == s1[w]);
                        assert(s1[w] == s0[w]);
                        lemma_assoc_at(s2, w);
                    } else if matched && w == ii {
                        assert(s0[w].0@ == name@);
                    } else if matched {
                        assert(w > ii);
                        assert(s1[w - 1] == s0[w]);
                        assert(s2[w] == s1[w - 1]);
                        lemma_assoc_at(s2, w);
                    } else {
                        assert(s1[w] == s0[w]);
                        assert(s2[w + 1] == s1[w]);
                        lemma_assoc_at(s2, w + 1);
                    }
                }
            }
        });
    }
}

/// Finds the entry bound to a name.
fn assoc_get<'a, V>(v: &'a Vec<(String, V)>, name: &String) -> (r: Option<&'a V>)
    requires
        keys_sorted(v@),
    ensures
        match r {
            Some(x) => assoc_map(v@).contains_key(name@) && assoc_map(v@)[name@] == *x,
            None => !assoc_map(v@).contains_key(name@),
        },
{
    let mut i: usize = 0;
    while i < v.len()
        invariant
            keys_sorted(v@),
            i <= v@.len(),
            forall|j: int| 0 <= j < i ==> (#[trigger] v@[j].0@) != name@,
        decreases v@.len() - i,
    {
        if v[i].0 == *name {
            proof {
                lemma_assoc_at(v@, i as int);
            }
            return Some(&v[i].1);
        }
        i = i + 1;
    }
    proof {
        lemma_assoc_contains(v@, name@);
    }
    None
}

/// The view of an optional owning-scope name.
pub open spec fn opt_chars(o: Option<String>) -> Option<Seq<char>> {
    match o {
        Some(s) => Some(s@),
        None => None,
    }
}

/// Owns the two tables: constants (value and optional owning scope) and
/// type definitions.
pub struct Symtab {
    pub consts: Vec<(String, (i64, Option<String>))>,
    pub typedefs: Vec<(String, Type)>,
}

/// What a constant entry denotes: its value and the view of its scope.
pub open spec fn abs_const(p: (i64, Option<String>)) -> (i64, Option<Seq<char>>) {
    (p.0, opt_chars(p.1))
}

/// A literal is itself; an identifier resolves through the constants table.
pub open spec fn spec_value(cm: Map<Seq<char>, (i64, Option<Seq<char>>)>, v: Value) -> Option<i64> {
    match v {
        Value::Const(c) => Some(c),
        Value::Ident(id) => if cm.contains_key(id@) {
            Some(cm[id@].0)
        } else {
            None
        },
    }
}

/// The value one more than the previous member's, as a 64-bit wrap.
pub open spec fn spec_inc(prev: i64) -> i64 {
    if prev == i64::MAX {
        i64::MIN
    } else {
        (prev + 1) as i64
    }
}

/// The value an enumerated member resolves to: an explicit value through
/// the table so far, an implicit one as the previous value plus one.
pub open spec fn spec_member_value(
    cm: Map<Seq<char>, (i64, Option<Seq<char>>)>,
    prev: i64,
    mv: Option<Value>,
) -> Option<i64> {
    match mv {
        None => Some(spec_inc(prev)),
        Some(v) => spec_value(cm, v),
    }
}

/// Registering an enumerated type's members in declaration order: each
/// resolved member becomes a constant scoped to the type's name; a member
/// that fails to resolve is dropped and does not change the running value.
pub open spec fn spec_enum_fold(
    cm: Map<Seq<char>, (i64, Option<Seq<char>>)>,
    scope: Seq<char>,
    prev: i64,
    members: Seq<EnumDefn>,
) -> Map<Seq<char>, (i64, Option<Seq<char>>)>
    decreases members.len(),
{
    if members.len() == 0 {
        cm
    } else {
        match spec_member_value(cm, prev, members[0].1) {
            None => spec_enum_fold(cm, scope, prev, members.drop_first()),
            Some(v) => spec_enum_fold(
                cm.insert(members[0].0@, (v, Some(scope))),
                scope,
                v,
                members.drop_first(),
            ),
        }
    }
}

/// The constants a typedef contributes: the members of an enumerated type,
/// nothing for any other shape.
pub open spec fn spec_typedef_consts(
    cm: Map<Seq<char>, (i64, Option<Seq<char>>)>,
    name: Seq<char>,
    ty: Type,
) -> Map<Seq<char>, (i64, Option<Seq<char>>)> {
    match ty {
        Type::Enum(edefs) => spec_enum_fold(cm, name, (-1) as i64, edefs@),
        _ => cm,
    }
}

/// One definition's effect on the two tables.
pub open spec fn spec_apply_defn(
    cm: Map<Seq<char>, (i64, Option<Seq<char>>)>,
    tm: Map<Seq<char>, Type>,
    d: Defn,
) -> (Map<Seq<char>, (i64, Option<Seq<char>>)>, Map<Seq<char>, Type>) {
    match d {
        Defn::Const(name, val) => (cm.insert(name@, (val, None)), tm),
        Defn::Typedef(name, ty) => (spec_typedef_consts(cm, name@, ty), tm.insert(name@, ty)),
    }
}

/// A whole definition sequence's effect, left to right.
pub open spec fn spec_apply_defns(
    cm: Map<Seq<char>, (i64, Option<Seq<char>>)>,
    tm: Map<Seq<char>, Type>,
    ds: Seq<Defn>,
) -> (Map<Seq<char>, (i64, Option<Seq<char>>)>, Map<Seq<char>, Type>)
    decreases ds.len(),
{
    if ds.len() == 0 {
        (cm, tm)
    } else {
        let (c2, t2) = spec_apply_defn(cm, tm, ds[0]);
        spec_apply_defns(c2, t2, ds.drop_first())
    }
}

/// The first member with no explicit value resolves to zero: member
/// registration starts the running value at minus one.
pub proof fn lemma_enum_first_implicit_is_zero(cm: Map<Seq<char>, (i64, Option<Seq<char>>)>)
    ensures
        spec_member_value(cm, (-1) as i64, None) == Some(0i64),
{
}

/// Each unlabeled member resolves to one more than the previous member's
/// resolved value.
pub proof fn lemma_enum_implicit_increments(
    cm: Map<Seq<char>, (i64, Option<Seq<char>>)>,
    prev: i64,
)
    requires
        prev < i64::MAX,
    ensures
        spec_member_value(cm, prev, None) == Some((prev + 1) as i64),
{
}

/// Any key of a sorted table stands at or below the last key.
proof fn lemma_sorted_last_max<V>(s: Seq<(String, V)>, i: int)
    requires
        keys_sorted(s),
        0 <= i < s.len(),
    ensures
        i == s.len() - 1 || chars_lt(s[i].0@, s.last().0@),
{
}

/// Sorted tables that denote the same mapping list the same entries in
/// the same order: iteration order is a function of the contents alone,
/// whatever order the definitions arrived in.
pub proof fn lemma_iteration_canonical<V>(s1: Seq<(String, V)>, s2: Seq<(String, V)>)
    requires
        keys_sorted(s1),
        keys_sorted(s2),
        assoc_map(s1) == assoc_map(s2),
    ensures
        s1.len() == s2.len(),
        forall|i: int|
            0 <= i < s1.len() ==> (#[trigger] s1[i]).0@ == s2[i].0@ && s1[i].1 == s2[i].1,
    decreases s1.len(),
{
    if s1.len() == 0 {
        if s2.len() > 0 {
            lemma_assoc_at(s2, 0);
            lemma_assoc_contains(s1, s2[0].0@);
        }
    } else if s2.len() == 0 {
        lemma_assoc_at(s1, 0);
        lemma_assoc_contains(s2, s1[0].0@);
    } else {
        let k1 = s1.last().0@;
        let k2 = s2.last().0@;
        lemma_assoc_at(s1, s1.len() - 1);
        lemma_assoc_at(s2, s2.len() - 1);
        lemma_assoc_contains(s1, k2);
        lemma_assoc_contains(s2, k1);
        let j1 = choose|j: int| 0 <= j < s2.len() && (#[trigger] s2[j].0@) == k1;
        let j2 = choose|j: int| 0 <= j < s1.len() && (#[trigger] s1[j].0@) == k2;
        lemma_sorted_last_max(s2, j1);
        lemma_sorted_last_max(s1, j2);
        if k1 != k2 {
            if j1 < s2.len() - 1 && j2 < s1.len() - 1 {
                lemma_chars_lt_trans(k1, k2, k1);
                lemma_chars_lt_irrefl(k1);
            } else if j1 == s2.len() - 1 {
                assert(k1 == k2);
            } else {
                assert(k2 == k1);
            }
        }
        assert(k1 == k2);
        assert(s1.last().1 == assoc_map(s1)[k1]);
        assert(s2.last().1 == assoc_map(s2)[k1]);
        lemma_sorted_drop_last(s1);
        lemma_sorted_drop_last(s2);
        assert_maps_equal!(assoc_map(s1.drop_last()), assoc_map(s2.drop_last()), k => {
            lemma_assoc_contains(s1.drop_last(), k);
            lemma_assoc_contains(s2.drop_last(), k);
            if k == k1 {
                if assoc_map(s1.drop_last()).contains_key(k) {
                    let w = choose|w: int|
                        0 <= w < s1.drop_last().len() && (#[trigger] s1.drop_last()[w].0@) == k;
                    lemma_sorted_last_max(s1, w);
                    lemma_chars_lt_irrefl(k1);
                }
                if assoc_map(s2.drop_last()).contains_key(k) {
                    let w = choose|w: int|
                        0 <= w < s2.drop_last().len() && (#[trigger] s2.drop_last()[w].0@) == k;
                    lemma_sorted_last_max(s2, w);
                    lemma_chars_lt_irrefl(k1);
                }
            } else {
                if assoc_map(s1.drop_last()).contains_key(k) {
                    let w = choose|w: int|
                        0 <= w < s1.drop_last().len() && (#[trigger] s1.drop_last()[w].0@) == k;
                    lemma_assoc_at(s1.drop_last(), w);
                    assert(s1[w] == s1.drop_last()[w]);
                    lemma_assoc_at(s1, w);
                    lemma_assoc_contains(s2, k);
                    let w2 = choose|j: int| 0 <= j < s2.len() && (#[trigger] s2[j].0@) == k;
                    assert(w2 < s2.len() - 1);
                    assert(s2.drop_last()[w2] == s2[w2]);
                    lemma_assoc_at(s2.drop_last(), w2);
                    lemma_assoc_at(s2, w2);
                }
                if assoc_map(s2.drop_last()).contains_key(k) {
                    let w = choose|w: int|
                        0 <= w < s2.drop_last().len() && (#[trigger] s2.drop_last()[w].0@) == k;
                    lemma_assoc_at(s2.drop_last(), w);
                    assert(s2[w] == s2.drop_last()[w]);
                    lemma_assoc_at(s2, w);
                    lemma_assoc_contains(s1, k);
                    let w2 = choose|j: int| 0 <= j < s1.len() && (#[trigger] s1[j].0@) == k;
                    assert(w2 < s1.len() - 1);
                    assert(s1.drop_last()[w2] == s1[w2]);
                    lemma_assoc_at(s1.drop_last(), w2);
                    lemma_assoc_at(s1, w2);
                }
            }
        });
        lemma_iteration_canonical(s1.drop_last(), s2.drop_last());
        assert forall|i: int| 0 <= i < s1.len() implies (#[trigger] s1[i]).0@ == s2[i].0@ && s1[i].1
            == s2[i].1 by {
            if i < s1.len() - 1 {
                assert(s1.drop_last()[i] == s1[i]);
                assert(s2.drop_last()[i] == s2[i]);
            }
        }
    }
}

/// The members an enumerated registration drops: those whose explicit
/// value does not resolve through the table so far, in declaration order.
pub open spec fn spec_enum_diags(
    cm: Map<Seq<char>, (i64, Option<Seq<char>>)>,
    scope: Seq<char>,
    prev: i64,
    members: Seq<EnumDefn>,
) -> Seq<ValueV>
    decreases members.len(),
{
    if members.len() == 0 {
        Seq::empty()
    } else {
        match spec_member_value(cm, prev, members[0].1) {
            None => seq![value_view(members[0].1->0)] + spec_enum_diags(
                cm,
                scope,
                prev,
                members.drop_first(),
            ),
            Some(v) => spec_enum_diags(
                cm.insert(members[0].0@, (v, Some(scope))),
                scope,
                v,
                members.drop_first(),
            ),
        }
    }
}

/// The member values one typedef drops.
pub open spec fn spec_typedef_diags(
    cm: Map<Seq<char>, (i64, Option<Seq<char>>)>,
    name: Seq<char>,
    ty: Type,
) -> Seq<ValueV> {
    match ty {
        Type::Enum(edefs) => spec_enum_diags(cm, name, (-1) as i64, edefs@),
        _ => Seq::empty(),
    }
}

/// The member values a whole definition sequence drops while the
/// constants table is built, left to right.
pub open spec fn spec_defns_diags(
    cm: Map<Seq<char>, (i64, Option<Seq<char>>)>,
    ds: Seq<Defn>,
) -> Seq<ValueV>
    decreases ds.len(),
{
    if ds.len() == 0 {
        Seq::empty()
    } else {
        match ds[0] {
            Defn::Const(n, v) => spec_defns_diags(cm.insert(n@, (v, None)), ds.drop_first()),
            Defn::Typedef(n, ty) => spec_typedef_diags(cm, n@, ty) + spec_defns_diags(
                spec_typedef_consts(cm, n@, ty),
                ds.drop_first(),
            ),
        }
    }
}

/// Replays constant resolution over a definition sequence and collects
/// the values of enumerated members that fail to resolve — the dropped
/// forward and external references.
pub fn resolution_diags(defns: &Vec<Defn>) -> (r: Vec<Value>)
    ensures
        value_views(r@, 0) == spec_defns_diags(Map::empty(), defns@),
{
    let mut st = Symtab { consts: Vec::new(), typedefs: Vec::new() };
    proof {
        assert(st.consts_map() =~= Map::<Seq<char>, (i64, Option<Seq<char>>)>::empty());
        assert(defns@.skip(0) =~= defns@);
    }
    let mut out: Vec<Value> = Vec::new();
    let n: usize = defns.len();
    let mut i: usize = 0;
    proof {
        assert(value_views(out@, 0) =~= Seq::<ValueV>::empty());
        assert(Seq::<ValueV>::empty() + spec_defns_diags(st.consts_map(), defns@)
            =~= spec_defns_diags(st.consts_map(), defns@));
    }
    while i < n
        invariant
            st.wf(),
            n == defns@.len(),
            i <= n,
            spec_defns_diags(Map::empty(), defns@) == value_views(out@, 0) + spec_defns_diags(
                st.consts_map(),
                defns@.skip(i as int),
            ),
        decreases n - i,
    {
        let ghost tail = defns@.skip(i as int);
        assert(tail[0] == defns@[i as int]);
        assert(tail.drop_first() =~= defns@.skip(i + 1));
        match &defns[i] {
            Defn::Const(name, val) => {
                st.defconst(name.clone(), *val, None);
            },
            Defn::Typedef(name, ty) => {
                let ghost cm0 = st.consts_map();
                let ghost d0 = value_views(out@, 0);
                let mut prev: i64 = -1;
                if let Type::Enum(edefn) = ty {
                    let m: usize = edefn.len();
                    let mut j: usize = 0;
                    assert(edefn@.skip(0) =~= edefn@);
                    proof {
                        assert(value_views(out@, 0).skip(d0.len() as int) =~= Seq::<
                            ValueV,
                        >::empty());
                        assert(Seq::<ValueV>::empty() + spec_enum_diags(
                            st.consts_map(),
                            name@,
                            prev,
                            edefn@,
                        ) =~= spec_enum_diags(st.consts_map(), name@, prev, edefn@));
                    }
                    while j < m
                        invariant
                            st.wf(),
                            m == edefn@.len(),
                            j <= m,
                            d0.len() <= value_views(out@, 0).len(),
                            value_views(out@, 0).subrange(0, d0.len() as int) == d0,
                            spec_enum_diags(cm0, name@, (-1) as i64, edefn@) == value_views(
                                out@,
                                0,
                            ).skip(d0.len() as int) + spec_enum_diags(
                                st.consts_map(),
                                name@,
                                prev,
                                edefn@.skip(j as int),
                            ),
                            spec_enum_fold(cm0, name@, (-1) as i64, edefn@) == spec_enum_fold(
                                st.consts_map(),
                                name@,
                                prev,
                                edefn@.skip(j as int),
                            ),
                            spec_defns_diags(Map::empty(), defns@) == d0 + (spec_typedef_diags(
                                cm0,
                                name@,
                                *ty,
                            ) + spec_defns_diags(
                                spec_typedef_consts(cm0, name@, *ty),
                                defns@.skip(i + 1),
                            )),
                        decreases m - j,
                    {
                        let ghost etail = edefn@.skip(j as int);
                        assert(etail[0] == edefn@[j as int]);
                        assert(etail.drop_first() =~= edefn@.skip(j + 1));
                        let ghost outv0 = value_views(out@, 0);
                        let EnumDefn(mname, maybeval) = &edefn[j];
                        match maybeval {
                            Option::None => {
                                let v: i64 = if prev == i64::MAX {
                                    i64::MIN
                                } else {
                                    prev + 1
                                };
                                prev = v;
                                st.defconst(mname.clone(), v, Some(name.clone()));
                            },
                            Option::Some(val) => match st.value(val) {
                                Some(v) => {
                                    prev = v;
                                    st.defconst(mname.clone(), v, Some(name.clone()));
                                },
                                None => {
                                    let ghost outseq = out@;
                                    let cloned = value_clone(val);
                                    let ghost cv = value_view(cloned);
                                    out.push(cloned);
                                    proof {
                                        lemma_value_views_push(outseq, out@[out@.len() - 1]);
                                        assert(value_views(out@, 0) =~= outv0.push(cv));
                                        assert(value_views(out@, 0).subrange(0, d0.len() as int)
                                            =~= outv0.subrange(0, d0.len() as int));
                                        assert(value_views(out@, 0).skip(d0.len() as int)
                                            =~= outv0.skip(d0.len() as int) + seq![cv]);
                                        assert(outv0.skip(d0.len() as int) + seq![cv]
                                            + spec_enum_diags(
                                            st.consts_map(),
                                            name@,
                                            prev,
                                            edefn@.skip(j + 1),
                                        ) =~= outv0.skip(d0.len() as int) + (seq![cv]
                                            + spec_enum_diags(
                                            st.consts_map(),
                                            name@,
                                            prev,
                                            edefn@.skip(j + 1),
                                        )));
                                    }
                                },
                            },
                        }
                        j = j + 1;
                    }
                    proof {
                        assert(edefn@.skip(m as int) =~= Seq::<EnumDefn>::empty());
                        assert(value_views(out@, 0) =~= d0 + value_views(out@, 0).skip(
                            d0.len() as int,
                        ));
                        assert(d0 + spec_typedef_diags(cm0, name@, *ty) + spec_defns_diags(
                            spec_typedef_consts(cm0, name@, *ty),
                            defns@.skip(i + 1),
                        ) =~= (d0 + spec_typedef_diags(cm0, name@, *ty)) + spec_defns_diags(
                            spec_typedef_consts(cm0, name@, *ty),
                            defns@.skip(i + 1),
                        ));
                    }
                }
            },
        }
        i = i + 1;
    }
    assert(defns@.skip(n as int) =~= Seq::<Defn>::empty());
    assert(value_views(out@, 0) + Seq::<ValueV>::empty() =~= value_views(out@, 0));
    out
}

impl Symtab {
    /// Both tables are sorted.
    pub open spec fn wf(self) -> bool {
        &&& keys_sorted(self.consts@)
        &&& keys_sorted(self.typedefs@)
    }

    /// The constants table as a mapping from name to value and scope view.
    pub open spec fn consts_map(self) -> Map<Seq<char>, (i64, Option<Seq<char>>)> {
        assoc_map(self.consts@).map_values(|p: (i64, Option<String>)| abs_const(p))
    }

    /// The typedef table as a mapping from name to type.
    pub open spec fn typedefs_map(self) -> Map<Seq<char>, Type> {
        assoc_map(self.typedefs@)
    }

    /// Builds the table from a definition sequence in one pass.
    pub fn new(defns: Vec<Defn>) -> (r: Symtab)
        ensures
            r.wf(),
            (r.consts_map(), r.typedefs_map()) == spec_apply_defns(
                Map::empty(),
                Map::empty(),
                defns@,
            ),
    {
        let mut ret = Symtab { consts: Vec::new(), typedefs: Vec::new() };
        proof {
            assert(ret.consts_map() =~= Map::<Seq<char>, (i64, Option<Seq<char>>)>::empty());
            assert(ret.typedefs_map() =~= Map::<Seq<char>, Type>::empty());
        }
        ret.update_consts(defns);
        ret
    }

    /// Walks the definitions in order, registering each.
    fn update_consts(&mut self, defns: Vec<Defn>)
        requires
            old(self).wf(),
        ensures
            final(self).wf(),
            (final(self).consts_map(), final(self).typedefs_map()) == spec_apply_defns(
                old(self).consts_map(),
                old(self).typedefs_map(),
                defns@,
            ),
    {
        let ghost goal = spec_apply_defns(self.consts_map(), self.typedefs_map(), defns@);
        let mut rest = defns;
        while rest.len() > 0
            invariant
                self.wf(),
                spec_apply_defns(self.consts_map(), self.typedefs_map(), rest@) == goal,
            decreases rest@.len(),
        {
            let ghost r0 = rest@;
            let d = rest.remove(0);
            assert(rest@ =~= r0.drop_first());
            match d {
                Defn::Typedef(name, ty) => {
                    self.update_enum_consts(&name, &ty);
                    self.deftype(name, ty);
                },
                Defn::Const(name, val) => {
                    self.defconst(name, val, None);
                },
            }
        }
    }

    /// Registers the constants an enumerated type's members denote, scoped
    /// to the type's name.  Members that fail to resolve are dropped.
    fn update_enum_consts(&mut self, scope: &String, ty: &Type)
        requires
            old(self).wf(),
        ensures
            final(self).wf(),
            final(self).consts_map() == spec_typedef_consts(
                old(self).consts_map(),
                scope@,
                *ty,
            ),
            final(self).typedefs_map() == old(self).typedefs_map(),
    {
        let mut prev: i64 = -1;
        if let Type::Enum(edefn) = ty {
            let ghost goal = spec_enum_fold(self.consts_map(), scope@, (-1) as i64, edefn@);
            let n: usize = edefn.len();
            let mut i: usize = 0;
            assert(edefn@.skip(0) =~= edefn@);
            while i < n
                invariant
                    self.wf(),
                    n == edefn@.len(),
                    i <= n,
                    self.typedefs_map() == old(self).typedefs_map(),
                    spec_enum_fold(self.consts_map(), scope@, prev, edefn@.skip(i as int))
                        == goal,
                decreases n - i,
            {
                let ghost tail = edefn@.skip(i as int);
                assert(tail[0] == edefn@[i as int]);
                let EnumDefn(name, maybeval) = &edefn[i];
                let resolved: Option<i64> = match maybeval {
                    Option::None => {
                        if prev == i64::MAX {
                            Some(i64::MIN)
                        } else {
                            Some(prev + 1)
                        }
                    },
                    Option::Some(val) => self.value(val),
                };
                match resolved {
                    Some(v) => {
                        prev = v;
                        self.defconst(name.clone(), v, Some(scope.clone()));
                    },
                    None => {
                        // A member naming a constant not yet defined: it is
                        // dropped and does not advance the running value.
                    },
                }
                proof {
                    assert(tail.drop_first() =~= edefn@.skip(i + 1));
                }
                i = i + 1;
            }
            assert(edefn@.skip(n as int) =~= Seq::<EnumDefn>::empty());
        }
    }

    /// Binds a name to a constant value with an optional owning scope.
    fn defconst(&mut self, name: String, val: i64, scope: Option<String>)
        requires
            old(self).wf(),
        ensures
            final(self).wf(),
            final(self).consts_map() == old(self).consts_map().insert(
                name@,
                (val, opt_chars(scope)),
            ),
            final(self).typedefs_map() == old(self).typedefs_map(),
    {
        let ghost k = name@;
        let ghost a = opt_chars(scope);
        sorted_insert(&mut self.consts, name, (val, scope));
        proof {
            assert(self.consts_map() =~= old(self).consts_map().insert(k, (val, a)));
        }
    }

    /// Binds a name to a type.
    fn deftype(&mut self, name: String, ty: Type)
        requires
            old(self).wf(),
        ensures
            final(self).wf(),
            final(self).typedefs_map() == old(self).typedefs_map().insert(name@, ty),
            final(self).consts_map() == old(self).consts_map(),
    {
        sorted_insert(&mut self.typedefs, name, ty);
    }

    /// Looks a constant up by name.
    pub fn getconst(&self, name: &String) -> (r: Option<(i64, Option<String>)>)
        requires
            self.wf(),
        ensures
            match r {
                Some(p) => self.consts_map().contains_key(name@) && self.consts_map()[name@] == (
                    p.0,
                    opt_chars(p.1),
                ),
                None => !self.consts_map().contains_key(name@),
            },
    {
        match assoc_get(&self.consts, name) {
            None => None,
            Some(p) => {
                let v: i64 = p.0;
                let sc: Option<String> = match &p.1 {
                    Option::Some(s) => Some(s.clone()),
                    Option::None => None,
                };
                Some((v, sc))
            },
        }
    }

    /// Resolves a value: a literal as itself, an identifier through the
    /// constants table.
    pub fn value(&self, val: &Value) -> (r: Option<i64>)
        requires
            self.wf(),
        ensures
            r == spec_value(self.consts_map(), *val),
    {
        match val {
            Value::Const(c) => Some(*c),
            Value::Ident(id) => match self.getconst(id) {
                Some(p) => Some(p.0),
                None => None,
            },
        }
    }

    /// Looks a type definition up by name.
    pub fn typedef(&self, name: &String) -> (r: Option<&Type>)
        requires
            self.wf(),
        ensures
            match r {
                Some(t) => self.typedefs_map().contains_key(name@) && self.typedefs_map()[name@]
                    == *t,
                None => !self.typedefs_map().contains_key(name@),
            },
    {
        assoc_get(&self.typedefs, name)
    }

    /// The constants, ascending in lexicographic name order.
    pub fn constants(&self) -> (r: &Vec<(String, (i64, Option<String>))>)
        ensures
            r@ == self.consts@,
    {
        &self.consts
    }

    /// The type definitions, ascending in lexicographic name order.
    pub fn typedefs(&self) -> (r: &Vec<(String, Type)>)
        ensures
            r@ == self.typedefs@,
    {
        &self.typedefs
    }
}

} // verus!
