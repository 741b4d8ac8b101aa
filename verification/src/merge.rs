//! The inheritance merge: a library's own globals are laid over the
//! globals of its base, key by key, with deep merging of tables. The
//! `Removed` sentinel deletes the inherited name where it stands, and is
//! consumed at every depth: a finalized description never holds one.
use vstd::prelude::*;

use crate::field::{
    entries_wf_from, lemma_entries_wf_pointwise, lemma_map_of_contains, lemma_map_of_finite,
    map_of_from, Field, FieldMap, FieldModel,
};

verus! {

broadcast use {vstd::map::group_map_axioms, vstd::set::group_set_axioms};

/// A field with every `Removed` sentinel consumed: sentinels inside a
/// table are dropped, at every depth.
pub open spec fn strip_field(f: FieldModel) -> FieldModel
    decreases f, 0int,
{
    match f {
        FieldModel::Table(m) => FieldModel::Table(strip_map(m)),
        _ => f,
    }
}

/// A map with every `Removed` sentinel consumed: keys bound to the
/// sentinel are dropped, every other value is stripped in turn. A
/// description's maps are always finite; an infinite map stays as it is.
pub open spec fn strip_map(m: Map<Seq<char>, FieldModel>) -> Map<Seq<char>, FieldModel>
    decreases m, 1int,
{
    if m.dom().finite() {
        Map::new(
            |k: Seq<char>| m.dom().contains(k) && !(m[k] is Removed),
            |k: Seq<char>|
                if m.dom().contains(k) {
                    strip_field(m[k])
                } else {
                    m[k]
                },
        )
    } else {
        m
    }
}

/// No `Removed` sentinel stands in this field, at any depth.
pub open spec fn removed_free_field(f: FieldModel) -> bool
    decreases f, 0int,
{
    match f {
        FieldModel::Removed => false,
        FieldModel::Table(m) => removed_free_map(m),
        _ => true,
    }
}

/// No `Removed` sentinel stands anywhere in this map. A description's
/// maps are always finite; of an infinite map nothing is claimed.
pub open spec fn removed_free_map(m: Map<Seq<char>, FieldModel>) -> bool
    decreases m, 1int,
{
    if m.dom().finite() {
        forall|k: Seq<char>| #[trigger] m.dom().contains(k) ==> removed_free_field(m[k])
    } else {
        true
    }
}

/// The merge of one overriding field over one base field: two tables
/// merge their children deeply; any other pair is won by the override,
/// stripped of nested sentinels.
pub open spec fn merge_field(b: FieldModel, o: FieldModel) -> FieldModel
    decreases o, 0int,
{
    match o {
        FieldModel::Table(oc) => match b {
            FieldModel::Table(bc) => FieldModel::Table(merge_globals(bc, oc)),
            _ => strip_field(o),
        },
        _ => o,
    }
}

/// The merge of an overriding global map over a base map. A key whose
/// overriding value is `Removed` is deleted; a key present in both maps
/// merges by `merge_field`; a key only the override has takes the
/// override's value with nested sentinels stripped; a key only the base
/// has keeps the base's value. A description's maps are always finite;
/// on an infinite overriding map the merge is defined, vacuously, as
/// the base.
pub open spec fn merge_globals(
    b: Map<Seq<char>, FieldModel>,
    o: Map<Seq<char>, FieldModel>,
) -> Map<Seq<char>, FieldModel>
    decreases o, 1int,
{
    if o.dom().finite() {
        Map::new(
            |k: Seq<char>|
                (b.dom().contains(k) || o.dom().contains(k)) && !(o.dom().contains(k)
                    && o[k] is Removed),
            |k: Seq<char>|
                if o.dom().contains(k) {
                    if b.dom().contains(k) {
                        merge_field(b[k], o[k])
                    } else {
                        strip_field(o[k])
                    }
                } else {
                    b[k]
                },
        )
    } else {
        b
    }
}

/// Stripping consumes every sentinel: the rest of a stripped field is
/// sentinel-free.
proof fn lemma_strip_field_free(f: FieldModel)
    requires
        !(f is Removed),
    ensures
        removed_free_field(strip_field(f)),
    decreases f, 0int,
{
    match f {
        FieldModel::Table(m) => {
            lemma_strip_map_free(m);
        },
        _ => {},
    }
}

/// Stripping consumes every sentinel in a map.
pub proof fn lemma_strip_map_free(m: Map<Seq<char>, FieldModel>)
    ensures
        removed_free_map(strip_map(m)),
    decreases m, 1int,
{
    if m.dom().finite() {
        let sm = strip_map(m);
        if sm.dom().finite() {
            assert forall|k: Seq<char>| #[trigger] sm.dom().contains(k) implies removed_free_field(
                sm[k],
            ) by {
                assert(m.dom().contains(k) && !(m[k] is Removed));
                lemma_strip_field_free(m[k]);
                assert(sm[k] == strip_field(m[k]));
            }
        }
    }
}

/// The invariant of a finalized description: merging over a
/// sentinel-free base leaves no sentinel at any depth.
pub proof fn lemma_merge_removed_free(
    b: Map<Seq<char>, FieldModel>,
    o: Map<Seq<char>, FieldModel>,
)
    requires
        removed_free_map(b),
    ensures
        removed_free_map(merge_globals(b, o)),
    decreases o, 2int,
{
    if o.dom().finite() {
        let mg = merge_globals(b, o);
        if mg.dom().finite() {
            assert(b.dom().subset_of(mg.dom().union(o.dom()))) by {
                assert forall|k: Seq<char>| #[trigger] b.dom().contains(k) implies mg.dom().union(
                    o.dom(),
                ).contains(k) by {
                    if !o.dom().contains(k) {
                        assert(mg.dom().contains(k));
                    }
                }
            }
            vstd::set_lib::lemma_set_subset_finite(mg.dom().union(o.dom()), b.dom());
            assert(b.dom().finite());
            assert forall|k: Seq<char>| #[trigger] mg.dom().contains(k) implies removed_free_field(
                mg[k],
            ) by {
                if o.dom().contains(k) {
                    assert(!(o[k] is Removed));
                    if b.dom().contains(k) {
                        assert(removed_free_field(b[k]));
                        match (b[k], o[k]) {
                            (FieldModel::Table(bc), FieldModel::Table(oc)) => {
                                lemma_merge_removed_free(bc, oc);
                                assert(mg[k] == FieldModel::Table(merge_globals(bc, oc)));
                            },
                            _ => {
                                lemma_strip_field_free(o[k]);
                                assert(mg[k] == merge_field(b[k], o[k]));
                            },
                        }
                    } else {
                        lemma_strip_field_free(o[k]);
                        assert(mg[k] == strip_field(o[k]));
                    }
                } else {
                    assert(b.dom().contains(k));
                    assert(removed_free_field(b[k]));
                }
            }
        }
    }
}

/// On an empty base, the merge is exactly the strip.
pub proof fn lemma_strip_is_merge_empty(m: Map<Seq<char>, FieldModel>)
    requires
        m.dom().finite(),
    ensures
        merge_globals(Map::<Seq<char>, FieldModel>::empty(), m) =~= strip_map(m),
{
}

/// One step of the merge: lay a single overriding entry over the base map.
pub open spec fn merge_one(
    b: Map<Seq<char>, FieldModel>,
    k: Seq<char>,
    v: FieldModel,
) -> Map<Seq<char>, FieldModel> {
    if v is Removed {
        b.remove(k)
    } else if b.dom().contains(k) {
        b.insert(k, merge_field(b[k], v))
    } else {
        b.insert(k, strip_field(v))
    }
}

/// The overriding entries from index `i` on, laid over the base map in order.
pub open spec fn merge_entries_from(
    b: Map<Seq<char>, FieldModel>,
    s: Seq<(String, Field)>,
    i: int,
) -> Map<Seq<char>, FieldModel>
    decreases s.len() - i,
{
    if i < 0 || i >= s.len() {
        b
    } else {
        merge_entries_from(merge_one(b, s[i].0@, s[i].1@), s, i + 1)
    }
}

/// Merging an empty overriding map changes nothing.
proof fn lemma_merge_globals_empty(b: Map<Seq<char>, FieldModel>)
    ensures
        merge_globals(b, Map::<Seq<char>, FieldModel>::empty()) =~= b,
{
}

/// Laying one entry with a fresh key into the overriding map is the same
/// as applying that entry to the base first.
proof fn lemma_merge_globals_step(
    b: Map<Seq<char>, FieldModel>,
    m: Map<Seq<char>, FieldModel>,
    k: Seq<char>,
    v: FieldModel,
)
    requires
        m.dom().finite(),
        !m.dom().contains(k),
    ensures
        merge_globals(b, m.insert(k, v)) =~= merge_globals(merge_one(b, k, v), m),
{
    assert(m.insert(k, v).dom().finite());
}

/// Processing the entries one by one computes the merge of the map they
/// describe: the heart of the inflate step.
pub proof fn lemma_merge_entries_globals(
    b: Map<Seq<char>, FieldModel>,
    s: Seq<(String, Field)>,
    i: int,
)
    requires
        0 <= i <= s.len(),
        entries_wf_from(s, i),
    ensures
        merge_entries_from(b, s, i) =~= merge_globals(b, map_of_from(s, i)),
    decreases s.len() - i,
{
    lemma_map_of_finite(s, i);
    if i >= s.len() {
        lemma_merge_globals_empty(b);
    } else {
        let k = s[i].0@;
        let v = s[i].1@;
        lemma_map_of_finite(s, i + 1);
        lemma_map_of_contains(s, i + 1, k);
        lemma_entries_wf_pointwise(s, i);
        assert(!map_of_from(s, i + 1).dom().contains(k));
        lemma_merge_entries_globals(merge_one(b, k, v), s, i + 1);
        lemma_merge_globals_step(b, map_of_from(s, i + 1), k, v);
        assert(map_of_from(s, i) == map_of_from(s, i + 1).insert(k, v));
        assert(merge_entries_from(b, s, i) == merge_entries_from(merge_one(b, k, v), s, i + 1));
    }
}

/// Lay one overriding field over the map at key `k`.
fn merge_one_exec(b: FieldMap, k: &String, v: &Field) -> (r: FieldMap)
    requires
        b.wf(),
        v.wf(),
    ensures
        r.wf(),
        r@ == merge_one(b@, k@, v@),
    decreases v, 2int,
{
    let mut result = b;
    if let Field::Removed = v {
        let _ = result.take_entry(k);
        result
    } else {
        let taken = result.take_entry(k);
        let merged = match taken {
            Option::Some(existing) => merge_field_exec(existing, v),
            Option::None => strip_field_exec(v),
        };
        result.insert_entry(k.clone(), merged);
        proof {
            assert(result@ =~= merge_one(b@, k@, v@));
        }
        result
    }
}

/// Lay one overriding field over one base field.
fn merge_field_exec(b: Field, o: &Field) -> (r: Field)
    requires
        b.wf(),
        o.wf(),
    ensures
        r.wf(),
        r@ == merge_field(b@, o@),
    decreases o, 1int,
{
    match (b, o) {
        (Field::Table(bc), Field::Table(oc)) => {
            proof {
                lemma_map_of_finite(oc.0@, 0);
                lemma_merge_entries_globals(bc@, oc.0@, 0);
            }
            Field::Table(merge_entries_exec(bc, oc, 0))
        },
        (b_other, o) => {
            proof {
                assert(!(b_other@ is Table && o@ is Table));
            }
            strip_field_exec(o)
        },
    }
}

/// A copy of one field with every sentinel below it consumed.
fn strip_field_exec(o: &Field) -> (r: Field)
    requires
        o.wf(),
    ensures
        r.wf(),
        r@ == strip_field(o@),
    decreases o, 0int,
{
    match o {
        Field::Table(oc) => {
            let empty_seed = FieldMap::new_empty();
            proof {
                lemma_map_of_finite(oc.0@, 0);
                lemma_merge_entries_globals(empty_seed@, oc.0@, 0);
                lemma_strip_is_merge_empty(oc@);
            }
            Field::Table(merge_entries_exec(empty_seed, oc, 0))
        },
        _ => o.clone(),
    }
}

/// Lay the overriding entries from index `i` on over the base map, in order.
fn merge_entries_exec(b: FieldMap, o: &FieldMap, i: usize) -> (r: FieldMap)
    requires
        b.wf(),
        o.wf(),
        i <= o.0@.len(),
    ensures
        r.wf(),
        r@ == merge_entries_from(b@, o.0@, i as int),
    decreases o, o.0@.len() - i,
{
    if i == o.0.len() {
        b
    } else {
        proof {
            lemma_entries_wf_pointwise(o.0@, 0);
        }
        let acc = merge_one_exec(b, &o.0[i].0, &o.0[i].1);
        merge_entries_exec(acc, o, i + 1)
    }
}

/// Merge the overriding map `o` over the base map `b`: the result is
/// exactly `merge_globals` of the two models, and on a sentinel-free
/// base it is sentinel-free at every depth.
pub fn merge_maps(b: FieldMap, o: &FieldMap) -> (r: FieldMap)
    requires
        b.wf(),
        o.wf(),
    ensures
        r.wf(),
        r@ == merge_globals(b@, o@),
        removed_free_map(b@) ==> removed_free_map(r@),
{
    proof {
        lemma_merge_entries_globals(b@, o.0@, 0);
        if removed_free_map(b@) {
            lemma_merge_removed_free(b@, o@);
        }
    }
    merge_entries_exec(b, o, 0)
}

} // verus!
