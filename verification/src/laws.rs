use vstd::prelude::*;

use crate::compare::{object_diff_entries, spec_arrays, spec_extra_entries, spec_get,
    spec_objects, spec_pairs, spec_source_entries, spec_values};
use crate::diff::{SpecArrayDifference, SpecDifference, SpecEntryDifference, SpecTypeDifference};
use crate::value::{array_wf, entries_wf, lemma_array_wf_index, lemma_entries_wf_index,
    spec_type_of, unique_keys, value_wf, SpecValue};

verus! {

/// Looking a key up finds the first entry that carries it: if no entry
/// before `i` has the key of entry `i`, the lookup yields entry `i`'s
/// value.
pub proof fn lemma_spec_get_present(t: Seq<(Seq<char>, SpecValue)>, i: int)
    requires
        0 <= i < t.len(),
        forall|j: int| 0 <= j < i ==> t[j].0 != t[i].0,
    ensures
        spec_get(t, t[i].0) == Some(t[i].1),
    decreases i,
{
    if i > 0 {
        lemma_spec_get_present(t.drop_first(), i - 1);
        assert(t.drop_first()[i - 1] == t[i]);
        assert forall|j: int| 0 <= j < i - 1 implies #[trigger] t.drop_first()[j].0
            != t.drop_first()[i - 1].0 by {
            assert(t.drop_first()[j] == t[j + 1]);
        }
    }
}

/// Looking a key up that no entry carries yields nothing.
pub proof fn lemma_spec_get_absent(t: Seq<(Seq<char>, SpecValue)>, key: Seq<char>)
    requires
        forall|j: int| 0 <= j < t.len() ==> t[j].0 != key,
    ensures
        spec_get(t, key) is None,
    decreases t.len(),
{
    if t.len() > 0 {
        lemma_spec_get_absent(t.drop_first(), key);
    }
}

/// Dropping the last entry does not change a lookup whose key that entry
/// does not carry.
pub proof fn lemma_spec_get_drop_last(t: Seq<(Seq<char>, SpecValue)>, key: Seq<char>)
    requires
        t.len() > 0,
        t.last().0 != key,
    ensures
        spec_get(t, key) == spec_get(t.drop_last(), key),
    decreases t.len(),
{
    if t[0].0 == key {
        if t.len() == 1 {
            assert(t.last() == t[0]);
        }
        assert(t.drop_last()[0] == t[0]);
    } else if t.len() == 1 {
        assert(t.drop_first().len() == 0);
        assert(t.drop_last().len() == 0);
    } else {
        assert(t.drop_first().last() == t.last());
        lemma_spec_get_drop_last(t.drop_first(), key);
        assert(t.drop_first().drop_last() =~= t.drop_last().drop_first());
        assert(t.drop_last()[0] == t[0]);
    }
}

/// Reflexivity of the value comparison: a well-formed value does not
/// differ from itself.
pub proof fn lemma_values_reflexive(v: SpecValue)
    requires
        value_wf(v),
    ensures
        spec_values(v, v) is None,
    decreases v, 2int, 0int,
{
    match v {
        SpecValue::Array(s) => {
            lemma_arrays_reflexive(s);
        },
        SpecValue::Object(s) => {
            lemma_objects_reflexive(s);
        },
        _ => {},
    }
}

/// Reflexivity of the array comparison: a sequence of well-formed values
/// does not differ from itself.
pub proof fn lemma_arrays_reflexive(s: Seq<SpecValue>)
    requires
        array_wf(s),
    ensures
        spec_arrays(s, s) is None,
    decreases s, 1int, 0int,
{
    lemma_pairs_reflexive(s, s.len() as int);
}

/// No position of the shared prefix differs when both sides are the same
/// sequence.
proof fn lemma_pairs_reflexive(s: Seq<SpecValue>, n: int)
    requires
        array_wf(s),
        n <= s.len(),
    ensures
        spec_pairs(s, s, n) == Seq::<(int, crate::diff::SpecDifference)>::empty(),
    decreases s, 0int, n,
{
    if 0 < n <= s.len() {
        lemma_pairs_reflexive(s, n - 1);
        lemma_array_wf_index(s, n - 1);
        lemma_values_reflexive(s[n - 1]);
    }
}

/// Reflexivity of the object comparison: an object with distinct keys and
/// well-formed values does not differ from itself.
pub proof fn lemma_objects_reflexive(s: Seq<(Seq<char>, SpecValue)>)
    requires
        unique_keys(s),
        entries_wf(s),
    ensures
        spec_objects(s, s) is None,
    decreases s, 1int, 0int,
{
    assert(s.subrange(0, s.len() as int) =~= s);
    lemma_source_entries_reflexive(s, s);
    lemma_extra_entries_reflexive(s, s);
    assert((spec_source_entries(s, s) + spec_extra_entries(s, s)).len() == 0);
}

/// The source walk of an object against itself emits nothing: every key is
/// found and every value equals itself.
proof fn lemma_source_entries_reflexive(p: Seq<(Seq<char>, SpecValue)>, s: Seq<(Seq<char>, SpecValue)>)
    requires
        p.len() <= s.len(),
        p == s.subrange(0, p.len() as int),
        unique_keys(s),
        entries_wf(s),
    ensures
        spec_source_entries(p, s) == Seq::<(Seq<char>, crate::diff::SpecEntryDifference)>::empty(),
    decreases p, 0int, 0int,
{
    if p.len() > 0 {
        assert(p.drop_last() =~= s.subrange(0, p.len() as int - 1));
        lemma_source_entries_reflexive(p.drop_last(), s);
        let i = p.len() as int - 1;
        assert(p.last() == s[i]);
        lemma_spec_get_present(s, i);
        lemma_entries_wf_index(s, i);
        lemma_values_reflexive(s[i].1);
    }
}

/// The extra walk of an object against itself emits nothing: every key is
/// found in the other copy.
proof fn lemma_extra_entries_reflexive(s: Seq<(Seq<char>, SpecValue)>, q: Seq<(Seq<char>, SpecValue)>)
    requires
        q.len() <= s.len(),
        q == s.subrange(0, q.len() as int),
        unique_keys(s),
    ensures
        spec_extra_entries(s, q) == Seq::<(Seq<char>, crate::diff::SpecEntryDifference)>::empty(),
    decreases q.len(),
{
    if q.len() > 0 {
        assert(q.drop_last() =~= s.subrange(0, q.len() as int - 1));
        lemma_extra_entries_reflexive(s, q.drop_last());
        let i = q.len() as int - 1;
        assert(q.last() == s[i]);
        lemma_spec_get_present(s, i);
    }
}

/// Type-mismatch detection is symmetric: two values of different JSON
/// types always yield a type difference, and reversing the comparison
/// yields one with source and target swapped.
pub proof fn lemma_type_mismatch(a: SpecValue, b: SpecValue)
    requires
        spec_type_of(a) != spec_type_of(b),
    ensures
        spec_values(a, b) == Some(SpecDifference::Type(SpecTypeDifference {
            source_type: spec_type_of(a),
            target_type: spec_type_of(b),
            target_value: b,
        })),
        spec_values(b, a) == Some(SpecDifference::Type(SpecTypeDifference {
            source_type: spec_type_of(b),
            target_type: spec_type_of(a),
            target_value: a,
        })),
{
}

/// The shared prefix contributes no pairs exactly when no position of it
/// disagrees.
pub proof fn lemma_spec_pairs_empty(s: Seq<SpecValue>, t: Seq<SpecValue>, n: int)
    requires
        n <= s.len(),
        n <= t.len(),
    ensures
        spec_pairs(s, t, n).len() == 0 <==> (forall|i: int|
            0 <= i < n ==> spec_values(s[i], t[i]) is None),
    decreases n,
{
    if n > 0 {
        lemma_spec_pairs_empty(s, t, n - 1);
    }
}

/// Array length dominance: a longer source always yields `Shorter`, a
/// longer target always yields `Longer`; at equal lengths a positional
/// disagreement yields `PairsOnly` and full agreement yields nothing.
pub proof fn lemma_array_length_dominance(s: Seq<SpecValue>, t: Seq<SpecValue>)
    ensures
        s.len() > t.len() ==> (spec_arrays(s, t) matches Some(
            SpecArrayDifference::Shorter { .. },
        )),
        s.len() < t.len() ==> (spec_arrays(s, t) matches Some(
            SpecArrayDifference::Longer { .. },
        )),
        s.len() == t.len() && !(forall|i: int|
            0 <= i < s.len() ==> spec_values(s[i], t[i]) is None) ==> (spec_arrays(s, t) matches
            Some(SpecArrayDifference::PairsOnly { .. })),
        s.len() == t.len() && (forall|i: int|
            0 <= i < s.len() ==> spec_values(s[i], t[i]) is None) ==> spec_arrays(s, t) is None,
{
    let overlap = if s.len() <= t.len() {
        s.len() as int
    } else {
        t.len() as int
    };
    lemma_spec_pairs_empty(s, t, overlap);
}

/// A report is never present but empty: an array difference carries a
/// non-empty pair list wherever one is present, trailing elements only
/// when there are any, and an object difference carries at least one
/// entry.
pub proof fn lemma_no_empty_reports(
    s: Seq<SpecValue>,
    t: Seq<SpecValue>,
    os: Seq<(Seq<char>, SpecValue)>,
    ot: Seq<(Seq<char>, SpecValue)>,
)
    ensures
        match spec_arrays(s, t) {
            Some(SpecArrayDifference::PairsOnly { different_pairs }) => different_pairs.len() > 0,
            Some(SpecArrayDifference::Shorter { different_pairs, extra_elements }) => {
                &&& (different_pairs matches Some(p) ==> p.len() > 0)
                &&& extra_elements.len() > 0
            },
            Some(SpecArrayDifference::Longer { different_pairs, missing_elements }) => {
                &&& (different_pairs matches Some(p) ==> p.len() > 0)
                &&& missing_elements > 0
            },
            None => true,
        },
        spec_objects(os, ot) matches Some(es) ==> es.len() > 0,
{
}

/// The entries of a diff that carry the given key, in order.
pub open spec fn key_filter(es: Seq<(Seq<char>, SpecEntryDifference)>, key: Seq<char>) -> Seq<
    (Seq<char>, SpecEntryDifference),
>
    decreases es.len(),
{
    if es.len() == 0 {
        Seq::empty()
    } else if es.last().0 == key {
        key_filter(es.drop_last(), key).push(es.last())
    } else {
        key_filter(es.drop_last(), key)
    }
}

/// Filtering by key distributes over concatenation.
proof fn lemma_key_filter_add(
    x: Seq<(Seq<char>, SpecEntryDifference)>,
    y: Seq<(Seq<char>, SpecEntryDifference)>,
    key: Seq<char>,
)
    ensures
        key_filter(x + y, key) == key_filter(x, key) + key_filter(y, key),
    decreases y.len(),
{
    if y.len() == 0 {
        assert(x + y =~= x);
        assert(key_filter(x, key) + key_filter(y, key) =~= key_filter(x, key));
    } else {
        lemma_key_filter_add(x, y.drop_last(), key);
        assert((x + y).drop_last() =~= x + y.drop_last());
        assert((x + y).last() == y.last());
        if y.last().0 == key {
            assert(key_filter(x, key) + key_filter(y.drop_last(), key).push(y.last()) =~= (
            key_filter(x, key) + key_filter(y.drop_last(), key)).push(y.last()));
        }
    }
}

/// What the source walk contributes for one key: `Missing` when the
/// target lacks it, the recursive difference when both sides carry it and
/// disagree, nothing otherwise.
pub open spec fn source_key_outcome(
    s: Seq<(Seq<char>, SpecValue)>,
    t: Seq<(Seq<char>, SpecValue)>,
    key: Seq<char>,
) -> Seq<(Seq<char>, SpecEntryDifference)> {
    match spec_get(s, key) {
        None => Seq::empty(),
        Some(sv) => match spec_get(t, key) {
            None => seq![(key, SpecEntryDifference::Missing)],
            Some(tv) => match spec_values(sv, tv) {
                None => Seq::empty(),
                Some(d) => seq![(key, SpecEntryDifference::Deep { diff: d })],
            },
        },
    }
}

/// What the extra walk contributes for one key: `Extra` with the target's
/// value when only the target carries the key, nothing otherwise.
pub open spec fn extra_key_outcome(
    s: Seq<(Seq<char>, SpecValue)>,
    t: Seq<(Seq<char>, SpecValue)>,
    key: Seq<char>,
) -> Seq<(Seq<char>, SpecEntryDifference)> {
    match spec_get(t, key) {
        None => Seq::empty(),
        Some(tv) => if spec_get(s, key) is None {
            seq![(key, SpecEntryDifference::Extra { value: tv })]
        } else {
            Seq::empty()
        },
    }
}

/// The keys of a prefix are still pairwise distinct.
proof fn lemma_unique_keys_drop_last(s: Seq<(Seq<char>, SpecValue)>)
    requires
        unique_keys(s),
        s.len() > 0,
    ensures
        unique_keys(s.drop_last()),
{
    assert forall|i: int, j: int|
        0 <= i < j < s.drop_last().len() implies #[trigger] s.drop_last()[i].0
        != #[trigger] s.drop_last()[j].0 by {
        assert(s.drop_last()[i] == s[i]);
        assert(s.drop_last()[j] == s[j]);
    }
}

/// Filtering the source walk by a key leaves exactly that key's outcome.
proof fn lemma_source_entries_filter(
    s: Seq<(Seq<char>, SpecValue)>,
    t: Seq<(Seq<char>, SpecValue)>,
    key: Seq<char>,
)
    requires
        unique_keys(s),
    ensures
        key_filter(spec_source_entries(s, t), key) == source_key_outcome(s, t, key),
    decreases s.len(),
{
    if s.len() > 0 {
        let p = s.drop_last();
        let e = s.last();
        let rest = spec_source_entries(p, t);
        lemma_unique_keys_drop_last(s);
        lemma_source_entries_filter(p, t, key);
        if e.0 == key {
            assert forall|j: int| 0 <= j < p.len() implies #[trigger] p[j].0 != key by {
                assert(p[j] == s[j]);
                assert(s[j].0 != s[s.len() - 1].0);
            }
            lemma_spec_get_absent(p, key);
            lemma_spec_get_present(s, s.len() - 1);
            assert(key_filter(rest, key) =~= Seq::empty());
            match spec_get(t, key) {
                None => {
                    assert(spec_source_entries(s, t) == rest.push((key, SpecEntryDifference::Missing)));
                    assert(rest.push((key, SpecEntryDifference::Missing)).drop_last() =~= rest);
                    assert(key_filter(spec_source_entries(s, t), key) =~= seq![
                        (key, SpecEntryDifference::Missing),
                    ]);
                },
                Some(tv) => {
                    match spec_values(e.1, tv) {
                        None => {},
                        Some(d) => {
                            assert(rest.push(
                                (key, SpecEntryDifference::Deep { diff: d }),
                            ).drop_last() =~= rest);
                            assert(key_filter(spec_source_entries(s, t), key) =~= seq![
                                (key, SpecEntryDifference::Deep { diff: d }),
                            ]);
                        },
                    }
                },
            }
        } else {
            lemma_spec_get_drop_last(s, key);
            match spec_get(t, e.0) {
                None => {
                    assert(rest.push((e.0, SpecEntryDifference::Missing)).drop_last() =~= rest);
                },
                Some(tv) => {
                    match spec_values(e.1, tv) {
                        None => {},
                        Some(d) => {
                            assert(rest.push(
                                (e.0, SpecEntryDifference::Deep { diff: d }),
                            ).drop_last() =~= rest);
                        },
                    }
                },
            }
        }
    }
}

/// Filtering the extra walk by a key leaves exactly that key's outcome.
proof fn lemma_extra_entries_filter(
    s: Seq<(Seq<char>, SpecValue)>,
    t: Seq<(Seq<char>, SpecValue)>,
    key: Seq<char>,
)
    requires
        unique_keys(t),
    ensures
        key_filter(spec_extra_entries(s, t), key) == extra_key_outcome(s, t, key),
    decreases t.len(),
{
    if t.len() > 0 {
        let q = t.drop_last();
        let e = t.last();
        let rest = spec_extra_entries(s, q);
        lemma_unique_keys_drop_last(t);
        lemma_extra_entries_filter(s, q, key);
        if e.0 == key {
            assert forall|j: int| 0 <= j < q.len() implies #[trigger] q[j].0 != key by {
                assert(q[j] == t[j]);
                assert(t[j].0 != t[t.len() - 1].0);
            }
            lemma_spec_get_absent(q, key);
            lemma_spec_get_present(t, t.len() - 1);
            assert(key_filter(rest, key) =~= Seq::empty());
            if spec_get(s, key) is None {
                assert(rest.push(
                    (key, SpecEntryDifference::Extra { value: e.1 }),
                ).drop_last() =~= rest);
                assert(key_filter(spec_extra_entries(s, t), key) =~= seq![
                    (key, SpecEntryDifference::Extra { value: e.1 }),
                ]);
            }
        } else {
            lemma_spec_get_drop_last(t, key);
            if spec_get(s, e.0) is None {
                assert(rest.push(
                    (e.0, SpecEntryDifference::Extra { value: e.1 }),
                ).drop_last() =~= rest);
            }
        }
    }
}

/// Object totality: among the entries the object comparison reports, a
/// source key the target lacks appears exactly once, as `Missing`; a
/// target key the source lacks exactly once, as `Extra` with the target's
/// value; a shared key whose values disagree exactly once, as `Deep` with
/// their difference; and a key whose values agree, or that neither side
/// carries, not at all.
pub proof fn lemma_object_totality(
    s: Seq<(Seq<char>, SpecValue)>,
    t: Seq<(Seq<char>, SpecValue)>,
    key: Seq<char>,
)
    requires
        unique_keys(s),
        unique_keys(t),
    ensures
        key_filter(object_diff_entries(s, t), key) == source_key_outcome(s, t, key)
            + extra_key_outcome(s, t, key),
        spec_get(s, key) is Some && spec_get(t, key) is None ==> key_filter(
            object_diff_entries(s, t),
            key,
        ) == seq![(key, SpecEntryDifference::Missing)],
        spec_get(s, key) is None && spec_get(t, key) is Some ==> key_filter(
            object_diff_entries(s, t),
            key,
        ) == seq![(key, SpecEntryDifference::Extra { value: spec_get(t, key)->0 })],
        spec_get(s, key) is Some && spec_get(t, key) is Some && spec_values(
            spec_get(s, key)->0,
            spec_get(t, key)->0,
        ) is Some ==> key_filter(object_diff_entries(s, t), key) == seq![
            (key, SpecEntryDifference::Deep { diff: spec_values(spec_get(s, key)->0, spec_get(t, key)->0)->0 }),
        ],
        spec_get(s, key) is Some && spec_get(t, key) is Some && spec_values(
            spec_get(s, key)->0,
            spec_get(t, key)->0,
        ) is None ==> key_filter(object_diff_entries(s, t), key) == Seq::<
            (Seq<char>, SpecEntryDifference),
        >::empty(),
        spec_get(s, key) is None && spec_get(t, key) is None ==> key_filter(
            object_diff_entries(s, t),
            key,
        ) == Seq::<(Seq<char>, SpecEntryDifference)>::empty(),
{
    lemma_key_filter_add(spec_source_entries(s, t), spec_extra_entries(s, t), key);
    lemma_source_entries_filter(s, t, key);
    lemma_extra_entries_filter(s, t, key);
    let so = source_key_outcome(s, t, key);
    let eo = extra_key_outcome(s, t, key);
    assert(so + eo =~= if so.len() == 0 { eo } else { so }) by {
        assert(so.len() == 0 || eo.len() == 0);
    }
}

/// One-sided agreement of two values: they are scalars of the same
/// value, arrays of the same length that agree position by position, or
/// objects where every entry of the first finds its key in the second
/// with an agreeing value. Mutual agreement is equality of the trees with
/// object entry order disregarded.
pub open spec fn spec_included(a: SpecValue, b: SpecValue) -> bool
    decreases a, 2int, 0int,
{
    match (a, b) {
        (SpecValue::Null, SpecValue::Null) => true,
        (SpecValue::Bool(x), SpecValue::Bool(y)) => x == y,
        (SpecValue::Number(x), SpecValue::Number(y)) => x == y,
        (SpecValue::String(x), SpecValue::String(y)) => x == y,
        (SpecValue::Array(s), SpecValue::Array(t)) => s.len() == t.len() && included_prefix(
            s,
            t,
            s.len() as int,
        ),
        (SpecValue::Object(s), SpecValue::Object(t)) => included_entries(s, t),
        _ => false,
    }
}

/// The first `n` positions agree pairwise.
pub open spec fn included_prefix(s: Seq<SpecValue>, t: Seq<SpecValue>, n: int) -> bool
    decreases s, 0int, n,
{
    if n <= 0 || s.len() < n || t.len() < n {
        true
    } else {
        included_prefix(s, t, n - 1) && spec_included(s[n - 1], t[n - 1])
    }
}

/// Every entry of `s` finds its key in `t` with an agreeing value.
pub open spec fn included_entries(
    s: Seq<(Seq<char>, SpecValue)>,
    t: Seq<(Seq<char>, SpecValue)>,
) -> bool
    decreases s, 0int, 0int,
{
    if s.len() == 0 {
        true
    } else {
        included_entries(s.drop_last(), t) && (spec_get(t, s.last().0) matches Some(tv)
            && spec_included(s.last().1, tv))
    }
}

/// A found value is one of the entries' values.
pub proof fn lemma_spec_get_index(t: Seq<(Seq<char>, SpecValue)>, key: Seq<char>)
    ensures
        spec_get(t, key) matches Some(v) ==> exists|j: int|
            0 <= j < t.len() && t[j].0 == key && t[j].1 == v,
    decreases t.len(),
{
    if t.len() > 0 && t[0].0 != key {
        lemma_spec_get_index(t.drop_first(), key);
        if spec_get(t, key) is Some {
            let j = choose|j: int|
                0 <= j < t.drop_first().len() && t.drop_first()[j].0 == key && t.drop_first()[
                    j
                ].1 == spec_get(t, key)->0;
            assert(t[j + 1] == t.drop_first()[j]);
        }
    }
}

/// The first `n` positions agree pairwise exactly when each of them does.
proof fn lemma_included_prefix_index(s: Seq<SpecValue>, t: Seq<SpecValue>, n: int)
    requires
        n <= s.len(),
        n <= t.len(),
    ensures
        included_prefix(s, t, n) <==> (forall|i: int|
            0 <= i < n ==> spec_included(s[i], t[i])),
    decreases n,
{
    if n > 0 {
        lemma_included_prefix_index(s, t, n - 1);
    }
}

/// Every entry of `s` is matched in `t` exactly when each of them is.
proof fn lemma_included_entries_index(
    s: Seq<(Seq<char>, SpecValue)>,
    t: Seq<(Seq<char>, SpecValue)>,
)
    ensures
        included_entries(s, t) <==> (forall|i: int|
            0 <= i < s.len() ==> (#[trigger] spec_get(t, s[i].0) matches Some(tv) && spec_included(
                s[i].1,
                tv,
            ))),
    decreases s.len(),
{
    if s.len() > 0 {
        lemma_included_entries_index(s.drop_last(), t);
        assert forall|i: int| 0 <= i < s.len() - 1 implies s.drop_last()[i] == s[i] by {}
        assert(s.last() == s[s.len() - 1]);
    }
}

/// The source walk emits nothing exactly when every source entry finds
/// its key in the target with a value the comparison accepts.
proof fn lemma_source_entries_empty(
    s: Seq<(Seq<char>, SpecValue)>,
    t: Seq<(Seq<char>, SpecValue)>,
)
    ensures
        spec_source_entries(s, t).len() == 0 <==> (forall|i: int|
            0 <= i < s.len() ==> (#[trigger] spec_get(t, s[i].0) matches Some(tv) && spec_values(
                s[i].1,
                tv,
            ) is None)),
    decreases s.len(),
{
    if s.len() > 0 {
        lemma_source_entries_empty(s.drop_last(), t);
        assert forall|i: int| 0 <= i < s.len() - 1 implies s.drop_last()[i] == s[i] by {}
        assert(s.last() == s[s.len() - 1]);
    }
}

/// The extra walk emits nothing exactly when every target key is found in
/// the source.
proof fn lemma_extra_entries_empty(
    s: Seq<(Seq<char>, SpecValue)>,
    t: Seq<(Seq<char>, SpecValue)>,
)
    ensures
        spec_extra_entries(s, t).len() == 0 <==> (forall|j: int|
            0 <= j < t.len() ==> spec_get(s, t[j].0) is Some),
    decreases t.len(),
{
    if t.len() > 0 {
        lemma_extra_entries_empty(s, t.drop_last());
        assert forall|j: int| 0 <= j < t.len() - 1 implies t.drop_last()[j] == t[j] by {}
        assert(t.last() == t[t.len() - 1]);
    }
}

/// Absence means equality: the comparison of two well-formed values
/// yields nothing exactly when they agree in both directions — equal
/// scalars, arrays that agree position by position, objects equal as
/// key/value collections with entry order disregarded.
pub proof fn lemma_none_iff_equal(a: SpecValue, b: SpecValue)
    requires
        value_wf(a),
        value_wf(b),
    ensures
        spec_values(a, b) is None <==> (spec_included(a, b) && spec_included(b, a)),
    decreases a, 2int, 0int,
{
    match (a, b) {
        (SpecValue::Array(s), SpecValue::Array(t)) => {
            if s.len() == t.len() {
                let n = s.len() as int;
                lemma_spec_pairs_empty(s, t, n);
                lemma_included_prefix_index(s, t, n);
                lemma_included_prefix_index(t, s, n);
                if spec_values(a, b) is None {
                    assert forall|i: int|
                        0 <= i < n implies (#[trigger] spec_included(s[i], t[i]))
                        && spec_included(t[i], s[i]) by {
                        assert(spec_values(s[i], t[i]) is None);
                        lemma_array_wf_index(s, i);
                        lemma_array_wf_index(t, i);
                        lemma_none_iff_equal(s[i], t[i]);
                    }
                }
                if spec_included(a, b) && spec_included(b, a) {
                    assert forall|i: int|
                        0 <= i < n implies #[trigger] spec_values(s[i], t[i]) is None by {
                        assert(spec_included(s[i], t[i]));
                        assert(spec_included(t[i], s[i]));
                        lemma_array_wf_index(s, i);
                        lemma_array_wf_index(t, i);
                        lemma_none_iff_equal(s[i], t[i]);
                    }
                }
            }
        },
        (SpecValue::Object(s), SpecValue::Object(t)) => {
            lemma_source_entries_empty(s, t);
            lemma_extra_entries_empty(s, t);
            lemma_included_entries_index(s, t);
            lemma_included_entries_index(t, s);
            if spec_values(a, b) is None {
                assert(spec_source_entries(s, t).len() == 0);
                assert(spec_extra_entries(s, t).len() == 0);
                assert forall|i: int|
                    0 <= i < s.len() implies (#[trigger] spec_get(t, s[i].0) matches Some(tv)
                    && spec_included(s[i].1, tv)) by {
                    let tv = spec_get(t, s[i].0)->0;
                    lemma_entries_wf_index(s, i);
                    lemma_spec_get_index(t, s[i].0);
                    let j = choose|j: int|
                        0 <= j < t.len() && t[j].0 == s[i].0 && t[j].1 == tv;
                    lemma_entries_wf_index(t, j);
                    lemma_none_iff_equal(s[i].1, tv);
                }
                assert forall|j: int|
                    0 <= j < t.len() implies (#[trigger] spec_get(s, t[j].0) matches Some(sv)
                    && spec_included(t[j].1, sv)) by {
                    let k = t[j].0;
                    let sv = spec_get(s, k)->0;
                    lemma_spec_get_index(s, k);
                    let i = choose|i: int| 0 <= i < s.len() && s[i].0 == k && s[i].1 == sv;
                    assert(spec_get(t, s[i].0) matches Some(tv) && spec_values(s[i].1, tv) is None);
                    assert forall|j2: int| 0 <= j2 < j implies t[j2].0 != t[j].0 by {}
                    lemma_spec_get_present(t, j);
                    lemma_entries_wf_index(s, i);
                    lemma_entries_wf_index(t, j);
                    lemma_none_iff_equal(sv, t[j].1);
                }
            }
            if spec_included(a, b) && spec_included(b, a) {
                assert forall|j: int| 0 <= j < t.len() implies #[trigger] spec_get(
                    s,
                    t[j].0,
                ) is Some by {
                    assert(spec_get(s, t[j].0) matches Some(sv) && spec_included(t[j].1, sv));
                }
                assert(spec_extra_entries(s, t).len() == 0);
                assert forall|i: int|
                    0 <= i < s.len() implies (#[trigger] spec_get(t, s[i].0) matches Some(tv)
                    && spec_values(s[i].1, tv) is None) by {
                    let k = s[i].0;
                    assert(spec_get(t, k) matches Some(tv2) && spec_included(s[i].1, tv2));
                    let tv = spec_get(t, k)->0;
                    lemma_spec_get_index(t, k);
                    let j = choose|j: int| 0 <= j < t.len() && t[j].0 == k && t[j].1 == tv;
                    assert(spec_get(s, t[j].0) matches Some(sv) && spec_included(t[j].1, sv));
                    assert forall|i2: int| 0 <= i2 < i implies s[i2].0 != s[i].0 by {}
                    lemma_spec_get_present(s, i);
                    lemma_entries_wf_index(s, i);
                    lemma_entries_wf_index(t, j);
                    lemma_none_iff_equal(s[i].1, tv);
                }
                assert(spec_source_entries(s, t).len() == 0);
                assert(object_diff_entries(s, t).len() == 0);
            }
        },
        _ => {},
    }
}

} // verus!
