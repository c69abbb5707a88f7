use vstd::prelude::*;

use crate::diff::{entry_map_model, lemma_entry_map_model_len,
    lemma_entry_map_model_push, lemma_pairs_model_len, lemma_pairs_model_push,
    opt_array_difference_model, opt_difference_model, opt_entry_map_model, pairs_model,
    ArrayDifference, Difference, DumbMap, EntryDifference, ScalarDifference,
    SpecArrayDifference, SpecDifference, SpecEntryDifference, SpecScalarDifference,
    SpecTypeDifference, TypeDifference};
use crate::value::{array_model, clone_value, lemma_array_model, lemma_object_model,
    lemma_value_model_variant, object_model,
    spec_type_of, type_of, value_model, SpecValue, Value};

verus! {

/// What comparing two values yields: `None` exactly when the two models
/// agree; otherwise the difference tree that the engine reports.
pub open spec fn spec_values(a: SpecValue, b: SpecValue) -> Option<SpecDifference>
    decreases a, 2int, 0int,
{
    match (a, b) {
        (SpecValue::Null, SpecValue::Null) => None,
        (SpecValue::Bool(source), SpecValue::Bool(target)) => if source == target {
            None
        } else {
            Some(SpecDifference::Scalar(SpecScalarDifference::Bool { source, target }))
        },
        (SpecValue::Number(source), SpecValue::Number(target)) => if source == target {
            None
        } else {
            Some(SpecDifference::Scalar(SpecScalarDifference::Number { source, target }))
        },
        (SpecValue::String(source), SpecValue::String(target)) => if source == target {
            None
        } else {
            Some(SpecDifference::Scalar(SpecScalarDifference::String { source, target }))
        },
        (SpecValue::Array(s), SpecValue::Array(t)) => match spec_arrays(s, t) {
            None => None,
            Some(d) => Some(SpecDifference::Array(d)),
        },
        (SpecValue::Object(s), SpecValue::Object(t)) => match spec_objects(s, t) {
            None => None,
            Some(m) => Some(SpecDifference::Object(m)),
        },
        (source, target) => Some(SpecDifference::Type(SpecTypeDifference {
            source_type: spec_type_of(source),
            target_type: spec_type_of(target),
            target_value: target,
        })),
    }
}

/// What comparing two arrays yields. The overlapping prefix is compared
/// position by position; the relative length picks the variant, and an
/// empty pair list is reported as absence.
pub open spec fn spec_arrays(s: Seq<SpecValue>, t: Seq<SpecValue>) -> Option<SpecArrayDifference>
    decreases s, 1int, 0int,
{
    let overlap = if s.len() <= t.len() {
        s.len() as int
    } else {
        t.len() as int
    };
    let pairs = spec_pairs(s, t, overlap);
    let different_pairs = if pairs.len() == 0 {
        None
    } else {
        Some(pairs)
    };
    if s.len() > t.len() {
        Some(SpecArrayDifference::Shorter {
            different_pairs,
            extra_elements: s.subrange(t.len() as int, s.len() as int),
        })
    } else if t.len() > s.len() {
        Some(SpecArrayDifference::Longer {
            different_pairs,
            missing_elements: t.len() - s.len(),
        })
    } else if pairs.len() == 0 {
        None
    } else {
        Some(SpecArrayDifference::PairsOnly { different_pairs: pairs })
    }
}

/// The `(index, difference)` pairs for the first `n` positions of `s` and
/// `t`, in ascending index order; positions that agree are omitted.
pub open spec fn spec_pairs(s: Seq<SpecValue>, t: Seq<SpecValue>, n: int) -> Seq<
    (int, SpecDifference),
>
    decreases s, 0int, n,
{
    if n <= 0 || s.len() < n || t.len() < n {
        Seq::empty()
    } else {
        let rest = spec_pairs(s, t, n - 1);
        match spec_values(s[n - 1], t[n - 1]) {
            None => rest,
            Some(d) => rest.push((n - 1, d)),
        }
    }
}

/// The value at the first entry of `t` whose key is `key`, if any.
pub open spec fn spec_get(t: Seq<(Seq<char>, SpecValue)>, key: Seq<char>) -> Option<SpecValue>
    decreases t.len(),
{
    if t.len() == 0 {
        None
    } else if t[0].0 == key {
        Some(t[0].1)
    } else {
        spec_get(t.drop_first(), key)
    }
}

/// The entries the object comparison emits while walking the source: for
/// each source key in source order, `Missing` if the target lacks it, the
/// recursive difference if the values disagree, nothing if they agree.
pub open spec fn spec_source_entries(
    s: Seq<(Seq<char>, SpecValue)>,
    t: Seq<(Seq<char>, SpecValue)>,
) -> Seq<(Seq<char>, SpecEntryDifference)>
    decreases s, 0int, 0int,
{
    if s.len() == 0 {
        Seq::empty()
    } else {
        let rest = spec_source_entries(s.drop_last(), t);
        let key = s.last().0;
        match spec_get(t, key) {
            None => rest.push((key, SpecEntryDifference::Missing)),
            Some(tv) => match spec_values(s.last().1, tv) {
                None => rest,
                Some(d) => rest.push((key, SpecEntryDifference::Deep { diff: d })),
            },
        }
    }
}

/// The entries the object comparison emits after the source walk: one
/// `Extra` for each target key that the source lacks, in target order.
pub open spec fn spec_extra_entries(
    s: Seq<(Seq<char>, SpecValue)>,
    t: Seq<(Seq<char>, SpecValue)>,
) -> Seq<(Seq<char>, SpecEntryDifference)>
    decreases t.len(),
{
    if t.len() == 0 {
        Seq::empty()
    } else {
        let rest = spec_extra_entries(s, t.drop_last());
        if spec_get(s, t.last().0) is Some {
            rest
        } else {
            rest.push((t.last().0, SpecEntryDifference::Extra { value: t.last().1 }))
        }
    }
}

/// Every entry the object comparison reports: the source-walk entries
/// followed by the target-only entries.
pub open spec fn object_diff_entries(
    s: Seq<(Seq<char>, SpecValue)>,
    t: Seq<(Seq<char>, SpecValue)>,
) -> Seq<(Seq<char>, SpecEntryDifference)>
    decreases s, 0int, 1int,
{
    spec_source_entries(s, t) + spec_extra_entries(s, t)
}

/// What comparing two objects yields: the source-walk entries followed by
/// the target-only entries, or absence when nothing disagrees.
pub open spec fn spec_objects(
    s: Seq<(Seq<char>, SpecValue)>,
    t: Seq<(Seq<char>, SpecValue)>,
) -> Option<Seq<(Seq<char>, SpecEntryDifference)>>
    decreases s, 1int, 0int,
{
    let entries = object_diff_entries(s, t);
    if entries.len() == 0 {
        None
    } else {
        Some(entries)
    }
}

/// The index of the first entry whose key is `key`, tied to what
/// [`spec_get`] finds in the entry list's model.
#[verifier::loop_isolation(false)]
fn find_entry(entries: &Vec<(String, Value)>, key: &String) -> (r: Option<usize>)
    ensures
        match r {
            Some(j) => {
                &&& j < entries@.len()
                &&& entries@[j as int].0@ == key@
                &&& spec_get(object_model(entries@), key@) == Some(
                    value_model(entries@[j as int].1),
                )
            },
            None => spec_get(object_model(entries@), key@) is None,
        },
{
    let ghost om = object_model(entries@);
    proof {
        lemma_object_model(entries@);
        assert(om.subrange(0, om.len() as int) =~= om);
    }
    let mut i: usize = 0;
    while i < entries.len()
        invariant
            i <= entries.len(),
            spec_get(om.subrange(i as int, om.len() as int), key@) == spec_get(om, key@),
        decreases entries.len() - i,
    {
        proof {
            assert(om.subrange(i as int, om.len() as int)[0] == om[i as int]);
        }
        if entries[i].0 == *key {
            return Some(i);
        }
        proof {
            assert(om.subrange(i as int, om.len() as int).drop_first() =~= om.subrange(
                i as int + 1,
                om.len() as int,
            ));
        }
        i = i + 1;
    }
    None
}

/// Compares two values. The result is `None` or one difference, and its
/// model is exactly what [`spec_values`] yields on the two value models.
fn cmp_values(a: &Value, b: &Value) -> (r: Option<Difference>)
    ensures
        opt_difference_model(r) == spec_values(value_model(*a), value_model(*b)),
    decreases *a, 2int, 0int,
{
    match (a, b) {
        (Value::Null, Value::Null) => None,
        (Value::Bool(source), Value::Bool(target)) => {
            if *source == *target {
                None
            } else {
                Some(
                    Difference::Scalar(
                        ScalarDifference::Bool { source: *source, target: *target },
                    ),
                )
            }
        },
        (Value::Number(source), Value::Number(target)) => {
            if *source == *target {
                None
            } else {
                Some(
                    Difference::Scalar(
                        ScalarDifference::Number { source: *source, target: *target },
                    ),
                )
            }
        },
        (Value::String(source), Value::String(target)) => {
            if *source == *target {
                None
            } else {
                Some(
                    Difference::Scalar(
                        ScalarDifference::String {
                            source: source.clone(),
                            target: target.clone(),
                        },
                    ),
                )
            }
        },
        (Value::Array(s), Value::Array(t)) => {
            match cmp_arrays(s, t) {
                None => None,
                Some(d) => Some(Difference::Array(d)),
            }
        },
        (Value::Object(s), Value::Object(t)) => {
            match cmp_objects(s, t) {
                None => None,
                Some(m) => Some(Difference::Object(m)),
            }
        },
        _ => {
            proof {
                lemma_value_model_variant(*a);
                lemma_value_model_variant(*b);
            }
            let source_type = type_of(a);
            let target_type = type_of(b);
            let target_value = clone_value(b);
            Some(Difference::Type(TypeDifference { source_type, target_type, target_value }))
        },
    }
}

/// Compares two arrays: the shared prefix position by position, then the
/// lengths. The result's model is what [`spec_arrays`] yields on the two
/// array models.
#[verifier::loop_isolation(false)]
fn cmp_arrays(source: &Vec<Value>, target: &Vec<Value>) -> (r: Option<ArrayDifference>)
    ensures
        opt_array_difference_model(r) == spec_arrays(array_model(source@), array_model(target@)),
    decreases *source, 1int, 0int,
{
    let ghost sm = array_model(source@);
    let ghost tm = array_model(target@);
    proof {
        lemma_array_model(source@);
        lemma_array_model(target@);
    }
    let overlap: usize = if source.len() <= target.len() {
        source.len()
    } else {
        target.len()
    };
    let mut different_pairs: Vec<(usize, Difference)> = Vec::new();
    let mut i: usize = 0;
    while i < overlap
        invariant
            i <= overlap,
            pairs_model(different_pairs@) == spec_pairs(sm, tm, i as int),
        decreases overlap - i,
    {
        match cmp_values(&source[i], &target[i]) {
            None => {},
            Some(d) => {
                let p = (i, d);
                proof {
                    lemma_pairs_model_push(different_pairs@, p);
                }
                different_pairs.push(p);
            },
        }
        i = i + 1;
    }
    let pairs_empty = different_pairs.len() == 0;
    proof {
        lemma_pairs_model_len(different_pairs@);
    }
    if source.len() > target.len() {
        let mut extra_elements: Vec<Value> = Vec::new();
        let mut j: usize = overlap;
        while j < source.len()
            invariant
                overlap <= j <= source.len(),
                extra_elements@.len() == j - overlap,
                forall|k: int|
                    0 <= k < j - overlap ==> value_model(extra_elements@[k]) == sm[overlap + k],
            decreases source.len() - j,
        {
            let e = clone_value(&source[j]);
            extra_elements.push(e);
            j = j + 1;
        }
        proof {
            lemma_array_model(extra_elements@);
            assert(array_model(extra_elements@) =~= sm.subrange(tm.len() as int, sm.len() as int));
        }
        let different_pairs = if pairs_empty {
            None
        } else {
            Some(DumbMap(different_pairs))
        };
        Some(ArrayDifference::Shorter { different_pairs, extra_elements })
    } else if target.len() > source.len() {
        let missing_elements = target.len() - source.len();
        let different_pairs = if pairs_empty {
            None
        } else {
            Some(DumbMap(different_pairs))
        };
        Some(ArrayDifference::Longer { different_pairs, missing_elements })
    } else if pairs_empty {
        None
    } else {
        Some(ArrayDifference::PairsOnly { different_pairs: DumbMap(different_pairs) })
    }
}

/// Compares two objects: a walk over the source entries in order, then the
/// target entries whose keys the source lacks, in order. The result's
/// model is what [`spec_objects`] yields on the two entry-list models.
#[verifier::loop_isolation(false)]
#[verifier::rlimit(60)]
fn cmp_objects(source: &Vec<(String, Value)>, target: &Vec<(String, Value)>) -> (r: Option<
    DumbMap<String, EntryDifference>,
>)
    ensures
        opt_entry_map_model(r) == spec_objects(object_model(source@), object_model(target@)),
    decreases *source, 1int, 0int,
{
    let ghost sm = object_model(source@);
    let ghost tm = object_model(target@);
    proof {
        lemma_object_model(source@);
        lemma_object_model(target@);
    }
    let mut entries: Vec<(String, EntryDifference)> = Vec::new();
    let mut i: usize = 0;
    while i < source.len()
        invariant
            i <= source.len(),
            entry_map_model(entries@) == spec_source_entries(sm.subrange(0, i as int), tm),
        decreases source.len() - i,
    {
        let ghost pre = sm.subrange(0, i as int);
        let ghost cur = sm.subrange(0, i as int + 1);
        proof {
            assert(cur.drop_last() =~= pre);
        }
        match find_entry(target, &source[i].0) {
            None => {
                let key = source[i].0.clone();
                let p = (key, EntryDifference::Missing);
                proof {
                    lemma_entry_map_model_push(entries@, p);
                }
                entries.push(p);
            },
            Some(j) => {
                match cmp_values(&source[i].1, &target[j].1) {
                    None => {},
                    Some(d) => {
                        let key = source[i].0.clone();
                        let p = (key, EntryDifference::Deep { diff: d });
                        proof {
                            lemma_entry_map_model_push(entries@, p);
                        }
                        entries.push(p);
                    },
                }
            },
        }
        i = i + 1;
    }
    proof {
        assert(sm.subrange(0, sm.len() as int) =~= sm);
        assert(entry_map_model(entries@) + spec_extra_entries(sm, tm.subrange(0, 0)) =~= entry_map_model(entries@));
    }
    let mut j: usize = 0;
    while j < target.len()
        invariant
            j <= target.len(),
            entry_map_model(entries@) == spec_source_entries(sm, tm) + spec_extra_entries(
                sm,
                tm.subrange(0, j as int),
            ),
        decreases target.len() - j,
    {
        let ghost pre = tm.subrange(0, j as int);
        let ghost cur = tm.subrange(0, j as int + 1);
        proof {
            assert(cur.drop_last() =~= pre);
        }
        match find_entry(source, &target[j].0) {
            Some(_) => {},
            None => {
                let key = target[j].0.clone();
                let value = clone_value(&target[j].1);
                let p = (key, EntryDifference::Extra { value });
                proof {
                    lemma_entry_map_model_push(entries@, p);
                }
                entries.push(p);
            },
        }
        proof {
            assert(entry_map_model(entries@) =~= spec_source_entries(sm, tm)
                + spec_extra_entries(sm, cur));
        }
        j = j + 1;
    }
    proof {
        assert(tm.subrange(0, tm.len() as int) =~= tm);
        lemma_entry_map_model_len(entries@);
    }
    if entries.len() == 0 {
        None
    } else {
        Some(DumbMap(entries))
    }
}

/// Compares two values and reports how they disagree, or `None` when they
/// do not. The result's model is exactly [`spec_values`] of the two value
/// models.
pub fn values(a: Value, b: Value) -> (r: Option<Difference>)
    ensures
        opt_difference_model(r) == spec_values(value_model(a), value_model(b)),
{
    cmp_values(&a, &b)
}

/// Compares two arrays positionally and reports how they disagree, or
/// `None` when they do not. The result's model is exactly [`spec_arrays`]
/// of the two array models.
pub fn arrays(source: Vec<Value>, target: Vec<Value>) -> (r: Option<ArrayDifference>)
    ensures
        opt_array_difference_model(r) == spec_arrays(array_model(source@), array_model(target@)),
{
    cmp_arrays(&source, &target)
}

/// Compares two objects key by key and reports how they disagree, or
/// `None` when they do not. The result's model is exactly [`spec_objects`]
/// of the two entry-list models.
pub fn objects(a: Vec<(String, Value)>, b: Vec<(String, Value)>) -> (r: Option<
    DumbMap<String, EntryDifference>,
>)
    ensures
        opt_entry_map_model(r) == spec_objects(object_model(a@), object_model(b@)),
{
    cmp_objects(&a, &b)
}

} // verus!
