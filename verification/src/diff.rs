use vstd::prelude::*;

use crate::value::{array_model, value_model, Number, SpecValue, Type, Value};

verus! {

/// An ordered list of key/value pairs. It stands in for a map wherever the
/// diff has to report entries in the order they were discovered, which a
/// sorted map would destroy.
#[derive(Debug, PartialEq)]
pub struct DumbMap<K, V>(pub Vec<(K, V)>);

/// The outcome for one key when two objects are compared.
#[derive(Debug, PartialEq)]
pub enum EntryDifference {
    /// The key is present in the target but absent from the source; carries
    /// the target's value.
    Extra { value: Value },
    /// The key is present in the source but absent from the target.
    Missing,
    /// The key is present in both; carries the recursive difference of the
    /// two values.
    Deep { diff: Difference },
}

/// The outcome when two arrays are compared, shaped by their relative
/// length. `different_pairs` always covers the overlapping prefix and is
/// absent rather than empty.
#[allow(inconsistent_fields)]
#[derive(Debug, PartialEq)]
pub enum ArrayDifference {
    /// Equal length, at least one mismatching position.
    PairsOnly { different_pairs: DumbMap<usize, Difference> },
    /// The source is longer; its unmatched trailing elements are carried
    /// verbatim.
    Shorter {
        different_pairs: Option<DumbMap<usize, Difference>>,
        extra_elements: Vec<Value>,
    },
    /// The target is longer; only the count of its unmatched trailing
    /// elements is carried.
    Longer {
        different_pairs: Option<DumbMap<usize, Difference>>,
        missing_elements: usize,
    },
}

/// Two values of the same primitive type that differ.
#[allow(inconsistent_fields)]
#[derive(Debug, PartialEq)]
pub enum ScalarDifference {
    Bool { source: bool, target: bool },
    String { source: String, target: String },
    Number { source: Number, target: Number },
}

/// Two values of different JSON types; carries the full target value so a
/// consumer can render what replaced the expected type.
#[derive(Debug, PartialEq)]
pub struct TypeDifference {
    pub source_type: Type,
    pub target_type: Type,
    pub target_value: Value,
}

/// The root of the diff output: one disagreement between two values.
#[derive(Debug, PartialEq)]
pub enum Difference {
    Scalar(ScalarDifference),
    Type(TypeDifference),
    Array(ArrayDifference),
    Object(DumbMap<String, EntryDifference>),
}

/// The model of an [`EntryDifference`].
#[verifier::ext_equal]
pub enum SpecEntryDifference {
    Extra { value: SpecValue },
    Missing,
    Deep { diff: SpecDifference },
}

/// The model of an [`ArrayDifference`]; index maps become sequences of
/// `(index, difference)` pairs.
#[allow(inconsistent_fields)]
#[verifier::ext_equal]
pub enum SpecArrayDifference {
    PairsOnly { different_pairs: Seq<(int, SpecDifference)> },
    Shorter {
        different_pairs: Option<Seq<(int, SpecDifference)>>,
        extra_elements: Seq<SpecValue>,
    },
    Longer {
        different_pairs: Option<Seq<(int, SpecDifference)>>,
        missing_elements: int,
    },
}

/// The model of a [`ScalarDifference`].
#[allow(inconsistent_fields)]
#[verifier::ext_equal]
pub enum SpecScalarDifference {
    Bool { source: bool, target: bool },
    String { source: Seq<char>, target: Seq<char> },
    Number { source: Number, target: Number },
}

/// The model of a [`TypeDifference`].
#[verifier::ext_equal]
pub struct SpecTypeDifference {
    pub source_type: Type,
    pub target_type: Type,
    pub target_value: SpecValue,
}

/// The model of a [`Difference`].
#[verifier::ext_equal]
pub enum SpecDifference {
    Scalar(SpecScalarDifference),
    Type(SpecTypeDifference),
    Array(SpecArrayDifference),
    Object(Seq<(Seq<char>, SpecEntryDifference)>),
}

/// The model of a scalar mismatch.
pub open spec fn scalar_model(s: ScalarDifference) -> SpecScalarDifference {
    match s {
        ScalarDifference::Bool { source, target } => SpecScalarDifference::Bool { source, target },
        ScalarDifference::String { source, target } => (SpecScalarDifference::String {
            source: source@,
            target: target@,
        }),
        ScalarDifference::Number { source, target } => (SpecScalarDifference::Number {
            source,
            target,
        }),
    }
}

/// The model of a difference tree.
pub open spec fn difference_model(d: Difference) -> SpecDifference
    decreases d, 3int, 0int,
{
    match d {
        Difference::Scalar(s) => SpecDifference::Scalar(scalar_model(s)),
        Difference::Type(t) => SpecDifference::Type(SpecTypeDifference {
            source_type: t.source_type,
            target_type: t.target_type,
            target_value: value_model(t.target_value),
        }),
        Difference::Array(a) => SpecDifference::Array(array_difference_model(a)),
        Difference::Object(m) => SpecDifference::Object(entry_map_model(m.0@)),
    }
}

/// The model of an array difference.
pub open spec fn array_difference_model(a: ArrayDifference) -> SpecArrayDifference
    decreases a, 2int, 0int,
{
    match a {
        ArrayDifference::PairsOnly { different_pairs } => (SpecArrayDifference::PairsOnly {
            different_pairs: pairs_model(different_pairs.0@),
        }),
        ArrayDifference::Shorter { different_pairs, extra_elements } => {
            SpecArrayDifference::Shorter {
                different_pairs: opt_pairs_model(different_pairs),
                extra_elements: array_model(extra_elements@),
            }
        },
        ArrayDifference::Longer { different_pairs, missing_elements } => {
            SpecArrayDifference::Longer {
                different_pairs: opt_pairs_model(different_pairs),
                missing_elements: missing_elements as int,
            }
        },
    }
}

/// The model of an optional index map of differences.
pub open spec fn opt_pairs_model(m: Option<DumbMap<usize, Difference>>) -> Option<
    Seq<(int, SpecDifference)>,
>
    decreases m, 1int, 0int,
{
    match m {
        None => None,
        Some(dm) => Some(pairs_model(dm.0@)),
    }
}

/// The model of a list of `(index, difference)` pairs.
pub open spec fn pairs_model(s: Seq<(usize, Difference)>) -> Seq<(int, SpecDifference)>
    decreases s, 0int, 0int,
{
    if s.len() == 0 {
        Seq::empty()
    } else {
        pairs_model(s.drop_last()).push((s.last().0 as int, difference_model(s.last().1)))
    }
}

/// The model of one object entry of the diff.
pub open spec fn entry_model(e: EntryDifference) -> SpecEntryDifference
    decreases e, 1int, 0int,
{
    match e {
        EntryDifference::Extra { value } => SpecEntryDifference::Extra { value: value_model(value) },
        EntryDifference::Missing => SpecEntryDifference::Missing,
        EntryDifference::Deep { diff } => SpecEntryDifference::Deep { diff: difference_model(diff) },
    }
}

/// The model of a list of `(key, entry difference)` pairs.
pub open spec fn entry_map_model(s: Seq<(String, EntryDifference)>) -> Seq<
    (Seq<char>, SpecEntryDifference),
>
    decreases s, 2int, 0int,
{
    if s.len() == 0 {
        Seq::empty()
    } else {
        entry_map_model(s.drop_last()).push((s.last().0@, entry_model(s.last().1)))
    }
}

/// Pushing a pair onto an index list pushes its model onto the list's
/// model.
pub proof fn lemma_pairs_model_push(s: Seq<(usize, Difference)>, p: (usize, Difference))
    ensures
        pairs_model(s.push(p)) == pairs_model(s).push((p.0 as int, difference_model(p.1))),
{
    assert(s.push(p).drop_last() =~= s);
    assert(s.push(p).last() == p);
}

/// The model of an index list is as long as the list.
pub proof fn lemma_pairs_model_len(s: Seq<(usize, Difference)>)
    ensures
        pairs_model(s).len() == s.len(),
    decreases s.len(),
{
    if s.len() > 0 {
        lemma_pairs_model_len(s.drop_last());
    }
}

/// Pushing an entry onto a key list pushes its model onto the list's
/// model.
pub proof fn lemma_entry_map_model_push(s: Seq<(String, EntryDifference)>, p: (String, EntryDifference))
    ensures
        entry_map_model(s.push(p)) == entry_map_model(s).push((p.0@, entry_model(p.1))),
{
    assert(s.push(p).drop_last() =~= s);
    assert(s.push(p).last() == p);
}

/// The model of a key list is as long as the list.
pub proof fn lemma_entry_map_model_len(s: Seq<(String, EntryDifference)>)
    ensures
        entry_map_model(s).len() == s.len(),
    decreases s.len(),
{
    if s.len() > 0 {
        lemma_entry_map_model_len(s.drop_last());
    }
}

/// The model of an optional difference, as the comparison entry points
/// return it.
pub open spec fn opt_difference_model(r: Option<Difference>) -> Option<SpecDifference> {
    match r {
        None => None,
        Some(d) => Some(difference_model(d)),
    }
}

/// The model of an optional array difference.
pub open spec fn opt_array_difference_model(r: Option<ArrayDifference>) -> Option<
    SpecArrayDifference,
> {
    match r {
        None => None,
        Some(a) => Some(array_difference_model(a)),
    }
}

/// The model of an optional object diff map.
pub open spec fn opt_entry_map_model(r: Option<DumbMap<String, EntryDifference>>) -> Option<
    Seq<(Seq<char>, SpecEntryDifference)>,
> {
    match r {
        None => None,
        Some(m) => Some(entry_map_model(m.0@)),
    }
}

} // verus!
