use vstd::prelude::*;

verus! {

/// A JSON number. Integers keep the split between the non-negative and the
/// negative range; a floating-point literal is carried by its IEEE-754 bit
/// pattern, so that two numbers are equal exactly when the parser produced
/// the same representation for them.
#[derive(Clone, Copy, Debug, PartialEq, Eq, Structural)]
pub enum Number {
    PosInt(u64),
    NegInt(i64),
    Float(u64),
}

/// A JSON value: the tree that the diff engine walks. An object is an
/// ordered list of key/value entries whose keys are meant to be unique
/// (see [`value_wf`]); order carries no meaning for equality, but it fixes
/// the order in which disagreements are reported.
#[derive(Debug, PartialEq)]
pub enum Value {
    Null,
    Bool(bool),
    Number(Number),
    String(String),
    Array(Vec<Value>),
    Object(Vec<(String, Value)>),
}

/// The JSON type of a value, as reported in a type mismatch.
#[derive(Clone, Copy, Debug, PartialEq, Eq, Structural)]
pub enum Type {
    Null,
    Array,
    Bool,
    Object,
    String,
    Number,
}

/// The mathematical model of a [`Value`]: text as `Seq<char>`, arrays and
/// objects as sequences. Contracts and lemmas speak of this type.
#[verifier::ext_equal]
pub enum SpecValue {
    Null,
    Bool(bool),
    Number(Number),
    String(Seq<char>),
    Array(Seq<SpecValue>),
    Object(Seq<(Seq<char>, SpecValue)>),
}

/// The model of a value.
pub open spec fn value_model(v: Value) -> SpecValue
    decreases v, 1int, 0int,
{
    match v {
        Value::Null => SpecValue::Null,
        Value::Bool(b) => SpecValue::Bool(b),
        Value::Number(n) => SpecValue::Number(n),
        Value::String(s) => SpecValue::String(s@),
        Value::Array(elems) => SpecValue::Array(array_model(elems@)),
        Value::Object(entries) => SpecValue::Object(object_model(entries@)),
    }
}

/// The model of a sequence of values, element by element.
pub open spec fn array_model(s: Seq<Value>) -> Seq<SpecValue>
    decreases s, 0int, 0int,
{
    if s.len() == 0 {
        Seq::empty()
    } else {
        array_model(s.drop_last()).push(value_model(s.last()))
    }
}

/// The model of a list of object entries, entry by entry.
pub open spec fn object_model(s: Seq<(String, Value)>) -> Seq<(Seq<char>, SpecValue)>
    decreases s, 0int, 0int,
{
    if s.len() == 0 {
        Seq::empty()
    } else {
        object_model(s.drop_last()).push((s.last().0@, value_model(s.last().1)))
    }
}

/// The JSON type of a modelled value.
pub open spec fn spec_type_of(v: SpecValue) -> Type {
    match v {
        SpecValue::Null => Type::Null,
        SpecValue::Bool(_) => Type::Bool,
        SpecValue::Number(_) => Type::Number,
        SpecValue::String(_) => Type::String,
        SpecValue::Array(_) => Type::Array,
        SpecValue::Object(_) => Type::Object,
    }
}

/// A value is well formed when every object in it has pairwise distinct
/// keys. Nothing else is demanded of a value tree.
pub open spec fn value_wf(v: SpecValue) -> bool
    decreases v, 1int, 0int,
{
    match v {
        SpecValue::Array(s) => array_wf(s),
        SpecValue::Object(s) => unique_keys(s) && entries_wf(s),
        _ => true,
    }
}

/// Every element of the sequence is well formed.
pub open spec fn array_wf(s: Seq<SpecValue>) -> bool
    decreases s, 0int, 0int,
{
    if s.len() == 0 {
        true
    } else {
        array_wf(s.drop_last()) && value_wf(s.last())
    }
}

/// Every value of the entry list is well formed.
pub open spec fn entries_wf(s: Seq<(Seq<char>, SpecValue)>) -> bool
    decreases s, 0int, 0int,
{
    if s.len() == 0 {
        true
    } else {
        entries_wf(s.drop_last()) && value_wf(s.last().1)
    }
}

/// The keys of the entry list are pairwise distinct.
pub open spec fn unique_keys(s: Seq<(Seq<char>, SpecValue)>) -> bool {
    forall|i: int, j: int| 0 <= i < j < s.len() ==> s[i].0 != s[j].0
}

/// The model of a sequence is as long as the sequence and holds the models
/// of its elements, in order.
pub proof fn lemma_array_model(s: Seq<Value>)
    ensures
        array_model(s).len() == s.len(),
        forall|i: int| 0 <= i < s.len() ==> array_model(s)[i] == value_model(s[i]),
    decreases s.len(),
{
    if s.len() > 0 {
        lemma_array_model(s.drop_last());
        assert forall|i: int| 0 <= i < s.len() implies array_model(s)[i] == value_model(s[i]) by {
            if i < s.len() - 1 {
                assert(s.drop_last()[i] == s[i]);
            }
        }
    }
}

/// The model of an entry list is as long as the list and holds the keys'
/// views and the values' models, in order.
pub proof fn lemma_object_model(s: Seq<(String, Value)>)
    ensures
        object_model(s).len() == s.len(),
        forall|i: int|
            0 <= i < s.len() ==> object_model(s)[i] == (s[i].0@, value_model(s[i].1)),
    decreases s.len(),
{
    if s.len() > 0 {
        lemma_object_model(s.drop_last());
        assert forall|i: int|
            0 <= i < s.len() implies object_model(s)[i] == (s[i].0@, value_model(s[i].1)) by {
            if i < s.len() - 1 {
                assert(s.drop_last()[i] == s[i]);
            }
        }
    }
}

/// An array element is well formed when the whole sequence is.
pub proof fn lemma_array_wf_index(s: Seq<SpecValue>, i: int)
    requires
        array_wf(s),
        0 <= i < s.len(),
    ensures
        value_wf(s[i]),
    decreases s.len(),
{
    if i == s.len() - 1 {
        assert(s.last() == s[i]);
    } else {
        lemma_array_wf_index(s.drop_last(), i);
        assert(s.drop_last()[i] == s[i]);
    }
}

/// An entry's value is well formed when the whole entry list is.
pub proof fn lemma_entries_wf_index(s: Seq<(Seq<char>, SpecValue)>, i: int)
    requires
        entries_wf(s),
        0 <= i < s.len(),
    ensures
        value_wf(s[i].1),
    decreases s.len(),
{
    if i == s.len() - 1 {
        assert(s.last() == s[i]);
    } else {
        lemma_entries_wf_index(s.drop_last(), i);
        assert(s.drop_last()[i] == s[i]);
    }
}

/// A value and its model are built from the same constructor.
pub proof fn lemma_value_model_variant(v: Value)
    ensures
        (v is Null <==> value_model(v) is Null),
        (v is Bool <==> value_model(v) is Bool),
        (v is Number <==> value_model(v) is Number),
        (v is String <==> value_model(v) is String),
        (v is Array <==> value_model(v) is Array),
        (v is Object <==> value_model(v) is Object),
{
    match v {
        Value::Null => {},
        Value::Bool(_) => {},
        Value::Number(_) => {},
        Value::String(_) => {},
        Value::Array(_) => {},
        Value::Object(_) => {},
    }
}

/// A copy of a value tree: the result has the same model as the input.
#[verifier::loop_isolation(false)]
pub fn clone_value(v: &Value) -> (r: Value)
    ensures
        value_model(r) == value_model(*v),
    decreases *v,
{
    match v {
        Value::Null => Value::Null,
        Value::Bool(b) => Value::Bool(*b),
        Value::Number(n) => Value::Number(*n),
        Value::String(s) => Value::String(s.clone()),
        Value::Array(elems) => {
            let mut out: Vec<Value> = Vec::new();
            let mut i: usize = 0;
            while i < elems.len()
                invariant
                    i <= elems.len(),
                    out@.len() == i,
                    forall|j: int| 0 <= j < i ==> value_model(out@[j]) == value_model(elems@[j]),
                decreases elems.len() - i,
            {
                let e = clone_value(&elems[i]);
                out.push(e);
                i = i + 1;
            }
            proof {
                lemma_array_model(out@);
                lemma_array_model(elems@);
                assert(array_model(out@) =~= array_model(elems@));
            }
            Value::Array(out)
        },
        Value::Object(entries) => {
            let mut out: Vec<(String, Value)> = Vec::new();
            let mut i: usize = 0;
            while i < entries.len()
                invariant
                    i <= entries.len(),
                    out@.len() == i,
                    forall|j: int|
                        0 <= j < i ==> out@[j].0@ == entries@[j].0@ && value_model(out@[j].1)
                            == value_model(entries@[j].1),
                decreases entries.len() - i,
            {
                let key = entries[i].0.clone();
                let val = clone_value(&entries[i].1);
                out.push((key, val));
                i = i + 1;
            }
            proof {
                lemma_object_model(out@);
                lemma_object_model(entries@);
                assert(object_model(out@) =~= object_model(entries@));
            }
            Value::Object(out)
        },
    }
}

/// The JSON type of a value, read off its outermost constructor.
pub fn type_of(v: &Value) -> (t: Type)
    ensures
        t == spec_type_of(value_model(*v)),
{
    match v {
        Value::Null => Type::Null,
        Value::Bool(_) => Type::Bool,
        Value::Number(_) => Type::Number,
        Value::String(_) => Type::String,
        Value::Array(_) => Type::Array,
        Value::Object(_) => Type::Object,
    }
}

impl From<Value> for Type {
    fn from(value: Value) -> Self {
        type_of(&value)
    }
}

impl vstd::std_specs::convert::FromSpecImpl<Value> for Type {
    open spec fn obeys_from_spec() -> bool {
        true
    }

    open spec fn from_spec(v: Value) -> Type {
        spec_type_of(value_model(v))
    }
}

} // verus!
