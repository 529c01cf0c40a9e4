//! The structured values the blackboard stores: a JSON-like tree held as
//! plain Rust data, with a mathematical view for contracts.

use vstd::prelude::*;

verus! {

broadcast use vstd::std_specs::vec::axiom_vec_index_decreases;

/// The mathematical form of a stored value, used by every contract.
pub enum JsonData {
    Null,
    Bool(bool),
    Int(int),
    /// A number the tree cannot hold exactly (not a signed 64-bit integer).
    InexactNum,
    Str(Seq<char>),
    Arr(Seq<JsonData>),
    Obj(Seq<(Seq<char>, JsonData)>),
}

/// A structured value: null, boolean, integer, string, array or object.
/// Objects keep their fields in insertion order.
#[derive(Debug, PartialEq, Eq)]
pub enum JsonVal {
    Null,
    Bool(bool),
    Int(i64),
    /// Stands for a number that does not fit a signed 64-bit integer.
    InexactNum,
    Str(String),
    Arr(Vec<JsonVal>),
    Obj(Vec<(String, JsonVal)>),
}

/// The view of a sequence of values, element by element.
pub open spec fn views_of(items: Seq<JsonVal>) -> Seq<JsonData>
    decreases items,
{
    if items.len() == 0 {
        Seq::empty()
    } else {
        views_of(items.drop_last()).push(items.last()@)
    }
}

/// The view of a sequence of object fields, element by element.
pub open spec fn field_views_of(fields: Seq<(String, JsonVal)>) -> Seq<(Seq<char>, JsonData)>
    decreases fields,
{
    if fields.len() == 0 {
        Seq::empty()
    } else {
        field_views_of(fields.drop_last()).push((fields.last().0@, fields.last().1@))
    }
}

impl View for JsonVal {
    type V = JsonData;

    open spec fn view(&self) -> JsonData
        decreases self,
    {
        match self {
            JsonVal::Null => JsonData::Null,
            JsonVal::Bool(b) => JsonData::Bool(*b),
            JsonVal::Int(i) => JsonData::Int(*i as int),
            JsonVal::InexactNum => JsonData::InexactNum,
            JsonVal::Str(s) => JsonData::Str(s@),
            JsonVal::Arr(items) => JsonData::Arr(views_of(items@)),
            JsonVal::Obj(fields) => JsonData::Obj(field_views_of(fields@)),
        }
    }
}

/// The element views are exactly the views of the elements.
pub proof fn lemma_views_of(items: Seq<JsonVal>)
    ensures
        views_of(items).len() == items.len(),
        forall|i: int| 0 <= i < items.len() ==> #[trigger] views_of(items)[i] == items[i]@,
    decreases items.len(),
{
    if items.len() > 0 {
        lemma_views_of(items.drop_last());
        assert(views_of(items) == views_of(items.drop_last()).push(items.last()@));
        assert forall|i: int| 0 <= i < items.len() implies #[trigger] views_of(items)[i] == items[i]@ by {
            if i < items.len() - 1 {
                assert(items.drop_last()[i] == items[i]);
            }
        }
    }
}

/// The field views are exactly the views of the fields.
pub proof fn lemma_field_views_of(fields: Seq<(String, JsonVal)>)
    ensures
        field_views_of(fields).len() == fields.len(),
        forall|i: int| 0 <= i < fields.len() ==> #[trigger] field_views_of(fields)[i] == (
            fields[i].0@,
            fields[i].1@,
        ),
    decreases fields.len(),
{
    if fields.len() > 0 {
        lemma_field_views_of(fields.drop_last());
        assert(field_views_of(fields) == field_views_of(fields.drop_last()).push(
            (fields.last().0@, fields.last().1@),
        ));
        assert forall|i: int| 0 <= i < fields.len() implies #[trigger] field_views_of(fields)[i] == (
            fields[i].0@,
            fields[i].1@,
        ) by {
            if i < fields.len() - 1 {
                assert(fields.drop_last()[i] == fields[i]);
            }
        }
    }
}

impl JsonVal {
    /// A deep copy of the tree, with the same view.
    pub fn duplicate(&self) -> (r: JsonVal)
        ensures
            r@ == self@,
        decreases *self,
    {
        match self {
            JsonVal::Null => JsonVal::Null,
            JsonVal::Bool(b) => JsonVal::Bool(*b),
            JsonVal::Int(i) => JsonVal::Int(*i),
            JsonVal::InexactNum => JsonVal::InexactNum,
            JsonVal::Str(s) => JsonVal::Str(s.clone()),
            JsonVal::Arr(items) => {
                let copied = duplicate_items(items);
                let r = JsonVal::Arr(copied);
                proof {
                    lemma_views_of(copied@);
                    lemma_views_of(items@);
                    assert(views_of(copied@) =~= views_of(items@));
                }
                r
            },
            JsonVal::Obj(fields) => {
                let copied = duplicate_fields(fields);
                let r = JsonVal::Obj(copied);
                proof {
                    lemma_field_views_of(copied@);
                    lemma_field_views_of(fields@);
                    assert(field_views_of(copied@) =~= field_views_of(fields@));
                }
                r
            },
        }
    }
}

/// A deep copy of every element of an array.
pub(crate) fn duplicate_items(items: &Vec<JsonVal>) -> (r: Vec<JsonVal>)
    ensures
        r@.len() == items@.len(),
        forall|j: int| 0 <= j < items@.len() ==> #[trigger] r@[j]@ == items@[j]@,
    decreases *items,
{
    let mut out: Vec<JsonVal> = Vec::new();
    let mut k: usize = 0;
    while k < items.len()
        invariant
            k <= items@.len(),
            out@.len() == k as int,
            forall|j: int| 0 <= j < k as int ==> #[trigger] out@[j]@ == items@[j]@,
        decreases items@.len() - k,
    {
        out.push(items[k].duplicate());
        k = k + 1;
    }
    out
}

/// A deep copy of every field of an object.
pub(crate) fn duplicate_fields(fields: &Vec<(String, JsonVal)>) -> (r: Vec<(String, JsonVal)>)
    ensures
        r@.len() == fields@.len(),
        forall|j: int| 0 <= j < fields@.len() ==> #[trigger] r@[j].0@ == fields@[j].0@
            && r@[j].1@ == fields@[j].1@,
    decreases *fields,
{
    let mut out: Vec<(String, JsonVal)> = Vec::new();
    let mut k: usize = 0;
    while k < fields.len()
        invariant
            k <= fields@.len(),
            out@.len() == k as int,
            forall|j: int| 0 <= j < k as int ==> #[trigger] out@[j].0@ == fields@[j].0@
                && out@[j].1@ == fields@[j].1@,
        decreases fields@.len() - k,
    {
        let key = fields[k].0.clone();
        let val = fields[k].1.duplicate();
        out.push((key, val));
        k = k + 1;
    }
    out
}

/// The value of the first field named `key` in a field list.
pub open spec fn fields_get(fields: Seq<(Seq<char>, JsonData)>, key: Seq<char>) -> Option<JsonData>
    decreases fields.len(),
{
    if fields.len() == 0 {
        None
    } else if fields.first().0 == key {
        Some(fields.first().1)
    } else {
        fields_get(fields.drop_first(), key)
    }
}

/// The value of a named field; `None` for a missing field or a non-object.
pub open spec fn obj_get(d: JsonData, key: Seq<char>) -> Option<JsonData> {
    match d {
        JsonData::Obj(fields) => fields_get(fields, key),
        _ => None,
    }
}

/// The element at an index; `None` out of range or for a non-array.
pub open spec fn arr_get(d: JsonData, i: int) -> Option<JsonData> {
    match d {
        JsonData::Arr(items) => if 0 <= i < items.len() {
            Some(items[i])
        } else {
            None
        },
        _ => None,
    }
}

impl JsonVal {
    /// The value of this object's first field named `key`, if this is an
    /// object with such a field.
    pub fn get_field(&self, key: &str) -> (r: Option<&JsonVal>)
        ensures
            match r {
                Some(v) => obj_get(self@, key@) == Some(v@),
                None => obj_get(self@, key@) is None,
            },
    {
        match self {
            JsonVal::Obj(fields) => {
                let ghost fvs = field_views_of(fields@);
                proof {
                    lemma_field_views_of(fields@);
                    assert(fvs.skip(0) =~= fvs);
                }
                let mut k: usize = 0;
                while k < fields.len()
                    invariant
                        k <= fields@.len(),
                        fvs == field_views_of(fields@),
                        fvs.len() == fields@.len(),
                        forall|j: int| 0 <= j < fields@.len() ==> #[trigger] fvs[j] == (
                            fields@[j].0@,
                            fields@[j].1@,
                        ),
                        fields_get(fvs, key@) == fields_get(fvs.skip(k as int), key@),
                        self@ == JsonData::Obj(fvs),
                    decreases fields@.len() - k,
                {
                    proof {
                        assert(fvs.skip(k as int).first() == fvs[k as int]);
                        assert(fvs.skip(k as int).drop_first() =~= fvs.skip(k as int + 1));
                    }
                    if crate::text::str_eq(fields[k].0.as_str(), key) {
                        return Some(&fields[k].1);
                    }
                    k = k + 1;
                }
                proof {
                    assert(fvs.skip(fields@.len() as int) =~= Seq::<(Seq<char>, JsonData)>::empty());
                }
                None
            },
            _ => None,
        }
    }

    /// The element of this array at an index, if this is an array and the
    /// index is in range.
    pub fn get_index(&self, i: usize) -> (r: Option<&JsonVal>)
        ensures
            match r {
                Some(v) => arr_get(self@, i as int) == Some(v@),
                None => arr_get(self@, i as int) is None,
            },
    {
        match self {
            JsonVal::Arr(items) => {
                proof {
                    lemma_views_of(items@);
                }
                if i < items.len() {
                    Some(&items[i])
                } else {
                    None
                }
            },
            _ => None,
        }
    }
}

} // verus!
