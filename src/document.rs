//! Documents: JSON values as far as the store reads them. An object is kept
//! as its list of top-level fields; everything below that level, and every
//! value that is not an object, stays a `serde_json::Value`.
use vstd::prelude::*;
use serde_json::Value;

verus! {

/// `serde_json::Value`, carried through the store as an opaque value.
#[verifier::external_type_specification]
#[verifier::external_body]
pub struct ExValue(serde_json::Value);

/// Relies on the derived `Clone` of `serde_json::Value`: the copy is equal to
/// the original.
pub assume_specification[ <serde_json::Value as Clone>::clone ](v: &serde_json::Value) -> (r:
    serde_json::Value)
    ensures
        r == *v,
;

/// The JSON string whose text is `s`.
pub uninterp spec fn string_value(s: Seq<char>) -> Value;

/// Relies on `serde_json::Value::String`: the JSON string holding `s`.
#[verifier::external_body]
fn make_string_value(s: String) -> (r: Value)
    ensures
        r == string_value(s@),
{
    Value::String(s)
}

/// A JSON document. `Object` holds the fields of a JSON object in order;
/// `Other` holds any JSON value that is not an object.
#[derive(Debug, PartialEq)]
pub enum Document {
    Object(Vec<(String, Value)>),
    Other(Value),
}

/// The mathematical value of a document: field names as character sequences.
pub ghost enum DocumentView {
    Object(Seq<(Seq<char>, Value)>),
    Other(Value),
}

pub open spec fn fields_view(fields: Seq<(String, Value)>) -> Seq<(Seq<char>, Value)> {
    fields.map_values(|f: (String, Value)| (f.0@, f.1))
}

impl View for Document {
    type V = DocumentView;

    open spec fn view(&self) -> DocumentView {
        match self {
            Document::Object(fields) => DocumentView::Object(fields_view(fields@)),
            Document::Other(v) => DocumentView::Other(*v),
        }
    }
}

/// The name of the field that carries a document's identifier.
pub open spec fn id_key() -> Seq<char> {
    seq!['i', 'd']
}

pub open spec fn is_not_id_field(f: (Seq<char>, Value)) -> bool {
    f.0 != id_key()
}

/// What the store keeps when `d` is inserted under identifier `id`: an object
/// loses any `id` field it had and gains `id` set to the identifier as a JSON
/// string; any other value is kept as it is.
pub open spec fn with_id_field(d: DocumentView, id: Seq<char>) -> DocumentView {
    match d {
        DocumentView::Object(fields) => DocumentView::Object(
            fields.filter(|f: (Seq<char>, Value)| is_not_id_field(f)).push(
                (id_key(), string_value(id)),
            ),
        ),
        DocumentView::Other(v) => DocumentView::Other(v),
    }
}

/// The value of the last field named `key` among `fields`, if any.
pub open spec fn field_of(fields: Seq<(Seq<char>, Value)>, key: Seq<char>) -> Option<Value>
    decreases fields.len(),
{
    if fields.len() == 0 {
        None
    } else if fields.last().0 == key {
        Some(fields.last().1)
    } else {
        field_of(fields.drop_last(), key)
    }
}

impl Document {
    pub open spec fn is_object(self) -> bool {
        self is Object
    }

    /// An independent copy of the document.
    pub fn copy(&self) -> (r: Document)
        ensures
            r@ == self@,
    {
        match self {
            Document::Object(fields) => {
                let mut out: Vec<(String, Value)> = Vec::new();
                let mut i: usize = 0;
                while i < fields.len()
                    invariant
                        i <= fields@.len(),
                        out@.len() == i,
                        forall|j: int|
                            0 <= j < i ==> #[trigger] out@[j].0@ == fields@[j].0@ && out@[j].1
                                == fields@[j].1,
                    decreases fields.len() - i,
                {
                    let (k, v) = &fields[i];
                    out.push((k.clone(), v.clone()));
                    i = i + 1;
                }
                assert(fields_view(out@) =~= fields_view(fields@));
                Document::Object(out)
            },
            Document::Other(v) => Document::Other(v.clone()),
        }
    }

    /// The value of field `key`, where the document is an object that has
    /// such a field (the last one, should the name occur twice).
    pub fn get(&self, key: &str) -> (r: Option<&Value>)
        ensures
            (match r {
                Some(v) => Some(*v),
                None => None,
            }) == (match self@ {
                DocumentView::Object(fields) => field_of(fields, key@),
                DocumentView::Other(_) => None,
            }),
    {
        match self {
            Document::Object(fields) => {
                let wanted = key.to_owned();
                let mut i: usize = fields.len();
                assert(fields@.subrange(0, i as int) =~= fields@);
                while i > 0
                    invariant
                        i <= fields@.len(),
                        wanted@ == key@,
                        self@ == DocumentView::Object(fields_view(fields@)),
                        field_of(fields_view(fields@), wanted@) == field_of(
                            fields_view(fields@.subrange(0, i as int)),
                            wanted@,
                        ),
                    decreases i,
                {
                    let ghost before = fields_view(fields@.subrange(0, i as int));
                    assert(before.drop_last() =~= fields_view(fields@.subrange(0, i - 1)));
                    assert(before.last() == (fields@[i - 1].0@, fields@[i - 1].1));
                    if fields[i - 1].0 == wanted {
                        assert(field_of(before, wanted@) == Some(fields@[i - 1].1));
                        return Some(&fields[i - 1].1);
                    }
                    i = i - 1;
                }
                assert(fields_view(fields@.subrange(0, 0)) =~= Seq::empty());
                None
            },
            Document::Other(_) => None,
        }
    }

    /// The document as the store keeps it under identifier `id`: for an
    /// object, a copy whose `id` field is the identifier as a JSON string;
    /// for any other value, a copy of the value.
    pub fn with_id(&self, id: &str) -> (r: Document)
        ensures
            r@ == with_id_field(self@, id@),
    {
        match self {
            Document::Object(fields) => {
                let key = "id".to_owned();
                proof {
                    reveal_strlit("id");
                    assert(key@ =~= id_key());
                }
                let ghost keep = |f: (Seq<char>, Value)| is_not_id_field(f);
                let mut out: Vec<(String, Value)> = Vec::new();
                let mut i: usize = 0;
                while i < fields.len()
                    invariant
                        i <= fields@.len(),
                        key@ == id_key(),
                        keep == (|f: (Seq<char>, Value)| is_not_id_field(f)),
                        fields_view(out@) == fields_view(fields@.subrange(0, i as int)).filter(
                            keep,
                        ),
                    decreases fields.len() - i,
                {
                    let ghost prefix = fields_view(fields@.subrange(0, i as int));
                    let ghost f = (fields@[i as int].0@, fields@[i as int].1);
                    assert(fields_view(fields@.subrange(0, i + 1)) =~= prefix.push(f));
                    proof {
                        prefix.lemma_filter_push(f, keep);
                    }
                    let (k, v) = &fields[i];
                    if !(*k == key) {
                        out.push((k.clone(), v.clone()));
                        assert(fields_view(out@) =~= prefix.filter(keep).push(f));
                    }
                    i = i + 1;
                }
                assert(fields@.subrange(0, i as int) =~= fields@);
                let text = id.to_owned();
                let value = make_string_value(text);
                out.push((key, value));
                assert(fields_view(out@) =~= fields_view(fields@).filter(keep).push(
                    (id_key(), string_value(id@)),
                ));
                Document::Object(out)
            },
            Document::Other(v) => Document::Other(v.clone()),
        }
    }
}

/// Dropping the `id` fields leaves every other field reading as before.
proof fn lemma_field_of_without_id(fields: Seq<(Seq<char>, Value)>, key: Seq<char>)
    requires
        key != id_key(),
    ensures
        field_of(fields.filter(|f: (Seq<char>, Value)| is_not_id_field(f)), key) == field_of(
            fields,
            key,
        ),
    decreases fields.len(),
{
    let keep = |f: (Seq<char>, Value)| is_not_id_field(f);
    if fields.len() == 0 {
        reveal(Seq::filter);
        assert(fields.filter(keep) =~= fields);
    } else {
        let init = fields.drop_last();
        let f = fields.last();
        assert(init.push(f) =~= fields);
        init.lemma_filter_push(f, keep);
        lemma_field_of_without_id(init, key);
        if keep(f) {
            assert(init.filter(keep).push(f).drop_last() =~= init.filter(keep));
        }
    }
}

/// An object stored under identifier `id` has an `id` field that holds the
/// identifier as a JSON string, whatever `id` field it had before, and every
/// other field of the object reads as it did.
pub proof fn lemma_object_gets_id(fields: Seq<(Seq<char>, Value)>, id: Seq<char>)
    ensures
        with_id_field(DocumentView::Object(fields), id) matches DocumentView::Object(stored) && {
            &&& field_of(stored, id_key()) == Some(string_value(id))
            &&& forall|key: Seq<char>|
                key != id_key() ==> #[trigger] field_of(stored, key) == field_of(fields, key)
        },
{
    let kept = fields.filter(|f: (Seq<char>, Value)| is_not_id_field(f));
    let stored = kept.push((id_key(), string_value(id)));
    assert(stored.drop_last() =~= kept);
    assert forall|key: Seq<char>| key != id_key() implies #[trigger] field_of(stored, key)
        == field_of(fields, key) by {
        lemma_field_of_without_id(fields, key);
    }
}

/// A value that is not an object is stored exactly as it came.
pub proof fn lemma_other_kept(v: Value, id: Seq<char>)
    ensures
        with_id_field(DocumentView::Other(v), id) == DocumentView::Other(v),
{
}

} // verus!
