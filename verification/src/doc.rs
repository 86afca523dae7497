//! The five commands at the level of a whole configuration document:
//! each locates the `schema_list` field, applies one list operation, and
//! leaves every other field of the document untouched.

use vstd::prelude::*;

use crate::ops::add_entries;
use crate::ops::entries_from_installed;
use crate::ops::entry_names;
use crate::ops::is_singleton_entry;
use crate::ops::plan_add;
use crate::ops::plan_remove;
use crate::ops::promote_entry;
use crate::ops::remove_entries;
use crate::value::display_names;
use crate::value::find_key;
use crate::value::find_schema;
use crate::value::has_key;
use crate::value::has_schema;
use crate::value::key_index;
use crate::value::lemma_key_index;
use crate::value::map_get;
use crate::value::map_lookup;
use crate::value::schema_index;
use crate::value::Document;
use crate::value::Value;

verus! {

/// Why a command could not run: the document has no `schema_list` field,
/// though the command must mutate one, or the field is there but is not a
/// sequence.
#[derive(Debug, Clone, Copy, PartialEq, Eq)]
pub enum DocError {
    MissingField,
    NotAList,
}

/// The value of the document's `schema_list` field, if the field is there.
pub open spec fn doc_list_field(doc: Document) -> Option<Value> {
    map_lookup(doc.fields@, "schema_list"@)
}

/// Whether the document has a `schema_list` field at all.
pub open spec fn doc_has_list(doc: Document) -> bool {
    doc_list_field(doc) is Some
}

/// Whether the `schema_list` field, where present, is a sequence; an
/// absent field is tolerable (the commands that read it treat it as
/// empty).
pub open spec fn doc_list_ok(doc: Document) -> bool {
    match doc_list_field(doc) {
        None => true,
        Some(v) => v is Sequence,
    }
}

/// The document's list entries: those of the `schema_list` sequence, or
/// the empty sequence when the field is absent or malformed.
pub open spec fn doc_entries(doc: Document) -> Seq<Value> {
    match doc_list_field(doc) {
        Some(v) => match v {
            Value::Sequence(es) => es@,
            _ => Seq::empty(),
        },
        None => Seq::empty(),
    }
}

/// Whether `v` is a sequence holding exactly `entries`.
pub open spec fn list_value_is(v: Value, entries: Seq<Value>) -> bool {
    match v {
        Value::Sequence(es) => es@ == entries,
        _ => false,
    }
}

/// How a mutated document relates to the one it came from: the first
/// `schema_list` field now holds the sequence `entries2` (the field is
/// appended at the end when it was absent), and every other field — key
/// and value — stands exactly as before, in its old place.
pub open spec fn fields_with_list(
    old_fields: Seq<(String, Value)>,
    new_fields: Seq<(String, Value)>,
    entries2: Seq<Value>,
) -> bool {
    if has_key(old_fields, "schema_list"@) {
        let k = key_index(old_fields, "schema_list"@);
        &&& new_fields.len() == old_fields.len()
        &&& (forall|i: int|
            0 <= i < old_fields.len() && i != k ==> new_fields[i] == old_fields[i])
        &&& new_fields[k].0 == old_fields[k].0
        &&& list_value_is(new_fields[k].1, entries2)
    } else {
        &&& new_fields.len() == old_fields.len() + 1
        &&& (forall|i: int| 0 <= i < old_fields.len() ==> new_fields[i] == old_fields[i])
        &&& new_fields[old_fields.len() as int].0@ == "schema_list"@
        &&& list_value_is(new_fields[old_fields.len() as int].1, entries2)
    }
}

/// A document rewritten as `fields_with_list` describes has a well-formed
/// `schema_list` field holding exactly `entries2`.
pub proof fn lemma_doc_with_list(d1: Document, d2: Document, entries2: Seq<Value>)
    requires
        fields_with_list(d1.fields@, d2.fields@, entries2),
    ensures
        doc_has_list(d2),
        doc_list_ok(d2),
        doc_entries(d2) == entries2,
{
    let key = "schema_list"@;
    lemma_key_index(d1.fields@, key);
    lemma_key_index(d2.fields@, key);
    let k: int = if has_key(d1.fields@, key) {
        key_index(d1.fields@, key)
    } else {
        d1.fields@.len() as int
    };
    assert(d2.fields@[k].0@ == key);
    assert(forall|j: int| 0 <= j < k ==> d2.fields@[j].0@ != key);
    let ki = key_index(d2.fields@, key);
    if ki < k {
        assert(d2.fields@[ki].0@ == key);
        assert(false);
    }
    if ki > k {
        assert(d2.fields@[k].0@ != key);
        assert(false);
    }
    assert(ki == k);
}

/// Renders the list: the schema name of every valid entry, in order. An
/// absent `schema_list` field yields the empty rendering; a field that is
/// not a sequence is an error. The document is only read.
pub fn list_schemas(doc: &Document) -> (r: Result<Vec<String>, DocError>)
    ensures
        r is Ok <==> doc_list_ok(*doc),
        match r {
            Ok(names) => names.deep_view() == display_names(doc_entries(*doc)),
            Err(e) => e == DocError::NotAList,
        },
{
    let key = String::from_str("schema_list");
    match map_get(&doc.fields, &key) {
        None => {
            let names: Vec<String> = Vec::new();
            proof {
                assert(names.deep_view() =~= Seq::<Seq<char>>::empty());
            }
            Ok(names)
        },
        Some(v) => match v {
            Value::Sequence(es) => Ok(entry_names(es)),
            _ => Err(DocError::NotAList),
        },
    }
}

/// Appends the schemas of `inputs` that the list does not yet carry, as
/// `plan_add` describes over the display names; every other field of the
/// document, and every existing entry, stands unchanged. Fails when the
/// `schema_list` field is absent or not a sequence. The flag vector says,
/// per input, whether it was added (`false`: already present).
pub fn add_schemas(doc: Document, inputs: &Vec<String>) -> (r: Result<
    (Document, Vec<bool>),
    DocError,
>)
    ensures
        r is Ok <==> doc_has_list(doc) && doc_list_ok(doc),
        match r {
            Ok((d2, flags)) => ({
                let es = doc_entries(doc);
                let plan = plan_add(display_names(es), inputs.deep_view());
                &&& fields_with_list(doc.fields@, d2.fields@, doc_entries(d2))
                &&& doc_entries(d2).len() == es.len() + plan.0.len()
                &&& (forall|i: int| 0 <= i < es.len() ==> doc_entries(d2)[i] == es[i])
                &&& (forall|k: int|
                    0 <= k < plan.0.len() ==> is_singleton_entry(
                        doc_entries(d2)[es.len() + k],
                        plan.0[k],
                    ))
                &&& display_names(doc_entries(d2)) == display_names(es) + plan.0
                &&& flags@ == plan.1
            }),
            Err(e) => ({
                &&& (e == DocError::MissingField <==> !doc_has_list(doc))
                &&& (e == DocError::NotAList <==> doc_has_list(doc) && !doc_list_ok(doc))
            }),
        },
{
    let ghost doc0 = doc;
    let key = String::from_str("schema_list");
    match find_key(&doc.fields, &key) {
        None => Err(DocError::MissingField),
        Some(k) => {
            let mut fields = doc.fields;
            let ghost fields0 = fields@;
            let pair = fields.remove(k);
            let kstr = pair.0;
            match pair.1 {
                Value::Sequence(entries) => {
                    let (entries2, flags) = add_entries(entries, inputs);
                    let ghost e2 = entries2@;
                    fields.insert(k, (kstr, Value::Sequence(entries2)));
                    let d2 = Document { fields };
                    proof {
                        assert(d2.fields@ =~= fields0.update(
                            k as int,
                            (fields0[k as int].0, d2.fields@[k as int].1),
                        ));
                        lemma_doc_with_list(doc0, d2, e2);
                    }
                    Ok((d2, flags))
                },
                _ => Err(DocError::NotAList),
            }
        },
    }
}

/// Removes, for each input in order, the first entry carrying that schema
/// name, as `plan_remove` describes; every other field of the document
/// stands unchanged. Fails when the `schema_list` field is absent or not a
/// sequence. The flag vector says, per input, whether an entry was
/// removed.
pub fn remove_schemas(doc: Document, inputs: &Vec<String>) -> (r: Result<
    (Document, Vec<bool>),
    DocError,
>)
    ensures
        r is Ok <==> doc_has_list(doc) && doc_list_ok(doc),
        match r {
            Ok((d2, flags)) => ({
                let plan = plan_remove(doc_entries(doc), inputs.deep_view());
                &&& fields_with_list(doc.fields@, d2.fields@, doc_entries(d2))
                &&& doc_entries(d2) == plan.0
                &&& flags@ == plan.1
            }),
            Err(e) => ({
                &&& (e == DocError::MissingField <==> !doc_has_list(doc))
                &&& (e == DocError::NotAList <==> doc_has_list(doc) && !doc_list_ok(doc))
            }),
        },
{
    let ghost doc0 = doc;
    let key = String::from_str("schema_list");
    match find_key(&doc.fields, &key) {
        None => Err(DocError::MissingField),
        Some(k) => {
            let mut fields = doc.fields;
            let ghost fields0 = fields@;
            let pair = fields.remove(k);
            let kstr = pair.0;
            match pair.1 {
                Value::Sequence(entries) => {
                    let (entries2, flags) = remove_entries(entries, inputs);
                    let ghost e2 = entries2@;
                    fields.insert(k, (kstr, Value::Sequence(entries2)));
                    let d2 = Document { fields };
                    proof {
                        assert(d2.fields@ =~= fields0.update(
                            k as int,
                            (fields0[k as int].0, d2.fields@[k as int].1),
                        ));
                        lemma_doc_with_list(doc0, d2, e2);
                    }
                    Ok((d2, flags))
                },
                _ => Err(DocError::NotAList),
            }
        },
    }
}

/// Promotes the first entry named `input` to the front of the list,
/// keeping the relative order and full content of all other entries; every
/// other field of the document stands unchanged. When no entry matches,
/// the document comes back exactly as it was, with `false`, and nothing
/// should be written. Fails when the `schema_list` field is absent or not
/// a sequence.
pub fn set_default_schema(doc: Document, input: &String) -> (r: Result<(Document, bool), DocError>)
    ensures
        r is Ok <==> doc_has_list(doc) && doc_list_ok(doc),
        match r {
            Ok((d2, found)) => ({
                let es = doc_entries(doc);
                &&& found == has_schema(es, input@)
                &&& (found ==> ({
                    let k = schema_index(es, input@);
                    &&& fields_with_list(doc.fields@, d2.fields@, doc_entries(d2))
                    &&& doc_entries(d2) == seq![es[k]] + es.subrange(0, k) + es.subrange(
                        k + 1,
                        es.len() as int,
                    )
                }))
                &&& (!found ==> d2 == doc)
            }),
            Err(e) => ({
                &&& (e == DocError::MissingField <==> !doc_has_list(doc))
                &&& (e == DocError::NotAList <==> doc_has_list(doc) && !doc_list_ok(doc))
            }),
        },
{
    let ghost doc0 = doc;
    let key = String::from_str("schema_list");
    let k = match find_key(&doc.fields, &key) {
        None => {
            return Err(DocError::MissingField);
        },
        Some(k) => k,
    };
    let is_seq: bool;
    let found: bool;
    match &doc.fields[k].1 {
        Value::Sequence(es) => {
            is_seq = true;
            found = match find_schema(es, input) {
                Some(_) => true,
                None => false,
            };
        },
        _ => {
            is_seq = false;
            found = false;
        },
    }
    if !is_seq {
        return Err(DocError::NotAList);
    }
    if !found {
        return Ok((doc, false));
    }
    let mut fields = doc.fields;
    let ghost fields0 = fields@;
    let pair = fields.remove(k);
    let kstr = pair.0;
    match pair.1 {
        Value::Sequence(entries) => {
            let (entries2, _) = promote_entry(entries, input);
            let ghost e2 = entries2@;
            fields.insert(k, (kstr, Value::Sequence(entries2)));
            let d2 = Document { fields };
            proof {
                assert(d2.fields@ =~= fields0.update(
                    k as int,
                    (fields0[k as int].0, d2.fields@[k as int].1),
                ));
                lemma_doc_with_list(doc0, d2, e2);
            }
            Ok((d2, true))
        },
        _ => {
            proof {
                assert(false);
            }
            unreached()
        },
    }
}

/// Replaces the list wholesale with one singleton entry per installed
/// schema identifier, in the order handed in; the prior list — well
/// formed, malformed or absent — plays no part, and every other field of
/// the document stands unchanged. An absent field is appended at the end
/// of the document.
pub fn sync_schemas(doc: Document, installed: &Vec<String>) -> (d2: Document)
    ensures
        fields_with_list(doc.fields@, d2.fields@, doc_entries(d2)),
        doc_has_list(d2),
        doc_list_ok(d2),
        doc_entries(d2).len() == installed@.len(),
        forall|k: int|
            0 <= k < installed@.len() ==> is_singleton_entry(doc_entries(d2)[k], installed@[k]@),
        display_names(doc_entries(d2)) == installed.deep_view(),
{
    let ghost doc0 = doc;
    let entries2 = entries_from_installed(installed);
    let ghost e2 = entries2@;
    let key = String::from_str("schema_list");
    let mut fields = doc.fields;
    let ghost fields0 = fields@;
    match find_key(&fields, &key) {
        Some(k) => {
            let pair = fields.remove(k);
            let kstr = pair.0;
            fields.insert(k, (kstr, Value::Sequence(entries2)));
            let d2 = Document { fields };
            proof {
                assert(d2.fields@ =~= fields0.update(
                    k as int,
                    (fields0[k as int].0, d2.fields@[k as int].1),
                ));
                lemma_doc_with_list(doc0, d2, e2);
            }
            d2
        },
        None => {
            fields.push((key, Value::Sequence(entries2)));
            let d2 = Document { fields };
            proof {
                lemma_doc_with_list(doc0, d2, e2);
            }
            d2
        },
    }
}

} // verus!
