//! The five commands on concrete documents: the worked examples, the
//! batch behaviour, and the error cases.

use rime_schema_manager::add_schemas;
use rime_schema_manager::list_schemas;
use rime_schema_manager::remove_schemas;
use rime_schema_manager::set_default_schema;
use rime_schema_manager::sync_schemas;
use rime_schema_manager::DocError;
use rime_schema_manager::Document;
use rime_schema_manager::Value;

fn s(x: &str) -> String {
    x.to_string()
}

fn entry(name: &str) -> Value {
    Value::Mapping(vec![(s("schema"), Value::Str(s(name)))])
}

fn entries(names: &[&str]) -> Vec<Value> {
    names.iter().map(|n| entry(n)).collect()
}

fn list_doc(names: &[&str]) -> Document {
    Document {
        fields: vec![(s("schema_list"), Value::Sequence(entries(names)))],
    }
}

fn names_of(doc: &Document) -> Vec<String> {
    list_schemas(doc).expect("list should succeed")
}

#[test]
fn set_default_promotes_to_front() {
    let doc = list_doc(&["pinyin", "wubi"]);
    let (doc, found) = set_default_schema(doc, &s("wubi")).expect("list field present");
    assert!(found);
    assert_eq!(names_of(&doc), vec![s("wubi"), s("pinyin")]);
}

#[test]
fn remove_drops_the_entry() {
    let doc = list_doc(&["pinyin", "wubi"]);
    let (doc, flags) = remove_schemas(doc, &vec![s("pinyin")]).expect("list field present");
    assert_eq!(flags, vec![true]);
    assert_eq!(names_of(&doc), vec![s("wubi")]);
}

#[test]
fn add_appends_a_fresh_schema() {
    let doc = list_doc(&["pinyin", "wubi"]);
    let (doc, flags) = add_schemas(doc, &vec![s("luna_pinyin")]).expect("list field present");
    assert_eq!(flags, vec![true]);
    assert_eq!(names_of(&doc), vec![s("pinyin"), s("wubi"), s("luna_pinyin")]);
}

#[test]
fn add_skips_a_present_schema() {
    let doc = list_doc(&["pinyin", "wubi"]);
    let (doc, flags) = add_schemas(doc, &vec![s("pinyin")]).expect("list field present");
    assert_eq!(flags, vec![false]);
    assert_eq!(names_of(&doc), vec![s("pinyin"), s("wubi")]);
}

#[test]
fn add_twice_is_add_once() {
    let doc = list_doc(&["alpha"]);
    let (doc, _) = add_schemas(doc, &vec![s("beta")]).expect("list field present");
    let after_once = names_of(&doc);
    let (doc, flags) = add_schemas(doc, &vec![s("beta")]).expect("list field present");
    assert_eq!(flags, vec![false]);
    assert_eq!(names_of(&doc), after_once);
}

#[test]
fn add_handles_a_batch_in_order() {
    let doc = list_doc(&["alpha"]);
    let inputs = vec![s("beta"), s("alpha"), s("beta"), s("gamma")];
    let (doc, flags) = add_schemas(doc, &inputs).expect("list field present");
    assert_eq!(flags, vec![true, false, false, true]);
    assert_eq!(names_of(&doc), vec![s("alpha"), s("beta"), s("gamma")]);
}

#[test]
fn remove_keeps_relative_order() {
    let doc = list_doc(&["alpha", "beta", "gamma"]);
    let (doc, flags) = remove_schemas(doc, &vec![s("beta")]).expect("list field present");
    assert_eq!(flags, vec![true]);
    assert_eq!(names_of(&doc), vec![s("alpha"), s("gamma")]);
}

#[test]
fn remove_takes_only_the_first_duplicate() {
    let doc = list_doc(&["alpha", "twin", "twin", "beta"]);
    let (doc, flags) = remove_schemas(doc, &vec![s("twin")]).expect("list field present");
    assert_eq!(flags, vec![true]);
    assert_eq!(names_of(&doc), vec![s("alpha"), s("twin"), s("beta")]);
}

#[test]
fn remove_reports_a_missing_schema_and_goes_on() {
    let doc = list_doc(&["alpha", "beta"]);
    let (doc, flags) =
        remove_schemas(doc, &vec![s("nowhere"), s("beta")]).expect("list field present");
    assert_eq!(flags, vec![false, true]);
    assert_eq!(names_of(&doc), vec![s("alpha")]);
}

#[test]
fn set_default_shifts_earlier_entries_down() {
    let doc = list_doc(&["a", "b", "c", "d"]);
    let (doc, found) = set_default_schema(doc, &s("c")).expect("list field present");
    assert!(found);
    assert_eq!(names_of(&doc), vec![s("c"), s("a"), s("b"), s("d")]);
}

#[test]
fn set_default_unknown_leaves_the_document_alone() {
    let doc = list_doc(&["alpha", "beta"]);
    let expected = list_doc(&["alpha", "beta"]);
    let (doc, found) = set_default_schema(doc, &s("nowhere")).expect("list field present");
    assert!(!found);
    assert_eq!(doc, expected);
}

#[test]
fn list_renders_in_order() {
    let doc = list_doc(&["alpha", "beta", "gamma"]);
    assert_eq!(names_of(&doc), vec![s("alpha"), s("beta"), s("gamma")]);
}

#[test]
fn list_tolerates_a_missing_field() {
    let doc = Document {
        fields: vec![(s("unrelated"), Value::Int(3))],
    };
    assert_eq!(names_of(&doc), Vec::<String>::new());
}

#[test]
fn list_rejects_a_non_sequence_field() {
    let doc = Document {
        fields: vec![(s("schema_list"), Value::Int(3))],
    };
    assert_eq!(list_schemas(&doc), Err(DocError::NotAList));
}

#[test]
fn list_skips_invalid_entries() {
    let doc = Document {
        fields: vec![(
            s("schema_list"),
            Value::Sequence(vec![
                entry("alpha"),
                Value::Mapping(vec![(s("name"), Value::Str(s("no_schema_key")))]),
                Value::Mapping(vec![(s("schema"), Value::Int(7))]),
                Value::Str(s("bare_string")),
                entry("beta"),
            ]),
        )],
    };
    assert_eq!(names_of(&doc), vec![s("alpha"), s("beta")]);
}

#[test]
fn invalid_entries_never_match() {
    let doc = Document {
        fields: vec![(
            s("schema_list"),
            Value::Sequence(vec![
                Value::Mapping(vec![(s("schema"), Value::Int(7))]),
                entry("alpha"),
            ]),
        )],
    };
    let (doc, flags) = remove_schemas(doc, &vec![s("7")]).expect("list field present");
    assert_eq!(flags, vec![false]);
    assert_eq!(names_of(&doc), vec![s("alpha")]);
}

#[test]
fn mutating_commands_need_the_field() {
    assert_eq!(
        add_schemas(Document { fields: vec![] }, &vec![s("x")]),
        Err(DocError::MissingField)
    );
    assert_eq!(
        remove_schemas(Document { fields: vec![] }, &vec![s("x")]),
        Err(DocError::MissingField)
    );
    assert_eq!(
        set_default_schema(Document { fields: vec![] }, &s("x")),
        Err(DocError::MissingField)
    );
}

#[test]
fn mutating_commands_need_a_sequence() {
    let bad = || Document {
        fields: vec![(s("schema_list"), Value::Str(s("oops")))],
    };
    assert_eq!(add_schemas(bad(), &vec![s("x")]), Err(DocError::NotAList));
    assert_eq!(remove_schemas(bad(), &vec![s("x")]), Err(DocError::NotAList));
    assert_eq!(set_default_schema(bad(), &s("x")), Err(DocError::NotAList));
}

fn decorated_doc() -> Document {
    Document {
        fields: vec![
            (s("config_version"), Value::Str(s("1.1"))),
            (
                s("menu"),
                Value::Mapping(vec![(s("page_size"), Value::Int(9))]),
            ),
            (
                s("schema_list"),
                Value::Sequence(vec![
                    entry("pinyin"),
                    Value::Mapping(vec![
                        (s("schema"), Value::Str(s("wubi"))),
                        (s("weight"), Value::Int(2)),
                        (s("tags"), Value::Sequence(vec![Value::Str(s("cjk"))])),
                    ]),
                ]),
            ),
            (s("ascii_composer"), Value::Bool(true)),
            (s("ratio"), Value::Num(s("0.75"))),
            (
                s("flavor"),
                Value::Tagged(s("!custom"), Box::new(Value::Str(s("plain")))),
            ),
            (s("extra"), Value::Null),
        ],
    }
}

fn other_fields(doc: &Document) -> Vec<(String, Value)> {
    doc.fields
        .iter()
        .filter(|(k, _)| k != "schema_list")
        .map(|(k, v)| (k.clone(), clone_value(v)))
        .collect()
}

fn clone_value(v: &Value) -> Value {
    match v {
        Value::Null => Value::Null,
        Value::Bool(b) => Value::Bool(*b),
        Value::Int(i) => Value::Int(*i),
        Value::Num(n) => Value::Num(n.clone()),
        Value::Str(x) => Value::Str(x.clone()),
        Value::Sequence(es) => Value::Sequence(es.iter().map(clone_value).collect()),
        Value::Mapping(ps) => {
            Value::Mapping(ps.iter().map(|(k, w)| (k.clone(), clone_value(w))).collect())
        }
        Value::Tagged(t, inner) => Value::Tagged(t.clone(), Box::new(clone_value(inner))),
    }
}

#[test]
fn commands_preserve_every_other_field() {
    let before = other_fields(&decorated_doc());

    let (doc, _) = add_schemas(decorated_doc(), &vec![s("luna")]).expect("list field present");
    assert_eq!(other_fields(&doc), before);

    let (doc, _) = remove_schemas(decorated_doc(), &vec![s("pinyin")]).expect("list field present");
    assert_eq!(other_fields(&doc), before);

    let (doc, _) = set_default_schema(decorated_doc(), &s("wubi")).expect("list field present");
    assert_eq!(other_fields(&doc), before);

    let doc = sync_schemas(decorated_doc(), &vec![s("alpha")]);
    assert_eq!(other_fields(&doc), before);
}

#[test]
fn promoting_keeps_extra_entry_keys() {
    let (doc, found) = set_default_schema(decorated_doc(), &s("wubi")).expect("present");
    assert!(found);
    match &doc.fields.iter().find(|(k, _)| k == "schema_list").unwrap().1 {
        Value::Sequence(es) => {
            assert_eq!(es.len(), 2);
            match &es[0] {
                Value::Mapping(ps) => {
                    assert_eq!(ps.len(), 3);
                    assert_eq!(ps[0], (s("schema"), Value::Str(s("wubi"))));
                    assert_eq!(ps[1], (s("weight"), Value::Int(2)));
                }
                other => panic!("front entry is not a mapping: {:?}", other),
            }
        }
        other => panic!("schema_list is not a sequence: {:?}", other),
    }
}
