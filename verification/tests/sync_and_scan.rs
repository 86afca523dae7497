//! The installed-schema scanner and the `sync` command: deriving
//! identifiers from file names and replacing the list wholesale.

use rime_schema_manager::installed_from_files;
use rime_schema_manager::list_schemas;
use rime_schema_manager::strip_schema_suffix;
use rime_schema_manager::sync_schemas;
use rime_schema_manager::Document;
use rime_schema_manager::Value;

fn s(x: &str) -> String {
    x.to_string()
}

#[test]
fn suffix_is_stripped() {
    assert_eq!(
        strip_schema_suffix(&s("luna_pinyin.schema.yaml")),
        Some(s("luna_pinyin"))
    );
}

#[test]
fn other_files_are_ignored() {
    assert_eq!(strip_schema_suffix(&s("default.yaml")), None);
    assert_eq!(strip_schema_suffix(&s("luna_pinyin.schema.yam")), None);
    assert_eq!(strip_schema_suffix(&s("schema.yaml")), None);
    assert_eq!(strip_schema_suffix(&s("")), None);
}

#[test]
fn bare_suffix_yields_the_empty_identifier() {
    assert_eq!(strip_schema_suffix(&s(".schema.yaml")), Some(s("")));
}

#[test]
fn non_ascii_names_are_handled() {
    assert_eq!(strip_schema_suffix(&s("拼音.schema.yaml")), Some(s("拼音")));
}

#[test]
fn listing_order_is_kept() {
    let files = vec![
        s("wubi86.schema.yaml"),
        s("README.md"),
        s("luna_pinyin.schema.yaml"),
        s("default.yaml"),
        s("cangjie5.schema.yaml"),
    ];
    assert_eq!(
        installed_from_files(&files),
        vec![s("wubi86"), s("luna_pinyin"), s("cangjie5")]
    );
}

fn entry(name: &str) -> Value {
    Value::Mapping(vec![(s("schema"), Value::Str(s(name)))])
}

#[test]
fn sync_replaces_the_list_entirely() {
    let doc = Document {
        fields: vec![
            (s("keep"), Value::Str(s("me"))),
            (
                s("schema_list"),
                Value::Sequence(vec![entry("old_one"), entry("old_two")]),
            ),
        ],
    };
    let installed = vec![s("wubi86"), s("luna_pinyin")];
    let doc = sync_schemas(doc, &installed);
    assert_eq!(
        list_schemas(&doc).expect("list well formed after sync"),
        vec![s("wubi86"), s("luna_pinyin")]
    );
    assert_eq!(doc.fields[0], (s("keep"), Value::Str(s("me"))));
    assert_eq!(doc.fields.len(), 2);
}

#[test]
fn sync_overwrites_a_malformed_field() {
    let doc = Document {
        fields: vec![(s("schema_list"), Value::Int(42))],
    };
    let doc = sync_schemas(doc, &vec![s("alpha")]);
    assert_eq!(list_schemas(&doc).expect("well formed"), vec![s("alpha")]);
}

#[test]
fn sync_appends_a_missing_field() {
    let doc = Document {
        fields: vec![(s("keep"), Value::Null)],
    };
    let doc = sync_schemas(doc, &vec![s("alpha"), s("beta")]);
    assert_eq!(doc.fields.len(), 2);
    assert_eq!(doc.fields[0], (s("keep"), Value::Null));
    assert_eq!(
        list_schemas(&doc).expect("well formed"),
        vec![s("alpha"), s("beta")]
    );
}

#[test]
fn sync_with_nothing_installed_empties_the_list() {
    let doc = Document {
        fields: vec![(s("schema_list"), Value::Sequence(vec![entry("old")]))],
    };
    let doc = sync_schemas(doc, &Vec::new());
    assert_eq!(list_schemas(&doc).expect("well formed"), Vec::<String>::new());
}

#[test]
fn sync_entries_are_singleton_mappings() {
    let doc = Document {
        fields: vec![(s("schema_list"), Value::Sequence(vec![]))],
    };
    let doc = sync_schemas(doc, &vec![s("alpha")]);
    match &doc.fields[0].1 {
        Value::Sequence(es) => {
            assert_eq!(es.len(), 1);
            assert_eq!(
                es[0],
                Value::Mapping(vec![(s("schema"), Value::Str(s("alpha")))])
            );
        }
        other => panic!("schema_list is not a sequence: {:?}", other),
    }
}
