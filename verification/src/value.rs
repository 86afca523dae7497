//! The configuration document model: a generic, order-preserving tree of
//! scalars, sequences and string-keyed mappings, together with the spec-level
//! view of the one part this library interprets — the `schema_list` field and
//! the `schema` name inside each of its entries.

use vstd::prelude::*;

verus! {

/// One node of a configuration document: a scalar, a sequence, or an
/// order-preserving mapping with string keys. A numeric scalar that is not
/// an `i64` is carried verbatim as its source text in `Num`; a tagged value
/// keeps its tag text in `Tagged`. Nothing in this library interprets those
/// forms: they exist so that a whole document can pass through unchanged.
#[derive(Debug, PartialEq, Eq)]
pub enum Value {
    Null,
    Bool(bool),
    Int(i64),
    Num(String),
    Str(String),
    Sequence(Vec<Value>),
    Mapping(Vec<(String, Value)>),
    Tagged(String, Box<Value>),
}

/// A whole configuration document: the top-level mapping, fields in their
/// original order. Only the `schema_list` field is ever interpreted; every
/// other field is preserved verbatim by every operation.
#[derive(Debug, PartialEq, Eq)]
pub struct Document {
    pub fields: Vec<(String, Value)>,
}

/// Index of the first pair whose key is `key`, or `pairs.len()` if no key
/// matches.
pub open spec fn key_index(pairs: Seq<(String, Value)>, key: Seq<char>) -> int
    decreases pairs.len(),
{
    if pairs.len() == 0 {
        0
    } else if pairs[0].0@ == key {
        0
    } else {
        1 + key_index(pairs.subrange(1, pairs.len() as int), key)
    }
}

pub open spec fn has_key(pairs: Seq<(String, Value)>, key: Seq<char>) -> bool {
    key_index(pairs, key) < pairs.len()
}

/// The value bound to `key`: the one at its first occurrence, or `None` if
/// the key is absent.
pub open spec fn map_lookup(pairs: Seq<(String, Value)>, key: Seq<char>) -> Option<Value> {
    if has_key(pairs, key) {
        Some(pairs[key_index(pairs, key)].1)
    } else {
        None
    }
}

/// `key_index` is the first match: it is in bounds exactly when some pair
/// matches, it matches when in bounds, and nothing before it matches.
pub proof fn lemma_key_index(pairs: Seq<(String, Value)>, key: Seq<char>)
    ensures
        0 <= key_index(pairs, key) <= pairs.len(),
        key_index(pairs, key) < pairs.len() ==> pairs[key_index(pairs, key)].0@ == key,
        forall|j: int| 0 <= j < key_index(pairs, key) ==> pairs[j].0@ != key,
    decreases pairs.len(),
{
    if pairs.len() == 0 {
    } else if pairs[0].0@ == key {
    } else {
        let rest = pairs.subrange(1, pairs.len() as int);
        lemma_key_index(rest, key);
        assert forall|j: int| 0 <= j < key_index(pairs, key) implies pairs[j].0@ != key by {
            if j >= 1 {
                assert(pairs[j] == rest[j - 1]);
            }
        }
    }
}

/// The schema name of a list entry: the string bound to the entry's
/// `schema` key, or `None` if the entry is not a mapping, lacks that key,
/// or binds it to a non-string. An entry without a name is invalid data:
/// it is skipped for display and can never be matched by name.
pub open spec fn entry_schema(e: Value) -> Option<Seq<char>> {
    match e {
        Value::Mapping(pairs) => match map_lookup(pairs@, "schema"@) {
            Some(v) => match v {
                Value::Str(s) => Some(s@),
                _ => None,
            },
            _ => None,
        },
        _ => None,
    }
}

/// Index of the first entry whose schema name is `name`, or `entries.len()`
/// if no entry matches.
pub open spec fn schema_index(entries: Seq<Value>, name: Seq<char>) -> int
    decreases entries.len(),
{
    if entries.len() == 0 {
        0
    } else if entry_schema(entries[0]) == Some(name) {
        0
    } else {
        1 + schema_index(entries.subrange(1, entries.len() as int), name)
    }
}

/// Whether some entry of the list carries the schema name `name`.
pub open spec fn has_schema(entries: Seq<Value>, name: Seq<char>) -> bool {
    schema_index(entries, name) < entries.len()
}

/// `schema_index` is the first match: it is in bounds exactly when some
/// entry matches, it matches when in bounds, and nothing before it matches.
pub proof fn lemma_schema_index(entries: Seq<Value>, name: Seq<char>)
    ensures
        0 <= schema_index(entries, name) <= entries.len(),
        schema_index(entries, name) < entries.len() ==> entry_schema(
            entries[schema_index(entries, name)],
        ) == Some(name),
        forall|j: int| 0 <= j < schema_index(entries, name) ==> entry_schema(entries[j]) != Some(
            name,
        ),
    decreases entries.len(),
{
    if entries.len() == 0 {
    } else if entry_schema(entries[0]) == Some(name) {
    } else {
        let rest = entries.subrange(1, entries.len() as int);
        lemma_schema_index(rest, name);
        assert forall|j: int| 0 <= j < schema_index(entries, name) implies entry_schema(
            entries[j],
        ) != Some(name) by {
            if j >= 1 {
                assert(entries[j] == rest[j - 1]);
            }
        }
    }
}

/// The names the `list` command shows: the schema name of every valid
/// entry, in list order; invalid entries contribute nothing.
pub open spec fn display_names(entries: Seq<Value>) -> Seq<Seq<char>>
    decreases entries.len(),
{
    if entries.len() == 0 {
        Seq::empty()
    } else {
        let rest = display_names(entries.subrange(1, entries.len() as int));
        match entry_schema(entries[0]) {
            Some(n) => seq![n] + rest,
            None => rest,
        }
    }
}

/// Appending one entry appends its name (or nothing, if it is invalid) to
/// the display list.
pub proof fn lemma_display_names_push(entries: Seq<Value>, e: Value)
    ensures
        display_names(entries.push(e)) == match entry_schema(e) {
            Some(n) => display_names(entries).push(n),
            None => display_names(entries),
        },
    decreases entries.len(),
{
    let whole = entries.push(e);
    if entries.len() == 0 {
        reveal_with_fuel(display_names, 2);
        assert(whole.subrange(1, whole.len() as int) =~= Seq::<Value>::empty());
        assert(whole[0] == e);
        match entry_schema(e) {
            Some(n) => {
                assert(display_names(whole) =~= display_names(entries).push(n));
            },
            None => {},
        }
    } else {
        let rest = entries.subrange(1, entries.len() as int);
        lemma_display_names_push(rest, e);
        assert(whole.subrange(1, whole.len() as int) =~= rest.push(e));
        assert(whole[0] == entries[0]);
        match entry_schema(e) {
            Some(n) => {
                match entry_schema(entries[0]) {
                    Some(m) => {
                        assert(display_names(whole) =~= display_names(entries).push(n));
                    },
                    None => {},
                }
            },
            None => {},
        }
    }
}

/// A name is in the display list exactly when some entry carries it.
pub proof fn lemma_display_names_contains(entries: Seq<Value>, name: Seq<char>)
    ensures
        display_names(entries).contains(name) <==> has_schema(entries, name),
    decreases entries.len(),
{
    if entries.len() == 0 {
    } else {
        let rest = entries.subrange(1, entries.len() as int);
        lemma_display_names_contains(rest, name);
        match entry_schema(entries[0]) {
            Some(n) => {
                if n == name {
                    assert(display_names(entries) == seq![name] + display_names(rest));
                    assert(display_names(entries)[0] == name);
                    assert(display_names(entries).contains(name));
                    assert(has_schema(entries, name));
                } else {
                    assert(display_names(entries).contains(name) <==> display_names(
                        rest,
                    ).contains(name)) by {
                        if display_names(entries).contains(name) {
                            let i = choose|i: int|
                                0 <= i < display_names(entries).len() && display_names(entries)[i]
                                    == name;
                            assert(display_names(rest)[i - 1] == name);
                        }
                        if display_names(rest).contains(name) {
                            let i = choose|i: int|
                                0 <= i < display_names(rest).len() && display_names(rest)[i]
                                    == name;
                            assert(display_names(entries)[i + 1] == name);
                        }
                    }
                }
            },
            None => {},
        }
    }
}

/// Looks `key` up in a mapping's pairs, returning the value at the key's
/// first occurrence.
pub fn map_get<'a>(pairs: &'a Vec<(String, Value)>, key: &String) -> (r: Option<&'a Value>)
    ensures
        match r {
            Some(v) => map_lookup(pairs@, key@) == Some(*v),
            None => map_lookup(pairs@, key@) is None,
        },
{
    match find_key(pairs, key) {
        Some(i) => Some(&pairs[i].1),
        None => None,
    }
}

/// Index of the first pair whose key is `key`, or `None` if the key is
/// absent; the executable counterpart of `key_index`.
pub fn find_key(pairs: &Vec<(String, Value)>, key: &String) -> (r: Option<usize>)
    ensures
        match r {
            Some(i) => i == key_index(pairs@, key@) && has_key(pairs@, key@),
            None => !has_key(pairs@, key@),
        },
{
    proof {
        lemma_key_index(pairs@, key@);
    }
    let mut i: usize = 0;
    while i < pairs.len()
        invariant
            i <= pairs.len(),
            forall|j: int| 0 <= j < i ==> pairs@[j].0@ != key@,
        decreases pairs.len() - i,
    {
        if pairs[i].0 == *key {
            proof {
                lemma_key_index(pairs@, key@);
            }
            return Some(i);
        }
        i += 1;
    }
    proof {
        lemma_key_index(pairs@, key@);
    }
    None
}

/// The schema name of one entry, or `None` for an invalid entry; the
/// executable counterpart of `entry_schema`.
pub fn entry_name<'a>(e: &'a Value) -> (r: Option<&'a String>)
    ensures
        match r {
            Some(s) => entry_schema(*e) == Some(s@),
            None => entry_schema(*e) is None,
        },
{
    match e {
        Value::Mapping(pairs) => {
            let key = String::from_str("schema");
            match map_get(pairs, &key) {
                Some(v) => match v {
                    Value::Str(s) => Some(s),
                    _ => None,
                },
                None => None,
            }
        },
        _ => None,
    }
}

/// Whether entry `e` carries the schema name `name`.
pub fn entry_matches(e: &Value, name: &String) -> (b: bool)
    ensures
        b == (entry_schema(*e) == Some(name@)),
{
    match entry_name(e) {
        Some(s) => *s == *name,
        None => false,
    }
}

/// Index of the first entry named `name`, or `None` if no entry matches;
/// the executable counterpart of `schema_index`.
pub fn find_schema(entries: &Vec<Value>, name: &String) -> (r: Option<usize>)
    ensures
        match r {
            Some(i) => i == schema_index(entries@, name@) && has_schema(entries@, name@),
            None => !has_schema(entries@, name@),
        },
{
    proof {
        lemma_schema_index(entries@, name@);
    }
    let mut i: usize = 0;
    while i < entries.len()
        invariant
            i <= entries.len(),
            forall|j: int| 0 <= j < i ==> entry_schema(entries@[j]) != Some(name@),
        decreases entries.len() - i,
    {
        if entry_matches(&entries[i], name) {
            proof {
                lemma_schema_index(entries@, name@);
            }
            return Some(i);
        }
        i += 1;
    }
    proof {
        lemma_schema_index(entries@, name@);
    }
    None
}

} // verus!
