//! The five list operations, at the level of the entry sequence itself:
//! rendering the names, appending new schemas, removing schemas, promoting
//! one schema to the front, and rebuilding the list from the installed set.

use vstd::prelude::*;

use crate::value::display_names;
use crate::value::entry_name;
use crate::value::entry_schema;
use crate::value::find_schema;
use crate::value::has_schema;
use crate::value::key_index;
use crate::value::lemma_display_names_contains;
use crate::value::lemma_display_names_push;
use crate::value::lemma_schema_index;
use crate::value::schema_index;
use crate::value::Value;

verus! {

/// A freshly made list entry: a mapping with the single pair
/// `schema: name`. `add` and `sync` append no other shape of entry.
pub open spec fn is_singleton_entry(e: Value, name: Seq<char>) -> bool {
    match e {
        Value::Mapping(pairs) => pairs@.len() == 1 && pairs@[0].0@ == "schema"@ && match pairs@[0].1 {
            Value::Str(s) => s@ == name,
            _ => false,
        },
        _ => false,
    }
}

/// A singleton entry carries exactly the name it was made from.
pub proof fn lemma_singleton_entry(e: Value, name: Seq<char>)
    requires
        is_singleton_entry(e, name),
    ensures
        entry_schema(e) == Some(name),
{
    match e {
        Value::Mapping(pairs) => {
            assert(key_index(pairs@, "schema"@) == 0);
        },
        _ => {},
    }
}

/// What one `add` invocation does, described over the names alone: walk the
/// inputs in order; an input whose name is already present contributes
/// `false`, a fresh one contributes `true` and joins the present names.
/// Yields the fresh names in input order, and one flag per input.
pub open spec fn plan_add(names: Seq<Seq<char>>, inputs: Seq<Seq<char>>) -> (Seq<Seq<char>>, Seq<
    bool,
>)
    decreases inputs.len(),
{
    if inputs.len() == 0 {
        (Seq::empty(), Seq::empty())
    } else if names.contains(inputs[0]) {
        let r = plan_add(names, inputs.subrange(1, inputs.len() as int));
        (r.0, seq![false] + r.1)
    } else {
        let r = plan_add(names.push(inputs[0]), inputs.subrange(1, inputs.len() as int));
        (seq![inputs[0]] + r.0, seq![true] + r.1)
    }
}

/// The list after removing the first entry named `name`, if any entry is.
pub open spec fn remove_first(entries: Seq<Value>, name: Seq<char>) -> Seq<Value> {
    if has_schema(entries, name) {
        entries.remove(schema_index(entries, name))
    } else {
        entries
    }
}

/// What one `remove` invocation does: walk the inputs in order, each time
/// removing the first entry carrying that name, if one is there. Yields the
/// final list, and one found-flag per input.
pub open spec fn plan_remove(entries: Seq<Value>, inputs: Seq<Seq<char>>) -> (Seq<Value>, Seq<bool>)
    decreases inputs.len(),
{
    if inputs.len() == 0 {
        (entries, Seq::empty())
    } else {
        let r = plan_remove(
            remove_first(entries, inputs[0]),
            inputs.subrange(1, inputs.len() as int),
        );
        (r.0, seq![has_schema(entries, inputs[0])] + r.1)
    }
}

/// Renders the list: the schema name of every valid entry, in order.
/// Entries without a string `schema` value are skipped.
pub fn entry_names(entries: &Vec<Value>) -> (r: Vec<String>)
    ensures
        r.deep_view() == display_names(entries@),
{
    let mut out: Vec<String> = Vec::new();
    let mut i: usize = 0;
    while i < entries.len()
        invariant
            i <= entries.len(),
            out.deep_view() == display_names(entries@.subrange(0, i as int)),
        decreases entries.len() - i,
    {
        let ghost pre = entries@.subrange(0, i as int);
        match entry_name(&entries[i]) {
            Some(s) => {
                let ghost old_out = out.deep_view();
                let n = s.clone();
                out.push(n);
                proof {
                    assert(out.deep_view() =~= old_out.push(n@));
                }
            },
            None => {},
        }
        proof {
            lemma_display_names_push(pre, entries@[i as int]);
            assert(entries@.subrange(0, i + 1) =~= pre.push(entries@[i as int]));
        }
        i += 1;
    }
    proof {
        assert(entries@.subrange(0, entries@.len() as int) =~= entries@);
    }
    out
}

/// Builds the replacement list for `sync`: one singleton entry per
/// installed schema identifier, in the order the identifiers were handed
/// in. The prior list plays no part.
pub fn entries_from_installed(installed: &Vec<String>) -> (r: Vec<Value>)
    ensures
        r@.len() == installed@.len(),
        forall|k: int| 0 <= k < r@.len() ==> is_singleton_entry(r@[k], installed@[k]@),
        display_names(r@) == installed.deep_view(),
{
    let mut out: Vec<Value> = Vec::new();
    let mut i: usize = 0;
    while i < installed.len()
        invariant
            i <= installed.len(),
            out@.len() == i,
            forall|k: int| 0 <= k < i ==> is_singleton_entry(out@[k], installed@[k]@),
            display_names(out@) == installed.deep_view().subrange(0, i as int),
        decreases installed.len() - i,
    {
        let ghost old_out = out@;
        let mut pairs: Vec<(String, Value)> = Vec::new();
        pairs.push((String::from_str("schema"), Value::Str(installed[i].clone())));
        let e = Value::Mapping(pairs);
        proof {
            assert(is_singleton_entry(e, installed@[i as int]@));
            lemma_singleton_entry(e, installed@[i as int]@);
        }
        out.push(e);
        proof {
            lemma_display_names_push(old_out, e);
            assert(installed.deep_view().subrange(0, i + 1) =~= installed.deep_view().subrange(
                0,
                i as int,
            ).push(installed@[i as int]@));
        }
        i += 1;
    }
    proof {
        assert(installed.deep_view().subrange(0, installed@.len() as int) =~= installed.deep_view());
    }
    out
}

/// Appends the schemas of `inputs` that the list does not yet carry: each
/// input is checked in order against the list as grown so far; a fresh name
/// gains a singleton entry at the end, a present one changes nothing.
/// Existing entries keep their place and their full content. Returns the
/// grown list and, per input, whether it was added (`false`: it was already
/// present).
pub fn add_entries(entries: Vec<Value>, inputs: &Vec<String>) -> (r: (Vec<Value>, Vec<bool>))
    ensures
        ({
            let plan = plan_add(display_names(entries@), inputs.deep_view());
            &&& r.0@.len() == entries@.len() + plan.0.len()
            &&& forall|i: int| 0 <= i < entries@.len() ==> r.0@[i] == entries@[i]
            &&& forall|k: int|
                0 <= k < plan.0.len() ==> is_singleton_entry(
                    r.0@[entries@.len() + k],
                    plan.0[k],
                )
            &&& display_names(r.0@) == display_names(entries@) + plan.0
            &&& r.1@ == plan.1
        }),
{
    let ghost entries0 = entries@;
    let ghost names0 = display_names(entries@);
    let ghost ins = inputs.deep_view();
    let mut cur = entries;
    let mut flags: Vec<bool> = Vec::new();
    let ghost mut fresh: Seq<Seq<char>> = Seq::empty();
    let mut j: usize = 0;
    proof {
        assert(ins.subrange(0, ins.len() as int) =~= ins);
        assert(names0 + fresh =~= names0);
        assert(Seq::<Seq<char>>::empty() + plan_add(names0, ins).0 =~= plan_add(names0, ins).0);
        assert(Seq::<bool>::empty() + plan_add(names0, ins).1 =~= plan_add(names0, ins).1);
    }
    while j < inputs.len()
        invariant
            j <= inputs.len(),
            ins == inputs.deep_view(),
            ins.len() == inputs@.len(),
            flags@.len() == j,
            cur@.len() == entries0.len() + fresh.len(),
            forall|i: int| 0 <= i < entries0.len() ==> cur@[i] == entries0[i],
            forall|k: int|
                0 <= k < fresh.len() ==> is_singleton_entry(cur@[entries0.len() + k], fresh[k]),
            display_names(cur@) == names0 + fresh,
            plan_add(names0, ins).0 == fresh + plan_add(
                names0 + fresh,
                ins.subrange(j as int, ins.len() as int),
            ).0,
            plan_add(names0, ins).1 == flags@ + plan_add(
                names0 + fresh,
                ins.subrange(j as int, ins.len() as int),
            ).1,
        decreases inputs.len() - j,
    {
        let ghost rem = ins.subrange(j as int, ins.len() as int);
        let ghost cur_names = names0 + fresh;
        proof {
            assert(rem[0] == inputs@[j as int]@);
            assert(rem.subrange(1, rem.len() as int) =~= ins.subrange(j + 1, ins.len() as int));
        }
        let inp = &inputs[j];
        let present = match find_schema(&cur, inp) {
            Some(_) => true,
            None => false,
        };
        proof {
            lemma_display_names_contains(cur@, inp@);
        }
        let ghost flags_old = flags@;
        if present {
            flags.push(false);
            proof {
                let t = plan_add(cur_names, ins.subrange(j + 1, ins.len() as int));
                assert(plan_add(cur_names, rem) == (t.0, seq![false] + t.1));
                assert(flags_old + (seq![false] + t.1) =~= flags@ + t.1);
            }
        } else {
            let mut pairs: Vec<(String, Value)> = Vec::new();
            pairs.push((String::from_str("schema"), Value::Str(inp.clone())));
            let e = Value::Mapping(pairs);
            let ghost cur_old = cur@;
            let ghost fresh_old = fresh;
            cur.push(e);
            flags.push(true);
            proof {
                assert(is_singleton_entry(e, inp@));
                lemma_singleton_entry(e, inp@);
                lemma_display_names_push(cur_old, e);
                fresh = fresh.push(inp@);
                assert(display_names(cur@) =~= names0 + fresh);
                assert(cur_names.push(inp@) =~= names0 + fresh);
                let t = plan_add(cur_names.push(inp@), ins.subrange(j + 1, ins.len() as int));
                assert(plan_add(cur_names, rem) == (seq![inp@] + t.0, seq![true] + t.1));
                assert(fresh_old + (seq![inp@] + t.0) =~= fresh + t.0);
                assert(flags_old + (seq![true] + t.1) =~= flags@ + t.1);
                assert forall|k: int|
                    0 <= k < fresh.len() implies is_singleton_entry(
                    cur@[entries0.len() + k],
                    fresh[k],
                ) by {
                    if k < fresh_old.len() {
                        assert(cur@[entries0.len() + k] == cur_old[entries0.len() + k]);
                    } else {
                        assert(cur@[entries0.len() + k] == e);
                    }
                }
            }
        }
        j += 1;
    }
    proof {
        assert(ins.subrange(inputs@.len() as int, ins.len() as int) =~= Seq::<Seq<char>>::empty());
        assert(fresh + Seq::<Seq<char>>::empty() =~= fresh);
        assert(flags@ + Seq::<bool>::empty() =~= flags@);
    }
    (cur, flags)
}

/// Removes, for each input in order, the first entry carrying that schema
/// name; an input no entry carries changes nothing. When duplicate names
/// exist, one pass removes only the first. Returns the thinned list and,
/// per input, whether an entry was removed.
pub fn remove_entries(entries: Vec<Value>, inputs: &Vec<String>) -> (r: (Vec<Value>, Vec<bool>))
    ensures
        ({
            let plan = plan_remove(entries@, inputs.deep_view());
            &&& r.0@ == plan.0
            &&& r.1@ == plan.1
        }),
{
    let ghost entries0 = entries@;
    let ghost ins = inputs.deep_view();
    let mut cur = entries;
    let mut flags: Vec<bool> = Vec::new();
    let mut j: usize = 0;
    proof {
        assert(ins.subrange(0, ins.len() as int) =~= ins);
        assert(Seq::<bool>::empty() + plan_remove(cur@, ins).1 =~= plan_remove(cur@, ins).1);
    }
    while j < inputs.len()
        invariant
            j <= inputs.len(),
            ins == inputs.deep_view(),
            ins.len() == inputs@.len(),
            flags@.len() == j,
            plan_remove(entries0, ins).0 == plan_remove(
                cur@,
                ins.subrange(j as int, ins.len() as int),
            ).0,
            plan_remove(entries0, ins).1 == flags@ + plan_remove(
                cur@,
                ins.subrange(j as int, ins.len() as int),
            ).1,
        decreases inputs.len() - j,
    {
        let ghost rem = ins.subrange(j as int, ins.len() as int);
        let ghost cur_old = cur@;
        proof {
            assert(rem[0] == inputs@[j as int]@);
            assert(rem.subrange(1, rem.len() as int) =~= ins.subrange(j + 1, ins.len() as int));
        }
        let inp = &inputs[j];
        let found: bool = match find_schema(&cur, inp) {
            Some(i) => {
                let _ = cur.remove(i);
                true
            },
            None => false,
        };
        let ghost flags_old = flags@;
        flags.push(found);
        proof {
            assert(cur@ == remove_first(cur_old, rem[0]));
            let t = plan_remove(cur@, ins.subrange(j + 1, ins.len() as int));
            assert(plan_remove(cur_old, rem) == (t.0, seq![found] + t.1));
            assert(flags_old + (seq![found] + t.1) =~= flags@ + t.1);
        }
        j += 1;
    }
    proof {
        assert(ins.subrange(inputs@.len() as int, ins.len() as int) =~= Seq::<Seq<char>>::empty());
        assert(flags@ + Seq::<bool>::empty() =~= flags@);
    }
    (cur, flags)
}

/// Moves the first entry named `name` to the front, shifting the entries
/// before it down by one place and leaving every entry's content untouched;
/// does nothing when no entry matches. Returns whether a match was found.
pub fn promote_entry(entries: Vec<Value>, name: &String) -> (r: (Vec<Value>, bool))
    ensures
        r.1 == has_schema(entries@, name@),
        has_schema(entries@, name@) ==> ({
            let k = schema_index(entries@, name@);
            r.0@ == seq![entries@[k]] + entries@.subrange(0, k) + entries@.subrange(
                k + 1,
                entries@.len() as int,
            )
        }),
        !has_schema(entries@, name@) ==> r.0 == entries,
{
    let mut cur = entries;
    match find_schema(&cur, name) {
        Some(i) => {
            let ghost orig = cur@;
            let e = cur.remove(i);
            cur.insert(0, e);
            proof {
                let k = i as int;
                assert(cur@ =~= seq![orig[k]] + orig.subrange(0, k) + orig.subrange(
                    k + 1,
                    orig.len() as int,
                ));
            }
            (cur, true)
        },
        None => (cur, false),
    }
}

} // verus!
