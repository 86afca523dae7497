//! Laws of the list operations, proved once for all documents. Each speaks
//! over the same spec functions that the operations' own contracts use:
//! `plan_add` and `plan_remove` for what a batch does, `display_names` for
//! what `list` renders.

use vstd::prelude::*;

use crate::ops::plan_add;
use crate::ops::plan_remove;
use crate::ops::remove_first;
use crate::value::display_names;
use crate::value::entry_schema;
use crate::value::has_schema;
use crate::value::lemma_display_names_contains;
use crate::value::lemma_schema_index;
use crate::value::schema_index;
use crate::value::Value;

verus! {

/// Adding a schema no entry carries appends exactly that name: the
/// rendering afterwards is one name longer, ends with the new name, and
/// carries it nowhere earlier — so the name appears exactly once.
pub proof fn lemma_add_new_schema(entries: Seq<Value>, s: Seq<char>)
    requires
        !has_schema(entries, s),
    ensures
        ({
            let plan = plan_add(display_names(entries), seq![s]);
            let after = display_names(entries) + plan.0;
            &&& plan.0 == seq![s]
            &&& plan.1 == seq![true]
            &&& after.len() == display_names(entries).len() + 1
            &&& after[after.len() - 1] == s
            &&& forall|i: int| 0 <= i < after.len() - 1 ==> after[i] != s
        }),
{
    lemma_display_names_contains(entries, s);
    let names = display_names(entries);
    let ins = seq![s];
    reveal_with_fuel(plan_add, 2);
    assert(ins[0] == s);
    assert(ins.subrange(1, ins.len() as int) =~= Seq::<Seq<char>>::empty());
    assert(plan_add(names, ins).0 =~= seq![s]);
    assert(plan_add(names, ins).1 =~= seq![true]);
    assert forall|i: int| 0 <= i < names.len() implies names[i] != s by {
        if names[i] == s {
            assert(names.contains(s));
        }
    }
}

/// `add` is idempotent per schema: after one `add` of `s`, the rendering
/// carries `s`, so a second `add` of `s` appends nothing and reports it
/// as already present.
pub proof fn lemma_add_idempotent(entries: Seq<Value>, s: Seq<char>)
    ensures
        ({
            let once = display_names(entries) + plan_add(display_names(entries), seq![s]).0;
            &&& plan_add(once, seq![s]).0 == Seq::<Seq<char>>::empty()
            &&& plan_add(once, seq![s]).1 == seq![false]
        }),
{
    let names = display_names(entries);
    let ins = seq![s];
    reveal_with_fuel(plan_add, 2);
    assert(ins[0] == s);
    assert(ins.subrange(1, ins.len() as int) =~= Seq::<Seq<char>>::empty());
    let once = names + plan_add(names, ins).0;
    if names.contains(s) {
        assert(plan_add(names, ins).0 == Seq::<Seq<char>>::empty());
        let i = choose|i: int| 0 <= i < names.len() && names[i] == s;
        assert(once[i] == s);
        assert(once.contains(s));
    } else {
        assert(plan_add(names, ins).0 =~= seq![s]);
        assert(once[names.len() as int] == s);
        assert(once.contains(s));
    }
    assert(plan_add(once, ins).0 == Seq::<Seq<char>>::empty());
    assert(plan_add(once, ins).1 =~= seq![false]);
}

/// Removing a schema that exactly one entry carries: that entry leaves,
/// every other entry stays with its content, in the same relative order,
/// and the name no longer appears anywhere in the list. (The uniqueness
/// hypothesis is needed: with duplicate names one pass removes only the
/// first match, and the name would remain.)
pub proof fn lemma_remove_present(entries: Seq<Value>, s: Seq<char>)
    requires
        has_schema(entries, s),
        forall|i: int|
            0 <= i < entries.len() && i != schema_index(entries, s) ==> entry_schema(entries[i])
                != Some(s),
    ensures
        ({
            let k = schema_index(entries, s);
            let plan = plan_remove(entries, seq![s]);
            &&& plan.1 == seq![true]
            &&& plan.0 == entries.subrange(0, k) + entries.subrange(k + 1, entries.len() as int)
            &&& !has_schema(plan.0, s)
        }),
{
    lemma_schema_index(entries, s);
    let k = schema_index(entries, s);
    let ins = seq![s];
    reveal_with_fuel(plan_remove, 2);
    assert(ins[0] == s);
    assert(ins.subrange(1, ins.len() as int) =~= Seq::<Seq<char>>::empty());
    let res = entries.remove(k);
    assert(res =~= entries.subrange(0, k) + entries.subrange(k + 1, entries.len() as int));
    assert(remove_first(entries, s) == res);
    assert(plan_remove(entries, ins).0 == res);
    assert(plan_remove(entries, ins).1 =~= seq![true]);
    lemma_schema_index(res, s);
    if has_schema(res, s) {
        let j = schema_index(res, s);
        assert(entry_schema(res[j]) == Some(s));
        if j < k {
            assert(res[j] == entries[j]);
        } else {
            assert(res[j] == entries[j + 1]);
        }
        assert(false);
    }
}

} // verus!
