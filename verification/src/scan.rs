//! Deriving installed-schema identifiers from the file names of the data
//! directory: a file named `<identifier>.schema.yaml` announces that
//! identifier; any other file name is ignored.

use vstd::prelude::*;

verus! {

/// The identifier a file name yields: the part before the trailing
/// `.schema.yaml`, or nothing for a name without that suffix.
pub open spec fn installed_id(name: Seq<char>) -> Option<Seq<char>> {
    let sfx = ".schema.yaml"@;
    if name.len() >= sfx.len() && name.subrange(
        name.len() - sfx.len(),
        name.len() as int,
    ) == sfx {
        Some(name.subrange(0, name.len() - sfx.len()))
    } else {
        None
    }
}

/// The identifiers of a whole directory listing, in listing order; names
/// without the suffix contribute nothing.
pub open spec fn installed_ids(names: Seq<Seq<char>>) -> Seq<Seq<char>>
    decreases names.len(),
{
    if names.len() == 0 {
        Seq::empty()
    } else {
        let rest = installed_ids(names.subrange(1, names.len() as int));
        match installed_id(names[0]) {
            Some(id) => seq![id] + rest,
            None => rest,
        }
    }
}

/// Appending one file name appends its identifier (or nothing) to the
/// derived listing.
pub proof fn lemma_installed_ids_push(names: Seq<Seq<char>>, x: Seq<char>)
    ensures
        installed_ids(names.push(x)) == match installed_id(x) {
            Some(id) => installed_ids(names).push(id),
            None => installed_ids(names),
        },
    decreases names.len(),
{
    let whole = names.push(x);
    if names.len() == 0 {
        reveal_with_fuel(installed_ids, 2);
        assert(whole.subrange(1, whole.len() as int) =~= Seq::<Seq<char>>::empty());
        assert(whole[0] == x);
        match installed_id(x) {
            Some(id) => {
                assert(installed_ids(whole) =~= installed_ids(names).push(id));
            },
            None => {},
        }
    } else {
        let rest = names.subrange(1, names.len() as int);
        lemma_installed_ids_push(rest, x);
        assert(whole.subrange(1, whole.len() as int) =~= rest.push(x));
        assert(whole[0] == names[0]);
        match installed_id(x) {
            Some(id) => {
                match installed_id(names[0]) {
                    Some(h) => {
                        assert(installed_ids(whole) =~= installed_ids(names).push(id));
                    },
                    None => {},
                }
            },
            None => {},
        }
    }
}

/// Strips the fixed `.schema.yaml` suffix from one file name; the
/// executable counterpart of `installed_id`.
pub fn strip_schema_suffix(name: &String) -> (r: Option<String>)
    ensures
        match r {
            Some(p) => installed_id(name@) == Some(p@),
            None => installed_id(name@) is None,
        },
{
    proof {
        reveal_strlit(".schema.yaml");
    }
    let s = name.as_str();
    let n = s.unicode_len();
    if n < 12 {
        return None;
    }
    let tail = s.substring_char(n - 12, n);
    let sfx = String::from_str(".schema.yaml");
    let tail_owned = String::from_str(tail);
    if tail_owned == sfx {
        let pre = s.substring_char(0, n - 12);
        Some(String::from_str(pre))
    } else {
        None
    }
}

/// Derives the installed-schema identifiers from a directory listing, in
/// listing order; the input for `sync`.
pub fn installed_from_files(names: &Vec<String>) -> (r: Vec<String>)
    ensures
        r.deep_view() == installed_ids(names.deep_view()),
{
    let mut out: Vec<String> = Vec::new();
    let mut i: usize = 0;
    while i < names.len()
        invariant
            i <= names.len(),
            out.deep_view() == installed_ids(names.deep_view().subrange(0, i as int)),
        decreases names.len() - i,
    {
        let ghost pre = names.deep_view().subrange(0, i as int);
        match strip_schema_suffix(&names[i]) {
            Some(id) => {
                let ghost old_out = out.deep_view();
                let ghost idv = id@;
                out.push(id);
                proof {
                    assert(out.deep_view() =~= old_out.push(idv));
                }
            },
            None => {},
        }
        proof {
            lemma_installed_ids_push(pre, names.deep_view()[i as int]);
            assert(names.deep_view().subrange(0, i + 1) =~= pre.push(names.deep_view()[i as int]));
            assert(names.deep_view()[i as int] == names@[i as int]@);
        }
        i += 1;
    }
    proof {
        assert(names.deep_view().subrange(0, names@.len() as int) =~= names.deep_view());
    }
    out
}

} // verus!
