//! Flattening a document that is already in memory.

use crate::laws::law_entry_count;
use crate::model::{child_path, leaf_count, leaves, member_leaves, PathEntry};
use crate::value::{lemma_object_view, JsonValue};
use vstd::prelude::*;
use vstd::string::StringExecFns;

verus! {

/// What a list of entries holds, each path taken as its characters.
pub open spec fn entries_view(entries: Seq<(String, bool)>) -> Seq<PathEntry> {
    Seq::new(entries.len(), |i: int| (entries[i].0@, entries[i].1))
}

/// Joins the path of an object with the key of one of its members.
pub fn join_path(prefix: &str, key: &str) -> (path: String)
    ensures
        path@ == child_path(prefix@, key@),
{
    if prefix.is_empty() {
        String::from_str(key)
    } else {
        let mut path = String::from_str(prefix);
        proof {
            reveal_strlit(".");
        }
        path.append(".");
        path.append(key);
        assert(path@ =~= prefix@ + seq!['.'] + key@);
        path
    }
}

/// Appends the entries of `input`, standing at `root`, to `array`.
pub fn walk(input: &JsonValue, root: &str, array: &mut Vec<(String, bool)>)
    ensures
        entries_view(final(array)@) == entries_view(old(array)@) + leaves(input@, root@),
    decreases input,
{
    match input {
        JsonValue::Object(inside) => {
            let ghost before = entries_view(array@);
            let ghost members = input@->Object_0;
            proof {
                lemma_object_view(*input);
            }
            assert(before + member_leaves(members, root@, 0) =~= before);
            let mut i: usize = 0;
            while i < inside.len()
                invariant
                    i <= inside.len(),
                    *input == JsonValue::Object(*inside),
                    members.len() == inside@.len(),
                    forall|j: int|
                        0 <= j < inside@.len() ==> #[trigger] members[j] == (
                            inside@[j].0@,
                            inside@[j].1@,
                        ),
                    entries_view(array@) == before + member_leaves(members, root@, i as nat),
                decreases inside.len() - i,
            {
                let member = &inside[i];
                let root_to_pass = join_path(root, member.0.as_str());
                assert(decreases_to!(*input => input->Object_0@[i as int].1));
                walk(&member.1, root_to_pass.as_str(), array);
                i = i + 1;
                assert(entries_view(array@) =~= before + member_leaves(members, root@, i as nat));
            }
        },
        JsonValue::Array(_) => {
            array.push((String::from_str(root), true));
            assert(entries_view(array@) =~= entries_view(old(array)@) + seq![(root@, true)]);
        },
        _ => {
            array.push((String::from_str(root), false));
            assert(entries_view(array@) =~= entries_view(old(array)@) + seq![(root@, false)]);
        },
    }
}

/// The entries of `document`, standing at `root`, in the order of the walk.
pub fn flatten(document: &JsonValue, root: &str) -> (entries: Vec<(String, bool)>)
    ensures
        entries_view(entries@) == leaves(document@, root@),
        entries@.len() == leaf_count(document@),
{
    let mut entries: Vec<(String, bool)> = Vec::new();
    walk(document, root, &mut entries);
    proof {
        assert(entries_view(entries@) =~= leaves(document@, root@));
        law_entry_count(document@, root@);
    }
    entries
}

} // verus!
