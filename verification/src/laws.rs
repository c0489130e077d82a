//! What holds of every flattening, proved over the model.

use crate::model::{
    child_path, leaf_count, leaves, member_leaf_count, member_leaves, member_visits, visits, Json,
    PathEntry,
};
use crate::parse::text_leaves;
use vstd::prelude::*;

verus! {

/// Every path of `entries` begins with `head`.
pub open spec fn paths_begin_with(entries: Seq<PathEntry>, head: Seq<char>) -> bool {
    forall|i: int| 0 <= i < entries.len() ==> head.is_prefix_of(#[trigger] entries[i].0)
}

/// The path is not empty and its first character is a dot.
pub open spec fn opens_with_dot(path: Seq<char>) -> bool {
    path.len() > 0 && path[0] == '.'
}

/// No path of `entries` opens with a dot.
pub open spec fn dot_free(entries: Seq<PathEntry>) -> bool {
    forall|i: int| 0 <= i < entries.len() ==> !opens_with_dot(#[trigger] entries[i].0)
}

/// Below an empty prefix, no key that opens with a dot becomes the head of a
/// path: on the way from the root to any reached value, the first key that is
/// not empty does not open with a dot.
pub open spec fn plain_heads(doc: Json) -> bool
    decreases doc, 0nat,
{
    match doc {
        Json::Object(members) => member_plain_heads(members, members.len()),
        _ => true,
    }
}

/// `plain_heads` for the first `n` members of an object.
pub open spec fn member_plain_heads(members: Seq<(Seq<char>, Json)>, n: nat) -> bool
    decreases members, n,
{
    if n == 0 || n > members.len() {
        true
    } else {
        &&& member_plain_heads(members, (n - 1) as nat)
        &&& if members[n - 1].0.len() == 0 {
            plain_heads(members[n - 1].1)
        } else {
            !opens_with_dot(members[n - 1].0) || leaf_count(members[n - 1].1) == 0
        }
    }
}

/// A flattening has one entry for each value that the walk reaches, whatever
/// the root label.
pub proof fn law_entry_count(doc: Json, root: Seq<char>)
    ensures
        leaves(doc, root).len() == leaf_count(doc),
    decreases doc, 0nat,
{
    match doc {
        Json::Object(members) => lemma_member_entry_count(members, root, members.len()),
        _ => {},
    }
}

/// The first `n` members of an object yield one entry for each value that the
/// walk reaches below them.
proof fn lemma_member_entry_count(members: Seq<(Seq<char>, Json)>, prefix: Seq<char>, n: nat)
    ensures
        member_leaves(members, prefix, n).len() == member_leaf_count(members, n),
    decreases members, n,
{
    if n == 0 || n > members.len() {
    } else {
        lemma_member_entry_count(members, prefix, (n - 1) as nat);
        law_entry_count(members[n - 1].1, child_path(prefix, members[n - 1].0));
    }
}

/// Flattening is a function of the document and the root label: two results
/// for the same inputs hold the same entries, in the same order, and so the
/// same entries as collections without order.
pub proof fn law_same_document_same_entries(
    doc: Json,
    root: Seq<char>,
    first: Seq<PathEntry>,
    second: Seq<PathEntry>,
)
    requires
        first == leaves(doc, root),
        second == leaves(doc, root),
    ensures
        first == second,
        first.to_multiset() == second.to_multiset(),
        first.to_set() == second.to_set(),
{
}

/// Flattening a text is a function of the text and the root label: two
/// outcomes for the same inputs are both failures, or hold the same entries.
pub proof fn law_same_text_same_entries(
    text: Seq<char>,
    root: Seq<char>,
    first: Option<Seq<PathEntry>>,
    second: Option<Seq<PathEntry>>,
)
    requires
        first == text_leaves(text, root),
        second == text_leaves(text, root),
    ensures
        first is None <==> second is None,
        first matches Some(a) ==> second matches Some(b) && a == b && a.to_multiset()
            == b.to_multiset(),
{
}

/// With a root label that is not empty, the one path of a document that is
/// not an object is the label itself, and every path of an object begins with
/// the label and a dot.
pub proof fn law_prefix(doc: Json, root: Seq<char>)
    requires
        root.len() > 0,
    ensures
        doc is Object ==> paths_begin_with(leaves(doc, root), root + seq!['.']),
        !(doc is Object) ==> leaves(doc, root).len() == 1 && leaves(doc, root)[0].0 == root,
    decreases doc, 0nat,
{
    match doc {
        Json::Object(members) => lemma_member_prefix(members, root, members.len()),
        _ => {},
    }
}

/// With a prefix that is not empty, every path below the first `n` members of
/// an object begins with the prefix and a dot.
proof fn lemma_member_prefix(members: Seq<(Seq<char>, Json)>, prefix: Seq<char>, n: nat)
    requires
        prefix.len() > 0,
    ensures
        paths_begin_with(member_leaves(members, prefix, n), prefix + seq!['.']),
    decreases members, n,
{
    if n == 0 || n > members.len() {
    } else {
        let head = prefix + seq!['.'];
        let earlier = member_leaves(members, prefix, (n - 1) as nat);
        let below = child_path(prefix, members[n - 1].0);
        let last = leaves(members[n - 1].1, below);
        lemma_member_prefix(members, prefix, (n - 1) as nat);
        law_prefix(members[n - 1].1, below);
        assert(head.is_prefix_of(below));
        assert forall|i: int| 0 <= i < last.len() implies head.is_prefix_of(
            #[trigger] last[i].0,
        ) by {
            if members[n - 1].1 is Object {
                assert((below + seq!['.']).is_prefix_of(last[i].0));
            } else {
                assert(last[i].0 == below);
            }
        }
        assert forall|i: int| 0 <= i < (earlier + last).len() implies head.is_prefix_of(
            #[trigger] (earlier + last)[i].0,
        ) by {
            if i < earlier.len() {
                assert((earlier + last)[i] == earlier[i]);
            } else {
                assert((earlier + last)[i] == last[i - earlier.len()]);
            }
        }
    }
}

/// With an empty root label, no path opens with a dot, unless a key that
/// opens with a dot becomes the head of a path; and then one does.
pub proof fn law_empty_root(doc: Json)
    ensures
        plain_heads(doc) <==> dot_free(leaves(doc, Seq::empty())),
    decreases doc, 0nat,
{
    match doc {
        Json::Object(members) => lemma_member_empty_root(members, members.len()),
        _ => {},
    }
}

/// `law_empty_root` for the first `n` members of an object.
proof fn lemma_member_empty_root(members: Seq<(Seq<char>, Json)>, n: nat)
    ensures
        member_plain_heads(members, n) <==> dot_free(member_leaves(members, Seq::empty(), n)),
    decreases members, n,
{
    if n == 0 || n > members.len() {
    } else {
        let key = members[n - 1].0;
        let value = members[n - 1].1;
        let earlier = member_leaves(members, Seq::empty(), (n - 1) as nat);
        let last = leaves(value, key);
        assert(child_path(Seq::empty(), key) == key);
        lemma_member_empty_root(members, (n - 1) as nat);
        assert(dot_free(earlier + last) <==> dot_free(earlier) && dot_free(last)) by {
            if dot_free(earlier + last) {
                assert forall|i: int| 0 <= i < earlier.len() implies !opens_with_dot(
                    #[trigger] earlier[i].0,
                ) by {
                    assert((earlier + last)[i] == earlier[i]);
                }
                assert forall|i: int| 0 <= i < last.len() implies !opens_with_dot(
                    #[trigger] last[i].0,
                ) by {
                    assert((earlier + last)[i + earlier.len()] == last[i]);
                }
            }
            if dot_free(earlier) && dot_free(last) {
                assert forall|i: int| 0 <= i < (earlier + last).len() implies !opens_with_dot(
                    #[trigger] (earlier + last)[i].0,
                ) by {
                    if i < earlier.len() {
                        assert((earlier + last)[i] == earlier[i]);
                    } else {
                        assert((earlier + last)[i] == last[i - earlier.len()]);
                    }
                }
            }
        }
        if key.len() == 0 {
            assert(key =~= Seq::empty());
            law_empty_root(value);
        } else {
            law_entry_count(value, key);
            lemma_paths_keep_prefix(value, key);
            assert forall|i: int| 0 <= i < last.len() implies (opens_with_dot(
                #[trigger] last[i].0,
            ) <==> opens_with_dot(key)) by {
                assert(key.is_prefix_of(last[i].0));
                assert(last[i].0[0] == key[0]);
            }
            if opens_with_dot(key) && leaf_count(value) > 0 {
                assert(opens_with_dot(last[0].0));
            }
        }
    }
}

/// With a prefix that is not empty, every path of a flattening begins with
/// the prefix.
proof fn lemma_paths_keep_prefix(doc: Json, prefix: Seq<char>)
    requires
        prefix.len() > 0,
    ensures
        paths_begin_with(leaves(doc, prefix), prefix),
{
    law_prefix(doc, prefix);
    let entries = leaves(doc, prefix);
    assert forall|i: int| 0 <= i < entries.len() implies prefix.is_prefix_of(
        #[trigger] entries[i].0,
    ) by {
        if doc is Object {
            assert((prefix + seq!['.']).is_prefix_of(entries[i].0));
        }
    }
}

/// An entry is flagged exactly when the value that the walk reaches at its
/// path is an array, and no value that the walk reaches is an object.
pub open spec fn tags_match(entries: Seq<PathEntry>, seen: Seq<(Seq<char>, Json)>) -> bool {
    &&& entries.len() == seen.len()
    &&& forall|i: int|
        0 <= i < entries.len() ==> {
            &&& (#[trigger] entries[i]).0 == seen[i].0
            &&& entries[i].1 <==> seen[i].1 is Array
            &&& !(seen[i].1 is Object)
        }
}

/// The entries of a flattening are the values that the walk reaches, path by
/// path, each flagged exactly when the value is an array.
pub proof fn law_array_tag(doc: Json, root: Seq<char>)
    ensures
        tags_match(leaves(doc, root), visits(doc, root)),
    decreases doc, 0nat,
{
    match doc {
        Json::Object(members) => lemma_member_array_tag(members, root, members.len()),
        _ => {},
    }
}

/// `law_array_tag` for the first `n` members of an object.
proof fn lemma_member_array_tag(members: Seq<(Seq<char>, Json)>, prefix: Seq<char>, n: nat)
    ensures
        tags_match(member_leaves(members, prefix, n), member_visits(members, prefix, n)),
    decreases members, n,
{
    if n == 0 || n > members.len() {
    } else {
        let below = child_path(prefix, members[n - 1].0);
        lemma_member_array_tag(members, prefix, (n - 1) as nat);
        law_array_tag(members[n - 1].1, below);
        let earlier = member_leaves(members, prefix, (n - 1) as nat);
        let last = leaves(members[n - 1].1, below);
        let earlier_seen = member_visits(members, prefix, (n - 1) as nat);
        let last_seen = visits(members[n - 1].1, below);
        assert forall|i: int| 0 <= i < (earlier + last).len() implies {
            &&& (#[trigger] (earlier + last)[i]).0 == (earlier_seen + last_seen)[i].0
            &&& (earlier + last)[i].1 <==> (earlier_seen + last_seen)[i].1 is Array
            &&& !((earlier_seen + last_seen)[i].1 is Object)
        } by {
            if i < earlier.len() {
                assert((earlier + last)[i] == earlier[i]);
                assert((earlier_seen + last_seen)[i] == earlier_seen[i]);
            } else {
                assert((earlier + last)[i] == last[i - earlier.len()]);
                assert((earlier_seen + last_seen)[i] == last_seen[i - earlier.len()]);
            }
        }
    }
}

/// An array yields the one entry of its own path, whatever it holds: its
/// items get no entries.
pub proof fn law_array_is_leaf(items: Seq<Json>, root: Seq<char>)
    ensures
        leaves(Json::Array(items), root) == seq![(root, true)],
        visits(Json::Array(items), root) == seq![(root, Json::Array(items))],
{
}

/// An empty object yields no entry, wherever it stands.
pub proof fn law_empty_object(root: Seq<char>)
    ensures
        leaves(Json::Object(Seq::empty()), root) == Seq::<PathEntry>::empty(),
        leaf_count(Json::Object(Seq::empty())) == 0,
{
}

/// A member that is an empty object, put into an object at any place and
/// under any key, leaves the flattening of that object as it was.
pub proof fn law_empty_object_member(
    members: Seq<(Seq<char>, Json)>,
    at: int,
    key: Seq<char>,
    root: Seq<char>,
)
    requires
        0 <= at <= members.len(),
    ensures
        leaves(Json::Object(members.insert(at, (key, Json::Object(Seq::empty())))), root)
            == leaves(Json::Object(members), root),
{
    lemma_insert_empty_object(members, at, key, root, members.len());
}

/// The first `n` members yield the same entries in two objects that agree on
/// them.
proof fn lemma_member_leaves_agree(
    one: Seq<(Seq<char>, Json)>,
    other: Seq<(Seq<char>, Json)>,
    prefix: Seq<char>,
    n: nat,
)
    requires
        n <= one.len(),
        n <= other.len(),
        forall|i: int| 0 <= i < n ==> one[i] == other[i],
    ensures
        member_leaves(one, prefix, n) == member_leaves(other, prefix, n),
    decreases n,
{
    if n > 0 {
        lemma_member_leaves_agree(one, other, prefix, (n - 1) as nat);
    }
}

/// After an empty object was put in at `at`, the first `n + 1` members yield
/// what the first `n` yielded before, for every `n` from `at` on.
proof fn lemma_insert_empty_object(
    members: Seq<(Seq<char>, Json)>,
    at: int,
    key: Seq<char>,
    prefix: Seq<char>,
    n: nat,
)
    requires
        0 <= at <= n <= members.len(),
    ensures
        member_leaves(members.insert(at, (key, Json::Object(Seq::empty()))), prefix, n + 1)
            == member_leaves(members, prefix, n),
    decreases n,
{
    let grown = members.insert(at, (key, Json::Object(Seq::empty())));
    if n == at {
        lemma_member_leaves_agree(grown, members, prefix, n);
        assert(grown[at] == (key, Json::Object(Seq::<(Seq<char>, Json)>::empty())));
        assert(leaves(grown[at].1, child_path(prefix, key)) =~= Seq::<PathEntry>::empty());
        assert(member_leaves(grown, prefix, n + 1) =~= member_leaves(grown, prefix, n));
    } else {
        lemma_insert_empty_object(members, at, key, prefix, (n - 1) as nat);
        assert(grown[n as int] == members[n - 1]);
    }
}

} // verus!
