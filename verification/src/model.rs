//! The mathematical model: documents as trees, and what flattening one yields.

use vstd::prelude::*;

verus! {

/// A JSON document as a tree. A number is held by its decimal text, an object
/// by its members in the order in which they are visited.
pub enum Json {
    Null,
    Bool(bool),
    Number(Seq<char>),
    String(Seq<char>),
    Array(Seq<Json>),
    Object(Seq<(Seq<char>, Json)>),
}

/// One entry of a flattened document: the path of a value and whether that
/// value is an array.
pub type PathEntry = (Seq<char>, bool);

/// The path of the member `key` of an object that stands at `prefix`.
pub open spec fn child_path(prefix: Seq<char>, key: Seq<char>) -> Seq<char> {
    if prefix.len() == 0 {
        key
    } else {
        prefix + seq!['.'] + key
    }
}

/// The entries of `doc` when it stands at `prefix`: every object is expanded,
/// every other value yields one entry.
pub open spec fn leaves(doc: Json, prefix: Seq<char>) -> Seq<PathEntry>
    decreases doc, 0nat,
{
    match doc {
        Json::Object(members) => member_leaves(members, prefix, members.len()),
        Json::Array(_) => seq![(prefix, true)],
        _ => seq![(prefix, false)],
    }
}

/// The entries of the first `n` members of an object that stands at `prefix`,
/// member after member.
pub open spec fn member_leaves(members: Seq<(Seq<char>, Json)>, prefix: Seq<char>, n: nat) -> Seq<
    PathEntry,
>
    decreases members, n,
{
    if n == 0 || n > members.len() {
        Seq::empty()
    } else {
        member_leaves(members, prefix, (n - 1) as nat) + leaves(
            members[n - 1].1,
            child_path(prefix, members[n - 1].0),
        )
    }
}

/// The number of values that the walk of `doc` reaches: every value that is
/// not an object and stands at the root or below objects only.
pub open spec fn leaf_count(doc: Json) -> nat
    decreases doc, 0nat,
{
    match doc {
        Json::Object(members) => member_leaf_count(members, members.len()),
        _ => 1,
    }
}

/// The number of values that the walk reaches below the first `n` members of
/// an object.
pub open spec fn member_leaf_count(members: Seq<(Seq<char>, Json)>, n: nat) -> nat
    decreases members, n,
{
    if n == 0 || n > members.len() {
        0
    } else {
        member_leaf_count(members, (n - 1) as nat) + leaf_count(members[n - 1].1)
    }
}

/// The values that the walk of `doc` reaches when it stands at `prefix`, each
/// with its path, in the order of the walk.
pub open spec fn visits(doc: Json, prefix: Seq<char>) -> Seq<(Seq<char>, Json)>
    decreases doc, 0nat,
{
    match doc {
        Json::Object(members) => member_visits(members, prefix, members.len()),
        _ => seq![(prefix, doc)],
    }
}

/// The values that the walk reaches below the first `n` members of an object
/// that stands at `prefix`, each with its path.
pub open spec fn member_visits(members: Seq<(Seq<char>, Json)>, prefix: Seq<char>, n: nat) -> Seq<
    (Seq<char>, Json),
>
    decreases members, n,
{
    if n == 0 || n > members.len() {
        Seq::empty()
    } else {
        member_visits(members, prefix, (n - 1) as nat) + visits(
            members[n - 1].1,
            child_path(prefix, members[n - 1].0),
        )
    }
}

} // verus!
