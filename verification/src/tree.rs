//! The in-memory model of the credential tree: named groups holding an
//! ordered sequence of child nodes, each a group or an entry, and the
//! specification of which (username, password) pairs a walk of that tree
//! emits.
//!
//! The tree is read-only for this crate: the surrounding program builds
//! it from the decrypted store, the walk only borrows it.

use vstd::prelude::*;

verus! {

/// A leaf of the tree: a credential record. A field that the store does
/// not carry for the record is `None`; an empty string is a present,
/// exportable value.
pub struct Entry {
    pub title: Option<String>,
    pub username: Option<String>,
    pub password: Option<String>,
}

/// A named container of child nodes, in the store's own order.
pub struct Group {
    pub name: String,
    pub children: Vec<Node>,
}

/// One node of the tree: a group or an entry.
pub enum Node {
    Group(Group),
    Entry(Entry),
}

/// Whether an entry is exported: both username and password must be
/// present. Either may be the empty string, but not absent.
pub open spec fn exportable(e: Entry) -> bool {
    e.username is Some && e.password is Some
}

/// The (username, password) pair of an exportable entry.
pub open spec fn pair_of(e: Entry) -> (Seq<char>, Seq<char>) {
    (e.username->0@, e.password->0@)
}

/// The pairs a walk of group `g` emits, given the path segments not yet
/// consumed. While segments remain the walk only descends, into each
/// child group whose name equals the next segment exactly; once the path
/// is exhausted it collects every exportable entry of the group it
/// reached, in child order, and descends no further.
pub open spec fn group_pairs(g: Group, path: Seq<Seq<char>>) -> Seq<(Seq<char>, Seq<char>)>
    decreases g, 0int, 0int,
{
    pairs_from(g.children@, 0, path)
}

/// The pairs emitted from the children `children[i..]`, in order.
pub open spec fn pairs_from(children: Seq<Node>, i: int, path: Seq<Seq<char>>) -> Seq<
    (Seq<char>, Seq<char>),
>
    decreases children, children.len() - i, 1int,
{
    if i < 0 || i >= children.len() {
        Seq::empty()
    } else {
        node_pairs(children[i], path) + pairs_from(children, i + 1, path)
    }
}

/// The pairs one child node contributes: a group is entered only if a
/// segment remains and names it; an entry is collected only once the
/// path is exhausted, and only if it is exportable. Everything else is
/// skipped, never an error.
pub open spec fn node_pairs(n: Node, path: Seq<Seq<char>>) -> Seq<(Seq<char>, Seq<char>)>
    decreases n, 0int, 0int,
{
    match n {
        Node::Group(g) => if path.len() > 0 && g.name@ == path[0] {
            group_pairs(g, path.drop_first())
        } else {
            Seq::empty()
        },
        Node::Entry(e) => if path.len() == 0 && exportable(e) {
            seq![pair_of(e)]
        } else {
            Seq::empty()
        },
    }
}

} // verus!
