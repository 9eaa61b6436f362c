//! What holds of the walk and the destinations, stated and proved once
//! for all trees, paths and pairs: which entries a walk exports, that
//! skipping never loses siblings, that the exact-name gate on a pending
//! segment is absolute, how the two destinations treat duplicate keys,
//! and that a rendered line parses back to its pair.

use vstd::prelude::*;
use crate::format::line_of;
use crate::format::lemma_find_eq_in_line;
use crate::format::parsed_line;
use crate::path::resolved_path;
use crate::path::split_acc;
use crate::sink::target_write;
use crate::sink::target_write_all;
use crate::sink::TargetView;
use crate::tree::exportable;
use crate::tree::group_pairs;
use crate::tree::node_pairs;
use crate::tree::pair_of;
use crate::tree::pairs_from;
use crate::tree::Entry;
use crate::tree::Group;
use crate::tree::Node;

verus! {

/// The pairs of the exportable entries directly among `children`, in
/// child order; child groups contribute nothing.
pub open spec fn direct_entry_pairs(children: Seq<Node>) -> Seq<(Seq<char>, Seq<char>)>
    decreases children.len(),
{
    if children.len() == 0 {
        Seq::empty()
    } else {
        (match children[0] {
            Node::Entry(e) => if exportable(e) {
                seq![pair_of(e)]
            } else {
                Seq::empty()
            },
            Node::Group(_) => Seq::empty(),
        }) + direct_entry_pairs(children.drop_first())
    }
}

/// With no path segment left, a walk emits exactly the exportable
/// entries directly in the group, in child order — nested groups are
/// skipped whole, whatever their depth or contents.
pub proof fn lemma_empty_path_exports_direct_entries(g: Group)
    ensures
        group_pairs(g, Seq::empty()) == direct_entry_pairs(g.children@),
{
    lemma_pairs_from_empty_path(g.children@, 0);
    assert(g.children@.skip(0) =~= g.children@);
}

proof fn lemma_pairs_from_empty_path(children: Seq<Node>, i: int)
    requires
        0 <= i <= children.len(),
    ensures
        pairs_from(children, i, Seq::empty()) == direct_entry_pairs(children.skip(i)),
    decreases children.len() - i,
{
    if i == children.len() {
        assert(children.skip(i).len() == 0);
        assert(pairs_from(children, i, Seq::empty()) =~= Seq::<(Seq<char>, Seq<char>)>::empty());
        assert(direct_entry_pairs(children.skip(i)) =~= Seq::<(Seq<char>, Seq<char>)>::empty());
    } else {
        lemma_pairs_from_empty_path(children, i + 1);
        let rest = children.skip(i);
        assert(rest[0] == children[i]);
        assert(rest.drop_first() =~= children.skip(i + 1));
        assert(pairs_from(children, i, Seq::empty()) == node_pairs(children[i], Seq::empty())
            + pairs_from(children, i + 1, Seq::empty()));
        assert(direct_entry_pairs(rest) == (match rest[0] {
            Node::Entry(e) => if exportable(e) {
                seq![pair_of(e)]
            } else {
                Seq::empty()
            },
            Node::Group(_) => Seq::empty(),
        }) + direct_entry_pairs(children.skip(i + 1)));
        match children[i] {
            Node::Entry(e) => {
                assert(node_pairs(children[i], Seq::empty()) == if exportable(e) {
                    seq![pair_of(e)]
                } else {
                    Seq::<(Seq<char>, Seq<char>)>::empty()
                });
            },
            Node::Group(_) => {
                assert(node_pairs(children[i], Seq::empty()) =~= Seq::<(
                    Seq<char>,
                    Seq<char>,
                )>::empty());
            },
        }
    }
}

/// When every child of the group is an exportable entry, an empty-path
/// walk emits every one of their pairs, in child order.
pub proof fn lemma_complete_entries_all_export(g: Group)
    requires
        forall|i: int|
            0 <= i < g.children@.len() ==> (#[trigger] g.children@[i] matches Node::Entry(e)
                && exportable(e)),
    ensures
        group_pairs(g, Seq::empty()) == Seq::new(
            g.children@.len(),
            |i: int| pair_of(g.children@[i]->Entry_0),
        ),
{
    lemma_empty_path_exports_direct_entries(g);
    lemma_direct_entry_pairs_complete(g.children@);
}

proof fn lemma_direct_entry_pairs_complete(children: Seq<Node>)
    requires
        forall|i: int|
            0 <= i < children.len() ==> (#[trigger] children[i] matches Node::Entry(e) && exportable(e)),
    ensures
        direct_entry_pairs(children) == Seq::new(
            children.len(),
            |i: int| pair_of(children[i]->Entry_0),
        ),
    decreases children.len(),
{
    if children.len() > 0 {
        lemma_direct_entry_pairs_complete(children.drop_first());
        assert(seq![pair_of(children[0]->Entry_0)] + Seq::new(
            children.drop_first().len(),
            |i: int| pair_of(children.drop_first()[i]->Entry_0),
        ) =~= Seq::new(children.len(), |i: int| pair_of(children[i]->Entry_0)));
    } else {
        assert(direct_entry_pairs(children) =~= Seq::new(
            children.len(),
            |i: int| pair_of(children[i]->Entry_0),
        ));
    }
}

/// A walk takes the children one after the other: the pairs of a
/// concatenation are the pairs of the first part followed by the pairs
/// of the second. Nothing a child does — least of all being skipped —
/// changes what its later siblings contribute.
pub proof fn lemma_children_split(s1: Seq<Node>, s2: Seq<Node>, path: Seq<Seq<char>>)
    ensures
        pairs_from(s1 + s2, 0, path) == pairs_from(s1, 0, path) + pairs_from(s2, 0, path),
{
    lemma_pairs_from_concat(s1, s2, 0, path);
    assert(pairs_from(s1, 0, path) + pairs_from(s2, 0, path) =~= pairs_from(s1, 0, path)
        + pairs_from(s2, 0, path));
}

proof fn lemma_pairs_from_concat(s1: Seq<Node>, s2: Seq<Node>, i: int, path: Seq<Seq<char>>)
    requires
        0 <= i <= s1.len(),
    ensures
        pairs_from(s1 + s2, i, path) == pairs_from(s1, i, path) + pairs_from(s2, 0, path),
    decreases s1.len() - i,
{
    if i == s1.len() {
        lemma_pairs_from_tail(s1, s2, 0, path);
        assert(Seq::<(Seq<char>, Seq<char>)>::empty() + pairs_from(s2, 0, path) =~= pairs_from(
            s2,
            0,
            path,
        ));
    } else {
        assert((s1 + s2)[i] == s1[i]);
        lemma_pairs_from_concat(s1, s2, i + 1, path);
        assert(node_pairs(s1[i], path) + (pairs_from(s1, i + 1, path) + pairs_from(s2, 0, path))
            =~= (node_pairs(s1[i], path) + pairs_from(s1, i + 1, path)) + pairs_from(
            s2,
            0,
            path,
        ));
    }
}

proof fn lemma_pairs_from_tail(s1: Seq<Node>, s2: Seq<Node>, j: int, path: Seq<Seq<char>>)
    requires
        0 <= j <= s2.len(),
    ensures
        pairs_from(s1 + s2, s1.len() + j, path) == pairs_from(s2, j, path),
    decreases s2.len() - j,
{
    if j < s2.len() {
        assert((s1 + s2)[s1.len() + j] == s2[j]);
        lemma_pairs_from_tail(s1, s2, j + 1, path);
    }
}

/// An entry missing its username or its password is never emitted, and
/// its being skipped does not halt the walk: the siblings before and
/// after it contribute exactly what they would contribute without it.
pub proof fn lemma_skipped_entry_leaves_siblings(
    before: Seq<Node>,
    e: Entry,
    after: Seq<Node>,
    path: Seq<Seq<char>>,
)
    requires
        !exportable(e),
    ensures
        pairs_from(before + seq![Node::Entry(e)] + after, 0, path) == pairs_from(before, 0, path)
            + pairs_from(after, 0, path),
{
    let mid = seq![Node::Entry(e)];
    lemma_children_split(before + mid, after, path);
    lemma_children_split(before, mid, path);
    assert(mid[0] == Node::Entry(e));
    assert(node_pairs(mid[0], path) =~= Seq::<(Seq<char>, Seq<char>)>::empty());
    assert(pairs_from(mid, 1, path) =~= Seq::<(Seq<char>, Seq<char>)>::empty());
    assert(pairs_from(mid, 0, path) =~= Seq::<(Seq<char>, Seq<char>)>::empty());
    assert(pairs_from(before, 0, path) + Seq::<(Seq<char>, Seq<char>)>::empty() =~= pairs_from(
        before,
        0,
        path,
    ));
}

/// While a segment is pending, the exact-name gate is absolute: a group
/// none of whose children is a group named exactly like the next segment
/// emits nothing at all — entries at that level included.
pub proof fn lemma_no_matching_child_no_export(g: Group, path: Seq<Seq<char>>)
    requires
        path.len() > 0,
        forall|i: int|
            0 <= i < g.children@.len() ==> (#[trigger] g.children@[i] matches Node::Group(c) ==> c.name@
                != path[0]),
    ensures
        group_pairs(g, path) == Seq::<(Seq<char>, Seq<char>)>::empty(),
{
    lemma_no_matching_child_from(g.children@, 0, path);
}

proof fn lemma_no_matching_child_from(children: Seq<Node>, i: int, path: Seq<Seq<char>>)
    requires
        path.len() > 0,
        0 <= i <= children.len(),
        forall|j: int|
            0 <= j < children.len() ==> (#[trigger] children[j] matches Node::Group(c) ==> c.name@
                != path[0]),
    ensures
        pairs_from(children, i, path) == Seq::<(Seq<char>, Seq<char>)>::empty(),
    decreases children.len() - i,
{
    if i < children.len() {
        lemma_no_matching_child_from(children, i + 1, path);
        assert(node_pairs(children[i], path) =~= Seq::<(Seq<char>, Seq<char>)>::empty());
        assert(Seq::<(Seq<char>, Seq<char>)>::empty() + Seq::<(Seq<char>, Seq<char>)>::empty()
            =~= Seq::<(Seq<char>, Seq<char>)>::empty());
    }
}

/// No resolved segment ever holds a `/`: the split consumes every one.
pub proof fn lemma_no_segment_holds_slash(root: Option<Seq<char>>, i: int)
    requires
        0 <= i < resolved_path(root).len(),
    ensures
        !resolved_path(root)[i].contains('/'),
{
    match root {
        Some(s) => {
            if s.len() > 0 {
                assert(!Seq::<char>::empty().contains('/'));
                lemma_split_acc_no_slash(s, Seq::empty(), i);
            }
        },
        None => {},
    }
}

proof fn lemma_split_acc_no_slash(s: Seq<char>, cur: Seq<char>, i: int)
    requires
        !cur.contains('/'),
        0 <= i < split_acc(s, cur).len(),
    ensures
        !split_acc(s, cur)[i].contains('/'),
    decreases s.len(),
{
    if s.len() == 0 {
        assert(split_acc(s, cur)[0] == cur);
    } else if s[0] == '/' {
        if i == 0 {
            assert(split_acc(s, cur)[0] == cur);
        } else {
            assert(!Seq::<char>::empty().contains('/'));
            lemma_split_acc_no_slash(s.drop_first(), Seq::empty(), i - 1);
            assert(split_acc(s, cur)[i] == split_acc(s.drop_first(), Seq::empty())[i - 1]);
        }
    } else {
        let cur2 = cur.push(s[0]);
        assert forall|j: int| 0 <= j < cur2.len() implies cur2[j] != '/' by {
            if j < cur.len() {
                assert(cur[j] != '/');
            }
        }
        lemma_split_acc_no_slash(s.drop_first(), cur2, i);
    }
}

/// A group whose own name holds a `/` is never matched by any segment of
/// any root path: one name never stands for two path levels.
pub proof fn lemma_slash_named_group_never_matched(name: Seq<char>, root: Option<Seq<char>>, i: int)
    requires
        name.contains('/'),
        0 <= i < resolved_path(root).len(),
    ensures
        name != resolved_path(root)[i],
{
    lemma_no_segment_holds_slash(root, i);
}

/// The lines a sequence of pairs renders to, in order.
pub open spec fn lines_of(ps: Seq<(Seq<char>, Seq<char>)>) -> Seq<Seq<char>> {
    ps.map_values(|p: (Seq<char>, Seq<char>)| line_of(p.0, p.1))
}

/// The file destination keeps every written pair as a line of its own:
/// duplicated keys stay duplicated, and writing a sequence of pairs adds
/// exactly one line per pair, in the order written.
pub proof fn lemma_file_keeps_every_pair(lines: Seq<Seq<char>>, ps: Seq<(Seq<char>, Seq<char>)>)
    ensures
        target_write_all(TargetView::File { lines }, ps) == (TargetView::File {
            lines: lines + lines_of(ps),
        }),
        (target_write_all(TargetView::File { lines }, ps))->lines.len() == lines.len() + ps.len(),
    decreases ps.len(),
{
    if ps.len() == 0 {
        assert(lines + lines_of(ps) =~= lines);
    } else {
        let t1 = target_write(TargetView::File { lines }, ps[0].0, ps[0].1);
        assert(t1 == (TargetView::File { lines: lines.push(line_of(ps[0].0, ps[0].1)) }));
        lemma_file_keeps_every_pair(lines.push(line_of(ps[0].0, ps[0].1)), ps.drop_first());
        assert(lines.push(line_of(ps[0].0, ps[0].1)) + lines_of(ps.drop_first()) =~= lines
            + lines_of(ps));
    }
}

/// The process-environment destination keeps one value per key: writing
/// two pairs with the same key leaves only the later value, whatever was
/// there before.
pub proof fn lemma_shell_last_write_wins(
    shell: Seq<char>,
    env: Map<Seq<char>, Seq<char>>,
    k: Seq<char>,
    v1: Seq<char>,
    v2: Seq<char>,
)
    ensures
        target_write_all(TargetView::Shell { shell, env }, seq![(k, v1), (k, v2)])
            == (TargetView::Shell { shell, env: env.insert(k, v2) }),
{
    let ps = seq![(k, v1), (k, v2)];
    let t0 = TargetView::Shell { shell, env };
    let t1 = target_write(t0, k, v1);
    let t2 = target_write(t1, k, v2);
    assert(ps[0] == (k, v1));
    assert(ps.drop_first() =~= seq![(k, v2)]);
    assert(ps.drop_first()[0] == (k, v2));
    assert(ps.drop_first().drop_first() =~= Seq::<(Seq<char>, Seq<char>)>::empty());
    assert(target_write_all(t0, ps) == target_write_all(t1, ps.drop_first()));
    assert(target_write_all(t1, ps.drop_first()) == target_write_all(
        t2,
        ps.drop_first().drop_first(),
    ));
    assert(target_write_all(t2, Seq::<(Seq<char>, Seq<char>)>::empty()) == t2);
    assert(env.insert(k, v1).insert(k, v2) =~= env.insert(k, v2));
}

/// A rendered line parses back to the pair it was rendered from by
/// splitting on the first `=`, as long as the key itself holds none.
pub proof fn lemma_line_round_trip(k: Seq<char>, v: Seq<char>)
    requires
        !k.contains('='),
    ensures
        parsed_line(line_of(k, v)) == Some((k, v)),
{
    lemma_find_eq_in_line(k, v);
    let s = line_of(k, v);
    assert(s.take(k.len() as int) =~= k);
    assert(s.skip(k.len() as int + 1) =~= v);
}

} // verus!
