//! The tree walk: descending along the resolved path segments, then
//! collecting every exportable entry of the group the path leads to.

use vstd::prelude::*;
use crate::path::resolve;
use crate::path::resolved_path;
use crate::path::root_view;
use crate::sink::lemma_write_all_append;
use crate::sink::lemma_write_one;
use crate::sink::target_write_all;
use crate::sink::EnvTarget;
use crate::tree::group_pairs;
use crate::tree::node_pairs;
use crate::tree::pair_of;
use crate::tree::pairs_from;
use crate::tree::Group;
use crate::tree::Node;

verus! {

/// Walks `group` with the segments `path[pos..]` still to consume,
/// writing every pair the walk collects to `target`, in the tree's child
/// order. While a segment remains, child groups named exactly like it
/// are entered and everything else is skipped; once the path is
/// exhausted, exportable entries are collected and child groups are
/// skipped. Skipping never stops the walk over the remaining siblings.
pub fn search_env(group: &Group, path: &Vec<String>, pos: usize, target: &mut EnvTarget)
    requires
        pos <= path@.len(),
        old(target).wf(),
    ensures
        final(target).wf(),
        final(target)@ == target_write_all(
            old(target)@,
            group_pairs(*group, path.deep_view().skip(pos as int)),
        ),
    decreases *group,
{
    let ghost rem = path.deep_view().skip(pos as int);
    let ghost kids = group.children@;
    let ghost t0 = target@;
    let n = group.children.len();
    let mut i: usize = 0;
    while i < n
        invariant
            pos <= path@.len(),
            n == group.children@.len(),
            0 <= i <= n,
            kids == group.children@,
            rem == path.deep_view().skip(pos as int),
            target.wf(),
            target_write_all(t0, pairs_from(kids, 0, rem)) == target_write_all(
                target@,
                pairs_from(kids, i as int, rem),
            ),
        decreases n - i,
    {
        let ghost tv = target@;
        let ghost emitted_here = node_pairs(kids[i as int], rem);
        let child = &group.children[i];
        match child {
            Node::Group(g) => {
                let descend = pos < path.len() && g.name.eq(&path[pos]);
                if descend {
                    proof {
                        assert(rem[0] == path.deep_view()[pos as int]);
                        assert(rem.drop_first() =~= path.deep_view().skip(pos as int + 1));
                        assert(decreases_to!(*group => *g));
                    }
                    search_env(g, path, pos + 1, target);
                } else {
                    proof {
                        if pos < path@.len() {
                            assert(rem[0] == path.deep_view()[pos as int]);
                        }
                        assert(emitted_here =~= Seq::<(Seq<char>, Seq<char>)>::empty());
                    }
                }
            },
            Node::Entry(e) => {
                if pos == path.len() {
                    match (&e.username, &e.password) {
                        (Some(u), Some(p)) => {
                            target.write(u.as_str(), p.as_str());
                            proof {
                                lemma_write_one(tv, u@, p@);
                                assert(emitted_here =~= seq![pair_of(*e)]);
                            }
                        },
                        _ => {
                            proof {
                                assert(emitted_here =~= Seq::<(Seq<char>, Seq<char>)>::empty());
                            }
                        },
                    }
                } else {
                    proof {
                        assert(emitted_here =~= Seq::<(Seq<char>, Seq<char>)>::empty());
                    }
                }
            },
        }
        proof {
            assert(target@ == target_write_all(tv, emitted_here));
            assert(pairs_from(kids, i as int, rem) == emitted_here + pairs_from(kids, i + 1, rem));
            lemma_write_all_append(tv, emitted_here, pairs_from(kids, i + 1, rem));
        }
        i = i + 1;
    }
    proof {
        assert(pairs_from(kids, n as int, rem) =~= Seq::<(Seq<char>, Seq<char>)>::empty());
        assert(group_pairs(*group, rem) == pairs_from(kids, 0, rem));
    }
}

/// Resolves the optional root path and walks the tree from `root`: the
/// destination ends up exactly with the pairs the resolved walk emits.
pub fn extract_env(root: &Group, root_path: Option<&str>, target: &mut EnvTarget)
    requires
        old(target).wf(),
    ensures
        final(target).wf(),
        final(target)@ == target_write_all(
            old(target)@,
            group_pairs(*root, resolved_path(root_view(root_path))),
        ),
{
    let segs = resolve(root_path);
    proof {
        assert(segs.deep_view().skip(0) =~= segs.deep_view());
    }
    search_env(root, &segs, 0, target);
}

} // verus!
