//! Resolving an optional slash-delimited root path into an ordered
//! sequence of group-name segments.
//!
//! The split is unfiltered: empty tokens produced by leading, trailing or
//! doubled slashes are kept as literal segments to match. Only an absent
//! or entirely empty path yields no segments at all.

use vstd::prelude::*;
use vstd::string::*;

verus! {

/// Splitting `s` on `'/'`, with `cur` the token accumulated so far.
/// Every token is kept, including empty ones; splitting the empty
/// sequence therefore yields one empty token.
pub open spec fn split_acc(s: Seq<char>, cur: Seq<char>) -> Seq<Seq<char>>
    decreases s.len(),
{
    if s.len() == 0 {
        seq![cur]
    } else if s[0] == '/' {
        seq![cur] + split_acc(s.drop_first(), Seq::empty())
    } else {
        split_acc(s.drop_first(), cur.push(s[0]))
    }
}

/// The tokens of `s` split on `'/'`, empty tokens kept.
pub open spec fn split_slash(s: Seq<char>) -> Seq<Seq<char>> {
    split_acc(s, Seq::empty())
}

/// The segments a root path resolves to: none when the path is absent or
/// empty, its unfiltered slash-split otherwise.
pub open spec fn resolved_path(root: Option<Seq<char>>) -> Seq<Seq<char>> {
    match root {
        None => Seq::empty(),
        Some(s) => if s.len() == 0 {
            Seq::empty()
        } else {
            split_slash(s)
        },
    }
}

/// The view of an optional borrowed path string.
pub open spec fn root_view(root: Option<&str>) -> Option<Seq<char>> {
    match root {
        None => None,
        Some(s) => Some(s@),
    }
}

/// Turns an optional slash-delimited root path into the ordered sequence
/// of group-name segments that the tree walk will consume left to right.
pub fn resolve(root: Option<&str>) -> (segs: Vec<String>)
    ensures
        segs.deep_view() == resolved_path(root_view(root)),
{
    let segs: Vec<String> = Vec::new();
    match root {
        None => segs,
        Some(s) => {
            let n = s.unicode_len();
            if n == 0 {
                return segs;
            }
            split_segments(s, n, segs)
        },
    }
}

/// The slash-split of a non-empty path string, appended to `segs`.
fn split_segments(s: &str, n: usize, segs: Vec<String>) -> (out: Vec<String>)
    requires
        n == s@.len(),
        segs@.len() == 0,
    ensures
        out.deep_view() == split_slash(s@),
{
    let mut segs = segs;
    let mut start: usize = 0;
    let mut i: usize = 0;
    proof {
        assert(s@.skip(0) =~= s@);
        assert(s@.subrange(0, 0) =~= Seq::<char>::empty());
        assert(segs.deep_view() =~= Seq::<Seq<char>>::empty());
    }
    while i < n
        invariant
            n == s@.len(),
            0 <= start <= i <= n,
            split_slash(s@) == segs.deep_view() + split_acc(
                s@.skip(i as int),
                s@.subrange(start as int, i as int),
            ),
        decreases n - i,
    {
        let ghost rest = s@.skip(i as int);
        let ghost cur = s@.subrange(start as int, i as int);
        let c = s.get_char(i);
        if c == '/' {
            let token = s.substring_char(start, i).to_owned();
            let ghost old_segs = segs.deep_view();
            segs.push(token);
            start = i + 1;
            proof {
                assert(rest[0] == c);
                assert(rest.drop_first() =~= s@.skip(i + 1));
                assert(split_acc(rest, cur) == seq![cur] + split_acc(
                    s@.skip(i + 1),
                    Seq::empty(),
                ));
                assert(segs.deep_view() =~= old_segs.push(cur));
                assert(s@.subrange(i + 1, i + 1) =~= Seq::<char>::empty());
                assert(old_segs + (seq![cur] + split_acc(s@.skip(i + 1), Seq::empty()))
                    =~= segs.deep_view() + split_acc(s@.skip(i + 1), Seq::empty()));
            }
        } else {
            proof {
                assert(rest[0] == c);
                assert(rest.drop_first() =~= s@.skip(i + 1));
                assert(cur.push(c) =~= s@.subrange(start as int, i + 1));
                assert(split_acc(rest, cur) == split_acc(
                    s@.skip(i + 1),
                    s@.subrange(start as int, i + 1),
                ));
            }
        }
        i = i + 1;
    }
    let token = s.substring_char(start, n).to_owned();
    let ghost old_segs = segs.deep_view();
    let ghost cur = s@.subrange(start as int, n as int);
    segs.push(token);
    proof {
        assert(s@.skip(n as int).len() == 0);
        assert(split_acc(s@.skip(n as int), cur) == seq![cur]);
        assert(segs.deep_view() =~= old_segs.push(cur));
        assert(old_segs + seq![cur] =~= old_segs.push(cur));
    }
    segs
}

} // verus!
