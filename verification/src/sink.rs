//! The destination of the extracted pairs, abstracted so the tree walk
//! does not care where they go: a buffer of `KEY=VALUE` lines destined
//! for a file, or an accumulating environment mapping destined for a
//! child process.
//!
//! The file buffer keeps every written pair as its own line, duplicates
//! included; the environment mapping keeps one value per key, the last
//! write winning, as ordinary map semantics demand.

use vstd::prelude::*;
use vstd::string::*;
use crate::config::RunMode;
use crate::format::line_of;
use crate::format::render_line;
use crate::format::text_of;

verus! {

/// The mapping a sequence of (key, value) pairs accumulates when later
/// writes win.
pub open spec fn env_map_of(s: Seq<(String, String)>) -> Map<Seq<char>, Seq<char>>
    decreases s.len(),
{
    if s.len() == 0 {
        Map::empty()
    } else {
        env_map_of(s.drop_last()).insert(s.last().0@, s.last().1@)
    }
}

/// Whether the keys of `s` are pairwise distinct.
pub open spec fn distinct_keys(s: Seq<(String, String)>) -> bool {
    forall|i: int, j: int| 0 <= i < j < s.len() ==> s[i].0@ != s[j].0@
}

/// An accumulating key-to-value mapping with unique keys; writing an
/// existing key replaces its value.
pub struct EnvMap {
    pub pairs: Vec<(String, String)>,
}

impl View for EnvMap {
    type V = Map<Seq<char>, Seq<char>>;

    open spec fn view(&self) -> Map<Seq<char>, Seq<char>> {
        env_map_of(self.pairs@)
    }
}

impl EnvMap {
    /// Well-formed: no key occurs twice.
    pub open spec fn wf(self) -> bool {
        distinct_keys(self.pairs@)
    }

    /// An empty mapping.
    pub fn new() -> (r: EnvMap)
        ensures
            r.wf(),
            r@ == Map::<Seq<char>, Seq<char>>::empty(),
            r.pairs@.len() == 0,
    {
        EnvMap { pairs: Vec::new() }
    }

    /// Inserts a pair, overwriting the value of an already-present key:
    /// the last write for a key wins.
    pub fn insert(&mut self, key: String, value: String)
        requires
            old(self).wf(),
        ensures
            final(self).wf(),
            final(self)@ == old(self)@.insert(key@, value@),
    {
        let found = find_key(&self.pairs, &key);
        let ghost s = self.pairs@;
        match found {
            Some(i) => {
                self.pairs[i] = (key, value);
                proof {
                    let s2 = self.pairs@;
                    assert forall|a: int, b: int| 0 <= a < b < s2.len() implies s2[a].0@
                        != s2[b].0@ by {
                        assert(s2[a].0@ == s[a].0@ && s2[b].0@ == s[b].0@);
                    }
                    lemma_env_map_update(s, i as int, self.pairs@[i as int]);
                }
            },
            None => {
                self.pairs.push((key, value));
                proof {
                    assert(self.pairs@.drop_last() =~= s);
                }
            },
        }
    }
}

/// The index of `key` among the keys of `pairs`, if it is there.
fn find_key(pairs: &Vec<(String, String)>, key: &String) -> (r: Option<usize>)
    ensures
        r matches Some(i) ==> i < pairs@.len() && pairs@[i as int].0@ == key@,
        r is None ==> forall|j: int| 0 <= j < pairs@.len() ==> pairs@[j].0@ != key@,
{
    let n = pairs.len();
    let mut i: usize = 0;
    while i < n
        invariant
            n == pairs@.len(),
            0 <= i <= n,
            forall|j: int| 0 <= j < i ==> pairs@[j].0@ != key@,
        decreases n - i,
    {
        if pairs[i].0.eq(key) {
            return Some(i);
        }
        i = i + 1;
    }
    None
}

/// Replacing the pair at a key's index changes just that key's value:
/// with keys distinct, the accumulated mapping is the old one with the
/// new value written over the shared key.
proof fn lemma_env_map_update(s: Seq<(String, String)>, i: int, p: (String, String))
    requires
        0 <= i < s.len(),
        s[i].0@ == p.0@,
        distinct_keys(s),
    ensures
        env_map_of(s.update(i, p)) == env_map_of(s).insert(p.0@, p.1@),
    decreases s.len(),
{
    let s2 = s.update(i, p);
    if i == s.len() - 1 {
        assert(s2.drop_last() =~= s.drop_last());
        assert(s2.last() == p);
        assert(env_map_of(s.drop_last()).insert(s[i].0@, s[i].1@).insert(p.0@, p.1@)
            =~= env_map_of(s.drop_last()).insert(p.0@, p.1@));
    } else {
        assert(s2.drop_last() =~= s.drop_last().update(i, p));
        assert(s2.last() == s.last());
        assert(distinct_keys(s.drop_last()));
        lemma_env_map_update(s.drop_last(), i, p);
        assert(s.last().0@ != p.0@);
        assert(env_map_of(s.drop_last()).insert(p.0@, p.1@).insert(s.last().0@, s.last().1@)
            =~= env_map_of(s.drop_last()).insert(s.last().0@, s.last().1@).insert(
            p.0@,
            p.1@,
        ));
    }
}

/// The buffered lines of a `KEY=VALUE` file, in the order written.
pub struct FileTarget {
    pub lines: Vec<String>,
}

impl FileTarget {
    /// An empty buffer.
    pub fn new() -> (r: FileTarget)
        ensures
            r.lines@.len() == 0,
    {
        FileTarget { lines: Vec::new() }
    }

    /// The text of the output file: every buffered line followed by a
    /// newline, nothing else.
    pub fn content(&self) -> (r: String)
        ensures
            r@ == text_of(self.lines.deep_view()),
    {
        let ghost all = self.lines.deep_view();
        let mut out = String::new();
        let mut i: usize = 0;
        proof {
            assert(all.skip(0) =~= all);
            assert(out@ + text_of(all) =~= text_of(all));
        }
        while i < self.lines.len()
            invariant
                all == self.lines.deep_view(),
                0 <= i <= all.len(),
                text_of(all) == out@ + text_of(all.skip(i as int)),
            decreases self.lines.len() - i,
        {
            let ghost before = out@;
            let ghost rest = all.skip(i as int);
            out.append(self.lines[i].as_str());
            out.append("\n");
            proof {
                reveal_strlit("\n");
                assert(rest[0] == all[i as int]);
                assert(rest.drop_first() =~= all.skip(i + 1));
                assert(out@ =~= before + (all[i as int] + seq!['\n']));
                assert(before + (all[i as int] + seq!['\n']) + text_of(all.skip(i + 1)) =~= before
                    + (all[i as int] + seq!['\n'] + text_of(all.skip(i + 1))));
            }
            i = i + 1;
        }
        proof {
            assert(all.skip(all.len() as int).len() == 0);
            assert(out@ + Seq::<char>::empty() =~= out@);
        }
        out
    }
}

/// A pending child process: the program to launch and the environment
/// overrides accumulated for it.
pub struct ShellTarget {
    pub shell: String,
    pub env: EnvMap,
}

/// The destination of the extracted pairs.
pub enum EnvTarget {
    File(FileTarget),
    Shell(ShellTarget),
}

/// What a destination holds, as mathematics: the lines buffered so far,
/// or the program name and the mapping accumulated so far.
pub enum TargetView {
    File { lines: Seq<Seq<char>> },
    Shell { shell: Seq<char>, env: Map<Seq<char>, Seq<char>> },
}

impl View for EnvTarget {
    type V = TargetView;

    open spec fn view(&self) -> TargetView {
        match self {
            EnvTarget::File(f) => TargetView::File { lines: f.lines.deep_view() },
            EnvTarget::Shell(s) => TargetView::Shell { shell: s.shell@, env: s.env@ },
        }
    }
}

/// One pair written to a destination: a new line for the file, an
/// insertion (last write wins) for the process environment.
pub open spec fn target_write(t: TargetView, k: Seq<char>, v: Seq<char>) -> TargetView {
    match t {
        TargetView::File { lines } => TargetView::File { lines: lines.push(line_of(k, v)) },
        TargetView::Shell { shell, env } => TargetView::Shell {
            shell,
            env: env.insert(k, v),
        },
    }
}

/// A sequence of pairs written to a destination, first to last.
pub open spec fn target_write_all(t: TargetView, ps: Seq<(Seq<char>, Seq<char>)>) -> TargetView
    decreases ps.len(),
{
    if ps.len() == 0 {
        t
    } else {
        target_write_all(target_write(t, ps[0].0, ps[0].1), ps.drop_first())
    }
}

/// Writing one pair is writing the one-pair sequence.
pub proof fn lemma_write_one(t: TargetView, k: Seq<char>, v: Seq<char>)
    ensures
        target_write_all(t, seq![(k, v)]) == target_write(t, k, v),
{
    let ps = seq![(k, v)];
    assert(ps[0] == (k, v));
    assert(ps.drop_first() =~= Seq::<(Seq<char>, Seq<char>)>::empty());
    assert(target_write_all(t, ps) == target_write_all(
        target_write(t, k, v),
        Seq::<(Seq<char>, Seq<char>)>::empty(),
    ));
}

/// Writing a concatenation of pair sequences is writing one after the
/// other: a destination never reorders or merges what it is handed.
pub proof fn lemma_write_all_append(
    t: TargetView,
    a: Seq<(Seq<char>, Seq<char>)>,
    b: Seq<(Seq<char>, Seq<char>)>,
)
    ensures
        target_write_all(t, a + b) == target_write_all(target_write_all(t, a), b),
    decreases a.len(),
{
    if a.len() == 0 {
        assert(a + b =~= b);
    } else {
        assert((a + b)[0] == a[0]);
        assert((a + b).drop_first() =~= a.drop_first() + b);
        lemma_write_all_append(target_write(t, a[0].0, a[0].1), a.drop_first(), b);
    }
}

impl EnvTarget {
    /// Well-formed: the accumulated environment holds no key twice.
    pub open spec fn wf(self) -> bool {
        match self {
            EnvTarget::File(_) => true,
            EnvTarget::Shell(s) => s.env.wf(),
        }
    }

    /// The empty destination a run mode calls for: a file buffer for an
    /// output path, an empty environment for a shell.
    pub fn for_mode(mode: &RunMode) -> (r: EnvTarget)
        ensures
            r.wf(),
            mode matches RunMode::ToFile(_) ==> r@ == (TargetView::File {
                lines: Seq::<Seq<char>>::empty(),
            }),
            mode matches RunMode::ToShell(sh) ==> r@ == (TargetView::Shell {
                shell: sh@,
                env: Map::<Seq<char>, Seq<char>>::empty(),
            }),
    {
        match mode {
            RunMode::ToFile(_) => {
                let f = FileTarget::new();
                proof {
                    assert(f.lines.deep_view() =~= Seq::<Seq<char>>::empty());
                }
                EnvTarget::File(f)
            },
            RunMode::ToShell(sh) => EnvTarget::Shell(
                ShellTarget { shell: sh.clone(), env: EnvMap::new() },
            ),
        }
    }

    /// Writes one (key, value) pair to the destination.
    pub fn write(&mut self, key: &str, value: &str)
        requires
            old(self).wf(),
        ensures
            final(self).wf(),
            final(self)@ == target_write(old(self)@, key@, value@),
    {
        match self {
            EnvTarget::File(f) => {
                let line = render_line(key, value);
                let ghost before = f.lines.deep_view();
                f.lines.push(line);
                proof {
                    assert(f.lines.deep_view() =~= before.push(line_of(key@, value@)));
                }
            },
            EnvTarget::Shell(s) => {
                s.env.insert(key.to_owned(), value.to_owned());
            },
        }
    }
}

} // verus!
