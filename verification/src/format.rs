//! The `KEY=VALUE` line format of the output file: rendering a pair into
//! a line, rendering lines into the file text, and parsing a line back
//! by splitting on the first `=`.
//!
//! Values are written verbatim, without quoting or escaping; a value
//! holding `=` or a newline is reproduced as-is. That keeps the format
//! exactly invertible only for keys free of `=`.

use vstd::prelude::*;
use vstd::string::*;

verus! {

/// The line stored for a pair: `key=value`.
pub open spec fn line_of(k: Seq<char>, v: Seq<char>) -> Seq<char> {
    k + seq!['='] + v
}

/// The text of the output file: every line followed by a newline.
pub open spec fn text_of(lines: Seq<Seq<char>>) -> Seq<char>
    decreases lines.len(),
{
    if lines.len() == 0 {
        Seq::empty()
    } else {
        lines[0] + seq!['\n'] + text_of(lines.drop_first())
    }
}

/// The position of the first `=` in `s`, if any.
pub open spec fn find_eq(s: Seq<char>) -> Option<int>
    decreases s.len(),
{
    if s.len() == 0 {
        None
    } else if s[0] == '=' {
        Some(0int)
    } else {
        match find_eq(s.drop_first()) {
            None => None,
            Some(i) => Some(i + 1),
        }
    }
}

/// What a line parses back to: the text before the first `=` as key, the
/// text after it as value; a line without `=` parses to nothing.
pub open spec fn parsed_line(s: Seq<char>) -> Option<(Seq<char>, Seq<char>)> {
    match find_eq(s) {
        None => None,
        Some(i) => Some((s.take(i), s.skip(i + 1))),
    }
}

/// Renders the line for one pair.
pub fn render_line(key: &str, value: &str) -> (r: String)
    ensures
        r@ == line_of(key@, value@),
{
    let mut line = key.to_owned();
    line.append("=");
    line.append(value);
    proof {
        reveal_strlit("=");
        assert(line@ =~= line_of(key@, value@));
    }
    line
}

/// Splits a line on its first `=` into the (key, value) it encodes.
pub fn parse_line(line: &str) -> (r: Option<(String, String)>)
    ensures
        r is Some <==> parsed_line(line@) is Some,
        r matches Some(p) ==> parsed_line(line@) == Some((p.0@, p.1@)),
{
    let n = line.unicode_len();
    let mut i: usize = 0;
    while i < n
        invariant
            n == line@.len(),
            0 <= i <= n,
            forall|j: int| 0 <= j < i ==> line@[j] != '=',
        decreases n - i,
    {
        if line.get_char(i) == '=' {
            proof {
                lemma_find_eq_at(line@, i as int);
            }
            let key = line.substring_char(0, i).to_owned();
            let value = line.substring_char(i + 1, n).to_owned();
            proof {
                assert(line@.subrange(0, i as int) =~= line@.take(i as int));
                assert(line@.subrange(i + 1, n as int) =~= line@.skip(i + 1));
            }
            return Some((key, value));
        }
        i = i + 1;
    }
    proof {
        lemma_find_eq_none(line@);
    }
    None
}

/// A sequence without `=` anywhere has no first `=`.
proof fn lemma_find_eq_none(s: Seq<char>)
    requires
        forall|j: int| 0 <= j < s.len() ==> s[j] != '=',
    ensures
        find_eq(s) is None,
    decreases s.len(),
{
    if s.len() > 0 {
        lemma_find_eq_none(s.drop_first());
    }
}

/// The first `=` stands exactly where no `=` precedes one.
proof fn lemma_find_eq_at(s: Seq<char>, i: int)
    requires
        0 <= i < s.len(),
        s[i] == '=',
        forall|j: int| 0 <= j < i ==> s[j] != '=',
    ensures
        find_eq(s) == Some(i),
    decreases i,
{
    if i > 0 {
        lemma_find_eq_at(s.drop_first(), i - 1);
    }
}

/// In a rendered line the first `=` is the one the renderer put there,
/// provided the key holds none.
pub proof fn lemma_find_eq_in_line(k: Seq<char>, v: Seq<char>)
    requires
        !k.contains('='),
    ensures
        find_eq(line_of(k, v)) == Some(k.len() as int),
    decreases k.len(),
{
    let s = line_of(k, v);
    if k.len() == 0 {
        assert(s[0] == '=');
    } else {
        assert(s[0] == k[0]);
        assert(!k.drop_first().contains('='));
        lemma_find_eq_in_line(k.drop_first(), v);
        assert(s.drop_first() =~= line_of(k.drop_first(), v));
    }
}

} // verus!
