//! Character-level helpers: splitting on a separator, cutting text into lines,
//! and moving between `str`, `Vec<char>` and `String`.

use vstd::prelude::*;

verus! {

/// The pieces of `s` between occurrences of `sep`; there is always at least
/// one piece, and `k` separators give `k + 1` pieces.
pub open spec fn split_on(s: Seq<char>, sep: char) -> Seq<Seq<char>>
    decreases s.len(),
{
    if s.len() == 0 {
        seq![Seq::empty()]
    } else {
        let init = split_on(s.drop_last(), sep);
        if s.last() == sep {
            init.push(Seq::empty())
        } else {
            init.update(init.len() - 1, init.last().push(s.last()))
        }
    }
}

/// A line without the carriage return of a `\r\n` ending.
pub open spec fn strip_cr(line: Seq<char>) -> Seq<char> {
    if line.len() > 0 && line.last() == '\r' {
        line.drop_last()
    } else {
        line
    }
}

/// The lines of `s`: split at `\n`, a `\r` just before a `\n` removed, and
/// no empty last line after a final line ending.
pub open spec fn lines_of(s: Seq<char>) -> Seq<Seq<char>> {
    let parts = split_on(s, '\n');
    let ended = parts.drop_last().map_values(|l: Seq<char>| strip_cr(l));
    if parts.last().len() == 0 {
        ended
    } else {
        ended.push(parts.last())
    }
}

/// The views of a sequence of character vectors.
pub open spec fn views(v: Seq<Vec<char>>) -> Seq<Seq<char>> {
    v.map_values(|x: Vec<char>| x@)
}

/// Splits `s` at every occurrence of `sep`, with no quoting or escaping.
pub fn split_chars(s: &[char], sep: char) -> (r: Vec<Vec<char>>)
    ensures
        views(r@) == split_on(s@, sep),
{
    let mut parts: Vec<Vec<char>> = Vec::new();
    let mut cur: Vec<char> = Vec::new();
    let mut i: usize = 0;
    while i < s.len()
        invariant
            i <= s.len(),
            views(parts@).push(cur@) == split_on(s@.subrange(0, i as int), sep),
        decreases s.len() - i,
    {
        let c = s[i];
        proof {
            assert(s@.subrange(0, i + 1).drop_last() =~= s@.subrange(0, i as int));
        }
        if c == sep {
            parts.push(cur);
            cur = Vec::new();
            assert(views(parts@).push(cur@) =~= split_on(s@.subrange(0, i + 1), sep));
        } else {
            cur.push(c);
            assert(views(parts@).push(cur@) =~= split_on(s@.subrange(0, i + 1), sep));
        }
        i += 1;
    }
    parts.push(cur);
    assert(s@.subrange(0, s@.len() as int) =~= s@);
    assert(views(parts@) =~= split_on(s@, sep));
    parts
}

/// Cuts `s` into lines as `lines_of` describes.
pub fn split_lines(s: &[char]) -> (r: Vec<Vec<char>>)
    ensures
        views(r@) == lines_of(s@),
{
    let mut lines: Vec<Vec<char>> = Vec::new();
    let mut cur: Vec<char> = Vec::new();
    let mut i: usize = 0;
    while i < s.len()
        invariant
            i <= s.len(),
            split_on(s@.subrange(0, i as int), '\n').len() >= 1,
            views(lines@) == split_on(s@.subrange(0, i as int), '\n').drop_last().map_values(
                |l: Seq<char>| strip_cr(l),
            ),
            cur@ == split_on(s@.subrange(0, i as int), '\n').last(),
        decreases s.len() - i,
    {
        let c = s[i];
        let ghost parts = split_on(s@.subrange(0, i as int), '\n');
        proof {
            assert(s@.subrange(0, i + 1).drop_last() =~= s@.subrange(0, i as int));
        }
        if c == '\n' {
            if cur.len() > 0 && cur[cur.len() - 1] == '\r' {
                cur.pop();
            }
            assert(cur@ == strip_cr(parts.last()));
            lines.push(cur);
            cur = Vec::new();
            proof {
                assert(split_on(s@.subrange(0, i + 1), '\n').drop_last() =~= parts);
                assert(parts.map_values(|l: Seq<char>| strip_cr(l)) =~= parts.drop_last().map_values(
                    |l: Seq<char>| strip_cr(l),
                ).push(strip_cr(parts.last())));
            }
            assert(views(lines@) =~= split_on(s@.subrange(0, i + 1), '\n').drop_last().map_values(
                |l: Seq<char>| strip_cr(l),
            ));
        } else {
            cur.push(c);
            proof {
                assert(split_on(s@.subrange(0, i + 1), '\n') == parts.update(
                    parts.len() - 1,
                    parts.last().push(c),
                ));
                assert(split_on(s@.subrange(0, i + 1), '\n').drop_last() =~= parts.drop_last());
            }
            assert(views(lines@) =~= split_on(s@.subrange(0, i + 1), '\n').drop_last().map_values(
                |l: Seq<char>| strip_cr(l),
            ));
        }
        i += 1;
    }
    assert(s@.subrange(0, s@.len() as int) =~= s@);
    if cur.len() > 0 {
        lines.push(cur);
        assert(views(lines@) =~= lines_of(s@));
    }
    lines
}

/// The characters of `s`, in order.
pub fn chars_of(s: &str) -> (r: Vec<char>)
    ensures
        r@ == s@,
{
    broadcast use vstd::string::axiom_spec_iter;

    let mut r: Vec<char> = Vec::new();
    for c in it: s.chars()
        invariant
            it.seq() == s@,
            r@ == it.history(),
    {
        r.push(c);
    }
    assert(r@ =~= s@);
    r
}

/// Relies on `String::push`: appends one character at the end.
#[verifier::external_body]
fn push_char(s: &mut String, c: char)
    ensures
        final(s)@ == old(s)@.push(c),
{
    s.push(c)
}

/// A `String` holding the characters of `cs`.
pub fn string_of(cs: &[char]) -> (r: String)
    ensures
        r@ == cs@,
{
    let mut r = String::new();
    let mut i: usize = 0;
    while i < cs.len()
        invariant
            i <= cs.len(),
            r@ == cs@.subrange(0, i as int),
        decreases cs.len() - i,
    {
        push_char(&mut r, cs[i]);
        i += 1;
        assert(r@ =~= cs@.subrange(0, i as int));
    }
    assert(cs@.subrange(0, cs@.len() as int) =~= cs@);
    r
}

} // verus!
