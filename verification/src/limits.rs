//! Trimming the multi-line dump of a limits record: the opening and the
//! closing line go, and underscores become spaces.

use vstd::prelude::*;
use crate::text::{chars_of, string_of, texts};

verus! {

/// `s` with every underscore replaced by a space.
pub open spec fn spaced(s: Seq<char>) -> Seq<char> {
    Seq::new(s.len(), |i: int| if s[i] == '_' { ' ' } else { s[i] })
}

/// `line` without a carriage return at its end.
pub open spec fn strip_cr(line: Seq<char>) -> Seq<char> {
    if line.len() > 0 && line.last() == '\r' {
        line.drop_last()
    } else {
        line
    }
}

/// The state of a left-to-right scan for lines: the lines that have
/// ended, and the characters of the line that is still open.
pub struct LineScan {
    pub done: Seq<Seq<char>>,
    pub open: Seq<char>,
}

/// The scan after all of `s` has been read. A line feed ends the open
/// line; a carriage return just before it belongs to the line end.
pub open spec fn scan_lines(s: Seq<char>) -> LineScan
    decreases s.len(),
{
    if s.len() == 0 {
        LineScan { done: Seq::empty(), open: Seq::empty() }
    } else {
        let before = scan_lines(s.drop_last());
        if s.last() == '\n' {
            LineScan { done: before.done.push(strip_cr(before.open)), open: Seq::empty() }
        } else {
            LineScan { done: before.done, open: before.open.push(s.last()) }
        }
    }
}

/// The lines of `s`, without their line ends. Text after the last line
/// feed is a line of its own unless it is empty.
pub open spec fn text_lines(s: Seq<char>) -> Seq<Seq<char>> {
    let end = scan_lines(s);
    if end.open.len() > 0 {
        end.done.push(end.open)
    } else {
        end.done
    }
}

/// The lines between the first and the last; none where there are fewer
/// than two lines.
pub open spec fn interior(lines: Seq<Seq<char>>) -> Seq<Seq<char>> {
    if lines.len() < 2 {
        Seq::empty()
    } else {
        lines.subrange(1, lines.len() - 1)
    }
}

/// The interior lines, with underscores replaced.
pub open spec fn cleaned(lines: Seq<Seq<char>>) -> Seq<Seq<char>> {
    Seq::new(interior(lines).len(), |k: int| spaced(interior(lines)[k]))
}

/// Replacing underscores a second time changes nothing.
pub proof fn lemma_spaced_idempotent(s: Seq<char>)
    ensures
        spaced(spaced(s)) == spaced(s),
{
    assert(spaced(spaced(s)) =~= spaced(s));
}

/// Replacing underscores keeps the length and leaves no underscore.
pub proof fn lemma_spaced_no_underscore(s: Seq<char>)
    ensures
        spaced(s).len() == s.len(),
        !spaced(s).contains('_'),
{
}

/// Of two lines or more, cleaning leaves out exactly two, whatever stands
/// between them.
pub proof fn lemma_cleaned_drops_two(lines: Seq<Seq<char>>)
    requires
        lines.len() >= 2,
    ensures
        cleaned(lines).len() == lines.len() - 2,
        forall|k: int| 0 <= k < cleaned(lines).len() ==> cleaned(lines)[k] == spaced(lines[k + 1]),
{
}

/// `line` with every underscore replaced by a space.
pub fn replace_underscores(line: &str) -> (out: String)
    ensures
        out@ == spaced(line@),
{
    let chars = chars_of(line);
    let n = chars.len();
    let mut out: Vec<char> = Vec::new();
    let mut i: usize = 0;
    while i < n
        invariant
            i <= n,
            n == chars.len(),
            out@ == spaced(chars@.take(i as int)),
        decreases n - i,
    {
        let c = chars[i];
        if c == '_' {
            out.push(' ');
        } else {
            out.push(c);
        }
        i += 1;
        assert(out@ =~= spaced(chars@.take(i as int)));
    }
    assert(chars@.take(n as int) =~= chars@);
    string_of(&out)
}

/// The lines of `text`, without their line ends.
pub fn split_lines(text: &str) -> (lines: Vec<String>)
    ensures
        texts(lines@) == text_lines(text@),
{
    let chars = chars_of(text);
    let n = chars.len();
    let mut lines: Vec<String> = Vec::new();
    let mut open: Vec<char> = Vec::new();
    let mut i: usize = 0;
    assert(texts(lines@) =~= Seq::<Seq<char>>::empty());
    assert(chars@.take(0) =~= Seq::<char>::empty());
    while i < n
        invariant
            i <= n,
            n == chars.len(),
            texts(lines@) == scan_lines(chars@.take(i as int)).done,
            open@ == scan_lines(chars@.take(i as int)).open,
        decreases n - i,
    {
        let c = chars[i];
        proof {
            assert(chars@.take(i + 1).drop_last() =~= chars@.take(i as int));
            assert(chars@.take(i + 1).last() == c);
        }
        if c == '\n' {
            let ghost whole = open@;
            let m = open.len();
            if m > 0 && open[m - 1] == '\r' {
                open.pop();
            }
            assert(open@ =~= strip_cr(whole));
            let ghost before = lines@;
            lines.push(string_of(&open));
            assert(texts(lines@) =~= texts(before).push(open@));
            open = Vec::new();
            assert(open@ =~= Seq::<char>::empty());
        } else {
            open.push(c);
        }
        i += 1;
    }
    assert(chars@.take(n as int) =~= chars@);
    if open.len() > 0 {
        let ghost before = lines@;
        lines.push(string_of(&open));
        assert(texts(lines@) =~= texts(before).push(open@));
    }
    lines
}

/// The interior of `lines`, with underscores replaced by spaces: the first
/// and the last line are left out, and fewer than two lines give none.
pub fn clean_lines(lines: &Vec<String>) -> (out: Vec<String>)
    ensures
        texts(out@) == cleaned(texts(lines@)),
        lines.len() >= 2 ==> out.len() == lines.len() - 2,
        lines.len() < 2 ==> out.len() == 0,
{
    let n = lines.len();
    let mut out: Vec<String> = Vec::new();
    if n < 2 {
        assert(texts(out@) =~= cleaned(texts(lines@)));
        return out;
    }
    let mut i: usize = 1;
    while i < n - 1
        invariant
            1 <= i <= n - 1,
            n == lines.len(),
            out.len() == i - 1,
            forall|k: int| 0 <= k < i - 1 ==> (#[trigger] out[k])@ == spaced(lines[k + 1]@),
        decreases n - i,
    {
        out.push(replace_underscores(lines[i].as_str()));
        i += 1;
    }
    assert(texts(out@) =~= cleaned(texts(lines@)));
    out
}

/// The field lines of the dump of a limits record, with underscores
/// replaced by spaces. The dump's first and last line are left out; a dump
/// of fewer than two lines gives no line.
pub fn clean_limits(dump: &str) -> (out: Vec<String>)
    ensures
        texts(out@) == cleaned(text_lines(dump@)),
        text_lines(dump@).len() >= 2 ==> out.len() == text_lines(dump@).len() - 2,
        text_lines(dump@).len() < 2 ==> out.len() == 0,
{
    let lines = split_lines(dump);
    assert(texts(lines@).len() == lines.len());
    clean_lines(&lines)
}

} // verus!
