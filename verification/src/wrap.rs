//! Greedy packing of tokens into lines of bounded width.

use vstd::prelude::*;
use crate::text::{chars_of, push_all, space_run, spaces, string_of, texts};
use crate::tokens::{bitfield_tokens, flag_tokens};
use crate::wrap_proofs::lemma_lines_fit;

verus! {

/// The width that no line reaches.
pub const LINE_WIDTH: usize = 80;

/// The columns reserved after each token: a space, and with a separator
/// glyph the glyph and one more space.
pub open spec fn gap(separator: Option<char>) -> nat {
    if separator is Some {
        3
    } else {
        1
    }
}

/// What stands between two tokens of one line.
pub open spec fn joiner(separator: Option<char>) -> Seq<char> {
    match separator {
        Some(glyph) => seq![' ', glyph, ' '],
        None => seq![' '],
    }
}

/// A token that fits on no line: even first on a line it reaches the width.
pub open spec fn too_wide(token: Seq<char>, separator: Option<char>, indent: nat) -> bool {
    indent + token.len() + gap(separator) >= LINE_WIDTH
}

/// The columns a line accounts for: the indent, and each token with its gap.
pub open spec fn line_cost(line: Seq<Seq<char>>, separator: Option<char>, indent: nat) -> nat
    decreases line.len(),
{
    if line.len() == 0 {
        indent
    } else {
        line_cost(line.drop_last(), separator, indent) + line.last().len() + gap(separator)
    }
}

/// The tokens of each line. A token goes on the current line unless that
/// line holds a token already and would reach the width with it; then it
/// starts the next line. There is always one line, empty without tokens.
pub open spec fn layout(tokens: Seq<Seq<char>>, separator: Option<char>, indent: nat) -> Seq<
    Seq<Seq<char>>,
>
    decreases tokens.len(),
{
    if tokens.len() == 0 {
        seq![Seq::empty()]
    } else {
        let before = layout(tokens.drop_last(), separator, indent);
        let token = tokens.last();
        let current = before.last();
        if current.len() > 0 && line_cost(current, separator, indent) + token.len() + gap(separator)
            >= LINE_WIDTH {
            before.push(seq![token])
        } else {
            before.drop_last().push(current.push(token))
        }
    }
}

/// The text of one line: the indent, then the tokens with a joiner between
/// each two and nothing after the last.
pub open spec fn render_line(line: Seq<Seq<char>>, separator: Option<char>, indent: nat) -> Seq<
    char,
>
    decreases line.len(),
{
    if line.len() == 0 {
        spaces(indent)
    } else if line.len() == 1 {
        spaces(indent) + line[0]
    } else {
        render_line(line.drop_last(), separator, indent) + joiner(separator) + line.last()
    }
}

/// The texts of the lines that `tokens` are wrapped into.
pub open spec fn wrapped(tokens: Seq<Seq<char>>, separator: Option<char>, indent: nat) -> Seq<
    Seq<char>,
> {
    let lines = layout(tokens, separator, indent);
    Seq::new(lines.len(), |k: int| render_line(lines[k], separator, indent))
}

/// A line accounts for its indent at least, and for more once it holds a
/// token.
pub proof fn lemma_cost_lower(line: Seq<Seq<char>>, separator: Option<char>, indent: nat)
    ensures
        line_cost(line, separator, indent) >= indent + line.len(),
    decreases line.len(),
{
    if line.len() > 0 {
        lemma_cost_lower(line.drop_last(), separator, indent);
    }
}

/// Why a sequence of tokens cannot be wrapped: the token at `index` is the
/// first that fits on no line.
#[derive(Debug, Clone, Copy, PartialEq, Eq)]
pub struct WrapError {
    pub index: usize,
}

impl WrapError {
    /// What to tell the user when wrapping has failed.
    pub fn message(&self) -> (text: String)
        ensures
            text@ == "Not enough screen space"@,
    {
        "Not enough screen space".to_owned()
    }
}

/// The index of the first token that is too wide, if there is one.
pub fn first_too_wide(tokens: &Vec<String>, separator: Option<char>, indent: usize) -> (r: Option<
    usize,
>)
    ensures
        match r {
            Some(i) => {
                &&& i < tokens.len()
                &&& too_wide(tokens[i as int]@, separator, indent as nat)
                &&& forall|j: int| 0 <= j < i ==> !too_wide(tokens[j]@, separator, indent as nat)
            },
            None => forall|j: int|
                0 <= j < tokens.len() ==> !too_wide(tokens[j]@, separator, indent as nat),
        },
{
    let extra: usize = match separator {
        Some(_) => 3,
        None => 1,
    };
    let n = tokens.len();
    let mut i: usize = 0;
    while i < n
        invariant
            i <= n,
            n == tokens.len(),
            extra == gap(separator),
            forall|j: int| 0 <= j < i ==> !too_wide(tokens[j]@, separator, indent as nat),
        decreases n - i,
    {
        let len = tokens[i].as_str().unicode_len();
        if indent >= LINE_WIDTH - extra || len >= LINE_WIDTH - extra - indent {
            return Some(i);
        }
        i += 1;
    }
    None
}

/// Wraps `tokens` into lines narrower than `LINE_WIDTH`, each starting with
/// `indent` spaces; the lines come without their line ends. Fails, with no
/// line at all, exactly when some token is too wide for a line of its own.
pub fn print_neat(tokens: &Vec<String>, separator: Option<char>, indent: usize) -> (r: Result<
    Vec<String>,
    WrapError,
>)
    ensures
        match r {
            Ok(lines) => {
                &&& forall|j: int|
                    0 <= j < tokens.len() ==> !too_wide(tokens[j]@, separator, indent as nat)
                &&& texts(lines@) == wrapped(texts(tokens@), separator, indent as nat)
                &&& tokens.len() > 0 || indent < LINE_WIDTH ==> forall|k: int|
                    0 <= k < lines.len() ==> (#[trigger] lines[k])@.len() < LINE_WIDTH
            },
            Err(e) => {
                &&& e.index < tokens.len()
                &&& too_wide(tokens[e.index as int]@, separator, indent as nat)
                &&& forall|j: int|
                    0 <= j < e.index ==> !too_wide(tokens[j]@, separator, indent as nat)
            },
        },
{
    match first_too_wide(tokens, separator, indent) {
        Some(index) => { return Err(WrapError { index }); },
        None => {},
    }
    let extra: usize = match separator {
        Some(_) => 3,
        None => 1,
    };
    let n = tokens.len();
    let ghost all = texts(tokens@);
    let ghost ind = indent as nat;
    let mut lines: Vec<String> = Vec::new();
    let mut current: Vec<char> = space_run(indent);
    let mut acc: usize = indent;
    let mut i: usize = 0;
    proof {
        assert(all.take(0) =~= Seq::<Seq<char>>::empty());
        assert(texts(lines@) =~= Seq::new(
            0,
            |k: int| render_line(layout(all.take(0), separator, ind)[k], separator, ind),
        ));
    }
    while i < n
        invariant
            i <= n,
            n == tokens.len(),
            all == texts(tokens@),
            ind == indent as nat,
            extra == gap(separator),
            forall|j: int| 0 <= j < tokens.len() ==> !too_wide(tokens[j]@, separator, ind),
            layout(all.take(i as int), separator, ind).len() >= 1,
            texts(lines@) == Seq::new(
                (layout(all.take(i as int), separator, ind).len() - 1) as nat,
                |k: int| render_line(layout(all.take(i as int), separator, ind)[k], separator, ind),
            ),
            current@ == render_line(
                layout(all.take(i as int), separator, ind).last(),
                separator,
                ind,
            ),
            acc == line_cost(layout(all.take(i as int), separator, ind).last(), separator, ind),
            (acc == indent) == (layout(all.take(i as int), separator, ind).last().len() == 0),
            i > 0 ==> acc < LINE_WIDTH,
        decreases n - i,
    {
        let token = chars_of(tokens[i].as_str());
        let len = token.len();
        let ghost before = layout(all.take(i as int), separator, ind);
        let ghost after = layout(all.take(i + 1), separator, ind);
        let ghost old_lines = lines@;
        let ghost old_current = current@;
        proof {
            assert(all.take(i + 1).drop_last() =~= all.take(i as int));
            assert(all.take(i + 1).last() == token@);
            assert(!too_wide(tokens[i as int]@, separator, ind));
            assert(texts(old_lines).len() == before.len() - 1);
            assert forall|k: int| 0 <= k < before.len() - 1 implies #[trigger] texts(old_lines)[k]
                == render_line(before[k], separator, ind) by {}
            lemma_cost_lower(before.last(), separator, ind);
        }
        if acc != indent && acc + len + extra >= LINE_WIDTH {
            lines.push(string_of(&current));
            current = space_run(indent);
            push_all(&mut current, &token);
            acc = indent;
            proof {
                assert(after == before.push(seq![token@]));
                assert(seq![token@].drop_last() =~= Seq::<Seq<char>>::empty());
                assert(line_cost(Seq::<Seq<char>>::empty(), separator, ind) == ind);
                assert(line_cost(seq![token@], separator, ind) == ind + len + extra);
                assert forall|k: int| 0 <= k < after.len() - 1 implies #[trigger] texts(lines@)[k]
                    == render_line(after[k], separator, ind) by {
                    if k < old_lines.len() {
                        assert(texts(old_lines)[k] == render_line(before[k], separator, ind));
                    }
                }
                assert(texts(lines@) =~= Seq::new(
                    (after.len() - 1) as nat,
                    |k: int| render_line(after[k], separator, ind),
                ));
            }
        } else {
            if acc != indent {
                current.push(' ');
                match separator {
                    Some(glyph) => {
                        current.push(glyph);
                        current.push(' ');
                    },
                    None => {},
                }
                assert(current@ =~= old_current + joiner(separator));
            }
            push_all(&mut current, &token);
            proof {
                let line = before.last().push(token@);
                assert(after == before.drop_last().push(line));
                assert(line.drop_last() =~= before.last());
                assert(texts(lines@) =~= Seq::new(
                    (after.len() - 1) as nat,
                    |k: int| render_line(after[k], separator, ind),
                ));
            }
        }
        acc += len + extra;
        i += 1;
    }
    assert(all.take(n as int) =~= all);
    let ghost old_lines = lines@;
    lines.push(string_of(&current));
    proof {
        let done = layout(all, separator, ind);
        assert forall|k: int| 0 <= k < done.len() implies #[trigger] texts(lines@)[k]
            == render_line(done[k], separator, ind) by {
            if k < old_lines.len() {
                assert(texts(old_lines)[k] == render_line(done[k], separator, ind));
            }
        }
        assert(texts(lines@) =~= wrapped(all, separator, ind));
        if tokens.len() > 0 || indent < LINE_WIDTH {
            assert forall|j: int| 0 <= j < all.len() implies !too_wide(all[j], separator, ind) by {
                assert(all[j] == tokens[j]@);
            }
            lemma_lines_fit(all, separator, ind);
            assert forall|k: int| 0 <= k < lines.len() implies (#[trigger] lines[k])@.len()
                < LINE_WIDTH by {
                assert(texts(lines@)[k] == lines[k]@);
            }
        }
    }
    Ok(lines)
}

/// Wraps the flag names of the textual form of a flag set, with a bar
/// between the names of one line.
pub fn print_neat_bitfield(text: &str, indent: usize) -> (r: Result<Vec<String>, WrapError>)
    ensures
        match r {
            Ok(lines) => {
                &&& forall|j: int|
                    0 <= j < flag_tokens(text@).len() ==> !too_wide(
                        #[trigger] flag_tokens(text@)[j],
                        Some('|'),
                        indent as nat,
                    )
                &&& texts(lines@) == wrapped(flag_tokens(text@), Some('|'), indent as nat)
            },
            Err(e) => {
                &&& e.index < flag_tokens(text@).len()
                &&& too_wide(flag_tokens(text@)[e.index as int], Some('|'), indent as nat)
                &&& forall|j: int|
                    0 <= j < e.index ==> !too_wide(
                        #[trigger] flag_tokens(text@)[j],
                        Some('|'),
                        indent as nat,
                    )
            },
        },
{
    let tokens = bitfield_tokens(text);
    proof {
        assert forall|j: int| 0 <= j < tokens.len() implies #[trigger] flag_tokens(text@)[j]
            == tokens[j]@ by {
            assert(texts(tokens@)[j] == tokens[j]@);
        }
    }
    print_neat(&tokens, Some('|'), indent)
}

} // verus!
