//! What holds of every wrapping: no token is lost or moved, and every line
//! stays under the width.

use vstd::prelude::*;
use crate::text::spaces;
use crate::wrap::{gap, joiner, layout, line_cost, render_line, too_wide, wrapped, LINE_WIDTH};

verus! {

/// A layout has at least one line.
pub proof fn lemma_layout_has_line(tokens: Seq<Seq<char>>, separator: Option<char>, indent: nat)
    ensures
        layout(tokens, separator, indent).len() >= 1,
    decreases tokens.len(),
{
    if tokens.len() > 0 {
        lemma_layout_has_line(tokens.drop_last(), separator, indent);
    }
}

/// Wrapping neither drops nor reorders tokens: the lines of a layout, one
/// after the other, are the tokens that were wrapped.
pub proof fn lemma_layout_keeps_tokens(
    tokens: Seq<Seq<char>>,
    separator: Option<char>,
    indent: nat,
)
    ensures
        layout(tokens, separator, indent).flatten() == tokens,
    decreases tokens.len(),
{
    let lines = layout(tokens, separator, indent);
    lines.lemma_flatten_and_flatten_alt_are_equivalent();
    if tokens.len() == 0 {
        assert(lines.drop_last() =~= Seq::<Seq<Seq<char>>>::empty());
        assert(lines.drop_last().flatten_alt() =~= Seq::<Seq<char>>::empty());
        assert(lines.flatten_alt() =~= tokens);
    } else {
        let before = layout(tokens.drop_last(), separator, indent);
        let token = tokens.last();
        lemma_layout_has_line(tokens.drop_last(), separator, indent);
        lemma_layout_keeps_tokens(tokens.drop_last(), separator, indent);
        before.lemma_flatten_and_flatten_alt_are_equivalent();
        assert(before.flatten_alt() == before.drop_last().flatten_alt() + before.last());
        if lines == before.push(seq![token]) {
            assert(lines.drop_last() =~= before);
            assert(lines.flatten_alt() =~= before.flatten_alt() + seq![token]);
        } else {
            let line = before.last().push(token);
            assert(lines == before.drop_last().push(line));
            assert(lines.drop_last() =~= before.drop_last());
            assert(lines.flatten_alt() =~= before.drop_last().flatten_alt() + line);
            assert(lines.flatten_alt() =~= before.flatten_alt().push(token));
        }
        assert(lines.flatten_alt() =~= tokens);
    }
}

/// Where no token is too wide, every line that holds a token accounts for
/// fewer columns than the width.
pub proof fn lemma_layout_costs(tokens: Seq<Seq<char>>, separator: Option<char>, indent: nat)
    requires
        forall|j: int| 0 <= j < tokens.len() ==> !too_wide(tokens[j], separator, indent),
    ensures
        forall|k: int|
            #![trigger layout(tokens, separator, indent)[k]]
            0 <= k < layout(tokens, separator, indent).len() && layout(
                tokens,
                separator,
                indent,
            )[k].len() > 0 ==> line_cost(layout(tokens, separator, indent)[k], separator, indent)
                < LINE_WIDTH,
        tokens.len() > 0 ==> forall|k: int|
            #![trigger layout(tokens, separator, indent)[k]]
            0 <= k < layout(tokens, separator, indent).len() ==> layout(
                tokens,
                separator,
                indent,
            )[k].len() > 0,
    decreases tokens.len(),
{
    if tokens.len() > 0 {
        let head = tokens.drop_last();
        let before = layout(head, separator, indent);
        let lines = layout(tokens, separator, indent);
        let token = tokens.last();
        lemma_layout_has_line(head, separator, indent);
        lemma_layout_costs(head, separator, indent);
        assert(!too_wide(token, separator, indent));
        assert(line_cost(Seq::<Seq<char>>::empty(), separator, indent) == indent);
        if lines == before.push(seq![token]) {
            assert(seq![token].drop_last() =~= Seq::<Seq<char>>::empty());
            assert(line_cost(seq![token], separator, indent) < LINE_WIDTH);
            assert(head.len() > 0);
            assert forall|k: int| 0 <= k < lines.len() implies (#[trigger] lines[k]).len() > 0
                && line_cost(lines[k], separator, indent) < LINE_WIDTH by {
                if k < before.len() {
                    assert(lines[k] == before[k]);
                }
            }
        } else {
            let line = before.last().push(token);
            assert(lines == before.drop_last().push(line));
            assert(line.drop_last() =~= before.last());
            if before.last().len() == 0 {
                assert(before.last() =~= Seq::<Seq<char>>::empty());
            }
            assert(line_cost(line, separator, indent) < LINE_WIDTH);
            assert forall|k: int| 0 <= k < lines.len() implies (#[trigger] lines[k]).len() > 0
                && line_cost(lines[k], separator, indent) < LINE_WIDTH by {
                if k < before.len() - 1 {
                    assert(lines[k] == before[k]);
                    assert(head.len() > 0);
                }
            }
        }
    } else {
        assert(layout(tokens, separator, indent)[0].len() == 0);
    }
}

/// The length of a line's text: the indent alone, or what the line
/// accounts for less the gap after its last token.
pub proof fn lemma_render_len(line: Seq<Seq<char>>, separator: Option<char>, indent: nat)
    ensures
        render_line(line, separator, indent).len() == if line.len() == 0 {
            indent as int
        } else {
            line_cost(line, separator, indent) - gap(separator)
        },
    decreases line.len(),
{
    if line.len() == 1 {
        assert(line.drop_last() =~= Seq::<Seq<char>>::empty());
        assert(line_cost(line.drop_last(), separator, indent) == indent);
    } else if line.len() > 1 {
        lemma_render_len(line.drop_last(), separator, indent);
    }
}

/// Every line is narrower than the width: where no token is too wide, and
/// there is a token or the indent alone is under the width, the text of
/// every line is shorter than `LINE_WIDTH`.
pub proof fn lemma_lines_fit(tokens: Seq<Seq<char>>, separator: Option<char>, indent: nat)
    requires
        forall|j: int| 0 <= j < tokens.len() ==> !too_wide(tokens[j], separator, indent),
        tokens.len() > 0 || indent < LINE_WIDTH,
    ensures
        forall|k: int|
            0 <= k < wrapped(tokens, separator, indent).len() ==> (#[trigger] wrapped(
                tokens,
                separator,
                indent,
            )[k]).len() < LINE_WIDTH,
{
    let lines = layout(tokens, separator, indent);
    lemma_layout_costs(tokens, separator, indent);
    assert forall|k: int| 0 <= k < wrapped(tokens, separator, indent).len() implies (
    #[trigger] wrapped(tokens, separator, indent)[k]).len() < LINE_WIDTH by {
        lemma_render_len(lines[k], separator, indent);
        if tokens.len() == 0 {
            assert(lines[k].len() == 0);
        }
    }
}

/// Where each token stands in a line's text. The indent comes first. The
/// token at `j` starts where the tokens before it, each with its gap, end.
/// Between it and the next token of the line stands exactly the joiner: a
/// space, and with a separator glyph the glyph and one more space. After
/// the last token of the line stands nothing.
pub proof fn lemma_separator_placement(
    line: Seq<Seq<char>>,
    separator: Option<char>,
    indent: nat,
    j: int,
)
    requires
        0 <= j < line.len(),
    ensures
        ({
            let text = render_line(line, separator, indent);
            let start = line_cost(line.take(j), separator, indent) as int;
            let end = start + line[j].len();
            &&& indent <= start
            &&& end <= text.len()
            &&& text.subrange(0, indent as int) == spaces(indent)
            &&& text.subrange(start, end) == line[j]
            &&& j + 1 < line.len() ==> {
                &&& end + gap(separator) <= text.len()
                &&& text.subrange(end, end + gap(separator)) == joiner(separator)
                &&& end + gap(separator) == line_cost(line.take(j + 1), separator, indent)
            }
            &&& j + 1 == line.len() ==> text.len() == end
        }),
    decreases line.len(),
{
    let text = render_line(line, separator, indent);
    let start = line_cost(line.take(j), separator, indent) as int;
    let end = start + line[j].len();
    let head = line.drop_last();
    crate::wrap::lemma_cost_lower(line.take(j), separator, indent);
    if line.len() == 1 {
        assert(line.take(0) =~= Seq::<Seq<char>>::empty());
        assert(text.subrange(0, indent as int) =~= spaces(indent));
        assert(text.subrange(start, end) =~= line[j]);
    } else {
        let inner = render_line(head, separator, indent);
        assert(text == inner + joiner(separator) + line.last());
        lemma_render_len(head, separator, indent);
        lemma_separator_placement(head, separator, indent, 0);
        assert(text.subrange(0, indent as int) =~= inner.subrange(0, indent as int));
        if j == line.len() - 1 {
            assert(line.take(j) =~= head);
            assert(text.subrange(start, end) =~= line[j]);
        } else {
            lemma_separator_placement(head, separator, indent, j);
            assert(head.take(j) =~= line.take(j));
            assert(head[j] == line[j]);
            assert(text.subrange(start, end) =~= inner.subrange(start, end));
            assert(line.take(j + 1).drop_last() =~= line.take(j));
            if j + 1 < head.len() {
                assert(head.take(j + 1) =~= line.take(j + 1));
                assert(text.subrange(end, end + gap(separator)) =~= inner.subrange(
                    end,
                    end + gap(separator),
                ));
            } else {
                assert(text.subrange(end, end + gap(separator)) =~= joiner(separator));
            }
        }
    }
}

} // verus!
