//! Splitting the textual form of a flag set into flag names.

use vstd::prelude::*;
use crate::text::{chars_of, is_space, is_whitespace, string_of, texts};

verus! {

/// The glyph that the textual form of a flag set puts between two flags.
pub open spec fn is_bar(word: Seq<char>) -> bool {
    word == seq!['|']
}

/// The state of a left-to-right scan: the tokens that are complete, and the
/// characters of the word that is still open.
pub struct Scan {
    pub done: Seq<Seq<char>>,
    pub open: Seq<char>,
}

/// `done` with the open word closed: an empty word and a lone bar are no
/// tokens.
pub open spec fn close_word(done: Seq<Seq<char>>, open: Seq<char>) -> Seq<Seq<char>> {
    if open.len() == 0 || is_bar(open) {
        done
    } else {
        done.push(open)
    }
}

/// The scan after all of `s` has been read.
pub open spec fn scan(s: Seq<char>) -> Scan
    decreases s.len(),
{
    if s.len() == 0 {
        Scan { done: Seq::empty(), open: Seq::empty() }
    } else {
        let before = scan(s.drop_last());
        if is_space(s.last()) {
            Scan { done: close_word(before.done, before.open), open: Seq::empty() }
        } else {
            Scan { done: before.done, open: before.open.push(s.last()) }
        }
    }
}

/// The flag names in `s`: its maximal runs of characters that are not white
/// space, in order, without those that are a lone bar.
pub open spec fn flag_tokens(s: Seq<char>) -> Seq<Seq<char>> {
    close_word(scan(s).done, scan(s).open)
}

/// What holds of every token: it is not empty, holds no white space and is
/// not a lone bar.
pub open spec fn is_token(word: Seq<char>) -> bool {
    &&& word.len() > 0
    &&& !is_bar(word)
    &&& forall|k: int| 0 <= k < word.len() ==> !is_space(#[trigger] word[k])
}

/// Every word that a scan has closed is a token, and the open word holds no
/// white space.
pub proof fn lemma_scan_tokens(s: Seq<char>)
    ensures
        forall|i: int| 0 <= i < scan(s).done.len() ==> is_token(#[trigger] scan(s).done[i]),
        forall|k: int| 0 <= k < scan(s).open.len() ==> !is_space(#[trigger] scan(s).open[k]),
    decreases s.len(),
{
    if s.len() > 0 {
        lemma_scan_tokens(s.drop_last());
        let before = scan(s.drop_last());
        let after = scan(s);
        assert forall|i: int| 0 <= i < after.done.len() implies is_token(
            #[trigger] after.done[i],
        ) by {
            if i < before.done.len() {
                assert(after.done[i] == before.done[i]);
            } else {
                assert(after.done[i] == before.open);
            }
        }
        assert forall|k: int| 0 <= k < after.open.len() implies !is_space(
            #[trigger] after.open[k],
        ) by {
            if k < before.open.len() {
                assert(after.open[k] == before.open[k]);
            }
        }
    }
}

/// Every element of `flag_tokens(s)` is a token.
pub proof fn lemma_flag_tokens_are_tokens(s: Seq<char>)
    ensures
        forall|i: int| 0 <= i < flag_tokens(s).len() ==> is_token(#[trigger] flag_tokens(s)[i]),
{
    lemma_scan_tokens(s);
}

/// Whether `word` is a lone bar.
fn word_is_bar(word: &Vec<char>) -> (b: bool)
    ensures
        b == is_bar(word@),
{
    if word.len() == 1 && word[0] == '|' {
        assert(word@ =~= seq!['|']);
        true
    } else {
        assert(seq!['|'].len() == 1 && seq!['|'][0] == '|');
        false
    }
}

/// The flag names in the textual form of a flag set, in the order in which
/// the text holds them. A text without flag names gives an empty vector.
pub fn bitfield_tokens(text: &str) -> (tokens: Vec<String>)
    ensures
        texts(tokens@) == flag_tokens(text@),
        forall|i: int| 0 <= i < tokens.len() ==> is_token(#[trigger] tokens[i]@),
{
    let chars = chars_of(text);
    let n = chars.len();
    let mut tokens: Vec<String> = Vec::new();
    let mut open: Vec<char> = Vec::new();
    let mut i: usize = 0;
    assert(texts(tokens@) =~= Seq::<Seq<char>>::empty());
    assert(chars@.take(0) =~= Seq::<char>::empty());
    while i < n
        invariant
            i <= n,
            n == chars.len(),
            texts(tokens@) == scan(chars@.take(i as int)).done,
            open@ == scan(chars@.take(i as int)).open,
        decreases n - i,
    {
        let c = chars[i];
        proof {
            assert(chars@.take(i + 1).drop_last() =~= chars@.take(i as int));
            assert(chars@.take(i + 1).last() == c);
        }
        if is_whitespace(c) {
            if open.len() > 0 && !word_is_bar(&open) {
                let word = string_of(&open);
                let ghost before = tokens@;
                tokens.push(word);
                assert(texts(tokens@) =~= texts(before).push(open@));
            }
            open = Vec::new();
            assert(open@ =~= Seq::<char>::empty());
        } else {
            open.push(c);
        }
        i += 1;
    }
    assert(chars@.take(n as int) =~= chars@);
    if open.len() > 0 && !word_is_bar(&open) {
        let word = string_of(&open);
        let ghost before = tokens@;
        tokens.push(word);
        assert(texts(tokens@) =~= texts(before).push(open@));
    }
    proof {
        lemma_flag_tokens_are_tokens(text@);
        assert forall|i: int| 0 <= i < tokens.len() implies is_token(#[trigger] tokens[i]@) by {
            assert(texts(tokens@)[i] == tokens[i]@);
            assert(is_token(flag_tokens(text@)[i]));
        }
    }
    tokens
}

} // verus!
