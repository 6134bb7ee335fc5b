//! The line splitter: text to lines, by the line-ending convention the text
//! itself shows.

use crate::pattern::{
    contains, contains_chars, join, lemma_split_join, lemma_split_len, lemma_split_pieces_clean,
    occurs_at, split, split_chars,
};
use crate::text::{chars_of, strings_of};
use vstd::prelude::*;

verus! {

/// Carriage return followed by line feed.
pub open spec fn crlf() -> Seq<char> {
    seq!['\r', '\n']
}

/// A bare line feed.
pub open spec fn lf() -> Seq<char> {
    seq!['\n']
}

/// The line terminator that `text` uses: carriage return plus line feed where
/// the text holds that pair, else the bare line feed where it holds one, else
/// none.
pub open spec fn terminator_of(text: Seq<char>) -> Option<Seq<char>> {
    if contains(text, crlf()) {
        Some(crlf())
    } else if contains(text, lf()) {
        Some(lf())
    } else {
        None
    }
}

/// The lines of `text`, terminators stripped: the pieces between the
/// occurrences of its terminator; nothing where it has no terminator.
pub open spec fn lines_of(text: Seq<char>) -> Option<Seq<Seq<char>>> {
    match terminator_of(text) {
        Some(terminator) => Some(split(text, terminator)),
        None => None,
    }
}

/// The lines of a file, from what reading it gave: a file that could not be
/// read has no text, and no lines.
pub open spec fn lines_of_file(text: Option<Seq<char>>) -> Option<Seq<Seq<char>>> {
    match text {
        Some(text) => lines_of(text),
        None => None,
    }
}

/// A text that holds carriage return plus line feed is split on that pair
/// alone: its lines, joined with the pair, are the text again, so a line feed
/// that stands without a carriage return stays inside its line.
pub proof fn lemma_crlf_lines(text: Seq<char>)
    requires
        contains(text, crlf()),
    ensures
        lines_of(text) == Some(split(text, crlf())),
        join(split(text, crlf()), crlf()) == text,
        forall|k: int|
            0 <= k < split(text, crlf()).len() ==> !contains(
                #[trigger] split(text, crlf())[k],
                crlf(),
            ),
{
    lemma_split_join(text, crlf());
    assert forall|k: int| 0 <= k < split(text, crlf()).len() implies !contains(
        #[trigger] split(text, crlf())[k],
        crlf(),
    ) by {
        lemma_split_pieces_clean(text, crlf(), k);
    }
}

/// The lines of a text, joined with the text's terminator, are the text
/// again; no line holds the terminator, and there are at least two lines.
pub proof fn lemma_lines_rebuild(text: Seq<char>)
    requires
        terminator_of(text) is Some,
    ensures
        lines_of(text) is Some,
        lines_of(text)->0.len() >= 2,
        join(lines_of(text)->0, terminator_of(text)->0) == text,
        forall|k: int|
            0 <= k < lines_of(text)->0.len() ==> !contains(
                #[trigger] lines_of(text)->0[k],
                terminator_of(text)->0,
            ),
{
    let terminator = terminator_of(text)->0;
    lemma_split_join(text, terminator);
    lemma_split_len(text, terminator);
    assert forall|k: int| 0 <= k < split(text, terminator).len() implies !contains(
        #[trigger] split(text, terminator)[k],
        terminator,
    ) by {
        lemma_split_pieces_clean(text, terminator, k);
    }
}

/// A text without a line feed has no terminator, and so no lines.
pub proof fn lemma_unterminated(text: Seq<char>)
    requires
        !contains(text, lf()),
    ensures
        terminator_of(text) is None,
        lines_of(text) is None,
        lines_of_file(Some(text)) == lines_of_file(None),
{
    if contains(text, crlf()) {
        let i = choose|i: int| occurs_at(text, crlf(), i);
        assert(text.subrange(i, i + 2)[1] == '\n');
        assert(text.subrange(i + 1, i + 2) =~= lf());
        assert(occurs_at(text, lf(), i + 1));
    }
}

/// Splits a text into its lines.
pub fn split_lines(text: &String) -> (r: Option<Vec<String>>)
    ensures
        r.deep_view() == lines_of(text@),
{
    let chars = chars_of(text.as_str());
    let pair: Vec<char> = vec!['\r', '\n'];
    let feed: Vec<char> = vec!['\n'];
    assert(pair@ =~= crlf());
    assert(feed@ =~= lf());
    if contains_chars(&chars, &pair) {
        let parts = split_chars(&chars, &pair);
        Some(strings_of(&parts))
    } else if contains_chars(&chars, &feed) {
        let parts = split_chars(&chars, &feed);
        Some(strings_of(&parts))
    } else {
        None
    }
}

/// Splits the text of a file into its lines; `None` stands for the text of a
/// file that could not be read.
pub fn file_split_space(text: &Option<String>) -> (r: Option<Vec<String>>)
    ensures
        r.deep_view() == lines_of_file(text.deep_view()),
{
    match text {
        Some(text) => split_lines(text),
        None => None,
    }
}

} // verus!
