//! Lines that carry a marker: whether there is one, how many there are, where
//! the first and the last of them stand; and the name that lines give.

use crate::fields::{name_marker, object_name};
use crate::pattern::contains;
use vstd::prelude::*;

verus! {

/// The line at position `i` carries `marker`.
pub open spec fn marked(lines: Seq<Seq<char>>, marker: Seq<char>, i: int) -> bool {
    0 <= i < lines.len() && contains(lines[i], marker)
}

/// Some line carries `marker`.
pub open spec fn any_marked(lines: Seq<Seq<char>>, marker: Seq<char>) -> bool {
    exists|i: int| marked(lines, marker, i)
}

/// The number of lines that carry `marker`.
pub open spec fn count_marked(lines: Seq<Seq<char>>, marker: Seq<char>) -> nat
    decreases lines.len(),
{
    if lines.len() == 0 {
        0
    } else if contains(lines.last(), marker) {
        count_marked(lines.drop_last(), marker) + 1
    } else {
        count_marked(lines.drop_last(), marker)
    }
}

/// The position of the first line that carries `marker`.
pub open spec fn first_marked(lines: Seq<Seq<char>>, marker: Seq<char>) -> Option<int>
    decreases lines.len(),
{
    if lines.len() == 0 {
        None
    } else if first_marked(lines.drop_last(), marker) is Some {
        first_marked(lines.drop_last(), marker)
    } else if contains(lines.last(), marker) {
        Some(lines.len() - 1)
    } else {
        None
    }
}

/// The position of the last line that carries `marker`.
pub open spec fn last_marked(lines: Seq<Seq<char>>, marker: Seq<char>) -> Option<int>
    decreases lines.len(),
{
    if lines.len() == 0 {
        None
    } else if contains(lines.last(), marker) {
        Some(lines.len() - 1)
    } else {
        last_marked(lines.drop_last(), marker)
    }
}

/// The name that one line gives: its object name where it carries the name
/// marker and has one, else the empty text.
pub open spec fn name_given(line: Seq<char>) -> Seq<char> {
    if contains(line, name_marker()) {
        match object_name(line) {
            Some(name) => name,
            None => Seq::empty(),
        }
    } else {
        Seq::empty()
    }
}

/// The name that lines give: the name given by the first line that gives one
/// that is not empty; the empty text where no line does.
pub open spec fn name_among(lines: Seq<Seq<char>>) -> Seq<char>
    decreases lines.len(),
{
    if lines.len() == 0 {
        Seq::empty()
    } else if name_among(lines.drop_last()).len() > 0 {
        name_among(lines.drop_last())
    } else {
        name_given(lines.last())
    }
}

/// `first_marked` gives the least position of a line with the marker, and
/// nothing exactly when no line carries it.
pub proof fn lemma_first_marked(lines: Seq<Seq<char>>, marker: Seq<char>)
    ensures
        match first_marked(lines, marker) {
            Some(i) => marked(lines, marker, i) && forall|j: int|
                0 <= j < i ==> !marked(lines, marker, j),
            None => !any_marked(lines, marker),
        },
    decreases lines.len(),
{
    if lines.len() > 0 {
        let before = lines.drop_last();
        lemma_first_marked(before, marker);
        assert forall|j: int| 0 <= j < before.len() implies marked(before, marker, j) == marked(
            lines,
            marker,
            j,
        ) by {
            assert(before[j] == lines[j]);
        }
        match first_marked(before, marker) {
            Some(i) => {
                assert(marked(before, marker, i));
            },
            None => {
                assert forall|j: int| 0 <= j < before.len() implies !marked(lines, marker, j) by {
                    assert(!marked(before, marker, j));
                }
            },
        }
    }
}

/// `last_marked` gives the greatest position of a line with the marker, and
/// nothing exactly when no line carries it.
pub proof fn lemma_last_marked(lines: Seq<Seq<char>>, marker: Seq<char>)
    ensures
        match last_marked(lines, marker) {
            Some(i) => marked(lines, marker, i) && forall|j: int|
                i < j ==> !marked(lines, marker, j),
            None => !any_marked(lines, marker),
        },
    decreases lines.len(),
{
    if lines.len() > 0 {
        let before = lines.drop_last();
        lemma_last_marked(before, marker);
        assert forall|j: int| 0 <= j < before.len() implies marked(before, marker, j) == marked(
            lines,
            marker,
            j,
        ) by {
            assert(before[j] == lines[j]);
        }
        if !contains(lines.last(), marker) {
            match last_marked(before, marker) {
                Some(i) => {
                    assert(marked(before, marker, i));
                },
                None => {
                    assert forall|j: int| !marked(lines, marker, j) by {
                        if 0 <= j < before.len() {
                            assert(!marked(before, marker, j));
                        }
                    }
                },
            }
        }
    }
}

/// The count against the first and the last position: no marked line means
/// neither position, one means that the two are the same, and two or more
/// mean that the first stands before the last.
pub proof fn lemma_count_marked(lines: Seq<Seq<char>>, marker: Seq<char>)
    ensures
        count_marked(lines, marker) <= lines.len(),
        count_marked(lines, marker) == 0 <==> !any_marked(lines, marker),
        count_marked(lines, marker) == 0 <==> first_marked(lines, marker) is None,
        count_marked(lines, marker) == 0 <==> last_marked(lines, marker) is None,
        count_marked(lines, marker) == 1 ==> first_marked(lines, marker) == last_marked(
            lines,
            marker,
        ),
        count_marked(lines, marker) >= 2 <==> first_marked(lines, marker) is Some && last_marked(
            lines,
            marker,
        ) is Some && first_marked(lines, marker)->0 < last_marked(lines, marker)->0,
    decreases lines.len(),
{
    lemma_first_marked(lines, marker);
    lemma_last_marked(lines, marker);
    if lines.len() > 0 {
        let before = lines.drop_last();
        lemma_count_marked(before, marker);
        lemma_first_marked(before, marker);
        lemma_last_marked(before, marker);
    }
}

/// The name that lines give is given by one of them, and no line before that
/// one gives a name; where the lines give no name, none of them does.
pub proof fn lemma_name_among(lines: Seq<Seq<char>>)
    ensures
        name_among(lines).len() > 0 ==> exists|i: int|
            0 <= i < lines.len() && name_among(lines) == name_given(#[trigger] lines[i])
                && forall|j: int| 0 <= j < i ==> name_given(#[trigger] lines[j]).len() == 0,
        name_among(lines).len() == 0 ==> forall|j: int|
            0 <= j < lines.len() ==> name_given(#[trigger] lines[j]).len() == 0,
    decreases lines.len(),
{
    if lines.len() > 0 {
        let before = lines.drop_last();
        lemma_name_among(before);
        assert forall|j: int| 0 <= j < before.len() implies before[j] == lines[j] by {}
        if name_among(before).len() > 0 {
            let i = choose|i: int|
                0 <= i < before.len() && name_among(before) == name_given(#[trigger] before[i])
                    && forall|j: int| 0 <= j < i ==> name_given(#[trigger] before[j]).len() == 0;
            assert(name_among(lines) == name_given(lines[i]));
            assert forall|j: int| 0 <= j < i implies name_given(#[trigger] lines[j]).len() == 0 by {
                assert(name_given(before[j]).len() == 0);
            }
        } else {
            let i = lines.len() - 1;
            assert forall|j: int| 0 <= j < i implies name_given(#[trigger] lines[j]).len() == 0 by {
                assert(name_given(before[j]).len() == 0);
            }
            if name_among(lines).len() > 0 {
                assert(name_among(lines) == name_given(lines[i]));
            }
        }
    }
}

/// A name, once given, stays: the name that the first `k` lines give is the
/// name that all the lines give.
pub proof fn lemma_name_stays(lines: Seq<Seq<char>>, k: int)
    requires
        0 <= k <= lines.len(),
        name_among(lines.take(k)).len() > 0,
    ensures
        name_among(lines) == name_among(lines.take(k)),
    decreases lines.len(),
{
    if k == lines.len() {
        assert(lines.take(k) =~= lines);
    } else {
        assert(lines.drop_last().take(k) =~= lines.take(k));
        lemma_name_stays(lines.drop_last(), k);
    }
}

} // verus!
