//! Substring search on character sequences: occurrence, leftmost match,
//! splitting on a delimiter, joining and replacement.

use vstd::prelude::*;

verus! {

/// `pat` stands in `s` at position `i`.
pub open spec fn occurs_at(s: Seq<char>, pat: Seq<char>, i: int) -> bool {
    0 <= i && i + pat.len() <= s.len() && s.subrange(i, i + pat.len()) == pat
}

/// `pat` stands somewhere in `s`.
pub open spec fn contains(s: Seq<char>, pat: Seq<char>) -> bool {
    exists|i: int| occurs_at(s, pat, i)
}

/// The position of the leftmost occurrence of `pat` in `s` that starts at or
/// after `from`.
pub open spec fn find_from(s: Seq<char>, pat: Seq<char>, from: int) -> Option<int>
    decreases s.len() - from,
{
    if from < 0 || from + pat.len() > s.len() {
        None
    } else if occurs_at(s, pat, from) {
        Some(from)
    } else {
        proof {
            assert(pat.len() == 0 ==> s.subrange(from, from + pat.len()) =~= pat);
        }
        find_from(s, pat, from + 1)
    }
}

/// The position of the leftmost occurrence of `pat` in `s`.
pub open spec fn find(s: Seq<char>, pat: Seq<char>) -> Option<int> {
    find_from(s, pat, 0)
}

/// The pieces of `s` between the successive, non-overlapping occurrences of
/// the delimiter `pat`, scanning from the left. A text with `n` occurrences
/// has `n + 1` pieces; pieces may be empty. The empty delimiter divides
/// nothing: the text is then its own single piece.
pub open spec fn split(s: Seq<char>, pat: Seq<char>) -> Seq<Seq<char>>
    decreases s.len(),
{
    match find(s, pat) {
        Some(i) => {
            if pat.len() > 0 {
                proof {
                    lemma_find_from(s, pat, 0);
                }
                seq![s.subrange(0, i)] + split(s.subrange(i + pat.len(), s.len() as int), pat)
            } else {
                seq![s]
            }
        },
        None => seq![s],
    }
}

/// The pieces written one after another with `sep` between neighbours.
pub open spec fn join(parts: Seq<Seq<char>>, sep: Seq<char>) -> Seq<char>
    decreases parts.len(),
{
    if parts.len() == 0 {
        Seq::empty()
    } else if parts.len() == 1 {
        parts[0]
    } else {
        join(parts.drop_last(), sep) + sep + parts.last()
    }
}

/// `s` with every occurrence of `pat`, found from the left without overlap,
/// replaced by `with`.
pub open spec fn replace(s: Seq<char>, pat: Seq<char>, with: Seq<char>) -> Seq<char> {
    join(split(s, pat), with)
}

/// What `find_from` returns is the least position at or after `from` at which
/// `pat` occurs, and it returns nothing exactly when there is no such position.
pub proof fn lemma_find_from(s: Seq<char>, pat: Seq<char>, from: int)
    requires
        0 <= from,
    ensures
        match find_from(s, pat, from) {
            Some(i) => from <= i && occurs_at(s, pat, i) && forall|j: int|
                from <= j < i ==> !occurs_at(s, pat, j),
            None => forall|j: int| from <= j ==> !occurs_at(s, pat, j),
        },
    decreases s.len() - from,
{
    if from + pat.len() > s.len() {
    } else if occurs_at(s, pat, from) {
    } else {
        assert(pat.len() == 0 ==> s.subrange(from, from + pat.len()) =~= pat);
        lemma_find_from(s, pat, from + 1);
    }
}

/// A leftmost match exists exactly when the pattern is contained.
pub proof fn lemma_find_contains(s: Seq<char>, pat: Seq<char>)
    ensures
        find(s, pat) is Some <==> contains(s, pat),
{
    lemma_find_from(s, pat, 0);
    if contains(s, pat) {
        let i = choose|i: int| occurs_at(s, pat, i);
        assert(occurs_at(s, pat, i));
    }
}

/// Searching `s` from `from` is searching the suffix of `s` that begins there.
pub proof fn lemma_find_suffix(s: Seq<char>, pat: Seq<char>, from: int)
    requires
        0 <= from <= s.len(),
    ensures
        find(s.subrange(from, s.len() as int), pat) == match find_from(s, pat, from) {
            Some(i) => Some(i - from),
            None => None::<int>,
        },
{
    let t = s.subrange(from, s.len() as int);
    assert forall|j: int| 0 <= j implies occurs_at(t, pat, j) == occurs_at(s, pat, from + j) by {
        if j + pat.len() <= t.len() {
            assert(t.subrange(j, j + pat.len()) =~= s.subrange(from + j, from + j + pat.len()));
        }
    }
    lemma_find_from(s, pat, from);
    lemma_find_from(t, pat, 0);
    match find_from(s, pat, from) {
        Some(i) => {
            assert(occurs_at(t, pat, i - from));
            match find(t, pat) {
                Some(k) => {
                    assert(occurs_at(s, pat, from + k));
                    if k < i - from {
                        assert(!occurs_at(s, pat, from + k));
                    }
                    if i - from < k {
                        assert(!occurs_at(t, pat, i - from));
                    }
                },
                None => {},
            }
        },
        None => {
            match find(t, pat) {
                Some(k) => {
                    assert(occurs_at(s, pat, from + k));
                },
                None => {},
            }
        },
    }
}

/// A text that does not contain the delimiter is its own single piece.
pub proof fn lemma_split_without(s: Seq<char>, pat: Seq<char>)
    requires
        !contains(s, pat),
    ensures
        split(s, pat) == seq![s],
{
    lemma_find_contains(s, pat);
}

/// A text that contains a non-empty delimiter has at least two pieces, and
/// one that does not has exactly one.
pub proof fn lemma_split_len(s: Seq<char>, pat: Seq<char>)
    requires
        pat.len() > 0,
    ensures
        split(s, pat).len() >= 1,
        split(s, pat).len() >= 2 <==> contains(s, pat),
    decreases s.len(),
{
    lemma_find_contains(s, pat);
    lemma_find_from(s, pat, 0);
    match find(s, pat) {
        Some(i) => {
            lemma_split_len(s.subrange(i + pat.len(), s.len() as int), pat);
        },
        None => {},
    }
}

/// Joining a first piece with at least one more: the first piece, the
/// separator, then the rest joined.
pub proof fn lemma_join_first(first: Seq<char>, rest: Seq<Seq<char>>, sep: Seq<char>)
    requires
        rest.len() >= 1,
    ensures
        join(seq![first] + rest, sep) == first + sep + join(rest, sep),
    decreases rest.len(),
{
    let all = seq![first] + rest;
    assert(all.last() == rest.last());
    assert(all.drop_last() =~= seq![first] + rest.drop_last());
    if rest.len() == 1 {
        assert(all.drop_last() =~= seq![first]);
        assert(join(all, sep) == join(all.drop_last(), sep) + sep + all.last());
        assert(join(seq![first], sep) == first);
        assert(join(rest, sep) == rest[0]);
    } else {
        lemma_join_first(first, rest.drop_last(), sep);
        assert(join(all, sep) == join(all.drop_last(), sep) + sep + all.last());
        assert(join(rest, sep) == join(rest.drop_last(), sep) + sep + rest.last());
        assert(join(all, sep) =~= first + sep + join(rest, sep));
    }
}

/// The pieces of a split, joined with the delimiter, are the text again.
pub proof fn lemma_split_join(s: Seq<char>, pat: Seq<char>)
    requires
        pat.len() > 0,
    ensures
        join(split(s, pat), pat) == s,
    decreases s.len(),
{
    lemma_find_from(s, pat, 0);
    match find(s, pat) {
        Some(i) => {
            let head = s.subrange(0, i);
            let tail = s.subrange(i + pat.len(), s.len() as int);
            lemma_split_join(tail, pat);
            lemma_split_len(tail, pat);
            lemma_join_first(head, split(tail, pat), pat);
            assert(head + pat + tail =~= s) by {
                assert(s.subrange(i, i + pat.len()) == pat);
            }
        },
        None => {},
    }
}

/// No piece of a split contains the delimiter.
pub proof fn lemma_split_pieces_clean(s: Seq<char>, pat: Seq<char>, k: int)
    requires
        pat.len() > 0,
        0 <= k < split(s, pat).len(),
    ensures
        !contains(split(s, pat)[k], pat),
    decreases s.len(),
{
    lemma_find_from(s, pat, 0);
    lemma_find_contains(s, pat);
    match find(s, pat) {
        Some(i) => {
            let head = s.subrange(0, i);
            let tail = s.subrange(i + pat.len(), s.len() as int);
            if k == 0 {
                assert forall|j: int| !occurs_at(head, pat, j) by {
                    if occurs_at(head, pat, j) {
                        assert(head.subrange(j, j + pat.len()) =~= s.subrange(j, j + pat.len()));
                        assert(occurs_at(s, pat, j));
                    }
                }
            } else {
                lemma_split_pieces_clean(tail, pat, k - 1);
            }
        },
        None => {},
    }
}

/// Replacing by something no longer than the pattern never lengthens a text,
/// and replacing by something shorter shortens every text that contains the
/// pattern.
pub proof fn lemma_replace_shrinks(s: Seq<char>, pat: Seq<char>, with: Seq<char>)
    requires
        pat.len() > 0,
        with.len() <= pat.len(),
    ensures
        replace(s, pat, with).len() <= s.len(),
        contains(s, pat) && with.len() < pat.len() ==> replace(s, pat, with).len() < s.len(),
    decreases s.len(),
{
    lemma_find_from(s, pat, 0);
    lemma_find_contains(s, pat);
    match find(s, pat) {
        Some(i) => {
            let head = s.subrange(0, i);
            let tail = s.subrange(i + pat.len(), s.len() as int);
            lemma_replace_shrinks(tail, pat, with);
            lemma_split_len(tail, pat);
            lemma_join_first(head, split(tail, pat), with);
        },
        None => {},
    }
}

/// The character sequences held by a vector of character vectors.
pub open spec fn pieces(parts: Seq<Vec<char>>) -> Seq<Seq<char>> {
    parts.map_values(|p: Vec<char>| p@)
}

/// Whether `pat` stands in `s` at position `i`.
pub fn matches_at(s: &Vec<char>, pat: &Vec<char>, i: usize) -> (r: bool)
    ensures
        r == occurs_at(s@, pat@, i as int),
{
    if pat.len() > s.len() || i > s.len() - pat.len() {
        return false;
    }
    let mut k: usize = 0;
    while k < pat.len()
        invariant
            i + pat.len() <= s.len(),
            k <= pat.len(),
            forall|j: int| 0 <= j < k ==> s@[i + j] == pat@[j],
        decreases pat.len() - k,
    {
        if s[i + k] != pat[k] {
            assert(s@.subrange(i as int, i + pat@.len())[k as int] != pat@[k as int]);
            return false;
        }
        k += 1;
    }
    assert(s@.subrange(i as int, i + pat@.len()) =~= pat@);
    true
}

/// Finds the leftmost occurrence of `pat` in `s` that starts at or after
/// `from`.
pub fn find_in(s: &Vec<char>, pat: &Vec<char>, from: usize) -> (r: Option<usize>)
    ensures
        match r {
            Some(i) => find_from(s@, pat@, from as int) == Some(i as int) && i + pat@.len()
                <= s@.len(),
            None => find_from(s@, pat@, from as int) is None,
        },
{
    if pat.len() > s.len() {
        proof {
            lemma_find_from(s@, pat@, from as int);
        }
        return None;
    }
    let last: usize = s.len() - pat.len();
    let mut i: usize = from;
    while i <= last
        invariant
            last == s.len() - pat.len(),
            from <= i,
            find_from(s@, pat@, from as int) == find_from(s@, pat@, i as int),
        decreases last - i,
    {
        if matches_at(s, pat, i) {
            return Some(i);
        }
        if i == last {
            assert(find_from(s@, pat@, last + 1) is None);
            return None;
        }
        i += 1;
    }
    None
}

/// Whether `pat` stands somewhere in `s`.
pub fn contains_chars(s: &Vec<char>, pat: &Vec<char>) -> (r: bool)
    ensures
        r == contains(s@, pat@),
{
    proof {
        lemma_find_contains(s@, pat@);
    }
    find_in(s, pat, 0).is_some()
}

/// Copies the characters of `s` from position `from` up to, not including,
/// position `to`.
pub fn copy_range(s: &Vec<char>, from: usize, to: usize) -> (r: Vec<char>)
    requires
        from <= to <= s@.len(),
    ensures
        r@ == s@.subrange(from as int, to as int),
{
    let mut r: Vec<char> = Vec::new();
    let mut i: usize = from;
    while i < to
        invariant
            from <= i <= to <= s@.len(),
            r@ == s@.subrange(from as int, i as int),
        decreases to - i,
    {
        r.push(s[i]);
        i += 1;
    }
    r
}

/// Splits `s` on the delimiter `pat`.
pub fn split_chars(s: &Vec<char>, pat: &Vec<char>) -> (parts: Vec<Vec<char>>)
    ensures
        pieces(parts@) == split(s@, pat@),
{
    let n: usize = s.len();
    let mut parts: Vec<Vec<char>> = Vec::new();
    let mut start: usize = 0;
    assert(s@.subrange(0, n as int) =~= s@);
    assert(pieces(parts@) =~= Seq::<Seq<char>>::empty());
    if pat.len() == 0 {
        let whole = copy_range(s, 0, n);
        parts.push(whole);
        assert(pieces(parts@) =~= seq![s@]);
        return parts;
    }
    loop
        invariant_except_break
            n == s@.len(),
            start <= n,
            pat@.len() > 0,
            split(s@, pat@) == pieces(parts@) + split(s@.subrange(start as int, n as int), pat@),
        ensures
            pieces(parts@) == split(s@, pat@),
        decreases n - start,
    {
        let ghost rest = s@.subrange(start as int, n as int);
        let ghost before = pieces(parts@);
        proof {
            lemma_find_suffix(s@, pat@, start as int);
        }
        match find_in(s, pat, start) {
            Some(i) => {
                proof {
                    lemma_find_from(s@, pat@, start as int);
                }
                let piece = copy_range(s, start, i);
                parts.push(piece);
                proof {
                    assert(rest.subrange(0, i - start) =~= piece@);
                    assert(rest.subrange(i - start + pat@.len(), rest.len() as int) =~= s@.subrange(
                        i + pat@.len(),
                        n as int,
                    ));
                    assert(pieces(parts@) =~= before.push(piece@));
                    assert(before + (seq![piece@] + split(
                        s@.subrange(i + pat@.len(), n as int),
                        pat@,
                    )) =~= before.push(piece@) + split(s@.subrange(i + pat@.len(), n as int), pat@));
                }
                start = i + pat.len();
            },
            None => {
                let piece = copy_range(s, start, n);
                parts.push(piece);
                proof {
                    assert(pieces(parts@) =~= before.push(piece@));
                    assert(before + seq![rest] =~= before.push(rest));
                }
                break ;
            },
        }
    }
    parts
}

/// Writes the pieces one after another with `sep` between neighbours.
pub fn join_chars(parts: &Vec<Vec<char>>, sep: &Vec<char>) -> (r: Vec<char>)
    ensures
        r@ == join(pieces(parts@), sep@),
{
    let mut r: Vec<char> = Vec::new();
    let mut k: usize = 0;
    while k < parts.len()
        invariant
            k <= parts@.len(),
            r@ == join(pieces(parts@).take(k as int), sep@),
        decreases parts@.len() - k,
    {
        let ghost before = pieces(parts@).take(k as int);
        let ghost now = pieces(parts@).take(k + 1);
        proof {
            assert(now.drop_last() =~= before);
            assert(now.last() == parts@[k as int]@);
        }
        if k > 0 {
            append_chars(&mut r, sep);
        }
        append_chars(&mut r, &parts[k]);
        proof {
            if k == 0 {
                assert(r@ =~= parts@[0]@);
            }
        }
        k += 1;
    }
    assert(pieces(parts@).take(parts@.len() as int) =~= pieces(parts@));
    r
}

/// Appends the characters of `tail` to `r`.
pub fn append_chars(r: &mut Vec<char>, tail: &Vec<char>)
    ensures
        final(r)@ == old(r)@ + tail@,
{
    let mut i: usize = 0;
    while i < tail.len()
        invariant
            i <= tail@.len(),
            r@ == old(r)@ + tail@.take(i as int),
        decreases tail@.len() - i,
    {
        r.push(tail[i]);
        assert(tail@.take(i + 1) =~= tail@.take(i as int).push(tail@[i as int]));
        i += 1;
    }
    assert(tail@.take(tail@.len() as int) =~= tail@);
}

/// Replaces every occurrence of `pat` in `s` by `with`.
pub fn replace_chars(s: &Vec<char>, pat: &Vec<char>, with: &Vec<char>) -> (r: Vec<char>)
    ensures
        r@ == replace(s@, pat@, with@),
{
    let parts = split_chars(s, pat);
    join_chars(&parts, with)
}

} // verus!
