//! Field extractors: each takes one line and returns the value it finds
//! there, or nothing.

use crate::pattern::{
    contains, copy_range, find, find_in, lemma_find_from, lemma_replace_shrinks,
    lemma_split_without, occurs_at, pieces, replace, replace_chars, split, split_chars,
};
use crate::text::{chars_of, string_of, trim, trim_chars, words, words_chars};
use vstd::prelude::*;

verus! {

/// The double quote, as a delimiter.
pub open spec fn quote() -> Seq<char> {
    seq!['"']
}

/// The colon, as a delimiter.
pub open spec fn colon() -> Seq<char> {
    seq![':']
}

/// The dot, as a delimiter.
pub open spec fn dot() -> Seq<char> {
    seq!['.']
}

/// Marks the line that names an object.
pub open spec fn name_marker() -> Seq<char> {
    "name:"@
}

/// The kilowatt marker as definition files write it.
pub open spec fn kw_marker() -> Seq<char> {
    "@@kw@@"@
}

/// The kilowatt marker as names carry it.
pub open spec fn kw_plain() -> Seq<char> {
    "kw"@
}

/// A name with every kilowatt marker written plainly.
pub open spec fn plain_kw(name: Seq<char>) -> Seq<char> {
    replace(name, kw_marker(), kw_plain())
}

/// The text between the first and the second double quote of `line`; nothing
/// where the line has fewer than two double quotes.
pub open spec fn quoted(line: Seq<char>) -> Option<Seq<char>> {
    let parts = split(line, quote());
    if parts.len() >= 3 {
        Some(parts[1])
    } else {
        None
    }
}

/// The object name of `line`: its quoted text, kilowatt markers written
/// plainly.
pub open spec fn object_name(line: Seq<char>) -> Option<Seq<char>> {
    match quoted(line) {
        Some(q) => Some(plain_kw(q)),
        None => None,
    }
}

/// The rated-power class of `line`: the first word of its quoted text, where
/// that text has at least two words.
pub open spec fn rated_power(line: Seq<char>) -> Option<Seq<char>> {
    match quoted(line) {
        Some(q) => {
            if words(q).len() >= 2 {
                Some(words(q)[0])
            } else {
                None
            }
        },
        None => None,
    }
}

/// The value of a `key: value` line: all that follows the first colon,
/// without surrounding whitespace; nothing where the line has no colon.
pub open spec fn colon_value(line: Seq<char>) -> Option<Seq<char>> {
    match find(line, colon()) {
        Some(i) => Some(trim(line.subrange(i + 1, line.len() as int))),
        None => None,
    }
}

/// The brand of a `brand.model` folder name: the text before the first dot;
/// nothing where the name has no dot.
pub open spec fn brand_of(folder: Seq<char>) -> Option<Seq<char>> {
    let parts = split(folder, dot());
    if parts.len() >= 2 {
        Some(parts[0])
    } else {
        None
    }
}

/// The model of a `brand.model` folder name: the text between the first dot
/// and the next one (or the end of the name); nothing where the name has no
/// dot.
pub open spec fn model_of(folder: Seq<char>) -> Option<Seq<char>> {
    let parts = split(folder, dot());
    if parts.len() >= 2 {
        Some(parts[1])
    } else {
        None
    }
}

/// A line has a colon value exactly when it holds a colon.
pub proof fn lemma_colon_value_found(line: Seq<char>)
    ensures
        colon_value(line) is Some <==> exists|i: int| 0 <= i < line.len() && line[i] == ':',
{
    lemma_find_from(line, colon(), 0);
    if colon_value(line) is Some {
        let i = find(line, colon())->0;
        assert(line.subrange(i, i + 1)[0] == ':');
    }
    if exists|i: int| 0 <= i < line.len() && line[i] == ':' {
        let i = choose|i: int| 0 <= i < line.len() && line[i] == ':';
        assert(line.subrange(i, i + 1) =~= colon());
        assert(occurs_at(line, colon(), i));
    }
}

/// A name is left as it is by the kilowatt substitution exactly when it holds
/// no kilowatt marker.
pub proof fn lemma_plain_kw_fixed(name: Seq<char>)
    ensures
        plain_kw(name) == name <==> !contains(name, kw_marker()),
{
    reveal_strlit("@@kw@@");
    reveal_strlit("kw");
    if contains(name, kw_marker()) {
        lemma_replace_shrinks(name, kw_marker(), kw_plain());
    } else {
        lemma_split_without(name, kw_marker());
    }
}

/// The kilowatt substitution, applied to its own result, changes nothing:
/// this holds of every name whose substitution leaves no marker behind.
pub proof fn lemma_plain_kw_twice(name: Seq<char>)
    requires
        !contains(plain_kw(name), kw_marker()),
    ensures
        plain_kw(plain_kw(name)) == plain_kw(name),
{
    lemma_plain_kw_fixed(plain_kw(name));
}

/// The object name of a line is left as it is by a second kilowatt
/// substitution, unless the first has left a marker behind.
pub proof fn lemma_object_name_settled(line: Seq<char>)
    requires
        object_name(line) matches Some(name) && !contains(name, kw_marker()),
    ensures
        plain_kw(object_name(line)->0) == object_name(line)->0,
{
    lemma_plain_kw_fixed(object_name(line)->0);
}

/// The piece of `parts` at position `k`, where there are at least `least`
/// pieces.
fn piece_if(parts: &Vec<Vec<char>>, k: usize, least: usize) -> (r: Option<Vec<char>>)
    requires
        k < least,
    ensures
        held(r) == if parts.len() >= least {
            Some(pieces(parts@)[k as int])
        } else {
            None
        },
{
    if parts.len() >= least {
        let p = &parts[k];
        let r = copy_range(p, 0, p.len());
        assert(p@.subrange(0, p.len() as int) =~= p@);
        Some(r)
    } else {
        None
    }
}

/// What an optional character vector holds.
pub open spec fn held(r: Option<Vec<char>>) -> Option<Seq<char>> {
    match r {
        Some(v) => Some(v@),
        None => None,
    }
}

/// The string of an optional character vector.
fn string_if(r: Option<Vec<char>>) -> (s: Option<String>)
    ensures
        s.deep_view() == held(r),
{
    match r {
        Some(v) => Some(string_of(&v)),
        None => None,
    }
}

/// The text between the first two double quotes of a line.
pub fn quoted_chars(line: &Vec<char>) -> (r: Option<Vec<char>>)
    ensures
        held(r) == quoted(line@),
{
    let delimiter: Vec<char> = vec!['"'];
    assert(delimiter@ =~= quote());
    let parts = split_chars(line, &delimiter);
    piece_if(&parts, 1, 3)
}

/// The object name of a line of characters.
pub fn object_name_chars(line: &Vec<char>) -> (r: Option<Vec<char>>)
    ensures
        held(r) == object_name(line@),
{
    match quoted_chars(line) {
        Some(q) => {
            let marker = chars_of("@@kw@@");
            let plain = chars_of("kw");
            Some(replace_chars(&q, &marker, &plain))
        },
        None => None,
    }
}

/// The rated-power class of a line of characters.
pub fn rated_power_chars(line: &Vec<char>) -> (r: Option<Vec<char>>)
    ensures
        held(r) == rated_power(line@),
{
    match quoted_chars(line) {
        Some(q) => {
            let tokens = words_chars(&q);
            piece_if(&tokens, 0, 2)
        },
        None => None,
    }
}

/// The value of a `key: value` line of characters.
pub fn colon_value_chars(line: &Vec<char>) -> (r: Option<Vec<char>>)
    ensures
        held(r) == colon_value(line@),
{
    let delimiter: Vec<char> = vec![':'];
    assert(delimiter@ =~= colon());
    match find_in(line, &delimiter, 0) {
        Some(i) => {
            assert(i + 1 <= line.len()) by {
                assert(delimiter@.len() == 1);
            }
            let rest = copy_range(line, i + 1, line.len());
            Some(trim_chars(&rest))
        },
        None => None,
    }
}

/// The piece at position `k` of a folder name split on dots, where the name
/// has a dot.
fn dotted_piece(data: &String, k: usize) -> (r: Option<String>)
    requires
        k < 2,
    ensures
        r.deep_view() == if split(data@, dot()).len() >= 2 {
            Some(split(data@, dot())[k as int])
        } else {
            None
        },
{
    let name = chars_of(data.as_str());
    let delimiter: Vec<char> = vec!['.'];
    assert(delimiter@ =~= dot());
    let parts = split_chars(&name, &delimiter);
    string_if(piece_if(&parts, k, 2))
}

/// Extracts the object name from a line.
pub fn get_object_name(name: &String) -> (r: Option<String>)
    ensures
        r.deep_view() == object_name(name@),
{
    string_if(object_name_chars(&chars_of(name.as_str())))
}

/// Extracts the rated-power class from an `info` line.
pub fn get_engine_cv(name: &String) -> (r: Option<String>)
    ensures
        r.deep_view() == rated_power(name@),
{
    string_if(rated_power_chars(&chars_of(name.as_str())))
}

/// Extracts the value of a `key: value` line.
pub fn get_normal_value(name: &String) -> (r: Option<String>)
    ensures
        r.deep_view() == colon_value(name@),
{
    string_if(colon_value_chars(&chars_of(name.as_str())))
}

/// Extracts the brand from a `brand.model` folder name.
pub fn get_brand(data: &String) -> (r: Option<String>)
    ensures
        r.deep_view() == brand_of(data@),
{
    dotted_piece(data, 0)
}

/// Extracts the model from a `brand.model` folder name.
pub fn get_model(data: &String) -> (r: Option<String>)
    ensures
        r.deep_view() == model_of(data@),
{
    dotted_piece(data, 1)
}

} // verus!
