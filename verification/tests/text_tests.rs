use truck_catalog::pattern::{
    contains_chars, find_in, join_chars, matches_at, replace_chars, split_chars,
};
use truck_catalog::text::{
    char_is_space, chars_of, decimal_string, string_of, strings_of, trim_chars, words_chars,
};

fn samples() -> Vec<&'static str> {
    vec![
        "",
        "a",
        "\n",
        "\r\n",
        "a\r\nb\nc\r\nd",
        "\r\r\n\n",
        "name: \"Foo\"",
        "  torque:   2500  ",
        "a.b.c",
        "..",
        "aaa",
        "aaaa",
        "@@kw@@",
        "@@@@kw@@@@",
        "x@@kw@@y@@kw@@",
        "\t 380  480 \u{00A0}\u{3000}hp ",
        "ünïcödé \u{2003}text\u{2028}",
    ]
}

fn patterns() -> Vec<&'static str> {
    vec!["\n", "\r\n", "\"", ":", ".", "aa", "@@kw@@", "kw", "name:", " "]
}

#[test]
fn chars_and_strings_round_trip() {
    for s in samples() {
        let chars = chars_of(s);
        assert_eq!(chars, s.chars().collect::<Vec<char>>());
        assert_eq!(string_of(&chars), s);
    }
}

#[test]
fn string_of_keeps_every_character() {
    assert_eq!(string_of(&vec!['a', 'ß', '\u{1F69A}', '\n']), "aß\u{1F69A}\n");
    assert_eq!(string_of(&Vec::new()), "");
}

#[test]
fn strings_of_keeps_order() {
    let parts = vec![chars_of("one"), chars_of(""), chars_of("three")];
    assert_eq!(strings_of(&parts), vec!["one", "", "three"]);
}

#[test]
fn whitespace_is_the_unicode_property() {
    let mut code: u32 = 0;
    while code <= 0x10FFFF {
        if let Some(c) = char::from_u32(code) {
            assert_eq!(char_is_space(c), c.is_whitespace(), "U+{:04X}", code);
        }
        code += 1;
    }
}

#[test]
fn contains_agrees_with_std() {
    for s in samples() {
        for p in patterns() {
            assert_eq!(contains_chars(&chars_of(s), &chars_of(p)), s.contains(p), "{:?} {:?}", s, p);
        }
    }
}

#[test]
fn matches_at_checks_bounds_and_content() {
    let s = chars_of("abcabc");
    assert!(matches_at(&s, &chars_of("abc"), 0));
    assert!(matches_at(&s, &chars_of("abc"), 3));
    assert!(!matches_at(&s, &chars_of("abc"), 1));
    assert!(!matches_at(&s, &chars_of("abc"), 4));
    assert!(!matches_at(&s, &chars_of("abc"), 100));
    assert!(matches_at(&s, &chars_of(""), 6));
    assert!(!matches_at(&s, &chars_of(""), 7));
}

#[test]
fn find_gives_the_leftmost_match() {
    let s = chars_of("xxabxxab");
    let p = chars_of("ab");
    assert_eq!(find_in(&s, &p, 0), Some(2));
    assert_eq!(find_in(&s, &p, 2), Some(2));
    assert_eq!(find_in(&s, &p, 3), Some(6));
    assert_eq!(find_in(&s, &p, 7), None);
    assert_eq!(find_in(&s, &p, 50), None);
    assert_eq!(find_in(&chars_of("a"), &p, 0), None);
}

#[test]
fn split_agrees_with_std() {
    for s in samples() {
        for p in patterns() {
            let ours = strings_of(&split_chars(&chars_of(s), &chars_of(p)));
            let theirs: Vec<String> = s.split(p).map(|x| x.to_string()).collect();
            assert_eq!(ours, theirs, "{:?} {:?}", s, p);
        }
    }
}

#[test]
fn split_does_not_overlap_matches() {
    let parts = strings_of(&split_chars(&chars_of("aaa"), &chars_of("aa")));
    assert_eq!(parts, vec!["", "a"]);
}

#[test]
fn join_puts_the_separator_between_pieces() {
    let parts = vec![chars_of("a"), chars_of(""), chars_of("c")];
    assert_eq!(string_of(&join_chars(&parts, &chars_of(", "))), "a, , c");
    assert_eq!(string_of(&join_chars(&vec![chars_of("only")], &chars_of(", "))), "only");
    assert_eq!(string_of(&join_chars(&Vec::new(), &chars_of(", "))), "");
}

#[test]
fn split_then_join_gives_the_text_back() {
    for s in samples() {
        for p in patterns() {
            let pat = chars_of(p);
            let parts = split_chars(&chars_of(s), &pat);
            assert_eq!(string_of(&join_chars(&parts, &pat)), s);
        }
    }
}

#[test]
fn replace_agrees_with_std() {
    for s in samples() {
        for p in patterns() {
            let ours = string_of(&replace_chars(&chars_of(s), &chars_of(p), &chars_of("kw")));
            assert_eq!(ours, s.replace(p, "kw"), "{:?} {:?}", s, p);
        }
    }
}

#[test]
fn trim_agrees_with_std() {
    for s in samples() {
        assert_eq!(string_of(&trim_chars(&chars_of(s))), s.trim(), "{:?}", s);
    }
    assert_eq!(string_of(&trim_chars(&chars_of(" \t\u{3000} "))), "");
}

#[test]
fn words_agree_with_std() {
    for s in samples() {
        let ours = strings_of(&words_chars(&chars_of(s)));
        let theirs: Vec<String> = s.split_whitespace().map(|x| x.to_string()).collect();
        assert_eq!(ours, theirs, "{:?}", s);
    }
}

#[test]
fn decimal_numerals() {
    assert_eq!(decimal_string(0), "0");
    assert_eq!(decimal_string(7), "7");
    assert_eq!(decimal_string(10), "10");
    assert_eq!(decimal_string(12), "12");
    assert_eq!(decimal_string(255), "255");
    assert_eq!(decimal_string(256), "256");
    assert_eq!(decimal_string(1090), "1090");
    assert_eq!(decimal_string(usize::MAX), usize::MAX.to_string());
}

#[test]
fn empty_delimiter_divides_nothing() {
    let parts = strings_of(&split_chars(&chars_of("abc"), &Vec::new()));
    assert_eq!(parts, vec!["abc"]);
    assert_eq!(string_of(&replace_chars(&chars_of("abc"), &Vec::new(), &chars_of("x"))), "abc");
    assert!(contains_chars(&chars_of("abc"), &Vec::new()));
    assert_eq!(find_in(&chars_of("abc"), &Vec::new(), 3), Some(3));
    assert_eq!(find_in(&chars_of("abc"), &Vec::new(), 4), None);
}

fn generated(count: usize, longest: usize) -> Vec<String> {
    let alphabet: Vec<char> = "a:\"\".. \t\r\n\n@@kw\u{00A0}é".chars().collect();
    let mut state: u64 = 0x2545_F491_4F6C_DD1D;
    let mut texts = Vec::new();
    for _ in 0..count {
        state = state.wrapping_mul(6364136223846793005).wrapping_add(1442695040888963407);
        let length = ((state >> 33) as usize) % (longest + 1);
        let mut text = String::new();
        for _ in 0..length {
            state = state.wrapping_mul(6364136223846793005).wrapping_add(1442695040888963407);
            text.push(alphabet[((state >> 33) as usize) % alphabet.len()]);
        }
        texts.push(text);
    }
    texts
}

#[test]
fn generated_texts_agree_with_std() {
    for s in generated(1500, 12) {
        let chars = chars_of(&s);
        assert_eq!(string_of(&trim_chars(&chars)), s.trim(), "{:?}", s);
        let words: Vec<String> = s.split_whitespace().map(|x| x.to_string()).collect();
        assert_eq!(strings_of(&words_chars(&chars)), words, "{:?}", s);
        for p in ["\n", "\r\n", "\"", ":", ".", "@@", "@@kw@@", "aa", "  "] {
            let pat = chars_of(p);
            assert_eq!(contains_chars(&chars, &pat), s.contains(p), "{:?} {:?}", s, p);
            let pieces: Vec<String> = s.split(p).map(|x| x.to_string()).collect();
            assert_eq!(strings_of(&split_chars(&chars, &pat)), pieces, "{:?} {:?}", s, p);
            let replaced = string_of(&replace_chars(&chars, &pat, &chars_of("kw")));
            assert_eq!(replaced, s.replace(p, "kw"), "{:?} {:?}", s, p);
            let found = s.find(p).map(|at| s[..at].chars().count());
            assert_eq!(find_in(&chars, &pat, 0), found, "{:?} {:?}", s, p);
        }
    }
}
