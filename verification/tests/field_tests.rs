use truck_catalog::fields::{
    get_brand, get_engine_cv, get_model, get_normal_value, get_object_name,
};
use truck_catalog::lines::{file_split_space, split_lines};

fn text(s: &str) -> String {
    s.to_string()
}

fn some(s: &str) -> Option<String> {
    Some(s.to_string())
}

#[test]
fn crlf_text_is_split_on_the_pair_only() {
    let lines = split_lines(&text("a\r\nb\nc\r\nd"));
    assert_eq!(lines, Some(vec![text("a"), text("b\nc"), text("d")]));
}

#[test]
fn crlf_text_keeps_a_trailing_empty_line() {
    let lines = split_lines(&text("one\r\ntwo\r\n"));
    assert_eq!(lines, Some(vec![text("one"), text("two"), text("")]));
}

#[test]
fn lf_text_is_split_on_line_feeds() {
    let lines = split_lines(&text("one\ntwo\n\nfour"));
    assert_eq!(lines, Some(vec![text("one"), text("two"), text(""), text("four")]));
}

#[test]
fn lone_carriage_returns_stay_in_lf_lines() {
    let lines = split_lines(&text("one\rstill one\ntwo"));
    assert_eq!(lines, Some(vec![text("one\rstill one"), text("two")]));
}

#[test]
fn text_without_terminator_has_no_lines() {
    assert_eq!(split_lines(&text("name: \"Foo\"")), None);
    assert_eq!(split_lines(&text("")), None);
    assert_eq!(split_lines(&text("only\rcarriage returns\r")), None);
}

#[test]
fn object_name_is_the_text_between_the_first_two_quotes() {
    assert_eq!(get_object_name(&text("name: \"Foo\"")), some("Foo"));
    assert_eq!(get_object_name(&text("\tname: \"DC13 380\" # \"other\"")), some("DC13 380"));
    assert_eq!(get_object_name(&text("name: \"\"")), some(""));
}

#[test]
fn object_name_needs_two_quotes() {
    assert_eq!(get_object_name(&text("name: Foo")), None);
    assert_eq!(get_object_name(&text("name: \"Foo")), None);
    assert_eq!(get_object_name(&text("")), None);
}

#[test]
fn object_name_writes_kilowatt_markers_plainly() {
    assert_eq!(
        get_object_name(&text("name: \"380 hp (279@@kw@@)\"")),
        some("380 hp (279kw)")
    );
    assert_eq!(
        get_object_name(&text("name: \"@@kw@@ and @@kw@@\"")),
        some("kw and kw")
    );
}

#[test]
fn kilowatt_substitution_applied_twice_is_as_once() {
    let once = get_object_name(&text("name: \"380 hp (279@@kw@@)\"")).unwrap();
    let again = get_object_name(&format!("name: \"{}\"", once)).unwrap();
    assert_eq!(again, once);
}

#[test]
fn kilowatt_substitution_can_leave_a_marker_behind() {
    let once = get_object_name(&text("name: \"@@@@kw@@@@\"")).unwrap();
    assert_eq!(once, "@@kw@@");
    let again = get_object_name(&format!("name: \"{}\"", once)).unwrap();
    assert_eq!(again, "kw");
}

#[test]
fn rated_power_is_the_first_of_at_least_two_words() {
    assert_eq!(get_engine_cv(&text("info[]: \"380 480\"")), some("380"));
    assert_eq!(get_engine_cv(&text("info[]: \"  730 @@hp@@ (537@@kw@@)\"")), some("730"));
    assert_eq!(get_engine_cv(&text("info[]: \"380\u{00A0}hp\"")), some("380"));
}

#[test]
fn rated_power_needs_quotes_and_two_words() {
    assert_eq!(get_engine_cv(&text("info[]: \"380\"")), None);
    assert_eq!(get_engine_cv(&text("info[]: \"   \"")), None);
    assert_eq!(get_engine_cv(&text("info[]: 380 480")), None);
    assert_eq!(get_engine_cv(&text("info[]: \"380 480")), None);
}

#[test]
fn colon_value_is_trimmed() {
    assert_eq!(get_normal_value(&text("torque: 2500")), some("2500"));
    assert_eq!(get_normal_value(&text("\trpm_limit :\t 2300 \r")), some("2300"));
    assert_eq!(get_normal_value(&text("ratios_forward[0]: 3.40")), some("3.40"));
    assert_eq!(get_normal_value(&text("torque:")), some(""));
}

#[test]
fn colon_value_is_all_that_follows_the_first_colon() {
    assert_eq!(get_normal_value(&text("a: b: c")), some("b: c"));
    assert_eq!(get_normal_value(&text("a: b : c ")), some("b : c"));
    assert_eq!(get_normal_value(&text("::x")), some(":x"));
    assert_eq!(get_normal_value(&text("code: \"/def/a:b\"")), some("\"/def/a:b\""));
}

#[test]
fn colon_value_needs_a_colon() {
    assert_eq!(get_normal_value(&text("torque 2500")), None);
    assert_eq!(get_normal_value(&text("")), None);
}

#[test]
fn folder_name_gives_brand_and_model() {
    assert_eq!(get_brand(&text("scania.streamline")), some("scania"));
    assert_eq!(get_model(&text("scania.streamline")), some("streamline"));
}

#[test]
fn folder_name_without_dot_is_rejected() {
    assert_eq!(get_brand(&text("scania")), None);
    assert_eq!(get_model(&text("scania")), None);
    assert_eq!(get_brand(&text("")), None);
    assert_eq!(get_model(&text("")), None);
}

#[test]
fn folder_name_with_more_dots_uses_the_first_two_pieces() {
    assert_eq!(get_brand(&text("volvo.fh16.2012")), some("volvo"));
    assert_eq!(get_model(&text("volvo.fh16.2012")), some("fh16"));
    assert_eq!(get_brand(&text(".hidden")), some(""));
    assert_eq!(get_model(&text("brand.")), some(""));
}

#[test]
fn unreadable_file_has_no_lines() {
    assert_eq!(file_split_space(&None), None);
    assert_eq!(file_split_space(&some("no terminator")), None);
    assert_eq!(file_split_space(&some("a\r\nb")), Some(vec![text("a"), text("b")]));
    assert_eq!(file_split_space(&some("a\nb")), Some(vec![text("a"), text("b")]));
}

fn lines_for_comparison() -> Vec<&'static str> {
    vec![
        "",
        "torque: 2500",
        "  torque :  2500 Nm  ",
        "a:b:c",
        ":",
        "::",
        "no colon",
        "name: \"Foo\"",
        "key:\u{00A0}value\u{3000}",
        "scania.streamline",
        "a.b.c",
        ".",
        "..",
        "nodot",
    ]
}

#[test]
fn colon_value_is_the_trimmed_rest_of_the_line() {
    for line in lines_for_comparison() {
        let expected = line.split_once(':').map(|(_, rest)| rest.trim().to_string());
        assert_eq!(get_normal_value(&text(line)), expected, "{:?}", line);
    }
}

#[test]
fn brand_and_model_are_the_first_two_dotted_pieces() {
    for name in lines_for_comparison() {
        let pieces: Vec<&str> = name.split('.').collect();
        let (brand, model) = if pieces.len() > 1 {
            (Some(pieces[0].to_string()), Some(pieces[1].to_string()))
        } else {
            (None, None)
        };
        assert_eq!(get_brand(&text(name)), brand, "{:?}", name);
        assert_eq!(get_model(&text(name)), model, "{:?}", name);
    }
}

fn generated_lines(count: usize, longest: usize) -> Vec<String> {
    let alphabet: Vec<char> = "ab:\"\".. \t@@kw@@3 8".chars().collect();
    let mut state: u64 = 0x9E37_79B9_7F4A_7C15;
    let mut texts = Vec::new();
    for _ in 0..count {
        state = state.wrapping_mul(6364136223846793005).wrapping_add(1442695040888963407);
        let length = ((state >> 33) as usize) % (longest + 1);
        let mut line = String::new();
        for _ in 0..length {
            state = state.wrapping_mul(6364136223846793005).wrapping_add(1442695040888963407);
            line.push(alphabet[((state >> 33) as usize) % alphabet.len()]);
        }
        texts.push(line);
    }
    texts
}

#[test]
fn generated_lines_give_the_expected_fields() {
    for line in generated_lines(3000, 14) {
        let by_quote: Vec<&str> = line.split('"').collect();
        let quoted = if by_quote.len() >= 3 { Some(by_quote[1]) } else { None };
        let name = quoted.map(|q| q.replace("@@kw@@", "kw"));
        assert_eq!(get_object_name(&line), name, "{:?}", line);
        let power = quoted.and_then(|q| {
            let words: Vec<&str> = q.split_whitespace().collect();
            if words.len() >= 2 {
                Some(words[0].to_string())
            } else {
                None
            }
        });
        assert_eq!(get_engine_cv(&line), power, "{:?}", line);
        let value = line.split_once(':').map(|(_, rest)| rest.trim().to_string());
        assert_eq!(get_normal_value(&line), value, "{:?}", line);
        let by_dot: Vec<&str> = line.split('.').collect();
        let brand = if by_dot.len() >= 2 { Some(by_dot[0].to_string()) } else { None };
        let model = if by_dot.len() >= 2 { Some(by_dot[1].to_string()) } else { None };
        assert_eq!(get_brand(&line), brand, "{:?}", line);
        assert_eq!(get_model(&line), model, "{:?}", line);
    }
}
