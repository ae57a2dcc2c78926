use std::borrow::Cow;

use jsonc_to_json::{
    jsonc_to_json, jsonc_to_json_into, jsonc_to_json_iter, JsonCToJsonIter, Token, TokenKind,
};

fn check(jsonc: &str, json: Cow<'_, str>) {
    let actual = jsonc_to_json(jsonc);
    assert_eq!(actual, json);
    assert_eq!(
        matches!(actual, Cow::Borrowed(_)),
        matches!(json, Cow::Borrowed(_))
    );
}

fn collect_iter(jsonc: &str) -> Vec<&str> {
    let mut iter = jsonc_to_json_iter(jsonc);
    let mut parts = Vec::new();
    while let Some(part) = iter.next() {
        parts.push(part);
    }
    parts
}

#[test]
fn test_empty() {
    check("", Cow::Borrowed(""));
}

#[test]
fn test_borrowed() {
    let jsonc = r#"{"arr": [1, 2, 3, 4]}"#;
    check(jsonc, Cow::Borrowed(jsonc));
}

#[test]
fn test_borrowed_ending_removed() {
    let jsonc = r#"{"arr": [1, 2, 3, 4]} // Line Comment"#;
    let json = r#"{"arr": [1, 2, 3, 4]} "#;
    check(jsonc, Cow::Borrowed(json));
}

#[test]
fn test_line_comment() {
    let jsonc = r#"// Comment
{
    //
    "arr": [1, 2,
    // Comment
    3, 4] // Comment
    //
}
// Comment"#;
    let json = "\n{\n    \n    \"arr\": [1, 2,\n    \n    3, 4] \n    \n}\n";
    check(jsonc, Cow::Owned(json.to_owned()));
}

#[test]
fn test_iter() {
    let jsonc = r#"{foo}/**/[1,2,3,,]"bar""#;
    let mut iter = jsonc_to_json_iter(jsonc);

    assert_eq!(iter.next(), Some("{foo}"));
    assert_eq!(iter.next(), Some("[1,2,3"));
    assert_eq!(iter.next(), Some("]\"bar\""));
    assert_eq!(iter.next(), None);
}

#[test]
fn iter_stays_exhausted() {
    let mut iter = jsonc_to_json_iter("[1,]");
    assert_eq!(iter.next(), Some("[1"));
    assert_eq!(iter.next(), Some("]"));
    assert_eq!(iter.next(), None);
    assert_eq!(iter.next(), None);
}

#[test]
fn comma_collapse() {
    check("[1,2,3,,]", Cow::Owned("[1,2,3]".to_owned()));
}

#[test]
fn line_comment_keeps_preceding_space() {
    check("{\"a\":1} // c", Cow::Borrowed("{\"a\":1} "));
}

#[test]
fn block_comment_splice() {
    assert_eq!(
        collect_iter("{foo}/**/[1,2,3,,]\"bar\""),
        vec!["{foo}", "[1,2,3", "]\"bar\""]
    );
}

#[test]
fn trailing_comma_at_end_of_input() {
    check("[1,2,", Cow::Borrowed("[1,2"));
}

#[test]
fn lone_comma() {
    check(",", Cow::Borrowed(""));
    check(" , ", Cow::Owned("  ".to_owned()));
}

#[test]
fn comma_runs_between_values() {
    check("[1,,2]", Cow::Owned("[1,2]".to_owned()));
    check("[1 , , 2]", Cow::Owned("[1  , 2]".to_owned()));
}

#[test]
fn trailing_comma_in_object() {
    check(
        "{\"a\": 1, /* x */ }",
        Cow::Owned("{\"a\": 1  }".to_owned()),
    );
}

#[test]
fn comma_before_opening_bracket_is_kept() {
    let jsonc = "[1,[2],{\"a\":[3,{}]}]";
    check(jsonc, Cow::Borrowed(jsonc));
}

#[test]
fn comma_before_unknown_is_kept() {
    check("{foo,/*comment*/bar,}", Cow::Owned("{foo,bar}".to_owned()));
    check("[1,x]", Cow::Borrowed("[1,x]"));
}

#[test]
fn comma_inside_string_untouched() {
    let jsonc = "[\",]\", \"a,,\"]";
    check(jsonc, Cow::Borrowed(jsonc));
}

#[test]
fn valid_json_is_borrowed() {
    for jsonc in [
        "{\"a\": [1, 2.5e3, -4], \"b\": {\"c\": null, \"d\": true, \"e\": false}}",
        "  [ ]  ",
        "\"just a string\"",
        "12",
    ] {
        check(jsonc, Cow::Borrowed(jsonc));
    }
}

#[test]
fn converting_twice_equals_once() {
    for jsonc in [
        "{\"arr\": [1, 2,/* Comment */ 3, 4,,]}// Line Comment",
        "[1,2,3,,]",
        "{foo}/**/[1,2,3,,]\"bar\"",
        "tr/**/ue, ,]",
        "[1,/**/,2,\n// c\n]",
    ] {
        let once = jsonc_to_json(jsonc).into_owned();
        let twice = jsonc_to_json(&once).into_owned();
        assert_eq!(once, twice);
    }
}

#[test]
fn owned_equals_joined_slices() {
    for jsonc in [
        "",
        "[1]",
        "{\"arr\": [1, 2,/* Comment */ 3, 4,,]}// Line Comment",
        "/* a */ 1 /* b */ 2 /* c */ 3",
    ] {
        assert_eq!(jsonc_to_json(jsonc), collect_iter(jsonc).concat());
    }
}

#[test]
fn several_slices_allocate() {
    let jsonc = "/* a */ 1 /* b */ 2";
    assert_eq!(collect_iter(jsonc), vec![" 1 ", " 2"]);
    check(jsonc, Cow::Owned(" 1  2".to_owned()));
}

#[test]
fn into_appends() {
    let jsonc = "{\"arr\": [1, 2,/* Comment */ 3, 4,,]}// Line Comment";
    let mut json = String::from("x");
    jsonc_to_json_into(jsonc, &mut json);
    assert_eq!(json, "x{\"arr\": [1, 2, 3, 4]}");
    jsonc_to_json_into("[1,]", &mut json);
    assert_eq!(json, "x{\"arr\": [1, 2, 3, 4]}[1]");
}

#[test]
fn non_ascii_text() {
    check(
        "{\"ключ\": \"значение\", /* комментарий */}",
        Cow::Owned("{\"ключ\": \"значение\" }".to_owned()),
    );
}

#[test]
fn slices_from_given_tokens() {
    let text = "[1,//c\n]";
    let tokens = vec![
        Token { kind: TokenKind::Delim, start: 0, end: 1 },
        Token { kind: TokenKind::Number, start: 1, end: 2 },
        Token { kind: TokenKind::Punct, start: 2, end: 3 },
        Token { kind: TokenKind::LineComment, start: 3, end: 6 },
        Token { kind: TokenKind::Space, start: 6, end: 7 },
        Token { kind: TokenKind::Delim, start: 7, end: 8 },
    ];
    let mut iter = JsonCToJsonIter::from_tokens(text, tokens);
    assert_eq!(iter.next(), Some("[1"));
    assert_eq!(iter.next(), Some("\n]"));
    assert_eq!(iter.next(), None);
}

#[test]
fn given_tokens_decide_not_the_text() {
    // The same bytes read as one unknown token: nothing is dropped.
    let text = "[1,]";
    let tokens = vec![Token { kind: TokenKind::Unknown, start: 0, end: 4 }];
    let mut iter = JsonCToJsonIter::from_tokens(text, tokens);
    assert_eq!(iter.next(), Some("[1,]"));
    assert_eq!(iter.next(), None);
}
