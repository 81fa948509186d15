use ggway::jsonval::{parse, JsonVal};
use ggway::render::{entries_of, get_field, render_lines, text_of};

#[test]
fn render_skips_null_elements() {
    let body = "[null,{\"title\":\"Game\",\"worth\":\"$9.99\",\"gamerpower_url\":\"https://x\"}]";
    let v = parse(body).unwrap();
    let lines = render_lines(&v);
    assert_eq!(lines.len(), 1);
    assert_eq!(lines[0], "Game, $9.99, https://x");
}

#[test]
fn render_one_line_per_element() {
    let body = "[{\"title\":\"A\",\"worth\":\"$1\",\"gamerpower_url\":\"u1\"},\
                {\"title\":\"B\",\"worth\":\"$2\",\"gamerpower_url\":\"u2\"}]";
    let v = parse(body).unwrap();
    let lines = render_lines(&v);
    assert_eq!(lines, vec!["A, $1, u1".to_owned(), "B, $2, u2".to_owned()]);
}

#[test]
fn render_single_object_response() {
    let body = "{\"title\":\"Solo\",\"worth\":\"$0\",\"gamerpower_url\":\"u\"}";
    let v = parse(body).unwrap();
    let lines = render_lines(&v);
    assert_eq!(lines, vec!["Solo, $0, u".to_owned()]);
}

#[test]
fn missing_field_renders_as_null() {
    let body = "[{\"title\":\"OnlyTitle\"}]";
    let v = parse(body).unwrap();
    let lines = render_lines(&v);
    assert_eq!(lines, vec!["OnlyTitle, null, null".to_owned()]);
}

#[test]
fn non_object_element_renders_placeholders() {
    let body = "[7]";
    let v = parse(body).unwrap();
    let lines = render_lines(&v);
    assert_eq!(lines, vec!["null, null, null".to_owned()]);
}

#[test]
fn duplicate_key_last_wins() {
    let body = "{\"title\":\"old\",\"title\":\"new\"}";
    let v = parse(body).unwrap();
    assert_eq!(get_field(&v, "title"), "new");
}

#[test]
fn invalid_body_is_rejected() {
    assert!(parse("not json").is_err());
    assert!(parse("").is_err());
    assert!(parse("{\"a\":}").is_err());
    assert!(parse("[1,]").is_err());
    assert!(parse("[1 2]").is_err());
    assert!(parse("\"unterminated").is_err());
    assert!(parse("01").is_err());
    assert!(parse("{\"a\":1} trailing").is_err());
    let e = parse("nope").unwrap_err();
    assert_eq!(e.message(), "invalid JSON");
}

#[test]
fn scalars_and_whitespace() {
    assert!(matches!(parse(" null ").unwrap(), JsonVal::Null));
    assert!(matches!(parse("true").unwrap(), JsonVal::Bool(true)));
    assert!(matches!(parse("false").unwrap(), JsonVal::Bool(false)));
    match parse(" -12.5e+3 ").unwrap() {
        JsonVal::Num(t) => assert_eq!(t, "-12.5e+3"),
        _ => panic!("expected a number"),
    }
}

#[test]
fn string_escapes_are_decoded() {
    match parse("\"a\\n\\\"b\\\\c\\u0041\"").unwrap() {
        JsonVal::Str(t) => assert_eq!(t, "a\n\"b\\cA"),
        _ => panic!("expected a string"),
    }
    match parse("\"\\uD834\\uDD1E\"").unwrap() {
        JsonVal::Str(t) => assert_eq!(t, "\u{1D11E}"),
        _ => panic!("expected a string"),
    }
    assert!(parse("\"\\uD834\"").is_err());
    assert!(parse("\"\\x\"").is_err());
    assert!(parse("\"a\nb\"").is_err());
}

#[test]
fn nested_values_are_dumped_on_lines() {
    let body = "[{\"title\":{\"a\":[1,true,\"q\\\"t\"]},\"worth\":3.5,\"gamerpower_url\":null}]";
    let v = parse(body).unwrap();
    let lines = render_lines(&v);
    assert_eq!(lines, vec!["{\"a\":[1,true,\"q\\\"t\"]}, 3.5, null".to_owned()]);
}

#[test]
fn stringify_shows_strings_bare() {
    let v = parse("\"plain text\"").unwrap();
    assert_eq!(text_of(&v), "plain text");
    let n = parse("42").unwrap();
    assert_eq!(text_of(&n), "42");
}

#[test]
fn entries_expose_fields() {
    let body = "[{\"title\":\"T\",\"worth\":\"W\",\"gamerpower_url\":\"U\"}]";
    let v = parse(body).unwrap();
    let es = entries_of(&v);
    assert_eq!(es.len(), 1);
    assert_eq!(es[0].title, "T");
    assert_eq!(es[0].worth, "W");
    assert_eq!(es[0].url, "U");
    assert_eq!(es[0].format_line(), "T, W, U");
}

#[test]
fn acceptance_agrees_with_json_crate() {
    let cases = [
        "[null,{\"title\":\"Game\",\"worth\":\"$9.99\",\"gamerpower_url\":\"https://x\"}]",
        "{\"a\":[1,2,3],\"b\":{\"c\":null}}",
        "-0.5e-2",
        "\"esc \\u00e9 \\t\"",
        "not json",
        "[1,]",
        "{\"a\":}",
        "",
        "  [ ]  ",
        "{ }",
        "[[[[[]]]]]",
        "{\"k\":{\"k\":{}}}",
        "1e",
        "--1",
        "1.",
        ".5",
        "+1",
        "tru",
        "nullx",
        "1e+5",
        "-0",
    ];
    for case in cases {
        let ours = parse(case).is_ok();
        let theirs = json::parse(case).is_ok();
        assert_eq!(ours, theirs, "disagreement on {:?}", case);
    }
}
