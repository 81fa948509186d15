use ggway::Query;

fn s(x: &str) -> String {
    x.to_owned()
}

#[test]
fn id_query() {
    let query = Query {
        id: Some(s("525")),
        platform: None,
        giveaway_type: None,
        sort_by: None,
    };
    let parameterized_url = query.to_parameterized_url();
    assert_eq!(parameterized_url, "https://gamerpower.com/api/giveaway?id=525");
}

#[test]
fn list_query() {
    let query = Query {
        id: None,
        platform: Some(s("steam")),
        giveaway_type: Some(s("loot")),
        sort_by: Some(s("value")),
    };
    let parameterized_url = query.to_parameterized_url();
    assert_eq!(
        parameterized_url,
        "https://gamerpower.com/api/giveaways?platform=steam&type=loot&sort-by=value"
    );
}

#[test]
fn query_string_of_empty_filter_set() {
    let query = Query::empty();
    assert_eq!(query.to_query_string(), "?");
}

#[test]
fn query_string_order_and_separators() {
    let query = Query {
        id: None,
        platform: Some(s("steam")),
        giveaway_type: Some(s("loot")),
        sort_by: Some(s("value")),
    };
    assert_eq!(query.to_query_string(), "?platform=steam&type=loot&sort-by=value");
}

#[test]
fn query_string_id_only() {
    let query = Query {
        id: Some(s("525")),
        platform: None,
        giveaway_type: None,
        sort_by: None,
    };
    assert_eq!(query.to_query_string(), "?id=525");
}

#[test]
fn new_extracts_filters() {
    let args = vec![s("target/debug/ggway"), s("id=525")];
    let query = Query::new(&args);
    assert_eq!(query.id, Some(s("525")));
    assert_eq!(query.platform, None);
    assert_eq!(query.giveaway_type, None);
    assert_eq!(query.sort_by, None);
    assert!(query.is_id_query());
}

#[test]
fn new_matches_case_insensitively_keeps_value_case() {
    let args = vec![s("PLATFORM=Steam")];
    let query = Query::new(&args);
    assert_eq!(query.platform, Some(s("Steam")));
    assert_eq!(query.id, None);
}

#[test]
fn new_last_token_wins() {
    let args = vec![s("id=1"), s("id=2")];
    let query = Query::new(&args);
    assert_eq!(query.id, Some(s("2")));
}

#[test]
fn new_ignores_unrecognized_tokens() {
    let args = vec![s("whatever"), s("--flag"), s("")];
    let query = Query::new(&args);
    assert_eq!(query.id, None);
    assert_eq!(query.platform, None);
    assert_eq!(query.giveaway_type, None);
    assert_eq!(query.sort_by, None);
    assert!(!query.is_id_query());
    assert_eq!(query.to_query_string(), "?");
}

#[test]
fn new_is_idempotent_on_same_tokens() {
    let args = vec![s("id=9"), s("type=loot"), s("junk")];
    let a = Query::new(&args);
    let b = Query::new(&args);
    assert_eq!(a.id, b.id);
    assert_eq!(a.platform, b.platform);
    assert_eq!(a.giveaway_type, b.giveaway_type);
    assert_eq!(a.sort_by, b.sort_by);
}

#[test]
fn new_matches_key_anywhere_in_token() {
    let args = vec![s("--id=7")];
    let query = Query::new(&args);
    assert_eq!(query.id, Some(s("d=7")));
}

#[test]
fn new_accepts_empty_value() {
    let args = vec![s("id=")];
    let query = Query::new(&args);
    assert_eq!(query.id, Some(s("")));
    assert_eq!(query.to_query_string(), "?id=");
}

#[test]
fn new_checks_keys_in_priority_order() {
    let args = vec![s("platform=id=5")];
    let query = Query::new(&args);
    assert_eq!(query.id, Some(s("tform=id=5")));
    assert_eq!(query.platform, None);
}

#[test]
fn new_counts_characters_not_bytes() {
    let args = vec![s("\u{65e5}id=x")];
    let query = Query::new(&args);
    assert_eq!(query.id, Some(s("=x")));
}

#[test]
fn url_pluralizes_unless_id_alone() {
    let by_id = Query {
        id: Some(s("3")),
        platform: None,
        giveaway_type: None,
        sort_by: None,
    };
    assert!(by_id.to_parameterized_url().starts_with("https://gamerpower.com/api/giveaway?"));
    let mixed = Query {
        id: Some(s("3")),
        platform: Some(s("pc")),
        giveaway_type: None,
        sort_by: None,
    };
    assert_eq!(
        mixed.to_parameterized_url(),
        "https://gamerpower.com/api/giveaways?id=3&platform=pc"
    );
}
