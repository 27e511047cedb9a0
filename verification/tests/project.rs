use agcli::json::{Json, compact, select};

fn obj(entries: Vec<(&str, Json)>) -> Json {
    Json::from_entries(entries.into_iter().map(|(k, v)| (k.to_string(), v)).collect())
}

fn num(n: u64) -> Json {
    Json::from_u64(n)
}

fn text(s: &str) -> Json {
    Json::from_str(s)
}

#[test]
fn select_keeps_only_named_top_level_keys() {
    let value = obj(vec![("id", num(1)), ("name", text("x")), ("body", text("long…"))]);
    let out = select(&value, &["id", "name"]);
    assert_eq!(out, obj(vec![("id", num(1)), ("name", text("x"))]));
}

#[test]
fn select_missing_key_is_noop() {
    let value = obj(vec![("id", num(1))]);
    let out = select(&value, &["id", "missing"]);
    assert_eq!(out, obj(vec![("id", num(1))]));
}

#[test]
fn select_dot_path_preserves_nesting() {
    let value = obj(vec![
        ("a", obj(vec![("b", num(2)), ("c", num(3))])),
        ("d", num(4)),
    ]);
    let out = select(&value, &["a.b"]);
    assert_eq!(out, obj(vec![("a", obj(vec![("b", num(2))]))]));
}

#[test]
fn select_maps_over_array_elements() {
    let value = Json::Array(vec![
        obj(vec![("id", num(1)), ("name", text("a")), ("extra", Json::Bool(true))]),
        obj(vec![("id", num(2)), ("name", text("b")), ("extra", Json::Bool(false))]),
    ]);
    let out = select(&value, &["id", "name"]);
    assert_eq!(
        out,
        Json::Array(vec![
            obj(vec![("id", num(1)), ("name", text("a"))]),
            obj(vec![("id", num(2)), ("name", text("b"))]),
        ])
    );
}

#[test]
fn select_on_scalar_returns_unchanged() {
    assert_eq!(select(&num(42), &["id"]), num(42));
}

#[test]
fn select_dot_path_descends_into_array_elementwise() {
    let value = obj(vec![
        ("healthy", Json::Bool(false)),
        (
            "checks",
            Json::Array(vec![
                obj(vec![
                    ("name", text("auth")),
                    ("ok", Json::Bool(false)),
                    ("fix", text("Set API_TOKEN")),
                ]),
                obj(vec![("name", text("ping")), ("ok", Json::Bool(true))]),
            ]),
        ),
    ]);
    let out = select(&value, &["checks.fix"]);
    assert_eq!(
        out,
        obj(vec![(
            "checks",
            Json::Array(vec![obj(vec![("fix", text("Set API_TOKEN"))]), obj(vec![])])
        )])
    );
}

#[test]
fn select_multiple_dot_paths_into_same_array_merge() {
    let value = obj(vec![(
        "checks",
        Json::Array(vec![obj(vec![
            ("name", text("auth")),
            ("ok", Json::Bool(false)),
            ("fix", text("Set API_TOKEN")),
        ])]),
    )]);
    let out = select(&value, &["checks.name", "checks.fix"]);
    assert_eq!(
        out,
        obj(vec![(
            "checks",
            Json::Array(vec![obj(vec![("name", text("auth")), ("fix", text("Set API_TOKEN"))])])
        )])
    );
}

#[test]
fn compact_drops_null_and_empty_containers() {
    let value = obj(vec![
        ("id", num(1)),
        ("note", Json::Null),
        ("tags", Json::Array(vec![])),
        ("meta", obj(vec![])),
        ("kept_false", Json::Bool(false)),
        ("kept_zero", num(0)),
        ("kept_empty_str", text("")),
    ]);
    let out = compact(&value);
    assert_eq!(
        out,
        obj(vec![
            ("id", num(1)),
            ("kept_false", Json::Bool(false)),
            ("kept_zero", num(0)),
            ("kept_empty_str", text("")),
        ])
    );
}

#[test]
fn compact_recurses_and_drops_emptied_objects() {
    let value = obj(vec![("outer", obj(vec![("inner", Json::Null)]))]);
    let out = compact(&value);
    assert_eq!(out, obj(vec![]));
}

#[test]
fn compact_keeps_array_positions() {
    let value = obj(vec![(
        "xs",
        Json::Array(vec![
            obj(vec![("a", Json::Null), ("b", num(1))]),
            obj(vec![("a", num(2))]),
        ]),
    )]);
    let out = compact(&value);
    assert_eq!(
        out,
        obj(vec![(
            "xs",
            Json::Array(vec![obj(vec![("b", num(1))]), obj(vec![("a", num(2))])])
        )])
    );
}

#[test]
fn objects_are_ordered_by_key_and_later_keys_win() {
    let value = obj(vec![("b", num(1)), ("a", num(2)), ("b", num(3))]);
    match &value {
        Json::Object(entries) => {
            let keys: Vec<&str> = entries.iter().map(|(k, _)| k.as_str()).collect();
            assert_eq!(keys, vec!["a", "b"]);
        }
        _ => panic!("expected an object"),
    }
    assert_eq!(value.get("b"), Some(&num(3)));
    assert_eq!(value.get("zz"), None);
}

#[test]
fn integers_render_as_decimal_text() {
    assert_eq!(Json::from_u64(1_767_225_600), Json::Number("1767225600".to_string()));
    assert_eq!(Json::from_i64(-7), Json::Number("-7".to_string()));
    assert_eq!(Json::from_i64(i64::MIN), Json::Number("-9223372036854775808".to_string()));
}
