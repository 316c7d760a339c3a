use akashi::json::{put, Json, Member};

fn sample() -> Json {
    let mut inner: Vec<Member> = Vec::new();
    put(&mut inner, "blockhash", Json::text("abc"));
    put(&mut inner, "n", Json::Integer(-3));
    let mut outer: Vec<Member> = Vec::new();
    put(&mut outer, "value", Json::object(inner));
    put(&mut outer, "list", Json::array(vec![Json::Null, Json::Bool(true)]));
    put(&mut outer, "fraction", Json::Decimal("1.5".to_string()));
    Json::object(outer)
}

#[test]
fn members_are_found_by_name() {
    let value = sample();
    let hash = value.get("value").and_then(|v| v.get("blockhash"));
    assert_eq!(hash.and_then(|h| h.as_str()), Some("abc"));
    assert!(value.get("missing").is_none());
    assert!(value.get("list").and_then(|l| l.get("0")).is_none());
    assert!(Json::text("x").get("x").is_none());
}

#[test]
fn first_member_of_a_name_counts() {
    let mut members: Vec<Member> = Vec::new();
    put(&mut members, "a", Json::Integer(1));
    put(&mut members, "a", Json::Integer(2));
    let value = Json::object(members);
    assert!(matches!(value.get("a"), Some(Json::Integer(1))));
}

#[test]
fn only_texts_are_texts() {
    assert_eq!(Json::text("t").as_str(), Some("t"));
    for other in [Json::Null, Json::Bool(true), Json::Integer(1), Json::Decimal("1.5".to_string())] {
        assert_eq!(other.as_str(), None);
    }
}

#[test]
fn optional_values_are_null_when_absent() {
    assert!(matches!(Json::optional_text(&None), Json::Null));
    assert_eq!(Json::optional_text(&Some("t".to_string())).as_str(), Some("t"));
    assert!(matches!(Json::optional(None), Json::Null));
    assert!(matches!(Json::optional(Some(&Json::Integer(4))), Json::Integer(4)));
}

#[test]
fn copies_are_equal() {
    let value = sample();
    assert_eq!(format!("{:?}", value.clone()), format!("{:?}", value));
}
