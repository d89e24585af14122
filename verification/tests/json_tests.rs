use gravai::json::{deep_merge, Json};

fn num(n: &str) -> Json {
    Json::Number(n.to_string())
}

fn obj(entries: Vec<(&str, Json)>) -> Json {
    Json::Object(entries.into_iter().map(|(k, v)| (k.to_string(), v)).collect())
}

fn number_at<'a>(j: &'a Json, path: &[&str]) -> Option<&'a str> {
    let mut cur = j;
    for k in path {
        cur = cur.get(k)?;
    }
    match cur {
        Json::Number(n) => Some(n.as_str()),
        _ => None,
    }
}

#[test]
fn deep_merge_works() {
    let base = obj(vec![("a", num("1")), ("b", obj(vec![("c", num("2")), ("d", num("3"))]))]);
    let patch = obj(vec![("b", obj(vec![("c", num("99"))])), ("e", num("5"))]);
    let merged = deep_merge(&base, &patch);
    assert_eq!(number_at(&merged, &["a"]), Some("1"));
    assert_eq!(number_at(&merged, &["b", "c"]), Some("99"));
    assert_eq!(number_at(&merged, &["b", "d"]), Some("3"));
    assert_eq!(number_at(&merged, &["e"]), Some("5"));
}

#[test]
fn non_object_patch_replaces_base() {
    let base = obj(vec![("a", num("1"))]);
    let merged = deep_merge(&base, &Json::Array(vec![Json::Bool(true)]));
    assert!(matches!(&merged, Json::Array(items) if items.len() == 1));
    let merged = deep_merge(&num("3"), &obj(vec![("x", Json::Null)]));
    assert!(matches!(merged.get("x"), Some(Json::Null)));
}
