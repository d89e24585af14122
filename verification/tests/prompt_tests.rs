use gravai::json::{to_json_text, Json};
use gravai::prompts::{finish_prompt, render_prompt, TemplateStage};

fn object(entries: Vec<(&str, Json)>) -> Json {
    Json::Object(entries.into_iter().map(|(k, v)| (k.to_string(), v)).collect())
}

#[test]
fn render_simple_template() {
    let tmpl = "Hello {{ name }}!";
    let ctx = object(vec![("name", Json::Str("World".to_string()))]);
    let result = render_prompt(tmpl, &ctx).unwrap();
    assert_eq!(result, "Hello World!");
}

#[test]
fn render_loop_template() {
    let tmpl = "{% for item in items %}{{ item }} {% endfor %}";
    let ctx = object(vec![(
        "items",
        Json::Array(vec![
            Json::Str("a".to_string()),
            Json::Str("b".to_string()),
            Json::Str("c".to_string()),
        ]),
    )]);
    let result = render_prompt(tmpl, &ctx).unwrap();
    assert_eq!(result, "a b c");
}

#[test]
fn rendering_is_trimmed_and_sees_every_kind_of_value() {
    let ctx = object(vec![
        ("n", Json::Number("42".to_string())),
        ("flag", Json::Bool(true)),
        ("none", Json::Null),
        ("quote", Json::Str("say \"hi\"\n".to_string())),
    ]);
    let out = render_prompt(
        "  {{ n + 1 }} {% if flag %}yes{% endif %}{% if none %}!{% endif %} {{ quote }}  ",
        &ctx,
    )
    .unwrap();
    assert_eq!(out, "43 yes say \"hi\"");
}

#[test]
fn template_errors_name_their_step() {
    let err = render_prompt("{% for x in %}", &Json::Null).unwrap_err();
    assert!(err.starts_with("Template parse error: "), "{err}");
    let err = render_prompt("{{ n }}", &object(vec![("n", Json::Number("1.2.3".to_string()))]))
        .unwrap_err();
    assert!(err.starts_with("Template context: "), "{err}");
}

#[test]
fn engine_results_become_prompts() {
    assert_eq!(finish_prompt(Ok("  text \n".to_string())), Ok("text".to_string()));
    assert_eq!(
        finish_prompt(Err((TemplateStage::Render, "boom".to_string()))),
        Err("Template render: boom".to_string())
    );
    assert_eq!(
        finish_prompt(Err((TemplateStage::Lookup, "gone".to_string()))),
        Err("Template: gone".to_string())
    );
}

#[test]
fn json_text_escapes_strings() {
    let v = object(vec![
        ("a", Json::Array(vec![Json::Number("1".to_string()), Json::Null, Json::Bool(false)])),
        ("s", Json::Str("q\"b\\c\u{1}".to_string())),
    ]);
    assert_eq!(to_json_text(&v), r#"{"a":[1,null,false],"s":"q\"b\\c\u0001"}"#);
    assert_eq!(to_json_text(&Json::Array(vec![])), "[]");
}
