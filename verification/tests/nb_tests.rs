use epycell::nb::{cells_from_json, json_get, notebook_json, Json, JsonNumber, NbCell};
use serde_json::Value;

fn s(t: &str) -> Json {
    Json::Str(t.to_string())
}

fn obj(members: Vec<(&str, Json)>) -> Json {
    Json::Object(members.into_iter().map(|(k, v)| (k.to_string(), v)).collect())
}

fn cell(kind: Option<&str>, source: Json) -> Json {
    let mut m = Vec::new();
    if let Some(k) = kind {
        m.push(("cell_type", s(k)));
    }
    m.push(("metadata", obj(vec![])));
    m.push(("source", source));
    obj(m)
}

#[test]
fn loads_code_and_markdown_cells() {
    let doc = obj(vec![
        (
            "cells",
            Json::Array(vec![
                cell(Some("code"), Json::Array(vec![s("import os\n"), s("print(1)")])),
                cell(Some("markdown"), s("# Title")),
                cell(Some("raw"), s("skipped")),
                cell(None, Json::Array(vec![s("x"), Json::Number(JsonNumber::PosInt(3)), s("y")])),
                cell(Some("code"), Json::Null),
            ]),
        ),
        ("nbformat", Json::Number(JsonNumber::PosInt(4))),
    ]);
    let cells = cells_from_json(&doc).unwrap();
    assert_eq!(
        cells,
        vec![
            NbCell { source: "import os\nprint(1)".to_string(), markdown: false },
            NbCell { source: "# Title".to_string(), markdown: true },
            NbCell { source: "xy".to_string(), markdown: false },
            NbCell { source: String::new(), markdown: false },
        ]
    );
}

#[test]
fn document_without_cells_is_not_a_notebook() {
    assert_eq!(cells_from_json(&obj(vec![("metadata", obj(vec![]))])), None);
    assert_eq!(cells_from_json(&obj(vec![("cells", s("nope"))])), None);
    assert_eq!(cells_from_json(&Json::Array(vec![])), None);
}

#[test]
fn json_get_finds_first_member() {
    let o = obj(vec![("a", s("1")), ("b", s("2")), ("a", s("3"))]);
    assert_eq!(json_get(&o, "a"), Some(&s("1")));
    assert_eq!(json_get(&o, "c"), None);
    assert_eq!(json_get(&s("a"), "a"), None);
}

fn expected_text(cells: &[NbCell]) -> String {
    let arr: Vec<Value> = cells
        .iter()
        .map(|c| {
            let mut m = serde_json::Map::new();
            if c.markdown {
                m.insert("cell_type".to_string(), Value::String("markdown".to_string()));
            } else {
                m.insert("cell_type".to_string(), Value::String("code".to_string()));
                m.insert("execution_count".to_string(), Value::Null);
                m.insert("outputs".to_string(), Value::Array(vec![]));
            }
            m.insert("metadata".to_string(), Value::Object(serde_json::Map::new()));
            m.insert("source".to_string(), Value::String(c.source.clone()));
            Value::Object(m)
        })
        .collect();
    let mut kernelspec = serde_json::Map::new();
    kernelspec.insert("name".to_string(), Value::String("python3".to_string()));
    kernelspec.insert("display_name".to_string(), Value::String("Python 3".to_string()));
    let mut language = serde_json::Map::new();
    language.insert("name".to_string(), Value::String("python".to_string()));
    let mut metadata = serde_json::Map::new();
    metadata.insert("kernelspec".to_string(), Value::Object(kernelspec));
    metadata.insert("language_info".to_string(), Value::Object(language));
    let mut nb = serde_json::Map::new();
    nb.insert("cells".to_string(), Value::Array(arr));
    nb.insert("metadata".to_string(), Value::Object(metadata));
    nb.insert("nbformat".to_string(), Value::from(4));
    nb.insert("nbformat_minor".to_string(), Value::from(5));
    serde_json::to_string_pretty(&Value::Object(nb)).unwrap()
}

#[test]
fn saved_text_matches_pretty_json() {
    let cells = vec![
        NbCell { source: "x = \"quoted\"\n\ty".to_string(), markdown: false },
        NbCell { source: "# Ünïcode ✓".to_string(), markdown: true },
    ];
    assert_eq!(notebook_json(&cells), expected_text(&cells));
}

#[test]
fn saved_text_with_no_cells() {
    assert_eq!(notebook_json(&[]), expected_text(&[]));
    assert!(notebook_json(&[]).contains("\"cells\": []"));
}

fn to_json(v: &Value) -> Json {
    match v {
        Value::Null => Json::Null,
        Value::Bool(b) => Json::Bool(*b),
        Value::Number(n) => match (n.as_u64(), n.as_i64()) {
            (Some(u), _) => Json::Number(JsonNumber::PosInt(u)),
            (None, Some(i)) => Json::Number(JsonNumber::NegInt(i)),
            _ => Json::Number(JsonNumber::Float(n.to_string())),
        },
        Value::String(t) => Json::Str(t.clone()),
        Value::Array(a) => Json::Array(a.iter().map(to_json).collect()),
        Value::Object(m) => Json::Object(m.iter().map(|(k, x)| (k.clone(), to_json(x))).collect()),
    }
}

#[test]
fn save_then_load_round_trip() {
    let cells = vec![
        NbCell { source: "a = 1\nb = 2".to_string(), markdown: false },
        NbCell { source: "## heading".to_string(), markdown: true },
        NbCell { source: String::new(), markdown: false },
    ];
    let text = notebook_json(&cells);
    let parsed: Value = serde_json::from_str(&text).unwrap();
    assert_eq!(cells_from_json(&to_json(&parsed)), Some(cells));
}

#[test]
fn saved_source_is_escaped() {
    let cells = vec![NbCell { source: "a\"b\\c\nd\te\r\u{8}\u{c}\u{1}\u{1f}é".to_string(), markdown: true }];
    let text = notebook_json(&cells);
    assert!(text.contains(
        "\"source\": \"a\\\"b\\\\c\\nd\\te\\r\\b\\f\\u0001\\u001fé\"\n    }"
    ));
    assert_eq!(text, expected_text(&cells));
}
