use epycell::chars::chars_of;
use epycell::kernel::MediaItem;
use epycell::lsp::{
    completion_items, error_response, frame_message, handle_message, header_line, hover_result,
    initialize_result, next_header, parse_usize, reply_answers, request_from, response, DocState,
    HeaderLine, HeaderStep, LspAction,
};
use epycell::nb::{Json, JsonNumber};

fn s(t: &str) -> Json {
    Json::Str(t.to_string())
}

fn num(n: u64) -> Json {
    Json::Number(JsonNumber::PosInt(n))
}

fn obj(members: Vec<(&str, Json)>) -> Json {
    Json::Object(members.into_iter().map(|(k, v)| (k.to_string(), v)).collect())
}

fn empty_state() -> DocState {
    DocState { content: String::new(), uri: String::new() }
}

fn request(id: u64, method: &str, params: Json) -> Json {
    obj(vec![("jsonrpc", s("2.0")), ("id", num(id)), ("method", s(method)), ("params", params)])
}

fn notification(method: &str, params: Json) -> Json {
    obj(vec![("jsonrpc", s("2.0")), ("method", s(method)), ("params", params)])
}

fn position(line: u64, character: u64) -> Json {
    obj(vec![
        ("textDocument", obj(vec![("uri", s("file:///cell.py"))])),
        ("position", obj(vec![("line", num(line)), ("character", num(character))])),
    ])
}

#[test]
fn initialize_announces_capabilities() {
    let mut st = empty_state();
    let r = handle_message(&mut st, request(1, "initialize", obj(vec![])));
    assert_eq!(r, LspAction::Respond { id: Some(num(1)), result: initialize_result() });
    let caps = initialize_result();
    let expected = obj(vec![
        (
            "capabilities",
            obj(vec![
                (
                    "completionProvider",
                    obj(vec![
                        ("triggerCharacters", Json::Array(vec![s("."), s("("), s("["), s(","), s(" ")])),
                        ("resolveProvider", Json::Bool(false)),
                    ]),
                ),
                ("hoverProvider", Json::Bool(true)),
                ("textDocumentSync", obj(vec![("openClose", Json::Bool(true)), ("change", num(1))])),
            ]),
        ),
        ("serverInfo", obj(vec![("name", s("epycell-lsp")), ("version", s("0.1.0"))])),
    ]);
    assert_eq!(caps, expected);
}

#[test]
fn shutdown_exit_and_initialized() {
    let mut st = empty_state();
    assert_eq!(handle_message(&mut st, notification("initialized", obj(vec![]))), LspAction::Nothing);
    assert_eq!(
        handle_message(&mut st, request(7, "shutdown", Json::Null)),
        LspAction::Respond { id: Some(num(7)), result: Json::Null }
    );
    assert_eq!(handle_message(&mut st, notification("exit", Json::Null)), LspAction::Exit);
}

#[test]
fn document_sync() {
    let mut st = empty_state();
    let open = notification(
        "textDocument/didOpen",
        obj(vec![("textDocument", obj(vec![("uri", s("file:///c.py")), ("text", s("import os\nos."))]))]),
    );
    assert_eq!(handle_message(&mut st, open), LspAction::Nothing);
    assert_eq!(st.content, "import os\nos.");
    assert_eq!(st.uri, "file:///c.py");
    let change = notification(
        "textDocument/didChange",
        obj(vec![("contentChanges", Json::Array(vec![obj(vec![("text", s("x = 1"))]), obj(vec![("text", s("ignored"))])]))]),
    );
    handle_message(&mut st, change);
    assert_eq!(st.content, "x = 1");
    assert_eq!(st.uri, "file:///c.py");
    let empty_change = notification("textDocument/didChange", obj(vec![("contentChanges", Json::Array(vec![]))]));
    handle_message(&mut st, empty_change);
    assert_eq!(st.content, "x = 1");
    handle_message(&mut st, notification("textDocument/didClose", obj(vec![])));
    assert_eq!(st.content, "");
    assert_eq!(st.uri, "");
}

#[test]
fn did_open_without_text_clears_content() {
    let mut st = DocState { content: "old".to_string(), uri: "u".to_string() };
    handle_message(&mut st, notification("textDocument/didOpen", obj(vec![("textDocument", obj(vec![]))])));
    assert_eq!(st.content, "");
    assert_eq!(st.uri, "");
}

#[test]
fn completion_and_hover_become_kernel_requests() {
    let mut st = DocState { content: "import os\nos.pa".to_string(), uri: String::new() };
    let r = handle_message(&mut st, request(3, "textDocument/completion", position(1, 5)));
    assert_eq!(
        r,
        LspAction::Complete { id: Some(num(3)), request: Some(("import os\nos.pa".to_string(), 15)) }
    );
    let r = handle_message(&mut st, request(4, "textDocument/hover", position(0, 3)));
    assert_eq!(r, LspAction::Hover { id: Some(num(4)), request: Some(("import os\nos.pa".to_string(), 3)) });
    let r = handle_message(&mut st, request(5, "textDocument/hover", obj(vec![])));
    assert_eq!(r, LspAction::Hover { id: Some(num(5)), request: None });
}

#[test]
fn request_from_defaults_missing_coordinates() {
    let content = "ab\ncd".to_string();
    let msg = obj(vec![("params", obj(vec![("position", obj(vec![("line", num(1))]))]))]);
    assert_eq!(request_from(&content, &msg), Some(("ab\ncd".to_string(), 3)));
    let msg = obj(vec![("params", obj(vec![("position", obj(vec![("line", s("1"))]))]))]);
    assert_eq!(request_from(&content, &msg), Some(("ab\ncd".to_string(), 0)));
}

#[test]
fn unknown_methods() {
    let mut st = empty_state();
    assert_eq!(
        handle_message(&mut st, request(9, "workspace/symbol", obj(vec![]))),
        LspAction::MethodNotFound { id: num(9) }
    );
    assert_eq!(handle_message(&mut st, notification("$/cancelRequest", obj(vec![]))), LspAction::Nothing);
}

#[test]
fn completion_list_labels_matches() {
    let j = completion_items(&["path".to_string(), "pathsep".to_string()]);
    let item = |l: &str| obj(vec![("label", s(l)), ("kind", num(6))]);
    assert_eq!(j, Json::Array(vec![item("path"), item("pathsep")]));
    assert_eq!(completion_items(&[]), Json::Array(vec![]));
}

#[test]
fn hover_uses_first_plain_text() {
    let media = vec![MediaItem::Other, MediaItem::Plain("Docstring".to_string()), MediaItem::Plain("second".to_string())];
    assert_eq!(
        hover_result(true, &media),
        obj(vec![("contents", obj(vec![("kind", s("plaintext")), ("value", s("Docstring"))]))])
    );
    assert_eq!(hover_result(false, &media), Json::Null);
    assert_eq!(hover_result(true, &[MediaItem::Plain(String::new())]), Json::Null);
    assert_eq!(hover_result(true, &[MediaItem::Other]), Json::Null);
}

#[test]
fn replies_are_matched_to_requests() {
    assert!(reply_answers("abc", "abc", Some("zzz")));
    assert!(reply_answers("abc", "other", None));
    assert!(reply_answers("abc", "other", Some("abc")));
    assert!(!reply_answers("abc", "other", Some("zzz")));
}

#[test]
fn responses_and_errors() {
    assert_eq!(
        response(Some(num(2)), Json::Bool(true)),
        obj(vec![("jsonrpc", s("2.0")), ("id", num(2)), ("result", Json::Bool(true))])
    );
    assert_eq!(
        response(None, Json::Null),
        obj(vec![("jsonrpc", s("2.0")), ("id", Json::Null), ("result", Json::Null)])
    );
    assert_eq!(
        error_response(Some(s("x")), -32601, "method not found"),
        obj(vec![
            ("jsonrpc", s("2.0")),
            ("id", s("x")),
            (
                "error",
                obj(vec![("code", Json::Number(JsonNumber::NegInt(-32601))), ("message", s("method not found"))]),
            ),
        ])
    );
    assert_eq!(
        error_response(None, 5, "m"),
        obj(vec![
            ("jsonrpc", s("2.0")),
            ("id", Json::Null),
            ("error", obj(vec![("code", num(5)), ("message", s("m"))])),
        ])
    );
}

#[test]
fn framing_counts_bytes() {
    assert_eq!(frame_message("{}"), "Content-Length: 2\r\n\r\n{}");
    assert_eq!(frame_message("\"é\""), "Content-Length: 4\r\n\r\n\"é\"");
}

#[test]
fn header_lines() {
    assert_eq!(header_line("Content-Length: 123\r\n"), HeaderLine::Length(123));
    assert_eq!(header_line("  Content-Length:42"), HeaderLine::Length(42));
    assert_eq!(header_line("Content-Length: +7\r\n"), HeaderLine::Length(7));
    assert_eq!(header_line("Content-Length: x\r\n"), HeaderLine::BadLength);
    assert_eq!(header_line("Content-Length: \r\n"), HeaderLine::BadLength);
    assert_eq!(header_line("Content-Type: text\r\n"), HeaderLine::Other);
    assert_eq!(header_line("content-length: 5\r\n"), HeaderLine::Other);
    assert_eq!(header_line("\r\n"), HeaderLine::End);
    assert_eq!(header_line(""), HeaderLine::End);
}

#[test]
fn framed_header_reads_back() {
    let framed = frame_message("{\"id\":1}");
    let first = framed.split_inclusive('\n').next().unwrap();
    assert_eq!(header_line(first), HeaderLine::Length(8));
}

#[test]
fn usize_parsing() {
    assert_eq!(parse_usize(&chars_of("0")), Some(0));
    assert_eq!(parse_usize(&chars_of("+15")), Some(15));
    assert_eq!(parse_usize(&chars_of("")), None);
    assert_eq!(parse_usize(&chars_of("+")), None);
    assert_eq!(parse_usize(&chars_of("-1")), None);
    assert_eq!(parse_usize(&chars_of("1 2")), None);
    assert_eq!(parse_usize(&chars_of("18446744073709551615")), Some(usize::MAX));
    assert_eq!(parse_usize(&chars_of("18446744073709551616")), None);
}

#[test]
fn header_steps() {
    assert_eq!(next_header(0, "Content-Length: 12\r\n"), HeaderStep::More(12));
    assert_eq!(next_header(12, "Content-Type: x\r\n"), HeaderStep::More(12));
    assert_eq!(next_header(12, "Content-Length: 3\r\n"), HeaderStep::More(3));
    assert_eq!(next_header(12, "\r\n"), HeaderStep::Body(12));
    assert_eq!(next_header(0, "\r\n"), HeaderStep::NoMessage);
    assert_eq!(next_header(5, "Content-Length: -1\r\n"), HeaderStep::Bad);
}
