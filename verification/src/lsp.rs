//! The editor-side language server: what each client message does to the open
//! document and which reply it calls for, the replies built from the kernel's answers,
//! and the `Content-Length` framing of messages.

use vstd::prelude::*;
use crate::chars::{chars_eq_str, chars_of, trim, trim_chars, utf8_len, utf8_len_of};
use crate::config::{all_digits, decimal, digits_value, is_digit, usize_decimal};
use crate::kernel::{MediaItem, MediaModel};
use crate::nb::{get, json_get, json_view, lookup, str_of, Json, JsonNumber, JsonV};
use crate::text::{offset_from_position, position_offset};

verus! {

/// The document the editor has open.
#[derive(Debug, PartialEq)]
pub struct DocState {
    pub content: String,
    pub uri: String,
}

/// What the server does for one client message.
#[derive(Debug, PartialEq)]
pub enum LspAction {
    /// Reply with this result.
    Respond { id: Option<Json>, result: Json },
    /// Ask the kernel for completions of `code` at byte `cursor_pos`, then reply; with no
    /// request, reply with an empty list.
    Complete { id: Option<Json>, request: Option<(String, usize)> },
    /// Ask the kernel to inspect `code` at byte `cursor_pos`, then reply; with no request,
    /// reply with null.
    Hover { id: Option<Json>, request: Option<(String, usize)> },
    /// Reply with the "method not found" error.
    MethodNotFound { id: Json },
    /// Stop serving.
    Exit,
    Nothing,
}

pub open spec fn opt_view(v: Option<Json>) -> Option<JsonV> {
    match v {
        Some(j) => Some(json_view(j)),
        None => None,
    }
}

/// `as_u64` of a value: a non-negative integer.
pub open spec fn as_u64(v: Option<Json>) -> Option<u64> {
    match v {
        Some(Json::Number(JsonNumber::PosInt(n))) => Some(n),
        _ => None,
    }
}

/// The text of a string member, or empty.
pub open spec fn str_or_empty(v: Option<Json>) -> Seq<char> {
    match str_of(v) {
        Some(s) => s,
        None => Seq::empty(),
    }
}

/// The message's method, empty when it has none.
pub open spec fn method_of(msg: Json) -> Seq<char> {
    str_or_empty(get(msg, "method"@))
}

/// The (code, cursor) a completion or hover request asks about: the whole document,
/// and the byte offset of its `params.position` (line and character default to 0);
/// `None` when the message has no `params` or no `position`.
pub open spec fn request_of(content: Seq<char>, msg: Json) -> Option<(Seq<char>, int)> {
    match get(msg, "params"@) {
        None => None,
        Some(p) => match get(p, "position"@) {
            None => None,
            Some(pos) => {
                let line = match as_u64(get(pos, "line"@)) {
                    Some(n) => n as usize,
                    None => 0usize,
                };
                let ch = match as_u64(get(pos, "character"@)) {
                    Some(n) => n as usize,
                    None => 0usize,
                };
                Some((content, position_offset(content, line as int, ch as int)))
            },
        },
    }
}

pub open spec fn request_view(r: Option<(String, usize)>) -> Option<(Seq<char>, int)> {
    match r {
        Some((s, n)) => Some((s@, n as int)),
        None => None,
    }
}

/// The text of the first change of a `didChange`, if there is one.
pub open spec fn changed_text(msg: Json) -> Option<Seq<char>> {
    match get(msg, "params"@) {
        None => None,
        Some(p) => match get(p, "contentChanges"@) {
            Some(Json::Array(a)) => if a@.len() > 0 {
                str_of(get(a@[0], "text"@))
            } else {
                None
            },
            _ => None,
        },
    }
}

/// The document a `didOpen` opens: its `textDocument`'s text and uri (each empty when
/// missing), or `None` when there is no `params.textDocument`.
pub open spec fn opened_doc(msg: Json) -> Option<(Seq<char>, Seq<char>)> {
    match get(msg, "params"@) {
        None => None,
        Some(p) => match get(p, "textDocument"@) {
            None => None,
            Some(d) => Some((str_or_empty(get(d, "text"@)), str_or_empty(get(d, "uri"@)))),
        },
    }
}

/// The capabilities the server announces, and its name and version.
pub open spec fn capabilities() -> JsonV {
    JsonV::Object(
        seq![
            ("capabilities"@, JsonV::Object(
                seq![
                    ("completionProvider"@, JsonV::Object(
                        seq![
                            ("triggerCharacters"@, JsonV::Array(
                                seq![
                                    JsonV::Str("."@),
                                    JsonV::Str("("@),
                                    JsonV::Str("["@),
                                    JsonV::Str(","@),
                                    JsonV::Str(" "@),
                                ],
                            )),
                            ("resolveProvider"@, JsonV::Bool(false)),
                        ],
                    )),
                    ("hoverProvider"@, JsonV::Bool(true)),
                    ("textDocumentSync"@, JsonV::Object(
                        seq![("openClose"@, JsonV::Bool(true)), ("change"@, JsonV::PosInt(1))],
                    )),
                ],
            )),
            ("serverInfo"@, JsonV::Object(
                seq![("name"@, JsonV::Str("epycell-lsp"@)), ("version"@, JsonV::Str("0.1.0"@))],
            )),
        ],
    )
}

fn jstr(s: &str) -> (j: Json)
    ensures
        json_view(j) == JsonV::Str(s@),
{
    Json::Str(String::from_str(s))
}

fn member(key: &str, value: Json) -> (m: (String, Json))
    ensures
        m.0@ == key@,
        m.1 == value,
{
    (String::from_str(key), value)
}

proof fn lemma_object_view(m: Vec<(String, Json)>, v: Seq<(Seq<char>, JsonV)>)
    requires
        m@.len() == v.len(),
        forall|i: int| 0 <= i < v.len() ==> #[trigger] v[i] == (m@[i].0@, json_view(m@[i].1)),
    ensures
        json_view(Json::Object(m)) == JsonV::Object(v),
{
    assert(match json_view(Json::Object(m)) {
        JsonV::Object(w) => w =~= v,
        _ => false,
    });
}

proof fn lemma_array_view(a: Vec<Json>, v: Seq<JsonV>)
    requires
        a@.len() == v.len(),
        forall|i: int| 0 <= i < v.len() ==> #[trigger] v[i] == json_view(a@[i]),
    ensures
        json_view(Json::Array(a)) == JsonV::Array(v),
{
    assert(match json_view(Json::Array(a)) {
        JsonV::Array(w) => w =~= v,
        _ => false,
    });
}

/// The result of `initialize`.
pub fn initialize_result() -> (j: Json)
    ensures
        json_view(j) == capabilities(),
{
    let trig = vec![jstr("."), jstr("("), jstr("["), jstr(","), jstr(" ")];
    proof {
        lemma_array_view(
            trig,
            seq![
                JsonV::Str("."@),
                JsonV::Str("("@),
                JsonV::Str("["@),
                JsonV::Str(","@),
                JsonV::Str(" "@),
            ],
        );
    }
    let cp = vec![member("triggerCharacters", Json::Array(trig)), member("resolveProvider", Json::Bool(false))];
    proof {
        lemma_object_view(
            cp,
            seq![
                ("triggerCharacters"@, json_view(cp@[0].1)),
                ("resolveProvider"@, JsonV::Bool(false)),
            ],
        );
    }
    let sync = vec![
        member("openClose", Json::Bool(true)),
        member("change", Json::Number(JsonNumber::PosInt(1))),
    ];
    proof {
        lemma_object_view(sync, seq![("openClose"@, JsonV::Bool(true)), ("change"@, JsonV::PosInt(1))]);
    }
    let caps = vec![
        member("completionProvider", Json::Object(cp)),
        member("hoverProvider", Json::Bool(true)),
        member("textDocumentSync", Json::Object(sync)),
    ];
    proof {
        lemma_object_view(
            caps,
            seq![
                ("completionProvider"@, json_view(caps@[0].1)),
                ("hoverProvider"@, JsonV::Bool(true)),
                ("textDocumentSync"@, json_view(caps@[2].1)),
            ],
        );
    }
    let info = vec![member("name", jstr("epycell-lsp")), member("version", jstr("0.1.0"))];
    proof {
        lemma_object_view(
            info,
            seq![("name"@, JsonV::Str("epycell-lsp"@)), ("version"@, JsonV::Str("0.1.0"@))],
        );
    }
    let top = vec![member("capabilities", Json::Object(caps)), member("serverInfo", Json::Object(info))];
    proof {
        lemma_object_view(
            top,
            seq![
                ("capabilities"@, json_view(top@[0].1)),
                ("serverInfo"@, json_view(top@[1].1)),
            ],
        );
    }
    Json::Object(top)
}

/// Moves the member named `key` out of an object.
fn json_take(v: Json, key: &str) -> (r: Option<Json>)
    ensures
        r == get(v, key@),
{
    match v {
        Json::Object(m) => {
            let ghost ms = m@;
            let mut m = m;
            assert(ms.skip(0) == ms);
            assert(get(v, key@) == lookup(ms, key@));
            let mut i: usize = 0;
            while i < m.len()
                invariant
                    ms == m@,
                    get(v, key@) == lookup(ms, key@),
                    i <= m@.len(),
                    lookup(ms, key@) == lookup(ms.skip(i as int), key@),
                decreases m@.len() - i,
            {
                let k = chars_of(m[i].0.as_str());
                assert(ms.skip(i as int)[0] == ms[i as int]);
                assert(ms.skip(i as int).drop_first() == ms.skip(i + 1));
                if chars_eq_str(k.as_slice(), key) {
                    assert(lookup(ms.skip(i as int), key@) == Some(ms[i as int].1));
                    let (_, val) = m.remove(i);
                    return Some(val);
                }
                i = i + 1;
            }
            assert(ms.skip(m.len() as int).len() == 0);
            None
        },
        _ => None,
    }
}

fn get_u64(v: Option<&Json>) -> (r: Option<u64>)
    ensures
        r == as_u64(
            match v {
                Some(x) => Some(*x),
                None => None,
            },
        ),
{
    match v {
        Some(Json::Number(JsonNumber::PosInt(n))) => Some(*n),
        _ => None,
    }
}

fn str_member(v: Option<&Json>) -> (r: String)
    ensures
        r@ == str_or_empty(
            match v {
                Some(x) => Some(*x),
                None => None,
            },
        ),
{
    match v {
        Some(Json::Str(s)) => s.clone(),
        _ => String::new(),
    }
}

/// The code and cursor offset a completion or hover request asks about.
pub fn request_from(content: &String, msg: &Json) -> (r: Option<(String, usize)>)
    requires
        utf8_len(content@) < usize::MAX,
    ensures
        request_view(r) == request_of(content@, *msg),
{
    let p = match json_get(msg, "params") {
        Some(p) => p,
        None => {
            return None;
        },
    };
    let pos = match json_get(p, "position") {
        Some(q) => q,
        None => {
            return None;
        },
    };
    let line: usize = match get_u64(json_get(pos, "line")) {
        Some(n) => n as usize,
        None => 0,
    };
    let ch: usize = match get_u64(json_get(pos, "character")) {
        Some(n) => n as usize,
        None => 0,
    };
    let cursor = offset_from_position(content.as_str(), line, ch);
    Some((content.clone(), cursor))
}

/// What a client message does: `initialize` and `shutdown` are answered, `exit` stops
/// the server, document notifications update the open document, completion and hover
/// become kernel requests, any other request gets "method not found"; other
/// notifications are ignored.
pub fn handle_message(state: &mut DocState, msg: Json) -> (r: LspAction)
    requires
        utf8_len(old(state).content@) < usize::MAX,
    ensures
        ({
            let m = method_of(msg);
            let id = get(msg, "id"@);
            let o = *old(state);
            let n = *final(state);
            if m == "initialize"@ {
                r matches LspAction::Respond { id: i, result: res } && i == id && json_view(res)
                    == capabilities() && n == o
            } else if m == "initialized"@ {
                r is Nothing && n == o
            } else if m == "shutdown"@ {
                r matches LspAction::Respond { id: i, result: res } && i == id && res is Null
                    && n == o
            } else if m == "exit"@ {
                r is Exit && n == o
            } else if m == "textDocument/didOpen"@ {
                &&& r is Nothing
                &&& match opened_doc(msg) {
                    Some((t, u)) => n.content@ == t && n.uri@ == u,
                    None => n == o,
                }
            } else if m == "textDocument/didChange"@ {
                &&& r is Nothing
                &&& match changed_text(msg) {
                    Some(t) => n.content@ == t && n.uri == o.uri,
                    None => n == o,
                }
            } else if m == "textDocument/didClose"@ {
                r is Nothing && n.content@.len() == 0 && n.uri@.len() == 0
            } else if m == "textDocument/completion"@ {
                r matches LspAction::Complete { id: i, request: q } && i == id && request_view(q)
                    == request_of(o.content@, msg) && n == o
            } else if m == "textDocument/hover"@ {
                r matches LspAction::Hover { id: i, request: q } && i == id && request_view(q)
                    == request_of(o.content@, msg) && n == o
            } else {
                &&& n == o
                &&& match id {
                    Some(i) => r matches LspAction::MethodNotFound { id: j } && j == i,
                    None => r is Nothing,
                }
            }
        }),
{
    let method: Vec<char> = chars_of(str_member(json_get(&msg, "method")).as_str());
    if chars_eq_str(method.as_slice(), "initialize") {
        let id = json_take(msg, "id");
        return LspAction::Respond { id, result: initialize_result() };
    }
    if chars_eq_str(method.as_slice(), "initialized") {
        return LspAction::Nothing;
    }
    if chars_eq_str(method.as_slice(), "shutdown") {
        let id = json_take(msg, "id");
        return LspAction::Respond { id, result: Json::Null };
    }
    if chars_eq_str(method.as_slice(), "exit") {
        return LspAction::Exit;
    }
    if chars_eq_str(method.as_slice(), "textDocument/didOpen") {
        match json_get(&msg, "params") {
            Some(p) => match json_get(p, "textDocument") {
                Some(d) => {
                    state.content = str_member(json_get(d, "text"));
                    state.uri = str_member(json_get(d, "uri"));
                },
                None => {},
            },
            None => {},
        }
        return LspAction::Nothing;
    }
    if chars_eq_str(method.as_slice(), "textDocument/didChange") {
        match json_get(&msg, "params") {
            Some(p) => match json_get(p, "contentChanges") {
                Some(Json::Array(a)) => {
                    if a.len() > 0 {
                        match json_get(&a[0], "text") {
                            Some(Json::Str(t)) => {
                                state.content = t.clone();
                            },
                            _ => {},
                        }
                    }
                },
                _ => {},
            },
            None => {},
        }
        return LspAction::Nothing;
    }
    if chars_eq_str(method.as_slice(), "textDocument/didClose") {
        state.content = String::new();
        state.uri = String::new();
        return LspAction::Nothing;
    }
    if chars_eq_str(method.as_slice(), "textDocument/completion") {
        let request = request_from(&state.content, &msg);
        let id = json_take(msg, "id");
        return LspAction::Complete { id, request };
    }
    if chars_eq_str(method.as_slice(), "textDocument/hover") {
        let request = request_from(&state.content, &msg);
        let id = json_take(msg, "id");
        return LspAction::Hover { id, request };
    }
    match json_take(msg, "id") {
        Some(id) => LspAction::MethodNotFound { id },
        None => LspAction::Nothing,
    }
}

/// The completion list for the kernel's matches: each with its `label`, marked as a variable.
pub open spec fn completion_list(matches: Seq<Seq<char>>) -> JsonV {
    JsonV::Array(
        Seq::new(
            matches.len(),
            |i: int|
                JsonV::Object(seq![("label"@, JsonV::Str(matches[i])), ("kind"@, JsonV::PosInt(6))]),
        ),
    )
}

/// The reply to a completion request, from the kernel's matches.
pub fn completion_items(matches: &[String]) -> (j: Json)
    ensures
        json_view(j) == completion_list(matches@.map_values(|m: String| m@)),
{
    let ghost ms = matches@.map_values(|m: String| m@);
    let mut items: Vec<Json> = Vec::new();
    for i in 0..matches.len()
        invariant
            ms == matches@.map_values(|m: String| m@),
            items@.len() == i,
            forall|k: int|
                0 <= k < i ==> json_view(#[trigger] items@[k]) == JsonV::Object(
                    seq![("label"@, JsonV::Str(ms[k])), ("kind"@, JsonV::PosInt(6))],
                ),
    {
        let obj = vec![
            member("label", Json::Str(matches[i].clone())),
            member("kind", Json::Number(JsonNumber::PosInt(6))),
        ];
        proof {
            lemma_object_view(
                obj,
                seq![("label"@, JsonV::Str(ms[i as int])), ("kind"@, JsonV::PosInt(6))],
            );
        }
        items.push(Json::Object(obj));
    }
    proof {
        let v = Seq::new(
            ms.len(),
            |i: int|
                JsonV::Object(seq![("label"@, JsonV::Str(ms[i])), ("kind"@, JsonV::PosInt(6))]),
        );
        lemma_array_view(items, v);
    }
    Json::Array(items)
}

/// The text of the first plain-text item.
pub open spec fn first_plain(media: Seq<MediaModel>) -> Seq<char>
    decreases media.len(),
{
    if media.len() == 0 {
        Seq::empty()
    } else {
        match media[0] {
            MediaModel::Plain(t) => t,
            _ => first_plain(media.drop_first()),
        }
    }
}

/// The hover reply: null when nothing was found or the found text is empty, else the
/// first plain text as `plaintext` contents.
pub open spec fn hover_json(found: bool, media: Seq<MediaModel>) -> JsonV {
    let t = first_plain(media);
    if !found || t.len() == 0 {
        JsonV::Null
    } else {
        JsonV::Object(
            seq![
                ("contents"@, JsonV::Object(
                    seq![("kind"@, JsonV::Str("plaintext"@)), ("value"@, JsonV::Str(t))],
                )),
            ],
        )
    }
}

/// The reply to a hover request, from the kernel's inspection.
pub fn hover_result(found: bool, media: &[MediaItem]) -> (j: Json)
    ensures
        json_view(j) == hover_json(found, media@.map_values(|m: MediaItem| m@)),
{
    if !found {
        return Json::Null;
    }
    let ghost mv = media@.map_values(|m: MediaItem| m@);
    let mut text = String::new();
    let mut i: usize = 0;
    assert(mv.skip(0) == mv);
    while i < media.len()
        invariant
            found,
            mv == media@.map_values(|m: MediaItem| m@),
            i <= media@.len(),
            first_plain(mv) == first_plain(mv.skip(i as int)),
            text@.len() == 0,
        decreases media@.len() - i,
    {
        assert(mv.skip(i as int)[0] == mv[i as int]);
        assert(mv.skip(i as int).drop_first() == mv.skip(i + 1));
        match &media[i] {
            MediaItem::Plain(t) => {
                assert(first_plain(mv) == t@);
                if t.as_str().is_empty() {
                    return Json::Null;
                }
                let inner = vec![member("kind", jstr("plaintext")), member("value", Json::Str(t.clone()))];
                proof {
                    lemma_object_view(
                        inner,
                        seq![("kind"@, JsonV::Str("plaintext"@)), ("value"@, JsonV::Str(t@))],
                    );
                }
                let ghost iv = json_view(Json::Object(inner));
                assert(iv == JsonV::Object(
                    seq![("kind"@, JsonV::Str("plaintext"@)), ("value"@, JsonV::Str(first_plain(mv)))],
                ));
                let outer = vec![member("contents", Json::Object(inner))];
                proof {
                    assert(outer@[0].1 == Json::Object(inner));
                    let v = seq![("contents"@, iv)];
                    lemma_object_view(outer, v);
                    assert(first_plain(mv).len() > 0);
                    let w = hover_json(found, mv);
                    assert(iv->Object_0 =~= w->Object_0[0].1->Object_0);
                    assert(v =~= w->Object_0);
                }
                return Json::Object(outer);
            },
            _ => {},
        }
        i = i + 1;
    }
    assert(mv.skip(media.len() as int).len() == 0);
    Json::Null
}

/// Whether a kernel reply answers the request `msg_id`: it does unless its own id
/// differs and it names a different parent request.
pub open spec fn answers(msg_id: Seq<char>, reply_id: Seq<char>, parent_id: Option<Seq<char>>) -> bool {
    reply_id == msg_id || !(parent_id matches Some(p) && p != msg_id)
}

pub fn reply_answers(msg_id: &str, reply_id: &str, parent_id: Option<&str>) -> (b: bool)
    ensures
        b == answers(
            msg_id@,
            reply_id@,
            match parent_id {
                Some(p) => Some(p@),
                None => None,
            },
        ),
{
    let m = chars_of(msg_id);
    if chars_eq_str(m.as_slice(), reply_id) {
        return true;
    }
    match parent_id {
        Some(p) => chars_eq_str(m.as_slice(), p),
        None => true,
    }
}

/// A JSON-RPC reply: version, id (null when absent) and result.
pub open spec fn response_json(id: Option<JsonV>, result: JsonV) -> JsonV {
    JsonV::Object(
        seq![
            ("jsonrpc"@, JsonV::Str("2.0"@)),
            ("id"@, match id {
                Some(i) => i,
                None => JsonV::Null,
            }),
            ("result"@, result),
        ],
    )
}

pub fn response(id: Option<Json>, result: Json) -> (j: Json)
    ensures
        json_view(j) == response_json(opt_view(id), json_view(result)),
{
    let idv = match id {
        Some(i) => i,
        None => Json::Null,
    };
    let ghost iv = json_view(idv);
    assert(iv == match opt_view(id) {
        Some(i) => i,
        None => JsonV::Null,
    });
    let ghost rv = json_view(result);
    let m = vec![member("jsonrpc", jstr("2.0")), member("id", idv), member("result", result)];
    proof {
        let v = seq![("jsonrpc"@, JsonV::Str("2.0"@)), ("id"@, iv), ("result"@, rv)];
        lemma_object_view(m, v);
        assert(json_view(Json::Object(m)) == JsonV::Object(v));
        assert(v == seq![("jsonrpc"@, JsonV::Str("2.0"@)), ("id"@, match opt_view(id) {
                Some(i) => i,
                None => JsonV::Null,
            }), ("result"@, json_view(result))]);
        let w = response_json(opt_view(id), json_view(result));
        assert(v =~= w->Object_0);
    }
    Json::Object(m)
}

/// A JSON-RPC error reply with this code and message.
pub open spec fn error_json(id: Option<JsonV>, code: i64, message: Seq<char>) -> JsonV {
    JsonV::Object(
        seq![
            ("jsonrpc"@, JsonV::Str("2.0"@)),
            ("id"@, match id {
                Some(i) => i,
                None => JsonV::Null,
            }),
            ("error"@, JsonV::Object(
                seq![
                    ("code"@, if code < 0 {
                        JsonV::NegInt(code)
                    } else {
                        JsonV::PosInt(code as u64)
                    }),
                    ("message"@, JsonV::Str(message)),
                ],
            )),
        ],
    )
}

pub fn error_response(id: Option<Json>, code: i64, message: &str) -> (j: Json)
    ensures
        json_view(j) == error_json(opt_view(id), code, message@),
{
    let idv = match id {
        Some(i) => i,
        None => Json::Null,
    };
    let num = if code < 0 {
        JsonNumber::NegInt(code)
    } else {
        JsonNumber::PosInt(code as u64)
    };
    let ghost iv = json_view(idv);
    assert(iv == match opt_view(id) {
        Some(i) => i,
        None => JsonV::Null,
    });
    let ghost nv = json_view(Json::Number(num));
    let e = vec![member("code", Json::Number(num)), member("message", jstr(message))];
    proof {
        lemma_object_view(e, seq![("code"@, nv), ("message"@, JsonV::Str(message@))]);
    }
    let ghost ev = json_view(Json::Object(e));
    let m = vec![member("jsonrpc", jstr("2.0")), member("id", idv), member("error", Json::Object(e))];
    proof {
        let v = seq![("jsonrpc"@, JsonV::Str("2.0"@)), ("id"@, iv), ("error"@, ev)];
        lemma_object_view(m, v);
        assert(ev == JsonV::Object(
            seq![
                ("code"@, if code < 0 {
                    JsonV::NegInt(code)
                } else {
                    JsonV::PosInt(code as u64)
                }),
                ("message"@, JsonV::Str(message@)),
            ],
        ));
        let w = error_json(opt_view(id), code, message@);
        assert(v =~= w->Object_0);
    }
    Json::Object(m)
}

/// `str::parse::<usize>`: an optional `'+'` then one or more decimal digits whose value
/// fits.
pub open spec fn decimal_usize(s: Seq<char>) -> Option<usize> {
    let d = if s.len() > 0 && s[0] == '+' {
        s.drop_first()
    } else {
        s
    };
    if d.len() > 0 && all_digits(d) && digits_value(d) <= usize::MAX {
        Some(digits_value(d) as usize)
    } else {
        None
    }
}

proof fn lemma_digits_prefix(d: Seq<char>, k: int)
    requires
        0 < k <= d.len(),
        all_digits(d),
    ensures
        digits_value(d.take(k)) <= digits_value(d),
    decreases d.len(),
{
    if k < d.len() {
        assert(d.drop_last().take(k) == d.take(k));
        assert(all_digits(d.drop_last()));
        lemma_digits_prefix(d.drop_last(), k);
    } else {
        assert(d.take(k) == d);
    }
}

/// Parses a number as `str::parse::<usize>` does.
pub fn parse_usize(s: &[char]) -> (r: Option<usize>)
    ensures
        r == decimal_usize(s@),
{
    let start: usize = if s.len() > 0 && s[0] == '+' {
        1
    } else {
        0
    };
    let ghost d = if s@.len() > 0 && s@[0] == '+' {
        s@.drop_first()
    } else {
        s@
    };
    assert(d == s@.skip(start as int));
    if start >= s.len() {
        return None;
    }
    let mut v: usize = 0;
    let mut i = start;
    while i < s.len()
        invariant
            start <= i <= s.len(),
            d == s@.skip(start as int),
            d == (if s@.len() > 0 && s@[0] == '+' {
                s@.drop_first()
            } else {
                s@
            }),
            forall|k: int| 0 <= k < i - start ==> is_digit(#[trigger] d[k]),
            v == digits_value(d.take(i - start)),
        decreases s.len() - i,
    {
        let c = s[i];
        if !('0' <= c && c <= '9') {
            assert(!is_digit(d[i - start]));
            assert(!all_digits(d));
            return None;
        }
        assert(d.take(i - start + 1).drop_last() == d.take(i - start));
        assert(d.take(i - start + 1).last() == c);
        let digit = (c as u32 - 48) as usize;
        if v > (usize::MAX - digit) / 10 {
            proof {
                assert(v * 10 + digit > usize::MAX) by (nonlinear_arith)
                    requires
                        v > (usize::MAX - digit) / 10,
                        digit <= 9,
                ;
                assert(digits_value(d.take(i - start + 1)) == v * 10 + digit);
                if all_digits(d) {
                    lemma_digits_prefix(d, i - start + 1);
                }
            }
            return None;
        }
        proof {
            assert(v * 10 + digit <= usize::MAX) by (nonlinear_arith)
                requires
                    v <= (usize::MAX - digit) / 10,
                    digit <= 9,
            ;
        }
        v = v * 10 + digit;
        i = i + 1;
    }
    assert(d.take(i - start) == d);
    assert(all_digits(d));
    Some(v)
}

/// One header line of an incoming message, trimmed.
#[derive(Debug, PartialEq)]
pub enum HeaderLine {
    /// A blank line: the headers end.
    End,
    /// `Content-Length:` with this length.
    Length(usize),
    /// `Content-Length:` with a value that is no length.
    BadLength,
    /// Any other header.
    Other,
}

/// What a header line is: blank; a `Content-Length:` whose (trimmed) value parses; one
/// that does not; something else.
pub open spec fn header_kind(line: Seq<char>) -> HeaderLine {
    let t = trim(line);
    let p = "Content-Length:"@;
    if t.len() == 0 {
        HeaderLine::End
    } else if t.len() >= p.len() && t.take(p.len() as int) == p {
        match decimal_usize(trim(t.skip(p.len() as int))) {
            Some(n) => HeaderLine::Length(n),
            None => HeaderLine::BadLength,
        }
    } else {
        HeaderLine::Other
    }
}

/// Classifies one header line of an incoming message.
pub fn header_line(line: &str) -> (h: HeaderLine)
    ensures
        h == header_kind(line@),
{
    let cs = chars_of(line);
    let t = trim_chars(cs.as_slice());
    if t.len() == 0 {
        return HeaderLine::End;
    }
    let p = chars_of("Content-Length:");
    if t.len() < p.len() {
        return HeaderLine::Other;
    }
    let mut same = true;
    let mut k: usize = 0;
    while k < p.len()
        invariant
            t@.len() >= p@.len(),
            p@ == "Content-Length:"@,
            k <= p@.len(),
            same == (forall|m: int| 0 <= m < k ==> t@[m] == p@[m]),
        decreases p@.len() - k,
    {
        if t[k] != p[k] {
            same = false;
        }
        k = k + 1;
    }
    if !same {
        assert(t@.take(p@.len() as int) != p@) by {
            let m = choose|m: int| 0 <= m < p@.len() && t@[m] != p@[m];
            assert(t@.take(p@.len() as int)[m] == t@[m]);
        }
        return HeaderLine::Other;
    }
    assert(t@.take(p@.len() as int) =~= p@);
    let mut rest: Vec<char> = Vec::new();
    let mut j = p.len();
    while j < t.len()
        invariant
            p@.len() <= j <= t@.len(),
            rest@ == t@.subrange(p@.len() as int, j as int),
        decreases t@.len() - j,
    {
        rest.push(t[j]);
        assert(t@.subrange(p@.len() as int, j + 1) == t@.subrange(p@.len() as int, j as int).push(
            t@[j as int],
        ));
        j = j + 1;
    }
    assert(rest@ == t@.skip(p@.len() as int));
    let v = trim_chars(rest.as_slice());
    match parse_usize(v.as_slice()) {
        Some(n) => HeaderLine::Length(n),
        None => HeaderLine::BadLength,
    }
}

/// What reading the headers does next.
#[derive(Debug, PartialEq)]
pub enum HeaderStep {
    /// Read another header line, with this length announced so far.
    More(usize),
    /// The headers ended: read a body of this many bytes.
    Body(usize),
    /// The headers ended without a length: there is no message.
    NoMessage,
    /// A `Content-Length` that is no length: the input is broken.
    Bad,
}

/// The step after a header line, with `length` announced so far (0 for none): a blank
/// line ends the headers, a `Content-Length` replaces the length, other headers are
/// skipped.
pub open spec fn header_step(length: usize, h: HeaderLine) -> HeaderStep {
    match h {
        HeaderLine::End => if length == 0 {
            HeaderStep::NoMessage
        } else {
            HeaderStep::Body(length)
        },
        HeaderLine::Length(n) => HeaderStep::More(n),
        HeaderLine::BadLength => HeaderStep::Bad,
        HeaderLine::Other => HeaderStep::More(length),
    }
}

/// The next step of reading headers after `line`.
pub fn next_header(length: usize, line: &str) -> (r: HeaderStep)
    ensures
        r == header_step(length, header_kind(line@)),
{
    match header_line(line) {
        HeaderLine::End => if length == 0 {
            HeaderStep::NoMessage
        } else {
            HeaderStep::Body(length)
        },
        HeaderLine::Length(n) => HeaderStep::More(n),
        HeaderLine::BadLength => HeaderStep::Bad,
        HeaderLine::Other => HeaderStep::More(length),
    }
}

/// A message as it is written out: `Content-Length: <bytes>`, a blank line, the body.
pub open spec fn framed(body: Seq<char>) -> Seq<char> {
    "Content-Length: "@ + decimal(utf8_len(body)) + "\r\n\r\n"@ + body
}

/// Frames a serialised message for the output stream.
pub fn frame_message(body: &str) -> (s: String)
    requires
        utf8_len(body@) <= usize::MAX,
    ensures
        s@ == framed(body@),
{
    let cs = chars_of(body);
    let n = utf8_len_of(cs.as_slice());
    let mut s = String::from_str("Content-Length: ");
    s.append(usize_decimal(n).as_str());
    s.append("\r\n\r\n");
    s.append(body);
    s
}

/// A framed message reads back: its first line, read up to and including its line end,
/// is the header giving the body's length in bytes, and the next line is the blank line
/// that ends the headers, after which the body follows; reading the headers from no
/// length then calls for a body of exactly that many bytes (an empty body reads as no
/// message).
pub proof fn lemma_frame_reads_back(body: Seq<char>)
    requires
        utf8_len(body) <= usize::MAX,
    ensures
        ({
            let header = "Content-Length: "@ + decimal(utf8_len(body)) + "\r\n"@;
            &&& framed(body) == header + "\r\n"@ + body
            &&& header_kind(header) == HeaderLine::Length(utf8_len(body) as usize)
            &&& header_kind("\r\n"@) == HeaderLine::End
            &&& header_step(0, header_kind(header)) == HeaderStep::More(utf8_len(body) as usize)
            &&& header_step(utf8_len(body) as usize, header_kind("\r\n"@)) == (if utf8_len(body)
                == 0 {
                HeaderStep::NoMessage
            } else {
                HeaderStep::Body(utf8_len(body) as usize)
            })
        }),
{
    let n = utf8_len(body);
    reveal_strlit("\r\n\r\n");
    reveal_strlit("Content-Length: ");
    reveal_strlit("Content-Length:");
    reveal_strlit("\r\n");
    crate::config::lemma_decimal_digits(n);
    let d = decimal(n);
    let pre = "Content-Length: "@;
    let line = pre + d + "\r\n"@;
    let head = pre + d;
    assert(is_digit(d[0]));
    assert(is_digit(d.last()));
    // The line has no leading white space and ends with exactly its line end.
    crate::chars::lemma_leading_ws(line, 0);
    assert(line.skip(0) =~= line);
    assert forall|k: int| line.len() - 2 <= k < line.len() implies crate::chars::is_white_space(
        #[trigger] line[k],
    ) by {}
    assert(line[line.len() - 3] == d.last());
    crate::chars::lemma_trailing_ws(line, line.len() - 2);
    assert(trim(line) =~= head);
    let p = "Content-Length:"@;
    assert(head.take(p.len() as int) =~= p);
    let rest = head.skip(p.len() as int);
    assert(rest =~= seq![' '] + d);
    crate::chars::lemma_leading_ws(rest, 1);
    let r1 = rest.skip(1);
    assert(r1 =~= d);
    crate::chars::lemma_trailing_ws(r1, r1.len() as int);
    assert(trim(rest) =~= d);
    assert(decimal_usize(d) == Some(n as usize));
    // The blank line is all white space.
    let blank = "\r\n"@;
    crate::chars::lemma_leading_ws(blank, 2);
    assert(blank.skip(2).len() == 0);
    assert("\r\n\r\n"@ =~= blank + blank);
    assert(framed(body) =~= line + blank + body);
}

} // verus!
