//! Notebook files (`.ipynb`, nbformat 4): the code and markdown cells read from a parsed
//! document, and the document text written for a list of cells (outputs cleared).

use vstd::prelude::*;
use crate::chars::{chars_eq_str, chars_of};

verus! {

/// A cell as loaded from / saved to disk.
#[derive(Debug, PartialEq)]
pub struct NbCell {
    pub source: String,
    pub markdown: bool,
}

impl View for NbCell {
    type V = (Seq<char>, bool);

    open spec fn view(&self) -> (Seq<char>, bool) {
        (self.source@, self.markdown)
    }
}

/// A JSON number, as `serde_json` holds it; a float by its text.
#[derive(Debug, PartialEq)]
pub enum JsonNumber {
    PosInt(u64),
    NegInt(i64),
    Float(String),
}

/// A JSON value.
#[derive(Debug, PartialEq)]
pub enum Json {
    Null,
    Bool(bool),
    Number(JsonNumber),
    Str(String),
    Array(Vec<Json>),
    /// Members in order, each key once.
    Object(Vec<(String, Json)>),
}

/// A JSON value as plain values.
pub enum JsonV {
    Null,
    Bool(bool),
    PosInt(u64),
    NegInt(i64),
    Float(Seq<char>),
    Str(Seq<char>),
    Array(Seq<JsonV>),
    Object(Seq<(Seq<char>, JsonV)>),
}

/// The value a `Json` holds.
pub open spec fn json_view(j: Json) -> JsonV
    decreases j,
{
    match j {
        Json::Null => JsonV::Null,
        Json::Bool(b) => JsonV::Bool(b),
        Json::Number(JsonNumber::PosInt(n)) => JsonV::PosInt(n),
        Json::Number(JsonNumber::NegInt(n)) => JsonV::NegInt(n),
        Json::Number(JsonNumber::Float(t)) => JsonV::Float(t@),
        Json::Str(s) => JsonV::Str(s@),
        Json::Array(a) => JsonV::Array(
            Seq::new(a@.len(), |i: int| if 0 <= i < a@.len() { json_view(a@[i]) } else { JsonV::Null }),
        ),
        Json::Object(m) => JsonV::Object(
            Seq::new(m@.len(), |i: int| if 0 <= i < m@.len() { (m@[i].0@, json_view(m@[i].1)) } else { (Seq::empty(), JsonV::Null) }),
        ),
    }
}

/// The value of the first member named `key`.
pub open spec fn lookup(members: Seq<(String, Json)>, key: Seq<char>) -> Option<Json>
    decreases members.len(),
{
    if members.len() == 0 {
        None
    } else if members[0].0@ == key {
        Some(members[0].1)
    } else {
        lookup(members.drop_first(), key)
    }
}

/// `Value::get` with a key: the member of an object, nothing for other values.
pub open spec fn get(v: Json, key: Seq<char>) -> Option<Json> {
    match v {
        Json::Object(m) => lookup(m@, key),
        _ => None,
    }
}

/// The text of a string value.
pub open spec fn str_of(v: Option<Json>) -> Option<Seq<char>> {
    match v {
        Some(Json::Str(s)) => Some(s@),
        _ => None,
    }
}

/// The string elements of an array, concatenated (others skipped).
pub open spec fn joined_strings(items: Seq<Json>) -> Seq<char>
    decreases items.len(),
{
    if items.len() == 0 {
        Seq::empty()
    } else {
        joined_strings(items.drop_last()) + match items.last() {
            Json::Str(s) => s@,
            _ => Seq::empty(),
        }
    }
}

/// A cell's `source`: a string, or an array of line strings joined; anything else is
/// empty.
pub open spec fn source_text(v: Option<Json>) -> Seq<char> {
    match v {
        Some(Json::Array(a)) => joined_strings(a@),
        Some(Json::Str(s)) => s@,
        _ => Seq::empty(),
    }
}

/// A cell's type: its `cell_type` string, `code` when absent or not a string.
pub open spec fn cell_kind(c: Json) -> Seq<char> {
    match str_of(get(c, "cell_type"@)) {
        Some(k) => k,
        None => "code"@,
    }
}

/// The (source, is-markdown) of each code or markdown cell, in order; others skipped.
pub open spec fn loaded_cells(items: Seq<Json>) -> Seq<(Seq<char>, bool)>
    decreases items.len(),
{
    if items.len() == 0 {
        Seq::empty()
    } else {
        let r = loaded_cells(items.drop_last());
        let c = items.last();
        let k = cell_kind(c);
        if k != "code"@ && k != "markdown"@ {
            r
        } else {
            r.push((source_text(get(c, "source"@)), k == "markdown"@))
        }
    }
}

/// The cells of a notebook document, or `None` when it has no `cells` array.
pub open spec fn notebook_cells(doc: Json) -> Option<Seq<(Seq<char>, bool)>> {
    match get(doc, "cells"@) {
        Some(Json::Array(a)) => Some(loaded_cells(a@)),
        _ => None,
    }
}

/// The value of member `key` of an object (`Value::get`).
pub fn json_get<'a>(v: &'a Json, key: &str) -> (r: Option<&'a Json>)
    ensures
        match r {
            Some(x) => get(*v, key@) == Some(*x),
            None => get(*v, key@) is None,
        },
{
    match v {
        Json::Object(m) => {
            let ghost ms = m@;
            assert(ms.skip(0) == ms);
            assert(get(*v, key@) == lookup(ms, key@));
            for i in 0..m.len()
                invariant
                    ms == m@,
                    get(*v, key@) == lookup(ms, key@),
                    lookup(ms, key@) == lookup(ms.skip(i as int), key@),
            {
                let k = chars_of(m[i].0.as_str());
                assert(ms.skip(i as int)[0] == ms[i as int]);
                assert(ms.skip(i as int).drop_first() == ms.skip(i + 1));
                if chars_eq_str(k.as_slice(), key) {
                    assert(lookup(ms.skip(i as int), key@) == Some(ms[i as int].1));
                    return Some(&m[i].1);
                }
            }
            assert(ms.skip(m.len() as int).len() == 0);
            None
        },
        _ => None,
    }
}

fn json_str<'a>(v: Option<&'a Json>) -> (r: Option<&'a String>)
    ensures
        match r {
            Some(s) => str_of(match v {
                Some(x) => Some(*x),
                None => None,
            }) == Some(s@),
            None => str_of(match v {
                Some(x) => Some(*x),
                None => None,
            }) is None,
        },
{
    match v {
        Some(Json::Str(s)) => Some(s),
        _ => None,
    }
}

fn source_string(v: Option<&Json>) -> (r: String)
    ensures
        r@ == source_text(
            match v {
                Some(x) => Some(*x),
                None => None,
            },
        ),
{
    match v {
        Some(Json::Array(items)) => {
            let mut s = String::new();
            assert(items@.take(0) =~= Seq::<Json>::empty());
            for i in 0..items.len()
                invariant
                    s@ == joined_strings(items@.take(i as int)),
            {
                assert(items@.take(i + 1).drop_last() == items@.take(i as int));
                match &items[i] {
                    Json::Str(t) => s.append(t.as_str()),
                    _ => {},
                }
                assert(s@ =~= joined_strings(items@.take(i + 1)));
            }
            assert(items@.take(items.len() as int) == items@);
            s
        },
        Some(Json::Str(t)) => t.clone(),
        _ => String::new(),
    }
}

/// The code and markdown cells of a parsed notebook; `None` when the document has no
/// `cells` array ("not a notebook"). Raw cells are skipped; stored outputs are ignored.
pub fn cells_from_json(doc: &Json) -> (r: Option<Vec<NbCell>>)
    ensures
        match r {
            Some(v) => notebook_cells(*doc) == Some(v@.map_values(|c: NbCell| c@)),
            None => notebook_cells(*doc) is None,
        },
{
    let items = match json_get(doc, "cells") {
        Some(Json::Array(a)) => a,
        _ => {
            return None;
        },
    };
    let mut out: Vec<NbCell> = Vec::new();
    assert(items@.take(0) =~= Seq::<Json>::empty());
    for i in 0..items.len()
        invariant
            out@.map_values(|c: NbCell| c@) == loaded_cells(items@.take(i as int)),
    {
        assert(items@.take(i + 1).drop_last() == items@.take(i as int));
        assert(items@.take(i + 1).last() == items@[i as int]);
        let c = &items[i];
        let kind_s = json_str(json_get(c, "cell_type"));
        let kind: Vec<char> = match kind_s {
            Some(k) => chars_of(k.as_str()),
            None => chars_of("code"),
        };
        assert(kind@ == cell_kind(*c));
        let is_code = chars_eq_str(kind.as_slice(), "code");
        let is_md = chars_eq_str(kind.as_slice(), "markdown");
        if is_code || is_md {
            let source = source_string(json_get(c, "source"));
            let ghost before = out@;
            out.push(NbCell { source, markdown: is_md });
            assert(out@.map_values(|c: NbCell| c@) =~= before.map_values(|c: NbCell| c@).push(
                (source_text(get(*c, "source"@)), is_md),
            ));
        }
    }
    assert(items@.take(items.len() as int) == items@);
    Some(out)
}

/// A hexadecimal digit in lower case.
pub open spec fn hex_digit(n: int) -> char {
    if n < 10 {
        (48 + n) as char
    } else {
        (87 + n) as char
    }
}

/// How one character is written inside a JSON string literal: the quote, the backslash
/// and the control characters with a backslash escape (`\b \f \n \r \t`, else
/// `\u00` and two hex digits); every other character as itself.
pub open spec fn escaped_char(c: char) -> Seq<char> {
    if c == '"' {
        seq!['\\', '"']
    } else if c == '\\' {
        seq!['\\', '\\']
    } else if c == '\u{8}' {
        seq!['\\', 'b']
    } else if c == '\u{c}' {
        seq!['\\', 'f']
    } else if c == '\n' {
        seq!['\\', 'n']
    } else if c == '\r' {
        seq!['\\', 'r']
    } else if c == '\t' {
        seq!['\\', 't']
    } else if (c as u32) < 0x20 {
        seq!['\\', 'u', '0', '0', hex_digit(((c as u32) / 16) as int), hex_digit(((c as u32) % 16) as int)]
    } else {
        seq![c]
    }
}

/// The characters of a text, each escaped.
pub open spec fn escaped(s: Seq<char>) -> Seq<char>
    decreases s.len(),
{
    if s.len() == 0 {
        Seq::empty()
    } else {
        escaped(s.drop_last()) + escaped_char(s.last())
    }
}

/// A text as a JSON string literal: between double quotes, escaped.
pub open spec fn json_string(s: Seq<char>) -> Seq<char> {
    seq!['"'] + escaped(s) + seq!['"']
}

/// Calls `serde_json::to_string` on the text (serialising a `str` does not fail).
/// Claimed: the result is the text as a JSON string literal, each character escaped
/// as `escaped_char` says (serde_json's escape table, with lower-case hex digits).
#[verifier::external_body]
fn quote_json(s: &str) -> (r: String)
    ensures
        r@ == json_string(s@),
{
    match serde_json::to_string(s) {
        Ok(t) => t,
        Err(_) => String::new(),
    }
}

/// Two spaces per level.
pub open spec fn indent(level: nat) -> Seq<char> {
    Seq::new(2 * level, |i: int| ' ')
}

/// The decimal digits of a number.
pub open spec fn decimal(n: nat) -> Seq<char>
    decreases n,
{
    if n < 10 {
        seq![(48 + n) as char]
    } else {
        decimal(n / 10).push((48 + n % 10) as char)
    }
}

/// A value written out at an indentation level, as `serde_json::to_string_pretty`
/// writes it: scalars on the line, a non-empty array or object with one element or
/// member per line one level deeper, closed on a line of its own; `[]` and `{}` when
/// empty; `": "` between a key and its value.
pub open spec fn pretty(v: JsonV, level: nat) -> Seq<char>
    decreases v, 0nat,
{
    match v {
        JsonV::Null => seq!['n', 'u', 'l', 'l'],
        JsonV::Bool(b) => if b {
            seq!['t', 'r', 'u', 'e']
        } else {
            seq!['f', 'a', 'l', 's', 'e']
        },
        JsonV::PosInt(n) => decimal(n as nat),
        JsonV::NegInt(n) => if n < 0 {
            seq!['-'] + decimal((0 - n) as nat)
        } else {
            decimal(n as nat)
        },
        JsonV::Float(t) => t,
        JsonV::Str(t) => json_string(t),
        JsonV::Array(a) => if a.len() == 0 {
            seq!['[', ']']
        } else {
            seq!['['] + pretty_elements(a, level, a.len()) + seq!['\n'] + indent(level) + seq![']']
        },
        JsonV::Object(m) => if m.len() == 0 {
            seq!['{', '}']
        } else {
            seq!['{'] + pretty_members(m, level, m.len()) + seq!['\n'] + indent(level) + seq!['}']
        },
    }
}

/// The line break before an element or member: a comma ends the one before, if any.
pub open spec fn item_break(n: nat) -> Seq<char> {
    if n == 1 {
        seq!['\n']
    } else {
        seq![',', '\n']
    }
}

/// The first `n` elements of an array, each on its own line.
pub open spec fn pretty_elements(a: Seq<JsonV>, level: nat, n: nat) -> Seq<char>
    decreases a, n,
{
    if n == 0 || n > a.len() {
        Seq::empty()
    } else {
        pretty_elements(a, level, (n - 1) as nat) + item_break(n) + indent(level + 1) + pretty(
            a[n - 1],
            level + 1,
        )
    }
}

/// The first `n` members of an object, each on its own line.
pub open spec fn pretty_members(m: Seq<(Seq<char>, JsonV)>, level: nat, n: nat) -> Seq<char>
    decreases m, n,
{
    if n == 0 || n > m.len() {
        Seq::empty()
    } else {
        pretty_members(m, level, (n - 1) as nat) + item_break(n) + indent(level + 1) + json_string(
            m[n - 1].0,
        ) + seq![':', ' '] + pretty(m[n - 1].1, level + 1)
    }
}

/// One cell of the saved document, indented as an element of the `cells` array:
/// markdown cells carry type, metadata and source; code cells also an empty output
/// list and a null execution count.
pub open spec fn cell_json(c: (Seq<char>, bool)) -> Seq<char> {
    if c.1 {
        "    {\n      \"cell_type\": \"markdown\",\n      \"metadata\": {},\n      \"source\": "@
            + json_string(c.0) + "\n    }"@
    } else {
        "    {\n      \"cell_type\": \"code\",\n      \"execution_count\": null,\n      \"metadata\": {},\n      \"outputs\": [],\n      \"source\": "@
            + json_string(c.0) + "\n    }"@
    }
}

/// The elements of the `cells` array, each on its own lines, comma-separated.
pub open spec fn cell_items(cs: Seq<(Seq<char>, bool)>) -> Seq<char>
    decreases cs.len(),
{
    if cs.len() == 0 {
        Seq::empty()
    } else {
        cell_items(cs.drop_last()) + (if cs.len() == 1 {
            "\n"@
        } else {
            ",\n"@
        }) + cell_json(cs.last())
    }
}

/// The saved document: the cells, Python 3 kernel metadata, nbformat 4.5; two-space
/// indentation and keys in sorted order, as `serde_json::to_string_pretty` writes it.
pub open spec fn notebook_text(cs: Seq<(Seq<char>, bool)>) -> Seq<char> {
    "{\n  \"cells\": "@ + (if cs.len() == 0 {
        "[]"@
    } else {
        "["@ + cell_items(cs) + "\n  ]"@
    })
        + ",\n  \"metadata\": {\n    \"kernelspec\": {\n      \"display_name\": \"Python 3\",\n      \"name\": \"python3\"\n    },\n    \"language_info\": {\n      \"name\": \"python\"\n    }\n  },\n  \"nbformat\": 4,\n  \"nbformat_minor\": 5\n}"@
}

fn cell_json_exec(c: &NbCell) -> (r: String)
    ensures
        r@ == cell_json(c@),
{
    let q = quote_json(c.source.as_str());
    let mut s = if c.markdown {
        String::from_str(
            "    {\n      \"cell_type\": \"markdown\",\n      \"metadata\": {},\n      \"source\": ",
        )
    } else {
        String::from_str(
            "    {\n      \"cell_type\": \"code\",\n      \"execution_count\": null,\n      \"metadata\": {},\n      \"outputs\": [],\n      \"source\": ",
        )
    };
    s.append(q.as_str());
    s.append("\n    }");
    s
}

/// The `.ipynb` text saved for these cells (nbformat 4.5, outputs cleared).
pub fn notebook_json(cells: &[NbCell]) -> (r: String)
    ensures
        r@ == notebook_text(cells@.map_values(|c: NbCell| c@)),
{
    let ghost cs = cells@.map_values(|c: NbCell| c@);
    let mut s = String::from_str("{\n  \"cells\": ");
    if cells.len() == 0 {
        s.append("[]");
    } else {
        s.append("[");
        let ghost start = s@;
        assert(cs.take(0) =~= Seq::<(Seq<char>, bool)>::empty());
        for i in 0..cells.len()
            invariant
                cs == cells@.map_values(|c: NbCell| c@),
                s@ == start + cell_items(cs.take(i as int)),
        {
            assert(cs.take(i + 1).drop_last() == cs.take(i as int));
            assert(cs.take(i + 1).last() == cells@[i as int]@);
            if i == 0 {
                s.append("\n");
            } else {
                s.append(",\n");
            }
            s.append(cell_json_exec(&cells[i]).as_str());
            assert(s@ =~= start + cell_items(cs.take(i + 1)));
        }
        assert(cs.take(cells.len() as int) == cs);
        s.append("\n  ]");
    }
    s.append(
        ",\n  \"metadata\": {\n    \"kernelspec\": {\n      \"display_name\": \"Python 3\",\n      \"name\": \"python3\"\n    },\n    \"language_info\": {\n      \"name\": \"python\"\n    }\n  },\n  \"nbformat\": 4,\n  \"nbformat_minor\": 5\n}",
    );
    s
}

/// The value saved for one cell: its type, empty metadata and its source as one string;
/// a code cell also has a null execution count and no outputs. Members in key order.
pub open spec fn saved_cell_value(c: (Seq<char>, bool)) -> JsonV {
    if c.1 {
        JsonV::Object(
            seq![
                ("cell_type"@, JsonV::Str("markdown"@)),
                ("metadata"@, JsonV::Object(Seq::empty())),
                ("source"@, JsonV::Str(c.0)),
            ],
        )
    } else {
        JsonV::Object(
            seq![
                ("cell_type"@, JsonV::Str("code"@)),
                ("execution_count"@, JsonV::Null),
                ("metadata"@, JsonV::Object(Seq::empty())),
                ("outputs"@, JsonV::Array(Seq::empty())),
                ("source"@, JsonV::Str(c.0)),
            ],
        )
    }
}

/// The saved document's metadata: a Python 3 kernel.
pub open spec fn kernel_metadata() -> JsonV {
    JsonV::Object(
        seq![
            ("kernelspec"@, JsonV::Object(
                seq![
                    ("display_name"@, JsonV::Str("Python 3"@)),
                    ("name"@, JsonV::Str("python3"@)),
                ],
            )),
            ("language_info"@, JsonV::Object(seq![("name"@, JsonV::Str("python"@))])),
        ],
    )
}

/// The document saved for these cells, as a value: what `notebook_text` writes out.
pub open spec fn saved_value(cs: Seq<(Seq<char>, bool)>) -> JsonV {
    JsonV::Object(
        seq![
            ("cells"@, JsonV::Array(cs.map_values(|c: (Seq<char>, bool)| saved_cell_value(c)))),
            ("metadata"@, kernel_metadata()),
            ("nbformat"@, JsonV::PosInt(4)),
            ("nbformat_minor"@, JsonV::PosInt(5)),
        ],
    )
}

/// Text with no character that needs escaping.
pub open spec fn plain_text(s: Seq<char>) -> bool {
    forall|i: int|
        0 <= i < s.len() ==> #[trigger] s[i] != '"' && s[i] != '\\' && (s[i] as u32) >= 0x20
}

proof fn lemma_plain_escaped(s: Seq<char>)
    requires
        plain_text(s),
    ensures
        escaped(s) == s,
    decreases s.len(),
{
    if s.len() > 0 {
        let d = s.drop_last();
        assert(plain_text(d)) by {
            assert forall|i: int| 0 <= i < d.len() implies #[trigger] d[i] != '"' && d[i] != '\\'
                && (d[i] as u32) >= 0x20 by {
                assert(d[i] == s[i]);
            }
        }
        lemma_plain_escaped(d);
        assert(s[s.len() - 1] == s.last());
        assert(d.push(s.last()) =~= s);
        assert(escaped_char(s.last()) =~= seq![s.last()]);
    }
}

/// A key of the saved document, quoted.
proof fn lemma_key(k: Seq<char>)
    requires
        plain_text(k),
    ensures
        json_string(k) == seq!['"'] + k + seq!['"'],
{
    lemma_plain_escaped(k);
}

/// One more member, on its own line.
proof fn lemma_member_step(m: Seq<(Seq<char>, JsonV)>, level: nat, n: nat, k: Seq<char>, val: JsonV)
    requires
        1 <= n <= m.len(),
        m[n - 1] == (k, val),
    ensures
        pretty_members(m, level, n) == pretty_members(m, level, (n - 1) as nat) + item_break(n)
            + indent(level + 1) + json_string(k) + seq![':', ' '] + pretty(val, level + 1),
{
}

/// A saved cell is written as its value pretty-printed two levels deep.
#[verifier::rlimit(60)]
proof fn lemma_cell_pretty(c: (Seq<char>, bool))
    ensures
        cell_json(c) == indent(2) + pretty(saved_cell_value(c), 2),
{
    reveal_strlit("cell_type");
    reveal_strlit("execution_count");
    reveal_strlit("metadata");
    reveal_strlit("outputs");
    reveal_strlit("source");
    reveal_strlit("markdown");
    reveal_strlit("code");
    reveal_strlit("\n    }");
    lemma_key("cell_type"@);
    lemma_key("execution_count"@);
    lemma_key("metadata"@);
    lemma_key("outputs"@);
    lemma_key("source"@);
    lemma_key("markdown"@);
    lemma_key("code"@);
    let v = saved_cell_value(c);
    let m = v->Object_0;
    let q = seq![':', ' '];
    let i3 = indent(3);
    let tail = seq!['\n'] + indent(2) + seq!['}'];
    assert("\n    }"@ =~= tail);
    let empty_obj = JsonV::Object(Seq::empty());
    let empty_arr = JsonV::Array(Seq::empty());
    assert(pretty(empty_obj, 3) == seq!['{', '}']);
    assert(pretty(empty_arr, 3) == seq!['[', ']']);
    assert(pretty(JsonV::Null, 3) == seq!['n', 'u', 'l', 'l']);
    assert(pretty_members(m, 2, 0) == Seq::<char>::empty());
    let src = JsonV::Str(c.0);
    if c.1 {
        reveal_strlit("    {\n      \"cell_type\": \"markdown\",\n      \"metadata\": {},\n      \"source\": ");
        lemma_member_step(m, 2, 1, "cell_type"@, JsonV::Str("markdown"@));
        lemma_member_step(m, 2, 2, "metadata"@, empty_obj);
        lemma_member_step(m, 2, 3, "source"@, src);
        let p2 = pretty_members(m, 2, 2);
        assert(p2 =~= item_break(1) + i3 + json_string("cell_type"@) + q + json_string("markdown"@)
            + item_break(2) + i3 + json_string("metadata"@) + q + seq!['{', '}']);
        let head = indent(2) + seq!['{'] + p2 + item_break(3) + i3 + json_string("source"@) + q;
        assert("    {\n      \"cell_type\": \"markdown\",\n      \"metadata\": {},\n      \"source\": "@
            =~= head);
        assert(cell_json(c) =~= indent(2) + pretty(v, 2));
    } else {
        reveal_strlit("    {\n      \"cell_type\": \"code\",\n      \"execution_count\": null,\n      \"metadata\": {},\n      \"outputs\": [],\n      \"source\": ");
        lemma_member_step(m, 2, 1, "cell_type"@, JsonV::Str("code"@));
        lemma_member_step(m, 2, 2, "execution_count"@, JsonV::Null);
        lemma_member_step(m, 2, 3, "metadata"@, empty_obj);
        lemma_member_step(m, 2, 4, "outputs"@, empty_arr);
        lemma_member_step(m, 2, 5, "source"@, src);
        let p4 = pretty_members(m, 2, 4);
        assert(p4 =~= item_break(1) + i3 + json_string("cell_type"@) + q + json_string("code"@)
            + item_break(2) + i3 + json_string("execution_count"@) + q + seq!['n', 'u', 'l', 'l']
            + item_break(3) + i3 + json_string("metadata"@) + q + seq!['{', '}']
            + item_break(4) + i3 + json_string("outputs"@) + q + seq!['[', ']']);
        let head = indent(2) + seq!['{'] + p4 + item_break(5) + i3 + json_string("source"@) + q;
        assert("    {\n      \"cell_type\": \"code\",\n      \"execution_count\": null,\n      \"metadata\": {},\n      \"outputs\": [],\n      \"source\": "@
            =~= head);
        assert(cell_json(c) =~= indent(2) + pretty(v, 2));
    }
}

/// The saved cells, written as the elements of the `cells` array.
proof fn lemma_cell_items_pretty(cs: Seq<(Seq<char>, bool)>, n: nat)
    requires
        n <= cs.len(),
    ensures
        pretty_elements(cs.map_values(|c: (Seq<char>, bool)| saved_cell_value(c)), 1, n)
            == cell_items(cs.take(n as int)),
    decreases n,
{
    let av = cs.map_values(|c: (Seq<char>, bool)| saved_cell_value(c));
    if n == 0 {
        assert(cs.take(0) =~= Seq::<(Seq<char>, bool)>::empty());
    } else {
        reveal_strlit("\n");
        reveal_strlit(",\n");
        lemma_cell_items_pretty(cs, (n - 1) as nat);
        let t = cs.take(n as int);
        assert(t.drop_last() =~= cs.take(n - 1));
        assert(t.last() == cs[n - 1]);
        assert(av[n - 1] == saved_cell_value(cs[n - 1]));
        lemma_cell_pretty(cs[n - 1]);
        assert(item_break(n) =~= (if t.len() == 1 {
            "\n"@
        } else {
            ",\n"@
        }));
    }
}

/// The kernel metadata, pretty-printed one level deep.
#[verifier::opaque]
pub open spec fn metadata_text() -> Seq<char> {
    let q = seq![':', ' '];
    let ks_text = seq!['{'] + item_break(1) + indent(3) + json_string("display_name"@) + q
        + json_string("Python 3"@) + item_break(2) + indent(3) + json_string("name"@) + q
        + json_string("python3"@) + seq!['\n'] + indent(2) + seq!['}'];
    let li_text = seq!['{'] + item_break(1) + indent(3) + json_string("name"@) + q + json_string(
        "python"@,
    ) + seq!['\n'] + indent(2) + seq!['}'];
    seq!['{'] + item_break(1) + indent(2) + json_string("kernelspec"@) + q + ks_text + item_break(2)
        + indent(2) + json_string("language_info"@) + q + li_text + seq!['\n'] + indent(1) + seq!['}']
}

#[verifier::rlimit(40)]
proof fn lemma_metadata_pretty()
    ensures
        pretty(kernel_metadata(), 1) == metadata_text(),
{
    let q = seq![':', ' '];
    let meta = kernel_metadata();
    let mm = meta->Object_0;
    let ks = mm[0].1;
    let li = mm[1].1;
    assert(pretty_members(ks->Object_0, 2, 0) == Seq::<char>::empty());
    lemma_member_step(ks->Object_0, 2, 1, "display_name"@, JsonV::Str("Python 3"@));
    lemma_member_step(ks->Object_0, 2, 2, "name"@, JsonV::Str("python3"@));
    assert(pretty_members(li->Object_0, 2, 0) == Seq::<char>::empty());
    lemma_member_step(li->Object_0, 2, 1, "name"@, JsonV::Str("python"@));
    assert(pretty_members(mm, 1, 0) == Seq::<char>::empty());
    lemma_member_step(mm, 1, 1, "kernelspec"@, ks);
    lemma_member_step(mm, 1, 2, "language_info"@, li);
    let ks_text = seq!['{'] + item_break(1) + indent(3) + json_string("display_name"@) + q
        + json_string("Python 3"@) + item_break(2) + indent(3) + json_string("name"@) + q
        + json_string("python3"@) + seq!['\n'] + indent(2) + seq!['}'];
    let li_text = seq!['{'] + item_break(1) + indent(3) + json_string("name"@) + q + json_string(
        "python"@,
    ) + seq!['\n'] + indent(2) + seq!['}'];
    assert(pretty(ks, 2) =~= ks_text);
    assert(pretty(li, 2) =~= li_text);
    reveal(metadata_text);
    assert(pretty(meta, 1) =~= metadata_text());
}

/// What follows the cells in the saved text: the metadata and the format version.
#[verifier::rlimit(80)]
proof fn lemma_tail_text()
    ensures
        ",\n  \"metadata\": {\n    \"kernelspec\": {\n      \"display_name\": \"Python 3\",\n      \"name\": \"python3\"\n    },\n    \"language_info\": {\n      \"name\": \"python\"\n    }\n  },\n  \"nbformat\": 4,\n  \"nbformat_minor\": 5\n}"@ == item_break(2) + indent(1) + json_string("metadata"@) + seq![':', ' ']
            + metadata_text() + item_break(3) + indent(1) + json_string("nbformat"@) + seq![':', ' ']
            + seq!['4'] + item_break(4) + indent(1) + json_string("nbformat_minor"@) + seq![':', ' ']
            + seq!['5'] + seq!['\n'] + indent(0) + seq!['}'],
{
    reveal_strlit("metadata");
    reveal_strlit("kernelspec");
    reveal_strlit("display_name");
    reveal_strlit("Python 3");
    reveal_strlit("name");
    reveal_strlit("python3");
    reveal_strlit("language_info");
    reveal_strlit("python");
    reveal_strlit("nbformat");
    reveal_strlit("nbformat_minor");
    reveal(metadata_text);
    reveal_strlit(",\n  \"metadata\": {\n    \"kernelspec\": {\n      \"display_name\": \"Python 3\",\n      \"name\": \"python3\"\n    },\n    \"language_info\": {\n      \"name\": \"python\"\n    }\n  },\n  \"nbformat\": 4,\n  \"nbformat_minor\": 5\n}");
    lemma_key("metadata"@);
    lemma_key("kernelspec"@);
    lemma_key("display_name"@);
    lemma_key("Python 3"@);
    lemma_key("name"@);
    lemma_key("python3"@);
    lemma_key("language_info"@);
    lemma_key("python"@);
    lemma_key("nbformat"@);
    lemma_key("nbformat_minor"@);
    assert(",\n  \"metadata\": {\n    \"kernelspec\": {\n      \"display_name\": \"Python 3\",\n      \"name\": \"python3\"\n    },\n    \"language_info\": {\n      \"name\": \"python\"\n    }\n  },\n  \"nbformat\": 4,\n  \"nbformat_minor\": 5\n}"@ =~= item_break(2) + indent(1) + json_string("metadata"@) + seq![':', ' ']
        + metadata_text() + item_break(3) + indent(1) + json_string("nbformat"@) + seq![':', ' ']
        + seq!['4'] + item_break(4) + indent(1) + json_string("nbformat_minor"@) + seq![':', ' ']
        + seq!['5'] + seq!['\n'] + indent(0) + seq!['}']);
}

/// The `cells` array as saved.
proof fn lemma_cells_array_pretty(cs: Seq<(Seq<char>, bool)>)
    ensures
        (if cs.len() == 0 {
            "[]"@
        } else {
            "["@ + cell_items(cs) + "\n  ]"@
        }) == pretty(JsonV::Array(cs.map_values(|c: (Seq<char>, bool)| saved_cell_value(c))), 1),
{
    reveal_strlit("[]");
    reveal_strlit("[");
    reveal_strlit("\n  ]");
    let av = cs.map_values(|c: (Seq<char>, bool)| saved_cell_value(c));
    lemma_cell_items_pretty(cs, cs.len());
    assert(cs.take(cs.len() as int) == cs);
    assert(av.len() == cs.len());
    if cs.len() == 0 {
        assert("[]"@ =~= seq!['[', ']']);
    } else {
        assert("\n  ]"@ =~= seq!['\n'] + indent(1) + seq![']']);
        assert("["@ + cell_items(cs) + "\n  ]"@ =~= seq!['['] + pretty_elements(av, 1, av.len())
            + seq!['\n'] + indent(1) + seq![']']);
    }
}

/// The text saved for a list of cells is the document's value pretty-printed: the
/// cells first, then the kernel metadata and the format version, keys in order.
#[verifier::rlimit(60)]
pub proof fn lemma_saved_text_is_pretty(cs: Seq<(Seq<char>, bool)>)
    ensures
        notebook_text(cs) == pretty(saved_value(cs), 0),
{
    reveal_strlit("cells");
    reveal_strlit("{\n  \"cells\": ");
    lemma_key("cells"@);
    let q = seq![':', ' '];
    let v = saved_value(cs);
    let m = v->Object_0;
    let av = cs.map_values(|c: (Seq<char>, bool)| saved_cell_value(c));
    let cells = JsonV::Array(av);
    lemma_metadata_pretty();
    lemma_tail_text();
    assert(decimal(4) =~= seq!['4']);
    assert(decimal(5) =~= seq!['5']);
    assert(pretty(JsonV::PosInt(4), 1) == seq!['4']);
    assert(pretty(JsonV::PosInt(5), 1) == seq!['5']);
    assert(pretty_members(m, 0, 0) == Seq::<char>::empty());
    lemma_member_step(m, 0, 1, "cells"@, cells);
    lemma_member_step(m, 0, 2, "metadata"@, kernel_metadata());
    lemma_member_step(m, 0, 3, "nbformat"@, JsonV::PosInt(4));
    lemma_member_step(m, 0, 4, "nbformat_minor"@, JsonV::PosInt(5));
    let head = seq!['{'] + item_break(1) + indent(1) + json_string("cells"@) + q;
    assert("{\n  \"cells\": "@ =~= head);
    let rest = item_break(2) + indent(1) + json_string("metadata"@) + q + metadata_text()
        + item_break(3) + indent(1) + json_string("nbformat"@) + q + seq!['4'] + item_break(4)
        + indent(1) + json_string("nbformat_minor"@) + q + seq!['5'];
    let pc = pretty(cells, 1);
    let pm1 = pretty_members(m, 0, 1);
    assert(pm1 =~= item_break(1) + indent(1) + json_string("cells"@) + q + pc);
    assert(pretty_members(m, 0, 4) =~= pm1 + rest);
    assert(pretty(v, 0) == seq!['{'] + pretty_members(m, 0, 4) + seq!['\n'] + indent(0) + seq!['}']);
    assert(pretty(v, 0) =~= head + pc + (rest + seq!['\n'] + indent(0) + seq!['}']));
    lemma_cells_array_pretty(cs);
    assert(notebook_text(cs) =~= pretty(v, 0));
}

/// A member found at position `j`, with no earlier member of that name, is the one
/// looked up.
proof fn lemma_lookup_at(m: Seq<(String, Json)>, key: Seq<char>, j: int)
    requires
        0 <= j < m.len(),
        m[j].0@ == key,
        forall|i: int| 0 <= i < j ==> m[i].0@ != key,
    ensures
        lookup(m, key) == Some(m[j].1),
    decreases j,
{
    if j > 0 {
        let d = m.drop_first();
        assert forall|i: int| 0 <= i < j - 1 implies d[i].0@ != key by {
            assert(d[i] == m[i + 1]);
        }
        lemma_lookup_at(d, key, j - 1);
    }
}

/// Of a value that is an object, each member's name and value.
proof fn lemma_object_members(c: Json, i: int)
    requires
        json_view(c) is Object,
        0 <= i < json_view(c)->Object_0.len(),
    ensures
        c is Object,
        c->Object_0@.len() == json_view(c)->Object_0.len(),
        c->Object_0@[i].0@ == json_view(c)->Object_0[i].0,
        json_view(c->Object_0@[i].1) == json_view(c)->Object_0[i].1,
{
}

/// Of a value that is an array, each element.
proof fn lemma_array_elements(c: Json)
    requires
        json_view(c) is Array,
    ensures
        c is Array,
        c->Array_0@.len() == json_view(c)->Array_0.len(),
        forall|i: int|
            0 <= i < c->Array_0@.len() ==> json_view(#[trigger] c->Array_0@[i]) == json_view(
                c,
            )->Array_0[i],
{
}

/// Of a value that is a string, its text.
proof fn lemma_string_value(c: Json, t: Seq<char>)
    requires
        json_view(c) == JsonV::Str(t),
    ensures
        c is Str && c->Str_0@ == t,
{
}

/// A saved cell loads back as the same cell.
proof fn lemma_cell_reads_back(c: Json, cell: (Seq<char>, bool))
    requires
        json_view(c) == saved_cell_value(cell),
    ensures
        cell_kind(c) == "code"@ || cell_kind(c) == "markdown"@,
        (source_text(get(c, "source"@)), cell_kind(c) == "markdown"@) == cell,
{
    reveal_strlit("cell_type");
    reveal_strlit("execution_count");
    reveal_strlit("metadata");
    reveal_strlit("outputs");
    reveal_strlit("source");
    reveal_strlit("markdown");
    reveal_strlit("code");
    let v = saved_cell_value(cell);
    let n: int = if cell.1 {
        3
    } else {
        5
    };
    assert(v->Object_0.len() == n);
    lemma_object_members(c, 0);
    let m = c->Object_0@;
    assert forall|i: int| 0 <= i < n implies m[i].0@ == v->Object_0[i].0 && json_view(m[i].1)
        == v->Object_0[i].1 by {
        lemma_object_members(c, i);
    }
    lemma_lookup_at(m, "cell_type"@, 0);
    let kind = if cell.1 {
        "markdown"@
    } else {
        "code"@
    };
    lemma_string_value(m[0].1, kind);
    assert(cell_kind(c) == kind);
    assert forall|i: int| 0 <= i < n - 1 implies m[i].0@ != "source"@ by {
        assert(m[i].0@.len() != "source"@.len());
    }
    lemma_lookup_at(m, "source"@, n - 1);
    lemma_string_value(m[n - 1].1, cell.0);
    assert(kind == "markdown"@ <==> cell.1);
}

/// Saved cells load back one for one.
proof fn lemma_cells_read_back(items: Seq<Json>, cs: Seq<(Seq<char>, bool)>)
    requires
        items.len() == cs.len(),
        forall|i: int| 0 <= i < cs.len() ==> json_view(#[trigger] items[i]) == saved_cell_value(cs[i]),
    ensures
        loaded_cells(items) == cs,
    decreases items.len(),
{
    if items.len() > 0 {
        let d = items.drop_last();
        let e = cs.drop_last();
        assert forall|i: int| 0 <= i < e.len() implies json_view(#[trigger] d[i]) == saved_cell_value(
            e[i],
        ) by {
            assert(d[i] == items[i]);
        }
        lemma_cells_read_back(d, e);
        assert(json_view(items[items.len() - 1]) == saved_cell_value(cs[cs.len() - 1]));
        lemma_cell_reads_back(items.last(), cs.last());
        assert(e.push(cs.last()) =~= cs);
    } else {
        assert(cs =~= Seq::<(Seq<char>, bool)>::empty());
    }
}

/// Loading a saved notebook gives back the cells that were saved: the saved text is
/// the value `saved_value(cs)` pretty-printed, and a document holding that value reads
/// back as each cell's source and kind, in order.
pub proof fn lemma_save_load_round_trip(cs: Seq<(Seq<char>, bool)>, doc: Json)
    requires
        json_view(doc) == saved_value(cs),
    ensures
        notebook_text(cs) == pretty(saved_value(cs), 0),
        notebook_cells(doc) == Some(cs),
{
    lemma_saved_text_is_pretty(cs);
    reveal_strlit("cells");
    let v = saved_value(cs);
    lemma_object_members(doc, 0);
    let m = doc->Object_0@;
    lemma_lookup_at(m, "cells"@, 0);
    let arr = m[0].1;
    let av = cs.map_values(|c: (Seq<char>, bool)| saved_cell_value(c));
    assert(json_view(arr) == JsonV::Array(av));
    lemma_array_elements(arr);
    let items = arr->Array_0@;
    assert(av.len() == cs.len());
    assert(items.len() == cs.len());
    assert forall|i: int| 0 <= i < cs.len() implies json_view(#[trigger] items[i]) == saved_cell_value(
        cs[i],
    ) by {
        assert(av[i] == saved_cell_value(cs[i]));
    }
    lemma_cells_read_back(items, cs);
}

} // verus!
