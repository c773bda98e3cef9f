//! Text handling for cell sources and kernel output: carriage-return aware appending,
//! escape-sequence stripping, line/column to byte-offset conversion and row counts.

use vstd::prelude::*;
use crate::chars::{
    char_width,
    chars_of, count_char, extend_chars, lemma_split_on_nonempty, lemma_split_on_step,
    lemma_utf8_len_push, lines_of, split_lines, split_on, string_of, utf8_len, utf8_len_of,
};

verus! {

/// Index of the last occurrence of `c` in `s`, or -1 when there is none.
pub open spec fn last_index_of(s: Seq<char>, c: char) -> int
    decreases s.len(),
{
    if s.len() == 0 {
        -1
    } else if s.last() == c {
        s.len() - 1
    } else {
        last_index_of(s.drop_last(), c)
    }
}

/// The text up to and including its last `'\n'` (empty when it has none).
pub open spec fn cut_to_line_start(buf: Seq<char>) -> Seq<char> {
    buf.take(last_index_of(buf, '\n') + 1)
}

/// Applies the pieces of `'\r'`-split output in order: the first is appended, and each
/// later one (it followed a `'\r'`) overwrites the current line from its start.
pub open spec fn cr_fold(buf: Seq<char>, parts: Seq<Seq<char>>) -> Seq<char>
    decreases parts.len(),
{
    if parts.len() == 0 {
        buf
    } else if parts.len() == 1 {
        buf + parts[0]
    } else {
        cut_to_line_start(cr_fold(buf, parts.drop_last())) + parts.last()
    }
}

/// What `apply_cr(buf, new)` leaves in `buf`.
pub open spec fn applied_cr(buf: Seq<char>, new: Seq<char>) -> Seq<char> {
    cr_fold(buf, split_on(new, '\r'))
}

/// Cuts the text back to just after its last `'\n'` (empties it when it has none).
fn cut_line_exec(res: &mut Vec<char>)
    ensures
        final(res)@ == cut_to_line_start(old(res)@),
{
    let mut k = res.len();
    assert(res@.take(k as int) == res@);
    while k > 0 && res[k - 1] != '\n'
        invariant
            k <= res@.len(),
            res@ == old(res)@,
            last_index_of(res@, '\n') == last_index_of(res@.take(k as int), '\n'),
        decreases k,
    {
        assert(res@.take(k as int).drop_last() == res@.take(k - 1));
        k = k - 1;
    }
    proof {
        if k > 0 {
            assert(res@.take(k as int).last() == '\n');
        } else {
            assert(res@.take(0) =~= Seq::<char>::empty());
        }
    }
    res.truncate(k);
}

/// Appends `new` to `buf`, a `'\r'` overwriting the current line from its start: the
/// text after each `'\r'` replaces what follows `buf`'s last `'\n'`.
pub fn apply_cr(buf: &mut String, new: &str)
    ensures
        final(buf)@ == applied_cr(old(buf)@, new@),
{
    let n = chars_of(new);
    let mut res = chars_of(buf.as_str());
    let mut cur: Vec<char> = Vec::new();
    let mut first = true;
    let ghost mut done: Seq<Seq<char>> = Seq::empty();
    assert(n@.take(0) =~= Seq::<char>::empty());
    assert(done.push(cur@).drop_last() == done);
    for i in 0..n.len()
        invariant
            n@ == new@,
            split_on(n@.take(i as int), '\r') == done.push(cur@),
            res@ == cr_fold(old(buf)@, done),
            first == (done.len() == 0),
    {
        proof {
            lemma_split_on_step(n@, i as int, '\r');
        }
        if n[i] == '\r' {
            if !first {
                cut_line_exec(&mut res);
            }
            extend_chars(&mut res, &cur);
            proof {
                let d2 = done.push(cur@);
                assert(d2.drop_last() == done);
                if done.len() == 0 {
                    assert(d2 =~= seq![cur@]);
                }
                done = d2;
            }
            first = false;
            cur = Vec::new();
            assert(done.push(cur@) == split_on(n@.take(i + 1), '\r'));
        } else {
            cur.push(n[i]);
            assert(done.push(cur@) =~= split_on(n@.take(i + 1), '\r'));
        }
    }
    assert(n@.take(n.len() as int) == n@);
    if !first {
        cut_line_exec(&mut res);
    }
    extend_chars(&mut res, &cur);
    proof {
        let d2 = done.push(cur@);
        assert(d2.drop_last() == done);
        if done.len() == 0 {
            assert(d2 =~= seq![cur@]);
        }
    }
    *buf = string_of(&res);
}

/// Split at a character it does not contain, a text is one piece.
proof fn lemma_split_on_absent(s: Seq<char>, sep: char)
    requires
        forall|i: int| 0 <= i < s.len() ==> s[i] != sep,
    ensures
        split_on(s, sep) == seq![s],
    decreases s.len(),
{
    if s.len() > 0 {
        let d = s.drop_last();
        assert forall|i: int| 0 <= i < d.len() implies d[i] != sep by {
            assert(d[i] == s[i]);
        }
        lemma_split_on_absent(d, sep);
        let rest = split_on(d, sep);
        assert(rest == seq![d]);
        assert(s.last() != sep) by {
            assert(s[s.len() - 1] != sep);
        }
        assert(split_on(s, sep) == rest.update(rest.len() - 1, rest.last().push(s.last())));
        assert(d.push(s.last()) =~= s);
        assert(rest.update(0, d.push(s.last())) =~= seq![s]);
    } else {
        assert(s =~= Seq::<char>::empty());
    }
}

/// Split after a separator, the text that follows (free of separators) is the last piece.
proof fn lemma_split_on_after(a: Seq<char>, b: Seq<char>, sep: char)
    requires
        forall|i: int| 0 <= i < b.len() ==> b[i] != sep,
    ensures
        split_on(a.push(sep) + b, sep) == split_on(a, sep).push(b),
    decreases b.len(),
{
    lemma_split_on_nonempty(a, sep);
    let r = split_on(a, sep);
    if b.len() == 0 {
        assert(a.push(sep) + b =~= a.push(sep));
        assert(a.push(sep).drop_last() =~= a);
        assert(a.push(sep).last() == sep);
        assert(split_on(a.push(sep), sep) == r.push(Seq::<char>::empty()));
        assert(b =~= Seq::<char>::empty());
    } else {
        let b0 = b.drop_last();
        assert forall|i: int| 0 <= i < b0.len() implies b0[i] != sep by {
            assert(b0[i] == b[i]);
        }
        lemma_split_on_after(a, b0, sep);
        let s = a.push(sep) + b;
        assert(s.drop_last() =~= a.push(sep) + b0);
        assert(s.last() == b.last());
        assert(b.last() != sep) by {
            assert(b[b.len() - 1] != sep);
        }
        let rest = split_on(s.drop_last(), sep);
        assert(rest == r.push(b0));
        assert(split_on(s, sep) == rest.update(rest.len() - 1, rest.last().push(s.last())));
        assert(b0.push(b.last()) =~= b);
        assert(r.push(b0).update(r.len() as int, b0.push(b.last())) =~= r.push(b));
    }
}

/// Output without carriage returns is appended as it is; empty output changes nothing.
pub proof fn lemma_apply_cr_appends(buf: Seq<char>, new: Seq<char>)
    requires
        forall|i: int| 0 <= i < new.len() ==> new[i] != '\r',
    ensures
        applied_cr(buf, new) == buf + new,
{
    lemma_split_on_absent(new, '\r');
}

/// A carriage return overwrites the current line: what follows the last `'\r'` (up to
/// the end) replaces the line that the output before it left, keeping everything up to
/// that line's start (how progress bars update in place).
pub proof fn lemma_apply_cr_overwrites_line(buf: Seq<char>, before: Seq<char>, after: Seq<char>)
    requires
        forall|i: int| 0 <= i < after.len() ==> after[i] != '\r',
    ensures
        applied_cr(buf, before.push('\r') + after) == cut_to_line_start(applied_cr(buf, before))
            + after,
{
    lemma_split_on_after(before, after, '\r');
    lemma_split_on_nonempty(before, '\r');
    let parts = split_on(before, '\r').push(after);
    assert(parts.drop_last() =~= split_on(before, '\r'));
    assert(parts.last() == after);
}

/// ASCII letters, which end an escape sequence.
pub open spec fn is_ascii_alpha(c: char) -> bool {
    ('a' <= c && c <= 'z') || ('A' <= c && c <= 'Z')
}

/// Scanning `s` left to right: the kept characters, and whether an escape sequence
/// is still open. An ESC opens a sequence; inside one every character is dropped,
/// and an ASCII letter closes it.
pub open spec fn ansi_scan(s: Seq<char>) -> (Seq<char>, bool)
    decreases s.len(),
{
    if s.len() == 0 {
        (Seq::empty(), false)
    } else {
        let prev = ansi_scan(s.drop_last());
        let c = s.last();
        if prev.1 {
            (prev.0, !is_ascii_alpha(c))
        } else if c == '\x1b' {
            (prev.0, true)
        } else {
            (prev.0.push(c), false)
        }
    }
}

/// `s` with its escape sequences (ESC up to and including the next ASCII letter) removed.
pub fn strip_ansi(s: &str) -> (out: String)
    ensures
        out@ == ansi_scan(s@).0,
{
    let v = chars_of(s);
    let mut kept: Vec<char> = Vec::new();
    let mut skipping = false;
    assert(v@.take(0) =~= Seq::<char>::empty());
    for i in 0..v.len()
        invariant
            v@ == s@,
            ansi_scan(v@.take(i as int)) == (kept@, skipping),
    {
        assert(v@.take(i + 1).drop_last() == v@.take(i as int));
        let c = v[i];
        if skipping {
            skipping = !(('a' <= c && c <= 'z') || ('A' <= c && c <= 'Z'));
        } else if c == '\x1b' {
            skipping = true;
        } else {
            kept.push(c);
        }
    }
    assert(v@.take(v.len() as int) == v@);
    string_of(&kept)
}

/// Stripped text holds no ESC: every escape sequence is removed.
pub proof fn lemma_strip_ansi_no_escape(s: Seq<char>)
    ensures
        forall|i: int| 0 <= i < ansi_scan(s).0.len() ==> ansi_scan(s).0[i] != '\x1b',
    decreases s.len(),
{
    if s.len() > 0 {
        lemma_strip_ansi_no_escape(s.drop_last());
        let prev = ansi_scan(s.drop_last());
        let c = s.last();
        if !prev.1 && c != '\x1b' {
            assert forall|i: int| 0 <= i < prev.0.push(c).len() implies prev.0.push(c)[i] != '\x1b' by {
                if i < prev.0.len() {
                    assert(prev.0.push(c)[i] == prev.0[i]);
                }
            }
        }
    }
}

/// Text without ESC passes through unchanged.
pub proof fn lemma_strip_ansi_plain(s: Seq<char>)
    requires
        forall|i: int| 0 <= i < s.len() ==> s[i] != '\x1b',
    ensures
        ansi_scan(s) == (s, false),
    decreases s.len(),
{
    if s.len() > 0 {
        lemma_strip_ansi_plain(s.drop_last());
        assert(s.drop_last().push(s.last()) =~= s);
    }
}

/// Bytes taken by the first `k` lines, one line feed counted after each.
pub open spec fn bytes_before(ls: Seq<Seq<char>>, k: int) -> int
    decreases k,
{
    if k <= 0 {
        0
    } else {
        bytes_before(ls, k - 1) + utf8_len(ls[k - 1]) + 1
    }
}

/// The byte offset of (`line`, `character`) in `text`: the bytes of the lines before it,
/// each with its line feed, plus `character` capped at the line's byte length; past the
/// last line, the bytes of all lines.
pub open spec fn position_offset(text: Seq<char>, line: int, character: int) -> int {
    let ls = lines_of(text);
    if line < ls.len() {
        bytes_before(ls, line) + (if character < utf8_len(ls[line]) {
            character
        } else {
            utf8_len(ls[line]) as int
        })
    } else {
        bytes_before(ls, ls.len() as int)
    }
}

proof fn lemma_bytes_before_same(a: Seq<Seq<char>>, b: Seq<Seq<char>>, k: int)
    requires
        0 <= k <= a.len(),
        k <= b.len(),
        forall|i: int| 0 <= i < k ==> a[i] == b[i],
    ensures
        bytes_before(a, k) == bytes_before(b, k),
    decreases k,
{
    if k > 0 {
        lemma_bytes_before_same(a, b, k - 1);
    }
}

proof fn lemma_bytes_before_le(a: Seq<Seq<char>>, b: Seq<Seq<char>>, k: int)
    requires
        0 <= k <= a.len(),
        k <= b.len(),
        forall|i: int| 0 <= i < k ==> utf8_len(#[trigger] a[i]) <= utf8_len(b[i]),
    ensures
        bytes_before(a, k) <= bytes_before(b, k),
    decreases k,
{
    if k > 0 {
        lemma_bytes_before_le(a, b, k - 1);
    }
}

proof fn lemma_bytes_before_mono(a: Seq<Seq<char>>, k1: int, k2: int)
    requires
        0 <= k1 <= k2,
    ensures
        bytes_before(a, k1) <= bytes_before(a, k2),
    decreases k2,
{
    if k2 > k1 {
        lemma_bytes_before_mono(a, k1, k2 - 1);
    }
}

proof fn lemma_split_bytes(s: Seq<char>)
    ensures
        bytes_before(split_on(s, '\n'), split_on(s, '\n').len() as int) == utf8_len(s) + 1,
    decreases s.len(),
{
    if s.len() == 0 {
        let p = split_on(s, '\n');
        assert(p == seq![Seq::<char>::empty()]);
        assert(encode_utf8_empty());
        assert(utf8_len(p[0]) == 0);
        assert(s =~= Seq::<char>::empty());
        assert(utf8_len(s) == 0);
        assert(bytes_before(p, 1) == bytes_before(p, 0) + utf8_len(p[0]) + 1);
    } else {
        let r = split_on(s.drop_last(), '\n');
        lemma_split_bytes(s.drop_last());
        lemma_split_on_nonempty(s.drop_last(), '\n');
        lemma_utf8_len_push(s.drop_last(), s.last());
        assert(s.drop_last().push(s.last()) == s);
        let p = split_on(s, '\n');
        if s.last() == '\n' {
            assert(p == r.push(Seq::<char>::empty()));
            lemma_bytes_before_same(p, r, r.len() as int);
            assert(p[r.len() as int] == Seq::<char>::empty());
            assert(utf8_len(Seq::<char>::empty()) == 0) by {
                assert(encode_utf8_empty());
            }
            assert(char_width('\n') == 1);
            assert(bytes_before(p, p.len() as int) == bytes_before(p, r.len() as int) + utf8_len(
                p[r.len() as int],
            ) + 1);
        } else {
            assert(p == r.update(r.len() - 1, r.last().push(s.last())));
            lemma_bytes_before_same(p, r, r.len() - 1);
            lemma_utf8_len_push(r.last(), s.last());
            assert(bytes_before(p, p.len() as int) == bytes_before(p, r.len() - 1) + utf8_len(
                p[r.len() - 1],
            ) + 1);
            assert(bytes_before(r, r.len() as int) == bytes_before(r, r.len() - 1) + utf8_len(
                r[r.len() - 1],
            ) + 1);
        }
    }
}

spec fn encode_utf8_empty() -> bool {
    vstd::utf8::encode_utf8(Seq::<char>::empty()).len() == 0
}

proof fn lemma_lines_bytes(s: Seq<char>)
    ensures
        bytes_before(lines_of(s), lines_of(s).len() as int) <= utf8_len(s) + 1,
{
    let p = split_on(s, '\n');
    lemma_split_on_nonempty(s, '\n');
    lemma_split_bytes(s);
    let ls = lines_of(s);
    assert forall|i: int| 0 <= i < ls.len() implies utf8_len(#[trigger] ls[i]) <= utf8_len(
        p[i],
    ) by {
        if i < p.len() - 1 {
            let l = p[i];
            if l.len() > 0 && l.last() == '\r' {
                lemma_utf8_len_push(l.drop_last(), l.last());
                assert(l.drop_last().push(l.last()) == l);
            }
        }
    }
    lemma_bytes_before_le(ls, p, ls.len() as int);
    lemma_bytes_before_mono(p, ls.len() as int, p.len() as int);
}

/// A position never lies past the end of the text, save for the one line feed counted
/// after a last line that has none; a position on one of the text's lines lies within it.
pub proof fn lemma_position_offset_bound(text: Seq<char>, line: int, character: int)
    requires
        line >= 0,
        character >= 0,
    ensures
        position_offset(text, line, character) <= utf8_len(text) + 1,
        line < lines_of(text).len() ==> position_offset(text, line, character) <= utf8_len(text),
{
    let ls = lines_of(text);
    lemma_lines_bytes(text);
    if line < ls.len() {
        lemma_bytes_before_mono(ls, line + 1, ls.len() as int);
    }
}

/// Byte offset into `text` of a (line, character) position, as a language client sends
/// it: the line's start plus `character` capped at that line's byte length; a line past
/// the end gives the bytes of all lines (each counted with one line feed).
pub fn offset_from_position(text: &str, line: usize, character: usize) -> (r: usize)
    requires
        utf8_len(text@) < usize::MAX,
    ensures
        r == position_offset(text@, line as int, character as int),
{
    let cs = chars_of(text);
    let ls = split_lines(&cs);
    let ghost lv = lines_of(text@);
    proof {
        lemma_lines_bytes(text@);
    }
    let mut offset: usize = 0;
    for i in 0..ls.len()
        invariant
            cs@ == text@,
            lv == lines_of(text@),
            ls@.len() == lv.len(),
            forall|k: int| 0 <= k < ls@.len() ==> #[trigger] ls@[k]@ == lv[k],
            offset == bytes_before(lv, i as int),
            bytes_before(lv, lv.len() as int) <= utf8_len(text@) + 1,
            utf8_len(text@) < usize::MAX,
            i <= line,
    {
        proof {
            lemma_bytes_before_mono(lv, i + 1, lv.len() as int);
        }
        assert(ls@[i as int]@ == lv[i as int]);
        let len = utf8_len_of(ls[i].as_slice());
        if i == line {
            let add = if character < len {
                character
            } else {
                len
            };
            return offset + add;
        }
        offset = offset + len + 1;
    }
    offset
}

/// Rows a code cell's source takes: its `'\n'`-separated pieces, as a `u16`
/// (wrapping like the `as u16` it is computed with).
pub open spec fn source_row_count(source: Seq<char>) -> int {
    ((count_char(source, '\n') + 1) % 65536) as int
}

/// Rows a code cell's source takes on screen.
pub fn source_rows(source: &str) -> (r: u16)
    ensures
        r == source_row_count(source@),
{
    let v = chars_of(source);
    let mut n: usize = 0;
    for i in 0..v.len()
        invariant
            v@ == source@,
            n == count_char(v@.take(i as int), '\n'),
            n <= i,
    {
        assert(v@.take(i + 1).drop_last() == v@.take(i as int));
        if v[i] == '\n' {
            n = n + 1;
        }
    }
    assert(v@.take(v.len() as int) == v@);
    let m = (n % 65536) as u32;
    assert((m + 1) % 65536 == (n + 1) % 65536) by (nonlinear_arith)
        requires
            m == n % 65536,
    ;
    ((m + 1) % 65536) as u16
}

/// How many lines `tui_markdown` renders a markdown source into.
pub uninterp spec fn rendered_markdown_lines(source: Seq<char>) -> usize;

/// Calls `tui_markdown::from_str` on the source and takes `height()` (the line count)
/// of the rendered text. Claimed: the count depends on the source alone.
#[verifier::external_body]
fn markdown_line_count(source: &str) -> (n: usize)
    ensures
        n == rendered_markdown_lines(source@),
{
    tui_markdown::from_str(source).height()
}

/// Rendered height of a markdown cell's source: the rendered line count as a `u16`
/// (wrapping), at least 1.
pub open spec fn markdown_row_count(source: Seq<char>) -> int {
    let h = rendered_markdown_lines(source) % 65536;
    if h < 1 {
        1
    } else {
        h as int
    }
}

/// Rendered height (in rows) of a markdown cell's source.
pub fn markdown_rows(source: &str) -> (r: u16)
    ensures
        r == markdown_row_count(source@),
{
    let h = (markdown_line_count(source) % 65536) as u16;
    if h < 1 {
        1
    } else {
        h
    }
}

/// `v.clamp(lo, hi)` for `lo <= hi`.
pub open spec fn clamp(v: int, lo: int, hi: int) -> int {
    if v < lo {
        lo
    } else if v > hi {
        hi
    } else {
        v
    }
}

/// Height (borders included) of the box a live editor gets: the source lines plus
/// two border rows and three rows of editor chrome, kept between 6 and four rows
/// less than the body. `u16::clamp` panics when the body is under 10 rows.
pub fn edit_box_rows(body_height: u16, source_lines: u16) -> (r: u16)
    requires
        source_lines + 5 <= u16::MAX,
        body_height >= 10,
    ensures
        r == clamp(source_lines + 5, 6, body_height - 4),
{
    let content = source_lines + 2 + 3;
    let max = body_height.saturating_sub(4);
    if content < 6 {
        6
    } else if content > max {
        max
    } else {
        content
    }
}

} // verus!
