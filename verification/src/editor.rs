//! The external editor: how its command line is split into program and arguments, and
//! the per-editor configuration files that point Helix, Neovim and Emacs at the
//! notebook's language server.

use vstd::prelude::*;
use crate::chars::{chars_of, is_white_space, is_white_space_exec, string_of};

verus! {

/// Length of the leading run of non-whitespace characters.
pub open spec fn word_len(s: Seq<char>) -> nat
    decreases s.len(),
{
    if s.len() == 0 || is_white_space(s[0]) {
        0
    } else {
        1 + word_len(s.drop_first())
    }
}

pub proof fn lemma_word_len_bound(s: Seq<char>)
    ensures
        word_len(s) <= s.len(),
    decreases s.len(),
{
    if s.len() > 0 && !is_white_space(s[0]) {
        lemma_word_len_bound(s.drop_first());
    }
}

/// `str::split_whitespace`: the maximal runs of non-whitespace characters, in order.
pub open spec fn words(s: Seq<char>) -> Seq<Seq<char>>
    decreases s.len(),
{
    if s.len() == 0 {
        Seq::empty()
    } else if is_white_space(s[0]) {
        words(s.drop_first())
    } else {
        let n = word_len(s) as int;
        proof {
            lemma_word_len_bound(s);
        }
        seq![s.take(n)] + words(s.skip(n))
    }
}

proof fn lemma_word_len_step(s: Seq<char>, i: int)
    requires
        0 <= i < s.len(),
        !is_white_space(s[i]),
    ensures
        word_len(s.skip(i)) == 1 + word_len(s.skip(i + 1)),
{
    assert(s.skip(i).drop_first() =~= s.skip(i + 1));
}

/// Splits a string at whitespace, as `split_whitespace` does.
pub fn split_words(text: &str) -> (ws: Vec<String>)
    ensures
        ws@.map_values(|w: String| w@) == words(text@),
{
    let s = chars_of(text);
    let ghost t = s@;
    let mut ws: Vec<String> = Vec::new();
    let mut i: usize = 0;
    assert(t.skip(0) =~= t);
    while i < s.len()
        invariant
            t == s@,
            i <= s@.len(),
            ws@.map_values(|w: String| w@) + words(t.skip(i as int)) == words(t),
        decreases s@.len() - i,
    {
        if is_white_space_exec(s[i]) {
            assert(t.skip(i as int).drop_first() =~= t.skip(i + 1));
            i = i + 1;
        } else {
            let start = i;
            let mut word: Vec<char> = Vec::new();
            while i < s.len() && !is_white_space_exec(s[i])
                invariant
                    t == s@,
                    start <= i <= s@.len(),
                    word@ == t.subrange(start as int, i as int),
                    word_len(t.skip(start as int)) == (i - start) + word_len(t.skip(i as int)),
                decreases s@.len() - i,
            {
                proof {
                    lemma_word_len_step(t, i as int);
                }
                word.push(s[i]);
                assert(t.subrange(start as int, i + 1) =~= t.subrange(start as int, i as int).push(
                    t[i as int],
                ));
                i = i + 1;
            }
            assert(word_len(t.skip(i as int)) == 0) by {
                if i < t.len() {
                    assert(t.skip(i as int)[0] == t[i as int]);
                }
            }
            let ghost rest = t.skip(start as int);
            let ghost before = ws@.map_values(|w: String| w@);
            assert(rest[0] == t[start as int]);
            assert(rest.take(i - start) =~= word@);
            assert(rest.skip(i - start) =~= t.skip(i as int));
            assert(words(rest) == seq![word@] + words(t.skip(i as int)));
            ws.push(string_of(word.as_slice()));
            assert(ws@.map_values(|w: String| w@) =~= before.push(word@));
        }
    }
    assert(t.skip(i as int) =~= Seq::<char>::empty());
    assert(ws@.map_values(|w: String| w@) =~= words(t));
    ws
}

/// The program an editor command runs: its first word, or `vi` when it has none.
pub open spec fn editor_program(editor: Seq<char>) -> Seq<char> {
    if words(editor).len() > 0 {
        words(editor)[0]
    } else {
        "vi"@
    }
}

/// The arguments an editor command passes before the file name: its other words.
pub open spec fn editor_args(editor: Seq<char>) -> Seq<Seq<char>> {
    if words(editor).len() > 0 {
        words(editor).drop_first()
    } else {
        Seq::empty()
    }
}

/// Splits the editor command into program and arguments.
pub fn editor_argv(editor: &str) -> (r: (String, Vec<String>))
    ensures
        r.0@ == editor_program(editor@),
        r.1@.map_values(|w: String| w@) == editor_args(editor@),
{
    let mut ws = split_words(editor);
    if ws.len() == 0 {
        return (String::from_str("vi"), ws);
    }
    let ghost all = ws@.map_values(|w: String| w@);
    let prog = ws.remove(0);
    assert(ws@.map_values(|w: String| w@) =~= all.drop_first());
    (prog, ws)
}

/// The editor to use: `$VISUAL`, else `$EDITOR`, else `vi`.
pub open spec fn chosen_editor(visual: Option<Seq<char>>, editor: Option<Seq<char>>) -> Seq<char> {
    match visual {
        Some(v) => v,
        None => match editor {
            Some(e) => e,
            None => "vi"@,
        },
    }
}

/// Picks the editor from the values of `$VISUAL` and `$EDITOR` (each `None` when unset
/// or not Unicode).
pub fn pick_editor(visual: Option<String>, editor: Option<String>) -> (e: String)
    ensures
        e@ == chosen_editor(
            match visual {
                Some(v) => Some(v@),
                None => None,
            },
            match editor {
                Some(v) => Some(v@),
                None => None,
            },
        ),
{
    match visual {
        Some(v) => v,
        None => match editor {
            Some(e) => e,
            None => String::from_str("vi"),
        },
    }
}

/// Helix's `languages.toml`: Python served by the notebook's language server.
pub open spec fn helix_config(lsp: Seq<char>, conn: Seq<char>) -> Seq<char> {
    "[language-server.epycell-lsp]\ncommand = \""@ + lsp + "\"\nargs = [\""@ + conn
        + "\"]\n\n[[language]]\nname = \"python\"\nlanguage-servers = [\"epycell-lsp\"]\n"@
}

/// Neovim's `.nvim.lua`: start the language server for Python buffers.
pub open spec fn nvim_config(lsp: Seq<char>, conn: Seq<char>) -> Seq<char> {
    "vim.api.nvim_create_autocmd(\"FileType\", {\n  pattern = \"python\",\n  callback = function()\n    vim.lsp.start({\n      name = \"epycell-lsp\",\n      cmd = { \""@
        + lsp + "\", \""@ + conn + "\" },\n    })\n  end,\n})\n"@
}

/// Emacs's `.dir-locals.el`: eglot runs the language server for `python-mode`.
pub open spec fn emacs_config(lsp: Seq<char>, conn: Seq<char>) -> Seq<char> {
    "((python-mode . ((eglot-server-programs . ((python-mode . (\""@ + lsp + " "@ + conn
        + "\")))))))\n"@
}

/// The Helix configuration for the language server at `lsp` on connection file `conn`.
pub fn helix_languages(lsp: &str, conn: &str) -> (s: String)
    ensures
        s@ == helix_config(lsp@, conn@),
{
    let mut s = String::from_str("[language-server.epycell-lsp]\ncommand = \"");
    s.append(lsp);
    s.append("\"\nargs = [\"");
    s.append(conn);
    s.append("\"]\n\n[[language]]\nname = \"python\"\nlanguage-servers = [\"epycell-lsp\"]\n");
    s
}

/// The Neovim configuration for the language server at `lsp` on connection file `conn`.
pub fn nvim_lua(lsp: &str, conn: &str) -> (s: String)
    ensures
        s@ == nvim_config(lsp@, conn@),
{
    let mut s = String::from_str(
        "vim.api.nvim_create_autocmd(\"FileType\", {\n  pattern = \"python\",\n  callback = function()\n    vim.lsp.start({\n      name = \"epycell-lsp\",\n      cmd = { \"",
    );
    s.append(lsp);
    s.append("\", \"");
    s.append(conn);
    s.append("\" },\n    })\n  end,\n})\n");
    s
}

/// The Emacs configuration for the language server at `lsp` on connection file `conn`.
pub fn emacs_dir_locals(lsp: &str, conn: &str) -> (s: String)
    ensures
        s@ == emacs_config(lsp@, conn@),
{
    let mut s = String::from_str("((python-mode . ((eglot-server-programs . ((python-mode . (\"");
    s.append(lsp);
    s.append(" ");
    s.append(conn);
    s.append("\")))))))\n");
    s
}

} // verus!
