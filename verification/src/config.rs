//! User configuration: colours, key bindings and image limits, their defaults, the
//! parsing of colour and key-binding strings, and the merge of a parsed config file
//! over the defaults.

use vstd::prelude::*;
use vstd::utf8::encode_utf8;
use crate::chars::{
    chars_eq_str, chars_of, split_chars, split_on, string_of, trim, trim_chars, utf8_len,
    lemma_split_on_nonempty, lemma_utf8_len_push,
};

verus! {

/// A 24-bit colour.
#[derive(Clone, Copy, Debug, PartialEq, Eq, Structural)]
pub struct Rgb {
    pub r: u8,
    pub g: u8,
    pub b: u8,
}

/// A key on the keyboard, as the terminal reports it.
#[derive(Clone, Copy, Debug, PartialEq, Eq, Structural)]
pub enum KeyCode {
    Backspace,
    Enter,
    Left,
    Right,
    Up,
    Down,
    Home,
    End,
    PageUp,
    PageDown,
    Tab,
    BackTab,
    Delete,
    Insert,
    F(u8),
    Char(char),
    Null,
    Esc,
    CapsLock,
    ScrollLock,
    NumLock,
    PrintScreen,
    Pause,
    Menu,
    KeypadBegin,
    /// A media key, by its position in the terminal library's list of media keys.
    Media(u8),
    /// A lone modifier key, by its position in the terminal library's list of them.
    Modifier(u8),
}

/// Modifier keys held with a key.
#[derive(Clone, Copy, Debug, PartialEq, Eq, Structural)]
pub struct KeyModifiers {
    pub shift: bool,
    pub control: bool,
    pub alt: bool,
    pub super_key: bool,
    pub hyper: bool,
    pub meta: bool,
}

impl KeyModifiers {
    pub open spec fn spec_none() -> KeyModifiers {
        KeyModifiers {
            shift: false,
            control: false,
            alt: false,
            super_key: false,
            hyper: false,
            meta: false,
        }
    }

    /// No modifier held.
    pub fn none() -> (m: KeyModifiers)
        ensures
            m == KeyModifiers::spec_none(),
    {
        KeyModifiers {
            shift: false,
            control: false,
            alt: false,
            super_key: false,
            hyper: false,
            meta: false,
        }
    }

    /// Only Control held.
    pub fn control_only() -> (m: KeyModifiers)
        ensures
            m == (KeyModifiers { control: true, ..KeyModifiers::spec_none() }),
    {
        KeyModifiers { control: true, ..KeyModifiers::none() }
    }
}

/// A key together with the modifiers that must be held.
#[derive(Clone, Copy, Debug, PartialEq, Eq, Structural)]
pub struct KeyBind {
    pub code: KeyCode,
    pub mods: KeyModifiers,
}

/// Decimal digits of a natural number, most significant first.
pub open spec fn decimal(n: nat) -> Seq<char>
    decreases n,
{
    if n < 10 {
        seq![((n + 48) as u32) as char]
    } else {
        decimal(n / 10).push((((n % 10) + 48) as u32) as char)
    }
}

fn digit_char(d: u8) -> (c: char)
    requires
        d < 10,
    ensures
        c == ((d + 48) as u32) as char,
{
    (d + 48) as char
}

/// The decimal text of a byte, as `format!("{n}")` writes it.
pub fn u8_decimal(n: u8) -> (s: String)
    ensures
        s@ == decimal(n as nat),
{
    let mut s = String::new();
    if n >= 100 {
        crate::chars::push_char(&mut s, digit_char(n / 100));
        crate::chars::push_char(&mut s, digit_char((n / 10) % 10));
        crate::chars::push_char(&mut s, digit_char(n % 10));
        assert(decimal((n / 100) as nat) == seq![((((n / 100) as nat) + 48) as u32) as char]);
        assert(decimal((n / 10) as nat) == decimal(((n / 10) / 10) as nat).push(
            (((((n / 10) as nat) % 10) + 48) as u32) as char,
        ));
        assert(decimal(n as nat) == decimal((n / 10) as nat).push(
            ((((n as nat) % 10) + 48) as u32) as char,
        ));
        assert(s@ =~= decimal(n as nat));
    } else if n >= 10 {
        crate::chars::push_char(&mut s, digit_char(n / 10));
        crate::chars::push_char(&mut s, digit_char(n % 10));
        assert(decimal((n / 10) as nat) == seq![((((n / 10) as nat) + 48) as u32) as char]);
        assert(decimal(n as nat) == decimal((n / 10) as nat).push(
            ((((n as nat) % 10) + 48) as u32) as char,
        ));
        assert(s@ =~= decimal(n as nat));
    } else {
        crate::chars::push_char(&mut s, digit_char(n));
        assert(s@ =~= decimal(n as nat));
    }
    s
}

/// The decimal text of a number, as `format!("{n}")` writes it.
pub fn usize_decimal(n: usize) -> (s: String)
    ensures
        s@ == decimal(n as nat),
    decreases n,
{
    if n < 10 {
        let mut s = String::new();
        crate::chars::push_char(&mut s, digit_char(n as u8));
        s
    } else {
        let mut s = usize_decimal(n / 10);
        crate::chars::push_char(&mut s, digit_char((n % 10) as u8));
        s
    }
}

/// The modifier prefix of a binding's label: `C-`, `A-`, `S-` in that order.
pub open spec fn mods_label(m: KeyModifiers) -> Seq<char> {
    (if m.control {
        "C-"@
    } else {
        Seq::empty()
    }) + (if m.alt {
        "A-"@
    } else {
        Seq::empty()
    }) + (if m.shift {
        "S-"@
    } else {
        Seq::empty()
    })
}

/// The key part of a binding's label.
pub open spec fn code_label(code: KeyCode) -> Seq<char> {
    match code {
        KeyCode::Char(c) => seq![c],
        KeyCode::Enter => "Enter"@,
        KeyCode::Esc => "Esc"@,
        KeyCode::Tab => "Tab"@,
        KeyCode::Up => "↑"@,
        KeyCode::Down => "↓"@,
        KeyCode::Left => "←"@,
        KeyCode::Right => "→"@,
        KeyCode::Backspace => "BS"@,
        KeyCode::Delete => "Del"@,
        KeyCode::Home => "Home"@,
        KeyCode::End => "End"@,
        KeyCode::PageUp => "PgUp"@,
        KeyCode::PageDown => "PgDn"@,
        KeyCode::F(n) => seq!['F'] + decimal(n as nat),
        _ => "?"@,
    }
}

impl KeyBind {
    /// The label shown for a binding: modifier prefix, then the key's name.
    pub open spec fn spec_label(self) -> Seq<char> {
        mods_label(self.mods) + code_label(self.code)
    }

    fn new(code: KeyCode) -> (k: KeyBind)
        ensures
            k == (KeyBind { code, mods: KeyModifiers::spec_none() }),
    {
        KeyBind { code, mods: KeyModifiers::none() }
    }

    fn with_mods(code: KeyCode, mods: KeyModifiers) -> (k: KeyBind)
        ensures
            k == (KeyBind { code, mods }),
    {
        KeyBind { code, mods }
    }

    /// Whether a pressed key, with exactly these modifiers, triggers this binding.
    pub fn matches(&self, code: KeyCode, mods: KeyModifiers) -> (b: bool)
        ensures
            b == (self.code == code && self.mods == mods),
    {
        self.code == code && self.mods == mods
    }

    /// Short human-readable name of the binding, such as `C-r` or `↓`.
    pub fn label(&self) -> (s: String)
        ensures
            s@ == self.spec_label(),
    {
        let mut s = String::new();
        if self.mods.control {
            s.append("C-");
        }
        if self.mods.alt {
            s.append("A-");
        }
        if self.mods.shift {
            s.append("S-");
        }
        assert(s@ == mods_label(self.mods));
        match self.code {
            KeyCode::Char(c) => crate::chars::push_char(&mut s, c),
            KeyCode::Enter => s.append("Enter"),
            KeyCode::Esc => s.append("Esc"),
            KeyCode::Tab => s.append("Tab"),
            KeyCode::Up => s.append("↑"),
            KeyCode::Down => s.append("↓"),
            KeyCode::Left => s.append("←"),
            KeyCode::Right => s.append("→"),
            KeyCode::Backspace => s.append("BS"),
            KeyCode::Delete => s.append("Del"),
            KeyCode::Home => s.append("Home"),
            KeyCode::End => s.append("End"),
            KeyCode::PageUp => s.append("PgUp"),
            KeyCode::PageDown => s.append("PgDn"),
            KeyCode::F(n) => {
                crate::chars::push_char(&mut s, 'F');
                let d = u8_decimal(n);
                s.append(d.as_str());
            },
            _ => s.append("?"),
        }
        assert(s@ == mods_label(self.mods) + code_label(self.code));
        s
    }
}

/// The label's modifier prefix, as characters: `C-`, then `A-`, then `S-`, for the
/// modifiers held.
pub open spec fn prefix_chars(m: KeyModifiers) -> Seq<char> {
    (if m.control {
        seq!['C', '-']
    } else {
        Seq::empty()
    }) + (if m.alt {
        seq!['A', '-']
    } else {
        Seq::empty()
    }) + (if m.shift {
        seq!['S', '-']
    } else {
        Seq::empty()
    })
}

/// A key that has a name of its own in labels.
pub open spec fn has_label_name(k: KeyCode) -> bool {
    matches!(k, KeyCode::Enter | KeyCode::Esc | KeyCode::Tab | KeyCode::Up | KeyCode::Down | KeyCode::Left | KeyCode::Right | KeyCode::Backspace | KeyCode::Delete | KeyCode::Home | KeyCode::End | KeyCode::PageUp | KeyCode::PageDown)
}

/// Labels: the modifier prefix `C-`, `A-`, `S-` (those held, in that order), then the
/// key: a character as itself, `F` and the number for a function key, and an arrow
/// for each arrow key: Up `↑`, Down `↓`, Left `←`, Right `→`.
pub proof fn lemma_labels(m: KeyModifiers, c: char, n: u8)
    ensures
        (KeyBind { code: KeyCode::Char(c), mods: m }).spec_label() == prefix_chars(m).push(c),
        (KeyBind { code: KeyCode::F(n), mods: m }).spec_label() == prefix_chars(m) + seq!['F']
            + decimal(n as nat),
        (KeyBind { code: KeyCode::Up, mods: m }).spec_label() == prefix_chars(m).push('↑'),
        (KeyBind { code: KeyCode::Down, mods: m }).spec_label() == prefix_chars(m).push('↓'),
        (KeyBind { code: KeyCode::Left, mods: m }).spec_label() == prefix_chars(m).push('←'),
        (KeyBind { code: KeyCode::Right, mods: m }).spec_label() == prefix_chars(m).push('→'),
{
    reveal_strlit("C-");
    reveal_strlit("A-");
    reveal_strlit("S-");
    reveal_strlit("↑");
    reveal_strlit("↓");
    reveal_strlit("←");
    reveal_strlit("→");
    assert(mods_label(m) =~= prefix_chars(m));
    assert(mods_label(m) + seq![c] =~= prefix_chars(m).push(c));
    assert(mods_label(m) + "↑"@ =~= prefix_chars(m).push('↑'));
    assert(mods_label(m) + "↓"@ =~= prefix_chars(m).push('↓'));
    assert(mods_label(m) + "←"@ =~= prefix_chars(m).push('←'));
    assert(mods_label(m) + "→"@ =~= prefix_chars(m).push('→'));
    assert(mods_label(m) + (seq!['F'] + decimal(n as nat)) =~= prefix_chars(m) + seq!['F'] + decimal(
        n as nat,
    ));
}

/// Which named key a label names: told apart by length, first and last character.
spec fn label_key(l: Seq<char>) -> KeyCode {
    if l.len() == 1 {
        if l[0] == '↑' {
            KeyCode::Up
        } else if l[0] == '↓' {
            KeyCode::Down
        } else if l[0] == '←' {
            KeyCode::Left
        } else {
            KeyCode::Right
        }
    } else if l.len() == 2 {
        KeyCode::Backspace
    } else if l.len() == 3 {
        if l[0] == 'T' {
            KeyCode::Tab
        } else if l[0] == 'D' {
            KeyCode::Delete
        } else if l[2] == 'c' {
            KeyCode::Esc
        } else {
            KeyCode::End
        }
    } else if l.len() == 4 {
        if l[0] == 'H' {
            KeyCode::Home
        } else if l[3] == 'p' {
            KeyCode::PageUp
        } else {
            KeyCode::PageDown
        }
    } else {
        KeyCode::Enter
    }
}

/// Two different named keys (Enter, Esc, Tab, the arrows, Backspace, Delete, Home, End,
/// PageUp, PageDown) held with the same modifiers get different labels.
pub proof fn lemma_named_labels_differ(m: KeyModifiers, a: KeyCode, b: KeyCode)
    requires
        has_label_name(a),
        has_label_name(b),
        a != b,
    ensures
        (KeyBind { code: a, mods: m }).spec_label() != (KeyBind { code: b, mods: m }).spec_label(),
{
    reveal_strlit("Enter");
    reveal_strlit("Esc");
    reveal_strlit("Tab");
    reveal_strlit("↑");
    reveal_strlit("↓");
    reveal_strlit("←");
    reveal_strlit("→");
    reveal_strlit("BS");
    reveal_strlit("Del");
    reveal_strlit("Home");
    reveal_strlit("End");
    reveal_strlit("PgUp");
    reveal_strlit("PgDn");
    let p = mods_label(m);
    let x = code_label(a);
    let y = code_label(b);
    assert(label_key(x) == a);
    assert(label_key(y) == b);
    if p + x == p + y {
        assert((p + x).subrange(p.len() as int, (p + x).len() as int) =~= x);
        assert((p + y).subrange(p.len() as int, (p + y).len() as int) =~= y);
    }
}

/// The configurable key bindings; each action has a list of bindings.
#[derive(Clone, Debug)]
pub struct Keys {
    pub run: Vec<KeyBind>,
    pub run_all: Vec<KeyBind>,
    pub run_above: Vec<KeyBind>,
    pub interrupt: Vec<KeyBind>,
    pub move_down: Vec<KeyBind>,
    pub move_up: Vec<KeyBind>,
    pub edit: Vec<KeyBind>,
    pub edit_full: Vec<KeyBind>,
    pub new_below: Vec<KeyBind>,
    pub new_above: Vec<KeyBind>,
    pub delete: Vec<KeyBind>,
    pub save: Vec<KeyBind>,
    pub quit: Vec<KeyBind>,
}

pub open spec fn plain(c: char) -> KeyBind {
    KeyBind { code: KeyCode::Char(c), mods: KeyModifiers::spec_none() }
}

pub open spec fn plain_key(code: KeyCode) -> KeyBind {
    KeyBind { code, mods: KeyModifiers::spec_none() }
}

pub open spec fn ctrl(c: char) -> KeyBind {
    KeyBind { code: KeyCode::Char(c), mods: KeyModifiers { control: true, ..KeyModifiers::spec_none() } }
}

/// The label of the first binding of a list, or nothing for an empty list.
pub open spec fn first_label_of(binds: Seq<KeyBind>) -> Seq<char> {
    if binds.len() > 0 {
        binds[0].spec_label()
    } else {
        Seq::empty()
    }
}

impl Keys {
    /// The help text of the status bar, from the first binding of each action.
    pub open spec fn spec_help_line(self) -> Seq<char> {
        first_label_of(self.move_down@) + "/"@ + first_label_of(self.move_up@) + " move · "@
            + first_label_of(self.edit@) + " edit · "@ + first_label_of(self.edit_full@)
            + " full-edit · "@ + first_label_of(self.run@) + " run · "@ + first_label_of(
            self.run_all@,
        ) + " run-all · "@ + first_label_of(self.new_below@) + " new · "@ + first_label_of(
            self.delete@,
        ) + first_label_of(self.delete@) + "del · "@ + first_label_of(self.save@) + " save · "@
            + first_label_of(self.quit@) + " quit"@
    }

    fn first_label(binds: &[KeyBind]) -> (s: String)
        ensures
            s@ == first_label_of(binds@),
    {
        if binds.len() > 0 {
            binds[0].label()
        } else {
            String::new()
        }
    }

    /// One-line summary of the main bindings for the status bar.
    pub fn help_line(&self) -> (s: String)
        ensures
            s@ == self.spec_help_line(),
    {
        let mut s = Self::first_label(self.move_down.as_slice());
        s.append("/");
        s.append(Self::first_label(self.move_up.as_slice()).as_str());
        s.append(" move · ");
        s.append(Self::first_label(self.edit.as_slice()).as_str());
        s.append(" edit · ");
        s.append(Self::first_label(self.edit_full.as_slice()).as_str());
        s.append(" full-edit · ");
        s.append(Self::first_label(self.run.as_slice()).as_str());
        s.append(" run · ");
        s.append(Self::first_label(self.run_all.as_slice()).as_str());
        s.append(" run-all · ");
        s.append(Self::first_label(self.new_below.as_slice()).as_str());
        s.append(" new · ");
        s.append(Self::first_label(self.delete.as_slice()).as_str());
        s.append(Self::first_label(self.delete.as_slice()).as_str());
        s.append("del · ");
        s.append(Self::first_label(self.save.as_slice()).as_str());
        s.append(" save · ");
        s.append(Self::first_label(self.quit.as_slice()).as_str());
        s.append(" quit");
        s
    }
}

impl Default for Keys {
    fn default() -> (k: Keys)
        ensures
            k.run@ == seq![plain('R')],
            k.run_all@ == seq![ctrl('r')],
            k.run_above@ == seq![ctrl('a')],
            k.interrupt@ == seq![ctrl('c')],
            k.move_down@ == seq![plain('j'), plain_key(KeyCode::Down)],
            k.move_up@ == seq![plain('k'), plain_key(KeyCode::Up)],
            k.edit@ == seq![plain('i'), plain_key(KeyCode::Enter)],
            k.edit_full@ == seq![plain('e')],
            k.new_below@ == seq![plain('o')],
            k.new_above@ == seq![plain('O')],
            k.delete@ == seq![plain('d')],
            k.save@ == seq![plain('w')],
            k.quit@ == seq![plain('q')],
    {
        let k = Keys {
            run: vec![KeyBind::new(KeyCode::Char('R'))],
            run_all: vec![KeyBind::with_mods(KeyCode::Char('r'), KeyModifiers::control_only())],
            run_above: vec![KeyBind::with_mods(KeyCode::Char('a'), KeyModifiers::control_only())],
            interrupt: vec![KeyBind::with_mods(KeyCode::Char('c'), KeyModifiers::control_only())],
            move_down: vec![KeyBind::new(KeyCode::Char('j')), KeyBind::new(KeyCode::Down)],
            move_up: vec![KeyBind::new(KeyCode::Char('k')), KeyBind::new(KeyCode::Up)],
            edit: vec![KeyBind::new(KeyCode::Char('i')), KeyBind::new(KeyCode::Enter)],
            edit_full: vec![KeyBind::new(KeyCode::Char('e'))],
            new_below: vec![KeyBind::new(KeyCode::Char('o'))],
            new_above: vec![KeyBind::new(KeyCode::Char('O'))],
            delete: vec![KeyBind::new(KeyCode::Char('d'))],
            save: vec![KeyBind::new(KeyCode::Char('w'))],
            quit: vec![KeyBind::new(KeyCode::Char('q'))],
        };
        assert(k.run@ =~= seq![plain('R')]);
        assert(k.run_all@ =~= seq![ctrl('r')]);
        assert(k.run_above@ =~= seq![ctrl('a')]);
        assert(k.interrupt@ =~= seq![ctrl('c')]);
        assert(k.move_down@ =~= seq![plain('j'), plain_key(KeyCode::Down)]);
        assert(k.move_up@ =~= seq![plain('k'), plain_key(KeyCode::Up)]);
        assert(k.edit@ =~= seq![plain('i'), plain_key(KeyCode::Enter)]);
        assert(k.edit_full@ =~= seq![plain('e')]);
        assert(k.new_below@ =~= seq![plain('o')]);
        assert(k.new_above@ =~= seq![plain('O')]);
        assert(k.delete@ =~= seq![plain('d')]);
        assert(k.save@ =~= seq![plain('w')]);
        assert(k.quit@ =~= seq![plain('q')]);
        k
    }
}

/// Colours of the interface and the name (or `.tmTheme` path) of the syntax theme.
#[derive(Clone, Debug)]
pub struct Theme {
    pub bg: Rgb,
    pub selected: Rgb,
    pub editing: Rgb,
    pub inactive: Rgb,
    pub error: Rgb,
    pub output: Rgb,
    pub status_nav: Rgb,
    pub status_edit: Rgb,
    pub syntax_theme: String,
}

/// Where the syntax theme is read from.
#[derive(Clone, Copy, Debug, PartialEq, Eq, Structural)]
pub enum ThemeSource {
    /// A `.tmTheme` file at the configured path.
    File,
    /// One of the highlighter's bundled themes, by name.
    Bundled,
}

/// A `syntax_theme` ending in `.tmTheme` or holding a `/` names a file; anything else
/// a bundled theme.
pub open spec fn theme_source(name: Seq<char>) -> ThemeSource {
    let suffix = ".tmTheme"@;
    if (name.len() >= suffix.len() && name.skip(name.len() - suffix.len()) == suffix)
        || name.contains('/') {
        ThemeSource::File
    } else {
        ThemeSource::Bundled
    }
}

/// Where the configured syntax theme is read from.
pub fn syntax_theme_source(name: &str) -> (s: ThemeSource)
    ensures
        s == theme_source(name@),
{
    let v = chars_of(name);
    let suffix = chars_of(".tmTheme");
    let mut ends = v.len() >= suffix.len();
    if ends {
        let vl = v.len();
        let start = vl - suffix.len();
        let mut k: usize = 0;
        while k < suffix.len()
            invariant
                vl == v@.len(),
                v@ == name@,
                suffix@ == ".tmTheme"@,
                v@.len() >= suffix@.len(),
                start == v@.len() - suffix@.len(),
                k <= suffix@.len(),
                ends == (forall|m: int| 0 <= m < k ==> v@[start + m] == suffix@[m]),
            decreases suffix@.len() - k,
        {
            if v[start + k] != suffix[k] {
                ends = false;
            }
            k = k + 1;
        }
        proof {
            let tail = v@.skip(start as int);
            if ends {
                assert(tail =~= suffix@);
            } else {
                let m = choose|m: int| 0 <= m < k && v@[start + m] != suffix@[m];
                assert(tail[m] == v@[start + m]);
            }
        }
    }
    let mut slash = false;
    let mut i: usize = 0;
    while i < v.len()
        invariant
            v@ == name@,
            i <= v@.len(),
            slash == (exists|m: int| 0 <= m < i && v@[m] == '/'),
        decreases v@.len() - i,
    {
        if v[i] == '/' {
            slash = true;
        }
        i = i + 1;
    }
    proof {
        if slash {
            let m = choose|m: int| 0 <= m < i && v@[m] == '/';
            assert(name@.contains('/'));
        } else {
            assert(!name@.contains('/'));
        }
    }
    if ends || slash {
        ThemeSource::File
    } else {
        ThemeSource::Bundled
    }
}

/// The bundled theme used when the configured one is not found.
pub fn fallback_syntax_theme() -> (s: String)
    ensures
        s@ == "base16-ocean.dark"@,
{
    String::from_str("base16-ocean.dark")
}

pub open spec fn rgb(r: u8, g: u8, b: u8) -> Rgb {
    Rgb { r, g, b }
}

impl Default for Theme {
    fn default() -> (t: Theme)
        ensures
            t.bg == rgb(0x0d, 0x19, 0x26),
            t.selected == rgb(0xb8, 0xb8, 0x7a),
            t.editing == rgb(0x7a, 0xb8, 0x7a),
            t.inactive == rgb(0x4a, 0x5a, 0x6a),
            t.error == rgb(0xb8, 0x7a, 0x7a),
            t.output == rgb(0x7a, 0xb8, 0xb8),
            t.status_nav == rgb(0x7a, 0x7a, 0xb8),
            t.status_edit == rgb(0x7a, 0xb8, 0x7a),
            t.syntax_theme@ == "base16-ocean.dark"@,
    {
        Theme {
            bg: Rgb { r: 0x0d, g: 0x19, b: 0x26 },
            selected: Rgb { r: 0xb8, g: 0xb8, b: 0x7a },
            editing: Rgb { r: 0x7a, g: 0xb8, b: 0x7a },
            inactive: Rgb { r: 0x4a, g: 0x5a, b: 0x6a },
            error: Rgb { r: 0xb8, g: 0x7a, b: 0x7a },
            output: Rgb { r: 0x7a, g: 0xb8, b: 0xb8 },
            status_nav: Rgb { r: 0x7a, g: 0x7a, b: 0xb8 },
            status_edit: Rgb { r: 0x7a, g: 0xb8, b: 0x7a },
            syntax_theme: String::from_str("base16-ocean.dark"),
        }
    }
}

/// Image sizing limits in terminal cells; 0 means no limit.
#[derive(Clone, Copy, Debug)]
pub struct Images {
    pub max_width: u16,
    pub max_height: u16,
    pub min_width: u16,
    pub min_height: u16,
}

impl Default for Images {
    fn default() -> (i: Images)
        ensures
            i.max_width == 0 && i.max_height == 0 && i.min_width == 0 && i.min_height == 0,
    {
        Images { max_width: 0, max_height: 0, min_width: 0, min_height: 0 }
    }
}

/// The whole configuration.
#[derive(Clone, Debug)]
pub struct Config {
    pub theme: Theme,
    pub keys: Keys,
    pub images: Images,
}

impl Default for Config {
    fn default() -> (c: Config)
        ensures
            c.theme.bg == rgb(0x0d, 0x19, 0x26),
            c.theme.selected == rgb(0xb8, 0xb8, 0x7a),
            c.theme.editing == rgb(0x7a, 0xb8, 0x7a),
            c.theme.inactive == rgb(0x4a, 0x5a, 0x6a),
            c.theme.error == rgb(0xb8, 0x7a, 0x7a),
            c.theme.output == rgb(0x7a, 0xb8, 0xb8),
            c.theme.status_nav == rgb(0x7a, 0x7a, 0xb8),
            c.theme.status_edit == rgb(0x7a, 0xb8, 0x7a),
            c.theme.syntax_theme@ == "base16-ocean.dark"@,
            c.keys.run@ == seq![plain('R')],
            c.keys.run_all@ == seq![ctrl('r')],
            c.keys.run_above@ == seq![ctrl('a')],
            c.keys.interrupt@ == seq![ctrl('c')],
            c.keys.move_down@ == seq![plain('j'), plain_key(KeyCode::Down)],
            c.keys.move_up@ == seq![plain('k'), plain_key(KeyCode::Up)],
            c.keys.edit@ == seq![plain('i'), plain_key(KeyCode::Enter)],
            c.keys.edit_full@ == seq![plain('e')],
            c.keys.new_below@ == seq![plain('o')],
            c.keys.new_above@ == seq![plain('O')],
            c.keys.delete@ == seq![plain('d')],
            c.keys.save@ == seq![plain('w')],
            c.keys.quit@ == seq![plain('q')],
            c.images.max_width == 0 && c.images.max_height == 0,
            c.images.min_width == 0 && c.images.min_height == 0,
    {
        Config { theme: Theme::default(), keys: Keys::default(), images: Images::default() }
    }
}

// ---------------------------------------------------------------------------
// Colour strings

/// The colour text without one leading `'#'`.
pub open spec fn hex_body(s: Seq<char>) -> Seq<char> {
    if s.len() > 0 && s[0] == '#' {
        s.drop_first()
    } else {
        s
    }
}

/// Value of one byte as a hexadecimal digit.
pub open spec fn hex_digit(b: u8) -> Option<u8> {
    if 48 <= b <= 57 {
        Some((b - 48) as u8)
    } else if 97 <= b <= 102 {
        Some((b - 87) as u8)
    } else if 65 <= b <= 70 {
        Some((b - 55) as u8)
    } else {
        None
    }
}

/// `u8::from_str_radix(_, 16)` on a two-byte text: an optional `'+'` and one digit,
/// or two digits.
pub open spec fn hex_pair(x: u8, y: u8) -> Option<u8> {
    if x == 43 {
        hex_digit(y)
    } else {
        match (hex_digit(x), hex_digit(y)) {
            (Some(a), Some(c)) => Some((a * 16 + c) as u8),
            _ => None,
        }
    }
}

/// Slicing the six bytes of a colour into pairs panics unless bytes 2 and 4 start
/// characters.
pub open spec fn hex_color_cuttable(s: Seq<char>) -> bool {
    let b = encode_utf8(hex_body(s));
    b.len() == 6 ==> (vstd::utf8::is_char_boundary(b, 2) && vstd::utf8::is_char_boundary(b, 4))
}

/// The colour a `#rrggbb` (or `rrggbb`) text denotes: six bytes after an optional
/// `'#'`, read as three two-byte hexadecimal numbers.
pub open spec fn hex_color(s: Seq<char>) -> Option<Rgb> {
    let b = encode_utf8(hex_body(s));
    if b.len() != 6 {
        None
    } else {
        match (hex_pair(b[0], b[1]), hex_pair(b[2], b[3]), hex_pair(b[4], b[5])) {
            (Some(r), Some(g), Some(bl)) => Some(Rgb { r, g, b: bl }),
            _ => None,
        }
    }
}

fn hex_digit_exec(b: u8) -> (r: Option<u8>)
    ensures
        r == hex_digit(b),
{
    if 48 <= b && b <= 57 {
        Some(b - 48)
    } else if 97 <= b && b <= 102 {
        Some(b - 87)
    } else if 65 <= b && b <= 70 {
        Some(b - 55)
    } else {
        None
    }
}

fn hex_pair_exec(x: u8, y: u8) -> (r: Option<u8>)
    ensures
        r == hex_pair(x, y),
{
    if x == 43 {
        hex_digit_exec(y)
    } else {
        match (hex_digit_exec(x), hex_digit_exec(y)) {
            (Some(a), Some(c)) => Some(a * 16 + c),
            _ => None,
        }
    }
}

/// Parses a `#rrggbb` colour.
pub fn parse_hex(s: &str) -> (r: Option<Rgb>)
    requires
        hex_color_cuttable(s@),
    ensures
        r == hex_color(s@),
{
    let v = chars_of(s);
    let body: &str = if v.len() > 0 && v[0] == '#' {
        s.substring_char(1, v.len())
    } else {
        s
    };
    assert(body@ == hex_body(s@)) by {
        if v.len() > 0 && v[0] == '#' {
            assert(s@.subrange(1, s@.len() as int) == s@.drop_first());
        }
    }
    let b = body.as_bytes();
    if b.len() != 6 {
        return None;
    }
    let r = hex_pair_exec(b[0], b[1]);
    let g = hex_pair_exec(b[2], b[3]);
    let bl = hex_pair_exec(b[4], b[5]);
    match (r, g, bl) {
        (Some(r), Some(g), Some(bl)) => Some(Rgb { r, g, b: bl }),
        _ => None,
    }
}

// ---------------------------------------------------------------------------
// Key-binding strings

/// Lower-casing of a text that holds a character outside ASCII, as `str::to_lowercase`
/// does it (by Unicode's lower-case mapping).
pub uninterp spec fn unicode_lowercase(s: Seq<char>) -> Seq<char>;

/// An ASCII character in lower case: `'A'..='Z'` become `'a'..='z'`, all else stays.
pub open spec fn lower_char(c: char) -> char {
    if 'A' <= c && c <= 'Z' {
        ((c as u32) + 32) as char
    } else {
        c
    }
}

/// Every character is ASCII.
pub open spec fn all_ascii(s: Seq<char>) -> bool {
    forall|i: int| 0 <= i < s.len() ==> (#[trigger] s[i] as u32) < 128
}

/// The text with its ASCII capitals in lower case.
pub open spec fn ascii_lower(s: Seq<char>) -> Seq<char> {
    s.map_values(|c: char| lower_char(c))
}

/// Lower-casing as `str::to_lowercase` does it: on ASCII text, exactly the ASCII
/// capitals change; other text goes by Unicode's mapping.
pub open spec fn lowercase(s: Seq<char>) -> Seq<char> {
    if all_ascii(s) {
        ascii_lower(s)
    } else {
        unicode_lowercase(s)
    }
}

/// Calls `str::to_lowercase`. Claimed: on ASCII text the result is the text with
/// `'A'..='Z'` mapped to `'a'..='z'` (Unicode's lower case of an ASCII letter is its
/// ASCII lower case, and other ASCII characters have none); on other text the result
/// is a function of the text alone.
#[verifier::external_body]
fn to_lowercase(s: &str) -> (r: String)
    ensures
        r@ == (if all_ascii(s@) {
            ascii_lower(s@)
        } else {
            unicode_lowercase(s@)
        }),
{
    s.to_lowercase()
}

fn lowercase_chars(v: &[char]) -> (r: Vec<char>)
    ensures
        r@ == lowercase(v@),
{
    let s = string_of(v);
    let l = to_lowercase(s.as_str());
    chars_of(l.as_str())
}

/// Adds the modifier that a lower-cased modifier word names, if it names one:
/// `ctrl`/`c`, `alt`/`meta`/`m`, `shift`/`s`.
pub open spec fn modifier_word(m: KeyModifiers, word: Seq<char>) -> Option<KeyModifiers> {
    if word == "ctrl"@ || word == "c"@ {
        Some(KeyModifiers { control: true, ..m })
    } else if word == "alt"@ || word == "meta"@ || word == "m"@ {
        Some(KeyModifiers { alt: true, ..m })
    } else if word == "shift"@ || word == "s"@ {
        Some(KeyModifiers { shift: true, ..m })
    } else {
        None
    }
}

/// The modifiers that a list of modifier words names (each word lower-cased),
/// or `None` when one of them names none.
pub open spec fn modifiers_of(words: Seq<Seq<char>>) -> Option<KeyModifiers>
    decreases words.len(),
{
    if words.len() == 0 {
        Some(KeyModifiers::spec_none())
    } else {
        match modifiers_of(words.drop_last()) {
            Some(m) => modifier_word(m, lowercase(words.last())),
            None => None,
        }
    }
}

/// The modifier one word names, as flags over none.
pub open spec fn word_flags(w: Seq<char>) -> Option<KeyModifiers> {
    modifier_word(KeyModifiers::spec_none(), lowercase(w))
}

pub open spec fn names_shift(w: Seq<char>) -> bool {
    word_flags(w) matches Some(f) && f.shift
}

pub open spec fn names_control(w: Seq<char>) -> bool {
    word_flags(w) matches Some(f) && f.control
}

pub open spec fn names_alt(w: Seq<char>) -> bool {
    word_flags(w) matches Some(f) && f.alt
}

/// Every word names a modifier.
pub open spec fn all_modifier_words(words: Seq<Seq<char>>) -> bool {
    forall|i: int| 0 <= i < words.len() ==> #[trigger] word_flags(words[i]) is Some
}

/// The modifiers some word names.
pub open spec fn flags_union(words: Seq<Seq<char>>) -> KeyModifiers {
    KeyModifiers {
        shift: exists|i: int| 0 <= i < words.len() && #[trigger] names_shift(words[i]),
        control: exists|i: int| 0 <= i < words.len() && #[trigger] names_control(words[i]),
        alt: exists|i: int| 0 <= i < words.len() && #[trigger] names_alt(words[i]),
        super_key: false,
        hyper: false,
        meta: false,
    }
}

proof fn lemma_modifiers_of_union(words: Seq<Seq<char>>)
    ensures
        modifiers_of(words) == (if all_modifier_words(words) {
            Some(flags_union(words))
        } else {
            None
        }),
    decreases words.len(),
{
    if words.len() == 0 {
        assert(flags_union(words) == KeyModifiers::spec_none());
    } else {
        let d = words.drop_last();
        let w = words.last();
        lemma_modifiers_of_union(d);
        assert forall|i: int| 0 <= i < d.len() implies d[i] == words[i] by {}
        let n = words.len() - 1;
        assert(words[n] == w);
        if all_modifier_words(d) && word_flags(w) is Some {
            assert(all_modifier_words(words)) by {
                assert forall|i: int| 0 <= i < words.len() implies #[trigger] word_flags(words[i]) is Some by {
                    if i < n {
                        assert(word_flags(d[i]) is Some);
                    }
                }
            }
            let u = flags_union(words);
            let ud = flags_union(d);
            assert(u.shift == (ud.shift || names_shift(w))) by {
                if u.shift {
                    let i = choose|i: int| 0 <= i < words.len() && #[trigger] names_shift(words[i]);
                    if i < n {
                        assert(names_shift(d[i]));
                    }
                }
                if ud.shift {
                    let i = choose|i: int| 0 <= i < d.len() && #[trigger] names_shift(d[i]);
                    assert(names_shift(words[i]));
                }
                if names_shift(w) {
                    assert(names_shift(words[n]));
                }
            }
            assert(u.control == (ud.control || names_control(w))) by {
                if u.control {
                    let i = choose|i: int| 0 <= i < words.len() && #[trigger] names_control(words[i]);
                    if i < n {
                        assert(names_control(d[i]));
                    }
                }
                if ud.control {
                    let i = choose|i: int| 0 <= i < d.len() && #[trigger] names_control(d[i]);
                    assert(names_control(words[i]));
                }
                if names_control(w) {
                    assert(names_control(words[n]));
                }
            }
            assert(u.alt == (ud.alt || names_alt(w))) by {
                if u.alt {
                    let i = choose|i: int| 0 <= i < words.len() && #[trigger] names_alt(words[i]);
                    if i < n {
                        assert(names_alt(d[i]));
                    }
                }
                if ud.alt {
                    let i = choose|i: int| 0 <= i < d.len() && #[trigger] names_alt(d[i]);
                    assert(names_alt(words[i]));
                }
                if names_alt(w) {
                    assert(names_alt(words[n]));
                }
            }
        } else if !all_modifier_words(d) {
            assert(!all_modifier_words(words)) by {
                let i = choose|i: int| 0 <= i < d.len() && !(#[trigger] word_flags(d[i]) is Some);
                assert(words[i] == d[i]);
            }
        } else {
            assert(!(word_flags(words[n]) is Some));
        }
    }
}

/// The order in which modifiers are written does not matter: swapping two modifier
/// words gives the same modifiers (or none in both cases).
pub proof fn lemma_modifier_order(words: Seq<Seq<char>>, i: int, j: int)
    requires
        0 <= i < j < words.len(),
    ensures
        modifiers_of(words.update(i, words[j]).update(j, words[i])) == modifiers_of(words),
{
    let v = words.update(i, words[j]).update(j, words[i]);
    lemma_modifiers_of_union(words);
    lemma_modifiers_of_union(v);
    // Each word of one list stands at some position of the other.
    assert forall|k: int| 0 <= k < v.len() implies v[k] == words[if k == i {
        j
    } else if k == j {
        i
    } else {
        k
    }] by {}
    assert forall|k: int| 0 <= k < words.len() implies words[k] == v[if k == i {
        j
    } else if k == j {
        i
    } else {
        k
    }] by {}
    assert(all_modifier_words(v) == all_modifier_words(words)) by {
        if all_modifier_words(words) {
            assert forall|k: int| 0 <= k < v.len() implies #[trigger] word_flags(v[k]) is Some by {
                let m = if k == i { j } else if k == j { i } else { k };
                assert(word_flags(words[m]) is Some);
            }
        }
        if all_modifier_words(v) {
            assert forall|k: int| 0 <= k < words.len() implies #[trigger] word_flags(words[k]) is Some by {
                let m = if k == i { j } else if k == j { i } else { k };
                assert(word_flags(v[m]) is Some);
            }
        }
    }
    let a = flags_union(words);
    let b = flags_union(v);
    assert(a.shift == b.shift) by {
        if a.shift {
            let k = choose|k: int| 0 <= k < words.len() && #[trigger] names_shift(words[k]);
            let m = if k == i { j } else if k == j { i } else { k };
            assert(names_shift(v[m]));
        }
        if b.shift {
            let k = choose|k: int| 0 <= k < v.len() && #[trigger] names_shift(v[k]);
            let m = if k == i { j } else if k == j { i } else { k };
            assert(names_shift(words[m]));
        }
    }
    assert(a.control == b.control) by {
        if a.control {
            let k = choose|k: int| 0 <= k < words.len() && #[trigger] names_control(words[k]);
            let m = if k == i { j } else if k == j { i } else { k };
            assert(names_control(v[m]));
        }
        if b.control {
            let k = choose|k: int| 0 <= k < v.len() && #[trigger] names_control(v[k]);
            let m = if k == i { j } else if k == j { i } else { k };
            assert(names_control(words[m]));
        }
    }
    assert(a.alt == b.alt) by {
        if a.alt {
            let k = choose|k: int| 0 <= k < words.len() && #[trigger] names_alt(words[k]);
            let m = if k == i { j } else if k == j { i } else { k };
            assert(names_alt(v[m]));
        }
        if b.alt {
            let k = choose|k: int| 0 <= k < v.len() && #[trigger] names_alt(v[k]);
            let m = if k == i { j } else if k == j { i } else { k };
            assert(names_alt(words[m]));
        }
    }
}

/// A binding is the same whatever the order of its modifier words: swapping two of the
/// words before the key's name gives the same binding.
pub proof fn lemma_key_bind_modifier_order(parts: Seq<Seq<char>>, i: int, j: int)
    requires
        0 <= i < j < parts.len() - 1,
    ensures
        bind_of_parts(parts.update(i, parts[j]).update(j, parts[i])) == bind_of_parts(parts),
{
    let q = parts.update(i, parts[j]).update(j, parts[i]);
    let d = parts.drop_last();
    assert(q.drop_last() =~= d.update(i, d[j]).update(j, d[i]));
    assert(q.last() == parts.last());
    lemma_modifier_order(d, i, j);
}

proof fn lemma_lower_char(c: char)
    ensures
        (c as u32) < 128 ==> (lower_char(c) as u32) < 128,
        (lower_char(c) == '+') == (c == '+'),
        lower_char(lower_char(c)) == lower_char(c),
{
    if 'A' <= c && c <= 'Z' {
        assert((lower_char(c) as u32) == (c as u32) + 32);
    }
}

/// ASCII lower-casing keeps a text ASCII and does nothing a second time.
proof fn lemma_ascii_lower_again(p: Seq<char>)
    requires
        all_ascii(p),
    ensures
        all_ascii(ascii_lower(p)),
        ascii_lower(ascii_lower(p)) == ascii_lower(p),
        lowercase(ascii_lower(p)) == lowercase(p),
{
    assert forall|i: int| 0 <= i < p.len() implies (#[trigger] ascii_lower(p)[i] as u32) < 128 by {
        lemma_lower_char(p[i]);
    }
    assert forall|i: int| 0 <= i < p.len() implies #[trigger] ascii_lower(ascii_lower(p))[i]
        == ascii_lower(p)[i] by {
        lemma_lower_char(p[i]);
    }
    assert(ascii_lower(ascii_lower(p)) =~= ascii_lower(p));
}

/// Splitting the ASCII lower-cased text at `'+'` gives the lower-cased pieces.
proof fn lemma_split_ascii_lower(s: Seq<char>)
    requires
        all_ascii(s),
    ensures
        split_on(ascii_lower(s), '+').len() == split_on(s, '+').len(),
        forall|i: int|
            0 <= i < split_on(s, '+').len() ==> #[trigger] split_on(ascii_lower(s), '+')[i]
                == ascii_lower(split_on(s, '+')[i]),
        forall|i: int| 0 <= i < split_on(s, '+').len() ==> all_ascii(#[trigger] split_on(s, '+')[i]),
    decreases s.len(),
{
    let t = ascii_lower(s);
    if s.len() == 0 {
        assert(t =~= Seq::<char>::empty());
        assert(ascii_lower(Seq::<char>::empty()) =~= Seq::<char>::empty());
    } else {
        let d = s.drop_last();
        let c = s.last();
        assert(all_ascii(d)) by {
            assert forall|i: int| 0 <= i < d.len() implies (#[trigger] d[i] as u32) < 128 by {
                assert(d[i] == s[i]);
            }
        }
        assert((c as u32) < 128) by {
            assert(c == s[s.len() - 1]);
        }
        lemma_split_ascii_lower(d);
        lemma_split_on_nonempty(d, '+');
        assert(t.drop_last() =~= ascii_lower(d));
        assert(t.last() == lower_char(c));
        lemma_lower_char(c);
        let rs = split_on(d, '+');
        let rt = split_on(ascii_lower(d), '+');
        if c == '+' {
            assert(ascii_lower(Seq::<char>::empty()) =~= Seq::<char>::empty());
            assert forall|i: int| 0 <= i < split_on(s, '+').len() implies #[trigger] split_on(t, '+')[i]
                == ascii_lower(split_on(s, '+')[i]) && all_ascii(split_on(s, '+')[i]) by {
                if i < rs.len() {
                    assert(split_on(t, '+')[i] == rt[i]);
                    assert(split_on(s, '+')[i] == rs[i]);
                }
            }
        } else {
            let n = rs.len() - 1;
            let p = rs.last();
            assert(p == rs[n]);
            assert(ascii_lower(p.push(c)) =~= ascii_lower(p).push(lower_char(c)));
            assert(all_ascii(p.push(c))) by {
                assert forall|i: int| 0 <= i < p.push(c).len() implies (#[trigger] p.push(c)[i] as u32)
                    < 128 by {
                    if i < p.len() {
                        assert(all_ascii(rs[n]));
                    }
                }
            }
            assert forall|i: int| 0 <= i < split_on(s, '+').len() implies #[trigger] split_on(t, '+')[i]
                == ascii_lower(split_on(s, '+')[i]) && all_ascii(split_on(s, '+')[i]) by {
                if i < n {
                    assert(split_on(t, '+')[i] == rt[i]);
                    assert(split_on(s, '+')[i] == rs[i]);
                }
            }
        }
    }
}

/// Modifier words that lower-case alike name the same modifiers.
proof fn lemma_modifiers_alike(a: Seq<Seq<char>>, b: Seq<Seq<char>>)
    requires
        a.len() == b.len(),
        forall|i: int| 0 <= i < a.len() ==> #[trigger] lowercase(a[i]) == lowercase(b[i]),
    ensures
        modifiers_of(a) == modifiers_of(b),
    decreases a.len(),
{
    if a.len() > 0 {
        let n = a.len() - 1;
        assert(lowercase(a[n]) == lowercase(b[n]));
        lemma_modifiers_alike(a.drop_last(), b.drop_last());
    }
}

/// The binding of an ASCII text is that of its ASCII lower-cased form.
proof fn lemma_key_bind_ascii_lower(s: Seq<char>)
    requires
        all_ascii(s),
    ensures
        single_key_bind(ascii_lower(s)) == single_key_bind(s),
{
    let ps = split_on(s, '+');
    let pt = split_on(ascii_lower(s), '+');
    lemma_split_ascii_lower(s);
    lemma_split_on_nonempty(s, '+');
    assert forall|i: int| 0 <= i < ps.len() implies #[trigger] lowercase(pt[i]) == lowercase(ps[i]) by {
        lemma_ascii_lower_again(ps[i]);
    }
    lemma_modifiers_alike(pt.drop_last(), ps.drop_last());
    let n = ps.len() - 1;
    assert(lowercase(pt[n]) == lowercase(ps[n]));
}

/// Key names are read without regard to case: two ASCII texts that differ only in
/// the case of their letters name the same binding (or both none).
pub proof fn lemma_key_names_ignore_case(s: Seq<char>, t: Seq<char>)
    requires
        all_ascii(s),
        all_ascii(t),
        ascii_lower(s) == ascii_lower(t),
    ensures
        single_key_bind(s) == single_key_bind(t),
{
    lemma_key_bind_ascii_lower(s);
    lemma_key_bind_ascii_lower(t);
}

/// Text of lower-case ASCII letters is its own lower case.
proof fn lemma_lower_letters(n: Seq<char>)
    requires
        forall|i: int| 0 <= i < n.len() ==> 'a' <= #[trigger] n[i] && n[i] <= 'z',
    ensures
        lowercase(n) == n,
{
    assert(all_ascii(n));
    assert(ascii_lower(n) =~= n);
}

proof fn lemma_bind_of_key_name(words: Seq<Seq<char>>, m: KeyModifiers, n: Seq<char>)
    requires
        modifiers_of(words) == Some(m),
        lowercase(n) == n,
        named_key(n) is Some,
    ensures
        bind_of_parts(words.push(n)) == Some(KeyBind { code: named_key(n)->0, mods: m }),
{
    assert(words.push(n).drop_last() =~= words);
}

#[verifier::rlimit(40)]
proof fn lemma_named_key_table_first()
    ensures
        named_key("enter"@) == Some(KeyCode::Enter),
        named_key("return"@) == Some(KeyCode::Enter),
        named_key("cr"@) == Some(KeyCode::Enter),
        named_key("esc"@) == Some(KeyCode::Esc),
        named_key("escape"@) == Some(KeyCode::Esc),
        named_key("tab"@) == Some(KeyCode::Tab),
        named_key("space"@) == Some(KeyCode::Char(' ')),
        named_key("backspace"@) == Some(KeyCode::Backspace),
        named_key("bs"@) == Some(KeyCode::Backspace),
        named_key("delete"@) == Some(KeyCode::Delete),
        lowercase("enter"@) == "enter"@,
        lowercase("return"@) == "return"@,
        lowercase("cr"@) == "cr"@,
        lowercase("esc"@) == "esc"@,
        lowercase("escape"@) == "escape"@,
        lowercase("tab"@) == "tab"@,
        lowercase("space"@) == "space"@,
        lowercase("backspace"@) == "backspace"@,
        lowercase("bs"@) == "bs"@,
        lowercase("delete"@) == "delete"@,
{
    reveal_strlit("enter");
    reveal_strlit("return");
    reveal_strlit("cr");
    reveal_strlit("esc");
    reveal_strlit("escape");
    reveal_strlit("tab");
    reveal_strlit("space");
    reveal_strlit("backspace");
    reveal_strlit("bs");
    reveal_strlit("delete");
    reveal_strlit("del");
    reveal_strlit("up");
    reveal_strlit("down");
    reveal_strlit("left");
    reveal_strlit("right");
    reveal_strlit("home");
    reveal_strlit("end");
    reveal_strlit("pageup");
    reveal_strlit("pagedown");
    assert("escape"@[0] != "return"@[0]);
    assert("tab"@[0] != "esc"@[0]);
    assert("space"@[0] != "enter"@[0]);
    assert("bs"@[0] != "cr"@[0]);
    assert("delete"@[0] != "return"@[0]);
    assert("delete"@[0] != "escape"@[0]);
    assert("del"@[0] != "esc"@[0]);
    assert("del"@[0] != "tab"@[0]);
    assert("up"@[0] != "cr"@[0]);
    assert("up"@[0] != "bs"@[0]);
    assert("left"@[0] != "down"@[0]);
    assert("right"@[0] != "enter"@[0]);
    assert("right"@[0] != "space"@[0]);
    assert("home"@[0] != "down"@[0]);
    assert("home"@[0] != "left"@[0]);
    assert("end"@[1] != "esc"@[1]);
    assert("end"@[0] != "tab"@[0]);
    assert("end"@[0] != "del"@[0]);
    assert("pageup"@[0] != "return"@[0]);
    assert("pageup"@[0] != "escape"@[0]);
    assert("pageup"@[0] != "delete"@[0]);
    lemma_lower_letters("enter"@);
    lemma_lower_letters("return"@);
    lemma_lower_letters("cr"@);
    lemma_lower_letters("esc"@);
    lemma_lower_letters("escape"@);
    lemma_lower_letters("tab"@);
    lemma_lower_letters("space"@);
    lemma_lower_letters("backspace"@);
    lemma_lower_letters("bs"@);
    lemma_lower_letters("delete"@);
}

#[verifier::rlimit(40)]
proof fn lemma_named_key_table_rest()
    ensures
        named_key("del"@) == Some(KeyCode::Delete),
        named_key("up"@) == Some(KeyCode::Up),
        named_key("down"@) == Some(KeyCode::Down),
        named_key("left"@) == Some(KeyCode::Left),
        named_key("right"@) == Some(KeyCode::Right),
        named_key("home"@) == Some(KeyCode::Home),
        named_key("end"@) == Some(KeyCode::End),
        named_key("pageup"@) == Some(KeyCode::PageUp),
        named_key("pagedown"@) == Some(KeyCode::PageDown),
        lowercase("del"@) == "del"@,
        lowercase("up"@) == "up"@,
        lowercase("down"@) == "down"@,
        lowercase("left"@) == "left"@,
        lowercase("right"@) == "right"@,
        lowercase("home"@) == "home"@,
        lowercase("end"@) == "end"@,
        lowercase("pageup"@) == "pageup"@,
        lowercase("pagedown"@) == "pagedown"@,
{
    reveal_strlit("enter");
    reveal_strlit("return");
    reveal_strlit("cr");
    reveal_strlit("esc");
    reveal_strlit("escape");
    reveal_strlit("tab");
    reveal_strlit("space");
    reveal_strlit("backspace");
    reveal_strlit("bs");
    reveal_strlit("delete");
    reveal_strlit("del");
    reveal_strlit("up");
    reveal_strlit("down");
    reveal_strlit("left");
    reveal_strlit("right");
    reveal_strlit("home");
    reveal_strlit("end");
    reveal_strlit("pageup");
    reveal_strlit("pagedown");
    assert("escape"@[0] != "return"@[0]);
    assert("tab"@[0] != "esc"@[0]);
    assert("space"@[0] != "enter"@[0]);
    assert("bs"@[0] != "cr"@[0]);
    assert("delete"@[0] != "return"@[0]);
    assert("delete"@[0] != "escape"@[0]);
    assert("del"@[0] != "esc"@[0]);
    assert("del"@[0] != "tab"@[0]);
    assert("up"@[0] != "cr"@[0]);
    assert("up"@[0] != "bs"@[0]);
    assert("left"@[0] != "down"@[0]);
    assert("right"@[0] != "enter"@[0]);
    assert("right"@[0] != "space"@[0]);
    assert("home"@[0] != "down"@[0]);
    assert("home"@[0] != "left"@[0]);
    assert("end"@[1] != "esc"@[1]);
    assert("end"@[0] != "tab"@[0]);
    assert("end"@[0] != "del"@[0]);
    assert("pageup"@[0] != "return"@[0]);
    assert("pageup"@[0] != "escape"@[0]);
    assert("pageup"@[0] != "delete"@[0]);
    lemma_lower_letters("del"@);
    lemma_lower_letters("up"@);
    lemma_lower_letters("down"@);
    lemma_lower_letters("left"@);
    lemma_lower_letters("right"@);
    lemma_lower_letters("home"@);
    lemma_lower_letters("end"@);
    lemma_lower_letters("pageup"@);
    lemma_lower_letters("pagedown"@);
}

/// Each key name denotes its key, whatever modifiers come before it: `up`, `down`,
/// `left` and `right` the arrows, `enter`/`return`/`cr` Enter, `esc`/`escape` Esc,
/// `tab` Tab, `space` the space character, `backspace`/`bs` Backspace, `delete`/`del`
/// Delete, `home`, `end`, `pageup` and `pagedown` those keys.
pub proof fn lemma_key_names(words: Seq<Seq<char>>, m: KeyModifiers)
    requires
        modifiers_of(words) == Some(m),
    ensures
        bind_of_parts(words.push("enter"@)) == Some(KeyBind { code: KeyCode::Enter, mods: m }),
        bind_of_parts(words.push("return"@)) == Some(KeyBind { code: KeyCode::Enter, mods: m }),
        bind_of_parts(words.push("cr"@)) == Some(KeyBind { code: KeyCode::Enter, mods: m }),
        bind_of_parts(words.push("esc"@)) == Some(KeyBind { code: KeyCode::Esc, mods: m }),
        bind_of_parts(words.push("escape"@)) == Some(KeyBind { code: KeyCode::Esc, mods: m }),
        bind_of_parts(words.push("tab"@)) == Some(KeyBind { code: KeyCode::Tab, mods: m }),
        bind_of_parts(words.push("space"@)) == Some(KeyBind { code: KeyCode::Char(' '), mods: m }),
        bind_of_parts(words.push("backspace"@)) == Some(KeyBind { code: KeyCode::Backspace, mods: m }),
        bind_of_parts(words.push("bs"@)) == Some(KeyBind { code: KeyCode::Backspace, mods: m }),
        bind_of_parts(words.push("delete"@)) == Some(KeyBind { code: KeyCode::Delete, mods: m }),
        bind_of_parts(words.push("del"@)) == Some(KeyBind { code: KeyCode::Delete, mods: m }),
        bind_of_parts(words.push("up"@)) == Some(KeyBind { code: KeyCode::Up, mods: m }),
        bind_of_parts(words.push("down"@)) == Some(KeyBind { code: KeyCode::Down, mods: m }),
        bind_of_parts(words.push("left"@)) == Some(KeyBind { code: KeyCode::Left, mods: m }),
        bind_of_parts(words.push("right"@)) == Some(KeyBind { code: KeyCode::Right, mods: m }),
        bind_of_parts(words.push("home"@)) == Some(KeyBind { code: KeyCode::Home, mods: m }),
        bind_of_parts(words.push("end"@)) == Some(KeyBind { code: KeyCode::End, mods: m }),
        bind_of_parts(words.push("pageup"@)) == Some(KeyBind { code: KeyCode::PageUp, mods: m }),
        bind_of_parts(words.push("pagedown"@)) == Some(KeyBind { code: KeyCode::PageDown, mods: m }),
{
    lemma_named_key_table_first();
    lemma_named_key_table_rest();
    lemma_bind_of_key_name(words, m, "enter"@);
    lemma_bind_of_key_name(words, m, "return"@);
    lemma_bind_of_key_name(words, m, "cr"@);
    lemma_bind_of_key_name(words, m, "esc"@);
    lemma_bind_of_key_name(words, m, "escape"@);
    lemma_bind_of_key_name(words, m, "tab"@);
    lemma_bind_of_key_name(words, m, "space"@);
    lemma_bind_of_key_name(words, m, "backspace"@);
    lemma_bind_of_key_name(words, m, "bs"@);
    lemma_bind_of_key_name(words, m, "delete"@);
    lemma_bind_of_key_name(words, m, "del"@);
    lemma_bind_of_key_name(words, m, "up"@);
    lemma_bind_of_key_name(words, m, "down"@);
    lemma_bind_of_key_name(words, m, "left"@);
    lemma_bind_of_key_name(words, m, "right"@);
    lemma_bind_of_key_name(words, m, "home"@);
    lemma_bind_of_key_name(words, m, "end"@);
    lemma_bind_of_key_name(words, m, "pageup"@);
    lemma_bind_of_key_name(words, m, "pagedown"@);
}

/// What each modifier word adds to the modifiers before it: `ctrl` and `c` Control;
/// `alt`, `meta` and `m` Alt; `shift` and `s` Shift; nothing else changes.
#[verifier::rlimit(40)]
pub proof fn lemma_modifier_word_meanings(words: Seq<Seq<char>>)
    ensures
        modifiers_of(words.push("ctrl"@)) == (match modifiers_of(words) {
            Some(m) => Some(KeyModifiers { control: true, ..m }),
            None => None,
        }),
        modifiers_of(words.push("c"@)) == (match modifiers_of(words) {
            Some(m) => Some(KeyModifiers { control: true, ..m }),
            None => None,
        }),
        modifiers_of(words.push("alt"@)) == (match modifiers_of(words) {
            Some(m) => Some(KeyModifiers { alt: true, ..m }),
            None => None,
        }),
        modifiers_of(words.push("meta"@)) == (match modifiers_of(words) {
            Some(m) => Some(KeyModifiers { alt: true, ..m }),
            None => None,
        }),
        modifiers_of(words.push("m"@)) == (match modifiers_of(words) {
            Some(m) => Some(KeyModifiers { alt: true, ..m }),
            None => None,
        }),
        modifiers_of(words.push("shift"@)) == (match modifiers_of(words) {
            Some(m) => Some(KeyModifiers { shift: true, ..m }),
            None => None,
        }),
        modifiers_of(words.push("s"@)) == (match modifiers_of(words) {
            Some(m) => Some(KeyModifiers { shift: true, ..m }),
            None => None,
        }),
{
    reveal_strlit("ctrl");
    reveal_strlit("c");
    reveal_strlit("alt");
    reveal_strlit("meta");
    reveal_strlit("m");
    reveal_strlit("shift");
    reveal_strlit("s");
    assert("meta"@[0] != "ctrl"@[0]);
    assert("m"@[0] != "c"@[0]);
    assert("s"@[0] != "c"@[0]);
    assert("s"@[0] != "m"@[0]);
    lemma_lower_letters("ctrl"@);
    assert(words.push("ctrl"@).drop_last() =~= words);
    lemma_lower_letters("c"@);
    assert(words.push("c"@).drop_last() =~= words);
    lemma_lower_letters("alt"@);
    assert(words.push("alt"@).drop_last() =~= words);
    lemma_lower_letters("meta"@);
    assert(words.push("meta"@).drop_last() =~= words);
    lemma_lower_letters("m"@);
    assert(words.push("m"@).drop_last() =~= words);
    lemma_lower_letters("shift"@);
    assert(words.push("shift"@).drop_last() =~= words);
    lemma_lower_letters("s"@);
    assert(words.push("s"@).drop_last() =~= words);
}

/// `meta` is another name for `alt`: in front of any key name, and after any modifier
/// words, the two give the same binding.
pub proof fn lemma_meta_is_alt(words: Seq<Seq<char>>, k: Seq<char>)
    ensures
        bind_of_parts(words.push("meta"@).push(k)) == bind_of_parts(words.push("alt"@).push(k)),
{
    lemma_modifier_word_meanings(words);
    assert(words.push("meta"@).push(k).drop_last() =~= words.push("meta"@));
    assert(words.push("alt"@).push(k).drop_last() =~= words.push("alt"@));
}

/// A single ASCII character names that character's key, read in lower case; with Shift
/// held a lower-case letter becomes its capital.
pub proof fn lemma_single_char_keys(words: Seq<Seq<char>>, m: KeyModifiers, c: char)
    requires
        modifiers_of(words) == Some(m),
        (c as u32) < 128,
    ensures
        bind_of_parts(words.push(seq![c])) == Some(
            KeyBind {
                code: KeyCode::Char(
                    if 'A' <= c && c <= 'Z' {
                        if m.shift {
                            c
                        } else {
                            ((c as u32) + 32) as char
                        }
                    } else if 'a' <= c && c <= 'z' && m.shift {
                        ((c as u32) - 32) as char
                    } else {
                        c
                    },
                ),
                mods: m,
            },
        ),
{
    reveal_strlit("enter");
    reveal_strlit("return");
    reveal_strlit("cr");
    reveal_strlit("esc");
    reveal_strlit("escape");
    reveal_strlit("tab");
    reveal_strlit("space");
    reveal_strlit("backspace");
    reveal_strlit("bs");
    reveal_strlit("delete");
    reveal_strlit("del");
    reveal_strlit("up");
    reveal_strlit("down");
    reveal_strlit("left");
    reveal_strlit("right");
    reveal_strlit("home");
    reveal_strlit("end");
    reveal_strlit("pageup");
    reveal_strlit("pagedown");
    let n = seq![c];
    assert(words.push(n).drop_last() =~= words);
    assert(all_ascii(n));
    let l = lowercase(n);
    assert(l =~= seq![lower_char(c)]);
    assert(named_key(l) is None);
    lemma_utf8_len_push(Seq::<char>::empty(), lower_char(c));
    assert(Seq::<char>::empty().push(lower_char(c)) =~= l);
    assert(encode_utf8(Seq::<char>::empty()) =~= Seq::<u8>::empty());
    if 'A' <= c && c <= 'Z' {
        assert(((((c as u32) + 32) as char) as u32) == (c as u32) + 32);
    }
}

/// Keys known by name (lower case).
pub open spec fn named_key(name: Seq<char>) -> Option<KeyCode> {
    if name == "enter"@ || name == "return"@ || name == "cr"@ {
        Some(KeyCode::Enter)
    } else if name == "esc"@ || name == "escape"@ {
        Some(KeyCode::Esc)
    } else if name == "tab"@ {
        Some(KeyCode::Tab)
    } else if name == "space"@ {
        Some(KeyCode::Char(' '))
    } else if name == "backspace"@ || name == "bs"@ {
        Some(KeyCode::Backspace)
    } else if name == "delete"@ || name == "del"@ {
        Some(KeyCode::Delete)
    } else if name == "up"@ {
        Some(KeyCode::Up)
    } else if name == "down"@ {
        Some(KeyCode::Down)
    } else if name == "left"@ {
        Some(KeyCode::Left)
    } else if name == "right"@ {
        Some(KeyCode::Right)
    } else if name == "home"@ {
        Some(KeyCode::Home)
    } else if name == "end"@ {
        Some(KeyCode::End)
    } else if name == "pageup"@ {
        Some(KeyCode::PageUp)
    } else if name == "pagedown"@ {
        Some(KeyCode::PageDown)
    } else {
        None
    }
}

pub open spec fn is_digit(c: char) -> bool {
    '0' <= c && c <= '9'
}

pub open spec fn all_digits(d: Seq<char>) -> bool {
    forall|i: int| 0 <= i < d.len() ==> is_digit(#[trigger] d[i])
}

/// Value of a run of decimal digits.
pub open spec fn digits_value(d: Seq<char>) -> nat
    decreases d.len(),
{
    if d.len() == 0 {
        0
    } else {
        digits_value(d.drop_last()) * 10 + ((d.last() as u32) - 48) as nat
    }
}

/// The decimal text of a number is all digits, starts with a digit, and reads back
/// as the number.
pub proof fn lemma_decimal_digits(n: nat)
    ensures
        decimal(n).len() >= 1,
        all_digits(decimal(n)),
        digits_value(decimal(n)) == n,
    decreases n,
{
    if n >= 10 {
        lemma_decimal_digits(n / 10);
        let d = decimal(n / 10);
        let c = (((n % 10) + 48) as u32) as char;
        assert(decimal(n) == d.push(c));
        assert(decimal(n).drop_last() =~= d);
        assert forall|i: int| 0 <= i < d.push(c).len() implies is_digit(#[trigger] d.push(c)[i]) by {
            if i < d.len() {
                assert(d.push(c)[i] == d[i]);
            }
        }
        assert((c as u32) == (n % 10) + 48);
        assert(decimal(n).last() == c);
        assert(digits_value(decimal(n)) == digits_value(d) * 10 + ((c as u32) - 48) as nat);
        assert((n / 10) * 10 + n % 10 == n) by (nonlinear_arith);
        assert(digits_value(d) * 10 + ((c as u32) - 48) as nat == (n / 10) * 10 + n % 10);
        assert(digits_value(decimal(n)) == n);
    } else {
        let c = ((n + 48) as u32) as char;
        assert(decimal(n) == seq![c]);
        assert(seq![c].drop_last() =~= Seq::<char>::empty());
        assert((c as u32) == n + 48);
        assert(digits_value(decimal(n)) == digits_value(Seq::<char>::empty()) * 10 + ((c as u32) - 48) as nat);
        assert(digits_value(decimal(n)) == n);
    }
}

/// `str::parse::<u8>`: an optional `'+'`, then one or more decimal digits whose
/// value is at most 255.
pub open spec fn decimal_u8(s: Seq<char>) -> Option<u8> {
    let d = if s.len() > 0 && s[0] == '+' {
        s.drop_first()
    } else {
        s
    };
    if d.len() > 0 && all_digits(d) && digits_value(d) <= 255 {
        Some(digits_value(d) as u8)
    } else {
        None
    }
}

/// The key a lower-cased key name gives: a named key; one ASCII character (upper-cased
/// when Shift is held and it is a lower-case letter); `f` and a number; nothing else.
pub open spec fn key_code_of(name: Seq<char>, mods: KeyModifiers) -> Option<KeyCode> {
    match named_key(name) {
        Some(k) => Some(k),
        None => if utf8_len(name) == 1 {
            let c = name[0];
            if mods.shift && 'a' <= c && c <= 'z' {
                Some(KeyCode::Char(((c as u32) - 32) as char))
            } else {
                Some(KeyCode::Char(c))
            }
        } else if name.len() > 0 && name[0] == 'f' {
            match decimal_u8(name.drop_first()) {
                Some(n) => Some(KeyCode::F(n)),
                None => None,
            }
        } else {
            None
        },
    }
}

/// The binding that modifier words followed by a key's name denote.
pub open spec fn bind_of_parts(parts: Seq<Seq<char>>) -> Option<KeyBind> {
    match modifiers_of(parts.drop_last()) {
        None => None,
        Some(m) => match key_code_of(lowercase(parts.last()), m) {
            Some(c) => Some(KeyBind { code: c, mods: m }),
            None => None,
        },
    }
}

/// The binding one `mod+mod+key` text denotes.
pub open spec fn single_key_bind(s: Seq<char>) -> Option<KeyBind> {
    bind_of_parts(split_on(s, '+'))
}

/// The bindings that the pieces denote (each trimmed), skipping those that denote none.
pub open spec fn binds_of(parts: Seq<Seq<char>>) -> Seq<KeyBind>
    decreases parts.len(),
{
    if parts.len() == 0 {
        Seq::empty()
    } else {
        let r = binds_of(parts.drop_last());
        match single_key_bind(trim(parts.last())) {
            Some(b) => r.push(b),
            None => r,
        }
    }
}

/// The bindings a comma-separated list denotes; `None` when it denotes none.
pub open spec fn parsed_keys(s: Seq<char>) -> Option<Seq<KeyBind>> {
    let b = binds_of(split_on(s, ','));
    if b.len() == 0 {
        None
    } else {
        Some(b)
    }
}

/// Adds the modifier that a lower-cased word names to `m`; `None` when it names none.
pub fn modifier_from_word(m: KeyModifiers, word: &[char]) -> (r: Option<KeyModifiers>)
    ensures
        r == modifier_word(m, word@),
{
    if chars_eq_str(word, "ctrl") || chars_eq_str(word, "c") {
        Some(KeyModifiers { control: true, ..m })
    } else if chars_eq_str(word, "alt") || chars_eq_str(word, "meta") || chars_eq_str(word, "m") {
        Some(KeyModifiers { alt: true, ..m })
    } else if chars_eq_str(word, "shift") || chars_eq_str(word, "s") {
        Some(KeyModifiers { shift: true, ..m })
    } else {
        None
    }
}

fn named_key_exec(name: &[char]) -> (r: Option<KeyCode>)
    ensures
        r == named_key(name@),
{
    if chars_eq_str(name, "enter") || chars_eq_str(name, "return") || chars_eq_str(name, "cr") {
        Some(KeyCode::Enter)
    } else if chars_eq_str(name, "esc") || chars_eq_str(name, "escape") {
        Some(KeyCode::Esc)
    } else if chars_eq_str(name, "tab") {
        Some(KeyCode::Tab)
    } else if chars_eq_str(name, "space") {
        Some(KeyCode::Char(' '))
    } else if chars_eq_str(name, "backspace") || chars_eq_str(name, "bs") {
        Some(KeyCode::Backspace)
    } else if chars_eq_str(name, "delete") || chars_eq_str(name, "del") {
        Some(KeyCode::Delete)
    } else if chars_eq_str(name, "up") {
        Some(KeyCode::Up)
    } else if chars_eq_str(name, "down") {
        Some(KeyCode::Down)
    } else if chars_eq_str(name, "left") {
        Some(KeyCode::Left)
    } else if chars_eq_str(name, "right") {
        Some(KeyCode::Right)
    } else if chars_eq_str(name, "home") {
        Some(KeyCode::Home)
    } else if chars_eq_str(name, "end") {
        Some(KeyCode::End)
    } else if chars_eq_str(name, "pageup") {
        Some(KeyCode::PageUp)
    } else if chars_eq_str(name, "pagedown") {
        Some(KeyCode::PageDown)
    } else {
        None
    }
}

proof fn lemma_digits_value_bound(d: Seq<char>, k: int)
    requires
        0 < k <= d.len(),
        forall|i: int| 0 <= i < d.len() ==> is_digit(#[trigger] d[i]),
    ensures
        digits_value(d.take(k)) <= digits_value(d),
    decreases d.len(),
{
    if k < d.len() {
        assert(d.drop_last().take(k) == d.take(k));
        assert forall|i: int| 0 <= i < d.drop_last().len() implies is_digit(
            #[trigger] d.drop_last()[i],
        ) by {
            assert(d.drop_last()[i] == d[i]);
        }
        lemma_digits_value_bound(d.drop_last(), k);
    } else {
        assert(d.take(k) == d);
    }
}

/// Parses a number as `str::parse::<u8>` does.
pub fn parse_decimal_u8(s: &[char]) -> (r: Option<u8>)
    ensures
        r == decimal_u8(s@),
{
    let start: usize = if s.len() > 0 && s[0] == '+' {
        1
    } else {
        0
    };
    let ghost d = if s@.len() > 0 && s@[0] == '+' {
        s@.drop_first()
    } else {
        s@
    };
    assert(d == s@.skip(start as int));
    if start >= s.len() {
        return None;
    }
    let mut v: u32 = 0;
    let mut i = start;
    while i < s.len()
        invariant
            start <= i <= s.len(),
            d == s@.skip(start as int),
            d == (if s@.len() > 0 && s@[0] == '+' {
                s@.drop_first()
            } else {
                s@
            }),
            forall|k: int| 0 <= k < i - start ==> is_digit(#[trigger] d[k]),
            v == digits_value(d.take(i - start)),
            v <= 255,
        decreases s.len() - i,
    {
        let c = s[i];
        if !('0' <= c && c <= '9') {
            assert(!is_digit(d[i - start]));
            assert(!all_digits(d));
            return None;
        }
        assert(d.take(i - start + 1).drop_last() == d.take(i - start));
        assert(d.take(i - start + 1).last() == c);
        v = v * 10 + (c as u32 - 48);
        assert(v == digits_value(d.take(i - start + 1)));
        if v > 255 {
            proof {
                assert forall|k: int| 0 <= k < i - start + 1 implies is_digit(
                    #[trigger] d.take(i - start + 1)[k],
                ) by {
                    assert(d.take(i - start + 1)[k] == d[k]);
                }
                if all_digits(d) {
                    lemma_digits_value_bound(d, i - start + 1);
                    assert(digits_value(d) > 255);
                }
            }
            return None;
        }
        i = i + 1;
    }
    assert(d.take(i - start) == d);
    Some(v as u8)
}

proof fn lemma_utf8_len_one(name: Seq<char>)
    ensures
        (utf8_len(name) == 1) == (name.len() == 1 && (name[0] as u32) < 0x80),
{
    crate::chars::lemma_utf8_len_at_least_len(name);
    if name.len() == 1 {
        crate::chars::lemma_utf8_len_push(Seq::<char>::empty(), name[0]);
        assert(Seq::<char>::empty().push(name[0]) == name);
        assert(encode_utf8(Seq::<char>::empty()).len() == 0);
    }
}

/// The key code a lower-cased key name denotes, given the modifiers parsed before it.
pub fn key_code_from_name(name: &[char], mods: KeyModifiers) -> (r: Option<KeyCode>)
    ensures
        r == key_code_of(name@, mods),
{
    if let Some(k) = named_key_exec(name) {
        return Some(k);
    }
    proof {
        lemma_utf8_len_one(name@);
    }
    if name.len() == 1 && (name[0] as u32) < 0x80 {
        let c = name[0];
        if mods.shift && 'a' <= c && c <= 'z' {
            Some(KeyCode::Char(((c as u32) - 32) as u8 as char))
        } else {
            Some(KeyCode::Char(c))
        }
    } else if name.len() > 0 && name[0] == 'f' {
        let mut rest: Vec<char> = Vec::new();
        crate::chars::extend_chars(&mut rest, name);
        rest.remove(0);
        assert(rest@ =~= name@.drop_first());
        match parse_decimal_u8(rest.as_slice()) {
            Some(n) => Some(KeyCode::F(n)),
            None => None,
        }
    } else {
        None
    }
}

/// Parses one binding such as `ctrl+r`, `S+tab` or `F5`: `'+'`-separated modifier
/// words, then the key's name; all matched without regard to case.
pub fn parse_single_key(s: &str) -> (r: Option<KeyBind>)
    ensures
        r == single_key_bind(s@),
{
    let cs = chars_of(s);
    let parts = split_chars(cs.as_slice(), '+');
    proof {
        lemma_split_on_nonempty(s@, '+');
    }
    let ghost ps = split_on(s@, '+');
    let n = parts.len() - 1;
    let mut mods = KeyModifiers::none();
    let mut i: usize = 0;
    assert(ps.drop_last().take(0) =~= Seq::<Seq<char>>::empty());
    while i < n
        invariant
            n == parts@.len() - 1,
            ps == split_on(s@, '+'),
            parts@.len() == ps.len(),
            forall|k: int| 0 <= k < parts@.len() ==> #[trigger] parts@[k]@ == ps[k],
            i <= n,
            modifiers_of(ps.drop_last().take(i as int)) == Some(mods),
        decreases n - i,
    {
        let w = lowercase_chars(parts[i].as_slice());
        assert(ps.drop_last().take(i + 1).drop_last() == ps.drop_last().take(i as int));
        assert(ps.drop_last().take(i + 1).last() == ps[i as int]);
        match modifier_from_word(mods, w.as_slice()) {
            Some(m) => {
                mods = m;
            },
            None => {
                proof {
                    lemma_modifiers_none_prefix(ps.drop_last(), i + 1);
                }
                return None;
            },
        }
        i = i + 1;
    }
    assert(ps.drop_last().take(n as int) == ps.drop_last());
    let key = lowercase_chars(parts[n].as_slice());
    match key_code_from_name(key.as_slice(), mods) {
        Some(code) => Some(KeyBind { code, mods }),
        None => None,
    }
}

proof fn lemma_modifiers_none_prefix(words: Seq<Seq<char>>, k: int)
    requires
        0 <= k <= words.len(),
        modifiers_of(words.take(k)) is None,
    ensures
        modifiers_of(words) is None,
    decreases words.len() - k,
{
    if k < words.len() {
        assert(words.take(k + 1).drop_last() == words.take(k));
        lemma_modifiers_none_prefix(words, k + 1);
    } else {
        assert(words.take(k) == words);
    }
}

/// Parses a comma-separated list of bindings (e.g. `"j, Down"`); pieces that denote no
/// binding are skipped; `None` when none is left.
pub fn parse_keys(s: &str) -> (r: Option<Vec<KeyBind>>)
    ensures
        match r {
            Some(v) => parsed_keys(s@) == Some(v@),
            None => parsed_keys(s@) is None,
        },
{
    let cs = chars_of(s);
    let parts = split_chars(cs.as_slice(), ',');
    let ghost ps = split_on(s@, ',');
    let mut binds: Vec<KeyBind> = Vec::new();
    assert(ps.take(0) =~= Seq::<Seq<char>>::empty());
    for i in 0..parts.len()
        invariant
            parts@.len() == ps.len(),
            ps == split_on(s@, ','),
            forall|k: int| 0 <= k < parts@.len() ==> #[trigger] parts@[k]@ == ps[k],
            binds@ == binds_of(ps.take(i as int)),
    {
        assert(ps.take(i + 1).drop_last() == ps.take(i as int));
        assert(ps.take(i + 1).last() == ps[i as int]);
        let piece = trim_chars(parts[i].as_slice());
        let text = string_of(piece.as_slice());
        match parse_single_key(text.as_str()) {
            Some(b) => binds.push(b),
            None => {},
        }
    }
    assert(ps.take(parts.len() as int) == ps);
    if binds.len() == 0 {
        None
    } else {
        Some(binds)
    }
}

// ---------------------------------------------------------------------------
// The config file, as parsed: every entry optional

/// `[theme]` of the config file.
pub struct RawTheme {
    pub bg: Option<String>,
    pub selected: Option<String>,
    pub editing: Option<String>,
    pub inactive: Option<String>,
    pub error: Option<String>,
    pub output: Option<String>,
    pub status_nav: Option<String>,
    pub status_edit: Option<String>,
    pub syntax_theme: Option<String>,
}

/// `[keys]` of the config file.
pub struct RawKeys {
    pub run: Option<String>,
    pub run_all: Option<String>,
    pub run_above: Option<String>,
    pub interrupt: Option<String>,
    pub move_down: Option<String>,
    pub move_up: Option<String>,
    pub edit: Option<String>,
    pub edit_full: Option<String>,
    pub new_below: Option<String>,
    pub new_above: Option<String>,
    pub delete: Option<String>,
    pub save: Option<String>,
    pub quit: Option<String>,
}

/// `[images]` of the config file.
pub struct RawImages {
    pub max_width: Option<u16>,
    pub max_height: Option<u16>,
    pub min_width: Option<u16>,
    pub min_height: Option<u16>,
}

/// The config file's three optional tables.
pub struct RawConfig {
    pub theme: Option<RawTheme>,
    pub keys: Option<RawKeys>,
    pub images: Option<RawImages>,
}

/// The colour an entry sets, or `old` when it is absent or not a colour.
pub open spec fn color_or(old: Rgb, s: Option<String>) -> Rgb {
    match s {
        Some(t) => match hex_color(t@) {
            Some(c) => c,
            None => old,
        },
        None => old,
    }
}

/// The bindings an entry sets, or `old` when it is absent or denotes none.
pub open spec fn keys_or(old: Seq<KeyBind>, s: Option<String>) -> Seq<KeyBind> {
    match s {
        Some(t) => match parsed_keys(t@) {
            Some(b) => b,
            None => old,
        },
        None => old,
    }
}

pub open spec fn cuttable(s: Option<String>) -> bool {
    match s {
        Some(t) => hex_color_cuttable(t@),
        None => true,
    }
}

/// The entry of an optional table.
pub open spec fn entry<T, E>(table: Option<T>, f: spec_fn(T) -> Option<E>) -> Option<E> {
    match table {
        Some(t) => f(t),
        None => None,
    }
}

pub open spec fn size_or(old: u16, v: Option<u16>) -> u16 {
    match v {
        Some(w) => w,
        None => old,
    }
}

/// A config entry that is absent or rejected keeps the default, and the other entries
/// do not enter into it: each setting is its own entry over its own default.
pub proof fn lemma_rejected_entry_keeps_default(
    old_color: Rgb,
    color: Option<String>,
    old_keys: Seq<KeyBind>,
    keys: Option<String>,
)
    requires
        color matches Some(t) ==> hex_color(t@) is None,
        keys matches Some(t) ==> parsed_keys(t@) is None,
    ensures
        color_or(old_color, color) == old_color,
        keys_or(old_keys, keys) == old_keys,
{
}

impl RawConfig {
    /// No colour entry is a text whose slicing into byte pairs panics.
    pub open spec fn colors_cuttable(&self) -> bool {
        match self.theme {
            Some(t) => cuttable(t.bg) && cuttable(t.selected) && cuttable(t.editing) && cuttable(
                t.inactive,
            ) && cuttable(t.error) && cuttable(t.output) && cuttable(t.status_nav) && cuttable(
                t.status_edit,
            ),
            None => true,
        }
    }
}

fn merge_color(old: Rgb, s: &Option<String>) -> (c: Rgb)
    requires
        cuttable(*s),
    ensures
        c == color_or(old, *s),
{
    match s {
        Some(t) => match parse_hex(t.as_str()) {
            Some(c) => c,
            None => old,
        },
        None => old,
    }
}

fn merge_keys(old: Vec<KeyBind>, s: &Option<String>) -> (k: Vec<KeyBind>)
    ensures
        k@ == keys_or(old@, *s),
{
    match s {
        Some(t) => match parse_keys(t.as_str()) {
            Some(v) => v,
            None => old,
        },
        None => old,
    }
}

fn merge_size(old: u16, v: Option<u16>) -> (r: u16)
    ensures
        r == size_or(old, v),
{
    match v {
        Some(w) => w,
        None => old,
    }
}

/// The configuration a parsed config file gives: each entry that is present and valid
/// replaces the default, any other keeps it; each setting goes by its own entry alone.
pub open spec fn loaded_config(raw: RawConfig, c: Config) -> bool {
    &&& c.theme.bg == color_or(rgb(0x0d, 0x19, 0x26), entry(raw.theme, |t: RawTheme| t.bg))
    &&& c.theme.selected == color_or(
        rgb(0xb8, 0xb8, 0x7a),
        entry(raw.theme, |t: RawTheme| t.selected),
    )
    &&& c.theme.editing == color_or(
        rgb(0x7a, 0xb8, 0x7a),
        entry(raw.theme, |t: RawTheme| t.editing),
    )
    &&& c.theme.inactive == color_or(
        rgb(0x4a, 0x5a, 0x6a),
        entry(raw.theme, |t: RawTheme| t.inactive),
    )
    &&& c.theme.error == color_or(rgb(0xb8, 0x7a, 0x7a), entry(raw.theme, |t: RawTheme| t.error))
    &&& c.theme.output == color_or(
        rgb(0x7a, 0xb8, 0xb8),
        entry(raw.theme, |t: RawTheme| t.output),
    )
    &&& c.theme.status_nav == color_or(
        rgb(0x7a, 0x7a, 0xb8),
        entry(raw.theme, |t: RawTheme| t.status_nav),
    )
    &&& c.theme.status_edit == color_or(
        rgb(0x7a, 0xb8, 0x7a),
        entry(raw.theme, |t: RawTheme| t.status_edit),
    )
    &&& c.theme.syntax_theme@ == (match entry(raw.theme, |t: RawTheme| t.syntax_theme) {
        Some(s) => s@,
        None => "base16-ocean.dark"@,
    })
    &&& c.keys.run@ == keys_or(seq![plain('R')], entry(raw.keys, |k: RawKeys| k.run))
    &&& c.keys.run_all@ == keys_or(seq![ctrl('r')], entry(raw.keys, |k: RawKeys| k.run_all))
    &&& c.keys.run_above@ == keys_or(
        seq![ctrl('a')],
        entry(raw.keys, |k: RawKeys| k.run_above),
    )
    &&& c.keys.interrupt@ == keys_or(
        seq![ctrl('c')],
        entry(raw.keys, |k: RawKeys| k.interrupt),
    )
    &&& c.keys.move_down@ == keys_or(
        seq![plain('j'), plain_key(KeyCode::Down)],
        entry(raw.keys, |k: RawKeys| k.move_down),
    )
    &&& c.keys.move_up@ == keys_or(
        seq![plain('k'), plain_key(KeyCode::Up)],
        entry(raw.keys, |k: RawKeys| k.move_up),
    )
    &&& c.keys.edit@ == keys_or(
        seq![plain('i'), plain_key(KeyCode::Enter)],
        entry(raw.keys, |k: RawKeys| k.edit),
    )
    &&& c.keys.edit_full@ == keys_or(
        seq![plain('e')],
        entry(raw.keys, |k: RawKeys| k.edit_full),
    )
    &&& c.keys.new_below@ == keys_or(
        seq![plain('o')],
        entry(raw.keys, |k: RawKeys| k.new_below),
    )
    &&& c.keys.new_above@ == keys_or(
        seq![plain('O')],
        entry(raw.keys, |k: RawKeys| k.new_above),
    )
    &&& c.keys.delete@ == keys_or(seq![plain('d')], entry(raw.keys, |k: RawKeys| k.delete))
    &&& c.keys.save@ == keys_or(seq![plain('w')], entry(raw.keys, |k: RawKeys| k.save))
    &&& c.keys.quit@ == keys_or(seq![plain('q')], entry(raw.keys, |k: RawKeys| k.quit))
    &&& c.images.max_width == size_or(0, entry(raw.images, |i: RawImages| i.max_width))
    &&& c.images.max_height == size_or(0, entry(raw.images, |i: RawImages| i.max_height))
    &&& c.images.min_width == size_or(0, entry(raw.images, |i: RawImages| i.min_width))
    &&& c.images.min_height == size_or(0, entry(raw.images, |i: RawImages| i.min_height))
}

/// A colour entry that sets nothing: absent, or not a colour.
pub open spec fn void_color(s: Option<String>) -> bool {
    s matches Some(t) ==> hex_color(t@) is None
}

/// A key entry that sets nothing: absent, or naming no binding.
pub open spec fn void_keys(s: Option<String>) -> bool {
    s matches Some(t) ==> parsed_keys(t@) is None
}

/// Two colour entries that are the same, or both set nothing.
pub open spec fn colors_alike(a: Option<String>, b: Option<String>) -> bool {
    a == b || (void_color(a) && void_color(b))
}

/// Two key entries that are the same, or both set nothing.
pub open spec fn keys_alike(a: Option<String>, b: Option<String>) -> bool {
    a == b || (void_keys(a) && void_keys(b))
}

/// Two config files whose entries agree one by one, counting an absent entry and a
/// rejected one as alike.
pub open spec fn entries_alike(r1: RawConfig, r2: RawConfig) -> bool {
    &&& colors_alike(entry(r1.theme, |t: RawTheme| t.bg), entry(r2.theme, |t: RawTheme| t.bg))
    &&& colors_alike(entry(r1.theme, |t: RawTheme| t.selected), entry(r2.theme, |t: RawTheme| t.selected))
    &&& colors_alike(entry(r1.theme, |t: RawTheme| t.editing), entry(r2.theme, |t: RawTheme| t.editing))
    &&& colors_alike(entry(r1.theme, |t: RawTheme| t.inactive), entry(r2.theme, |t: RawTheme| t.inactive))
    &&& colors_alike(entry(r1.theme, |t: RawTheme| t.error), entry(r2.theme, |t: RawTheme| t.error))
    &&& colors_alike(entry(r1.theme, |t: RawTheme| t.output), entry(r2.theme, |t: RawTheme| t.output))
    &&& colors_alike(entry(r1.theme, |t: RawTheme| t.status_nav), entry(r2.theme, |t: RawTheme| t.status_nav))
    &&& colors_alike(entry(r1.theme, |t: RawTheme| t.status_edit), entry(r2.theme, |t: RawTheme| t.status_edit))
    &&& entry(r1.theme, |t: RawTheme| t.syntax_theme) == entry(r2.theme, |t: RawTheme| t.syntax_theme)
    &&& keys_alike(entry(r1.keys, |k: RawKeys| k.run), entry(r2.keys, |k: RawKeys| k.run))
    &&& keys_alike(entry(r1.keys, |k: RawKeys| k.run_all), entry(r2.keys, |k: RawKeys| k.run_all))
    &&& keys_alike(entry(r1.keys, |k: RawKeys| k.run_above), entry(r2.keys, |k: RawKeys| k.run_above))
    &&& keys_alike(entry(r1.keys, |k: RawKeys| k.interrupt), entry(r2.keys, |k: RawKeys| k.interrupt))
    &&& keys_alike(entry(r1.keys, |k: RawKeys| k.move_down), entry(r2.keys, |k: RawKeys| k.move_down))
    &&& keys_alike(entry(r1.keys, |k: RawKeys| k.move_up), entry(r2.keys, |k: RawKeys| k.move_up))
    &&& keys_alike(entry(r1.keys, |k: RawKeys| k.edit), entry(r2.keys, |k: RawKeys| k.edit))
    &&& keys_alike(entry(r1.keys, |k: RawKeys| k.edit_full), entry(r2.keys, |k: RawKeys| k.edit_full))
    &&& keys_alike(entry(r1.keys, |k: RawKeys| k.new_below), entry(r2.keys, |k: RawKeys| k.new_below))
    &&& keys_alike(entry(r1.keys, |k: RawKeys| k.new_above), entry(r2.keys, |k: RawKeys| k.new_above))
    &&& keys_alike(entry(r1.keys, |k: RawKeys| k.delete), entry(r2.keys, |k: RawKeys| k.delete))
    &&& keys_alike(entry(r1.keys, |k: RawKeys| k.save), entry(r2.keys, |k: RawKeys| k.save))
    &&& keys_alike(entry(r1.keys, |k: RawKeys| k.quit), entry(r2.keys, |k: RawKeys| k.quit))
    &&& entry(r1.images, |i: RawImages| i.max_width) == entry(r2.images, |i: RawImages| i.max_width)
    &&& entry(r1.images, |i: RawImages| i.max_height) == entry(r2.images, |i: RawImages| i.max_height)
    &&& entry(r1.images, |i: RawImages| i.min_width) == entry(r2.images, |i: RawImages| i.min_width)
    &&& entry(r1.images, |i: RawImages| i.min_height) == entry(r2.images, |i: RawImages| i.min_height)
}

/// Two configurations with the same settings.
pub open spec fn same_config(c1: Config, c2: Config) -> bool {
    &&& c1.theme.bg == c2.theme.bg
    &&& c1.theme.selected == c2.theme.selected
    &&& c1.theme.editing == c2.theme.editing
    &&& c1.theme.inactive == c2.theme.inactive
    &&& c1.theme.error == c2.theme.error
    &&& c1.theme.output == c2.theme.output
    &&& c1.theme.status_nav == c2.theme.status_nav
    &&& c1.theme.status_edit == c2.theme.status_edit
    &&& c1.theme.syntax_theme@ == c2.theme.syntax_theme@
    &&& c1.keys.run@ == c2.keys.run@
    &&& c1.keys.run_all@ == c2.keys.run_all@
    &&& c1.keys.run_above@ == c2.keys.run_above@
    &&& c1.keys.interrupt@ == c2.keys.interrupt@
    &&& c1.keys.move_down@ == c2.keys.move_down@
    &&& c1.keys.move_up@ == c2.keys.move_up@
    &&& c1.keys.edit@ == c2.keys.edit@
    &&& c1.keys.edit_full@ == c2.keys.edit_full@
    &&& c1.keys.new_below@ == c2.keys.new_below@
    &&& c1.keys.new_above@ == c2.keys.new_above@
    &&& c1.keys.delete@ == c2.keys.delete@
    &&& c1.keys.save@ == c2.keys.save@
    &&& c1.keys.quit@ == c2.keys.quit@
    &&& c1.images.max_width == c2.images.max_width
    &&& c1.images.max_height == c2.images.max_height
    &&& c1.images.min_width == c2.images.min_width
    &&& c1.images.min_height == c2.images.min_height
}

/// One entry never changes another setting: config files whose entries agree one by
/// one, where an entry that is absent and one that is rejected count alike, give the
/// same configuration. So a rejected entry leaves every other setting as it is without
/// that entry.
#[verifier::rlimit(40)]
pub proof fn lemma_entries_independent(r1: RawConfig, r2: RawConfig, c1: Config, c2: Config)
    requires
        loaded_config(r1, c1),
        loaded_config(r2, c2),
        entries_alike(r1, r2),
    ensures
        same_config(c1, c2),
{
}

/// Each colour and the syntax theme come from their own `[theme]` entry: a valid entry
/// sets the setting, an absent or rejected one leaves its default.
pub proof fn lemma_theme_from_own_entries(raw: RawConfig, c: Config)
    requires
        loaded_config(raw, c),
    ensures
        raw.theme is Some && raw.theme->0.bg is Some && hex_color(raw.theme->0.bg->0@) is Some ==> c.theme.bg == hex_color(raw.theme->0.bg->0@)->0,
        raw.theme is None || raw.theme->0.bg is None || hex_color(raw.theme->0.bg->0@) is None ==> c.theme.bg == rgb(0x0d, 0x19, 0x26),
        raw.theme is Some && raw.theme->0.selected is Some && hex_color(raw.theme->0.selected->0@) is Some ==> c.theme.selected == hex_color(raw.theme->0.selected->0@)->0,
        raw.theme is None || raw.theme->0.selected is None || hex_color(raw.theme->0.selected->0@) is None ==> c.theme.selected == rgb(0xb8, 0xb8, 0x7a),
        raw.theme is Some && raw.theme->0.editing is Some && hex_color(raw.theme->0.editing->0@) is Some ==> c.theme.editing == hex_color(raw.theme->0.editing->0@)->0,
        raw.theme is None || raw.theme->0.editing is None || hex_color(raw.theme->0.editing->0@) is None ==> c.theme.editing == rgb(0x7a, 0xb8, 0x7a),
        raw.theme is Some && raw.theme->0.inactive is Some && hex_color(raw.theme->0.inactive->0@) is Some ==> c.theme.inactive == hex_color(raw.theme->0.inactive->0@)->0,
        raw.theme is None || raw.theme->0.inactive is None || hex_color(raw.theme->0.inactive->0@) is None ==> c.theme.inactive == rgb(0x4a, 0x5a, 0x6a),
        raw.theme is Some && raw.theme->0.error is Some && hex_color(raw.theme->0.error->0@) is Some ==> c.theme.error == hex_color(raw.theme->0.error->0@)->0,
        raw.theme is None || raw.theme->0.error is None || hex_color(raw.theme->0.error->0@) is None ==> c.theme.error == rgb(0xb8, 0x7a, 0x7a),
        raw.theme is Some && raw.theme->0.output is Some && hex_color(raw.theme->0.output->0@) is Some ==> c.theme.output == hex_color(raw.theme->0.output->0@)->0,
        raw.theme is None || raw.theme->0.output is None || hex_color(raw.theme->0.output->0@) is None ==> c.theme.output == rgb(0x7a, 0xb8, 0xb8),
        raw.theme is Some && raw.theme->0.status_nav is Some && hex_color(raw.theme->0.status_nav->0@) is Some ==> c.theme.status_nav == hex_color(raw.theme->0.status_nav->0@)->0,
        raw.theme is None || raw.theme->0.status_nav is None || hex_color(raw.theme->0.status_nav->0@) is None ==> c.theme.status_nav == rgb(0x7a, 0x7a, 0xb8),
        raw.theme is Some && raw.theme->0.status_edit is Some && hex_color(raw.theme->0.status_edit->0@) is Some ==> c.theme.status_edit == hex_color(raw.theme->0.status_edit->0@)->0,
        raw.theme is None || raw.theme->0.status_edit is None || hex_color(raw.theme->0.status_edit->0@) is None ==> c.theme.status_edit == rgb(0x7a, 0xb8, 0x7a),
        raw.theme is Some && raw.theme->0.syntax_theme is Some ==> c.theme.syntax_theme@ == raw.theme->0.syntax_theme->0@,
        raw.theme is None || raw.theme->0.syntax_theme is None ==> c.theme.syntax_theme@ == "base16-ocean.dark"@,
{
}

/// Each key action takes its bindings from its own `[keys]` entry: an entry that
/// names bindings sets them, an absent or rejected one leaves the default bindings.
#[verifier::rlimit(40)]
pub proof fn lemma_keys_from_own_entries(raw: RawConfig, c: Config)
    requires
        loaded_config(raw, c),
    ensures
        raw.keys is Some && raw.keys->0.run is Some && parsed_keys(raw.keys->0.run->0@) is Some ==> c.keys.run@ == parsed_keys(raw.keys->0.run->0@)->0,
        raw.keys is None || raw.keys->0.run is None || parsed_keys(raw.keys->0.run->0@) is None ==> c.keys.run@ == seq![plain('R')],
        raw.keys is Some && raw.keys->0.run_all is Some && parsed_keys(raw.keys->0.run_all->0@) is Some ==> c.keys.run_all@ == parsed_keys(raw.keys->0.run_all->0@)->0,
        raw.keys is None || raw.keys->0.run_all is None || parsed_keys(raw.keys->0.run_all->0@) is None ==> c.keys.run_all@ == seq![ctrl('r')],
        raw.keys is Some && raw.keys->0.run_above is Some && parsed_keys(raw.keys->0.run_above->0@) is Some ==> c.keys.run_above@ == parsed_keys(raw.keys->0.run_above->0@)->0,
        raw.keys is None || raw.keys->0.run_above is None || parsed_keys(raw.keys->0.run_above->0@) is None ==> c.keys.run_above@ == seq![ctrl('a')],
        raw.keys is Some && raw.keys->0.interrupt is Some && parsed_keys(raw.keys->0.interrupt->0@) is Some ==> c.keys.interrupt@ == parsed_keys(raw.keys->0.interrupt->0@)->0,
        raw.keys is None || raw.keys->0.interrupt is None || parsed_keys(raw.keys->0.interrupt->0@) is None ==> c.keys.interrupt@ == seq![ctrl('c')],
        raw.keys is Some && raw.keys->0.move_down is Some && parsed_keys(raw.keys->0.move_down->0@) is Some ==> c.keys.move_down@ == parsed_keys(raw.keys->0.move_down->0@)->0,
        raw.keys is None || raw.keys->0.move_down is None || parsed_keys(raw.keys->0.move_down->0@) is None ==> c.keys.move_down@ == seq![plain('j'), plain_key(KeyCode::Down)],
        raw.keys is Some && raw.keys->0.move_up is Some && parsed_keys(raw.keys->0.move_up->0@) is Some ==> c.keys.move_up@ == parsed_keys(raw.keys->0.move_up->0@)->0,
        raw.keys is None || raw.keys->0.move_up is None || parsed_keys(raw.keys->0.move_up->0@) is None ==> c.keys.move_up@ == seq![plain('k'), plain_key(KeyCode::Up)],
        raw.keys is Some && raw.keys->0.edit is Some && parsed_keys(raw.keys->0.edit->0@) is Some ==> c.keys.edit@ == parsed_keys(raw.keys->0.edit->0@)->0,
        raw.keys is None || raw.keys->0.edit is None || parsed_keys(raw.keys->0.edit->0@) is None ==> c.keys.edit@ == seq![plain('i'), plain_key(KeyCode::Enter)],
        raw.keys is Some && raw.keys->0.edit_full is Some && parsed_keys(raw.keys->0.edit_full->0@) is Some ==> c.keys.edit_full@ == parsed_keys(raw.keys->0.edit_full->0@)->0,
        raw.keys is None || raw.keys->0.edit_full is None || parsed_keys(raw.keys->0.edit_full->0@) is None ==> c.keys.edit_full@ == seq![plain('e')],
        raw.keys is Some && raw.keys->0.new_below is Some && parsed_keys(raw.keys->0.new_below->0@) is Some ==> c.keys.new_below@ == parsed_keys(raw.keys->0.new_below->0@)->0,
        raw.keys is None || raw.keys->0.new_below is None || parsed_keys(raw.keys->0.new_below->0@) is None ==> c.keys.new_below@ == seq![plain('o')],
        raw.keys is Some && raw.keys->0.new_above is Some && parsed_keys(raw.keys->0.new_above->0@) is Some ==> c.keys.new_above@ == parsed_keys(raw.keys->0.new_above->0@)->0,
        raw.keys is None || raw.keys->0.new_above is None || parsed_keys(raw.keys->0.new_above->0@) is None ==> c.keys.new_above@ == seq![plain('O')],
        raw.keys is Some && raw.keys->0.delete is Some && parsed_keys(raw.keys->0.delete->0@) is Some ==> c.keys.delete@ == parsed_keys(raw.keys->0.delete->0@)->0,
        raw.keys is None || raw.keys->0.delete is None || parsed_keys(raw.keys->0.delete->0@) is None ==> c.keys.delete@ == seq![plain('d')],
        raw.keys is Some && raw.keys->0.save is Some && parsed_keys(raw.keys->0.save->0@) is Some ==> c.keys.save@ == parsed_keys(raw.keys->0.save->0@)->0,
        raw.keys is None || raw.keys->0.save is None || parsed_keys(raw.keys->0.save->0@) is None ==> c.keys.save@ == seq![plain('w')],
        raw.keys is Some && raw.keys->0.quit is Some && parsed_keys(raw.keys->0.quit->0@) is Some ==> c.keys.quit@ == parsed_keys(raw.keys->0.quit->0@)->0,
        raw.keys is None || raw.keys->0.quit is None || parsed_keys(raw.keys->0.quit->0@) is None ==> c.keys.quit@ == seq![plain('q')],
{
}

/// Each image limit comes from its own `[images]` entry, 0 when absent.
pub proof fn lemma_images_from_own_entries(raw: RawConfig, c: Config)
    requires
        loaded_config(raw, c),
    ensures
        raw.images is Some && raw.images->0.max_width is Some ==> c.images.max_width == raw.images->0.max_width->0,
        raw.images is None || raw.images->0.max_width is None ==> c.images.max_width == 0,
        raw.images is Some && raw.images->0.max_height is Some ==> c.images.max_height == raw.images->0.max_height->0,
        raw.images is None || raw.images->0.max_height is None ==> c.images.max_height == 0,
        raw.images is Some && raw.images->0.min_width is Some ==> c.images.min_width == raw.images->0.min_width->0,
        raw.images is None || raw.images->0.min_width is None ==> c.images.min_width == 0,
        raw.images is Some && raw.images->0.min_height is Some ==> c.images.min_height == raw.images->0.min_height->0,
        raw.images is None || raw.images->0.min_height is None ==> c.images.min_height == 0,
{
}

impl Config {
    /// The configuration a parsed config file gives: each entry that is present and valid
    /// replaces the default, any other keeps it.
    pub fn from_raw(raw: &RawConfig) -> (c: Config)
        requires
            raw.colors_cuttable(),
        ensures
            loaded_config(*raw, c),
    {
        let d = Config::default();
        let theme = match &raw.theme {
            Some(t) => Theme {
                bg: merge_color(d.theme.bg, &t.bg),
                selected: merge_color(d.theme.selected, &t.selected),
                editing: merge_color(d.theme.editing, &t.editing),
                inactive: merge_color(d.theme.inactive, &t.inactive),
                error: merge_color(d.theme.error, &t.error),
                output: merge_color(d.theme.output, &t.output),
                status_nav: merge_color(d.theme.status_nav, &t.status_nav),
                status_edit: merge_color(d.theme.status_edit, &t.status_edit),
                syntax_theme: match &t.syntax_theme {
                    Some(s) => s.clone(),
                    None => d.theme.syntax_theme,
                },
            },
            None => d.theme,
        };
        let keys = match &raw.keys {
            Some(k) => Keys {
                run: merge_keys(d.keys.run, &k.run),
                run_all: merge_keys(d.keys.run_all, &k.run_all),
                run_above: merge_keys(d.keys.run_above, &k.run_above),
                interrupt: merge_keys(d.keys.interrupt, &k.interrupt),
                move_down: merge_keys(d.keys.move_down, &k.move_down),
                move_up: merge_keys(d.keys.move_up, &k.move_up),
                edit: merge_keys(d.keys.edit, &k.edit),
                edit_full: merge_keys(d.keys.edit_full, &k.edit_full),
                new_below: merge_keys(d.keys.new_below, &k.new_below),
                new_above: merge_keys(d.keys.new_above, &k.new_above),
                delete: merge_keys(d.keys.delete, &k.delete),
                save: merge_keys(d.keys.save, &k.save),
                quit: merge_keys(d.keys.quit, &k.quit),
            },
            None => d.keys,
        };
        let images = match &raw.images {
            Some(i) => Images {
                max_width: merge_size(d.images.max_width, i.max_width),
                max_height: merge_size(d.images.max_height, i.max_height),
                min_width: merge_size(d.images.min_width, i.min_width),
                min_height: merge_size(d.images.min_height, i.min_height),
            },
            None => d.images,
        };
        Config { theme, keys, images }
    }
}

} // verus!
