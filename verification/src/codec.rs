//! The settings file format: encoding a record as the pretty-printed JSON
//! document with its six keys, and decoding a document back into a record,
//! with every missing key falling back to its field's default.

use vstd::prelude::*;

use crate::config::{AppConfig, ConfigV};
use crate::json::{
    TokV, Token, SkipMode, run_skip, spec_lex, lemma_run_skip_bounds, toks_view,
};

verus! {

// ---------------------------------------------------------------------------
// Printing: the exact text `encode` produces.
// ---------------------------------------------------------------------------
/// The decimal digit character for `d` (defined for 0 through 9).
pub open spec fn dchar(d: int) -> char {
    if d == 0 {
        '0'
    } else if d == 1 {
        '1'
    } else if d == 2 {
        '2'
    } else if d == 3 {
        '3'
    } else if d == 4 {
        '4'
    } else if d == 5 {
        '5'
    } else if d == 6 {
        '6'
    } else if d == 7 {
        '7'
    } else if d == 8 {
        '8'
    } else {
        '9'
    }
}

/// The lower-case hexadecimal digit character for `d` (0 through 15).
pub open spec fn hchar(d: int) -> char {
    if d < 10 {
        dchar(d)
    } else if d == 10 {
        'a'
    } else if d == 11 {
        'b'
    } else if d == 12 {
        'c'
    } else if d == 13 {
        'd'
    } else if d == 14 {
        'e'
    } else {
        'f'
    }
}

/// Decimal digits of a non-negative number, most significant first.
pub open spec fn u_digits(n: int) -> Seq<char>
    decreases n,
{
    if n < 10 {
        seq![dchar(n)]
    } else {
        u_digits(n / 10).push(dchar(n % 10))
    }
}

/// Decimal text of an integer, with a minus sign when negative.
pub open spec fn int_chars(n: int) -> Seq<char> {
    if n < 0 {
        seq!['-'] + u_digits(-n)
    } else {
        u_digits(n)
    }
}

pub open spec fn bool_chars(b: bool) -> Seq<char> {
    if b {
        seq!['t', 'r', 'u', 'e']
    } else {
        seq!['f', 'a', 'l', 's', 'e']
    }
}

/// How one character is written inside a JSON string: quote and backslash
/// escaped, the named control characters by letter, any other control
/// character as a four-digit hexadecimal escape, everything else as itself.
pub open spec fn esc_of(c: char) -> Seq<char> {
    if c == '"' {
        seq!['\\', '"']
    } else if c == '\\' {
        seq!['\\', '\\']
    } else if c == '\u{8}' {
        seq!['\\', 'b']
    } else if c == '\u{c}' {
        seq!['\\', 'f']
    } else if c == '\n' {
        seq!['\\', 'n']
    } else if c == '\r' {
        seq!['\\', 'r']
    } else if c == '\t' {
        seq!['\\', 't']
    } else if (c as u32) < 0x20 {
        seq!['\\', 'u', '0', '0', hchar(c as u32 as int / 16), hchar(c as u32 as int % 16)]
    } else {
        seq![c]
    }
}

/// A whole string written with its escapes.
pub open spec fn esc_seq(s: Seq<char>) -> Seq<char>
    decreases s.len(),
{
    if s.len() == 0 {
        Seq::empty()
    } else {
        esc_of(s[0]) + esc_seq(s.drop_first())
    }
}

/// A string value as it stands in the document: quoted and escaped.
pub open spec fn quoted(s: Seq<char>) -> Seq<char> {
    seq!['"'] + esc_seq(s) + seq!['"']
}

/// `{`, a line break, the indent, and the first key with its separator.
pub open spec fn first_key(k: Seq<char>) -> Seq<char> {
    seq!['{', '\n', ' ', ' ', '"'] + k + seq!['"', ':', ' ']
}

/// `,`, a line break, the indent, and a further key with its separator.
pub open spec fn next_key(k: Seq<char>) -> Seq<char> {
    seq![',', '\n', ' ', ' ', '"'] + k + seq!['"', ':', ' ']
}

pub open spec fn key_theme() -> Seq<char> {
    seq!['t', 'h', 'e', 'm', 'e']
}

pub open spec fn key_color() -> Seq<char> {
    seq!['c', 'o', 'l', 'o', 'r']
}

pub open spec fn key_zoom() -> Seq<char> {
    seq!['z', 'o', 'o', 'm']
}

pub open spec fn key_show_app_rail() -> Seq<char> {
    seq!['s', 'h', 'o', 'w', '_', 'a', 'p', 'p', '_', 'r', 'a', 'i', 'l']
}

pub open spec fn key_sidebar_open() -> Seq<char> {
    seq!['s', 'i', 'd', 'e', 'b', 'a', 'r', '_', 'o', 'p', 'e', 'n']
}

pub open spec fn key_sidebar_width() -> Seq<char> {
    seq!['s', 'i', 'd', 'e', 'b', 'a', 'r', '_', 'w', 'i', 'd', 't', 'h']
}

/// The full document `encode` writes: a pretty-printed object holding all six
/// keys in a fixed order, two-space indent, one line per key. Kept opaque so
/// that callers work with the stated facts about it; a proof that needs the
/// text itself reveals it.
#[verifier::opaque]
pub open spec fn spec_config_text(c: ConfigV) -> Seq<char> {
    first_key(key_theme()) + quoted(c.theme) + next_key(key_color()) + quoted(c.color) + next_key(
        key_zoom(),
    ) + int_chars(c.zoom) + next_key(key_show_app_rail()) + bool_chars(c.show_app_rail) + next_key(
        key_sidebar_open(),
    ) + bool_chars(c.sidebar_open) + next_key(key_sidebar_width()) + int_chars(c.sidebar_width)
        + seq!['\n', '}']
}

// ---------------------------------------------------------------------------
// Decoding: from the token sequence to a record.
// ---------------------------------------------------------------------------
/// The fields a document has supplied so far. A field that stays `None`
/// falls back to its default.
#[verifier::ext_equal]
pub ghost struct PartialV {
    pub theme: Option<Seq<char>>,
    pub color: Option<Seq<char>>,
    pub zoom: Option<int>,
    pub show_app_rail: Option<bool>,
    pub sidebar_open: Option<bool>,
    pub sidebar_width: Option<int>,
}

pub open spec fn empty_partial() -> PartialV {
    PartialV {
        theme: None,
        color: None,
        zoom: None,
        show_app_rail: None,
        sidebar_open: None,
        sidebar_width: None,
    }
}

/// Missing fields take their type's default: empty string, zero, false.
pub open spec fn fill_defaults(p: PartialV) -> ConfigV {
    ConfigV {
        theme: if p.theme is Some {
            p.theme->Some_0
        } else {
            Seq::empty()
        },
        color: if p.color is Some {
            p.color->Some_0
        } else {
            Seq::empty()
        },
        zoom: if p.zoom is Some {
            p.zoom->Some_0
        } else {
            0
        },
        show_app_rail: if p.show_app_rail is Some {
            p.show_app_rail->Some_0
        } else {
            false
        },
        sidebar_open: if p.sidebar_open is Some {
            p.sidebar_open->Some_0
        } else {
            false
        },
        sidebar_width: if p.sidebar_width is Some {
            p.sidebar_width->Some_0
        } else {
            0
        },
    }
}

pub open spec fn fits_i32(v: int) -> bool {
    -0x8000_0000 <= v <= 0x7FFF_FFFF
}

/// One member's value, for a known key: the token it must be and the updated
/// field set. A wrong type, an out-of-range integer, or a repeated key is an
/// error. An unknown key accepts any well-formed value.
pub open spec fn member_value(t: Seq<TokV>, i: int, k: Seq<char>, acc: PartialV) -> Option<
    (PartialV, int),
> {
    if k == key_theme() {
        if i < t.len() && t[i] is Str && acc.theme is None {
            Some((PartialV { theme: Some(t[i]->Str_0), ..acc }, i + 1))
        } else {
            None
        }
    } else if k == key_color() {
        if i < t.len() && t[i] is Str && acc.color is None {
            Some((PartialV { color: Some(t[i]->Str_0), ..acc }, i + 1))
        } else {
            None
        }
    } else if k == key_zoom() {
        if i < t.len() && t[i] is Int && fits_i32(t[i]->Int_0) && acc.zoom is None {
            Some((PartialV { zoom: Some(t[i]->Int_0), ..acc }, i + 1))
        } else {
            None
        }
    } else if k == key_show_app_rail() {
        if i < t.len() && (t[i] is True || t[i] is False) && acc.show_app_rail is None {
            Some((PartialV { show_app_rail: Some(t[i] is True), ..acc }, i + 1))
        } else {
            None
        }
    } else if k == key_sidebar_open() {
        if i < t.len() && (t[i] is True || t[i] is False) && acc.sidebar_open is None {
            Some((PartialV { sidebar_open: Some(t[i] is True), ..acc }, i + 1))
        } else {
            None
        }
    } else if k == key_sidebar_width() {
        if i < t.len() && t[i] is Int && fits_i32(t[i]->Int_0) && acc.sidebar_width is None {
            Some((PartialV { sidebar_width: Some(t[i]->Int_0), ..acc }, i + 1))
        } else {
            None
        }
    } else {
        match run_skip(t, i, Seq::empty(), SkipMode::Value) {
            Some(j) => Some((acc, j)),
            None => None,
        }
    }
}

pub proof fn lemma_member_value_bounds(t: Seq<TokV>, i: int, k: Seq<char>, acc: PartialV)
    requires
        0 <= i <= t.len(),
        member_value(t, i, k, acc) is Some,
    ensures
        i < member_value(t, i, k, acc)->Some_0.1 <= t.len(),
{
    if k == key_theme() || k == key_color() || k == key_zoom() || k == key_show_app_rail() || k
        == key_sidebar_open() || k == key_sidebar_width() {
    } else {
        lemma_run_skip_bounds(t, i, Seq::empty(), SkipMode::Value);
    }
}

/// The members of the top-level object, starting at a key position (`i` is
/// just after `{` or just after a member's comma). The object may close at
/// once only where no comma precedes; after the closing brace the document
/// must end.
pub open spec fn parse_members(t: Seq<TokV>, i: int, acc: PartialV, allow_close: bool) -> Option<
    PartialV,
>
    decreases t.len() - i,
    via parse_members_dec
{
    if i < 0 || i >= t.len() {
        None
    } else if t[i] is RBrace {
        if allow_close && i + 1 == t.len() {
            Some(acc)
        } else {
            None
        }
    } else if t[i] is Str {
        if i + 1 < t.len() && t[i + 1] is Colon {
            match member_value(t, i + 2, t[i]->Str_0, acc) {
                Some((acc2, after)) => if after < t.len() && t[after] is RBrace {
                    if after + 1 == t.len() {
                        Some(acc2)
                    } else {
                        None
                    }
                } else if after < t.len() && t[after] is Comma {
                    parse_members(t, after + 1, acc2, false)
                } else {
                    None
                },
                None => None,
            }
        } else {
            None
        }
    } else {
        None
    }
}

#[via_fn]
proof fn parse_members_dec(t: Seq<TokV>, i: int, acc: PartialV, allow_close: bool) {
    if 0 <= i < t.len() && t[i] is Str && i + 1 < t.len() && t[i + 1] is Colon {
        if member_value(t, i + 2, t[i]->Str_0, acc) is Some {
            lemma_member_value_bounds(t, i + 2, t[i]->Str_0, acc);
        }
    }
}

/// The whole token sequence as a settings document: one top-level object and
/// nothing after it.
pub open spec fn parse_doc(t: Seq<TokV>) -> Option<PartialV> {
    if t.len() > 0 && t[0] is LBrace {
        parse_members(t, 1, empty_partial(), true)
    } else {
        None
    }
}

/// What decoding a document yields: the record, or nothing when the text is
/// not a well-formed settings document.
pub open spec fn spec_decode(s: Seq<char>) -> Option<ConfigV> {
    match spec_lex(s, 0) {
        Some(t) => match parse_doc(t) {
            Some(p) => Some(fill_defaults(p)),
            None => None,
        },
        None => None,
    }
}

/// Default-on-missing, for every document: a well-formed document decodes to
/// the fields it supplies, and each key it leaves out comes back as its
/// type's default — the empty string, zero, or false.
pub proof fn lemma_absent_keys_are_default(s: Seq<char>, t: Seq<TokV>, p: PartialV)
    requires
        spec_lex(s, 0) == Some(t),
        parse_doc(t) == Some(p),
    ensures
        spec_decode(s) == Some(fill_defaults(p)),
        p.theme is None ==> fill_defaults(p).theme == Seq::<char>::empty(),
        p.color is None ==> fill_defaults(p).color == Seq::<char>::empty(),
        p.zoom is None ==> fill_defaults(p).zoom == 0,
        p.show_app_rail is None ==> fill_defaults(p).show_app_rail == false,
        p.sidebar_open is None ==> fill_defaults(p).sidebar_open == false,
        p.sidebar_width is None ==> fill_defaults(p).sidebar_width == 0,
{
}

// ---------------------------------------------------------------------------
// The executable decoder.
// ---------------------------------------------------------------------------
/// Executable mirror of [`SkipMode`].
#[derive(Clone, Copy)]
pub enum SkipModeX {
    Value,
    ValueOrClose,
    Key,
    KeyOrClose,
    Colon,
    After,
}

impl View for SkipModeX {
    type V = SkipMode;

    open spec fn view(&self) -> SkipMode {
        match self {
            SkipModeX::Value => SkipMode::Value,
            SkipModeX::ValueOrClose => SkipMode::ValueOrClose,
            SkipModeX::Key => SkipMode::Key,
            SkipModeX::KeyOrClose => SkipMode::KeyOrClose,
            SkipModeX::Colon => SkipMode::Colon,
            SkipModeX::After => SkipMode::After,
        }
    }
}

/// Walks one complete value starting at `i`, yielding the index just past it.
#[verifier::rlimit(60)]
fn skip_value_x(t: &Vec<Token>, i: usize) -> (r: Option<usize>)
    requires
        i <= t@.len(),
    ensures
        match run_skip(toks_view(t@), i as int, Seq::empty(), SkipMode::Value) {
            Some(j) => r matches Some(x) && x == j,
            None => r is None,
        },
{
    let n = t.len();
    let ghost tv = toks_view(t@);
    let mut stack: Vec<bool> = Vec::new();
    let mut mode = SkipModeX::Value;
    let mut k = i;
    loop
        invariant
            i <= k <= n,
            n == t@.len(),
            tv == toks_view(t@),
            run_skip(tv, i as int, Seq::empty(), SkipMode::Value) == run_skip(
                tv,
                k as int,
                stack@,
                mode@,
            ),
        decreases n - k,
    {
        proof {
            assert(tv.len() == t@.len());
            if k < n {
                assert(tv[k as int] == t@[k as int]@);
            }
        }
        match mode {
            SkipModeX::After => {
                if stack.len() == 0 {
                    return Some(k);
                }
                if k >= n {
                    return None;
                }
                let is_obj = stack[stack.len() - 1];
                match &t[k] {
                    Token::Comma => {
                        mode = if is_obj {
                            SkipModeX::Key
                        } else {
                            SkipModeX::Value
                        };
                    },
                    Token::RBrace => {
                        if is_obj {
                            stack.pop();
                            mode = SkipModeX::After;
                        } else {
                            return None;
                        }
                    },
                    Token::RBracket => {
                        if !is_obj {
                            stack.pop();
                            mode = SkipModeX::After;
                        } else {
                            return None;
                        }
                    },
                    _ => {
                        return None;
                    },
                }
            },
            SkipModeX::Value | SkipModeX::ValueOrClose => {
                if k >= n {
                    return None;
                }
                let may_close = matches!(mode, SkipModeX::ValueOrClose);
                match &t[k] {
                    Token::Str(_) => {
                        mode = SkipModeX::After;
                    },
                    Token::Int { .. } => {
                        mode = SkipModeX::After;
                    },
                    Token::Float => {
                        mode = SkipModeX::After;
                    },
                    Token::True => {
                        mode = SkipModeX::After;
                    },
                    Token::False => {
                        mode = SkipModeX::After;
                    },
                    Token::Null => {
                        mode = SkipModeX::After;
                    },
                    Token::LBrace => {
                        stack.push(true);
                        mode = SkipModeX::KeyOrClose;
                    },
                    Token::LBracket => {
                        stack.push(false);
                        mode = SkipModeX::ValueOrClose;
                    },
                    Token::RBracket => {
                        if may_close && stack.len() > 0 && stack[stack.len() - 1] == false {
                            stack.pop();
                            mode = SkipModeX::After;
                        } else {
                            return None;
                        }
                    },
                    _ => {
                        return None;
                    },
                }
            },
            SkipModeX::Key | SkipModeX::KeyOrClose => {
                if k >= n {
                    return None;
                }
                let may_close = matches!(mode, SkipModeX::KeyOrClose);
                match &t[k] {
                    Token::Str(_) => {
                        mode = SkipModeX::Colon;
                    },
                    Token::RBrace => {
                        if may_close && stack.len() > 0 && stack[stack.len() - 1] == true {
                            stack.pop();
                            mode = SkipModeX::After;
                        } else {
                            return None;
                        }
                    },
                    _ => {
                        return None;
                    },
                }
            },
            SkipModeX::Colon => {
                if k >= n {
                    return None;
                }
                match &t[k] {
                    Token::Colon => {
                        mode = SkipModeX::Value;
                    },
                    _ => {
                        return None;
                    },
                }
            },
        }
        k = k + 1;
    }
}

/// Whether a character vector holds exactly the characters of a string slice.
fn chars_eq_str(v: &Vec<char>, s: &str) -> (r: bool)
    ensures
        r == (v@ == s@),
{
    let n = s.unicode_len();
    if v.len() != n {
        proof {
            assert(v@ != s@);
        }
        return false;
    }
    let mut i: usize = 0;
    while i < n
        invariant
            i <= n,
            n == s@.len(),
            n == v@.len(),
            forall|m: int| 0 <= m < i ==> v@[m] == s@[m],
        decreases n - i,
    {
        if v[i] != s.get_char(i) {
            proof {
                assert(v@[i as int] != s@[i as int]);
            }
            return false;
        }
        i = i + 1;
    }
    proof {
        assert(v@ =~= s@);
    }
    true
}

/// A freshly owned copy of a character vector.
fn copy_chars(v: &Vec<char>) -> (r: Vec<char>)
    ensures
        r@ == v@,
{
    let mut r: Vec<char> = Vec::new();
    let mut i: usize = 0;
    let n = v.len();
    while i < n
        invariant
            i <= n,
            n == v@.len(),
            r@ == v@.take(i as int),
        decreases n - i,
    {
        r.push(v[i]);
        proof {
            assert(r@ =~= v@.take(i + 1));
        }
        i = i + 1;
    }
    proof {
        assert(v@.take(n as int) =~= v@);
    }
    r
}

/// The fields a document has supplied so far, executably.
pub struct PartialC {
    pub theme: Option<Vec<char>>,
    pub color: Option<Vec<char>>,
    pub zoom: Option<i32>,
    pub show_app_rail: Option<bool>,
    pub sidebar_open: Option<bool>,
    pub sidebar_width: Option<i32>,
}

impl View for PartialC {
    type V = PartialV;

    open spec fn view(&self) -> PartialV {
        PartialV {
            theme: match self.theme {
                Some(v) => Some(v@),
                None => None,
            },
            color: match self.color {
                Some(v) => Some(v@),
                None => None,
            },
            zoom: match self.zoom {
                Some(z) => Some(z as int),
                None => None,
            },
            show_app_rail: self.show_app_rail,
            sidebar_open: self.sidebar_open,
            sidebar_width: match self.sidebar_width {
                Some(z) => Some(z as int),
                None => None,
            },
        }
    }
}

/// One member's value for the key `k`, mirroring [`member_value`].
#[verifier::rlimit(60)]
fn member_value_x(t: &Vec<Token>, i: usize, k: &Vec<char>, acc: PartialC) -> (r: Option<
    (PartialC, usize),
>)
    requires
        i <= t@.len(),
    ensures
        match member_value(toks_view(t@), i as int, k@, acc@) {
            Some(pair) => r matches Some(x) && x.0@ == pair.0 && x.1 == pair.1,
            None => r is None,
        },
{
    let n = t.len();
    proof {
        reveal_strlit("theme");
        reveal_strlit("color");
        reveal_strlit("zoom");
        reveal_strlit("show_app_rail");
        reveal_strlit("sidebar_open");
        reveal_strlit("sidebar_width");
        assert("theme"@ =~= key_theme());
        assert("color"@ =~= key_color());
        assert("zoom"@ =~= key_zoom());
        assert("show_app_rail"@ =~= key_show_app_rail());
        assert("sidebar_open"@ =~= key_sidebar_open());
        assert("sidebar_width"@ =~= key_sidebar_width());
        if i < n {
            assert(toks_view(t@)[i as int] == t@[i as int]@);
        }
    }
    if chars_eq_str(k, "theme") {
        if i < n && acc.theme.is_none() {
            if let Token::Str(s) = &t[i] {
                let copied = copy_chars(s);
                return Some((PartialC { theme: Some(copied), ..acc }, i + 1));
            }
        }
        return None;
    }
    if chars_eq_str(k, "color") {
        if i < n && acc.color.is_none() {
            if let Token::Str(s) = &t[i] {
                let copied = copy_chars(s);
                return Some((PartialC { color: Some(copied), ..acc }, i + 1));
            }
        }
        return None;
    }
    if chars_eq_str(k, "zoom") {
        if i < n && acc.zoom.is_none() {
            if let Token::Int { neg, mag } = &t[i] {
                if *neg {
                    if *mag <= 2147483648u64 {
                        let z = (-(*mag as i64)) as i32;
                        return Some((PartialC { zoom: Some(z), ..acc }, i + 1));
                    }
                } else {
                    if *mag <= 2147483647u64 {
                        let z = *mag as i32;
                        return Some((PartialC { zoom: Some(z), ..acc }, i + 1));
                    }
                }
            }
        }
        return None;
    }
    if chars_eq_str(k, "show_app_rail") {
        if i < n && acc.show_app_rail.is_none() {
            match &t[i] {
                Token::True => {
                    return Some((PartialC { show_app_rail: Some(true), ..acc }, i + 1));
                },
                Token::False => {
                    return Some((PartialC { show_app_rail: Some(false), ..acc }, i + 1));
                },
                _ => {
                    return None;
                },
            }
        }
        return None;
    }
    if chars_eq_str(k, "sidebar_open") {
        if i < n && acc.sidebar_open.is_none() {
            match &t[i] {
                Token::True => {
                    return Some((PartialC { sidebar_open: Some(true), ..acc }, i + 1));
                },
                Token::False => {
                    return Some((PartialC { sidebar_open: Some(false), ..acc }, i + 1));
                },
                _ => {
                    return None;
                },
            }
        }
        return None;
    }
    if chars_eq_str(k, "sidebar_width") {
        if i < n && acc.sidebar_width.is_none() {
            if let Token::Int { neg, mag } = &t[i] {
                if *neg {
                    if *mag <= 2147483648u64 {
                        let z = (-(*mag as i64)) as i32;
                        return Some((PartialC { sidebar_width: Some(z), ..acc }, i + 1));
                    }
                } else {
                    if *mag <= 2147483647u64 {
                        let z = *mag as i32;
                        return Some((PartialC { sidebar_width: Some(z), ..acc }, i + 1));
                    }
                }
            }
        }
        return None;
    }
    match skip_value_x(t, i) {
        Some(j) => Some((acc, j)),
        None => None,
    }
}

/// The members of the top-level object, mirroring [`parse_members`].
fn parse_members_x(t: &Vec<Token>, i: usize, acc: PartialC, allow_close: bool) -> (r: Option<
    PartialC,
>)
    requires
        i <= t@.len(),
    ensures
        match parse_members(toks_view(t@), i as int, acc@, allow_close) {
            Some(p) => r matches Some(x) && x@ == p,
            None => r is None,
        },
    decreases t@.len() - i,
{
    let n = t.len();
    if i >= n {
        return None;
    }
    proof {
        assert(toks_view(t@)[i as int] == t@[i as int]@);
        if i + 1 < n {
            assert(toks_view(t@)[i + 1 as int] == t@[i + 1 as int]@);
        }
    }
    match &t[i] {
        Token::RBrace => {
            if allow_close && i + 1 == n {
                Some(acc)
            } else {
                None
            }
        },
        Token::Str(key) => {
            if i + 1 < n && matches!(&t[i + 1], Token::Colon) {
                let ghost acc_v = acc@;
                match member_value_x(t, i + 2, key, acc) {
                    Some((acc2, after)) => {
                        proof {
                            lemma_member_value_bounds(toks_view(t@), i + 2 as int, key@, acc_v);
                            if after < n {
                                assert(toks_view(t@)[after as int] == t@[after as int]@);
                            }
                        }
                        if after < n && matches!(&t[after], Token::RBrace) {
                            if after + 1 == n {
                                Some(acc2)
                            } else {
                                None
                            }
                        } else if after < n && matches!(&t[after], Token::Comma) {
                            parse_members_x(t, after + 1, acc2, false)
                        } else {
                            None
                        }
                    },
                    None => None,
                }
            } else {
                None
            }
        },
        _ => None,
    }
}

/// Builds the record, filling every missing field with its default.
fn fill_defaults_x(p: PartialC) -> (r: AppConfig)
    ensures
        r@ == fill_defaults(p@),
{
    AppConfig {
        theme: match p.theme {
            Some(v) => crate::text::string_from_chars(&v),
            None => String::new(),
        },
        color: match p.color {
            Some(v) => crate::text::string_from_chars(&v),
            None => String::new(),
        },
        zoom: match p.zoom {
            Some(z) => z,
            None => 0,
        },
        show_app_rail: match p.show_app_rail {
            Some(b) => b,
            None => false,
        },
        sidebar_open: match p.sidebar_open {
            Some(b) => b,
            None => false,
        },
        sidebar_width: match p.sidebar_width {
            Some(z) => z,
            None => 0,
        },
    }
}

/// Decodes a settings document. Yields the record exactly when the text is a
/// well-formed settings document — one JSON object whose known keys carry
/// values of the right type, each at most once — with every missing key at
/// its default; yields nothing otherwise.
pub fn decode_config(s: &str) -> (r: Option<AppConfig>)
    ensures
        match spec_decode(s@) {
            Some(cv) => r matches Some(c) && c@ == cv,
            None => r is None,
        },
{
    let chars = crate::text::chars_of_str(s);
    match crate::json::lex_chars(&chars) {
        None => None,
        Some(toks) => {
            let start = PartialC {
                theme: None,
                color: None,
                zoom: None,
                show_app_rail: None,
                sidebar_open: None,
                sidebar_width: None,
            };
            let n = toks.len();
            if n > 0 && matches!(&toks[0], Token::LBrace) {
                proof {
                    assert(toks_view(toks@)[0] == toks@[0]@);
                }
                match parse_members_x(&toks, 1, start, true) {
                    Some(p) => Some(fill_defaults_x(p)),
                    None => None,
                }
            } else {
                proof {
                    if toks@.len() > 0 {
                        assert(toks_view(toks@)[0] == toks@[0]@);
                    }
                }
                None
            }
        },
    }
}

// ---------------------------------------------------------------------------
// The executable encoder.
// ---------------------------------------------------------------------------
fn dchar_x(d: u32) -> (r: char)
    requires
        d < 10,
    ensures
        r == dchar(d as int),
{
    if d == 0 {
        '0'
    } else if d == 1 {
        '1'
    } else if d == 2 {
        '2'
    } else if d == 3 {
        '3'
    } else if d == 4 {
        '4'
    } else if d == 5 {
        '5'
    } else if d == 6 {
        '6'
    } else if d == 7 {
        '7'
    } else if d == 8 {
        '8'
    } else {
        '9'
    }
}

fn hchar_x(d: u32) -> (r: char)
    requires
        d < 16,
    ensures
        r == hchar(d as int),
{
    if d < 10 {
        dchar_x(d)
    } else if d == 10 {
        'a'
    } else if d == 11 {
        'b'
    } else if d == 12 {
        'c'
    } else if d == 13 {
        'd'
    } else if d == 14 {
        'e'
    } else {
        'f'
    }
}

/// Appends the decimal digits of `n`.
fn push_u_digits(v: &mut Vec<char>, n: u64)
    ensures
        final(v)@ == old(v)@ + u_digits(n as int),
    decreases n,
{
    if n < 10 {
        v.push(dchar_x(n as u32));
        proof {
            assert(old(v)@ + u_digits(n as int) =~= old(v)@.push(dchar(n as int)));
        }
    } else {
        push_u_digits(v, n / 10);
        v.push(dchar_x((n % 10) as u32));
        proof {
            assert(old(v)@ + u_digits(n as int) =~= (old(v)@ + u_digits(n as int / 10)).push(
                dchar(n as int % 10),
            ));
        }
    }
}

/// Appends the decimal text of `x`, minus sign included.
fn push_int_x(v: &mut Vec<char>, x: i32)
    ensures
        final(v)@ == old(v)@ + int_chars(x as int),
{
    if x < 0 {
        v.push('-');
        let mag = (-(x as i64)) as u64;
        push_u_digits(v, mag);
        proof {
            assert(old(v)@ + int_chars(x as int) =~= old(v)@.push('-') + u_digits(mag as int));
        }
    } else {
        push_u_digits(v, x as u64);
    }
}

fn push_bool_x(v: &mut Vec<char>, b: bool)
    ensures
        final(v)@ == old(v)@ + bool_chars(b),
{
    if b {
        v.push('t');
        v.push('r');
        v.push('u');
        v.push('e');
        proof {
            assert(old(v)@ + bool_chars(b) =~= old(v)@.push('t').push('r').push('u').push('e'));
        }
    } else {
        v.push('f');
        v.push('a');
        v.push('l');
        v.push('s');
        v.push('e');
        proof {
            assert(old(v)@ + bool_chars(b) =~= old(v)@.push('f').push('a').push('l').push(
                's',
            ).push('e'));
        }
    }
}

/// Escaping distributes over extending the string by one character.
proof fn lemma_esc_seq_push(s: Seq<char>, c: char)
    ensures
        esc_seq(s.push(c)) == esc_seq(s) + esc_of(c),
    decreases s.len(),
{
    if s.len() == 0 {
        assert(s.push(c).drop_first() =~= Seq::<char>::empty());
        assert(s.push(c)[0] == c);
        assert(esc_seq(s.push(c)) == esc_of(c) + esc_seq(Seq::<char>::empty()));
        assert(esc_of(c) + Seq::<char>::empty() =~= esc_of(c));
        assert(esc_seq(s) + esc_of(c) =~= esc_of(c));
    } else {
        lemma_esc_seq_push(s.drop_first(), c);
        assert(s.push(c).drop_first() =~= s.drop_first().push(c));
        assert(esc_seq(s.push(c)) == esc_of(s[0]) + esc_seq(s.drop_first().push(c)));
        assert(esc_of(s[0]) + (esc_seq(s.drop_first()) + esc_of(c)) =~= (esc_of(s[0]) + esc_seq(
            s.drop_first(),
        )) + esc_of(c));
    }
}

/// Appends a string value as it stands in the document: quoted and escaped.
#[verifier::rlimit(60)]
fn push_quoted(v: &mut Vec<char>, s: &Vec<char>)
    ensures
        final(v)@ == old(v)@ + quoted(s@),
{
    v.push('"');
    let n = s.len();
    let mut k: usize = 0;
    while k < n
        invariant
            k <= n,
            n == s@.len(),
            v@ == old(v)@.push('"') + esc_seq(s@.take(k as int)),
        decreases n - k,
    {
        let c = s[k];
        let ghost pre = v@;
        if c == '"' {
            v.push('\\');
            v.push('"');
            proof {
                assert(v@ =~= pre + esc_of(c));
            }
        } else if c == '\\' {
            v.push('\\');
            v.push('\\');
            proof {
                assert(v@ =~= pre + esc_of(c));
            }
        } else if c == '\u{8}' {
            v.push('\\');
            v.push('b');
            proof {
                assert(v@ =~= pre + esc_of(c));
            }
        } else if c == '\u{c}' {
            v.push('\\');
            v.push('f');
            proof {
                assert(v@ =~= pre + esc_of(c));
            }
        } else if c == '\n' {
            v.push('\\');
            v.push('n');
            proof {
                assert(v@ =~= pre + esc_of(c));
            }
        } else if c == '\r' {
            v.push('\\');
            v.push('r');
            proof {
                assert(v@ =~= pre + esc_of(c));
            }
        } else if c == '\t' {
            v.push('\\');
            v.push('t');
            proof {
                assert(v@ =~= pre + esc_of(c));
            }
        } else if (c as u32) < 0x20 {
            v.push('\\');
            v.push('u');
            v.push('0');
            v.push('0');
            v.push(hchar_x(c as u32 / 16));
            v.push(hchar_x(c as u32 % 16));
            proof {
                assert(v@ =~= pre + esc_of(c));
            }
        } else {
            v.push(c);
            proof {
                assert(v@ =~= pre + esc_of(c));
            }
        }
        proof {
            lemma_esc_seq_push(s@.take(k as int), c);
            assert(s@.take(k + 1) =~= s@.take(k as int).push(c));
            assert(pre + esc_of(c) =~= old(v)@.push('"') + esc_seq(s@.take(k + 1)));
        }
        k = k + 1;
    }
    v.push('"');
    proof {
        assert(s@.take(n as int) =~= s@);
        assert((old(v)@.push('"') + esc_seq(s@)).push('"') =~= old(v)@ + quoted(s@));
    }
}

/// Encodes a record as the settings document: pretty-printed JSON holding all
/// six keys, in a fixed order, each on its own indented line.
#[verifier::rlimit(100)]
pub fn encode_config(c: &AppConfig) -> (r: String)
    ensures
        r@ == spec_config_text(c@),
{
    let mut v: Vec<char> = Vec::new();
    let theme = crate::text::chars_of_str(self_str(&c.theme));
    let color = crate::text::chars_of_str(self_str(&c.color));
    crate::text::push_str_chars(&mut v, "{\n  \"theme\": ");
    push_quoted(&mut v, &theme);
    crate::text::push_str_chars(&mut v, ",\n  \"color\": ");
    push_quoted(&mut v, &color);
    crate::text::push_str_chars(&mut v, ",\n  \"zoom\": ");
    push_int_x(&mut v, c.zoom);
    crate::text::push_str_chars(&mut v, ",\n  \"show_app_rail\": ");
    push_bool_x(&mut v, c.show_app_rail);
    crate::text::push_str_chars(&mut v, ",\n  \"sidebar_open\": ");
    push_bool_x(&mut v, c.sidebar_open);
    crate::text::push_str_chars(&mut v, ",\n  \"sidebar_width\": ");
    push_int_x(&mut v, c.sidebar_width);
    crate::text::push_str_chars(&mut v, "\n}");
    proof {
        reveal(spec_config_text);
        reveal_strlit("{\n  \"theme\": ");
        reveal_strlit(",\n  \"color\": ");
        reveal_strlit(",\n  \"zoom\": ");
        reveal_strlit(",\n  \"show_app_rail\": ");
        reveal_strlit(",\n  \"sidebar_open\": ");
        reveal_strlit(",\n  \"sidebar_width\": ");
        reveal_strlit("\n}");
        assert("{\n  \"theme\": "@ =~= first_key(key_theme()));
        assert(",\n  \"color\": "@ =~= next_key(key_color()));
        assert(",\n  \"zoom\": "@ =~= next_key(key_zoom()));
        assert(",\n  \"show_app_rail\": "@ =~= next_key(key_show_app_rail()));
        assert(",\n  \"sidebar_open\": "@ =~= next_key(key_sidebar_open()));
        assert(",\n  \"sidebar_width\": "@ =~= next_key(key_sidebar_width()));
        assert("\n}"@ =~= seq!['\n', '}']);
        assert(v@ =~= spec_config_text(c@));
    }
    crate::text::string_from_chars(&v)
}

/// A `&str` view of a `String` (spelled out so the deref stays explicit).
fn self_str(s: &String) -> (r: &str)
    ensures
        r@ == s@,
{
    s.as_str()
}

} // verus!
