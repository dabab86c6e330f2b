//! JSON lexing: the token grammar of the settings file, as specification
//! functions over character sequences, and a verified executable lexer.
//!
//! The lexer turns a document into a sequence of tokens (structural
//! characters, strings with their escapes resolved, numbers, literals),
//! skipping whitespace between tokens. Anything the grammar refuses — an
//! unterminated or ill-escaped string, a malformed number, a stray character —
//! makes the whole document lex to nothing, which the decoder reports as a
//! decode error.

use vstd::prelude::*;

verus! {

/// A lexed token, at the specification level. String contents are already
/// unescaped; integer values are unbounded. A number with a fraction or an
/// exponent, or an integer too large for the machine, is `Float`: such a
/// value may be skipped but never fills one of the integer fields.
pub ghost enum TokV {
    LBrace,
    RBrace,
    LBracket,
    RBracket,
    Colon,
    Comma,
    Str(Seq<char>),
    Int(int),
    Float,
    True,
    False,
    Null,
}

/// JSON whitespace.
pub open spec fn is_ws(c: char) -> bool {
    c == ' ' || c == '\t' || c == '\n' || c == '\r'
}

pub open spec fn is_digit(c: char) -> bool {
    48 <= c as u32 <= 57
}

/// Numeric value of a decimal digit.
pub open spec fn dval(c: char) -> int {
    c as u32 - 48
}

pub open spec fn is_hex(c: char) -> bool {
    is_digit(c) || 97 <= c as u32 <= 102 || 65 <= c as u32 <= 70
}

/// Numeric value of a hexadecimal digit (either case).
pub open spec fn hval(c: char) -> int {
    if is_digit(c) {
        c as u32 - 48
    } else if 97 <= c as u32 <= 102 {
        c as u32 - 87
    } else {
        c as u32 - 55
    }
}

/// First index at or after `i` holding a non-whitespace character.
pub open spec fn skip_ws(s: Seq<char>, i: int) -> int
    decreases s.len() - i,
{
    if i < s.len() && is_ws(s[i]) {
        skip_ws(s, i + 1)
    } else {
        i
    }
}

pub proof fn lemma_skip_ws_bounds(s: Seq<char>, i: int)
    requires
        0 <= i <= s.len(),
    ensures
        i <= skip_ws(s, i) <= s.len(),
        skip_ws(s, i) < s.len() ==> !is_ws(s[skip_ws(s, i)]),
    decreases s.len() - i,
{
    if i < s.len() && is_ws(s[i]) {
        lemma_skip_ws_bounds(s, i + 1);
    }
}

/// Index just past the closing quote of a string whose content starts at `i`
/// (the opening quote stands at `i - 1`). A backslash skips the following
/// character. An unterminated string yields the sentinel `s.len() + 1`.
pub open spec fn string_end(s: Seq<char>, i: int) -> int
    decreases s.len() - i,
{
    if i >= s.len() {
        s.len() as int + 1
    } else if s[i] == '"' {
        i + 1
    } else if s[i] == '\\' {
        if i + 2 <= s.len() {
            string_end(s, i + 2)
        } else {
            s.len() as int + 1
        }
    } else {
        string_end(s, i + 1)
    }
}

pub proof fn lemma_string_end_bounds(s: Seq<char>, i: int)
    requires
        0 <= i <= s.len(),
    ensures
        i + 1 <= string_end(s, i) <= s.len() + 1,
    decreases s.len() - i,
{
    if i >= s.len() {
    } else if s[i] == '"' {
    } else if s[i] == '\\' {
        if i + 2 <= s.len() {
            lemma_string_end_bounds(s, i + 2);
        }
    } else {
        lemma_string_end_bounds(s, i + 1);
    }
}

/// Whether four hexadecimal digits stand at `i`.
pub open spec fn hex4_ok(s: Seq<char>, i: int) -> bool {
    &&& i + 4 <= s.len()
    &&& is_hex(s[i])
    &&& is_hex(s[i + 1])
    &&& is_hex(s[i + 2])
    &&& is_hex(s[i + 3])
}

/// Value of the four hexadecimal digits at `i`.
pub open spec fn hex4(s: Seq<char>, i: int) -> int {
    ((hval(s[i]) * 16 + hval(s[i + 1])) * 16 + hval(s[i + 2])) * 16 + hval(s[i + 3])
}

pub open spec fn is_high_surrogate(h: int) -> bool {
    0xD800 <= h < 0xDC00
}

pub open spec fn is_low_surrogate(h: int) -> bool {
    0xDC00 <= h < 0xE000
}

/// Length in characters of the escape sequence starting at the backslash at
/// `i`: 2 for a single-character escape, 6 for `\u` and four digits, 12 for a
/// surrogate pair. Defined for every input (an invalid escape counts as 2) so
/// that recursion over a string body always advances.
pub open spec fn esc_len(s: Seq<char>, i: int) -> int {
    if i + 1 < s.len() && s[i + 1] == 'u' {
        if hex4_ok(s, i + 2) && is_high_surrogate(hex4(s, i + 2)) {
            12
        } else {
            6
        }
    } else {
        2
    }
}

/// Whether a valid escape sequence lies at the backslash at `i`, wholly
/// inside the span ending at `j`.
pub open spec fn esc_ok(s: Seq<char>, i: int, j: int) -> bool {
    &&& i + 1 < j
    &&& j <= s.len()
    &&& if s[i + 1] == 'u' {
        &&& i + 6 <= j
        &&& hex4_ok(s, i + 2)
        &&& {
            let h = hex4(s, i + 2);
            if is_high_surrogate(h) {
                &&& i + 12 <= j
                &&& s[i + 6] == '\\'
                &&& s[i + 7] == 'u'
                &&& hex4_ok(s, i + 8)
                &&& is_low_surrogate(hex4(s, i + 8))
            } else {
                !is_low_surrogate(h)
            }
        }
    } else {
        s[i + 1] == '"' || s[i + 1] == '\\' || s[i + 1] == '/' || s[i + 1] == 'b' || s[i + 1]
            == 'f' || s[i + 1] == 'n' || s[i + 1] == 'r' || s[i + 1] == 't'
    }
}

/// The character a valid escape sequence at `i` denotes.
pub open spec fn esc_char(s: Seq<char>, i: int) -> char {
    if s[i + 1] == 'u' {
        let h = hex4(s, i + 2);
        if is_high_surrogate(h) {
            let l = hex4(s, i + 8);
            ((0x10000 + (h - 0xD800) * 0x400 + (l - 0xDC00)) as u32) as char
        } else {
            (h as u32) as char
        }
    } else if s[i + 1] == '"' {
        '"'
    } else if s[i + 1] == '\\' {
        '\\'
    } else if s[i + 1] == '/' {
        '/'
    } else if s[i + 1] == 'b' {
        '\u{8}'
    } else if s[i + 1] == 'f' {
        '\u{c}'
    } else if s[i + 1] == 'n' {
        '\n'
    } else if s[i + 1] == 'r' {
        '\r'
    } else {
        '\t'
    }
}

/// Unescaped content of the string body spanning `[i, j)`, where `j` is the
/// index of the closing quote. Nothing if an escape is invalid or a raw
/// control character appears.
pub open spec fn unescape_span(s: Seq<char>, i: int, j: int) -> Option<Seq<char>>
    decreases j - i,
{
    if i >= j {
        Some(Seq::empty())
    } else if s[i] == '\\' {
        if esc_ok(s, i, j) && i + esc_len(s, i) <= j {
            match unescape_span(s, i + esc_len(s, i), j) {
                Some(rest) => Some(seq![esc_char(s, i)] + rest),
                None => None,
            }
        } else {
            None
        }
    } else if (s[i] as u32) < 0x20 {
        None
    } else {
        match unescape_span(s, i + 1, j) {
            Some(rest) => Some(seq![s[i]] + rest),
            None => None,
        }
    }
}

/// First index at or after `i` holding a non-digit character.
pub open spec fn digits_end(s: Seq<char>, i: int) -> int
    decreases s.len() - i,
{
    if i < s.len() && is_digit(s[i]) {
        digits_end(s, i + 1)
    } else {
        i
    }
}

pub proof fn lemma_digits_end_bounds(s: Seq<char>, i: int)
    requires
        0 <= i <= s.len(),
    ensures
        i <= digits_end(s, i) <= s.len(),
        digits_end(s, i) < s.len() ==> !is_digit(s[digits_end(s, i)]),
        forall|k: int| i <= k < digits_end(s, i) ==> is_digit(s[k]),
    decreases s.len() - i,
{
    if i < s.len() && is_digit(s[i]) {
        lemma_digits_end_bounds(s, i + 1);
    }
}

/// Value of the digit run spanning `[i, j)`, most significant first.
pub open spec fn digits_val(s: Seq<char>, i: int, j: int) -> int
    decreases j - i,
{
    if j <= i {
        0
    } else {
        digits_val(s, i, j - 1) * 10 + dval(s[j - 1])
    }
}

/// A number token starting at `i` (a minus sign or a digit): the token and
/// the index just past it, or nothing if the number is malformed. The span
/// follows the JSON grammar in full — integer part without a superfluous
/// leading zero, optional fraction, optional exponent.
pub open spec fn number_at(s: Seq<char>, i: int) -> Option<(TokV, int)> {
    let neg = s[i] == '-';
    let d0 = if neg {
        i + 1
    } else {
        i
    };
    let e0 = digits_end(s, d0);
    if e0 == d0 || (e0 - d0 > 1 && s[d0] == '0') {
        None
    } else {
        let frac = e0 < s.len() && s[e0] == '.';
        let e1 = if frac {
            digits_end(s, e0 + 1)
        } else {
            e0
        };
        if frac && e1 == e0 + 1 {
            None
        } else {
            let has_exp = e1 < s.len() && (s[e1] == 'e' || s[e1] == 'E');
            let p2 = if has_exp && e1 + 1 < s.len() && (s[e1 + 1] == '+' || s[e1 + 1] == '-') {
                e1 + 2
            } else {
                e1 + 1
            };
            let e2 = if has_exp {
                digits_end(s, p2)
            } else {
                e1
            };
            if has_exp && e2 == p2 {
                None
            } else if frac || has_exp {
                Some((TokV::Float, e2))
            } else {
                let v = digits_val(s, d0, e0);
                if neg && v <= 0x8000_0000_0000_0000 {
                    Some((TokV::Int(-v), e0))
                } else if !neg && v <= 0xFFFF_FFFF_FFFF_FFFF {
                    Some((TokV::Int(v), e0))
                } else {
                    Some((TokV::Float, e0))
                }
            }
        }
    }
}

/// The token starting at the non-whitespace character at `i`, with the index
/// just past it.
pub open spec fn token_at(s: Seq<char>, i: int) -> Option<(TokV, int)> {
    let c = s[i];
    if c == '{' {
        Some((TokV::LBrace, i + 1))
    } else if c == '}' {
        Some((TokV::RBrace, i + 1))
    } else if c == '[' {
        Some((TokV::LBracket, i + 1))
    } else if c == ']' {
        Some((TokV::RBracket, i + 1))
    } else if c == ':' {
        Some((TokV::Colon, i + 1))
    } else if c == ',' {
        Some((TokV::Comma, i + 1))
    } else if c == '"' {
        let e = string_end(s, i + 1);
        if e <= s.len() {
            match unescape_span(s, i + 1, e - 1) {
                Some(content) => Some((TokV::Str(content), e)),
                None => None,
            }
        } else {
            None
        }
    } else if c == 't' {
        if i + 4 <= s.len() && s[i + 1] == 'r' && s[i + 2] == 'u' && s[i + 3] == 'e' {
            Some((TokV::True, i + 4))
        } else {
            None
        }
    } else if c == 'f' {
        if i + 5 <= s.len() && s[i + 1] == 'a' && s[i + 2] == 'l' && s[i + 3] == 's' && s[i + 4]
            == 'e' {
            Some((TokV::False, i + 5))
        } else {
            None
        }
    } else if c == 'n' {
        if i + 4 <= s.len() && s[i + 1] == 'u' && s[i + 2] == 'l' && s[i + 3] == 'l' {
            Some((TokV::Null, i + 4))
        } else {
            None
        }
    } else if c == '-' || is_digit(c) {
        number_at(s, i)
    } else {
        None
    }
}

pub proof fn lemma_token_at_bounds(s: Seq<char>, i: int)
    requires
        0 <= i < s.len(),
        token_at(s, i) is Some,
    ensures
        i < token_at(s, i)->Some_0.1 <= s.len(),
{
    let c = s[i];
    if c == '"' {
        lemma_string_end_bounds(s, i + 1);
    } else if c == '-' || is_digit(c) {
        let d0 = if c == '-' {
            i + 1
        } else {
            i
        };
        lemma_digits_end_bounds(s, d0);
        let e0 = digits_end(s, d0);
        if e0 < s.len() && s[e0] == '.' {
            lemma_digits_end_bounds(s, e0 + 1);
        }
        let e1 = if e0 < s.len() && s[e0] == '.' {
            digits_end(s, e0 + 1)
        } else {
            e0
        };
        if e1 < s.len() && (s[e1] == 'e' || s[e1] == 'E') {
            let p2 = if e1 + 1 < s.len() && (s[e1 + 1] == '+' || s[e1 + 1] == '-') {
                e1 + 2
            } else {
                e1 + 1
            };
            if p2 <= s.len() {
                lemma_digits_end_bounds(s, p2);
            }
        }
    }
}

/// The token sequence of the document suffix starting at `i`, or nothing on a
/// lexical error.
pub open spec fn spec_lex(s: Seq<char>, i: int) -> Option<Seq<TokV>>
    decreases s.len() - i,
    via spec_lex_dec
{
    let j = skip_ws(s, i);
    if i < 0 {
        None
    } else if j >= s.len() {
        Some(Seq::empty())
    } else {
        match token_at(s, j) {
            Some((t, k)) => match spec_lex(s, k) {
                Some(rest) => Some(seq![t] + rest),
                None => None,
            },
            None => None,
        }
    }
}

#[via_fn]
proof fn spec_lex_dec(s: Seq<char>, i: int) {
    if 0 <= i <= s.len() {
        lemma_skip_ws_bounds(s, i);
        let j = skip_ws(s, i);
        if j < s.len() && token_at(s, j) is Some {
            lemma_token_at_bounds(s, j);
        }
    }
}

/// State of the machine that walks one complete value of arbitrary shape:
/// what the next token must be. `After` means a complete value has just
/// ended; with an empty container stack the walk is done.
pub ghost enum SkipMode {
    Value,
    ValueOrClose,
    Key,
    KeyOrClose,
    Colon,
    After,
}

/// Walks one complete JSON value over the token sequence, validating its
/// shape, and yields the index just past it. The stack records the open
/// containers (`true` for an object, `false` for an array). Every step
/// consumes one token. Started at `(i, empty, Value)` it accepts exactly one
/// well-formed value.
pub open spec fn run_skip(t: Seq<TokV>, i: int, stack: Seq<bool>, mode: SkipMode) -> Option<int>
    decreases t.len() - i,
{
    if mode is After && stack.len() == 0 {
        Some(i)
    } else if i < 0 || i >= t.len() {
        None
    } else {
        match mode {
            SkipMode::Value | SkipMode::ValueOrClose => match t[i] {
                TokV::Str(_) => run_skip(t, i + 1, stack, SkipMode::After),
                TokV::Int(_) => run_skip(t, i + 1, stack, SkipMode::After),
                TokV::Float => run_skip(t, i + 1, stack, SkipMode::After),
                TokV::True => run_skip(t, i + 1, stack, SkipMode::After),
                TokV::False => run_skip(t, i + 1, stack, SkipMode::After),
                TokV::Null => run_skip(t, i + 1, stack, SkipMode::After),
                TokV::LBrace => run_skip(t, i + 1, stack.push(true), SkipMode::KeyOrClose),
                TokV::LBracket => run_skip(t, i + 1, stack.push(false), SkipMode::ValueOrClose),
                TokV::RBracket => if mode is ValueOrClose && stack.len() > 0 && stack.last()
                    == false {
                    run_skip(t, i + 1, stack.drop_last(), SkipMode::After)
                } else {
                    None
                },
                _ => None,
            },
            SkipMode::Key | SkipMode::KeyOrClose => match t[i] {
                TokV::Str(_) => run_skip(t, i + 1, stack, SkipMode::Colon),
                TokV::RBrace => if mode is KeyOrClose && stack.len() > 0 && stack.last() == true {
                    run_skip(t, i + 1, stack.drop_last(), SkipMode::After)
                } else {
                    None
                },
                _ => None,
            },
            SkipMode::Colon => match t[i] {
                TokV::Colon => run_skip(t, i + 1, stack, SkipMode::Value),
                _ => None,
            },
            SkipMode::After => if stack.last() == true {
                match t[i] {
                    TokV::Comma => run_skip(t, i + 1, stack, SkipMode::Key),
                    TokV::RBrace => run_skip(t, i + 1, stack.drop_last(), SkipMode::After),
                    _ => None,
                }
            } else {
                match t[i] {
                    TokV::Comma => run_skip(t, i + 1, stack, SkipMode::Value),
                    TokV::RBracket => run_skip(t, i + 1, stack.drop_last(), SkipMode::After),
                    _ => None,
                }
            },
        }
    }
}

pub proof fn lemma_run_skip_bounds(t: Seq<TokV>, i: int, stack: Seq<bool>, mode: SkipMode)
    requires
        0 <= i <= t.len(),
        run_skip(t, i, stack, mode) is Some,
    ensures
        i <= run_skip(t, i, stack, mode)->Some_0 <= t.len(),
        !(mode is After && stack.len() == 0) ==> i < run_skip(t, i, stack, mode)->Some_0,
    decreases t.len() - i,
{
    if mode is After && stack.len() == 0 {
    } else {
        match mode {
            SkipMode::Value | SkipMode::ValueOrClose => match t[i] {
                TokV::Str(_) => lemma_run_skip_bounds(t, i + 1, stack, SkipMode::After),
                TokV::Int(_) => lemma_run_skip_bounds(t, i + 1, stack, SkipMode::After),
                TokV::Float => lemma_run_skip_bounds(t, i + 1, stack, SkipMode::After),
                TokV::True => lemma_run_skip_bounds(t, i + 1, stack, SkipMode::After),
                TokV::False => lemma_run_skip_bounds(t, i + 1, stack, SkipMode::After),
                TokV::Null => lemma_run_skip_bounds(t, i + 1, stack, SkipMode::After),
                TokV::LBrace => lemma_run_skip_bounds(
                    t,
                    i + 1,
                    stack.push(true),
                    SkipMode::KeyOrClose,
                ),
                TokV::LBracket => lemma_run_skip_bounds(
                    t,
                    i + 1,
                    stack.push(false),
                    SkipMode::ValueOrClose,
                ),
                TokV::RBracket => lemma_run_skip_bounds(
                    t,
                    i + 1,
                    stack.drop_last(),
                    SkipMode::After,
                ),
                _ => {
                },
            },
            SkipMode::Key | SkipMode::KeyOrClose => match t[i] {
                TokV::Str(_) => lemma_run_skip_bounds(t, i + 1, stack, SkipMode::Colon),
                TokV::RBrace => lemma_run_skip_bounds(t, i + 1, stack.drop_last(), SkipMode::After),
                _ => {
                },
            },
            SkipMode::Colon => match t[i] {
                TokV::Colon => lemma_run_skip_bounds(t, i + 1, stack, SkipMode::Value),
                _ => {
                },
            },
            SkipMode::After => if stack.last() == true {
                match t[i] {
                    TokV::Comma => lemma_run_skip_bounds(t, i + 1, stack, SkipMode::Key),
                    TokV::RBrace => lemma_run_skip_bounds(
                        t,
                        i + 1,
                        stack.drop_last(),
                        SkipMode::After,
                    ),
                    _ => {
                    },
                }
            } else {
                match t[i] {
                    TokV::Comma => lemma_run_skip_bounds(t, i + 1, stack, SkipMode::Value),
                    TokV::RBracket => lemma_run_skip_bounds(
                        t,
                        i + 1,
                        stack.drop_last(),
                        SkipMode::After,
                    ),
                    _ => {
                    },
                }
            },
        }
    }
}

/// A lexed token. String contents are held unescaped; an integer is held as
/// a sign and a magnitude (the magnitude of a negative number never exceeds
/// `1 << 63`, so the value always has a mathematical reading).
pub enum Token {
    LBrace,
    RBrace,
    LBracket,
    RBracket,
    Colon,
    Comma,
    Str(Vec<char>),
    Int { neg: bool, mag: u64 },
    Float,
    True,
    False,
    Null,
}

impl View for Token {
    type V = TokV;

    open spec fn view(&self) -> TokV {
        match self {
            Token::LBrace => TokV::LBrace,
            Token::RBrace => TokV::RBrace,
            Token::LBracket => TokV::LBracket,
            Token::RBracket => TokV::RBracket,
            Token::Colon => TokV::Colon,
            Token::Comma => TokV::Comma,
            Token::Str(s) => TokV::Str(s@),
            Token::Int { neg, mag } => TokV::Int(
                if *neg {
                    -(*mag as int)
                } else {
                    *mag as int
                },
            ),
            Token::Float => TokV::Float,
            Token::True => TokV::True,
            Token::False => TokV::False,
            Token::Null => TokV::Null,
        }
    }
}

/// The token views of a token vector.
pub open spec fn toks_view(ts: Seq<Token>) -> Seq<TokV> {
    ts.map_values(|t: Token| t@)
}

fn is_ws_x(c: char) -> (r: bool)
    ensures
        r == is_ws(c),
{
    c == ' ' || c == '\t' || c == '\n' || c == '\r'
}

fn is_digit_x(c: char) -> (r: bool)
    ensures
        r == is_digit(c),
{
    let u = c as u32;
    48 <= u && u <= 57
}

fn is_hex_x(c: char) -> (r: bool)
    ensures
        r == is_hex(c),
{
    let u = c as u32;
    (48 <= u && u <= 57) || (97 <= u && u <= 102) || (65 <= u && u <= 70)
}

fn hval_x(c: char) -> (r: u32)
    requires
        is_hex(c),
    ensures
        r == hval(c),
{
    let u = c as u32;
    if 48 <= u && u <= 57 {
        u - 48
    } else if 97 <= u && u <= 102 {
        u - 87
    } else {
        u - 55
    }
}

fn skip_ws_x(v: &Vec<char>, i: usize) -> (r: usize)
    requires
        i <= v@.len(),
    ensures
        r == skip_ws(v@, i as int),
        i <= r <= v@.len(),
{
    let mut j = i;
    while j < v.len() && is_ws_x(v[j])
        invariant
            i <= j <= v@.len(),
            skip_ws(v@, i as int) == skip_ws(v@, j as int),
        decreases v@.len() - j,
    {
        j = j + 1;
    }
    j
}

fn digits_end_x(v: &Vec<char>, i: usize) -> (r: usize)
    requires
        i <= v@.len(),
    ensures
        r == digits_end(v@, i as int),
        i <= r <= v@.len(),
{
    let mut j = i;
    while j < v.len() && is_digit_x(v[j])
        invariant
            i <= j <= v@.len(),
            digits_end(v@, i as int) == digits_end(v@, j as int),
        decreases v@.len() - j,
    {
        j = j + 1;
    }
    j
}

fn string_end_x(v: &Vec<char>, i: usize) -> (r: Option<usize>)
    requires
        i <= v@.len(),
    ensures
        r matches Some(e) ==> e == string_end(v@, i as int) && i < e <= v@.len(),
        r is None ==> string_end(v@, i as int) == v@.len() + 1,
{
    let mut j = i;
    while j < v.len()
        invariant
            i <= j <= v@.len(),
            string_end(v@, i as int) == string_end(v@, j as int),
        decreases v@.len() - j,
    {
        let c = v[j];
        if c == '"' {
            proof {
                lemma_string_end_bounds(v@, i as int);
            }
            return Some(j + 1);
        } else if c == '\\' {
            if v.len() - j >= 2 {
                j = j + 2;
            } else {
                return None;
            }
        } else {
            j = j + 1;
        }
    }
    None
}

/// Unescapes the string body spanning `[i, j)` (`j` is the closing quote's
/// index), appending the content. Fails exactly where the specification
/// refuses an escape or a raw control character.
#[verifier::rlimit(100)]
fn unescape_x(v: &Vec<char>, i: usize, j: usize, out: &mut Vec<char>) -> (ok: bool)
    requires
        i <= j <= v@.len(),
    ensures
        match unescape_span(v@, i as int, j as int) {
            Some(content) => ok && final(out)@ == old(out)@ + content,
            None => !ok,
        },
    decreases j - i,
{
    if i >= j {
        proof {
            assert(old(out)@ + Seq::<char>::empty() =~= old(out)@);
        }
        return true;
    }
    let c = v[i];
    if c == '\\' {
        if i + 1 >= j {
            return false;
        }
        let c1 = v[i + 1];
        if c1 == 'u' {
            if j - i < 6 {
                return false;
            }
            if !(is_hex_x(v[i + 2]) && is_hex_x(v[i + 3]) && is_hex_x(v[i + 4]) && is_hex_x(
                v[i + 5],
            )) {
                return false;
            }
            let h = ((hval_x(v[i + 2]) * 16 + hval_x(v[i + 3])) * 16 + hval_x(v[i + 4])) * 16
                + hval_x(v[i + 5]);
            assert(h == hex4(v@, i + 2 as int));
            if 0xD800 <= h && h < 0xDC00 {
                if j - i < 12 || !(v[i + 6] == '\\' && v[i + 7] == 'u') {
                    return false;
                }
                if !(is_hex_x(v[i + 8]) && is_hex_x(v[i + 9]) && is_hex_x(v[i + 10]) && is_hex_x(
                    v[i + 11],
                )) {
                    return false;
                }
                let l = ((hval_x(v[i + 8]) * 16 + hval_x(v[i + 9])) * 16 + hval_x(v[i + 10])) * 16
                    + hval_x(v[i + 11]);
                assert(l == hex4(v@, i + 8 as int));
                if !(0xDC00 <= l && l < 0xE000) {
                    return false;
                }
                let code = 0x10000 + (h - 0xD800) * 0x400 + (l - 0xDC00);
                let c2 = match crate::text::char_from_u32(code) {
                    Some(c2) => c2,
                    None => {
                        proof {
                            assert(false);
                        }
                        return false;
                    },
                };
                proof {
                    vstd::utf8::char_u32_cast(c2, code);
                    assert(c2 == esc_char(v@, i as int));
                    assert(esc_ok(v@, i as int, j as int));
                    assert(esc_len(v@, i as int) == 12);
                }
                out.push(c2);
                let ok = unescape_x(v, i + 12, j, out);
                proof {
                    if unescape_span(v@, i + 12, j as int) is Some { let rest = unescape_span(v@, i + 12, j as int)->Some_0;
                        assert(old(out)@ + (seq![c2] + rest) =~= old(out)@.push(c2) + rest);
                    }
                }
                return ok;
            } else if 0xDC00 <= h && h < 0xE000 {
                assert(unescape_span(v@, i as int, j as int) is None);
                return false;
            } else {
                let c2 = match crate::text::char_from_u32(h) {
                    Some(c2) => c2,
                    None => {
                        proof {
                            assert(false);
                        }
                        return false;
                    },
                };
                proof {
                    vstd::utf8::char_u32_cast(c2, h);
                    assert(c2 == esc_char(v@, i as int));
                    assert(esc_ok(v@, i as int, j as int));
                    assert(esc_len(v@, i as int) == 6);
                }
                out.push(c2);
                let ok = unescape_x(v, i + 6, j, out);
                proof {
                    if unescape_span(v@, i + 6, j as int) is Some { let rest = unescape_span(v@, i + 6, j as int)->Some_0;
                        assert(old(out)@ + (seq![c2] + rest) =~= old(out)@.push(c2) + rest);
                    }
                }
                return ok;
            }
        } else {
            let mapped: Option<char> = if c1 == '"' {
                Some('"')
            } else if c1 == '\\' {
                Some('\\')
            } else if c1 == '/' {
                Some('/')
            } else if c1 == 'b' {
                Some('\u{8}')
            } else if c1 == 'f' {
                Some('\u{c}')
            } else if c1 == 'n' {
                Some('\n')
            } else if c1 == 'r' {
                Some('\r')
            } else if c1 == 't' {
                Some('\t')
            } else {
                None
            };
            match mapped {
                Some(c2) => {
                    proof {
                        assert(esc_ok(v@, i as int, j as int));
                        assert(esc_len(v@, i as int) == 2);
                        assert(c2 == esc_char(v@, i as int));
                    }
                    out.push(c2);
                    let ok = unescape_x(v, i + 2, j, out);
                    proof {
                        if unescape_span(v@, i + 2, j as int) is Some { let rest = unescape_span(v@, i + 2, j as int)->Some_0;
                            assert(old(out)@ + (seq![c2] + rest) =~= old(out)@.push(c2) + rest);
                        }
                    }
                    return ok;
                },
                None => {
                    assert(!esc_ok(v@, i as int, j as int));
                    return false;
                },
            }
        }
    } else if (c as u32) < 0x20 {
        return false;
    } else {
        out.push(c);
        let ok = unescape_x(v, i + 1, j, out);
        proof {
            if unescape_span(v@, i + 1, j as int) is Some { let rest = unescape_span(v@, i + 1, j as int)->Some_0;
                assert(old(out)@ + (seq![c] + rest) =~= old(out)@.push(c) + rest);
            }
        }
        return ok;
    }
}

/// Scans the number starting at `i` (a minus sign or a digit).
#[verifier::rlimit(60)]
fn scan_number(v: &Vec<char>, i: usize) -> (r: Option<(Token, usize)>)
    requires
        i < v@.len(),
    ensures
        match number_at(v@, i as int) {
            Some(pair) => r matches Some(x) && x.0@ == pair.0 && x.1 == pair.1,
            None => r is None,
        },
{
    let n = v.len();
    let neg = v[i] == '-';
    let d0 = if neg {
        i + 1
    } else {
        i
    };
    let e0 = digits_end_x(v, d0);
    proof {
        lemma_digits_end_bounds(v@, d0 as int);
    }
    if e0 == d0 || (e0 - d0 > 1 && v[d0] == '0') {
        return None;
    }
    let frac = e0 < v.len() && v[e0] == '.';
    let e1 = if frac {
        digits_end_x(v, e0 + 1)
    } else {
        e0
    };
    if frac && e1 == e0 + 1 {
        return None;
    }
    let has_exp = e1 < v.len() && (v[e1] == 'e' || v[e1] == 'E');
    if has_exp {
        let p2 = if e1 + 1 < v.len() && (v[e1 + 1] == '+' || v[e1 + 1] == '-') {
            e1 + 2
        } else {
            e1 + 1
        };
        let e2 = digits_end_x(v, p2);
        if e2 == p2 {
            return None;
        }
        return Some((Token::Float, e2));
    }
    if frac {
        return Some((Token::Float, e1));
    }
    let mut acc: u64 = 0;
    let mut big = false;
    let mut k = d0;
    while k < e0
        invariant
            d0 <= k <= e0 <= v@.len(),
            e0 == digits_end(v@, d0 as int),
            forall|m: int| d0 <= m < e0 ==> is_digit(v@[m]),
            big ==> digits_val(v@, d0 as int, k as int) > u64::MAX,
            !big ==> acc == digits_val(v@, d0 as int, k as int),
        decreases e0 - k,
    {
        let u = v[k] as u32;
        let d: u64 = (u - 48) as u64;
        proof {
            assert(digits_val(v@, d0 as int, k + 1 as int) == digits_val(v@, d0 as int, k as int)
                * 10 + dval(v@[k as int]));
        }
        if !big {
            if acc > (0xFFFF_FFFF_FFFF_FFFFu64 - d) / 10 {
                proof {
                    assert(acc * 10 + d > u64::MAX) by (nonlinear_arith)
                        requires
                            acc > (0xFFFF_FFFF_FFFF_FFFFu64 - d) / 10,
                            d <= 9,
                    ;
                }
                big = true;
            } else {
                acc = acc * 10 + d;
            }
        } else {
            proof {
                assert(digits_val(v@, d0 as int, k as int) * 10 + dval(v@[k as int]) > u64::MAX)
                    by (nonlinear_arith)
                    requires
                        digits_val(v@, d0 as int, k as int) > u64::MAX,
                        dval(v@[k as int]) >= 0,
                ;
            }
        }
        k = k + 1;
    }
    if big {
        return Some((Token::Float, e0));
    }
    if neg {
        if acc <= 0x8000_0000_0000_0000u64 {
            return Some((Token::Int { neg: true, mag: acc }, e0));
        }
        return Some((Token::Float, e0));
    }
    Some((Token::Int { neg: false, mag: acc }, e0))
}

/// Scans the token starting at the non-whitespace character at `i`.
#[verifier::rlimit(60)]
fn next_token(v: &Vec<char>, i: usize) -> (r: Option<(Token, usize)>)
    requires
        i < v@.len(),
    ensures
        match token_at(v@, i as int) {
            Some(pair) => r matches Some(x) && x.0@ == pair.0 && x.1 == pair.1 && i < pair.1
                <= v@.len(),
            None => r is None,
        },
{
    let n = v.len();
    proof {
        if token_at(v@, i as int) is Some {
            lemma_token_at_bounds(v@, i as int);
        }
    }
    let c = v[i];
    if c == '{' {
        Some((Token::LBrace, i + 1))
    } else if c == '}' {
        Some((Token::RBrace, i + 1))
    } else if c == '[' {
        Some((Token::LBracket, i + 1))
    } else if c == ']' {
        Some((Token::RBracket, i + 1))
    } else if c == ':' {
        Some((Token::Colon, i + 1))
    } else if c == ',' {
        Some((Token::Comma, i + 1))
    } else if c == '"' {
        match string_end_x(v, i + 1) {
            None => None,
            Some(e) => {
                proof {
                    lemma_string_end_bounds(v@, i + 1 as int);
                }
                let mut content: Vec<char> = Vec::new();
                let ok = unescape_x(v, i + 1, e - 1, &mut content);
                if ok {
                    proof {
                        assert(Seq::<char>::empty() + unescape_span(v@, i + 1 as int, e - 1 as int)->Some_0
                            =~= unescape_span(v@, i + 1 as int, e - 1 as int)->Some_0);
                    }
                    Some((Token::Str(content), e))
                } else {
                    None
                }
            },
        }
    } else if c == 't' {
        if v.len() - i >= 4 && v[i + 1] == 'r' && v[i + 2] == 'u' && v[i + 3] == 'e' {
            Some((Token::True, i + 4))
        } else {
            None
        }
    } else if c == 'f' {
        if v.len() - i >= 5 && v[i + 1] == 'a' && v[i + 2] == 'l' && v[i + 3] == 's' && v[i + 4]
            == 'e' {
            Some((Token::False, i + 5))
        } else {
            None
        }
    } else if c == 'n' {
        if v.len() - i >= 4 && v[i + 1] == 'u' && v[i + 2] == 'l' && v[i + 3] == 'l' {
            Some((Token::Null, i + 4))
        } else {
            None
        }
    } else if c == '-' || (48 <= c as u32 && c as u32 <= 57) {
        scan_number(v, i)
    } else {
        None
    }
}

/// Lexes the suffix starting at `i`, appending the tokens.
fn lex_from(v: &Vec<char>, i: usize, out: &mut Vec<Token>) -> (ok: bool)
    requires
        i <= v@.len(),
    ensures
        match spec_lex(v@, i as int) {
            Some(ts) => ok && toks_view(final(out)@) == toks_view(old(out)@) + ts,
            None => !ok,
        },
    decreases v@.len() - i,
{
    let j = skip_ws_x(v, i);
    if j >= v.len() {
        proof {
            assert(toks_view(out@) =~= toks_view(out@) + Seq::<TokV>::empty());
        }
        return true;
    }
    match next_token(v, j) {
        None => false,
        Some((t, k)) => {
            let ghost tv = token_at(v@, j as int)->Some_0.0;
            let ghost mid = old(out)@.push(t);
            out.push(t);
            let ok = lex_from(v, k, out);
            proof {
                assert(toks_view(mid) =~= toks_view(old(out)@) + seq![tv]);
                if spec_lex(v@, k as int) is Some {
                    let rest = spec_lex(v@, k as int)->Some_0;
                    assert((toks_view(old(out)@) + seq![tv]) + rest =~= toks_view(old(out)@) + (
                    seq![tv] + rest));
                }
            }
            ok
        },
    }
}

/// Lexes a whole document into its token sequence, or nothing on a lexical
/// error.
pub fn lex_chars(v: &Vec<char>) -> (r: Option<Vec<Token>>)
    ensures
        match spec_lex(v@, 0) {
            Some(ts) => r matches Some(out) && toks_view(out@) == ts,
            None => r is None,
        },
{
    let mut out: Vec<Token> = Vec::new();
    let ok = lex_from(v, 0, &mut out);
    if ok {
        proof {
            if spec_lex(v@, 0) is Some {
                assert(toks_view(Seq::<Token>::empty()) + spec_lex(v@, 0)->Some_0 =~= spec_lex(
                    v@,
                    0,
                )->Some_0);
            }
        }
        Some(out)
    } else {
        None
    }
}

} // verus!
