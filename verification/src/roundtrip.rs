//! The round-trip law: decoding the document that `encode` writes yields the
//! record that was written, for every record. Proved by walking the printed
//! text through the lexer — each printed segment lexes to the expected token
//! — and the expected token sequence through the document parser.

use vstd::prelude::*;

use crate::codec::{
    bool_chars, dchar, empty_partial, esc_of, esc_seq, fill_defaults, first_key, hchar, int_chars,
    key_color, key_show_app_rail, key_sidebar_open, key_sidebar_width, key_theme, key_zoom,
    member_value, next_key, parse_doc, parse_members, quoted, spec_config_text, spec_decode,
    u_digits, fits_i32, PartialV,
};
use crate::config::ConfigV;
use crate::json::{
    digits_end, digits_val, dval, esc_char, esc_len, esc_ok, hex4, hex4_ok, hval, is_digit,
    is_hex, is_ws, skip_ws, spec_lex, string_end, token_at, unescape_span, TokV,
};

verus! {

/// A character that stands for itself inside a JSON string.
pub open spec fn plain_char(c: char) -> bool {
    c != '"' && c != '\\' && c as u32 >= 0x20
}

/// A whitespace run ends exactly at its first non-whitespace follower.
proof fn lemma_skip_ws_run(s: Seq<char>, a: int, w: int)
    requires
        0 <= a,
        0 <= w,
        a + w <= s.len(),
        forall|m: int| a <= m < a + w ==> is_ws(s[m]),
        a + w == s.len() || !is_ws(s[a + w]),
    ensures
        skip_ws(s, a) == a + w,
    decreases w,
{
    if w > 0 {
        lemma_skip_ws_run(s, a + 1, w - 1);
    }
}

/// A digit run ends exactly at its first non-digit follower.
proof fn lemma_digits_end_run(s: Seq<char>, a: int, w: int)
    requires
        0 <= a,
        0 <= w,
        a + w <= s.len(),
        forall|m: int| a <= m < a + w ==> is_digit(s[m]),
        a + w == s.len() || !is_digit(s[a + w]),
    ensures
        digits_end(s, a) == a + w,
    decreases w,
{
    if w > 0 {
        lemma_digits_end_run(s, a + 1, w - 1);
    }
}

/// The decimal digit characters parse back to their values, and are plain.
proof fn lemma_dchar(n: int)
    requires
        0 <= n < 10,
    ensures
        is_digit(dchar(n)),
        dval(dchar(n)) == n,
        plain_char(dchar(n)),
        !is_ws(dchar(n)),
{
}

/// The hexadecimal digit characters are hexadecimal, parse back to their
/// values, and are plain.
proof fn lemma_hchar(n: int)
    requires
        0 <= n < 16,
    ensures
        is_hex(hchar(n)),
        hval(hchar(n)) == n,
        plain_char(hchar(n)),
        hchar(n) != '"',
    {
}

/// Every digit of a printed non-negative number is a decimal digit; the
/// first digit is zero only for zero itself; there is at least one digit.
proof fn lemma_u_digits_shape(n: int)
    requires
        n >= 0,
    ensures
        u_digits(n).len() >= 1,
        forall|m: int| 0 <= m < u_digits(n).len() ==> is_digit(#[trigger] u_digits(n)[m]),
        (u_digits(n)[0] == '0') <==> n == 0,
    decreases n,
{
    if n < 10 {
        lemma_dchar(n);
    } else {
        lemma_u_digits_shape(n / 10);
        lemma_dchar(n % 10);
        assert(u_digits(n)[0] == u_digits(n / 10)[0]);
    }
}

/// Pointwise reading of a subrange equality.
proof fn lemma_subrange_index(s: Seq<char>, a: int, t: Seq<char>)
    requires
        0 <= a,
        a + t.len() <= s.len(),
        s.subrange(a, a + t.len()) == t,
    ensures
        forall|m: int| 0 <= m < t.len() ==> s[a + m] == #[trigger] t[m],
{
    assert forall|m: int| 0 <= m < t.len() implies s[a + m] == #[trigger] t[m] by {
        assert(s.subrange(a, a + t.len())[m] == t[m]);
    }
}

/// A string whose characters all stand for themselves lexes to exactly that
/// string: the scan stops at the closing quote and unescaping returns the
/// characters unchanged.
proof fn lemma_plain_string(s: Seq<char>, a: int, k: Seq<char>)
    requires
        0 <= a,
        a + k.len() + 1 <= s.len(),
        s.subrange(a, a + k.len()) == k,
        forall|m: int| 0 <= m < k.len() ==> plain_char(#[trigger] k[m]),
        s[a + k.len()] == '"',
    ensures
        string_end(s, a) == a + k.len() + 1,
        unescape_span(s, a, a + k.len()) == Some(k),
    decreases k.len(),
{
    if k.len() == 0 {
        assert(k =~= Seq::<char>::empty());
    } else {
        assert(s[a] == k[0]);
        assert(s.subrange(a + 1, a + 1 + (k.len() - 1)) =~= k.drop_first());
        lemma_plain_string(s, a + 1, k.drop_first());
        assert(unescape_span(s, a, a + k.len()) == Some(seq![s[a]] + k.drop_first()));
        assert(seq![k[0]] + k.drop_first() =~= k);
    }
}

/// The escaped form of one character, followed by anything, unescapes to
/// that character followed by whatever the remainder unescapes to; and the
/// closing-quote scan passes over the whole escape.
proof fn lemma_esc_of_step(s: Seq<char>, a: int, c: char, j: int)
    requires
        0 <= a,
        a + esc_of(c).len() <= j <= s.len(),
        j < s.len(),
        s.subrange(a, a + esc_of(c).len()) == esc_of(c),
    ensures
        esc_of(c).len() >= 1,
        s[a] == esc_of(c)[0],
        plain_char(c) ==> s[a] == c,
        !plain_char(c) ==> {
            &&& s[a] == '\\'
            &&& esc_ok(s, a, j)
            &&& esc_len(s, a) == esc_of(c).len()
            &&& esc_char(s, a) == c
        },
{
    let e = esc_of(c);
    lemma_subrange_index(s, a, e);
    if c == '"' || c == '\\' || c == '\u{8}' || c == '\u{c}' || c == '\n' || c == '\r' || c
        == '\t' {
        assert(s[a] == e[0]);
        assert(s[a + 1] == e[1]);
        assert(esc_ok(s, a, j));
        assert(esc_len(s, a) == 2);
        assert(esc_char(s, a) == c);
    } else if (c as u32) < 0x20 {
        let hi = c as u32 as int / 16;
        let lo = c as u32 as int % 16;
        lemma_hchar(hi);
        lemma_hchar(lo);
        assert(s[a] == e[0]);
        assert(s[a + 1] == e[1]);
        assert(s[a + 2] == e[2]);
        assert(s[a + 3] == e[3]);
        assert(s[a + 4] == e[4]);
        assert(s[a + 5] == e[5]);
        assert(hval(s[a + 2]) == 0 && hval(s[a + 3]) == 0);
        assert(hex4(s, a + 2) == hi * 16 + lo);
        assert(hex4(s, a + 2) == c as u32);
        assert(hex4_ok(s, a + 2));
        assert(esc_ok(s, a, j));
        assert(esc_len(s, a) == 6);
        vstd::utf8::char_u32_cast(c, c as u32);
        assert(esc_char(s, a) == c);
    } else {
        assert(e =~= seq![c]);
        assert(s[a] == e[0]);
        assert(s[a] == c);
    }
}

/// The printed, escaped form of a string lexes back to exactly that string.
proof fn lemma_escaped_string(s: Seq<char>, a: int, v: Seq<char>)
    requires
        0 <= a,
        a + esc_seq(v).len() + 1 <= s.len(),
        s.subrange(a, a + esc_seq(v).len()) == esc_seq(v),
        s[a + esc_seq(v).len()] == '"',
    ensures
        string_end(s, a) == a + esc_seq(v).len() + 1,
        unescape_span(s, a, a + esc_seq(v).len()) == Some(v),
    decreases v.len(),
{
    let l = esc_seq(v).len();
    let j = a + l;
    if v.len() == 0 {
        assert(v =~= Seq::<char>::empty());
    } else {
        let c = v[0];
        let e = esc_of(c);
        let rest = esc_seq(v.drop_first());
        assert(esc_seq(v) == e + rest);
        lemma_subrange_index(s, a, esc_seq(v));
        assert forall|m: int| 0 <= m < e.len() implies s.subrange(a, a + e.len() as int)[m]
            == e[m] by {
            assert(s[a + m] == esc_seq(v)[m]);
            assert(esc_seq(v)[m] == e[m]);
        }
        assert(s.subrange(a, a + e.len()) =~= e);
        assert forall|m: int| 0 <= m < rest.len() implies s.subrange(
            a + e.len() as int,
            a + e.len() + rest.len(),
        )[m] == rest[m] by {
            assert(s[a + (e.len() + m)] == esc_seq(v)[e.len() + m]);
            assert(esc_seq(v)[e.len() + m] == rest[m]);
        }
        assert(s.subrange(a + e.len(), a + e.len() + rest.len()) =~= rest);
        lemma_esc_of_step(s, a, c, j);
        lemma_escaped_string(s, a + e.len(), v.drop_first());
        if plain_char(c) {
            assert(e =~= seq![c]);
            assert(string_end(s, a) == string_end(s, a + 1));
            assert(unescape_span(s, a, j) == Some(seq![c] + v.drop_first()));
        } else {
            assert(s[a] == '\\');
            if c == '"' || c == '\\' || c == '\u{8}' || c == '\u{c}' || c == '\n' || c == '\r'
                || c == '\t' {
                assert(e.len() == 2);
                assert(string_end(s, a) == string_end(s, a + 2));
            } else {
                assert(e.len() == 6);
                assert(e[1] == 'u' && e[2] == '0' && e[3] == '0');
                lemma_hchar(c as u32 as int / 16);
                lemma_hchar(c as u32 as int % 16);
                assert(s[a + 1] == 'u' && s[a + 2] == '0' && s[a + 3] == '0');
                assert(plain_char(s[a + 2]) && s[a + 2] != '"');
                assert(plain_char(s[a + 4]) && s[a + 4] != '"');
                assert(plain_char(s[a + 5]) && s[a + 5] != '"');
                assert(string_end(s, a) == string_end(s, a + 2));
                assert(string_end(s, a + 2) == string_end(s, a + 3));
                assert(string_end(s, a + 3) == string_end(s, a + 4));
                assert(string_end(s, a + 4) == string_end(s, a + 5));
                assert(string_end(s, a + 5) == string_end(s, a + 6));
            }
            assert(unescape_span(s, a, j) == Some(seq![esc_char(s, a)] + v.drop_first()));
        }
        assert(seq![c] + v.drop_first() =~= v);
    }
}

/// A quoted value in the text lexes to its string token.
proof fn lemma_string_token(s: Seq<char>, a: int, v: Seq<char>)
    requires
        0 <= a,
        a + quoted(v).len() <= s.len(),
        s.subrange(a, a + quoted(v).len()) == quoted(v),
    ensures
        token_at(s, a) == Some((TokV::Str(v), a + quoted(v).len())),
{
    let l = esc_seq(v).len() as int;
    lemma_subrange_index(s, a, quoted(v));
    assert(s[a] == quoted(v)[0]);
    assert(s[a] == '"');
    assert forall|m: int| 0 <= m < l implies s.subrange(a + 1, a + 1 + l)[m] == esc_seq(v)[m] by {
        assert(s[a + (1 + m)] == quoted(v)[1 + m]);
        assert(quoted(v)[1 + m] == esc_seq(v)[m]);
    }
    assert(s.subrange(a + 1, a + 1 + l) =~= esc_seq(v));
    assert(s[a + 1 + l] == quoted(v)[1 + l]);
    assert(s[a + 1 + l] == '"');
    lemma_escaped_string(s, a + 1, v);
    assert(string_end(s, a + 1) == a + l + 2);
}

/// A printed non-negative number parses back to its value.
proof fn lemma_digits_val_of_print(s: Seq<char>, a: int, n: int)
    requires
        n >= 0,
        0 <= a,
        a + u_digits(n).len() <= s.len(),
        s.subrange(a, a + u_digits(n).len()) == u_digits(n),
    ensures
        digits_val(s, a, a + u_digits(n).len()) == n,
    decreases n,
{
    let l = u_digits(n).len();
    if n < 10 {
        lemma_dchar(n);
        assert(s[a] == u_digits(n)[0]);
        assert(digits_val(s, a, a + 1) == digits_val(s, a, a) * 10 + dval(s[a]));
    } else {
        assert(u_digits(n) == u_digits(n / 10).push(dchar(n % 10)));
        assert(s.subrange(a, a + (l - 1)) =~= u_digits(n / 10));
        lemma_digits_val_of_print(s, a, n / 10);
        lemma_dchar(n % 10);
        assert(s[a + (l - 1)] == u_digits(n)[l - 1]);
        assert(digits_val(s, a, a + l) == digits_val(s, a, a + (l - 1)) * 10 + dval(s[a + (l - 1)]));
    }
}

/// A printed integer in the text, followed by anything that cannot extend a
/// number, lexes to its integer token.
proof fn lemma_int_token(s: Seq<char>, a: int, z: int)
    requires
        fits_i32(z),
        0 <= a,
        a + int_chars(z).len() < s.len(),
        s.subrange(a, a + int_chars(z).len()) == int_chars(z),
        !is_digit(s[a + int_chars(z).len()]),
        s[a + int_chars(z).len()] != '.',
        s[a + int_chars(z).len()] != 'e',
        s[a + int_chars(z).len()] != 'E',
    ensures
        token_at(s, a) == Some((TokV::Int(z), a + int_chars(z).len())),
{
    let l = int_chars(z).len() as int;
    lemma_subrange_index(s, a, int_chars(z));
    if z < 0 {
        let m = -z;
        lemma_u_digits_shape(m);
        assert(s[a + 0] == int_chars(z)[0]);
        assert(s[a] == '-');
        assert forall|k: int| a + 1 <= k < a + l implies is_digit(s[k]) by {
            assert(s[a + (k - a)] == int_chars(z)[k - a]);
            assert(int_chars(z)[k - a] == u_digits(m)[k - a - 1]);
        }
        lemma_digits_end_run(s, a + 1, l - 1);
        assert(s[a + 1] == int_chars(z)[1]);
        assert(s[a + 1] == u_digits(m)[0]);
        assert forall|k: int| 0 <= k < l - 1 implies s.subrange(a + 1, a + l)[k] == u_digits(m)[k]
            by {
            assert(s[a + (k + 1)] == int_chars(z)[k + 1]);
            assert(int_chars(z)[k + 1] == u_digits(m)[k]);
        }
        assert(s.subrange(a + 1, a + l) =~= u_digits(m));
        lemma_digits_val_of_print(s, a + 1, m);
        assert(digits_val(s, a + 1, a + l) == m);
    } else {
        lemma_u_digits_shape(z);
        assert(int_chars(z) == u_digits(z));
        assert(s[a + 0] == u_digits(z)[0]);
        assert(is_digit(s[a]));
        assert forall|k: int| a <= k < a + l implies is_digit(s[k]) by {
            assert(s[a + (k - a)] == u_digits(z)[k - a]);
        }
        lemma_digits_end_run(s, a, l);
        lemma_digits_val_of_print(s, a, z);
        assert(digits_val(s, a, a + l) == z);
    }
}

/// A printed boolean in the text lexes to its literal token.
proof fn lemma_bool_token(s: Seq<char>, a: int, b: bool)
    requires
        0 <= a,
        a + bool_chars(b).len() <= s.len(),
        s.subrange(a, a + bool_chars(b).len()) == bool_chars(b),
    ensures
        b ==> token_at(s, a) == Some((TokV::True, a + 4)),
        !b ==> token_at(s, a) == Some((TokV::False, a + 5)),
{
    lemma_subrange_index(s, a, bool_chars(b));
    if b {
        assert(s[a + 0] == bool_chars(b)[0]);
        assert(s[a + 1] == bool_chars(b)[1]);
        assert(s[a + 2] == bool_chars(b)[2]);
        assert(s[a + 3] == bool_chars(b)[3]);
    } else {
        assert(s[a + 0] == bool_chars(b)[0]);
        assert(s[a + 1] == bool_chars(b)[1]);
        assert(s[a + 2] == bool_chars(b)[2]);
        assert(s[a + 3] == bool_chars(b)[3]);
        assert(s[a + 4] == bool_chars(b)[4]);
    }
}

/// The token a printed boolean denotes.
pub open spec fn bool_tok(b: bool) -> TokV {
    if b {
        TokV::True
    } else {
        TokV::False
    }
}

/// One printed member after the first: its comma, line break, indent, quoted
/// key and colon-space lex to `Comma, Str(key), Colon`, followed by the
/// member's value token and whatever lexes after it.
#[verifier::rlimit(100)]
proof fn lemma_member_segment(
    s: Seq<char>,
    o: int,
    k: Seq<char>,
    vt: TokV,
    val_end: int,
    rest: Seq<TokV>,
)
    requires
        0 <= o,
        o + 8 + k.len() < s.len(),
        s.subrange(o, o + 8 + k.len()) == next_key(k),
        forall|m: int| 0 <= m < k.len() ==> plain_char(#[trigger] k[m]),
        !is_ws(s[o + 8 + k.len()]),
        token_at(s, o + 8 + k.len()) == Some((vt, val_end)),
        spec_lex(s, val_end) == Some(rest),
    ensures
        spec_lex(s, o) == Some(seq![TokV::Comma, TokV::Str(k), TokV::Colon, vt] + rest),
{
    let kl = k.len() as int;
    lemma_subrange_index(s, o, next_key(k));
    assert(s[o + 0] == next_key(k)[0]);
    assert(s[o + 1] == next_key(k)[1]);
    assert(s[o + 2] == next_key(k)[2]);
    assert(s[o + 3] == next_key(k)[3]);
    assert(s[o + 4] == next_key(k)[4]);
    assert(s[o] == ',' && s[o + 1] == '\n' && s[o + 2] == ' ' && s[o + 3] == ' ' && s[o + 4]
        == '"');
    assert forall|m: int| 0 <= m < kl implies s.subrange(o + 5, o + 5 + kl)[m] == k[m] by {
        assert(s[o + (5 + m)] == next_key(k)[5 + m]);
        assert(next_key(k)[5 + m] == k[m]);
    }
    assert(s.subrange(o + 5, o + 5 + kl) =~= k);
    assert(s[o + (5 + kl)] == next_key(k)[5 + kl]);
    assert(s[o + (6 + kl)] == next_key(k)[6 + kl]);
    assert(s[o + (7 + kl)] == next_key(k)[7 + kl]);
    assert(s[o + 5 + kl] == '"' && s[o + 6 + kl] == ':' && s[o + 7 + kl] == ' ');
    // The value, and everything after it.
    lemma_skip_ws_run(s, o + 7 + kl, 1);
    assert(spec_lex(s, o + 7 + kl) == Some(seq![vt] + rest));
    // The colon.
    lemma_skip_ws_run(s, o + 6 + kl, 0);
    assert(token_at(s, o + 6 + kl) == Some((TokV::Colon, o + 7 + kl)));
    assert(spec_lex(s, o + 6 + kl) == Some(seq![TokV::Colon] + (seq![vt] + rest)));
    // The quoted key.
    lemma_plain_string(s, o + 5, k);
    assert(token_at(s, o + 4) == Some((TokV::Str(k), o + 6 + kl)));
    lemma_skip_ws_run(s, o + 1, 3);
    assert(spec_lex(s, o + 1) == Some(seq![TokV::Str(k)] + (seq![TokV::Colon] + (seq![vt]
        + rest))));
    // The comma.
    lemma_skip_ws_run(s, o, 0);
    assert(token_at(s, o) == Some((TokV::Comma, o + 1)));
    assert(spec_lex(s, o) == Some(seq![TokV::Comma] + (seq![TokV::Str(k)] + (seq![TokV::Colon] + (
    seq![vt] + rest)))));
    assert(seq![TokV::Comma] + (seq![TokV::Str(k)] + (seq![TokV::Colon] + (seq![vt] + rest))) =~= seq![
        TokV::Comma,
        TokV::Str(k),
        TokV::Colon,
        vt,
    ] + rest);
}

/// The opening of the document: the brace, line break, indent, first quoted
/// key and colon-space lex to `LBrace, Str(key), Colon`, followed by the
/// first value token and whatever lexes after it.
#[verifier::rlimit(100)]
proof fn lemma_first_segment(
    s: Seq<char>,
    k: Seq<char>,
    vt: TokV,
    val_end: int,
    rest: Seq<TokV>,
)
    requires
        8 + k.len() < s.len(),
        s.subrange(0, 8 + k.len() as int) == first_key(k),
        forall|m: int| 0 <= m < k.len() ==> plain_char(#[trigger] k[m]),
        !is_ws(s[8 + k.len() as int]),
        token_at(s, 8 + k.len() as int) == Some((vt, val_end)),
        spec_lex(s, val_end) == Some(rest),
    ensures
        spec_lex(s, 0) == Some(seq![TokV::LBrace, TokV::Str(k), TokV::Colon, vt] + rest),
{
    let o: int = 0;
    let kl = k.len() as int;
    lemma_subrange_index(s, o, first_key(k));
    assert(s[o + 0] == first_key(k)[0]);
    assert(s[o + 1] == first_key(k)[1]);
    assert(s[o + 2] == first_key(k)[2]);
    assert(s[o + 3] == first_key(k)[3]);
    assert(s[o + 4] == first_key(k)[4]);
    assert(s[o] == '{' && s[o + 1] == '\n' && s[o + 2] == ' ' && s[o + 3] == ' ' && s[o + 4]
        == '"');
    assert forall|m: int| 0 <= m < kl implies s.subrange(o + 5, o + 5 + kl)[m] == k[m] by {
        assert(s[o + (5 + m)] == first_key(k)[5 + m]);
        assert(first_key(k)[5 + m] == k[m]);
    }
    assert(s.subrange(o + 5, o + 5 + kl) =~= k);
    assert(s[o + (5 + kl)] == first_key(k)[5 + kl]);
    assert(s[o + (6 + kl)] == first_key(k)[6 + kl]);
    assert(s[o + (7 + kl)] == first_key(k)[7 + kl]);
    assert(s[o + 5 + kl] == '"' && s[o + 6 + kl] == ':' && s[o + 7 + kl] == ' ');
    lemma_skip_ws_run(s, o + 7 + kl, 1);
    assert(spec_lex(s, o + 7 + kl) == Some(seq![vt] + rest));
    lemma_skip_ws_run(s, o + 6 + kl, 0);
    assert(token_at(s, o + 6 + kl) == Some((TokV::Colon, o + 7 + kl)));
    assert(spec_lex(s, o + 6 + kl) == Some(seq![TokV::Colon] + (seq![vt] + rest)));
    lemma_plain_string(s, o + 5, k);
    assert(token_at(s, o + 4) == Some((TokV::Str(k), o + 6 + kl)));
    lemma_skip_ws_run(s, o + 1, 3);
    assert(spec_lex(s, o + 1) == Some(seq![TokV::Str(k)] + (seq![TokV::Colon] + (seq![vt]
        + rest))));
    lemma_skip_ws_run(s, o, 0);
    assert(token_at(s, o) == Some((TokV::LBrace, o + 1)));
    assert(spec_lex(s, o) == Some(seq![TokV::LBrace] + (seq![TokV::Str(k)] + (seq![TokV::Colon] + (
    seq![vt] + rest)))));
    assert(seq![TokV::LBrace] + (seq![TokV::Str(k)] + (seq![TokV::Colon] + (seq![vt] + rest)))
        =~= seq![TokV::LBrace, TokV::Str(k), TokV::Colon, vt] + rest);
}

/// The token sequence the printed document lexes to.
pub open spec fn expected_tokens(c: ConfigV) -> Seq<TokV> {
    seq![TokV::LBrace, TokV::Str(key_theme()), TokV::Colon, TokV::Str(c.theme)] + (seq![
        TokV::Comma,
        TokV::Str(key_color()),
        TokV::Colon,
        TokV::Str(c.color),
    ] + (seq![TokV::Comma, TokV::Str(key_zoom()), TokV::Colon, TokV::Int(c.zoom)] + (seq![
        TokV::Comma,
        TokV::Str(key_show_app_rail()),
        TokV::Colon,
        bool_tok(c.show_app_rail),
    ] + (seq![TokV::Comma, TokV::Str(key_sidebar_open()), TokV::Colon, bool_tok(c.sidebar_open)]
        + (seq![
        TokV::Comma,
        TokV::Str(key_sidebar_width()),
        TokV::Colon,
        TokV::Int(c.sidebar_width),
    ] + seq![TokV::RBrace])))))
}

/// Every character of every key stands for itself.
proof fn lemma_keys_plain()
    ensures
        forall|m: int| 0 <= m < key_theme().len() ==> plain_char(#[trigger] key_theme()[m]),
        forall|m: int| 0 <= m < key_color().len() ==> plain_char(#[trigger] key_color()[m]),
        forall|m: int| 0 <= m < key_zoom().len() ==> plain_char(#[trigger] key_zoom()[m]),
        forall|m: int|
            0 <= m < key_show_app_rail().len() ==> plain_char(
                #[trigger] key_show_app_rail()[m],
            ),
        forall|m: int|
            0 <= m < key_sidebar_open().len() ==> plain_char(#[trigger] key_sidebar_open()[m]),
        forall|m: int|
            0 <= m < key_sidebar_width().len() ==> plain_char(
                #[trigger] key_sidebar_width()[m],
            ),
{
}

/// Where each printed piece stands in the document.
#[verifier::rlimit(100)]
proof fn lemma_text_pieces(c: ConfigV)
    ensures
        ({
            let s = spec_config_text(c);
            let p1 = first_key(key_theme()).len() as int;
            let p2 = p1 + quoted(c.theme).len();
            let pv2 = p2 + next_key(key_color()).len();
            let p3 = pv2 + quoted(c.color).len();
            let pv3 = p3 + next_key(key_zoom()).len();
            let p4 = pv3 + int_chars(c.zoom).len();
            let pv4 = p4 + next_key(key_show_app_rail()).len();
            let p5 = pv4 + bool_chars(c.show_app_rail).len();
            let pv5 = p5 + next_key(key_sidebar_open()).len();
            let p6 = pv5 + bool_chars(c.sidebar_open).len();
            let pv6 = p6 + next_key(key_sidebar_width()).len();
            let p7 = pv6 + int_chars(c.sidebar_width).len();
            &&& s.len() == p7 + 2
            &&& s.subrange(0, p1) == first_key(key_theme())
            &&& s.subrange(p1, p2) == quoted(c.theme)
            &&& s.subrange(p2, pv2) == next_key(key_color())
            &&& s.subrange(pv2, p3) == quoted(c.color)
            &&& s.subrange(p3, pv3) == next_key(key_zoom())
            &&& s.subrange(pv3, p4) == int_chars(c.zoom)
            &&& s.subrange(p4, pv4) == next_key(key_show_app_rail())
            &&& s.subrange(pv4, p5) == bool_chars(c.show_app_rail)
            &&& s.subrange(p5, pv5) == next_key(key_sidebar_open())
            &&& s.subrange(pv5, p6) == bool_chars(c.sidebar_open)
            &&& s.subrange(p6, pv6) == next_key(key_sidebar_width())
            &&& s.subrange(pv6, p7) == int_chars(c.sidebar_width)
            &&& s[p7] == '\n'
            &&& s[p7 + 1] == '}'
        }),
{
    reveal(spec_config_text);
    let s = spec_config_text(c);
    let qt = quoted(c.theme);
    let qc = quoted(c.color);
    let dz = int_chars(c.zoom);
    let dw = int_chars(c.sidebar_width);
    let br = bool_chars(c.show_app_rail);
    let bo = bool_chars(c.sidebar_open);
    let a1 = first_key(key_theme());
    let a2 = next_key(key_color());
    let a3 = next_key(key_zoom());
    let a4 = next_key(key_show_app_rail());
    let a5 = next_key(key_sidebar_open());
    let a6 = next_key(key_sidebar_width());
    let p1 = a1.len() as int;
    let p2 = p1 + qt.len();
    let pv2 = p2 + a2.len();
    let p3 = pv2 + qc.len();
    let pv3 = p3 + a3.len();
    let p4 = pv3 + dz.len();
    let pv4 = p4 + a4.len();
    let p5 = pv4 + br.len();
    let pv5 = p5 + a5.len();
    let p6 = pv5 + bo.len();
    let pv6 = p6 + a6.len();
    let p7 = pv6 + dw.len();
    assert(s.len() == p7 + 2);
    assert(s.subrange(0, p1) =~= a1);
    assert(s.subrange(p1, p2) =~= qt);
    assert(s.subrange(p2, pv2) =~= a2);
    assert(s.subrange(pv2, p3) =~= qc);
    assert(s.subrange(p3, pv3) =~= a3);
    assert(s.subrange(pv3, p4) =~= dz);
    assert(s.subrange(p4, pv4) =~= a4);
    assert(s.subrange(pv4, p5) =~= br);
    assert(s.subrange(p5, pv5) =~= a5);
    assert(s.subrange(pv5, p6) =~= bo);
    assert(s.subrange(p6, pv6) =~= a6);
    assert(s.subrange(pv6, p7) =~= dw);
}

/// The value of each member lexes to its expected token.
#[verifier::rlimit(100)]
proof fn lemma_value_tokens(c: ConfigV)
    requires
        fits_i32(c.zoom),
        fits_i32(c.sidebar_width),
    ensures
        ({
            let s = spec_config_text(c);
            let p1 = first_key(key_theme()).len() as int;
            let p2 = p1 + quoted(c.theme).len();
            let pv2 = p2 + next_key(key_color()).len();
            let p3 = pv2 + quoted(c.color).len();
            let pv3 = p3 + next_key(key_zoom()).len();
            let p4 = pv3 + int_chars(c.zoom).len();
            let pv4 = p4 + next_key(key_show_app_rail()).len();
            let p5 = pv4 + bool_chars(c.show_app_rail).len();
            let pv5 = p5 + next_key(key_sidebar_open()).len();
            let p6 = pv5 + bool_chars(c.sidebar_open).len();
            let pv6 = p6 + next_key(key_sidebar_width()).len();
            let p7 = pv6 + int_chars(c.sidebar_width).len();
            &&& token_at(s, p1) == Some((TokV::Str(c.theme), p2))
            &&& !is_ws(s[p1])
            &&& token_at(s, pv2) == Some((TokV::Str(c.color), p3))
            &&& !is_ws(s[pv2])
            &&& token_at(s, pv3) == Some((TokV::Int(c.zoom), p4))
            &&& !is_ws(s[pv3])
            &&& token_at(s, pv4) == Some((bool_tok(c.show_app_rail), p5))
            &&& !is_ws(s[pv4])
            &&& token_at(s, pv5) == Some((bool_tok(c.sidebar_open), p6))
            &&& !is_ws(s[pv5])
            &&& token_at(s, pv6) == Some((TokV::Int(c.sidebar_width), p7))
            &&& !is_ws(s[pv6])
        }),
{
    reveal(spec_config_text);
    lemma_text_pieces(c);
    let s = spec_config_text(c);
    let qt = quoted(c.theme);
    let qc = quoted(c.color);
    let dz = int_chars(c.zoom);
    let dw = int_chars(c.sidebar_width);
    let br = bool_chars(c.show_app_rail);
    let bo = bool_chars(c.sidebar_open);
    let a4 = next_key(key_show_app_rail());
    let p1 = first_key(key_theme()).len() as int;
    let p2 = p1 + qt.len();
    let pv2 = p2 + next_key(key_color()).len();
    let p3 = pv2 + qc.len();
    let pv3 = p3 + next_key(key_zoom()).len();
    let p4 = pv3 + dz.len();
    let pv4 = p4 + a4.len();
    let p5 = pv4 + br.len();
    let pv5 = p5 + next_key(key_sidebar_open()).len();
    let p6 = pv5 + bo.len();
    let pv6 = p6 + next_key(key_sidebar_width()).len();
    let p7 = pv6 + dw.len();
    lemma_subrange_index(s, p1, qt);
    assert(s[p1 + 0] == qt[0] && s[p1] == '"' && !is_ws(s[p1]));
    lemma_string_token(s, p1, c.theme);
    lemma_subrange_index(s, pv2, qc);
    assert(s[pv2 + 0] == qc[0] && s[pv2] == '"' && !is_ws(s[pv2]));
    lemma_string_token(s, pv2, c.color);
    lemma_subrange_index(s, p4, a4);
    assert(s[p4 + 0] == a4[0] && s[p4] == ',');
    lemma_int_token(s, pv3, c.zoom);
    lemma_subrange_index(s, pv3, dz);
    assert(s[pv3 + 0] == dz[0]);
    lemma_int_digit_start(c.zoom);
    assert(!is_ws(s[pv3]));
    lemma_subrange_index(s, pv4, br);
    assert(s[pv4 + 0] == br[0] && !is_ws(s[pv4]));
    lemma_bool_token(s, pv4, c.show_app_rail);
    lemma_subrange_index(s, pv5, bo);
    assert(s[pv5 + 0] == bo[0] && !is_ws(s[pv5]));
    lemma_bool_token(s, pv5, c.sidebar_open);
    lemma_int_token(s, pv6, c.sidebar_width);
    lemma_subrange_index(s, pv6, dw);
    assert(s[pv6 + 0] == dw[0]);
    lemma_int_digit_start(c.sidebar_width);
    assert(!is_ws(s[pv6]));
}

/// The whole document, token by token: given where each printed piece
/// stands and what each value lexes to, the document lexes to the expected
/// sequence. Stated over an abstract text so the instantiation stays cheap.
#[verifier::rlimit(100)]
proof fn lemma_members_chain(
    s: Seq<char>,
    c: ConfigV,
    p2: int,
    p3: int,
    p4: int,
    p5: int,
    p6: int,
    p7: int,
)
    requires
        s.subrange(0, 13) == first_key(key_theme()),
        13 + quoted(c.theme).len() == p2,
        token_at(s, 13) == Some((TokV::Str(c.theme), p2)),
        !is_ws(s[13]),
        13 < s.len(),
        s.subrange(p2, p2 + 13) == next_key(key_color()),
        p2 + 13 + quoted(c.color).len() == p3,
        token_at(s, p2 + 13) == Some((TokV::Str(c.color), p3)),
        !is_ws(s[p2 + 13]),
        s.subrange(p3, p3 + 12) == next_key(key_zoom()),
        token_at(s, p3 + 12) == Some((TokV::Int(c.zoom), p4)),
        !is_ws(s[p3 + 12]),
        s.subrange(p4, p4 + 21) == next_key(key_show_app_rail()),
        token_at(s, p4 + 21) == Some((bool_tok(c.show_app_rail), p5)),
        !is_ws(s[p4 + 21]),
        s.subrange(p5, p5 + 20) == next_key(key_sidebar_open()),
        token_at(s, p5 + 20) == Some((bool_tok(c.sidebar_open), p6)),
        !is_ws(s[p5 + 20]),
        s.subrange(p6, p6 + 21) == next_key(key_sidebar_width()),
        token_at(s, p6 + 21) == Some((TokV::Int(c.sidebar_width), p7)),
        !is_ws(s[p6 + 21]),
        0 <= p2 && p2 <= p3 && p3 <= p4 && p4 <= p5 && p5 <= p6 && p6 <= p7,
        p7 + 2 == s.len(),
        s[p7] == '\n',
        s[p7 + 1] == '}',
    ensures
        spec_lex(s, 0) == Some(expected_tokens(c)),
{
    lemma_keys_plain();
    lemma_end_segment(s, p7);
    let r7 = seq![TokV::RBrace];
    lemma_member_segment(s, p6, key_sidebar_width(), TokV::Int(c.sidebar_width), p7, r7);
    let r6 = seq![TokV::Comma, TokV::Str(key_sidebar_width()), TokV::Colon, TokV::Int(
        c.sidebar_width,
    )] + r7;
    lemma_member_segment(s, p5, key_sidebar_open(), bool_tok(c.sidebar_open), p6, r6);
    let r5 = seq![TokV::Comma, TokV::Str(key_sidebar_open()), TokV::Colon, bool_tok(
        c.sidebar_open,
    )] + r6;
    lemma_member_segment(s, p4, key_show_app_rail(), bool_tok(c.show_app_rail), p5, r5);
    let r4 = seq![TokV::Comma, TokV::Str(key_show_app_rail()), TokV::Colon, bool_tok(
        c.show_app_rail,
    )] + r5;
    lemma_member_segment(s, p3, key_zoom(), TokV::Int(c.zoom), p4, r4);
    let r3 = seq![TokV::Comma, TokV::Str(key_zoom()), TokV::Colon, TokV::Int(c.zoom)] + r4;
    lemma_member_segment(s, p2, key_color(), TokV::Str(c.color), p3, r3);
    let r2 = seq![TokV::Comma, TokV::Str(key_color()), TokV::Colon, TokV::Str(c.color)] + r3;
    lemma_first_segment(s, key_theme(), TokV::Str(c.theme), p2, r2);
}

/// The printed document lexes to the expected token sequence.
#[verifier::rlimit(100)]
proof fn lemma_text_tokens(c: ConfigV)
    requires
        fits_i32(c.zoom),
        fits_i32(c.sidebar_width),
    ensures
        spec_lex(spec_config_text(c), 0) == Some(expected_tokens(c)),
{
    lemma_text_pieces(c);
    lemma_value_tokens(c);
    let s = spec_config_text(c);
    let p1 = first_key(key_theme()).len() as int;
    let p2 = p1 + quoted(c.theme).len();
    let pv2 = p2 + next_key(key_color()).len();
    let p3 = pv2 + quoted(c.color).len();
    let pv3 = p3 + next_key(key_zoom()).len();
    let p4 = pv3 + int_chars(c.zoom).len();
    let pv4 = p4 + next_key(key_show_app_rail()).len();
    let p5 = pv4 + bool_chars(c.show_app_rail).len();
    let pv5 = p5 + next_key(key_sidebar_open()).len();
    let p6 = pv5 + bool_chars(c.sidebar_open).len();
    let pv6 = p6 + next_key(key_sidebar_width()).len();
    let p7 = pv6 + int_chars(c.sidebar_width).len();
    assert(p1 == 13 && next_key(key_color()).len() == 13 && next_key(key_zoom()).len() == 12
        && next_key(key_show_app_rail()).len() == 21 && next_key(key_sidebar_open()).len() == 20
        && next_key(key_sidebar_width()).len() == 21);
    lemma_members_chain(s, c, p2, p3, p4, p5, p6, p7);
}

/// The expected token sequence parses to the record with every field
/// supplied.
#[verifier::rlimit(100)]
proof fn lemma_parse_expected(c: ConfigV)
    requires
        fits_i32(c.zoom),
        fits_i32(c.sidebar_width),
    ensures
        parse_doc(expected_tokens(c)) == Some(
            PartialV {
                theme: Some(c.theme),
                color: Some(c.color),
                zoom: Some(c.zoom),
                show_app_rail: Some(c.show_app_rail),
                sidebar_open: Some(c.sidebar_open),
                sidebar_width: Some(c.sidebar_width),
            },
        ),
{
    let t = expected_tokens(c);
    assert(t.len() == 25);
    assert(t[0] == TokV::LBrace);
    assert(t[1] == TokV::Str(key_theme()));
    assert(t[2] == TokV::Colon);
    assert(t[3] == TokV::Str(c.theme));
    assert(t[4] == TokV::Comma);
    assert(t[5] == TokV::Str(key_color()));
    assert(t[6] == TokV::Colon);
    assert(t[7] == TokV::Str(c.color));
    assert(t[8] == TokV::Comma);
    assert(t[9] == TokV::Str(key_zoom()));
    assert(t[10] == TokV::Colon);
    assert(t[11] == TokV::Int(c.zoom));
    assert(t[12] == TokV::Comma);
    assert(t[13] == TokV::Str(key_show_app_rail()));
    assert(t[14] == TokV::Colon);
    assert(t[15] == bool_tok(c.show_app_rail));
    assert(t[16] == TokV::Comma);
    assert(t[17] == TokV::Str(key_sidebar_open()));
    assert(t[18] == TokV::Colon);
    assert(t[19] == bool_tok(c.sidebar_open));
    assert(t[20] == TokV::Comma);
    assert(t[21] == TokV::Str(key_sidebar_width()));
    assert(t[22] == TokV::Colon);
    assert(t[23] == TokV::Int(c.sidebar_width));
    assert(t[24] == TokV::RBrace);
    assert(key_color() != key_theme()) by {
        assert(key_color()[0] == 'c');
        assert(key_theme()[0] == 't');
    }
    assert(key_zoom() != key_theme() && key_zoom() != key_color()) by {
        assert(key_zoom().len() == 4);
    }
    assert(key_show_app_rail() != key_theme() && key_show_app_rail() != key_color()
        && key_show_app_rail() != key_zoom()) by {
        assert(key_show_app_rail().len() == 13);
    }
    assert(key_sidebar_open() != key_theme() && key_sidebar_open() != key_color()
        && key_sidebar_open() != key_zoom() && key_sidebar_open() != key_show_app_rail()) by {
        assert(key_sidebar_open().len() == 12);
    }
    assert(key_sidebar_width() != key_theme() && key_sidebar_width() != key_color()
        && key_sidebar_width() != key_zoom() && key_sidebar_width() != key_sidebar_open()) by {
        assert(key_sidebar_width().len() == 13);
    }
    assert(key_sidebar_width() != key_show_app_rail()) by {
        assert(key_sidebar_width()[1] == 'i');
        assert(key_show_app_rail()[1] == 'h');
    }
    let acc0 = empty_partial();
    let acc1 = PartialV { theme: Some(c.theme), ..acc0 };
    let acc2 = PartialV { color: Some(c.color), ..acc1 };
    let acc3 = PartialV { zoom: Some(c.zoom), ..acc2 };
    let acc4 = PartialV { show_app_rail: Some(c.show_app_rail), ..acc3 };
    let acc5 = PartialV { sidebar_open: Some(c.sidebar_open), ..acc4 };
    let acc6 = PartialV { sidebar_width: Some(c.sidebar_width), ..acc5 };
    assert(member_value(t, 3, key_theme(), acc0) == Some((acc1, 4int)));
    assert(parse_members(t, 1, acc0, true) == parse_members(t, 5, acc1, false));
    assert(member_value(t, 7, key_color(), acc1) == Some((acc2, 8int)));
    assert(parse_members(t, 5, acc1, false) == parse_members(t, 9, acc2, false));
    assert(member_value(t, 11, key_zoom(), acc2) == Some((acc3, 12int)));
    assert(parse_members(t, 9, acc2, false) == parse_members(t, 13, acc3, false));
    assert(member_value(t, 15, key_show_app_rail(), acc3) == Some((acc4, 16int)));
    assert(parse_members(t, 13, acc3, false) == parse_members(t, 17, acc4, false));
    assert(member_value(t, 19, key_sidebar_open(), acc4) == Some((acc5, 20int)));
    assert(parse_members(t, 17, acc4, false) == parse_members(t, 21, acc5, false));
    assert(member_value(t, 23, key_sidebar_width(), acc5) == Some((acc6, 24int)));
    assert(parse_members(t, 21, acc5, false) == Some(acc6));
}

/// Decoding the document `encode` writes yields exactly the record that was
/// written: the round-trip law, for every record.
pub proof fn lemma_decode_of_encode(c: ConfigV)
    requires
        fits_i32(c.zoom),
        fits_i32(c.sidebar_width),
    ensures
        spec_decode(spec_config_text(c)) == Some(c),
{
    lemma_text_tokens(c);
    lemma_parse_expected(c);
    let p = PartialV {
        theme: Some(c.theme),
        color: Some(c.color),
        zoom: Some(c.zoom),
        show_app_rail: Some(c.show_app_rail),
        sidebar_open: Some(c.sidebar_open),
        sidebar_width: Some(c.sidebar_width),
    };
    assert(fill_defaults(p) =~= c);
}

/// A printed integer starts with a minus sign or a digit, never whitespace.
proof fn lemma_int_digit_start(z: int)
    ensures
        !is_ws(int_chars(z)[0]),
{
    if z < 0 {
        lemma_u_digits_shape(-z);
    } else {
        lemma_u_digits_shape(z);
        let m = if z < 0 {
            -z
        } else {
            z
        };
        assert(is_digit(u_digits(m)[0]));
    }
}

/// The closing of the document: a line break and the brace, with nothing
/// after them, lex to the single closing token.
proof fn lemma_end_segment(s: Seq<char>, o: int)
    requires
        0 <= o,
        o + 2 == s.len(),
        s[o] == '\n',
        s[o + 1] == '}',
    ensures
        spec_lex(s, o) == Some(seq![TokV::RBrace]),
{
    lemma_skip_ws_run(s, o + 2, 0);
    assert(spec_lex(s, o + 2) == Some(Seq::<TokV>::empty()));
    lemma_skip_ws_run(s, o, 1);
    assert(token_at(s, o + 1) == Some((TokV::RBrace, o + 2)));
    assert(spec_lex(s, o) == Some(seq![TokV::RBrace] + Seq::<TokV>::empty()));
    assert(seq![TokV::RBrace] + Seq::<TokV>::empty() =~= seq![TokV::RBrace]);
}

} // verus!
