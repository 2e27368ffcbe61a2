//! Terminal-safe rendering of untrusted server text.

use vstd::prelude::*;
use crate::text::{chars_of, string_from_chars};

verus! {

/// The Unicode bidirectional formatting controls: ALM, LRM, RLM, LRE..RLO and LRI..PDI.
pub open spec fn is_bidi_code(code: u32) -> bool {
    code == 0x061c || code == 0x200e || code == 0x200f || (0x202a <= code && code <= 0x202e)
        || (0x2066 <= code && code <= 0x2069)
}

/// Whether `c` must be escaped before it reaches a terminal: a C0 control, DEL, a C1
/// control, or a bidirectional formatting control.
pub open spec fn needs_escape(c: char) -> bool {
    let code = c as u32;
    code <= 0x1f || (0x7f <= code && code <= 0x9f) || is_bidi_code(code)
}

/// The upper-case hexadecimal digit for `n < 16`.
pub open spec fn hex_digit(n: u32) -> char {
    if n < 10 {
        (('0' as u32) + n) as char
    } else {
        (('A' as u32) + n - 10) as char
    }
}

/// `\u{XXXX}`: the code of `c` as four upper-case hexadecimal digits in braces.
pub open spec fn escape(c: char) -> Seq<char> {
    let code = c as u32;
    seq![
        '\\',
        'u',
        '{',
        hex_digit((code / 4096) % 16),
        hex_digit((code / 256) % 16),
        hex_digit((code / 16) % 16),
        hex_digit(code % 16),
        '}',
    ]
}

/// What one character becomes: its escape when it must be escaped, itself otherwise.
pub open spec fn sanitize_char(c: char) -> Seq<char> {
    if needs_escape(c) {
        escape(c)
    } else {
        seq![c]
    }
}

/// `s` with every character that must be escaped replaced by its escape.
pub open spec fn sanitized(s: Seq<char>) -> Seq<char>
    decreases s.len(),
{
    if s.len() == 0 {
        seq![]
    } else {
        sanitized(s.drop_last()) + sanitize_char(s.last())
    }
}

/// Whether no character of `s` must be escaped.
pub open spec fn terminal_safe(s: Seq<char>) -> bool {
    forall|i: int| 0 <= i < s.len() ==> !needs_escape(#[trigger] s[i])
}

/// Whether `code` is one of the bidirectional formatting controls.
fn is_bidi_control(code: u32) -> (b: bool)
    ensures
        b == is_bidi_code(code),
{
    code == 0x061c || code == 0x200e || code == 0x200f || (0x202a <= code && code <= 0x202e)
        || (0x2066 <= code && code <= 0x2069)
}

/// The upper-case hexadecimal digit for `n`.
fn hex_char(n: u32) -> (c: char)
    requires
        n < 16,
    ensures
        c == hex_digit(n),
{
    let table: [char; 16] = [
        '0', '1', '2', '3', '4', '5', '6', '7', '8', '9', 'A', 'B', 'C', 'D', 'E', 'F',
    ];
    assert(table@ =~= seq![
        hex_digit(0), hex_digit(1), hex_digit(2), hex_digit(3), hex_digit(4), hex_digit(5),
        hex_digit(6), hex_digit(7), hex_digit(8), hex_digit(9), hex_digit(10), hex_digit(11),
        hex_digit(12), hex_digit(13), hex_digit(14), hex_digit(15),
    ]);
    table[n as usize]
}

/// Appends what `c` becomes to `out`.
pub fn push_sanitized_char(out: &mut Vec<char>, c: char)
    ensures
        final(out)@ == old(out)@ + sanitize_char(c),
{
    let code = c as u32;
    if code <= 0x1f || (0x7f <= code && code <= 0x9f) || is_bidi_control(code) {
        out.push('\\');
        out.push('u');
        out.push('{');
        out.push(hex_char((code / 4096) % 16));
        out.push(hex_char((code / 256) % 16));
        out.push(hex_char((code / 16) % 16));
        out.push(hex_char(code % 16));
        out.push('}');
        assert(final(out)@ =~= old(out)@ + escape(c));
    } else {
        out.push(c);
        assert(final(out)@ =~= old(out)@ + seq![c]);
    }
}

/// Appends the sanitized form of the characters `s` to `out`.
pub fn push_sanitized(out: &mut Vec<char>, s: &Vec<char>)
    ensures
        final(out)@ == old(out)@ + sanitized(s@),
{
    let mut i: usize = 0;
    let ghost start = out@;
    while i < s.len()
        invariant
            i <= s.len(),
            out@ == start + sanitized(s@.take(i as int)),
        decreases s.len() - i,
    {
        assert(s@.take(i + 1).drop_last() == s@.take(i as int));
        push_sanitized_char(out, s[i]);
        i = i + 1;
    }
    assert(s@.take(s.len() as int) == s@);
}

/// Escapes terminal controls and bidirectional formatting characters, leaving every
/// other character, normal Unicode included, as it is.
pub fn sanitize(input: &str) -> (output: String)
    ensures
        output@ == sanitized(input@),
{
    let chars = chars_of(input);
    let mut out: Vec<char> = Vec::new();
    push_sanitized(&mut out, &chars);
    string_from_chars(&out)
}

/// What one character becomes never holds a character that must be escaped.
pub proof fn lemma_sanitize_char_safe(c: char)
    ensures
        terminal_safe(sanitize_char(c)),
{
    if needs_escape(c) {
        let code = c as u32;
        assert forall|n: u32| n < 16 implies !needs_escape(#[trigger] hex_digit(n)) by {
            assert(0x30 <= hex_digit(n) as u32 <= 0x46);
        }
        let e = escape(c);
        assert forall|i: int| 0 <= i < e.len() implies !needs_escape(#[trigger] e[i]) by {
            if i == 3 {
                assert(e[i] == hex_digit((code / 4096) % 16));
            } else if i == 4 {
                assert(e[i] == hex_digit((code / 256) % 16));
            } else if i == 5 {
                assert(e[i] == hex_digit((code / 16) % 16));
            } else if i == 6 {
                assert(e[i] == hex_digit(code % 16));
            }
        }
    }
}

/// Sanitizing distributes over concatenation: each character is escaped on its own.
pub proof fn lemma_sanitized_concat(a: Seq<char>, b: Seq<char>)
    ensures
        sanitized(a + b) == sanitized(a) + sanitized(b),
    decreases b.len(),
{
    if b.len() == 0 {
        assert(a + b == a);
    } else {
        lemma_sanitized_concat(a, b.drop_last());
        assert((a + b).drop_last() == a + b.drop_last());
        assert((a + b).last() == b.last());
    }
}

/// Sanitized text never holds a character that must be escaped.
pub proof fn lemma_sanitized_is_terminal_safe(s: Seq<char>)
    ensures
        terminal_safe(sanitized(s)),
    decreases s.len(),
{
    if s.len() > 0 {
        lemma_sanitized_is_terminal_safe(s.drop_last());
        lemma_sanitize_char_safe(s.last());
        let a = sanitized(s.drop_last());
        let b = sanitize_char(s.last());
        assert forall|i: int| 0 <= i < (a + b).len() implies !needs_escape(#[trigger] (a + b)[i]) by {
            if i < a.len() {
                assert((a + b)[i] == a[i]);
            } else {
                assert((a + b)[i] == b[i - a.len()]);
            }
        }
    }
}

/// Text that holds no character that must be escaped passes through unaltered.
pub proof fn lemma_sanitized_keeps_safe_text(s: Seq<char>)
    requires
        terminal_safe(s),
    ensures
        sanitized(s) == s,
    decreases s.len(),
{
    if s.len() > 0 {
        assert(!needs_escape(s[s.len() - 1]));
        lemma_sanitized_keeps_safe_text(s.drop_last());
        assert(s.drop_last().push(s.last()) == s);
    }
}

/// Sanitizing never shortens text.
pub proof fn lemma_sanitized_len(s: Seq<char>)
    ensures
        sanitized(s).len() >= s.len(),
    decreases s.len(),
{
    if s.len() > 0 {
        lemma_sanitized_len(s.drop_last());
    }
}

/// Sanitizing twice gives what sanitizing once gives.
pub proof fn lemma_sanitize_idempotent(s: Seq<char>)
    ensures
        sanitized(sanitized(s)) == sanitized(s),
{
    lemma_sanitized_is_terminal_safe(s);
    lemma_sanitized_keeps_safe_text(sanitized(s));
}

} // verus!
