//! Character-level helpers over strings, each with its meaning stated on `Seq<char>`.

use vstd::prelude::*;
use vstd::utf8::encode_utf8;

verus! {

/// Whether `c` has the Unicode `White_Space` property, as `char::is_whitespace` reports
/// it: U+0009..U+000D, U+0020, U+0085, U+00A0, U+1680, U+2000..U+200A, U+2028, U+2029,
/// U+202F, U+205F and U+3000.
pub open spec fn is_white_space(c: char) -> bool {
    let u = c as u32;
    (0x9 <= u && u <= 0xd) || u == 0x20 || u == 0x85 || u == 0xa0 || u == 0x1680 || (0x2000 <= u
        && u <= 0x200a) || u == 0x2028 || u == 0x2029 || u == 0x202f || u == 0x205f || u == 0x3000
}

/// Whether `c` is Unicode white space, as `char::is_whitespace` decides it.
pub fn char_is_whitespace(c: char) -> (b: bool)
    ensures
        b == is_white_space(c),
{
    let u = c as u32;
    (0x9 <= u && u <= 0xd) || u == 0x20 || u == 0x85 || u == 0xa0 || u == 0x1680 || (0x2000 <= u
        && u <= 0x200a) || u == 0x2028 || u == 0x2029 || u == 0x202f || u == 0x205f || u == 0x3000
}

/// `String::from_iter` over the characters of `v`: a string holding exactly those
/// characters, in order.
#[verifier::external_body]
pub(crate) fn string_from_chars(v: &Vec<char>) -> (s: String)
    ensures
        s@ == v@,
{
    String::from_iter(v.iter())
}

/// The number of bytes in the UTF-8 encoding of `s`, as `str::len` counts them.
pub fn utf8_len(s: &str) -> (n: usize)
    ensures
        n == encode_utf8(s@).len(),
{
    s.as_bytes().len()
}

/// The characters of `s`, in order.
pub fn chars_of(s: &str) -> (v: Vec<char>)
    ensures
        v@ == s@,
{
    let mut v: Vec<char> = Vec::new();
    for c in it: s.chars()
        invariant
            v@ == it.seq().take(it.index()),
    {
        v.push(c);
    }
    v
}

/// `s` with its leading `White_Space` characters removed.
pub open spec fn trim_start(s: Seq<char>) -> Seq<char>
    decreases s.len(),
{
    if s.len() > 0 && is_white_space(s[0]) {
        trim_start(s.drop_first())
    } else {
        s
    }
}

/// `s` with its trailing `White_Space` characters removed.
pub open spec fn trim_end(s: Seq<char>) -> Seq<char>
    decreases s.len(),
{
    if s.len() > 0 && is_white_space(s.last()) {
        trim_end(s.drop_last())
    } else {
        s
    }
}

/// `str::trim`: both ends stripped of `White_Space` characters.
pub open spec fn trim(s: Seq<char>) -> Seq<char> {
    trim_end(trim_start(s))
}

proof fn lemma_trim_start_skip(s: Seq<char>, i: int)
    requires
        0 <= i <= s.len(),
        forall|j: int| 0 <= j < i ==> is_white_space(#[trigger] s[j]),
    ensures
        trim_start(s) == trim_start(s.skip(i)),
    decreases i,
{
    if i > 0 {
        assert(s.skip(1) == s.drop_first());
        lemma_trim_start_skip(s.drop_first(), i - 1);
        assert(s.drop_first().skip(i - 1) == s.skip(i));
    } else {
        assert(s.skip(0) == s);
    }
}

proof fn lemma_trim_end_take(s: Seq<char>, k: int)
    requires
        0 <= k <= s.len(),
        forall|j: int| k <= j < s.len() ==> is_white_space(#[trigger] s[j]),
    ensures
        trim_end(s) == trim_end(s.take(k)),
    decreases s.len() - k,
{
    if k < s.len() {
        lemma_trim_end_take(s.drop_last(), k);
        assert(s.drop_last().take(k) == s.take(k));
    } else {
        assert(s.take(k) == s);
    }
}

/// The characters of `s` without leading and trailing `White_Space`, as `str::trim` gives them.
pub fn trim_chars(s: &Vec<char>) -> (t: Vec<char>)
    ensures
        t@ == trim(s@),
{
    let n = s.len();
    let mut start: usize = 0;
    while start < n && char_is_whitespace(s[start])
        invariant
            start <= n,
            n == s@.len(),
            forall|j: int| 0 <= j < start ==> is_white_space(#[trigger] s@[j]),
        decreases n - start,
    {
        start = start + 1;
    }
    proof {
        lemma_trim_start_skip(s@, start as int);
    }
    let ghost rest = s@.skip(start as int);
    assert(start == n || !is_white_space(rest[0]));
    assert(trim_start(rest) == rest);
    let mut end: usize = n;
    while end > start && char_is_whitespace(s[end - 1])
        invariant
            start <= end <= n,
            n == s@.len(),
            forall|j: int| end <= j < n ==> is_white_space(#[trigger] s@[j]),
        decreases end,
    {
        end = end - 1;
    }
    proof {
        lemma_trim_end_take(rest, end - start);
        assert(rest.take(end - start) == s@.subrange(start as int, end as int));
    }
    let mut t: Vec<char> = Vec::new();
    let mut i: usize = start;
    while i < end
        invariant
            start <= i <= end <= n,
            n == s@.len(),
            t@ == s@.subrange(start as int, i as int),
        decreases end - i,
    {
        t.push(s[i]);
        i = i + 1;
    }
    let ghost mid = s@.subrange(start as int, end as int);
    assert(end == start || !is_white_space(mid.last()));
    assert(trim_end(mid) == mid);
    t
}

/// Whether `s` begins with `p`.
pub open spec fn has_prefix(s: Seq<char>, p: Seq<char>) -> bool {
    p.len() <= s.len() && s.take(p.len() as int) == p
}

/// Whether `s` ends with `p`.
pub open spec fn has_suffix(s: Seq<char>, p: Seq<char>) -> bool {
    p.len() <= s.len() && s.skip(s.len() - p.len()) == p
}

/// `str::strip_prefix`: what follows `p` when `s` begins with it.
pub open spec fn strip_prefix(s: Seq<char>, p: Seq<char>) -> Option<Seq<char>> {
    if has_prefix(s, p) {
        Some(s.skip(p.len() as int))
    } else {
        None
    }
}

/// `str::strip_suffix`: what precedes `p` when `s` ends with it.
pub open spec fn strip_suffix(s: Seq<char>, p: Seq<char>) -> Option<Seq<char>> {
    if has_suffix(s, p) {
        Some(s.take(s.len() - p.len()))
    } else {
        None
    }
}

/// Whether `p` occurs in `s` starting at index `k`.
pub open spec fn occurs_at(s: Seq<char>, p: Seq<char>, k: int) -> bool {
    0 <= k && k + p.len() <= s.len() && s.subrange(k, k + p.len()) == p
}

/// The start of the last occurrence of `p` in `s` that begins at or before `k`.
pub open spec fn rfind_from(s: Seq<char>, p: Seq<char>, k: int) -> Option<int>
    decreases k + 1,
{
    if k < 0 {
        None
    } else if occurs_at(s, p, k) {
        Some(k)
    } else {
        rfind_from(s, p, k - 1)
    }
}

/// `str::rsplit_once`: the text before and after the last occurrence of `p` in `s`.
pub open spec fn rsplit_once(s: Seq<char>, p: Seq<char>) -> Option<(Seq<char>, Seq<char>)> {
    match rfind_from(s, p, s.len() - p.len()) {
        Some(k) => Some((s.take(k), s.skip(k + p.len()))),
        None => None,
    }
}

/// Whether `s` begins with `p`, checked character by character.
pub fn starts_with(s: &Vec<char>, p: &Vec<char>) -> (b: bool)
    ensures
        b == has_prefix(s@, p@),
{
    if p.len() > s.len() {
        return false;
    }
    let mut i: usize = 0;
    while i < p.len()
        invariant
            i <= p.len() <= s.len(),
            forall|j: int| 0 <= j < i ==> s@[j] == p@[j],
        decreases p.len() - i,
    {
        if s[i] != p[i] {
            assert(s@.take(p.len() as int)[i as int] != p@[i as int]);
            return false;
        }
        i = i + 1;
    }
    assert(s@.take(p.len() as int) =~= p@);
    true
}

/// Whether `p` occurs in `s` at index `k`, checked character by character.
pub fn matches_at(s: &Vec<char>, p: &Vec<char>, k: usize) -> (b: bool)
    ensures
        b == occurs_at(s@, p@, k as int),
{
    if k > s.len() || p.len() > s.len() - k {
        return false;
    }
    let mut i: usize = 0;
    while i < p.len()
        invariant
            i <= p.len(),
            k + p.len() <= s.len(),
            forall|j: int| 0 <= j < i ==> s@[k + j] == p@[j],
        decreases p.len() - i,
    {
        if s[k + i] != p[i] {
            assert(s@.subrange(k as int, k + p.len())[i as int] != p@[i as int]);
            return false;
        }
        i = i + 1;
    }
    assert(s@.subrange(k as int, k + p.len()) =~= p@);
    true
}

/// The characters of `s` from index `from` up to (not including) `to`.
pub fn slice_chars(s: &Vec<char>, from: usize, to: usize) -> (t: Vec<char>)
    requires
        from <= to <= s.len(),
    ensures
        t@ == s@.subrange(from as int, to as int),
{
    let mut t: Vec<char> = Vec::new();
    let mut i: usize = from;
    while i < to
        invariant
            from <= i <= to <= s.len(),
            t@ == s@.subrange(from as int, i as int),
        decreases to - i,
    {
        t.push(s[i]);
        i = i + 1;
    }
    t
}

/// `strip_prefix` on character vectors.
pub fn strip_prefix_chars(s: &Vec<char>, p: &Vec<char>) -> (r: Option<Vec<char>>)
    ensures
        r matches Some(t) ==> strip_prefix(s@, p@) == Some(t@),
        r is None ==> strip_prefix(s@, p@) is None,
{
    if starts_with(s, p) {
        Some(slice_chars(s, p.len(), s.len()))
    } else {
        None
    }
}

/// `strip_suffix` on character vectors.
pub fn strip_suffix_chars(s: &Vec<char>, p: &Vec<char>) -> (r: Option<Vec<char>>)
    ensures
        r matches Some(t) ==> strip_suffix(s@, p@) == Some(t@),
        r is None ==> strip_suffix(s@, p@) is None,
{
    if p.len() <= s.len() && matches_at(s, p, s.len() - p.len()) {
        assert(s@.subrange(s.len() - p.len(), s.len() as int) == s@.skip(s.len() - p.len()));
        Some(slice_chars(s, 0, s.len() - p.len()))
    } else {
        proof {
            if p.len() <= s.len() {
                assert(s@.subrange(s.len() - p.len(), s.len() as int) == s@.skip(s.len() - p.len()));
            }
        }
        None
    }
}

/// `rsplit_once` on character vectors.
pub fn rsplit_once_chars(s: &Vec<char>, p: &Vec<char>) -> (r: Option<(Vec<char>, Vec<char>)>)
    ensures
        r matches Some(pair) ==> rsplit_once(s@, p@) == Some((pair.0@, pair.1@)),
        r is None ==> rsplit_once(s@, p@) is None,
{
    if p.len() > s.len() {
        assert(rfind_from(s@, p@, s@.len() - p@.len()) is None);
        return None;
    }
    let mut k: usize = s.len() - p.len();
    loop
        invariant
            k + p.len() <= s.len(),
            rfind_from(s@, p@, s@.len() - p@.len()) == rfind_from(s@, p@, k as int),
        decreases k,
    {
        if matches_at(s, p, k) {
            let before = slice_chars(s, 0, k);
            let after = slice_chars(s, k + p.len(), s.len());
            assert(after@ == s@.skip(k + p.len()));
            return Some((before, after));
        }
        if k == 0 {
            assert(rfind_from(s@, p@, -1) is None);
            return None;
        }
        k = k - 1;
    }
}

/// Whether `c` is one of the ASCII digits `0` to `9`.
pub open spec fn is_digit(c: char) -> bool {
    '0' <= c && c <= '9'
}

/// The number that the decimal digits `d` spell.
pub open spec fn digits_value(d: Seq<char>) -> nat
    decreases d.len(),
{
    if d.len() == 0 {
        0
    } else {
        digits_value(d.drop_last()) * 10 + ((d.last() as u32) - ('0' as u32)) as nat
    }
}

/// The digits of an unsigned number: `s` without one leading `+`, if it has one.
pub open spec fn unsigned_digits(s: Seq<char>) -> Seq<char> {
    if s.len() > 0 && s[0] == '+' {
        s.drop_first()
    } else {
        s
    }
}

/// Whether every character of `d` is an ASCII digit.
pub open spec fn all_digits(d: Seq<char>) -> bool {
    forall|i: int| 0 <= i < d.len() ==> is_digit(#[trigger] d[i])
}

/// `str::parse::<u64>`: an optional `+` followed by one or more ASCII digits whose
/// value fits in a `u64`; anything else is refused.
pub open spec fn parse_u64(s: Seq<char>) -> Option<u64> {
    let d = unsigned_digits(s);
    if d.len() > 0 && all_digits(d) && digits_value(d) <= u64::MAX {
        Some(digits_value(d) as u64)
    } else {
        None
    }
}

proof fn lemma_digits_value_monotone(d: Seq<char>, i: int)
    requires
        0 <= i <= d.len(),
        forall|j: int| 0 <= j < d.len() ==> is_digit(#[trigger] d[j]),
    ensures
        digits_value(d.take(i)) <= digits_value(d),
    decreases d.len() - i,
{
    if i < d.len() {
        lemma_digits_value_monotone(d.drop_last(), i);
        assert(d.drop_last().take(i) == d.take(i));
    } else {
        assert(d.take(i) == d);
    }
}

/// Parses `s` as `str::parse::<u64>` does.
pub fn parse_u64_chars(s: &Vec<char>) -> (r: Option<u64>)
    ensures
        r == parse_u64(s@),
{
    let start: usize = if s.len() > 0 && s[0] == '+' { 1 } else { 0 };
    let ghost d = unsigned_digits(s@);
    assert(d == s@.skip(start as int));
    if start >= s.len() {
        return None;
    }
    let mut value: u64 = 0;
    let mut i: usize = start;
    while i < s.len()
        invariant
            start <= i <= s.len(),
            d == s@.skip(start as int),
            d == unsigned_digits(s@),
            forall|j: int| start <= j < i ==> is_digit(#[trigger] s@[j]),
            value == digits_value(s@.subrange(start as int, i as int)),
        decreases s.len() - i,
    {
        let c = s[i];
        assert(s@.subrange(start as int, i + 1).drop_last() == s@.subrange(start as int, i as int));
        if !('0' <= c && c <= '9') {
            assert(d[i - start] == s@[i as int]);
            assert(!is_digit(d[i - start]));
            return None;
        }
        let digit: u64 = ((c as u32) - ('0' as u32)) as u64;
        let m = value.checked_mul(10);
        if m.is_none() {
            proof {
                if all_digits(d) {
                    assert(s@.subrange(start as int, i + 1).last() == c);
                    lemma_digits_value_monotone(d, i + 1 - start);
                    assert(d.take(i + 1 - start) == s@.subrange(start as int, i + 1));
                }
            }
            return None;
        }
        let n = m.unwrap().checked_add(digit);
        if n.is_none() {
            proof {
                if all_digits(d) {
                    assert(s@.subrange(start as int, i + 1).last() == c);
                    lemma_digits_value_monotone(d, i + 1 - start);
                    assert(d.take(i + 1 - start) == s@.subrange(start as int, i + 1));
                }
            }
            return None;
        }
        value = n.unwrap();
        i = i + 1;
    }
    assert(s@.subrange(start as int, s.len() as int) == d);
    Some(value)
}

/// The ASCII decimal digits of `n`, without leading zeros (`"0"` for zero).
pub open spec fn decimal(n: nat) -> Seq<char>
    decreases n,
{
    if n < 10 {
        seq![digit_char(n)]
    } else {
        decimal(n / 10) + seq![digit_char(n % 10)]
    }
}

/// The ASCII digit for `d < 10`.
pub open spec fn digit_char(d: nat) -> char {
    (('0' as u32) + d) as char
}

/// `n` written in decimal, as `{}` formats a `u64`.
pub fn decimal_chars(n: u64) -> (v: Vec<char>)
    ensures
        v@ == decimal(n as nat),
    decreases n,
{
    let d: u64 = n % 10;
    let c: char = if d == 0 { '0' } else if d == 1 { '1' } else if d == 2 { '2' } else if d == 3 {
        '3'
    } else if d == 4 { '4' } else if d == 5 { '5' } else if d == 6 { '6' } else if d == 7 {
        '7'
    } else if d == 8 { '8' } else { '9' };
    assert(c == digit_char(d as nat));
    if n < 10 {
        let mut v: Vec<char> = Vec::new();
        v.push(c);
        v
    } else {
        let mut v = decimal_chars(n / 10);
        v.push(c);
        v
    }
}


/// `line` without one final carriage return, as `str::lines` drops it before a newline.
pub open spec fn strip_cr(line: Seq<char>) -> Seq<char> {
    if line.len() > 0 && line.last() == '\r' {
        line.drop_last()
    } else {
        line
    }
}

/// The lines that `str::lines` yields for `s`, given the unfinished line `cur` before it:
/// a line ends at each `\n` (and drops a `\r` just before it); a final line is
/// yielded only when it is not empty.
pub open spec fn lines_from(s: Seq<char>, cur: Seq<char>) -> Seq<Seq<char>>
    decreases s.len(),
{
    if s.len() == 0 {
        if cur.len() == 0 {
            seq![]
        } else {
            seq![cur]
        }
    } else if s[0] == '\n' {
        seq![strip_cr(cur)] + lines_from(s.drop_first(), seq![])
    } else {
        lines_from(s.drop_first(), cur.push(s[0]))
    }
}

/// `str::lines`.
pub open spec fn lines(s: Seq<char>) -> Seq<Seq<char>> {
    lines_from(s, seq![])
}

/// The views of a vector of character vectors.
pub open spec fn views(v: Seq<Vec<char>>) -> Seq<Seq<char>> {
    v.map_values(|l: Vec<char>| l@)
}

/// The lines of `s`, as `str::lines` yields them.
pub fn lines_of(s: &Vec<char>) -> (out: Vec<Vec<char>>)
    ensures
        views(out@) == lines(s@),
{
    let mut out: Vec<Vec<char>> = Vec::new();
    let mut cur: Vec<char> = Vec::new();
    let mut i: usize = 0;
    assert(s@.skip(0) == s@);
    while i < s.len()
        invariant
            i <= s.len(),
            views(out@) + lines_from(s@.skip(i as int), cur@) == lines(s@),
        decreases s.len() - i,
    {
        let ghost rest = s@.skip(i as int);
        assert(rest.drop_first() == s@.skip(i + 1));
        assert(rest[0] == s@[i as int]);
        let c = s[i];
        if c == '\n' {
            let mut line = cur;
            if line.len() > 0 && line[line.len() - 1] == '\r' {
                line.pop();
            }
            assert(line@ == strip_cr(cur@));
            let ghost before = views(out@);
            out.push(line);
            assert(views(out@) == before.push(strip_cr(cur@)));
            assert(before + (seq![strip_cr(cur@)] + lines_from(s@.skip(i + 1), seq![]))
                == before.push(strip_cr(cur@)) + lines_from(s@.skip(i + 1), seq![]));
            cur = Vec::new();
            assert(cur@ == Seq::<char>::empty());
        } else {
            cur.push(c);
        }
        i = i + 1;
    }
    if cur.len() > 0 {
        let ghost before = views(out@);
        out.push(cur);
        assert(views(out@) == before.push(cur@));
    } else {
        assert(views(out@) + lines_from(s@.skip(i as int), cur@) == views(out@));
    }
    out
}

/// The pieces of `s` between `\n` characters (as `str::split('\n')` yields them), given
/// the unfinished piece `cur` before it; there is always a last piece, possibly empty.
pub open spec fn pieces_from(s: Seq<char>, cur: Seq<char>) -> Seq<Seq<char>>
    decreases s.len(),
{
    if s.len() == 0 {
        seq![cur]
    } else if s[0] == '\n' {
        seq![cur] + pieces_from(s.drop_first(), seq![])
    } else {
        pieces_from(s.drop_first(), cur.push(s[0]))
    }
}

/// `str::split('\n')`.
pub open spec fn split_newlines(s: Seq<char>) -> Seq<Seq<char>> {
    pieces_from(s, seq![])
}

/// `parts` joined with `sep` between each two neighbours, as `[_]::join` does.
pub open spec fn join(parts: Seq<Seq<char>>, sep: Seq<char>) -> Seq<char>
    decreases parts.len(),
{
    if parts.len() == 0 {
        seq![]
    } else if parts.len() == 1 {
        parts[0]
    } else {
        parts[0] + sep + join(parts.drop_first(), sep)
    }
}

/// The pieces of `s` between `\n` characters, as `str::split('\n')` yields them.
pub fn split_newlines_of(s: &Vec<char>) -> (out: Vec<Vec<char>>)
    ensures
        views(out@) == split_newlines(s@),
{
    let mut out: Vec<Vec<char>> = Vec::new();
    let mut cur: Vec<char> = Vec::new();
    let mut i: usize = 0;
    assert(s@.skip(0) == s@);
    while i < s.len()
        invariant
            i <= s.len(),
            views(out@) + pieces_from(s@.skip(i as int), cur@) == split_newlines(s@),
        decreases s.len() - i,
    {
        let ghost rest = s@.skip(i as int);
        assert(rest.drop_first() == s@.skip(i + 1));
        assert(rest[0] == s@[i as int]);
        let c = s[i];
        if c == '\n' {
            let ghost before = views(out@);
            let ghost piece = cur@;
            out.push(cur);
            assert(views(out@) == before.push(piece));
            assert(before + (seq![piece] + pieces_from(s@.skip(i + 1), seq![]))
                == before.push(piece) + pieces_from(s@.skip(i + 1), seq![]));
            cur = Vec::new();
            assert(cur@ == Seq::<char>::empty());
        } else {
            cur.push(c);
        }
        i = i + 1;
    }
    let ghost before = views(out@);
    let ghost piece = cur@;
    out.push(cur);
    assert(views(out@) == before.push(piece));
    out
}

/// Whether the character vectors `a` and `b` are equal.
pub fn same_chars(a: &Vec<char>, b: &Vec<char>) -> (r: bool)
    ensures
        r == (a@ == b@),
{
    if a.len() != b.len() {
        return false;
    }
    let mut i: usize = 0;
    while i < a.len()
        invariant
            i <= a.len() == b.len(),
            forall|j: int| 0 <= j < i ==> a@[j] == b@[j],
        decreases a.len() - i,
    {
        if a[i] != b[i] {
            return false;
        }
        i = i + 1;
    }
    assert(a@ =~= b@);
    true
}

/// Whether `a` and `b` hold the same characters.
pub fn str_eq(a: &str, b: &str) -> (r: bool)
    ensures
        r == (a@ == b@),
{
    same_chars(&chars_of(a), &chars_of(b))
}

/// `a` followed by `b`, as a new string.
pub fn concat(a: &str, b: &str) -> (s: String)
    ensures
        s@ == a@ + b@,
{
    let mut v = chars_of(a);
    let mut w = chars_of(b);
    v.append(&mut w);
    string_from_chars(&v)
}

} // verus!
