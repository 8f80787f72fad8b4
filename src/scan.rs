use vstd::prelude::*;

use crate::kind::SyntaxKind;

verus! {

pub open spec fn is_digit(c: char) -> bool {
    '0' <= c && c <= '9'
}

pub open spec fn is_hex_digit(c: char) -> bool {
    ('0' <= c && c <= '9') || ('a' <= c && c <= 'f') || ('A' <= c && c <= 'F')
}

/// Space, tab, newline and form feed.
pub open spec fn is_ws_char(c: char) -> bool {
    c == ' ' || c == '\t' || c == '\n' || c == '\x0c'
}

/// The characters that may follow a backslash on their own in a string.
pub open spec fn is_simple_escape(c: char) -> bool {
    c == '"' || c == '\\' || c == '/' || c == 'b' || c == 'f' || c == 'n' || c == 'r' || c == 't'
}

/// How many digits stand in a row from index `i` of `s`.
pub open spec fn digit_run(s: Seq<char>, i: int) -> nat
    decreases s.len() - i,
{
    if 0 <= i < s.len() && is_digit(s[i]) {
        1 + digit_run(s, i + 1)
    } else {
        0
    }
}

/// How many whitespace characters stand in a row from index `i` of `s`.
pub open spec fn ws_run(s: Seq<char>, i: int) -> nat
    decreases s.len() - i,
{
    if 0 <= i < s.len() && is_ws_char(s[i]) {
        1 + ws_run(s, i + 1)
    } else {
        0
    }
}

/// The end of the integer part of a number that starts at `i`: `0`, or a digit run
/// that starts with a non-zero digit; `-1` where there is none.
pub open spec fn int_part_end(s: Seq<char>, i: int) -> int {
    if 0 <= i < s.len() && s[i] == '0' {
        i + 1
    } else if 0 <= i < s.len() && '1' <= s[i] && s[i] <= '9' {
        i + 1 + digit_run(s, i + 1)
    } else {
        -1
    }
}

/// The end of an optional fraction (a dot and at least one digit) from `i`.
pub open spec fn frac_end(s: Seq<char>, i: int) -> int {
    if 0 <= i && i + 1 < s.len() && s[i] == '.' && is_digit(s[i + 1]) {
        i + 1 + digit_run(s, i + 1)
    } else {
        i
    }
}

/// Where the digits of an exponent would start, after `e` or `E` and an optional sign.
pub open spec fn exp_digits_start(s: Seq<char>, i: int) -> int {
    if i + 1 < s.len() && (s[i + 1] == '+' || s[i + 1] == '-') {
        i + 2
    } else {
        i + 1
    }
}

/// The end of an optional exponent from `i`.
pub open spec fn exp_end(s: Seq<char>, i: int) -> int {
    let j = exp_digits_start(s, i);
    if 0 <= i < s.len() && (s[i] == 'e' || s[i] == 'E') && j < s.len() && is_digit(s[j]) {
        j + digit_run(s, j)
    } else {
        i
    }
}

/// The length of the longest number at index `i`, 0 where none starts there.
pub open spec fn number_len(s: Seq<char>, i: int) -> int {
    let start = if 0 <= i < s.len() && s[i] == '-' {
        i + 1
    } else {
        i
    };
    let e = int_part_end(s, start);
    if e < 0 {
        0
    } else {
        exp_end(s, frac_end(s, e)) - i
    }
}

/// Whether four hexadecimal digits stand at `i`.
pub open spec fn hex4_at(s: Seq<char>, i: int) -> bool {
    0 <= i && i + 4 <= s.len() && is_hex_digit(s[i]) && is_hex_digit(s[i + 1])
        && is_hex_digit(s[i + 2]) && is_hex_digit(s[i + 3])
}

/// Reading a string body from `i`: the index just past the closing quote, or `-1`
/// where the body breaks off or holds a backslash that starts no escape.
pub open spec fn string_end(s: Seq<char>, i: int) -> int
    decreases s.len() - i,
{
    if i < 0 || i >= s.len() {
        -1
    } else if s[i] == '"' {
        i + 1
    } else if s[i] == '\\' {
        if i + 1 < s.len() && is_simple_escape(s[i + 1]) {
            string_end(s, i + 2)
        } else if i + 1 < s.len() && s[i + 1] == 'u' && hex4_at(s, i + 2) {
            string_end(s, i + 6)
        } else {
            -1
        }
    } else {
        string_end(s, i + 1)
    }
}

/// The length of the string token at `i`, 0 where none starts there.
pub open spec fn string_len(s: Seq<char>, i: int) -> int {
    if 0 <= i < s.len() && s[i] == '"' {
        let e = string_end(s, i + 1);
        if e < 0 {
            0
        } else {
            e - i
        }
    } else {
        0
    }
}

/// Whether the word `w` stands at index `i` of `s`.
pub open spec fn word_at(s: Seq<char>, i: int, w: Seq<char>) -> bool {
    0 <= i && i + w.len() <= s.len() && s.subrange(i, i + w.len()) == w
}

/// The kind of a one-character punctuation token.
pub open spec fn punct_kind(c: char) -> Option<SyntaxKind> {
    if c == '{' {
        Some(SyntaxKind::LeftBrace)
    } else if c == '}' {
        Some(SyntaxKind::RightBrace)
    } else if c == ':' {
        Some(SyntaxKind::Colon)
    } else if c == ',' {
        Some(SyntaxKind::Comma)
    } else if c == '[' {
        Some(SyntaxKind::LeftBracket)
    } else if c == ']' {
        Some(SyntaxKind::RightBracket)
    } else {
        None
    }
}

/// The token that starts at index `i` of `s` (with `i < s.len()`): its kind and its
/// length.  Each text matches at most one rule, so the longest match is unique; where
/// no rule matches, one character becomes an `Error` token.
pub open spec fn scan_at(s: Seq<char>, i: int) -> (SyntaxKind, int) {
    if punct_kind(s[i]) is Some {
        (punct_kind(s[i])->0, 1)
    } else if word_at(s, i, seq!['t', 'r', 'u', 'e']) {
        (SyntaxKind::True, 4)
    } else if word_at(s, i, seq!['f', 'a', 'l', 's', 'e']) {
        (SyntaxKind::False, 5)
    } else if word_at(s, i, seq!['n', 'u', 'l', 'l']) {
        (SyntaxKind::Null, 4)
    } else if string_len(s, i) > 0 {
        (SyntaxKind::String, string_len(s, i))
    } else if number_len(s, i) > 0 {
        (SyntaxKind::Number, number_len(s, i))
    } else if is_ws_char(s[i]) {
        (SyntaxKind::Whitespace, ws_run(s, i) as int)
    } else {
        (SyntaxKind::Error, 1)
    }
}


proof fn lemma_digit_run_bound(s: Seq<char>, i: int)
    requires
        0 <= i <= s.len(),
    ensures
        i + digit_run(s, i) <= s.len(),
    decreases s.len() - i,
{
    if i < s.len() && is_digit(s[i]) {
        lemma_digit_run_bound(s, i + 1);
    }
}

proof fn lemma_ws_run_bound(s: Seq<char>, i: int)
    requires
        0 <= i <= s.len(),
    ensures
        i + ws_run(s, i) <= s.len(),
    decreases s.len() - i,
{
    if i < s.len() && is_ws_char(s[i]) {
        lemma_ws_run_bound(s, i + 1);
    }
}

proof fn lemma_string_end_bound(s: Seq<char>, i: int)
    requires
        0 <= i,
    ensures
        string_end(s, i) == -1 || (i < string_end(s, i) <= s.len()),
    decreases s.len() - i,
{
    if i < s.len() && s[i] != '"' {
        if s[i] == '\\' {
            if i + 1 < s.len() && is_simple_escape(s[i + 1]) {
                lemma_string_end_bound(s, i + 2);
            } else if i + 1 < s.len() && s[i + 1] == 'u' && hex4_at(s, i + 2) {
                lemma_string_end_bound(s, i + 6);
            }
        } else {
            lemma_string_end_bound(s, i + 1);
        }
    }
}

/// Every token found by `scan_at` is at least one character long and ends within
/// the text.
pub proof fn lemma_scan_bounds(s: Seq<char>, i: int)
    requires
        0 <= i < s.len(),
    ensures
        1 <= scan_at(s, i).1,
        i + scan_at(s, i).1 <= s.len(),
{
    lemma_string_end_bound(s, i + 1);
    let start = if s[i] == '-' {
        i + 1
    } else {
        i
    };
    if 0 <= start + 1 <= s.len() {
        lemma_digit_run_bound(s, start + 1);
    }
    let e = int_part_end(s, start);
    if e >= 0 {
        let f = frac_end(s, e);
        if 0 <= e && e + 1 < s.len() && s[e] == '.' && is_digit(s[e + 1]) {
            lemma_digit_run_bound(s, e + 1);
        }
        let j = exp_digits_start(s, f);
        if 0 <= j <= s.len() {
            lemma_digit_run_bound(s, j);
        }
    }
    lemma_ws_run_bound(s, i);
}

fn is_digit_char(c: char) -> (r: bool)
    ensures
        r == is_digit(c),
{
    '0' <= c && c <= '9'
}

fn is_hex_char(c: char) -> (r: bool)
    ensures
        r == is_hex_digit(c),
{
    ('0' <= c && c <= '9') || ('a' <= c && c <= 'f') || ('A' <= c && c <= 'F')
}

fn is_ws(c: char) -> (r: bool)
    ensures
        r == is_ws_char(c),
{
    c == ' ' || c == '\t' || c == '\n' || c == '\x0c'
}

/// The index just past the digit run that starts at `i`.
fn skip_digits(s: &Vec<char>, i: usize) -> (r: usize)
    requires
        i <= s@.len(),
    ensures
        r == i + digit_run(s@, i as int),
        r <= s@.len(),
{
    let mut j: usize = i;
    while j < s.len() && is_digit_char(s[j])
        invariant
            i <= j <= s@.len(),
            i + digit_run(s@, i as int) == j + digit_run(s@, j as int),
        decreases s@.len() - j,
    {
        j = j + 1;
    }
    j
}

/// The index just past the whitespace run that starts at `i`.
fn skip_ws(s: &Vec<char>, i: usize) -> (r: usize)
    requires
        i <= s@.len(),
    ensures
        r == i + ws_run(s@, i as int),
        r <= s@.len(),
{
    let mut j: usize = i;
    while j < s.len() && is_ws(s[j])
        invariant
            i <= j <= s@.len(),
            i + ws_run(s@, i as int) == j + ws_run(s@, j as int),
        decreases s@.len() - j,
    {
        j = j + 1;
    }
    j
}

/// The length of the number at `i`, 0 where none starts there.
fn scan_number(s: &Vec<char>, i: usize) -> (r: usize)
    requires
        i < s@.len(),
    ensures
        r == number_len(s@, i as int),
        i + r <= s@.len(),
{
    let n = s.len();
    let start: usize = if s[i] == '-' { i + 1 } else { i };
    let int_end: usize;
    if start < n && s[start] == '0' {
        int_end = start + 1;
    } else if start < n && '1' <= s[start] && s[start] <= '9' {
        int_end = skip_digits(s, start + 1);
    } else {
        return 0;
    }
    let frac: usize = if int_end < n && int_end + 1 < n && s[int_end] == '.' && is_digit_char(s[int_end + 1]) {
        skip_digits(s, int_end + 1)
    } else {
        int_end
    };
    let mut end: usize = frac;
    if frac < n && (s[frac] == 'e' || s[frac] == 'E') {
        let j: usize = if frac + 1 < n && (s[frac + 1] == '+' || s[frac + 1] == '-') {
            frac + 2
        } else {
            frac + 1
        };
        if j < n && is_digit_char(s[j]) {
            end = skip_digits(s, j);
        }
    }
    end - i
}

/// The length of the string token at `i`, 0 where none starts there.
fn scan_string(s: &Vec<char>, i: usize) -> (r: usize)
    requires
        i < s@.len(),
    ensures
        r == string_len(s@, i as int),
        i + r <= s@.len(),
{
    if s[i] != '"' {
        return 0;
    }
    let n = s.len();
    let mut j: usize = i + 1;
    while j < n
        invariant
            n == s@.len(),
            i < j <= n,
            string_end(s@, i + 1) == string_end(s@, j as int),
            s@[i as int] == '"',
        decreases n - j,
    {
        let c = s[j];
        if c == '"' {
            return j + 1 - i;
        } else if c == '\\' {
            if j + 1 < n && (s[j + 1] == '"' || s[j + 1] == '\\' || s[j + 1] == '/' || s[j + 1] == 'b'
                || s[j + 1] == 'f' || s[j + 1] == 'n' || s[j + 1] == 'r' || s[j + 1] == 't') {
                j = j + 2;
            } else if n - j > 5 && s[j + 1] == 'u' && is_hex_char(s[j + 2]) && is_hex_char(s[j + 3])
                && is_hex_char(s[j + 4]) && is_hex_char(s[j + 5]) {
                j = j + 6;
            } else {
                return 0;
            }
        } else {
            j = j + 1;
        }
    }
    assert(string_end(s@, n as int) == -1);
    0
}

/// Whether the characters of `w` stand at index `i` of `s`.
fn word_at_exec(s: &Vec<char>, i: usize, w: &[char]) -> (r: bool)
    requires
        i <= s@.len(),
    ensures
        r == word_at(s@, i as int, w@),
{
    if w.len() > s.len() - i {
        return false;
    }
    let n = s.len();
    let mut k: usize = 0;
    while k < w.len()
        invariant
            n == s@.len(),
            i + w@.len() <= s@.len(),
            k <= w@.len(),
            w.len() == w@.len(),
            forall|m: int| 0 <= m < k ==> s@[i + m] == w@[m],
        decreases w@.len() - k,
    {
        if s[i + k] != w[k] {
            assert(s@.subrange(i as int, i + w@.len())[k as int] != w@[k as int]);
            return false;
        }
        k = k + 1;
    }
    assert(s@.subrange(i as int, i + w@.len()) =~= w@);
    true
}

/// The kind and length of the token at index `i`: the longest match of the token
/// rules, or one character of `Error` where none matches.
pub fn scan(s: &Vec<char>, i: usize) -> (r: (SyntaxKind, usize))
    requires
        i < s@.len(),
    ensures
        r.0 == scan_at(s@, i as int).0,
        r.1 == scan_at(s@, i as int).1,
        1 <= r.1,
        i + r.1 <= s@.len(),
{
    let c = s[i];
    if c == '{' {
        return (SyntaxKind::LeftBrace, 1);
    } else if c == '}' {
        return (SyntaxKind::RightBrace, 1);
    } else if c == ':' {
        return (SyntaxKind::Colon, 1);
    } else if c == ',' {
        return (SyntaxKind::Comma, 1);
    } else if c == '[' {
        return (SyntaxKind::LeftBracket, 1);
    } else if c == ']' {
        return (SyntaxKind::RightBracket, 1);
    }
    let w_true: [char; 4] = ['t', 'r', 'u', 'e'];
    let w_false: [char; 5] = ['f', 'a', 'l', 's', 'e'];
    let w_null: [char; 4] = ['n', 'u', 'l', 'l'];
    assert(w_true@ =~= seq!['t', 'r', 'u', 'e']);
    assert(w_false@ =~= seq!['f', 'a', 'l', 's', 'e']);
    assert(w_null@ =~= seq!['n', 'u', 'l', 'l']);
    if word_at_exec(s, i, &w_true) {
        return (SyntaxKind::True, 4);
    }
    if word_at_exec(s, i, &w_false) {
        return (SyntaxKind::False, 5);
    }
    if word_at_exec(s, i, &w_null) {
        return (SyntaxKind::Null, 4);
    }
    let sl = scan_string(s, i);
    if sl > 0 {
        return (SyntaxKind::String, sl);
    }
    let nl = scan_number(s, i);
    if nl > 0 {
        return (SyntaxKind::Number, nl);
    }
    if is_ws(c) {
        let e = skip_ws(s, i);
        return (SyntaxKind::Whitespace, e - i);
    }
    (SyntaxKind::Error, 1)
}

} // verus!
