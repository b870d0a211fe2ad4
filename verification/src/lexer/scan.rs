//! Recognizing one token at a position of the source: the longest match among
//! the token patterns, a fixed token winning over a word of the same length.

use vstd::prelude::*;
use super::{keyword_kind, keyword_type, kind_text, TokenKind};
use crate::text::push_char;

verus! {

/// The classes of characters that make up runs.
#[derive(Clone, Copy, PartialEq, Eq, Structural)]
pub enum RunClass {
    /// Blanks other than line breaks: space, tab, carriage return, form feed
    Space,
    /// Letters, digits and underscores
    Word,
    /// Decimal digits and underscores
    DecimalDigits,
    /// Hexadecimal digits and underscores
    HexDigits,
    /// Binary digits and underscores
    BinaryDigits,
    /// Anything but a line break
    LineRest,
}

pub open spec fn is_digit(c: char) -> bool {
    '0' <= c <= '9'
}

pub open spec fn is_hex_digit(c: char) -> bool {
    is_digit(c) || 'a' <= c <= 'f' || 'A' <= c <= 'F'
}

pub open spec fn is_binary_digit(c: char) -> bool {
    c == '0' || c == '1'
}

pub open spec fn is_word_start(c: char) -> bool {
    'a' <= c <= 'z' || 'A' <= c <= 'Z' || c == '_'
}

/// Whether a character belongs to a class.
pub open spec fn in_class(c: char, cls: RunClass) -> bool {
    match cls {
        RunClass::Space => c == ' ' || c == '\t' || c == '\r' || c == '\x0C',
        RunClass::Word => is_word_start(c) || is_digit(c),
        RunClass::DecimalDigits => is_digit(c) || c == '_',
        RunClass::HexDigits => is_hex_digit(c) || c == '_',
        RunClass::BinaryDigits => is_binary_digit(c) || c == '_',
        RunClass::LineRest => c != '\n',
    }
}

/// The number of characters of a class from position `i` on.
pub open spec fn run_len(src: Seq<char>, i: int, cls: RunClass) -> nat
    decreases src.len() - i,
{
    if 0 <= i < src.len() && in_class(src[i], cls) {
        1 + run_len(src, i + 1, cls)
    } else {
        0
    }
}

/// The character at a position, or a NUL past the end.
pub open spec fn at(src: Seq<char>, i: int) -> char {
    if 0 <= i < src.len() {
        src[i]
    } else {
        '\0'
    }
}

/// The value of a digit character.
pub open spec fn digit_value(c: char) -> nat {
    if is_digit(c) {
        (c as nat - '0' as nat) as nat
    } else if 'a' <= c <= 'f' {
        (c as nat - 'a' as nat + 10) as nat
    } else {
        (c as nat - 'A' as nat + 10) as nat
    }
}

/// The value of digits in a radix, underscores ignored.
pub open spec fn digits_value(s: Seq<char>, radix: nat) -> nat
    decreases s.len(),
{
    if s.len() == 0 {
        0
    } else if s.last() == '_' {
        digits_value(s.drop_last(), radix)
    } else {
        digits_value(s.drop_last(), radix) * radix + digit_value(s.last())
    }
}

/// The characters without underscores.
pub open spec fn without_underscores(s: Seq<char>) -> Seq<char>
    decreases s.len(),
{
    if s.len() == 0 {
        s
    } else if s.last() == '_' {
        without_underscores(s.drop_last())
    } else {
        without_underscores(s.drop_last()).push(s.last())
    }
}

/// Where a string literal whose contents start at `j` is closed: the position of
/// the closing quote; a backslash takes the next character along, unless that is
/// a line break.
pub open spec fn string_close(src: Seq<char>, j: int) -> Option<int>
    decreases src.len() - j,
{
    if j < 0 || j >= src.len() {
        None
    } else if src[j] == '"' {
        Some(j)
    } else if src[j] == '\\' {
        if j + 1 < src.len() && src[j + 1] != '\n' {
            string_close(src, j + 2)
        } else {
            None
        }
    } else {
        string_close(src, j + 1)
    }
}

/// Where a block comment whose body starts at `j` ends (just past its closing
/// `*/`). `star` says that the previous character was a `*` that may close it. A
/// `*` pairs with the next character unless that is `/`, so a `**/` does not
/// close the comment.
pub open spec fn block_close(src: Seq<char>, j: int, star: bool) -> Option<int>
    decreases src.len() - j,
{
    if j < 0 || j >= src.len() {
        None
    } else if star {
        if src[j] == '/' {
            Some(j + 1)
        } else {
            block_close(src, j + 1, false)
        }
    } else {
        block_close(src, j + 1, src[j] == '*')
    }
}

/// What a position of the source starts.
pub enum Scanned {
    /// Blanks or a comment of this many characters, skipped
    Skip(nat),
    /// A line break
    Newline,
    /// A fixed token of this many characters
    Fixed(TokenKind, nat),
    /// An identifier
    Word(Seq<char>),
    /// An integer literal of this many characters
    Int(i64, nat),
    /// A floating-point literal (its digits without underscores) of this many
    /// characters
    Float(Seq<char>, nat),
    /// A string literal (its contents) of this many characters
    Str(Seq<char>, nat),
    /// Characters that form no token
    Bad(nat),
}

/// The length of what was scanned.
pub open spec fn scanned_len(s: Scanned) -> nat {
    match s {
        Scanned::Skip(n) => n,
        Scanned::Newline => 1,
        Scanned::Fixed(_, n) => n,
        Scanned::Word(w) => w.len(),
        Scanned::Int(_, n) => n,
        Scanned::Float(_, n) => n,
        Scanned::Str(_, n) => n,
        Scanned::Bad(n) => n,
    }
}

/// An integer literal of `n` characters with value `v`, or no token when the
/// value does not fit an `i64`.
pub open spec fn int_or_bad(v: nat, n: nat) -> Scanned {
    if v <= i64::MAX {
        Scanned::Int(v as i64, n)
    } else {
        Scanned::Bad(n)
    }
}

/// A number at position `i` (which holds a digit): hexadecimal (`0x`), binary
/// (`0b`), floating-point (digits, a point, digits) or decimal.
pub open spec fn scan_number(src: Seq<char>, i: int) -> Scanned {
    if src[i] == '0' && (at(src, i + 1) == 'x' || at(src, i + 1) == 'X') && is_hex_digit(
        at(src, i + 2),
    ) {
        let n = 2 + run_len(src, i + 2, RunClass::HexDigits);
        int_or_bad(digits_value(src.subrange(i + 2, i + n), 16), n)
    } else if src[i] == '0' && (at(src, i + 1) == 'b' || at(src, i + 1) == 'B') && is_binary_digit(
        at(src, i + 2),
    ) {
        let n = 2 + run_len(src, i + 2, RunClass::BinaryDigits);
        int_or_bad(digits_value(src.subrange(i + 2, i + n), 2), n)
    } else {
        let d = run_len(src, i, RunClass::DecimalDigits);
        if at(src, i + d) == '.' && is_digit(at(src, i + d + 1)) {
            let n = d + 1 + run_len(src, i + d + 1, RunClass::DecimalDigits);
            Scanned::Float(without_underscores(src.subrange(i, i + n)), n)
        } else {
            int_or_bad(digits_value(src.subrange(i, i + d), 10), d)
        }
    }
}

/// A token that starts with `.`.
pub open spec fn scan_dot(src: Seq<char>, i: int) -> Scanned {
    let c1 = at(src, i + 1);
    let c2 = at(src, i + 2);
    if c2 == '=' && (c1 == '=' || c1 == '!' || c1 == '<' || c1 == '>') {
        Scanned::Fixed(
            if c1 == '=' {
                TokenKind::DotEqual
            } else if c1 == '!' {
                TokenKind::DotNotEqual
            } else if c1 == '<' {
                TokenKind::DotLessEqual
            } else {
                TokenKind::DotGreaterEqual
            },
            3,
        )
    } else if c1 == '+' {
        Scanned::Fixed(TokenKind::DotAdd, 2)
    } else if c1 == '-' {
        Scanned::Fixed(TokenKind::DotSubtract, 2)
    } else if c1 == '*' {
        Scanned::Fixed(TokenKind::DotMultiply, 2)
    } else if c1 == '/' {
        Scanned::Fixed(TokenKind::DotDivide, 2)
    } else if c1 == '&' {
        Scanned::Fixed(TokenKind::DotAnd, 2)
    } else if c1 == '|' {
        Scanned::Fixed(TokenKind::DotOr, 2)
    } else if c1 == '^' {
        Scanned::Fixed(TokenKind::DotXor, 2)
    } else if c1 == '<' {
        Scanned::Fixed(TokenKind::DotLess, 2)
    } else if c1 == '>' {
        Scanned::Fixed(TokenKind::DotGreater, 2)
    } else {
        Scanned::Fixed(TokenKind::Dot, 1)
    }
}

/// A token of one character, or of two when the second completes a longer one.
pub open spec fn scan_operator(src: Seq<char>, i: int) -> Scanned {
    let c = src[i];
    let c1 = at(src, i + 1);
    if c == '+' {
        if c1 == '=' {
            Scanned::Fixed(TokenKind::PlusAssign, 2)
        } else {
            Scanned::Fixed(TokenKind::Plus, 1)
        }
    } else if c == '-' {
        if c1 == '=' {
            Scanned::Fixed(TokenKind::MinusAssign, 2)
        } else if c1 == '>' {
            Scanned::Fixed(TokenKind::Arrow, 2)
        } else {
            Scanned::Fixed(TokenKind::Minus, 1)
        }
    } else if c == '*' {
        if c1 == '=' {
            Scanned::Fixed(TokenKind::StarAssign, 2)
        } else {
            Scanned::Fixed(TokenKind::Star, 1)
        }
    } else if c == '%' {
        Scanned::Fixed(TokenKind::Percent, 1)
    } else if c == '=' {
        if c1 == '=' {
            Scanned::Fixed(TokenKind::Equal, 2)
        } else if c1 == '>' {
            Scanned::Fixed(TokenKind::FatArrow, 2)
        } else {
            Scanned::Fixed(TokenKind::Assign, 1)
        }
    } else if c == '!' {
        if c1 == '=' {
            Scanned::Fixed(TokenKind::NotEqual, 2)
        } else {
            Scanned::Fixed(TokenKind::Not, 1)
        }
    } else if c == '<' {
        if c1 == '=' {
            Scanned::Fixed(TokenKind::LessEqual, 2)
        } else {
            Scanned::Fixed(TokenKind::Less, 1)
        }
    } else if c == '>' {
        if c1 == '=' {
            Scanned::Fixed(TokenKind::GreaterEqual, 2)
        } else {
            Scanned::Fixed(TokenKind::Greater, 1)
        }
    } else if c == '&' {
        if c1 == '&' {
            Scanned::Fixed(TokenKind::And, 2)
        } else {
            Scanned::Fixed(TokenKind::Ampersand, 1)
        }
    } else if c == '|' {
        if c1 == '|' {
            Scanned::Fixed(TokenKind::Or, 2)
        } else {
            Scanned::Bad(1)
        }
    } else if c == ':' {
        if c1 == ':' {
            Scanned::Fixed(TokenKind::DoubleColon, 2)
        } else {
            Scanned::Fixed(TokenKind::Colon, 1)
        }
    } else if c == '(' {
        Scanned::Fixed(TokenKind::LeftParen, 1)
    } else if c == ')' {
        Scanned::Fixed(TokenKind::RightParen, 1)
    } else if c == '{' {
        Scanned::Fixed(TokenKind::LeftBrace, 1)
    } else if c == '}' {
        Scanned::Fixed(TokenKind::RightBrace, 1)
    } else if c == '[' {
        Scanned::Fixed(TokenKind::LeftBracket, 1)
    } else if c == ']' {
        Scanned::Fixed(TokenKind::RightBracket, 1)
    } else if c == ',' {
        Scanned::Fixed(TokenKind::Comma, 1)
    } else if c == ';' {
        Scanned::Fixed(TokenKind::Semicolon, 1)
    } else if c == '@' {
        Scanned::Fixed(TokenKind::At, 1)
    } else {
        Scanned::Bad(1)
    }
}

/// What position `i` of the source starts: blanks, a line break, a word (a
/// keyword or type name when it spells one, else an identifier), a number, a
/// string literal, a comment, a `/`, a token starting with `.`, another
/// operator or delimiter, or a character that starts no token.
pub open spec fn scan(src: Seq<char>, i: int) -> Scanned {
    let c = src[i];
    if in_class(c, RunClass::Space) {
        Scanned::Skip(run_len(src, i, RunClass::Space))
    } else if c == '\n' {
        Scanned::Newline
    } else if is_word_start(c) {
        let w = src.subrange(i, i + run_len(src, i, RunClass::Word));
        match keyword_kind(w) {
            Some(k) => Scanned::Fixed(k, w.len()),
            None => Scanned::Word(w),
        }
    } else if is_digit(c) {
        scan_number(src, i)
    } else if c == '"' {
        match string_close(src, i + 1) {
            Some(e) => Scanned::Str(src.subrange(i + 1, e), (e + 1 - i) as nat),
            None => Scanned::Bad(1),
        }
    } else if c == '/' {
        if at(src, i + 1) == '/' {
            Scanned::Skip(2 + run_len(src, i + 2, RunClass::LineRest))
        } else if at(src, i + 1) == '*' && block_close(src, i + 2, false) is Some {
            Scanned::Skip((block_close(src, i + 2, false)->Some_0 - i) as nat)
        } else if at(src, i + 1) == '=' {
            Scanned::Fixed(TokenKind::SlashAssign, 2)
        } else {
            Scanned::Fixed(TokenKind::Slash, 1)
        }
    } else if c == '.' {
        scan_dot(src, i)
    } else {
        scan_operator(src, i)
    }
}

/// What an executable scan found.
pub enum Scan {
    Skip(usize),
    Newline,
    Token(TokenKind, usize),
    Bad(usize),
}

/// An executable scan agrees with the specified one.
pub open spec fn scan_agrees(r: Scan, s: Scanned) -> bool {
    match s {
        Scanned::Skip(n) => r matches Scan::Skip(m) && m == n,
        Scanned::Newline => r is Newline,
        Scanned::Fixed(k, n) => r matches Scan::Token(k2, m) && k2 == k && m == n,
        Scanned::Word(w) => r matches Scan::Token(k2, m) && m == w.len() && (k2 matches TokenKind::Identifier(t) && t@ == w),
        Scanned::Int(v, n) => r matches Scan::Token(k2, m) && m == n && k2 == TokenKind::Integer(v),
        Scanned::Float(t, n) => r matches Scan::Token(k2, m) && m == n && (k2 matches TokenKind::Float(x) && x@ == t),
        Scanned::Str(t, n) => r matches Scan::Token(k2, m) && m == n && (k2 matches TokenKind::StringLiteral(x) && x@ == t),
        Scanned::Bad(n) => r matches Scan::Bad(m) && m == n,
    }
}

/// A word that spells a keyword or a type name is that token's text.
proof fn lemma_keyword_spelling(w: Seq<char>)
    ensures
        keyword_kind(w) matches Some(k) ==> kind_text(k) == w,
{
}

/// An operator or delimiter read at position `i` is written there as its
/// kind's text.
proof fn lemma_operator_spelling(src: Seq<char>, i: int)
    requires
        0 <= i < src.len(),
    ensures
        scan_operator(src, i) matches Scanned::Fixed(k, n) ==> i + n <= src.len()
            && src.subrange(i, i + n) =~= kind_text(k),
        src[i] == '.' ==> (scan_dot(src, i) matches Scanned::Fixed(k, n) ==> i + n <= src.len()
            && src.subrange(i, i + n) =~= kind_text(k)),
{
    reveal_strlit("+");
    reveal_strlit("-");
    reveal_strlit("*");
    reveal_strlit("%");
    reveal_strlit("=");
    reveal_strlit("!");
    reveal_strlit("<");
    reveal_strlit(">");
    reveal_strlit("&");
    reveal_strlit(":");
    reveal_strlit("(");
    reveal_strlit(")");
    reveal_strlit("{");
    reveal_strlit("}");
    reveal_strlit("[");
    reveal_strlit("]");
    reveal_strlit(",");
    reveal_strlit(";");
    reveal_strlit("@");
    reveal_strlit("/");
    reveal_strlit(".");
    reveal_strlit("+=");
    reveal_strlit("-=");
    reveal_strlit("->");
    reveal_strlit("*=");
    reveal_strlit("==");
    reveal_strlit("=>");
    reveal_strlit("!=");
    reveal_strlit("<=");
    reveal_strlit(">=");
    reveal_strlit("&&");
    reveal_strlit("||");
    reveal_strlit("::");
    reveal_strlit("/=");
    reveal_strlit(".+");
    reveal_strlit(".-");
    reveal_strlit(".*");
    reveal_strlit("./");
    reveal_strlit(".&");
    reveal_strlit(".|");
    reveal_strlit(".^");
    reveal_strlit(".<");
    reveal_strlit(".>");
    reveal_strlit(".==");
    reveal_strlit(".!=");
    reveal_strlit(".<=");
    reveal_strlit(".>=");
}

/// What the lexer reads at a position is the text there: an identifier is the
/// word written there and spells no keyword or type name; a string literal is
/// what stands between the quotes it starts and ends with; a line break is a
/// line break; blanks and comments skipped start with a blank or a `/`.
pub proof fn lemma_scanned_tokens_are_their_text(src: Seq<char>, i: int)
    requires
        0 <= i < src.len(),
    ensures
        scan(src, i) matches Scanned::Word(w) ==> w.len() > 0 && i + w.len() <= src.len()
            && src.subrange(i, i + w.len()) == w && keyword_kind(w) is None,
        scan(src, i) matches Scanned::Str(t, n) ==> 2 <= n && i + n <= src.len() && src[i] == '"'
            && src[i + n - 1] == '"' && t == src.subrange(i + 1, i + n - 1),
        scan(src, i) is Newline ==> src[i] == '\n',
        scan(src, i) is Skip ==> in_class(src[i], RunClass::Space) || src[i] == '/',
{
    let c = src[i];
    if is_word_start(c) {
        lemma_run_len(src, i, RunClass::Word);
    } else if c == '"' {
        lemma_string_close(src, i + 1);
    }
}

/// Every fixed token the lexer reads is written in the source exactly as its
/// kind's text: a keyword, type name, operator or delimiter of `n` characters
/// at position `i` is the text `src[i..i + n]` (so `-=` can only be read as the
/// subtracting assignment, `%` only as the remainder operator).
pub proof fn lemma_fixed_tokens_are_spelled_by_their_text(src: Seq<char>, i: int)
    requires
        0 <= i < src.len(),
    ensures
        scan(src, i) matches Scanned::Fixed(k, n) ==> i + n <= src.len() && src.subrange(i, i + n)
            == kind_text(k),
{
    let c = src[i];
    if is_word_start(c) {
        lemma_run_len(src, i, RunClass::Word);
        let w = src.subrange(i, i + run_len(src, i, RunClass::Word));
        lemma_keyword_spelling(w);
    } else if c == '/' {
        reveal_strlit("/=");
        reveal_strlit("/");
        if at(src, i + 1) == '=' {
            assert(src.subrange(i, i + 2) =~= kind_text(TokenKind::SlashAssign));
        } else {
            assert(src.subrange(i, i + 1) =~= kind_text(TokenKind::Slash));
        }
    } else {
        lemma_operator_spelling(src, i);
    }
}

proof fn lemma_run_len(src: Seq<char>, i: int, cls: RunClass)
    requires
        0 <= i <= src.len(),
    ensures
        i + run_len(src, i, cls) <= src.len(),
        forall|k: int| i <= k < i + run_len(src, i, cls) ==> in_class(#[trigger] src[k], cls),
    decreases src.len() - i,
{
    if i < src.len() && in_class(src[i], cls) {
        lemma_run_len(src, i + 1, cls);
    }
}

proof fn lemma_string_close(src: Seq<char>, j: int)
    requires
        0 <= j,
    ensures
        string_close(src, j) matches Some(e) ==> j <= e < src.len() && src[e] == '"',
    decreases src.len() - j,
{
    if 0 <= j < src.len() && src[j] != '"' {
        if src[j] == '\\' {
            if j + 1 < src.len() && src[j + 1] != '\n' {
                lemma_string_close(src, j + 2);
            }
        } else {
            lemma_string_close(src, j + 1);
        }
    }
}

proof fn lemma_block_close(src: Seq<char>, j: int, star: bool)
    requires
        0 <= j,
    ensures
        block_close(src, j, star) matches Some(e) ==> j < e <= src.len(),
    decreases src.len() - j,
{
    if 0 <= j < src.len() {
        if star {
            if src[j] != '/' {
                lemma_block_close(src, j + 1, false);
            }
        } else {
            lemma_block_close(src, j + 1, src[j] == '*');
        }
    }
}

/// Every scan takes at least one character and stays within the source.
pub proof fn lemma_scan_len(src: Seq<char>, i: int)
    requires
        0 <= i < src.len(),
    ensures
        1 <= scanned_len(scan(src, i)),
        i + scanned_len(scan(src, i)) <= src.len(),
{
    lemma_run_len(src, i, RunClass::Space);
    lemma_run_len(src, i, RunClass::Word);
    lemma_run_len(src, i, RunClass::DecimalDigits);
    if i + 2 <= src.len() {
        lemma_run_len(src, i + 2, RunClass::HexDigits);
        lemma_run_len(src, i + 2, RunClass::BinaryDigits);
        lemma_run_len(src, i + 2, RunClass::LineRest);
        lemma_block_close(src, i + 2, false);
    }
    lemma_string_close(src, i + 1);
    let d = run_len(src, i, RunClass::DecimalDigits);
    if i + d + 1 <= src.len() {
        lemma_run_len(src, i + d + 1, RunClass::DecimalDigits);
    }
}

/// Whether a character belongs to a class.
pub fn char_in(c: char, cls: RunClass) -> (b: bool)
    ensures
        b == in_class(c, cls),
{
    match cls {
        RunClass::Space => c == ' ' || c == '\t' || c == '\r' || c == '\x0C',
        RunClass::Word => ('a' <= c && c <= 'z') || ('A' <= c && c <= 'Z') || c == '_' || ('0' <= c
            && c <= '9'),
        RunClass::DecimalDigits => ('0' <= c && c <= '9') || c == '_',
        RunClass::HexDigits => ('0' <= c && c <= '9') || ('a' <= c && c <= 'f') || ('A' <= c && c
            <= 'F') || c == '_',
        RunClass::BinaryDigits => c == '0' || c == '1' || c == '_',
        RunClass::LineRest => c != '\n',
    }
}

/// The character `k` places after position `i`, or a NUL past the end.
pub fn char_at(cs: &Vec<char>, i: usize, k: usize) -> (c: char)
    ensures
        c == at(cs@, i + k),
{
    if k < cs.len() && i < cs.len() - k {
        cs[i + k]
    } else {
        '\0'
    }
}

/// The end of the run of a class that starts at `i`.
pub fn run_end(cs: &Vec<char>, i: usize, cls: RunClass) -> (j: usize)
    requires
        i <= cs@.len(),
    ensures
        j == i + run_len(cs@, i as int, cls),
        j <= cs@.len(),
{
    proof {
        lemma_run_len(cs@, i as int, cls);
    }
    let mut j = i;
    while j < cs.len() && char_in(cs[j], cls)
        invariant
            i <= j <= cs@.len(),
            run_len(cs@, i as int, cls) == (j - i) + run_len(cs@, j as int, cls),
        decreases cs@.len() - j,
    {
        j = j + 1;
    }
    j
}

/// The characters from `from` to `to`, as a string.
pub fn string_between(cs: &Vec<char>, from: usize, to: usize) -> (s: String)
    requires
        from <= to <= cs@.len(),
    ensures
        s@ == cs@.subrange(from as int, to as int),
{
    let mut s = String::new();
    let mut k = from;
    while k < to
        invariant
            from <= k <= to,
            to <= cs@.len(),
            s@ == cs@.subrange(from as int, k as int),
        decreases to - k,
    {
        push_char(&mut s, cs[k]);
        k = k + 1;
        proof {
            assert(s@ =~= cs@.subrange(from as int, k as int));
        }
    }
    s
}

/// The characters from `from` to `to` without underscores, as a string.
pub fn string_without_underscores(cs: &Vec<char>, from: usize, to: usize) -> (s: String)
    requires
        from <= to <= cs@.len(),
    ensures
        s@ == without_underscores(cs@.subrange(from as int, to as int)),
{
    let mut s = String::new();
    let mut k = from;
    proof {
        assert(cs@.subrange(from as int, from as int) =~= Seq::<char>::empty());
    }
    while k < to
        invariant
            from <= k <= to,
            to <= cs@.len(),
            s@ == without_underscores(cs@.subrange(from as int, k as int)),
        decreases to - k,
    {
        proof {
            assert(cs@.subrange(from as int, k + 1).drop_last() =~= cs@.subrange(
                from as int,
                k as int,
            ));
        }
        if cs[k] != '_' {
            push_char(&mut s, cs[k]);
        }
        k = k + 1;
    }
    s
}

/// The value of a digit character.
fn digit_of(c: char) -> (d: u128)
    requires
        is_hex_digit(c),
    ensures
        d == digit_value(c),
        d < 16,
{
    let n = c as u32;
    if '0' <= c && c <= '9' {
        (n - 48) as u128
    } else if 'a' <= c && c <= 'f' {
        (n - 87) as u128
    } else {
        (n - 55) as u128
    }
}

/// The value of the digits from `from` to `to` in a radix, underscores ignored,
/// when it fits an `i64`.
pub fn parse_digits(cs: &Vec<char>, from: usize, to: usize, radix: u128) -> (r: Option<i64>)
    requires
        from <= to <= cs@.len(),
        2 <= radix <= 16,
        forall|k: int| from <= k < to ==> is_hex_digit(#[trigger] cs@[k]) || cs@[k] == '_',
    ensures
        r == (if digits_value(cs@.subrange(from as int, to as int), radix as nat) <= i64::MAX {
            Some(digits_value(cs@.subrange(from as int, to as int), radix as nat) as i64)
        } else {
            None::<i64>
        }),
{
    let mut v: u128 = 0;
    let mut over = false;
    let mut k = from;
    proof {
        assert(cs@.subrange(from as int, from as int) =~= Seq::<char>::empty());
    }
    while k < to
        invariant
            from <= k <= to,
            to <= cs@.len(),
            2 <= radix <= 16,
            forall|k2: int| from <= k2 < to ==> is_hex_digit(#[trigger] cs@[k2]) || cs@[k2] == '_',
            !over ==> v == digits_value(cs@.subrange(from as int, k as int), radix as nat) && v
                <= i64::MAX,
            over ==> digits_value(cs@.subrange(from as int, k as int), radix as nat) > i64::MAX,
        decreases to - k,
    {
        let ghost before = cs@.subrange(from as int, k as int);
        let ghost after = cs@.subrange(from as int, k + 1);
        proof {
            assert(after.drop_last() =~= before);
            assert(after.last() == cs@[k as int]);
        }
        let c = cs[k];
        if c != '_' {
            let d = digit_of(c);
            proof {
                assert(is_hex_digit(cs@[k as int]));
                assert(digits_value(after, radix as nat) == digits_value(before, radix as nat)
                    * radix + digit_value(c));
                assert(digits_value(before, radix as nat) * radix >= digits_value(
                    before,
                    radix as nat,
                )) by (nonlinear_arith)
                    requires
                        radix >= 2,
                ;
            }
            if !over {
                proof {
                    assert(v * radix <= (i64::MAX as u128) * 16) by (nonlinear_arith)
                        requires
                            v <= i64::MAX,
                            radix <= 16,
                    ;
                }
                v = v * radix + d;
                if v > i64::MAX as u128 {
                    over = true;
                }
            }
        }
        k = k + 1;
    }
    if over {
        None
    } else {
        Some(v as i64)
    }
}

/// Where a string literal whose contents start at `j` is closed (see
/// [`string_close`]).
pub fn find_string_close(cs: &Vec<char>, j: usize) -> (r: Option<usize>)
    ensures
        r matches Some(e) ==> string_close(cs@, j as int) == Some(e as int),
        r is None ==> string_close(cs@, j as int) is None,
{
    let mut k = j;
    while k < cs.len()
        invariant
            j <= k,
            string_close(cs@, j as int) == string_close(cs@, k as int),
        decreases cs@.len() - k,
    {
        if cs[k] == '"' {
            return Some(k);
        } else if cs[k] == '\\' {
            if k + 1 < cs.len() && cs[k + 1] != '\n' {
                k = k + 2;
            } else {
                return None;
            }
        } else {
            k = k + 1;
        }
    }
    None
}

/// Where a block comment whose body starts at `j` ends (see [`block_close`]).
pub fn find_block_close(cs: &Vec<char>, j: usize) -> (r: Option<usize>)
    ensures
        r matches Some(e) ==> block_close(cs@, j as int, false) == Some(e as int),
        r is None ==> block_close(cs@, j as int, false) is None,
{
    let mut k = j;
    let mut star = false;
    while k < cs.len()
        invariant
            j <= k,
            block_close(cs@, j as int, false) == block_close(cs@, k as int, star),
        decreases cs@.len() - k,
    {
        if star {
            if cs[k] == '/' {
                return Some(k + 1);
            }
            star = false;
        } else {
            star = cs[k] == '*';
        }
        k = k + 1;
    }
    None
}

/// An integer literal of `n` characters with the parsed value, or no token.
fn int_scan(v: Option<i64>, n: usize) -> (r: Scan)
    ensures
        v matches Some(x) ==> r == Scan::Token(TokenKind::Integer(x), n),
        v is None ==> r == Scan::Bad(n),
{
    match v {
        Some(x) => Scan::Token(TokenKind::Integer(x), n),
        None => Scan::Bad(n),
    }
}

/// Scans a number at `i` (see [`scan_number`]).
fn scan_number_at(cs: &Vec<char>, i: usize) -> (r: Scan)
    requires
        i < cs@.len(),
        is_digit(cs@[i as int]),
    ensures
        scan_agrees(r, scan_number(cs@, i as int)),
{
    assert(cs@.len() == cs.len());
    let c1 = char_at(cs, i, 1);
    let c2 = char_at(cs, i, 2);
    if cs[i] == '0' && (c1 == 'x' || c1 == 'X') && char_in(c2, RunClass::HexDigits) && c2 != '_' {
        let e = run_end(cs, i + 2, RunClass::HexDigits);
        proof {
            lemma_run_len(cs@, i + 2, RunClass::HexDigits);
        }
        let v = parse_digits(cs, i + 2, e, 16);
        int_scan(v, e - i)
    } else if cs[i] == '0' && (c1 == 'b' || c1 == 'B') && (c2 == '0' || c2 == '1') {
        let e = run_end(cs, i + 2, RunClass::BinaryDigits);
        proof {
            lemma_run_len(cs@, i + 2, RunClass::BinaryDigits);
        }
        let v = parse_digits(cs, i + 2, e, 2);
        int_scan(v, e - i)
    } else {
        let d = run_end(cs, i, RunClass::DecimalDigits);
        proof {
            lemma_run_len(cs@, i as int, RunClass::DecimalDigits);
        }
        let p = char_at(cs, d, 0);
        let q = char_at(cs, d, 1);
        if p == '.' && '0' <= q && q <= '9' {
            let e = run_end(cs, d + 1, RunClass::DecimalDigits);
            let text = string_without_underscores(cs, i, e);
            Scan::Token(TokenKind::Float(text), e - i)
        } else {
            let v = parse_digits(cs, i, d, 10);
            int_scan(v, d - i)
        }
    }
}

/// Scans a token that starts with `.` (see [`scan_dot`]).
fn scan_dot_at(cs: &Vec<char>, i: usize) -> (r: Scan)
    requires
        i < cs@.len(),
    ensures
        scan_agrees(r, scan_dot(cs@, i as int)),
{
    let c1 = char_at(cs, i, 1);
    let c2 = char_at(cs, i, 2);
    if c2 == '=' && c1 == '=' {
        Scan::Token(TokenKind::DotEqual, 3)
    } else if c2 == '=' && c1 == '!' {
        Scan::Token(TokenKind::DotNotEqual, 3)
    } else if c2 == '=' && c1 == '<' {
        Scan::Token(TokenKind::DotLessEqual, 3)
    } else if c2 == '=' && c1 == '>' {
        Scan::Token(TokenKind::DotGreaterEqual, 3)
    } else if c1 == '+' {
        Scan::Token(TokenKind::DotAdd, 2)
    } else if c1 == '-' {
        Scan::Token(TokenKind::DotSubtract, 2)
    } else if c1 == '*' {
        Scan::Token(TokenKind::DotMultiply, 2)
    } else if c1 == '/' {
        Scan::Token(TokenKind::DotDivide, 2)
    } else if c1 == '&' {
        Scan::Token(TokenKind::DotAnd, 2)
    } else if c1 == '|' {
        Scan::Token(TokenKind::DotOr, 2)
    } else if c1 == '^' {
        Scan::Token(TokenKind::DotXor, 2)
    } else if c1 == '<' {
        Scan::Token(TokenKind::DotLess, 2)
    } else if c1 == '>' {
        Scan::Token(TokenKind::DotGreater, 2)
    } else {
        Scan::Token(TokenKind::Dot, 1)
    }
}

/// Scans a one- or two-character operator or delimiter (see [`scan_operator`]).
fn scan_operator_at(cs: &Vec<char>, i: usize) -> (r: Scan)
    requires
        i < cs@.len(),
    ensures
        scan_agrees(r, scan_operator(cs@, i as int)),
{
    let c = cs[i];
    let c1 = char_at(cs, i, 1);
    if c == '+' {
        if c1 == '=' {
            Scan::Token(TokenKind::PlusAssign, 2)
        } else {
            Scan::Token(TokenKind::Plus, 1)
        }
    } else if c == '-' {
        if c1 == '=' {
            Scan::Token(TokenKind::MinusAssign, 2)
        } else if c1 == '>' {
            Scan::Token(TokenKind::Arrow, 2)
        } else {
            Scan::Token(TokenKind::Minus, 1)
        }
    } else if c == '*' {
        if c1 == '=' {
            Scan::Token(TokenKind::StarAssign, 2)
        } else {
            Scan::Token(TokenKind::Star, 1)
        }
    } else if c == '%' {
        Scan::Token(TokenKind::Percent, 1)
    } else if c == '=' {
        if c1 == '=' {
            Scan::Token(TokenKind::Equal, 2)
        } else if c1 == '>' {
            Scan::Token(TokenKind::FatArrow, 2)
        } else {
            Scan::Token(TokenKind::Assign, 1)
        }
    } else if c == '!' {
        if c1 == '=' {
            Scan::Token(TokenKind::NotEqual, 2)
        } else {
            Scan::Token(TokenKind::Not, 1)
        }
    } else if c == '<' {
        if c1 == '=' {
            Scan::Token(TokenKind::LessEqual, 2)
        } else {
            Scan::Token(TokenKind::Less, 1)
        }
    } else if c == '>' {
        if c1 == '=' {
            Scan::Token(TokenKind::GreaterEqual, 2)
        } else {
            Scan::Token(TokenKind::Greater, 1)
        }
    } else if c == '&' {
        if c1 == '&' {
            Scan::Token(TokenKind::And, 2)
        } else {
            Scan::Token(TokenKind::Ampersand, 1)
        }
    } else if c == '|' {
        if c1 == '|' {
            Scan::Token(TokenKind::Or, 2)
        } else {
            Scan::Bad(1)
        }
    } else if c == ':' {
        if c1 == ':' {
            Scan::Token(TokenKind::DoubleColon, 2)
        } else {
            Scan::Token(TokenKind::Colon, 1)
        }
    } else if c == '(' {
        Scan::Token(TokenKind::LeftParen, 1)
    } else if c == ')' {
        Scan::Token(TokenKind::RightParen, 1)
    } else if c == '{' {
        Scan::Token(TokenKind::LeftBrace, 1)
    } else if c == '}' {
        Scan::Token(TokenKind::RightBrace, 1)
    } else if c == '[' {
        Scan::Token(TokenKind::LeftBracket, 1)
    } else if c == ']' {
        Scan::Token(TokenKind::RightBracket, 1)
    } else if c == ',' {
        Scan::Token(TokenKind::Comma, 1)
    } else if c == ';' {
        Scan::Token(TokenKind::Semicolon, 1)
    } else if c == '@' {
        Scan::Token(TokenKind::At, 1)
    } else {
        Scan::Bad(1)
    }
}

/// Scans position `i` of the source (see [`scan`]).
pub fn scan_at(cs: &Vec<char>, i: usize) -> (r: Scan)
    requires
        i < cs@.len(),
    ensures
        scan_agrees(r, scan(cs@, i as int)),
{
    let c = cs[i];
    assert(cs@.len() == cs.len());
    if char_in(c, RunClass::Space) {
        let e = run_end(cs, i, RunClass::Space);
        Scan::Skip(e - i)
    } else if c == '\n' {
        Scan::Newline
    } else if ('a' <= c && c <= 'z') || ('A' <= c && c <= 'Z') || c == '_' {
        let e = run_end(cs, i, RunClass::Word);
        let w = string_between(cs, i, e);
        match keyword_type(w.as_str()) {
            Some(k) => Scan::Token(k, e - i),
            None => Scan::Token(TokenKind::Identifier(w), e - i),
        }
    } else if '0' <= c && c <= '9' {
        scan_number_at(cs, i)
    } else if c == '"' {
        proof {
            lemma_string_close(cs@, i + 1);
        }
        match find_string_close(cs, i + 1) {
            Some(e) => Scan::Token(TokenKind::StringLiteral(string_between(cs, i + 1, e)), e + 1 - i),
            None => Scan::Bad(1),
        }
    } else if c == '/' {
        let c1 = char_at(cs, i, 1);
        if c1 == '/' {
            let e = run_end(cs, i + 2, RunClass::LineRest);
            Scan::Skip(e - i)
        } else if c1 == '*' {
            proof {
                lemma_block_close(cs@, i + 2, false);
            }
            match find_block_close(cs, i + 2) {
                Some(e) => Scan::Skip(e - i),
                None => Scan::Token(TokenKind::Slash, 1),
            }
        } else if c1 == '=' {
            Scan::Token(TokenKind::SlashAssign, 2)
        } else {
            Scan::Token(TokenKind::Slash, 1)
        }
    } else if c == '.' {
        scan_dot_at(cs, i)
    } else {
        scan_operator_at(cs, i)
    }
}

} // verus!
