//! A SQL tokenizer over the UTF-8 bytes of the input.
//!
//! The lexical rules are stated as spec functions over the byte sequence of the
//! text (`step`, `lex_all`); the executable tokenizer is proved to follow them.
use vstd::prelude::*;
use vstd::string::*;
use vstd::utf8::*;

use crate::keywords::{keyword_table, keywords};

verus! {

/// A lexical error: where it starts, what it is, and the 1-based line of `location`.
#[derive(Clone, Copy, Debug, PartialEq, Eq)]
pub struct Error {
    pub location: usize,
    pub code: ErrorCode,
    pub line: usize,
}

#[derive(Clone, Copy, Debug, PartialEq, Eq)]
pub enum ErrorCode {
    UnrecognizedToken,
    UnterminatedLiteral,
    UnterminatedBracket,
    UnterminatedBlockComment,
    BadVariableName,
    BadNumber,
    ExpectedEqualsSign,
    MalformedBlobLiteral,
    MalformedHexInteger,
}

/// A value with its start and end byte offsets.
pub type Spanned<T> = (usize, T, usize);

#[derive(Clone, Copy, Debug, PartialEq, Eq)]
pub enum Tok<'a> {
    // Keywords:
    Abort,
    Action,
    Add,
    After,
    All,
    Alter,
    Analyze,
    And,
    As,
    Asc,
    Attach,
    Autoincr,
    Before,
    Begin,
    Between,
    By,
    Cascade,
    Case,
    Cast,
    Check,
    Collate,
    ColumnKw,
    Commit,
    Conflict,
    Constraint,
    Create,
    Cross,
    CurrentDate,
    CurrentTime,
    CurrentTimestamp,
    Database,
    Default,
    Deferrable,
    Deferred,
    Delete,
    Desc,
    Detach,
    Distinct,
    Drop,
    Each,
    Else,
    End,
    Escape,
    Except,
    Exclusive,
    Exists,
    Explain,
    Fail,
    For,
    Foreign,
    From,
    Full,
    Glob,
    Group,
    Having,
    If,
    Ignore,
    Immediate,
    In,
    Index,
    Indexed,
    Initially,
    Inner,
    Insert,
    Instead,
    Intersect,
    Into,
    Is,
    IsNull,
    Join,
    Key,
    Left,
    Like,
    Limit,
    Match,
    Natural,
    No,
    Not,
    NotNull,
    Null,
    Of,
    Offset,
    On,
    Or,
    Order,
    Outer,
    Plan,
    Pragma,
    Primary,
    Query,
    Raise,
    Recursive,
    References,
    Regexp,
    Reindex,
    Release,
    Rename,
    Replace,
    Restrict,
    Right,
    Rollback,
    Row,
    Savepoint,
    Select,
    SetKw,
    Table,
    Temp,
    Then,
    To,
    Transaction,
    Trigger,
    Union,
    Unique,
    Update,
    Using,
    Vacuum,
    Values,
    View,
    Virtual,
    When,
    Where,
    With,
    Without,

    // Identifiers:
    StringLiteral(&'a str),
    Id(&'a str),
    Variable(&'a str),

    // Values:
    Blob(&'a str),
    Integer(&'a str),
    Float(&'a str),

    // Symbols:
    BitAnd,
    BitNot,
    BitOr,
    Comma,
    Concat,
    Dot,
    Equals,
    GreaterThan,
    GreaterEquals,
    LeftParen,
    LeftShift,
    LessEquals,
    LessThan,
    Minus,
    NotEquals,
    Plus,
    Reminder,
    RightParen,
    RightShift,
    Semi,
    Slash,
    Star,
}

// ---------------------------------------------------------------------------
// The lexical rules, over the bytes `b` of the input.
// ---------------------------------------------------------------------------

/// What a token is, with the text of a text-bearing token as bytes of the input.
pub enum Lexeme<'a> {
    /// A keyword or a symbol: a token without text.
    Plain(Tok<'a>),
    StringLiteral(Seq<u8>),
    Id(Seq<u8>),
    Variable(Seq<u8>),
    Blob(Seq<u8>),
    Integer(Seq<u8>),
    Float(Seq<u8>),
}

pub open spec fn lexeme<'a>(t: Tok<'a>) -> Lexeme<'a> {
    match t {
        Tok::StringLiteral(s) => Lexeme::StringLiteral(s.spec_bytes()),
        Tok::Id(s) => Lexeme::Id(s.spec_bytes()),
        Tok::Variable(s) => Lexeme::Variable(s.spec_bytes()),
        Tok::Blob(s) => Lexeme::Blob(s.spec_bytes()),
        Tok::Integer(s) => Lexeme::Integer(s.spec_bytes()),
        Tok::Float(s) => Lexeme::Float(s.spec_bytes()),
        _ => Lexeme::Plain(t),
    }
}

/// One result of the tokenizer, with unshifted offsets.
pub enum Lexed<'a> {
    End,
    Token(int, Lexeme<'a>, int),
    Fail(int, ErrorCode),
}

/// The byte classes that runs are scanned over.
#[derive(Clone, Copy)]
pub enum CharClass {
    Digit,
    HexDigit,
    IdentContinue,
}

pub open spec fn is_digit_byte(c: u8) -> bool {
    48 <= c <= 57
}

pub open spec fn is_hex_digit_byte(c: u8) -> bool {
    is_digit_byte(c) || (65 <= c <= 70) || (97 <= c <= 102)
}

/// ASCII letters, `_`, and every byte of a non-ASCII character.
pub open spec fn is_ident_start_byte(c: u8) -> bool {
    (65 <= c <= 90) || c == 95 || (97 <= c <= 122) || c >= 128
}

pub open spec fn is_ident_continue_byte(c: u8) -> bool {
    c == 36 || is_digit_byte(c) || is_ident_start_byte(c)
}

pub open spec fn class_has(k: CharClass, c: u8) -> bool {
    match k {
        CharClass::Digit => is_digit_byte(c),
        CharClass::HexDigit => is_hex_digit_byte(c),
        CharClass::IdentContinue => is_ident_continue_byte(c),
    }
}

/// The end of the run of class `k` that starts at `i`.
pub open spec fn scan(b: Seq<u8>, i: int, k: CharClass) -> int
    decreases b.len() - i,
{
    if 0 <= i < b.len() && class_has(k, b[i]) {
        scan(b, i + 1, k)
    } else {
        i
    }
}

/// The first index at or after `i` that holds `c`, or the end.
pub open spec fn find(b: Seq<u8>, i: int, c: u8) -> int
    decreases b.len() - i,
{
    if 0 <= i < b.len() && b[i] != c {
        find(b, i + 1, c)
    } else {
        i
    }
}

/// The byte length of the whitespace character at `i`, or 0: the UTF-8 encodings of
/// the Unicode White_Space characters U+0009..U+000D, U+0020, U+0085, U+00A0, U+1680,
/// U+2000..U+200A, U+2028, U+2029, U+202F, U+205F and U+3000.
pub open spec fn space_len(b: Seq<u8>, i: int) -> int {
    if !(0 <= i < b.len()) {
        0
    } else if b[i] == 32 || (9 <= b[i] <= 13) {
        1
    } else if i + 1 < b.len() && b[i] == 0xC2 && (b[i + 1] == 0x85 || b[i + 1] == 0xA0) {
        2
    } else if i + 2 < b.len() && (
        (b[i] == 0xE1 && b[i + 1] == 0x9A && b[i + 2] == 0x80)
        || (b[i] == 0xE2 && b[i + 1] == 0x80 && ((0x80 <= b[i + 2] <= 0x8A) || b[i + 2] == 0xA8
            || b[i + 2] == 0xA9 || b[i + 2] == 0xAF))
        || (b[i] == 0xE2 && b[i + 1] == 0x81 && b[i + 2] == 0x9F)
        || (b[i] == 0xE3 && b[i + 1] == 0x80 && b[i + 2] == 0x80)) {
        3
    } else {
        0
    }
}

pub open spec fn at(b: Seq<u8>, i: int, c: u8) -> bool {
    0 <= i < b.len() && b[i] == c
}

/// The index of the `/` of the first `*/` whose `/` stands at or after `j`, or the end.
pub open spec fn comment_end(b: Seq<u8>, j: int) -> int
    decreases b.len() - j,
{
    if 1 <= j < b.len() && !(b[j - 1] == 42 && b[j] == 47) {
        comment_end(b, j + 1)
    } else {
        j
    }
}

/// The index of the delimiter `d` that closes a quoted run whose text starts at `k`
/// (a doubled delimiter stands for itself), or the end.
pub open spec fn literal_close(b: Seq<u8>, k: int, d: u8) -> int
    decreases b.len() - k,
{
    if !(0 <= k < b.len()) {
        b.len() as int
    } else if b[k] == d {
        if at(b, k + 1, d) {
            literal_close(b, k + 2, d)
        } else {
            k
        }
    } else {
        literal_close(b, k + 1, d)
    }
}

/// Skips whitespace and comments from `i`: `Ok` of where the next token starts, or
/// `Err` of where an unterminated block comment starts.
pub open spec fn skip_trivia(b: Seq<u8>, i: int) -> Result<int, int>
    decreases b.len() - i,
{
    if !(0 <= i < b.len()) {
        Ok(i)
    } else if space_len(b, i) > 0 {
        skip_trivia(b, i + space_len(b, i))
    } else if b[i] == 45 && at(b, i + 1, 45) {
        let j = find(b, i + 2, 10);
        if i < j <= b.len() {
            skip_trivia(b, j)
        } else {
            Ok(i)
        }
    } else if b[i] == 47 && at(b, i + 1, 42) {
        let j = comment_end(b, i + 3);
        if j >= b.len() {
            Err(i)
        } else if i < j {
            skip_trivia(b, j + 1)
        } else {
            Ok(i)
        }
    } else {
        Ok(i)
    }
}

/// `b[i..]` consists only of whitespace characters, line comments and closed block
/// comments.
pub open spec fn only_trivia(b: Seq<u8>, i: int) -> bool
    decreases b.len() - i,
{
    if i >= b.len() {
        true
    } else if i < 0 {
        false
    } else if space_len(b, i) > 0 {
        only_trivia(b, i + space_len(b, i))
    } else if b[i] == 45 && at(b, i + 1, 45) {
        let j = find(b, i + 2, 10);
        i < j <= b.len() && only_trivia(b, j)
    } else if b[i] == 47 && at(b, i + 1, 42) {
        let j = comment_end(b, i + 3);
        i < j < b.len() && only_trivia(b, j + 1)
    } else {
        false
    }
}

pub open spec fn tok_at<'a>(s: int, x: Lexeme<'a>, e: int) -> (Lexed<'a>, int) {
    (Lexed::Token(s, x, e), e)
}

/// A number that runs into an identifier character: the error, and where lexing
/// resumes (past the identifier characters).
pub open spec fn number_tail_error<'a>(b: Seq<u8>, p: int, e: int, code: ErrorCode) -> (Lexed<'a>, int) {
    (Lexed::Fail(p, code), scan(b, e, CharClass::IdentContinue))
}

pub open spec fn ident_start_at(b: Seq<u8>, e: int) -> bool {
    0 <= e < b.len() && is_ident_start_byte(b[e])
}

/// The exponent part of the number at `p`, whose `e` or `E` stands at `x`.
pub open spec fn exponent_part<'a>(b: Seq<u8>, p: int, x: int) -> (Lexed<'a>, int) {
    let s = if at(b, x + 1, 43) || at(b, x + 1, 45) { x + 2 } else { x + 1 };
    let e = scan(b, s, CharClass::Digit);
    if e == s {
        (Lexed::Fail(p, ErrorCode::BadNumber), s)
    } else if ident_start_at(b, e) {
        number_tail_error(b, p, e, ErrorCode::BadNumber)
    } else {
        tok_at(p, Lexeme::Float(b.subrange(p, e)), e)
    }
}

/// The fractional part of the number at `p`, whose digits start at `f`.
pub open spec fn fractional_part<'a>(b: Seq<u8>, p: int, f: int) -> (Lexed<'a>, int) {
    let e = scan(b, f, CharClass::Digit);
    if at(b, e, 101) || at(b, e, 69) {
        exponent_part(b, p, e)
    } else if ident_start_at(b, e) {
        number_tail_error(b, p, e, ErrorCode::BadNumber)
    } else {
        tok_at(p, Lexeme::Float(b.subrange(p, e)), e)
    }
}

/// The hexadecimal integer at `p` (`0x` or `0X` then digits from `p + 2`).
pub open spec fn hex_integer<'a>(b: Seq<u8>, p: int) -> (Lexed<'a>, int) {
    let e = scan(b, p + 2, CharClass::HexDigit);
    if e == p + 2 {
        number_tail_error(b, p, p + 2, ErrorCode::MalformedHexInteger)
    } else if ident_start_at(b, e) {
        number_tail_error(b, p, e, ErrorCode::MalformedHexInteger)
    } else {
        tok_at(p, Lexeme::Integer(b.subrange(p, e)), e)
    }
}

/// The number that starts with the digit at `p`.
pub open spec fn number<'a>(b: Seq<u8>, p: int) -> (Lexed<'a>, int) {
    if b[p] == 48 && (at(b, p + 1, 120) || at(b, p + 1, 88)) {
        hex_integer(b, p)
    } else {
        let e = scan(b, p, CharClass::Digit);
        if at(b, e, 46) {
            fractional_part(b, p, e + 1)
        } else if at(b, e, 101) || at(b, e, 69) {
            exponent_part(b, p, e)
        } else if ident_start_at(b, e) {
            number_tail_error(b, p, e, ErrorCode::BadNumber)
        } else {
            tok_at(p, Lexeme::Integer(b.subrange(p, e)), e)
        }
    }
}

/// The blob literal whose opening quote stands at `q`; its span and its errors start
/// at the quote.
pub open spec fn blob_literal<'a>(b: Seq<u8>, q: int) -> (Lexed<'a>, int) {
    let e = scan(b, q + 1, CharClass::HexDigit);
    if at(b, e, 39) && (e - q - 1) % 2 == 0 {
        tok_at(q, Lexeme::Blob(b.subrange(q + 1, e)), e + 1)
    } else {
        let k = find(b, e, 39);
        (Lexed::Fail(q, ErrorCode::MalformedBlobLiteral), if k < b.len() { k + 1 } else { b.len() as int })
    }
}

pub open spec fn ascii_upper(c: u8) -> u8 {
    if 97 <= c <= 122 {
        (c - 32) as u8
    } else {
        c
    }
}

/// Equal but for the case of ASCII letters.
pub open spec fn eq_ignore_ascii_case(a: Seq<u8>, w: Seq<u8>) -> bool {
    a.len() == w.len() && forall|k: int| 0 <= k < a.len() ==> ascii_upper(a[k]) == ascii_upper(w[k])
}

/// The token of the first keyword from entry `i` of the table that spells `w`.
pub open spec fn keyword_from<'a>(w: Seq<u8>, i: int) -> Option<Tok<'a>>
    decreases keyword_table().len() - i,
{
    if !(0 <= i < keyword_table().len()) {
        None
    } else if eq_ignore_ascii_case(keyword_table()[i].0.spec_bytes(), w) {
        Some(keyword_table()[i].1)
    } else {
        keyword_from(w, i + 1)
    }
}

/// The keyword that `w` spells, letter case aside.
pub open spec fn keyword_of<'a>(w: Seq<u8>) -> Option<Tok<'a>> {
    keyword_from(w, 0)
}

/// The word at `p`: a keyword, else an identifier.
pub open spec fn identifierish<'a>(b: Seq<u8>, p: int) -> (Lexed<'a>, int) {
    let e = scan(b, p, CharClass::IdentContinue);
    match keyword_of(b.subrange(p, e)) {
        Some(t) => tok_at(p, lexeme(t), e),
        None => tok_at(p, Lexeme::Id(b.subrange(p, e)), e),
    }
}

/// The quoted run at `p`: `'...'` is a string literal, `"..."` and `` `...` `` are
/// identifiers; the text keeps doubled delimiters as they stand.
pub open spec fn quoted<'a>(b: Seq<u8>, p: int) -> (Lexed<'a>, int) {
    let k = literal_close(b, p + 1, b[p]);
    if k < b.len() {
        let text = b.subrange(p + 1, k);
        tok_at(p, if b[p] == 39 { Lexeme::StringLiteral(text) } else { Lexeme::Id(text) }, k + 1)
    } else {
        (Lexed::Fail(p, ErrorCode::UnterminatedLiteral), b.len() as int)
    }
}

/// The bracketed identifier at `p`: its text runs to the first `]`.
pub open spec fn bracket<'a>(b: Seq<u8>, p: int) -> (Lexed<'a>, int) {
    let k = find(b, p + 1, 93);
    if k < b.len() {
        tok_at(p, Lexeme::Id(b.subrange(p + 1, k)), k + 1)
    } else {
        (Lexed::Fail(p, ErrorCode::UnterminatedBracket), b.len() as int)
    }
}

/// The variable `?` or `?NNN` at `p`; a bare `?` has empty text.
pub open spec fn numbered_variable<'a>(b: Seq<u8>, p: int) -> (Lexed<'a>, int) {
    let e = scan(b, p + 1, CharClass::Digit);
    if e == p + 1 {
        tok_at(p, Lexeme::Variable(Seq::empty()), p + 1)
    } else {
        tok_at(p, Lexeme::Variable(b.subrange(p, e)), e)
    }
}

/// The variable `$name`, `@name`, `#name` or `:name` at `p`, sigil included.
pub open spec fn named_variable<'a>(b: Seq<u8>, p: int) -> (Lexed<'a>, int) {
    let e = scan(b, p + 1, CharClass::IdentContinue);
    if e == p + 1 {
        (Lexed::Fail(p, ErrorCode::BadVariableName), p + 1)
    } else {
        tok_at(p, Lexeme::Variable(b.subrange(p, e)), e)
    }
}

/// An operator of one byte, or of two when the next byte is `second`.
pub open spec fn one_or_two<'a>(b: Seq<u8>, p: int, second: u8, two: Tok<'a>, one: Tok<'a>) -> (Lexed<'a>, int) {
    if at(b, p + 1, second) {
        tok_at(p, Lexeme::Plain(two), p + 2)
    } else {
        tok_at(p, Lexeme::Plain(one), p + 1)
    }
}

/// The token or error that starts at `p`, a position that is not whitespace or a
/// comment, and where lexing resumes.
pub open spec fn token_at<'a>(b: Seq<u8>, p: int) -> (Lexed<'a>, int) {
    let c = b[p];
    let single = |t: Tok<'a>| tok_at(p, Lexeme::Plain(t), p + 1);
    if c == 45 {
        single(Tok::Minus)
    } else if c == 40 {
        single(Tok::LeftParen)
    } else if c == 41 {
        single(Tok::RightParen)
    } else if c == 59 {
        single(Tok::Semi)
    } else if c == 43 {
        single(Tok::Plus)
    } else if c == 42 {
        single(Tok::Star)
    } else if c == 47 {
        single(Tok::Slash)
    } else if c == 37 {
        single(Tok::Reminder)
    } else if c == 61 {
        one_or_two(b, p, 61, Tok::Equals, Tok::Equals)
    } else if c == 60 {
        if at(b, p + 1, 62) {
            tok_at(p, Lexeme::Plain(Tok::NotEquals), p + 2)
        } else if at(b, p + 1, 60) {
            tok_at(p, Lexeme::Plain(Tok::LeftShift), p + 2)
        } else {
            one_or_two(b, p, 61, Tok::LessEquals, Tok::LessThan)
        }
    } else if c == 62 {
        if at(b, p + 1, 62) {
            tok_at(p, Lexeme::Plain(Tok::RightShift), p + 2)
        } else {
            one_or_two(b, p, 61, Tok::GreaterEquals, Tok::GreaterThan)
        }
    } else if c == 33 {
        if at(b, p + 1, 61) {
            tok_at(p, Lexeme::Plain(Tok::NotEquals), p + 2)
        } else {
            (Lexed::Fail(p, ErrorCode::ExpectedEqualsSign), p + 1)
        }
    } else if c == 124 {
        one_or_two(b, p, 124, Tok::Concat, Tok::BitOr)
    } else if c == 44 {
        single(Tok::Comma)
    } else if c == 38 {
        single(Tok::BitAnd)
    } else if c == 126 {
        single(Tok::BitNot)
    } else if c == 96 || c == 39 || c == 34 {
        quoted(b, p)
    } else if c == 46 {
        if 0 <= p + 1 < b.len() && is_digit_byte(b[p + 1]) {
            fractional_part(b, p, p + 1)
        } else {
            single(Tok::Dot)
        }
    } else if is_digit_byte(c) {
        number(b, p)
    } else if c == 91 {
        bracket(b, p)
    } else if c == 63 {
        numbered_variable(b, p)
    } else if c == 36 || c == 64 || c == 35 || c == 58 {
        named_variable(b, p)
    } else if is_ident_start_byte(c) {
        if (c == 120 || c == 88) && at(b, p + 1, 39) {
            blob_literal(b, p + 1)
        } else {
            identifierish(b, p)
        }
    } else {
        (Lexed::Fail(p, ErrorCode::UnrecognizedToken), p + 1)
    }
}

/// One call of the tokenizer at position `i`: what it yields and where it resumes.
pub open spec fn step<'a>(b: Seq<u8>, i: int) -> (Lexed<'a>, int) {
    match skip_trivia(b, i) {
        Err(p) => (Lexed::Fail(p, ErrorCode::UnterminatedBlockComment), b.len() as int),
        Ok(j) => if j >= b.len() {
            (Lexed::End, j)
        } else {
            token_at(b, j)
        },
    }
}

/// Everything the tokenizer yields from position `i` up to the end.
pub open spec fn lex_all<'a>(b: Seq<u8>, i: int) -> Seq<Lexed<'a>>
    decreases b.len() - i,
{
    let (l, next) = step::<'a>(b, i);
    if l is End || !(i < next <= b.len()) {
        Seq::empty()
    } else {
        seq![l].add(lex_all(b, next))
    }
}

/// The number of newline bytes in `b`.
pub open spec fn newlines(b: Seq<u8>) -> nat
    decreases b.len(),
{
    if b.len() == 0 {
        0
    } else {
        newlines(b.drop_last()) + if b.last() == 10 { 1nat } else { 0nat }
    }
}

/// The 1-based line on which offset `l` of `b` stands.
pub open spec fn line_of(b: Seq<u8>, l: int) -> int {
    newlines(b.subrange(0, l)) + 1int
}

/// `r` is what the tokenizer returns for `l`, with offsets moved by `shift`.
pub open spec fn outcome_is<'a>(r: Option<Result<Spanned<Tok<'a>>, Error>>, l: Lexed<'a>, b: Seq<u8>, shift: int) -> bool {
    match l {
        Lexed::End => r is None,
        Lexed::Token(s, x, e) => match r {
            Some(Ok((s2, t, e2))) => s2 == s + shift && e2 == e + shift && lexeme(t) == x,
            _ => false,
        },
        Lexed::Fail(loc, code) => match r {
            Some(Err(er)) => er.location == loc + shift && er.code == code && er.line == line_of(b, loc),
            _ => false,
        },
    }
}

// ---------------------------------------------------------------------------
// Character boundaries of the input.
// ---------------------------------------------------------------------------

/// Past the character that starts at a boundary `k` there is another boundary.
proof fn lemma_next_boundary(b: Seq<u8>, k: int)
    requires
        valid_utf8(b),
        is_char_boundary(b, k),
        0 <= k < b.len(),
    ensures
        is_char_boundary(b, k + length_of_first_scalar(b.subrange(k, b.len() as int))),
    decreases b.len(),
{
    let n0 = length_of_first_scalar(b);
    let t = pop_first_scalar(b);
    if k == 0 {
        assert(b.subrange(0, b.len() as int) =~= b);
        assert(valid_utf8(t));
        assert(is_char_boundary(t, 0));
    } else {
        assert(valid_utf8(t));
        assert(is_char_boundary(t, k - n0));
        assert(0 <= k - n0 <= t.len());
        assert(t.subrange(k - n0, t.len() as int) =~= b.subrange(k, b.len() as int));
        lemma_next_boundary(t, k - n0);
    }
}

/// An ASCII byte starts a character, and the byte after it does too.
proof fn lemma_ascii_boundary(b: Seq<u8>, k: int)
    requires
        valid_utf8(b),
        0 <= k < b.len(),
        b[k] < 128,
    ensures
        is_char_boundary(b, k),
        is_char_boundary(b, k + 1),
{
    is_char_boundary_iff_not_is_continuation_byte(b, k);
    lemma_next_boundary(b, k);
}

/// The end of the input, and any position that holds an ASCII byte, is a boundary.
proof fn lemma_boundary_before(b: Seq<u8>, k: int)
    requires
        valid_utf8(b),
        0 <= k <= b.len(),
        k == b.len() || b[k] < 128,
    ensures
        is_char_boundary(b, k),
{
    if k == b.len() {
        is_char_boundary_start_end_of_seq(b);
    } else {
        is_char_boundary_iff_not_is_continuation_byte(b, k);
    }
}

// ---------------------------------------------------------------------------
// The tokenizer.
// ---------------------------------------------------------------------------

/// Counts the lines before offset `l` of `t` and builds the error at `l`.
pub fn error<T>(c: ErrorCode, l: usize, t: &str) -> (r: Result<T, Error>)
    requires
        l <= t.spec_bytes().len(),
        l < usize::MAX,
    ensures
        r == Err::<T, Error>(Error { location: l, code: c, line: line_of(t.spec_bytes(), l as int) as usize }),
        line_of(t.spec_bytes(), l as int) <= l + 1,
{
    let bytes = t.as_bytes();
    let mut n: usize = 0;
    let mut i: usize = 0;
    while i < l
        invariant
            i <= l <= bytes@.len(),
            bytes@ == t.spec_bytes(),
            n == newlines(bytes@.subrange(0, i as int)),
            n <= i,
        decreases l - i,
    {
        assert(bytes@.subrange(0, i + 1).drop_last() =~= bytes@.subrange(0, i as int));
        if bytes[i] == 10 {
            n = n + 1;
        }
        i = i + 1;
    }
    Err(Error { location: l, code: c, line: n + 1 })
}

fn is_identifier_start(c: u8) -> (r: bool)
    ensures
        r == is_ident_start_byte(c),
{
    (c >= 65 && c <= 90) || c == 95 || (c >= 97 && c <= 122) || c >= 128
}

fn is_identifier_continue(c: u8) -> (r: bool)
    ensures
        r == is_ident_continue_byte(c),
{
    c == 36 || (c >= 48 && c <= 57) || is_identifier_start(c)
}

fn in_class(k: CharClass, c: u8) -> (r: bool)
    ensures
        r == class_has(k, c),
{
    match k {
        CharClass::Digit => c >= 48 && c <= 57,
        CharClass::HexDigit => (c >= 48 && c <= 57) || (c >= 65 && c <= 70) || (c >= 97 && c <= 102),
        CharClass::IdentContinue => is_identifier_continue(c),
    }
}

fn to_upper(c: u8) -> (r: u8)
    ensures
        r == ascii_upper(c),
{
    if c >= 97 && c <= 122 {
        c - 32
    } else {
        c
    }
}

/// What a helper of the tokenizer returns: the result and where lexing resumes.
type Scanned<'a> = (Result<Spanned<Tok<'a>>, Error>, usize);

spec fn yields<'a>(r: Scanned<'a>, l: (Lexed<'a>, int), b: Seq<u8>) -> bool {
    outcome_is(Some(r.0), l.0, b, 0) && r.1 == l.1
}

/// A scanner over the text, positioned at the start of the next token.
pub struct Tokenizer<'input> {
    text: &'input str,
    bytes: &'input [u8],
    pos: usize,
    shift: usize,
    keywords: Vec<(&'static str, Tok<'static>)>,
}

impl<'input> Tokenizer<'input> {
    /// The bytes of the text.
    pub closed spec fn input(&self) -> Seq<u8> {
        self.bytes@
    }

    /// The byte offset at which the next call starts.
    pub closed spec fn position(&self) -> int {
        self.pos as int
    }

    /// What is added to every offset reported.
    pub closed spec fn offset(&self) -> int {
        self.shift as int
    }

    pub closed spec fn wf(&self) -> bool {
        &&& self.bytes@ == self.text.spec_bytes()
        &&& valid_utf8(self.bytes@)
        &&& self.pos <= self.bytes@.len()
        &&& is_char_boundary(self.bytes@, self.pos as int)
        &&& self.bytes@.len() + self.shift <= usize::MAX
        &&& self.keywords@ == keyword_table()
    }

    pub fn new(text: &'input str, shift: usize) -> (t: Tokenizer<'input>)
        requires
            text.spec_bytes().len() + shift <= usize::MAX,
        ensures
            t.wf(),
            t.input() == text.spec_bytes(),
            t.position() == 0,
            t.offset() == shift,
    {
        let bytes = text.as_bytes();
        proof {
            encode_utf8_valid_utf8(text@);
            is_char_boundary_start_end_of_seq(bytes@);
        }
        Tokenizer { text, bytes, pos: 0, shift, keywords: keywords() }
    }

    /// The text between two boundaries.
    fn slice(&self, s: usize, e: usize) -> (r: &'input str)
        requires
            self.wf(),
            s <= e <= self.input().len(),
            is_char_boundary(self.input(), s as int),
            is_char_boundary(self.input(), e as int),
        ensures
            r.spec_bytes() == self.input().subrange(s as int, e as int),
    {
        let (head, _) = self.text.split_at(e);
        proof {
            let b = self.input();
            valid_utf8_split(b, e as int);
            let h = b.subrange(0, e as int);
            if s < e {
                is_char_boundary_iff_not_is_continuation_byte(b, s as int);
                is_char_boundary_iff_not_is_continuation_byte(h, s as int);
            } else {
                is_char_boundary_start_end_of_seq(h);
            }
        }
        let (_, mid) = head.split_at(s);
        mid
    }

    fn fail(&self, c: ErrorCode, l: usize) -> (r: Result<Spanned<Tok<'input>>, Error>)
        requires
            self.wf(),
            l < self.input().len(),
        ensures
            r == Err::<Spanned<Tok<'input>>, Error>(
                Error { location: l, code: c, line: line_of(self.input(), l as int) as usize },
            ),
            line_of(self.input(), l as int) <= l + 1,
    {
        error(c, l, self.text)
    }

    /// The end of the run of class `k` from `from`.
    fn take_while(&self, from: usize, k: CharClass) -> (e: usize)
        requires
            self.wf(),
            from <= self.input().len(),
        ensures
            e == scan(self.input(), from as int, k),
            from <= e <= self.input().len(),
            e > from ==> class_has(k, self.input()[e - 1]),
            e < self.input().len() ==> !class_has(k, self.input()[e as int]),
    {
        let mut i = from;
        while i < self.bytes.len() && in_class(k, self.bytes[i])
            invariant
                self.wf(),
                from <= i <= self.input().len(),
                scan(self.input(), i as int, k) == scan(self.input(), from as int, k),
                i > from ==> class_has(k, self.input()[i - 1]),
            decreases self.input().len() - i,
        {
            i = i + 1;
        }
        i
    }

    /// The first index from `from` that holds `c`, or the end.
    fn take_until(&self, from: usize, c: u8) -> (e: usize)
        requires
            self.wf(),
            from <= self.input().len(),
        ensures
            e == find(self.input(), from as int, c),
            from <= e <= self.input().len(),
            e < self.input().len() ==> self.input()[e as int] == c,
    {
        let mut i = from;
        while i < self.bytes.len() && self.bytes[i] != c
            invariant
                self.wf(),
                from <= i <= self.input().len(),
                find(self.input(), i as int, c) == find(self.input(), from as int, c),
            decreases self.input().len() - i,
        {
            i = i + 1;
        }
        i
    }

    /// A resume position after the identifier characters from `e` is a boundary.
    /// Past the token or error that starts at `p`, at a boundary further on.
    spec fn sane(&self, r: Scanned<'input>, p: int) -> bool {
        &&& p < r.1 <= self.input().len()
        &&& is_char_boundary(self.input(), r.1 as int)
        &&& match r.0 {
            Ok((s, _, e)) => p <= s <= e && e == r.1,
            Err(er) => er.location < self.input().len(),
        }
    }

    /// A quoted string literal or identifier.
    fn literal(&self, idx0: usize) -> (r: Scanned<'input>)
        requires
            self.wf(),
            idx0 < self.input().len(),
            self.input()[idx0 as int] == 96 || self.input()[idx0 as int] == 39 || self.input()[idx0 as int] == 34,
        ensures
            yields(r, quoted(self.input(), idx0 as int), self.input()),
            self.sane(r, idx0 as int),
    {
        let ghost b = self.input();
        let d = self.bytes[idx0];
        proof {
            lemma_ascii_boundary(b, idx0 as int);
        }
        let mut k = idx0 + 1;
        loop
            invariant
                self.wf(),
                b == self.input(),
                d == b[idx0 as int],
                idx0 < k <= b.len(),
                literal_close(b, k as int, d) == literal_close(b, idx0 + 1, d),
            ensures
                idx0 < k <= b.len(),
                k == literal_close(b, idx0 + 1, d),
                k < b.len() ==> b[k as int] == d,
            decreases b.len() - k,
        {
            if k >= self.bytes.len() {
                break;
            }
            if self.bytes[k] == d {
                if k + 1 < self.bytes.len() && self.bytes[k + 1] == d {
                    k = k + 2;
                } else {
                    break;
                }
            } else {
                k = k + 1;
            }
        }
        if k < self.bytes.len() {
            proof {
                lemma_ascii_boundary(b, k as int);
            }
            let text = self.slice(idx0 + 1, k);
            let tok = if d == 39 {
                Tok::StringLiteral(text)
            } else {
                Tok::Id(text)
            };
            (Ok((idx0, tok, k + 1)), k + 1)
        } else {
            proof {
                lemma_boundary_before(b, b.len() as int);
            }
            (self.fail(ErrorCode::UnterminatedLiteral, idx0), self.bytes.len())
        }
    }

    /// A bracketed identifier.
    fn bracket(&self, idx0: usize) -> (r: Scanned<'input>)
        requires
            self.wf(),
            idx0 < self.input().len(),
            self.input()[idx0 as int] == 91,
        ensures
            yields(r, bracket(self.input(), idx0 as int), self.input()),
            self.sane(r, idx0 as int),
    {
        let ghost b = self.input();
        proof {
            lemma_ascii_boundary(b, idx0 as int);
        }
        let k = self.take_until(idx0 + 1, 93);
        if k < self.bytes.len() {
            proof {
                lemma_ascii_boundary(b, k as int);
            }
            let id = self.slice(idx0 + 1, k);
            (Ok((idx0, Tok::Id(id), k + 1)), k + 1)
        } else {
            proof {
                lemma_boundary_before(b, b.len() as int);
            }
            (self.fail(ErrorCode::UnterminatedBracket, idx0), self.bytes.len())
        }
    }

    /// `?` or `?NNN`.
    fn numbered_variable(&self, idx0: usize) -> (r: Scanned<'input>)
        requires
            self.wf(),
            idx0 < self.input().len(),
            self.input()[idx0 as int] == 63,
        ensures
            yields(r, numbered_variable(self.input(), idx0 as int), self.input()),
            self.sane(r, idx0 as int),
    {
        let ghost b = self.input();
        proof {
            lemma_ascii_boundary(b, idx0 as int);
        }
        let e = self.take_while(idx0 + 1, CharClass::Digit);
        if e == idx0 + 1 {
            let empty = self.slice(idx0 + 1, idx0 + 1);
            assert(b.subrange(idx0 + 1, idx0 + 1) =~= Seq::<u8>::empty());
            (Ok((idx0, Tok::Variable(empty), idx0 + 1)), idx0 + 1)
        } else {
            proof {
                lemma_ascii_boundary(b, e - 1);
            }
            let name = self.slice(idx0, e);
            (Ok((idx0, Tok::Variable(name), e)), e)
        }
    }

    /// `$name`, `@name`, `#name` or `:name`.
    fn named_variable(&self, idx0: usize) -> (r: Scanned<'input>)
        requires
            self.wf(),
            idx0 < self.input().len(),
            self.input()[idx0 as int] == 36 || self.input()[idx0 as int] == 64
                || self.input()[idx0 as int] == 35 || self.input()[idx0 as int] == 58,
        ensures
            yields(r, named_variable(self.input(), idx0 as int), self.input()),
            self.sane(r, idx0 as int),
    {
        let ghost b = self.input();
        proof {
            lemma_ascii_boundary(b, idx0 as int);
        }
        let e = self.take_while(idx0 + 1, CharClass::IdentContinue);
        if e == idx0 + 1 {
            (self.fail(ErrorCode::BadVariableName, idx0), idx0 + 1)
        } else {
            proof {
                self.lemma_word_end(idx0 + 1);
            }
            let name = self.slice(idx0, e);
            (Ok((idx0, Tok::Variable(name), e)), e)
        }
    }

    /// A blob literal whose opening quote stands at `idx0`.
    fn blob_literal(&self, idx0: usize) -> (r: Scanned<'input>)
        requires
            self.wf(),
            idx0 < self.input().len(),
            self.input()[idx0 as int] == 39,
        ensures
            yields(r, blob_literal(self.input(), idx0 as int), self.input()),
            self.sane(r, idx0 as int),
    {
        let ghost b = self.input();
        proof {
            lemma_ascii_boundary(b, idx0 as int);
        }
        let e = self.take_while(idx0 + 1, CharClass::HexDigit);
        if e < self.bytes.len() && self.bytes[e] == 39 && (e - idx0 - 1) % 2 == 0 {
            proof {
                lemma_ascii_boundary(b, e as int);
            }
            let digits = self.slice(idx0 + 1, e);
            (Ok((idx0, Tok::Blob(digits), e + 1)), e + 1)
        } else {
            let k = self.take_until(e, 39);
            let next = if k < self.bytes.len() {
                proof {
                    lemma_ascii_boundary(b, k as int);
                }
                k + 1
            } else {
                proof {
                    lemma_boundary_before(b, b.len() as int);
                }
                self.bytes.len()
            };
            (self.fail(ErrorCode::MalformedBlobLiteral, idx0), next)
        }
    }

    /// A number that runs into identifier characters at `e`: the error, resuming past them.
    fn bad_number_tail(&self, idx0: usize, e: usize, code: ErrorCode) -> (r: Scanned<'input>)
        requires
            self.wf(),
            idx0 < e <= self.input().len(),
        ensures
            yields(r, number_tail_error(self.input(), idx0 as int, e as int, code), self.input()),
            self.sane(r, idx0 as int),
    {
        let w = self.take_while(e, CharClass::IdentContinue);
        proof {
            self.lemma_word_end(e as int);
        }
        (self.fail(code, idx0), w)
    }

    /// The exponent part of the number at `idx0`, whose `e` stands at `x`.
    fn exponential_part(&self, idx0: usize, x: usize) -> (r: Scanned<'input>)
        requires
            self.wf(),
            idx0 < x < self.input().len(),
            self.input()[idx0 as int] < 128,
            self.input()[x as int] == 101 || self.input()[x as int] == 69,
        ensures
            yields(r, exponent_part(self.input(), idx0 as int, x as int), self.input()),
            self.sane(r, idx0 as int),
    {
        let ghost b = self.input();
        proof {
            lemma_ascii_boundary(b, idx0 as int);
            lemma_ascii_boundary(b, x as int);
        }
        let s = if x + 1 < self.bytes.len() && (self.bytes[x + 1] == 43 || self.bytes[x + 1] == 45) {
            proof {
                lemma_ascii_boundary(b, x + 1);
            }
            x + 2
        } else {
            x + 1
        };
        let e = self.take_while(s, CharClass::Digit);
        if e == s {
            (self.fail(ErrorCode::BadNumber, idx0), s)
        } else if e < self.bytes.len() && is_identifier_start(self.bytes[e]) {
            self.bad_number_tail(idx0, e, ErrorCode::BadNumber)
        } else {
            proof {
                lemma_ascii_boundary(b, e - 1);
            }
            let text = self.slice(idx0, e);
            (Ok((idx0, Tok::Float(text), e)), e)
        }
    }

    /// The fractional part of the number at `idx0`, whose digits start at `f`.
    fn fractional_part(&self, idx0: usize, f: usize) -> (r: Scanned<'input>)
        requires
            self.wf(),
            idx0 < f <= self.input().len(),
            self.input()[idx0 as int] < 128,
            self.input()[f - 1] < 128,
        ensures
            yields(r, fractional_part(self.input(), idx0 as int, f as int), self.input()),
            self.sane(r, idx0 as int),
    {
        let ghost b = self.input();
        proof {
            lemma_ascii_boundary(b, idx0 as int);
            lemma_ascii_boundary(b, f - 1);
        }
        let e = self.take_while(f, CharClass::Digit);
        if e < self.bytes.len() && (self.bytes[e] == 101 || self.bytes[e] == 69) {
            self.exponential_part(idx0, e)
        } else if e < self.bytes.len() && is_identifier_start(self.bytes[e]) {
            self.bad_number_tail(idx0, e, ErrorCode::BadNumber)
        } else {
            proof {
                lemma_ascii_boundary(b, e - 1);
            }
            let text = self.slice(idx0, e);
            (Ok((idx0, Tok::Float(text), e)), e)
        }
    }

    /// A hexadecimal integer: `0x` at `idx0`, then its digits.
    fn hex_integer(&self, idx0: usize) -> (r: Scanned<'input>)
        requires
            self.wf(),
            idx0 + 1 < self.input().len(),
            self.input()[idx0 as int] == 48,
            self.input()[idx0 + 1] == 120 || self.input()[idx0 + 1] == 88,
        ensures
            yields(r, hex_integer(self.input(), idx0 as int), self.input()),
            self.sane(r, idx0 as int),
    {
        let ghost b = self.input();
        proof {
            lemma_ascii_boundary(b, idx0 as int);
        }
        let h = idx0 + 2;
        let e = self.take_while(h, CharClass::HexDigit);
        if e == h {
            self.bad_number_tail(idx0, h, ErrorCode::MalformedHexInteger)
        } else if e < self.bytes.len() && is_identifier_start(self.bytes[e]) {
            self.bad_number_tail(idx0, e, ErrorCode::MalformedHexInteger)
        } else {
            proof {
                lemma_ascii_boundary(b, e - 1);
            }
            let text = self.slice(idx0, e);
            (Ok((idx0, Tok::Integer(text), e)), e)
        }
    }

    /// A decimal or hexadecimal integer, or a real number, starting with a digit.
    fn number(&self, idx0: usize) -> (r: Scanned<'input>)
        requires
            self.wf(),
            idx0 < self.input().len(),
            is_digit_byte(self.input()[idx0 as int]),
        ensures
            yields(r, number(self.input(), idx0 as int), self.input()),
            self.sane(r, idx0 as int),
    {
        let ghost b = self.input();
        if self.bytes[idx0] == 48 && idx0 + 1 < self.bytes.len() && (self.bytes[idx0 + 1] == 120
            || self.bytes[idx0 + 1] == 88) {
            return self.hex_integer(idx0);
        }
        let e = self.take_while(idx0, CharClass::Digit);
        if e < self.bytes.len() && self.bytes[e] == 46 {
            self.fractional_part(idx0, e + 1)
        } else if e < self.bytes.len() && (self.bytes[e] == 101 || self.bytes[e] == 69) {
            self.exponential_part(idx0, e)
        } else if e < self.bytes.len() && is_identifier_start(self.bytes[e]) {
            self.bad_number_tail(idx0, e, ErrorCode::BadNumber)
        } else {
            proof {
                lemma_ascii_boundary(b, idx0 as int);
                lemma_ascii_boundary(b, e - 1);
            }
            let text = self.slice(idx0, e);
            (Ok((idx0, Tok::Integer(text), e)), e)
        }
    }

    /// Whether `kw` spells the input between `s` and `e`, letter case aside.
    fn spells(&self, kw: &str, s: usize, e: usize) -> (r: bool)
        requires
            self.wf(),
            s <= e <= self.input().len(),
        ensures
            r == eq_ignore_ascii_case(kw.spec_bytes(), self.input().subrange(s as int, e as int)),
    {
        let ghost w = self.input().subrange(s as int, e as int);
        let a = kw.as_bytes();
        if a.len() != e - s {
            return false;
        }
        let mut k: usize = 0;
        while k < a.len()
            invariant
                self.wf(),
                a@ == kw.spec_bytes(),
                a@.len() == e - s,
                s <= e <= self.input().len(),
                w == self.input().subrange(s as int, e as int),
                k <= a@.len(),
                forall|j: int| 0 <= j < k ==> ascii_upper(a@[j]) == ascii_upper(w[j]),
            decreases a@.len() - k,
        {
            if to_upper(a[k]) != to_upper(self.bytes[s + k]) {
                assert(w[k as int] == self.input()[s + k]);
                return false;
            }
            k = k + 1;
        }
        true
    }

    /// A keyword or an identifier.
    fn identifierish(&self, idx0: usize) -> (r: Scanned<'input>)
        requires
            self.wf(),
            idx0 < self.input().len(),
            is_char_boundary(self.input(), idx0 as int),
            is_ident_start_byte(self.input()[idx0 as int]),
        ensures
            yields(r, identifierish(self.input(), idx0 as int), self.input()),
            self.sane(r, idx0 as int),
    {
        let ghost b = self.input();
        let e = self.take_while(idx0, CharClass::IdentContinue);
        let ghost w = b.subrange(idx0 as int, e as int);
        proof {
            self.lemma_word_end(idx0 as int);
        }
        let mut i: usize = 0;
        while i < self.keywords.len()
            invariant
                self.wf(),
                b == self.input(),
                idx0 < e <= b.len(),
                e == scan(b, idx0 as int, CharClass::IdentContinue),
                is_char_boundary(b, e as int),
                w == b.subrange(idx0 as int, e as int),
                i <= self.keywords@.len(),
                keyword_from::<'input>(w, i as int) == keyword_of::<'input>(w),
            decreases self.keywords@.len() - i,
        {
            let (kw, t) = self.keywords[i];
            if self.spells(kw, idx0, e) {
                return (Ok((idx0, t, e)), e);
            }
            i = i + 1;
        }
        let id = self.slice(idx0, e);
        (Ok((idx0, Tok::Id(id), e)), e)
    }

    /// An operator of one byte, or of two when the next byte is `second`.
    fn one_or_two(&self, idx0: usize, second: u8, two: Tok<'input>, one: Tok<'input>) -> (r: Scanned<'input>)
        requires
            self.wf(),
            idx0 < self.input().len(),
            self.input()[idx0 as int] < 128,
            second < 128,
            lexeme(two) == Lexeme::Plain(two),
            lexeme(one) == Lexeme::Plain(one),
        ensures
            yields(r, one_or_two(self.input(), idx0 as int, second, two, one), self.input()),
            self.sane(r, idx0 as int),
    {
        proof {
            lemma_ascii_boundary(self.input(), idx0 as int);
        }
        if idx0 + 1 < self.bytes.len() && self.bytes[idx0 + 1] == second {
            proof {
                lemma_ascii_boundary(self.input(), idx0 + 1);
            }
            (Ok((idx0, two, idx0 + 2)), idx0 + 2)
        } else {
            (Ok((idx0, one, idx0 + 1)), idx0 + 1)
        }
    }

    /// The token or error that starts at `idx0`.
    #[verifier::rlimit(40)]
    fn token(&self, idx0: usize) -> (r: Scanned<'input>)
        requires
            self.wf(),
            idx0 < self.input().len(),
            is_char_boundary(self.input(), idx0 as int),
        ensures
            yields(r, token_at(self.input(), idx0 as int), self.input()),
            self.sane(r, idx0 as int),
    {
        let ghost b = self.input();
        let c = self.bytes[idx0];
        if c < 128 {
            proof {
                lemma_ascii_boundary(b, idx0 as int);
            }
        }
        if c == 45 {
            (Ok((idx0, Tok::Minus, idx0 + 1)), idx0 + 1)
        } else if c == 40 {
            (Ok((idx0, Tok::LeftParen, idx0 + 1)), idx0 + 1)
        } else if c == 41 {
            (Ok((idx0, Tok::RightParen, idx0 + 1)), idx0 + 1)
        } else if c == 59 {
            (Ok((idx0, Tok::Semi, idx0 + 1)), idx0 + 1)
        } else if c == 43 {
            (Ok((idx0, Tok::Plus, idx0 + 1)), idx0 + 1)
        } else if c == 42 {
            (Ok((idx0, Tok::Star, idx0 + 1)), idx0 + 1)
        } else if c == 47 {
            (Ok((idx0, Tok::Slash, idx0 + 1)), idx0 + 1)
        } else if c == 37 {
            (Ok((idx0, Tok::Reminder, idx0 + 1)), idx0 + 1)
        } else if c == 61 {
            self.one_or_two(idx0, 61, Tok::Equals, Tok::Equals)
        } else if c == 60 {
            if idx0 + 1 < self.bytes.len() && self.bytes[idx0 + 1] == 62 {
                proof {
                    lemma_ascii_boundary(b, idx0 + 1);
                }
                (Ok((idx0, Tok::NotEquals, idx0 + 2)), idx0 + 2)
            } else if idx0 + 1 < self.bytes.len() && self.bytes[idx0 + 1] == 60 {
                proof {
                    lemma_ascii_boundary(b, idx0 + 1);
                }
                (Ok((idx0, Tok::LeftShift, idx0 + 2)), idx0 + 2)
            } else {
                self.one_or_two(idx0, 61, Tok::LessEquals, Tok::LessThan)
            }
        } else if c == 62 {
            if idx0 + 1 < self.bytes.len() && self.bytes[idx0 + 1] == 62 {
                proof {
                    lemma_ascii_boundary(b, idx0 + 1);
                }
                (Ok((idx0, Tok::RightShift, idx0 + 2)), idx0 + 2)
            } else {
                self.one_or_two(idx0, 61, Tok::GreaterEquals, Tok::GreaterThan)
            }
        } else if c == 33 {
            if idx0 + 1 < self.bytes.len() && self.bytes[idx0 + 1] == 61 {
                proof {
                    lemma_ascii_boundary(b, idx0 + 1);
                }
                (Ok((idx0, Tok::NotEquals, idx0 + 2)), idx0 + 2)
            } else {
                (self.fail(ErrorCode::ExpectedEqualsSign, idx0), idx0 + 1)
            }
        } else if c == 124 {
            self.one_or_two(idx0, 124, Tok::Concat, Tok::BitOr)
        } else if c == 44 {
            (Ok((idx0, Tok::Comma, idx0 + 1)), idx0 + 1)
        } else if c == 38 {
            (Ok((idx0, Tok::BitAnd, idx0 + 1)), idx0 + 1)
        } else if c == 126 {
            (Ok((idx0, Tok::BitNot, idx0 + 1)), idx0 + 1)
        } else if c == 96 || c == 39 || c == 34 {
            self.literal(idx0)
        } else if c == 46 {
            if idx0 + 1 < self.bytes.len() && self.bytes[idx0 + 1] >= 48 && self.bytes[idx0 + 1] <= 57 {
                self.fractional_part(idx0, idx0 + 1)
            } else {
                (Ok((idx0, Tok::Dot, idx0 + 1)), idx0 + 1)
            }
        } else if c >= 48 && c <= 57 {
            self.number(idx0)
        } else if c == 91 {
            self.bracket(idx0)
        } else if c == 63 {
            self.numbered_variable(idx0)
        } else if c == 36 || c == 64 || c == 35 || c == 58 {
            self.named_variable(idx0)
        } else if is_identifier_start(c) {
            if (c == 120 || c == 88) && idx0 + 1 < self.bytes.len() && self.bytes[idx0 + 1] == 39 {
                self.blob_literal(idx0 + 1)
            } else {
                self.identifierish(idx0)
            }
        } else {
            (self.fail(ErrorCode::UnrecognizedToken, idx0), idx0 + 1)
        }
    }

    /// The byte length of the whitespace character at `i`, or 0.
    fn space_len(&self, i: usize) -> (n: usize)
        requires
            self.wf(),
            i < self.input().len(),
            is_char_boundary(self.input(), i as int),
        ensures
            n == space_len(self.input(), i as int),
            n > 0 ==> i + n <= self.input().len() && is_char_boundary(self.input(), i + n),
    {
        let ghost b = self.input();
        let len = self.bytes.len();
        let c = self.bytes[i];
        if c == 32 || (c >= 9 && c <= 13) {
            proof {
                lemma_ascii_boundary(b, i as int);
            }
            return 1;
        }
        if i + 1 < len && c == 0xC2 && (self.bytes[i + 1] == 0x85 || self.bytes[i + 1] == 0xA0) {
            proof {
                lemma_next_boundary(b, i as int);
            }
            return 2;
        }
        if len - i > 2 {
            let c1 = self.bytes[i + 1];
            let c2 = self.bytes[i + 2];
            if (c == 0xE1 && c1 == 0x9A && c2 == 0x80) || (c == 0xE2 && c1 == 0x80 && ((c2 >= 0x80
                && c2 <= 0x8A) || c2 == 0xA8 || c2 == 0xA9 || c2 == 0xAF)) || (c == 0xE2 && c1
                == 0x81 && c2 == 0x9F) || (c == 0xE3 && c1 == 0x80 && c2 == 0x80) {
                proof {
                    lemma_next_boundary(b, i as int);
                }
                return 3;
            }
        }
        0
    }

    /// The `/` that closes the block comment opened at `idx0`, if any.
    fn block_comment(&self, idx0: usize) -> (r: Option<usize>)
        requires
            self.wf(),
            idx0 + 1 < self.input().len(),
        ensures
            match r {
                Some(j) => j == comment_end(self.input(), idx0 + 3) && idx0 + 3 <= j < self.input().len()
                    && self.input()[j as int] == 47,
                None => comment_end(self.input(), idx0 + 3) >= self.input().len(),
            },
    {
        let ghost b = self.input();
        if idx0 + 2 >= self.bytes.len() {
            return None;
        }
        let mut j = idx0 + 3;
        while j < self.bytes.len() && !(self.bytes[j - 1] == 42 && self.bytes[j] == 47)
            invariant
                self.wf(),
                b == self.input(),
                idx0 + 3 <= j <= b.len(),
                comment_end(b, j as int) == comment_end(b, idx0 + 3),
            decreases b.len() - j,
        {
            j = j + 1;
        }
        if j < self.bytes.len() {
            Some(j)
        } else {
            None
        }
    }

    /// Skips whitespace and comments from `from`.
    fn skip_trivia(&self, from: usize) -> (r: Result<usize, usize>)
        requires
            self.wf(),
            from <= self.input().len(),
            is_char_boundary(self.input(), from as int),
        ensures
            match r {
                Ok(j) => skip_trivia(self.input(), from as int) == Ok::<int, int>(j as int) && from <= j
                    <= self.input().len() && is_char_boundary(self.input(), j as int),
                Err(q) => skip_trivia(self.input(), from as int) == Err::<int, int>(q as int) && from <= q
                    < self.input().len(),
            },
    {
        let ghost b = self.input();
        let mut i = from;
        loop
            invariant
                self.wf(),
                b == self.input(),
                from <= i <= b.len(),
                is_char_boundary(b, i as int),
                skip_trivia(b, i as int) == skip_trivia(b, from as int),
            decreases b.len() - i,
        {
            if i >= self.bytes.len() {
                return Ok(i);
            }
            let n = self.space_len(i);
            if n > 0 {
                i = i + n;
            } else if self.bytes[i] == 45 && i + 1 < self.bytes.len() && self.bytes[i + 1] == 45 {
                let j = self.take_until(i + 2, 10);
                proof {
                    lemma_boundary_before(b, j as int);
                }
                i = j;
            } else if self.bytes[i] == 47 && i + 1 < self.bytes.len() && self.bytes[i + 1] == 42 {
                match self.block_comment(i) {
                    Some(j) => {
                        proof {
                            lemma_ascii_boundary(b, j as int);
                        }
                        i = j + 1;
                    },
                    None => {
                        return Err(i);
                    },
                }
            } else {
                return Ok(i);
            }
        }
    }

    fn next_unshifted(&mut self) -> (r: Option<Result<Spanned<Tok<'input>>, Error>>)
        requires
            old(self).wf(),
        ensures
            final(self).wf(),
            final(self).input() == old(self).input(),
            final(self).offset() == old(self).offset(),
            final(self).position() == step(old(self).input(), old(self).position()).1,
            outcome_is(r, step(old(self).input(), old(self).position()).0, old(self).input(), 0),
            r is Some ==> old(self).position() < final(self).position(),
            match r {
                Some(Ok((s, _, e))) => s <= e <= old(self).input().len(),
                Some(Err(er)) => er.location < old(self).input().len(),
                None => true,
            },
    {
        let ghost b = self.input();
        match self.skip_trivia(self.pos) {
            Err(q) => {
                proof {
                    lemma_boundary_before(b, b.len() as int);
                }
                let r = self.fail(ErrorCode::UnterminatedBlockComment, q);
                self.pos = self.bytes.len();
                Some(r)
            },
            Ok(j) => {
                if j >= self.bytes.len() {
                    self.pos = j;
                    None
                } else {
                    let (r, next) = self.token(j);
                    self.pos = next;
                    Some(r)
                }
            },
        }
    }

    /// The next token or lexical error, with offsets moved by the shift; `None` at
    /// the end of the input.
    pub fn next(&mut self) -> (r: Option<Result<Spanned<Tok<'input>>, Error>>)
        requires
            old(self).wf(),
        ensures
            final(self).wf(),
            final(self).input() == old(self).input(),
            final(self).offset() == old(self).offset(),
            final(self).position() == step(old(self).input(), old(self).position()).1,
            outcome_is(r, step(old(self).input(), old(self).position()).0, old(self).input(), old(self).offset()),
            r is Some ==> old(self).position() < final(self).position() <= final(self).input().len(),
    {
        match self.next_unshifted() {
            None => None,
            Some(Ok((s, t, e))) => Some(Ok((s + self.shift, t, e + self.shift))),
            Some(Err(er)) => Some(Err(Error { location: er.location + self.shift, code: er.code, line: er.line })),
        }
    }

    proof fn lemma_word_end(&self, e: int)
        requires
            self.wf(),
            0 <= e <= self.input().len(),
        ensures
            is_char_boundary(self.input(), scan(self.input(), e, CharClass::IdentContinue)),
    {
        let b = self.input();
        let w = scan(b, e, CharClass::IdentContinue);
        self.lemma_scan_bounds(e, CharClass::IdentContinue);
        lemma_boundary_before(b, w);
    }

    proof fn lemma_scan_bounds(&self, i: int, k: CharClass)
        requires
            0 <= i <= self.input().len(),
        ensures
            i <= scan(self.input(), i, k) <= self.input().len(),
            scan(self.input(), i, k) < self.input().len() ==> !class_has(k, self.input()[scan(self.input(), i, k)]),
        decreases self.input().len() - i,
    {
        if i < self.input().len() && class_has(k, self.input()[i]) {
            self.lemma_scan_bounds(i + 1, k);
        }
    }
}

/// Every token and lexical error of `text`, in order, with offsets moved by `shift`.
pub fn tokenize<'a>(text: &'a str, shift: usize) -> (r: Vec<Result<Spanned<Tok<'a>>, Error>>)
    requires
        text.spec_bytes().len() + shift <= usize::MAX,
    ensures
        r@.len() == lex_all::<'a>(text.spec_bytes(), 0).len(),
        forall|i: int|
            0 <= i < r@.len() ==> outcome_is(
                Some(#[trigger] r@[i]),
                lex_all::<'a>(text.spec_bytes(), 0)[i],
                text.spec_bytes(),
                shift as int,
            ),
{
    let ghost b = text.spec_bytes();
    let mut t = Tokenizer::new(text, shift);
    let mut out: Vec<Result<Spanned<Tok<'a>>, Error>> = Vec::new();
    let ghost mut done: Seq<Lexed<'a>> = Seq::empty();
    assert(lex_all::<'a>(b, 0) =~= done + lex_all::<'a>(b, 0));
    loop
        invariant
            b == text.spec_bytes(),
            t.wf(),
            t.input() == b,
            t.offset() == shift,
            0 <= t.position() <= b.len(),
            lex_all::<'a>(b, 0) == done + lex_all::<'a>(b, t.position()),
            out@.len() == done.len(),
            forall|i: int| 0 <= i < out@.len() ==> outcome_is(Some(#[trigger] out@[i]), done[i], b, shift as int),
        decreases b.len() - t.position(),
    {
        let ghost p = t.position();
        let ghost l = step::<'a>(b, p);
        match t.next() {
            None => {
                assert(lex_all::<'a>(b, p) =~= Seq::empty());
                assert(done + lex_all::<'a>(b, p) =~= done);
                assert(lex_all::<'a>(b, 0) == done);
                return out;
            },
            Some(x) => {
                assert(lex_all::<'a>(b, p) == seq![l.0].add(lex_all::<'a>(b, l.1)));
                assert(done + lex_all::<'a>(b, p) =~= done.push(l.0) + lex_all::<'a>(b, l.1));
                out.push(x);
                proof {
                    done = done.push(l.0);
                }
            },
        }
    }
}

/// `only_trivia` from `i` means skipping whitespace and comments reaches the end.
proof fn lemma_skip_only_trivia(b: Seq<u8>, i: int)
    requires
        0 <= i <= b.len(),
        only_trivia(b, i),
    ensures
        skip_trivia(b, i) == Ok::<int, int>(b.len() as int),
    decreases b.len() - i,
{
    if i < b.len() {
        if space_len(b, i) > 0 {
            lemma_skip_only_trivia(b, i + space_len(b, i));
        } else if b[i] == 45 && at(b, i + 1, 45) {
            lemma_skip_only_trivia(b, find(b, i + 2, 10));
        } else {
            lemma_skip_only_trivia(b, comment_end(b, i + 3) + 1);
        }
    }
}

/// Input made only of whitespace and comments yields no token and no error.
pub proof fn lemma_only_trivia_lexes_to_nothing(b: Seq<u8>)
    requires
        only_trivia(b, 0),
    ensures
        lex_all::<'static>(b, 0).len() == 0,
        step::<'static>(b, 0).0 is End,
{
    lemma_skip_only_trivia(b, 0);
}

proof fn lemma_keyword_from_case(w1: Seq<u8>, w2: Seq<u8>, i: int)
    requires
        w1.len() == w2.len(),
        forall|k: int| 0 <= k < w1.len() ==> ascii_upper(w1[k]) == ascii_upper(w2[k]),
    ensures
        keyword_from::<'static>(w1, i) == keyword_from::<'static>(w2, i),
    decreases keyword_table().len() - i,
{
    if 0 <= i < keyword_table().len() {
        let a = keyword_table()[i].0.spec_bytes();
        assert(eq_ignore_ascii_case(a, w1) == eq_ignore_ascii_case(a, w2)) by {
            if eq_ignore_ascii_case(a, w1) {
                assert forall|k: int| 0 <= k < a.len() implies ascii_upper(a[k]) == ascii_upper(w2[k]) by {
                    assert(ascii_upper(a[k]) == ascii_upper(w1[k]));
                }
            }
            if eq_ignore_ascii_case(a, w2) {
                assert forall|k: int| 0 <= k < a.len() implies ascii_upper(a[k]) == ascii_upper(w1[k]) by {
                    assert(ascii_upper(a[k]) == ascii_upper(w2[k]));
                }
            }
        }
        lemma_keyword_from_case(w1, w2, i + 1);
    }
}

/// Keywords are recognised whatever the case of their ASCII letters: two words
/// that agree once upper-cased lex to the same keyword, or both to none.
pub proof fn lemma_keyword_case_insensitive(w1: Seq<u8>, w2: Seq<u8>)
    requires
        w1.len() == w2.len(),
        forall|k: int| 0 <= k < w1.len() ==> ascii_upper(w1[k]) == ascii_upper(w2[k]),
    ensures
        keyword_of::<'static>(w1) == keyword_of::<'static>(w2),
{
    lemma_keyword_from_case(w1, w2, 0);
}

/// From `i` on, `s` holds the delimiter `d` only in doubled pairs.
pub open spec fn escaped_from(s: Seq<u8>, i: int, d: u8) -> bool
    decreases s.len() - i,
{
    if i < 0 || i >= s.len() {
        true
    } else if s[i] != d {
        escaped_from(s, i + 1, d)
    } else {
        i + 1 < s.len() && s[i + 1] == d && escaped_from(s, i + 2, d)
    }
}

proof fn lemma_literal_close_escaped(s: Seq<u8>, d: u8, i: int)
    requires
        0 <= i <= s.len(),
        escaped_from(s, i, d),
    ensures
        literal_close(seq![d] + s + seq![d], 1 + i, d) == 1 + s.len(),
    decreases s.len() - i,
{
    let b = seq![d] + s + seq![d];
    assert(b.len() == s.len() + 2);
    assert(b[1 + s.len() as int] == d);
    if i < s.len() {
        assert(b[1 + i] == s[i]);
        if s[i] != d {
            lemma_literal_close_escaped(s, d, i + 1);
        } else {
            assert(b[2 + i] == s[i + 1]);
            lemma_literal_close_escaped(s, d, i + 2);
        }
    }
}

/// A run quoted with `'`, `"` or `` ` `` whose text holds the delimiter only doubled
/// lexes to one token whose text is the run between the delimiters, verbatim:
/// doubled delimiters are kept, not undone.
pub proof fn lemma_quoted_text_verbatim(s: Seq<u8>, d: u8)
    requires
        d == 39 || d == 34 || d == 96,
        escaped_from(s, 0, d),
    ensures
        ({
            let b = seq![d] + s + seq![d];
            step::<'static>(b, 0) == (Lexed::Token(
                0,
                if d == 39 { Lexeme::StringLiteral(s) } else { Lexeme::Id(s) },
                b.len() as int,
            ), b.len() as int)
        }),
{
    let b = seq![d] + s + seq![d];
    lemma_literal_close_escaped(s, d, 0);
    assert(b[0] == d);
    assert(skip_trivia(b, 0) == Ok::<int, int>(0));
    assert(b.subrange(1, 1 + s.len() as int) =~= s);
}

proof fn lemma_scan_ident_to_end(b: Seq<u8>, i: int)
    requires
        0 <= i <= b.len(),
        forall|k: int| 0 <= k < b.len() ==> is_ident_continue_byte(#[trigger] b[k]),
    ensures
        scan(b, i, CharClass::IdentContinue) == b.len(),
    decreases b.len() - i,
{
    if i < b.len() {
        lemma_scan_ident_to_end(b, i + 1);
    }
}

/// A word of identifier characters that starts with an ASCII letter or `_` and
/// spells a keyword lexes, in any letter case, to that keyword's token over the
/// whole word: `SELECT`, `select` and `SeLeCt` all give the same token.
pub proof fn lemma_keyword_lexes_in_any_case(w1: Seq<u8>, w2: Seq<u8>)
    requires
        w1.len() > 0,
        w1[0] < 128 && is_ident_start_byte(w1[0]),
        forall|k: int| 0 <= k < w1.len() ==> is_ident_continue_byte(#[trigger] w1[k]),
        w1.len() == w2.len(),
        forall|k: int| 0 <= k < w1.len() ==> ascii_upper(w1[k]) == ascii_upper(w2[k]),
        keyword_of::<'static>(w1) is Some,
    ensures
        step::<'static>(w1, 0) == step::<'static>(w2, 0),
        step::<'static>(w1, 0) == (Lexed::Token(0, lexeme(keyword_of::<'static>(w1)->Some_0), w1.len() as int), w1.len() as int),
{
    assert forall|k: int| 0 <= k < w2.len() implies is_ident_continue_byte(#[trigger] w2[k]) by {
        assert(ascii_upper(w1[k]) == ascii_upper(w2[k]));
        assert(is_ident_continue_byte(w1[k]));
    }
    assert(ascii_upper(w1[0]) == ascii_upper(w2[0]));
    assert(w2[0] < 128 && is_ident_start_byte(w2[0]));
    lemma_keyword_case_insensitive(w1, w2);
    lemma_scan_ident_to_end(w1, 0);
    lemma_scan_ident_to_end(w2, 0);
    assert(w1.subrange(0, w1.len() as int) =~= w1);
    assert(w2.subrange(0, w2.len() as int) =~= w2);
    if w1.len() > 1 {
        assert(is_ident_continue_byte(w1[1]));
        assert(is_ident_continue_byte(w2[1]));
    }
    assert(skip_trivia(w1, 0) == Ok::<int, int>(0));
    assert(skip_trivia(w2, 0) == Ok::<int, int>(0));
}

} // verus!
