//! A SQL parser: statements of a SQLite-compatible dialect, read by recursive descent
//! over the tokens of `tok`.
use vstd::prelude::*;
use vstd::string::*;

use crate::ast::{
    AlterTableBody, ColumnConstraint, ColumnDefinition, ConflictClause, CreateTableBody,
    DefaultValue, DeferSubclause, Expr, ForeignKeyClause, IndexedColumn, InitDeferredPred,
    NamedColumnConstraint, NamedTableConstraint, PragmaBody, QualifiedName, RefAct, RefArgs, Select,
    SortOrder, SortedColumn, Stmt, TableConstraint, TransactionType, Type, TypeSize, Where,
};
use crate::tok::{lex_all, outcome_is, tokenize, Error, Lexed, Spanned, Tok};

verus! {

/// Why a parse failed.
#[derive(Debug, PartialEq, Eq)]
pub enum ParseError<'a> {
    /// The input ended where the grammar wanted more; `location` is the end of the
    /// last token.
    UnrecognizedEof { location: usize },
    /// A token that the grammar does not allow where it stands.
    UnrecognizedToken { token: Spanned<Tok<'a>> },
    /// A lexical error.
    User { error: Error },
}

pub type Toks<'a> = Vec<Spanned<Tok<'a>>>;

/// A parse from `pos` that succeeded consumed at least one token and stayed within
/// the tokens; one that failed met a token or the end that the grammar does not allow.
pub open spec fn moved<'a, T>(r: Result<(T, usize), ParseError<'a>>, pos: int, ts: Seq<Spanned<Tok<'a>>>) -> bool {
    match r {
        Ok((_, p)) => pos < p <= ts.len(),
        Err(e) => grammar_error(ts, e),
    }
}

/// The end offset of the last token, or 0 when there is none.
pub open spec fn last_end<'a>(ts: Seq<Spanned<Tok<'a>>>) -> int {
    if ts.len() > 0 {
        ts.last().2 as int
    } else {
        0
    }
}

/// A grammar error for the tokens `ts`: a token of `ts` that the grammar does not
/// allow where it stands, or the end of `ts`, reported at the end of its last token.
pub open spec fn grammar_error<'a>(ts: Seq<Spanned<Tok<'a>>>, e: ParseError<'a>) -> bool {
    match e {
        ParseError::UnrecognizedToken { token } => exists|i: int| 0 <= i < ts.len() && #[trigger] ts[i] == token,
        ParseError::UnrecognizedEof { location } => location == last_end(ts),
        ParseError::User { .. } => false,
    }
}

/// Like `moved`, for a parse that may consume nothing.
pub open spec fn stayed<'a, T>(r: Result<(T, usize), ParseError<'a>>, pos: int, ts: Seq<Spanned<Tok<'a>>>) -> bool {
    match r {
        Ok((_, p)) => pos <= p <= ts.len(),
        Err(e) => grammar_error(ts, e),
    }
}

/// The text of a name token.
pub open spec fn name_text<'a>(t: Tok<'a>) -> Option<Seq<char>> {
    match t {
        Tok::Id(s) => Some(s@),
        Tok::StringLiteral(s) => Some(s@),
        _ => None,
    }
}

fn peek<'a>(ts: &Toks<'a>, pos: usize) -> (r: Option<Tok<'a>>)
    ensures
        pos < ts@.len() ==> r == Some(ts@[pos as int].1),
        pos >= ts@.len() ==> r is None,
        ts@.len() <= usize::MAX,
{
    if pos < ts.len() {
        Some(ts[pos].1)
    } else {
        None
    }
}

/// The error for the token at `pos`, or for the end of the input.
fn unexpected<'a>(ts: &Toks<'a>, pos: usize) -> (e: ParseError<'a>)
    ensures
        pos < ts@.len() ==> e == (ParseError::UnrecognizedToken { token: ts@[pos as int] }),
        pos >= ts@.len() ==> e is UnrecognizedEof,
        grammar_error(ts@, e),
{
    if pos < ts.len() {
        ParseError::UnrecognizedToken { token: ts[pos] }
    } else if ts.len() > 0 {
        ParseError::UnrecognizedEof { location: ts[ts.len() - 1].2 }
    } else {
        ParseError::UnrecognizedEof { location: 0 }
    }
}

/// Consumes the token at `pos` when `found` says it is the one the grammar wants.
fn expect<'a>(ts: &Toks<'a>, pos: usize, found: bool) -> (r: Result<usize, ParseError<'a>>)
    requires
        found ==> pos < ts@.len(),
    ensures
        found ==> r == Ok::<usize, ParseError<'a>>((pos + 1) as usize),
        !found ==> r is Err && grammar_error(ts@, r->Err_0),
{
    if found && pos < ts.len() {
        Ok(pos + 1)
    } else {
        Err(unexpected(ts, pos))
    }
}

/// A name: an identifier or a string literal.
fn name<'a>(ts: &Toks<'a>, pos: usize) -> (r: Result<(String, usize), ParseError<'a>>)
    ensures
        r matches Ok((_, p)) ==> after_non_comma(ts@, p as int),
        moved(r, pos as int, ts@),
        match r {
            Ok((n, p)) => p == pos + 1 && name_text(ts@[pos as int].1) == Some(n@),
            Err(_) => pos >= ts@.len() || name_text(ts@[pos as int].1) is None,
        },
{
    match peek(ts, pos) {
        Some(Tok::Id(s)) => Ok((s.to_owned(), pos + 1)),
        Some(Tok::StringLiteral(s)) => Ok((s.to_owned(), pos + 1)),
        _ => Err(unexpected(ts, pos)),
    }
}

fn is_name<'a>(t: Option<Tok<'a>>) -> (r: bool)
    ensures
        r == (t matches Some(x) && name_text(x) is Some),
{
    matches!(t, Some(Tok::Id(_)) | Some(Tok::StringLiteral(_)))
}

/// The token at `i`, if any.
pub open spec fn tok_of<'a>(ts: Seq<Spanned<Tok<'a>>>, i: int) -> Option<Tok<'a>> {
    if 0 <= i < ts.len() {
        Some(ts[i].1)
    } else {
        None
    }
}

/// The text of an optional name.
pub open spec fn view_opt(o: Option<String>) -> Option<Seq<char>> {
    match o {
        Some(s) => Some(s@),
        None => None,
    }
}

/// `name` at `i`, if a name stands there.
pub open spec fn name_at<'a>(ts: Seq<Spanned<Tok<'a>>>, i: int) -> Option<Seq<char>> {
    match tok_of(ts, i) {
        Some(t) => name_text(t),
        None => None,
    }
}

/// `name` or `db.name` at `i`: the database name, the name, and where it ends.
pub open spec fn qname_at<'a>(ts: Seq<Spanned<Tok<'a>>>, i: int) -> Option<(Option<Seq<char>>, Seq<char>, int)> {
    match name_at(ts, i) {
        None => None,
        Some(first) => if tok_of(ts, i + 1) == Some(Tok::Dot) {
            match name_at(ts, i + 2) {
                Some(second) => Some((Some(first), second, i + 3)),
                None => None,
            }
        } else {
            Some((None, first, i + 1))
        },
    }
}

/// `name` or `db.name`.
fn qualified_name<'a>(ts: &Toks<'a>, pos: usize) -> (r: Result<(QualifiedName, usize), ParseError<'a>>)
    ensures
        r matches Ok((_, p)) ==> after_non_comma(ts@, p as int),
        moved(r, pos as int, ts@),
        match r {
            Ok((q, p)) => qname_at(ts@, pos as int) == Some((view_opt(q.db_name), q.name@, p as int)),
            Err(_) => qname_at(ts@, pos as int) is None,
        },
{
    let (first, p) = name(ts, pos)?;
    if matches!(peek(ts, p), Some(Tok::Dot)) {
        let (second, q) = name(ts, p + 1)?;
        Ok((QualifiedName { db_name: Some(first), name: second }, q))
    } else {
        Ok((QualifiedName { db_name: None, name: first }, p))
    }
}

/// The tokens that can open an expression.
pub open spec fn expr_start<'a>(t: Option<Tok<'a>>) -> bool {
    match t {
        Some(x) => x is Integer || x is Float || x is StringLiteral || x is Blob || x is Null || x is CurrentDate
            || x is CurrentTime || x is CurrentTimestamp || x is Variable || x is Id || x is Replace || x is Like
            || x is Glob || x is LeftParen || x is Cast || x is Case || x is Exists || x is Raise || x is Minus
            || x is Plus || x is BitNot || x is Not,
        None => false,
    }
}

/// A literal, a variable or a bare name.
pub open spec fn simple_term<'a>(t: Option<Tok<'a>>) -> bool {
    match t {
        Some(x) => x is Integer || x is Float || x is StringLiteral || x is Blob || x is Null || x is Variable
            || x is Id,
        None => false,
    }
}

/// What ends an operand when it follows it: the end, `;`, `,`, `)` or `WHERE`.
pub open spec fn closes_term<'a>(t: Option<Tok<'a>>) -> bool {
    t is None || t == Some(Tok::Semi) || t == Some(Tok::Comma) || t == Some(Tok::RightParen) || t == Some(Tok::Where)
}

/// Where a list of simple terms separated by commas, from `i`, ends.
pub open spec fn term_list_end<'a>(ts: Seq<Spanned<Tok<'a>>>, i: int) -> Option<int>
    decreases ts.len() - i,
{
    if !(0 <= i < ts.len()) || !simple_term(tok_of(ts, i)) {
        None
    } else if tok_of(ts, i + 1) == Some(Tok::Comma) {
        term_list_end(ts, i + 2)
    } else if closes_term(tok_of(ts, i + 1)) {
        Some(i + 1)
    } else {
        None
    }
}

/// Where `SELECT term, ...` at `s` ends, when the end of the input or `;` follows.
pub open spec fn simple_select_end<'a>(ts: Seq<Spanned<Tok<'a>>>, s: int) -> Option<int> {
    if tok_of(ts, s) == Some(Tok::Select) {
        match term_list_end(ts, s + 1) {
            Some(e) => if e == ts.len() || tok_of(ts, e) == Some(Tok::Semi) {
                Some(e)
            } else {
                None
            },
            None => None,
        }
    } else {
        None
    }
}

/// Where rows `( term, ... ), ...` whose first `(` stands at `i` end.
pub open spec fn rows_end<'a>(ts: Seq<Spanned<Tok<'a>>>, i: int) -> Option<int>
    decreases ts.len() - i,
{
    if !(0 <= i < ts.len()) || tok_of(ts, i) != Some(Tok::LeftParen) {
        None
    } else {
        match term_list_end(ts, i + 1) {
            Some(c) => if c <= i || tok_of(ts, c) != Some(Tok::RightParen) {
                None
            } else if tok_of(ts, c + 1) == Some(Tok::Comma) {
                rows_end(ts, c + 2)
            } else {
                Some(c + 1)
            },
            None => None,
        }
    }
}

/// Where `VALUES ( term, ... ), ...` at `s` ends, when the end of the input or `;`
/// follows.
pub open spec fn simple_values_end<'a>(ts: Seq<Spanned<Tok<'a>>>, s: int) -> Option<int> {
    if tok_of(ts, s) == Some(Tok::Values) {
        match rows_end(ts, s + 1) {
            Some(e) => if e == ts.len() || tok_of(ts, e) == Some(Tok::Semi) { Some(e) } else { None },
            None => None,
        }
    } else {
        None
    }
}

/// Where a query of simple terms at `s` ends: `SELECT term, ...` or
/// `VALUES ( term, ... ), ...`, followed by the end of the input or `;`.
pub open spec fn query_end<'a>(ts: Seq<Spanned<Tok<'a>>>, s: int) -> Option<int> {
    if simple_select_end(ts, s) is Some {
        simple_select_end(ts, s)
    } else {
        simple_values_end(ts, s)
    }
}

/// The token before `p` exists and is not a comma: a parse that ends at `p` never
/// ends on a dangling `,`.
pub open spec fn after_non_comma<'a>(ts: Seq<Spanned<Tok<'a>>>, p: int) -> bool {
    p > 0 && tok_of(ts, p - 1) != Some(Tok::Comma)
}

/// The end of what a recognizer read from `pos`: further on, within the tokens.
pub open spec fn read<'a>(r: Result<usize, ParseError<'a>>, pos: int, ts: Seq<Spanned<Tok<'a>>>) -> bool {
    match r {
        Ok(p) => pos < p <= ts.len(),
        Err(e) => grammar_error(ts, e),
    }
}

// ---------------------------------------------------------------------------
// Expressions and queries. Their structure is not kept: the recognizers below
// return where the expression or query ends.
// ---------------------------------------------------------------------------

/// An expression: operands joined by binary operators, each operand possibly
/// followed by a postfix form (`IS`, `IN`, `BETWEEN`, `LIKE`, `COLLATE`, ...).
fn expr<'a>(ts: &Toks<'a>, pos: usize) -> (r: Result<usize, ParseError<'a>>)
    ensures
        r matches Ok(p) ==> after_non_comma(ts@, p as int),
        read(r, pos as int, ts@),
        r is Ok ==> expr_start(tok_of(ts@, pos as int)),
        simple_term(tok_of(ts@, pos as int)) && closes_term(tok_of(ts@, pos + 1)) ==> r == Ok::<usize, ParseError<'a>>(
            (pos + 1) as usize,
        ),
    decreases ts@.len() - pos, 2nat,
{
    let mut p = unary(ts, pos)?;
    loop
        invariant
            pos < p <= ts@.len(),
            after_non_comma(ts@, p as int),
            expr_start(tok_of(ts@, pos as int)),
            simple_term(tok_of(ts@, pos as int)) && closes_term(tok_of(ts@, pos + 1)) ==> p == pos + 1,
        decreases ts@.len() - p,
    {
        match peek(ts, p) {
            Some(Tok::Or) | Some(Tok::And) | Some(Tok::Concat) | Some(Tok::Star) | Some(Tok::Slash)
            | Some(Tok::Reminder) | Some(Tok::Plus) | Some(Tok::Minus) | Some(Tok::LeftShift)
            | Some(Tok::RightShift) | Some(Tok::BitAnd) | Some(Tok::BitOr) | Some(Tok::LessThan)
            | Some(Tok::LessEquals) | Some(Tok::GreaterThan) | Some(Tok::GreaterEquals)
            | Some(Tok::Equals) | Some(Tok::NotEquals) => {
                p = unary(ts, p + 1)?;
            },
            Some(Tok::Like) | Some(Tok::Glob) | Some(Tok::Regexp) | Some(Tok::Match) => {
                p = like_rest(ts, p + 1)?;
            },
            Some(Tok::Is) => {
                let q = if matches!(peek(ts, p + 1), Some(Tok::Not)) {
                    p + 2
                } else {
                    p + 1
                };
                p = unary(ts, q)?;
            },
            Some(Tok::IsNull) | Some(Tok::NotNull) => {
                p = p + 1;
            },
            Some(Tok::In) => {
                p = in_rest(ts, p + 1)?;
            },
            Some(Tok::Between) => {
                p = between_rest(ts, p + 1)?;
            },
            Some(Tok::Collate) => {
                let (_, q) = name(ts, p + 1)?;
                p = q;
            },
            Some(Tok::Not) => {
                match peek(ts, p + 1) {
                    Some(Tok::Null) => {
                        p = p + 2;
                    },
                    Some(Tok::Like) | Some(Tok::Glob) | Some(Tok::Regexp) | Some(Tok::Match) => {
                        p = like_rest(ts, p + 2)?;
                    },
                    Some(Tok::In) => {
                        p = in_rest(ts, p + 2)?;
                    },
                    Some(Tok::Between) => {
                        p = between_rest(ts, p + 2)?;
                    },
                    _ => {
                        return Ok(p);
                    },
                }
            },
            _ => {
                return Ok(p);
            },
        }
    }
}

/// The pattern of `LIKE` and its kin, with an optional `ESCAPE`.
fn like_rest<'a>(ts: &Toks<'a>, pos: usize) -> (r: Result<usize, ParseError<'a>>)
    requires
        pos >= 1,
    ensures
        r matches Ok(p) ==> after_non_comma(ts@, p as int),
        read(r, pos as int - 1, ts@),
    decreases ts@.len() - pos, 3nat,
{
    let p = unary(ts, pos)?;
    if matches!(peek(ts, p), Some(Tok::Escape)) {
        unary(ts, p + 1)
    } else {
        Ok(p)
    }
}

/// The right-hand side of `IN`: a parenthesised query or list, or a table name.
fn in_rest<'a>(ts: &Toks<'a>, pos: usize) -> (r: Result<usize, ParseError<'a>>)
    requires
        pos >= 1,
    ensures
        r matches Ok(p) ==> after_non_comma(ts@, p as int),
        read(r, pos as int - 1, ts@),
    decreases ts@.len() - pos, 3nat,
{
    if matches!(peek(ts, pos), Some(Tok::LeftParen)) {
        let p = match peek(ts, pos + 1) {
            Some(Tok::RightParen) => pos + 1,
            Some(Tok::Select) | Some(Tok::Values) => select(ts, pos + 1)?,
            _ => expr_list(ts, pos + 1)?,
        };
        expect(ts, p, matches!(peek(ts, p), Some(Tok::RightParen)))
    } else {
        let (_, p) = qualified_name(ts, pos)?;
        Ok(p)
    }
}

/// The bounds of `BETWEEN`.
fn between_rest<'a>(ts: &Toks<'a>, pos: usize) -> (r: Result<usize, ParseError<'a>>)
    requires
        pos >= 1,
    ensures
        r matches Ok(p) ==> after_non_comma(ts@, p as int),
        read(r, pos as int - 1, ts@),
    decreases ts@.len() - pos, 3nat,
{
    let p = unary(ts, pos)?;
    let p = expect(ts, p, matches!(peek(ts, p), Some(Tok::And)))?;
    unary(ts, p)
}

/// An operand with its prefix operators.
fn unary<'a>(ts: &Toks<'a>, pos: usize) -> (r: Result<usize, ParseError<'a>>)
    ensures
        r matches Ok(p) ==> after_non_comma(ts@, p as int),
        read(r, pos as int, ts@),
        r is Ok ==> expr_start(tok_of(ts@, pos as int)),
        simple_term(tok_of(ts@, pos as int)) && closes_term(tok_of(ts@, pos + 1)) ==> r == Ok::<usize, ParseError<'a>>(
            (pos + 1) as usize,
        ),
    decreases ts@.len() - pos, 1nat,
{
    match peek(ts, pos) {
        Some(Tok::Minus) | Some(Tok::Plus) | Some(Tok::BitNot) | Some(Tok::Not) => unary(ts, pos + 1),
        _ => primary(ts, pos),
    }
}

/// A literal, a variable, a column reference, a function call, a parenthesised
/// expression, list or query, `CAST`, `CASE`, `EXISTS` or `RAISE`.
fn primary<'a>(ts: &Toks<'a>, pos: usize) -> (r: Result<usize, ParseError<'a>>)
    ensures
        r matches Ok(p) ==> after_non_comma(ts@, p as int),
        read(r, pos as int, ts@),
        r is Ok ==> expr_start(tok_of(ts@, pos as int)),
        simple_term(tok_of(ts@, pos as int)) && closes_term(tok_of(ts@, pos + 1)) ==> r == Ok::<usize, ParseError<'a>>(
            (pos + 1) as usize,
        ),
    decreases ts@.len() - pos, 0nat,
{
    match peek(ts, pos) {
        Some(Tok::Integer(_)) | Some(Tok::Float(_)) | Some(Tok::StringLiteral(_)) | Some(Tok::Blob(_))
        | Some(Tok::Null) | Some(Tok::CurrentDate) | Some(Tok::CurrentTime)
        | Some(Tok::CurrentTimestamp) | Some(Tok::Variable(_)) => Ok(pos + 1),
        Some(Tok::Id(_)) | Some(Tok::Replace) | Some(Tok::Like) | Some(Tok::Glob) => {
            if matches!(peek(ts, pos + 1), Some(Tok::LeftParen)) {
                let p = match peek(ts, pos + 2) {
                    Some(Tok::RightParen) => pos + 2,
                    Some(Tok::Star) => pos + 3,
                    Some(Tok::Distinct) | Some(Tok::All) => expr_list(ts, pos + 3)?,
                    _ => expr_list(ts, pos + 2)?,
                };
                expect(ts, p, matches!(peek(ts, p), Some(Tok::RightParen)))
            } else if matches!(peek(ts, pos), Some(Tok::Id(_))) {
                if matches!(peek(ts, pos + 1), Some(Tok::Dot)) {
                    let (_, p) = name(ts, pos + 2)?;
                    if matches!(peek(ts, p), Some(Tok::Dot)) {
                        let (_, q) = name(ts, p + 1)?;
                        Ok(q)
                    } else {
                        Ok(p)
                    }
                } else {
                    Ok(pos + 1)
                }
            } else {
                Err(unexpected(ts, pos))
            }
        },
        Some(Tok::LeftParen) => {
            let p = match peek(ts, pos + 1) {
                Some(Tok::Select) | Some(Tok::Values) => select(ts, pos + 1)?,
                _ => expr_list(ts, pos + 1)?,
            };
            expect(ts, p, matches!(peek(ts, p), Some(Tok::RightParen)))
        },
        Some(Tok::Cast) => {
            let p = expect(ts, pos + 1, matches!(peek(ts, pos + 1), Some(Tok::LeftParen)))?;
            let p = expr(ts, p)?;
            let p = expect(ts, p, matches!(peek(ts, p), Some(Tok::As)))?;
            let (_, p) = column_type(ts, p)?;
            expect(ts, p, matches!(peek(ts, p), Some(Tok::RightParen)))
        },
        Some(Tok::Case) => {
            let mut p = if matches!(peek(ts, pos + 1), Some(Tok::When)) {
                pos + 1
            } else {
                expr(ts, pos + 1)?
            };
            let mut arms: usize = 0;
            while matches!(peek(ts, p), Some(Tok::When))
                invariant
                    pos < p <= ts@.len(),
                    tok_of(ts@, pos as int) == Some(Tok::Case),
                decreases ts@.len() - p,
            {
                let q = expr(ts, p + 1)?;
                let q = expect(ts, q, matches!(peek(ts, q), Some(Tok::Then)))?;
                p = expr(ts, q)?;
                arms = 1;
            }
            if arms == 0 {
                return Err(unexpected(ts, p));
            }
            if matches!(peek(ts, p), Some(Tok::Else)) {
                p = expr(ts, p + 1)?;
            }
            expect(ts, p, matches!(peek(ts, p), Some(Tok::End)))
        },
        Some(Tok::Exists) => {
            let p = expect(ts, pos + 1, matches!(peek(ts, pos + 1), Some(Tok::LeftParen)))?;
            let p = select(ts, p)?;
            expect(ts, p, matches!(peek(ts, p), Some(Tok::RightParen)))
        },
        Some(Tok::Raise) => {
            let p = expect(ts, pos + 1, matches!(peek(ts, pos + 1), Some(Tok::LeftParen)))?;
            let p = match peek(ts, p) {
                Some(Tok::Ignore) => p + 1,
                Some(Tok::Rollback) | Some(Tok::Abort) | Some(Tok::Fail) => {
                    let q = expect(ts, p + 1, matches!(peek(ts, p + 1), Some(Tok::Comma)))?;
                    expect(ts, q, matches!(peek(ts, q), Some(Tok::StringLiteral(_))))?
                },
                _ => {
                    return Err(unexpected(ts, p));
                },
            };
            expect(ts, p, matches!(peek(ts, p), Some(Tok::RightParen)))
        },
        _ => Err(unexpected(ts, pos)),
    }
}

/// One or more expressions separated by commas.
fn expr_list<'a>(ts: &Toks<'a>, pos: usize) -> (r: Result<usize, ParseError<'a>>)
    ensures
        r matches Ok(p) ==> after_non_comma(ts@, p as int),
        read(r, pos as int, ts@),
        r is Ok ==> expr_start(tok_of(ts@, pos as int)),
        term_list_end(ts@, pos as int) is Some ==> (r is Ok && r->Ok_0 == term_list_end(ts@, pos as int)->Some_0),
    decreases ts@.len() - pos, 3nat,
{
    let mut p = expr(ts, pos)?;
    while matches!(peek(ts, p), Some(Tok::Comma))
        invariant
            pos < p <= ts@.len(),
            after_non_comma(ts@, p as int),
            term_list_end(ts@, pos as int) is Some ==> term_list_end(ts@, p - 1) == term_list_end(ts@, pos as int) && p
                - 1 >= pos && simple_term(tok_of(ts@, p - 1)) && closes_term(tok_of(ts@, p as int)),
        decreases ts@.len() - p,
    {
        proof {
            if term_list_end(ts@, pos as int) is Some {
                assert(term_list_end(ts@, p - 1) == term_list_end(ts@, p + 1));
                assert(term_list_end(ts@, p + 1) is Some);
                assert(simple_term(tok_of(ts@, p + 1)));
                assert(closes_term(tok_of(ts@, p + 2)) || tok_of(ts@, p + 2) == Some(Tok::Comma));
            }
        }
        p = expr(ts, p + 1)?;
    }
    Ok(p)
}

/// `ASC` or `DESC`, if there.
fn sort_order<'a>(ts: &Toks<'a>, pos: usize) -> (r: (Option<SortOrder>, usize))
    ensures
        pos <= r.1 <= pos + 1,
        r.1 <= ts@.len() || r.1 == pos,
        r.0 is Some <==> r.1 == pos + 1,
        r.0 == Some(SortOrder::Asc) <==> (pos < ts@.len() && ts@[pos as int].1 is Asc),
        r.0 == Some(SortOrder::Desc) <==> (pos < ts@.len() && ts@[pos as int].1 is Desc),
        tok_of(ts@, pos as int) != Some(Tok::Asc) && tok_of(ts@, pos as int) != Some(Tok::Desc) ==> r.0 is None && r.1
            == pos,
{
    match peek(ts, pos) {
        Some(Tok::Asc) => (Some(SortOrder::Asc), pos + 1),
        Some(Tok::Desc) => (Some(SortOrder::Desc), pos + 1),
        _ => (None, pos),
    }
}

/// Expressions, each with an optional sort order, separated by commas.
fn sorted_list<'a>(ts: &Toks<'a>, pos: usize) -> (r: Result<(Vec<SortedColumn>, usize), ParseError<'a>>)
    requires
        pos <= ts@.len(),
    ensures
        r matches Ok((_, p)) ==> after_non_comma(ts@, p as int),
        moved(r, pos as int, ts@),
        r is Ok ==> expr_start(tok_of(ts@, pos as int)),
        r matches Ok((v, _)) ==> v@.len() >= 1,
        term_list_end(ts@, pos as int) is Some ==> (r is Ok && r->Ok_0.1 == term_list_end(ts@, pos as int)->Some_0),
    decreases ts@.len() - pos, 3nat,
{
    let ghost hyp = term_list_end(ts@, pos as int) is Some;
    let ghost end = term_list_end(ts@, pos as int)->Some_0;
    let mut out: Vec<SortedColumn> = Vec::new();
    let mut p = pos;
    loop
        invariant
            pos <= p <= ts@.len(),
            p == pos <==> out@.len() == 0,
            p > pos ==> expr_start(tok_of(ts@, pos as int)),
            hyp == term_list_end(ts@, pos as int) is Some,
            end == term_list_end(ts@, pos as int)->Some_0,
            hyp ==> term_list_end(ts@, p as int) == Some(end),
        decreases ts@.len() - p,
    {
        let q = expr(ts, p)?;
        let (order, q) = sort_order(ts, q);
        proof {
            if hyp {
                assert(q == p + 1);
                if tok_of(ts@, p + 1) == Some(Tok::Comma) {
                    assert(term_list_end(ts@, p + 2) == Some(end));
                } else {
                    assert(end == p + 1);
                }
            }
        }
        out.push(SortedColumn { expr: Expr, order });
        if matches!(peek(ts, q), Some(Tok::Comma)) {
            p = q + 1;
        } else {
            return Ok((out, q));
        }
    }
}

/// A query: simple selects joined by compound operators, then `ORDER BY` and
/// `LIMIT`.
fn select<'a>(ts: &Toks<'a>, pos: usize) -> (r: Result<usize, ParseError<'a>>)
    ensures
        r matches Ok(p) ==> after_non_comma(ts@, p as int),
        read(r, pos as int, ts@),
        query_end(ts@, pos as int) is Some ==> (r is Ok && r->Ok_0 == query_end(ts@, pos as int)->Some_0),
    decreases ts@.len() - pos, 5nat,
{
    let ghost hyp = query_end(ts@, pos as int) is Some;
    let ghost end = query_end(ts@, pos as int)->Some_0;
    let mut p = select_core(ts, pos)?;
    loop
        invariant
            pos < p <= ts@.len(),
            after_non_comma(ts@, p as int),
            hyp ==> p == end && (end == ts@.len() || tok_of(ts@, end) == Some(Tok::Semi)),
            hyp == query_end(ts@, pos as int) is Some,
            end == query_end(ts@, pos as int)->Some_0,
        ensures
            pos < p <= ts@.len(),
            after_non_comma(ts@, p as int),
            hyp ==> p == end && (end == ts@.len() || tok_of(ts@, end) == Some(Tok::Semi)),
        decreases ts@.len() - p,
    {
        match peek(ts, p) {
            Some(Tok::Union) => {
                let q = if matches!(peek(ts, p + 1), Some(Tok::All)) {
                    p + 2
                } else {
                    p + 1
                };
                p = select_core(ts, q)?;
            },
            Some(Tok::Intersect) | Some(Tok::Except) => {
                p = select_core(ts, p + 1)?;
            },
            _ => {
                break ;
            },
        }
    }
    if matches!(peek(ts, p), Some(Tok::Order)) {
        let q = expect(ts, p + 1, matches!(peek(ts, p + 1), Some(Tok::By)))?;
        let (_, q) = sorted_list(ts, q)?;
        p = q;
    }
    if matches!(peek(ts, p), Some(Tok::Limit)) {
        p = expr(ts, p + 1)?;
        if matches!(peek(ts, p), Some(Tok::Offset) | Some(Tok::Comma)) {
            p = expr(ts, p + 1)?;
        }
    }
    Ok(p)
}

/// `SELECT ...` or `VALUES (...), ...`.
fn select_core<'a>(ts: &Toks<'a>, pos: usize) -> (r: Result<usize, ParseError<'a>>)
    ensures
        r matches Ok(p) ==> after_non_comma(ts@, p as int),
        read(r, pos as int, ts@),
        query_end(ts@, pos as int) is Some ==> (r is Ok && r->Ok_0 == query_end(ts@, pos as int)->Some_0),
    decreases ts@.len() - pos, 4nat,
{
    match peek(ts, pos) {
        Some(Tok::Values) => {
            let ghost hyp = query_end(ts@, pos as int) is Some;
            let ghost end = query_end(ts@, pos as int)->Some_0;
            let mut p = pos;
            loop
                invariant
                    pos <= p < ts@.len() <= usize::MAX,
                    tok_of(ts@, pos as int) == Some(Tok::Values),
                    hyp == query_end(ts@, pos as int) is Some,
                    end == query_end(ts@, pos as int)->Some_0,
                    hyp ==> rows_end(ts@, p + 1) == Some(end) && (end == ts@.len() || tok_of(ts@, end) == Some(Tok::Semi)),
                decreases ts@.len() - p,
            {
                let q = expect(ts, p + 1, matches!(peek(ts, p + 1), Some(Tok::LeftParen)))?;
                let q = expr_list(ts, q)?;
                let q = expect(ts, q, matches!(peek(ts, q), Some(Tok::RightParen)))?;
                if matches!(peek(ts, q), Some(Tok::Comma)) {
                    p = q;
                } else {
                    return Ok(q);
                }
            }
        },
        Some(Tok::Select) => {
            assert(query_end(ts@, pos as int) == simple_select_end(ts@, pos as int));
            let ghost hyp = simple_select_end(ts@, pos as int) is Some;
            let ghost end = simple_select_end(ts@, pos as int)->Some_0;
            let mut p = if matches!(peek(ts, pos + 1), Some(Tok::Distinct) | Some(Tok::All)) {
                pos + 2
            } else {
                pos + 1
            };
            loop
                invariant_except_break
                    hyp ==> term_list_end(ts@, p as int) == Some(end) && (end == ts@.len() || tok_of(ts@, end)
                        == Some(Tok::Semi)),
                invariant
                    pos < p <= ts@.len(),
                    query_end(ts@, pos as int) == simple_select_end(ts@, pos as int),
                    hyp == simple_select_end(ts@, pos as int) is Some,
                    end == simple_select_end(ts@, pos as int)->Some_0,
                ensures
                    pos < p <= ts@.len(),
                    after_non_comma(ts@, p as int),
                    hyp ==> p == end && (end == ts@.len() || tok_of(ts@, end) == Some(Tok::Semi)),
                decreases ts@.len() - p,
            {
                let q = if matches!(peek(ts, p), Some(Tok::Star)) {
                    p + 1
                } else if matches!(peek(ts, p), Some(Tok::Id(_))) && matches!(peek(ts, p + 1), Some(Tok::Dot))
                    && matches!(peek(ts, p + 2), Some(Tok::Star)) {
                    p + 3
                } else {
                    let q = expr(ts, p)?;
                    if matches!(peek(ts, q), Some(Tok::As)) {
                        let (_, q) = name(ts, q + 1)?;
                        q
                    } else if is_name(peek(ts, q)) {
                        q + 1
                    } else {
                        q
                    }
                };
                if matches!(peek(ts, q), Some(Tok::Comma)) {
                    p = q + 1;
                } else {
                    p = q;
                    break ;
                }
            }
            if matches!(peek(ts, p), Some(Tok::From)) {
                p = from_clause(ts, p + 1)?;
            }
            if matches!(peek(ts, p), Some(Tok::Where)) {
                p = expr(ts, p + 1)?;
            }
            if matches!(peek(ts, p), Some(Tok::Group)) {
                let q = expect(ts, p + 1, matches!(peek(ts, p + 1), Some(Tok::By)))?;
                p = expr_list(ts, q)?;
                if matches!(peek(ts, p), Some(Tok::Having)) {
                    p = expr(ts, p + 1)?;
                }
            }
            Ok(p)
        },
        _ => Err(unexpected(ts, pos)),
    }
}

/// Tables and subqueries joined by commas or joins.
fn from_clause<'a>(ts: &Toks<'a>, pos: usize) -> (r: Result<usize, ParseError<'a>>)
    ensures
        r matches Ok(p) ==> after_non_comma(ts@, p as int),
        read(r, pos as int, ts@),
    decreases ts@.len() - pos, 2nat,
{
    let mut p = table_ref(ts, pos)?;
    loop
        invariant
            pos < p <= ts@.len(),
            after_non_comma(ts@, p as int),
        decreases ts@.len() - p,
    {
        let mut q = p;
        if matches!(peek(ts, q), Some(Tok::Comma)) {
            q = q + 1;
        } else {
            if matches!(peek(ts, q), Some(Tok::Natural)) {
                q = q + 1;
            }
            if matches!(peek(ts, q), Some(Tok::Left)) {
                q = q + 1;
                if matches!(peek(ts, q), Some(Tok::Outer)) {
                    q = q + 1;
                }
            } else if matches!(peek(ts, q), Some(Tok::Inner) | Some(Tok::Cross)) {
                q = q + 1;
            }
            if !matches!(peek(ts, q), Some(Tok::Join)) {
                if q == p {
                    return Ok(p);
                }
                return Err(unexpected(ts, q));
            }
            q = q + 1;
        }
        p = table_ref(ts, q)?;
        if matches!(peek(ts, p), Some(Tok::On)) {
            p = expr(ts, p + 1)?;
        } else if matches!(peek(ts, p), Some(Tok::Using)) {
            let mut u = expect(ts, p + 1, matches!(peek(ts, p + 1), Some(Tok::LeftParen)))?;
            loop
                invariant
                    p < u <= ts@.len(),
                decreases ts@.len() - u,
            {
                let (_, v) = name(ts, u)?;
                if matches!(peek(ts, v), Some(Tok::Comma)) {
                    u = v + 1;
                } else {
                    u = v;
                    break ;
                }
            }
            p = expect(ts, u, matches!(peek(ts, u), Some(Tok::RightParen)))?;
        }
    }
}

/// A table with an optional alias and index hint, or a parenthesised query or join.
fn table_ref<'a>(ts: &Toks<'a>, pos: usize) -> (r: Result<usize, ParseError<'a>>)
    ensures
        r matches Ok(p) ==> after_non_comma(ts@, p as int),
        read(r, pos as int, ts@),
    decreases ts@.len() - pos, 1nat,
{
    let mut p = if matches!(peek(ts, pos), Some(Tok::LeftParen)) {
        let q = match peek(ts, pos + 1) {
            Some(Tok::Select) | Some(Tok::Values) => select(ts, pos + 1)?,
            _ => from_clause(ts, pos + 1)?,
        };
        expect(ts, q, matches!(peek(ts, q), Some(Tok::RightParen)))?
    } else {
        let (_, q) = qualified_name(ts, pos)?;
        q
    };
    if matches!(peek(ts, p), Some(Tok::As)) {
        let (_, q) = name(ts, p + 1)?;
        p = q;
    } else if matches!(peek(ts, p), Some(Tok::Id(_))) {
        p = p + 1;
    }
    if matches!(peek(ts, p), Some(Tok::Indexed)) {
        let q = expect(ts, p + 1, matches!(peek(ts, p + 1), Some(Tok::By)))?;
        let (_, q) = name(ts, q)?;
        p = q;
    } else if matches!(peek(ts, p), Some(Tok::Not)) && matches!(peek(ts, p + 1), Some(Tok::Indexed)) {
        p = p + 2;
    }
    Ok(p)
}

// ---------------------------------------------------------------------------
// Column and table definitions.
// ---------------------------------------------------------------------------

/// A number with an optional sign, as text.
fn signed_number<'a>(ts: &Toks<'a>, pos: usize) -> (r: Result<(String, usize), ParseError<'a>>)
    ensures
        r matches Ok((_, p)) ==> after_non_comma(ts@, p as int),
        moved(r, pos as int, ts@),
{
    let (minus, p) = match peek(ts, pos) {
        Some(Tok::Minus) => (true, pos + 1),
        Some(Tok::Plus) => (false, pos + 1),
        _ => (false, pos),
    };
    match peek(ts, p) {
        Some(Tok::Integer(s)) | Some(Tok::Float(s)) => {
            let mut text = String::from_str("");
            if minus {
                text.append("-");
            }
            text.append(s);
            Ok((text, p + 1))
        },
        _ => Err(unexpected(ts, p)),
    }
}

/// A type: one or more names, then an optional size in parentheses.
fn column_type<'a>(ts: &Toks<'a>, pos: usize) -> (r: Result<(Type, usize), ParseError<'a>>)
    ensures
        r matches Ok((_, p)) ==> after_non_comma(ts@, p as int),
        moved(r, pos as int, ts@),
{
    let (mut tname, mut p) = name(ts, pos)?;
    while is_name(peek(ts, p))
        invariant
            pos < p <= ts@.len(),
            after_non_comma(ts@, p as int),
        decreases ts@.len() - p,
    {
        let (word, q) = name(ts, p)?;
        tname.append(" ");
        tname.append(word.as_str());
        p = q;
    }
    if !matches!(peek(ts, p), Some(Tok::LeftParen)) {
        return Ok((Type { name: tname, size: None }, p));
    }
    let (first, q) = signed_number(ts, p + 1)?;
    if matches!(peek(ts, q), Some(Tok::Comma)) {
        let (second, q) = signed_number(ts, q + 1)?;
        let q = expect(ts, q, matches!(peek(ts, q), Some(Tok::RightParen)))?;
        Ok((Type { name: tname, size: Some(TypeSize::TypeSize(first, second)) }, q))
    } else {
        let q = expect(ts, q, matches!(peek(ts, q), Some(Tok::RightParen)))?;
        Ok((Type { name: tname, size: Some(TypeSize::MaxSize(first)) }, q))
    }
}

/// `ROLLBACK`, `ABORT`, `FAIL`, `IGNORE` or `REPLACE`.
fn resolution<'a>(ts: &Toks<'a>, pos: usize) -> (r: Result<(ConflictClause, usize), ParseError<'a>>)
    ensures
        r matches Ok((_, p)) ==> after_non_comma(ts@, p as int),
        moved(r, pos as int, ts@),
        r matches Ok((_, p)) ==> p == pos + 1,
{
    match peek(ts, pos) {
        Some(Tok::Rollback) => Ok((ConflictClause::OnConflictRollback, pos + 1)),
        Some(Tok::Abort) => Ok((ConflictClause::OnConflictAbort, pos + 1)),
        Some(Tok::Fail) => Ok((ConflictClause::OnConflictFail, pos + 1)),
        Some(Tok::Ignore) => Ok((ConflictClause::OnConflictIgnore, pos + 1)),
        Some(Tok::Replace) => Ok((ConflictClause::OnConflictReplace, pos + 1)),
        _ => Err(unexpected(ts, pos)),
    }
}

/// `ON CONFLICT resolution`, if there.
fn on_conflict<'a>(ts: &Toks<'a>, pos: usize) -> (r: Result<(Option<ConflictClause>, usize), ParseError<'a>>)
    requires
        pos <= ts@.len(),
    ensures
        r matches Ok((_, p)) ==> p == pos || after_non_comma(ts@, p as int),
        stayed(r, pos as int, ts@),
{
    if matches!(peek(ts, pos), Some(Tok::On)) && matches!(peek(ts, pos + 1), Some(Tok::Conflict)) {
        let (c, p) = resolution(ts, pos + 2)?;
        Ok((Some(c), p))
    } else {
        Ok((None, pos))
    }
}

/// What a foreign key does on a change of the parent.
fn ref_act<'a>(ts: &Toks<'a>, pos: usize) -> (r: Result<(RefAct, usize), ParseError<'a>>)
    ensures
        r matches Ok((_, p)) ==> after_non_comma(ts@, p as int),
        moved(r, pos as int, ts@),
{
    match peek(ts, pos) {
        Some(Tok::SetKw) => match peek(ts, pos + 1) {
            Some(Tok::Null) => Ok((RefAct::SetNull, pos + 2)),
            Some(Tok::Default) => Ok((RefAct::SetDefault, pos + 2)),
            _ => Err(unexpected(ts, pos + 1)),
        },
        Some(Tok::Cascade) => Ok((RefAct::Cascade, pos + 1)),
        Some(Tok::Restrict) => Ok((RefAct::Restrict, pos + 1)),
        Some(Tok::No) => {
            let p = expect(ts, pos + 1, matches!(peek(ts, pos + 1), Some(Tok::Action)))?;
            Ok((RefAct::NoAction, p))
        },
        _ => Err(unexpected(ts, pos)),
    }
}

/// A column name with an optional collation and sort order.
fn indexed_column<'a>(ts: &Toks<'a>, pos: usize) -> (r: Result<(IndexedColumn, usize), ParseError<'a>>)
    ensures
        r matches Ok((_, p)) ==> after_non_comma(ts@, p as int),
        moved(r, pos as int, ts@),
{
    let (col_name, mut p) = name(ts, pos)?;
    let mut collation_name = None;
    if matches!(peek(ts, p), Some(Tok::Collate)) {
        let (c, q) = name(ts, p + 1)?;
        collation_name = Some(c);
        p = q;
    }
    let (order, p) = sort_order(ts, p);
    Ok((IndexedColumn { col_name, collation_name, order }, p))
}

/// `( column, ... )` of indexed columns.
fn indexed_columns<'a>(ts: &Toks<'a>, pos: usize) -> (r: Result<(Vec<IndexedColumn>, usize), ParseError<'a>>)
    ensures
        r matches Ok((_, p)) ==> after_non_comma(ts@, p as int),
        moved(r, pos as int, ts@),
        r matches Ok((v, _)) ==> v@.len() >= 1,
{
    let mut p = expect(ts, pos, matches!(peek(ts, pos), Some(Tok::LeftParen)))?;
    let mut out: Vec<IndexedColumn> = Vec::new();
    loop
        invariant
            pos < p <= ts@.len(),
        decreases ts@.len() - p,
    {
        let (c, q) = indexed_column(ts, p)?;
        out.push(c);
        if matches!(peek(ts, q), Some(Tok::Comma)) {
            p = q + 1;
        } else {
            let q = expect(ts, q, matches!(peek(ts, q), Some(Tok::RightParen)))?;
            return Ok((out, q));
        }
    }
}

/// `( expression, ... )` of sorted columns.
fn sorted_columns<'a>(ts: &Toks<'a>, pos: usize) -> (r: Result<(Vec<SortedColumn>, usize), ParseError<'a>>)
    ensures
        r matches Ok((_, p)) ==> after_non_comma(ts@, p as int),
        moved(r, pos as int, ts@),
        r matches Ok((v, _)) ==> v@.len() >= 1,
        r is Ok ==> tok_of(ts@, pos as int) == Some(Tok::LeftParen) && expr_start(tok_of(ts@, pos + 1)),
        tok_of(ts@, pos as int) == Some(Tok::LeftParen) && term_list_end(ts@, pos + 1) is Some && tok_of(
            ts@,
            term_list_end(ts@, pos + 1)->Some_0,
        ) == Some(Tok::RightParen) ==> (r is Ok && r->Ok_0.1 == term_list_end(ts@, pos + 1)->Some_0 + 1),
{
    let p = expect(ts, pos, matches!(peek(ts, pos), Some(Tok::LeftParen)))?;
    let (cols, p) = sorted_list(ts, p)?;
    let p = expect(ts, p, matches!(peek(ts, p), Some(Tok::RightParen)))?;
    Ok((cols, p))
}

/// `REFERENCES table [(columns)]` and its actions.
fn foreign_key_clause<'a>(ts: &Toks<'a>, pos: usize) -> (r: Result<(ForeignKeyClause, usize), ParseError<'a>>)
    ensures
        r matches Ok((_, p)) ==> after_non_comma(ts@, p as int),
        moved(r, pos as int, ts@),
{
    let p = expect(ts, pos, matches!(peek(ts, pos), Some(Tok::References)))?;
    let (tbl_name, mut p) = name(ts, p)?;
    let mut columns = None;
    if matches!(peek(ts, p), Some(Tok::LeftParen)) {
        let (cols, q) = indexed_columns(ts, p)?;
        columns = Some(cols);
        p = q;
    }
    let mut args: Vec<RefArgs> = Vec::new();
    loop
        invariant
            pos < p <= ts@.len(),
            after_non_comma(ts@, p as int),
        decreases ts@.len() - p,
    {
        if matches!(peek(ts, p), Some(Tok::On)) && matches!(peek(ts, p + 1), Some(Tok::Delete)) {
            let (a, q) = ref_act(ts, p + 2)?;
            args.push(RefArgs::OnDelete(a));
            p = q;
        } else if matches!(peek(ts, p), Some(Tok::On)) && matches!(peek(ts, p + 1), Some(Tok::Update)) {
            let (a, q) = ref_act(ts, p + 2)?;
            args.push(RefArgs::OnUpdate(a));
            p = q;
        } else if matches!(peek(ts, p), Some(Tok::Match)) {
            let (n, q) = name(ts, p + 1)?;
            args.push(RefArgs::Match { name: n });
            p = q;
        } else {
            break ;
        }
    }
    let args = if args.len() == 0 {
        None
    } else {
        Some(args)
    };
    Ok((ForeignKeyClause { tbl_name, columns, args }, p))
}

/// `[NOT] DEFERRABLE [INITIALLY DEFERRED | INITIALLY IMMEDIATE]`, if there.
fn defer_subclause<'a>(ts: &Toks<'a>, pos: usize) -> (r: Result<(Option<DeferSubclause>, usize), ParseError<'a>>)
    requires
        pos <= ts@.len(),
    ensures
        r matches Ok((_, p)) ==> p == pos || after_non_comma(ts@, p as int),
        stayed(r, pos as int, ts@),
{
    let (deferrable, p) = if matches!(peek(ts, pos), Some(Tok::Deferrable)) {
        (true, pos + 1)
    } else if matches!(peek(ts, pos), Some(Tok::Not)) && matches!(peek(ts, pos + 1), Some(Tok::Deferrable)) {
        (false, pos + 2)
    } else {
        return Ok((None, pos));
    };
    if matches!(peek(ts, p), Some(Tok::Initially)) {
        match peek(ts, p + 1) {
            Some(Tok::Deferred) => Ok((
                Some(DeferSubclause { deferrable, init_deferred: Some(InitDeferredPred::InitiallyDeferred) }),
                p + 2,
            )),
            Some(Tok::Immediate) => Ok((
                Some(DeferSubclause { deferrable, init_deferred: Some(InitDeferredPred::InitiallyImmediate) }),
                p + 2,
            )),
            _ => Err(unexpected(ts, p + 1)),
        }
    } else {
        Ok((Some(DeferSubclause { deferrable, init_deferred: None }), p))
    }
}

/// `DEFAULT` value: a literal, a signed number, a name, or an expression in parentheses.
fn default_value<'a>(ts: &Toks<'a>, pos: usize) -> (r: Result<usize, ParseError<'a>>)
    ensures
        r matches Ok(p) ==> after_non_comma(ts@, p as int),
        read(r, pos as int, ts@),
{
    match peek(ts, pos) {
        Some(Tok::Minus) | Some(Tok::Plus) => primary(ts, pos + 1),
        _ => primary(ts, pos),
    }
}

pub open spec fn starts_column_constraint<'a>(t: Option<Tok<'a>>) -> bool {
    t matches Some(x) && (x is Constraint || x is Primary || x is Not || x is Null || x is Unique
        || x is Check || x is Default || x is Collate || x is References)
}

pub open spec fn starts_table_constraint<'a>(t: Option<Tok<'a>>) -> bool {
    t matches Some(x) && (x is Constraint || x is Primary || x is Unique || x is Check || x is Foreign)
}

/// One column constraint, with its optional `CONSTRAINT name`.
fn column_constraint<'a>(ts: &Toks<'a>, pos: usize) -> (r: Result<(NamedColumnConstraint, usize), ParseError<'a>>)
    ensures
        r matches Ok((_, p)) ==> after_non_comma(ts@, p as int),
        moved(r, pos as int, ts@),
{
    let (cname, p) = if matches!(peek(ts, pos), Some(Tok::Constraint)) {
        let (n, q) = name(ts, pos + 1)?;
        (Some(n), q)
    } else {
        (None, pos)
    };
    let (constraint, q) = match peek(ts, p) {
        Some(Tok::Primary) => {
            let q = expect(ts, p + 1, matches!(peek(ts, p + 1), Some(Tok::Key)))?;
            let (order, q) = sort_order(ts, q);
            let (conflict_clause, q) = on_conflict(ts, q)?;
            let (auto_increment, q) = if matches!(peek(ts, q), Some(Tok::Autoincr)) {
                (true, q + 1)
            } else {
                (false, q)
            };
            (ColumnConstraint::PrimaryKey { order, conflict_clause, auto_increment }, q)
        },
        Some(Tok::Not) => {
            let q = expect(ts, p + 1, matches!(peek(ts, p + 1), Some(Tok::Null)))?;
            let (conflict_clause, q) = on_conflict(ts, q)?;
            (ColumnConstraint::NotNull { nullable: false, conflict_clause }, q)
        },
        Some(Tok::Null) => {
            let (conflict_clause, q) = on_conflict(ts, p + 1)?;
            (ColumnConstraint::NotNull { nullable: true, conflict_clause }, q)
        },
        Some(Tok::Unique) => {
            let (conflict_clause, q) = on_conflict(ts, p + 1)?;
            (ColumnConstraint::Unique(conflict_clause), q)
        },
        Some(Tok::Check) => {
            let q = expect(ts, p + 1, matches!(peek(ts, p + 1), Some(Tok::LeftParen)))?;
            let q = expr(ts, q)?;
            let q = expect(ts, q, matches!(peek(ts, q), Some(Tok::RightParen)))?;
            (ColumnConstraint::Check(Expr), q)
        },
        Some(Tok::Default) => {
            let q = default_value(ts, p + 1)?;
            (ColumnConstraint::Default(DefaultValue::Expr(Expr)), q)
        },
        Some(Tok::Collate) => {
            let (collation_name, q) = name(ts, p + 1)?;
            (ColumnConstraint::Collate { collation_name }, q)
        },
        Some(Tok::References) => {
            let (clause, q) = foreign_key_clause(ts, p)?;
            let (_, q) = defer_subclause(ts, q)?;
            (ColumnConstraint::ForeignKey(clause), q)
        },
        _ => {
            return Err(unexpected(ts, p));
        },
    };
    Ok((NamedColumnConstraint { name: cname, constraint }, q))
}

/// A column: its name, an optional type, then its constraints.
fn column_def<'a>(ts: &Toks<'a>, pos: usize) -> (r: Result<(ColumnDefinition, usize), ParseError<'a>>)
    ensures
        r matches Ok((_, p)) ==> after_non_comma(ts@, p as int),
        moved(r, pos as int, ts@),
        r matches Ok((c, _)) ==> Some(c.col_name@) == name_text(ts@[pos as int].1),
        name_at(ts@, pos as int) is Some && (tok_of(ts@, pos + 1) == Some(Tok::Comma) || tok_of(ts@, pos + 1) == Some(
            Tok::RightParen,
        )) ==> (r matches Ok((c, p)) && p == pos + 1 && c.col_type is None && c.constraints@.len() == 0),
{
    let (col_name, p) = name(ts, pos)?;
    let (col_type, mut p) = if is_name(peek(ts, p)) {
        let (t, q) = column_type(ts, p)?;
        (Some(t), q)
    } else {
        (None, p)
    };
    let mut constraints: Vec<NamedColumnConstraint> = Vec::new();
    let ghost plain = name_at(ts@, pos as int) is Some && (tok_of(ts@, pos + 1) == Some(Tok::Comma) || tok_of(
        ts@,
        pos + 1,
    ) == Some(Tok::RightParen));
    while starts_column_constraint_at(ts, p)
        invariant
            pos < p <= ts@.len(),
            after_non_comma(ts@, p as int),
            plain == (name_at(ts@, pos as int) is Some && (tok_of(ts@, pos + 1) == Some(Tok::Comma) || tok_of(
                ts@,
                pos + 1,
            ) == Some(Tok::RightParen))),
            plain ==> p == pos + 1 && constraints@.len() == 0 && col_type is None,
        decreases ts@.len() - p,
    {
        let (c, q) = column_constraint(ts, p)?;
        constraints.push(c);
        p = q;
    }
    Ok((ColumnDefinition { col_name, col_type, constraints }, p))
}

fn starts_column_constraint_at<'a>(ts: &Toks<'a>, pos: usize) -> (r: bool)
    ensures
        r == starts_column_constraint(if pos < ts@.len() { Some(ts@[pos as int].1) } else { None }),
{
    matches!(
        peek(ts, pos),
        Some(Tok::Constraint) | Some(Tok::Primary) | Some(Tok::Not) | Some(Tok::Null) | Some(Tok::Unique)
            | Some(Tok::Check) | Some(Tok::Default) | Some(Tok::Collate) | Some(Tok::References)
    )
}

fn starts_table_constraint_at<'a>(ts: &Toks<'a>, pos: usize) -> (r: bool)
    ensures
        r == starts_table_constraint(if pos < ts@.len() { Some(ts@[pos as int].1) } else { None }),
{
    matches!(
        peek(ts, pos),
        Some(Tok::Constraint) | Some(Tok::Primary) | Some(Tok::Unique) | Some(Tok::Check) | Some(Tok::Foreign)
    )
}

/// One table constraint, with its optional `CONSTRAINT name`.
fn table_constraint<'a>(ts: &Toks<'a>, pos: usize) -> (r: Result<(NamedTableConstraint, usize), ParseError<'a>>)
    ensures
        r matches Ok((_, p)) ==> after_non_comma(ts@, p as int),
        moved(r, pos as int, ts@),
{
    let (cname, p) = if matches!(peek(ts, pos), Some(Tok::Constraint)) {
        let (n, q) = name(ts, pos + 1)?;
        (Some(n), q)
    } else {
        (None, pos)
    };
    let (constraint, q) = match peek(ts, p) {
        Some(Tok::Primary) => {
            let q = expect(ts, p + 1, matches!(peek(ts, p + 1), Some(Tok::Key)))?;
            let (columns, q) = sorted_columns(ts, q)?;
            let (auto_increment, q) = if matches!(peek(ts, q), Some(Tok::Autoincr)) {
                (true, q + 1)
            } else {
                (false, q)
            };
            let (conflict_clause, q) = on_conflict(ts, q)?;
            (TableConstraint::PrimaryKey { columns, conflict_clause, auto_increment }, q)
        },
        Some(Tok::Unique) => {
            let (columns, q) = sorted_columns(ts, p + 1)?;
            let (conflict_clause, q) = on_conflict(ts, q)?;
            (TableConstraint::Unique { columns, conflict_clause }, q)
        },
        Some(Tok::Check) => {
            let q = expect(ts, p + 1, matches!(peek(ts, p + 1), Some(Tok::LeftParen)))?;
            let q = expr(ts, q)?;
            let q = expect(ts, q, matches!(peek(ts, q), Some(Tok::RightParen)))?;
            let (_, q) = on_conflict(ts, q)?;
            (TableConstraint::Check(Expr), q)
        },
        Some(Tok::Foreign) => {
            let q = expect(ts, p + 1, matches!(peek(ts, p + 1), Some(Tok::Key)))?;
            let (columns, q) = indexed_columns(ts, q)?;
            let (clause, q) = foreign_key_clause(ts, q)?;
            let (defer, q) = defer_subclause(ts, q)?;
            let deref_clause = match defer {
                Some(d) => d,
                None => DeferSubclause { deferrable: false, init_deferred: None },
            };
            (TableConstraint::ForeignKey { columns, clause, deref_clause }, q)
        },
        _ => {
            return Err(unexpected(ts, p));
        },
    };
    Ok((NamedTableConstraint { name: cname, constraint }, q))
}

/// `( column, ... [, constraint, ...] ) [WITHOUT name]` or `AS select`.
fn create_table_body<'a>(ts: &Toks<'a>, pos: usize) -> (r: Result<(CreateTableBody, usize), ParseError<'a>>)
    ensures
        moved(r, pos as int, ts@),
        r matches Ok((CreateTableBody::ColumnsAndConstraints { columns, .. }, _)) ==> columns@.len() >= 1,
        r matches Ok((body, p)) ==> table_body_at(ts@, pos as int, p as int, body),
        bare_body(ts@, pos as int) is Some ==> (r is Ok && r->Ok_0.1 == bare_body(ts@, pos as int)->Some_0.1),
{
    let ghost hyp = bare_body(ts@, pos as int) is Some;
    let ghost names = bare_body(ts@, pos as int)->Some_0.0;
    let ghost end = bare_body(ts@, pos as int)->Some_0.1;
    if matches!(peek(ts, pos), Some(Tok::As)) {
        let p = select(ts, pos + 1)?;
        return Ok((CreateTableBody::AsSelect(Select), p));
    }
    let mut p = expect(ts, pos, matches!(peek(ts, pos), Some(Tok::LeftParen)))?;
    let mut columns: Vec<ColumnDefinition> = Vec::new();
    let mut constraints: Vec<NamedTableConstraint> = Vec::new();
    loop
        invariant_except_break
            hyp ==> bare_columns(ts@, p as int) == Some((names.subrange(columns@.len() as int, names.len() as int), end))
                && columns_are(columns@, names.subrange(0, columns@.len() as int)) && columns@.len() < names.len(),
        invariant
            pos < p <= ts@.len(),
            tok_of(ts@, pos as int) == Some(Tok::LeftParen),
            columns@.len() == 0 ==> p == pos + 1,
            columns@.len() >= 1 ==> name_at(ts@, pos + 1) is Some,
            hyp == bare_body(ts@, pos as int) is Some,
            names == bare_body(ts@, pos as int)->Some_0.0,
            end == bare_body(ts@, pos as int)->Some_0.1,
        ensures
            pos < p <= ts@.len(),
            after_non_comma(ts@, p as int),
            columns@.len() >= 1,
            name_at(ts@, pos + 1) is Some,
            hyp ==> p + 1 == end && tok_of(ts@, p as int) == Some(Tok::RightParen) && columns_are(columns@, names),
        decreases ts@.len() - p,
    {
        let ghost old_cols = columns@;
        let (c, q) = column_def(ts, p)?;
        columns.push(c);
        proof {
            if hyp {
                let m = old_cols.len() as int;
                let rest = names.subrange(m, names.len() as int);
                assert(name_at(ts@, p as int) == Some(rest[0]));
                assert forall|i: int| 0 <= i < columns@.len() implies (#[trigger] columns@[i]).col_name@ == names[i]
                    && columns@[i].col_type is None && columns@[i].constraints@.len() == 0 by {
                    if i < m {
                        assert(columns@[i] == old_cols[i]);
                        assert(names.subrange(0, m)[i] == names[i]);
                    }
                }
                if tok_of(ts@, p + 1) == Some(Tok::Comma) {
                    let (rest2, e2) = bare_columns(ts@, p + 2)->Some_0;
                    assert(rest =~= seq![rest[0]] + rest2);
                    assert(rest2 =~= rest.subrange(1, rest.len() as int));
                    assert(rest2 =~= names.subrange(m + 1, names.len() as int));
                } else {
                    assert(rest.len() == 1);
                }
                assert(columns_are(columns@, names.subrange(0, columns@.len() as int)));
            }
        }
        if matches!(peek(ts, q), Some(Tok::Comma)) && !starts_table_constraint_at(ts, q + 1) {
            p = q + 1;
        } else {
            p = q;
            break ;
        }
    }
    while matches!(peek(ts, p), Some(Tok::Comma))
        invariant
            pos < p <= ts@.len(),
            columns@.len() >= 1,
            tok_of(ts@, pos as int) == Some(Tok::LeftParen),
            name_at(ts@, pos + 1) is Some,
            after_non_comma(ts@, p as int),
            hyp == bare_body(ts@, pos as int) is Some,
            names == bare_body(ts@, pos as int)->Some_0.0,
            end == bare_body(ts@, pos as int)->Some_0.1,
            hyp ==> p + 1 == end && tok_of(ts@, p as int) == Some(Tok::RightParen) && columns_are(columns@, names)
                && constraints@.len() == 0,
        decreases ts@.len() - p,
    {
        let (c, q) = table_constraint(ts, p + 1)?;
        constraints.push(c);
        p = q;
    }
    let ghost close = p as int;
    let p = expect(ts, p, matches!(peek(ts, p), Some(Tok::RightParen)))?;
    assert(tok_of(ts@, close) == Some(Tok::RightParen) && after_non_comma(ts@, close));
    let (without, p) = if matches!(peek(ts, p), Some(Tok::Without)) {
        let (n, q) = name(ts, p + 1)?;
        (Some(n), q)
    } else {
        (None, p)
    };
    let constraints = if constraints.len() == 0 {
        None
    } else {
        Some(constraints)
    };
    Ok((CreateTableBody::ColumnsAndConstraints { columns, constraints, without }, p))
}

// ---------------------------------------------------------------------------
// Statements.
// ---------------------------------------------------------------------------




/// `[TRANSACTION [name]]` from `p`: the name, and where the clause ends.
pub open spec fn opt_transaction<'a>(ts: Seq<Spanned<Tok<'a>>>, p: int) -> (Option<Seq<char>>, int) {
    if tok_of(ts, p) matches Some(Tok::Transaction) {
        if name_at(ts, p + 1) is Some {
            (name_at(ts, p + 1), p + 2)
        } else {
            (None, p + 1)
        }
    } else {
        (None, p)
    }
}

/// The transaction type that the token selects.
pub open spec fn tx_type_of<'a>(t: Option<Tok<'a>>) -> Option<TransactionType> {
    match t {
        Some(Tok::Deferred) => Some(TransactionType::Deferred),
        Some(Tok::Immediate) => Some(TransactionType::Immediate),
        Some(Tok::Exclusive) => Some(TransactionType::Exclusive),
        _ => None,
    }
}

/// The `ROLLBACK` statement that stands from `s` to `e`, with its names.
pub open spec fn rollback_shape<'a>(
    ts: Seq<Spanned<Tok<'a>>>,
    s: int,
    e: int,
    tx_name: Option<String>,
    savepoint_name: Option<String>,
) -> bool {
    let (tx, k) = opt_transaction(ts, s + 1);
    &&& view_opt(tx_name) == tx
    &&& if tok_of(ts, k) == Some(Tok::To) {
        let j = if tok_of(ts, k + 1) == Some(Tok::Savepoint) { k + 2 } else { k + 1 };
        view_opt(savepoint_name) == name_at(ts, j) && name_at(ts, j) is Some && e == j + 1
    } else {
        savepoint_name is None && e == k
    }
}

/// Where the savepoint name of `RELEASE [SAVEPOINT] name` at `s` stands.
pub open spec fn release_name_at<'a>(ts: Seq<Spanned<Tok<'a>>>, s: int) -> int {
    if tok_of(ts, s + 1) == Some(Tok::Savepoint) { s + 2 } else { s + 1 }
}

/// `q` is the qualified name that stands at `i`.
pub open spec fn qname_is<'a>(ts: Seq<Spanned<Tok<'a>>>, i: int, q: QualifiedName) -> bool {
    qname_at(ts, i) matches Some((db, n, _)) && db == view_opt(q.db_name) && n == q.name@
}

/// The head of `CREATE [UNIQUE] INDEX [IF NOT EXISTS] name ON table` at `s`.
pub open spec fn create_index_header<'a>(
    ts: Seq<Spanned<Tok<'a>>>,
    s: int,
    unique: bool,
    if_not_exists: bool,
    idx_name: QualifiedName,
    tbl_name: String,
) -> bool {
    let k = if unique { s + 2 } else { s + 1 };
    let n = if if_not_exists { k + 4 } else { k + 1 };
    &&& unique == (tok_of(ts, s + 1) == Some(Tok::Unique))
    &&& tok_of(ts, k) == Some(Tok::Index)
    &&& if_not_exists == (tok_of(ts, k + 1) == Some(Tok::If))
    &&& qname_at(ts, n) matches Some((db, nm, after)) && db == view_opt(idx_name.db_name) && nm == idx_name.name@
        && tok_of(ts, after) == Some(Tok::On) && name_at(ts, after + 1) == Some(tbl_name@) && tok_of(ts, after + 2)
        == Some(Tok::LeftParen) && expr_start(tok_of(ts, after + 3))
}

/// The optional target of `REINDEX` or `ANALYZE` at `s`: absent exactly when no
/// name follows the keyword, else the qualified name that ends the statement.
pub open spec fn optional_target<'a>(ts: Seq<Spanned<Tok<'a>>>, s: int, e: int, obj_name: Option<QualifiedName>) -> bool {
    match obj_name {
        None => name_at(ts, s + 1) is None && e == s + 1,
        Some(q) => qname_at(ts, s + 1) == Some((view_opt(q.db_name), q.name@, e)),
    }
}

/// The names of a column list `name, name, ... )` whose first name stands at `i`,
/// and where it ends, past the `)`.
pub open spec fn bare_columns<'a>(ts: Seq<Spanned<Tok<'a>>>, i: int) -> Option<(Seq<Seq<char>>, int)>
    decreases ts.len() - i,
{
    if !(0 <= i < ts.len()) {
        None
    } else {
        match name_at(ts, i) {
            None => None,
            Some(n) => if tok_of(ts, i + 1) == Some(Tok::Comma) {
                match bare_columns(ts, i + 2) {
                    Some((rest, e)) => Some((seq![n] + rest, e)),
                    None => None,
                }
            } else if tok_of(ts, i + 1) == Some(Tok::RightParen) {
                Some((seq![n], i + 2))
            } else {
                None
            },
        }
    }
}

/// A table body `( name, ... )` at `k` of bare column names, followed by the end of
/// the input or `;`: the names, and where the body ends.
pub open spec fn bare_body<'a>(ts: Seq<Spanned<Tok<'a>>>, k: int) -> Option<(Seq<Seq<char>>, int)> {
    if tok_of(ts, k) == Some(Tok::LeftParen) {
        match bare_columns(ts, k + 1) {
            Some((names, e)) => if e == ts.len() || tok_of(ts, e) == Some(Tok::Semi) {
                Some((names, e))
            } else {
                None
            },
            None => None,
        }
    } else {
        None
    }
}

/// The columns are the bare names `names`: no type, no constraint.
pub open spec fn columns_are(columns: Seq<ColumnDefinition>, names: Seq<Seq<char>>) -> bool {
    &&& columns.len() == names.len()
    &&& forall|i: int|
        0 <= i < columns.len() ==> (#[trigger] columns[i]).col_name@ == names[i] && columns[i].col_type is None
            && columns[i].constraints@.len() == 0
}

/// Where `CREATE [TEMP] TABLE [IF NOT EXISTS] name ( name, ... )` at `s` ends, when
/// its body is bare column names and the end of the input or `;` follows.
pub open spec fn create_table_end<'a>(ts: Seq<Spanned<Tok<'a>>>, s: int) -> Option<int> {
    let k = if tok_of(ts, s + 1) == Some(Tok::Temp) { s + 2 } else { s + 1 };
    let ine = tok_of(ts, k + 1) == Some(Tok::If);
    let n = if ine { k + 4 } else { k + 1 };
    if tok_of(ts, s) != Some(Tok::Create) || tok_of(ts, k) != Some(Tok::Table) {
        None
    } else if ine && !(tok_of(ts, k + 2) == Some(Tok::Not) && tok_of(ts, k + 3) == Some(Tok::Exists)) {
        None
    } else {
        match qname_at(ts, n) {
            Some((_, _, b)) => match bare_body(ts, b) {
                Some((_, e)) => Some(e),
                None => None,
            },
            None => None,
        }
    }
}

/// `CREATE [UNIQUE] INDEX [IF NOT EXISTS] name ON table ( term, ... ) [WHERE term]`
/// at `s`, followed by the end of the input or `;`: whether it has a `WHERE`
/// clause, and where it ends.
pub open spec fn create_index_end<'a>(ts: Seq<Spanned<Tok<'a>>>, s: int) -> Option<(bool, int)> {
    let k = if tok_of(ts, s + 1) == Some(Tok::Unique) { s + 2 } else { s + 1 };
    let ine = tok_of(ts, k + 1) == Some(Tok::If);
    let n = if ine { k + 4 } else { k + 1 };
    if tok_of(ts, s) != Some(Tok::Create) || tok_of(ts, k) != Some(Tok::Index) {
        None
    } else if ine && !(tok_of(ts, k + 2) == Some(Tok::Not) && tok_of(ts, k + 3) == Some(Tok::Exists)) {
        None
    } else {
        match qname_at(ts, n) {
            Some((_, _, o)) => if tok_of(ts, o) == Some(Tok::On) && name_at(ts, o + 1) is Some && tok_of(ts, o + 2)
                == Some(Tok::LeftParen) {
                match term_list_end(ts, o + 3) {
                    Some(c) => if tok_of(ts, c) != Some(Tok::RightParen) {
                        None
                    } else if tok_of(ts, c + 1) == Some(Tok::Where) {
                        if simple_term(tok_of(ts, c + 2)) && (c + 3 == ts.len() || tok_of(ts, c + 3) == Some(Tok::Semi)) {
                            Some((true, c + 3))
                        } else {
                            None
                        }
                    } else if c + 1 == ts.len() || tok_of(ts, c + 1) == Some(Tok::Semi) {
                        Some((false, c + 1))
                    } else {
                        None
                    },
                    None => None,
                }
            } else {
                None
            },
            None => None,
        }
    }
}

/// The head of `CREATE [TEMP] TABLE [IF NOT EXISTS] name` at `s`, with its flags and name.
pub open spec fn create_table_header<'a>(
    ts: Seq<Spanned<Tok<'a>>>,
    s: int,
    e: int,
    temporary: bool,
    if_not_exists: bool,
    tbl_name: QualifiedName,
    body: CreateTableBody,
) -> bool {
    let k = if temporary { s + 2 } else { s + 1 };
    let n = if if_not_exists { k + 4 } else { k + 1 };
    &&& temporary == (tok_of(ts, s + 1) == Some(Tok::Temp))
    &&& tok_of(ts, k) == Some(Tok::Table)
    &&& if_not_exists == (tok_of(ts, k + 1) == Some(Tok::If))
    &&& qname_at(ts, n) matches Some((db, name, after)) && db == view_opt(tbl_name.db_name) && name == tbl_name.name@
        && table_body_at(ts, after, e, body)
}

/// The body of a table definition from `k` to `e`: `AS` and a query, or `(` and at
/// least one column, the first of which starts with its name, closed by a `)` that
/// no `,` precedes; a body of bare column names gives exactly those columns.
pub open spec fn table_body_at<'a>(ts: Seq<Spanned<Tok<'a>>>, k: int, e: int, body: CreateTableBody) -> bool {
    match body {
        CreateTableBody::AsSelect(_) => tok_of(ts, k) == Some(Tok::As),
        CreateTableBody::ColumnsAndConstraints { columns, constraints, without } => {
            &&& tok_of(ts, k) == Some(Tok::LeftParen)
            &&& name_at(ts, k + 1) is Some
            &&& columns@.len() >= 1
            &&& exists|c: int| k < c < e && #[trigger] tok_of(ts, c) == Some(Tok::RightParen) && after_non_comma(ts, c)
            &&& (bare_body(ts, k) matches Some((names, _)) ==> columns_are(columns@, names) && constraints is None
                && without is None)
        },
    }
}

/// Where the name of `CREATE [TEMP] kw [IF NOT EXISTS] name` at `s` stands, if the
/// keyword `kw` is there.
pub open spec fn created_name_at<'a>(ts: Seq<Spanned<Tok<'a>>>, s: int, kw: Tok<'a>) -> Option<int> {
    let k = if tok_of(ts, s + 1) == Some(Tok::Temp) { s + 2 } else { s + 1 };
    if tok_of(ts, k) == Some(kw) {
        Some(if tok_of(ts, k + 1) == Some(Tok::If) { k + 4 } else { k + 1 })
    } else {
        None
    }
}

/// Where the first operand of `ATTACH` or `DETACH` at `s` starts.
pub open spec fn operand_at<'a>(ts: Seq<Spanned<Tok<'a>>>, s: int) -> int {
    if tok_of(ts, s + 1) == Some(Tok::Database) { s + 2 } else { s + 1 }
}

/// `st` is what the tokens from `s` to `e` say: a statement of the kind that its first
/// keyword announces, with the names and operands that the kind requires where they
/// stand; transaction, savepoint, `DROP`, `VACUUM`, `REINDEX` and `ANALYZE`
/// statements with their exact extent; the heads of `CREATE TABLE` and
/// `CREATE INDEX` with their flags and names.
pub open spec fn stmt_shape<'a>(ts: Seq<Spanned<Tok<'a>>>, s: int, e: int, st: Stmt) -> bool {
    let t = tok_of(ts, s);
    match st {
        Stmt::Begin { tx_type, tx_name } => {
            let ty = tx_type_of(tok_of(ts, s + 1));
            let k = if ty is Some { s + 2 } else { s + 1 };
            &&& t == Some(Tok::Begin)
            &&& tx_type == ty
            &&& view_opt(tx_name) == opt_transaction(ts, k).0
            &&& e == opt_transaction(ts, k).1
        },
        Stmt::Commit { tx_name } => {
            &&& (t == Some(Tok::Commit) || t == Some(Tok::End))
            &&& view_opt(tx_name) == opt_transaction(ts, s + 1).0
            &&& e == opt_transaction(ts, s + 1).1
        },
        Stmt::Rollback { tx_name, savepoint_name } => t == Some(Tok::Rollback) && rollback_shape(
            ts,
            s,
            e,
            tx_name,
            savepoint_name,
        ),
        Stmt::Savepoint { savepoint_name } => {
            &&& t == Some(Tok::Savepoint)
            &&& name_at(ts, s + 1) is Some
            &&& view_opt(savepoint_name) == name_at(ts, s + 1)
            &&& e == s + 2
        },
        Stmt::Release { savepoint_name } => {
            let j = release_name_at(ts, s);
            &&& t == Some(Tok::Release)
            &&& name_at(ts, j) is Some
            &&& view_opt(savepoint_name) == name_at(ts, j)
            &&& e == j + 1
        },
        Stmt::CreateTable { temporary, if_not_exists, tbl_name, body } => {
            &&& t == Some(Tok::Create)
            &&& create_table_header(ts, s, e, temporary, if_not_exists, tbl_name, body)
            &&& (create_table_end(ts, s) is Some ==> e == create_table_end(ts, s)->Some_0)
        },
        Stmt::CreateIndex { unique, if_not_exists, idx_name, tbl_name, columns, where_clause } => {
            &&& t == Some(Tok::Create)
            &&& create_index_header(ts, s, unique, if_not_exists, idx_name, tbl_name)
            &&& columns@.len() >= 1
            &&& (create_index_end(ts, s) matches Some((has_where, end)) ==> e == end && (where_clause is Some)
                == has_where)
        },
        Stmt::CreateTrigger {  } => {
            &&& t == Some(Tok::Create)
            &&& created_name_at(ts, s, Tok::Trigger) matches Some(n) && qname_at(ts, n) is Some
            &&& exists|j: int| s < j < e && #[trigger] tok_of(ts, j) == Some(Tok::On) && name_at(ts, j + 1) is Some
        },
        Stmt::CreateView {  } => {
            &&& t == Some(Tok::Create)
            &&& created_name_at(ts, s, Tok::View) matches Some(n) && qname_at(ts, n) is Some
            &&& (create_view_end(ts, s) is Some ==> e == create_view_end(ts, s)->Some_0)
        },
        Stmt::CreateVirtualTable {  } => {
            let n = if tok_of(ts, s + 3) == Some(Tok::If) { s + 6 } else { s + 3 };
            &&& t == Some(Tok::Create)
            &&& tok_of(ts, s + 1) == Some(Tok::Virtual)
            &&& tok_of(ts, s + 2) == Some(Tok::Table)
            &&& qname_at(ts, n) matches Some((_, _, k)) && tok_of(ts, k) == Some(Tok::Using) && name_at(ts, k + 1) is Some
        },
        Stmt::DropIndex {  } => t == Some(Tok::Drop) && tok_of(ts, s + 1) == Some(Tok::Index) && drop_end(ts, s) == Some(e),
        Stmt::DropTable {  } => t == Some(Tok::Drop) && tok_of(ts, s + 1) == Some(Tok::Table) && drop_end(ts, s) == Some(e),
        Stmt::DropTrigger {  } => t == Some(Tok::Drop) && tok_of(ts, s + 1) == Some(Tok::Trigger) && drop_end(ts, s)
            == Some(e),
        Stmt::DropView {  } => t == Some(Tok::Drop) && tok_of(ts, s + 1) == Some(Tok::View) && drop_end(ts, s) == Some(e),
        Stmt::AlterTable { tbl_name, .. } => t == Some(Tok::Alter) && tok_of(ts, s + 1) == Some(Tok::Table)
            && qname_is(ts, s + 2, tbl_name),
        Stmt::Analyze { obj_name } => t == Some(Tok::Analyze) && optional_target(ts, s, e, obj_name),
        Stmt::Attach { .. } => {
            &&& t == Some(Tok::Attach)
            &&& expr_start(tok_of(ts, operand_at(ts, s)))
            &&& exists|j: int| operand_at(ts, s) < j < e && #[trigger] tok_of(ts, j) == Some(Tok::As) && expr_start(
                tok_of(ts, j + 1),
            )
        },
        Stmt::Detach { .. } => t == Some(Tok::Detach) && expr_start(tok_of(ts, operand_at(ts, s))),
        Stmt::Reindex { obj_name } => t == Some(Tok::Reindex) && optional_target(ts, s, e, obj_name),
        Stmt::Pragma { name, .. } => t == Some(Tok::Pragma) && qname_is(ts, s + 1, name),
        Stmt::Vacuum { db_name } => {
            &&& t == Some(Tok::Vacuum)
            &&& view_opt(db_name) == name_at(ts, s + 1)
            &&& e == if name_at(ts, s + 1) is Some { s + 2 } else { s + 1 }
        },
        Stmt::Insert {  } => {
            let k = if t == Some(Tok::Insert) && tok_of(ts, s + 1) == Some(Tok::Or) { s + 3 } else { s + 1 };
            &&& (t == Some(Tok::Insert) || t == Some(Tok::Replace))
            &&& tok_of(ts, k) == Some(Tok::Into)
            &&& qname_at(ts, k + 1) is Some
            &&& (insert_end(ts, s) is Some ==> e == insert_end(ts, s)->Some_0)
        },
        Stmt::Update {  } => {
            &&& t == Some(Tok::Update)
            &&& qname_at(ts, if tok_of(ts, s + 1) == Some(Tok::Or) { s + 3 } else { s + 1 }) is Some
            &&& (update_end(ts, s) is Some ==> e == update_end(ts, s)->Some_0)
        },
        Stmt::Delete {  } => {
            &&& t == Some(Tok::Delete)
            &&& tok_of(ts, s + 1) == Some(Tok::From)
            &&& qname_at(ts, s + 2) is Some
            &&& (delete_end(ts, s) is Some ==> e == delete_end(ts, s)->Some_0)
        },
        Stmt::Select(_) => {
            &&& (t == Some(Tok::Select) || t == Some(Tok::Values))
            &&& (query_end(ts, s) is Some ==> e == query_end(ts, s)->Some_0)
        },
    }
}

/// Where `DROP TABLE | VIEW | INDEX | TRIGGER [IF EXISTS] name` at `s` ends, if one
/// well formed stands there.
pub open spec fn drop_end<'a>(ts: Seq<Spanned<Tok<'a>>>, s: int) -> Option<int> {
    let k = tok_of(ts, s + 1);
    let n = if tok_of(ts, s + 2) == Some(Tok::If) { s + 4 } else { s + 2 };
    if !(k == Some(Tok::Table) || k == Some(Tok::View) || k == Some(Tok::Index) || k == Some(Tok::Trigger)) {
        None
    } else if tok_of(ts, s + 2) == Some(Tok::If) && tok_of(ts, s + 3) != Some(Tok::Exists) {
        None
    } else {
        match qname_at(ts, n) {
            Some((_, _, e)) => Some(e),
            None => None,
        }
    }
}

/// Where `ALTER TABLE name RENAME TO name` at `s` ends, if one well formed stands there.
pub open spec fn rename_end<'a>(ts: Seq<Spanned<Tok<'a>>>, s: int) -> Option<int> {
    if tok_of(ts, s + 1) != Some(Tok::Table) {
        None
    } else {
        match qname_at(ts, s + 2) {
            Some((_, _, k)) => if tok_of(ts, k) == Some(Tok::Rename) && tok_of(ts, k + 1) == Some(Tok::To)
                && name_at(ts, k + 2) is Some {
                Some(k + 3)
            } else {
                None
            },
            None => None,
        }
    }
}

/// Where `REINDEX [name]` or `ANALYZE [name]` at `s` ends, if well formed.
pub open spec fn target_end<'a>(ts: Seq<Spanned<Tok<'a>>>, s: int) -> Option<int> {
    if name_at(ts, s + 1) is None {
        Some(s + 1)
    } else {
        match qname_at(ts, s + 1) {
            Some((_, _, e)) => Some(e),
            None => None,
        }
    }
}

/// The end of the input or `;` stands at `e`.
pub open spec fn ends_command<'a>(ts: Seq<Spanned<Tok<'a>>>, e: int) -> bool {
    e == ts.len() || tok_of(ts, e) == Some(Tok::Semi)
}

/// `[WHERE term]` at `p`, followed by the end of the input or `;`: where it ends.
pub open spec fn simple_tail_end<'a>(ts: Seq<Spanned<Tok<'a>>>, p: int) -> Option<int> {
    if tok_of(ts, p) == Some(Tok::Where) {
        if simple_term(tok_of(ts, p + 1)) && ends_command(ts, p + 2) { Some(p + 2) } else { None }
    } else if ends_command(ts, p) {
        Some(p)
    } else {
        None
    }
}

/// Where a list `name = term, ...` of assignments from `i` ends.
pub open spec fn assignments_end<'a>(ts: Seq<Spanned<Tok<'a>>>, i: int) -> Option<int>
    decreases ts.len() - i,
{
    if !(0 <= i < ts.len()) || name_at(ts, i) is None || tok_of(ts, i + 1) != Some(Tok::Equals) || !simple_term(
        tok_of(ts, i + 2),
    ) || !closes_term(tok_of(ts, i + 3)) {
        None
    } else if tok_of(ts, i + 3) == Some(Tok::Comma) {
        assignments_end(ts, i + 4)
    } else {
        Some(i + 3)
    }
}

/// Where `UPDATE name SET name = term, ... [WHERE term]` at `s` ends, when the end
/// of the input or `;` follows.
pub open spec fn update_end<'a>(ts: Seq<Spanned<Tok<'a>>>, s: int) -> Option<int> {
    if tok_of(ts, s) == Some(Tok::Update) && tok_of(ts, s + 1) != Some(Tok::Or) {
        match qname_at(ts, s + 1) {
            Some((_, _, a)) => if tok_of(ts, a) == Some(Tok::SetKw) {
                match assignments_end(ts, a + 1) {
                    Some(b) => simple_tail_end(ts, b),
                    None => None,
                }
            } else {
                None
            },
            None => None,
        }
    } else {
        None
    }
}

/// Where `INSERT INTO name VALUES ( term, ... ), ...` (or `REPLACE INTO ...`) at `s`
/// ends, when the end of the input or `;` follows.
pub open spec fn insert_end<'a>(ts: Seq<Spanned<Tok<'a>>>, s: int) -> Option<int> {
    if (tok_of(ts, s) == Some(Tok::Insert) || tok_of(ts, s) == Some(Tok::Replace)) && tok_of(ts, s + 1) == Some(
        Tok::Into,
    ) {
        match qname_at(ts, s + 2) {
            Some((_, _, k)) => simple_values_end(ts, k),
            None => None,
        }
    } else {
        None
    }
}

/// Where `DELETE FROM name [WHERE term]` at `s` ends, when the end of the input or
/// `;` follows.
pub open spec fn delete_end<'a>(ts: Seq<Spanned<Tok<'a>>>, s: int) -> Option<int> {
    if tok_of(ts, s) == Some(Tok::Delete) && tok_of(ts, s + 1) == Some(Tok::From) {
        match qname_at(ts, s + 2) {
            Some((_, _, k)) => simple_tail_end(ts, k),
            None => None,
        }
    } else {
        None
    }
}

/// Where `CREATE [TEMP] VIEW [IF NOT EXISTS] name AS` and a query of simple terms
/// at `s` ends, when the end of the input or `;` follows.
pub open spec fn create_view_end<'a>(ts: Seq<Spanned<Tok<'a>>>, s: int) -> Option<int> {
    let k = if tok_of(ts, s + 1) == Some(Tok::Temp) { s + 2 } else { s + 1 };
    let ine = tok_of(ts, k + 1) == Some(Tok::If);
    if tok_of(ts, s) != Some(Tok::Create) || tok_of(ts, k) != Some(Tok::View) {
        None
    } else if ine && !(tok_of(ts, k + 2) == Some(Tok::Not) && tok_of(ts, k + 3) == Some(Tok::Exists)) {
        None
    } else {
        match qname_at(ts, if ine { k + 4 } else { k + 1 }) {
            Some((_, _, a)) => if tok_of(ts, a) == Some(Tok::As) { query_end(ts, a + 1) } else { None },
            None => None,
        }
    }
}

/// Where the statement that starts at `s` ends, if it is a well-formed statement of
/// one of these forms, whose expressions are simple terms (literals, variables,
/// bare names):
/// - transaction control: `BEGIN`, `COMMIT` or `END`, `ROLLBACK`, `SAVEPOINT`, `RELEASE`;
/// - `DROP`, `VACUUM`, `REINDEX`, `ANALYZE`, `ALTER TABLE ... RENAME TO`;
/// - `SELECT term, ...` and `VALUES ( term, ... ), ...`;
/// - `CREATE TABLE` of bare column names, `CREATE INDEX` on terms, `CREATE VIEW ... AS`
///   such a query;
/// - `DELETE FROM name [WHERE term]`, `UPDATE name SET name = term, ... [WHERE term]`,
///   `INSERT INTO name VALUES ...`.
pub open spec fn simple_stmt_end<'a>(ts: Seq<Spanned<Tok<'a>>>, s: int) -> Option<int> {
    let t = tok_of(ts, s);
    if t == Some(Tok::Begin) {
        let k = if tx_type_of(tok_of(ts, s + 1)) is Some { s + 2 } else { s + 1 };
        Some(opt_transaction(ts, k).1)
    } else if t == Some(Tok::Commit) || t == Some(Tok::End) {
        Some(opt_transaction(ts, s + 1).1)
    } else if t == Some(Tok::Rollback) {
        let k = opt_transaction(ts, s + 1).1;
        if tok_of(ts, k) == Some(Tok::To) {
            let j = if tok_of(ts, k + 1) == Some(Tok::Savepoint) { k + 2 } else { k + 1 };
            if name_at(ts, j) is Some { Some(j + 1) } else { None }
        } else {
            Some(k)
        }
    } else if t == Some(Tok::Savepoint) {
        if name_at(ts, s + 1) is Some { Some(s + 2) } else { None }
    } else if t == Some(Tok::Release) {
        let j = release_name_at(ts, s);
        if name_at(ts, j) is Some { Some(j + 1) } else { None }
    } else if t == Some(Tok::Drop) {
        drop_end(ts, s)
    } else if t == Some(Tok::Vacuum) {
        Some(if name_at(ts, s + 1) is Some { s + 2 } else { s + 1 })
    } else if t == Some(Tok::Reindex) || t == Some(Tok::Analyze) {
        target_end(ts, s)
    } else if t == Some(Tok::Alter) {
        rename_end(ts, s)
    } else if t == Some(Tok::Select) || t == Some(Tok::Values) {
        query_end(ts, s)
    } else if t == Some(Tok::Insert) || t == Some(Tok::Replace) {
        insert_end(ts, s)
    } else if t == Some(Tok::Delete) {
        delete_end(ts, s)
    } else if t == Some(Tok::Update) {
        update_end(ts, s)
    } else if t == Some(Tok::Create) {
        if create_table_end(ts, s) is Some {
            create_table_end(ts, s)
        } else if create_view_end(ts, s) is Some {
            create_view_end(ts, s)
        } else {
            match create_index_end(ts, s) {
                Some((_, e)) => Some(e),
                None => None,
            }
        }
    } else {
        None
    }
}

/// The tokens from `i` on are well-formed statements of the kinds that
/// `simple_stmt_end` knows, and empty commands, separated by `;`.
pub open spec fn simple_script<'a>(ts: Seq<Spanned<Tok<'a>>>, i: int) -> bool
    decreases ts.len() - i,
{
    if i < 0 || i >= ts.len() {
        true
    } else if ts[i].1 == Tok::Semi {
        simple_script(ts, i + 1)
    } else {
        match simple_stmt_end(ts, i) {
            Some(e) => i < e && (e == ts.len() || (e < ts.len() && ts[e].1 == Tok::Semi && simple_script(ts, e + 1))),
            None => false,
        }
    }
}

/// The first token of run `i` when the tokens are cut at `cuts`.
pub open spec fn run_start(cuts: Seq<int>, i: int) -> int {
    if i == 0 {
        0
    } else {
        cuts[i - 1] + 1
    }
}

/// The end of run `i`: its cut, or the end `n` of the tokens for the last run.
pub open spec fn run_end(cuts: Seq<int>, i: int, n: int) -> int {
    if i < cuts.len() {
        cuts[i]
    } else {
        n
    }
}

/// Slot `i` of `v` agrees with its run: `None` for an empty run, else the statement
/// that the run spells.
pub open spec fn slot_ok<'a>(ts: Seq<Spanned<Tok<'a>>>, cuts: Seq<int>, v: Seq<Option<Stmt>>, i: int) -> bool {
    let s = run_start(cuts, i);
    let e = run_end(cuts, i, ts.len() as int);
    match v[i] {
        None => s == e,
        Some(st) => s < e && stmt_shape(ts, s, e, st),
    }
}

/// `v` are the commands of `ts` cut at the `;` tokens at `cuts`, in order: one
/// slot per run between cuts.
pub open spec fn commands_of<'a>(ts: Seq<Spanned<Tok<'a>>>, cuts: Seq<int>, v: Seq<Option<Stmt>>) -> bool {
    &&& v.len() == cuts.len() + 1
    &&& forall|i: int|
        0 <= i < cuts.len() ==> run_start(cuts, i) <= #[trigger] cuts[i] < ts.len() && ts[cuts[i]].1 == Tok::Semi
    &&& forall|i: int| 0 <= i < v.len() ==> #[trigger] slot_ok(ts, cuts, v, i)
}

/// `[TRANSACTION [name]]`.
fn transaction_clause<'a>(ts: &Toks<'a>, pos: usize) -> (r: (Option<String>, usize))
    requires
        pos <= ts@.len() <= usize::MAX,
    ensures
        view_opt(r.0) == opt_transaction(ts@, pos as int).0,
        r.1 == opt_transaction(ts@, pos as int).1,
        pos <= r.1 <= ts@.len(),
{
    if matches!(peek(ts, pos), Some(Tok::Transaction)) {
        if is_name(peek(ts, pos + 1)) {
            let (n, p) = name(ts, pos + 1).unwrap();
            (Some(n), p)
        } else {
            (None, pos + 1)
        }
    } else {
        (None, pos)
    }
}

/// `BEGIN [DEFERRED | IMMEDIATE | EXCLUSIVE] [TRANSACTION [name]]`.
fn begin<'a>(ts: &Toks<'a>, pos: usize) -> (r: (Stmt, usize))
    requires
        pos < ts@.len() <= usize::MAX,
    ensures
        ({
            let ty = tx_type_of(tok_of(ts@, pos + 1));
            let k = if ty is Some { pos + 2 } else { pos + 1 };
            &&& r.0 matches Stmt::Begin { tx_type, tx_name }
            &&& r.0->tx_type == ty
            &&& view_opt(r.0->Begin_tx_name) == opt_transaction(ts@, k).0
            &&& r.1 == opt_transaction(ts@, k).1
        }),
        pos < r.1 <= ts@.len(),
{
    let (tx_type, p) = match peek(ts, pos + 1) {
        Some(Tok::Deferred) => (Some(TransactionType::Deferred), pos + 2),
        Some(Tok::Immediate) => (Some(TransactionType::Immediate), pos + 2),
        Some(Tok::Exclusive) => (Some(TransactionType::Exclusive), pos + 2),
        _ => (None, pos + 1),
    };
    let (tx_name, p) = transaction_clause(ts, p);
    (Stmt::Begin { tx_type, tx_name }, p)
}

/// `COMMIT` or `END`, then `[TRANSACTION [name]]`.
fn commit<'a>(ts: &Toks<'a>, pos: usize) -> (r: (Stmt, usize))
    requires
        pos < ts@.len() <= usize::MAX,
    ensures
        r.0 matches Stmt::Commit { tx_name } && view_opt(tx_name) == opt_transaction(ts@, pos + 1).0,
        r.1 == opt_transaction(ts@, pos + 1).1,
        pos < r.1 <= ts@.len(),
{
    let (tx_name, p) = transaction_clause(ts, pos + 1);
    (Stmt::Commit { tx_name }, p)
}

/// `ROLLBACK [TRANSACTION [name]] [TO [SAVEPOINT] name]`.
fn rollback<'a>(ts: &Toks<'a>, pos: usize) -> (r: Result<(Stmt, usize), ParseError<'a>>)
    requires
        pos < ts@.len() <= usize::MAX,
    ensures
        moved(r, pos as int, ts@),
        match r {
            Ok((st, p)) => match st {
                Stmt::Rollback { tx_name, savepoint_name } => rollback_shape(ts@, pos as int, p as int, tx_name, savepoint_name),
                _ => false,
            },
            Err(_) => {
                let k = opt_transaction(ts@, pos + 1).1;
                let j = if tok_of(ts@, k + 1) == Some(Tok::Savepoint) { k + 2 } else { k + 1 };
                tok_of(ts@, k) == Some(Tok::To) && name_at(ts@, j) is None
            },
        },
{
    let (tx_name, p) = transaction_clause(ts, pos + 1);
    if matches!(peek(ts, p), Some(Tok::To)) {
        let q = if matches!(peek(ts, p + 1), Some(Tok::Savepoint)) {
            p + 2
        } else {
            p + 1
        };
        let (sp, q) = name(ts, q)?;
        Ok((Stmt::Rollback { tx_name, savepoint_name: Some(sp) }, q))
    } else {
        Ok((Stmt::Rollback { tx_name, savepoint_name: None }, p))
    }
}

/// `SAVEPOINT name`.
fn savepoint<'a>(ts: &Toks<'a>, pos: usize) -> (r: Result<(Stmt, usize), ParseError<'a>>)
    requires
        pos < ts@.len() <= usize::MAX,
    ensures
        moved(r, pos as int, ts@),
        match r {
            Ok((st, p)) => st matches Stmt::Savepoint { savepoint_name } && view_opt(savepoint_name)
                == name_at(ts@, pos + 1) && name_at(ts@, pos + 1) is Some && p == pos + 2,
            Err(_) => name_at(ts@, pos + 1) is None,
        },
{
    let (sp, p) = name(ts, pos + 1)?;
    Ok((Stmt::Savepoint { savepoint_name: Some(sp) }, p))
}

/// `RELEASE [SAVEPOINT] name`.
fn release<'a>(ts: &Toks<'a>, pos: usize) -> (r: Result<(Stmt, usize), ParseError<'a>>)
    requires
        pos < ts@.len() <= usize::MAX,
    ensures
        moved(r, pos as int, ts@),
        ({
            let j = if tok_of(ts@, pos + 1) matches Some(Tok::Savepoint) { pos + 2 } else { pos + 1 };
            match r {
                Ok((st, p)) => st matches Stmt::Release { savepoint_name } && view_opt(savepoint_name)
                    == name_at(ts@, j) && name_at(ts@, j) is Some && p == j + 1,
                Err(_) => name_at(ts@, j) is None,
            }
        }),
{
    let p = if matches!(peek(ts, pos + 1), Some(Tok::Savepoint)) {
        pos + 2
    } else {
        pos + 1
    };
    let (sp, p) = name(ts, p)?;
    Ok((Stmt::Release { savepoint_name: Some(sp) }, p))
}

/// `IF NOT EXISTS`, if there.
fn if_not_exists<'a>(ts: &Toks<'a>, pos: usize) -> (r: Result<(bool, usize), ParseError<'a>>)
    requires
        pos <= ts@.len() <= usize::MAX,
    ensures
        stayed(r, pos as int, ts@),
        r matches Ok((b, p)) ==> (b <==> p == pos + 3) && (!b ==> p == pos) && b == (tok_of(ts@, pos as int)
            == Some(Tok::If)),
        r is Err ==> tok_of(ts@, pos as int) == Some(Tok::If) && !(tok_of(ts@, pos + 1) == Some(Tok::Not) && tok_of(
            ts@,
            pos + 2,
        ) == Some(Tok::Exists)),
{
    if matches!(peek(ts, pos), Some(Tok::If)) {
        let p = expect(ts, pos + 1, matches!(peek(ts, pos + 1), Some(Tok::Not)))?;
        let p = expect(ts, p, matches!(peek(ts, p), Some(Tok::Exists)))?;
        Ok((true, p))
    } else {
        Ok((false, pos))
    }
}

/// `IF EXISTS`, if there.
fn if_exists<'a>(ts: &Toks<'a>, pos: usize) -> (r: Result<(bool, usize), ParseError<'a>>)
    requires
        pos <= ts@.len() <= usize::MAX,
    ensures
        stayed(r, pos as int, ts@),
        match r {
            Ok((b, p)) => b == (tok_of(ts@, pos as int) == Some(Tok::If)) && p == (if b { pos + 2 } else { pos as int })
                && (b ==> tok_of(ts@, pos + 1) == Some(Tok::Exists)),
            Err(_) => tok_of(ts@, pos as int) == Some(Tok::If) && tok_of(ts@, pos + 1) != Some(Tok::Exists),
        },
{
    if matches!(peek(ts, pos), Some(Tok::If)) {
        let p = expect(ts, pos + 1, matches!(peek(ts, pos + 1), Some(Tok::Exists)))?;
        Ok((true, p))
    } else {
        Ok((false, pos))
    }
}

/// `CREATE ...`: a table, an index, a view, a trigger or a virtual table.
#[verifier::rlimit(80)]
fn create<'a>(ts: &Toks<'a>, pos: usize) -> (r: Result<(Stmt, usize), ParseError<'a>>)
    requires
        pos < ts@.len() <= usize::MAX,
        ts@[pos as int].1 == Tok::Create,
    ensures
        r matches Ok((st, p)) ==> stmt_shape(ts@, pos as int, p as int, st),
        create_table_end(ts@, pos as int) is Some ==> (r is Ok && r->Ok_0.1 == create_table_end(ts@, pos as int)->Some_0),
        create_index_end(ts@, pos as int) is Some ==> (r is Ok && r->Ok_0.1 == create_index_end(ts@, pos as int)->Some_0.1),
        create_view_end(ts@, pos as int) is Some ==> (r is Ok && r->Ok_0.1 == create_view_end(ts@, pos as int)->Some_0),
        moved(r, pos as int, ts@),
        r matches Ok((st, _)) ==> st is CreateTable || st is CreateIndex || st is CreateView
            || st is CreateTrigger || st is CreateVirtualTable,
        r matches Ok((Stmt::CreateTable { body: CreateTableBody::ColumnsAndConstraints { columns, .. }, .. }, _))
            ==> columns@.len() >= 1,
        r matches Ok((Stmt::CreateIndex { unique, if_not_exists, idx_name, tbl_name, columns, .. }, _))
            ==> create_index_header(ts@, pos as int, unique, if_not_exists, idx_name, tbl_name) && columns@.len() >= 1,
{
    let (temporary, p) = if matches!(peek(ts, pos + 1), Some(Tok::Temp)) {
        (true, pos + 2)
    } else {
        (false, pos + 1)
    };
    match peek(ts, p) {
        Some(Tok::Table) => {
            let (if_not_exists, q) = if_not_exists(ts, p + 1)?;
            let (tbl_name, q) = qualified_name(ts, q)?;
            let (body, q) = create_table_body(ts, q)?;
            Ok((Stmt::CreateTable { temporary, if_not_exists, tbl_name, body }, q))
        },
        Some(Tok::Unique) | Some(Tok::Index) => {
            if temporary {
                return Err(unexpected(ts, p));
            }
            let (unique, q) = if matches!(peek(ts, p), Some(Tok::Unique)) {
                (true, p + 1)
            } else {
                (false, p)
            };
            let q = expect(ts, q, matches!(peek(ts, q), Some(Tok::Index)))?;
            let (if_not_exists, q) = if_not_exists(ts, q)?;
            let (idx_name, q) = qualified_name(ts, q)?;
            let q = expect(ts, q, matches!(peek(ts, q), Some(Tok::On)))?;
            let (tbl_name, q) = name(ts, q)?;
            let (columns, q) = sorted_columns(ts, q)?;
            let (where_clause, q) = if matches!(peek(ts, q), Some(Tok::Where)) {
                let q = expr(ts, q + 1)?;
                (Some(Where), q)
            } else {
                (None, q)
            };
            Ok((Stmt::CreateIndex { unique, if_not_exists, idx_name, tbl_name, columns, where_clause }, q))
        },
        Some(Tok::View) => {
            let (_, q) = if_not_exists(ts, p + 1)?;
            let (_, mut q) = qualified_name(ts, q)?;
            if matches!(peek(ts, q), Some(Tok::LeftParen)) {
                let (_, after) = indexed_columns(ts, q)?;
                q = after;
            }
            let q = expect(ts, q, matches!(peek(ts, q), Some(Tok::As)))?;
            let q = select(ts, q)?;
            Ok((Stmt::CreateView {  }, q))
        },
        Some(Tok::Trigger) => {
            let q = create_trigger(ts, p + 1)?;
            Ok((Stmt::CreateTrigger {  }, q))
        },
        Some(Tok::Virtual) => {
            if temporary {
                return Err(unexpected(ts, p));
            }
            let q = expect(ts, p + 1, matches!(peek(ts, p + 1), Some(Tok::Table)))?;
            let (_, q) = if_not_exists(ts, q)?;
            let (_, q) = qualified_name(ts, q)?;
            let q = expect(ts, q, matches!(peek(ts, q), Some(Tok::Using)))?;
            let (_, q) = name(ts, q)?;
            let q = if matches!(peek(ts, q), Some(Tok::LeftParen)) {
                module_arguments(ts, q)?
            } else {
                q
            };
            Ok((Stmt::CreateVirtualTable {  }, q))
        },
        _ => Err(unexpected(ts, p)),
    }
}

/// The arguments of a virtual table's module: any tokens, with balanced
/// parentheses, from the `(` at `pos` to its matching `)`.
fn module_arguments<'a>(ts: &Toks<'a>, pos: usize) -> (r: Result<usize, ParseError<'a>>)
    requires
        pos < ts@.len() <= usize::MAX,
        ts@[pos as int].1 is LeftParen,
    ensures
        read(r, pos as int, ts@),
{
    let mut depth: usize = 1;
    let mut p = pos + 1;
    while depth > 0
        invariant
            pos < p <= ts@.len(),
            depth <= p - pos,
        decreases ts@.len() - p,
    {
        match peek(ts, p) {
            None => {
                return Err(unexpected(ts, p));
            },
            Some(Tok::LeftParen) => {
                depth = depth + 1;
            },
            Some(Tok::RightParen) => {
                depth = depth - 1;
            },
            _ => {},
        }
        p = p + 1;
    }
    Ok(p)
}

/// `[IF NOT EXISTS] name [BEFORE | AFTER | INSTEAD OF] event ON table [FOR EACH ROW]
/// [WHEN expr] BEGIN statement; ... END`, after `CREATE [TEMP] TRIGGER`.
fn create_trigger<'a>(ts: &Toks<'a>, pos: usize) -> (r: Result<usize, ParseError<'a>>)
    requires
        pos <= ts@.len() <= usize::MAX,
    ensures
        read(r, pos as int, ts@),
        r is Ok ==> qname_at(ts@, if tok_of(ts@, pos as int) == Some(Tok::If) { pos + 3 } else { pos as int }) is Some,
        r matches Ok(e) ==> exists|j: int|
            pos < j < e && #[trigger] tok_of(ts@, j) == Some(Tok::On) && name_at(ts@, j + 1) is Some,
{
    let (_, p) = if_not_exists(ts, pos)?;
    let ghost head = p;
    let (_, p) = qualified_name(ts, p)?;
    let p = match peek(ts, p) {
        Some(Tok::Before) | Some(Tok::After) => p + 1,
        Some(Tok::Instead) => expect(ts, p + 1, matches!(peek(ts, p + 1), Some(Tok::Of)))?,
        _ => p,
    };
    let p = match peek(ts, p) {
        Some(Tok::Delete) | Some(Tok::Insert) => p + 1,
        Some(Tok::Update) => {
            if matches!(peek(ts, p + 1), Some(Tok::Of)) {
                let mut q = p + 2;
                loop
                    invariant
                        p < q <= ts@.len(),
                    decreases ts@.len() - q,
                {
                    let (_, v) = name(ts, q)?;
                    if matches!(peek(ts, v), Some(Tok::Comma)) {
                        q = v + 1;
                    } else {
                        q = v;
                        break ;
                    }
                }
                q
            } else {
                p + 1
            }
        },
        _ => {
            return Err(unexpected(ts, p));
        },
    };
    let ghost on_at = p as int;
    let p = expect(ts, p, matches!(peek(ts, p), Some(Tok::On)))?;
    let (_, mut p) = name(ts, p)?;
    if matches!(peek(ts, p), Some(Tok::For)) {
        let q = expect(ts, p + 1, matches!(peek(ts, p + 1), Some(Tok::Each)))?;
        p = expect(ts, q, matches!(peek(ts, q), Some(Tok::Row)))?;
    }
    if matches!(peek(ts, p), Some(Tok::When)) {
        p = expr(ts, p + 1)?;
    }
    let mut p = expect(ts, p, matches!(peek(ts, p), Some(Tok::Begin)))?;
    assert(head == if tok_of(ts@, pos as int) == Some(Tok::If) { pos + 3 } else { pos as int });
    loop
        invariant
            pos < on_at < p <= ts@.len(),
            tok_of(ts@, on_at) == Some(Tok::On),
            name_at(ts@, on_at + 1) is Some,
            qname_at(ts@, if tok_of(ts@, pos as int) == Some(Tok::If) { pos + 3 } else { pos as int }) is Some,
        decreases ts@.len() - p,
    {
        let (_, q) = match peek(ts, p) {
            Some(Tok::Update) => update(ts, p)?,
            Some(Tok::Insert) | Some(Tok::Replace) => insert(ts, p)?,
            Some(Tok::Delete) => delete(ts, p)?,
            Some(Tok::Select) | Some(Tok::Values) => {
                let q = select(ts, p)?;
                (Stmt::Select(Select), q)
            },
            _ => {
                return Err(unexpected(ts, p));
            },
        };
        let q = expect(ts, q, matches!(peek(ts, q), Some(Tok::Semi)))?;
        if matches!(peek(ts, q), Some(Tok::End)) {
            return Ok(q + 1);
        }
        p = q;
    }
}

/// `DROP TABLE | VIEW | INDEX | TRIGGER [IF EXISTS] name`.
fn drop<'a>(ts: &Toks<'a>, pos: usize) -> (r: Result<(Stmt, usize), ParseError<'a>>)
    requires
        pos < ts@.len() <= usize::MAX,
        ts@[pos as int].1 == Tok::Drop,
    ensures
        r matches Ok((st, p)) ==> stmt_shape(ts@, pos as int, p as int, st),
        moved(r, pos as int, ts@),
        r matches Ok((st, _)) ==> st is DropTable || st is DropView || st is DropIndex || st is DropTrigger,
        drop_end(ts@, pos as int) is Some ==> (r is Ok && r->Ok_0.1 == drop_end(ts@, pos as int)->Some_0),
{
    let kind = peek(ts, pos + 1);
    if !matches!(kind, Some(Tok::Table) | Some(Tok::View) | Some(Tok::Index) | Some(Tok::Trigger)) {
        return Err(unexpected(ts, pos + 1));
    }
    let (_, p) = if_exists(ts, pos + 2)?;
    let (_, p) = qualified_name(ts, p)?;
    let st = match kind {
        Some(Tok::Table) => Stmt::DropTable {  },
        Some(Tok::View) => Stmt::DropView {  },
        Some(Tok::Index) => Stmt::DropIndex {  },
        _ => Stmt::DropTrigger {  },
    };
    Ok((st, p))
}

/// `ALTER TABLE name RENAME TO name` or `ALTER TABLE name ADD [COLUMN] column`.
fn alter_table<'a>(ts: &Toks<'a>, pos: usize) -> (r: Result<(Stmt, usize), ParseError<'a>>)
    requires
        pos < ts@.len() <= usize::MAX,
    ensures
        moved(r, pos as int, ts@),
        r matches Ok((st, _)) ==> st is AlterTable,
        r matches Ok((Stmt::AlterTable { tbl_name, .. }, _)) ==> tok_of(ts@, pos + 1) == Some(Tok::Table) && qname_is(
            ts@,
            pos + 2,
            tbl_name,
        ),
        rename_end(ts@, pos as int) is Some ==> (r is Ok && r->Ok_0.1 == rename_end(ts@, pos as int)->Some_0),
{
    let p = expect(ts, pos + 1, matches!(peek(ts, pos + 1), Some(Tok::Table)))?;
    let (tbl_name, p) = qualified_name(ts, p)?;
    match peek(ts, p) {
        Some(Tok::Rename) => {
            let q = expect(ts, p + 1, matches!(peek(ts, p + 1), Some(Tok::To)))?;
            let (new_name, q) = name(ts, q)?;
            Ok((Stmt::AlterTable { tbl_name, body: AlterTableBody::RenameTo { tbl_name: new_name } }, q))
        },
        Some(Tok::Add) => {
            let q = if matches!(peek(ts, p + 1), Some(Tok::ColumnKw)) {
                p + 2
            } else {
                p + 1
            };
            let (col, q) = column_def(ts, q)?;
            Ok((Stmt::AlterTable { tbl_name, body: AlterTableBody::AddColumn(col) }, q))
        },
        _ => Err(unexpected(ts, p)),
    }
}

/// `PRAGMA name [= value | (value)]`.
fn pragma<'a>(ts: &Toks<'a>, pos: usize) -> (r: Result<(Stmt, usize), ParseError<'a>>)
    requires
        pos < ts@.len() <= usize::MAX,
    ensures
        moved(r, pos as int, ts@),
        r matches Ok((st, _)) ==> st is Pragma,
        r matches Ok((Stmt::Pragma { name, .. }, _)) ==> qname_is(ts@, pos + 1, name),
{
    let (qname, p) = qualified_name(ts, pos + 1)?;
    match peek(ts, p) {
        Some(Tok::Equals) => {
            let (v, q) = pragma_value(ts, p + 1)?;
            Ok((Stmt::Pragma { name: qname, body: Some(PragmaBody::Equals(v)) }, q))
        },
        Some(Tok::LeftParen) => {
            let (v, q) = pragma_value(ts, p + 1)?;
            let q = expect(ts, q, matches!(peek(ts, q), Some(Tok::RightParen)))?;
            Ok((Stmt::Pragma { name: qname, body: Some(PragmaBody::Call(v)) }, q))
        },
        _ => Ok((Stmt::Pragma { name: qname, body: None }, p)),
    }
}

/// A pragma's value: a name, a string or a signed number, as text.
fn pragma_value<'a>(ts: &Toks<'a>, pos: usize) -> (r: Result<(String, usize), ParseError<'a>>)
    ensures
        moved(r, pos as int, ts@),
{
    match peek(ts, pos) {
        Some(Tok::Id(_)) | Some(Tok::StringLiteral(_)) => name(ts, pos),
        Some(Tok::On) => Ok((String::from_str("ON"), pos + 1)),
        Some(Tok::No) => Ok((String::from_str("NO"), pos + 1)),
        Some(Tok::Delete) => Ok((String::from_str("DELETE"), pos + 1)),
        Some(Tok::Default) => Ok((String::from_str("DEFAULT"), pos + 1)),
        _ => signed_number(ts, pos),
    }
}

/// `INSERT [OR resolution] | REPLACE`, then `INTO name [(columns)]` and
/// `VALUES ...`, a query, or `DEFAULT VALUES`.
fn insert<'a>(ts: &Toks<'a>, pos: usize) -> (r: Result<(Stmt, usize), ParseError<'a>>)
    requires
        pos < ts@.len() <= usize::MAX,
        ts@[pos as int].1 == Tok::Insert || ts@[pos as int].1 == Tok::Replace,
    ensures
        r matches Ok((st, p)) ==> stmt_shape(ts@, pos as int, p as int, st),
        moved(r, pos as int, ts@),
        r matches Ok((st, _)) ==> st is Insert,
        insert_end(ts@, pos as int) is Some ==> (r is Ok && r->Ok_0.1 == insert_end(ts@, pos as int)->Some_0),
{
    let p = if matches!(peek(ts, pos), Some(Tok::Insert)) && matches!(peek(ts, pos + 1), Some(Tok::Or)) {
        let (_, q) = resolution(ts, pos + 2)?;
        q
    } else {
        pos + 1
    };
    let p = expect(ts, p, matches!(peek(ts, p), Some(Tok::Into)))?;
    let (_, mut p) = qualified_name(ts, p)?;
    if matches!(peek(ts, p), Some(Tok::LeftParen)) {
        let (_, q) = indexed_columns(ts, p)?;
        p = q;
    }
    if matches!(peek(ts, p), Some(Tok::Default)) {
        let q = expect(ts, p + 1, matches!(peek(ts, p + 1), Some(Tok::Values)))?;
        return Ok((Stmt::Insert {  }, q));
    }
    let q = select(ts, p)?;
    Ok((Stmt::Insert {  }, q))
}

/// `WHERE expr`, `ORDER BY ...` and `LIMIT ...` of `UPDATE` and `DELETE`, each if there.
fn where_order_limit<'a>(ts: &Toks<'a>, pos: usize) -> (r: Result<((), usize), ParseError<'a>>)
    requires
        pos <= ts@.len() <= usize::MAX,
    ensures
        stayed(r, pos as int, ts@),
        simple_tail_end(ts@, pos as int) is Some ==> (r is Ok && r->Ok_0.1 == simple_tail_end(ts@, pos as int)->Some_0),
{
    let mut p = pos;
    if matches!(peek(ts, p), Some(Tok::Where)) {
        p = expr(ts, p + 1)?;
    }
    if matches!(peek(ts, p), Some(Tok::Order)) {
        let q = expect(ts, p + 1, matches!(peek(ts, p + 1), Some(Tok::By)))?;
        let (_, q) = sorted_list(ts, q)?;
        p = q;
    }
    if matches!(peek(ts, p), Some(Tok::Limit)) {
        p = expr(ts, p + 1)?;
        if matches!(peek(ts, p), Some(Tok::Offset) | Some(Tok::Comma)) {
            p = expr(ts, p + 1)?;
        }
    }
    Ok(((), p))
}

/// `UPDATE [OR resolution] name SET column = expr, ...` and its clauses.
fn update<'a>(ts: &Toks<'a>, pos: usize) -> (r: Result<(Stmt, usize), ParseError<'a>>)
    requires
        pos < ts@.len() <= usize::MAX,
        ts@[pos as int].1 == Tok::Update,
    ensures
        r matches Ok((st, p)) ==> stmt_shape(ts@, pos as int, p as int, st),
        moved(r, pos as int, ts@),
        r matches Ok((st, _)) ==> st is Update,
        update_end(ts@, pos as int) is Some ==> (r is Ok && r->Ok_0.1 == update_end(ts@, pos as int)->Some_0),
{
    let p = if matches!(peek(ts, pos + 1), Some(Tok::Or)) {
        let (_, q) = resolution(ts, pos + 2)?;
        q
    } else {
        pos + 1
    };
    let (_, p) = qualified_name(ts, p)?;
    let mut p = expect(ts, p, matches!(peek(ts, p), Some(Tok::SetKw)))?;
    let ghost hyp = update_end(ts@, pos as int) is Some;
    let ghost list_end = assignments_end(ts@, p as int)->Some_0;
    loop
        invariant_except_break
            hyp ==> assignments_end(ts@, p as int) == Some(list_end),
        invariant
            pos < p <= ts@.len(),
            hyp == update_end(ts@, pos as int) is Some,
            hyp ==> simple_tail_end(ts@, list_end) == update_end(ts@, pos as int),
        ensures
            pos < p <= ts@.len(),
            hyp ==> p == list_end && simple_tail_end(ts@, list_end) == update_end(ts@, pos as int),
        decreases ts@.len() - p,
    {
        let (_, q) = name(ts, p)?;
        let q = expect(ts, q, matches!(peek(ts, q), Some(Tok::Equals)))?;
        let q = expr(ts, q)?;
        if matches!(peek(ts, q), Some(Tok::Comma)) {
            p = q + 1;
        } else {
            p = q;
            break ;
        }
    }
    let (_, p) = where_order_limit(ts, p)?;
    Ok((Stmt::Update {  }, p))
}

/// `DELETE FROM name` and its clauses.
fn delete<'a>(ts: &Toks<'a>, pos: usize) -> (r: Result<(Stmt, usize), ParseError<'a>>)
    requires
        pos < ts@.len() <= usize::MAX,
        ts@[pos as int].1 == Tok::Delete,
    ensures
        r matches Ok((st, p)) ==> stmt_shape(ts@, pos as int, p as int, st),
        moved(r, pos as int, ts@),
        r matches Ok((st, _)) ==> st is Delete,
        delete_end(ts@, pos as int) is Some ==> (r is Ok && r->Ok_0.1 == delete_end(ts@, pos as int)->Some_0),
{
    let p = expect(ts, pos + 1, matches!(peek(ts, pos + 1), Some(Tok::From)))?;
    let (_, p) = qualified_name(ts, p)?;
    let (_, p) = where_order_limit(ts, p)?;
    Ok((Stmt::Delete {  }, p))
}

/// `ATTACH [DATABASE] expr AS expr [KEY expr]`.
fn attach<'a>(ts: &Toks<'a>, pos: usize) -> (r: Result<(Stmt, usize), ParseError<'a>>)
    requires
        pos < ts@.len() <= usize::MAX,
        ts@[pos as int].1 == Tok::Attach,
    ensures
        moved(r, pos as int, ts@),
        r matches Ok((st, p)) ==> stmt_shape(ts@, pos as int, p as int, st),
{
    let p = if matches!(peek(ts, pos + 1), Some(Tok::Database)) {
        pos + 2
    } else {
        pos + 1
    };
    let p = expr(ts, p)?;
    let ghost as_at = p as int;
    let p = expect(ts, p, matches!(peek(ts, p), Some(Tok::As)))?;
    let p = expr(ts, p)?;
    assert(tok_of(ts@, as_at) == Some(Tok::As));
    if matches!(peek(ts, p), Some(Tok::Key)) {
        let q = expr(ts, p + 1)?;
        Ok((Stmt::Attach { expr: Expr, db_name: Expr, key: Some(Expr) }, q))
    } else {
        Ok((Stmt::Attach { expr: Expr, db_name: Expr, key: None }, p))
    }
}

/// `DETACH [DATABASE] expr`.
fn detach<'a>(ts: &Toks<'a>, pos: usize) -> (r: Result<(Stmt, usize), ParseError<'a>>)
    requires
        pos < ts@.len() <= usize::MAX,
        ts@[pos as int].1 == Tok::Detach,
    ensures
        moved(r, pos as int, ts@),
        r matches Ok((st, p)) ==> stmt_shape(ts@, pos as int, p as int, st),
{
    let p = if matches!(peek(ts, pos + 1), Some(Tok::Database)) {
        pos + 2
    } else {
        pos + 1
    };
    let p = expr(ts, p)?;
    Ok((Stmt::Detach { db_name: Expr }, p))
}

/// One statement, from the keyword that starts it.
fn stmt<'a>(ts: &Toks<'a>, pos: usize) -> (r: Result<(Stmt, usize), ParseError<'a>>)
    requires
        pos < ts@.len() <= usize::MAX,
    ensures
        moved(r, pos as int, ts@),
        r matches Ok((st, p)) ==> stmt_shape(ts@, pos as int, p as int, st),
        simple_stmt_end(ts@, pos as int) is Some ==> (r is Ok && r->Ok_0.1 == simple_stmt_end(ts@, pos as int)->Some_0),
{
    match peek(ts, pos) {
        Some(Tok::Begin) => Ok(begin(ts, pos)),
        Some(Tok::Commit) | Some(Tok::End) => Ok(commit(ts, pos)),
        Some(Tok::Rollback) => rollback(ts, pos),
        Some(Tok::Savepoint) => savepoint(ts, pos),
        Some(Tok::Release) => release(ts, pos),
        Some(Tok::Create) => create(ts, pos),
        Some(Tok::Drop) => drop(ts, pos),
        Some(Tok::Alter) => alter_table(ts, pos),
        Some(Tok::Attach) => attach(ts, pos),
        Some(Tok::Detach) => detach(ts, pos),
        Some(Tok::Reindex) | Some(Tok::Analyze) => {
            let (obj_name, p) = if is_name(peek(ts, pos + 1)) {
                let (q, p) = qualified_name(ts, pos + 1)?;
                (Some(q), p)
            } else {
                (None, pos + 1)
            };
            if matches!(peek(ts, pos), Some(Tok::Reindex)) {
                Ok((Stmt::Reindex { obj_name }, p))
            } else {
                Ok((Stmt::Analyze { obj_name }, p))
            }
        },
        Some(Tok::Vacuum) => {
            if is_name(peek(ts, pos + 1)) {
                let (n, p) = name(ts, pos + 1)?;
                Ok((Stmt::Vacuum { db_name: Some(n) }, p))
            } else {
                Ok((Stmt::Vacuum { db_name: None }, pos + 1))
            }
        },
        Some(Tok::Pragma) => pragma(ts, pos),
        Some(Tok::Select) | Some(Tok::Values) => {
            let p = select(ts, pos)?;
            Ok((Stmt::Select(Select), p))
        },
        Some(Tok::Insert) | Some(Tok::Replace) => insert(ts, pos),
        Some(Tok::Update) => update(ts, pos),
        Some(Tok::Delete) => delete(ts, pos),
        _ => Err(unexpected(ts, pos)),
    }
}

/// The tokens `ts` split at some of their `;` tokens give the commands `v`.
pub open spec fn splits_into<'a>(ts: Seq<Spanned<Tok<'a>>>, v: Seq<Option<Stmt>>) -> bool {
    exists|cuts: Seq<int>| commands_of(ts, cuts, v)
}

/// Parses tokens into their commands, in order: one slot per `;`-separated
/// command, `None` for an empty one. Every token is read: a statement must be
/// followed by `;` or the end. Success is promised for scripts of the forms that
/// `simple_stmt_end` knows; a failure is an unexpected token of `ts` or the end of
/// `ts`.
pub fn parse_tokens<'a>(ts: &Vec<Spanned<Tok<'a>>>) -> (r: Result<Vec<Option<Stmt>>, ParseError<'a>>)
    ensures
        r matches Ok(v) ==> splits_into(ts@, v@),
        r matches Err(e) ==> grammar_error(ts@, e),
        ts@.len() == 0 ==> (r matches Ok(v) && v@ == seq![None::<Stmt>]),
        simple_script(ts@, 0) ==> r is Ok,
{
    let mut out: Vec<Option<Stmt>> = Vec::new();
    let mut pos: usize = 0;
    let n = ts.len();
    let ghost mut cuts: Seq<int> = Seq::empty();
    loop
        invariant
            pos <= ts@.len() == n <= usize::MAX,
            out@.len() == cuts.len(),
            pos == run_start(cuts, cuts.len() as int),
            forall|i: int|
                0 <= i < cuts.len() ==> run_start(cuts, i) <= #[trigger] cuts[i] < ts@.len() && ts@[cuts[i]].1
                    == Tok::Semi,
            forall|i: int| 0 <= i < out@.len() ==> #[trigger] slot_ok(ts@, cuts, out@, i),
            simple_script(ts@, 0) ==> simple_script(ts@, pos as int),
        decreases ts@.len() - pos,
    {
        let ghost old_out = out@;
        if pos == n {
            proof {
                if n == 0 && cuts.len() > 0 {
                    assert(run_start(cuts, 0) <= cuts[0] < ts@.len());
                }
            }
            out.push(None);
            assert(n == 0 ==> out@ =~= seq![None::<Stmt>]);
            assert(forall|i: int| 0 <= i < old_out.len() ==> out@[i] == old_out[i]);
            assert(forall|i: int| 0 <= i < out@.len() ==> #[trigger] slot_ok(ts@, cuts, out@, i)) by {
                assert forall|i: int| 0 <= i < out@.len() implies #[trigger] slot_ok(ts@, cuts, out@, i) by {
                    if i < old_out.len() {
                        assert(slot_ok(ts@, cuts, old_out, i));
                    }
                }
            }
            assert(commands_of(ts@, cuts, out@));
            assert(splits_into(ts@, out@));
            return Ok(out);
        }
        if matches!(peek(ts, pos), Some(Tok::Semi)) {
            out.push(None);
            let ghost new_cuts = cuts.push(pos as int);
            assert forall|i: int| 0 <= i < out@.len() implies #[trigger] slot_ok(ts@, new_cuts, out@, i) by {
                if i < old_out.len() {
                    assert(slot_ok(ts@, cuts, old_out, i));
                    assert(run_start(new_cuts, i) == run_start(cuts, i));
                }
            }
            proof {
                cuts = new_cuts;
            }
            pos = pos + 1;
        } else {
            let (st, p) = stmt(ts, pos)?;
            out.push(Some(st));
            if p == n {
                assert forall|i: int| 0 <= i < out@.len() implies #[trigger] slot_ok(ts@, cuts, out@, i) by {
                    if i < old_out.len() {
                        assert(slot_ok(ts@, cuts, old_out, i));
                    }
                }
                assert(commands_of(ts@, cuts, out@));
                assert(splits_into(ts@, out@));
                return Ok(out);
            }
            if !matches!(peek(ts, p), Some(Tok::Semi)) {
                return Err(unexpected(ts, p));
            }
            let ghost new_cuts = cuts.push(p as int);
            assert forall|i: int| 0 <= i < out@.len() implies #[trigger] slot_ok(ts@, new_cuts, out@, i) by {
                if i < old_out.len() {
                    assert(slot_ok(ts@, cuts, old_out, i));
                    assert(run_start(new_cuts, i) == run_start(cuts, i));
                }
            }
            proof {
                cuts = new_cuts;
            }
            pos = p + 1;
        }
    }
}

/// `ts` are the tokens that the tokenizer yields for the bytes `b`, with no error.
pub open spec fn lexes_to<'a>(b: Seq<u8>, ts: Seq<Spanned<Tok<'a>>>) -> bool {
    let ls = lex_all::<'a>(b, 0);
    &&& ts.len() == ls.len()
    &&& forall|i: int| 0 <= i < ts.len() ==> outcome_is(Some(Ok(#[trigger] ts[i])), ls[i], b, 0)
}

/// `v` are the commands of the text whose bytes are `b`.
pub open spec fn parsed_from(b: Seq<u8>, v: Seq<Option<Stmt>>) -> bool {
    exists|ts: Seq<Spanned<Tok<'static>>>| lexes_to(b, ts) && splits_into(ts, v)
}

/// No lexical error is among `ls`.
pub open spec fn lexes_cleanly<'a>(ls: Seq<Lexed<'a>>) -> bool {
    forall|j: int| 0 <= j < ls.len() ==> !(#[trigger] ls[j] is Fail)
}

/// `ls[i]` is the first lexical error.
pub open spec fn first_fail_at<'a>(ls: Seq<Lexed<'a>>, i: int) -> bool {
    0 <= i < ls.len() && ls[i] is Fail && forall|j: int| 0 <= j < i ==> !(#[trigger] ls[j] is Fail)
}

/// The end offset of the last of `ls`, or 0 when there is none.
pub open spec fn lexed_end<'a>(ls: Seq<Lexed<'a>>) -> int {
    if ls.len() > 0 {
        match ls.last() {
            Lexed::Token(_, _, e) => e,
            _ => 0,
        }
    } else {
        0
    }
}

/// Parses `input` into its commands, in order: one slot per `;`-separated
/// command, `None` for an empty one. Tokens are parsed as they come: a grammar
/// error on a token before the first lexical error is returned as it is; else that
/// lexical error is returned as `User`. Success is promised where the tokens form
/// a script of the forms that `simple_stmt_end` knows.
pub fn parse_sql<'a>(input: &'a str) -> (r: Result<Vec<Option<Stmt>>, ParseError<'a>>)
    ensures
        ({
            let b = input.spec_bytes();
            let ls = lex_all::<'a>(b, 0);
            &&& (r matches Err(ParseError::User { error }) ==> exists|i: int|
                #[trigger] first_fail_at(ls, i) && outcome_is(Some(Err(error)), ls[i], b, 0))
            &&& (r matches Err(ParseError::UnrecognizedToken { token }) ==> exists|i: int|
                0 <= i < ls.len() && (forall|j: int| 0 <= j <= i ==> !(#[trigger] ls[j] is Fail))
                    && outcome_is(Some(Ok(token)), #[trigger] ls[i], b, 0))
            &&& (r matches Err(ParseError::UnrecognizedEof { location }) ==> lexes_cleanly(ls) && location
                == lexed_end(ls))
            &&& (!lexes_cleanly(ls) ==> r is Err)
            &&& (r matches Ok(v) ==> lexes_cleanly(ls) && v@.len() >= 1 && parsed_from(b, v@))
            &&& ((exists|ts: Seq<Spanned<Tok<'a>>>| lexes_to(b, ts)) && (forall|ts: Seq<Spanned<Tok<'a>>>|
                #[trigger] lexes_to(b, ts) ==> simple_script(ts, 0)) ==> r is Ok)
        }),
{
    let ghost b = input.spec_bytes();
    let ghost ls = lex_all::<'a>(input.spec_bytes(), 0);
    let _n = input.as_bytes().len();
    let all = tokenize(input, 0);
    let mut ts: Vec<Spanned<Tok<'a>>> = Vec::new();
    let mut i: usize = 0;
    while i < all.len()
        invariant
            b == input.spec_bytes(),
            ls == lex_all::<'a>(b, 0),
            all@.len() == ls.len(),
            forall|k: int| 0 <= k < all@.len() ==> outcome_is(Some(#[trigger] all@[k]), ls[k], b, 0),
            i <= all@.len(),
            forall|j: int| 0 <= j < i ==> !(#[trigger] ls[j] is Fail),
            ts@.len() == i,
            forall|j: int| 0 <= j < i ==> outcome_is(Some(Ok(#[trigger] ts@[j])), ls[j], b, 0),
        decreases all@.len() - i,
    {
        match all[i] {
            Ok(t) => {
                ts.push(t);
            },
            Err(e) => {
                assert(outcome_is(Some(all@[i as int]), ls[i as int], b, 0));
                assert(first_fail_at(ls, i as int));
                assert forall|t2: Seq<Spanned<Tok<'a>>>| #[trigger] lexes_to(b, t2) implies false by {
                    assert(outcome_is(Some(Ok(t2[i as int])), ls[i as int], b, 0));
                }
                assert(!lexes_cleanly(ls));
                let prefix = parse_tokens(&ts);
                if let Err(ParseError::UnrecognizedToken { token }) = prefix {
                    proof {
                        let k = choose|k: int| 0 <= k < ts@.len() && #[trigger] ts@[k] == token;
                        assert(outcome_is(Some(Ok(ts@[k])), ls[k], b, 0));
                    }
                    return Err(ParseError::UnrecognizedToken { token });
                }
                return Err(ParseError::User { error: e });
            },
        }
        assert(outcome_is(Some(all@[i as int]), ls[i as int], b, 0));
        i = i + 1;
    }
    assert(lexes_to(input.spec_bytes(), ts@));
    assert(lexes_cleanly(ls));
    let r = parse_tokens(&ts);
    match &r {
        Ok(v) => {
            assert(parsed_from(input.spec_bytes(), v@));
        },
        Err(ParseError::UnrecognizedToken { token }) => {
            proof {
                let k = choose|k: int| 0 <= k < ts@.len() && #[trigger] ts@[k] == *token;
                assert(outcome_is(Some(Ok(ts@[k])), ls[k], b, 0));
            }
        },
        Err(ParseError::UnrecognizedEof { location }) => {
            if ts.len() > 0 {
                assert(outcome_is(Some(Ok(ts@.last())), ls[ts@.len() - 1], b, 0));
            }
        },
        _ => {},
    }
    r
}

} // verus!
