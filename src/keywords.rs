//! The keyword table: every reserved word of the dialect with the token it lexes to.
use vstd::prelude::*;

use crate::tok::Tok;

verus! {

/// The keywords, in upper case, each with its token; spellings are unique.
pub open spec fn keyword_table() -> Seq<(&'static str, Tok<'static>)> {
    seq![
        ("ABORT", Tok::Abort),
        ("ACTION", Tok::Action),
        ("ADD", Tok::Add),
        ("AFTER", Tok::After),
        ("ALL", Tok::All),
        ("ALTER", Tok::Alter),
        ("ANALYZE", Tok::Analyze),
        ("AND", Tok::And),
        ("AS", Tok::As),
        ("ASC", Tok::Asc),
        ("ATTACH", Tok::Attach),
        ("AUTOINCREMENT", Tok::Autoincr),
        ("BEFORE", Tok::Before),
        ("BEGIN", Tok::Begin),
        ("BETWEEN", Tok::Between),
        ("BY", Tok::By),
        ("CASCADE", Tok::Cascade),
        ("CASE", Tok::Case),
        ("CAST", Tok::Cast),
        ("CHECK", Tok::Check),
        ("COLLATE", Tok::Collate),
        ("COLUMN", Tok::ColumnKw),
        ("COMMIT", Tok::Commit),
        ("CONFLICT", Tok::Conflict),
        ("CONSTRAINT", Tok::Constraint),
        ("CREATE", Tok::Create),
        ("CROSS", Tok::Cross),
        ("CURRENT_DATE", Tok::CurrentDate),
        ("CURRENT_TIME", Tok::CurrentTime),
        ("CURRENT_TIMESTAMP", Tok::CurrentTimestamp),
        ("DATABASE", Tok::Database),
        ("DEFAULT", Tok::Default),
        ("DEFERRABLE", Tok::Deferrable),
        ("DEFERRED", Tok::Deferred),
        ("DELETE", Tok::Delete),
        ("DESC", Tok::Desc),
        ("DETACH", Tok::Detach),
        ("DISTINCT", Tok::Distinct),
        ("DROP", Tok::Drop),
        ("EACH", Tok::Each),
        ("ELSE", Tok::Else),
        ("END", Tok::End),
        ("ESCAPE", Tok::Escape),
        ("EXCEPT", Tok::Except),
        ("EXCLUSIVE", Tok::Exclusive),
        ("EXISTS", Tok::Exists),
        ("EXPLAIN", Tok::Explain),
        ("FAIL", Tok::Fail),
        ("FOR", Tok::For),
        ("FOREIGN", Tok::Foreign),
        ("FROM", Tok::From),
        ("FULL", Tok::Full),
        ("GLOB", Tok::Glob),
        ("GROUP", Tok::Group),
        ("HAVING", Tok::Having),
        ("IF", Tok::If),
        ("IGNORE", Tok::Ignore),
        ("IMMEDIATE", Tok::Immediate),
        ("IN", Tok::In),
        ("INDEX", Tok::Index),
        ("INDEXED", Tok::Indexed),
        ("INITIALLY", Tok::Initially),
        ("INNER", Tok::Inner),
        ("INSERT", Tok::Insert),
        ("INSTEAD", Tok::Instead),
        ("INTERSECT", Tok::Intersect),
        ("INTO", Tok::Into),
        ("IS", Tok::Is),
        ("ISNULL", Tok::IsNull),
        ("JOIN", Tok::Join),
        ("KEY", Tok::Key),
        ("LEFT", Tok::Left),
        ("LIKE", Tok::Like),
        ("LIMIT", Tok::Limit),
        ("MATCH", Tok::Match),
        ("NATURAL", Tok::Natural),
        ("NO", Tok::No),
        ("NOT", Tok::Not),
        ("NOTNULL", Tok::NotNull),
        ("NULL", Tok::Null),
        ("OF", Tok::Of),
        ("OFFSET", Tok::Offset),
        ("ON", Tok::On),
        ("OR", Tok::Or),
        ("ORDER", Tok::Order),
        ("OUTER", Tok::Outer),
        ("PLAN", Tok::Plan),
        ("PRAGMA", Tok::Pragma),
        ("PRIMARY", Tok::Primary),
        ("QUERY", Tok::Query),
        ("RAISE", Tok::Raise),
        ("RECURSIVE", Tok::Recursive),
        ("REFERENCES", Tok::References),
        ("REGEXP", Tok::Regexp),
        ("REINDEX", Tok::Reindex),
        ("RELEASE", Tok::Release),
        ("RENAME", Tok::Rename),
        ("REPLACE", Tok::Replace),
        ("RESTRICT", Tok::Restrict),
        ("RIGHT", Tok::Right),
        ("ROLLBACK", Tok::Rollback),
        ("ROW", Tok::Row),
        ("SAVEPOINT", Tok::Savepoint),
        ("SELECT", Tok::Select),
        ("SET", Tok::SetKw),
        ("TABLE", Tok::Table),
        ("TEMP", Tok::Temp),
        ("TEMPORARY", Tok::Temp),
        ("THEN", Tok::Then),
        ("TO", Tok::To),
        ("TRANSACTION", Tok::Transaction),
        ("TRIGGER", Tok::Trigger),
        ("UNION", Tok::Union),
        ("UNIQUE", Tok::Unique),
        ("UPDATE", Tok::Update),
        ("USING", Tok::Using),
        ("VACUUM", Tok::Vacuum),
        ("VALUES", Tok::Values),
        ("VIEW", Tok::View),
        ("VIRTUAL", Tok::Virtual),
        ("WHEN", Tok::When),
        ("WHERE", Tok::Where),
        ("WITH", Tok::With),
        ("WITHOUT", Tok::Without),
    ]
}

/// Builds the keyword table as a vector.
pub fn keywords() -> (r: Vec<(&'static str, Tok<'static>)>)
    ensures
        r@ == keyword_table(),
{
    let v = vec![
        ("ABORT", Tok::Abort),
        ("ACTION", Tok::Action),
        ("ADD", Tok::Add),
        ("AFTER", Tok::After),
        ("ALL", Tok::All),
        ("ALTER", Tok::Alter),
        ("ANALYZE", Tok::Analyze),
        ("AND", Tok::And),
        ("AS", Tok::As),
        ("ASC", Tok::Asc),
        ("ATTACH", Tok::Attach),
        ("AUTOINCREMENT", Tok::Autoincr),
        ("BEFORE", Tok::Before),
        ("BEGIN", Tok::Begin),
        ("BETWEEN", Tok::Between),
        ("BY", Tok::By),
        ("CASCADE", Tok::Cascade),
        ("CASE", Tok::Case),
        ("CAST", Tok::Cast),
        ("CHECK", Tok::Check),
        ("COLLATE", Tok::Collate),
        ("COLUMN", Tok::ColumnKw),
        ("COMMIT", Tok::Commit),
        ("CONFLICT", Tok::Conflict),
        ("CONSTRAINT", Tok::Constraint),
        ("CREATE", Tok::Create),
        ("CROSS", Tok::Cross),
        ("CURRENT_DATE", Tok::CurrentDate),
        ("CURRENT_TIME", Tok::CurrentTime),
        ("CURRENT_TIMESTAMP", Tok::CurrentTimestamp),
        ("DATABASE", Tok::Database),
        ("DEFAULT", Tok::Default),
        ("DEFERRABLE", Tok::Deferrable),
        ("DEFERRED", Tok::Deferred),
        ("DELETE", Tok::Delete),
        ("DESC", Tok::Desc),
        ("DETACH", Tok::Detach),
        ("DISTINCT", Tok::Distinct),
        ("DROP", Tok::Drop),
        ("EACH", Tok::Each),
        ("ELSE", Tok::Else),
        ("END", Tok::End),
        ("ESCAPE", Tok::Escape),
        ("EXCEPT", Tok::Except),
        ("EXCLUSIVE", Tok::Exclusive),
        ("EXISTS", Tok::Exists),
        ("EXPLAIN", Tok::Explain),
        ("FAIL", Tok::Fail),
        ("FOR", Tok::For),
        ("FOREIGN", Tok::Foreign),
        ("FROM", Tok::From),
        ("FULL", Tok::Full),
        ("GLOB", Tok::Glob),
        ("GROUP", Tok::Group),
        ("HAVING", Tok::Having),
        ("IF", Tok::If),
        ("IGNORE", Tok::Ignore),
        ("IMMEDIATE", Tok::Immediate),
        ("IN", Tok::In),
        ("INDEX", Tok::Index),
        ("INDEXED", Tok::Indexed),
        ("INITIALLY", Tok::Initially),
        ("INNER", Tok::Inner),
        ("INSERT", Tok::Insert),
        ("INSTEAD", Tok::Instead),
        ("INTERSECT", Tok::Intersect),
        ("INTO", Tok::Into),
        ("IS", Tok::Is),
        ("ISNULL", Tok::IsNull),
        ("JOIN", Tok::Join),
        ("KEY", Tok::Key),
        ("LEFT", Tok::Left),
        ("LIKE", Tok::Like),
        ("LIMIT", Tok::Limit),
        ("MATCH", Tok::Match),
        ("NATURAL", Tok::Natural),
        ("NO", Tok::No),
        ("NOT", Tok::Not),
        ("NOTNULL", Tok::NotNull),
        ("NULL", Tok::Null),
        ("OF", Tok::Of),
        ("OFFSET", Tok::Offset),
        ("ON", Tok::On),
        ("OR", Tok::Or),
        ("ORDER", Tok::Order),
        ("OUTER", Tok::Outer),
        ("PLAN", Tok::Plan),
        ("PRAGMA", Tok::Pragma),
        ("PRIMARY", Tok::Primary),
        ("QUERY", Tok::Query),
        ("RAISE", Tok::Raise),
        ("RECURSIVE", Tok::Recursive),
        ("REFERENCES", Tok::References),
        ("REGEXP", Tok::Regexp),
        ("REINDEX", Tok::Reindex),
        ("RELEASE", Tok::Release),
        ("RENAME", Tok::Rename),
        ("REPLACE", Tok::Replace),
        ("RESTRICT", Tok::Restrict),
        ("RIGHT", Tok::Right),
        ("ROLLBACK", Tok::Rollback),
        ("ROW", Tok::Row),
        ("SAVEPOINT", Tok::Savepoint),
        ("SELECT", Tok::Select),
        ("SET", Tok::SetKw),
        ("TABLE", Tok::Table),
        ("TEMP", Tok::Temp),
        ("TEMPORARY", Tok::Temp),
        ("THEN", Tok::Then),
        ("TO", Tok::To),
        ("TRANSACTION", Tok::Transaction),
        ("TRIGGER", Tok::Trigger),
        ("UNION", Tok::Union),
        ("UNIQUE", Tok::Unique),
        ("UPDATE", Tok::Update),
        ("USING", Tok::Using),
        ("VACUUM", Tok::Vacuum),
        ("VALUES", Tok::Values),
        ("VIEW", Tok::View),
        ("VIRTUAL", Tok::Virtual),
        ("WHEN", Tok::When),
        ("WHERE", Tok::Where),
        ("WITH", Tok::With),
        ("WITHOUT", Tok::Without),
    ];
    assert(v@ =~= keyword_table());
    v
}

} // verus!
