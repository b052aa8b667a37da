use lrsql::ast::{
    AlterTableBody, ColumnConstraint, ColumnDefinition, CreateTableBody, DeferSubclause,
    InitDeferredPred, PragmaBody, QualifiedName, Select, Stmt, TableConstraint, TransactionType,
    TypeSize, Where,
};
use lrsql::keywords::keywords;
use lrsql::parser::{parse_sql, ParseError};
use lrsql::tok::{error, Error, ErrorCode, Tok, Tokenizer, tokenize};

fn lex(input: &str, shift: usize) -> Vec<Result<(usize, Tok, usize), Error>> {
    let mut lexer = Tokenizer::new(input, shift);
    let mut out = Vec::new();
    while let Some(r) = lexer.next() {
        out.push(r);
    }
    out
}

fn toks(input: &str) -> Vec<Tok> {
    lex(input, 0).into_iter().map(|r| r.unwrap().1).collect()
}

fn codes(input: &str) -> Vec<Result<Tok, ErrorCode>> {
    lex(input, 0).into_iter().map(|r| r.map(|(_, t, _)| t).map_err(|e| e.code)).collect()
}

#[test]
fn only_whitespace_and_comments_lex_to_nothing() {
    for input in ["", "   ", "\t\n\r\x0b\x0c", "-- a comment", " -- x\n -- y\n", "/* x */",
                  "/**/ /* a * / b */\n", "\u{a0}\u{3000}\u{2028}\u{85}", "--\n/*\n*/--"] {
        assert!(lex(input, 0).is_empty(), "input {:?}", input);
    }
}

#[test]
fn unterminated_block_comment_is_an_error_then_the_end() {
    let r = lex("SELECT /* x", 0);
    assert_eq!(r.len(), 2);
    assert_eq!(r[1], Err(Error { location: 7, code: ErrorCode::UnterminatedBlockComment, line: 1 }));
    assert_eq!(codes("/*/"), vec![Err(ErrorCode::UnterminatedBlockComment)]);
}

#[test]
fn quoted_text_keeps_its_doubled_delimiters() {
    assert_eq!(toks("'a''b'"), vec![Tok::StringLiteral("a''b")]);
    assert_eq!(toks("\"a\"\"b\""), vec![Tok::Id("a\"\"b")]);
    assert_eq!(toks("`a``b`"), vec![Tok::Id("a``b")]);
    assert_eq!(toks("\"select\""), vec![Tok::Id("select")]);
}

#[test]
fn keywords_ignore_letter_case() {
    assert_eq!(toks("SELECT"), vec![Tok::Select]);
    assert_eq!(toks("select"), vec![Tok::Select]);
    assert_eq!(toks("SeLeCt"), vec![Tok::Select]);
    assert_eq!(toks("selector"), vec![Tok::Id("selector")]);
    assert_eq!(toks("temporary Temp"), vec![Tok::Temp, Tok::Temp]);
    assert_eq!(toks("set"), vec![Tok::SetKw]);
    assert_eq!(keywords().len(), 124);
}

#[test]
fn blob_literal_boundaries() {
    assert_eq!(codes("SELECT x'ab'"), vec![Ok(Tok::Select), Ok(Tok::Blob("ab"))]);
    assert_eq!(codes("SELECT x'abc'"), vec![Ok(Tok::Select), Err(ErrorCode::MalformedBlobLiteral)]);
    assert_eq!(lex("x''", 0), vec![Ok((1, Tok::Blob(""), 3))]);
    assert_eq!(lex("X'ab'", 0), vec![Ok((1, Tok::Blob("ab"), 5))]);
}

#[test]
fn number_boundaries() {
    assert_eq!(codes("SELECT 1e"), vec![Ok(Tok::Select), Err(ErrorCode::BadNumber)]);
    assert_eq!(codes("SELECT 0x"), vec![Ok(Tok::Select), Err(ErrorCode::MalformedHexInteger)]);
    assert_eq!(codes("SELECT 0x5g"), vec![Ok(Tok::Select), Err(ErrorCode::MalformedHexInteger)]);
    assert_eq!(codes("1ex"), vec![Err(ErrorCode::BadNumber), Ok(Tok::Id("x"))]);
    assert_eq!(codes("12abc+1"), vec![Err(ErrorCode::BadNumber), Ok(Tok::Plus), Ok(Tok::Integer("1"))]);
    assert_eq!(toks("1.5e+3 .5e2"), vec![Tok::Float("1.5e+3"), Tok::Float(".5e2")]);
}

#[test]
fn spans_are_byte_offsets_moved_by_the_shift() {
    assert_eq!(lex("SELECT a", 0), vec![Ok((0, Tok::Select, 6)), Ok((7, Tok::Id("a"), 8))]);
    assert_eq!(lex("SELECT a", 10), vec![Ok((10, Tok::Select, 16)), Ok((17, Tok::Id("a"), 18))]);
    assert_eq!(lex("a<>b", 0)[1], Ok((1, Tok::NotEquals, 3)));
    assert_eq!(lex("é a", 0), vec![Ok((0, Tok::Id("é"), 2)), Ok((3, Tok::Id("a"), 4))]);
    assert_eq!(lex("\u{3000}a", 0), vec![Ok((3, Tok::Id("a"), 4))]);
}

#[test]
fn errors_carry_offset_and_line() {
    assert_eq!(lex("SELECT\n\n'abc", 0), vec![
        Ok((0, Tok::Select, 6)),
        Err(Error { location: 8, code: ErrorCode::UnterminatedLiteral, line: 3 }),
    ]);
    assert_eq!(lex("\n!", 5), vec![Err(Error { location: 6, code: ErrorCode::ExpectedEqualsSign, line: 2 })]);
    assert_eq!(error::<Tok>(ErrorCode::BadNumber, 3, "a\nb\nc"),
               Err(Error { location: 3, code: ErrorCode::BadNumber, line: 2 }));
}

#[test]
fn every_error_code_has_an_input() {
    assert_eq!(codes("{"), vec![Err(ErrorCode::UnrecognizedToken)]);
    assert_eq!(codes("\\a"), vec![Err(ErrorCode::UnrecognizedToken), Ok(Tok::Id("a"))]);
    assert_eq!(codes("'a"), vec![Err(ErrorCode::UnterminatedLiteral)]);
    assert_eq!(codes("[a"), vec![Err(ErrorCode::UnterminatedBracket)]);
    assert_eq!(codes("/* a"), vec![Err(ErrorCode::UnterminatedBlockComment)]);
    assert_eq!(codes("@ a"), vec![Err(ErrorCode::BadVariableName), Ok(Tok::Id("a"))]);
    assert_eq!(codes("1_"), vec![Err(ErrorCode::BadNumber)]);
    assert_eq!(codes("!"), vec![Err(ErrorCode::ExpectedEqualsSign)]);
    assert_eq!(codes("x'g'"), vec![Err(ErrorCode::MalformedBlobLiteral)]);
    assert_eq!(codes("0xz"), vec![Err(ErrorCode::MalformedHexInteger)]);
}

#[test]
fn variables_keep_their_sigil() {
    assert_eq!(toks("? ?7 $a @b #c :d $$x"), vec![
        Tok::Variable(""), Tok::Variable("?7"), Tok::Variable("$a"), Tok::Variable("@b"),
        Tok::Variable("#c"), Tok::Variable(":d"), Tok::Variable("$$x"),
    ]);
}

#[test]
fn tokenize_goes_on_after_errors() {
    let r = tokenize("a ! b", 0);
    assert_eq!(r, vec![
        Ok((0, Tok::Id("a"), 1)),
        Err(Error { location: 2, code: ErrorCode::ExpectedEqualsSign, line: 1 }),
        Ok((4, Tok::Id("b"), 5)),
    ]);
}

#[test]
fn begin_statement_fields() {
    let v = parse_sql("BEGIN EXCLUSIVE TRANSACTION [tx]").unwrap();
    assert_eq!(v, vec![Some(Stmt::Begin { tx_type: Some(TransactionType::Exclusive), tx_name: Some("tx".to_string()) })]);
    assert!(parse_sql("BEGIN tx").is_err());
    assert_eq!(parse_sql("BEGIN").unwrap(), vec![Some(Stmt::Begin { tx_type: None, tx_name: None })]);
    assert_eq!(TransactionType::Deferred.keyword(), "DEFERRED");
}

#[test]
fn create_table_with_one_bare_column() {
    let v = parse_sql("CREATE TABLE test (col)").unwrap();
    assert_eq!(v, vec![Some(Stmt::CreateTable {
        temporary: false,
        if_not_exists: false,
        tbl_name: QualifiedName { db_name: None, name: "test".to_string() },
        body: CreateTableBody::ColumnsAndConstraints {
            columns: vec![ColumnDefinition { col_name: "col".to_string(), col_type: None, constraints: vec![] }],
            constraints: None,
            without: None,
        },
    })]);
    assert!(parse_sql("CREATE TABLE test (PRIMARY KEY (id))").is_err());
}

#[test]
fn create_index_with_where_clause() {
    match parse_sql("CREATE INDEX idx ON test (name) WHERE 1").unwrap().remove(0) {
        Some(Stmt::CreateIndex { unique, if_not_exists, idx_name, tbl_name, columns, where_clause }) => {
            assert!(!unique && !if_not_exists);
            assert_eq!(idx_name, QualifiedName { db_name: None, name: "idx".to_string() });
            assert_eq!(tbl_name, "test");
            assert_eq!(columns.len(), 1);
            assert_eq!(where_clause, Some(Where));
        }
        other => panic!("unexpected {:?}", other),
    }
}

#[test]
fn commands_keep_empty_slots() {
    assert_eq!(parse_sql("SELECT 1; ; SELECT 2").unwrap(),
               vec![Some(Stmt::Select(Select)), None, Some(Stmt::Select(Select))]);
    assert_eq!(parse_sql("").unwrap(), vec![None]);
    assert_eq!(parse_sql("SELECT 1;").unwrap(), vec![Some(Stmt::Select(Select)), None]);
}

#[test]
fn parse_errors_tell_token_end_and_lexical_errors_apart() {
    assert_eq!(parse_sql("BEGIN tx").unwrap_err(),
               ParseError::UnrecognizedToken { token: (6, Tok::Id("tx"), 8) });
    assert_eq!(parse_sql("SAVEPOINT").unwrap_err(), ParseError::UnrecognizedEof { location: 9 });
    assert_eq!(parse_sql("SELECT 'x").unwrap_err(), ParseError::User {
        error: Error { location: 7, code: ErrorCode::UnterminatedLiteral, line: 1 },
    });
    assert!(parse_sql("SELECT 1 2").is_err());
}

#[test]
fn transaction_and_savepoint_names() {
    assert_eq!(parse_sql("ROLLBACK TO SAVEPOINT sp").unwrap(),
               vec![Some(Stmt::Rollback { tx_name: None, savepoint_name: Some("sp".to_string()) })]);
    assert_eq!(parse_sql("END TRANSACTION \"t\"").unwrap(),
               vec![Some(Stmt::Commit { tx_name: Some("t".to_string()) })]);
    assert_eq!(parse_sql("RELEASE x").unwrap(),
               vec![Some(Stmt::Release { savepoint_name: Some("x".to_string()) })]);
}

#[test]
fn column_types_constraints_and_alterations() {
    match parse_sql("CREATE TABLE main.t (id DECIMAL(10,-5) NOT NULL, FOREIGN KEY (id) REFERENCES f(id) DEFERRABLE INITIALLY DEFERRED) WITHOUT ROWID").unwrap().remove(0) {
        Some(Stmt::CreateTable { tbl_name, body: CreateTableBody::ColumnsAndConstraints { columns, constraints, without }, .. }) => {
            assert_eq!(tbl_name.db_name, Some("main".to_string()));
            let ty = columns[0].col_type.clone().unwrap();
            assert_eq!(ty.name, "DECIMAL");
            assert_eq!(ty.size, Some(TypeSize::TypeSize("10".to_string(), "-5".to_string())));
            assert!(matches!(columns[0].constraints[0].constraint, ColumnConstraint::NotNull { nullable: false, conflict_clause: None }));
            match &constraints.unwrap()[0].constraint {
                TableConstraint::ForeignKey { deref_clause, clause, .. } => {
                    assert_eq!(*deref_clause, DeferSubclause { deferrable: true, init_deferred: Some(InitDeferredPred::InitiallyDeferred) });
                    assert_eq!(clause.tbl_name, "f");
                }
                other => panic!("unexpected {:?}", other),
            }
            assert_eq!(without, Some("ROWID".to_string()));
        }
        other => panic!("unexpected {:?}", other),
    }
    match parse_sql("ALTER TABLE t ADD COLUMN c TEXT").unwrap().remove(0) {
        Some(Stmt::AlterTable { body: AlterTableBody::AddColumn(c), .. }) => assert_eq!(c.col_name, "c"),
        other => panic!("unexpected {:?}", other),
    }
    assert_eq!(parse_sql("PRAGMA name=1").unwrap(), vec![Some(Stmt::Pragma {
        name: QualifiedName { db_name: None, name: "name".to_string() },
        body: Some(PragmaBody::Equals("1".to_string())),
    })]);
}

#[test]
fn trigger_bodies_hold_their_own_semicolons() {
    assert_eq!(parse_sql("CREATE TRIGGER t AFTER INSERT ON x BEGIN SELECT RAISE(ABORT, 'no') WHERE NEW.a <> OLD.a; DELETE FROM y; END; VACUUM").unwrap(),
               vec![Some(Stmt::CreateTrigger {}), Some(Stmt::Vacuum { db_name: None })]);
}

#[test]
fn parse_tokens_reads_lexed_tokens() {
    let toks: Vec<(usize, Tok, usize)> = tokenize("SAVEPOINT a; RELEASE SAVEPOINT a", 0)
        .into_iter()
        .map(|r| r.unwrap())
        .collect();
    assert_eq!(lrsql::parser::parse_tokens(&toks).unwrap(), vec![
        Some(Stmt::Savepoint { savepoint_name: Some("a".to_string()) }),
        Some(Stmt::Release { savepoint_name: Some("a".to_string()) }),
    ]);
    assert_eq!(lrsql::parser::parse_tokens(&Vec::new()).unwrap(), vec![None]);
    assert_eq!(lrsql::parser::parse_tokens(&vec![(0, Tok::Semi, 1)]).unwrap(), vec![None, None]);
}

#[test]
fn statement_heads_carry_their_names() {
    assert_eq!(parse_sql("VACUUM main; REINDEX a.b; ANALYZE").unwrap(), vec![
        Some(Stmt::Vacuum { db_name: Some("main".to_string()) }),
        Some(Stmt::Reindex { obj_name: Some(QualifiedName { db_name: Some("a".to_string()), name: "b".to_string() }) }),
        Some(Stmt::Analyze { obj_name: None }),
    ]);
    match parse_sql("CREATE TEMP TABLE IF NOT EXISTS s.t (a INTEGER PRIMARY KEY AUTOINCREMENT)").unwrap().remove(0) {
        Some(Stmt::CreateTable { temporary, if_not_exists, tbl_name, .. }) => {
            assert!(temporary && if_not_exists);
            assert_eq!(tbl_name, QualifiedName { db_name: Some("s".to_string()), name: "t".to_string() });
        }
        other => panic!("unexpected {:?}", other),
    }
    assert_eq!(TransactionType::Immediate.keyword(), "IMMEDIATE");
}

#[test]
fn statements_without_expressions_parse() {
    assert_eq!(parse_sql("DROP TABLE IF EXISTS a.b; VACUUM; ALTER TABLE t RENAME TO u;;ROLLBACK TO x").unwrap(), vec![
        Some(Stmt::DropTable {}),
        Some(Stmt::Vacuum { db_name: None }),
        Some(Stmt::AlterTable {
            tbl_name: QualifiedName { db_name: None, name: "t".to_string() },
            body: AlterTableBody::RenameTo { tbl_name: "u".to_string() },
        }),
        None,
        Some(Stmt::Rollback { tx_name: None, savepoint_name: Some("x".to_string()) }),
    ]);
    assert!(parse_sql("DROP TABLE IF a").is_err());
    assert!(parse_sql("ALTER TABLE t RENAME u").is_err());
}

#[test]
fn grammar_errors_before_a_lexical_error_win() {
    assert_eq!(parse_sql("BEGIN tx; SELECT 1e").unwrap_err(),
               ParseError::UnrecognizedToken { token: (6, Tok::Id("tx"), 8) });
    assert_eq!(parse_sql("SELECT 1; SELECT 1e").unwrap_err(), ParseError::User {
        error: Error { location: 17, code: ErrorCode::BadNumber, line: 1 },
    });
    assert_eq!(parse_sql("SELECT").unwrap_err(), ParseError::UnrecognizedEof { location: 6 });
}

#[test]
fn end_is_a_synonym_of_commit() {
    for r in ["", " TRANSACTION", " TRANSACTION tx"] {
        assert_eq!(parse_sql(&format!("END{}", r)).unwrap(), parse_sql(&format!("COMMIT{}", r)).unwrap());
    }
}

#[test]
fn statements_of_simple_terms_parse() {
    assert_eq!(parse_sql("INSERT INTO t VALUES (1, 'a'), (2, x); UPDATE t SET a = 1, b = x WHERE c; DELETE FROM t WHERE 1; CREATE VIEW v AS SELECT a, b; VALUES (1); CREATE INDEX i ON t (a, b)").unwrap(), vec![
        Some(Stmt::Insert {}),
        Some(Stmt::Update {}),
        Some(Stmt::Delete {}),
        Some(Stmt::CreateView {}),
        Some(Stmt::Select(Select)),
        match parse_sql("CREATE INDEX i ON t (a, b)").unwrap().remove(0) {
            Some(s @ Stmt::CreateIndex { .. }) => Some(s),
            other => panic!("unexpected {:?}", other),
        },
    ]);
    assert!(parse_sql("CREATE TABLE test (col,)").is_err());
    assert!(parse_sql("UPDATE t SET a =").is_err());
}

#[test]
fn a_dangling_comma_never_closes_a_table_body() {
    assert!(parse_sql("CREATE TABLE t (a INTEGER,)").is_err());
    assert!(parse_sql("CREATE TABLE t (a, PRIMARY KEY (a),)").is_err());
    assert!(parse_sql("CREATE TABLE t (a DECIMAL(10,5), b)").is_ok());
}
