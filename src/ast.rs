//! The syntax tree of statements.
use vstd::prelude::*;

verus! {

/// A statement. The variants without fields stand for statements whose bodies
/// (queries, expressions, trigger programs) are left to the query grammar.
#[derive(Clone, Debug, PartialEq, Eq)]
pub enum Stmt {
    AlterTable {
        tbl_name: QualifiedName,
        body: AlterTableBody,
    },
    Analyze { obj_name: Option<QualifiedName> },
    Attach {
        expr: Expr,
        db_name: Expr,
        key: Option<Expr>,
    },
    Begin {
        tx_type: Option<TransactionType>,
        tx_name: Option<String>,
    },
    Commit { tx_name: Option<String> },
    CreateIndex {
        unique: bool,
        if_not_exists: bool,
        idx_name: QualifiedName,
        tbl_name: String,
        columns: Vec<SortedColumn>,
        where_clause: Option<Where>,
    },
    CreateTable {
        temporary: bool,
        if_not_exists: bool,
        tbl_name: QualifiedName,
        body: CreateTableBody,
    },
    CreateTrigger {},
    CreateView {},
    CreateVirtualTable {},
    Delete {},
    Detach { db_name: Expr },
    DropIndex {},
    DropTable {},
    DropTrigger {},
    DropView {},
    Insert {},
    Pragma {
        name: QualifiedName,
        body: Option<PragmaBody>,
    },
    Reindex { obj_name: Option<QualifiedName> },
    Release { savepoint_name: Option<String> },
    Rollback {
        tx_name: Option<String>,
        savepoint_name: Option<String>,
    },
    Savepoint { savepoint_name: Option<String> },
    Select(Select),
    Update {},
    Vacuum { db_name: Option<String> },
}

/// An expression; its structure is left to the expression grammar.
#[derive(Clone, Debug, PartialEq, Eq)]
pub struct Expr;

/// A query; its structure is left to the query grammar.
#[derive(Clone, Debug, PartialEq, Eq)]
pub struct Select;

/// A `WHERE` condition; its structure is left to the expression grammar.
#[derive(Clone, Debug, PartialEq, Eq)]
pub struct Where;

#[derive(Clone, Debug, PartialEq, Eq)]
pub struct QualifiedName {
    pub db_name: Option<String>,
    pub name: String,
}

#[derive(Clone, Debug, PartialEq, Eq)]
pub enum AlterTableBody {
    RenameTo { tbl_name: String },
    AddColumn(ColumnDefinition),
}

#[derive(Clone, Debug, PartialEq, Eq)]
pub enum CreateTableBody {
    ColumnsAndConstraints {
        columns: Vec<ColumnDefinition>,
        constraints: Option<Vec<NamedTableConstraint>>,
        without: Option<String>,
    },
    AsSelect(Select),
}

#[derive(Clone, Debug, PartialEq, Eq)]
pub struct ColumnDefinition {
    pub col_name: String,
    pub col_type: Option<Type>,
    pub constraints: Vec<NamedColumnConstraint>,
}

#[derive(Clone, Debug, PartialEq, Eq)]
pub struct NamedColumnConstraint {
    pub name: Option<String>,
    pub constraint: ColumnConstraint,
}

#[derive(Clone, Debug, PartialEq, Eq)]
pub enum ColumnConstraint {
    PrimaryKey {
        order: Option<SortOrder>,
        conflict_clause: Option<ConflictClause>,
        auto_increment: bool,
    },
    NotNull {
        nullable: bool,
        conflict_clause: Option<ConflictClause>,
    },
    Unique(Option<ConflictClause>),
    Check(Expr),
    Default(DefaultValue),
    Collate { collation_name: String },
    ForeignKey(ForeignKeyClause),
}

#[derive(Clone, Debug, PartialEq, Eq)]
pub struct NamedTableConstraint {
    pub name: Option<String>,
    pub constraint: TableConstraint,
}

#[derive(Clone, Debug, PartialEq, Eq)]
pub enum TableConstraint {
    PrimaryKey {
        columns: Vec<SortedColumn>,
        conflict_clause: Option<ConflictClause>,
        auto_increment: bool,
    },
    Unique {
        columns: Vec<SortedColumn>,
        conflict_clause: Option<ConflictClause>,
    },
    Check(Expr),
    ForeignKey {
        columns: Vec<IndexedColumn>,
        clause: ForeignKeyClause,
        deref_clause: DeferSubclause,
    },
}

#[derive(Clone, Debug, PartialEq, Eq)]
pub enum SortOrder {
    Asc,
    Desc,
}

#[derive(Clone, Debug, PartialEq, Eq)]
pub enum ConflictClause {
    OnConflictRollback,
    OnConflictAbort,
    OnConflictFail,
    OnConflictIgnore,
    OnConflictReplace,
}

#[derive(Clone, Debug, PartialEq, Eq)]
pub enum DefaultValue {
    Expr(Expr),
}

#[derive(Clone, Debug, PartialEq, Eq)]
pub struct ForeignKeyClause {
    pub tbl_name: String,
    pub columns: Option<Vec<IndexedColumn>>,
    pub args: Option<Vec<RefArgs>>,
}

#[derive(Clone, Debug, PartialEq, Eq)]
pub enum RefArgs {
    OnDelete(RefAct),
    OnUpdate(RefAct),
    Match { name: String },
}

#[derive(Clone, Debug, PartialEq, Eq)]
pub enum RefAct {
    SetNull,
    SetDefault,
    Cascade,
    Restrict,
    NoAction,
}

#[derive(Clone, Debug, PartialEq, Eq)]
pub struct DeferSubclause {
    pub deferrable: bool,
    pub init_deferred: Option<InitDeferredPred>,
}

#[derive(Clone, Debug, PartialEq, Eq)]
pub enum InitDeferredPred {
    InitiallyDeferred,
    InitiallyImmediate,
}

#[derive(Clone, Debug, PartialEq, Eq)]
pub struct IndexedColumn {
    pub col_name: String,
    pub collation_name: Option<String>,
    pub order: Option<SortOrder>,
}

#[derive(Clone, Debug, PartialEq, Eq)]
pub struct SortedColumn {
    pub expr: Expr,
    pub order: Option<SortOrder>,
}

#[derive(Clone, Debug, PartialEq, Eq)]
pub enum PragmaBody {
    Equals(PragmaValue),
    Call(PragmaValue),
}

pub type PragmaValue = String;

#[derive(Clone, Debug, PartialEq, Eq)]
pub struct Type {
    pub name: String,
    pub size: Option<TypeSize>,
}

#[derive(Clone, Debug, PartialEq, Eq)]
pub enum TypeSize {
    MaxSize(String),
    TypeSize(String, String),
}


#[derive(Clone, Copy, Debug, PartialEq, Eq)]
pub enum TransactionType {
    Deferred,
    Immediate,
    Exclusive,
}

impl TransactionType {
    /// The keyword that selects this transaction type.
    pub fn keyword(&self) -> (r: &'static str)
        ensures
            *self == TransactionType::Deferred ==> r@ == "DEFERRED"@,
            *self == TransactionType::Immediate ==> r@ == "IMMEDIATE"@,
            *self == TransactionType::Exclusive ==> r@ == "EXCLUSIVE"@,
    {
        match self {
            TransactionType::Deferred => "DEFERRED",
            TransactionType::Immediate => "IMMEDIATE",
            TransactionType::Exclusive => "EXCLUSIVE",
        }
    }
}

} // verus!
