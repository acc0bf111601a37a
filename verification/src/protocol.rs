//! What the library asks of its surroundings, and what they answer: files, databases and rows.
//!
//! The operations of this library never touch a file or a database themselves. Each is a machine:
//! it hands out a [`Request`], is resumed with the [`Reply`], and ends with a result.

use vstd::prelude::*;

use crate::json::{Json, JsonV};

verus! {

broadcast use crate::json::group_json;

/// A value in a database row or a statement parameter.
#[derive(Debug)]
pub enum Cell {
    Null,
    Integer(i64),
    /// A floating-point value by its JSON text; `None` where JSON has none for it.
    Real(Option<String>),
    Text(String),
    /// A text that is not valid UTF-8: with the bytes in question replaced, and what is wrong.
    Garbled(String, String),
    Blob,
}

/// What a [`Cell`] stands for.
pub enum CellV {
    Null,
    Integer(int),
    Real(Option<Seq<char>>),
    Text(Seq<char>),
    Garbled(Seq<char>, Seq<char>),
    Blob,
}

impl View for Cell {
    type V = CellV;

    open spec fn view(&self) -> CellV {
        match *self {
            Cell::Null => CellV::Null,
            Cell::Integer(n) => CellV::Integer(n as int),
            Cell::Real(t) => CellV::Real(crate::path_util::optional_text(t)),
            Cell::Text(t) => CellV::Text(t@),
            Cell::Garbled(t, e) => CellV::Garbled(t@, e@),
            Cell::Blob => CellV::Blob,
        }
    }
}

/// A statement with its parameters.
#[derive(Debug)]
pub struct Statement {
    pub sql: String,
    pub params: Vec<Cell>,
}

/// What a [`Statement`] stands for.
pub struct StatementV {
    pub sql: Seq<char>,
    pub params: Seq<CellV>,
}

/// The views of a list of cells.
pub open spec fn cells_view(cells: Seq<Cell>) -> Seq<CellV> {
    cells.map_values(|c: Cell| c@)
}

impl View for Statement {
    type V = StatementV;

    open spec fn view(&self) -> StatementV {
        StatementV { sql: self.sql@, params: cells_view(self.params@) }
    }
}

/// The views of a list of statements.
pub open spec fn statements_view(list: Seq<Statement>) -> Seq<StatementV> {
    list.map_values(|s: Statement| s@)
}

/// A statement without parameters.
pub open spec fn statement(sql: Seq<char>) -> StatementV {
    StatementV { sql, params: Seq::empty() }
}

impl StatementV {
    /// This statement with one more parameter.
    pub open spec fn cell(self, c: CellV) -> StatementV {
        StatementV { params: self.params.push(c), ..self }
    }

    /// This statement with one more parameter, a text.
    pub open spec fn text(self, t: Seq<char>) -> StatementV {
        self.cell(CellV::Text(t))
    }

    /// This statement with one more parameter, a text or null.
    pub open spec fn maybe(self, t: Option<Seq<char>>) -> StatementV {
        self.cell(
            match t {
                Some(t) => CellV::Text(t),
                None => CellV::Null,
            },
        )
    }

    /// This statement with one more parameter for each of `list`.
    pub open spec fn texts(self, list: Seq<Seq<char>>) -> StatementV {
        StatementV { params: self.params + list.map_values(|t: Seq<char>| CellV::Text(t)), ..self }
    }
}

impl Statement {
    /// A statement without parameters.
    pub fn new(sql: &str) -> (r: Statement)
        ensures
            r@ == statement(sql@),
    {
        let params: Vec<Cell> = Vec::new();
        assert(cells_view(params@) =~= Seq::empty());
        Statement { sql: sql.to_string(), params }
    }

    fn cell(self, c: Cell) -> (r: Statement)
        ensures
            r@ == self@.cell(c@),
    {
        let mut params = self.params;
        let ghost before = params@;
        let ghost cv = c@;
        params.push(c);
        assert(cells_view(params@) =~= cells_view(before).push(cv));
        Statement { sql: self.sql, params }
    }

    /// This statement with one more parameter, a text.
    pub fn text(self, t: &str) -> (r: Statement)
        ensures
            r@ == self@.text(t@),
    {
        self.cell(Cell::Text(t.to_string()))
    }

    /// This statement with one more parameter, a text or null.
    pub fn maybe(self, t: &Option<String>) -> (r: Statement)
        ensures
            r@ == self@.maybe(crate::path_util::optional_text(*t)),
    {
        match t {
            Some(t) => self.cell(Cell::Text(t.clone())),
            None => self.cell(Cell::Null),
        }
    }

    /// This statement with one more parameter, an integer.
    pub fn number(self, n: i64) -> (r: Statement)
        ensures
            r@ == self@.cell(CellV::Integer(n as int)),
    {
        self.cell(Cell::Integer(n))
    }

    /// This statement with one more parameter for each of `list`.
    pub fn texts(self, list: &Vec<String>) -> (r: Statement)
        ensures
            r@ == self@.texts(crate::text::strings(list@)),
    {
        let ghost start = self@;
        let ghost all = crate::text::strings(list@);
        let mut s = self;
        let mut i: usize = 0;
        assert(start.texts(all.take(0)).params =~= start.params);
        while i < list.len()
            invariant
                i <= list@.len(),
                all == crate::text::strings(list@),
                s@ == start.texts(all.take(i as int)),
            decreases list@.len() - i,
        {
            s = s.text(list[i].as_str());
            proof {
                assert(all.take(i + 1) =~= all.take(i as int).push(all[i as int]));
                assert(start.texts(all.take(i + 1)).params =~= start.texts(
                    all.take(i as int),
                ).text(all[i as int]).params);
            }
            i += 1;
        }
        assert(all.take(i as int) =~= all);
        s
    }
}

/// A database row: its columns in order, each with its name.
pub type Row = Vec<(String, Cell)>;

/// A row as a value of views.
pub type RowV = Seq<(Seq<char>, CellV)>;

/// The view of a row.
pub open spec fn row_view(row: Seq<(String, Cell)>) -> RowV {
    row.map_values(|c: (String, Cell)| (c.0@, c.1@))
}

/// The views of a list of rows.
pub open spec fn rows_view(rows: Seq<Row>) -> Seq<RowV> {
    rows.map_values(|r: Row| row_view(r@))
}

/// Why a database call failed.
#[derive(Debug)]
pub struct Failure {
    /// The diagnostic in full.
    pub text: String,
    /// The message of the engine itself, where the engine failed and gave one.
    pub engine: Option<String>,
    /// Whether the engine reported that the database is busy or locked.
    pub busy: bool,
}

/// What a [`Failure`] stands for.
pub struct FailureV {
    pub text: Seq<char>,
    pub engine: Option<Seq<char>>,
    pub busy: bool,
}

impl View for Failure {
    type V = FailureV;

    open spec fn view(&self) -> FailureV {
        FailureV {
            text: self.text@,
            engine: crate::path_util::optional_text(self.engine),
            busy: self.busy,
        }
    }
}

/// The database connections of a session.
#[derive(Debug, Clone, Copy, PartialEq, Eq, Structural)]
pub enum Handle {
    /// The database that the session works on.
    Main,
    /// A backup file that is read.
    Source,
    /// The database that a restore is about to replace.
    Existing,
    /// A file that a database is copied into.
    Copy,
}

/// What an operation asks for.
#[derive(Debug)]
pub enum Request {
    /// The bytes of a file: `File`.
    ReadFile(String),
    /// The text of a file: `Text`, `Missing` where there is no such file, or `IoFailed`.
    ReadText(String),
    /// The text of standard input for `-`, else of a file: `Text` or `IoFailed`.
    ReadInput(String),
    /// A file with this text, in a directory that is made where it is missing; what was there is
    /// replaced in one step: `Done` or `IoFailed`.
    WriteText(String, String),
    /// Whether something exists at a path: `Flag`.
    Exists(String),
    /// Whether a path is a regular file: `Flag`.
    IsFile(String),
    /// A directory with all its parents: `Done` or `IoFailed`.
    CreateDirs(String),
    /// No file at a path any more; what goes wrong is ignored: `Done`.
    Remove(String),
    /// A file under another name, in one step: `Done` or `IoFailed`.
    Rename(String, String),
    /// A new database in memory: `Done` or `Failed`.
    OpenMemory,
    /// A database file, created where it is missing: `Done` or `Failed`.
    OpenFile(Handle, String),
    /// A database by a URI, to read only: `Done` or `Failed`.
    OpenReadOnly(Handle, String),
    /// The end of a connection: `Done`.
    Close(Handle),
    /// Statements without parameters, run one after the other: `Done` or `Failed`.
    Script(Handle, String),
    /// The rows of a statement: `Rows` or `Failed`.
    Query(Handle, Statement),
    /// A statement that changes the main database: `Done` or `Failed`.
    Execute(Statement),
    /// Statements in one immediate transaction of the main database; where one of them or the
    /// commit fails, none takes effect: `Done` or `Failed`.
    Write(Vec<Statement>),
    /// A read transaction of the main database that lasts until the operation ends: `Done` or
    /// `Failed`.
    BeginRead,
    /// A database copied page by page into another: `Done`, `Failed` where the copy cannot start,
    /// `Broken` where it stops on the way.
    Copy(Handle, Handle),
}

/// What a [`Request`] stands for.
pub enum RequestV {
    ReadFile(Seq<char>),
    ReadText(Seq<char>),
    ReadInput(Seq<char>),
    WriteText(Seq<char>, Seq<char>),
    Exists(Seq<char>),
    IsFile(Seq<char>),
    CreateDirs(Seq<char>),
    Remove(Seq<char>),
    Rename(Seq<char>, Seq<char>),
    OpenMemory,
    OpenFile(Handle, Seq<char>),
    OpenReadOnly(Handle, Seq<char>),
    Close(Handle),
    Script(Handle, Seq<char>),
    Query(Handle, StatementV),
    Execute(StatementV),
    Write(Seq<StatementV>),
    BeginRead,
    Copy(Handle, Handle),
}

impl View for Request {
    type V = RequestV;

    open spec fn view(&self) -> RequestV {
        match *self {
            Request::ReadFile(p) => RequestV::ReadFile(p@),
            Request::ReadText(p) => RequestV::ReadText(p@),
            Request::ReadInput(p) => RequestV::ReadInput(p@),
            Request::WriteText(p, t) => RequestV::WriteText(p@, t@),
            Request::Exists(p) => RequestV::Exists(p@),
            Request::IsFile(p) => RequestV::IsFile(p@),
            Request::CreateDirs(p) => RequestV::CreateDirs(p@),
            Request::Remove(p) => RequestV::Remove(p@),
            Request::Rename(p, q) => RequestV::Rename(p@, q@),
            Request::OpenMemory => RequestV::OpenMemory,
            Request::OpenFile(h, p) => RequestV::OpenFile(h, p@),
            Request::OpenReadOnly(h, p) => RequestV::OpenReadOnly(h, p@),
            Request::Close(h) => RequestV::Close(h),
            Request::Script(h, s) => RequestV::Script(h, s@),
            Request::Query(h, s) => RequestV::Query(h, s@),
            Request::Execute(s) => RequestV::Execute(s@),
            Request::Write(list) => RequestV::Write(statements_view(list@)),
            Request::BeginRead => RequestV::BeginRead,
            Request::Copy(from, to) => RequestV::Copy(from, to),
        }
    }
}

/// What the surroundings answer.
#[derive(Debug)]
pub enum Reply {
    /// The bytes of a file, or nothing where it could not be read.
    File(Option<Vec<u8>>),
    Text(String),
    Missing,
    Flag(bool),
    Done,
    Rows(Vec<Row>),
    Failed(Failure),
    Broken(Failure),
    IoFailed(String),
}

/// What a [`Reply`] stands for.
pub enum ReplyV {
    File(Option<Seq<u8>>),
    Text(Seq<char>),
    Missing,
    Flag(bool),
    Done,
    Rows(Seq<RowV>),
    Failed(FailureV),
    Broken(FailureV),
    IoFailed(Seq<char>),
}

impl View for Reply {
    type V = ReplyV;

    open spec fn view(&self) -> ReplyV {
        match *self {
            Reply::File(f) => ReplyV::File(
                match f {
                    Some(raw) => Some(raw@),
                    None => None,
                },
            ),
            Reply::Text(t) => ReplyV::Text(t@),
            Reply::Missing => ReplyV::Missing,
            Reply::Flag(b) => ReplyV::Flag(b),
            Reply::Done => ReplyV::Done,
            Reply::Rows(rows) => ReplyV::Rows(rows_view(rows@)),
            Reply::Failed(f) => ReplyV::Failed(f@),
            Reply::Broken(f) => ReplyV::Broken(f@),
            Reply::IoFailed(e) => ReplyV::IoFailed(e@),
        }
    }
}

/// What a machine does next: ask, and wait in a state, or end.
#[derive(Debug)]
pub enum Step<T, E> {
    Ask(Request, T),
    Done(Result<Json, E>),
}

/// What a [`Step`] stands for.
pub enum StepV<T, E> {
    Ask(RequestV, T),
    Done(Result<JsonV, E>),
}

impl<T: View, E: View> View for Step<T, E> {
    type V = StepV<T::V, E::V>;

    open spec fn view(&self) -> StepV<T::V, E::V> {
        match *self {
            Step::Ask(request, state) => StepV::Ask(request@, state@),
            Step::Done(Ok(v)) => StepV::Done(Ok(v@)),
            Step::Done(Err(e)) => StepV::Done(Err(e@)),
        }
    }
}

} // verus!
