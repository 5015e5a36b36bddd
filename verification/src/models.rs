//! Records of the cache and the values that the application exchanges
//! with it.

use vstd::prelude::*;
use std::collections::HashMap;
use crate::text::{chain, opt_text, texts};
use vstd::view::View as _;

verus! {

/// A row of the table `prompts`.
#[derive(Debug, Clone, PartialEq, Eq)]
pub struct PromptRow {
    pub id: String,
    pub created: Option<String>,
    pub text: String,
    pub title: Option<String>,
    pub description: Option<String>,
    pub file_path: Option<String>,
    pub file_hash: Option<String>,
}

/// A row of the table `tags`.
#[derive(Debug, Clone, PartialEq, Eq)]
pub struct TagRow {
    pub id: String,
    pub name: String,
}

/// A row of the table `views`; `config` is JSON text.
#[derive(Debug, Clone, PartialEq, Eq)]
pub struct ViewRow {
    pub id: String,
    pub name: String,
    pub view_type: String,
    pub config: String,
    pub created_at: i64,
}

/// The name of a tag, as a query for names alone returns it.
#[derive(Debug, Clone, PartialEq, Eq)]
pub struct TagNameRow {
    pub name: String,
}

/// A cached prompt with its tags.
#[derive(Debug, Clone, PartialEq, Eq)]
pub struct Prompt {
    pub id: String,
    pub created: Option<String>,
    pub text: String,
    pub tags: Vec<String>,
    pub file_path: Option<String>,
    pub title: Option<String>,
    pub description: Option<String>,
}

/// What the application hands over to save a prompt.
#[derive(Debug, Clone, PartialEq, Eq)]
pub struct PromptInput {
    pub id: String,
    pub created: Option<String>,
    pub text: String,
    pub tags: Vec<String>,
    /// The file to write; a fresh name is generated where it is absent or
    /// blank.
    pub file_path: Option<String>,
    /// The file that held the prompt before, where it is renamed.
    pub previous_file_path: Option<String>,
    pub title: Option<String>,
    pub description: Option<String>,
}

/// Which prompts a view shows.
#[derive(Debug, Clone, PartialEq, Eq)]
pub struct FilterConfig {
    pub tags: Option<Vec<String>>,
    pub search: Option<String>,
    pub favorite: Option<bool>,
}

/// In which order a view shows its prompts.
#[derive(Debug, Clone, PartialEq, Eq)]
pub struct SortConfig {
    pub by: String,
    pub order: String,
}

/// The preferences of a saved view.
#[derive(Debug, Clone, PartialEq, Eq)]
pub struct ViewConfig {
    pub filter: Option<FilterConfig>,
    pub sort: Option<SortConfig>,
}

/// A saved view.
#[derive(Debug, Clone, PartialEq, Eq)]
pub struct View {
    pub id: String,
    pub name: String,
    pub view_type: String,
    pub config: ViewConfig,
    pub created_at: i64,
}

/// What the application hands over to save a view.
#[derive(Debug, Clone, PartialEq, Eq)]
pub struct ViewInput {
    pub id: String,
    pub name: String,
    pub view_type: String,
    pub config: ViewConfig,
    pub created_at: i64,
}

/// A row of the table of snippets.
#[derive(Debug, Clone, PartialEq, Eq)]
pub struct SnippetRow {
    pub id: String,
    pub created_at: Option<i64>,
    pub value: String,
    pub description: Option<String>,
}

/// A value that fills a placeholder of a prompt.
#[derive(Debug, Clone, PartialEq, Eq)]
pub struct TemplateValueRow {
    pub keyword: String,
    pub value: String,
}

/// A snippet with its tags.
#[derive(Debug, Clone, PartialEq, Eq)]
pub struct Snippet {
    pub id: String,
    pub created_at: Option<i64>,
    pub value: String,
    pub description: Option<String>,
    pub tags: Vec<String>,
}

/// What the application hands over to save a snippet.
#[derive(Debug, Clone, PartialEq, Eq)]
pub struct SnippetInput {
    pub id: String,
    pub created_at: Option<i64>,
    pub value: String,
    pub description: Option<String>,
    pub tags: Vec<String>,
}

/// A column of a table of the cache, as the database describes it.
#[derive(Debug, Clone, PartialEq, Eq)]
pub struct TableColumn {
    pub cid: i32,
    pub name: String,
    pub type_: String,
    pub notnull: i32,
    pub dflt_value: Option<String>,
    pub pk: i32,
}

/// A row of any table of the cache: the text of each column by its name.
#[derive(Debug, Clone, PartialEq, Eq)]
pub struct TableRow {
    pub data: HashMap<String, String>,
}

impl TableRow {
    /// The row that holds the given columns.
    pub fn new(data: HashMap<String, String>) -> (row: TableRow)
        ensures
            row.data == data,
    {
        TableRow { data }
    }
}

/// A table of the cache, written out.
#[derive(Debug, Clone, PartialEq, Eq)]
pub struct ExportedTable {
    pub schema: Vec<TableColumn>,
    pub rows: Vec<TableRow>,
}

/// All tables of the cache, written out, by their names.
#[derive(Debug, Clone, PartialEq, Eq)]
pub struct ExportedDatabase {
    pub tables: HashMap<String, ExportedTable>,
}

/// Why an operation on the cache failed.
#[derive(Debug, Clone, PartialEq, Eq)]
pub enum DbError {
    Database(String),
    NotFound(String),
    Serialization(String),
}

impl Default for FilterConfig {
    fn default() -> (config: Self)
        ensures
            config.tags is None,
            config.search is None,
            config.favorite is None,
    {
        FilterConfig { tags: None, search: None, favorite: None }
    }
}

impl Default for ViewConfig {
    fn default() -> (config: Self)
        ensures
            config.filter is None,
            config.sort is None,
    {
        ViewConfig { filter: None, sort: None }
    }
}


/// A row of the table `prompts` as contracts speak of it.
pub struct PromptRowView {
    pub id: Seq<char>,
    pub created: Option<Seq<char>>,
    pub text: Seq<char>,
    pub title: Option<Seq<char>>,
    pub description: Option<Seq<char>>,
    pub file_path: Option<Seq<char>>,
    pub file_hash: Option<Seq<char>>,
}

impl vstd::view::View for PromptRow {
    type V = PromptRowView;

    open spec fn view(&self) -> PromptRowView {
        PromptRowView {
            id: self.id@,
            created: opt_text(self.created),
            text: self.text@,
            title: opt_text(self.title),
            description: opt_text(self.description),
            file_path: opt_text(self.file_path),
            file_hash: opt_text(self.file_hash),
        }
    }
}

/// A prompt to save as contracts speak of it.
pub struct PromptInputView {
    pub id: Seq<char>,
    pub created: Option<Seq<char>>,
    pub text: Seq<char>,
    pub tags: Seq<Seq<char>>,
    pub file_path: Option<Seq<char>>,
    pub previous_file_path: Option<Seq<char>>,
    pub title: Option<Seq<char>>,
    pub description: Option<Seq<char>>,
}

impl vstd::view::View for PromptInput {
    type V = PromptInputView;

    open spec fn view(&self) -> PromptInputView {
        PromptInputView {
            id: self.id@,
            created: opt_text(self.created),
            text: self.text@,
            tags: texts(self.tags@),
            file_path: opt_text(self.file_path),
            previous_file_path: opt_text(self.previous_file_path),
            title: opt_text(self.title),
            description: opt_text(self.description),
        }
    }
}

/// A cached prompt as contracts speak of it.
pub struct PromptView {
    pub id: Seq<char>,
    pub created: Option<Seq<char>>,
    pub text: Seq<char>,
    pub tags: Seq<Seq<char>>,
    pub file_path: Option<Seq<char>>,
    pub title: Option<Seq<char>>,
    pub description: Option<Seq<char>>,
}

impl vstd::view::View for Prompt {
    type V = PromptView;

    open spec fn view(&self) -> PromptView {
        PromptView {
            id: self.id@,
            created: opt_text(self.created),
            text: self.text@,
            tags: texts(self.tags@),
            file_path: opt_text(self.file_path),
            title: opt_text(self.title),
            description: opt_text(self.description),
        }
    }
}


/// What an error of the cache says: the kind in words and, behind a colon,
/// its detail.
pub open spec fn db_error_text(e: DbError) -> Seq<char> {
    match e {
        DbError::Database(m) => "Database error: "@ + m@,
        DbError::NotFound(m) => "Not found: "@ + m@,
        DbError::Serialization(m) => "Serialization error: "@ + m@,
    }
}

impl DbError {
    /// The error in words.
    pub fn message(&self) -> (text: String)
        ensures
            text@ == db_error_text(*self),
    {
        match self {
            DbError::Database(m) => chain("Database error: ", m),
            DbError::NotFound(m) => chain("Not found: ", m),
            DbError::Serialization(m) => chain("Serialization error: ", m),
        }
    }
}

} // verus!
