//! The data model: directives, location blocks, server blocks, the whole
//! configuration, the structured inputs for edits, and the result and
//! error types. Each executable type has a ghost model over `Seq` views;
//! the parser's and editor's contracts speak of those models.
use vstd::prelude::*;

verus! {

// ---------------------------------------------------------------------------
// Ghost models
// ---------------------------------------------------------------------------

pub ghost struct DirectiveModel {
    pub name: Seq<char>,
    pub value: Seq<char>,
    pub line: int,
}

pub ghost struct LocationModel {
    pub id: Seq<char>,
    pub path: Seq<char>,
    pub modifier: Option<Seq<char>>,
    pub directives: Seq<DirectiveModel>,
    pub raw_content: Seq<char>,
    pub start_line: int,
    pub end_line: int,
}

pub ghost struct ServerModel {
    pub id: Seq<char>,
    pub listen: Seq<Seq<char>>,
    pub server_name: Seq<Seq<char>>,
    pub locations: Seq<LocationModel>,
    pub directives: Seq<DirectiveModel>,
    pub raw_content: Seq<char>,
    pub start_line: int,
    pub end_line: int,
}

pub ghost struct ConfigModel {
    pub servers: Seq<ServerModel>,
    pub global_directives: Seq<DirectiveModel>,
    pub file_path: Seq<char>,
    pub raw_content: Seq<char>,
}

pub ghost struct DirectiveInputModel {
    pub name: Seq<char>,
    pub value: Seq<char>,
}

pub ghost struct ServerInputModel {
    pub listen: Seq<Seq<char>>,
    pub server_name: Seq<Seq<char>>,
    pub directives: Seq<DirectiveInputModel>,
}

pub ghost struct LocationInputModel {
    pub path: Seq<char>,
    pub modifier: Option<Seq<char>>,
    pub directives: Seq<DirectiveInputModel>,
}

// ---------------------------------------------------------------------------
// A single `name value;` statement
// ---------------------------------------------------------------------------

/// One configuration directive, with the 1-based line it was read from.
#[derive(Debug, Clone)]
pub struct Directive {
    pub name: String,
    pub value: String,
    pub line: usize,
}

impl View for Directive {
    type V = DirectiveModel;

    open spec fn view(&self) -> DirectiveModel {
        DirectiveModel { name: self.name@, value: self.value@, line: self.line as int }
    }
}

impl DeepView for Directive {
    type V = DirectiveModel;

    open spec fn deep_view(&self) -> DirectiveModel {
        self.view()
    }
}

// ---------------------------------------------------------------------------
// Blocks
// ---------------------------------------------------------------------------

/// A `location ... { ... }` block. Line numbers are 1-based and inclusive.
#[derive(Debug, Clone)]
pub struct LocationBlock {
    pub id: String,
    pub path: String,
    pub modifier: Option<String>,
    pub directives: Vec<Directive>,
    pub raw_content: String,
    pub start_line: usize,
    pub end_line: usize,
}

impl View for LocationBlock {
    type V = LocationModel;

    open spec fn view(&self) -> LocationModel {
        LocationModel {
            id: self.id@,
            path: self.path@,
            modifier: self.modifier.deep_view(),
            directives: self.directives.deep_view(),
            raw_content: self.raw_content@,
            start_line: self.start_line as int,
            end_line: self.end_line as int,
        }
    }
}

impl DeepView for LocationBlock {
    type V = LocationModel;

    open spec fn deep_view(&self) -> LocationModel {
        self.view()
    }
}

/// A `server { ... }` block. Line numbers are 1-based and inclusive.
#[derive(Debug, Clone)]
pub struct ServerBlock {
    pub id: String,
    pub listen: Vec<String>,
    pub server_name: Vec<String>,
    pub locations: Vec<LocationBlock>,
    pub directives: Vec<Directive>,
    pub raw_content: String,
    pub start_line: usize,
    pub end_line: usize,
}

impl View for ServerBlock {
    type V = ServerModel;

    open spec fn view(&self) -> ServerModel {
        ServerModel {
            id: self.id@,
            listen: self.listen.deep_view(),
            server_name: self.server_name.deep_view(),
            locations: self.locations.deep_view(),
            directives: self.directives.deep_view(),
            raw_content: self.raw_content@,
            start_line: self.start_line as int,
            end_line: self.end_line as int,
        }
    }
}

impl DeepView for ServerBlock {
    type V = ServerModel;

    open spec fn deep_view(&self) -> ServerModel {
        self.view()
    }
}

/// A parsed configuration file.
#[derive(Debug, Clone)]
pub struct NginxConfig {
    pub servers: Vec<ServerBlock>,
    pub global_directives: Vec<Directive>,
    pub file_path: String,
    pub raw_content: String,
}

impl View for NginxConfig {
    type V = ConfigModel;

    open spec fn view(&self) -> ConfigModel {
        ConfigModel {
            servers: self.servers.deep_view(),
            global_directives: self.global_directives.deep_view(),
            file_path: self.file_path@,
            raw_content: self.raw_content@,
        }
    }
}

// ---------------------------------------------------------------------------
// Structured edit inputs
// ---------------------------------------------------------------------------

/// A directive to render into an inserted or rewritten block.
#[derive(Debug, Clone)]
pub struct DirectiveInput {
    pub name: String,
    pub value: String,
}

impl View for DirectiveInput {
    type V = DirectiveInputModel;

    open spec fn view(&self) -> DirectiveInputModel {
        DirectiveInputModel { name: self.name@, value: self.value@ }
    }
}

impl DeepView for DirectiveInput {
    type V = DirectiveInputModel;

    open spec fn deep_view(&self) -> DirectiveInputModel {
        self.view()
    }
}

/// The fields of a server block to add or to rewrite.
#[derive(Debug, Clone)]
pub struct ServerBlockInput {
    pub listen: Vec<String>,
    pub server_name: Vec<String>,
    pub directives: Vec<DirectiveInput>,
}

impl View for ServerBlockInput {
    type V = ServerInputModel;

    open spec fn view(&self) -> ServerInputModel {
        ServerInputModel {
            listen: self.listen.deep_view(),
            server_name: self.server_name.deep_view(),
            directives: self.directives.deep_view(),
        }
    }
}

/// The fields of a location block to insert into a server block.
#[derive(Debug, Clone)]
pub struct LocationBlockInput {
    pub path: String,
    pub modifier: Option<String>,
    pub directives: Vec<DirectiveInput>,
}

impl View for LocationBlockInput {
    type V = LocationInputModel;

    open spec fn view(&self) -> LocationInputModel {
        LocationInputModel {
            path: self.path@,
            modifier: self.modifier.deep_view(),
            directives: self.directives.deep_view(),
        }
    }
}

// ---------------------------------------------------------------------------
// Errors and operation outcomes
// ---------------------------------------------------------------------------

/// A parse failure. `line` is the 1-based line at which detection failed:
/// for an unterminated block, the line that opened it.
#[derive(Debug, Clone, Copy, PartialEq, Eq, Structural)]
pub enum ParseError {
    UnterminatedBlock { line: usize },
    InvalidLocationSyntax { line: usize },
    MissingHttpBlock,
}

pub ghost enum EditErrorModel {
    Parse(ParseError),
    NotFound(Seq<char>),
}

/// An edit failure: either the file did not parse, or the supplied block
/// identifier did not resolve against the current parse.
#[derive(Debug, Clone)]
pub enum EditError {
    Parse { error: ParseError },
    NotFound { id: String },
}

impl View for EditError {
    type V = EditErrorModel;

    open spec fn view(&self) -> EditErrorModel {
        match self {
            EditError::Parse { error } => EditErrorModel::Parse(*error),
            EditError::NotFound { id } => EditErrorModel::NotFound(id@),
        }
    }
}

/// The outcome of reading and parsing a configuration file.
#[derive(Debug)]
pub struct ParseResult {
    pub success: bool,
    pub message: String,
    pub config: Option<NginxConfig>,
}

/// The outcome of an edit operation.
#[derive(Debug)]
pub struct EditResult {
    pub success: bool,
    pub message: String,
}

/// A report on the managed server process.
#[derive(Debug)]
pub struct NginxStatus {
    pub is_running: bool,
    pub process_count: u32,
    pub message: String,
}

/// The outcome of a process-control operation.
#[derive(Debug)]
pub struct OperationResult {
    pub success: bool,
    pub message: String,
}

} // verus!
