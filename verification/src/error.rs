//! Errors raised while scanning, evaluating and rendering templates.
use vstd::prelude::*;
use crate::text::{decimal, decimal_string};

verus! {

/// A location in a template's source, in characters: where it starts and how long it is.
#[derive(Debug, Clone, Copy, PartialEq, Eq)]
pub struct Span {
    pub offset: usize,
    pub len: usize,
}

impl Span {
    pub fn new(offset: usize, len: usize) -> (s: Span)
        ensures
            s.offset == offset,
            s.len == len,
    {
        Span { offset, len }
    }
}

/// The source a diagnostic points into: its file name and its full text.
#[derive(Debug)]
pub struct SourceText {
    pub name: String,
    pub text: String,
}

impl View for SourceText {
    type V = (Seq<char>, Seq<char>);

    open spec fn view(&self) -> (Seq<char>, Seq<char>) {
        (self.name@, self.text@)
    }
}

impl SourceText {
    pub fn new(name: String, text: String) -> (r: SourceText)
        ensures
            r.name@ == name@,
            r.text@ == text@,
    {
        SourceText { name, text }
    }

    /// A copy that has the same name and text.
    pub fn duplicate(&self) -> (r: SourceText)
        ensures
            r@ == self@,
    {
        SourceText { name: self.name.clone(), text: self.text.clone() }
    }
}

/// The kinds of failure that template parsing and rendering report.
#[derive(Debug)]
pub enum ErrorKind {
    /// An underlying IO failure, with its message.
    Io(String),
    /// A front matter block that could not be parsed, with the parser's message.
    GrayMatter(String),
    /// A referenced variable was missing from the rendering context.
    VariableNotFound { var_name: String, src: SourceText, span: Span },
    /// An included file could not be found.
    IncludeFileNotFound { include_path: String, src: SourceText, span: Span },
    /// An include path resolved outside the source directory.
    IncludePathTraversal { include_path: String, src: SourceText, span: Span },
    /// The maximum depth for nested includes was reached.
    MaxRecursionDepthExceeded { src: SourceText, span: Span, depth: usize, max_depth: usize },
    /// An unknown template directive.
    UnknownDirective { directive: String, src: SourceText, span: Span },
    /// A tag opened with `{{.` that is never closed with `}}`.
    UnclosedTag { src: SourceText, span: Span },
    /// A `.block` directive without a block name.
    MissingBlockName { src: SourceText, span: Span },
    /// A `.block` that is never closed with `.end`.
    UnclosedBlock { src: SourceText, span: Span },
    /// An `.include` directive without a file name.
    MissingIncludeName { src: SourceText, span: Span },
    /// An include that lacks an argument its component requires.
    MissingIncludeArgument { include_path: String, arg_name: String, src: SourceText, span: Span },
    /// An `.if` directive without a condition.
    MissingIfCondition { src: SourceText, span: Span },
    /// An `.if` condition that could not be parsed.
    InvalidCondition { reason: String, src: SourceText, span: Span },
    /// An `.if` that is never closed with `.end`.
    UnclosedIf { src: SourceText, span: Span },
    /// A `|` filter name that is not known.
    UnknownFilter { filter_name: String, src: SourceText, span: Span },
    /// The stylesheet compiler ran and failed.
    TailwindCompilationFailed(String),
    /// The stylesheet compiler could not be started.
    TailwindExecutionFailed(String),
    /// A file that an include needs has not been handed to the renderer yet;
    /// the caller loads `path` into the source store and renders again.
    SourceRequired { path: String },
    /// Any other failure.
    Custom(String),
}

/// A rendering error.
#[derive(Debug)]
pub struct Error(pub ErrorKind);

impl Error {
    /// The kind of this error.
    pub fn inner(&self) -> (k: &ErrorKind)
        ensures
            *k == self.0,
    {
        &self.0
    }

    /// Takes the kind out of this error.
    pub fn into_inner(self) -> (k: ErrorKind)
        ensures
            k == self.0,
    {
        self.0
    }

    /// An error with a custom message.
    pub fn custom(message: String) -> (e: Error)
        ensures
            e.0 matches ErrorKind::Custom(m) && m@ == message@,
    {
        Error(ErrorKind::Custom(message))
    }
}

/// The message an error kind displays.
pub open spec fn message_spec(k: ErrorKind) -> Seq<char> {
    match k {
        ErrorKind::Io(m) => m@,
        ErrorKind::GrayMatter(m) => m@,
        ErrorKind::VariableNotFound { var_name, .. } => "Variable '"@ + var_name@ + "' was not found in context"@,
        ErrorKind::IncludeFileNotFound { include_path, .. } => "Failed to resolve include path '"@ + include_path@ + "'"@,
        ErrorKind::IncludePathTraversal { include_path, .. } => "Include path escape attempt or outside src directory: '"@
            + include_path@ + "'"@,
        ErrorKind::MaxRecursionDepthExceeded { max_depth, .. } => "Maximum include recursion depth exceeded (limit: "@
            + decimal(max_depth as nat) + ")"@,
        ErrorKind::UnknownDirective { directive, .. } => "Unknown template directive '{."@ + directive@ + "}'"@,
        ErrorKind::UnclosedTag { .. } => "Unclosed template tag starting with '{.'"@,
        ErrorKind::MissingBlockName { .. } => "Missing block name in '{{.block}}' directive"@,
        ErrorKind::UnclosedBlock { .. } => "Unclosed block directive"@,
        ErrorKind::MissingIncludeName { .. } => "Missing file name in '{{.include}}' directive"@,
        ErrorKind::MissingIncludeArgument { include_path, arg_name, .. } => "Missing required argument '"@ + arg_name@
            + "' for include '"@ + include_path@ + "'"@,
        ErrorKind::MissingIfCondition { .. } => "Missing condition in '{{.if}}' directive"@,
        ErrorKind::InvalidCondition { reason, .. } => "Invalid condition in '{{.if}}' directive: "@ + reason@,
        ErrorKind::UnclosedIf { .. } => "Unclosed if directive"@,
        ErrorKind::UnknownFilter { filter_name, .. } => "Unknown filter '"@ + filter_name@ + "' in '{{.var}}' directive"@,
        ErrorKind::TailwindCompilationFailed(m) => "Failed to compile Tailwind stylesheet: "@ + m@,
        ErrorKind::TailwindExecutionFailed(m) => "Failed to execute tailwindcss binary: "@ + m@,
        ErrorKind::SourceRequired { path } => "Source file '"@ + path@ + "' has not been loaded"@,
        ErrorKind::Custom(m) => m@,
    }
}

/// `a` and `b` joined.
fn concat2(a: &str, b: &str) -> (r: String)
    ensures
        r@ == a@ + b@,
{
    let mut s = String::from_str(a);
    s.append(b);
    s
}

/// `a`, `b` and `c` joined.
fn concat3(a: &str, b: &str, c: &str) -> (r: String)
    ensures
        r@ == a@ + b@ + c@,
{
    let mut s = String::from_str(a);
    s.append(b);
    s.append(c);
    s
}

impl ErrorKind {
    /// The message this error kind displays.
    pub fn message(&self) -> (r: String)
        ensures
            r@ == message_spec(*self),
    {
        match self {
            ErrorKind::Io(m) => String::from_str(m.as_str()),
            ErrorKind::GrayMatter(m) => String::from_str(m.as_str()),
            ErrorKind::VariableNotFound { var_name, .. } => concat3("Variable '", var_name.as_str(), "' was not found in context"),
            ErrorKind::IncludeFileNotFound { include_path, .. } => concat3("Failed to resolve include path '", include_path.as_str(), "'"),
            ErrorKind::IncludePathTraversal { include_path, .. } => concat3(
                "Include path escape attempt or outside src directory: '",
                include_path.as_str(),
                "'",
            ),
            ErrorKind::MaxRecursionDepthExceeded { max_depth, .. } => {
                let m: usize = *max_depth;
                let d = decimal_string(m as u64);
                concat3("Maximum include recursion depth exceeded (limit: ", d.as_str(), ")")
            },
            ErrorKind::UnknownDirective { directive, .. } => concat3("Unknown template directive '{.", directive.as_str(), "}'"),
            ErrorKind::UnclosedTag { .. } => String::from_str("Unclosed template tag starting with '{.'"),
            ErrorKind::MissingBlockName { .. } => String::from_str("Missing block name in '{{.block}}' directive"),
            ErrorKind::UnclosedBlock { .. } => String::from_str("Unclosed block directive"),
            ErrorKind::MissingIncludeName { .. } => String::from_str("Missing file name in '{{.include}}' directive"),
            ErrorKind::MissingIncludeArgument { include_path, arg_name, .. } => {
                let mut s = concat3("Missing required argument '", arg_name.as_str(), "' for include '");
                s.append(include_path.as_str());
                s.append("'");
                s
            },
            ErrorKind::MissingIfCondition { .. } => String::from_str("Missing condition in '{{.if}}' directive"),
            ErrorKind::InvalidCondition { reason, .. } => concat2("Invalid condition in '{{.if}}' directive: ", reason.as_str()),
            ErrorKind::UnclosedIf { .. } => String::from_str("Unclosed if directive"),
            ErrorKind::UnknownFilter { filter_name, .. } => concat3("Unknown filter '", filter_name.as_str(), "' in '{{.var}}' directive"),
            ErrorKind::TailwindCompilationFailed(m) => concat2("Failed to compile Tailwind stylesheet: ", m.as_str()),
            ErrorKind::TailwindExecutionFailed(m) => concat2("Failed to execute tailwindcss binary: ", m.as_str()),
            ErrorKind::SourceRequired { path } => concat3("Source file '", path.as_str(), "' has not been loaded"),
            ErrorKind::Custom(m) => String::from_str(m.as_str()),
        }
    }
}

impl Error {
    /// The message this error displays.
    pub fn message(&self) -> (r: String)
        ensures
            r@ == message_spec(self.0),
    {
        self.0.message()
    }
}

} // verus!
