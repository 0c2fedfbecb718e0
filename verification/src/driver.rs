//! The structural-parser capability and the error taxonomy.
//!
//! Turning source text into a syntax tree is delegated to an opaque
//! collaborator; the library owns that call and the error taxonomy.
//! Rendering a tree back to canonical text is not owned here: the
//! canonical printer is not total over every tree the parser admits (an
//! ill-formed `macro_rules` body, or a verbatim item of unknown shape,
//! parses but has no canonical rendering and aborts the printer), so no
//! honest contract could promise that its call returns on every tree.
//! The invoking program makes that call right beside the file write, the
//! output edge, and turns an abort into the usual one-line diagnostic.

use vstd::prelude::*;

verus! {

#[verifier::external_type_specification]
#[verifier::external_body]
pub struct ExSynFile(syn::File);

#[verifier::external_type_specification]
#[verifier::external_body]
pub struct ExSynError(syn::Error);

/// Whether the target grammar accepts the source text.  Parsing is a
/// deterministic, total function of the text alone, so acceptance is too.
pub uninterp spec fn parse_accepts(source: Seq<char>) -> bool;

/// Relies on syn::parse_file: parses the source text of one file,
/// succeeding exactly on syntactically valid input, deterministically in
/// the text alone.  Acceptance is judged by the embedded fallback lexer
/// and parser: this library runs as an ordinary program, never inside a
/// procedural-macro context where lexing would be delegated to the host
/// compiler.
#[verifier::external_body]
fn parse_via_syn(source: &str) -> (r: Result<syn::File, syn::Error>)
    ensures
        r is Ok <==> parse_accepts(source@),
{
    syn::parse_file(source)
}

/// Relies on syn::Error's Display implementation, through ToString, to
/// describe the syntactic problem and its location.
#[verifier::external_body]
fn describe_syn_error(e: &syn::Error) -> String {
    e.to_string()
}

/// Why one invocation stopped.  Every failure is terminal: it becomes one
/// diagnostic line and a nonzero exit, and nothing is written back.
#[derive(Debug)]
pub enum StageError {
    /// No file path was given on the command line.
    Usage,
    /// The target file could not be read.
    ReadIo(String),
    /// The source text is not syntactically valid.
    Parse(String),
    /// The rewritten text could not be written back.
    WriteIo(String),
}

impl StageError {
    /// The one-line diagnostic this failure is reported with.
    pub open spec fn diagnostic(&self) -> Seq<char> {
        match self {
            StageError::Usage => "usage: syr <file.rs>"@,
            StageError::ReadIo(d) => d@,
            StageError::Parse(d) => d@,
            StageError::WriteIo(d) => d@,
        }
    }

    /// Produces the one-line diagnostic for this failure.
    pub fn message(&self) -> (m: String)
        ensures
            m@ == self.diagnostic(),
    {
        match self {
            StageError::Usage => String::from_str("usage: syr <file.rs>"),
            StageError::ReadIo(d) => d.clone(),
            StageError::Parse(d) => d.clone(),
            StageError::WriteIo(d) => d.clone(),
        }
    }
}

/// Parses the file's source text into its syntax tree.  Succeeds exactly
/// on syntactically valid text; on invalid text it reports the parse
/// failure, and the caller writes nothing back.
pub fn parse_source(source: &String) -> (r: Result<syn::File, StageError>)
    ensures
        r is Ok <==> parse_accepts(source@),
        r matches Err(e) ==> e is Parse,
{
    match parse_via_syn(source.as_str()) {
        Ok(ast) => Ok(ast),
        Err(e) => Err(StageError::Parse(describe_syn_error(&e))),
    }
}

} // verus!
