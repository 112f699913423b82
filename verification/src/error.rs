//! The error taxonomy: query parse errors, document build errors, missing
//! paths, evaluation errors, and I/O errors surfaced by callers.

use vstd::prelude::*;

use crate::text::{append_str, chars_to_string, dec_chars_u64, spec_dec_nat};

verus! {

/// A byte range pointing at the failing position of a query string.
#[derive(Debug, Clone, Copy, PartialEq, Eq, Structural)]
pub struct Span {
    pub start: usize,
    pub end: usize,
}

impl Span {
    pub fn new(start: usize, end: usize) -> (r: Self)
        ensures
            r.start == start,
            r.end == end,
    {
        Self { start, end }
    }
}

#[verifier::external_type_specification]
#[verifier::external_body]
pub struct ExIoError(std::io::Error);

/// What `std::io::Error`'s display text is; it depends on the error value
/// alone.
pub uninterp spec fn io_error_text(e: std::io::Error) -> Seq<char>;

/// Relies on std's `Display` for `std::io::Error` to describe the error.
#[verifier::external_body]
fn io_error_message(e: &std::io::Error) -> (r: String)
    ensures
        r@ == io_error_text(*e),
{
    format!("{e}")
}

/// One error of the library.
#[derive(Debug)]
pub enum Error {
    QueryParse { msg: String, span: Option<Span> },
    DockerfileParse { msg: String },
    NotFound { path: String },
    Eval { msg: String },
    Io { source: std::io::Error },
}

/// The mathematical shape of an [`Error`].
pub enum ErrorModel {
    QueryParse { msg: Seq<char>, span: Option<Span> },
    DockerfileParse { msg: Seq<char> },
    NotFound { path: Seq<char> },
    Eval { msg: Seq<char> },
    Io,
}

impl View for Error {
    type V = ErrorModel;

    open spec fn view(&self) -> ErrorModel {
        match self {
            Error::QueryParse { msg, span } => ErrorModel::QueryParse { msg: msg@, span: *span },
            Error::DockerfileParse { msg } => ErrorModel::DockerfileParse { msg: msg@ },
            Error::NotFound { path } => ErrorModel::NotFound { path: path@ },
            Error::Eval { msg } => ErrorModel::Eval { msg: msg@ },
            Error::Io { .. } => ErrorModel::Io,
        }
    }
}

/// The display text of an error.
pub open spec fn spec_error_render(e: Error) -> Seq<char> {
    match e {
        Error::QueryParse { msg, span } => match span {
            Some(sp) => "query parse error at "@ + spec_dec_nat(sp.start as nat) + ".."@
                + spec_dec_nat(sp.end as nat) + ": "@ + msg@,
            None => "query parse error: "@ + msg@,
        },
        Error::DockerfileParse { msg } => "dockerfile parse error: "@ + msg@,
        Error::NotFound { path } => "not found: "@ + path@,
        Error::Eval { msg } => "evaluation error: "@ + msg@,
        Error::Io { source } => "io error: "@ + io_error_text(source),
    }
}

impl Error {
    pub fn query_parse(msg: &str, span: Option<Span>) -> (r: Self)
        ensures
            r@ == (ErrorModel::QueryParse { msg: msg@, span }),
    {
        Self::QueryParse { msg: msg.to_owned(), span }
    }

    pub fn dockerfile_parse(msg: &str) -> (r: Self)
        ensures
            r@ == (ErrorModel::DockerfileParse { msg: msg@ }),
    {
        Self::DockerfileParse { msg: msg.to_owned() }
    }

    pub fn not_found(path: &str) -> (r: Self)
        ensures
            r@ == (ErrorModel::NotFound { path: path@ }),
    {
        Self::NotFound { path: path.to_owned() }
    }

    pub fn eval(msg: &str) -> (r: Self)
        ensures
            r@ == (ErrorModel::Eval { msg: msg@ }),
    {
        Self::Eval { msg: msg.to_owned() }
    }

    pub fn io(source: std::io::Error) -> (r: Self)
        ensures
            r@ is Io,
    {
        Self::Io { source }
    }

    /// The display text of this error, as callers print it.
    pub fn render(&self) -> (r: String)
        ensures
            r@ == spec_error_render(*self),
    {
        match self {
            Error::QueryParse { msg, span } => {
                let mut out: Vec<char> = Vec::new();
                match span {
                    Some(sp) => {
                        append_str(&mut out, "query parse error at ");
                        let start_digits = dec_chars_u64(sp.start as u64);
                        crate::text::append_chars(&mut out, &start_digits);
                        append_str(&mut out, "..");
                        let end_digits = dec_chars_u64(sp.end as u64);
                        crate::text::append_chars(&mut out, &end_digits);
                        append_str(&mut out, ": ");
                        append_str(&mut out, msg.as_str());
                        proof {
                            assert(out@ =~= spec_error_render(*self));
                        }
                    },
                    None => {
                        append_str(&mut out, "query parse error: ");
                        append_str(&mut out, msg.as_str());
                        proof {
                            assert(out@ =~= spec_error_render(*self));
                        }
                    },
                }
                chars_to_string(&out)
            },
            Error::DockerfileParse { msg } => {
                let mut out: Vec<char> = Vec::new();
                append_str(&mut out, "dockerfile parse error: ");
                append_str(&mut out, msg.as_str());
                proof {
                    assert(out@ =~= spec_error_render(*self));
                }
                chars_to_string(&out)
            },
            Error::NotFound { path } => {
                let mut out: Vec<char> = Vec::new();
                append_str(&mut out, "not found: ");
                append_str(&mut out, path.as_str());
                proof {
                    assert(out@ =~= spec_error_render(*self));
                }
                chars_to_string(&out)
            },
            Error::Eval { msg } => {
                let mut out: Vec<char> = Vec::new();
                append_str(&mut out, "evaluation error: ");
                append_str(&mut out, msg.as_str());
                proof {
                    assert(out@ =~= spec_error_render(*self));
                }
                chars_to_string(&out)
            },
            Error::Io { source } => {
                let mut out: Vec<char> = Vec::new();
                append_str(&mut out, "io error: ");
                let text = io_error_message(source);
                append_str(&mut out, text.as_str());
                proof {
                    assert(out@ =~= spec_error_render(*self));
                }
                chars_to_string(&out)
            },
        }
    }
}

} // verus!
