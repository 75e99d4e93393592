//! The whole generation pipeline on a specification text: parse, build the
//! routing table, render the router function.  The result is a function of
//! the text alone; the first error aborts the run.

use vstd::prelude::*;
use crate::document::DocModel;
use crate::document::parse_documents;
use crate::document::parse_model;
use crate::render::RenderError;
use crate::render::body_line;
use crate::render::no_ctl;
use crate::render::render;
use crate::render::rendered_source;
use crate::routes::MalformedSpecError;
use crate::routes::build;
use crate::routes::build_table;

verus! {

use vstd::string::StringExecFns;

/// Why a run produces no output.
#[derive(Clone, Copy, Debug, PartialEq, Eq, Structural)]
pub enum GenerateError {
    /// The text is not a parseable document, or holds no document at all.
    Parse,
    /// The document violates the builder's structural requirements.
    Malformed(MalformedSpecError),
    /// The routing table cannot be laid out as source lines.
    Render(RenderError),
}

/// What the pipeline returns for a given abstract parse of the input text.
pub open spec fn spec_generate(pm: Option<Seq<DocModel>>) -> Result<Seq<char>, GenerateError> {
    match pm {
        None => Err(GenerateError::Parse),
        Some(ms) => if ms.len() == 0 {
            Err(GenerateError::Parse)
        } else {
            match build_table(ms[0]) {
                Err(e) => Err(GenerateError::Malformed(e)),
                Ok(t) => if !no_ctl(body_line(t)) {
                    Err(GenerateError::Render(RenderError::UnprintableText))
                } else {
                    Ok(rendered_source(t))
                },
            }
        },
    }
}

/// The abstract value of a pipeline result.
pub open spec fn generate_result_view(r: Result<String, GenerateError>) -> Result<
    Seq<char>,
    GenerateError,
> {
    match r {
        Ok(s) => Ok(s@),
        Err(e) => Err(e),
    }
}

/// Runs the pipeline on the specification text: parses it, builds the
/// routing table of the first document, and renders the router function.
/// The result — output text or error — is exactly what `spec_generate`
/// says of the text's abstract parse.
pub fn generate(text: &str) -> (r: Result<String, GenerateError>)
    ensures
        generate_result_view(r) == spec_generate(parse_model(text@)),
{
    let docs = match parse_documents(text) {
        Ok(d) => d,
        Err(_) => {
            return Err(GenerateError::Parse);
        },
    };
    if docs.len() == 0 {
        return Err(GenerateError::Parse);
    }
    let table = match build(&docs[0]) {
        Ok(t) => t,
        Err(e) => {
            return Err(GenerateError::Malformed(e));
        },
    };
    match render(&table) {
        Ok(s) => Ok(s),
        Err(e) => Err(GenerateError::Render(e)),
    }
}

/// Determinism: the pipeline's result is a function of the input text
/// alone, so two runs on the same text return byte-identical results.
pub proof fn lemma_determinism(
    t: Seq<char>,
    r1: Result<String, GenerateError>,
    r2: Result<String, GenerateError>,
)
    requires
        generate_result_view(r1) == spec_generate(parse_model(t)),
        generate_result_view(r2) == spec_generate(parse_model(t)),
    ensures
        generate_result_view(r1) == generate_result_view(r2),
{
}

/// A short description of the error, for reporting.
impl GenerateError {
    pub fn message(&self) -> (r: String)
        ensures
            r@ == self.message_spec(),
    {
        match self {
            GenerateError::Parse => String::from_str("the specification is not a parseable document"),
            GenerateError::Malformed(e) => e.message(),
            GenerateError::Render(_) => String::from_str(
                "a path, method or handler contains a line break",
            ),
        }
    }

    /// The description's text.
    pub open spec fn message_spec(&self) -> Seq<char> {
        match self {
            GenerateError::Parse => "the specification is not a parseable document"@,
            GenerateError::Malformed(e) => e.message_spec(),
            GenerateError::Render(_) => "a path, method or handler contains a line break"@,
        }
    }
}

} // verus!
