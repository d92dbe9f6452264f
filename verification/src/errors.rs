//! The ways in which turning a request file into request builders can fail.

use vstd::prelude::*;

verus! {

/// Why a request file could not be compiled.
#[derive(Debug, Clone, Copy, PartialEq, Eq, Structural)]
pub enum RequestFileError {
    /// The request file could not be read.
    DoesNotExist,
    /// The request file is not valid markdown.
    SyntaxError,
    /// The request file has no top-level block at all.
    EmptyFile,
    /// A request code block is written in a language other than YAML or JSON.
    UnsupportedBlockType,
    /// The template in a request code block could not be rendered.
    TemplateError,
    /// The `api` of a request code block is not the name of the request builder schema.
    InvalidBlockApi,
    /// The rendered request code block does not have the shape of a request builder.
    InvalidBlockSpec,
}

impl RequestFileError {
    /// What is told to whoever wrote the request file.
    pub open spec fn spec_message(self) -> Seq<char> {
        match self {
            RequestFileError::DoesNotExist => "request file does not exist"@,
            RequestFileError::SyntaxError => "request file is not valid markdown"@,
            RequestFileError::EmptyFile => "request file is empty"@,
            RequestFileError::UnsupportedBlockType => "request code block must be YAML or JSON"@,
            RequestFileError::TemplateError => "request code block must render as a template"@,
            RequestFileError::InvalidBlockApi => {
                "request code block api must be luc.api.http_request.HttpRequestBuilder"@
            },
            RequestFileError::InvalidBlockSpec => {
                "request code block spec must conform to struct luc.api.http_request.HttpRequestBuilder"@
            },
        }
    }

    /// What is told to whoever wrote the request file.
    pub fn message(&self) -> (text: &'static str)
        ensures
            text@ == self.spec_message(),
    {
        match self {
            RequestFileError::DoesNotExist => "request file does not exist",
            RequestFileError::SyntaxError => "request file is not valid markdown",
            RequestFileError::EmptyFile => "request file is empty",
            RequestFileError::UnsupportedBlockType => "request code block must be YAML or JSON",
            RequestFileError::TemplateError => "request code block must render as a template",
            RequestFileError::InvalidBlockApi => {
                "request code block api must be luc.api.http_request.HttpRequestBuilder"
            },
            RequestFileError::InvalidBlockSpec => {
                "request code block spec must conform to struct luc.api.http_request.HttpRequestBuilder"
            },
        }
    }
}

/// The view of a result whose value has a view.
pub open spec fn result_view<T: DeepView, E>(result: Result<T, E>) -> Result<T::V, E> {
    match result {
        Ok(value) => Ok(value.deep_view()),
        Err(error) => Err(error),
    }
}

} // verus!
