//! What can be compiled from a request file.

use vstd::prelude::*;

use crate::context::Context;

verus! {

/// A kind of value that request files specify.
pub trait TemplateFile {
    /// What a request file of this kind holds.
    type T;

    /// Why a request file of this kind may be refused.
    type E;

    /// Compiles the request file `path`, whose text is `contents` (`None` where the file
    /// could not be read), against `ctx`.
    fn from_template(path: &str, contents: Option<&str>, ctx: &Context) -> Result<
        Vec<Self::T>,
        Self::E,
    >;
}

} // verus!
