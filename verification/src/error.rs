//! Refusals.

use vstd::prelude::*;

verus! {

/// Why an operation of the decoder was refused.
///
/// The variant is the kind of fault; the text says in words which check failed.
#[derive(Clone, Debug)]
pub enum InferError {
    /// A shape, a length or an index does not fit its counterpart.
    Dimension(&'static str),
    /// The model, the options or the runtime do not allow the request.
    Config(&'static str),
    /// A size computation left the machine's range, or data do not fill a shape.
    Shape(&'static str),
    /// A tensor that the model needs is absent; the payload is its name.
    MissingWeight(String),
    /// A request that only a device runtime could serve.
    Metal(&'static str),
}

/// The kind of fault of a refusal, with the name that it carries.
pub enum Fault {
    Dimension,
    Config,
    Shape,
    Missing(Seq<char>),
    Metal,
}

impl InferError {
    pub open spec fn fault(self) -> Fault {
        match self {
            InferError::Dimension(_) => Fault::Dimension,
            InferError::Config(_) => Fault::Config,
            InferError::Shape(_) => Fault::Shape,
            InferError::MissingWeight(name) => Fault::Missing(name@),
            InferError::Metal(_) => Fault::Metal,
        }
    }

    /// The refusal of a computation on rows: sizes that do not fit, or a part that the
    /// decoder lacks where it is not complete.
    pub open spec fn is_misfit(self, complete: bool) -> bool {
        self is Dimension || (!complete && self is Config)
    }
}

} // verus!
