use vstd::prelude::*;

verus! {

/// Where a topology error started: in the topology layer, with a message,
/// or in the geometry layer, whose error is carried by its message.
pub enum TopologyErrorRoot {
    InTopologyCrate { message: String },
    FromGeometryError { geometry_error: String },
}

/// A topology error: a root cause wrapped in any number of context messages,
/// the outermost first.
pub enum TopologyError {
    Context { message: String, inner_error: Box<TopologyError> },
    Root(TopologyErrorRoot),
}

/// How many context messages wrap the root cause.
pub open spec fn context_depth(e: TopologyError) -> nat
    decreases e,
{
    match e {
        TopologyError::Context { inner_error, .. } => 1 + context_depth(*inner_error),
        TopologyError::Root(_) => 0,
    }
}

/// The root cause under all context messages.
pub open spec fn root_cause(e: TopologyError) -> TopologyErrorRoot
    decreases e,
{
    match e {
        TopologyError::Context { inner_error, .. } => root_cause(*inner_error),
        TopologyError::Root(r) => r,
    }
}

impl TopologyError {
    /// An error raised in the topology layer, with `message`.
    pub fn new(message: String) -> (e: TopologyError)
        ensures
            e == TopologyError::Root(TopologyErrorRoot::InTopologyCrate { message }),
    {
        TopologyError::Root(TopologyErrorRoot::InTopologyCrate { message })
    }

    /// Wraps the error in the context `message`.
    pub fn with_context(self, message: String) -> (e: TopologyError)
        ensures
            e == (TopologyError::Context { message, inner_error: Box::new(self) }),
            context_depth(e) == context_depth(self) + 1,
            root_cause(e) == root_cause(self),
    {
        TopologyError::Context { message, inner_error: Box::new(self) }
    }
}

} // verus!
