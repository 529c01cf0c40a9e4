//! Tasks: the capability interface every unit of work offers, the computation
//! task around a caller-supplied function, and the opaque carriers for that
//! function and for the outbound transport.

use vstd::prelude::*;

use crate::state::State;
use crate::state::StateError;

verus! {

/// An error that aborts a graph run.
#[derive(Debug)]
pub enum RllmError {
    /// A blackboard access failed.
    State(StateError),
    /// The remote transport failed: connection, non-success status, or an
    /// unreadable body.
    Transport(String),
    /// The remote response text is not valid structured data.
    MalformedResponse,
    /// A model-call task was run without a transport to send through.
    NoTransport,
    /// A failure a caller-supplied computation reported on its own.
    Custom(String),
}

/// Holds a caller-supplied fallible computation over the blackboard. Opaque
/// to verification: nothing is assumed about what a stored function does to
/// the blackboard or returns.
#[verifier::external_body]
pub(crate) struct Callback {
    func: Box<dyn Fn(&mut State) -> Result<(), RllmError> + Send + Sync>,
}

impl Callback {
    /// Boxes a caller-supplied function. Trusted: the box only stores it.
    #[verifier::external_body]
    pub(crate) fn new<F: Fn(&mut State) -> Result<(), RllmError> + Send + Sync + 'static>(
        func: F,
    ) -> Callback {
        Callback { func: Box::new(func) }
    }

    /// Runs the stored function once. Trusted, with nothing promised: the
    /// call may change the blackboard arbitrarily and return either outcome.
    #[verifier::external_body]
    pub(crate) fn call(&self, state: &mut State) -> Result<(), RllmError> {
        (self.func)(state)
    }
}

/// Carries the outbound request of a model-call task: a caller-supplied
/// function from endpoint, credential and body text to the textual response.
/// Opaque to verification: nothing is assumed of its outcome.
#[verifier::external_body]
pub struct HttpTransport {
    func: Box<dyn Fn(&str, &str, &str) -> Result<String, String> + Send + Sync>,
}

impl HttpTransport {
    /// Boxes a caller-supplied sender. Trusted: the box only stores it.
    #[verifier::external_body]
    pub fn new<F: Fn(&str, &str, &str) -> Result<String, String> + Send + Sync + 'static>(
        func: F,
    ) -> HttpTransport {
        HttpTransport { func: Box::new(func) }
    }

    /// Sends one request. Trusted, with nothing promised: the response or
    /// failure is whatever the stored sender produced.
    #[verifier::external_body]
    pub(crate) fn send(&self, endpoint: &str, api_key: &str, body: &str) -> Result<String, String> {
        (self.func)(endpoint, api_key, body)
    }
}

/// The capability every task offers: execute against the shared blackboard,
/// fallibly; effects land in the blackboard.
pub trait Node {
    fn execute(&self, state: &mut State) -> Result<(), RllmError>;
}

/// A task wrapping an arbitrary caller-supplied function.
pub struct FunctionNode {
    func: Callback,
}

impl FunctionNode {
    /// A computation task around the given function.
    pub fn new<F: Fn(&mut State) -> Result<(), RllmError> + Send + Sync + 'static>(
        func: F,
    ) -> FunctionNode {
        FunctionNode { func: Callback::new(func) }
    }

    /// Runs the stored function once and propagates its result unchanged.
    /// The outcome is the function's own: nothing is known of it here.
    pub(crate) fn run_once(&self, state: &mut State) -> Result<(), RllmError> {
        self.func.call(state)
    }
}

impl Node for FunctionNode {
    fn execute(&self, state: &mut State) -> Result<(), RllmError> {
        self.run_once(state)
    }
}

} // verus!
