//! Asynchronous tasks: futures that resolve to a message.
use vstd::prelude::*;
use futures::FutureExt;

verus! {

/// A pinned, boxed future that resolves to a message.
///
/// The future is opaque to the verifier: it is carried, mapped and handed
/// out, and only the event loop that awaits it sees its message.
#[verifier::external_body]
#[verifier::reject_recursive_types(Msg)]
pub struct BoxFuture<Msg> {
    pub pinned: std::pin::Pin<Box<dyn std::future::Future<Output = Msg> + Send + 'static>>,
}

/// An asynchronous unit of work that resolves to a message.
///
/// Each task carries a ghost label that stays with its future through
/// `map`: a mapped task tells which task it came from. Only this module
/// pairs a future with a label.
#[verifier::reject_recursive_types(Msg)]
pub struct Task<Msg> {
    future: BoxFuture<Msg>,
    label: Ghost<nat>,
}

/// Boxes and pins a future through `futures::FutureExt::boxed` into a task.
/// Nothing is claimed of the task: not its message, and not its label, which
/// may be any.
#[verifier::external_body]
fn boxed_task<Msg, F>(future: F) -> Task<Msg>
    where
        F: std::future::Future<Output = Msg> + Send + 'static,
{
    Task { future: BoxFuture { pinned: future.boxed() }, label: Ghost(0) }
}

/// Composes `f` after the future through `futures::FutureExt::map` and boxes
/// the result with `FutureExt::boxed`: the new future awaits the old one and
/// applies `f` to its message. No clause states this; the future is opaque
/// to the verifier.
#[verifier::external_body]
fn map_future<Msg, N, F>(future: BoxFuture<Msg>, f: F) -> BoxFuture<N>
    where
        Msg: Send + 'static,
        N: Send + 'static,
        F: FnOnce(Msg) -> N + Send + 'static,
{
    BoxFuture { pinned: future.pinned.map(f).boxed() }
}

impl<Msg> Task<Msg> {
    /// The ghost label carried with the future.
    pub closed spec fn label(&self) -> nat {
        self.label@
    }

    /// The future carried by the task value.
    pub closed spec fn future(&self) -> BoxFuture<Msg> {
        self.future
    }

    /// Makes a task of any future; its label may be any.
    pub fn new<F>(future: F) -> (r: Self)
        where
            F: std::future::Future<Output = Msg> + Send + 'static,
    {
        boxed_task(future)
    }

    /// Applies `f` to the message the future resolves to, keeping the label.
    pub fn map<N, F>(self, f: F) -> (r: Task<N>)
        where
            Msg: Send + 'static,
            N: Send + 'static,
            F: FnOnce(Msg) -> N + Send + 'static,
        ensures
            r.label() == self.label(),
    {
        Task { future: map_future(self.future, f), label: self.label }
    }

    /// Hands out the future, to be awaited.
    pub fn into_future(self) -> (r: BoxFuture<Msg>)
        ensures
            r == self.future(),
    {
        self.future
    }
}

} // verus!
