//! Subscriptions: external event sources with a stable identity.
use vstd::prelude::*;
use vstd::string::*;
use futures::StreamExt;

use crate::text::{debug_str, str_debug};

verus! {

/// A pinned, boxed stream of messages, ready to poll.
///
/// The stream is opaque to the verifier: it is carried and handed out,
/// and only the event loop that polls it sees its items.
#[verifier::external_body]
#[verifier::reject_recursive_types(Msg)]
pub struct MsgStream<Msg> {
    pub stream: std::pin::Pin<Box<dyn futures_core::Stream<Item = Msg> + Send + 'static>>,
}

/// A factory that builds a stream when it is called, at most once.
#[verifier::external_body]
#[verifier::reject_recursive_types(Msg)]
pub struct StreamFactory<Msg> {
    make: Box<dyn FnOnce() -> std::pin::Pin<Box<dyn futures_core::Stream<Item = Msg> + Send + 'static>> + Send>,
}

/// Calls the factory's boxed closure, which runs the user's factory and
/// boxes its stream with `futures::StreamExt::boxed`. Nothing is claimed of
/// the stream; the factory is consumed, so it runs once.
#[verifier::external_body]
fn run_factory<Msg>(factory: StreamFactory<Msg>) -> MsgStream<Msg> {
    MsgStream { stream: (factory.make)() }
}

/// How a subscription holds its source.
#[verifier::reject_recursive_types(Msg)]
pub enum SubKind<Msg> {
    /// The stream is already built.
    Eager(MsgStream<Msg>),
    /// The stream is built by the factory when the subscription is spawned.
    Lazy(StreamFactory<Msg>),
}

/// A subscription to an external event source, identified by `id`.
///
/// An event loop keeps one running stream per id: a subscription whose id
/// is already active is dropped without being spawned.
#[verifier::reject_recursive_types(Msg)]
pub struct Sub<Msg> {
    /// Stable identity for diffing subscriptions across updates.
    pub id: &'static str,
    /// How the stream is held.
    pub kind: SubKind<Msg>,
}

impl<Msg> Sub<Msg> {
    /// Whether the stream of this subscription is built only when it is spawned.
    pub open spec fn is_lazy(self) -> bool {
        self.kind is Lazy
    }

    /// The stream an eager subscription holds.
    pub open spec fn eager_stream(self) -> MsgStream<Msg> {
        self.kind->Eager_0
    }

    /// Creates a subscription from an already-built stream, boxed with
    /// `futures::StreamExt::boxed`.
    ///
    /// The stream must be free of side effects on construction: an event loop
    /// drops a subscription whose id is already active.
    #[verifier::external_body]
    pub fn new<S>(id: &'static str, stream: S) -> (r: Self)
        where
            S: futures_core::Stream<Item = Msg> + Send + 'static,
        ensures
            r.id == id,
            !r.is_lazy(),
    {
        Sub { id, kind: SubKind::Eager(MsgStream { stream: stream.boxed() }) }
    }

    /// Creates a lazy subscription: `factory` runs only when the stream is
    /// taken with `into_stream`, and never when the subscription is dropped.
    /// The factory's stream is boxed with `futures::StreamExt::boxed`.
    #[verifier::external_body]
    pub fn lazy<F, S>(id: &'static str, factory: F) -> (r: Self)
        where
            F: FnOnce() -> S + Send + 'static,
            S: futures_core::Stream<Item = Msg> + Send + 'static,
        ensures
            r.id == id,
            r.is_lazy(),
    {
        Sub { id, kind: SubKind::Lazy(StreamFactory { make: Box::new(move || factory().boxed()) }) }
    }

    /// Consumes this subscription and returns its stream: the stream an
    /// eager subscription holds, or the one its factory builds, the factory
    /// running exactly once.
    pub fn into_stream(self) -> (r: MsgStream<Msg>)
        ensures
            !self.is_lazy() ==> r == self.eager_stream(),
    {
        match self.kind {
            SubKind::Eager(s) => s,
            SubKind::Lazy(factory) => run_factory(factory),
        }
    }

    /// The text of this subscription's debug rendering.
    pub open spec fn debug_text(self) -> Seq<char> {
        "Sub { id: "@ + str_debug(self.id@) + ", kind: "@
            + (if self.is_lazy() { "\"Lazy\""@ } else { "\"Eager\""@ }) + ", .. }"@
    }

    /// Renders this subscription for debugging: its id and how it holds its
    /// stream.
    pub fn debug_string(&self) -> (r: String)
        ensures
            r@ == self.debug_text(),
    {
        let mut s = String::from_str("Sub { id: ");
        let id = debug_str(self.id);
        s.append(id.as_str());
        s.append(", kind: ");
        match &self.kind {
            SubKind::Eager(_) => s.append("\"Eager\""),
            SubKind::Lazy(_) => s.append("\"Lazy\""),
        }
        s.append(", .. }");
        s
    }
}

} // verus!
