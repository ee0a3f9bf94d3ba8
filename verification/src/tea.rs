//! The trait an application's model implements.
use vstd::prelude::*;

use crate::action::Action;
use crate::cmd::Cmd;
use crate::sub::{MsgStream, Sub};

verus! {

/// A frame of the terminal that a view draws on.
#[verifier::external_type_specification]
#[verifier::external_body]
pub struct ExFrame<'a>(ratatui::Frame<'a>);

/// The Elm architecture: a model that owns all state, updated by messages
/// and rendered from its state. The caller owns the event loop and decides
/// when to call `update` and `view`.
pub trait Tea {
    /// Everything that can happen in the application.
    type Msg;

    /// Processes a message, mutates the state, and returns the side effect
    /// to perform with a flag telling whether the view is dirty.
    fn update(&mut self, msg: Self::Msg) -> Cmd<Self::Msg>;

    /// Renders the current state with full access to the frame.
    fn view(&mut self, frame: &mut ratatui::Frame);

    /// The side effect to perform at startup; by default none.
    fn init(&mut self) -> (r: Action<Self::Msg>)
        default_ensures
            r is Nothing,
    {
        Action::Nothing
    }

    /// The subscriptions wanted in the current state; by default none.
    fn subscriptions(&self) -> (r: Vec<Sub<Self::Msg>>)
        default_ensures
            r@.len() == 0,
    {
        Vec::new()
    }
}

/// A source of message streams: timers, channels, file watchers. Called at
/// startup and whenever the caller wants to re-subscribe.
pub trait Subscription<Msg> {
    /// The streams that produce messages.
    fn subscriptions(&self) -> Vec<MsgStream<Msg>>;
}

} // verus!
