//! The Elm architecture for terminal applications: a model updated by
//! messages returns a command (a side effect and a dirty flag); the caller
//! owns the event loop. The library also holds the loop's decisions: which
//! tasks to spawn, when to quit or redraw, and how to keep subscriptions in
//! step with the model.
pub mod action;
pub mod cmd;
pub mod runner;
pub mod sub;
pub mod task;
pub mod tea;
pub mod text;

pub use action::{Action, ActionShape};
pub use task::{BoxFuture, Task};
pub use cmd::Cmd;
pub use tea::{Subscription, Tea};
pub use runner::{after_update, Step, SubscriptionSet, SyncPlan};
pub use sub::{MsgStream, StreamFactory, Sub, SubKind};
