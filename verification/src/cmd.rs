//! The value an update returns: a side effect and a dirty flag.
use vstd::prelude::*;

use vstd::string::*;

use crate::action::{labels_of, Action};
use crate::text::ends_with;

verus! {

/// The result of processing a message: the side effect to perform and
/// whether the view needs re-rendering.
#[verifier::reject_recursive_types(Msg)]
pub struct Cmd<Msg> {
    /// The side effect to perform after this update.
    pub action: Action<Msg>,
    /// Whether the view needs re-rendering after this update.
    pub dirty: bool,
}

/// The debug rendering of a command starts with `Cmd { action: ` and the
/// rendering of its action, and shows its own dirty flag: it ends with
/// `, dirty: true }` exactly when the command is dirty, and with
/// `, dirty: false }` exactly when it is not.
pub proof fn lemma_debug_text_shows_fields<M>(c: Cmd<M>)
    ensures
        ends_with(c.debug_text(), ", dirty: true }"@) == c.dirty,
        ends_with(c.debug_text(), ", dirty: false }"@) == !c.dirty,
        c.debug_text().subrange(0, ("Cmd { action: "@.len() + c.action.debug_text().len()) as int)
            == "Cmd { action: "@ + c.action.debug_text(),
{
    reveal_strlit(", dirty: ");
    reveal_strlit("true");
    reveal_strlit("false");
    reveal_strlit(" }");
    reveal_strlit(", dirty: true }");
    reveal_strlit(", dirty: false }");
    let head = "Cmd { action: "@ + c.action.debug_text();
    let t = c.debug_text();
    let yes = ", dirty: true }"@;
    let no = ", dirty: false }"@;
    assert(t.subrange(0, head.len() as int) =~= head);
    if c.dirty {
        assert(t =~= head + yes);
        assert(t.subrange(t.len() - yes.len(), t.len() as int) =~= yes);
        if ends_with(t, no) {
            assert(t[t.len() - 4] == no[12]);
            assert(t[t.len() - 4] == yes[11]);
        }
    } else {
        assert(t =~= head + no);
        assert(t.subrange(t.len() - no.len(), t.len() as int) =~= no);
        if ends_with(t, yes) {
            assert(t[t.len() - 4] == no[12]);
            assert(t[t.len() - 4] == yes[11]);
        }
    }
}

impl<Msg> Cmd<Msg> {
    /// The text of this command's debug rendering.
    pub open spec fn debug_text(self) -> Seq<char> {
        "Cmd { action: "@ + self.action.debug_text() + ", dirty: "@
            + (if self.dirty { "true"@ } else { "false"@ }) + " }"@
    }

    /// Renders this command for debugging, as a struct with its two fields.
    pub fn debug_string(&self) -> (r: String)
        ensures
            r@ == self.debug_text(),
    {
        let mut s = String::from_str("Cmd { action: ");
        let action = self.action.debug_string();
        s.append(action.as_str());
        s.append(", dirty: ");
        if self.dirty {
            s.append("true");
        } else {
            s.append("false");
        }
        s.append(" }");
        s
    }

    /// No side effect, no re-render needed.
    pub fn none() -> (r: Self)
        ensures
            r.action is Nothing,
            !r.dirty,
    {
        Cmd { action: Action::Nothing, dirty: false }
    }

    /// No side effect, but the view needs re-rendering.
    pub fn dirty() -> (r: Self)
        ensures
            r.action is Nothing,
            r.dirty,
    {
        Cmd { action: Action::Nothing, dirty: true }
    }

    /// Quit the application.
    pub fn quit() -> (r: Self)
        ensures
            r.action is Quit,
            !r.dirty,
    {
        Cmd { action: Action::Quit, dirty: false }
    }

    /// Spawn an asynchronous task and mark the view dirty.
    pub fn task<F>(future: F) -> (r: Self)
        where
            F: std::future::Future<Output = Msg> + Send + 'static,
        ensures
            r.action is Task,
            r.dirty,
    {
        Cmd { action: Action::task(future), dirty: true }
    }

    /// Perform several actions and mark the view dirty.
    pub fn batch(actions: Vec<Action<Msg>>) -> (r: Self)
        ensures
            r.action == Action::Batch(actions),
            r.dirty,
    {
        Cmd { action: Action::Batch(actions), dirty: true }
    }

    /// Perform an action with explicit dirty control.
    pub fn with_action(action: Action<Msg>, dirty: bool) -> (r: Self)
        ensures
            r.action == action,
            r.dirty == dirty,
    {
        Cmd { action, dirty }
    }

    /// Perform an action and mark the view dirty.
    pub fn dirty_with_action(action: Action<Msg>) -> (r: Self)
        ensures
            r.action == action,
            r.dirty,
    {
        Cmd { action, dirty: true }
    }

    /// Transforms the message type of this command; the dirty flag, the
    /// structure of the action and the place and label of each task are kept.
    pub fn map<N, F>(self, f: F) -> (r: Cmd<N>)
        where
            Msg: Send + 'static,
            N: Send + 'static,
            F: FnOnce(Msg) -> N + Send + 'static + Clone,
        ensures
            r.action.shape() == self.action.shape(),
            labels_of(r.action.tasks()) == labels_of(self.action.tasks()),
            r.dirty == self.dirty,
    {
        Cmd { action: self.action.map(f), dirty: self.dirty }
    }
}

} // verus!
