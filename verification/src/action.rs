//! Side effects returned from an update: what to do, never how.
use vstd::prelude::*;
use vstd::string::*;

use crate::task::Task;
use crate::text::{decimal, decimal_value, is_digit, lemma_decimal_reads_back, push_decimal};

verus! {

/// A side effect to perform after an update.
#[verifier::reject_recursive_types(Msg)]
pub enum Action<Msg> {
    /// No side effect.
    Nothing,
    /// An asynchronous task whose message is fed back into the update.
    Task(Task<Msg>),
    /// Several actions, in order.
    Batch(Vec<Action<Msg>>),
    /// Quit the application.
    Quit,
}

/// The structure of an action with the tasks' contents forgotten.
pub enum ActionShape {
    Nothing,
    Task,
    Batch(Seq<ActionShape>),
    Quit,
}

impl<Msg> Action<Msg> {
    /// The structure of this action.
    pub open spec fn shape(self) -> ActionShape
        decreases self,
    {
        match self {
            Action::Nothing => ActionShape::Nothing,
            Action::Task(_) => ActionShape::Task,
            Action::Batch(v) => ActionShape::Batch(shapes_of(v@)),
            Action::Quit => ActionShape::Quit,
        }
    }

    /// The text of this action's debug rendering.
    pub open spec fn debug_text(self) -> Seq<char> {
        match self {
            Action::Nothing => "Action::None"@,
            Action::Task(_) => "Action::Task(...)"@,
            Action::Batch(v) => "Action::Batch(len="@ + decimal(v.len() as nat) + ")"@,
            Action::Quit => "Action::Quit"@,
        }
    }

    /// The tasks of this action, depth first, in order.
    pub open spec fn tasks(self) -> Seq<Task<Msg>>
        decreases self,
    {
        match self {
            Action::Task(t) => seq![t],
            Action::Batch(v) => tasks_of(v@),
            _ => Seq::empty(),
        }
    }
}

/// The labels of a sequence of tasks, in order.
pub open spec fn labels_of<Msg>(tasks: Seq<Task<Msg>>) -> Seq<nat> {
    tasks.map_values(|t: Task<Msg>| t.label())
}

/// The shapes of a sequence of actions, element by element.
pub open spec fn shapes_of<Msg>(s: Seq<Action<Msg>>) -> Seq<ActionShape>
    decreases s,
{
    if s.len() == 0 {
        Seq::empty()
    } else {
        shapes_of(s.drop_last()).push(s.last().shape())
    }
}

/// The tasks of a sequence of actions, concatenated in order.
pub open spec fn tasks_of<Msg>(s: Seq<Action<Msg>>) -> Seq<Task<Msg>>
    decreases s,
{
    if s.len() == 0 {
        Seq::empty()
    } else {
        tasks_of(s.drop_last()) + s.last().tasks()
    }
}


/// `shapes_of` keeps the length and maps each element to its shape.
pub proof fn lemma_shapes_of<Msg>(s: Seq<Action<Msg>>)
    ensures
        shapes_of(s).len() == s.len(),
        forall|i: int| 0 <= i < s.len() ==> #[trigger] shapes_of(s)[i] == s[i].shape(),
    decreases s.len(),
{
    if s.len() > 0 {
        lemma_shapes_of(s.drop_last());
    }
}

/// Two sequences of actions whose tasks carry equal labels element by element
/// hold tasks with equal labels altogether.
pub proof fn lemma_labels_of_eq<M, N>(s: Seq<Action<M>>, t: Seq<Action<N>>)
    requires
        s.len() == t.len(),
        forall|i: int| 0 <= i < s.len() ==> labels_of(#[trigger] s[i].tasks()) == labels_of(t[i].tasks()),
    ensures
        labels_of(tasks_of(s)) == labels_of(tasks_of(t)),
    decreases s.len(),
{
    if s.len() > 0 {
        let s0 = s.drop_last();
        let t0 = t.drop_last();
        assert forall|i: int| 0 <= i < s0.len() implies labels_of(#[trigger] s0[i].tasks()) == labels_of(t0[i].tasks()) by {
            assert(s0[i] == s[i] && t0[i] == t[i]);
        }
        lemma_labels_of_eq(s0, t0);
        assert(labels_of(s.last().tasks()) == labels_of(t.last().tasks())) by {
            assert(s.last() == s[s.len() - 1] && t.last() == t[t.len() - 1]);
        }
        assert(labels_of(tasks_of(s0) + s.last().tasks()) =~= labels_of(tasks_of(s0)) + labels_of(s.last().tasks()));
        assert(labels_of(tasks_of(t0) + t.last().tasks()) =~= labels_of(tasks_of(t0)) + labels_of(t.last().tasks()));
    }
}

/// Two sequences of actions with equal shapes element by element have equal shapes.
pub proof fn lemma_shapes_of_eq<M, N>(s: Seq<Action<M>>, t: Seq<Action<N>>)
    requires
        s.len() == t.len(),
        forall|i: int| 0 <= i < s.len() ==> #[trigger] s[i].shape() == t[i].shape(),
    ensures
        shapes_of(s) == shapes_of(t),
{
    lemma_shapes_of(s);
    lemma_shapes_of(t);
    assert(shapes_of(s) =~= shapes_of(t));
}

/// Actions of one shape hold the same number of tasks.
pub proof fn lemma_shape_fixes_task_count<M, N>(a: Action<M>, b: Action<N>)
    requires
        a.shape() == b.shape(),
    ensures
        a.tasks().len() == b.tasks().len(),
    decreases a,
{
    match a {
        Action::Batch(v) => {
            let w = b->Batch_0;
            assert(decreases_to!(a => v));
            assert(decreases_to!(v => v@));
            lemma_shapes_fix_task_count(v@, w@);
        },
        _ => {},
    }
}

/// Sequences of actions of the same shapes hold the same number of tasks.
pub proof fn lemma_shapes_fix_task_count<M, N>(s: Seq<Action<M>>, t: Seq<Action<N>>)
    requires
        shapes_of(s) == shapes_of(t),
    ensures
        tasks_of(s).len() == tasks_of(t).len(),
    decreases s,
{
    lemma_shapes_of(s);
    lemma_shapes_of(t);
    if s.len() > 0 {
        assert(shapes_of(s.drop_last()) == shapes_of(s).drop_last());
        assert(shapes_of(t.drop_last()) == shapes_of(t).drop_last());
        assert(s.last().shape() == t.last().shape()) by {
            assert(shapes_of(s)[s.len() - 1] == shapes_of(t)[t.len() - 1]);
        }
        lemma_shapes_fix_task_count(s.drop_last(), t.drop_last());
        lemma_shape_fixes_task_count(s.last(), t.last());
    }
}

/// Joining two sequences of actions joins their tasks.
proof fn lemma_tasks_of_concat<M>(s: Seq<Action<M>>, t: Seq<Action<M>>)
    ensures
        tasks_of(s + t) == tasks_of(s) + tasks_of(t),
    decreases t.len(),
{
    if t.len() == 0 {
        assert(s + t =~= s);
        assert(tasks_of(s) + tasks_of(t) =~= tasks_of(s));
    } else {
        lemma_tasks_of_concat(s, t.drop_last());
        assert((s + t).drop_last() =~= s + t.drop_last());
        assert((s + t).last() == t.last());
        assert(tasks_of(s) + tasks_of(t.drop_last()) + t.last().tasks()
            =~= tasks_of(s) + (tasks_of(t.drop_last()) + t.last().tasks()));
    }
}

/// A batch of no actions has no task.
pub proof fn lemma_empty_batch_has_no_task<M>(v: Vec<Action<M>>)
    requires
        v@.len() == 0,
    ensures
        Action::Batch(v).tasks().len() == 0,
{
}

/// A batch of one action has exactly that action's tasks.
pub proof fn lemma_single_batch_tasks<M>(v: Vec<Action<M>>, a: Action<M>)
    requires
        v@ == seq![a],
    ensures
        Action::Batch(v).tasks() == a.tasks(),
{
    assert(v@.drop_last() =~= Seq::<Action<M>>::empty());
    assert(tasks_of(Seq::<Action<M>>::empty()) + a.tasks() =~= a.tasks());
}

/// The tasks of a batch whose actions are those of `v` followed by those of
/// `w` are the tasks of the batch of `v` followed by the tasks of the batch
/// of `w`: every action of a batch spawns all its tasks, in order.
pub proof fn lemma_batch_tasks_concat<M>(v: Vec<Action<M>>, w: Vec<Action<M>>, vw: Vec<Action<M>>)
    requires
        vw@ == v@ + w@,
    ensures
        Action::Batch(vw).tasks() == Action::Batch(v).tasks() + Action::Batch(w).tasks(),
{
    lemma_tasks_of_concat(v@, w@);
}

/// The debug rendering of a batch is `Action::Batch(len=`, the number of its
/// actions in decimal digits without leading zero, and `)`.
pub proof fn lemma_batch_debug_text<M>(v: Vec<Action<M>>)
    ensures
        ({
            let t = Action::Batch(v).debug_text();
            let p = "Action::Batch(len="@;
            &&& t.len() > p.len() + 1
            &&& t.subrange(0, p.len() as int) == p
            &&& t.last() == ')'
            &&& forall|i: int| p.len() <= i < t.len() - 1 ==> is_digit(#[trigger] t[i])
            &&& decimal_value(t.subrange(p.len() as int, t.len() - 1)) == v.len()
            &&& (t.len() > p.len() + 2 ==> t[p.len() as int] != '0')
        }),
{
    let t = Action::Batch(v).debug_text();
    let p = "Action::Batch(len="@;
    let d = decimal(v.len() as nat);
    reveal_strlit(")");
    lemma_decimal_reads_back(v.len() as nat);
    assert(t == p + d + ")"@);
    assert(t.subrange(0, p.len() as int) =~= p);
    assert(t.subrange(p.len() as int, t.len() - 1) =~= d);
    assert forall|i: int| p.len() <= i < t.len() - 1 implies is_digit(#[trigger] t[i]) by {
        assert(t[i] == d[i - p.len()]);
    }
    if t.len() > p.len() + 2 {
        assert(t[p.len() as int] == d[0]);
    }
}

impl<Msg> Action<Msg> {
    /// Creates a task action from any future.
    pub fn task<F>(future: F) -> (r: Self)
        where
            F: std::future::Future<Output = Msg> + Send + 'static,
        ensures
            r is Task,
    {
        Action::Task(Task::new(future))
    }

    /// Transforms the message type of this action: every task is composed
    /// with `f` and keeps its place and its label, every other node keeps
    /// its place.
    #[verifier::loop_isolation(false)]
    pub fn map<N, F>(self, f: F) -> (r: Action<N>)
        where
            Msg: Send + 'static,
            N: Send + 'static,
            F: FnOnce(Msg) -> N + Send + 'static + Clone,
        ensures
            r.shape() == self.shape(),
            labels_of(r.tasks()) == labels_of(self.tasks()),
        decreases self,
    {
        let ghost whole = self;
        match self {
            Action::Nothing => Action::Nothing,
            Action::Quit => Action::Quit,
            Action::Task(t) => Action::Task(t.map(f)),
            Action::Batch(actions) => {
                let ghost items = actions@;
                let mut out: Vec<Action<N>> = Vec::new();
                for a in it: actions
                    invariant
                        it.seq() == items,
                        out@.len() == it.index(),
                        forall|j: int| 0 <= j < it.index() ==> #[trigger] out@[j].shape() == items[j].shape(),
                        forall|j: int| 0 <= j < it.index() ==> labels_of(#[trigger] out@[j].tasks()) == labels_of(items[j].tasks()),
                {
                    proof {
                        let v = whole->Batch_0;
                        assert(a == v@[it.index()]);
                        assert(decreases_to!(whole => v));
                        assert(decreases_to!(v => v@));
                    }
                    out.push(a.map(f.clone()));
                }
                proof {
                    lemma_shapes_of_eq(out@, items);
                    lemma_labels_of_eq(out@, items);
                }
                Action::Batch(out)
            }
        }
    }

    /// Renders this action for debugging: the variant's name, and the number
    /// of actions of a batch.
    pub fn debug_string(&self) -> (r: String)
        ensures
            r@ == self.debug_text(),
    {
        match self {
            Action::Nothing => String::from_str("Action::None"),
            Action::Task(_) => String::from_str("Action::Task(...)"),
            Action::Batch(v) => {
                let mut s = String::from_str("Action::Batch(len=");
                push_decimal(&mut s, v.len());
                s.append(")");
                s
            }
            Action::Quit => String::from_str("Action::Quit"),
        }
    }

    /// The tasks of this action, depth first, in order: what an event loop
    /// spawns for it.
    #[verifier::loop_isolation(false)]
    pub fn into_tasks(self) -> (r: Vec<Task<Msg>>)
        ensures
            r@ == self.tasks(),
        decreases self,
    {
        let ghost whole = self;
        match self {
            Action::Nothing => Vec::new(),
            Action::Quit => Vec::new(),
            Action::Task(t) => {
                let mut out = Vec::new();
                out.push(t);
                out
            }
            Action::Batch(actions) => {
                let ghost items = actions@;
                let mut out: Vec<Task<Msg>> = Vec::new();
                for a in it: actions
                    invariant
                        it.seq() == items,
                        out@ == tasks_of(items.take(it.index() as int)),
                {
                    proof {
                        let v = whole->Batch_0;
                        assert(a == v@[it.index()]);
                        assert(decreases_to!(whole => v));
                        assert(decreases_to!(v => v@));
                    }
                    let ghost k = it.index();
                    let mut sub = a.into_tasks();
                    out.append(&mut sub);
                    assert(items.take(k + 1).drop_last() =~= items.take(k));
                }
                assert(items.take(items.len() as int) =~= items);
                out
            }
        }
    }
}

} // verus!
