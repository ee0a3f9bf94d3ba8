//! The decisions of a TEA event loop: what to spawn, whether to quit or
//! redraw after an update, and which subscriptions to cancel and start.
//! The loop itself, with its I/O and its async runtime, is the caller's.
use vstd::prelude::*;

use crate::action::Action;
use crate::task::Task;
use crate::cmd::Cmd;
use crate::text::str_eq;

verus! {

broadcast use vstd::seq_lib::group_seq_properties, vstd::seq_lib::group_seq_lib_default;

/// What an event loop does after one update.
#[verifier::reject_recursive_types(Msg)]
pub struct Step<Msg> {
    /// The tasks to spawn, in order.
    pub tasks: Vec<Task<Msg>>,
    /// Whether the loop ends.
    pub quit: bool,
    /// Whether the view is drawn again.
    pub redraw: bool,
}

/// Decides what follows an update that returned `cmd`: every task of the
/// action is spawned, depth first; the loop quits exactly when the action
/// itself is `Quit`; otherwise it redraws when the command is dirty.
pub fn after_update<Msg>(cmd: Cmd<Msg>) -> (r: Step<Msg>)
    ensures
        r.tasks@ == cmd.action.tasks(),
        r.quit == (cmd.action is Quit),
        r.redraw == (cmd.dirty && !(cmd.action is Quit)),
{
    let quit = match &cmd.action {
        Action::Quit => true,
        _ => false,
    };
    let redraw = cmd.dirty && !quit;
    let tasks = cmd.action.into_tasks();
    Step { tasks, quit, redraw }
}

/// A command mapped to another message type drives the event loop alike: it
/// quits and redraws exactly when the unmapped command does, and spawns as
/// many tasks.
pub proof fn lemma_mapped_cmd_steps_alike<M, N>(c: Cmd<M>, d: Cmd<N>)
    requires
        d.action.shape() == c.action.shape(),
        d.dirty == c.dirty,
    ensures
        (d.action is Quit) == (c.action is Quit),
        (d.dirty && !(d.action is Quit)) == (c.dirty && !(c.action is Quit)),
        d.action.tasks().len() == c.action.tasks().len(),
{
    crate::action::lemma_shape_fixes_task_count(d.action, c.action);
}

/// The characters of each id.
pub open spec fn id_views(ids: Seq<&'static str>) -> Seq<Seq<char>> {
    ids.map_values(|s: &'static str| s@)
}

/// The active ids that are still wanted, in their order.
pub open spec fn retained(active: Seq<Seq<char>>, desired: Seq<Seq<char>>) -> Seq<Seq<char>> {
    active.filter(|x: Seq<char>| desired.contains(x))
}

/// The active ids that are no longer wanted, in their order.
pub open spec fn dropped(active: Seq<Seq<char>>, desired: Seq<Seq<char>>) -> Seq<Seq<char>> {
    active.filter(|x: Seq<char>| !desired.contains(x))
}

/// Whether `desired[i]` starts a stream: it is not active, and it does not
/// occur earlier in `desired`.
pub open spec fn is_fresh(active: Seq<Seq<char>>, desired: Seq<Seq<char>>, i: int) -> bool {
    !active.contains(desired[i]) && !desired.take(i).contains(desired[i])
}

/// The indices into `desired` of the subscriptions to start, increasing.
pub open spec fn fresh_indices(active: Seq<Seq<char>>, desired: Seq<Seq<char>>) -> Seq<usize> {
    Seq::new(desired.len(), |i: int| i as usize).filter(|i: usize| is_fresh(active, desired, i as int))
}

/// The ids at the given indices.
pub open spec fn ids_at(desired: Seq<Seq<char>>, indices: Seq<usize>) -> Seq<Seq<char>> {
    indices.map_values(|i: usize| desired[i as int])
}

/// The active ids after syncing with `desired`: the retained ones, then the
/// started ones.
pub open spec fn synced(active: Seq<Seq<char>>, desired: Seq<Seq<char>>) -> Seq<Seq<char>> {
    retained(active, desired) + ids_at(desired, fresh_indices(active, desired))
}

/// The members of `fresh_indices`: exactly the in-range indices that are fresh.
pub proof fn lemma_fresh_indices(active: Seq<Seq<char>>, desired: Seq<Seq<char>>)
    requires
        desired.len() <= usize::MAX,
    ensures
        forall|k: int| 0 <= k < fresh_indices(active, desired).len() ==> {
            let i = #[trigger] fresh_indices(active, desired)[k];
            &&& i < desired.len()
            &&& is_fresh(active, desired, i as int)
        },
        forall|i: int| 0 <= i < desired.len() && is_fresh(active, desired, i)
            ==> #[trigger] fresh_indices(active, desired).contains(i as usize),
{
    let all = Seq::new(desired.len(), |i: int| i as usize);
    let pred = |i: usize| is_fresh(active, desired, i as int);
    assert forall|k: int| 0 <= k < fresh_indices(active, desired).len() implies {
        let i = #[trigger] fresh_indices(active, desired)[k];
        &&& i < desired.len()
        &&& is_fresh(active, desired, i as int)
    } by {
        let i = fresh_indices(active, desired)[k];
        all.lemma_filter_pred(pred, k);
        assert(all.filter(pred).contains(i));
        all.lemma_filter_contains_rev(pred, i);
    }
    assert forall|i: int| 0 <= i < desired.len() && is_fresh(active, desired, i)
        implies #[trigger] fresh_indices(active, desired).contains(i as usize) by {
        assert(all[i] == i as usize);
        all.lemma_filter_contains(pred, i);
    }
}

/// After a sync, the running ids are exactly the desired ids: every running
/// id is desired, and every desired id runs.
pub proof fn lemma_synced_is_desired(active: Seq<Seq<char>>, desired: Seq<Seq<char>>)
    requires
        desired.len() <= usize::MAX,
    ensures
        forall|x: Seq<char>| #[trigger] synced(active, desired).contains(x) <==> desired.contains(x),
{
    let keep = |x: Seq<char>| desired.contains(x);
    let fresh = fresh_indices(active, desired);
    lemma_fresh_indices(active, desired);
    assert forall|x: Seq<char>| #[trigger] synced(active, desired).contains(x) <==> desired.contains(x) by {
        let s = synced(active, desired);
        let r = retained(active, desired);
        let f = ids_at(desired, fresh);
        if s.contains(x) {
            let k = choose|k: int| 0 <= k < s.len() && s[k] == x;
            if k < r.len() {
                assert(r.contains(x));
                active.lemma_filter_contains_rev(keep, x);
            } else {
                let i = fresh[k - r.len()];
                assert(f[k - r.len()] == x);
                assert(desired[i as int] == x);
            }
        }
        if desired.contains(x) {
            if active.contains(x) {
                let k = choose|k: int| 0 <= k < active.len() && active[k] == x;
                active.lemma_filter_contains(keep, k);
                let j = choose|j: int| 0 <= j < r.len() && r[j] == x;
                assert(s[j] == x);
            } else {
                desired.index_of_first_ensures(x);
                let i = desired.index_of_first(x).unwrap();
                assert(!desired.take(i).contains(x));
                assert(fresh.contains(i as usize));
                let k = choose|k: int| 0 <= k < fresh.len() && fresh[k] == i as usize;
                assert(f[k] == x);
                assert(s[r.len() + k] == x);
            }
        }
    }
}

/// A filter that every element passes keeps the whole sequence.
proof fn lemma_filter_keeps_all<A>(s: Seq<A>, p: spec_fn(A) -> bool)
    requires
        forall|i: int| 0 <= i < s.len() ==> p(#[trigger] s[i]),
    ensures
        s.filter(p) == s,
    decreases s.len(),
{
    if s.len() > 0 {
        lemma_filter_keeps_all(s.drop_last(), p);
        s.drop_last().lemma_filter_push(s.last(), p);
        assert(s.drop_last().push(s.last()) =~= s);
    } else {
        reveal(Seq::filter);
    }
}

/// A filter that no element passes keeps nothing.
proof fn lemma_filter_keeps_none<A>(s: Seq<A>, p: spec_fn(A) -> bool)
    requires
        forall|i: int| 0 <= i < s.len() ==> !p(#[trigger] s[i]),
    ensures
        s.filter(p) == Seq::<A>::empty(),
{
    if s.filter(p).len() > 0 {
        s.lemma_filter_pred(p, 0);
        assert(s.filter(p).contains(s.filter(p)[0]));
        s.lemma_filter_contains_rev(p, s.filter(p)[0]);
    }
    assert(s.filter(p) =~= Seq::<A>::empty());
}

/// Filtering keeps a sequence free of duplicates.
proof fn lemma_filter_no_duplicates<A>(s: Seq<A>, p: spec_fn(A) -> bool)
    requires
        s.no_duplicates(),
    ensures
        s.filter(p).no_duplicates(),
    decreases s.len(),
{
    if s.len() > 0 {
        let init = s.drop_last();
        assert(init.no_duplicates());
        lemma_filter_no_duplicates(init, p);
        init.lemma_filter_push(s.last(), p);
        assert(init.push(s.last()) =~= s);
        if init.filter(p).contains(s.last()) {
            init.lemma_filter_contains_rev(p, s.last());
        }
    } else {
        reveal(Seq::filter);
    }
}

/// A sync splits the running ids: those still desired stay, the others are
/// cancelled, and nothing else is in either part.
pub proof fn lemma_sync_splits_active(active: Seq<Seq<char>>, desired: Seq<Seq<char>>)
    ensures
        forall|x: Seq<char>| #[trigger] retained(active, desired).contains(x)
            <==> active.contains(x) && desired.contains(x),
        forall|x: Seq<char>| #[trigger] dropped(active, desired).contains(x)
            <==> active.contains(x) && !desired.contains(x),
{
    let keep = |x: Seq<char>| desired.contains(x);
    let stale = |x: Seq<char>| !desired.contains(x);
    assert forall|x: Seq<char>| #[trigger] retained(active, desired).contains(x)
        <==> active.contains(x) && desired.contains(x) by {
        if retained(active, desired).contains(x) {
            active.lemma_filter_contains_rev(keep, x);
        }
        if active.contains(x) && desired.contains(x) {
            let k = choose|k: int| 0 <= k < active.len() && active[k] == x;
            active.lemma_filter_contains(keep, k);
        }
    }
    assert forall|x: Seq<char>| #[trigger] dropped(active, desired).contains(x)
        <==> active.contains(x) && !desired.contains(x) by {
        if dropped(active, desired).contains(x) {
            active.lemma_filter_contains_rev(stale, x);
        }
        if active.contains(x) && !desired.contains(x) {
            let k = choose|k: int| 0 <= k < active.len() && active[k] == x;
            active.lemma_filter_contains(stale, k);
        }
    }
}

/// The subscriptions a sync starts were not running, and no id is started
/// twice.
pub proof fn lemma_started_are_new(active: Seq<Seq<char>>, desired: Seq<Seq<char>>)
    requires
        desired.len() <= usize::MAX,
    ensures
        forall|k: int| 0 <= k < ids_at(desired, fresh_indices(active, desired)).len()
            ==> !active.contains(#[trigger] ids_at(desired, fresh_indices(active, desired))[k]),
        ids_at(desired, fresh_indices(active, desired)).no_duplicates(),
{
    let fresh = fresh_indices(active, desired);
    let f = ids_at(desired, fresh);
    lemma_fresh_indices(active, desired);
    let all = Seq::new(desired.len(), |i: int| i as usize);
    let pred = |i: usize| is_fresh(active, desired, i as int);
    assert(all.no_duplicates());
    lemma_filter_no_duplicates(all, pred);
    assert forall|a: int, b: int| 0 <= a < f.len() && 0 <= b < f.len() && a != b
        implies f[a] != f[b] by {
        let ia = fresh[a];
        let ib = fresh[b];
        if f[a] == f[b] {
            if ia < ib {
                assert(desired.take(ib as int)[ia as int] == desired[ia as int]);
                assert(desired.take(ib as int).contains(desired[ib as int]));
            } else if ib < ia {
                assert(desired.take(ia as int)[ib as int] == desired[ib as int]);
                assert(desired.take(ia as int).contains(desired[ia as int]));
            }
        }
    }
}

/// Syncing twice with the same desired ids does nothing the second time:
/// no stream is cancelled, none is started, and the running ids stay.
pub proof fn lemma_sync_is_idempotent(active: Seq<Seq<char>>, desired: Seq<Seq<char>>)
    requires
        desired.len() <= usize::MAX,
    ensures
        dropped(synced(active, desired), desired) == Seq::<Seq<char>>::empty(),
        fresh_indices(synced(active, desired), desired) == Seq::<usize>::empty(),
        synced(synced(active, desired), desired) == synced(active, desired),
{
    let s = synced(active, desired);
    lemma_synced_is_desired(active, desired);
    assert forall|i: int| 0 <= i < s.len() implies (|x: Seq<char>| desired.contains(x))(#[trigger] s[i]) by {
        assert(s.contains(s[i]));
    }
    lemma_filter_keeps_all(s, |x: Seq<char>| desired.contains(x));
    lemma_filter_keeps_none(s, |x: Seq<char>| !desired.contains(x));
    let all = Seq::new(desired.len(), |i: int| i as usize);
    let pred = |i: usize| is_fresh(s, desired, i as int);
    assert forall|i: int| 0 <= i < all.len() implies !pred(#[trigger] all[i]) by {
        assert(desired.contains(desired[i]));
        assert(s.contains(desired[i]));
    }
    lemma_filter_keeps_none(all, pred);
    assert(ids_at(desired, Seq::<usize>::empty()) =~= Seq::<Seq<char>>::empty());
    assert(synced(s, desired) =~= s);
}

/// Whether `ids` holds `id`.
fn contains_id(ids: &Vec<&'static str>, id: &str) -> (r: bool)
    ensures
        r == id_views(ids@).contains(id@),
{
    let mut i: usize = 0;
    while i < ids.len()
        invariant
            i <= ids.len(),
            forall|j: int| 0 <= j < i ==> ids@[j]@ != id@,
        decreases ids.len() - i,
    {
        if str_eq(ids[i], id) {
            assert(id_views(ids@)[i as int] == id@);
            return true;
        }
        i += 1;
    }
    assert(!id_views(ids@).contains(id@)) by {
        if id_views(ids@).contains(id@) {
            let k = choose|k: int| 0 <= k < id_views(ids@).len() && id_views(ids@)[k] == id@;
            assert(ids@[k]@ == id@);
        }
    }
    false
}


/// What a sync decides: the ids whose streams are cancelled, and the
/// indices into the desired subscriptions whose streams are started.
pub struct SyncPlan {
    /// The ids that are no longer wanted, in the order they were active.
    pub cancel: Vec<&'static str>,
    /// The indices of the subscriptions to spawn, increasing.
    pub start: Vec<usize>,
}

/// The ids of the running subscriptions, each at most once, in the order
/// they were started.
pub struct SubscriptionSet {
    ids: Vec<&'static str>,
}

impl View for SubscriptionSet {
    type V = Seq<Seq<char>>;

    closed spec fn view(&self) -> Seq<Seq<char>> {
        id_views(self.ids@)
    }
}

/// Appending an id to a list of ids appends its characters to the views.
proof fn lemma_id_views_push(ids: Seq<&'static str>, id: &'static str)
    ensures
        id_views(ids.push(id)) == id_views(ids).push(id@),
{
    assert(id_views(ids.push(id)) =~= id_views(ids).push(id@));
}

impl SubscriptionSet {
    #[verifier::type_invariant]
    spec fn no_duplicate_ids(self) -> bool {
        id_views(self.ids@).no_duplicates()
    }

    /// No subscription is running.
    pub fn new() -> (r: Self)
        ensures
            r@ == Seq::<Seq<char>>::empty(),
    {
        let r = SubscriptionSet { ids: Vec::new() };
        assert(id_views(r.ids@) =~= Seq::<Seq<char>>::empty());
        r
    }

    /// The number of running subscriptions.
    pub fn len(&self) -> (r: usize)
        ensures
            r == self@.len(),
            self@.no_duplicates(),
    {
        proof {
            use_type_invariant(self);
        }
        self.ids.len()
    }

    /// Whether a subscription with this id is running.
    pub fn contains(&self, id: &str) -> (r: bool)
        ensures
            r == self@.contains(id@),
            self@.no_duplicates(),
    {
        proof {
            use_type_invariant(self);
        }
        contains_id(&self.ids, id)
    }

    /// Syncs the running subscriptions with the desired ones: the ids that
    /// are no longer desired are cancelled, each desired id that is not
    /// running is started once, from its first occurrence, and the ids that
    /// stay keep running untouched.
    pub fn sync(&mut self, desired: &Vec<&'static str>) -> (plan: SyncPlan)
        ensures
            id_views(plan.cancel@) == dropped(old(self)@, id_views(desired@)),
            plan.start@ == fresh_indices(old(self)@, id_views(desired@)),
            final(self)@ == synced(old(self)@, id_views(desired@)),
            old(self)@.no_duplicates(),
            final(self)@.no_duplicates(),
    {
        proof {
            use_type_invariant(&*self);
        }
        let ghost old_v = self@;
        let ghost d = id_views(desired@);
        let ghost keep = |x: Seq<char>| d.contains(x);
        let ghost stale = |x: Seq<char>| !d.contains(x);
        let mut cur: Vec<&'static str> = Vec::new();
        let mut cancel: Vec<&'static str> = Vec::new();
        let n = self.ids.len();
        let mut i: usize = 0;
        assert(old_v.take(0) =~= Seq::<Seq<char>>::empty());
        assert(id_views(cur@) =~= Seq::<Seq<char>>::empty());
        while i < n
            invariant
                n == self.ids.len(),
                i <= n,
                old_v == id_views(self.ids@),
                old_v.no_duplicates(),
                d == id_views(desired@),
                keep == (|x: Seq<char>| d.contains(x)),
                stale == (|x: Seq<char>| !d.contains(x)),
                id_views(cur@) == old_v.take(i as int).filter(keep),
                id_views(cancel@) == old_v.take(i as int).filter(stale),
                id_views(cur@).no_duplicates(),
            decreases n - i,
        {
            let id = self.ids[i];
            let ghost prev = id_views(cur@);
            assert(old_v[i as int] == id@);
            assert(old_v.take(i + 1) =~= old_v.take(i as int).push(id@));
            proof {
                old_v.take(i as int).lemma_filter_push(id@, keep);
                old_v.take(i as int).lemma_filter_push(id@, stale);
            }
            if contains_id(desired, id) {
                proof {
                    lemma_id_views_push(cur@, id);
                    if prev.contains(id@) {
                        old_v.take(i as int).lemma_filter_contains_rev(keep, id@);
                        let k = choose|k: int| 0 <= k < i && old_v.take(i as int)[k] == id@;
                        assert(old_v[k] == old_v[i as int]);
                    }
                }
                cur.push(id);
            } else {
                proof {
                    lemma_id_views_push(cancel@, id);
                }
                cancel.push(id);
            }
            i += 1;
        }
        assert(old_v.take(n as int) =~= old_v);
        let ghost fresh = |k: usize| is_fresh(old_v, d, k as int);
        let ghost idx = |k: int| k as usize;
        let m = desired.len();
        let mut start: Vec<usize> = Vec::new();
        let mut j: usize = 0;
        assert(Seq::new(0, idx).filter(fresh) =~= Seq::<usize>::empty());
        assert(ids_at(d, start@) =~= Seq::<Seq<char>>::empty());
        assert(retained(old_v, d) == old_v.filter(keep));
        assert forall|x: Seq<char>| #[trigger] id_views(cur@).contains(x)
            <==> (old_v.contains(x) && d.contains(x)) || d.take(0).contains(x) by {
            if id_views(cur@).contains(x) {
                old_v.lemma_filter_contains_rev(keep, x);
            }
            if old_v.contains(x) && d.contains(x) {
                let k = choose|k: int| 0 <= k < old_v.len() && old_v[k] == x;
                old_v.lemma_filter_contains(keep, k);
            }
        }
        while j < m
            invariant
                m == desired.len(),
                j <= m,
                d == id_views(desired@),
                keep == (|x: Seq<char>| d.contains(x)),
                fresh == (|k: usize| is_fresh(old_v, d, k as int)),
                idx == (|k: int| k as usize),
                id_views(cur@) == retained(old_v, d) + ids_at(d, start@),
                start@ == Seq::new(j as nat, idx).filter(fresh),
                forall|x: Seq<char>| #[trigger] id_views(cur@).contains(x)
                    <==> (old_v.contains(x) && d.contains(x)) || d.take(j as int).contains(x),
                id_views(cur@).no_duplicates(),
            decreases m - j,
        {
            let id = desired[j];
            let ghost prev_start = start@;
            assert(d[j as int] == id@);
            assert(Seq::new((j + 1) as nat, idx) =~= Seq::new(j as nat, idx).push(j));
            proof {
                Seq::new(j as nat, idx).lemma_filter_push(j, fresh);
            }
            assert(d.take(j + 1) =~= d.take(j as int).push(id@));
            if !contains_id(&cur, id) {
                proof {
                    lemma_id_views_push(cur@, id);
                    assert(ids_at(d, prev_start.push(j)) =~= ids_at(d, prev_start).push(id@));
                }
                cur.push(id);
                start.push(j);
            }
            j += 1;
        }
        assert(Seq::new(m as nat, idx) =~= Seq::new(d.len(), |k: int| k as usize));
        self.ids = cur;
        SyncPlan { cancel, start }
    }

    /// Stops tracking every subscription, handing out their ids in order.
    pub fn clear(&mut self) -> (r: Vec<&'static str>)
        ensures
            id_views(r@) == old(self)@,
            final(self)@ == Seq::<Seq<char>>::empty(),
    {
        let mut ids: Vec<&'static str> = Vec::new();
        std::mem::swap(&mut ids, &mut self.ids);
        assert(id_views(self.ids@) =~= Seq::<Seq<char>>::empty());
        ids
    }
}

} // verus!
