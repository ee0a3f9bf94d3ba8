use osteak::{after_update, Action, Cmd, SubscriptionSet};

#[test]
fn after_update_quits_only_on_a_top_level_quit() {
    let step = after_update(Cmd::<i32>::quit());
    assert!(step.quit);
    assert!(!step.redraw);
    assert!(step.tasks.is_empty());

    let step = after_update(Cmd::<i32>::batch(vec![Action::Quit]));
    assert!(!step.quit);
    assert!(step.redraw);

    let step = after_update(Cmd::<i32>::with_action(Action::Quit, true));
    assert!(step.quit);
    assert!(!step.redraw);
}

#[test]
fn after_update_redraws_when_dirty() {
    let step = after_update(Cmd::<i32>::dirty());
    assert!(!step.quit);
    assert!(step.redraw);
    let step = after_update(Cmd::<i32>::none());
    assert!(!step.quit);
    assert!(!step.redraw);
}

#[test]
fn after_update_spawns_every_task_in_order() {
    let cmd = Cmd::batch(vec![
        Action::task(async { 1 }),
        Action::Batch(vec![Action::task(async { 2 }), Action::Quit]),
        Action::task(async { 3 }),
    ]);
    let step = after_update(cmd);
    assert!(!step.quit);
    let out: Vec<i32> = step
        .tasks
        .into_iter()
        .map(|t| futures::executor::block_on(t.into_future().pinned))
        .collect();
    assert_eq!(out, vec![1, 2, 3]);
}

#[test]
fn sync_starts_new_and_cancels_stale() {
    let mut active = SubscriptionSet::new();
    assert_eq!(active.len(), 0);

    let plan = active.sync(&vec!["clock", "keys"]);
    assert!(plan.cancel.is_empty());
    assert_eq!(plan.start, vec![0, 1]);
    assert_eq!(active.len(), 2);
    assert!(active.contains("clock"));
    assert!(active.contains("keys"));

    let plan = active.sync(&vec!["keys", "net"]);
    assert_eq!(plan.cancel, vec!["clock"]);
    assert_eq!(plan.start, vec![1]);
    assert!(!active.contains("clock"));
    assert!(active.contains("keys"));
    assert!(active.contains("net"));
    assert_eq!(active.len(), 2);
}

#[test]
fn sync_twice_does_nothing_the_second_time() {
    let mut active = SubscriptionSet::new();
    let desired = vec!["a", "b", "c"];
    let _ = active.sync(&desired);
    let plan = active.sync(&desired);
    assert!(plan.cancel.is_empty());
    assert!(plan.start.is_empty());
    assert_eq!(active.len(), 3);
}

#[test]
fn sync_starts_a_repeated_id_once() {
    let mut active = SubscriptionSet::new();
    let plan = active.sync(&vec!["x", "y", "x", "y", "z"]);
    assert_eq!(plan.start, vec![0, 1, 4]);
    assert_eq!(active.len(), 3);
}

#[test]
fn sync_with_nothing_desired_cancels_all() {
    let mut active = SubscriptionSet::new();
    let _ = active.sync(&vec!["p", "q"]);
    let plan = active.sync(&vec![]);
    assert_eq!(plan.cancel, vec!["p", "q"]);
    assert!(plan.start.is_empty());
    assert_eq!(active.len(), 0);
}

#[test]
fn clear_hands_out_every_running_id() {
    let mut active = SubscriptionSet::new();
    let _ = active.sync(&vec!["one", "two"]);
    let ids = active.clear();
    assert_eq!(ids, vec!["one", "two"]);
    assert_eq!(active.len(), 0);
}

#[test]
fn contains_compares_whole_ids() {
    let mut active = SubscriptionSet::new();
    let _ = active.sync(&vec!["tick", "tic", "ünï"]);
    assert!(active.contains("tick"));
    assert!(active.contains("tic"));
    assert!(active.contains("ünï"));
    assert!(!active.contains("ti"));
    assert!(!active.contains("ticks"));
    assert!(!active.contains("uni"));
    assert!(!active.contains(""));
}
