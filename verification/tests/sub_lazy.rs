//! The factory of a lazy subscription runs exactly once per spawn, never on drop.

use std::sync::atomic::{AtomicUsize, Ordering};
use std::sync::Arc;

use futures::stream;
use futures::StreamExt;
use osteak::{Action, Cmd, Sub, Tea};
use ratatui::Frame;

struct App<F>
where
    F: Fn() -> Vec<Sub<Msg>> + Send + Sync + 'static,
{
    make_subs: F,
}

enum Msg {
    #[allow(dead_code)]
    Noop,
}

impl<F> Tea for App<F>
where
    F: Fn() -> Vec<Sub<Msg>> + Send + Sync + 'static,
{
    type Msg = Msg;
    fn update(&mut self, _msg: Msg) -> Cmd<Msg> {
        Cmd::quit()
    }
    fn view(&mut self, _frame: &mut Frame) {}
    fn init(&mut self) -> Action<Msg> {
        Action::Nothing
    }
    fn subscriptions(&self) -> Vec<Sub<Msg>> {
        (self.make_subs)()
    }
}

#[test]
fn test_lazy_factory_invoked_exactly_once_per_spawn() {
    let counter = Arc::new(AtomicUsize::new(0));

    let n = 1000;
    let mut first = None;
    for _ in 0..n {
        let c = Arc::clone(&counter);
        let sub = Sub::lazy("my-id", move || {
            c.fetch_add(1, Ordering::SeqCst);
            stream::iter(Vec::<Msg>::new())
        });
        if first.is_none() {
            first = Some(sub);
        }
    }

    let _stream = first.unwrap().into_stream();

    assert_eq!(
        counter.load(Ordering::SeqCst),
        1,
        "factory should have run exactly once (for the one we spawned)"
    );
}

#[test]
fn test_lazy_factory_not_invoked_on_drop() {
    let sub = Sub::lazy("panicky", || -> stream::Empty<Msg> {
        panic!("factory should never run on drop");
    });
    drop(sub);
}

#[test]
fn test_eager_sub_semantics_preserved() {
    #[derive(Debug, PartialEq, Eq)]
    enum M {
        A,
        B,
        C,
    }
    let sub = Sub::new("eager", stream::iter(vec![M::A, M::B, M::C]));
    assert_eq!(sub.id, "eager");

    let mut stream = sub.into_stream().stream;
    let out = futures::executor::block_on(async {
        let mut out = Vec::new();
        while let Some(m) = stream.next().await {
            out.push(m);
        }
        out
    });
    assert_eq!(out, vec![M::A, M::B, M::C]);
}

#[test]
fn test_eager_factory_runs_per_construction_not_per_spawn() {
    let counter = Arc::new(AtomicUsize::new(0));

    for _ in 0..5 {
        let c = Arc::clone(&counter);
        c.fetch_add(1, Ordering::SeqCst);
        let _sub = Sub::new("eager-counted", stream::iter(Vec::<Msg>::new()));
    }

    assert_eq!(
        counter.load(Ordering::SeqCst),
        5,
        "Sub::new ran the 'construction' code on every build (this is WHY Sub::lazy exists)"
    );
}

#[test]
fn lazy_stream_yields_the_factory_items() {
    let sub = Sub::lazy("lazy-items", || stream::iter(vec![1, 2, 3]));
    assert_eq!(sub.id, "lazy-items");
    let stream = sub.into_stream().stream;
    let out: Vec<i32> = futures::executor::block_on(stream.collect());
    assert_eq!(out, vec![1, 2, 3]);
}

#[test]
fn subscriptions_come_from_the_model() {
    let app = App {
        make_subs: || vec![Sub::new("a", stream::iter(Vec::<Msg>::new())), Sub::lazy("b", || stream::iter(Vec::<Msg>::new()))],
    };
    let subs = app.subscriptions();
    let ids: Vec<&str> = subs.iter().map(|s| s.id).collect();
    assert_eq!(ids, vec!["a", "b"]);
}

#[test]
fn sub_debug_formatting() {
    let eager: Sub<i32> = Sub::new("clock", stream::iter(Vec::<i32>::new()));
    assert_eq!(eager.debug_string(), "Sub { id: \"clock\", kind: \"Eager\", .. }");
    let lazy: Sub<i32> = Sub::lazy("with \"quotes\"", || stream::iter(Vec::<i32>::new()));
    assert_eq!(lazy.debug_string(), "Sub { id: \"with \\\"quotes\\\"\", kind: \"Lazy\", .. }");
}
