use multitask_server::event::{EventKey, KeyCounter, RawEvent};
use multitask_server::executor::{Executor, MyWaker, RunAction, RunEvent, Task, TaskQueue};
use multitask_server::io_error::{ErrorKind, IoError};
use multitask_server::reactor::Reactor;
use std::rc::Rc;

fn failure(kind: ErrorKind) -> IoError {
    IoError { kind, code: Some(4), message: "failure".to_string() }
}

fn executor() -> Executor<&'static str, MyWaker<&'static str>> {
    match Reactor::new(3, failure(ErrorKind::Other)) {
        Ok(reactor) => Executor::new(&mut KeyCounter::new(), reactor),
        Err(_) => panic!("there is an epoll instance"),
    }
}

fn task(id: usize) -> Rc<Task<&'static str>> {
    Rc::new(Task { id, future: "future" })
}

fn polled<F>(action: RunAction<F>) -> Rc<Task<F>> {
    match action {
        RunAction::Poll(task) => task,
        _ => panic!("a task is polled"),
    }
}

fn source(executor: &mut Executor<&'static str, MyWaker<&'static str>>) -> EventKey {
    let mut counter = KeyCounter::new();
    let (key, _) = executor.reactor.add_source(&mut counter, 8);
    executor.reactor.finish_add_source(key, 8, 0, failure(ErrorKind::Other)).unwrap()
}

#[test]
fn tasks_are_received_in_order_and_taken_from_the_end() {
    let mut queue = TaskQueue::new(&mut KeyCounter::new());
    let sender = queue.sender();
    for id in 0..3 {
        assert!(sender.send(&mut queue, task(id)).is_ok());
    }
    assert!(queue.is_empty());
    assert_eq!(queue.len(), 0);
    assert!(queue.pop().is_none());
    queue.receive();
    assert!(!queue.is_empty());
    assert_eq!(queue.len(), 3);
    let ids: Vec<usize> = queue.tasks.iter().map(|task| task.id).collect();
    assert_eq!(ids, vec![0, 1, 2]);
    assert_eq!(queue.pop().unwrap().id, 2);
    assert!(sender.send(&mut queue, task(7)).is_ok());
    queue.receive();
    assert_eq!(queue.pop().unwrap().id, 7);
    assert_eq!(queue.pop().unwrap().id, 1);
    assert_eq!(queue.pop().unwrap().id, 0);
    assert!(queue.pop().is_none());
}

#[test]
fn senders_serve_their_own_queue() {
    let mut channels = KeyCounter::new();
    let mut first = TaskQueue::<&'static str>::new(&mut channels);
    let mut second = TaskQueue::new(&mut channels);
    let mut third = TaskQueue::new(&mut channels);
    for other in [&mut second, &mut third] {
        match first.sender().send(other, task(5)) {
            Ok(()) => panic!("the channel is another one"),
            Err(task) => assert_eq!(task.id, 5),
        }
        match other.sender().send(&mut first, task(6)) {
            Ok(()) => panic!("the channel is another one"),
            Err(task) => assert_eq!(task.id, 6),
        }
        other.receive();
        assert!(other.is_empty());
    }
    first.receive();
    assert!(first.is_empty());
    let waker = MyWaker::new(task(7), first.sender());
    assert!(waker.belongs_to(&first));
    assert!(!waker.belongs_to(&second));
}

#[test]
fn wakers_put_their_task_back() {
    let mut queue = TaskQueue::new(&mut KeyCounter::new());
    let waker = MyWaker::new(task(5), queue.sender());
    waker.wake_by_ref(&mut queue);
    let other = waker.clone();
    waker.wake(&mut queue);
    other.wake(&mut queue);
    queue.receive();
    assert_eq!(queue.len(), 3);
    assert!(queue.tasks.iter().all(|task| task.id == 5));
}

#[test]
fn lone_task_runs_and_the_loop_ends() {
    let mut executor = executor();
    let first = polled(executor.block_on("main"));
    assert_eq!(first.id, 0);
    assert_eq!(first.future, "main");
    assert!(matches!(executor.run(RunEvent::Polled), RunAction::Stop));
    let second = polled(executor.block_on("again"));
    assert_eq!(second.id, 1);
}

#[test]
fn spawned_tasks_have_numbers_of_their_own() {
    let mut executor = executor();
    for id in 0..10 {
        assert_eq!(executor.spawn("task"), id);
    }
    let mut seen = vec![polled(executor.run(RunEvent::Begin)).id];
    while let RunAction::Poll(task) = executor.run(RunEvent::Polled) {
        seen.push(task.id);
    }
    assert_eq!(seen, vec![9, 8, 7, 6, 5, 4, 3, 2, 1, 0]);
}

#[test]
fn tasks_woken_in_a_round_wait_for_the_next() {
    let mut executor = executor();
    executor.spawn("a");
    executor.spawn("b");
    let b = polled(executor.run(RunEvent::Begin));
    assert_eq!(b.id, 1);
    let waker = MyWaker::new(b, executor.task_queue.sender());
    waker.wake(&mut executor.task_queue);
    assert_eq!(polled(executor.run(RunEvent::Polled)).id, 0);
    assert_eq!(polled(executor.run(RunEvent::Polled)).id, 1);
    assert!(matches!(executor.run(RunEvent::Polled), RunAction::Stop));
}

#[test]
fn loop_waits_while_a_task_waits_for_io() {
    let mut executor = executor();
    let key = source(&mut executor);
    let main = polled(executor.block_on("main"));
    let waker = MyWaker::new(main, executor.task_queue.sender());
    executor.reactor.add_reader(key, waker).unwrap();
    assert!(matches!(executor.run(RunEvent::Polled), RunAction::React));
    let nothing = RunEvent::Reacted(Ok(()));
    assert!(matches!(executor.run(nothing), RunAction::React));
    let woken = match executor.reactor.react(
        1,
        failure(ErrorKind::Other),
        &vec![RawEvent { events: 0x1, data: key.0 }],
    ) {
        Ok(reaction) => reaction.wakers,
        Err(_) => panic!("there is an event"),
    };
    assert_eq!(woken.len(), 1);
    for waker in woken {
        waker.wake(&mut executor.task_queue);
    }
    assert_eq!(polled(executor.run(RunEvent::Reacted(Ok(())))).id, 0);
    assert!(matches!(executor.run(RunEvent::Polled), RunAction::Stop));
}

#[test]
fn ready_task_runs_after_the_wait() {
    let mut executor = executor();
    let key = source(&mut executor);
    let main = polled(executor.block_on("main"));
    let waker = MyWaker::new(main, executor.task_queue.sender());
    waker.wake_by_ref(&mut executor.task_queue);
    executor.reactor.add_reader(key, waker).unwrap();
    assert!(matches!(executor.run(RunEvent::Polled), RunAction::React));
    assert_eq!(executor.task_queue.len(), 1);
    assert_eq!(polled(executor.run(RunEvent::Reacted(Ok(())))).id, 0);
}

#[test]
fn interrupted_wait_ends_the_loop() {
    let mut executor = executor();
    executor.spawn("task");
    let interrupted = RunEvent::Reacted(Err(failure(ErrorKind::Interrupted)));
    assert!(matches!(executor.run(interrupted), RunAction::Stop));
    let failed = RunEvent::Reacted(Err(failure(ErrorKind::Other)));
    assert_eq!(polled(executor.run(failed)).id, 0);
}
