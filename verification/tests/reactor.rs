use multitask_server::event::{
    EpollEvent, EpollEvents, Event, EventKey, KeyCounter, RawEvent, ONESHOT_BIT, READABLE_BIT,
    WRITABLE_BIT,
};
use multitask_server::io_error::{ErrorKind, IoError};
use multitask_server::reactor::{ctl_result, CtlOp, EpollCtl, IoSource, Reactor, MAX_EVENT};

fn failure(kind: ErrorKind) -> IoError {
    IoError { kind, code: Some(9), message: "failure".to_string() }
}

fn ok() -> IoError {
    failure(ErrorKind::Other)
}

fn reactor_with(counter: &mut KeyCounter, fds: &[i32]) -> (Reactor<u32>, Vec<EventKey>) {
    let mut reactor = match Reactor::new(3, ok()) {
        Ok(reactor) => reactor,
        Err(_) => panic!("there is an epoll instance"),
    };
    let mut keys = Vec::new();
    for fd in fds {
        let (key, _) = reactor.add_source(counter, *fd);
        keys.push(reactor.finish_add_source(key, *fd, 0, ok()).unwrap());
    }
    (reactor, keys)
}

fn raw(key: EventKey, events: u32) -> RawEvent {
    RawEvent { events, data: key.0 }
}

#[test]
fn keys_count_up_from_one() {
    let mut counter = KeyCounter::new();
    for i in 1..=1000u64 {
        assert_eq!(EventKey::new(&mut counter), EventKey(i));
    }
}

#[test]
fn event_constructors() {
    let key = EventKey(5);
    assert_eq!(Event::none(key), Event { key, readable: false, writable: false });
    assert_eq!(Event::read(key), Event { key, readable: true, writable: false });
    assert_eq!(Event::write(key), Event { key, readable: false, writable: true });
    assert_eq!(Event::read_write(key), Event { key, readable: true, writable: true });
}

#[test]
fn masks_are_those_of_epoll() {
    assert_eq!(READABLE_BIT, libc::EPOLLIN as u32);
    assert_eq!(WRITABLE_BIT, libc::EPOLLOUT as u32);
    assert_eq!(ONESHOT_BIT, libc::EPOLLONESHOT as u32);
    let mut events = EpollEvents::new();
    assert_eq!(events, EpollEvents(0x4000_0000));
    assert!(!events.has_readable() && !events.has_writable());
    events.set_writable();
    assert_eq!(events, EpollEvents(0x4000_0004));
    assert!(!events.has_readable() && events.has_writable());
    events.set_readable();
    assert_eq!(events, EpollEvents(0x4000_0005));
    assert!(events.has_readable() && events.has_writable());
    assert!(!EpollEvents(!0x5).has_readable() && !EpollEvents(!0x5).has_writable());
}

#[test]
fn interests_survive_epoll() {
    for event in [
        Event::none(EventKey(1)),
        Event::read(EventKey(2)),
        Event::write(EventKey(u64::MAX)),
        Event::read_write(EventKey(0)),
    ] {
        let raw = RawEvent::from(EpollEvent::from(event));
        assert_eq!(raw.data, event.key.0);
        assert_eq!(Event::from(EpollEvent::from(raw)), event);
    }
}

#[test]
fn sources_are_drained_in_order() {
    let mut source = IoSource {
        fd: 4,
        key: EventKey(1),
        poll_reader: Some(10),
        poll_writer: Some(20),
        readers: vec![11, 12],
        writers: vec![21],
    };
    assert_eq!(source.waiting_for(), Event::read_write(EventKey(1)));
    let mut wakers = vec![1];
    source.drain_readers_into(&mut wakers);
    assert_eq!(wakers, vec![1, 10, 11, 12]);
    assert_eq!(source.waiting_for(), Event::write(EventKey(1)));
    source.drain_writers_into(&mut wakers);
    assert_eq!(wakers, vec![1, 10, 11, 12, 20, 21]);
    assert_eq!(source.waiting_for(), Event::none(EventKey(1)));
    source.add_reader(13);
    assert_eq!(source.waiting_for(), Event::read(EventKey(1)));
    source.poll_writer = Some(22);
    assert_eq!(source.waiting_for(), Event::read_write(EventKey(1)));
    source.readers.clear();
    source.poll_writer = None;
    source.add_writer(23);
    assert_eq!(source.waiting_for(), Event::write(EventKey(1)));
}

#[test]
fn reactor_needs_an_epoll_instance() {
    match Reactor::<u32>::new(-1, failure(ErrorKind::Other)) {
        Err(error) => assert_eq!(error.code, Some(9)),
        Ok(_) => panic!("there is none"),
    }
    match Reactor::<u32>::new(17, ok()) {
        Ok(reactor) => assert_eq!(reactor.epoll_fd(), 17),
        Err(_) => panic!("there is one"),
    }
}

#[test]
fn sources_are_added_without_interest() {
    let mut counter = KeyCounter::new();
    let (reactor, _) = reactor_with(&mut counter, &[]);
    let (key, request) = reactor.add_source(&mut counter, 8);
    assert_eq!(key, EventKey(1));
    assert_eq!(request, EpollCtl {
        epoll_fd: 3,
        op: CtlOp::Add,
        fd: 8,
        event: Some(RawEvent { events: 0x4000_0000, data: 1 }),
    });
}

#[test]
fn failed_addition_changes_nothing() {
    let mut counter = KeyCounter::new();
    let (mut reactor, _) = reactor_with(&mut counter, &[]);
    let (key, _) = reactor.add_source(&mut counter, 8);
    let result = reactor.finish_add_source(key, 8, -1, failure(ErrorKind::Other));
    assert_eq!(result.unwrap_err().message, "failure");
    assert_eq!(reactor.add_reader(key, 1), None);
    assert_eq!(reactor.deregister_source(&key), None);
    let (next, _) = reactor.add_source(&mut counter, 8);
    assert_eq!(next, EventKey(2));
}

#[test]
fn waiting_registers_all_interests() {
    let mut counter = KeyCounter::new();
    let (mut reactor, keys) = reactor_with(&mut counter, &[8]);
    assert!(!reactor.waiting_on_events());
    let request = reactor.add_reader(keys[0], 1).unwrap();
    assert_eq!(request, EpollCtl {
        epoll_fd: 3,
        op: CtlOp::Mod,
        fd: 8,
        event: Some(RawEvent { events: 0x4000_0001, data: 1 }),
    });
    assert!(reactor.waiting_on_events());
    let request = reactor.add_writer(keys[0], 2).unwrap();
    assert_eq!(request.event, Some(RawEvent { events: 0x4000_0005, data: 1 }));
    assert_eq!(request, reactor.register_interest(8, Event::read_write(keys[0])));
    assert_eq!(reactor.add_writer(EventKey(99), 3), None);
}

#[test]
fn events_wake_those_who_wait_for_them() {
    let mut counter = KeyCounter::new();
    let (mut reactor, keys) = reactor_with(&mut counter, &[8, 9]);
    reactor.add_reader(keys[0], 1).unwrap();
    reactor.add_reader(keys[0], 2).unwrap();
    reactor.add_writer(keys[0], 3).unwrap();
    reactor.add_writer(keys[1], 4).unwrap();
    let events = vec![raw(EventKey(77), 0x5), raw(keys[0], 0x1), raw(keys[1], 0x1), raw(keys[1], 0x5)];
    let reaction = match reactor.react(3, ok(), &events) {
        Ok(reaction) => reaction,
        Err(_) => panic!("there are events"),
    };
    assert_eq!(reaction.wakers, vec![1, 2]);
    assert_eq!(reaction.interests, vec![(8, Event::write(keys[0])), (9, Event::write(keys[1]))]);
    let reaction = match reactor.react(4, ok(), &events) {
        Ok(reaction) => reaction,
        Err(_) => panic!("there are events"),
    };
    assert_eq!(reaction.wakers, vec![4]);
    assert_eq!(reaction.interests, vec![(8, Event::write(keys[0])), (9, Event::write(keys[1]))]);
    let reaction = match reactor.react(1, ok(), &vec![raw(keys[0], 0x4)]) {
        Ok(reaction) => reaction,
        Err(_) => panic!("there are events"),
    };
    assert_eq!(reaction.wakers, vec![3]);
    assert_eq!(reaction.interests, vec![]);
    assert!(!reactor.waiting_on_events());
}

#[test]
fn readers_are_woken_before_writers() {
    let mut counter = KeyCounter::new();
    let (mut reactor, keys) = reactor_with(&mut counter, &[8]);
    reactor.add_writer(keys[0], 1).unwrap();
    reactor.add_reader(keys[0], 2).unwrap();
    let reaction = match reactor.react(1, ok(), &vec![raw(keys[0], 0x5)]) {
        Ok(reaction) => reaction,
        Err(_) => panic!("there are events"),
    };
    assert_eq!(reaction.wakers, vec![2, 1]);
}

#[test]
fn interrupted_wait_brings_nothing() {
    let mut counter = KeyCounter::new();
    let (mut reactor, keys) = reactor_with(&mut counter, &[8]);
    reactor.add_reader(keys[0], 1).unwrap();
    let events = vec![raw(keys[0], 0x1)];
    match reactor.react(-1, failure(ErrorKind::Interrupted), &events) {
        Ok(reaction) => {
            assert!(reaction.wakers.is_empty());
            assert!(reaction.interests.is_empty());
        }
        Err(_) => panic!("an interrupted wait is no failure"),
    }
    match reactor.react(-1, failure(ErrorKind::Other), &events) {
        Ok(_) => panic!("the wait has failed"),
        Err(error) => assert_eq!(error.code, Some(9)),
    }
    assert!(reactor.waiting_on_events());
}

#[test]
fn deregistered_sources_are_gone() {
    let mut counter = KeyCounter::new();
    let (mut reactor, keys) = reactor_with(&mut counter, &[8, 9]);
    reactor.add_reader(keys[0], 1).unwrap();
    assert_eq!(reactor.deregister_source(&keys[0]), Some(EpollCtl {
        epoll_fd: 3,
        op: CtlOp::Del,
        fd: 8,
        event: None,
    }));
    assert!(!reactor.waiting_on_events());
    assert_eq!(reactor.deregister_source(&keys[0]), None);
    assert!(reactor.add_reader(keys[1], 1).is_some());
}

#[test]
fn removal_undoes_addition() {
    let mut counter = KeyCounter::new();
    let (mut reactor, keys) = reactor_with(&mut counter, &[8, 9]);
    reactor.add_reader(keys[0], 1).unwrap();
    let (key, _) = reactor.add_source(&mut counter, 10);
    assert!(keys.iter().all(|other| *other != key));
    assert_eq!(reactor.finish_add_source(key, 10, 0, ok()).unwrap(), key);
    let first = reactor.deregister_source(&key);
    assert_eq!(first, Some(EpollCtl { epoll_fd: 3, op: CtlOp::Del, fd: 10, event: None }));
    assert!(ctl_result(first.map(|_| (0, ok()))).is_ok());
    let second = reactor.deregister_source(&key);
    assert_eq!(second, None);
    assert!(ctl_result(second.map(|_| (-1, ok()))).is_ok());
    assert!(reactor.waiting_on_events());
    assert_eq!(reactor.add_reader(keys[0], 2).unwrap().fd, 8);
    assert_eq!(reactor.add_reader(keys[1], 3).unwrap().fd, 9);
    assert_eq!(reactor.add_reader(key, 4), None);
}

#[test]
fn control_fails_with_minus_one() {
    assert!(ctl_result(None).is_ok());
    assert!(ctl_result(Some((0, ok()))).is_ok());
    let error = ctl_result(Some((-1, failure(ErrorKind::Other)))).unwrap_err();
    assert_eq!(error.code, Some(9));
}

#[test]
fn keys_stay_fresh_over_registries_and_failures() {
    let mut counter = KeyCounter::new();
    let (mut first, mut keys) = reactor_with(&mut counter, &[8, 9]);
    let (_, others) = reactor_with(&mut counter, &[8, 9]);
    keys.extend(others);
    let (failed, _) = first.add_source(&mut counter, 10);
    assert!(first.finish_add_source(failed, 10, -1, ok()).is_err());
    first.deregister_source(&keys[0]).unwrap();
    let (key, _) = first.add_source(&mut counter, 11);
    assert_eq!(key, EventKey(6));
    assert!(!keys.contains(&key) && failed != key);
}

#[test]
fn no_waker_is_lost() {
    let mut counter = KeyCounter::new();
    let (mut reactor, keys) = reactor_with(&mut counter, &[1, 2, 3, 4, 5]);
    let mut waiting: Vec<u32> = Vec::new();
    for i in 0..50u32 {
        let key = keys[i as usize % 5];
        if i % 3 == 0 {
            reactor.add_reader(key, i).unwrap();
        } else {
            reactor.add_writer(key, i).unwrap();
        }
        waiting.push(i);
    }
    let mut woken: Vec<u32> = Vec::new();
    for events in [0x1, 0x4] {
        let list: Vec<RawEvent> = keys.iter().map(|key| raw(*key, events)).collect();
        match reactor.react(5, ok(), &list) {
            Ok(reaction) => woken.extend(reaction.wakers),
            Err(_) => panic!("there are events"),
        }
    }
    woken.sort();
    assert_eq!(woken, waiting);
    assert_eq!(MAX_EVENT, 1024);
}
