//! An `epoll`-based registry of the tasks that wait for I/O.
//!
//! A source is a file descriptor together with the wakers of the tasks that
//! wait for it to become readable or writable. The registry decides what to ask
//! of `epoll` and, once events have come in, whom to wake. `W` is whatever wakes
//! a task; the registry only moves it around.
use crate::event::{
    interest_event, key_after, parsed_event, raw_event, reported_event, EpollEvent, Event, EventKey,
    KeyCounter, RawEvent,
};
use crate::io_error::{syscall_result, ErrorKind, IoError};
use std::collections::HashMap;
use vstd::multiset::Multiset;
use vstd::prelude::*;
use vstd::std_specs::iter::IteratorSpec;

verus! {

////////////////////////////////////////////////////////////////////////////////
// Sources
////////////////////////////////////////////////////////////////////////////////

/// A file descriptor and the wakers of the tasks that wait for it.
pub struct IoSource<W> {
    pub fd: i32,
    pub key: EventKey,
    /// Wakers of the tasks that poll the readability or writability of the source.
    pub poll_reader: Option<W>,
    pub poll_writer: Option<W>,
    /// Wakers of the tasks that wait for the source to be readable or writable.
    pub readers: Vec<W>,
    pub writers: Vec<W>,
}

/// The contents of an [`IoSource`].
#[verifier::ext_equal]
pub struct SourceView<W> {
    pub fd: i32,
    pub key: EventKey,
    pub poll_reader: Option<W>,
    pub poll_writer: Option<W>,
    pub readers: Seq<W>,
    pub writers: Seq<W>,
}

/// The sequence of the one waker that may be there.
pub open spec fn optional<W>(waker: Option<W>) -> Seq<W> {
    match waker {
        Some(waker) => seq![waker],
        None => Seq::empty(),
    }
}

impl<W> SourceView<W> {
    /// A source that nobody waits for.
    pub open spec fn idle(fd: i32, key: EventKey) -> SourceView<W> {
        SourceView {
            fd,
            key,
            poll_reader: None,
            poll_writer: None,
            readers: Seq::empty(),
            writers: Seq::empty(),
        }
    }

    /// All that wait for the source to be readable, in the order of waking.
    pub open spec fn waiting_readers(self) -> Seq<W> {
        optional(self.poll_reader) + self.readers
    }

    /// All that wait for the source to be writable, in the order of waking.
    pub open spec fn waiting_writers(self) -> Seq<W> {
        optional(self.poll_writer) + self.writers
    }

    pub open spec fn without_readers(self) -> SourceView<W> {
        SourceView { poll_reader: None, readers: Seq::empty(), ..self }
    }

    pub open spec fn without_writers(self) -> SourceView<W> {
        SourceView { poll_writer: None, writers: Seq::empty(), ..self }
    }

    /// What somebody waits for.
    pub open spec fn waiting_for(self) -> Event {
        Event {
            key: self.key,
            readable: self.waiting_readers().len() > 0,
            writable: self.waiting_writers().len() > 0,
        }
    }

    /// Whether somebody waits for anything.
    pub open spec fn is_awaited(self) -> bool {
        self.waiting_readers().len() > 0 || self.waiting_writers().len() > 0
    }
}

impl<W> View for IoSource<W> {
    type V = SourceView<W>;

    open spec fn view(&self) -> SourceView<W> {
        SourceView {
            fd: self.fd,
            key: self.key,
            poll_reader: self.poll_reader,
            poll_writer: self.poll_writer,
            readers: self.readers@,
            writers: self.writers@,
        }
    }
}

impl<W> IoSource<W> {
    /// Moves all that wait for the source to be writable to the end of `wakers`.
    pub fn drain_writers_into(&mut self, wakers: &mut Vec<W>)
        ensures
            final(wakers)@ == old(wakers)@ + old(self)@.waiting_writers(),
            final(self)@ == old(self)@.without_writers(),
    {
        if let Some(waker) = self.poll_writer.take() {
            wakers.push(waker);
        }
        wakers.append(&mut self.writers);
        assert(wakers@ =~= old(wakers)@ + old(self)@.waiting_writers());
    }

    /// Moves all that wait for the source to be readable to the end of `wakers`.
    pub fn drain_readers_into(&mut self, wakers: &mut Vec<W>)
        ensures
            final(wakers)@ == old(wakers)@ + old(self)@.waiting_readers(),
            final(self)@ == old(self)@.without_readers(),
    {
        if let Some(waker) = self.poll_reader.take() {
            wakers.push(waker);
        }
        wakers.append(&mut self.readers);
        assert(wakers@ =~= old(wakers)@ + old(self)@.waiting_readers());
    }

    /// Adds a task to those that wait for the source to be readable.
    pub fn add_reader(&mut self, waker: W)
        ensures
            final(self)@ == (SourceView { readers: old(self)@.readers.push(waker), ..old(self)@ }),
    {
        self.readers.push(waker);
    }

    /// Adds a task to those that wait for the source to be writable.
    pub fn add_writer(&mut self, waker: W)
        ensures
            final(self)@ == (SourceView { writers: old(self)@.writers.push(waker), ..old(self)@ }),
    {
        self.writers.push(waker);
    }

    /// What somebody waits for on this source.
    pub fn waiting_for(&self) -> (event: Event)
        ensures
            event == self@.waiting_for(),
    {
        let mut event = Event::none(self.key);
        if self.poll_reader.is_some() || !self.readers.is_empty() {
            event.readable = true;
        }
        if self.poll_writer.is_some() || !self.writers.is_empty() {
            event.writable = true;
        }
        event
    }
}

////////////////////////////////////////////////////////////////////////////////
// The registry
////////////////////////////////////////////////////////////////////////////////

/// How many events are taken from `epoll` at a time.
pub const MAX_EVENT: u32 = 1024;

/// The operations of `epoll_ctl`.
#[derive(Clone, Copy, Debug, PartialEq, Eq, Structural)]
pub enum CtlOp {
    Add,
    Mod,
    Del,
}

/// A call of `epoll_ctl` that is to be made.
#[derive(Clone, Copy, Debug, PartialEq, Eq, Structural)]
pub struct EpollCtl {
    pub epoll_fd: i32,
    pub op: CtlOp,
    pub fd: i32,
    pub event: Option<RawEvent>,
}

/// What is to be done after events have come in: interests to register anew, by
/// descriptor, and then tasks to wake.
pub struct Reaction<W> {
    pub interests: Vec<(i32, Event)>,
    pub wakers: Vec<W>,
}

/// The registry of all sources of one `epoll` instance.
pub struct Reactor<W> {
    epoll_fd: i32,
    sources: HashMap<u64, IoSource<W>>,
}

impl<W> View for Reactor<W> {
    type V = Map<u64, SourceView<W>>;

    closed spec fn view(&self) -> Map<u64, SourceView<W>> {
        self.sources@.map_values(|source: IoSource<W>| source@)
    }
}

/// The call that sets what `epoll` waits for on a registered descriptor.
pub open spec fn interest_ctl(epoll_fd: i32, fd: i32, interest: Event) -> EpollCtl {
    EpollCtl { epoll_fd, op: CtlOp::Mod, fd, event: Some(raw_event(interest_event(interest))) }
}

/// The call that removes a descriptor from `epoll`, if a source with that key is
/// registered.
pub open spec fn removal_ctl<W>(
    epoll_fd: i32,
    sources: Map<u64, SourceView<W>>,
    key: EventKey,
) -> Option<EpollCtl> {
    if sources.contains_key(key.0) {
        Some(EpollCtl { epoll_fd, op: CtlOp::Del, fd: sources[key.0].fd, event: None })
    } else {
        None
    }
}

/// What comes of a call of `epoll_ctl`, given its return value and the last
/// failure of a system call. Where there was nothing to call, all is well.
pub open spec fn ctl_outcome(call: Option<(i32, IoError)>) -> Result<(), IoError> {
    match call {
        Some((ret, last_error)) => if ret == -1 {
            Err(last_error)
        } else {
            Ok(())
        },
        None => Ok(()),
    }
}

/// What comes of a call of `epoll_ctl`, or of none.
pub fn ctl_result(call: Option<(i32, IoError)>) -> (result: Result<(), IoError>)
    ensures
        result == ctl_outcome(call),
{
    if let Some((ret, last_error)) = call {
        syscall_result(ret, last_error)?;
    }
    Ok(())
}

/// Whether every source is registered under its own key.
pub open spec fn keys_match<W>(sources: Map<u64, SourceView<W>>) -> bool {
    forall|key: u64| #[trigger] sources.contains_key(key) ==> sources[key].key == EventKey(key)
}

/// Whether some task waits for some source.
pub open spec fn any_awaited<W>(sources: Map<u64, SourceView<W>>) -> bool {
    exists|key: u64| #[trigger] sources.contains_key(key) && sources[key].is_awaited()
}

/// A source after `event` has come in for it.
pub open spec fn source_after<W>(source: SourceView<W>, event: Event) -> SourceView<W> {
    let source = if event.readable {
        source.without_readers()
    } else {
        source
    };
    if event.writable {
        source.without_writers()
    } else {
        source
    }
}

/// Whom `event` wakes on its source, in the order of waking.
pub open spec fn woken_by<W>(source: SourceView<W>, event: Event) -> Seq<W> {
    let readers = if event.readable {
        source.waiting_readers()
    } else {
        Seq::empty()
    };
    let writers = if event.writable {
        source.waiting_writers()
    } else {
        Seq::empty()
    };
    readers + writers
}

/// The registry after some events, with all that is then to be done.
#[verifier::ext_equal]
pub struct Dispatch<W> {
    pub sources: Map<u64, SourceView<W>>,
    pub interests: Seq<(i32, Event)>,
    pub wakers: Seq<W>,
}

impl<W> Dispatch<W> {
    /// No event has come in.
    pub open spec fn start(sources: Map<u64, SourceView<W>>) -> Dispatch<W> {
        Dispatch { sources, interests: Seq::empty(), wakers: Seq::empty() }
    }

    /// One more event comes in. Where somebody still waits for its source, what
    /// they wait for is registered anew, for an event disarms its descriptor.
    pub open spec fn after(self, event: Event) -> Dispatch<W> {
        if self.sources.contains_key(event.key.0) {
            let before = self.sources[event.key.0];
            let after = source_after(before, event);
            Dispatch {
                sources: self.sources.insert(event.key.0, after),
                interests: if after.is_awaited() {
                    self.interests.push((after.fd, after.waiting_for()))
                } else {
                    self.interests
                },
                wakers: self.wakers + woken_by(before, event),
            }
        } else {
            self
        }
    }
}

/// The registry after `events`, one after the other.
pub open spec fn dispatch<W>(sources: Map<u64, SourceView<W>>, events: Seq<Event>) -> Dispatch<W>
    decreases events.len(),
{
    if events.len() == 0 {
        Dispatch::start(sources)
    } else {
        dispatch(sources, events.drop_last()).after(events.last())
    }
}

/// The events that raw events report.
pub open spec fn reported_events(raw: Seq<RawEvent>) -> Seq<Event> {
    raw.map_values(|event: RawEvent| reported_event(parsed_event(event)))
}

impl<W> Reactor<W> {
    /// The descriptor of the `epoll` instance.
    pub closed spec fn spec_epoll_fd(&self) -> i32 {
        self.epoll_fd
    }

    /// The descriptor of the `epoll` instance.
    pub fn epoll_fd(&self) -> (fd: i32)
        ensures
            fd == self.spec_epoll_fd(),
    {
        self.epoll_fd
    }

    /// An empty registry, from the return value of `epoll_create1` and the last
    /// failure of a system call.
    pub fn new(ret: i32, last_error: IoError) -> (result: Result<Reactor<W>, IoError>)
        ensures
            ret == -1 ==> result == Err::<Reactor<W>, IoError>(last_error),
            ret != -1 ==> {
                &&& result is Ok
                &&& result->Ok_0.spec_epoll_fd() == ret
                &&& result->Ok_0@ == Map::<u64, SourceView<W>>::empty()
            },
    {
        broadcast use vstd::std_specs::hash::group_hash_axioms;

        match syscall_result(ret, last_error) {
            Err(error) => Err(error),
            Ok(epoll_fd) => {
                let reactor = Reactor { epoll_fd, sources: HashMap::new() };
                assert(reactor@ =~= Map::<u64, SourceView<W>>::empty());
                Ok(reactor)
            },
        }
    }

    /// Starts to register a descriptor: draws a key for it, and gives the call of
    /// `epoll_ctl` that adds it, for now waiting for nothing.
    pub fn add_source(&self, counter: &mut KeyCounter, fd: i32) -> (request: (EventKey, EpollCtl))
        ensures
            request.0 == EventKey(old(counter).next_key()),
            final(counter).next_key() == key_after(old(counter).next_key()),
            request.1 == (EpollCtl {
                epoll_fd: self.spec_epoll_fd(),
                op: CtlOp::Add,
                fd,
                event: Some(
                    raw_event(
                        interest_event(
                            Event { key: request.0, readable: false, writable: false },
                        ),
                    ),
                ),
            }),
    {
        let key = EventKey::new(counter);
        let epoll_event = EpollEvent::from(Event::none(key));
        let event = RawEvent::from(epoll_event);
        (key, EpollCtl { epoll_fd: self.epoll_fd, op: CtlOp::Add, fd, event: Some(event) })
    }

    /// Finishes to register a descriptor, from the return value of `epoll_ctl`
    /// and the last failure of a system call.
    pub fn finish_add_source(
        &mut self,
        key: EventKey,
        fd: i32,
        ret: i32,
        last_error: IoError,
    ) -> (result: Result<EventKey, IoError>)
        ensures
            final(self).spec_epoll_fd() == old(self).spec_epoll_fd(),
            ret == -1 ==> {
                &&& result == Err::<EventKey, IoError>(last_error)
                &&& final(self)@ == old(self)@
            },
            ret != -1 ==> {
                &&& result == Ok::<EventKey, IoError>(key)
                &&& final(self)@ == old(self)@.insert(key.0, SourceView::idle(fd, key))
            },
    {
        broadcast use vstd::std_specs::hash::group_hash_axioms;

        match syscall_result(ret, last_error) {
            Err(error) => Err(error),
            Ok(_) => {
                let source = IoSource {
                    fd,
                    key,
                    poll_reader: None,
                    poll_writer: None,
                    readers: Vec::new(),
                    writers: Vec::new(),
                };
                assert(source@ =~= SourceView::idle(fd, key));
                self.sources.insert(key.0, source);
                assert(self@ =~= old(self)@.insert(key.0, SourceView::idle(fd, key)));
                Ok(key)
            },
        }
    }

    /// Handles what `epoll_wait` has brought: its return value, the last failure
    /// of a system call, and the buffer that it filled. An interrupted wait
    /// brought nothing, and is no failure.
    pub fn react(&mut self, ret: i32, last_error: IoError, events: &Vec<RawEvent>) -> (result: Result<
        Reaction<W>,
        IoError,
    >)
        requires
            ret == -1 || 0 <= ret <= events@.len(),
        ensures
            final(self).spec_epoll_fd() == old(self).spec_epoll_fd(),
            ret == -1 ==> final(self)@ == old(self)@,
            ret == -1 && last_error.kind == ErrorKind::Interrupted ==> {
                &&& result is Ok
                &&& result->Ok_0.interests@ == Seq::<(i32, Event)>::empty()
                &&& result->Ok_0.wakers@ == Seq::<W>::empty()
            },
            ret == -1 && last_error.kind != ErrorKind::Interrupted ==> result == Err::<
                Reaction<W>,
                IoError,
            >(last_error),
            ret != -1 ==> {
                &&& result is Ok
                &&& dispatch(old(self)@, reported_events(events@.take(ret as int))) == (Dispatch {
                    sources: final(self)@,
                    interests: result->Ok_0.interests@,
                    wakers: result->Ok_0.wakers@,
                })
            },
    {
        broadcast use vstd::std_specs::hash::group_hash_axioms;

        let mut interests: Vec<(i32, Event)> = Vec::new();
        let mut wakers: Vec<W> = Vec::new();
        match syscall_result(ret, last_error) {
            Err(error) => {
                if error.kind == ErrorKind::Interrupted {
                    Ok(Reaction { interests, wakers })
                } else {
                    Err(error)
                }
            },
            Ok(count) => {
                let count: usize = count as usize;
                let ghost reported = reported_events(events@.take(ret as int));
                let mut i: usize = 0;
                assert(reported.take(0) =~= Seq::<Event>::empty());
                while i < count
                    invariant
                        i <= count <= events@.len(),
                        count == ret,
                        reported == reported_events(events@.take(ret as int)),
                        self.epoll_fd == old(self).epoll_fd,
                        dispatch(old(self)@, reported.take(i as int)) == (Dispatch {
                            sources: self@,
                            interests: interests@,
                            wakers: wakers@,
                        }),
                    decreases count - i,
                {
                    broadcast use vstd::std_specs::hash::group_hash_axioms;

                    let ghost before = *self;
                    let ghost before_wakers = wakers@;
                    let epoll_event = EpollEvent::from(events[i]);
                    let event = Event::from(epoll_event);
                    assert(event == reported[i as int]);
                    assert(reported.take(i + 1).drop_last() =~= reported.take(i as int));
                    assert(reported.take(i + 1).last() == event);

                    if let Some(mut source) = self.sources.remove(&event.key.0) {
                        let ghost entry = source@;
                        assert(before@.contains_key(event.key.0));
                        assert(before@[event.key.0] == entry);
                        if event.readable {
                            source.drain_readers_into(&mut wakers);
                        }
                        if event.writable {
                            source.drain_writers_into(&mut wakers);
                        }
                        assert(wakers@ =~= before_wakers + woken_by(entry, event));
                        assert(source@ == source_after(entry, event));
                        let interest = source.waiting_for();
                        if interest.readable || interest.writable {
                            interests.push((source.fd, interest));
                        }
                        self.sources.insert(event.key.0, source);
                        assert(self@ =~= before@.insert(event.key.0, source_after(entry, event)));
                    } else {
                        assert(!before@.contains_key(event.key.0));
                        assert(self@ =~= before@);
                    }
                    i = i + 1;
                }
                assert(reported.take(count as int) =~= reported);
                Ok(Reaction { interests, wakers })
            },
        }
    }

    /// The call of `epoll_ctl` that makes `epoll` wait once for `interest`.
    pub fn register_interest(&self, fd: i32, interest: Event) -> (request: EpollCtl)
        ensures
            request == interest_ctl(self.spec_epoll_fd(), fd, interest),
    {
        let epoll_event = EpollEvent::from(interest);
        let event = RawEvent::from(epoll_event);
        EpollCtl { epoll_fd: self.epoll_fd, op: CtlOp::Mod, fd, event: Some(event) }
    }

    /// Makes a task wait for a source to be readable, and gives the call of
    /// `epoll_ctl` that makes `epoll` wait for all that the source is awaited for.
    /// There is none where no source has that key.
    pub fn add_reader(&mut self, key: EventKey, waker: W) -> (request: Option<EpollCtl>)
        ensures
            final(self).spec_epoll_fd() == old(self).spec_epoll_fd(),
            !old(self)@.contains_key(key.0) ==> request is None && final(self)@ == old(self)@,
            old(self)@.contains_key(key.0) ==> {
                let before = old(self)@[key.0];
                let after = SourceView { readers: before.readers.push(waker), ..before };
                &&& final(self)@ == old(self)@.insert(key.0, after)
                &&& request == Some(
                    interest_ctl(final(self).spec_epoll_fd(), after.fd, after.waiting_for()),
                )
            },
    {
        broadcast use vstd::std_specs::hash::group_hash_axioms;

        if let Some(mut source) = self.sources.remove(&key.0) {
            let ghost before = source@;
            assert(old(self)@.contains_key(key.0) && old(self)@[key.0] == before);
            source.add_reader(waker);
            let request = self.register_interest(source.fd, source.waiting_for());
            self.sources.insert(key.0, source);
            assert(self@ =~= old(self)@.insert(
                key.0,
                SourceView { readers: before.readers.push(waker), ..before },
            ));
            Some(request)
        } else {
            assert(!old(self)@.contains_key(key.0));
            assert(self@ =~= old(self)@);
            None
        }
    }

    /// Makes a task wait for a source to be writable, and gives the call of
    /// `epoll_ctl` that makes `epoll` wait for all that the source is awaited for.
    /// There is none where no source has that key.
    pub fn add_writer(&mut self, key: EventKey, waker: W) -> (request: Option<EpollCtl>)
        ensures
            final(self).spec_epoll_fd() == old(self).spec_epoll_fd(),
            !old(self)@.contains_key(key.0) ==> request is None && final(self)@ == old(self)@,
            old(self)@.contains_key(key.0) ==> {
                let before = old(self)@[key.0];
                let after = SourceView { writers: before.writers.push(waker), ..before };
                &&& final(self)@ == old(self)@.insert(key.0, after)
                &&& request == Some(
                    interest_ctl(final(self).spec_epoll_fd(), after.fd, after.waiting_for()),
                )
            },
    {
        broadcast use vstd::std_specs::hash::group_hash_axioms;

        if let Some(mut source) = self.sources.remove(&key.0) {
            let ghost before = source@;
            assert(old(self)@.contains_key(key.0) && old(self)@[key.0] == before);
            source.add_writer(waker);
            let request = self.register_interest(source.fd, source.waiting_for());
            self.sources.insert(key.0, source);
            assert(self@ =~= old(self)@.insert(
                key.0,
                SourceView { writers: before.writers.push(waker), ..before },
            ));
            Some(request)
        } else {
            assert(!old(self)@.contains_key(key.0));
            assert(self@ =~= old(self)@);
            None
        }
    }

    /// Forgets a source, and gives the call of `epoll_ctl` that removes its
    /// descriptor. There is nothing to call where no source has that key.
    pub fn deregister_source(&mut self, key: &EventKey) -> (request: Option<EpollCtl>)
        ensures
            final(self).spec_epoll_fd() == old(self).spec_epoll_fd(),
            final(self)@ == old(self)@.remove(key.0),
            request == removal_ctl(old(self).spec_epoll_fd(), old(self)@, *key),
    {
        broadcast use vstd::std_specs::hash::group_hash_axioms;

        if let Some(source) = self.sources.remove(&key.0) {
            assert(old(self)@.contains_key(key.0) && old(self)@[key.0] == source@);
            assert(self@ =~= old(self)@.remove(key.0));
            Some(EpollCtl { epoll_fd: self.epoll_fd, op: CtlOp::Del, fd: source.fd, event: None })
        } else {
            assert(!old(self)@.contains_key(key.0));
            assert(self@ =~= old(self)@.remove(key.0));
            None
        }
    }

    /// Whether some task waits for some source.
    pub fn waiting_on_events(&self) -> (waiting: bool)
        ensures
            waiting == any_awaited(self@),
    {
        broadcast use vstd::std_specs::hash::group_hash_axioms;

        let values = self.sources.values();
        let ghost all = values.remaining();
        for source in it: values
            invariant
                it.seq() == all,
                all.unref().to_set() == self.sources@.values(),
                forall|i: int| 0 <= i < it.index() ==> !(#[trigger] all[i])@.is_awaited(),
        {
            let event = source.waiting_for();
            if event.readable || event.writable {
                proof {
                    assert(all.unref()[it.index()] == *source);
                    assert(all.unref().to_set().contains(*source));
                    let key = choose|key: u64| #[trigger]
                        self.sources@.contains_key(key) && self.sources@[key] == *source;
                    assert(self@.contains_key(key) && self@[key].is_awaited());
                }
                return true;
            }
        }
        proof {
            assert forall|key: u64| #[trigger] self@.contains_key(key) implies !self@[key].is_awaited() by {
                let source = self.sources@[key];
                assert(self.sources@.values().contains(source));
                let i = choose|i: int| 0 <= i < all.unref().len() && all.unref()[i] == source;
                assert(!all[i]@.is_awaited());
            }
        }
        false
    }
}

////////////////////////////////////////////////////////////////////////////////
// Laws
////////////////////////////////////////////////////////////////////////////////

/// All that wait for a source.
pub open spec fn waiting_on<W>(source: SourceView<W>) -> Multiset<W> {
    source.waiting_readers().to_multiset().add(source.waiting_writers().to_multiset())
}

/// All that wait for one of the sources with the given keys.
pub open spec fn all_waiting<W>(sources: Map<u64, SourceView<W>>, keys: Seq<u64>) -> Multiset<W>
    decreases keys.len(),
{
    if keys.len() == 0 {
        Multiset::empty()
    } else {
        all_waiting(sources, keys.drop_last()).add(waiting_on(sources[keys.last()]))
    }
}

proof fn lemma_all_waiting_insert<W>(
    sources: Map<u64, SourceView<W>>,
    keys: Seq<u64>,
    key: u64,
    after: SourceView<W>,
    gone: Multiset<W>,
)
    requires
        keys.no_duplicates(),
        waiting_on(sources[key]) == waiting_on(after).add(gone),
    ensures
        all_waiting(sources, keys) == (if keys.contains(key) {
            all_waiting(sources.insert(key, after), keys).add(gone)
        } else {
            all_waiting(sources.insert(key, after), keys)
        }),
    decreases keys.len(),
{
    if keys.len() > 0 {
        let rest = keys.drop_last();
        lemma_all_waiting_insert(sources, rest, key, after, gone);
        assert(keys =~= rest.push(keys.last()));
        if keys.last() == key {
            assert(keys[keys.len() - 1] == key);
            assert(!rest.contains(key)) by {
                if rest.contains(key) {
                    let i = choose|i: int| 0 <= i < rest.len() && rest[i] == key;
                    assert(keys[i] == keys[keys.len() - 1]);
                }
            }
        } else {
            assert(keys.contains(key) == rest.contains(key)) by {
                if keys.contains(key) {
                    let i = choose|i: int| 0 <= i < keys.len() && keys[i] == key;
                    assert(rest[i] == key);
                }
                if rest.contains(key) {
                    let i = choose|i: int| 0 <= i < rest.len() && rest[i] == key;
                    assert(keys[i] == key);
                }
            }
        }
        assert(all_waiting(sources, keys) =~= (if keys.contains(key) {
            all_waiting(sources.insert(key, after), keys).add(gone)
        } else {
            all_waiting(sources.insert(key, after), keys)
        }));
    } else {
        assert(!keys.contains(key));
    }
}

proof fn lemma_source_after<W>(source: SourceView<W>, event: Event)
    ensures
        waiting_on(source) == waiting_on(source_after(source, event)).add(
            woken_by(source, event).to_multiset(),
        ),
{
    broadcast use vstd::seq_lib::group_to_multiset_ensures;

    let after = source_after(source, event);
    let readers = if event.readable {
        source.waiting_readers()
    } else {
        Seq::empty()
    };
    let writers = if event.writable {
        source.waiting_writers()
    } else {
        Seq::empty()
    };
    vstd::seq_lib::lemma_multiset_commutative(readers, writers);
    assert(Seq::<W>::empty().to_multiset() =~= Multiset::empty());
    assert(source.without_readers().waiting_readers() =~= Seq::<W>::empty());
    assert(source.without_writers().waiting_writers() =~= Seq::<W>::empty());
    assert(after.waiting_readers() =~= (if event.readable {
        Seq::empty()
    } else {
        source.waiting_readers()
    }));
    assert(after.waiting_writers() =~= (if event.writable {
        Seq::empty()
    } else {
        source.waiting_writers()
    }));
    assert(waiting_on(source) =~= waiting_on(after).add(woken_by(source, event).to_multiset()));
}

/// The contents of a source are its descriptor, its key and its wakers.
pub proof fn law_source_is_what_it_holds<W>(source: IoSource<W>)
    ensures
        source@.fd == source.fd,
        source@.key == source.key,
        source@.poll_reader == source.poll_reader,
        source@.poll_writer == source.poll_writer,
        source@.readers == source.readers@,
        source@.writers == source.writers@,
{
}

/// Whoever polls the readability of a source waits for it, and is the first one to
/// wake; then come its readers in the order in which they were added. Nobody else
/// waits to read. The same holds of those who wait to write.
pub proof fn law_who_waits_for_a_source<W>(source: SourceView<W>, i: int)
    ensures
        source.poll_reader is None ==> source.waiting_readers() == source.readers,
        source.poll_reader is Some ==> {
            &&& source.waiting_readers().len() == source.readers.len() + 1
            &&& source.waiting_readers()[0] == source.poll_reader->Some_0
            &&& 0 <= i < source.readers.len() ==> source.waiting_readers()[i + 1]
                == source.readers[i]
        },
        source.poll_writer is None ==> source.waiting_writers() == source.writers,
        source.poll_writer is Some ==> {
            &&& source.waiting_writers().len() == source.writers.len() + 1
            &&& source.waiting_writers()[0] == source.poll_writer->Some_0
            &&& 0 <= i < source.writers.len() ==> source.waiting_writers()[i + 1]
                == source.writers[i]
        },
{
    assert(Seq::<W>::empty() + source.readers =~= source.readers);
    assert(Seq::<W>::empty() + source.writers =~= source.writers);
}

/// A source is awaited for reading exactly if it has a waker for that, and for
/// writing exactly if it has a waker for that. Either is enough for it to be awaited.
pub proof fn law_what_a_source_is_awaited_for<W>(source: SourceView<W>)
    ensures
        source.waiting_for().key == source.key,
        source.waiting_for().readable <==> source.poll_reader is Some || source.readers.len() > 0,
        source.waiting_for().writable <==> source.poll_writer is Some || source.writers.len() > 0,
        source.is_awaited() <==> source.poll_reader is Some || source.poll_writer is Some
            || source.readers.len() > 0 || source.writers.len() > 0,
{
}

/// Taking the readers away takes away all of them and nothing else, and so does
/// taking the writers away. A new source has the descriptor and the key that it is
/// given, and no waker.
pub proof fn law_wakers_are_taken_away_alone<W>(source: SourceView<W>, fd: i32, key: EventKey)
    ensures
        ({
            let after = source.without_readers();
            &&& after.poll_reader is None && after.readers.len() == 0
            &&& after.poll_writer == source.poll_writer && after.writers == source.writers
            &&& after.fd == source.fd && after.key == source.key
        }),
        ({
            let after = source.without_writers();
            &&& after.poll_writer is None && after.writers.len() == 0
            &&& after.poll_reader == source.poll_reader && after.readers == source.readers
            &&& after.fd == source.fd && after.key == source.key
        }),
        ({
            let new = SourceView::<W>::idle(fd, key);
            &&& new.fd == fd && new.key == key
            &&& new.poll_reader is None && new.poll_writer is None
            &&& new.readers.len() == 0 && new.writers.len() == 0
        }),
{
}

/// One waker is enough: some task waits for I/O as soon as one source has one waker,
/// whichever of the four places it is in, and otherwise none does.
pub proof fn law_one_waker_is_awaited<W>(sources: Map<u64, SourceView<W>>, key: u64)
    ensures
        sources.contains_key(key) && sources[key].poll_reader is Some ==> any_awaited(sources),
        sources.contains_key(key) && sources[key].poll_writer is Some ==> any_awaited(sources),
        sources.contains_key(key) && sources[key].readers.len() > 0 ==> any_awaited(sources),
        sources.contains_key(key) && sources[key].writers.len() > 0 ==> any_awaited(sources),
        sources.contains_key(key) && sources[key].waiting_readers().len() > 0 ==> any_awaited(
            sources,
        ),
        sources.contains_key(key) && sources[key].waiting_writers().len() > 0 ==> any_awaited(
            sources,
        ),
        (forall|other: u64| #[trigger]
            sources.contains_key(other) ==> {
                &&& sources[other].poll_reader is None && sources[other].poll_writer is None
                &&& sources[other].readers.len() == 0 && sources[other].writers.len() == 0
            }) ==> !any_awaited(sources),
{
    if sources.contains_key(key) {
        law_what_a_source_is_awaited_for(sources[key]);
    }
    if any_awaited(sources) {
        let other = choose|other: u64| #[trigger]
            sources.contains_key(other) && sources[other].is_awaited();
        law_what_a_source_is_awaited_for(sources[other]);
    }
}

/// Right after a task has been added to those that wait to read, or to those that
/// wait to write, some task waits for I/O. A new source changes nothing about that.
pub proof fn law_added_waker_is_awaited<W>(
    sources: Map<u64, SourceView<W>>,
    key: u64,
    waker: W,
    fresh: EventKey,
    fd: i32,
)
    requires
        sources.contains_key(key),
        !sources.contains_key(fresh.0),
    ensures
        any_awaited(
            sources.insert(
                key,
                SourceView { readers: sources[key].readers.push(waker), ..sources[key] },
            ),
        ),
        any_awaited(
            sources.insert(
                key,
                SourceView { writers: sources[key].writers.push(waker), ..sources[key] },
            ),
        ),
        any_awaited(sources.insert(fresh.0, SourceView::idle(fd, fresh))) == any_awaited(sources),
{
    let reading = sources.insert(
        key,
        SourceView { readers: sources[key].readers.push(waker), ..sources[key] },
    );
    let writing = sources.insert(
        key,
        SourceView { writers: sources[key].writers.push(waker), ..sources[key] },
    );
    assert(reading.contains_key(key) && writing.contains_key(key));
    law_one_waker_is_awaited(reading, key);
    law_one_waker_is_awaited(writing, key);
    let added = sources.insert(fresh.0, SourceView::idle(fd, fresh));
    if any_awaited(sources) {
        let other = choose|other: u64| #[trigger]
            sources.contains_key(other) && sources[other].is_awaited();
        assert(added.contains_key(other) && added[other] == sources[other]);
    }
    if any_awaited(added) {
        let other = choose|other: u64| #[trigger]
            added.contains_key(other) && added[other].is_awaited();
        assert(other != fresh.0);
        assert(sources.contains_key(other) && added[other] == sources[other]);
    }
}

/// The call for an interest modifies what `epoll` waits for on that descriptor, and
/// asks for exactly that interest: once, with the bit of readable and the bit of
/// writable as the interest names them. If `epoll` reported all of it, that would be
/// read as the interest.
pub proof fn law_interest_is_what_epoll_is_asked_for(epoll_fd: i32, fd: i32, interest: Event)
    ensures
        ({
            let call = interest_ctl(epoll_fd, fd, interest);
            &&& call.epoll_fd == epoll_fd
            &&& call.op is Mod
            &&& call.fd == fd
            &&& call.event is Some
            &&& call.event->Some_0.data == interest.key.0
            &&& call.event->Some_0.events & 0x1 != 0 <==> interest.readable
            &&& call.event->Some_0.events & 0x4 != 0 <==> interest.writable
            &&& call.event->Some_0.events & 0x4000_0000 == 0x4000_0000
            &&& call.event->Some_0.events & 0xbfff_fffa == 0
            &&& reported_event(parsed_event(call.event->Some_0)) == interest
        }),
{
    crate::event::law_raw_interest_has_the_right_bits(interest);
    crate::event::law_interest_survives_epoll(interest);
}

/// Removing a source asks `epoll` to forget its descriptor, exactly if there is such
/// a source, whoever waits for it.
pub proof fn law_removal_forgets_the_descriptor<W>(
    epoll_fd: i32,
    sources: Map<u64, SourceView<W>>,
    key: EventKey,
)
    ensures
        removal_ctl(epoll_fd, sources, key) is Some <==> sources.contains_key(key.0),
        sources.contains_key(key.0) ==> {
            let call = removal_ctl(epoll_fd, sources, key)->Some_0;
            &&& call.epoll_fd == epoll_fd
            &&& call.op is Del
            &&& call.fd == sources[key.0].fd
            &&& call.event is None
        },
        removal_ctl(epoll_fd, sources.remove(key.0), key) is None,
{
}

/// A call of `epoll_ctl` fails exactly if it returns -1, with the failure that the
/// operating system recorded. Where nothing is called, nothing fails.
pub proof fn law_control_fails_with_minus_one(ret: i32, last_error: IoError)
    ensures
        ctl_outcome(Some((ret, last_error))) is Err <==> ret == -1,
        ret == -1 ==> ctl_outcome(Some((ret, last_error)))->Err_0 == last_error,
        ctl_outcome(None) is Ok,
{
}

/// The raw events are read one by one, in their order.
pub proof fn law_events_are_read_one_by_one(raw: Seq<RawEvent>, i: int)
    requires
        0 <= i < raw.len(),
    ensures
        reported_events(raw).len() == raw.len(),
        reported_events(raw)[i].key.0 == raw[i].data,
        reported_events(raw)[i].readable <==> raw[i].events & 0x1 != 0,
        reported_events(raw)[i].writable <==> raw[i].events & 0x4 != 0,
{
    crate::event::law_report_follows_the_bits(raw[i]);
}

/// What one more event does. Without a source of that key it does nothing. With one,
/// it changes this source only: it takes away the wakers for what it reports, and
/// these are woken, first the one that polls and those that wait to read, then those
/// for writing. If wakers are left, all that they wait for is registered anew for the
/// descriptor of the source, and otherwise nothing is.
pub proof fn law_one_more_event<W>(
    sources: Map<u64, SourceView<W>>,
    events: Seq<Event>,
    event: Event,
)
    ensures
        dispatch(sources, Seq::empty()).sources == sources,
        dispatch(sources, Seq::empty()).interests.len() == 0,
        dispatch(sources, Seq::empty()).wakers.len() == 0,
        ({
            let before = dispatch(sources, events);
            let after = dispatch(sources, events.push(event));
            let key = event.key.0;
            if !before.sources.contains_key(key) {
                after == before
            } else {
                let old_source = before.sources[key];
                let new_source = after.sources[key];
                &&& after.sources == before.sources.insert(key, new_source)
                &&& new_source.fd == old_source.fd
                &&& new_source.key == old_source.key
                &&& event.readable ==> new_source.poll_reader is None && new_source.readers.len()
                    == 0
                &&& !event.readable ==> new_source.poll_reader == old_source.poll_reader
                    && new_source.readers == old_source.readers
                &&& event.writable ==> new_source.poll_writer is None && new_source.writers.len()
                    == 0
                &&& !event.writable ==> new_source.poll_writer == old_source.poll_writer
                    && new_source.writers == old_source.writers
                &&& after.wakers == before.wakers + (if event.readable {
                    old_source.waiting_readers()
                } else {
                    Seq::empty()
                }) + (if event.writable {
                    old_source.waiting_writers()
                } else {
                    Seq::empty()
                })
                &&& if new_source.poll_reader is Some || new_source.readers.len() > 0
                    || new_source.poll_writer is Some || new_source.writers.len() > 0 {
                    let (fd, interest) = after.interests.last();
                    &&& after.interests == before.interests.push(after.interests.last())
                    &&& fd == old_source.fd
                    &&& interest.key == old_source.key
                    &&& interest.readable <==> new_source.poll_reader is Some
                        || new_source.readers.len() > 0
                    &&& interest.writable <==> new_source.poll_writer is Some
                        || new_source.writers.len() > 0
                } else {
                    after.interests == before.interests
                }
            }
        }),
{
    let before = dispatch(sources, events);
    let after = dispatch(sources, events.push(event));
    assert(events.push(event).drop_last() =~= events);
    assert(after == before.after(event));
    if before.sources.contains_key(event.key.0) {
        let source = before.sources[event.key.0];
        law_what_a_source_is_awaited_for(after.sources[event.key.0]);
        assert(after.wakers =~= before.wakers + (if event.readable {
            source.waiting_readers()
        } else {
            Seq::empty()
        }) + (if event.writable {
            source.waiting_writers()
        } else {
            Seq::empty()
        }));
    }
}

/// Events can be handled in two parts: the second part goes on from what the first
/// has left, and what is to be done adds up.
pub proof fn law_events_in_two_parts<W>(
    sources: Map<u64, SourceView<W>>,
    first: Seq<Event>,
    second: Seq<Event>,
)
    ensures
        ({
            let one = dispatch(sources, first);
            let two = dispatch(one.sources, second);
            dispatch(sources, first + second) == (Dispatch {
                sources: two.sources,
                interests: one.interests + two.interests,
                wakers: one.wakers + two.wakers,
            })
        }),
    decreases second.len(),
{
    let one = dispatch(sources, first);
    let two = dispatch(one.sources, second);
    let both = dispatch(sources, first + second);
    if second.len() == 0 {
        assert(first + second =~= first);
    } else {
        law_events_in_two_parts(sources, first, second.drop_last());
        assert((first + second).drop_last() =~= first + second.drop_last());
    }
    assert(both.interests =~= one.interests + two.interests);
    assert(both.wakers =~= one.wakers + two.wakers);
}

/// Every interest that is registered anew is one of a source that an event was
/// about, by the descriptor of that source, and names something to wait for.
pub proof fn law_interests_are_of_their_sources<W>(
    sources: Map<u64, SourceView<W>>,
    events: Seq<Event>,
    i: int,
)
    requires
        keys_match(sources),
        0 <= i < dispatch(sources, events).interests.len(),
    ensures
        ({
            let (fd, interest) = dispatch(sources, events).interests[i];
            &&& sources.contains_key(interest.key.0)
            &&& sources[interest.key.0].fd == fd
            &&& some_event(events, interest.key.0)
            &&& interest.readable || interest.writable
        }),
    decreases events.len(),
{
    if events.len() > 0 {
        let rest = events.drop_last();
        let key = dispatch(sources, events).interests[i].1.key.0;
        assert(events =~= rest.push(events.last()));
        law_one_more_event(sources, rest, events.last());
        law_react_keeps_sources(sources, rest);
        lemma_some_drop_last(events, key);
        if i < dispatch(sources, rest).interests.len() {
            law_interests_are_of_their_sources(sources, rest, i);
        } else {
            assert(sources.contains_key(events.last().key.0));
        }
    }
}

/// No event adds or removes a source.
pub proof fn law_react_keeps_sources<W>(sources: Map<u64, SourceView<W>>, events: Seq<Event>)
    ensures
        dispatch(sources, events).sources.dom() == sources.dom(),
        forall|key: u64| #[trigger]
            sources.contains_key(key) ==> {
                let after = dispatch(sources, events).sources[key];
                after.fd == sources[key].fd && after.key == sources[key].key
            },
    decreases events.len(),
{
    if events.len() > 0 {
        law_react_keeps_sources(sources, events.drop_last());
        let before = dispatch(sources, events.drop_last());
        assert(dispatch(sources, events).sources.dom() =~= sources.dom());
        assert forall|key: u64| #[trigger] sources.contains_key(key) implies ({
            let after = dispatch(sources, events).sources[key];
            after.fd == sources[key].fd && after.key == sources[key].key
        }) by {
            assert(before.sources.contains_key(key));
        }
    }
}

/// Events lose no waker and double none: whoever waited for a source, once for
/// each time, is either woken or still waits.
pub proof fn law_react_loses_no_waker<W>(
    sources: Map<u64, SourceView<W>>,
    events: Seq<Event>,
    keys: Seq<u64>,
)
    requires
        keys.no_duplicates(),
        keys.to_set() == sources.dom(),
    ensures
        all_waiting(sources, keys) == all_waiting(dispatch(sources, events).sources, keys).add(
            dispatch(sources, events).wakers.to_multiset(),
        ),
    decreases events.len(),
{
    broadcast use vstd::seq_lib::group_to_multiset_ensures;

    let after = dispatch(sources, events);
    if events.len() == 0 {
        assert(Seq::<W>::empty().to_multiset() =~= Multiset::empty());
        assert(all_waiting(sources, keys) =~= all_waiting(after.sources, keys).add(
            after.wakers.to_multiset(),
        ));
    } else {
        law_react_loses_no_waker(sources, events.drop_last(), keys);
        law_react_keeps_sources(sources, events.drop_last());
        let before = dispatch(sources, events.drop_last());
        let event = events.last();
        if before.sources.contains_key(event.key.0) {
            let source = before.sources[event.key.0];
            lemma_source_after(source, event);
            lemma_all_waiting_insert(
                before.sources,
                keys,
                event.key.0,
                source_after(source, event),
                woken_by(source, event).to_multiset(),
            );
            assert(keys.to_set().contains(event.key.0));
            assert(keys.contains(event.key.0));
            vstd::seq_lib::lemma_multiset_commutative(before.wakers, woken_by(source, event));
            assert(all_waiting(sources, keys) =~= all_waiting(after.sources, keys).add(
                after.wakers.to_multiset(),
            ));
        }
    }
}

/// Whether every key in use is one of the first `count` keys of a new counter.
pub open spec fn is_keyed<W>(sources: Map<u64, SourceView<W>>, count: nat) -> bool {
    forall|key: u64| #[trigger]
        sources.contains_key(key) ==> crate::event::keys_before(key) < count
}

/// A registry without sources uses no key. Where all keys in use are among the
/// first keys of a counter, they still are when the counter has handed out more,
/// for this registry or for another.
pub proof fn law_registry_starts_keyed<W>(
    sources: Map<u64, SourceView<W>>,
    count: nat,
    later: nat,
)
    requires
        is_keyed(sources, count),
        count <= later,
    ensures
        is_keyed(Map::<u64, SourceView<W>>::empty(), 0),
        is_keyed(sources, later),
{
}

/// A new source displaces none: the next key is not in use, as long as the counter
/// that all keys came from has not handed out all 2^64 of them. With the new
/// source, the registry uses keys of the counter only.
pub proof fn law_new_source_displaces_none<W>(
    sources: Map<u64, SourceView<W>>,
    count: nat,
    fd: i32,
)
    requires
        is_keyed(sources, count),
        count < 0x1_0000_0000_0000_0000int,
    ensures
        ({
            let key = crate::event::nth_key(1, count);
            let added = sources.insert(key, SourceView::idle(fd, EventKey(key)));
            &&& !sources.contains_key(key)
            &&& is_keyed(added, count + 1)
            &&& key_after(key) == crate::event::nth_key(1, count + 1)
        }),
{
    let key = crate::event::nth_key(1, count);
    crate::event::law_every_key_has_its_turn(count, key);
    let added = sources.insert(key, SourceView::idle(fd, EventKey(key)));
    assert forall|other: u64| #[trigger] added.contains_key(other) implies
        crate::event::keys_before(other) < count + 1 by {
        assert(other == key || sources.contains_key(other));
    }
}

/// Waiting for a source, events and the removal of a source bring no key into use.
pub proof fn law_registry_stays_keyed<W>(
    sources: Map<u64, SourceView<W>>,
    count: nat,
    key: u64,
    source: SourceView<W>,
    events: Seq<Event>,
)
    requires
        is_keyed(sources, count),
    ensures
        sources.contains_key(key) ==> is_keyed(sources.insert(key, source), count),
        is_keyed(sources.remove(key), count),
        is_keyed(dispatch(sources, events).sources, count),
{
    law_react_keeps_sources(sources, events);
    let inserted = sources.insert(key, source);
    if sources.contains_key(key) {
        assert forall|other: u64| #[trigger] inserted.contains_key(other) implies
            crate::event::keys_before(other) < count by {
            assert(sources.contains_key(other));
        }
    }
    let removed = sources.remove(key);
    assert forall|other: u64| #[trigger] removed.contains_key(other) implies
        crate::event::keys_before(other) < count by {
        assert(sources.contains_key(other));
    }
    let after = dispatch(sources, events).sources;
    assert forall|other: u64| #[trigger] after.contains_key(other) implies
        crate::event::keys_before(other) < count by {
        assert(after.dom().contains(other));
        assert(sources.contains_key(other));
    }
}

/// Removing a source undoes adding it: the other sources are as before, and
/// `epoll` is asked once to forget the descriptor. Removing it again changes
/// nothing and asks for nothing. Neither removal fails unless `epoll_ctl` does.
pub proof fn law_removal_undoes_addition<W>(
    sources: Map<u64, SourceView<W>>,
    count: nat,
    epoll_fd: i32,
    fd: i32,
    ret: i32,
    last_error: IoError,
)
    requires
        is_keyed(sources, count),
        count < 0x1_0000_0000_0000_0000int,
        ret != -1,
    ensures
        ({
            let key = EventKey(crate::event::nth_key(1, count));
            let added = sources.insert(key.0, SourceView::idle(fd, key));
            &&& removal_ctl(epoll_fd, added, key) == Some(
                EpollCtl { epoll_fd, op: CtlOp::Del, fd, event: None },
            )
            &&& ctl_outcome(Some((ret, last_error))) == Ok::<(), IoError>(())
            &&& added.remove(key.0) == sources
            &&& removal_ctl(epoll_fd, sources, key) is None
            &&& ctl_outcome(None) == Ok::<(), IoError>(())
            &&& sources.remove(key.0) == sources
        }),
{
    let key = EventKey(crate::event::nth_key(1, count));
    law_new_source_displaces_none(sources, count, fd);
    let added = sources.insert(key.0, SourceView::idle(fd, key));
    assert(added.remove(key.0) =~= sources);
    assert(sources.remove(key.0) =~= sources);
}

/// Whether one of the events finds the source with the given key readable.
pub open spec fn some_readable(events: Seq<Event>, key: u64) -> bool {
    exists|i: int| 0 <= i < events.len() && (#[trigger] events[i]).key.0 == key && events[i].readable
}

/// Whether one of the events finds the source with the given key writable.
pub open spec fn some_writable(events: Seq<Event>, key: u64) -> bool {
    exists|i: int| 0 <= i < events.len() && (#[trigger] events[i]).key.0 == key && events[i].writable
}

/// Whether one of the events is about the source with the given key.
pub open spec fn some_event(events: Seq<Event>, key: u64) -> bool {
    exists|i: int| 0 <= i < events.len() && (#[trigger] events[i]).key.0 == key
}

proof fn lemma_some_drop_last(events: Seq<Event>, key: u64)
    requires
        events.len() > 0,
    ensures
        some_readable(events, key) == (some_readable(events.drop_last(), key) || (
        events.last().key.0 == key && events.last().readable)),
        some_writable(events, key) == (some_writable(events.drop_last(), key) || (
        events.last().key.0 == key && events.last().writable)),
        some_event(events, key) == (some_event(events.drop_last(), key) || events.last().key.0
            == key),
{
    let rest = events.drop_last();
    let n = events.len() - 1;
    assert(events[n] == events.last());
    assert(forall|i: int| 0 <= i < n ==> rest[i] == #[trigger] events[i]);
    if some_readable(rest, key) {
        let i = choose|i: int|
            0 <= i < rest.len() && (#[trigger] rest[i]).key.0 == key && rest[i].readable;
        assert(events[i].key.0 == key && events[i].readable);
    }
    if some_writable(rest, key) {
        let i = choose|i: int|
            0 <= i < rest.len() && (#[trigger] rest[i]).key.0 == key && rest[i].writable;
        assert(events[i].key.0 == key && events[i].writable);
    }
    if some_event(rest, key) {
        let i = choose|i: int| 0 <= i < rest.len() && (#[trigger] rest[i]).key.0 == key;
        assert(events[i].key.0 == key);
    }
}

/// Events wake everyone who waits for what they report, and nobody else: a
/// source that is found readable has no reader left and all of its readers are
/// woken; one that is not found readable keeps its readers. The same holds of
/// writers.
pub proof fn law_react_wakes_the_ready<W>(
    sources: Map<u64, SourceView<W>>,
    events: Seq<Event>,
    key: u64,
)
    requires
        sources.contains_key(key),
    ensures
        ({
            let before = sources[key];
            let after = dispatch(sources, events).sources[key];
            let wakers = dispatch(sources, events).wakers;
            &&& some_readable(events, key) ==> {
                &&& after.waiting_readers() == Seq::<W>::empty()
                &&& forall|w: W| before.waiting_readers().contains(w) ==> wakers.contains(w)
            }
            &&& !some_readable(events, key) ==> {
                &&& after.poll_reader == before.poll_reader
                &&& after.readers == before.readers
            }
            &&& some_writable(events, key) ==> {
                &&& after.waiting_writers() == Seq::<W>::empty()
                &&& forall|w: W| before.waiting_writers().contains(w) ==> wakers.contains(w)
            }
            &&& !some_writable(events, key) ==> {
                &&& after.poll_writer == before.poll_writer
                &&& after.writers == before.writers
            }
        }),
    decreases events.len(),
{
    if events.len() > 0 {
        let rest = events.drop_last();
        let event = events.last();
        law_react_wakes_the_ready(sources, rest, key);
        law_react_keeps_sources(sources, rest);
        lemma_some_drop_last(events, key);
        let start = sources[key];
        let mid = dispatch(sources, rest);
        let end = dispatch(sources, events);
        assert(mid.sources.contains_key(key));
        assert forall|w: W| mid.wakers.contains(w) implies end.wakers.contains(w) by {
            let i = choose|i: int| 0 <= i < mid.wakers.len() && mid.wakers[i] == w;
            assert(end.wakers[i] == w);
        }
        if event.key.0 == key {
            let source = mid.sources[key];
            let woken = woken_by(source, event);
            assert(source.without_readers().waiting_readers() =~= Seq::<W>::empty());
            assert(source.without_writers().waiting_writers() =~= Seq::<W>::empty());
            assert(end.wakers == mid.wakers + woken);
            assert forall|w: W| woken.contains(w) implies end.wakers.contains(w) by {
                let i = choose|i: int| 0 <= i < woken.len() && woken[i] == w;
                assert(end.wakers[mid.wakers.len() + i] == w);
            }
            if event.readable {
                assert forall|w: W| source.waiting_readers().contains(w) implies woken.contains(w) by {
                    let i = choose|i: int|
                        0 <= i < source.waiting_readers().len() && source.waiting_readers()[i] == w;
                    assert(woken[i] == w);
                }
            }
            if event.writable {
                let skip = if event.readable {
                    source.waiting_readers().len()
                } else {
                    0
                };
                assert forall|w: W| source.waiting_writers().contains(w) implies woken.contains(w) by {
                    let i = choose|i: int|
                        0 <= i < source.waiting_writers().len() && source.waiting_writers()[i] == w;
                    assert(woken[skip + i] == w);
                }
            }
        }
        assert forall|w: W| some_readable(events, key) && start.waiting_readers().contains(w) implies end.wakers.contains(w) by {
            if some_readable(rest, key) {
                assert(mid.wakers.contains(w));
            } else {
                assert(mid.sources[key].waiting_readers() == start.waiting_readers());
                assert(woken_by(mid.sources[key], event).contains(w));
            }
        }
        assert forall|w: W| some_writable(events, key) && start.waiting_writers().contains(w) implies end.wakers.contains(w) by {
            if some_writable(rest, key) {
                assert(mid.wakers.contains(w));
            } else {
                assert(mid.sources[key].waiting_writers() == start.waiting_writers());
                assert(woken_by(mid.sources[key], event).contains(w));
            }
        }
    }
}

/// What `epoll` waits for on each descriptor, by the key of its source.
pub type Armed = Map<u64, Event>;

/// Whether `epoll` waits for all that somebody waits for.
pub open spec fn is_armed<W>(sources: Map<u64, SourceView<W>>, armed: Armed) -> bool {
    forall|key: u64| #[trigger]
        sources.contains_key(key) && sources[key].is_awaited() ==> armed.contains_key(key)
            && armed[key] == sources[key].waiting_for()
}

/// `armed` once the given events have disarmed their descriptors.
pub open spec fn disarm(armed: Armed, events: Seq<Event>) -> Armed {
    Map::new(|key: u64| armed.contains_key(key) && !some_event(events, key), |key: u64| armed[key])
}

/// `armed` once the given interests have been registered, one after the other.
pub open spec fn rearm(armed: Armed, interests: Seq<(i32, Event)>) -> Armed
    decreases interests.len(),
{
    if interests.len() == 0 {
        armed
    } else {
        rearm(armed, interests.drop_last()).insert(interests.last().1.key.0, interests.last().1)
    }
}

proof fn lemma_react_arms<W>(
    sources: Map<u64, SourceView<W>>,
    events: Seq<Event>,
    base: Armed,
    key: u64,
)
    requires
        keys_match(sources),
        sources.contains_key(key),
    ensures
        ({
            let after = dispatch(sources, events);
            let armed = rearm(base, after.interests);
            &&& some_event(events, key) && after.sources[key].is_awaited()
                ==> armed.contains_key(key) && armed[key] == after.sources[key].waiting_for()
            &&& !some_event(events, key) ==> {
                &&& after.sources[key] == sources[key]
                &&& armed.contains_key(key) == base.contains_key(key)
                &&& armed[key] == base[key]
            }
        }),
    decreases events.len(),
{
    if events.len() > 0 {
        let rest = events.drop_last();
        let event = events.last();
        lemma_react_arms(sources, rest, base, key);
        law_react_keeps_sources(sources, rest);
        lemma_some_drop_last(events, key);
        let mid = dispatch(sources, rest);
        let end = dispatch(sources, events);
        assert(mid.sources.contains_key(key));
        if mid.sources.contains_key(event.key.0) {
            assert(sources.contains_key(event.key.0));
            let source = source_after(mid.sources[event.key.0], event);
            assert(source.key == EventKey(event.key.0));
            if source.is_awaited() {
                assert(end.interests.drop_last() =~= mid.interests);
                assert(end.interests.last() == (source.fd, source.waiting_for()));
            }
        }
    }
}

/// Handling events keeps `epoll` waiting for all that somebody waits for: the
/// events disarm their descriptors, and the interests that are registered anew
/// arm those that are still awaited.
pub proof fn law_react_keeps_armed<W>(
    sources: Map<u64, SourceView<W>>,
    events: Seq<Event>,
    armed: Armed,
)
    requires
        keys_match(sources),
        is_armed(sources, armed),
    ensures
        keys_match(dispatch(sources, events).sources),
        is_armed(
            dispatch(sources, events).sources,
            rearm(disarm(armed, events), dispatch(sources, events).interests),
        ),
{
    let after = dispatch(sources, events);
    law_react_keeps_sources(sources, events);
    assert forall|key: u64| #[trigger] after.sources.contains_key(key) implies after.sources[key].key
        == EventKey(key) by {
        assert(sources.contains_key(key));
    }
    assert forall|key: u64| #[trigger]
        after.sources.contains_key(key) && after.sources[key].is_awaited() implies rearm(
        disarm(armed, events),
        after.interests,
    ).contains_key(key) && rearm(disarm(armed, events), after.interests)[key]
        == after.sources[key].waiting_for() by {
        assert(sources.contains_key(key));
        lemma_react_arms(sources, events, disarm(armed, events), key);
    }
}

/// Waiting for a source keeps `epoll` waiting for all that somebody waits for,
/// once the interest that comes with it has been registered.
pub proof fn law_waiting_keeps_armed<W>(
    sources: Map<u64, SourceView<W>>,
    armed: Armed,
    key: u64,
    waker: W,
)
    requires
        keys_match(sources),
        is_armed(sources, armed),
        sources.contains_key(key),
    ensures
        ({
            let reading = SourceView {
                readers: sources[key].readers.push(waker),
                ..sources[key]
            };
            let writing = SourceView {
                writers: sources[key].writers.push(waker),
                ..sources[key]
            };
            &&& reading.is_awaited() && reading.waiting_for().readable
            &&& writing.is_awaited() && writing.waiting_for().writable
            &&& keys_match(sources.insert(key, reading))
            &&& keys_match(sources.insert(key, writing))
            &&& is_armed(
                sources.insert(key, reading),
                rearm(armed, seq![(reading.fd, reading.waiting_for())]),
            )
            &&& is_armed(
                sources.insert(key, writing),
                rearm(armed, seq![(writing.fd, writing.waiting_for())]),
            )
        }),
{
    let reading = SourceView { readers: sources[key].readers.push(waker), ..sources[key] };
    let writing = SourceView { writers: sources[key].writers.push(waker), ..sources[key] };
    reveal_with_fuel(rearm, 2);
    assert(seq![(reading.fd, reading.waiting_for())].drop_last() =~= Seq::<(i32, Event)>::empty());
    assert(seq![(writing.fd, writing.waiting_for())].drop_last() =~= Seq::<(i32, Event)>::empty());
}

/// Registering and forgetting a source keeps `epoll` waiting for all that
/// somebody waits for.
pub proof fn law_registering_keeps_armed<W>(
    sources: Map<u64, SourceView<W>>,
    armed: Armed,
    key: EventKey,
    fd: i32,
)
    requires
        keys_match(sources),
        is_armed(sources, armed),
    ensures
        keys_match(sources.insert(key.0, SourceView::idle(fd, key))),
        is_armed(sources.insert(key.0, SourceView::idle(fd, key)), armed),
        keys_match(sources.remove(key.0)),
        is_armed(sources.remove(key.0), armed.remove(key.0)),
{
}

} // verus!
