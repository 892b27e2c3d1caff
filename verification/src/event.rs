//! Events of `epoll` sources, the keys that tell the sources apart, and the
//! masks and raw events that the system calls exchange.
use vstd::prelude::*;

verus! {

////////////////////////////////////////////////////////////////////////////////
// Keys
////////////////////////////////////////////////////////////////////////////////

/// The key under which a source is registered.
#[derive(Clone, Copy, Debug, PartialEq, Eq, Structural, Hash)]
pub struct EventKey(pub u64);

/// Hands out the keys `1`, `2`, `3`, ... and starts over at `0` after the
/// largest one.
#[derive(Debug)]
pub struct KeyCounter {
    next: u64,
}

/// What a counter holds after it has handed out `key`.
pub open spec fn key_after(key: u64) -> u64 {
    if key == u64::MAX {
        0u64
    } else {
        (key + 1) as u64
    }
}

/// The key that a counter hands out after `count` others, starting with `first`.
pub open spec fn nth_key(first: u64, count: nat) -> u64
    decreases count,
{
    if count == 0 {
        first
    } else {
        key_after(nth_key(first, (count - 1) as nat))
    }
}

impl KeyCounter {
    /// The key that comes next.
    pub closed spec fn next_key(&self) -> u64 {
        self.next
    }

    pub fn new() -> (counter: KeyCounter)
        ensures
            counter.next_key() == 1,
    {
        KeyCounter { next: 1 }
    }
}

impl EventKey {
    /// The next key of `counter`.
    pub fn new(counter: &mut KeyCounter) -> (key: EventKey)
        ensures
            key == EventKey(old(counter).next_key()),
            final(counter).next_key() == key_after(old(counter).next_key()),
    {
        let key: u64 = counter.next;
        counter.next = key.wrapping_add(1);
        EventKey(key)
    }
}

proof fn lemma_nth_key(first: u64, count: nat)
    ensures
        nth_key(first, count) as int == (first + count) % 0x1_0000_0000_0000_0000int,
    decreases count,
{
    if count > 0 {
        lemma_nth_key(first, (count - 1) as nat);
    }
}

/// Keys count up: after `count` others, a counter that starts with `first` hands out
/// `first + count`, and it starts over at zero after the largest number of 64 bits.
pub proof fn law_keys_count_up(first: u64, count: nat)
    ensures
        nth_key(first, count) as int == (first + count) % 0x1_0000_0000_0000_0000int,
        key_after(nth_key(first, count)) == nth_key(first, count + 1),
        key_after(first) as int == (first + 1) % 0x1_0000_0000_0000_0000int,
{
    lemma_nth_key(first, count);
}

/// Two different keys of one counter are equal only if at least 2^64 keys were
/// handed out from the first of them to the second.
pub proof fn law_keys_are_distinct(first: u64, i: nat, j: nat)
    requires
        i < j,
        j - i < 0x1_0000_0000_0000_0000int,
    ensures
        nth_key(first, i) != nth_key(first, j),
{
    lemma_nth_key(first, i);
    lemma_nth_key(first, j);
}

/// How many keys a new counter hands out before `key`.
pub open spec fn keys_before(key: u64) -> nat {
    if key == 0 {
        0xffff_ffff_ffff_ffffnat
    } else {
        (key - 1) as nat
    }
}

/// A new counter hands out every key before it starts over, and no key twice:
/// `key` comes after [`keys_before`] others, and what comes after `count` others
/// comes after no other number of keys.
pub proof fn law_every_key_has_its_turn(count: nat, key: u64)
    requires
        count < 0x1_0000_0000_0000_0000int,
    ensures
        keys_before(nth_key(1, count)) == count,
        keys_before(key) < 0x1_0000_0000_0000_0000int,
        nth_key(1, keys_before(key)) == key,
{
    lemma_nth_key(1, count);
    lemma_nth_key(1, keys_before(key));
}

////////////////////////////////////////////////////////////////////////////////
// Events
////////////////////////////////////////////////////////////////////////////////

/// What a source is ready for, or what is being waited for on it.
#[derive(Clone, Copy, Debug, PartialEq, Eq, Structural)]
pub struct Event {
    pub key: EventKey,
    pub readable: bool,
    pub writable: bool,
}

impl Event {
    pub fn none(key: EventKey) -> (event: Event)
        ensures
            event == (Event { key, readable: false, writable: false }),
    {
        Event { key, readable: false, writable: false }
    }

    pub fn write(key: EventKey) -> (event: Event)
        ensures
            event == (Event { key, readable: false, writable: true }),
    {
        Event { key, readable: false, writable: true }
    }

    pub fn read(key: EventKey) -> (event: Event)
        ensures
            event == (Event { key, readable: true, writable: false }),
    {
        Event { key, readable: true, writable: false }
    }

    pub fn read_write(key: EventKey) -> (event: Event)
        ensures
            event == (Event { key, readable: true, writable: true }),
    {
        Event { key, readable: true, writable: true }
    }
}

/// The bit of an `epoll` mask that stands for readable.
pub const READABLE_BIT: u32 = 0x1;

/// The bit of an `epoll` mask that stands for writable.
pub const WRITABLE_BIT: u32 = 0x4;

/// The bit of an `epoll` mask that disarms a descriptor after one event.
pub const ONESHOT_BIT: u32 = 0x4000_0000;

/// `libc::EPOLLIN`, the mask of a readable descriptor, is [`READABLE_BIT`].
#[verifier::external_body]
fn epollin() -> (bits: u32)
    ensures
        bits == READABLE_BIT,
{
    libc::EPOLLIN as u32
}

/// `libc::EPOLLOUT`, the mask of a writable descriptor, is [`WRITABLE_BIT`].
#[verifier::external_body]
fn epollout() -> (bits: u32)
    ensures
        bits == WRITABLE_BIT,
{
    libc::EPOLLOUT as u32
}

/// `libc::EPOLLONESHOT`, the mask of a one-shot registration, is
/// [`ONESHOT_BIT`].
#[verifier::external_body]
fn epolloneshot() -> (bits: u32)
    ensures
        bits == ONESHOT_BIT,
{
    libc::EPOLLONESHOT as u32
}

/// An `epoll` event mask.
#[derive(Clone, Copy, Debug, PartialEq, Eq, Structural)]
pub struct EpollEvents(pub u32);

impl EpollEvents {
    pub open spec fn spec_has_readable(self) -> bool {
        self.0 & READABLE_BIT != 0
    }

    pub open spec fn spec_has_writable(self) -> bool {
        self.0 & WRITABLE_BIT != 0
    }

    /// The one-shot mask that waits for nothing.
    pub fn new() -> (events: EpollEvents)
        ensures
            events == EpollEvents(ONESHOT_BIT),
    {
        EpollEvents(epolloneshot())
    }

    pub fn set_writable(&mut self)
        ensures
            *final(self) == EpollEvents(old(self).0 | WRITABLE_BIT),
            final(self).spec_has_writable(),
            final(self).spec_has_readable() == old(self).spec_has_readable(),
    {
        let ghost mask = self.0;
        assert((mask | WRITABLE_BIT) & WRITABLE_BIT != 0) by (bit_vector);
        assert((mask | WRITABLE_BIT) & READABLE_BIT == mask & READABLE_BIT) by (bit_vector);
        self.0 = self.0 | epollout();
    }

    pub fn set_readable(&mut self)
        ensures
            *final(self) == EpollEvents(old(self).0 | READABLE_BIT),
            final(self).spec_has_readable(),
            final(self).spec_has_writable() == old(self).spec_has_writable(),
    {
        let ghost mask = self.0;
        assert((mask | READABLE_BIT) & READABLE_BIT != 0) by (bit_vector);
        assert((mask | READABLE_BIT) & WRITABLE_BIT == mask & WRITABLE_BIT) by (bit_vector);
        self.0 = self.0 | epollin();
    }

    pub fn has_readable(&self) -> (readable: bool)
        ensures
            readable == self.spec_has_readable(),
    {
        (self.0 & epollin()) != 0
    }

    pub fn has_writable(&self) -> (writable: bool)
        ensures
            writable == self.spec_has_writable(),
    {
        (self.0 & epollout()) != 0
    }
}

/// An `epoll` event: a mask and the key of the source that it is about.
#[derive(Clone, Copy, Debug, PartialEq, Eq, Structural)]
pub struct EpollEvent {
    pub events: EpollEvents,
    pub key: EventKey,
}

/// An `epoll` event as the system calls take and give it.
#[derive(Clone, Copy, Debug, PartialEq, Eq, Structural)]
pub struct RawEvent {
    pub events: u32,
    pub data: u64,
}

/// What an `epoll` event says about its source.
pub open spec fn reported_event(epoll_event: EpollEvent) -> Event {
    Event {
        key: epoll_event.key,
        readable: epoll_event.events.spec_has_readable(),
        writable: epoll_event.events.spec_has_writable(),
    }
}

impl From<EpollEvent> for Event {
    fn from(epoll_event: EpollEvent) -> (event: Event) {
        Event {
            key: epoll_event.key,
            readable: epoll_event.events.has_readable(),
            writable: epoll_event.events.has_writable(),
        }
    }
}

impl vstd::std_specs::convert::FromSpecImpl<EpollEvent> for Event {
    open spec fn obeys_from_spec() -> bool {
        true
    }

    open spec fn from_spec(epoll_event: EpollEvent) -> Event {
        reported_event(epoll_event)
    }
}

/// The mask that waits once for what `event` names.
pub open spec fn interest_mask(event: Event) -> u32 {
    let mask = ONESHOT_BIT;
    let mask = if event.readable {
        mask | READABLE_BIT
    } else {
        mask
    };
    if event.writable {
        mask | WRITABLE_BIT
    } else {
        mask
    }
}

/// The `epoll` event that waits once for what `event` names.
pub open spec fn interest_event(event: Event) -> EpollEvent {
    EpollEvent { events: EpollEvents(interest_mask(event)), key: event.key }
}

impl From<Event> for EpollEvent {
    fn from(event: Event) -> (epoll_event: EpollEvent) {
        let mut epoll_events = EpollEvents::new();
        if event.readable {
            epoll_events.set_readable();
        }
        if event.writable {
            epoll_events.set_writable();
        }
        EpollEvent { events: epoll_events, key: EventKey(event.key.0) }
    }
}

impl vstd::std_specs::convert::FromSpecImpl<Event> for EpollEvent {
    open spec fn obeys_from_spec() -> bool {
        true
    }

    open spec fn from_spec(event: Event) -> EpollEvent {
        interest_event(event)
    }
}

/// An `epoll` event in its raw form.
pub open spec fn raw_event(epoll_event: EpollEvent) -> RawEvent {
    RawEvent { events: epoll_event.events.0, data: epoll_event.key.0 }
}

impl From<EpollEvent> for RawEvent {
    fn from(epoll_event: EpollEvent) -> (raw: RawEvent) {
        RawEvent { events: epoll_event.events.0, data: epoll_event.key.0 }
    }
}

impl vstd::std_specs::convert::FromSpecImpl<EpollEvent> for RawEvent {
    open spec fn obeys_from_spec() -> bool {
        true
    }

    open spec fn from_spec(epoll_event: EpollEvent) -> RawEvent {
        raw_event(epoll_event)
    }
}

/// The `epoll` event that a raw one stands for.
pub open spec fn parsed_event(raw: RawEvent) -> EpollEvent {
    EpollEvent { events: EpollEvents(raw.events), key: EventKey(raw.data) }
}

impl From<RawEvent> for EpollEvent {
    fn from(raw: RawEvent) -> (epoll_event: EpollEvent) {
        EpollEvent { events: EpollEvents(raw.events), key: EventKey(raw.data) }
    }
}

impl vstd::std_specs::convert::FromSpecImpl<RawEvent> for EpollEvent {
    open spec fn obeys_from_spec() -> bool {
        true
    }

    open spec fn from_spec(raw: RawEvent) -> EpollEvent {
        parsed_event(raw)
    }
}

/// What is handed to `epoll` for an interest: the number of its key, the one-shot
/// bit, the bits of readable and writable exactly as the interest names them, and no
/// other bit.
pub proof fn law_raw_interest_has_the_right_bits(event: Event)
    ensures
        ({
            let raw = raw_event(interest_event(event));
            &&& raw.data == event.key.0
            &&& raw.events & 0x4000_0000 == 0x4000_0000
            &&& raw.events & 0x1 != 0 <==> event.readable
            &&& raw.events & 0x4 != 0 <==> event.writable
            &&& raw.events & 0xbfff_fffa == 0
        }),
{
    let mask = interest_mask(event);
    let readable: u32 = if event.readable {
        0x1
    } else {
        0
    };
    let writable: u32 = if event.writable {
        0x4
    } else {
        0
    };
    assert(0x4000_0000u32 | 0 == 0x4000_0000 && 0x4000_0001u32 | 0 == 0x4000_0001 && 0x4000_0000u32
        | 0x1 == 0x4000_0001 && 0x4000_0000u32 | 0x4 == 0x4000_0004 && 0x4000_0001u32 | 0x4
        == 0x4000_0005) by (bit_vector);
    assert(mask == 0x4000_0000 + readable + writable);
    assert(mask & 0x4000_0000 == 0x4000_0000 && (mask & 0x1 != 0 <==> readable == 1) && (mask & 0x4
        != 0 <==> writable == 4) && mask & 0xbfff_fffa == 0) by (bit_vector)
        requires
            mask == 0x4000_0000u32 + readable + writable,
            readable == 0 || readable == 1,
            writable == 0 || writable == 4,
    ;
}

/// What `epoll` reports is read from its bits: the number names the source, which is
/// readable or writable exactly where the bit for it is set, whatever other bits are.
pub proof fn law_report_follows_the_bits(raw: RawEvent)
    ensures
        ({
            let event = reported_event(parsed_event(raw));
            &&& event.key.0 == raw.data
            &&& event.readable <==> raw.events & 0x1 != 0
            &&& event.writable <==> raw.events & 0x4 != 0
        }),
        raw_event(parsed_event(raw)) == raw,
{
}

/// An interest that is handed to `epoll` and comes back unchanged names the same
/// source, readable and writable exactly as asked for.
pub proof fn law_interest_survives_epoll(event: Event)
    ensures
        reported_event(parsed_event(raw_event(interest_event(event)))) == event,
{
    let one = ONESHOT_BIT;
    assert(one & READABLE_BIT == 0 && one & WRITABLE_BIT == 0) by (bit_vector)
        requires
            one == ONESHOT_BIT,
    ;
    assert((one | READABLE_BIT) & READABLE_BIT != 0 && (one | READABLE_BIT) & WRITABLE_BIT == 0)
        by (bit_vector)
        requires
            one == ONESHOT_BIT,
    ;
    assert((one | WRITABLE_BIT) & WRITABLE_BIT != 0 && (one | WRITABLE_BIT) & READABLE_BIT == 0)
        by (bit_vector)
        requires
            one == ONESHOT_BIT,
    ;
    assert(((one | READABLE_BIT) | WRITABLE_BIT) & WRITABLE_BIT != 0 && ((one | READABLE_BIT)
        | WRITABLE_BIT) & READABLE_BIT != 0) by (bit_vector)
        requires
            one == ONESHOT_BIT,
    ;
}

} // verus!
