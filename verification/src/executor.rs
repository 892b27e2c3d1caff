//! The task queue, the wakers that fill it, and the loop that runs tasks.
//!
//! `F` is the future that a task drives. The loop hands out the task that is to
//! be polled next, or asks to wait for I/O, and is told when that has been done.
use crate::event::{Event, EventKey, KeyCounter};
use crate::io_error::{ErrorKind, IoError};
use crate::reactor::Reactor;
use std::collections::VecDeque;
use std::rc::Rc;
use vstd::multiset::Multiset;
use vstd::prelude::*;

verus! {

////////////////////////////////////////////////////////////////////////////////
// Tasks and their queue
////////////////////////////////////////////////////////////////////////////////

/// A future and the number under which the executor took it on.
pub struct Task<F> {
    pub id: usize,
    pub future: F,
}

/// The sending side of the channel of a [`TaskQueue`].
#[derive(Clone, Copy, Debug, PartialEq, Eq, Structural)]
pub struct Sender {
    channel: u64,
}

/// The tasks that are ready to make progress. Tasks come in through a channel,
/// and wait there, in the order in which they were sent, until they are received.
pub struct TaskQueue<F> {
    /// The tasks that have been received, the next one last.
    pub tasks: Vec<Rc<Task<F>>>,
    /// The number of the channel.
    channel: u64,
    /// The tasks that are still in the channel, the oldest first.
    inbox: VecDeque<Rc<Task<F>>>,
}

/// The contents of a [`TaskQueue`]: the tasks that have been received, the next
/// one last, and those that are still in the channel, the oldest first.
#[verifier::ext_equal]
pub struct QueueView<F> {
    pub tasks: Seq<Rc<Task<F>>>,
    pub inbox: Seq<Rc<Task<F>>>,
}

impl<F> QueueView<F> {
    pub open spec fn empty() -> QueueView<F> {
        QueueView { tasks: Seq::empty(), inbox: Seq::empty() }
    }

    pub open spec fn sent(self, task: Rc<Task<F>>) -> QueueView<F> {
        QueueView { inbox: self.inbox.push(task), ..self }
    }

    pub open spec fn received(self) -> QueueView<F> {
        QueueView { tasks: self.tasks + self.inbox, inbox: Seq::empty() }
    }

    pub open spec fn popped(self) -> QueueView<F> {
        QueueView { tasks: self.tasks.drop_last(), ..self }
    }

    /// All tasks, received or not.
    pub open spec fn all(self) -> Multiset<Rc<Task<F>>> {
        (self.tasks + self.inbox).to_multiset()
    }

    pub open spec fn contains(self, task: Rc<Task<F>>) -> bool {
        self.tasks.contains(task) || self.inbox.contains(task)
    }
}

impl<F> View for TaskQueue<F> {
    type V = QueueView<F>;

    closed spec fn view(&self) -> QueueView<F> {
        QueueView { tasks: self.tasks@, inbox: self.inbox@ }
    }
}

impl Sender {
    /// The channel that this side sends into.
    pub closed spec fn spec_channel(&self) -> u64 {
        self.channel
    }

    /// Sends a task to `queue`. A queue with another channel gives the task back.
    pub fn send<F>(&self, queue: &mut TaskQueue<F>, task: Rc<Task<F>>) -> (result: Result<
        (),
        Rc<Task<F>>,
    >)
        ensures
            final(queue).spec_channel() == old(queue).spec_channel(),
            self.spec_channel() == old(queue).spec_channel() ==> {
                &&& result is Ok
                &&& final(queue)@ == old(queue)@.sent(task)
            },
            self.spec_channel() != old(queue).spec_channel() ==> {
                &&& result == Err::<(), Rc<Task<F>>>(task)
                &&& final(queue)@ == old(queue)@
            },
    {
        if self.channel == queue.channel {
            queue.inbox.push_back(task);
            Ok(())
        } else {
            Err(task)
        }
    }
}

impl<F> TaskQueue<F> {
    /// The number of the channel through which tasks come in.
    pub closed spec fn spec_channel(&self) -> u64 {
        self.channel
    }

    /// An empty queue whose channel has the next number of `channels`.
    pub fn new(channels: &mut KeyCounter) -> (queue: TaskQueue<F>)
        ensures
            queue@ == QueueView::<F>::empty(),
            queue.spec_channel() == old(channels).next_key(),
            final(channels).next_key() == crate::event::key_after(old(channels).next_key()),
    {
        let channel = EventKey::new(channels);
        TaskQueue { tasks: Vec::new(), channel: channel.0, inbox: VecDeque::new() }
    }

    /// A sending side of the channel.
    pub fn sender(&self) -> (sender: Sender)
        ensures
            sender.spec_channel() == self.spec_channel(),
    {
        Sender { channel: self.channel }
    }

    /// Receives all that has been sent, in the order in which it was sent.
    pub fn receive(&mut self)
        ensures
            final(self)@ == old(self)@.received(),
            final(self).spec_channel() == old(self).spec_channel(),
    {
        while self.inbox.len() > 0
            invariant
                self.tasks@ + self.inbox@ == old(self).tasks@ + old(self).inbox@,
                self.channel == old(self).channel,
            decreases self.inbox@.len(),
        {
            let ghost before = self.tasks@ + self.inbox@;
            if let Some(task) = self.inbox.pop_front() {
                self.tasks.push(task);
            }
            assert(self.tasks@ + self.inbox@ =~= before);
        }
        assert(self.tasks@ =~= self.tasks@ + self.inbox@);
        assert(self@ =~= old(self)@.received());
    }

    /// Takes the task that was received last.
    pub fn pop(&mut self) -> (task: Option<Rc<Task<F>>>)
        ensures
            final(self).spec_channel() == old(self).spec_channel(),
            old(self)@.tasks.len() == 0 ==> task is None && final(self)@ == old(self)@,
            old(self)@.tasks.len() > 0 ==> {
                &&& task == Some(old(self)@.tasks.last())
                &&& final(self)@ == old(self)@.popped()
            },
    {
        let task = self.tasks.pop();
        assert(old(self)@.tasks.len() > 0 ==> self@ =~= old(self)@.popped());
        task
    }

    /// How many tasks have been received and not been taken.
    pub fn len(&self) -> (len: usize)
        ensures
            len == self@.tasks.len(),
    {
        self.tasks.len()
    }

    /// Whether no task has been received that has not been taken.
    pub fn is_empty(&self) -> (empty: bool)
        ensures
            empty == (self@.tasks.len() == 0),
    {
        self.tasks.len() == 0
    }
}

////////////////////////////////////////////////////////////////////////////////
// Wakers
////////////////////////////////////////////////////////////////////////////////

/// Resumes a task.
pub struct MyWaker<F> {
    /// The task whose execution is to be resumed by `wake` or `wake_by_ref`.
    task: Rc<Task<F>>,
    /// Sending the task through this side puts it back into the task queue.
    sender: Sender,
}

impl<F> MyWaker<F> {
    pub closed spec fn spec_task(&self) -> Rc<Task<F>> {
        self.task
    }

    pub closed spec fn spec_sender(&self) -> Sender {
        self.sender
    }

    pub fn new(task: Rc<Task<F>>, sender: Sender) -> (waker: MyWaker<F>)
        ensures
            waker.spec_task() == task,
            waker.spec_sender() == sender,
    {
        MyWaker { task, sender }
    }

    /// Another waker of the same task.
    pub fn clone(&self) -> (waker: MyWaker<F>)
        ensures
            waker == *self,
    {
        MyWaker { task: Rc::clone(&self.task), sender: self.sender }
    }

    /// Whether this waker can put its task into `queue`.
    pub fn belongs_to(&self, queue: &TaskQueue<F>) -> (belongs: bool)
        ensures
            belongs == (self.spec_sender().spec_channel() == queue.spec_channel()),
    {
        self.sender.channel == queue.channel
    }

    /// Puts the task back into the queue that its sender belongs to.
    pub fn wake(self, queue: &mut TaskQueue<F>)
        requires
            self.spec_sender().spec_channel() == old(queue).spec_channel(),
        ensures
            final(queue)@ == old(queue)@.sent(self.spec_task()),
            final(queue).spec_channel() == old(queue).spec_channel(),
    {
        let _ = self.sender.send(queue, self.task);
    }

    /// Puts the task back into the queue that its sender belongs to.
    pub fn wake_by_ref(&self, queue: &mut TaskQueue<F>)
        requires
            self.spec_sender().spec_channel() == old(queue).spec_channel(),
        ensures
            final(queue)@ == old(queue)@.sent(self.spec_task()),
            final(queue).spec_channel() == old(queue).spec_channel(),
    {
        let _ = self.sender.send(queue, Rc::clone(&self.task));
    }
}

////////////////////////////////////////////////////////////////////////////////
// The loop
////////////////////////////////////////////////////////////////////////////////

/// What the loop is told.
pub enum RunEvent {
    /// The loop starts.
    Begin,
    /// The task that was handed out has been polled.
    Polled,
    /// The wait for I/O has ended, and its events have been handled.
    Reacted(Result<(), IoError>),
}

/// What the loop asks for.
pub enum RunAction<F> {
    /// Poll the task handed out here.
    Poll(Rc<Task<F>>),
    /// Wait for I/O, however long this takes.
    React,
    /// Nothing more: the loop ends.
    Stop,
}

/// Whether the wait for I/O was cut short by a signal.
pub open spec fn is_interrupted(event: RunEvent) -> bool {
    event matches RunEvent::Reacted(Err(error)) && error.kind == ErrorKind::Interrupted
}

/// All received tasks have been handed out. Whoever was woken meanwhile is
/// received. Then the loop waits for I/O if a task waits for some, also if others
/// are ready: those have their turn after the wait. Otherwise it ends if no task is
/// left, or starts the next round.
pub open spec fn settle<F>(queue: QueueView<F>, awaited: bool) -> (QueueView<F>, RunAction<F>) {
    let queue = queue.received();
    if awaited {
        (queue, RunAction::React)
    } else if queue.tasks.len() == 0 {
        (queue, RunAction::Stop)
    } else {
        (queue.popped(), RunAction::Poll(queue.tasks.last()))
    }
}

/// Continues a round: the tasks that have been received are polled first.
pub open spec fn continue_round<F>(queue: QueueView<F>, awaited: bool) -> (
    QueueView<F>,
    RunAction<F>,
) {
    if queue.tasks.len() > 0 {
        (queue.popped(), RunAction::Poll(queue.tasks.last()))
    } else {
        settle(queue, awaited)
    }
}

/// One step of the loop: the queue after it, and what it asks for. `awaited`
/// says whether some task waits for I/O.
pub open spec fn run_step<F>(queue: QueueView<F>, awaited: bool, event: RunEvent) -> (
    QueueView<F>,
    RunAction<F>,
) {
    match event {
        RunEvent::Polled => continue_round(queue, awaited),
        _ => if is_interrupted(event) {
            (queue, RunAction::Stop)
        } else {
            continue_round(queue.received(), awaited)
        },
    }
}

proof fn lemma_sent_contains<F>(queue: QueueView<F>, task: Rc<Task<F>>, other: Rc<Task<F>>)
    ensures
        queue.sent(task).contains(other) == (queue.contains(other) || other == task),
{
    let inbox = queue.inbox.push(task);
    assert(inbox[queue.inbox.len() as int] == task);
    if queue.inbox.contains(other) {
        let i = choose|i: int| 0 <= i < queue.inbox.len() && queue.inbox[i] == other;
        assert(inbox[i] == other);
    }
    if inbox.contains(other) && other != task {
        let i = choose|i: int| 0 <= i < inbox.len() && inbox[i] == other;
        assert(queue.inbox[i] == other);
    }
}

proof fn lemma_received_contains<F>(queue: QueueView<F>, task: Rc<Task<F>>)
    ensures
        queue.received().contains(task) == queue.contains(task),
        queue.received().tasks.contains(task) == queue.contains(task),
{
    let tasks = queue.tasks + queue.inbox;
    if queue.tasks.contains(task) {
        let i = choose|i: int| 0 <= i < queue.tasks.len() && queue.tasks[i] == task;
        assert(tasks[i] == task);
    }
    if queue.inbox.contains(task) {
        let i = choose|i: int| 0 <= i < queue.inbox.len() && queue.inbox[i] == task;
        assert(tasks[queue.tasks.len() + i] == task);
    }
    if tasks.contains(task) {
        let i = choose|i: int| 0 <= i < tasks.len() && tasks[i] == task;
        if i < queue.tasks.len() {
            assert(queue.tasks[i] == task);
        } else {
            assert(queue.inbox[i - queue.tasks.len()] == task);
        }
    }
}

proof fn lemma_popped_contains<F>(queue: QueueView<F>, task: Rc<Task<F>>)
    requires
        queue.tasks.len() > 0,
    ensures
        queue.contains(task) == (queue.popped().contains(task) || task == queue.tasks.last()),
{
    let tasks = queue.tasks.drop_last();
    let last = queue.tasks.len() - 1;
    assert(queue.tasks[last] == queue.tasks.last());
    if tasks.contains(task) {
        let i = choose|i: int| 0 <= i < tasks.len() && tasks[i] == task;
        assert(queue.tasks[i] == task);
    }
    if queue.tasks.contains(task) && task != queue.tasks.last() {
        let i = choose|i: int| 0 <= i < queue.tasks.len() && queue.tasks[i] == task;
        assert(tasks[i] == task);
    }
}

proof fn lemma_run_contains<F>(
    queue: QueueView<F>,
    awaited: bool,
    event: RunEvent,
    task: Rc<Task<F>>,
)
    ensures
        ({
            let (after, action) = run_step(queue, awaited, event);
            queue.contains(task) == (after.contains(task) || action == RunAction::Poll(task))
        }),
{
    lemma_received_contains(queue, task);
    lemma_received_contains(queue.received(), task);
    if queue.tasks.len() > 0 {
        lemma_popped_contains(queue, task);
    }
    if queue.received().tasks.len() > 0 {
        lemma_popped_contains(queue.received(), task);
    }
    assert(queue.received().received() =~= queue.received());
}

/// Whether every task in the queue has a number below `bound`.
pub open spec fn ids_below<F>(queue: QueueView<F>, bound: usize) -> bool {
    forall|task: Rc<Task<F>>| #[trigger] queue.contains(task) ==> task.id < bound
}

proof fn lemma_run_keeps_ids<F>(
    queue: QueueView<F>,
    awaited: bool,
    event: RunEvent,
    bound: usize,
)
    requires
        ids_below(queue, bound),
    ensures
        ids_below(run_step(queue, awaited, event).0, bound),
        run_step(queue, awaited, event).1 matches RunAction::Poll(task) ==> task.id < bound,
{
    let (after, action) = run_step(queue, awaited, event);
    assert forall|task: Rc<Task<F>>| #[trigger] after.contains(task) implies task.id < bound by {
        lemma_run_contains(queue, awaited, event, task);
    }
    if let RunAction::Poll(task) = action {
        lemma_run_contains(queue, awaited, event, task);
    }
}

/// Runs tasks, and keeps the registry of what they wait for.
pub struct Executor<F, W> {
    pub task_queue: TaskQueue<F>,
    /// The number of the task that is taken on next.
    pub next_task_id: usize,
    pub reactor: Reactor<W>,
}

impl<F, W> Executor<F, W> {
    /// Whether every task in the queue has a number that was given out.
    pub open spec fn wf(&self) -> bool {
        ids_below(self.task_queue@, self.next_task_id)
    }

    /// An executor without tasks, on a queue whose channel has the next number of
    /// `channels`.
    pub fn new(channels: &mut KeyCounter, reactor: Reactor<W>) -> (executor: Executor<F, W>)
        ensures
            executor.task_queue@ == QueueView::<F>::empty(),
            executor.task_queue.spec_channel() == old(channels).next_key(),
            final(channels).next_key() == crate::event::key_after(old(channels).next_key()),
            executor.next_task_id == 0,
            executor.reactor == reactor,
            executor.wf(),
    {
        Executor { task_queue: TaskQueue::new(channels), next_task_id: 0, reactor }
    }

    /// Takes on a future: it becomes the task with the next number, and is sent
    /// to the queue.
    pub fn spawn(&mut self, future: F) -> (id: usize)
        requires
            old(self).next_task_id < usize::MAX,
        ensures
            id == old(self).next_task_id,
            final(self).next_task_id == id + 1,
            final(self).task_queue@ == old(self).task_queue@.sent(Rc::new(Task { id, future })),
            final(self).task_queue.spec_channel() == old(self).task_queue.spec_channel(),
            final(self).reactor == old(self).reactor,
            old(self).wf() ==> final(self).wf(),
    {
        let id: usize = self.next_task_id;
        let task = Rc::new(Task { id, future });
        self.next_task_id = self.next_task_id + 1;
        let sender = self.task_queue.sender();
        let _ = sender.send(&mut self.task_queue, task);
        proof {
            assert forall|other: Rc<Task<F>>| #[trigger]
                self.task_queue@.contains(other) && old(self).wf() implies other.id
                < self.next_task_id by {
                lemma_sent_contains(old(self).task_queue@, task, other);
            }
        }
        id
    }

    /// Takes on a future and starts the loop: its first action.
    pub fn block_on(&mut self, future: F) -> (action: RunAction<F>)
        requires
            old(self).next_task_id < usize::MAX,
        ensures
            ({
                let id = old(self).next_task_id;
                let queue = old(self).task_queue@.sent(Rc::new(Task { id, future }));
                &&& (final(self).task_queue@, action) == run_step(
                    queue,
                    crate::reactor::any_awaited(old(self).reactor@),
                    RunEvent::Begin,
                )
                &&& final(self).next_task_id == id + 1
            }),
            final(self).task_queue.spec_channel() == old(self).task_queue.spec_channel(),
            final(self).reactor == old(self).reactor,
            old(self).wf() ==> final(self).wf(),
    {
        self.spawn(future);
        self.run(RunEvent::Begin)
    }

    /// One step of the loop.
    pub fn run(&mut self, event: RunEvent) -> (action: RunAction<F>)
        ensures
            (final(self).task_queue@, action) == run_step(
                old(self).task_queue@,
                crate::reactor::any_awaited(old(self).reactor@),
                event,
            ),
            final(self).task_queue.spec_channel() == old(self).task_queue.spec_channel(),
            final(self).next_task_id == old(self).next_task_id,
            final(self).reactor == old(self).reactor,
            old(self).wf() ==> final(self).wf(),
            old(self).wf() ==> (action matches RunAction::Poll(task) ==> task.id
                < final(self).next_task_id),
    {
        proof {
            let queue = self.task_queue@;
            assert(queue.received().received() =~= queue.received());
            if self.wf() {
                lemma_run_keeps_ids(
                    queue,
                    crate::reactor::any_awaited(self.reactor@),
                    event,
                    self.next_task_id,
                );
            }
        }
        match event {
            RunEvent::Polled => {},
            RunEvent::Begin => {
                self.task_queue.receive();
            },
            RunEvent::Reacted(Ok(())) => {
                self.task_queue.receive();
            },
            RunEvent::Reacted(Err(error)) => {
                if error.kind == ErrorKind::Interrupted {
                    return RunAction::Stop;
                }
                self.task_queue.receive();
            },
        }
        if let Some(task) = self.task_queue.pop() {
            return RunAction::Poll(task);
        }
        self.task_queue.receive();
        if self.reactor.waiting_on_events() {
            return RunAction::React;
        }
        match self.task_queue.pop() {
            Some(task) => RunAction::Poll(task),
            None => RunAction::Stop,
        }
    }
}

////////////////////////////////////////////////////////////////////////////////
// Laws
////////////////////////////////////////////////////////////////////////////////

proof fn lemma_popped_all<F>(queue: QueueView<F>)
    requires
        queue.tasks.len() > 0,
    ensures
        queue.all() == queue.popped().all().insert(queue.tasks.last()),
{
    broadcast use vstd::seq_lib::group_to_multiset_ensures;

    let all = queue.tasks + queue.inbox;
    let last = queue.tasks.len() - 1;
    assert(all.remove(last) =~= queue.popped().tasks + queue.inbox);
    assert(all[last] == queue.tasks.last());
    assert(all.contains(all[last]));
    assert(all.to_multiset() =~= all.remove(last).to_multiset().insert(all[last]));
}

/// A task that is sent comes last in the channel. Receiving moves all tasks of the
/// channel, in their order, behind those that were received before. The task that was
/// received last is taken first. All of this leaves the other tasks where they are.
pub proof fn law_tasks_keep_their_order<F>(queue: QueueView<F>, task: Rc<Task<F>>, i: int)
    ensures
        QueueView::<F>::empty().tasks.len() == 0,
        QueueView::<F>::empty().inbox.len() == 0,
        queue.sent(task).tasks == queue.tasks,
        queue.sent(task).inbox.len() == queue.inbox.len() + 1,
        queue.sent(task).inbox.last() == task,
        0 <= i < queue.inbox.len() ==> queue.sent(task).inbox[i] == queue.inbox[i],
        queue.received().inbox.len() == 0,
        queue.received().tasks.len() == queue.tasks.len() + queue.inbox.len(),
        0 <= i < queue.tasks.len() ==> queue.received().tasks[i] == queue.tasks[i],
        0 <= i < queue.inbox.len() ==> queue.received().tasks[queue.tasks.len() + i]
            == queue.inbox[i],
        queue.tasks.len() > 0 ==> {
            &&& queue.popped().tasks.push(queue.tasks.last()) == queue.tasks
            &&& queue.popped().inbox == queue.inbox
        },
        queue.contains(task) <==> queue.tasks.contains(task) || queue.inbox.contains(task),
{
    if queue.tasks.len() > 0 {
        assert(queue.popped().tasks.push(queue.tasks.last()) =~= queue.tasks);
    }
}

/// The tasks of a queue are those that have been received and those that are still in
/// the channel, each as often as it is in either.
pub proof fn law_queue_has_the_tasks_of_both_parts<F>(queue: QueueView<F>)
    ensures
        queue.all() == queue.tasks.to_multiset().add(queue.inbox.to_multiset()),
{
    vstd::seq_lib::lemma_multiset_commutative(queue.tasks, queue.inbox);
}

/// What the loop does next. In the middle of a round, the tasks in the channel do not
/// count; otherwise they are received first. Of the tasks that count, the last one is
/// handed out. If there is none, the rest is received; then the loop waits if a task
/// waits for I/O, and otherwise hands out the last task or ends if there is none. An
/// interrupted wait ends the loop and leaves all tasks where they are.
pub proof fn law_loop_hands_out_the_last_task<F>(
    queue: QueueView<F>,
    awaited: bool,
    event: RunEvent,
)
    ensures
        ({
            let (after, action) = run_step(queue, awaited, event);
            let all = queue.tasks + queue.inbox;
            if event matches RunEvent::Reacted(Err(error)) && error.kind == ErrorKind::Interrupted {
                action is Stop && after == queue
            } else if event is Polled && queue.tasks.len() > 0 {
                &&& action == RunAction::Poll(queue.tasks.last())
                &&& after.tasks.push(queue.tasks.last()) == queue.tasks
                &&& after.inbox == queue.inbox
            } else {
                &&& after.inbox.len() == 0
                &&& if awaited && (event is Polled || all.len() == 0) {
                    action is React && after.tasks == all
                } else if all.len() == 0 {
                    action is Stop && after.tasks == all
                } else {
                    &&& action == RunAction::Poll(all.last())
                    &&& after.tasks.push(all.last()) == all
                }
            }
        }),
{
    let received = queue.received();
    assert(received.received() =~= received);
    let all = queue.tasks + queue.inbox;
    if queue.tasks.len() > 0 {
        assert(queue.tasks.drop_last().push(queue.tasks.last()) =~= queue.tasks);
    }
    if all.len() > 0 {
        assert(all.drop_last().push(all.last()) =~= all);
    }
}

/// The loop does not end while a task waits for I/O: as long as one source has one
/// waker, be it of a task that waits to read or of one that waits to write, only an
/// interrupted wait ends it.
pub proof fn law_waiting_task_keeps_the_loop_going<F, W>(
    sources: Map<u64, crate::reactor::SourceView<W>>,
    key: u64,
    queue: QueueView<F>,
    event: RunEvent,
)
    requires
        sources.contains_key(key),
        sources[key].poll_reader is Some || sources[key].readers.len() > 0
            || sources[key].poll_writer is Some || sources[key].writers.len() > 0,
        event matches RunEvent::Reacted(Err(error)) ==> error.kind != ErrorKind::Interrupted,
    ensures
        run_step(queue, crate::reactor::any_awaited(sources), event).1 !is Stop,
        queue.tasks.len() == 0 && queue.inbox.len() == 0 ==> run_step(
            queue,
            crate::reactor::any_awaited(sources),
            event,
        ).1 is React,
{
    crate::reactor::law_one_waker_is_awaited(sources, key);
    law_loop_hands_out_the_last_task(queue, crate::reactor::any_awaited(sources), event);
}

/// The loop waits for no one: while no source has a waker, it never waits for I/O.
pub proof fn law_loop_does_not_wait_for_nothing<F, W>(
    sources: Map<u64, crate::reactor::SourceView<W>>,
    queue: QueueView<F>,
    event: RunEvent,
)
    requires
        forall|key: u64| #[trigger]
            sources.contains_key(key) ==> {
                &&& sources[key].poll_reader is None && sources[key].poll_writer is None
                &&& sources[key].readers.len() == 0 && sources[key].writers.len() == 0
            },
    ensures
        run_step(queue, crate::reactor::any_awaited(sources), event).1 !is React,
{
    crate::reactor::law_one_waker_is_awaited(sources, 0);
    law_loop_hands_out_the_last_task(queue, crate::reactor::any_awaited(sources), event);
}

/// An executor is in order exactly if every task of its queue, received or not, has a
/// number below the next one.
pub proof fn law_numbers_in_use_are_below_the_next<F, W>(executor: Executor<F, W>)
    ensures
        executor.wf() <==> {
            &&& forall|i: int|
                0 <= i < executor.task_queue@.tasks.len()
                    ==> (#[trigger] executor.task_queue@.tasks[i]).id < executor.next_task_id
            &&& forall|i: int|
                0 <= i < executor.task_queue@.inbox.len()
                    ==> (#[trigger] executor.task_queue@.inbox[i]).id < executor.next_task_id
        },
{
    let queue = executor.task_queue@;
    if executor.wf() {
        assert forall|i: int| 0 <= i < queue.tasks.len() implies (#[trigger] queue.tasks[i]).id
            < executor.next_task_id by {
            assert(queue.contains(queue.tasks[i]));
        }
        assert forall|i: int| 0 <= i < queue.inbox.len() implies (#[trigger] queue.inbox[i]).id
            < executor.next_task_id by {
            assert(queue.contains(queue.inbox[i]));
        }
    }
}

/// No step of the loop loses a task or doubles one: the tasks of the queue, each
/// as often as it was sent, are still there, but for the one that is handed out.
pub proof fn law_run_keeps_tasks<F>(queue: QueueView<F>, awaited: bool, event: RunEvent)
    ensures
        queue.all() == (match run_step(queue, awaited, event) {
            (after, RunAction::Poll(task)) => after.all().insert(task),
            (after, _) => after.all(),
        }),
{
    let received = queue.received();
    assert(received.tasks + received.inbox =~= queue.tasks + queue.inbox);
    assert(received.received() =~= received);
    if queue.tasks.len() > 0 {
        lemma_popped_all(queue);
    }
    if received.tasks.len() > 0 {
        lemma_popped_all(received);
    }
}

/// The loop ends when it is interrupted, and otherwise only once there is no
/// task left in the queue and none waits for I/O.
pub proof fn law_run_stops_when_done<F>(queue: QueueView<F>, awaited: bool, event: RunEvent)
    ensures
        is_interrupted(event) ==> run_step(queue, awaited, event) == (queue, RunAction::<F>::Stop),
        !is_interrupted(event) ==> {
            let (after, action) = run_step(queue, awaited, event);
            &&& action is Stop <==> queue == QueueView::<F>::empty() && !awaited
            &&& action is Stop ==> after == QueueView::<F>::empty()
        },
{
    assert(queue.received().received() =~= queue.received());
    if queue == QueueView::<F>::empty() {
        assert(queue.received() =~= queue);
    }
    if queue.received().tasks.len() == 0 {
        assert(queue.tasks =~= Seq::<Rc<Task<F>>>::empty());
        assert(queue.inbox =~= Seq::<Rc<Task<F>>>::empty());
        assert(queue =~= QueueView::<F>::empty());
    }
}

/// The loop waits for I/O exactly when a task waits for some and every task that
/// had been received has been handed out. At the start of a round this means that
/// no task is ready at all. At its end, the tasks that were woken meanwhile are
/// received before the wait, and stay in the queue.
pub proof fn law_run_waits_for_awaited_io<F>(queue: QueueView<F>, awaited: bool, event: RunEvent)
    ensures
        run_step(queue, awaited, event).1 is React <==> {
            &&& !is_interrupted(event)
            &&& awaited
            &&& queue.tasks.len() == 0
            &&& event is Polled || queue == QueueView::<F>::empty()
        },
        run_step(queue, awaited, event).1 is React ==> run_step(queue, awaited, event).0
            == queue.received(),
{
    assert(queue.received().received() =~= queue.received());
    if queue == QueueView::<F>::empty() {
        assert(queue.received() =~= queue);
    }
    if queue.received().tasks.len() == 0 {
        assert(queue.tasks =~= Seq::<Rc<Task<F>>>::empty());
        assert(queue.inbox =~= Seq::<Rc<Task<F>>>::empty());
        assert(queue =~= QueueView::<F>::empty());
    }
}

/// A task that is ready when the loop starts to wait for I/O is handed out, or
/// waits for its turn, right after the wait: unless the wait is interrupted, the
/// next round starts with all tasks that are ready.
pub proof fn law_ready_task_runs_after_the_wait<F>(
    queue: QueueView<F>,
    awaited: bool,
    task: Rc<Task<F>>,
    outcome: RunEvent,
)
    requires
        queue.contains(task),
        run_step(queue, awaited, RunEvent::Polled).1 is React,
        outcome is Reacted,
        !is_interrupted(outcome),
    ensures
        forall|still_awaited: bool|
            ({
                let (after, action) = #[trigger] run_step(
                    run_step(queue, awaited, RunEvent::Polled).0,
                    still_awaited,
                    outcome,
                );
                action == RunAction::Poll(task) || (action is Poll && after.tasks.contains(task))
            }),
{
    lemma_received_contains(queue, task);
    let received = queue.received();
    assert(received.received() =~= received);
    let i = choose|i: int| 0 <= i < received.tasks.len() && received.tasks[i] == task;
    if i < received.tasks.len() - 1 {
        assert(received.popped().tasks[i] == task);
    }
}

/// A round hands out the tasks that it has received, the last one first; tasks
/// that are woken meanwhile stay in the channel until the round is over.
pub proof fn law_round_is_not_extended<F>(
    queue: QueueView<F>,
    awaited: bool,
    woken: Seq<Rc<Task<F>>>,
)
    requires
        queue.tasks.len() > 0,
    ensures
        ({
            let extended = QueueView { inbox: queue.inbox + woken, ..queue };
            run_step(extended, awaited, RunEvent::Polled) == (
                QueueView { tasks: queue.tasks.drop_last(), inbox: queue.inbox + woken },
                RunAction::Poll(queue.tasks.last()),
            )
        }),
{
}

/// Two queues whose channel numbers come from one counter, fewer than 2^64 numbers
/// apart, do not share a channel. So a sender of one of them is none of the other,
/// which gives the task back.
pub proof fn law_queues_are_apart<F>(
    first: u64,
    i: nat,
    j: nat,
    queue: TaskQueue<F>,
    other: TaskQueue<F>,
    sender: Sender,
)
    requires
        i < j,
        j - i < 0x1_0000_0000_0000_0000int,
        queue.spec_channel() == crate::event::nth_key(first, i),
        other.spec_channel() == crate::event::nth_key(first, j),
    ensures
        queue.spec_channel() != other.spec_channel(),
        sender.spec_channel() == queue.spec_channel() ==> sender.spec_channel()
            != other.spec_channel(),
        sender.spec_channel() == other.spec_channel() ==> sender.spec_channel()
            != queue.spec_channel(),
{
    crate::event::law_keys_are_distinct(first, i, j);
}

/// A new task has a number that no task in the queue has.
pub proof fn law_task_ids_are_distinct<F, W>(executor: Executor<F, W>, task: Rc<Task<F>>)
    requires
        executor.wf(),
        executor.task_queue@.contains(task),
    ensures
        task.id != executor.next_task_id,
{
}

/// A task that is woken is in the queue, and in the next round it is handed out
/// or waits for its turn.
pub proof fn law_woken_task_runs<F>(queue: QueueView<F>, awaited: bool, task: Rc<Task<F>>)
    ensures
        queue.sent(task).contains(task),
        ({
            let (after, action) = run_step(queue.sent(task), awaited, RunEvent::Begin);
            action == RunAction::Poll(task) || (action is Poll && after.tasks.contains(task))
        }),
{
    lemma_sent_contains(queue, task, task);
    let sent = queue.sent(task);
    lemma_received_contains(sent, task);
    let received = sent.received();
    let i = choose|i: int| 0 <= i < received.tasks.len() && received.tasks[i] == task;
    if i < received.tasks.len() - 1 {
        assert(received.popped().tasks[i] == task);
    }
}

/// A queue after all of the given wakers have been used.
pub open spec fn all_woken<F>(queue: QueueView<F>, wakers: Seq<MyWaker<F>>) -> QueueView<F> {
    QueueView {
        inbox: queue.inbox + wakers.map_values(|waker: MyWaker<F>| waker.spec_task()),
        ..queue
    }
}

/// Every task that waits for a source to be readable is back in the queue once
/// the source has been found readable and the tasks that this wakes have been
/// woken. The same holds of those that wait for it to be writable.
pub proof fn law_ready_tasks_run_again<F>(
    sources: Map<u64, crate::reactor::SourceView<MyWaker<F>>>,
    events: Seq<Event>,
    key: u64,
    queue: QueueView<F>,
    waker: MyWaker<F>,
)
    requires
        sources.contains_key(key),
        ({
            ||| crate::reactor::some_readable(events, key)
                && sources[key].waiting_readers().contains(waker)
            ||| crate::reactor::some_writable(events, key)
                && sources[key].waiting_writers().contains(waker)
        }),
    ensures
        all_woken(queue, crate::reactor::dispatch(sources, events).wakers).contains(
            waker.spec_task(),
        ),
{
    crate::reactor::law_react_wakes_the_ready(sources, events, key);
    let wakers = crate::reactor::dispatch(sources, events).wakers;
    assert(wakers.contains(waker));
    let i = choose|i: int| 0 <= i < wakers.len() && wakers[i] == waker;
    let after = all_woken(queue, wakers);
    assert(after.inbox[queue.inbox.len() + i] == waker.spec_task());
}

/// Using one waker after the other adds up to using all of them.
pub proof fn law_waking_adds_up<F>(
    queue: QueueView<F>,
    wakers: Seq<MyWaker<F>>,
    waker: MyWaker<F>,
)
    ensures
        all_woken(queue, Seq::empty()) == queue,
        all_woken(queue, wakers.push(waker)) == all_woken(queue, wakers).sent(waker.spec_task()),
{
    assert(all_woken(queue, Seq::empty()) =~= queue);
    assert(all_woken(queue, wakers.push(waker)) =~= all_woken(queue, wakers).sent(
        waker.spec_task(),
    ));
}

} // verus!
