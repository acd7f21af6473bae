//! Units of work that share the page of one execution context, run one at a time.
use vstd::prelude::*;

use std::collections::VecDeque;

use crate::error::JlrsError;
use crate::mailbox::{channel, MailboxReceiver, MailboxSender, MAX_MAILBOX_CAPACITY};
use crate::stack::{
    lemma_same_shape_top, same_shape_below_top, AllocError, FrameIdx, StackPage, MAX_PAGE_SLOTS,
};

verus! {

/// Where the result of a unit of work goes.
pub trait ResultSender<T> {
    /// Delivers `msg`. A receiver that is gone is no error: the result is dropped.
    fn send(self, msg: T);
}

/// A task that returns once.
pub trait AsyncTask {
    type Output;

    /// The number of roots preallocated in the frame given to `register`.
    const REGISTER_SLOTS: usize = 0;

    /// Prepares what the task needs, such as loading code; runs only when a registration is
    /// asked for.
    fn register(page: &mut StackPage, frame: FrameIdx) -> (r: Result<(), JlrsError>)
        requires
            old(page).inv(),
            old(page).frames().len() == 1,
            old(page).is_top(frame),
        ensures
            final(page).inv(),
            final(page).is_top(frame),
            same_shape_below_top(old(page).frames(), final(page).frames()),
            final(page).buffer_len() == old(page).buffer_len(),
    {
        Ok(())
    }

    /// The number of roots preallocated in the frame given to `run`.
    const RUN_SLOTS: usize = 0;

    /// Runs the task in `frame`, the only frame open on `page`. Frames it opens are closed again
    /// before it returns.
    fn run(&mut self, page: &mut StackPage, frame: FrameIdx) -> (r: Result<Self::Output, JlrsError>)
        requires
            old(page).inv(),
            old(page).frames().len() == 1,
            old(page).is_top(frame),
        ensures
            final(page).inv(),
            final(page).is_top(frame),
            same_shape_below_top(old(page).frames(), final(page).frames()),
            final(page).buffer_len() == old(page).buffer_len(),
    ;
}

/// A task that is initialised once and then called many times through its mailbox.
pub trait PersistentTask {
    type State;
    type Input;
    type Output;

    /// The number of roots preallocated in the frame given to `register`.
    const REGISTER_SLOTS: usize = 0;

    /// Prepares what the task needs, such as loading code; runs only when a registration is
    /// asked for.
    fn register(page: &mut StackPage, frame: FrameIdx) -> (r: Result<(), JlrsError>)
        requires
            old(page).inv(),
            old(page).frames().len() == 1,
            old(page).is_top(frame),
        ensures
            final(page).inv(),
            final(page).is_top(frame),
            same_shape_below_top(old(page).frames(), final(page).frames()),
            final(page).buffer_len() == old(page).buffer_len(),
    {
        Ok(())
    }

    /// The number of places in the mailbox; 0 for an unbounded one.
    const CHANNEL_CAPACITY: usize = 0;

    /// The number of roots preallocated in the frame given to `init`, which stays open as
    /// long as the task lives.
    const INIT_SLOTS: usize = 0;

    /// The number of roots preallocated in the frame given to each call of `run`.
    const RUN_SLOTS: usize = 0;

    /// Produces the state that every call works on; it may root values in `frame`.
    fn init(&mut self, page: &mut StackPage, frame: FrameIdx) -> (r: Result<Self::State, JlrsError>)
        requires
            old(page).inv(),
            old(page).frames().len() == 1,
            old(page).is_top(frame),
        ensures
            final(page).inv(),
            final(page).is_top(frame),
            same_shape_below_top(old(page).frames(), final(page).frames()),
            final(page).buffer_len() == old(page).buffer_len(),
    ;

    /// Handles one call.
    fn run(
        &mut self,
        page: &mut StackPage,
        frame: FrameIdx,
        state: &mut Self::State,
        input: Self::Input,
    ) -> (r: Result<Self::Output, JlrsError>)
        requires
            old(page).inv(),
            old(page).is_top(frame),
        ensures
            final(page).inv(),
            final(page).is_top(frame),
            same_shape_below_top(old(page).frames(), final(page).frames()),
            final(page).buffer_len() == old(page).buffer_len(),
    ;

    /// Cleans up once the mailbox is closed and drained.
    fn exit(&mut self, page: &mut StackPage, frame: FrameIdx, state: &mut Self::State)
        requires
            old(page).inv(),
            old(page).is_top(frame),
        ensures
            final(page).inv(),
            final(page).is_top(frame),
            same_shape_below_top(old(page).frames(), final(page).frames()),
            final(page).buffer_len() == old(page).buffer_len(),
    ;
}

/// Makes room for a frame of `slots` roots on a page with no open frame. A page with fewer
/// than `slots + 2` free slots is replaced by one of `slots + 3` slots; that is possible
/// only while no frame is open, which is why it happens between units of work.
pub fn prepare_page(page: &mut StackPage, slots: usize) -> (r: Result<(), JlrsError>)
    requires
        old(page).inv(),
        old(page).frames().len() == 0,
    ensures
        final(page).inv(),
        final(page).frames().len() == 0,
        slots + 3 > MAX_PAGE_SLOTS ==> r == Err::<(), JlrsError>(
            JlrsError::Alloc(AllocError::StackOverflow(slots, MAX_PAGE_SLOTS)),
        ) && final(page).buffer_len() == old(page).buffer_len(),
        slots + 3 <= MAX_PAGE_SLOTS ==> {
            &&& r is Ok
            &&& final(page).free_spec() >= slots + 2
            &&& old(page).free_spec() >= slots + 2 ==> final(page).buffer_len() == old(page).buffer_len()
            &&& old(page).free_spec() < slots + 2 ==> final(page).buffer_len() == slots + 3
        },
{
    proof {
        page.lemma_inv_facts();
    }
    if slots > MAX_PAGE_SLOTS - 3 {
        return Err(JlrsError::Alloc(AllocError::StackOverflow(slots, MAX_PAGE_SLOTS)));
    }
    if page.free_slots() < slots + 2 {
        page.grow(slots + 3);
    }
    proof {
        page.lemma_inv_facts();
    }
    Ok(())
}

/// The size of an idle page of `len` slots, `free` of them free, once it has made room for
/// a frame of `slots` roots.
pub open spec fn grown_len(len: int, free: int, slots: usize) -> int {
    if slots + 3 > MAX_PAGE_SLOTS || free >= slots + 2 {
        len
    } else {
        slots + 3
    }
}

/// The size of an idle `page` once it has made room for a frame of `slots` roots.
pub open spec fn page_len_for(page: StackPage, slots: usize) -> int {
    grown_len(page.buffer_len(), page.free_spec(), slots)
}

/// Opens a frame of `slots` roots on a page with no open frame, growing the page first if
/// it is too small.
pub(crate) fn open_task_frame(page: &mut StackPage, slots: usize) -> (r: Result<FrameIdx, JlrsError>)
    requires
        old(page).inv(),
        old(page).frames().len() == 0,
    ensures
        final(page).inv(),
        r is Ok ==> final(page).frames().len() == 1 && final(page).is_top(r->Ok_0)
            && final(page).frames()[0].roots.len() == slots,
        r is Err ==> final(page).frames().len() == 0,
        r is Err <==> slots + 3 > MAX_PAGE_SLOTS,
        r is Err ==> r == Err::<FrameIdx, JlrsError>(
            JlrsError::Alloc(AllocError::StackOverflow(slots, MAX_PAGE_SLOTS)),
        ),
        final(page).buffer_len() == page_len_for(*old(page), slots),
{
    match prepare_page(page, slots) {
        Err(e) => Err(e),
        Ok(()) => {
            match page.new_static_frame(slots) {
                Ok(frame) => Ok(frame),
                Err(e) => Err(JlrsError::Alloc(e)),
            }
        },
    }
}

/// A unit of work waiting for its turn, with the destination of its result. A pending
/// registration carries no task.
pub struct PendingTask<RC, T> {
    task: Option<T>,
    sender: RC,
}

impl<RC, T> PendingTask<RC, T> {
    pub closed spec fn task_spec(&self) -> Option<T> {
        self.task
    }

    pub closed spec fn sender_spec(&self) -> RC {
        self.sender
    }

    /// The entry carries a task, not a registration.
    pub fn has_task(&self) -> (r: bool)
        ensures
            r == self.task_spec() is Some,
    {
        self.task.is_some()
    }

    /// A task to run, whose result goes to `sender`.
    pub fn new(task: T, sender: RC) -> (r: Self)
        ensures
            r.task_spec() == Some(task),
            r.sender_spec() == sender,
    {
        PendingTask { task: Some(task), sender }
    }

    /// A registration, whose outcome goes to `sender`.
    pub fn new_registration(sender: RC) -> (r: Self)
        ensures
            r.task_spec() == None::<T>,
            r.sender_spec() == sender,
    {
        PendingTask { task: None, sender }
    }

    /// The task and the destination of its result.
    pub fn split(self) -> (r: (T, RC))
        requires
            self.task_spec() is Some,
        ensures
            Some(r.0) == self.task_spec(),
            r.1 == self.sender_spec(),
    {
        match self.task {
            Some(t) => (t, self.sender),
            None => vstd::pervasive::unreached(),
        }
    }

    /// The destination of the outcome.
    pub fn sender(self) -> (r: RC)
        ensures
            r == self.sender_spec(),
    {
        self.sender
    }
}

impl<RC, AT> PendingTask<RC, AT> where AT: AsyncTask, RC: ResultSender<Result<AT::Output, JlrsError>> {
    /// Runs the task in a frame of `RUN_SLOTS` roots on a page with no open frame, growing the
    /// page first if it is too small, and closes the frame. Returns the task's result with
    /// the destination that was given for it.
    pub fn run_task(self, page: &mut StackPage) -> (r: (Result<AT::Output, JlrsError>, RC))
        requires
            old(page).inv(),
            old(page).frames().len() == 0,
            self.task_spec() is Some,
        ensures
            final(page).inv(),
            final(page).frames().len() == 0,
            final(page).buffer_len() == page_len_for(*old(page), AT::RUN_SLOTS),
            r.1 == self.sender_spec(),
            AT::RUN_SLOTS + 3 > MAX_PAGE_SLOTS ==> r.0 == Err::<AT::Output, JlrsError>(
                JlrsError::Alloc(AllocError::StackOverflow(AT::RUN_SLOTS, MAX_PAGE_SLOTS)),
            ),
    {
        let (mut task, sender) = self.split();
        match open_task_frame(page, AT::RUN_SLOTS) {
            Err(e) => (Err(e), sender),
            Ok(frame) => {
                let res = task.run(page, frame);
                page.pop_frame(frame);
                (res, sender)
            },
        }
    }

    /// Runs the task as `run_task` does and delivers its result to its own sender, once.
    pub fn call(self, page: &mut StackPage)
        requires
            old(page).inv(),
            old(page).frames().len() == 0,
            self.task_spec() is Some,
        ensures
            final(page).inv(),
            final(page).frames().len() == 0,
            final(page).buffer_len() == page_len_for(*old(page), AT::RUN_SLOTS),
    {
        let (res, sender) = self.run_task(page);
        sender.send(res);
    }
}

impl<RC, AT> PendingTask<RC, AT> where AT: AsyncTask, RC: ResultSender<Result<(), JlrsError>> {
    /// Runs the registration of a task type in a frame of `REGISTER_SLOTS` roots on a page
    /// with no open frame, and closes the frame. Returns the outcome with its destination.
    pub fn run_registration(self, page: &mut StackPage) -> (r: (Result<(), JlrsError>, RC))
        requires
            old(page).inv(),
            old(page).frames().len() == 0,
        ensures
            final(page).inv(),
            final(page).frames().len() == 0,
            final(page).buffer_len() == page_len_for(*old(page), AT::REGISTER_SLOTS),
            r.1 == self.sender_spec(),
            AT::REGISTER_SLOTS + 3 > MAX_PAGE_SLOTS ==> r.0 == Err::<(), JlrsError>(
                JlrsError::Alloc(AllocError::StackOverflow(AT::REGISTER_SLOTS, MAX_PAGE_SLOTS)),
            ),
    {
        let sender = self.sender();
        match open_task_frame(page, AT::REGISTER_SLOTS) {
            Err(e) => (Err(e), sender),
            Ok(frame) => {
                let res = AT::register(page, frame);
                page.pop_frame(frame);
                (res, sender)
            },
        }
    }

    /// Runs the registration as `run_registration` does and delivers the outcome.
    pub fn register_task(self, page: &mut StackPage)
        requires
            old(page).inv(),
            old(page).frames().len() == 0,
        ensures
            final(page).inv(),
            final(page).frames().len() == 0,
            final(page).buffer_len() == page_len_for(*old(page), AT::REGISTER_SLOTS),
    {
        let (res, sender) = self.run_registration(page);
        sender.send(res);
    }
}

impl<RC, GT> PendingTask<RC, GT> where GT: PersistentTask, RC: ResultSender<Result<(), JlrsError>> {
    /// Runs the registration of a persistent task type in a frame of `REGISTER_SLOTS` roots
    /// on a page with no open frame, and closes the frame. Returns the outcome with its
    /// destination.
    pub fn run_persistent_registration(self, page: &mut StackPage) -> (r: (Result<(), JlrsError>, RC))
        requires
            old(page).inv(),
            old(page).frames().len() == 0,
        ensures
            final(page).inv(),
            final(page).frames().len() == 0,
            final(page).buffer_len() == page_len_for(*old(page), GT::REGISTER_SLOTS),
            r.1 == self.sender_spec(),
            GT::REGISTER_SLOTS + 3 > MAX_PAGE_SLOTS ==> r.0 == Err::<(), JlrsError>(
                JlrsError::Alloc(AllocError::StackOverflow(GT::REGISTER_SLOTS, MAX_PAGE_SLOTS)),
            ),
    {
        let sender = self.sender();
        match open_task_frame(page, GT::REGISTER_SLOTS) {
            Err(e) => (Err(e), sender),
            Ok(frame) => {
                let res = GT::register(page, frame);
                page.pop_frame(frame);
                (res, sender)
            },
        }
    }

    /// Runs the registration as `run_persistent_registration` does and delivers the outcome.
    pub fn register_persistent(self, page: &mut StackPage)
        requires
            old(page).inv(),
            old(page).frames().len() == 0,
        ensures
            final(page).inv(),
            final(page).frames().len() == 0,
            final(page).buffer_len() == page_len_for(*old(page), GT::REGISTER_SLOTS),
    {
        let (res, sender) = self.run_persistent_registration(page);
        sender.send(res);
    }
}

/// A blocking unit of work: a function run to completion in a frame of `slots` roots.
pub trait BlockingFn<T> {
    fn call(self, page: &mut StackPage, frame: FrameIdx) -> (r: Result<T, JlrsError>)
        requires
            old(page).inv(),
            old(page).is_top(frame),
        ensures
            final(page).inv(),
            final(page).is_top(frame),
            same_shape_below_top(old(page).frames(), final(page).frames()),
            final(page).buffer_len() == old(page).buffer_len(),
    ;
}

/// A blocking function with the destination of its result and the size of its frame.
pub struct BlockingTask<F, RC> {
    func: F,
    sender: RC,
    slots: usize,
}

impl<F, RC> BlockingTask<F, RC> {
    pub closed spec fn slots_spec(&self) -> usize {
        self.slots
    }

    pub closed spec fn func_spec(&self) -> F {
        self.func
    }

    pub closed spec fn sender_spec(&self) -> RC {
        self.sender
    }

    pub fn new(func: F, sender: RC, slots: usize) -> (r: Self)
        ensures
            r.func_spec() == func,
            r.sender_spec() == sender,
            r.slots_spec() == slots,
    {
        BlockingTask { func, sender, slots }
    }

    /// Runs the function in a frame of `slots` roots on a page with no open frame, growing
    /// the page first if it is too small, and closes the frame. Returns the function's result
    /// with the destination that was given for it.
    pub fn run<T>(self, page: &mut StackPage) -> (r: (Result<T, JlrsError>, RC))
        where F: BlockingFn<T>,
        requires
            old(page).inv(),
            old(page).frames().len() == 0,
        ensures
            final(page).inv(),
            final(page).frames().len() == 0,
            final(page).buffer_len() == page_len_for(*old(page), self.slots_spec()),
            r.1 == self.sender_spec(),
            self.slots_spec() + 3 > MAX_PAGE_SLOTS ==> r.0 == Err::<T, JlrsError>(
                JlrsError::Alloc(AllocError::StackOverflow(self.slots_spec(), MAX_PAGE_SLOTS)),
            ),
    {
        let BlockingTask { func, sender, slots } = self;
        match open_task_frame(page, slots) {
            Err(e) => (Err(e), sender),
            Ok(frame) => {
                let res = func.call(page, frame);
                page.pop_frame(frame);
                (res, sender)
            },
        }
    }

    /// Runs the function as `run` does and delivers its result to its own sender, once.
    pub fn call<T>(self, page: &mut StackPage)
        where F: BlockingFn<T>, RC: ResultSender<Result<T, JlrsError>>,
        requires
            old(page).inv(),
            old(page).frames().len() == 0,
        ensures
            final(page).inv(),
            final(page).frames().len() == 0,
            final(page).buffer_len() == page_len_for(*old(page), self.slots_spec()),
    {
        let (res, sender) = self.run(page);
        sender.send(res);
    }
}

/// The execution context's page and the tasks waiting for it, oldest first.
pub struct Scheduler<RC, AT> {
    page: StackPage,
    queue: VecDeque<PendingTask<RC, AT>>,
}

impl<RC, AT> Scheduler<RC, AT> where AT: AsyncTask, RC: ResultSender<Result<AT::Output, JlrsError>> {
    pub closed spec fn waiting(&self) -> Seq<PendingTask<RC, AT>> {
        self.queue@
    }

    pub closed spec fn page_spec(&self) -> StackPage {
        self.page
    }

    /// No task is running: the page has no open frame, and every waiting entry has a task.
    pub closed spec fn idle(&self) -> bool {
        &&& self.page.inv()
        &&& self.page.frames().len() == 0
        &&& forall|i: int| 0 <= i < self.queue@.len() ==> (#[trigger] self.queue@[i]).task_spec() is Some
    }

    /// A scheduler on a page of `page_size` slots, with nothing waiting.
    pub fn new(page_size: usize) -> (r: Self)
        requires
            1 <= page_size <= MAX_PAGE_SLOTS,
        ensures
            r.idle(),
            r.waiting().len() == 0,
            r.page_spec().buffer_len() == page_size,
    {
        Scheduler { page: StackPage::new(page_size), queue: VecDeque::new() }
    }

    /// Queues `task`, whose result goes to `sender`, behind those already waiting.
    pub fn submit(&mut self, task: AT, sender: RC)
        requires
            old(self).idle(),
        ensures
            final(self).idle(),
            final(self).waiting().len() == old(self).waiting().len() + 1,
            final(self).waiting().drop_last() == old(self).waiting(),
            final(self).waiting().last().task_spec() == Some(task),
            final(self).waiting().last().sender_spec() == sender,
    {
        let p = PendingTask::new(task, sender);
        self.queue.push_back(p);
        proof {
            assert(self.queue@.drop_last() =~= old(self).queue@);
            assert forall|i: int| 0 <= i < self.queue@.len() implies (#[trigger] self.queue@[i]).task_spec() is Some by {
                if i < old(self).queue@.len() {
                    assert(self.queue@[i] == old(self).queue@[i]);
                }
            }
        }
    }

    /// The number of tasks waiting.
    pub fn pending(&self) -> (r: usize)
        ensures
            r == self.waiting().len(),
    {
        self.queue.len()
    }

    /// The number of slots that open frames occupy: 0 between tasks.
    pub fn occupancy(&self) -> (r: usize)
        requires
            self.idle(),
        ensures
            r == 0,
    {
        proof {
            self.page.lemma_inv_facts();
        }
        self.page.occupancy()
    }

    /// Runs the oldest waiting task to completion, if there is one, and returns its result
    /// with that task's own sender. The task begins with no frame open on the page and leaves
    /// none open.
    pub fn run_oldest(&mut self) -> (r: Option<(Result<AT::Output, JlrsError>, RC)>)
        requires
            old(self).idle(),
        ensures
            final(self).idle(),
            r is Some <==> old(self).waiting().len() > 0,
            r matches Some(x) ==> x.1 == old(self).waiting()[0].sender_spec(),
            r is Some ==> final(self).waiting() == old(self).waiting().drop_first(),
            r is Some ==> final(self).page_spec().buffer_len() == page_len_for(old(self).page_spec(), AT::RUN_SLOTS),
            r is Some && AT::RUN_SLOTS + 3 > MAX_PAGE_SLOTS ==> r->Some_0.0 == Err::<AT::Output, JlrsError>(
                JlrsError::Alloc(AllocError::StackOverflow(AT::RUN_SLOTS, MAX_PAGE_SLOTS)),
            ),
            r is None ==> final(self).waiting() == old(self).waiting() && final(self).page_spec() == old(self).page_spec(),
    {
        match self.queue.pop_front() {
            None => None,
            Some(p) => {
                proof {
                    assert(p == old(self).queue@[0]);
                    assert forall|i: int| 0 <= i < self.queue@.len() implies (#[trigger] self.queue@[i]).task_spec() is Some by {
                        assert(self.queue@[i] == old(self).queue@[i + 1]);
                    }
                }
                Some(p.run_task(&mut self.page))
            },
        }
    }

    /// Runs the oldest waiting task to completion, if there is one, and delivers its result.
    /// It begins with no frame open on the page and leaves none open.
    pub fn run_next(&mut self) -> (r: bool)
        requires
            old(self).idle(),
        ensures
            final(self).idle(),
            r == (old(self).waiting().len() > 0),
            r ==> final(self).waiting() == old(self).waiting().drop_first(),
            r ==> final(self).page_spec().buffer_len() == page_len_for(old(self).page_spec(), AT::RUN_SLOTS),
            !r ==> final(self).waiting() == old(self).waiting(),
            !r ==> final(self).page_spec() == old(self).page_spec(),
    {
        match self.run_oldest() {
            None => false,
            Some((res, sender)) => {
                sender.send(res);
                true
            },
        }
    }
}

/// One call of a persistent task: its input and the destination of its result.
pub struct PersistentMessage<I, R> {
    input: I,
    sender: R,
}

impl<I, R> PersistentMessage<I, R> {
    pub fn new(input: I, sender: R) -> (r: Self)
        ensures
            r.parts() == (input, sender),
    {
        PersistentMessage { input, sender }
    }

    pub closed spec fn parts(&self) -> (I, R) {
        (self.input, self.sender)
    }

    /// The input and the destination of the result.
    pub fn into_parts(self) -> (r: (I, R))
        ensures
            r == self.parts(),
    {
        (self.input, self.sender)
    }
}

/// A handle to a persistent task, to be cloned and shared across threads. The task ends once
/// every handle is gone and its mailbox is drained.
#[verifier::reject_recursive_types(I)]
#[verifier::reject_recursive_types(R)]
pub struct PersistentHandle<I, R> {
    sender: MailboxSender<PersistentMessage<I, R>>,
    capacity: usize,
}

impl<I, R> Clone for PersistentHandle<I, R> {
    fn clone(&self) -> (r: Self)
        ensures
            r.is_unbounded() == self.is_unbounded(),
            r.capacity_spec() == self.capacity_spec(),
    {
        PersistentHandle { sender: self.sender.clone(), capacity: self.capacity }
    }
}

impl<I, R> PersistentHandle<I, R> {
    /// The mailbox has no bound.
    pub closed spec fn is_unbounded(&self) -> bool {
        self.sender is Unbounded
    }

    /// The capacity the mailbox was opened with; 0 for an unbounded one.
    pub closed spec fn capacity_spec(&self) -> usize {
        self.capacity
    }

    /// Opens a mailbox of `capacity` places (unbounded for 0) and a handle to it.
    fn open(capacity: usize) -> (r: (Self, MailboxReceiver<PersistentMessage<I, R>>))
        requires
            capacity <= MAX_MAILBOX_CAPACITY,
        ensures
            r.0.capacity_spec() == capacity,
            r.0.is_unbounded() <==> capacity == 0,
            r.1 is Unbounded <==> capacity == 0,
    {
        let (sender, receiver) = channel(capacity);
        (PersistentHandle { sender, capacity }, receiver)
    }

    /// The capacity the mailbox was opened with; 0 for an unbounded one.
    pub fn capacity(&self) -> (r: usize)
        ensures
            r == self.capacity_spec(),
    {
        self.capacity
    }

    /// Calls the task without waiting: fails with `ChannelFull` when its bounded mailbox has
    /// no free place, and with `ChannelClosed` when the task is gone.
    pub fn try_call(&self, input: I, sender: R) -> (r: Result<(), JlrsError>)
        ensures
            r is Ok || r == Err::<(), JlrsError>(JlrsError::ChannelFull) || r == Err::<(), JlrsError>(
                JlrsError::ChannelClosed,
            ),
            self.is_unbounded() ==> r != Err::<(), JlrsError>(JlrsError::ChannelFull),
    {
        let msg = PersistentMessage::new(input, sender);
        self.sender.try_send(msg).into_result()
    }

    /// The sending side of the mailbox, for callers that wait for a free place.
    pub fn mailbox(&self) -> (r: &MailboxSender<PersistentMessage<I, R>>)
        ensures
            (r is Unbounded) == self.is_unbounded(),
    {
        &self.sender
    }
}

/// A persistent task whose `init` succeeded: the task, its state, and the frame that roots
/// the state, which stays open until the task exits.
pub struct PersistentActor<GT: PersistentTask> {
    task: GT,
    state: GT::State,
    frame: FrameIdx,
}

impl<GT: PersistentTask> PersistentActor<GT> {
    pub closed spec fn frame_spec(&self) -> FrameIdx {
        self.frame
    }

    pub closed spec fn state_spec(&self) -> GT::State {
        self.state
    }

    pub closed spec fn task_spec(&self) -> GT {
        self.task
    }

    /// The frame that roots the task's state.
    pub fn frame(&self) -> (r: FrameIdx)
        ensures
            r == self.frame_spec(),
    {
        self.frame
    }

    /// Goes on from the outcome of `init`, which ran in `frame`, the top frame of `page`.
    /// On failure the frame is closed, no mailbox is opened, and the failure is what the
    /// requester gets. On success a mailbox of `CHANNEL_CAPACITY` places (unbounded for 0)
    /// is opened, the requester gets a handle to it, and the task, with its state and its
    /// frame still open, comes back with the mailbox's receiving side.
    pub fn from_init<R>(
        task: GT,
        init: Result<GT::State, JlrsError>,
        frame: FrameIdx,
        page: &mut StackPage,
    ) -> (r: (
        Result<PersistentHandle<GT::Input, R>, JlrsError>,
        Option<(Self, MailboxReceiver<PersistentMessage<GT::Input, R>>)>,
    ))
        requires
            old(page).inv(),
            old(page).is_top(frame),
            GT::CHANNEL_CAPACITY <= MAX_MAILBOX_CAPACITY,
        ensures
            final(page).inv(),
            final(page).buffer_len() == old(page).buffer_len(),
            r.0 is Ok <==> init is Ok,
            r.1 is Some <==> init is Ok,
            init matches Err(e) ==> r.0 == Err::<PersistentHandle<GT::Input, R>, JlrsError>(e)
                && final(page).frames() == old(page).frames().drop_last(),
            init matches Ok(s) ==> {
                &&& final(page).frames() == old(page).frames()
                &&& r.0->Ok_0.capacity_spec() == GT::CHANNEL_CAPACITY
                &&& (r.0->Ok_0.is_unbounded() <==> GT::CHANNEL_CAPACITY == 0)
                &&& (r.1->Some_0.1 is Unbounded <==> GT::CHANNEL_CAPACITY == 0)
                &&& r.1->Some_0.0.state_spec() == s
                &&& r.1->Some_0.0.task_spec() == task
                &&& r.1->Some_0.0.frame_spec() == frame
            },
    {
        match init {
            Ok(state) => {
                let (handle, receiver) = PersistentHandle::open(GT::CHANNEL_CAPACITY);
                (Ok(handle), Some((PersistentActor { task, state, frame }, receiver)))
            },
            Err(e) => {
                page.pop_frame(frame);
                (Err(e), None)
            },
        }
    }

    /// Starts a persistent task on a page with no open frame. A declared mailbox capacity
    /// above `MAX_MAILBOX_CAPACITY` fails at once with `ChannelCapacity`. Otherwise `init`
    /// runs in a frame of `INIT_SLOTS` roots, the page growing first if it is too small, and
    /// `from_init` goes on from its outcome; what the requester gets goes to the pending
    /// task's sender.
    pub fn start<IRC, R>(pending: PendingTask<IRC, GT>, page: &mut StackPage) -> (r: Option<
        (Self, MailboxReceiver<PersistentMessage<GT::Input, R>>),
    >) where IRC: ResultSender<Result<PersistentHandle<GT::Input, R>, JlrsError>>
        requires
            old(page).inv(),
            old(page).frames().len() == 0,
            pending.task_spec() is Some,
        ensures
            final(page).inv(),
            r is None ==> final(page).frames().len() == 0,
            r matches Some(p) ==> final(page).frames().len() == 1 && final(page).is_top(p.0.frame_spec())
                && (p.1 is Unbounded <==> GT::CHANNEL_CAPACITY == 0),
            GT::CHANNEL_CAPACITY > MAX_MAILBOX_CAPACITY ==> r is None && final(page).buffer_len()
                == old(page).buffer_len(),
            GT::INIT_SLOTS + 3 > MAX_PAGE_SLOTS ==> r is None,
            GT::CHANNEL_CAPACITY <= MAX_MAILBOX_CAPACITY ==> final(page).buffer_len() == page_len_for(
                *old(page),
                GT::INIT_SLOTS,
            ),
    {
        let (mut task, handle_sender) = pending.split();
        if GT::CHANNEL_CAPACITY > MAX_MAILBOX_CAPACITY {
            handle_sender.send(Err(JlrsError::ChannelCapacity(GT::CHANNEL_CAPACITY)));
            return None;
        }
        match open_task_frame(page, GT::INIT_SLOTS) {
            Err(e) => {
                handle_sender.send(Err(e));
                None
            },
            Ok(frame) => {
                let init = task.init(page, frame);
                let (handle, started) = Self::from_init(task, init, frame, page);
                handle_sender.send(handle);
                started
            },
        }
    }

    /// Runs one call with `input` in a frame of `RUN_SLOTS` roots nested in the task's own,
    /// closes that frame, and returns the call's result. A page without room for the nested
    /// frame gives a `StackOverflow` result and is left as it was.
    pub fn run_call(&mut self, page: &mut StackPage, input: GT::Input) -> (r: Result<GT::Output, JlrsError>)
        requires
            old(page).inv(),
            old(page).is_top(old(self).frame_spec()),
        ensures
            final(page).inv(),
            final(self).frame_spec() == old(self).frame_spec(),
            final(page).is_top(final(self).frame_spec()),
            same_shape_below_top(old(page).frames(), final(page).frames()),
            final(page).frames().last().roots.len() == old(page).frames().last().roots.len(),
            final(page).occupancy_spec() == old(page).occupancy_spec(),
            final(page).buffer_len() == old(page).buffer_len(),
            old(page).free_spec() < GT::RUN_SLOTS + 2 ==> {
                &&& r == Err::<GT::Output, JlrsError>(
                    JlrsError::Alloc(
                        AllocError::StackOverflow(GT::RUN_SLOTS.saturating_add(2), old(page).buffer_len() as usize),
                    ),
                )
                &&& final(page).frames() == old(page).frames()
                &&& final(self).state_spec() == old(self).state_spec()
            },
    {
        let ghost old_frames = page.frames();
        match page.new_static_frame(GT::RUN_SLOTS) {
            Err(e) => Err(JlrsError::Alloc(e)),
            Ok(nested) => {
                let ghost mid = page.frames();
                let res = self.task.run(page, nested, &mut self.state, input);
                proof {
                    assert forall|i: int| 0 <= i < mid.len() - 1 implies #[trigger] mid[i].roots.len()
                        == page.frames()[i].roots.len() by {}
                }
                page.pop_frame(nested);
                proof {
                    let fin = page.frames();
                    assert forall|i: int| 0 <= i < old_frames.len() implies #[trigger] old_frames[i].roots.len()
                        == fin[i].roots.len() by {
                        assert(old_frames[i] == mid[i]);
                    }
                    lemma_same_shape_top(old_frames, fin);
                    crate::stack::lemma_headers_agree(old_frames, fin, old_frames.len() as int);
                }
                res
            },
        }
    }

    /// Handles one call from the mailbox as `run_call` does, and delivers its result to the
    /// call's own sender, once.
    pub fn serve<R>(&mut self, page: &mut StackPage, msg: PersistentMessage<GT::Input, R>)
        where R: ResultSender<Result<GT::Output, JlrsError>>,
        requires
            old(page).inv(),
            old(page).is_top(old(self).frame_spec()),
        ensures
            final(page).inv(),
            final(self).frame_spec() == old(self).frame_spec(),
            final(page).is_top(final(self).frame_spec()),
            same_shape_below_top(old(page).frames(), final(page).frames()),
            final(page).occupancy_spec() == old(page).occupancy_spec(),
            final(page).buffer_len() == old(page).buffer_len(),
    {
        let (input, sender) = msg.into_parts();
        let res = self.run_call(page, input);
        sender.send(res);
    }

    /// Runs the task's exit routine with its state once its mailbox is closed, then closes
    /// its frame.
    pub fn exit(self, page: &mut StackPage)
        requires
            old(page).inv(),
            old(page).is_top(self.frame_spec()),
        ensures
            final(page).inv(),
            final(page).frames().len() == old(page).frames().len() - 1,
            final(page).occupancy_spec() == self.frame_spec().0 - 3,
            final(page).buffer_len() == old(page).buffer_len(),
    {
        let PersistentActor { mut task, mut state, frame } = self;
        task.exit(page, frame, &mut state);
        page.pop_frame(frame);
    }
}

} // verus!
