use std::cell::RefCell;
use std::rc::Rc;

use jlrs::error::JlrsError;
use jlrs::mailbox::{channel, MailboxReceiver, MailboxSender, SendOutcome};
use jlrs::stack::{FrameIdx, StackPage};
use jlrs::task::{
    prepare_page, AsyncTask, BlockingFn, BlockingTask, PendingTask, PersistentActor, PersistentHandle,
    PersistentMessage, PersistentTask, ResultSender, Scheduler,
};

/// Collects what it is sent.
struct Sink<T>(Rc<RefCell<Vec<T>>>);

impl<T> ResultSender<T> for Sink<T> {
    fn send(self, msg: T) {
        self.0.borrow_mut().push(msg);
    }
}

fn sink<T>() -> (Sink<T>, Rc<RefCell<Vec<T>>>) {
    let store = Rc::new(RefCell::new(Vec::new()));
    (Sink(store.clone()), store)
}

/// Roots its payload, and records the occupancy it found when it began.
struct Echo {
    payload: usize,
    seen: Rc<RefCell<Vec<usize>>>,
}

impl AsyncTask for Echo {
    type Output = usize;

    const RUN_SLOTS: usize = 1;

    fn run(&mut self, page: &mut StackPage, frame: FrameIdx) -> Result<usize, JlrsError> {
        self.seen.borrow_mut().push(page.occupancy());
        page.set_root(frame, 0, self.payload).map_err(JlrsError::Alloc)?;
        Ok(page.get_root(frame, 0).unwrap() * 10)
    }
}

#[test]
fn two_tasks_run_one_after_the_other_without_cross_talk() {
    let seen = Rc::new(RefCell::new(Vec::new()));
    let mut sched: Scheduler<Sink<Result<usize, JlrsError>>, Echo> = Scheduler::new(8);
    let (sa, ra) = sink();
    let (sb, rb) = sink();
    sched.submit(Echo { payload: 1, seen: seen.clone() }, sa);
    sched.submit(Echo { payload: 2, seen: seen.clone() }, sb);
    assert_eq!(sched.pending(), 2);
    assert!(sched.run_next());
    assert_eq!(sched.occupancy(), 0);
    assert!(sched.run_next());
    assert!(!sched.run_next());
    assert_eq!(sched.pending(), 0);
    let a: Vec<usize> = ra.borrow().iter().map(|r| *r.as_ref().unwrap()).collect();
    let b: Vec<usize> = rb.borrow().iter().map(|r| *r.as_ref().unwrap()).collect();
    assert_eq!(a, vec![10]);
    assert_eq!(b, vec![20]);
    // Each task found only its own frame of 1 root open: the other's was closed.
    assert_eq!(*seen.borrow(), vec![3, 3]);
}

#[test]
fn task_frame_grows_a_small_page() {
    let seen = Rc::new(RefCell::new(Vec::new()));
    let mut page = StackPage::new(2);
    let (s, r) = sink();
    PendingTask::new(Echo { payload: 4, seen: seen.clone() }, s).call(&mut page);
    assert_eq!(page.size(), 4);
    assert_eq!(page.occupancy(), 0);
    assert!(matches!(r.borrow()[0], Ok(40)));
}

#[test]
fn prepare_page_grows_only_when_needed() {
    let mut page = StackPage::new(10);
    assert!(prepare_page(&mut page, 7).is_ok());
    assert_eq!(page.size(), 10);
    assert!(prepare_page(&mut page, 8).is_ok());
    assert_eq!(page.size(), 11);
    assert!(matches!(prepare_page(&mut page, usize::MAX), Err(JlrsError::Alloc(_))));
    assert_eq!(page.size(), 11);
}

#[test]
fn pending_task_parts() {
    let (s, _r) = sink::<u8>();
    let p = PendingTask::new(5u32, s);
    let (t, _s) = p.split();
    assert_eq!(t, 5);
    let (s2, r2) = sink::<u8>();
    let reg: PendingTask<Sink<u8>, u32> = PendingTask::new_registration(s2);
    reg.sender().send(3);
    assert_eq!(*r2.borrow(), vec![3]);
}

struct FillRoots {
    values: Vec<usize>,
}

impl BlockingFn<usize> for FillRoots {
    fn call(self, page: &mut StackPage, frame: FrameIdx) -> Result<usize, JlrsError> {
        let mut sum = 0;
        for (i, v) in self.values.iter().enumerate() {
            page.set_root(frame, i, *v).map_err(JlrsError::Alloc)?;
            sum += page.get_root(frame, i).unwrap();
        }
        Ok(sum)
    }
}

#[test]
fn blocking_task_delivers_its_result() {
    let mut page = StackPage::new(4);
    let (s, r) = sink();
    BlockingTask::new(FillRoots { values: vec![1, 2, 3] }, s, 3).call(&mut page);
    assert_eq!(page.occupancy(), 0);
    assert_eq!(page.size(), 6);
    assert!(matches!(r.borrow()[0], Ok(6)));
}

#[test]
fn blocking_task_failure_is_delivered() {
    let mut page = StackPage::new(16);
    let (s, r) = sink();
    BlockingTask::new(FillRoots { values: vec![1, 2, 3] }, s, 2).call(&mut page);
    assert_eq!(page.occupancy(), 0);
    assert!(matches!(r.borrow()[0], Err(JlrsError::Alloc(_))));
}

/// Doubles its input and counts its calls, with a mailbox of `CAP` places; fails to start
/// when `fail` is set.
struct Doubler<const CAP: usize> {
    fail: bool,
    exited: Rc<RefCell<Option<u64>>>,
}

impl<const CAP: usize> PersistentTask for Doubler<CAP> {
    type State = u64;
    type Input = u64;
    type Output = u64;

    const CHANNEL_CAPACITY: usize = CAP;
    const INIT_SLOTS: usize = 1;
    const RUN_SLOTS: usize = 1;

    fn init(&mut self, page: &mut StackPage, frame: FrameIdx) -> Result<u64, JlrsError> {
        if self.fail {
            return Err(JlrsError::Other("init failed".to_string()));
        }
        page.set_root(frame, 0, 99).map_err(JlrsError::Alloc)?;
        Ok(0)
    }

    fn run(&mut self, page: &mut StackPage, frame: FrameIdx, state: &mut u64, input: u64) -> Result<u64, JlrsError> {
        page.set_root(frame, 0, input as usize).map_err(JlrsError::Alloc)?;
        *state += 1;
        Ok(input * 2)
    }

    fn exit(&mut self, _page: &mut StackPage, _frame: FrameIdx, state: &mut u64) {
        *self.exited.borrow_mut() = Some(*state);
    }
}

type Reply = Sink<Result<u64, JlrsError>>;
type Handle = PersistentHandle<u64, Reply>;

fn start<const CAP: usize>(fail: bool, page: &mut StackPage) -> (
    Option<(PersistentActor<Doubler<CAP>>, MailboxReceiver<PersistentMessage<u64, Reply>>)>,
    Rc<RefCell<Vec<Result<Handle, JlrsError>>>>,
    Rc<RefCell<Option<u64>>>,
) {
    let exited = Rc::new(RefCell::new(None));
    let (hs, hr) = sink();
    let started = PersistentActor::start(
        PendingTask::new(Doubler::<CAP> { fail, exited: exited.clone() }, hs),
        page,
    );
    (started, hr, exited)
}

fn take_message(rx: &mut MailboxReceiver<PersistentMessage<u64, Reply>>) -> PersistentMessage<u64, Reply> {
    match rx {
        MailboxReceiver::Bounded(r) => r.try_recv().unwrap(),
        MailboxReceiver::Unbounded(r) => r.try_recv().unwrap(),
    }
}

#[test]
fn full_mailbox_refuses_until_drained() {
    let mut page = StackPage::new(16);
    let (started, handles, _exited) = start::<1>(false, &mut page);
    let (mut actor, mut rx) = started.unwrap();
    assert_eq!(page.occupancy(), 3);
    assert!(page.is_top_frame(actor.frame()));
    assert_eq!(page.roots(), vec![99]);
    let handle = handles.borrow_mut().pop().unwrap().unwrap();
    assert_eq!(handle.capacity(), 1);
    let (s1, r1) = sink();
    let (s2, r2) = sink();
    assert!(handle.try_call(21, s1).is_ok());
    assert!(matches!(handle.try_call(5, s2), Err(JlrsError::ChannelFull)));
    let msg = take_message(&mut rx);
    actor.serve(&mut page, msg);
    assert!(matches!(r1.borrow()[0], Ok(42)));
    assert_eq!(page.occupancy(), 3);
    let (s3, r3) = sink();
    assert!(handle.try_call(5, s3).is_ok());
    let msg = take_message(&mut rx);
    actor.serve(&mut page, msg);
    assert!(matches!(r3.borrow()[0], Ok(10)));
    assert!(r2.borrow().is_empty());
}

#[test]
fn calls_are_served_in_order_and_exit_sees_state() {
    let mut page = StackPage::new(16);
    let (started, handles, exited) = start::<0>(false, &mut page);
    let (mut actor, mut rx) = started.unwrap();
    let handle = handles.borrow_mut().pop().unwrap().unwrap();
    let other = handle.clone();
    let (s, r) = sink();
    let (s2, r2) = sink();
    let (s3, r3) = sink();
    assert!(handle.try_call(1, s).is_ok());
    assert!(other.try_call(2, s2).is_ok());
    assert!(handle.try_call(3, s3).is_ok());
    for _ in 0..3 {
        let msg = take_message(&mut rx);
        actor.serve(&mut page, msg);
    }
    assert!(matches!(r.borrow()[0], Ok(2)));
    assert!(matches!(r2.borrow()[0], Ok(4)));
    assert!(matches!(r3.borrow()[0], Ok(6)));
    actor.exit(&mut page);
    assert_eq!(*exited.borrow(), Some(3));
    assert_eq!(page.occupancy(), 0);
}

#[test]
fn failed_init_creates_no_mailbox() {
    let mut page = StackPage::new(16);
    let (started, handles, _exited) = start::<1>(true, &mut page);
    assert!(started.is_none());
    assert_eq!(page.occupancy(), 0);
    let got = handles.borrow_mut().pop().unwrap();
    assert!(matches!(got, Err(JlrsError::Other(ref m)) if m == "init failed"));
    assert!(handles.borrow().is_empty());
}

#[test]
fn call_after_actor_is_gone_is_closed() {
    let mut page = StackPage::new(16);
    let (started, handles, _exited) = start::<2>(false, &mut page);
    let (actor, rx) = started.unwrap();
    let handle = handles.borrow_mut().pop().unwrap().unwrap();
    drop(rx);
    actor.exit(&mut page);
    let (s, _r) = sink();
    assert!(matches!(handle.try_call(1, s), Err(JlrsError::ChannelClosed)));
}

#[test]
fn serve_without_room_reports_overflow() {
    let mut page = StackPage::new(5);
    let (started, handles, _exited) = start::<0>(false, &mut page);
    let (mut actor, mut rx) = started.unwrap();
    let handle = handles.borrow_mut().pop().unwrap().unwrap();
    let (s, r) = sink();
    assert!(handle.try_call(1, s).is_ok());
    let msg = take_message(&mut rx);
    actor.serve(&mut page, msg);
    assert!(matches!(r.borrow()[0], Err(JlrsError::Alloc(_))));
    assert_eq!(page.occupancy(), 3);
}

#[test]
fn channel_capacity_zero_is_unbounded() {
    let (s, _r) = channel::<u8>(0);
    assert!(matches!(s, MailboxSender::Unbounded(_)));
    for i in 0..100u8 {
        assert!(matches!(s.try_send(i), SendOutcome::Sent));
    }
    let (b, _rb) = channel::<u8>(2);
    assert!(matches!(b, MailboxSender::Bounded(_)));
    assert!(matches!(b.try_send(1), SendOutcome::Sent));
    assert!(matches!(b.try_send(2), SendOutcome::Sent));
    assert!(matches!(b.try_send(3), SendOutcome::Full(3)));
}

#[test]
fn send_outcomes_map_to_results() {
    assert!(SendOutcome::<u8>::Sent.into_result().is_ok());
    assert!(matches!(SendOutcome::Full(1u8).into_result(), Err(JlrsError::ChannelFull)));
    assert!(matches!(SendOutcome::Closed(1u8).into_result(), Err(JlrsError::ChannelClosed)));
}

#[test]
fn closed_mailbox_hands_message_back() {
    let (s, r) = channel::<u8>(1);
    drop(r);
    assert!(matches!(s.try_send(9), SendOutcome::Closed(9)));
    let (u, ur) = channel::<u8>(0);
    drop(ur);
    assert!(matches!(u.try_send(8), SendOutcome::Closed(8)));
}

#[test]
fn registration_runs_in_its_own_frame() {
    let mut page = StackPage::new(4);
    let (s, r) = sink::<Result<(), JlrsError>>();
    PendingTask::<_, Echo>::new_registration(s).register_task(&mut page);
    assert!(matches!(r.borrow()[0], Ok(())));
    assert_eq!(page.occupancy(), 0);

    let (s2, r2) = sink::<Result<(), JlrsError>>();
    PendingTask::<_, Loader>::new_registration(s2).register_persistent(&mut page);
    assert!(matches!(r2.borrow()[0], Err(JlrsError::Other(ref m)) if m == "5 roots"));
    assert_eq!(page.size(), 8);
    assert_eq!(page.occupancy(), 0);
}

/// A persistent task whose registration needs a frame of 5 roots.
struct Loader;

impl PersistentTask for Loader {
    type State = ();
    type Input = ();
    type Output = ();

    const REGISTER_SLOTS: usize = 5;

    fn register(page: &mut StackPage, frame: FrameIdx) -> Result<(), JlrsError> {
        page.set_root(frame, 4, 1).map_err(JlrsError::Alloc)?;
        Err(JlrsError::Other(format!("{} roots", page.occupancy() - 2)))
    }

    fn init(&mut self, _page: &mut StackPage, _frame: FrameIdx) -> Result<(), JlrsError> {
        Ok(())
    }

    fn run(&mut self, _page: &mut StackPage, _frame: FrameIdx, _state: &mut (), _input: ()) -> Result<(), JlrsError> {
        Ok(())
    }

    fn exit(&mut self, _page: &mut StackPage, _frame: FrameIdx, _state: &mut ()) {}
}

#[test]
fn oversized_mailbox_is_refused_before_init() {
    let mut page = StackPage::new(16);
    let (started, handles, _exited) = start::<{ usize::MAX }>(false, &mut page);
    assert!(started.is_none());
    assert_eq!(page.occupancy(), 0);
    assert_eq!(page.size(), 16);
    assert!(matches!(handles.borrow()[0], Err(JlrsError::ChannelCapacity(n)) if n == usize::MAX));
}

#[test]
fn run_task_returns_result_with_its_own_sender() {
    let seen = Rc::new(RefCell::new(Vec::new()));
    let mut page = StackPage::new(8);
    let (sa, ra) = sink();
    let (sb, rb) = sink();
    let (res_a, back_a) = PendingTask::new(Echo { payload: 3, seen: seen.clone() }, sa).run_task(&mut page);
    let (res_b, back_b) = PendingTask::new(Echo { payload: 4, seen: seen.clone() }, sb).run_task(&mut page);
    assert_eq!(res_a.unwrap(), 30);
    assert_eq!(res_b.unwrap(), 40);
    back_b.send(Ok(0));
    back_a.send(Ok(1));
    assert!(matches!(ra.borrow()[0], Ok(1)));
    assert!(matches!(rb.borrow()[0], Ok(0)));
}

#[test]
fn run_call_without_room_leaves_page_as_it_was() {
    let mut page = StackPage::new(5);
    let (started, _handles, _exited) = start::<0>(false, &mut page);
    let (mut actor, _rx) = started.unwrap();
    let before = page.roots();
    assert!(matches!(actor.run_call(&mut page, 7), Err(JlrsError::Alloc(_))));
    assert_eq!(page.roots(), before);
    assert_eq!(page.occupancy(), 3);
}

#[test]
fn scheduler_hands_each_result_to_its_own_sender() {
    let seen = Rc::new(RefCell::new(Vec::new()));
    let mut sched: Scheduler<Sink<Result<usize, JlrsError>>, Echo> = Scheduler::new(8);
    let (sa, ra) = sink();
    let (sb, rb) = sink();
    sched.submit(Echo { payload: 5, seen: seen.clone() }, sa);
    sched.submit(Echo { payload: 6, seen: seen.clone() }, sb);
    let (res_a, to_a) = sched.run_oldest().unwrap();
    assert_eq!(*seen.borrow(), vec![3]);
    let (res_b, to_b) = sched.run_oldest().unwrap();
    assert!(sched.run_oldest().is_none());
    to_a.send(res_a);
    to_b.send(res_b);
    assert!(matches!(ra.borrow()[..], [Ok(50)]));
    assert!(matches!(rb.borrow()[..], [Ok(60)]));
}
