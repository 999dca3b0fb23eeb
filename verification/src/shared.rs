//! Values that threads share and change atomically, and the records of such changes. Other threads
//! decide what a change finds; that it was made, and to what, its record tells.
use std::sync::Arc;

use atomicmonitor::atomic::Atomic;
use atomicmonitor::AtomMonitor;
use stopwatch::Stopwatch;
use vstd::prelude::*;

use crate::moment::StdDuration;

verus! {

/// `atomicmonitor::AtomMonitor`, a value that threads change atomically and can wait upon.
/// Other threads change what it holds, so nothing is said of its contents.
#[verifier::external_type_specification]
#[verifier::external_body]
#[verifier::reject_recursive_types(T)]
pub struct ExAtomMonitor<T: Copy>(AtomMonitor<T>);

/// `atomic::Atomic`, a value that threads change atomically. Other threads change what it holds, so
/// nothing is said of its contents.
#[verifier::external_type_specification]
#[verifier::external_body]
#[verifier::reject_recursive_types(T)]
pub struct ExAtomic<T: Copy>(Atomic<T>);

/// `stopwatch::Stopwatch`, a timer. What it shows depends on the clock.
#[verifier::external_type_specification]
#[verifier::external_body]
pub struct ExStopwatch(Stopwatch);

/// The record of making a monitor. Only making one makes it.
pub struct MonitorStart {
    value: u64,
    monitor: Ghost<AtomMonitor<u64>>,
}

impl MonitorStart {
    /// Whether it was `monitor` that was made, and held `value` at first.
    pub closed spec fn of(&self, monitor: AtomMonitor<u64>, value: u64) -> bool {
        self.monitor@ == monitor && self.value == value
    }
}

/// `AtomMonitor::new`: a monitor that holds `value` at first, as its record tells.
#[verifier::external_body]
pub(crate) fn new_monitor(value: u64) -> (made: (AtomMonitor<u64>, MonitorStart))
    ensures
        made.1.of(made.0, value),
{
    let monitor = AtomMonitor::new(value);
    let start = MonitorStart { value, monitor: Ghost(monitor) };
    (monitor, start)
}

/// The record of one reading of a monitor, after what the record `R` tells of. Only a reading makes
/// one.
#[verifier::reject_recursive_types(R)]
pub struct MonitorReading<R> {
    value: u64,
    monitor: Ghost<AtomMonitor<u64>>,
    earlier: Ghost<R>,
}

impl<R> MonitorReading<R> {
    /// The monitor that was read.
    pub closed spec fn monitor(&self) -> AtomMonitor<u64> {
        self.monitor@
    }

    /// What the monitor held.
    pub closed spec fn shown(&self) -> u64 {
        self.value
    }

    /// Whether the monitor was read after what `earlier` tells of.
    pub closed spec fn follows(&self, earlier: R) -> bool {
        self.earlier@ == earlier
    }

    /// What the monitor held.
    pub fn value(&self) -> (value: u64)
        ensures
            value == self.shown(),
    {
        self.value
    }
}

/// `AtomMonitor::get`: what the monitor holds at the moment, which other threads decide. What
/// `earlier` tells of has happened by then.
#[verifier::external_body]
fn read_monitor<R>(monitor: &AtomMonitor<u64>, earlier: &R) -> (reading: MonitorReading<R>)
    ensures
        reading.monitor() == *monitor,
        reading.follows(*earlier),
{
    let value = monitor.get();
    MonitorReading { value, monitor: Ghost(*monitor), earlier: Ghost(*earlier) }
}

/// The record of waking the threads that wait upon a monitor, after what the record `R` tells of.
/// Only waking them makes one.
#[verifier::reject_recursive_types(R)]
pub struct Notice<R> {
    monitor: Ghost<AtomMonitor<u64>>,
    earlier: Ghost<R>,
}

impl<R> Notice<R> {
    /// The monitor that the threads waited upon.
    pub closed spec fn monitor(&self) -> AtomMonitor<u64> {
        self.monitor@
    }

    /// Whether the threads were woken after what `earlier` tells of.
    pub closed spec fn follows(&self, earlier: R) -> bool {
        self.earlier@ == earlier
    }
}

/// `AtomMonitor::notify_all`: wakes the threads that wait upon the monitor. What `earlier` tells of
/// has happened by then.
#[verifier::external_body]
fn notify_monitor<R>(monitor: &AtomMonitor<u64>, earlier: &R) -> (notice: Notice<R>)
    ensures
        notice.monitor() == *monitor,
        notice.follows(*earlier),
{
    monitor.notify_all();
    Notice { monitor: Ghost(*monitor), earlier: Ghost(*earlier) }
}

/// A present field that threads share. All of them can read it, wait upon it and wake those that wait.
/// Only the status bits that were tied to the field change it.
pub struct SharedField {
    monitor: Arc<AtomMonitor<u64>>,
}

impl SharedField {
    /// The field.
    pub closed spec fn field(&self) -> AtomMonitor<u64> {
        *self.monitor
    }

    /// The field that `monitor` is a handle to.
    pub fn new(monitor: Arc<AtomMonitor<u64>>) -> (field: Self)
        ensures
            field.field() == *monitor,
    {
        SharedField { monitor }
    }

    /// The field, to wait upon.
    pub fn monitor(&self) -> (monitor: &AtomMonitor<u64>)
        ensures
            *monitor == self.field(),
    {
        &self.monitor
    }

    /// What the field shows, after what `earlier` tells of.
    pub fn read<R>(&self, earlier: &R) -> (reading: MonitorReading<R>)
        ensures
            reading.monitor() == self.field(),
            reading.follows(*earlier),
    {
        read_monitor(&self.monitor, earlier)
    }

    /// Wake the threads that wait upon the field, after what `earlier` tells of.
    pub fn notify<R>(&self, earlier: &R) -> (notice: Notice<R>)
        ensures
            notice.monitor() == self.field(),
            notice.follows(*earlier),
    {
        notify_monitor(&self.monitor, earlier)
    }
}

/// The record of one atomic step of a counter. Only such a step makes one.
pub struct CountStep {
    before: u64,
    up: bool,
    counter: Ghost<AtomMonitor<u64>>,
}

impl CountStep {
    /// The counter that was changed.
    pub closed spec fn counter(&self) -> AtomMonitor<u64> {
        self.counter@
    }

    /// What the counter held just before the step.
    pub closed spec fn before(&self) -> u64 {
        self.before
    }

    /// Whether one was added, or taken off.
    pub closed spec fn up(&self) -> bool {
        self.up
    }
}

/// A handle to a counter, which remembers the steps that were made through it.
pub struct CountHandle {
    monitor: Arc<AtomMonitor<u64>>,
    steps: Ghost<Seq<CountStep>>,
}

impl CountHandle {
    /// The counter.
    pub closed spec fn counter(&self) -> AtomMonitor<u64> {
        *self.monitor
    }

    /// The steps that were made through the handle, the first in front.
    pub closed spec fn steps(&self) -> Seq<CountStep> {
        self.steps@
    }

    /// Whether `next` is this handle after `step` was made through it, and no other.
    pub open spec fn counted(self, next: Self, step: CountStep) -> bool {
        &&& step.counter() == self.counter()
        &&& next.counter() == self.counter()
        &&& next.steps() == self.steps().push(step)
    }

    /// A handle through which no step was made yet.
    pub(crate) fn new(monitor: Arc<AtomMonitor<u64>>) -> (handle: Self)
        ensures
            handle.counter() == *monitor,
            handle.steps() == Seq::<CountStep>::empty(),
    {
        CountHandle { monitor, steps: Ghost(Seq::empty()) }
    }
}

/// `AtomMonitor::mutate` with `Atomic::fetch_add` of one: adds one in one atomic step, and wakes the
/// threads that wait upon the counter. The record says which counter it was; the earlier value in it
/// is whatever the threads that share the counter had left there.
#[verifier::external_body]
pub(crate) fn count_up(handle: &mut CountHandle) -> (step: CountStep)
    ensures
        step.up(),
        old(handle).counted(*final(handle), step),
{
    let monitor = &handle.monitor;
    let before = monitor.mutate(|counter| counter.fetch_add(1, atomicmonitor::Ordering::SeqCst));
    CountStep { before, up: true, counter: Ghost(**monitor) }
}

/// `AtomMonitor::mutate` with `Atomic::fetch_sub` of one: takes one off in one atomic step, and wakes
/// the threads that wait upon the counter. The record says which counter it was; the earlier value
/// in it is whatever the threads that share the counter had left there.
#[verifier::external_body]
pub(crate) fn count_down(handle: &mut CountHandle) -> (step: CountStep)
    ensures
        !step.up(),
        old(handle).counted(*final(handle), step),
{
    let monitor = &handle.monitor;
    let before = monitor.mutate(|counter| counter.fetch_sub(1, atomicmonitor::Ordering::SeqCst));
    CountStep { before, up: false, counter: Ghost(**monitor) }
}

/// `Arc::clone`: another handle to the same value.
#[verifier::external_body]
pub(crate) fn share<T>(value: &Arc<T>) -> (handle: Arc<T>)
    ensures
        handle == *value,
{
    value.clone()
}

/// A counter that threads share. All of them can read it. A step of it takes a handle, and only the
/// owner of the counter gives one out.
pub struct SharedCounter {
    monitor: Arc<AtomMonitor<u64>>,
    handed: Ghost<nat>,
}

impl SharedCounter {
    /// The counter.
    pub closed spec fn counter(&self) -> AtomMonitor<u64> {
        *self.monitor
    }

    /// How many handles were given out.
    pub closed spec fn handed(&self) -> nat {
        self.handed@
    }

    /// A counter that shows `value` at first, as the record tells.
    pub fn new(value: u64) -> (made: (Self, MonitorStart))
        ensures
            made.0.handed() == 0,
            made.1.of(made.0.counter(), value),
    {
        let (monitor, start) = new_monitor(value);
        (SharedCounter { monitor: Arc::new(monitor), handed: Ghost(0) }, start)
    }

    /// What the counter shows at the moment.
    pub fn read(&self) -> (reading: MonitorReading<()>)
        ensures
            reading.monitor() == self.counter(),
    {
        read_monitor(&self.monitor, &())
    }

    /// A handle through which no step was made yet.
    pub fn handle(&mut self) -> (handle: CountHandle)
        ensures
            final(self).counter() == old(self).counter(),
            final(self).handed() == old(self).handed() + 1,
            handle.counter() == old(self).counter(),
            handle.steps() == Seq::<CountStep>::empty(),
    {
        self.handed = Ghost(self.handed@ + 1);
        CountHandle::new(share(&self.monitor))
    }
}

/// The record of making a cell. Only making one makes it.
#[verifier::reject_recursive_types(T)]
pub struct CellStart<T: Copy> {
    value: T,
    cell: Ghost<Atomic<T>>,
}

impl<T: Copy> CellStart<T> {
    /// Whether it was `cell` that was made, and held `value` at first.
    pub closed spec fn of(&self, cell: Atomic<T>, value: T) -> bool {
        self.cell@ == cell && self.value == value
    }
}

/// `Atomic::new`: a cell that holds `value` at first, as its record tells.
#[verifier::external_body]
pub(crate) fn new_cell<T: Copy>(value: T) -> (made: (Atomic<T>, CellStart<T>))
    ensures
        made.1.of(made.0, value),
{
    let cell = Atomic::new(value);
    let start = CellStart { value, cell: Ghost(cell) };
    (cell, start)
}

/// The record of one reading of a cell, after what the record `R` tells of. Only a reading makes one.
#[verifier::reject_recursive_types(T)]
#[verifier::reject_recursive_types(R)]
pub struct CellReading<T: Copy, R> {
    value: T,
    cell: Ghost<Atomic<T>>,
    earlier: Ghost<R>,
}

impl<T: Copy, R> CellReading<T, R> {
    /// The cell that was read.
    pub closed spec fn cell(&self) -> Atomic<T> {
        self.cell@
    }

    /// What the cell held.
    pub closed spec fn shown(&self) -> T {
        self.value
    }

    /// Whether the cell was read after what `earlier` tells of.
    pub closed spec fn follows(&self, earlier: R) -> bool {
        self.earlier@ == earlier
    }

    /// What the cell held.
    pub fn value(&self) -> (value: T)
        ensures
            value == self.shown(),
    {
        self.value
    }
}

/// `Atomic::load`: what the cell holds at the moment, which other threads decide. What `earlier`
/// tells of has happened by then.
#[verifier::external_body]
pub(crate) fn load_cell<T: Copy, R>(cell: &Atomic<T>, earlier: &R) -> (reading: CellReading<T, R>)
    ensures
        reading.cell() == *cell,
        reading.follows(*earlier),
{
    let value = cell.load(atomicmonitor::Ordering::Acquire);
    CellReading { value, cell: Ghost(*cell), earlier: Ghost(*earlier) }
}

/// A roll of tickets that one owner draws from, one number after the other.
pub struct TicketRoll {
    cell: Atomic<usize>,
    next: Ghost<usize>,
}

impl TicketRoll {
    /// The number on the next ticket.
    pub closed spec fn next(&self) -> usize {
        self.next@
    }
}

/// `Atomic::new`: a cell that holds `first`, which is the number on the first ticket.
#[verifier::external_body]
pub(crate) fn new_roll(first: usize) -> (roll: TicketRoll)
    ensures
        roll.next() == first,
{
    TicketRoll { cell: Atomic::new(first), next: Ghost(first) }
}

/// `Atomic::fetch_add` of one, on a cell that only the owner of the roll changes: gives what the cell
/// held, and leaves one more, or zero after the greatest number.
#[verifier::external_body]
pub(crate) fn draw_next(roll: &mut TicketRoll) -> (number: usize)
    ensures
        number == old(roll).next(),
        final(roll).next() == old(roll).next().wrapping_add(1),
{
    roll.cell.fetch_add(1, atomicmonitor::Ordering::SeqCst)
}

/// The record of drawing a ticket. Only a draw makes one.
pub struct Ticket {
    number: usize,
    cell: Ghost<Atomic<usize>>,
}

impl Ticket {
    /// The cell that the ticket was drawn from.
    pub closed spec fn cell(&self) -> Atomic<usize> {
        self.cell@
    }

    /// The number on the ticket.
    pub closed spec fn drawn(&self) -> usize {
        self.number
    }

    /// The number on the ticket.
    pub fn number(&self) -> (number: usize)
        ensures
            number == self.drawn(),
    {
        self.number
    }
}

/// A handle to a cell that tickets are drawn from, which remembers the tickets that were drawn
/// through it.
pub struct TicketHandle {
    cell: Arc<Atomic<usize>>,
    tickets: Ghost<Seq<Ticket>>,
}

impl TicketHandle {
    /// The cell that tickets are drawn from.
    pub closed spec fn cell(&self) -> Atomic<usize> {
        *self.cell
    }

    /// The tickets that were drawn through the handle, the first in front.
    pub closed spec fn tickets(&self) -> Seq<Ticket> {
        self.tickets@
    }

    /// Whether `next` is this handle after `ticket` was drawn through it, and no other.
    pub open spec fn drew(self, next: Self, ticket: Ticket) -> bool {
        &&& ticket.cell() == self.cell()
        &&& next.cell() == self.cell()
        &&& next.tickets() == self.tickets().push(ticket)
    }
}

/// `Atomic::fetch_add` of one: draws a ticket. Which number is on it depends on the threads that draw
/// from the same cell.
#[verifier::external_body]
pub(crate) fn draw_ticket(handle: &mut TicketHandle) -> (ticket: Ticket)
    ensures
        old(handle).drew(*final(handle), ticket),
{
    let number = handle.cell.fetch_add(1, atomicmonitor::Ordering::SeqCst);
    Ticket { number, cell: Ghost(*handle.cell) }
}

/// Where the tickets that threads draw come from. A draw takes a handle, and only the owner of the
/// tickets gives one out.
pub struct Tickets {
    cell: Arc<Atomic<usize>>,
    handed: Ghost<nat>,
}

impl Tickets {
    /// The cell that tickets are drawn from.
    pub closed spec fn cell(&self) -> Atomic<usize> {
        *self.cell
    }

    /// How many handles were given out.
    pub closed spec fn handed(&self) -> nat {
        self.handed@
    }

    /// Tickets of which the first has the number `first`, as the record tells.
    pub fn new(first: usize) -> (made: (Self, CellStart<usize>))
        ensures
            made.0.handed() == 0,
            made.1.of(made.0.cell(), first),
    {
        let (cell, start) = new_cell(first);
        (Tickets { cell: Arc::new(cell), handed: Ghost(0) }, start)
    }

    /// A handle through which no ticket was drawn yet.
    pub fn handle(&mut self) -> (handle: TicketHandle)
        ensures
            final(self).cell() == old(self).cell(),
            final(self).handed() == old(self).handed() + 1,
            handle.cell() == old(self).cell(),
            handle.tickets() == Seq::<Ticket>::empty(),
    {
        self.handed = Ghost(self.handed@ + 1);
        TicketHandle { cell: share(&self.cell), tickets: Ghost(Seq::empty()) }
    }
}

/// The record of starting a timer. Only starting one makes it.
pub struct TimerStart {
    timer: Ghost<Stopwatch>,
}

impl TimerStart {
    /// The timer that was started.
    pub closed spec fn timer(&self) -> Stopwatch {
        self.timer@
    }
}

/// `Stopwatch::start_new`: a timer that runs from now on.
#[verifier::external_body]
pub(crate) fn start_timer() -> (made: (Stopwatch, TimerStart))
    ensures
        made.1.timer() == made.0,
{
    let timer = Stopwatch::start_new();
    let start = TimerStart { timer: Ghost(timer) };
    (timer, start)
}

/// The record of one reading of a timer. Only a reading makes one.
pub struct TimerReading {
    elapsed: StdDuration,
    timer: Ghost<Stopwatch>,
}

impl TimerReading {
    /// The timer that was read.
    pub closed spec fn timer(&self) -> Stopwatch {
        self.timer@
    }

    /// How long the timer had run.
    pub closed spec fn shown(&self) -> StdDuration {
        self.elapsed
    }

    /// How long the timer had run.
    pub fn elapsed(&self) -> (elapsed: StdDuration)
        ensures
            elapsed == self.shown(),
    {
        self.elapsed
    }
}

/// `Stopwatch::elapsed`: how long the timer has run, in seconds and nanoseconds below a second. How
/// long that is, the clock decides.
#[verifier::external_body]
pub(crate) fn read_timer(timer: &Stopwatch) -> (reading: TimerReading)
    ensures
        reading.timer() == *timer,
        reading.shown().wf(),
{
    let elapsed = timer.elapsed();
    let elapsed = StdDuration { secs: elapsed.as_secs(), nanos: elapsed.subsec_nanos() };
    TimerReading { elapsed, timer: Ghost(*timer) }
}

/// The record of one reading of the steady clock. Only a reading makes one.
pub struct ClockReading {
    nanos: u64,
}

impl ClockReading {
    /// The nanoseconds since the epoch of the clock.
    pub closed spec fn shown(&self) -> u64 {
        self.nanos
    }

    /// The nanoseconds since the epoch of the clock.
    pub fn nanos(&self) -> (nanos: u64)
        ensures
            nanos == self.shown(),
    {
        self.nanos
    }
}

/// `time::precise_time_ns`: what the steady clock shows, in nanoseconds since an unspecified epoch.
/// Which moment that is, the clock decides.
#[verifier::external_body]
pub(crate) fn read_clock() -> ClockReading {
    ClockReading { nanos: time::precise_time_ns() }
}

} // verus!
