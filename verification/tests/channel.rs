use std::sync::Arc;

use atomicmonitor::AtomMonitor;

use smartpool::channel::{
    BitAssigner, Channel, Exec, ExecParam, MTreeChannel, MultiChannel, NotEnoughBits,
    Search, ShortestDeadlineFirst, Turns, VecDequeChannel,
};
use smartpool::moment::{Duration, Moment};
use smartpool::status::{StatusBit, StatusBitIndexTooBig};
use smartpool::task::RunningTask;

fn field() -> Arc<AtomMonitor<u64>> {
    Arc::new(AtomMonitor::new(0))
}

fn at(nanos: i128) -> Moment {
    Moment { nanos }
}

fn spawn(task: Option<RunningTask<u32>>) -> Option<u32> {
    task.map(|task| task.spawn)
}

#[test]
fn a_new_task_is_not_counted() {
    let task = RunningTask::new("future");
    assert_eq!(task.spawn, "future");
    assert!(!task.close_counted);
}

#[test]
fn a_status_bit_changes_its_bit_alone() {
    let field = field();
    let mut low = StatusBit::new();
    let mut high = StatusBit::new();
    // nothing happens before it is active
    low.set(true);
    assert_eq!(field.get(), 0);
    assert_eq!(low.activate(field.clone(), 3), Ok(()));
    assert_eq!(high.activate(field.clone(), 63), Ok(()));
    assert_eq!(field.get(), 0);
    low.set(true);
    assert_eq!(field.get(), 0b1000);
    high.set(true);
    assert_eq!(field.get(), 0b1000 | 1 << 63);
    low.set(false);
    assert_eq!(field.get(), 1 << 63);
    low.set(false);
    assert_eq!(field.get(), 1 << 63);
    high.set(false);
    assert_eq!(field.get(), 0);
}

#[test]
fn a_status_bit_is_one_of_64() {
    let field = field();
    let mut bit = StatusBit::new();
    assert_eq!(bit.activate(field.clone(), 64), Err(StatusBitIndexTooBig(64)));
    assert_eq!(bit.activate(field.clone(), usize::MAX), Err(StatusBitIndexTooBig(usize::MAX)));
    // it is still not active
    bit.set(true);
    assert_eq!(field.get(), 0);
    assert_eq!(bit.activate(field.clone(), 0), Ok(()));
    // a refused index leaves it where it was
    assert_eq!(bit.activate(field.clone(), 100), Err(StatusBitIndexTooBig(100)));
    bit.set(true);
    assert_eq!(field.get(), 1);
}

#[test]
fn an_assigner_dispatches_64_bits() {
    let field = field();
    let mut assigner_index = 0;
    let mut assigner = BitAssigner::new(&field, &mut assigner_index);
    let mut bits = Vec::new();
    for index in 0..64 {
        assert_eq!(assigner.current_index(), index);
        let mut bit = StatusBit::new();
        assert_eq!(assigner.assign(&mut bit), Ok(()));
        bits.push(bit);
    }
    assert_eq!(assigner.current_index(), 64);
    let mut bit = StatusBit::new();
    assert_eq!(assigner.assign(&mut bit), Err(NotEnoughBits));
    assert_eq!(assigner.current_index(), 64);
    bit.set(true);
    assert_eq!(field.get(), 0);
    // each bit is another one
    for (index, bit) in bits.iter_mut().enumerate() {
        bit.set(true);
        assert_eq!(field.get(), 1 << index);
        bit.set(false);
    }
}

#[test]
fn an_assigner_goes_on_where_it_is_told() {
    let field = field();
    let mut assigner_index = 62;
    let mut assigner = BitAssigner::new(&field, &mut assigner_index);
    let mut channel = MultiChannel::new(3, VecDequeChannel::<u32>::new);
    channel.exec(1);
    channel.exec(2);
    channel.exec(3);
    assert_eq!(channel.assign_bits(&mut assigner), Err(NotEnoughBits));
    assert_eq!(assigner.current_index(), 64);
    // the inner channels before the one that was refused keep their bits, and all keep their tasks
    assert_eq!(field.get(), 0b11 << 62);
    for task in 1..4 {
        assert_eq!(spawn(channel.poll()), Some(task));
    }
    assert_eq!(field.get(), 0);
    let mut late_index = 100;
    let mut late = BitAssigner::new(&field, &mut late_index);
    let mut bit = StatusBit::new();
    assert_eq!(late.assign(&mut bit), Err(NotEnoughBits));
    assert_eq!(late.current_index(), 100);
}

#[test]
fn a_fifo_channel_hands_tasks_out_in_order() {
    let mut channel = VecDequeChannel::new();
    assert_eq!(spawn(channel.poll()), None);
    channel.exec(1);
    channel.submit(RunningTask { spawn: 2, close_counted: true });
    channel.exec(3);
    assert_eq!(spawn(channel.poll()), Some(1));
    let second = channel.poll().unwrap();
    assert_eq!(second.spawn, 2);
    assert!(second.close_counted);
    channel.exec(4);
    assert_eq!(spawn(channel.poll()), Some(3));
    assert_eq!(spawn(channel.poll()), Some(4));
    assert_eq!(spawn(channel.poll()), None);
    assert_eq!(spawn(channel.poll()), None);
}

#[test]
fn the_field_shows_whether_a_fifo_channel_has_tasks() {
    let field = field();
    let mut channel = VecDequeChannel::new();
    channel.exec(1);
    assert_eq!(field.get(), 0);
    // a channel that has a task already shows it when it gets its bit
    let mut assigner_index = 5;
    let mut assigner = BitAssigner::new(&field, &mut assigner_index);
    assert_eq!(channel.assign_bits(&mut assigner), Ok(()));
    assert_eq!(assigner.current_index(), 6);
    assert_eq!(field.get(), 1 << 5);
    channel.exec(2);
    assert_eq!(field.get(), 1 << 5);
    assert_eq!(spawn(channel.poll()), Some(1));
    assert_eq!(field.get(), 1 << 5);
    assert_eq!(spawn(channel.poll()), Some(2));
    assert_eq!(field.get(), 0);
    assert_eq!(spawn(channel.poll()), None);
    assert_eq!(field.get(), 0);
    channel.exec(3);
    assert_eq!(field.get(), 1 << 5);
}

#[test]
fn the_field_shows_the_latest_write_of_each_bit() {
    let field = field();
    let mut assigner_index = 0;
    let mut assigner = BitAssigner::new(&field, &mut assigner_index);
    let mut first = VecDequeChannel::new();
    let mut second = ShortestDeadlineFirst::new();
    let mut third = VecDequeChannel::new();
    assert_eq!(first.assign_bits(&mut assigner), Ok(()));
    assert_eq!(second.assign_bits(&mut assigner), Ok(()));
    assert_eq!(third.assign_bits(&mut assigner), Ok(()));
    assert_eq!(field.get(), 0b000);
    third.exec(1);
    first.exec(2);
    assert_eq!(field.get(), 0b101);
    second.exec(3, at(9));
    assert_eq!(field.get(), 0b111);
    assert_eq!(spawn(first.poll()), Some(2));
    assert_eq!(field.get(), 0b110);
    assert_eq!(spawn(third.poll()), Some(1));
    assert_eq!(field.get(), 0b010);
    assert_eq!(spawn(second.poll()), Some(3));
    assert_eq!(field.get(), 0b000);
}

#[test]
fn submissions_to_a_multi_channel_take_turns() {
    let field = field();
    let mut channel = MultiChannel::new(3, VecDequeChannel::new);
    let mut assigner_index = 0;
    let mut assigner = BitAssigner::new(&field, &mut assigner_index);
    assert_eq!(channel.assign_bits(&mut assigner), Ok(()));
    assert_eq!(assigner.current_index(), 3);
    channel.exec(1);
    assert_eq!(field.get(), 0b001);
    channel.exec(2);
    assert_eq!(field.get(), 0b011);
    channel.exec(3);
    assert_eq!(field.get(), 0b111);
    // the fourth goes to the first inner channel again, so the poll of the second comes next
    channel.exec(4);
    assert_eq!(field.get(), 0b111);
    assert_eq!(spawn(channel.poll()), Some(2));
    assert_eq!(field.get(), 0b101);
    assert_eq!(spawn(channel.poll()), Some(3));
    assert_eq!(field.get(), 0b001);
    assert_eq!(spawn(channel.poll()), Some(1));
    assert_eq!(field.get(), 0b001);
    // the second and the third are empty, so the poll goes on to the first
    assert_eq!(spawn(channel.poll()), Some(4));
    assert_eq!(field.get(), 0);
    assert_eq!(spawn(channel.poll()), None);
}

#[test]
fn a_multi_channel_finds_a_task_wherever_it_is() {
    for place in 0..5 {
        let mut inner = Vec::new();
        for i in 0..5 {
            let mut channel = VecDequeChannel::new();
            if i == place {
                channel.exec(i);
            }
            inner.push(channel);
        }
        let mut channel = MultiChannel::from_vec(inner);
        assert_eq!(spawn(channel.poll()), Some(place));
        assert_eq!(spawn(channel.poll()), None);
    }
}

#[test]
fn a_multi_channel_of_deadline_channels_finds_a_task_wherever_it_is() {
    for place in 0..4 {
        let mut inner = Vec::new();
        for i in 0..4 {
            let mut channel = ShortestDeadlineFirst::new();
            if i == place {
                channel.exec(i, at(i as i128));
            }
            inner.push(channel);
        }
        let mut channel = MultiChannel::from_vec(inner);
        assert_eq!(spawn(channel.poll()), Some(place));
        assert_eq!(spawn(channel.poll()), None);
    }
}

#[test]
fn a_multi_channel_without_inner_channels_has_no_task() {
    let mut channel = MultiChannel::new(0, VecDequeChannel::<u32>::new);
    assert_eq!(spawn(channel.poll()), None);
    let field = field();
    let mut assigner_index = 64;
    let mut assigner = BitAssigner::new(&field, &mut assigner_index);
    assert_eq!(channel.assign_bits(&mut assigner), Ok(()));
    assert_eq!(assigner.current_index(), 64);
}

#[test]
fn multi_channels_nest() {
    let field = field();
    let mut channel =
        MultiChannel::new(2, || MultiChannel::new(2, VecDequeChannel::new));
    let mut assigner_index = 10;
    let mut assigner = BitAssigner::new(&field, &mut assigner_index);
    assert_eq!(channel.assign_bits(&mut assigner), Ok(()));
    assert_eq!(assigner.current_index(), 14);
    channel.exec(1);
    assert_eq!(field.get(), 0b0001 << 10);
    channel.exec(2);
    assert_eq!(field.get(), 0b0101 << 10);
    channel.exec(3);
    assert_eq!(field.get(), 0b0111 << 10);
    channel.exec(4);
    assert_eq!(field.get(), 0b1111 << 10);
}

#[test]
fn the_earliest_deadline_is_first() {
    let mut channel = ShortestDeadlineFirst::new();
    assert_eq!(spawn(channel.poll()), None);
    channel.exec(1, at(30));
    channel.exec(2, at(-10));
    channel.exec(3, at(20));
    assert_eq!(spawn(channel.poll()), Some(2));
    // the most urgent leaves first, though it comes last
    channel.exec(4, at(5));
    assert_eq!(spawn(channel.poll()), Some(4));
    assert_eq!(spawn(channel.poll()), Some(3));
    assert_eq!(spawn(channel.poll()), Some(1));
    assert_eq!(spawn(channel.poll()), None);
}

#[test]
fn tasks_with_the_same_deadline_leave_in_order() {
    let mut channel = ShortestDeadlineFirst::new();
    channel.exec(1, at(7));
    channel.exec(2, at(7));
    channel.submit(RunningTask { spawn: 3, close_counted: true }, at(7));
    assert_eq!(spawn(channel.poll()), Some(1));
    channel.exec(4, at(7));
    assert_eq!(spawn(channel.poll()), Some(2));
    let third = channel.poll().unwrap();
    assert_eq!(third.spawn, 3);
    assert!(third.close_counted);
    assert_eq!(spawn(channel.poll()), Some(4));
    assert_eq!(spawn(channel.poll()), None);
}

#[test]
fn the_field_shows_whether_a_deadline_channel_has_tasks() {
    let field = field();
    let mut channel = ShortestDeadlineFirst::new();
    channel.exec(1, at(1));
    let mut assigner_index = 0;
    let mut assigner = BitAssigner::new(&field, &mut assigner_index);
    assert_eq!(channel.assign_bits(&mut assigner), Ok(()));
    assert_eq!(field.get(), 1);
    channel.exec(2, at(1));
    channel.exec(3, at(2));
    for left in (0..3).rev() {
        assert!(channel.poll().is_some());
        assert_eq!(field.get(), if left > 0 { 1 } else { 0 });
    }
    let mut full_index = 64;
    let mut full = BitAssigner::new(&field, &mut full_index);
    channel.exec(4, at(3));
    assert_eq!(channel.assign_bits(&mut full), Err(NotEnoughBits));
    assert_eq!(field.get(), 1);
    assert_eq!(spawn(channel.poll()), Some(4));
    assert_eq!(field.get(), 0);
}

#[test]
fn a_deadline_can_be_told_by_a_delay() {
    let mut channel = ShortestDeadlineFirst::new();
    let second = Duration::from_nanos(1_000_000_000).unwrap();
    channel.exec_after_moment(1, at(0), second);
    channel.exec_after_moment(2, at(10), Duration::from_nanos(-20).unwrap());
    channel.exec(3, at(999_999_999));
    assert_eq!(spawn(channel.poll()), Some(2));
    assert_eq!(spawn(channel.poll()), Some(3));
    assert_eq!(spawn(channel.poll()), Some(1));

    // a task is overdue when its deadline has passed
    channel.exec(1, at(7));
    channel.exec(2, at(5));
    assert_eq!(channel.overdue(at(5)), None);
    assert_eq!(channel.overdue(at(6)), Some(at(5)));
    assert_eq!(spawn(channel.poll()), Some(2));
    assert_eq!(channel.overdue(at(6)), None);
    assert_eq!(spawn(channel.poll()), Some(1));
    assert_eq!(channel.overdue(at(9)), None);

    // a delay from the present comes after what is due now, and before what is due later
    let minute = Duration::from_nanos(60_000_000_000).unwrap();
    let hour = Duration::from_nanos(3_600_000_000_000).unwrap();
    channel.exec_after(1, minute);
    channel.exec(2, Moment::now().0.after(hour));
    channel.exec(3, Moment::now().0);
    assert_eq!(spawn(channel.poll()), Some(3));
    assert_eq!(spawn(channel.poll()), Some(1));
    assert_eq!(spawn(channel.poll()), Some(2));
}

#[test]
fn a_tree_channel_shows_what_its_tree_answers() {
    let field = field();
    let mut channel = MTreeChannel::new();
    let mut assigner_index = 2;
    let mut assigner = BitAssigner::new(&field, &mut assigner_index);
    assert_eq!(channel.assign_bits(&mut assigner, false), Ok(()));
    assert_eq!(field.get(), 0b100);
    assert_eq!(channel.poll(Some("near"), true), Some("near"));
    assert_eq!(field.get(), 0);
    assert_eq!(channel.poll(None::<&str>, true), None);
    assert_eq!(field.get(), 0);
    channel.submit();
    assert_eq!(field.get(), 0b100);
    assert_eq!(channel.poll(Some("far"), false), Some("far"));
    assert_eq!(field.get(), 0b100);

    let mut other = MTreeChannel::new();
    assert_eq!(other.assign_bits(&mut assigner, true), Ok(()));
    assert_eq!(field.get(), 0b100);
    let mut full_index = 64;
    let mut full = BitAssigner::new(&field, &mut full_index);
    assert_eq!(other.assign_bits(&mut full, false), Err(NotEnoughBits));
}

/// A channel of another kind, which hands out the numbers below a limit and maintains one bit.
struct Numbers {
    next: u32,
    limit: u32,
    bit: StatusBit,
}

impl Channel for Numbers {
    type Spawn = u32;

    fn assign_bits(&mut self, assigner: &mut BitAssigner) -> Result<(), NotEnoughBits> {
        assigner.assign(&mut self.bit)?;
        self.bit.set(self.next < self.limit);
        Ok(())
    }

    fn poll(&mut self) -> Option<RunningTask<u32>> {
        if self.next == self.limit {
            return None;
        }
        self.next += 1;
        self.bit.set(self.next < self.limit);
        Some(RunningTask::new(self.next - 1))
    }
}

#[test]
fn other_channels_can_be_implemented() {
    let field = field();
    let mut inner = Vec::new();
    for i in 0..3 {
        inner.push(Numbers { next: 10 * i, limit: 10 * i + i, bit: StatusBit::new() });
    }
    let mut channel = MultiChannel::from_vec(inner);
    let mut assigner_index = 0;
    let mut assigner = BitAssigner::new(&field, &mut assigner_index);
    assert_eq!(channel.assign_bits(&mut assigner), Ok(()));
    assert_eq!(field.get(), 0b110);
    assert_eq!(spawn(channel.poll()), Some(10));
    assert_eq!(field.get(), 0b100);
    assert_eq!(spawn(channel.poll()), Some(20));
    assert_eq!(spawn(channel.poll()), Some(21));
    assert_eq!(field.get(), 0);
    assert_eq!(spawn(channel.poll()), None);
}

/// A search polls each channel once, whatever others draw before it, and goes on from whose turn it is.
#[test]
fn a_search_polls_as_often_as_there_are_channels() {
    let mut turns = Turns::new();
    assert_eq!(turns.draw(3), 0);
    let mut search = Search::new(3);
    assert_eq!(search.next(&mut turns), Some(1));
    assert_eq!(search.next(&mut turns), Some(2));
    assert_eq!(search.next(&mut turns), Some(0));
    assert_eq!(search.next(&mut turns), None);
    assert_eq!(turns.draw(3), 1);
    assert_eq!(Search::new(0).next(&mut turns), None);
}
