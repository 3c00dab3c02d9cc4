use agb::executor::channel::{new_with_capacity, Channel, ChannelError, ReadPoll, WritePoll};
use agb::executor::ringbox::RingBufferBox;
use agb::executor::ringbuf::RingBuffer;
use agb::executor::scheduler::{PollOutcome, Scheduler};
use agb::executor::{is_power_of_two, mod_power_of_2};

#[test]
fn check_adding_and_reading() {
    let mut buf: RingBuffer<i32, 16> = RingBuffer::new();
    assert_eq!(buf.try_read(), None);
    assert!(buf.try_insert(1).is_ok());
    assert_eq!(buf.try_read(), Some(1));
    assert!(buf.try_insert(2).is_ok());
    assert!(buf.try_insert(3).is_ok());
    assert_eq!(buf.try_read(), Some(2));
    assert_eq!(buf.try_read(), Some(3));
    assert_eq!(buf.try_read(), None);
    for i in 0..15 {
        assert!(buf.try_insert(i).is_ok());
    }
    assert!(buf.try_insert(15).is_err());
}

#[test]
fn check_adding_and_reading_boxed() {
    let mut buf = RingBufferBox::new(16);
    assert_eq!(buf.try_read(), None);
    assert!(buf.try_insert(1).is_ok());
    assert_eq!(buf.try_read(), Some(1));
    assert!(buf.try_insert(2).is_ok());
    assert!(buf.try_insert(3).is_ok());
    assert_eq!(buf.try_read(), Some(2));
    assert_eq!(buf.try_read(), Some(3));
    assert_eq!(buf.try_read(), None);
    for i in 0..15 {
        assert!(buf.try_insert(i).is_ok());
    }
    assert!(buf.try_insert(15).is_err());
}

#[test]
fn ring_buffer_wraps_round() {
    let mut buf: RingBuffer<u8, 4> = RingBuffer::new();
    for round in 0..10u8 {
        assert!(buf.try_insert(round).is_ok());
        assert!(buf.try_insert(round + 100).is_ok());
        assert_eq!(buf.try_read(), Some(round));
        assert_eq!(buf.try_read(), Some(round + 100));
    }
    assert_eq!(buf.try_read(), None);
}

#[test]
fn powers_of_two() {
    assert!(is_power_of_two(1));
    assert!(is_power_of_two(16));
    assert!(!is_power_of_two(0));
    assert!(!is_power_of_two(12));
    assert_eq!(mod_power_of_2(17, 16), 1);
    assert_eq!(mod_power_of_2(5, 16), 5);
}

#[test]
fn channel_reads_in_order() {
    let mut channel: Channel<u32> = new_with_capacity(4);
    assert!(channel.is_empty());
    for i in 0..4 {
        assert_eq!(channel.write(i), Ok(()));
    }
    assert!(channel.is_full());
    assert_eq!(channel.write(9), Err(ChannelError::Full));
    assert_eq!(channel.read(), Some(0));
    assert_eq!(channel.write_immediate(4), Ok(()));
    for i in 1..5 {
        assert_eq!(channel.read(), Some(i));
    }
    assert_eq!(channel.read(), None);
}

#[test]
fn channel_reports_closed_ends() {
    let mut channel: Channel<u32> = Channel::new_with_capacity(2);
    assert_eq!(channel.read_immediate(2), Ok(None));
    assert_eq!(channel.read_immediate(1), Err(ChannelError::Closed));
    assert_eq!(channel.poll_read(2), ReadPoll::Pending);
    assert_eq!(channel.poll_read(1), ReadPoll::Ready(Err(ChannelError::Closed)));
    assert_eq!(channel.poll_write(1, 5), WritePoll::Ready(Err(ChannelError::Closed)));
    assert_eq!(channel.poll_write(2, 5), WritePoll::Ready(Ok(())));
    assert_eq!(channel.poll_write(2, 6), WritePoll::Ready(Ok(())));
    assert_eq!(channel.poll_write(2, 7), WritePoll::Pending(7));
    assert_eq!(channel.read_immediate(1), Ok(Some(5)));
    assert_eq!(channel.poll_read(1), ReadPoll::Ready(Ok(6)));
    assert_eq!(channel.poll_read(1), ReadPoll::Ready(Err(ChannelError::Closed)));
}

#[test]
fn scheduler_polls_tasks_in_order() {
    let mut scheduler = Scheduler::new();
    let a = scheduler.spawn();
    let b = scheduler.spawn();
    assert_eq!((a, b), (0, 1));
    scheduler.add_waiting();
    assert!(scheduler.take_batch());
    assert_eq!(scheduler.next_in_batch(), Some(a));
    assert!(scheduler.needs_poll(a));
    assert!(!scheduler.finish_poll(a, PollOutcome::Pending));
    assert_eq!(scheduler.next_in_batch(), Some(b));
    assert!(!scheduler.finish_poll(b, PollOutcome::Ready));
    assert_eq!(scheduler.next_in_batch(), None);
    assert!(scheduler.is_done(b));
    assert!(!scheduler.is_done(a));
    assert!(scheduler.try_read_value(b, a));
    assert!(!scheduler.try_read_value(b, a));
    assert!(scheduler.drop_join(b));
}

#[test]
fn scheduler_wakes_waiters_and_vblank_tasks() {
    let mut scheduler = Scheduler::new();
    let waiter = scheduler.spawn();
    let worker = scheduler.spawn();
    scheduler.add_waiting();
    assert!(scheduler.take_batch());
    assert_eq!(scheduler.next_in_batch(), Some(waiter));
    assert!(!scheduler.try_read_value(worker, waiter));
    assert!(!scheduler.finish_poll(waiter, PollOutcome::Pending));
    assert_eq!(scheduler.next_in_batch(), Some(worker));
    scheduler.add_to_vblank_list(worker);
    assert_eq!(scheduler.next_in_batch(), None);
    assert!(!scheduler.take_batch());
    scheduler.process_interrupts(0);
    assert!(!scheduler.take_batch());
    scheduler.process_interrupts(1);
    assert!(scheduler.take_batch());
    assert_eq!(scheduler.next_in_batch(), Some(worker));
    assert!(!scheduler.finish_poll(worker, PollOutcome::Ready));
    assert!(scheduler.take_batch());
    assert_eq!(scheduler.next_in_batch(), Some(waiter));
    assert!(scheduler.try_read_value(worker, waiter));
}

#[test]
fn aborted_tasks_are_done_without_polling() {
    let mut scheduler = Scheduler::new();
    let t = scheduler.spawn();
    scheduler.add_waiting();
    scheduler.abort(t);
    assert!(scheduler.is_done(t));
    assert!(scheduler.take_batch());
    assert_eq!(scheduler.next_in_batch(), Some(t));
    assert!(!scheduler.needs_poll(t));
    assert!(!scheduler.finish_poll(t, PollOutcome::Pending));
    assert!(scheduler.drop_join(t));
}

#[test]
fn waking_a_listed_task_twice_lists_it_once() {
    let mut scheduler = Scheduler::new();
    let t = scheduler.spawn();
    scheduler.add_to_run_list(t);
    scheduler.add_to_run_list(t);
    scheduler.add_to_vblank_list(t);
    assert!(scheduler.take_batch());
    assert_eq!(scheduler.next_in_batch(), Some(t));
    assert_eq!(scheduler.next_in_batch(), None);
}

#[test]
fn scheduler_headers_and_finish_checks() {
    let mut scheduler = Scheduler::new();
    assert_eq!(scheduler.num_tasks(), 0);
    let t = scheduler.spawn();
    assert_eq!(scheduler.num_tasks(), 1);
    assert_eq!(scheduler.header(t).count, 2);
    assert!(!scheduler.header(t).queued);
    assert!(scheduler.can_finish_poll(t, PollOutcome::Pending));
    assert!(!scheduler.can_finish_poll(5, PollOutcome::Ready));
    scheduler.add_waiting();
    assert!(scheduler.header(t).queued);
    assert!(scheduler.drop_join(t) == false);
    assert!(scheduler.can_finish_poll(t, PollOutcome::Ready));
}
