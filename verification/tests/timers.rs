use smos::clock::{TimerAction, Timeouts, MAX_TIMEOUTS};

fn fresh() -> Timeouts {
    let mut t = Timeouts::new();
    t.timeouts_init();
    t
}

#[test]
fn timeouts_come_out_earliest_first() {
    let mut t = fresh();
    assert!(t.timeouts_empty());
    assert_eq!(t.timeouts_peek(), None);
    assert_eq!(t.timeouts_insert(30, 3, 300), Some(0));
    assert_eq!(t.timeouts_insert(10, 1, 100), Some(1));
    assert_eq!(t.timeouts_insert(20, 2, 200), Some(2));
    assert_eq!(t.timeouts_peek(), Some(10));
    assert_eq!(t.timeouts_remove_min(), (10, 1, 100, 1));
    assert_eq!(t.timeouts_remove_min(), (20, 2, 200, 2));
    assert_eq!(t.timeouts_remove_min(), (30, 3, 300, 0));
    assert!(t.timeouts_empty());
}

#[test]
fn register_timer_asks_for_the_timer_only_when_earliest() {
    let mut t = fresh();
    assert_eq!(t.register_timer(1000, 500, 7, 70), Ok(Some(1500)));
    assert_eq!(t.register_timer(1000, 100, 9, 90), Ok(Some(1100)));
    assert_eq!(t.register_timer(1000, 900, 8, 80), Ok(None));
    assert_eq!(t.timer_irq_rearm(1050), TimerAction::Configure { curr_time: 1050, deadline: 1100 });
    assert_eq!(t.timeouts_remove_min(), (1100, 9, 90, 1));
    assert_eq!(t.timeouts_remove_min(), (1500, 7, 70, 0));
    assert_eq!(t.timeouts_remove_min(), (1900, 8, 80, 2));
}

#[test]
fn timer_interrupt_runs_due_timeouts_only() {
    let mut t = fresh();
    t.register_timer(0, 100, 1, 11).unwrap();
    t.register_timer(0, 50, 2, 22).unwrap();
    // Nothing is due before time 50.
    assert_eq!(t.timer_irq_next_due(49), None);
    // The callback, its data and the timeout's number (its slot plus one).
    assert_eq!(t.timer_irq_next_due(60), Some((2, 22, 2)));
    assert_eq!(t.timer_irq_next_due(60), None);
    assert_eq!(t.timer_irq_rearm(60), TimerAction::Configure { curr_time: 60, deadline: 100 });
    assert_eq!(t.timer_irq_next_due(100), Some((1, 11, 1)));
    assert_eq!(t.timer_irq_rearm(100), TimerAction::Disable);
}

#[test]
fn table_before_init_has_one_slot() {
    let mut t = Timeouts::new();
    assert_eq!(t.timeouts_insert(5, 1, 1), Some(0));
    assert!(t.timeouts_full());
    assert_eq!(t.timeouts_insert(6, 1, 1), None);
    assert_eq!(MAX_TIMEOUTS, 1024);
}

#[test]
fn insert_behind_the_head_uses_a_fresh_node() {
    let mut t = fresh();
    assert_eq!(t.timeouts_insert(10, 1, 100), Some(0));
    assert_eq!(t.timeouts_insert(30, 3, 300), Some(1));
    assert_eq!(t.timeouts_insert(20, 2, 200), Some(2));
    assert_eq!(t.timeouts_insert(40, 4, 400), Some(3));
    assert_eq!(t.timeouts_remove_min(), (10, 1, 100, 0));
    assert_eq!(t.timeouts_remove_min(), (20, 2, 200, 2));
    assert_eq!(t.timeouts_remove_min(), (30, 3, 300, 1));
    assert_eq!(t.timeouts_remove_min(), (40, 4, 400, 3));
    assert!(t.timeouts_empty());
}

#[test]
fn timer_interrupt_takes_every_due_timeout_in_order() {
    let mut t = fresh();
    t.register_timer(0, 300, 3, 33).unwrap();
    t.register_timer(0, 100, 1, 11).unwrap();
    t.register_timer(0, 200, 2, 22).unwrap();
    let (due, action) = t.timer_irq_take_due(250);
    assert_eq!(due, vec![(1, 11, 2), (2, 22, 3)]);
    assert_eq!(action, TimerAction::Configure { curr_time: 250, deadline: 300 });
    let (due, action) = t.timer_irq_take_due(260);
    assert!(due.is_empty());
    assert_eq!(action, TimerAction::Configure { curr_time: 260, deadline: 300 });
    let (due, action) = t.timer_irq_take_due(300);
    assert_eq!(due, vec![(3, 33, 1)]);
    assert_eq!(action, TimerAction::Disable);
}
