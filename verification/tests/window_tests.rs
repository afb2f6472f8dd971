use loss::event_source::Direction;
use loss::window::{OffsetHistory, Window};

#[test]
fn window_is_as_high_as_the_terminal_less_the_status_bar() {
    let mut window = Window::new(80, 24);
    assert_eq!((window.width, window.height), (80, 23));
    assert_eq!(window.offset(), 0);
    assert_eq!(window.horizontal_shift, 0);
    window.resize(100, 1);
    assert_eq!((window.width, window.height), (100, 0));
    assert_eq!(window.offset(), 0);
}

#[test]
fn moves_are_recorded_and_undone() {
    let mut window = Window::new(80, 24);
    window.set_offset(10);
    window.move_offset_by(5, Direction::Down);
    assert_eq!(window.offset(), 15);
    window.move_offset_by(7, Direction::Up);
    assert_eq!(window.offset(), 8);
    window.move_offset_by(20, Direction::Up);
    assert_eq!(window.offset(), 0);
    assert_eq!(window.offset_history.offsets, vec![0, 10, 15, 8, 0]);
    window.goto_previous_offset();
    assert_eq!(window.offset(), 8);
    window.goto_previous_offset();
    window.goto_previous_offset();
    assert_eq!(window.offset(), 10);
    window.goto_next_offset();
    assert_eq!(window.offset(), 15);
    // a move forgets what could be gone forward to
    window.set_offset(99);
    assert_eq!(window.offset_history.offsets, vec![0, 10, 15, 99]);
    window.goto_next_offset();
    assert_eq!(window.offset(), 99);
    for _ in 0..10 {
        window.goto_previous_offset();
    }
    assert_eq!(window.offset(), 0);
    for _ in 0..10 {
        window.goto_next_offset();
    }
    assert_eq!(window.offset(), 99);
}

#[test]
fn offset_history_keeps_a_cursor() {
    let mut history = OffsetHistory::new();
    assert_eq!(history.offsets, vec![0]);
    assert_eq!(history.previous_one(), 0);
    assert_eq!(history.next_one(), 0);
    history.push(3);
    history.push(4);
    assert_eq!(history.current_index, 2);
    assert_eq!(history.previous_one(), 3);
    assert_eq!(history.previous_one(), 0);
    assert_eq!(history.previous_one(), 0);
    history.push(7);
    assert_eq!(history.offsets, vec![0, 7]);
    assert_eq!(history.next_one(), 7);
}
