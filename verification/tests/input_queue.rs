use snake::input::{keyboard_pressed, InputDirection, InputValue, KeysPressed};

use InputDirection::{Down, Left, Right, Up};

const NO_KEYS: KeysPressed = KeysPressed {
    left: false,
    a: false,
    right: false,
    d: false,
    down: false,
    s: false,
    up: false,
    w: false,
};

/// A queue whose committed direction is `d` and was already delivered.
fn delivered(d: InputDirection) -> InputValue {
    let mut q = InputValue::new();
    assert_eq!(q.next(), Right);
    if d == Left {
        q.push(Up);
        assert_eq!(q.next(), Up);
    }
    q.push(d);
    assert_eq!(q.next(), d);
    assert!(q.visited());
    assert_eq!(q.pending(), 0);
    q
}

#[test]
fn complement_swaps_each_pair() {
    assert_eq!(Up.complement(), Down);
    assert_eq!(Down.complement(), Up);
    assert_eq!(Left.complement(), Right);
    assert_eq!(Right.complement(), Left);
}

#[test]
fn complement_is_involutive() {
    for d in [Up, Down, Left, Right] {
        assert_eq!(d.complement().complement(), d);
        assert_ne!(d.complement(), d);
    }
}

#[test]
fn new_queue_moves_right() {
    let q = InputValue::new();
    assert_eq!(q.current(), Right);
    assert_eq!(q.pending(), 0);
    assert!(!q.visited());
}

#[test]
fn next_without_input_returns_right_indefinitely() {
    let mut q = InputValue::new();
    for _ in 0..100 {
        assert_eq!(q.next(), Right);
        assert_eq!(q.pending(), 0);
        assert!(q.visited());
    }
}

#[test]
fn reversal_of_committed_direction_is_rejected() {
    let mut q = InputValue::new();
    q.push(Left);
    assert_eq!(q.current(), Right);
    assert_eq!(q.pending(), 0);
    assert!(!q.visited());
    assert_eq!(q.next(), Right);
    assert_eq!(q.next(), Right);
}

#[test]
fn reversal_is_rejected_for_every_direction() {
    for d in [Up, Down, Left, Right] {
        let mut q = delivered(d);
        q.push(d.complement());
        assert_eq!(q.current(), d);
        assert_eq!(q.pending(), 0);
        assert!(q.visited());
        assert_eq!(q.next(), d);
    }
}

#[test]
fn reversal_of_newest_queued_direction_is_rejected() {
    let mut q = InputValue::new();
    q.push(Up);
    assert_eq!(q.pending(), 1);
    q.push(Down);
    assert_eq!(q.pending(), 1);
    assert_eq!(q.next(), Right);
    assert_eq!(q.next(), Up);
    assert_eq!(q.next(), Up);
}

#[test]
fn queued_turn_then_back_is_not_a_reversal() {
    // Right, then Up, then Left: each turn is a quarter turn.
    let mut q = InputValue::new();
    q.push(Up);
    q.push(Left);
    assert_eq!(q.pending(), 2);
    assert_eq!(q.next(), Right);
    assert_eq!(q.next(), Up);
    assert_eq!(q.next(), Left);
    assert_eq!(q.next(), Left);
}

#[test]
fn rejected_reversal_can_leave_its_direction_committed() {
    // Left is committed, Up and Right wait. A press of Left is the reversal
    // of the newest waiting direction and is dropped, yet the tick that
    // follows still moves left, because Left is what was committed before.
    let mut q = delivered(Up);
    q.push(Left);
    q.push(Up);
    q.push(Right);
    assert_eq!(q.current(), Left);
    assert!(!q.visited());
    assert_eq!(q.pending(), 2);
    q.push(Left);
    assert_eq!(q.pending(), 2);
    assert_eq!(q.next(), Left);
    assert_eq!(q.next(), Up);
    assert_eq!(q.next(), Right);
}

#[test]
fn press_replaces_a_delivered_direction() {
    let mut q = delivered(Right);
    q.push(Up);
    assert_eq!(q.current(), Up);
    assert_eq!(q.pending(), 0);
    assert!(!q.visited());
    assert_eq!(q.next(), Up);
}

#[test]
fn press_queues_behind_an_undelivered_direction() {
    let mut q = InputValue::new();
    q.push(Down);
    assert_eq!(q.current(), Right);
    assert_eq!(q.pending(), 1);
    assert_eq!(q.next(), Right);
    assert_eq!(q.current(), Down);
    assert!(!q.visited());
    assert_eq!(q.next(), Down);
    assert!(q.visited());
}

#[test]
fn repeated_press_of_delivered_direction_changes_nothing() {
    for d in [Up, Down, Left, Right] {
        let mut q = delivered(d);
        q.push(d);
        assert_eq!(q.current(), d);
        assert_eq!(q.pending(), 0);
        assert!(q.visited());
    }
}

#[test]
fn press_after_a_repeat_still_replaces_a_delivered_direction() {
    // Right was delivered. Right, Right, Up: the repeats leave it delivered,
    // so Up takes its place and the next tick moves up at once.
    let mut q = delivered(Right);
    q.push(Right);
    q.push(Right);
    q.push(Up);
    assert_eq!(q.current(), Up);
    assert_eq!(q.pending(), 0);
    assert!(!q.visited());
    assert_eq!(q.next(), Up);
}

#[test]
fn repeated_press_of_undelivered_direction_changes_nothing() {
    let mut q = InputValue::new();
    q.push(Right);
    q.push(Right);
    assert_eq!(q.current(), Right);
    assert_eq!(q.pending(), 0);
    assert!(!q.visited());
    assert_eq!(q.next(), Right);
    assert_eq!(q.next(), Right);
}

#[test]
fn repeated_presses_are_recorded_once() {
    let mut q = InputValue::new();
    q.push(Up);
    q.push(Up);
    assert_eq!(q.current(), Right);
    assert_eq!(q.pending(), 1);
    q.push(Up);
    assert_eq!(q.pending(), 1);
    assert_eq!(q.next(), Right);
    assert_eq!(q.next(), Up);
    assert_eq!(q.next(), Up);
    assert_eq!(q.pending(), 0);
}

#[test]
fn second_press_of_any_direction_changes_nothing() {
    // From several states, each direction pressed once and then again.
    let starts: [fn() -> InputValue; 4] = [
        || InputValue::new(),
        || delivered(Up),
        || {
            let mut q = InputValue::new();
            q.push(Down);
            q
        },
        || {
            let mut q = delivered(Left);
            q.push(Up);
            q.push(Right);
            q
        },
    ];
    for start in starts {
        for d in [Up, Down, Left, Right] {
            let mut q = start();
            q.push(d);
            let once = (q.current(), q.pending(), q.visited());
            q.push(d);
            assert_eq!((q.current(), q.pending(), q.visited()), once);
        }
    }
}

#[test]
fn same_direction_is_recorded_again_after_a_turn() {
    // Up, Left, Up: the second Up does not repeat the direction before it.
    let mut q = InputValue::new();
    q.push(Up);
    q.push(Left);
    q.push(Up);
    assert_eq!(q.pending(), 3);
    assert_eq!(q.next(), Right);
    assert_eq!(q.next(), Up);
    assert_eq!(q.next(), Left);
    assert_eq!(q.next(), Up);
}

#[test]
fn next_takes_at_most_one_direction_from_the_queue() {
    let mut q = InputValue::new();
    for d in [Up, Left, Down, Right, Up] {
        q.push(d);
    }
    assert_eq!(q.pending(), 5);
    let mut expected = 5;
    for _ in 0..8 {
        let before = q.pending();
        q.next();
        let after = q.pending();
        expected = if expected > 0 { expected - 1 } else { 0 };
        assert_eq!(after, expected);
        assert!(before - after <= 1);
    }
}

#[test]
fn consecutive_ticks_never_reverse() {
    // Every sequence of up to four presses between two ticks, from several
    // starting states.
    let dirs = [Up, Down, Left, Right];
    for start in 0..4 {
        for code in 0..(5usize.pow(4)) {
            let mut q = delivered(dirs[start]);
            q.push(dirs[(start + 1) % 4]);
            let first = q.next();
            let mut c = code;
            for _ in 0..4 {
                let k = c % 5;
                c /= 5;
                if k < 4 {
                    q.push(dirs[k]);
                }
            }
            let second = q.next();
            assert_ne!(second, first.complement());
        }
    }
}

#[test]
fn same_calls_give_same_directions() {
    let script = [Some(Up), None, Some(Left), Some(Right), None, None, Some(Down), None, None];
    let run = || {
        let mut q = InputValue::new();
        let mut out = Vec::new();
        for s in script {
            match s {
                Some(d) => q.push(d),
                None => out.push(q.next()),
            }
        }
        out
    };
    assert_eq!(run(), run());
    assert_eq!(run(), vec![Right, Up, Left, Down, Down]);
}

#[test]
fn keyboard_pressed_without_keys_changes_nothing() {
    let mut q = InputValue::new();
    keyboard_pressed(&NO_KEYS, &mut q);
    assert_eq!(q.current(), Right);
    assert_eq!(q.pending(), 0);
    assert!(!q.visited());
}

#[test]
fn keyboard_pressed_maps_arrows_and_letters() {
    for keys in [KeysPressed { up: true, ..NO_KEYS }, KeysPressed { w: true, ..NO_KEYS }] {
        let mut q = delivered(Right);
        keyboard_pressed(&keys, &mut q);
        assert_eq!(q.next(), Up);
    }
    for keys in [KeysPressed { down: true, ..NO_KEYS }, KeysPressed { s: true, ..NO_KEYS }] {
        let mut q = delivered(Right);
        keyboard_pressed(&keys, &mut q);
        assert_eq!(q.next(), Down);
    }
    for keys in [KeysPressed { left: true, ..NO_KEYS }, KeysPressed { a: true, ..NO_KEYS }] {
        let mut q = delivered(Up);
        keyboard_pressed(&keys, &mut q);
        assert_eq!(q.next(), Left);
    }
    for keys in [KeysPressed { right: true, ..NO_KEYS }, KeysPressed { d: true, ..NO_KEYS }] {
        let mut q = delivered(Up);
        keyboard_pressed(&keys, &mut q);
        assert_eq!(q.next(), Right);
    }
}

#[test]
fn keyboard_pressed_counts_arrow_and_letter_once() {
    let mut q = InputValue::new();
    keyboard_pressed(&KeysPressed { up: true, w: true, ..NO_KEYS }, &mut q);
    assert_eq!(q.pending(), 1);
}

#[test]
fn keyboard_pressed_records_left_right_down_up_in_that_order() {
    // Committed Up, delivered: Left replaces it, Right reverses Left and is
    // dropped, Down queues behind Left, Up reverses Down and is dropped.
    let mut q = delivered(Up);
    let all = KeysPressed {
        left: true,
        a: false,
        right: true,
        d: false,
        down: false,
        s: true,
        up: false,
        w: true,
    };
    keyboard_pressed(&all, &mut q);
    assert_eq!(q.current(), Left);
    assert_eq!(q.pending(), 1);
    assert_eq!(q.next(), Left);
    assert_eq!(q.next(), Down);
    assert_eq!(q.next(), Down);
}
