use deckocr::input::{HeldActions, InputState, Key};

fn no_actions() -> HeldActions {
    HeldActions {
        up: false,
        down: false,
        left: false,
        right: false,
        skip_irrelevant: false,
        add_to_deck: false,
        exit: false,
    }
}

#[test]
fn was_pressed_fires_once_per_edge() {
    let mut key = Key::new(0);
    key.change_state(true, 10);
    assert!(key.was_pressed());
    assert!(!key.was_pressed());
    key.change_state(true, 20); // still held: no new edge
    assert!(!key.was_pressed());
    key.change_state(false, 30);
    key.change_state(true, 40);
    assert!(key.was_pressed());
}

#[test]
fn is_pressed_is_a_level() {
    let mut key = Key::new(0);
    assert!(!key.is_pressed());
    key.change_state(true, 5);
    assert!(key.is_pressed());
    assert!(key.is_pressed());
    key.change_state(false, 6);
    assert!(!key.is_pressed());
}

#[test]
fn retrigger_schedule_for_a_held_key() {
    // Pressed at t=0: fires at once; not again until more than 300 ms have
    // passed; then at intervals of more than 50 ms.
    let mut key = Key::new(0);
    key.change_state(true, 0);
    assert!(key.was_pressed_with_retrigger(0)); // t=0: press edge
    assert!(!key.was_pressed_with_retrigger(100)); // before the delay
    assert!(!key.was_pressed_with_retrigger(300)); // exactly the delay: not yet
    assert!(key.was_pressed_with_retrigger(301)); // past the delay
    assert!(!key.was_pressed_with_retrigger(340)); // within the interval
    assert!(!key.was_pressed_with_retrigger(351)); // exactly the interval: not yet
    assert!(key.was_pressed_with_retrigger(352)); // past the interval
    assert!(key.was_pressed_with_retrigger(410));
}

#[test]
fn releasing_and_repressing_resets_the_schedule() {
    let mut key = Key::new(0);
    key.change_state(true, 0);
    assert!(key.was_pressed_with_retrigger(0));
    assert!(key.was_pressed_with_retrigger(400));
    key.change_state(false, 450);
    key.change_state(true, 500);
    // A fresh press fires immediately again.
    assert!(key.was_pressed_with_retrigger(500));
    // And the initial delay applies anew, from the new press time.
    assert!(!key.was_pressed_with_retrigger(700));
    assert!(key.was_pressed_with_retrigger(801));
}

#[test]
fn update_feeds_every_action() {
    let mut input = InputState::new(0);
    let mut held = no_actions();
    held.left = true;
    held.skip_irrelevant = true;
    input.update(held, 100);

    let intent = input.poll_intent(100);
    assert!(intent.move_left);
    assert!(!intent.move_right);
    assert!(!intent.move_up);
    assert!(!intent.move_down);
    assert!(intent.skip_irrelevant);
    assert!(!intent.add_to_deck);
    assert!(!intent.exit);

    // The press edges were consumed: polling again fires nothing new.
    let again = input.poll_intent(110);
    assert!(!again.move_left);
    assert!(again.skip_irrelevant);
}

#[test]
fn press_edges_fire_once_for_commit_and_exit() {
    let mut input = InputState::new(0);
    let mut held = no_actions();
    held.add_to_deck = true;
    held.exit = true;
    input.update(held, 50);
    let intent = input.poll_intent(50);
    assert!(intent.add_to_deck);
    assert!(intent.exit);
    input.update(held, 60);
    let again = input.poll_intent(60);
    assert!(!again.add_to_deck);
    assert!(!again.exit);
}
