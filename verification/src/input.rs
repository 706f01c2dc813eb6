//! Key-repeat handling: each logical action tracks whether it is held, when
//! it became held, whether the press edge was consumed, and when it last
//! retriggered. A held key fires once at the press, again once more than the
//! initial delay has passed, and then repeatedly at the retrigger interval.
//! Times are millisecond timestamps supplied by the caller's clock.

use vstd::prelude::*;

verus! {

/// Milliseconds a key must stay held before it retriggers the first time.
pub const RETRIGGER_DELAY_MS: u64 = 300;

/// Milliseconds between retriggers while a key stays held.
pub const RETRIGGER_INTERVAL_MS: u64 = 50;

/// Milliseconds from `since` to `now` (zero when the clock went backwards).
pub open spec fn elapsed(now: u64, since: u64) -> int {
    if now >= since {
        now - since
    } else {
        0
    }
}

/// A logical action's key state.
#[derive(Debug, Clone, Copy, PartialEq, Eq, Structural)]
pub struct Key {
    /// When the key became held, or `None` while it is up.
    pub pressed_at: Option<u64>,
    /// Whether the press edge was already consumed.
    pub was_consumed: bool,
    /// When the key last retriggered.
    pub last_retriggered: u64,
}

/// The key state after feeding it the level `is_pressed` at time `now`:
/// releasing clears the press timestamp; a fresh press records `now` and
/// arms a new press edge; anything else changes nothing.
pub open spec fn key_after_change(k: Key, is_pressed: bool, now: u64) -> Key {
    if !is_pressed && k.pressed_at is Some {
        Key { pressed_at: None, was_consumed: k.was_consumed, last_retriggered: k.last_retriggered }
    } else if is_pressed && k.pressed_at is None {
        Key { pressed_at: Some(now), was_consumed: false, last_retriggered: k.last_retriggered }
    } else {
        k
    }
}

/// Whether a retrigger query at time `now` fires: the key is held, and
/// either its press edge is unconsumed, or more than the initial delay has
/// passed since the press and more than the retrigger interval since the
/// last retrigger.
pub open spec fn retrigger_fires(k: Key, now: u64) -> bool {
    match k.pressed_at {
        None => false,
        Some(t0) => !k.was_consumed || (elapsed(now, t0) > RETRIGGER_DELAY_MS && elapsed(
            now,
            k.last_retriggered,
        ) > RETRIGGER_INTERVAL_MS),
    }
}

/// The key state after a retrigger query at time `now`: a fired press edge
/// is consumed; a fired retrigger records `now`; a query that does not fire
/// changes nothing.
pub open spec fn key_after_retrigger(k: Key, now: u64) -> Key {
    match k.pressed_at {
        None => k,
        Some(t0) => if !k.was_consumed {
            Key { pressed_at: k.pressed_at, was_consumed: true, last_retriggered: k.last_retriggered }
        } else if retrigger_fires(k, now) {
            Key { pressed_at: k.pressed_at, was_consumed: true, last_retriggered: now }
        } else {
            k
        },
    }
}

impl Key {
    /// A key that is up, as if it had last retriggered at time `now`.
    pub fn new(now_ms: u64) -> (r: Key)
        ensures
            r == (Key { pressed_at: None, was_consumed: false, last_retriggered: now_ms }),
    {
        Key { pressed_at: None, was_consumed: false, last_retriggered: now_ms }
    }

    /// Feed the key its current level (held or not) at time `now_ms`.
    pub fn change_state(&mut self, is_pressed: bool, now_ms: u64)
        ensures
            *final(self) == key_after_change(*old(self), is_pressed, now_ms),
    {
        if !is_pressed && self.pressed_at.is_some() {
            self.pressed_at = None;
        } else if is_pressed && self.pressed_at.is_none() {
            self.pressed_at = Some(now_ms);
            self.was_consumed = false;
        }
    }

    /// Whether the key is currently held: the level query for
    /// modifier-style actions.
    pub fn is_pressed(&self) -> (r: bool)
        ensures
            r == (self.pressed_at is Some),
    {
        self.pressed_at.is_some()
    }

    /// Whether the key was pressed and its press edge not consumed yet:
    /// fires exactly once per press edge.
    pub fn was_pressed(&mut self) -> (r: bool)
        ensures
            r == (old(self).pressed_at is Some && !old(self).was_consumed),
            *final(self) == (Key {
                pressed_at: old(self).pressed_at,
                was_consumed: old(self).was_consumed || r,
                last_retriggered: old(self).last_retriggered,
            }),
    {
        if self.pressed_at.is_some() && !self.was_consumed {
            self.was_consumed = true;
            true
        } else {
            false
        }
    }

    /// Whether the key fires now: once at the press edge, again once more
    /// than the initial delay has passed since the press, then repeatedly
    /// once more than the retrigger interval has passed since the last
    /// retrigger, for as long as it stays held.
    pub fn was_pressed_with_retrigger(&mut self, now_ms: u64) -> (r: bool)
        ensures
            r == retrigger_fires(*old(self), now_ms),
            *final(self) == key_after_retrigger(*old(self), now_ms),
    {
        match self.pressed_at {
            None => false,
            Some(pressed_timestamp) => {
                if !self.was_consumed {
                    self.was_consumed = true;
                    true
                } else {
                    let since_press = if now_ms >= pressed_timestamp {
                        now_ms - pressed_timestamp
                    } else {
                        0
                    };
                    let since_retrigger = if now_ms >= self.last_retriggered {
                        now_ms - self.last_retriggered
                    } else {
                        0
                    };
                    if since_press > RETRIGGER_DELAY_MS && since_retrigger > RETRIGGER_INTERVAL_MS {
                        self.last_retriggered = now_ms;
                        true
                    } else {
                        false
                    }
                }
            },
        }
    }
}

/// Key retrigger timing, step one: a key that is up and becomes held at
/// time `t0` fires at once, whenever it is first queried.
pub proof fn lemma_retrigger_fires_on_press(k: Key, t0: u64, now: u64)
    requires
        k.pressed_at is None,
    ensures
        retrigger_fires(key_after_change(k, true, t0), now),
{
}

/// Key retrigger timing, step two: after the press edge was consumed, a key
/// held since `t0` does not fire again until more than the initial delay has
/// passed since `t0`.
pub proof fn lemma_no_retrigger_before_delay(k: Key, t0: u64, now: u64)
    requires
        k.pressed_at == Some(t0),
        k.was_consumed,
        elapsed(now, t0) <= RETRIGGER_DELAY_MS,
    ensures
        !retrigger_fires(k, now),
{
}

/// Key retrigger timing, step three: after a retrigger fired at time `tr`,
/// the key does not fire again until more than the retrigger interval has
/// passed since `tr`.
pub proof fn lemma_retrigger_interval(k: Key, tr: u64, now: u64)
    requires
        retrigger_fires(k, tr),
        k.was_consumed,
        elapsed(now, tr) <= RETRIGGER_INTERVAL_MS,
    ensures
        !retrigger_fires(key_after_retrigger(k, tr), now),
{
}

/// Key retrigger timing, step four: releasing and pressing again resets the
/// schedule — the re-pressed key fires at once, regardless of what had been
/// consumed before.
pub proof fn lemma_retrigger_resets_on_release(k: Key, t_release: u64, t_press: u64, now: u64)
    ensures
        retrigger_fires(
            key_after_change(key_after_change(k, false, t_release), true, t_press),
            now,
        ),
{
}

/// The held/pressed levels of every logical action for one frame, each
/// already OR-combined over the input devices by the caller.
#[derive(Debug, Clone, Copy, PartialEq, Eq, Structural)]
pub struct HeldActions {
    pub up: bool,
    pub down: bool,
    pub left: bool,
    pub right: bool,
    pub skip_irrelevant: bool,
    pub add_to_deck: bool,
    pub exit: bool,
}

/// The current key state of every logical action.
#[derive(Debug, Clone, Copy, PartialEq, Eq, Structural)]
pub struct InputState {
    pub up: Key,
    pub down: Key,
    pub left: Key,
    pub right: Key,
    pub skip_irrelevant: Key,
    pub add_to_deck: Key,
    pub exit: Key,
}

impl InputState {
    /// All keys up, as if last retriggered at time `now_ms`.
    pub fn new(now_ms: u64) -> (r: InputState)
        ensures
            r.up == Key::new_spec(now_ms),
            r.down == Key::new_spec(now_ms),
            r.left == Key::new_spec(now_ms),
            r.right == Key::new_spec(now_ms),
            r.skip_irrelevant == Key::new_spec(now_ms),
            r.add_to_deck == Key::new_spec(now_ms),
            r.exit == Key::new_spec(now_ms),
    {
        InputState {
            up: Key::new(now_ms),
            down: Key::new(now_ms),
            left: Key::new(now_ms),
            right: Key::new(now_ms),
            skip_irrelevant: Key::new(now_ms),
            add_to_deck: Key::new(now_ms),
            exit: Key::new(now_ms),
        }
    }

    /// Feed every key its level for this frame at time `now_ms`.
    pub fn update(&mut self, held: HeldActions, now_ms: u64)
        ensures
            final(self).up == key_after_change(old(self).up, held.up, now_ms),
            final(self).down == key_after_change(old(self).down, held.down, now_ms),
            final(self).left == key_after_change(old(self).left, held.left, now_ms),
            final(self).right == key_after_change(old(self).right, held.right, now_ms),
            final(self).skip_irrelevant == key_after_change(
                old(self).skip_irrelevant,
                held.skip_irrelevant,
                now_ms,
            ),
            final(self).add_to_deck == key_after_change(
                old(self).add_to_deck,
                held.add_to_deck,
                now_ms,
            ),
            final(self).exit == key_after_change(old(self).exit, held.exit, now_ms),
    {
        self.up.change_state(held.up, now_ms);
        self.down.change_state(held.down, now_ms);
        self.left.change_state(held.left, now_ms);
        self.right.change_state(held.right, now_ms);
        self.skip_irrelevant.change_state(held.skip_irrelevant, now_ms);
        self.add_to_deck.change_state(held.add_to_deck, now_ms);
        self.exit.change_state(held.exit, now_ms);
    }
}

impl Key {
    /// The value [`Key::new`] returns.
    pub open spec fn new_spec(now_ms: u64) -> Key {
        Key { pressed_at: None, was_consumed: false, last_retriggered: now_ms }
    }
}

/// What one frame's input asks for, after key-repeat handling: the four
/// moves fire with retriggering, committing to the deck and exiting fire
/// once per press edge, and skip-irrelevant is a level.
#[derive(Debug, Clone, Copy, PartialEq, Eq, Structural)]
pub struct FrameIntent {
    pub move_up: bool,
    pub move_down: bool,
    pub move_left: bool,
    pub move_right: bool,
    pub add_to_deck: bool,
    pub exit: bool,
    pub skip_irrelevant: bool,
}

impl InputState {
    /// Read off this frame's intent at time `now_ms`, consuming press edges
    /// and recording retriggers.
    pub fn poll_intent(&mut self, now_ms: u64) -> (r: FrameIntent)
        ensures
            r.move_up == retrigger_fires(old(self).up, now_ms),
            r.move_down == retrigger_fires(old(self).down, now_ms),
            r.move_left == retrigger_fires(old(self).left, now_ms),
            r.move_right == retrigger_fires(old(self).right, now_ms),
            r.add_to_deck == (old(self).add_to_deck.pressed_at is Some
                && !old(self).add_to_deck.was_consumed),
            r.exit == (old(self).exit.pressed_at is Some && !old(self).exit.was_consumed),
            r.skip_irrelevant == (old(self).skip_irrelevant.pressed_at is Some),
            final(self).up == key_after_retrigger(old(self).up, now_ms),
            final(self).down == key_after_retrigger(old(self).down, now_ms),
            final(self).left == key_after_retrigger(old(self).left, now_ms),
            final(self).right == key_after_retrigger(old(self).right, now_ms),
            final(self).add_to_deck == (Key {
                pressed_at: old(self).add_to_deck.pressed_at,
                was_consumed: old(self).add_to_deck.was_consumed || r.add_to_deck,
                last_retriggered: old(self).add_to_deck.last_retriggered,
            }),
            final(self).exit == (Key {
                pressed_at: old(self).exit.pressed_at,
                was_consumed: old(self).exit.was_consumed || r.exit,
                last_retriggered: old(self).exit.last_retriggered,
            }),
            final(self).skip_irrelevant == old(self).skip_irrelevant,
    {
        let skip_irrelevant = self.skip_irrelevant.is_pressed();
        let move_up = self.up.was_pressed_with_retrigger(now_ms);
        let move_down = self.down.was_pressed_with_retrigger(now_ms);
        let move_left = self.left.was_pressed_with_retrigger(now_ms);
        let move_right = self.right.was_pressed_with_retrigger(now_ms);
        let add_to_deck = self.add_to_deck.was_pressed();
        let exit = self.exit.was_pressed();
        FrameIntent {
            move_up,
            move_down,
            move_left,
            move_right,
            add_to_deck,
            exit,
            skip_irrelevant,
        }
    }
}

} // verus!
