use vstd::prelude::*;

verus! {

/// The keys that move the player.
#[derive(Clone, Copy, PartialEq, Eq, Structural, Debug)]
pub enum MovementKey {
    W,
    A,
    S,
    D,
    Space,
    LShift,
}

/// The mouse buttons the controller reacts to.
#[derive(Clone, Copy, PartialEq, Eq, Structural, Debug)]
pub enum MouseButton {
    Left,
    Right,
    Other,
}

/// The input events the controller's key and button state reacts to.
#[derive(Clone, Copy, PartialEq, Eq, Structural, Debug)]
pub enum ControllerEvent {
    KeyPressed(MovementKey),
    KeyReleased(MovementKey),
    MousePressed(MouseButton),
    Other,
}

/// The bit of a key in a key set.
pub open spec fn spec_key_bit(key: MovementKey) -> u8 {
    match key {
        MovementKey::W => 1,
        MovementKey::A => 2,
        MovementKey::S => 4,
        MovementKey::D => 8,
        MovementKey::Space => 16,
        MovementKey::LShift => 32,
    }
}

/// The key that moves the other way.
pub open spec fn spec_opposite(key: MovementKey) -> MovementKey {
    match key {
        MovementKey::W => MovementKey::S,
        MovementKey::A => MovementKey::D,
        MovementKey::S => MovementKey::W,
        MovementKey::D => MovementKey::A,
        MovementKey::Space => MovementKey::LShift,
        MovementKey::LShift => MovementKey::Space,
    }
}

/// Whether a key set holds a key.
pub open spec fn has_key(keys: u8, key: MovementKey) -> bool {
    keys & spec_key_bit(key) != 0
}

impl MovementKey {
    /// The bit of this key in a key set.
    pub fn bit(self) -> (res: u8)
        ensures
            res == spec_key_bit(self),
    {
        match self {
            MovementKey::W => 1,
            MovementKey::A => 2,
            MovementKey::S => 4,
            MovementKey::D => 8,
            MovementKey::Space => 16,
            MovementKey::LShift => 32,
        }
    }

    /// The key that moves the other way.
    pub fn opposite(self) -> (res: MovementKey)
        ensures
            res == spec_opposite(self),
    {
        match self {
            MovementKey::W => MovementKey::S,
            MovementKey::A => MovementKey::D,
            MovementKey::S => MovementKey::W,
            MovementKey::D => MovementKey::A,
            MovementKey::Space => MovementKey::LShift,
            MovementKey::LShift => MovementKey::Space,
        }
    }
}

/// A set of per-frame changes, one bit each.
#[derive(Clone, Copy, PartialEq, Eq, Structural, Debug)]
pub struct Changes {
    pub bits: u8,
}

/// The player moved.
pub const MOVED: u8 = 1;

/// The player turned.
pub const ROTATED: u8 = 2;

/// The player asked to place a block.
pub const BLOCK_PLACED: u8 = 4;

/// The player asked to destroy a block.
pub const BLOCK_DESTROYED: u8 = 8;

/// The changes that alter the view.
pub const VIEW: u8 = 3;

impl Changes {
    /// Whether every change of `flags` is in this set.
    pub fn contains(self, flags: u8) -> (res: bool)
        ensures
            res == (self.bits & flags == flags),
    {
        self.bits & flags == flags
    }

    /// Whether some change of `flags` is in this set.
    pub fn intersects(self, flags: u8) -> (res: bool)
        ensures
            res == (self.bits & flags != 0),
    {
        self.bits & flags != 0
    }
}

/// The well-formedness of a controller's key sets: only movement keys, every active key
/// is held, no two opposite keys are active at once, and of every held key either the
/// key or its opposite is active.
pub open spec fn keys_wf(relevant: u8, history: u8) -> bool {
    &&& relevant & !history == 0
    &&& history & 0xc0 == 0
    &&& relevant & 5 != 5
    &&& relevant & 10 != 10
    &&& relevant & 48 != 48
    &&& history & 5 != 0 ==> relevant & 5 != 0
    &&& history & 10 != 0 ==> relevant & 10 != 0
    &&& history & 48 != 0 ==> relevant & 48 != 0
}

/// The active and held keys after `key` is pressed: it becomes active, its opposite
/// stops being active, and it is held.
pub open spec fn pressed(relevant: u8, history: u8, key: MovementKey) -> (u8, u8) {
    (
        (relevant | spec_key_bit(key)) & !spec_key_bit(spec_opposite(key)),
        history | spec_key_bit(key),
    )
}

/// The active and held keys after `key` is released: it stops being active and held,
/// and its opposite becomes active again if it is still held.
pub open spec fn released(relevant: u8, history: u8, key: MovementKey) -> (u8, u8) {
    (
        if has_key(history, spec_opposite(key)) {
            (relevant & !spec_key_bit(key)) | spec_key_bit(spec_opposite(key))
        } else {
            relevant & !spec_key_bit(key)
        },
        history & !spec_key_bit(key),
    )
}

/// The state of a [`Controller`] as a plain value.
pub struct ControllerView {
    /// The keys that currently steer the player.
    pub relevant_keys: u8,
    /// The keys currently held down.
    pub key_history: u8,
    pub block_placed: bool,
    pub block_destroyed: bool,
}

/// The key and button state of the player's controller: which movement keys steer,
/// which are held, and which block actions wait for the next frame.
pub struct Controller {
    relevant_keys: u8,
    key_history: u8,
    block_placed: bool,
    block_destroyed: bool,
}

impl View for Controller {
    type V = ControllerView;

    closed spec fn view(&self) -> ControllerView {
        ControllerView {
            relevant_keys: self.relevant_keys,
            key_history: self.key_history,
            block_placed: self.block_placed,
            block_destroyed: self.block_destroyed,
        }
    }
}

/// The sign of the movement along one axis: `first` is looked at first and moves the
/// `first_sign` way, `second` moves the other way.
pub open spec fn axis(keys: u8, first: MovementKey, first_sign: int, second: MovementKey) -> int {
    if has_key(keys, first) {
        first_sign
    } else if has_key(keys, second) {
        -first_sign
    } else {
        0
    }
}

proof fn lemma_press_keeps_wf(relevant: u8, history: u8, b: u8, o: u8)
    requires
        keys_wf(relevant, history),
        (b == 1 && o == 4) || (b == 4 && o == 1) || (b == 2 && o == 8) || (b == 8 && o == 2) || (b
            == 16 && o == 32) || (b == 32 && o == 16),
    ensures
        keys_wf((relevant | b) & !o, history | b),
{
    assert(keys_wf((relevant | b) & !o, history | b)) by (bit_vector)
        requires
            relevant & !history == 0,
            history & 0xc0 == 0,
            relevant & 5 != 5,
            relevant & 10 != 10,
            relevant & 48 != 48,
            history & 5 != 0 ==> relevant & 5 != 0,
            history & 10 != 0 ==> relevant & 10 != 0,
            history & 48 != 0 ==> relevant & 48 != 0,
            (b == 1 && o == 4) || (b == 4 && o == 1) || (b == 2 && o == 8) || (b == 8 && o == 2)
                || (b == 16 && o == 32) || (b == 32 && o == 16),
    ;
}

proof fn lemma_release_keeps_wf(relevant: u8, history: u8, b: u8, o: u8)
    requires
        keys_wf(relevant, history),
        (b == 1 && o == 4) || (b == 4 && o == 1) || (b == 2 && o == 8) || (b == 8 && o == 2) || (b
            == 16 && o == 32) || (b == 32 && o == 16),
    ensures
        keys_wf(
            if history & o != 0 {
                (relevant & !b) | o
            } else {
                relevant & !b
            },
            history & !b,
        ),
{
    assert(keys_wf(
        if history & o != 0 {
            (relevant & !b) | o
        } else {
            relevant & !b
        },
        history & !b,
    )) by (bit_vector)
        requires
            relevant & !history == 0,
            history & 0xc0 == 0,
            relevant & 5 != 5,
            relevant & 10 != 10,
            relevant & 48 != 48,
            history & 5 != 0 ==> relevant & 5 != 0,
            history & 10 != 0 ==> relevant & 10 != 0,
            history & 48 != 0 ==> relevant & 48 != 0,
            (b == 1 && o == 4) || (b == 4 && o == 1) || (b == 2 && o == 8) || (b == 8 && o == 2)
                || (b == 16 && o == 32) || (b == 32 && o == 16),
    ;
}

proof fn lemma_key_bits(key: MovementKey)
    ensures
        ({
            let b = spec_key_bit(key);
            let o = spec_key_bit(spec_opposite(key));
            (b == 1 && o == 4) || (b == 4 && o == 1) || (b == 2 && o == 8) || (b == 8 && o == 2)
                || (b == 16 && o == 32) || (b == 32 && o == 16)
        }),
{
}

impl Controller {
    /// A controller with no key held and no block action waiting.
    pub fn new() -> (res: Self)
        ensures
            res@.relevant_keys == 0,
            res@.key_history == 0,
            !res@.block_placed,
            !res@.block_destroyed,
            res.wf(),
    {
        proof {
            assert(keys_wf(0, 0)) by (bit_vector);
        }
        Controller { relevant_keys: 0, key_history: 0, block_placed: false, block_destroyed: false }
    }

    /// The controller's invariant.
    pub open spec fn wf(&self) -> bool {
        keys_wf(self@.relevant_keys, self@.key_history)
    }

    /// Reacts to a key or button event. Pressing a key makes it steer and silences its
    /// opposite; releasing it hands the steering back to its opposite if that is still
    /// held. The left button asks for a block to be destroyed, the right one for a block
    /// to be placed.
    pub fn handle(&mut self, event: ControllerEvent)
        requires
            old(self).wf(),
        ensures
            final(self).wf(),
            match event {
                ControllerEvent::KeyPressed(key) => {
                    &&& (final(self)@.relevant_keys, final(self)@.key_history) == pressed(
                        old(self)@.relevant_keys,
                        old(self)@.key_history,
                        key,
                    )
                    &&& final(self)@.block_placed == old(self)@.block_placed
                    &&& final(self)@.block_destroyed == old(self)@.block_destroyed
                },
                ControllerEvent::KeyReleased(key) => {
                    &&& (final(self)@.relevant_keys, final(self)@.key_history) == released(
                        old(self)@.relevant_keys,
                        old(self)@.key_history,
                        key,
                    )
                    &&& final(self)@.block_placed == old(self)@.block_placed
                    &&& final(self)@.block_destroyed == old(self)@.block_destroyed
                },
                ControllerEvent::MousePressed(button) => {
                    &&& final(self)@.relevant_keys == old(self)@.relevant_keys
                    &&& final(self)@.key_history == old(self)@.key_history
                    &&& final(self)@.block_placed == (old(self)@.block_placed || button
                        == MouseButton::Right)
                    &&& final(self)@.block_destroyed == (old(self)@.block_destroyed || button
                        == MouseButton::Left)
                },
                ControllerEvent::Other => final(self)@ == old(self)@,
            },
    {
        match event {
            ControllerEvent::KeyPressed(key) => {
                let b = key.bit();
                let o = key.opposite().bit();
                proof {
                    lemma_key_bits(key);
                    lemma_press_keeps_wf(self.relevant_keys, self.key_history, b, o);
                }
                self.relevant_keys = (self.relevant_keys | b) & !o;
                self.key_history = self.key_history | b;
            },
            ControllerEvent::KeyReleased(key) => {
                let b = key.bit();
                let o = key.opposite().bit();
                proof {
                    lemma_key_bits(key);
                    lemma_release_keeps_wf(self.relevant_keys, self.key_history, b, o);
                }
                self.relevant_keys = self.relevant_keys & !b;
                if self.key_history & o != 0 {
                    self.relevant_keys = self.relevant_keys | o;
                }
                self.key_history = self.key_history & !b;
            },
            ControllerEvent::MousePressed(button) => {
                match button {
                    MouseButton::Left => self.block_destroyed = true,
                    MouseButton::Right => self.block_placed = true,
                    MouseButton::Other => {},
                }
            },
            ControllerEvent::Other => {},
        }
    }

    /// Collects this frame's changes. `rotated` tells whether the mouse moved since the
    /// last frame. A waiting placement is reported before a waiting destruction, which
    /// then waits for the next frame.
    pub fn apply_updates(&mut self, rotated: bool) -> (res: Changes)
        requires
            old(self).wf(),
        ensures
            final(self).wf(),
            final(self)@.relevant_keys == old(self)@.relevant_keys,
            final(self)@.key_history == old(self)@.key_history,
            res.bits == (if rotated {
                ROTATED
            } else {
                0
            }) | (if old(self)@.relevant_keys != 0 {
                MOVED
            } else {
                0
            }) | (if old(self)@.block_placed {
                BLOCK_PLACED
            } else if old(self)@.block_destroyed {
                BLOCK_DESTROYED
            } else {
                0
            }),
            !final(self)@.block_placed,
            final(self)@.block_destroyed == (old(self)@.block_placed
                && old(self)@.block_destroyed),
    {
        let rotation: u8 = if rotated {
            ROTATED
        } else {
            0
        };
        let motion: u8 = if self.relevant_keys != 0 {
            MOVED
        } else {
            0
        };
        let action: u8 = if self.block_placed {
            self.block_placed = false;
            BLOCK_PLACED
        } else if self.block_destroyed {
            self.block_destroyed = false;
            BLOCK_DESTROYED
        } else {
            0
        };
        let bits = rotation | motion | action;
        Changes { bits }
    }

    /// The direction of movement along the player's forward, right and up axes: `W`
    /// forward and `S` back, `D` right and `A` left, `Space` up and `LShift` down.
    pub fn movement(&self) -> (res: (i8, i8, i8))
        ensures
            res.0 as int == axis(self@.relevant_keys, MovementKey::W, 1, MovementKey::S),
            res.1 as int == axis(self@.relevant_keys, MovementKey::A, -1, MovementKey::D),
            res.2 as int == axis(self@.relevant_keys, MovementKey::Space, 1, MovementKey::LShift),
    {
        let keys = self.relevant_keys;
        let forward: i8 = if keys & 1 != 0 {
            1
        } else if keys & 4 != 0 {
            -1
        } else {
            0
        };
        let right: i8 = if keys & 2 != 0 {
            -1
        } else if keys & 8 != 0 {
            1
        } else {
            0
        };
        let up: i8 = if keys & 16 != 0 {
            1
        } else if keys & 32 != 0 {
            -1
        } else {
            0
        };
        (forward, right, up)
    }
}

/// A controller never steers two opposite ways at once, and steers only with keys
/// that are held.
pub proof fn lemma_controller_keys(c: Controller, key: MovementKey)
    requires
        c.wf(),
    ensures
        !(has_key(c@.relevant_keys, key) && has_key(c@.relevant_keys, spec_opposite(key))),
        has_key(c@.relevant_keys, key) ==> has_key(c@.key_history, key),
{
    let r = c@.relevant_keys;
    let h = c@.key_history;
    lemma_key_bits(key);
    let b = spec_key_bit(key);
    let o = spec_key_bit(spec_opposite(key));
    assert(!(r & b != 0 && r & o != 0) && (r & b != 0 ==> h & b != 0)) by (bit_vector)
        requires
            r & !h == 0,
            r & 5 != 5,
            r & 10 != 10,
            r & 48 != 48,
            (b == 1 && o == 4) || (b == 4 && o == 1) || (b == 2 && o == 8) || (b == 8 && o == 2)
                || (b == 16 && o == 32) || (b == 32 && o == 16),
    ;
}

/// Tapping a key that is not held (pressing and releasing it with nothing in between)
/// leaves the key sets as they were.
pub proof fn lemma_tap_leaves_no_trace(relevant: u8, history: u8, key: MovementKey)
    requires
        keys_wf(relevant, history),
        !has_key(history, key),
    ensures
        ({
            let (r1, h1) = pressed(relevant, history, key);
            released(r1, h1, key) == (relevant, history)
        }),
{
    lemma_key_bits(key);
    let b = spec_key_bit(key);
    let o = spec_key_bit(spec_opposite(key));
    let r = relevant;
    let h = history;
    assert({
        let r1 = (r | b) & !o;
        let h1 = h | b;
        &&& (if h1 & o != 0 {
            (r1 & !b) | o
        } else {
            r1 & !b
        }) == r
        &&& h1 & !b == h
    }) by (bit_vector)
        requires
            r & !h == 0,
            h & 0xc0 == 0,
            r & 5 != 5,
            r & 10 != 10,
            r & 48 != 48,
            h & 5 != 0 ==> r & 5 != 0,
            h & 10 != 0 ==> r & 10 != 0,
            h & 48 != 0 ==> r & 48 != 0,
            h & b == 0,
            (b == 1 && o == 4) || (b == 4 && o == 1) || (b == 2 && o == 8) || (b == 8 && o == 2)
                || (b == 16 && o == 32) || (b == 32 && o == 16),
    ;
}

/// While some key steers, the movement is not zero, so that the direction can be
/// normalized.
pub proof fn lemma_movement_nonzero(c: Controller)
    requires
        c.wf(),
        c@.relevant_keys != 0,
    ensures
        axis(c@.relevant_keys, MovementKey::W, 1, MovementKey::S) != 0 || axis(
            c@.relevant_keys,
            MovementKey::A,
            -1,
            MovementKey::D,
        ) != 0 || axis(c@.relevant_keys, MovementKey::Space, 1, MovementKey::LShift) != 0,
{
    let r = c@.relevant_keys;
    let h = c@.key_history;
    assert(r & 1 != 0 || r & 4 != 0 || r & 8 != 0 || r & 2 != 0 || r & 16 != 0 || r & 32 != 0)
        by (bit_vector)
        requires
            r != 0,
            r & !h == 0,
            h & 0xc0 == 0,
    ;
}

/// What the player does with a frame's changes.
#[derive(Clone, Copy, PartialEq, Eq, Structural, Debug)]
pub struct PlayerActions {
    /// Tell the server the player's new position.
    pub send_position: bool,
    /// Tell the server the player's new orientation.
    pub send_orientation: bool,
    /// Take the projection's aspect ratio from the resized surface.
    pub update_aspect: bool,
    /// Ask the server to place the selected block.
    pub place_block: bool,
    /// Ask the server to destroy the targeted block.
    pub destroy_block: bool,
    /// Upload the new view and projection to the GPU.
    pub update_uniform: bool,
}

/// The player's reaction to a redraw: the frame's changes, whether a block is selected
/// in the inventory, and whether the surface was resized decide what is sent and what
/// is recomputed. A placement request wins over a destruction request.
pub fn player_actions(changes: Changes, has_selected_block: bool, is_resized: bool) -> (res:
    PlayerActions)
    ensures
        res.send_position == (changes.bits & MOVED == MOVED),
        res.send_orientation == (changes.bits & ROTATED == ROTATED),
        res.update_aspect == is_resized,
        res.place_block == (changes.bits & BLOCK_PLACED == BLOCK_PLACED && has_selected_block),
        res.destroy_block == (changes.bits & BLOCK_PLACED != BLOCK_PLACED && changes.bits
            & BLOCK_DESTROYED == BLOCK_DESTROYED),
        res.update_uniform == (changes.bits & VIEW != 0 || is_resized),
{
    let placed = changes.contains(BLOCK_PLACED);
    PlayerActions {
        send_position: changes.contains(MOVED),
        send_orientation: changes.contains(ROTATED),
        update_aspect: is_resized,
        place_block: placed && has_selected_block,
        destroy_block: !placed && changes.contains(BLOCK_DESTROYED),
        update_uniform: changes.intersects(VIEW) || is_resized,
    }
}

} // verus!
