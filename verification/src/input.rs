//! The state of the Game Boy Advance's buttons.
//!
//! A [`ButtonState`] is the set of buttons pressed at one moment, held as the
//! bits of a `u16`. A [`ButtonController`] keeps the state of the last two
//! frames, so it can tell which buttons were just pressed or released.
use crate::number::Vector2D;
use vstd::prelude::*;

verus! {

/// Tri-state value: -1, 0 or +1. Useful for a direction on the D-Pad.
#[derive(Debug, PartialEq, Eq, Structural, Clone, Copy)]
pub enum Tri {
    /// Right or down
    Positive,
    /// Unpressed
    Zero,
    /// Left or up
    Negative,
}

impl Tri {
    /// The signed integer this stands for.
    pub open spec fn value(self) -> int {
        match self {
            Tri::Positive => 1,
            Tri::Zero => 0,
            Tri::Negative => -1,
        }
    }

    /// The tri-state value of a pair of flags `(negative, positive)`: the
    /// second counts as +1 and the first as -1.
    pub open spec fn from_pair_spec(a: (bool, bool)) -> Tri {
        if a.0 && !a.1 {
            Tri::Negative
        } else if !a.0 && a.1 {
            Tri::Positive
        } else {
            Tri::Zero
        }
    }

    /// The signed integer this stands for, as `tri as i32`.
    pub fn as_i32(self) -> (r: i32)
        ensures
            r == self.value(),
    {
        match self {
            Tri::Positive => 1,
            Tri::Zero => 0,
            Tri::Negative => -1,
        }
    }
}

impl From<(bool, bool)> for Tri {
    fn from(a: (bool, bool)) -> (r: Tri) {
        let b1: i8 = if a.0 {
            1
        } else {
            0
        };
        let b2: i8 = if a.1 {
            1
        } else {
            0
        };
        let d = b2 - b1;
        if d > 0 {
            Tri::Positive
        } else if d < 0 {
            Tri::Negative
        } else {
            Tri::Zero
        }
    }
}

impl vstd::std_specs::convert::FromSpecImpl<(bool, bool)> for Tri {
    open spec fn obeys_from_spec() -> bool {
        true
    }

    open spec fn from_spec(a: (bool, bool)) -> Tri {
        Tri::from_pair_spec(a)
    }
}

/// A button on the GBA.
#[derive(PartialEq, Eq, Structural, Hash, Debug, Clone, Copy)]
pub enum Button {
    /// The A button
    A,
    /// The B button
    B,
    /// The SELECT button
    SELECT,
    /// The START button
    START,
    /// The RIGHT button on the D-Pad
    RIGHT,
    /// The LEFT button on the D-Pad
    LEFT,
    /// The UP button on the D-Pad
    UP,
    /// The DOWN button on the D-Pad
    DOWN,
    /// The R shoulder button
    R,
    /// The L shoulder button
    L,
}

impl Button {
    /// The bit of the key input register that belongs to this button.
    pub open spec fn index(self) -> u16 {
        match self {
            Button::A => 0,
            Button::B => 1,
            Button::SELECT => 2,
            Button::START => 3,
            Button::RIGHT => 4,
            Button::LEFT => 5,
            Button::UP => 6,
            Button::DOWN => 7,
            Button::R => 8,
            Button::L => 9,
        }
    }

    /// The mask of this button, `1 << index`.
    pub open spec fn mask(self) -> u16 {
        1u16 << self.index()
    }

    /// The mask of this button, as `button as u16`.
    pub fn bits(self) -> (r: u16)
        ensures
            r == self.mask(),
    {
        match self {
            Button::A => 1u16 << 0u16,
            Button::B => 1u16 << 1u16,
            Button::SELECT => 1u16 << 2u16,
            Button::START => 1u16 << 3u16,
            Button::RIGHT => 1u16 << 4u16,
            Button::LEFT => 1u16 << 5u16,
            Button::UP => 1u16 << 6u16,
            Button::DOWN => 1u16 << 7u16,
            Button::R => 1u16 << 8u16,
            Button::L => 1u16 << 9u16,
        }
    }

    /// Both buttons, as `a | b`.
    pub fn or(self, rhs: Button) -> (r: ButtonState)
        ensures
            r.bits() == self.mask() | rhs.mask(),
    {
        ButtonState(self.bits() | rhs.bits())
    }
}

/// The state of several buttons at once: bit `i` is set when the button with
/// index `i` is pressed.
#[derive(Clone, Copy, PartialEq, Eq, Structural, Debug)]
pub struct ButtonState(u16);

impl ButtonState {
    /// The bits of this state.
    pub closed spec fn bits(self) -> u16 {
        self.0
    }

    /// The state with the given bits.
    pub closed spec fn with_bits(bits: u16) -> ButtonState {
        ButtonState(bits)
    }

    /// The bits of a state built from bits are those bits.
    pub proof fn lemma_with_bits(bits: u16)
        ensures
            Self::with_bits(bits).bits() == bits,
    {
    }

    /// Whether the button `b` is pressed in this state.
    pub open spec fn has(self, b: Button) -> bool {
        self.bits() & b.mask() != 0
    }

    /// The state in which only `button` is pressed.
    pub fn single(button: Button) -> (r: Self)
        ensures
            r.bits() == button.mask(),
    {
        ButtonState(button.bits())
    }

    /// The state read from the key input register, where a pressed button
    /// reads as a cleared bit.
    pub fn from_key_input(register: u16) -> (r: Self)
        ensures
            r.bits() == !register,
    {
        ButtonState(!register)
    }

    /// The state with the given raw bits.
    pub fn from_bits(bits: u16) -> (r: Self)
        ensures
            r.bits() == bits,
    {
        ButtonState(bits)
    }

    /// The raw bits of this state.
    pub fn to_bits(self) -> (r: u16)
        ensures
            r == self.bits(),
    {
        self.0
    }

    /// Every button pressed.
    pub fn all() -> (r: Self)
        ensures
            r.bits() == 0x3ff,
    {
        ButtonState(0b0000_0011_1111_1111)
    }

    /// No button pressed.
    pub fn empty() -> (r: Self)
        ensures
            r.bits() == 0,
    {
        ButtonState(0)
    }

    /// Whether `button` is pressed.
    pub fn is_pressed(self, button: Button) -> (r: bool)
        ensures
            r == self.has(button),
    {
        self.any_pressed(Self::single(button))
    }

    /// Whether `button` is not pressed.
    pub fn is_released(self, button: Button) -> (r: bool)
        ensures
            r == !self.has(button),
    {
        !self.is_pressed(button)
    }

    /// Whether any button of `state` is pressed in `self`.
    pub fn any_pressed(self, state: ButtonState) -> (r: bool)
        ensures
            r == (self.bits() & state.bits() != 0),
    {
        self.0 & state.0 != 0
    }

    /// Whether every button of `state` is pressed in `self`.
    pub fn all_pressed(self, state: ButtonState) -> (r: bool)
        ensures
            r == (self.bits() & state.bits() == state.bits()),
    {
        self.0 & state.0 == state.0
    }

    /// The buttons pressed in either state, as `a | b`.
    pub fn or(self, rhs: ButtonState) -> (r: ButtonState)
        ensures
            r.bits() == self.bits() | rhs.bits(),
    {
        ButtonState(self.0 | rhs.0)
    }
}

impl From<Button> for ButtonState {
    fn from(value: Button) -> (r: Self) {
        Self::single(value)
    }
}

impl vstd::std_specs::convert::FromSpecImpl<Button> for ButtonState {
    open spec fn obeys_from_spec() -> bool {
        true
    }

    open spec fn from_spec(value: Button) -> ButtonState {
        ButtonState::with_bits(value.mask())
    }
}

/// Keeps the button state of the current and the previous frame.
pub struct ButtonController {
    previous: ButtonState,
    current: ButtonState,
}

impl ButtonController {
    /// The state of the current frame.
    pub closed spec fn current_state(self) -> ButtonState {
        self.current
    }

    /// The state of the previous frame.
    pub closed spec fn previous_state(self) -> ButtonState {
        self.previous
    }

    /// Buttons pressed now but not in the previous frame.
    pub open spec fn just_pressed_bits(self) -> u16 {
        self.current_state().bits() & !self.previous_state().bits()
    }

    /// Buttons pressed in the previous frame but not now.
    pub open spec fn just_released_bits(self) -> u16 {
        !self.current_state().bits() & self.previous_state().bits()
    }

    /// A controller whose previous and current state are both `pressed`, the
    /// state read from the hardware when it is made.
    pub fn new(pressed: ButtonState) -> (r: Self)
        ensures
            r.current_state() == pressed,
            r.previous_state() == pressed,
    {
        ButtonController { previous: pressed, current: pressed }
    }

    /// Moves to the next frame, in which `state` is pressed.
    pub fn update_with_state(&mut self, state: ButtonState)
        ensures
            final(self).previous_state() == old(self).current_state(),
            final(self).current_state() == state,
    {
        self.previous = self.current;
        self.current = state;
    }

    /// Moves to the next frame, given the key input register: its clear bits
    /// are the buttons pressed.
    pub fn update(&mut self, key_input: u16)
        ensures
            final(self).previous_state() == old(self).current_state(),
            final(self).current_state().bits() == !key_input,
    {
        self.update_with_state(ButtonState::from_key_input(key_input));
    }

    /// `Positive` if right is pressed, `Negative` if left is, `Zero` if neither
    /// or both are.
    pub fn x_tri(&self) -> (r: Tri)
        ensures
            r == Tri::from_pair_spec(
                (self.current_state().has(Button::LEFT), self.current_state().has(Button::RIGHT)),
            ),
    {
        let left = self.is_pressed(ButtonState::single(Button::LEFT));
        let right = self.is_pressed(ButtonState::single(Button::RIGHT));
        Tri::from((left, right))
    }

    /// `Positive` if down is pressed, `Negative` if up is, `Zero` if neither or
    /// both are.
    pub fn y_tri(&self) -> (r: Tri)
        ensures
            r == Tri::from_pair_spec(
                (self.current_state().has(Button::UP), self.current_state().has(Button::DOWN)),
            ),
    {
        let up = self.is_pressed(ButtonState::single(Button::UP));
        let down = self.is_pressed(ButtonState::single(Button::DOWN));
        Tri::from((up, down))
    }

    /// `Positive` if R is pressed, `Negative` if L is, `Zero` if neither or
    /// both are.
    pub fn lr_tri(&self) -> (r: Tri)
        ensures
            r == Tri::from_pair_spec(
                (self.current_state().has(Button::L), self.current_state().has(Button::R)),
            ),
    {
        let l = self.is_pressed(ButtonState::single(Button::L));
        let r = self.is_pressed(ButtonState::single(Button::R));
        Tri::from((l, r))
    }

    /// The direction pressed on the D-Pad as a vector.
    pub fn vector(&self) -> (r: Vector2D<i32>)
        ensures
            r.x == Tri::from_pair_spec(
                (self.current_state().has(Button::LEFT), self.current_state().has(Button::RIGHT)),
            ).value(),
            r.y == Tri::from_pair_spec(
                (self.current_state().has(Button::UP), self.current_state().has(Button::DOWN)),
            ).value(),
    {
        Vector2D { x: self.x_tri().as_i32(), y: self.y_tri().as_i32() }
    }

    /// Like [`ButtonController::x_tri`] for the buttons that were just pressed.
    pub fn just_pressed_x_tri(&self) -> (r: Tri)
        ensures
            r == Tri::from_pair_spec(
                (
                    self.just_pressed_bits() & Button::LEFT.mask() != 0,
                    self.just_pressed_bits() & Button::RIGHT.mask() != 0,
                ),
            ),
    {
        let left = self.is_just_pressed(ButtonState::single(Button::LEFT));
        let right = self.is_just_pressed(ButtonState::single(Button::RIGHT));
        Tri::from((left, right))
    }

    /// Like [`ButtonController::y_tri`] for the buttons that were just pressed.
    pub fn just_pressed_y_tri(&self) -> (r: Tri)
        ensures
            r == Tri::from_pair_spec(
                (
                    self.just_pressed_bits() & Button::UP.mask() != 0,
                    self.just_pressed_bits() & Button::DOWN.mask() != 0,
                ),
            ),
    {
        let up = self.is_just_pressed(ButtonState::single(Button::UP));
        let down = self.is_just_pressed(ButtonState::single(Button::DOWN));
        Tri::from((up, down))
    }

    /// Like [`ButtonController::lr_tri`] for the buttons that were just pressed.
    pub fn just_pressed_lr_tri(&self) -> (r: Tri)
        ensures
            r == Tri::from_pair_spec(
                (
                    self.just_pressed_bits() & Button::L.mask() != 0,
                    self.just_pressed_bits() & Button::R.mask() != 0,
                ),
            ),
    {
        let l = self.is_just_pressed(ButtonState::single(Button::L));
        let r = self.is_just_pressed(ButtonState::single(Button::R));
        Tri::from((l, r))
    }

    /// The direction just pressed on the D-Pad as a vector.
    pub fn just_pressed_vector(&self) -> (r: Vector2D<i32>)
        ensures
            r.x == Tri::from_pair_spec(
                (
                    self.just_pressed_bits() & Button::LEFT.mask() != 0,
                    self.just_pressed_bits() & Button::RIGHT.mask() != 0,
                ),
            ).value(),
            r.y == Tri::from_pair_spec(
                (
                    self.just_pressed_bits() & Button::UP.mask() != 0,
                    self.just_pressed_bits() & Button::DOWN.mask() != 0,
                ),
            ).value(),
    {
        Vector2D { x: self.just_pressed_x_tri().as_i32(), y: self.just_pressed_y_tri().as_i32() }
    }

    /// Whether any of `buttons` is pressed.
    pub fn is_pressed(&self, buttons: ButtonState) -> (r: bool)
        ensures
            r == (self.current_state().bits() & buttons.bits() != 0),
    {
        self.current.any_pressed(buttons)
    }

    /// Whether any of `buttons` is not pressed.
    pub fn is_released(&self, buttons: ButtonState) -> (r: bool)
        ensures
            r == (self.current_state().bits() & buttons.bits() != buttons.bits()),
    {
        !self.current.all_pressed(buttons)
    }

    /// Whether any of `buttons` went from not pressed to pressed in the last
    /// frame.
    pub fn is_just_pressed(&self, buttons: ButtonState) -> (r: bool)
        ensures
            r == (self.just_pressed_bits() & buttons.bits() != 0),
    {
        ButtonState(self.current.0 & !self.previous.0).any_pressed(buttons)
    }

    /// Whether any of `buttons` went from pressed to not pressed in the last
    /// frame.
    pub fn is_just_released(&self, buttons: ButtonState) -> (r: bool)
        ensures
            r == (self.just_released_bits() & buttons.bits() != 0),
    {
        ButtonState(!self.current.0 & self.previous.0).any_pressed(buttons)
    }
}

/// Each button is read from its own bit of the key input register: A is
/// bit 0, B bit 1, SELECT bit 2, START bit 3, RIGHT bit 4, LEFT bit 5, UP
/// bit 6, DOWN bit 7, R bit 8 and L bit 9. After an update with the
/// register `key_input`, a button is pressed exactly when its bit is clear.
pub proof fn lemma_buttons_read_key_register(c: ButtonController, key_input: u16)
    requires
        c.current_state().bits() == !key_input,
    ensures
        Button::A.mask() == 0x001,
        Button::B.mask() == 0x002,
        Button::SELECT.mask() == 0x004,
        Button::START.mask() == 0x008,
        Button::RIGHT.mask() == 0x010,
        Button::LEFT.mask() == 0x020,
        Button::UP.mask() == 0x040,
        Button::DOWN.mask() == 0x080,
        Button::R.mask() == 0x100,
        Button::L.mask() == 0x200,
        c.current_state().has(Button::A) <==> key_input & 0x001 == 0,
        c.current_state().has(Button::B) <==> key_input & 0x002 == 0,
        c.current_state().has(Button::SELECT) <==> key_input & 0x004 == 0,
        c.current_state().has(Button::START) <==> key_input & 0x008 == 0,
        c.current_state().has(Button::RIGHT) <==> key_input & 0x010 == 0,
        c.current_state().has(Button::LEFT) <==> key_input & 0x020 == 0,
        c.current_state().has(Button::UP) <==> key_input & 0x040 == 0,
        c.current_state().has(Button::DOWN) <==> key_input & 0x080 == 0,
        c.current_state().has(Button::R) <==> key_input & 0x100 == 0,
        c.current_state().has(Button::L) <==> key_input & 0x200 == 0,
{
    crate::bits::lemma_u16_constants();
    crate::bits::lemma_bit_test_u16(key_input, 0);
    crate::bits::lemma_bit_test_u16(key_input, 1);
    crate::bits::lemma_bit_test_u16(key_input, 2);
    crate::bits::lemma_bit_test_u16(key_input, 3);
    crate::bits::lemma_bit_test_u16(key_input, 4);
    crate::bits::lemma_bit_test_u16(key_input, 5);
    crate::bits::lemma_bit_test_u16(key_input, 6);
    crate::bits::lemma_bit_test_u16(key_input, 7);
    crate::bits::lemma_bit_test_u16(key_input, 8);
    crate::bits::lemma_bit_test_u16(key_input, 9);
}

/// A single button is never both just pressed and just released.
pub proof fn lemma_not_just_pressed_and_released(c: ButtonController, b: Button)
    ensures
        !((c.just_pressed_bits() & b.mask() != 0) && (c.just_released_bits() & b.mask() != 0)),
{
    let cur = c.current_state().bits();
    let prev = c.previous_state().bits();
    let i = b.index();
    assert(!(((cur & !prev) & (1u16 << i) != 0) && ((!cur & prev) & (1u16 << i) != 0))) by (bit_vector)
        requires
            i < 10u16,
    ;
}

/// A button is just pressed exactly when it is pressed now and was not in the
/// previous frame.
pub proof fn lemma_just_pressed_single(c: ButtonController, b: Button)
    ensures
        (c.just_pressed_bits() & b.mask() != 0) == (c.current_state().has(b) && !c.previous_state().has(b)),
        (c.just_released_bits() & b.mask() != 0) == (!c.current_state().has(b) && c.previous_state().has(b)),
{
    let cur = c.current_state().bits();
    let prev = c.previous_state().bits();
    let i = b.index();
    assert(i < 10);
    assert(((cur & !prev) & (1u16 << i) != 0) == ((cur & (1u16 << i) != 0) && !(prev & (1u16 << i) != 0))
        && ((!cur & prev) & (1u16 << i) != 0) == (!(cur & (1u16 << i) != 0) && (prev & (1u16 << i) != 0))) by (bit_vector)
        requires i < 10u16;
}

/// A state with a single button pressed has exactly that button pressed.
pub proof fn lemma_single_has(s: ButtonState, a: Button, b: Button)
    requires
        s.bits() == a.mask(),
    ensures
        s.has(b) == (a == b),
{
    let ia = a.index();
    let ib = b.index();
    assert(((1u16 << ia) & (1u16 << ib) != 0) == (ia == ib)) by (bit_vector)
        requires ia < 10u16, ib < 10u16;
}

} // verus!
