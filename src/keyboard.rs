use vstd::prelude::*;

verus! {

/// Number of logical keys.
pub const KEY_COUNT: u8 = 16;

/// The host key bound to each logical key, indexed by key code.
///
///     Keypad      Keyboard
///     1 2 3 C     1 2 3 4
///     4 5 6 D     Q W E R
///     7 8 9 E     A S D F
///     A 0 B F     Z X C V
pub open spec fn key_bindings() -> Seq<char> {
    seq!['X', '1', '2', '3', 'Q', 'W', 'E', 'A', 'S', 'D', 'Z', 'C', '4', 'R', 'F', 'V']
}

/// The key that `keypress` leaves outstanding.
pub open spec fn after_press(outstanding: Option<u8>, key: u8) -> Option<u8> {
    Some(key)
}

/// What `take_keypress` returns, and the key it leaves outstanding.
pub open spec fn after_take(outstanding: Option<u8>) -> (Option<u8>, Option<u8>) {
    (outstanding, None)
}

/// Remembers the most recently pressed key that has not been consumed yet.
pub struct Keypad {
    pub pressed: Option<u8>,
}

impl View for Keypad {
    type V = Option<u8>;

    open spec fn view(&self) -> Option<u8> {
        self.pressed
    }
}

/// The host key bound to logical key `key`, if it is one of the sixteen.
pub fn key_binding(key: u8) -> (host: Option<char>)
    ensures
        key < KEY_COUNT ==> host == Some(key_bindings()[key as int]),
        key >= KEY_COUNT ==> host is None,
{
    match key {
        0x0 => Some('X'),
        0x1 => Some('1'),
        0x2 => Some('2'),
        0x3 => Some('3'),
        0x4 => Some('Q'),
        0x5 => Some('W'),
        0x6 => Some('E'),
        0x7 => Some('A'),
        0x8 => Some('S'),
        0x9 => Some('D'),
        0xA => Some('Z'),
        0xB => Some('C'),
        0xC => Some('4'),
        0xD => Some('R'),
        0xE => Some('F'),
        0xF => Some('V'),
        _ => None,
    }
}

/// Pressing a key and then taking twice yields that key, then nothing.
pub proof fn lemma_press_then_take(outstanding: Option<u8>, key: u8)
    ensures
        after_take(after_press(outstanding, key)).0 == Some(key),
        after_take(after_take(after_press(outstanding, key)).1).0 is None,
{
}

impl Keypad {
    /// A keypad with no outstanding key.
    pub fn default() -> (k: Self)
        ensures
            k@ is None,
    {
        Keypad { pressed: None }
    }

    /// Records `key` as the outstanding key, replacing any earlier one.
    pub fn keypress(&mut self, key: u8)
        ensures
            final(self)@ == after_press(old(self)@, key),
    {
        self.pressed = Some(key);
    }

    /// Returns the outstanding key, if any, and consumes it.
    pub fn take_keypress(&mut self) -> (key: Option<u8>)
        ensures
            (key, final(self)@) == after_take(old(self)@),
    {
        let key = self.pressed;
        self.pressed = None;
        key
    }

    /// Whether `key` is the outstanding key; nothing is consumed.
    pub fn was_key_pressed(&self, key: u8) -> (pressed: bool)
        ensures
            pressed == (self@ == Some(key)),
    {
        match self.pressed {
            Some(k) => k == key,
            None => false,
        }
    }

    /// Consumes the outstanding key if it is `key`; reports whether it was.
    pub fn remove_keypress(&mut self, key: u8) -> (removed: bool)
        ensures
            removed == (old(self)@ == Some(key)),
            final(self)@ == if removed {
                None
            } else {
                old(self)@
            },
    {
        let removed = self.was_key_pressed(key);
        if removed {
            self.pressed = None;
        }
        removed
    }

    /// Whether a key is outstanding; nothing is consumed.
    pub fn any_key_pressed(&self) -> (pressed: bool)
        ensures
            pressed == self@ is Some,
    {
        self.pressed.is_some()
    }

    /// Forgets the outstanding key, if any.
    pub fn zero_keypresses(&mut self)
        ensures
            final(self)@ is None,
    {
        self.pressed = None;
    }
}

} // verus!
