use vstd::prelude::*;

verus! {

/// Sixteen independent keys, each pressed or released.
pub struct Keyboard {
    pub key_pressed: [bool; 16],
}

impl View for Keyboard {
    type V = Seq<bool>;

    open spec fn view(&self) -> Seq<bool> {
        self.key_pressed@
    }
}

impl Keyboard {
    /// A keypad with every key released.
    pub fn new() -> (r: Keyboard)
        ensures
            r@ == Seq::new(16, |k: int| false),
    {
        let r = Keyboard { key_pressed: [false; 16] };
        assert(r@ =~= Seq::new(16, |k: int| false));
        r
    }

    /// Whether the key with code `index` is held down.
    pub fn is_key_pressed(&self, index: u8) -> (r: bool)
        requires
            index < 16,
        ensures
            r == self@[index as int],
    {
        self.key_pressed[index as usize]
    }

    /// Marks the key with code `index` as held down.
    pub fn key_down(&mut self, index: u8)
        requires
            index < 16,
        ensures
            final(self)@ == old(self)@.update(index as int, true),
    {
        self.key_pressed.set(index as usize, true);
    }

    /// Marks the key with code `index` as released.
    pub fn key_up(&mut self, index: u8)
        requires
            index < 16,
        ensures
            final(self)@ == old(self)@.update(index as int, false),
    {
        self.key_pressed.set(index as usize, false);
    }
}

} // verus!
