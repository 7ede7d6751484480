use vstd::prelude::*;

verus! {

/// Number of keys on the CHIP-8 hexadecimal keypad.
pub const KEY_COUNT: usize = 16;

/// A key of the host keyboard, as far as the keypad layout cares.
///
/// The left-hand 4x4 block of a QWERTY keyboard stands for the CHIP-8
/// keypad; every other key is `Other`.
#[derive(Clone, Copy, Debug, PartialEq, Eq, Structural)]
pub enum HostKey {
    Num1,
    Num2,
    Num3,
    Num4,
    Q,
    W,
    E,
    R,
    A,
    S,
    D,
    F,
    Z,
    X,
    C,
    V,
    Other,
}

/// The CHIP-8 key (0x0 to 0xF) that a host key stands for, if any.
///
/// ```text
/// 1 2 3 4      1 2 3 C
/// Q W E R  ->  4 5 6 D
/// A S D F      7 8 9 E
/// Z X C V      A 0 B F
/// ```
pub open spec fn key_index(key: HostKey) -> Option<int> {
    match key {
        HostKey::Num1 => Some(0x1),
        HostKey::Num2 => Some(0x2),
        HostKey::Num3 => Some(0x3),
        HostKey::Num4 => Some(0xc),
        HostKey::Q => Some(0x4),
        HostKey::W => Some(0x5),
        HostKey::E => Some(0x6),
        HostKey::R => Some(0xd),
        HostKey::A => Some(0x7),
        HostKey::S => Some(0x8),
        HostKey::D => Some(0x9),
        HostKey::F => Some(0xe),
        HostKey::Z => Some(0xa),
        HostKey::X => Some(0x0),
        HostKey::C => Some(0xb),
        HostKey::V => Some(0xf),
        HostKey::Other => None,
    }
}

/// The lowest key at or above `from` that is held down, or 16 if none is.
pub open spec fn first_pressed_from(keys: Seq<bool>, from: int) -> int
    decreases 16 - from,
{
    if from >= 16 {
        16
    } else if keys[from] {
        from
    } else {
        first_pressed_from(keys, from + 1)
    }
}

/// The lowest key that is held down, or 16 if none is.
pub open spec fn first_pressed(keys: Seq<bool>) -> int {
    first_pressed_from(keys, 0)
}

/// If no key in `from..k` is held down and key `k` is (or `k` is 16), the
/// first key held down from `from` on is `k`.
pub proof fn lemma_first_pressed(keys: Seq<bool>, from: int, k: int)
    requires
        0 <= from <= k <= 16,
        forall|j: int| from <= j < k ==> !keys[j],
        k < 16 ==> keys[k],
    ensures
        first_pressed_from(keys, from) == k,
    decreases k - from,
{
    if from < k {
        lemma_first_pressed(keys, from + 1, k);
    }
}

/// The state of the sixteen keys: `true` while a key is held down.
pub struct Keypad {
    keys: [bool; 16],
}

impl View for Keypad {
    type V = Seq<bool>;

    closed spec fn view(&self) -> Seq<bool> {
        self.keys@
    }
}

/// The keypad always has sixteen keys.
pub broadcast proof fn lemma_keypad_len(k: &Keypad)
    ensures
        #[trigger] k@.len() == KEY_COUNT,
{
}

impl Keypad {
    /// A keypad with every key released.
    pub fn new() -> (k: Keypad)
        ensures
            k@ == Seq::new(16, |_i: int| false),
    {
        let k = Keypad { keys: [false; 16] };
        assert(k@ =~= Seq::new(16, |_i: int| false));
        k
    }

    /// Whether key `index` is held down.
    pub fn pressed(&mut self, index: usize) -> (b: bool)
        requires
            index < KEY_COUNT,
        ensures
            b == old(self)@[index as int],
            final(self)@ == old(self)@,
    {
        self.keys[index]
    }

    /// Records that a host key went down (`state` true) or up (`state` false).
    /// Keys outside the keypad layout are ignored.
    pub fn press(&mut self, key: HostKey, state: bool)
        ensures
            match key_index(key) {
                Some(k) => final(self)@ == old(self)@.update(k, state),
                None => final(self)@ == old(self)@,
            },
    {
        match key {
            HostKey::Num1 => self.set_key(0x1, state),
            HostKey::Num2 => self.set_key(0x2, state),
            HostKey::Num3 => self.set_key(0x3, state),
            HostKey::Num4 => self.set_key(0xc, state),
            HostKey::Q => self.set_key(0x4, state),
            HostKey::W => self.set_key(0x5, state),
            HostKey::E => self.set_key(0x6, state),
            HostKey::R => self.set_key(0xd, state),
            HostKey::A => self.set_key(0x7, state),
            HostKey::S => self.set_key(0x8, state),
            HostKey::D => self.set_key(0x9, state),
            HostKey::F => self.set_key(0xe, state),
            HostKey::Z => self.set_key(0xa, state),
            HostKey::X => self.set_key(0x0, state),
            HostKey::C => self.set_key(0xb, state),
            HostKey::V => self.set_key(0xf, state),
            HostKey::Other => {},
        }
    }

    /// Sets key `index` to `state`.
    pub fn set_key(&mut self, index: usize, state: bool)
        requires
            index < KEY_COUNT,
        ensures
            final(self)@ == old(self)@.update(index as int, state),
    {
        self.keys[index] = state;
    }
}

/// Pressing a key and letting it go again leaves the keypad as it was when
/// the key was up, and while it is down only that key has changed.
pub proof fn lemma_press_release(keys: Seq<bool>, key: HostKey)
    requires
        keys.len() == KEY_COUNT,
        key_index(key) is Some,
        !keys[key_index(key)->0],
    ensures
        keys.update(key_index(key)->0, true)[key_index(key)->0],
        forall|j: int|
            0 <= j < KEY_COUNT && j != key_index(key)->0 ==> keys.update(key_index(key)->0, true)[j]
                == keys[j],
        keys.update(key_index(key)->0, true).update(key_index(key)->0, false) == keys,
{
    assert(keys.update(key_index(key)->0, true).update(key_index(key)->0, false) =~= keys);
}

} // verus!
