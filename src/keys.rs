use vstd::prelude::*;

verus! {

/// Upper bound (exclusive) of the integer image of key codes.
pub const KEY_MAX: usize = 767;

pub const KEY_RESERVED: u16 = 0;
pub const KEY_ESC: u16 = 1;
pub const KEY_TAB: u16 = 15;
pub const KEY_Q: u16 = 16;
pub const KEY_W: u16 = 17;
pub const KEY_E: u16 = 18;
pub const KEY_R: u16 = 19;
pub const KEY_ENTER: u16 = 28;
pub const KEY_LEFTCTRL: u16 = 29;
pub const KEY_A: u16 = 30;
pub const KEY_S: u16 = 31;
pub const KEY_D: u16 = 32;
pub const KEY_F: u16 = 33;
pub const KEY_G: u16 = 34;
pub const KEY_H: u16 = 35;
pub const KEY_J: u16 = 36;
pub const KEY_K: u16 = 37;
pub const KEY_L: u16 = 38;
pub const KEY_LEFTSHIFT: u16 = 42;
pub const KEY_RIGHTSHIFT: u16 = 54;
pub const KEY_LEFTALT: u16 = 56;
pub const KEY_SPACE: u16 = 57;
pub const KEY_CAPSLOCK: u16 = 58;
pub const KEY_RIGHTCTRL: u16 = 97;
pub const KEY_RIGHTALT: u16 = 100;
pub const KEY_UP: u16 = 103;
pub const KEY_LEFT: u16 = 105;
pub const KEY_RIGHT: u16 = 106;
pub const KEY_DOWN: u16 = 108;

/// Whether the integer `i` is the image of some key code.
pub open spec fn is_key_index(i: int) -> bool {
    &&& 0 <= i < KEY_MAX
    &&& i != 84
    &&& !(195 <= i < 200)
    &&& !(249 <= i < 352)
    &&& !(443 <= i < 448)
    &&& !(452 <= i < 464)
    &&& !(485 <= i < 497)
    &&& !(507 <= i < 512)
    &&& !(543 <= i < 560)
    &&& !(562 <= i < 576)
    &&& !(585 <= i < 592)
    &&& !(594 <= i < 608)
    &&& !(633 <= i < 767)
}

/// Decides `is_key_index`.
pub fn is_key_index_exec(i: usize) -> (r: bool)
    ensures
        r == is_key_index(i as int),
{
    i < KEY_MAX && i != 84 && !(195 <= i && i < 200) && !(249 <= i && i < 352) && !(443 <= i
        && i < 448) && !(452 <= i && i < 464) && !(485 <= i && i < 497) && !(507 <= i && i < 512)
        && !(543 <= i && i < 560) && !(562 <= i && i < 576) && !(585 <= i && i < 592) && !(594
        <= i && i < 608) && !(633 <= i && i < 767)
}

/// A physical key, identified by its integer image.
#[derive(Clone, Copy, Debug, PartialEq, Eq, Hash, Structural)]
pub struct KeyCode {
    pub code: u16,
}

impl KeyCode {
    /// A key code denotes an actual key.
    pub open spec fn valid(self) -> bool {
        is_key_index(self.code as int)
    }

    /// The key whose integer image is `i`, if there is one.
    pub fn try_from_index(i: usize) -> (r: Option<KeyCode>)
        ensures
            r is Some <==> is_key_index(i as int),
            r matches Some(k) ==> k.valid() && k.code == i,
    {
        if is_key_index_exec(i) {
            Some(KeyCode { code: i as u16 })
        } else {
            None
        }
    }

    /// The integer image of this key.
    pub fn index(&self) -> (r: usize)
        ensures
            r == self.code,
    {
        self.code as usize
    }
}

} // verus!
