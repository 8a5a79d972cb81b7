//! The computer keyboard as a musical keyboard.
use vstd::prelude::*;

use crate::event::Event;
use crate::synth::note_freq;
use crate::Hz;

verus! {

/// Number of keys that play notes.
pub const KEY_COUNT: usize = 18;

/// A physical key.
#[derive(Clone, Copy, Debug, PartialEq, Eq, Structural)]
pub enum KeyCode {
    Q,
    W,
    E,
    R,
    T,
    Y,
    U,
    I,
    O,
    P,
    LBracket,
    RBracket,
    BSlash,
    A,
    S,
    D,
    F,
    G,
    H,
    J,
    K,
    L,
    Semi,
    Quote,
    Enter,
    Home,
    Z,
    X,
    C,
    V,
    B,
    N,
    M,
    Comma,
    Dot,
    FSLash,
}

/// The platform scancode of a key.
pub open spec fn scancode_of(k: KeyCode) -> u16 {
    match k {
        KeyCode::Q => 12,
        KeyCode::W => 13,
        KeyCode::E => 14,
        KeyCode::R => 15,
        KeyCode::T => 17,
        KeyCode::Y => 16,
        KeyCode::U => 32,
        KeyCode::I => 34,
        KeyCode::O => 31,
        KeyCode::P => 35,
        KeyCode::LBracket => 33,
        KeyCode::RBracket => 30,
        KeyCode::BSlash => 42,
        KeyCode::A => 0,
        KeyCode::S => 1,
        KeyCode::D => 2,
        KeyCode::F => 3,
        KeyCode::G => 5,
        KeyCode::H => 4,
        KeyCode::J => 38,
        KeyCode::K => 40,
        KeyCode::L => 37,
        KeyCode::Semi => 41,
        KeyCode::Quote => 39,
        KeyCode::Enter => 36,
        KeyCode::Home => 115,
        KeyCode::Z => 6,
        KeyCode::X => 7,
        KeyCode::C => 8,
        KeyCode::V => 9,
        KeyCode::B => 11,
        KeyCode::N => 45,
        KeyCode::M => 46,
        KeyCode::Comma => 43,
        KeyCode::Dot => 47,
        KeyCode::FSLash => 44,
    }
}

impl KeyCode {
    /// The platform scancode of this key.
    pub fn scancode(&self) -> (r: u16)
        ensures
            r == scancode_of(*self),
    {
        match self {
            KeyCode::Q => 12,
            KeyCode::W => 13,
            KeyCode::E => 14,
            KeyCode::R => 15,
            KeyCode::T => 17,
            KeyCode::Y => 16,
            KeyCode::U => 32,
            KeyCode::I => 34,
            KeyCode::O => 31,
            KeyCode::P => 35,
            KeyCode::LBracket => 33,
            KeyCode::RBracket => 30,
            KeyCode::BSlash => 42,
            KeyCode::A => 0,
            KeyCode::S => 1,
            KeyCode::D => 2,
            KeyCode::F => 3,
            KeyCode::G => 5,
            KeyCode::H => 4,
            KeyCode::J => 38,
            KeyCode::K => 40,
            KeyCode::L => 37,
            KeyCode::Semi => 41,
            KeyCode::Quote => 39,
            KeyCode::Enter => 36,
            KeyCode::Home => 115,
            KeyCode::Z => 6,
            KeyCode::X => 7,
            KeyCode::C => 8,
            KeyCode::V => 9,
            KeyCode::B => 11,
            KeyCode::N => 45,
            KeyCode::M => 46,
            KeyCode::Comma => 43,
            KeyCode::Dot => 47,
            KeyCode::FSLash => 44,
        }
    }
}

/// The key that plays note `i`: the home row and the row above, from `A`.
pub open spec fn key_code_at(i: int) -> KeyCode {
    if i == 0 {
        KeyCode::A
    } else     if i == 1 {
        KeyCode::W
    } else     if i == 2 {
        KeyCode::S
    } else     if i == 3 {
        KeyCode::E
    } else     if i == 4 {
        KeyCode::D
    } else     if i == 5 {
        KeyCode::F
    } else     if i == 6 {
        KeyCode::T
    } else     if i == 7 {
        KeyCode::G
    } else     if i == 8 {
        KeyCode::Y
    } else     if i == 9 {
        KeyCode::H
    } else     if i == 10 {
        KeyCode::U
    } else     if i == 11 {
        KeyCode::J
    } else     if i == 12 {
        KeyCode::K
    } else     if i == 13 {
        KeyCode::O
    } else     if i == 14 {
        KeyCode::L
    } else     if i == 15 {
        KeyCode::P
    } else     if i == 16 {
        KeyCode::Semi
    } else {
        KeyCode::Quote
    }
}

/// A playing key: its code, the frequency of its note, and whether it is
/// held down.
#[derive(Clone, Copy, Debug)]
pub struct Key {
    pub code: KeyCode,
    pub freq: Hz,
    pub pressed: bool,
}

/// The events one scan produces for keys `i` and onward, key by key: a
/// note-on where a key went down, a note-off where it came up.
pub open spec fn key_events(keys: Seq<Key>, down: Seq<bool>, inst: usize, n: int) -> Seq<Event>
    decreases n,
{
    if n <= 0 {
        Seq::empty()
    } else {
        let rest = key_events(keys, down, inst, n - 1);
        let i = n - 1;
        if down[i] && !keys[i].pressed {
            rest.push(Event::NoteOn(inst, i as u8))
        } else if !down[i] && keys[i].pressed {
            rest.push(Event::NoteOff(inst, i as u8))
        } else {
            rest
        }
    }
}

/// The keys that play notes, note `i` sounding `i - 9` semitones from A4.
pub struct Keyboard {
    pub keys: [Key; 18],
}

impl Keyboard {
    pub fn new() -> (r: Keyboard)
        ensures
            forall|i: int|
                0 <= i < KEY_COUNT ==> #[trigger] r.keys@[i] == (Key {
                    code: key_code_at(i),
                    freq: note_freq(i as u8),
                    pressed: false,
                }),
    {
        Keyboard {
            keys: [
                Key { code: KeyCode::A, freq: Hz::from_pitch_std(-9), pressed: false },
                Key { code: KeyCode::W, freq: Hz::from_pitch_std(-8), pressed: false },
                Key { code: KeyCode::S, freq: Hz::from_pitch_std(-7), pressed: false },
                Key { code: KeyCode::E, freq: Hz::from_pitch_std(-6), pressed: false },
                Key { code: KeyCode::D, freq: Hz::from_pitch_std(-5), pressed: false },
                Key { code: KeyCode::F, freq: Hz::from_pitch_std(-4), pressed: false },
                Key { code: KeyCode::T, freq: Hz::from_pitch_std(-3), pressed: false },
                Key { code: KeyCode::G, freq: Hz::from_pitch_std(-2), pressed: false },
                Key { code: KeyCode::Y, freq: Hz::from_pitch_std(-1), pressed: false },
                Key { code: KeyCode::H, freq: Hz::from_pitch_std(0), pressed: false },
                Key { code: KeyCode::U, freq: Hz::from_pitch_std(1), pressed: false },
                Key { code: KeyCode::J, freq: Hz::from_pitch_std(2), pressed: false },
                Key { code: KeyCode::K, freq: Hz::from_pitch_std(3), pressed: false },
                Key { code: KeyCode::O, freq: Hz::from_pitch_std(4), pressed: false },
                Key { code: KeyCode::L, freq: Hz::from_pitch_std(5), pressed: false },
                Key { code: KeyCode::P, freq: Hz::from_pitch_std(6), pressed: false },
                Key { code: KeyCode::Semi, freq: Hz::from_pitch_std(7), pressed: false },
                Key { code: KeyCode::Quote, freq: Hz::from_pitch_std(8), pressed: false },
            ],
        }
    }

    /// Compares which keys are down now with which were held, records the
    /// change, and returns the events for instrument `inst`, in key order.
    pub fn scan(&mut self, inst: usize, down: &[bool]) -> (r: Vec<Event>)
        requires
            down@.len() == KEY_COUNT,
        ensures
            r@ == key_events(old(self).keys@, down@, inst, KEY_COUNT as int),
            forall|i: int|
                0 <= i < KEY_COUNT ==> #[trigger] final(self).keys@[i] == (Key {
                    pressed: down@[i],
                    ..old(self).keys@[i]
                }),
    {
        let mut events: Vec<Event> = Vec::new();
        let mut i: usize = 0;
        while i < KEY_COUNT
            invariant
                i <= KEY_COUNT,
                down@.len() == KEY_COUNT,
                events@ == key_events(old(self).keys@, down@, inst, i as int),
                forall|k: int|
                    0 <= k < i ==> #[trigger] self.keys@[k] == (Key {
                        pressed: down@[k],
                        ..old(self).keys@[k]
                    }),
                forall|k: int| i <= k < KEY_COUNT ==> #[trigger] self.keys@[k] == old(self).keys@[k],
            decreases KEY_COUNT - i,
        {
            let pressed = self.keys[i].pressed;
            if down[i] && !pressed {
                self.keys[i].pressed = true;
                events.push(Event::NoteOn(inst, i as u8));
            } else if !down[i] && pressed {
                self.keys[i].pressed = false;
                events.push(Event::NoteOff(inst, i as u8));
            }
            i = i + 1;
        }
        events
    }
}

} // verus!
