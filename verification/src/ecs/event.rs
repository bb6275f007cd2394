//! Events delivered by the window layer, and their payload encoding.  The
//! world keeps at most one live event instance per type until the end of
//! the current tick.
use vstd::prelude::*;

verus! {

/// A keyboard event carrying the affected key's code.
#[derive(PartialEq, Eq, Structural, Clone, Copy, Debug)]
pub enum KeyboardEvent {
    KeyDown(u8),
    KeyUp(u8),
}

/// The two payload bytes of a keyboard event: direction, then key code.
pub open spec fn spec_keyboard_event_bytes(e: KeyboardEvent) -> Seq<u8> {
    match e {
        KeyboardEvent::KeyDown(key) => seq![0u8, key],
        KeyboardEvent::KeyUp(key) => seq![1u8, key],
    }
}

/// The event a two-byte payload decodes to, if its direction byte is
/// known.
pub open spec fn spec_keyboard_event_of_bytes(b: Seq<u8>) -> Option<KeyboardEvent> {
    if b.len() != 2 {
        None
    } else if b[0] == 0 {
        Some(KeyboardEvent::KeyDown(b[1]))
    } else if b[0] == 1 {
        Some(KeyboardEvent::KeyUp(b[1]))
    } else {
        None
    }
}

/// Encoding an event then decoding the bytes gives the event back.
pub proof fn lemma_keyboard_event_round_trip(e: KeyboardEvent)
    ensures
        spec_keyboard_event_of_bytes(spec_keyboard_event_bytes(e)) == Some(e),
{
}

impl KeyboardEvent {
    /// This event as an event-store payload.
    pub fn encode(&self) -> (r: Vec<u8>)
        ensures
            r@ == spec_keyboard_event_bytes(*self),
    {
        let mut r: Vec<u8> = Vec::new();
        match self {
            KeyboardEvent::KeyDown(key) => {
                r.push(0);
                r.push(*key);
            },
            KeyboardEvent::KeyUp(key) => {
                r.push(1);
                r.push(*key);
            },
        }
        proof {
            assert(r@ =~= spec_keyboard_event_bytes(*self));
        }
        r
    }

    /// The event a payload holds, if it is a well-formed encoding.
    pub fn decode(bytes: &Vec<u8>) -> (r: Option<KeyboardEvent>)
        ensures
            r == spec_keyboard_event_of_bytes(bytes@),
    {
        if bytes.len() != 2 {
            return None;
        }
        let direction = bytes[0];
        let key = bytes[1];
        if direction == 0 {
            Some(KeyboardEvent::KeyDown(key))
        } else if direction == 1 {
            Some(KeyboardEvent::KeyUp(key))
        } else {
            None
        }
    }
}

} // verus!
