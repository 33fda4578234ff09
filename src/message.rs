//! The note and controller messages that drive the engine, and their wire
//! format.
use vstd::prelude::*;

verus! {

/// A message to the engine. The first field of each is the channel (0 to 15);
/// notes, velocities, controller numbers and values are 7-bit (0 to 127).
#[derive(Clone, Copy, Debug, PartialEq, Eq, Structural)]
pub enum Message {
    /// Channel, note, velocity.
    NoteOn(u8, u8, u8),
    /// Channel, note, velocity.
    NoteOff(u8, u8, u8),
    /// Channel, controller, value.
    ControlChange(u8, u8, u8),
    /// Channel.
    AllNotesOff(u8),
}

impl Message {
    /// Every field within its range.
    pub open spec fn wf(&self) -> bool {
        match *self {
            Message::NoteOn(c, n, v) => c < 16 && n < 128 && v < 128,
            Message::NoteOff(c, n, v) => c < 16 && n < 128 && v < 128,
            Message::ControlChange(c, n, v) => c < 16 && n < 128 && v < 128,
            Message::AllNotesOff(c) => c < 16,
        }
    }

    /// Whether every field is within its range.
    pub fn is_valid(&self) -> (r: bool)
        ensures
            r == self.wf(),
    {
        match *self {
            Message::NoteOn(c, n, v) => c < 16 && n < 128 && v < 128,
            Message::NoteOff(c, n, v) => c < 16 && n < 128 && v < 128,
            Message::ControlChange(c, n, v) => c < 16 && n < 128 && v < 128,
            Message::AllNotesOff(c) => c < 16,
        }
    }
}

/// Relies on midi::utils::from_status_byte: the kind of a message is the
/// high nibble of its status byte and the channel the low nibble (the
/// channel enum counts from 0).
#[verifier::external_body]
fn split_status_byte(sb: u8) -> (r: (u8, u8))
    ensures
        r.0 == sb / 16,
        r.1 == sb % 16,
{
    let (status, channel) = midi::utils::from_status_byte(sb);
    (status, channel as u8)
}

/// The message that a packet of bytes holds: note off (kind 8), note on
/// (kind 9; velocity 0 means note off) and control change (kind 11), each of
/// a status byte and two 7-bit data bytes. Anything else holds none.
pub open spec fn parsed(b: Seq<u8>) -> Option<Message> {
    if b.len() < 3 || b[1] >= 128 || b[2] >= 128 {
        None
    } else {
        let kind = b[0] / 16;
        let ch = (b[0] % 16) as u8;
        if kind == 8 {
            Some(Message::NoteOff(ch, b[1], b[2]))
        } else if kind == 9 && b[2] > 0 {
            Some(Message::NoteOn(ch, b[1], b[2]))
        } else if kind == 9 {
            Some(Message::NoteOff(ch, b[1], b[2]))
        } else if kind == 11 {
            Some(Message::ControlChange(ch, b[1], b[2]))
        } else {
            None
        }
    }
}

/// Reads one message from a packet of raw bytes.
pub fn parse_midi_bytes(bytes: &[u8]) -> (r: Option<Message>)
    ensures
        r == parsed(bytes@),
        r matches Some(m) ==> m.wf(),
{
    if bytes.len() < 3 || bytes[1] >= 128 || bytes[2] >= 128 {
        return None;
    }
    let (status, channel) = split_status_byte(bytes[0]);
    if status == 8 {
        Some(Message::NoteOff(channel, bytes[1], bytes[2]))
    } else if status == 9 && bytes[2] > 0 {
        Some(Message::NoteOn(channel, bytes[1], bytes[2]))
    } else if status == 9 {
        Some(Message::NoteOff(channel, bytes[1], bytes[2]))
    } else if status == 11 {
        Some(Message::ControlChange(channel, bytes[1], bytes[2]))
    } else {
        None
    }
}

} // verus!
