//! MIDI messages the analyser exchanges with a controller.

use vstd::prelude::*;

verus! {

/// A decoded MIDI channel message.
#[derive(Clone, Copy, Debug, PartialEq, Eq, Structural)]
pub enum MidiEvent {
    NoteOn { channel: u8, note: u8, velocity: u8 },
    ControlChange { channel: u8, controller: u8, value: u8 },
}

/// A command from the user interface.
#[derive(Clone, Copy, Debug, PartialEq, Eq, Structural)]
pub enum GuiCommand {
    /// Turns tempo detection on or off.
    SetDetection(bool),
}

/// The event a message carries: a note-on of positive velocity or a control
/// change, from the first three bytes; nothing for shorter or other messages.
pub open spec fn decoded(m: Seq<u8>) -> Option<MidiEvent> {
    if m.len() < 3 {
        None
    } else {
        let status = m[0];
        let channel = status & 0x0F;
        let kind = status & 0xF0;
        if kind == 0x90 && m[2] > 0 {
            Some(MidiEvent::NoteOn { channel, note: m[1], velocity: m[2] })
        } else if kind == 0xB0 {
            Some(MidiEvent::ControlChange { channel, controller: m[1], value: m[2] })
        } else {
            None
        }
    }
}

/// Decodes a raw MIDI message.
pub fn decode_message(message: &[u8]) -> (r: Option<MidiEvent>)
    ensures
        r == decoded(message@),
{
    if message.len() < 3 {
        return None;
    }
    let status = message[0];
    let data1 = message[1];
    let data2 = message[2];
    let channel = status & 0x0F;
    let msg_type = status & 0xF0;
    if msg_type == 0x90 && data2 > 0 {
        Some(MidiEvent::NoteOn { channel, note: data1, velocity: data2 })
    } else if msg_type == 0xB0 {
        Some(MidiEvent::ControlChange { channel, controller: data1, value: data2 })
    } else {
        None
    }
}

/// The three bytes of a note-on message on `channel` (low four bits).
pub fn note_on_message(channel: u8, note: u8, velocity: u8) -> (r: [u8; 3])
    ensures
        r@ == seq![0x90u8 | (channel & 0x0F), note, velocity],
{
    let r = [0x90u8 | (channel & 0x0F), note, velocity];
    assert(r@ =~= seq![0x90u8 | (channel & 0x0F), note, velocity]);
    r
}

/// The three bytes of a control-change message on `channel` (low four bits).
pub fn control_change_message(channel: u8, controller: u8, value: u8) -> (r: [u8; 3])
    ensures
        r@ == seq![0xB0u8 | (channel & 0x0F), controller, value],
{
    let r = [0xB0u8 | (channel & 0x0F), controller, value];
    assert(r@ =~= seq![0xB0u8 | (channel & 0x0F), controller, value]);
    r
}

} // verus!
