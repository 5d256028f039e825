use vstd::prelude::*;

use crate::data::{
    field, lemma_view_fields_from, lemma_wf_plain, plain_field, wf_component, Component, Field,
    FieldValue, SpecComponent, SpecField, SpecFieldValue,
};

verus! {

// ---------------------------------------------------------------------------
// Input events: the pointer and keyboard events the client sends, and the
// slow-path input event bodies they become on the wire.
// ---------------------------------------------------------------------------

/// The pointer button an event speaks of.
#[derive(Clone, Copy, Debug, PartialEq, Eq, Structural)]
pub enum PointerButton {
    NoButton,
    Left,
    Middle,
    Right,
}

/// The device flag of a button: button one for left, two for right, three
/// for the middle; a bare move has no button flag.
pub open spec fn button_flag(b: PointerButton) -> u16 {
    match b {
        PointerButton::NoButton => 0,
        PointerButton::Left => 0x1000,
        PointerButton::Right => 0x2000,
        PointerButton::Middle => 0x4000,
    }
}

impl PointerButton {
    /// The device flag of this button.
    pub fn flag(&self) -> (r: u16)
        ensures
            r == button_flag(*self),
    {
        match self {
            PointerButton::NoButton => 0,
            PointerButton::Left => 0x1000,
            PointerButton::Right => 0x2000,
            PointerButton::Middle => 0x4000,
        }
    }
}

/// A pointer event: a position, a button, and whether it went down.
pub struct PointerEvent {
    pub x: u16,
    pub y: u16,
    pub button: PointerButton,
    pub down: bool,
}

/// A keyboard event: a PC/AT scancode and whether the key went down.
pub struct KeyboardEvent {
    pub code: u16,
    pub down: bool,
}

/// The pointer flags an event carries: its button, the down flag when the
/// button went down, and the move flag when no button is involved.
pub open spec fn pointer_flags(ev: PointerEvent) -> u16 {
    (button_flag(ev.button) | (if ev.down {
        0x8000u16
    } else {
        0u16
    }) | (if ev.button == PointerButton::NoButton {
        0x0800u16
    } else {
        0u16
    })) as u16
}

/// The slow-path input event body of a pointer event: a zero event time,
/// the pointer message type, the flags, then the position.
pub open spec fn spec_pointer_event_pdu(ev: PointerEvent) -> SpecComponent {
    SpecComponent {
        fields: seq![
            SpecField { name: "eventTime"@, rule: Option::None, value: SpecFieldValue::U32Le(0) },
            SpecField {
                name: "messageType"@,
                rule: Option::None,
                value: SpecFieldValue::U16Le(0x8001),
            },
            SpecField {
                name: "pointerFlags"@,
                rule: Option::None,
                value: SpecFieldValue::U16Le(pointer_flags(ev)),
            },
            SpecField { name: "xPos"@, rule: Option::None, value: SpecFieldValue::U16Le(ev.x) },
            SpecField { name: "yPos"@, rule: Option::None, value: SpecFieldValue::U16Le(ev.y) },
        ],
    }
}

/// Builds the slow-path input event body for a pointer event.
pub fn pointer_event_pdu(ev: &PointerEvent) -> (r: Component)
    ensures
        r@ == spec_pointer_event_pdu(*ev),
        wf_component(r@),
{
    let down_flag: u16 = if ev.down {
        0x8000
    } else {
        0
    };
    let move_flag: u16 = match ev.button {
        PointerButton::NoButton => 0x0800,
        _ => 0,
    };
    let flags: u16 = ev.button.flag() | down_flag | move_flag;
    let mut fields: Vec<Field> = Vec::new();
    fields.push(field("eventTime", FieldValue::U32Le(0)));
    fields.push(field("messageType", FieldValue::U16Le(0x8001)));
    fields.push(field("pointerFlags", FieldValue::U16Le(flags)));
    fields.push(field("xPos", FieldValue::U16Le(ev.x)));
    fields.push(field("yPos", FieldValue::U16Le(ev.y)));
    let c = Component { fields };
    proof {
        lemma_view_fields_from(c.fields@, 0);
        assert(c@.fields =~= spec_pointer_event_pdu(*ev).fields);
        assert(c@ =~= spec_pointer_event_pdu(*ev));
        assert forall|j: int| 0 <= j < c@.fields.len() implies plain_field(
            #[trigger] c@.fields[j],
        ) by {
            assert(c@.fields[j] == spec_pointer_event_pdu(*ev).fields[j]);
        }
        lemma_wf_plain(c@.fields, 0);
    }
    c
}

/// The keyboard flags an event carries: extended scancodes keep their
/// prefix flag, and a release sets the release flag.
pub open spec fn keyboard_flags(ev: KeyboardEvent) -> u16 {
    if ev.down {
        0u16
    } else {
        0x8000u16
    }
}

/// The slow-path input event body of a keyboard event: a zero event time,
/// the scancode message type, the flags, the scancode, then padding.
pub open spec fn spec_keyboard_event_pdu(ev: KeyboardEvent) -> SpecComponent {
    SpecComponent {
        fields: seq![
            SpecField { name: "eventTime"@, rule: Option::None, value: SpecFieldValue::U32Le(0) },
            SpecField {
                name: "messageType"@,
                rule: Option::None,
                value: SpecFieldValue::U16Le(0x8004),
            },
            SpecField {
                name: "keyboardFlags"@,
                rule: Option::None,
                value: SpecFieldValue::U16Le(keyboard_flags(ev)),
            },
            SpecField {
                name: "keyCode"@,
                rule: Option::None,
                value: SpecFieldValue::U16Le(ev.code),
            },
            SpecField { name: "pad2Octets"@, rule: Option::None, value: SpecFieldValue::U16Le(0) },
        ],
    }
}

/// Builds the slow-path input event body for a keyboard event.
pub fn keyboard_event_pdu(ev: &KeyboardEvent) -> (r: Component)
    ensures
        r@ == spec_keyboard_event_pdu(*ev),
        wf_component(r@),
{
    let flags: u16 = if ev.down {
        0
    } else {
        0x8000
    };
    let mut fields: Vec<Field> = Vec::new();
    fields.push(field("eventTime", FieldValue::U32Le(0)));
    fields.push(field("messageType", FieldValue::U16Le(0x8004)));
    fields.push(field("keyboardFlags", FieldValue::U16Le(flags)));
    fields.push(field("keyCode", FieldValue::U16Le(ev.code)));
    fields.push(field("pad2Octets", FieldValue::U16Le(0)));
    let c = Component { fields };
    proof {
        lemma_view_fields_from(c.fields@, 0);
        assert(c@.fields =~= spec_keyboard_event_pdu(*ev).fields);
        assert(c@ =~= spec_keyboard_event_pdu(*ev));
        assert forall|j: int| 0 <= j < c@.fields.len() implies plain_field(
            #[trigger] c@.fields[j],
        ) by {
            assert(c@.fields[j] == spec_keyboard_event_pdu(*ev).fields[j]);
        }
        lemma_wf_plain(c@.fields, 0);
    }
    c
}

} // verus!
