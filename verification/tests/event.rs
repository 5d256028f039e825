use rdp_core::event::{
    keyboard_event_pdu, pointer_event_pdu, KeyboardEvent, PointerButton, PointerEvent,
};

#[test]
fn pointer_left_down_on_the_wire() {
    let ev = PointerEvent { x: 100, y: 200, button: PointerButton::Left, down: true };
    let pdu = pointer_event_pdu(&ev);
    assert_eq!(pdu.cast_u16("messageType").unwrap(), 0x8001);
    assert_eq!(pdu.cast_u16("pointerFlags").unwrap(), 0x9000);
    assert_eq!(pdu.cast_u16("xPos").unwrap(), 100);
    assert_eq!(pdu.cast_u16("yPos").unwrap(), 200);
    assert_eq!(
        pdu.write(),
        vec![0, 0, 0, 0, 0x01, 0x80, 0x00, 0x90, 100, 0, 200, 0]
    );
}

#[test]
fn pointer_move_sets_move_flag() {
    let ev = PointerEvent { x: 1, y: 2, button: PointerButton::NoButton, down: false };
    let pdu = pointer_event_pdu(&ev);
    assert_eq!(pdu.cast_u16("pointerFlags").unwrap(), 0x0800);
}

#[test]
fn pointer_release_has_no_down_flag() {
    let ev = PointerEvent { x: 1, y: 2, button: PointerButton::Right, down: false };
    let pdu = pointer_event_pdu(&ev);
    assert_eq!(pdu.cast_u16("pointerFlags").unwrap(), 0x2000);
}

#[test]
fn keyboard_down_and_release() {
    let down = keyboard_event_pdu(&KeyboardEvent { code: 0x1c, down: true });
    assert_eq!(down.cast_u16("messageType").unwrap(), 0x8004);
    assert_eq!(down.cast_u16("keyboardFlags").unwrap(), 0);
    assert_eq!(down.cast_u16("keyCode").unwrap(), 0x1c);
    let up = keyboard_event_pdu(&KeyboardEvent { code: 0x1c, down: false });
    assert_eq!(up.cast_u16("keyboardFlags").unwrap(), 0x8000);
    assert_eq!(up.write().len(), 12);
}
