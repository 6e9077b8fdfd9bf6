use selection_broker::input::{
    Axis, AxisSource, ButtonState, Device, DeviceCapability, Event, InputBackend, KeyState,
    KeyboardKeyEvent, MouseButton, PointerButtonEvent, TouchCancelEvent, TouchFrameEvent,
    TouchSlot, TouchUpEvent,
};
use std::path::PathBuf;

#[derive(Clone, Debug, PartialEq, Eq, Hash)]
struct Pad {
    number: u32,
}

impl Device for Pad {
    fn id(&self) -> String {
        format!("pad-{}", self.number)
    }

    fn name(&self) -> String {
        String::from("A test pad")
    }

    fn has_capability(&self, capability: DeviceCapability) -> bool {
        capability == DeviceCapability::Touch || capability == DeviceCapability::Keyboard
    }

    fn usb_id(&self) -> Option<(u32, u32)> {
        Some((0x1234, self.number))
    }

    fn syspath(&self) -> Option<PathBuf> {
        None
    }
}

struct Bench;

impl InputBackend for Bench {
    type Device = Pad;
    type SpecialEvent = ();
}

struct Press {
    at: u32,
    slot: Option<TouchSlot>,
}

impl Event<Bench> for Press {
    fn time(&self) -> u32 {
        self.at
    }

    fn device(&self) -> Pad {
        Pad { number: 3 }
    }
}

impl KeyboardKeyEvent<Bench> for Press {
    fn key_code(&self) -> u32 {
        30
    }

    fn state(&self) -> KeyState {
        KeyState::Pressed
    }

    fn count(&self) -> u32 {
        1
    }
}

impl PointerButtonEvent<Bench> for Press {
    fn button(&self) -> MouseButton {
        MouseButton::Other(8)
    }

    fn state(&self) -> ButtonState {
        ButtonState::Released
    }
}

impl TouchUpEvent<Bench> for Press {
    fn slot(&self) -> Option<TouchSlot> {
        self.slot
    }
}

impl TouchCancelEvent<Bench> for Press {
    fn slot(&self) -> Option<TouchSlot> {
        None
    }
}

impl TouchFrameEvent<Bench> for Press {}

#[test]
fn touch_slots_compare_by_number() {
    assert_eq!(TouchSlot::new(4), TouchSlot::new(4));
    assert_ne!(TouchSlot::new(4), TouchSlot::new(5));
    assert_eq!(TouchSlot::new(u64::MAX), TouchSlot::new(u64::MAX));
}

#[test]
fn a_backend_can_implement_the_vocabulary() {
    let press = Press { at: 17, slot: Some(TouchSlot::new(2)) };
    assert_eq!(Event::<Bench>::time(&press), 17);
    let pad = Event::<Bench>::device(&press);
    assert_eq!(pad.id(), "pad-3");
    assert_eq!(pad.name(), "A test pad");
    assert!(pad.has_capability(DeviceCapability::Touch));
    assert!(!pad.has_capability(DeviceCapability::Pointer));
    assert_eq!(pad.usb_id(), Some((0x1234, 3)));
    assert_eq!(pad.syspath(), None);
    assert_eq!(KeyboardKeyEvent::<Bench>::key_code(&press), 30);
    assert_eq!(KeyboardKeyEvent::<Bench>::state(&press), KeyState::Pressed);
    assert_eq!(KeyboardKeyEvent::<Bench>::count(&press), 1);
    assert_eq!(PointerButtonEvent::<Bench>::button(&press), MouseButton::Other(8));
    assert_eq!(PointerButtonEvent::<Bench>::state(&press), ButtonState::Released);
    assert_eq!(TouchUpEvent::<Bench>::slot(&press), Some(TouchSlot::new(2)));
    assert_eq!(TouchCancelEvent::<Bench>::slot(&press), None);
}

#[test]
fn the_enums_tell_their_variants_apart() {
    assert_ne!(KeyState::Pressed, KeyState::Released);
    assert_ne!(ButtonState::Pressed, ButtonState::Released);
    assert_ne!(Axis::Vertical, Axis::Horizontal);
    assert_ne!(MouseButton::Left, MouseButton::Right);
    assert_ne!(MouseButton::Other(1), MouseButton::Other(2));
    assert_eq!(MouseButton::Middle, MouseButton::Middle);
    assert_ne!(AxisSource::Finger, AxisSource::Continuous);
    assert_ne!(AxisSource::Wheel, AxisSource::WheelTilt);
    assert_ne!(DeviceCapability::TabletTool, DeviceCapability::TabletPad);
    assert_ne!(DeviceCapability::Gesture, DeviceCapability::Switch);
}
