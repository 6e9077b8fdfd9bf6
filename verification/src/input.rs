//! The vocabulary that input backends share: what a device can do, and what
//! the events say that need no coordinates.

use vstd::prelude::*;

use std::path::PathBuf;

verus! {

/// `std::path::PathBuf`, carried through as an opaque value. Nothing is
/// claimed of what a path holds.
#[verifier::external_type_specification]
#[verifier::external_body]
pub struct ExPathBuf(std::path::PathBuf);

/// Trait for generic functions every input device does provide
pub trait Device: PartialEq + Eq + std::hash::Hash {
    /// Unique id of a single device at a point in time.
    ///
    /// Note: This means ids may be re-used by the backend for later devices.
    fn id(&self) -> String;

    /// Human-readable name of the device
    fn name(&self) -> String;

    /// Test if this device has a specific capability
    fn has_capability(&self, capability: DeviceCapability) -> bool;

    /// Returns device USB (product,vendor) id
    fn usb_id(&self) -> Option<(u32, u32)>;

    /// Returns the syspath of the device.
    ///
    /// The path is an absolute path and includes the sys mount point.
    fn syspath(&self) -> Option<PathBuf>;
}

/// Set of input types a device may provide
#[derive(Debug, Clone, Copy, PartialEq, Eq)]
pub enum DeviceCapability {
    Keyboard,
    Pointer,
    Touch,
    TabletTool,
    TabletPad,
    Gesture,
    Switch,
}

/// What every source of input events provides, whatever events it emits:
/// the type of its devices, and the type of the events that are its own.
pub trait InputBackend: Sized {
    /// Type representing input devices
    type Device: Device;

    /// Special events that are custom to this backend
    type SpecialEvent;
}

/// Trait for generic functions every input event does provide
pub trait Event<B: InputBackend> {
    /// Returns an upward counting variable useful for event ordering.
    ///
    /// Makes no guarantees about actual time passed between events.
    fn time(&self) -> u32;

    /// Returns the device, that generated this event
    fn device(&self) -> B::Device;
}

/// State of key on a keyboard. Either pressed or released
#[derive(Debug, PartialEq, Eq, Clone, Copy, Hash)]
pub enum KeyState {
    /// Key is released
    Released,
    /// Key is pressed
    Pressed,
}

/// Trait for keyboard event
pub trait KeyboardKeyEvent<B: InputBackend>: Event<B> {
    /// Returns the numerical button code of the keyboard button.
    fn key_code(&self) -> u32;

    /// State of the key
    fn state(&self) -> KeyState;

    /// Total number of keys pressed on all devices on the associated seat
    fn count(&self) -> u32;
}

/// A particular mouse button
#[derive(Debug, PartialEq, Eq, Clone, Copy, Hash)]
pub enum MouseButton {
    /// Left mouse button
    Left,
    /// Middle mouse button
    Middle,
    /// Right mouse button
    Right,
    /// Other mouse button with index
    Other(u8),
}

/// State of a button on a pointer device, like mouse or tablet tool. Either
/// pressed or released
#[derive(Debug, PartialEq, Eq, Clone, Copy, Hash)]
pub enum ButtonState {
    /// Button is released
    Released,
    /// Button is pressed
    Pressed,
}

/// Common methods pointer event generated by pressed buttons do implement
pub trait PointerButtonEvent<B: InputBackend>: Event<B> {
    /// Pressed button of the event
    fn button(&self) -> MouseButton;

    /// State of the button
    fn state(&self) -> ButtonState;
}

/// Axis when scrolling
#[derive(Debug, PartialEq, Eq, Clone, Copy, Hash)]
pub enum Axis {
    /// Vertical axis
    Vertical,
    /// Horizontal axis
    Horizontal,
}

/// Source of an axis when scrolling
#[derive(Debug, PartialEq, Eq, Clone, Copy)]
pub enum AxisSource {
    /// Finger. Mostly used for trackpads.
    ///
    /// Guarantees that a scroll sequence is terminated with a scroll value
    /// of 0.
    Finger,
    /// Continuous scrolling device. Almost identical to `Finger`, but no
    /// terminating event is guaranteed.
    Continuous,
    /// Scroll wheel.
    ///
    /// No terminating event is guaranteed. Scrolling is in discrete steps.
    Wheel,
    /// Scrolling through tilting the scroll wheel.
    ///
    /// No terminating event is guaranteed. Scrolling is in discrete steps.
    WheelTilt,
}

/// Slot of a different touch event.
///
/// Touch events are grouped by slots, usually to identify different
/// fingers on a multi-touch enabled input device. Events should only
/// be interpreted in the context of other events on the same slot.
#[derive(Debug, Clone, Copy, PartialEq, Eq, Hash)]
pub struct TouchSlot {
    id: u64,
}

impl View for TouchSlot {
    type V = u64;

    /// The number that the backend gave the slot.
    closed spec fn view(&self) -> u64 {
        self.id
    }
}

impl TouchSlot {
    /// The slot that bears the number `id`.
    pub fn new(id: u64) -> (slot: Self)
        ensures
            slot@ == id,
    {
        TouchSlot { id }
    }
}

/// Trait for touch events finishing.
pub trait TouchUpEvent<B: InputBackend>: Event<B> {
    /// [`TouchSlot`], if the device has multi-touch capabilities
    fn slot(&self) -> Option<TouchSlot>;
}

/// Trait for touch events canceling the chain
pub trait TouchCancelEvent<B: InputBackend>: Event<B> {
    /// [`TouchSlot`], if the device has multi-touch capabilities
    fn slot(&self) -> Option<TouchSlot>;
}

/// Trait for touch frame events
pub trait TouchFrameEvent<B: InputBackend>: Event<B> {

}

} // verus!
