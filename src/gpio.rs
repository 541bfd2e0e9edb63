//! Typestates of GPIO pins: a pin's configuration is carried in its type, so
//! that no operation of one mode can be applied to a pin in another.
use vstd::prelude::*;

use core::marker::PhantomData;

verus! {

/// Input mode (Pin type state)
pub struct Input<MODE> {
    _mode: PhantomData<MODE>,
}

/// Floating input (Input type state)
pub struct Floating;

/// Pulled down input (Input type state)
pub struct PullDown;

/// Pulled up input (Input type state)
pub struct PullUp;

/// Output mode (Pin type state)
pub struct Output<MODE> {
    _mode: PhantomData<MODE>,
}

/// Push pull output (Output type state)
pub struct PushPull;

/// Open drain output (Output type state)
pub struct OpenDrain;

} // verus!
