//! A single digital output pin, as the session layer sees it, and the rule
//! that picks a backing strategy for it.
use vstd::prelude::*;
use crate::errors::FlashError;

verus! {

/// Exclusive ownership of one digital output pin.
///
/// The model records every level the software drives onto the pin, in order
/// (`driven`), whether or not the underlying write succeeds: it is the
/// record of attempts, which is what the teardown guarantees speak about.
/// The real backends live outside the library and implement this trait; the
/// backing strategy of a pin is resolved once, at acquisition, by
/// `select_gpio_backend`.
pub trait GpioLine: Sized {
    /// Every level ever driven onto the pin, in order. A driver outside
    /// the library leaves this model function at its default; nothing is
    /// proved about such an implementation.
    open spec fn driven(&self) -> Seq<u8> {
        Seq::empty()
    }

    /// Drives `value` onto the pin.
    fn set_value(&mut self, value: u8) -> (r: Result<(), FlashError>)
        ensures
            final(self).driven() == old(self).driven().push(value),
    ;

    /// Waits the fixed settle delay after a level change.
    fn settle(&mut self)
        ensures
            final(self).driven() == old(self).driven(),
    ;
}

/// The three backing strategies of a pin.
#[derive(Clone, Copy, Debug, PartialEq, Eq, Structural)]
pub enum GpioBackend {
    /// No pin is controlled at all; driving it always succeeds and does
    /// nothing.
    Inert,
    /// The pin is driven by writing text to the value node of an already
    /// exported filesystem entry.
    PathBased,
    /// The pin is reserved through the character device as an exclusive
    /// output line and driven through that handle.
    LineRequest,
}

/// The backend a pin gets at acquisition time, as a function of its number
/// and of whether its filesystem node already exists.
pub open spec fn spec_select_gpio_backend(pin: u32, exported_node_exists: bool) -> GpioBackend {
    if pin == 0 {
        GpioBackend::Inert
    } else if exported_node_exists {
        GpioBackend::PathBased
    } else {
        GpioBackend::LineRequest
    }
}

/// Picks the backing strategy for pin `pin`: pin 0 opts out of pin control
/// and gets the inert backend; otherwise the path-based backend is chosen
/// exactly when the pin's filesystem node already exists at acquisition
/// time, and the line-request backend otherwise.
pub fn select_gpio_backend(pin: u32, exported_node_exists: bool) -> (r: GpioBackend)
    ensures
        r == spec_select_gpio_backend(pin, exported_node_exists),
        pin != 0 ==> ((r == GpioBackend::PathBased) <==> exported_node_exists),
        (r == GpioBackend::Inert) <==> pin == 0,
{
    if pin == 0 {
        GpioBackend::Inert
    } else if exported_node_exists {
        GpioBackend::PathBased
    } else {
        GpioBackend::LineRequest
    }
}

/// A pin that only records what is driven onto it: the simulated pin of the
/// tests, and the proof that the `GpioLine` contract can be met. Writes
/// start failing once `fail_after` levels have been driven; the attempt is
/// recorded either way.
pub struct SimGpioLine {
    /// Every level driven onto the pin so far.
    pub history: Vec<u8>,
    /// How many drives succeed before the pin starts reporting errors.
    pub fail_after: usize,
}

impl SimGpioLine {
    /// A pin whose drives all succeed.
    pub fn new() -> (g: SimGpioLine)
        ensures
            g.driven() == Seq::<u8>::empty(),
            g.fail_after == usize::MAX,
    {
        SimGpioLine { history: Vec::new(), fail_after: usize::MAX }
    }

    /// A pin whose drives fail after the first `n` levels.
    pub fn failing_after(n: usize) -> (g: SimGpioLine)
        ensures
            g.driven() == Seq::<u8>::empty(),
            g.fail_after == n,
    {
        SimGpioLine { history: Vec::new(), fail_after: n }
    }
}

impl GpioLine for SimGpioLine {
    open spec fn driven(&self) -> Seq<u8> {
        self.history@
    }

    fn set_value(&mut self, value: u8) -> (r: Result<(), FlashError>) {
        let failing = self.history.len() >= self.fail_after;
        self.history.push(value);
        if failing {
            Err(FlashError::Gpio)
        } else {
            Ok(())
        }
    }

    fn settle(&mut self) {
    }
}

} // verus!
