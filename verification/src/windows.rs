//! The windows of the editor and which of them are shown.

use vstd::prelude::*;

verus! {

/// A window of the editor.
#[derive(Debug, Clone, Copy, PartialEq, Eq, Structural)]
pub enum Window {
    Tags,
    Controls,
    History,
    Toolbar,
    Debug,
}

impl Window {
    /// The bit that stands for this window in a `WindowBitflag`.
    pub open spec fn spec_bit(self) -> u8 {
        match self {
            Window::Tags => 1u8,
            Window::Controls => 2u8,
            Window::History => 4u8,
            Window::Toolbar => 8u8,
            Window::Debug => 128u8,
        }
    }

    #[verifier::when_used_as_spec(spec_bit)]
    pub fn bit(self) -> (b: u8)
        ensures
            b == self.spec_bit(),
    {
        match self {
            Window::Tags => 1u8,
            Window::Controls => 2u8,
            Window::History => 4u8,
            Window::Toolbar => 8u8,
            Window::Debug => 128u8,
        }
    }

    /// The title of the window.
    pub fn label(self) -> (s: &'static str)
        ensures
            s@ == (match self {
                Window::Tags => "Tags"@,
                Window::Controls => "Controls"@,
                Window::History => "History"@,
                Window::Toolbar => "Toolbar"@,
                Window::Debug => "Debug"@,
            }),
    {
        match self {
            Window::Tags => "Tags",
            Window::Controls => "Controls",
            Window::History => "History",
            Window::Toolbar => "Toolbar",
            Window::Debug => "Debug",
        }
    }
}

/// The windows that are hidden. A window whose bit is not set is shown.
#[derive(Debug, Clone, Copy, PartialEq, Eq, Structural)]
pub struct WindowBitflag {
    bits: u8,
}

impl WindowBitflag {
    /// Whether `window` is shown.
    pub closed spec fn shows(self, window: Window) -> bool {
        self.bits & window.spec_bit() == 0
    }

    /// Every window is shown.
    pub fn new() -> (r: Self)
        ensures
            forall|w: Window| r.shows(w),
    {
        let r = WindowBitflag { bits: 0u8 };
        assert forall|w: Window| r.shows(w) by {
            let b = w.spec_bit();
            assert(0u8 & b == 0) by (bit_vector);
        }
        r
    }

    pub fn is_shown(&self, window: Window) -> (r: bool)
        ensures
            r == self.shows(window),
    {
        self.bits & window.bit() == 0
    }

    /// Shows `window` where it is hidden and hides it where it is shown.
    pub fn toggle(&mut self, window: Window)
        ensures
            forall|w: Window| final(self).shows(w) == (old(self).shows(w) != (w == window)),
    {
        let ghost before = self.bits;
        self.bits = self.bits ^ window.bit();
        assert forall|w: Window| self.shows(w) == (old(self).shows(w) != (w == window)) by {
            let a = window.spec_bit();
            let b = w.spec_bit();
            assert(((before ^ a) & b == 0) <==> ((before & b == 0) != (a == b))) by (bit_vector)
                requires
                    a == 1 || a == 2 || a == 4 || a == 8 || a == 128,
                    b == 1 || b == 2 || b == 4 || b == 8 || b == 128,
            ;
        }
    }
}

impl Default for WindowBitflag {
    fn default() -> (r: Self)
        ensures
            forall|w: Window| r.shows(w),
    {
        WindowBitflag::new()
    }
}

} // verus!
