//! Text sizing for the inspection UI.
//!
//! The debug/inspection thread renders world-derived numbers — float-valued
//! data among them — into a grid of character cells.  The widget holds the
//! already-formatted UTF-8 text of one such value (formatting itself stays
//! with the UI toolkit on the inspection thread) and computes the cell
//! footprint the text will occupy within a bounded area.

use vstd::prelude::*;

verus! {

/// A widget displaying one float-valued datum as text.
pub struct FloatWidget {
    pub text: Vec<u8>,
}

impl FloatWidget {
    /// The UTF-8 text the widget displays.
    pub open spec fn text_view(self) -> Seq<u8> {
        self.text@
    }
}

impl From<Vec<u8>> for FloatWidget {
    /// Wrap the formatted text of one datum.
    fn from(text: Vec<u8>) -> (w: FloatWidget) {
        FloatWidget { text }
    }
}

impl vstd::std_specs::convert::FromSpecImpl<Vec<u8>> for FloatWidget {
    open spec fn obeys_from_spec() -> bool {
        true
    }

    open spec fn from_spec(text: Vec<u8>) -> FloatWidget {
        FloatWidget { text }
    }
}

impl FloatWidget {
    /// The width and height, in character cells, that the text will occupy
    /// within an area of the given size: the text's length clipped to the
    /// area's width, on one row when the area has one.
    pub fn size_complex(&self, area_width: u16, area_height: u16) -> (size: (u16, u16))
        ensures
            size.0 as nat == (if self.text_view().len() < area_width as nat {
                self.text_view().len()
            } else {
                area_width as nat
            }),
            size.1 == if 1 < area_height {
                1u16
            } else {
                area_height
            },
    {
        let len = self.text.len();
        let w: u16 = if len < area_width as usize {
            len as u16
        } else {
            area_width
        };
        let h: u16 = if 1 < area_height {
            1
        } else {
            area_height
        };
        (w, h)
    }
}

} // verus!
