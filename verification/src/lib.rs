//! Bookkeeping for a macOS Touch Bar: the identifiers given to bar items and
//! the tables that tie bars, items, controls, scrubbers and callbacks together.
//! The Objective-C side lives in `app/`; everything it decides on is here.

pub mod button;
pub mod ident;
pub mod registry;

pub use button::{button_style, tray_button_style, ButtonStyle};
pub use ident::{format_ident, parse_ident};
pub use registry::{Ident, RustTouchbarDelegateWrapper, Scrubber};
