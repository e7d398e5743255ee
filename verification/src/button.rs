//! Which kind of `NSButton` a Touch Bar button is made as.

use vstd::prelude::*;

verus! {

/// The `NSButton` constructor a button is made with.
#[derive(Clone, Copy, Debug, PartialEq, Eq, Structural)]
pub enum ButtonStyle {
    /// `buttonWithTitle:target:action:`
    Title,
    /// `buttonWithImage:target:action:`
    Image,
    /// `buttonWithTitle:image:target:action:`
    TitleAndImage,
}

/// `alloc_button`: a button shows its title, its image, or both, whichever
/// it was given; with neither no button is made.
pub fn button_style(has_image: bool, has_text: bool) -> (r: Option<ButtonStyle>)
    ensures
        r == (if has_image && has_text {
            Some(ButtonStyle::TitleAndImage)
        } else if has_image {
            Some(ButtonStyle::Image)
        } else if has_text {
            Some(ButtonStyle::Title)
        } else {
            None
        }),
{
    match (has_image, has_text) {
        (false, true) => Some(ButtonStyle::Title),
        (true, false) => Some(ButtonStyle::Image),
        (true, true) => Some(ButtonStyle::TitleAndImage),
        _ => None,
    }
}

/// The button put in the system tray when the application has launched:
/// the icon when one was set, the title otherwise.
pub fn tray_button_style(has_icon: bool) -> (r: ButtonStyle)
    ensures
        r == (if has_icon {
            ButtonStyle::Image
        } else {
            ButtonStyle::Title
        }),
{
    if has_icon {
        ButtonStyle::Image
    } else {
        ButtonStyle::Title
    }
}

} // verus!
