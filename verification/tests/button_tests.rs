use rubrail::{button_style, tray_button_style, ButtonStyle};

#[test]
fn button_with_title_only() {
    assert_eq!(button_style(false, true), Some(ButtonStyle::Title));
}

#[test]
fn button_with_image_only() {
    assert_eq!(button_style(true, false), Some(ButtonStyle::Image));
}

#[test]
fn button_with_title_and_image() {
    assert_eq!(button_style(true, true), Some(ButtonStyle::TitleAndImage));
}

#[test]
fn no_button_without_title_or_image() {
    assert_eq!(button_style(false, false), None);
}

#[test]
fn tray_button_prefers_icon() {
    assert_eq!(tray_button_style(true), ButtonStyle::Image);
    assert_eq!(tray_button_style(false), ButtonStyle::Title);
}
