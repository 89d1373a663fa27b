use ytamp::action::MenuAction;
use ytamp::state::{Loadable, PlayStatus, WinampSettings};
use ytamp::theme::{ColorRole, DefaultTheme, Rgb};

#[test]
fn the_default_theme_colors_its_roles() {
    let theme = DefaultTheme;
    assert_eq!(theme.color(ColorRole::Accent), Rgb { r: 244, g: 77, b: 94 });
    assert_eq!(theme.color(ColorRole::OnAccent), Rgb { r: 255, g: 255, b: 255 });
}

#[test]
fn state_defaults_start_empty() {
    let settings = WinampSettings::default();
    assert_eq!(settings.scale, 2);
    assert!(!settings.open);
    assert_eq!(PlayStatus::default(), PlayStatus::Stopped);
    let slot: Loadable<u32> = Loadable::default();
    assert_eq!(slot, Loadable::NotAsked);
    assert_eq!(Loadable::Refreshing(3u32).loaded(), Some(&3));
    assert_eq!(Loadable::<u32>::Failed("x".into()).loaded(), None);
    assert_ne!(MenuAction::Next, MenuAction::Previous);
}
