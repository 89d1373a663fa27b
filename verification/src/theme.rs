//! The theme seam.
//!
//! Views never name a color, a size, or a font. They name a role, and
//! the active theme resolves the role. This is the contract that later
//! lets a Winamp skin engine replace the built-in look without touching
//! a view.
use vstd::prelude::*;

verus! {

#[derive(Clone, Copy, Debug, PartialEq, Eq, Structural)]
pub enum ColorRole {
    Surface,
    Border,
    AccentSoft,
    OnAccent,
    PageBackground,
    PanelBackground,
    TextPrimary,
    TextSecondary,
    Accent,
    Danger,
    RowHover,
    ArtPlaceholder,
}

#[derive(Clone, Copy, Debug, PartialEq, Eq, Structural)]
pub enum TextRole {
    Hero,
    Title,
    Heading,
    Body,
    Caption,
}

#[derive(Clone, Copy, Debug, PartialEq, Eq, Structural)]
pub enum MetricRole {
    PagePadding,
    GapSmall,
    GapLarge,
    RowHeight,
    PlayerBarHeight,
    SidebarWidth,
    RowArtSize,
    PlayerArtSize,
    CornerRadius,
    /// Seconds the pointer must rest on a track row before the row
    /// starts a hover prefetch.
    HoverPrefetchDelay,
}

/// An opaque color by its red, green, and blue.
#[derive(Clone, Copy, Debug, PartialEq, Eq, Structural)]
pub struct Rgb {
    pub r: u8,
    pub g: u8,
    pub b: u8,
}

/// The built-in dark theme: theme one of the seam.
pub struct DefaultTheme;

/// The built-in theme's color for each role.
pub open spec fn default_color(role: ColorRole) -> Rgb {
    match role {
        ColorRole::Surface => Rgb { r: 30, g: 31, b: 37 },
        ColorRole::Border => Rgb { r: 48, g: 49, b: 58 },
        ColorRole::AccentSoft => Rgb { r: 65, g: 30, b: 37 },
        ColorRole::OnAccent => Rgb { r: 255, g: 255, b: 255 },
        ColorRole::PageBackground => Rgb { r: 17, g: 18, b: 22 },
        ColorRole::PanelBackground => Rgb { r: 22, g: 23, b: 28 },
        ColorRole::TextPrimary => Rgb { r: 235, g: 235, b: 235 },
        ColorRole::TextSecondary => Rgb { r: 160, g: 160, b: 165 },
        ColorRole::Accent => Rgb { r: 244, g: 77, b: 94 },
        ColorRole::Danger => Rgb { r: 255, g: 110, b: 90 },
        ColorRole::RowHover => Rgb { r: 38, g: 38, b: 44 },
        ColorRole::ArtPlaceholder => Rgb { r: 40, g: 40, b: 46 },
    }
}

impl DefaultTheme {
    /// The color the built-in theme gives a role.
    pub fn color(&self, role: ColorRole) -> (c: Rgb)
        ensures
            c == default_color(role),
    {
        match role {
            ColorRole::Surface => Rgb { r: 30, g: 31, b: 37 },
            ColorRole::Border => Rgb { r: 48, g: 49, b: 58 },
            ColorRole::AccentSoft => Rgb { r: 65, g: 30, b: 37 },
            ColorRole::OnAccent => Rgb { r: 255, g: 255, b: 255 },
            ColorRole::PageBackground => Rgb { r: 17, g: 18, b: 22 },
            ColorRole::PanelBackground => Rgb { r: 22, g: 23, b: 28 },
            ColorRole::TextPrimary => Rgb { r: 235, g: 235, b: 235 },
            ColorRole::TextSecondary => Rgb { r: 160, g: 160, b: 165 },
            ColorRole::Accent => Rgb { r: 244, g: 77, b: 94 },
            ColorRole::Danger => Rgb { r: 255, g: 110, b: 90 },
            ColorRole::RowHover => Rgb { r: 38, g: 38, b: 44 },
            ColorRole::ArtPlaceholder => Rgb { r: 40, g: 40, b: 46 },
        }
    }
}

} // verus!
