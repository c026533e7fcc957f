//! The choice of styles. A theme names a colour for each purpose; what is
//! decided here is which of these colours a piece of the screen takes as
//! foreground and background, and whether it is set bold or underlined.

use vstd::prelude::*;

verus! {

/// The purposes for which a theme names a colour.
#[derive(Clone, Copy, Debug, PartialEq, Eq)]
pub enum ThemeColor {
    SelectedTab,
    CommandFg,
    SelectionBg,
    SelectionFg,
    CmdbarBg,
    CmdbarExtraLinesBg,
    DisabledFg,
    DangerFg,
    UncontainedInViolationsCountFg,
    UncontainedOutViolationsCountFg,
}

/// A style: the colours of the theme that it takes, if any, and how it is
/// set.
#[derive(Clone, Copy, Debug, PartialEq, Eq)]
pub struct Style {
    pub fg: Option<ThemeColor>,
    pub bg: Option<ThemeColor>,
    pub bold: bool,
    pub underlined: bool,
}

/// Chooses the styles of the pieces of the screen.
#[derive(Clone, Copy, Debug, PartialEq, Eq)]
pub struct Theme {}

impl Style {
    /// The style that changes nothing.
    pub open spec fn plain() -> Style {
        Style { fg: None, bg: None, bold: false, underlined: false }
    }
}

impl Default for Style {
    fn default() -> (r: Self)
        ensures
            r == Style::plain(),
    {
        Style { fg: None, bg: None, bold: false, underlined: false }
    }
}

impl Default for Theme {
    fn default() -> (r: Self)
        ensures
            r == (Theme {  }),
    {
        Theme {  }
    }
}

impl Theme {
    /// The style of text: disabled text takes the colour for disabled
    /// pieces, selected text stands on the colour of the selection, and text
    /// that is both enabled and selected takes the colour of commands.
    pub open spec fn text_style(enabled: bool, selected: bool) -> Style {
        Style {
            fg: if enabled && selected {
                Some(ThemeColor::CommandFg)
            } else if !enabled && !selected {
                Some(ThemeColor::DisabledFg)
            } else {
                None
            },
            bg: if selected {
                Some(ThemeColor::SelectionBg)
            } else {
                None
            },
            bold: false,
            underlined: false,
        }
    }

    /// The style of the position mark of a scroll bar.
    pub fn scroll_bar_pos(&self) -> (r: Style)
        ensures
            r == (Style { fg: Some(ThemeColor::SelectionBg), ..Style::plain() }),
    {
        Style { fg: Some(ThemeColor::SelectionBg), ..Style::default() }
    }

    /// The style of a block: plain with the focus, disabled without.
    pub fn block(&self, focus: bool) -> (r: Style)
        ensures
            r == if focus {
                Style::plain()
            } else {
                Style { fg: Some(ThemeColor::DisabledFg), ..Style::plain() }
            },
    {
        if focus {
            Style::default()
        } else {
            Style { fg: Some(ThemeColor::DisabledFg), ..Style::default() }
        }
    }

    /// The style of a title: bold with the focus, disabled without.
    pub fn title(&self, focused: bool) -> (r: Style)
        ensures
            r == if focused {
                Style { bold: true, ..Style::plain() }
            } else {
                Style { fg: Some(ThemeColor::DisabledFg), ..Style::plain() }
            },
    {
        if focused {
            Style { bold: true, ..Style::default() }
        } else {
            Style { fg: Some(ThemeColor::DisabledFg), ..Style::default() }
        }
    }

    /// The style of a tab: the selected tab is underlined in its own colour,
    /// the others are disabled.
    pub fn tab(&self, selected: bool) -> (r: Style)
        ensures
            r == if selected {
                Style { fg: Some(ThemeColor::SelectedTab), underlined: true, ..Style::plain() }
            } else {
                Theme::text_style(false, false)
            },
    {
        if selected {
            let text = self.text(true, false);
            Style { fg: Some(ThemeColor::SelectedTab), underlined: true, ..text }
        } else {
            self.text(false, false)
        }
    }

    /// The style of text.
    pub fn text(&self, enabled: bool, selected: bool) -> (r: Style)
        ensures
            r == Theme::text_style(enabled, selected),
    {
        if !enabled && !selected {
            Style { fg: Some(ThemeColor::DisabledFg), ..Style::default() }
        } else if !enabled && selected {
            Style { bg: Some(ThemeColor::SelectionBg), ..Style::default() }
        } else if enabled && !selected {
            Style::default()
        } else {
            Style {
                fg: Some(ThemeColor::CommandFg),
                bg: Some(ThemeColor::SelectionBg),
                ..Style::default()
            }
        }
    }

    /// The style `style`, in the colours of the selection where `selected`
    /// is set.
    pub fn apply_select(&self, style: Style, selected: bool) -> (r: Style)
        ensures
            r == if selected {
                Style {
                    fg: Some(ThemeColor::SelectionFg),
                    bg: Some(ThemeColor::SelectionBg),
                    ..style
                }
            } else {
                style
            },
    {
        if selected {
            Style { fg: Some(ThemeColor::SelectionFg), bg: Some(ThemeColor::SelectionBg), ..style }
        } else {
            style
        }
    }

    /// The style of text that warns.
    pub fn text_danger(&self) -> (r: Style)
        ensures
            r == (Style { fg: Some(ThemeColor::DangerFg), ..Style::plain() }),
    {
        Style { fg: Some(ThemeColor::DangerFg), ..Style::default() }
    }

    /// The style of a line of the command bar: the first line stands on the
    /// colour of the bar, the others on the colour of its further lines.
    pub fn commandbar(&self, enabled: bool, line: usize) -> (r: Style)
        ensures
            r == (Style {
                fg: Some(
                    if enabled {
                        ThemeColor::CommandFg
                    } else {
                        ThemeColor::DisabledFg
                    },
                ),
                bg: Some(
                    if line == 0 {
                        ThemeColor::CmdbarBg
                    } else {
                        ThemeColor::CmdbarExtraLinesBg
                    },
                ),
                ..Style::plain()
            }),
    {
        let fg = if enabled {
            ThemeColor::CommandFg
        } else {
            ThemeColor::DisabledFg
        };
        let bg = if line == 0 {
            ThemeColor::CmdbarBg
        } else {
            ThemeColor::CmdbarExtraLinesBg
        };
        Style { fg: Some(fg), bg: Some(bg), ..Style::default() }
    }
}

} // verus!
