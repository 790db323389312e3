//! The dashboard's named text styles. Their colours are chosen where the screen is drawn; here
//! they are only told apart, and the rules that pick one are stated.

use vstd::prelude::*;

verus! {

/// One of the dashboard's text styles.
#[derive(Debug, Clone, Copy, PartialEq, Eq, Structural)]
pub enum Style {
    /// Default text.
    Text,
    /// Dimmed, secondary text.
    TextDim,
    /// Bold bright text.
    TextBold,
    /// Header and column labels.
    Header,
    /// Active tab.
    TabActive,
    /// Inactive tab.
    TabInactive,
    /// Borders.
    Border,
    /// Card surface.
    Card,
    /// Card title.
    CardLabel,
    /// Card value.
    CardValue,
    /// Card secondary value.
    CardSecondary,
    /// Status bar background.
    StatusBar,
    /// Status bar key binding.
    StatusKey,
    /// The total row.
    TotalRow,
}

/// Style of a token count: dimmed when it is zero, default text otherwise.
pub fn tokens_style(n: u64) -> (s: Style)
    ensures
        s == (if n == 0 {
            Style::TextDim
        } else {
            Style::Text
        }),
{
    if n == 0 {
        Style::TextDim
    } else {
        Style::Text
    }
}

} // verus!
