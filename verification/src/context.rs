//! What is known of the terminal pane that a chat belongs to.

use crate::palette::ChatPalette;
use vstd::prelude::*;

verus! {

/// Terminal context captured from the active pane before entering chat mode.
pub struct TerminalContext {
    pub cwd: String,
    pub visible_lines: Vec<String>,
    pub tab_snapshot: String,
    pub selected_text: String,
    pub colors: ChatPalette,
}

/// What a [`TerminalContext`] holds.
#[verifier::ext_equal]
pub struct ContextView {
    pub cwd: Seq<char>,
    pub visible_lines: Seq<Seq<char>>,
    pub tab_snapshot: Seq<char>,
    pub selected_text: Seq<char>,
    pub colors: ChatPalette,
}

impl DeepView for TerminalContext {
    type V = ContextView;

    open spec fn deep_view(&self) -> ContextView {
        ContextView {
            cwd: self.cwd@,
            visible_lines: self.visible_lines.deep_view(),
            tab_snapshot: self.tab_snapshot@,
            selected_text: self.selected_text@,
            colors: self.colors,
        }
    }
}

} // verus!
