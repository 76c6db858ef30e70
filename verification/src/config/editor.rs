//! Settings of the editor: global defaults and what a user or a language
//! sets over them.
use vstd::prelude::*;

verus! {

pub const DEFAULT_INDENT_WIDTH: usize = 2;

pub const DEFAULT_TAB_WIDTH: usize = 4;

/// How indent guides are drawn.
#[derive(Debug, Clone, Copy, PartialEq, Eq, Structural)]
pub enum IndentGuideStyle {
    /// A plain bar in every cell of a guide.
    Line,
    /// Corners and an arrow around the active scope.
    P10k,
}

/// Settings as a user wrote them; what is left out is `None`.
#[derive(Debug, Clone, Copy)]
pub struct EditorToml {
    pub indent_width: Option<usize>,
    pub tab_width: Option<usize>,
    pub use_tabs: Option<bool>,
    pub show_whitespace: Option<bool>,
    pub format_on_save: Option<bool>,
    pub indent_guides: Option<bool>,
    pub indent_guides_skip_levels: Option<usize>,
    pub indent_guide_style: Option<IndentGuideStyle>,
}

impl EditorToml {
    pub open spec fn nothing() -> EditorToml {
        EditorToml {
            indent_width: None,
            tab_width: None,
            use_tabs: None,
            show_whitespace: None,
            format_on_save: None,
            indent_guides: None,
            indent_guides_skip_levels: None,
            indent_guide_style: None,
        }
    }
}

impl Default for EditorToml {
    fn default() -> (r: EditorToml)
        ensures
            r == EditorToml::nothing(),
    {
        EditorToml {
            indent_width: None,
            tab_width: None,
            use_tabs: None,
            show_whitespace: None,
            format_on_save: None,
            indent_guides: None,
            indent_guides_skip_levels: None,
            indent_guide_style: None,
        }
    }
}

/// Settings as the editor uses them.
#[derive(Debug, Clone, Copy, PartialEq, Eq, Structural)]
pub struct EditorConfig {
    pub indent_width: usize,
    pub tab_width: usize,
    pub use_tabs: bool,
    pub show_whitespace: bool,
    pub format_on_save: bool,
    pub indent_guides: bool,
    pub indent_guides_skip_levels: usize,
    pub indent_guide_style: IndentGuideStyle,
}

impl Default for EditorConfig {
    fn default() -> (r: EditorConfig)
        ensures
            r == (EditorConfig {
                indent_width: DEFAULT_INDENT_WIDTH,
                tab_width: DEFAULT_TAB_WIDTH,
                use_tabs: false,
                show_whitespace: false,
                format_on_save: true,
                indent_guides: true,
                indent_guides_skip_levels: 1,
                indent_guide_style: IndentGuideStyle::Line,
            }),
    {
        EditorConfig {
            indent_width: DEFAULT_INDENT_WIDTH,
            tab_width: DEFAULT_TAB_WIDTH,
            use_tabs: false,
            show_whitespace: false,
            format_on_save: true,
            indent_guides: true,
            indent_guides_skip_levels: 1,
            indent_guide_style: IndentGuideStyle::Line,
        }
    }
}

/// What is set, else what was there.
pub open spec fn set_or<T>(set: Option<T>, before: T) -> T {
    match set {
        Some(v) => v,
        None => before,
    }
}

impl EditorConfig {
    pub open spec fn overlaid(self, user: EditorToml) -> EditorConfig {
        EditorConfig {
            indent_width: set_or(user.indent_width, self.indent_width),
            tab_width: set_or(user.tab_width, self.tab_width),
            use_tabs: set_or(user.use_tabs, self.use_tabs),
            show_whitespace: set_or(user.show_whitespace, self.show_whitespace),
            format_on_save: set_or(user.format_on_save, self.format_on_save),
            indent_guides: set_or(user.indent_guides, self.indent_guides),
            indent_guides_skip_levels: set_or(user.indent_guides_skip_levels, self.indent_guides_skip_levels),
            indent_guide_style: set_or(user.indent_guide_style, self.indent_guide_style),
        }
    }

    /// These settings, with each field that `user` sets replaced.
    pub fn overlay(self, user: &EditorToml) -> (r: EditorConfig)
        ensures
            r == self.overlaid(*user),
    {
        EditorConfig {
            indent_width: user.indent_width.unwrap_or(self.indent_width),
            tab_width: user.tab_width.unwrap_or(self.tab_width),
            use_tabs: user.use_tabs.unwrap_or(self.use_tabs),
            show_whitespace: user.show_whitespace.unwrap_or(self.show_whitespace),
            format_on_save: user.format_on_save.unwrap_or(self.format_on_save),
            indent_guides: user.indent_guides.unwrap_or(self.indent_guides),
            indent_guides_skip_levels: user.indent_guides_skip_levels.unwrap_or(self.indent_guides_skip_levels),
            indent_guide_style: user.indent_guide_style.unwrap_or(self.indent_guide_style),
        }
    }
}

/// Settings that set nothing change nothing, and settings that are laid over
/// twice count once.
pub proof fn law_overlay(base: EditorConfig, user: EditorToml)
    ensures
        base.overlaid(EditorToml::nothing()) == base,
        base.overlaid(user).overlaid(user) == base.overlaid(user),
{
}

} // verus!
