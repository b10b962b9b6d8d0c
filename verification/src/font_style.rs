//! Named font sizes of the workspace UI: eight integer steps, from the
//! smallest dot label to titles.
use vstd::prelude::*;

verus! {

/// The font sizes of the workspace UI, smallest first.
#[derive(Debug, Clone, Copy, PartialEq, Eq, Structural)]
pub struct WorkspaceFonts {
    pub dot_xs: u32,
    pub dot_sm: u32,
    pub caption_sm: u32,
    pub caption: u32,
    pub label: u32,
    pub body: u32,
    pub subtitle: u32,
    pub title: u32,
}

/// The sizes the theme ships with.
pub open spec fn theme_fonts() -> WorkspaceFonts {
    WorkspaceFonts { dot_xs: 8, dot_sm: 9, caption_sm: 10, caption: 11, label: 12, body: 13, subtitle: 14, title: 15 }
}

/// The workspace font sizes.
pub fn workspace_fonts() -> (r: WorkspaceFonts)
    ensures
        r == theme_fonts(),
{
    WorkspaceFonts { dot_xs: 8, dot_sm: 9, caption_sm: 10, caption: 11, label: 12, body: 13, subtitle: 14, title: 15 }
}

/// Size of the smallest dot labels.
pub fn dot_xs() -> (r: u32)
    ensures
        r == theme_fonts().dot_xs,
{
    workspace_fonts().dot_xs
}

/// Size of small dot labels.
pub fn dot_sm() -> (r: u32)
    ensures
        r == theme_fonts().dot_sm,
{
    workspace_fonts().dot_sm
}

/// Size of small captions.
pub fn caption_sm() -> (r: u32)
    ensures
        r == theme_fonts().caption_sm,
{
    workspace_fonts().caption_sm
}

/// Size of captions.
pub fn caption() -> (r: u32)
    ensures
        r == theme_fonts().caption,
{
    workspace_fonts().caption
}

/// Size of labels.
pub fn label() -> (r: u32)
    ensures
        r == theme_fonts().label,
{
    workspace_fonts().label
}

/// Size of body text.
pub fn body() -> (r: u32)
    ensures
        r == theme_fonts().body,
{
    workspace_fonts().body
}

/// Size of subtitles.
pub fn subtitle() -> (r: u32)
    ensures
        r == theme_fonts().subtitle,
{
    workspace_fonts().subtitle
}

/// Size of titles.
pub fn title() -> (r: u32)
    ensures
        r == theme_fonts().title,
{
    workspace_fonts().title
}

/// The sizes grow strictly from the smallest dot label to titles.
pub proof fn law_font_steps_increase()
    ensures
        ({
            let f = theme_fonts();
            f.dot_xs < f.dot_sm < f.caption_sm < f.caption < f.label < f.body < f.subtitle < f.title
        }),
{
}

} // verus!
