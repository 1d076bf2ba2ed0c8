//! The modes a presentation runs in, its options, and the errors it reports.
use crate::highlighting::SnippetLanguage;
use std::io::Error as IoError;
use vstd::prelude::*;

verus! {

/// `std::io::Error`, an input or output failure.
#[verifier::external_type_specification]
#[verifier::external_body]
pub struct ExIoError(IoError);

/// This presentation mode.
#[derive(Clone, Copy, Debug, PartialEq, Eq, Structural)]
pub enum PresentMode {
    /// We are developing the presentation so we want live reloads when the input changes.
    Development,
    /// This is a live presentation so we don't want hot reloading.
    Presentation,
}

/// This slideshow's mode.
#[derive(Clone, Copy, Debug, PartialEq, Eq, Structural)]
pub enum SlideShowMode {
    /// We are developing the slideshow so we want live reloads when the input changes.
    Development,
    /// This is a live presentation so we don't want hot reloading.
    Presentation,
}

impl PresentMode {
    /// Whether changes to the presentation's files are picked up while presenting.
    pub fn reloads_on_change(&self) -> (b: bool)
        ensures
            b == (*self == PresentMode::Development),
    {
        match self {
            PresentMode::Development => true,
            PresentMode::Presentation => false,
        }
    }
}

/// A rendering error.
#[derive(Debug)]
pub enum RenderError {
    Io(IoError),
    UnsupportedStructure(&'static str),
    /// The screen is too small.
    TerminalTooSmall,
    /// A column was entered that the layout does not have.
    InvalidLayoutEnter,
    /// The default screen was popped.
    PopDefaultScreen,
    /// Something is wider than the screen.
    HorizontalOverflow,
    /// Something is taller than the screen.
    VerticalOverflow,
    Other(String),
}

/// An error during the presentation.
#[derive(Debug)]
pub enum PresentationError {
    Render(RenderError),
    Io(IoError),
}

impl PresentationError {
    /// The presentation error for a rendering error.
    pub fn from_render(e: RenderError) -> (r: Self)
        ensures
            r == PresentationError::Render(e),
    {
        PresentationError::Render(e)
    }
}

/// The presentation options that a presentation's front matter can override.
#[derive(Clone, Debug)]
pub struct OptionsConfig {
    pub implicit_slide_ends: Option<bool>,
    pub command_prefix: Option<String>,
    pub image_attributes_prefix: Option<String>,
    pub incremental_lists: Option<bool>,
    pub strict_front_matter_parsing: Option<bool>,
    pub end_slide_shorthand: Option<bool>,
    pub auto_render_languages: Vec<SnippetLanguage>,
    pub list_item_newlines: Option<u8>,
}

/// The options a theme is loaded with.
#[derive(Clone, Copy, Debug, PartialEq, Eq, Structural)]
pub struct ThemeOptions {
    /// Whether the terminal can draw text in larger font sizes.
    pub font_size_supported: bool,
}

/// How a presentation is built.
#[derive(Clone, Debug)]
pub struct PresentationBuilderOptions {
    pub allow_mutations: bool,
    pub implicit_slide_ends: bool,
    pub command_prefix: String,
    pub image_attribute_prefix: String,
    pub incremental_lists: bool,
    pub force_default_theme: bool,
    pub end_slide_shorthand: bool,
    pub print_modal_background: bool,
    pub strict_front_matter_parsing: bool,
    pub enable_snippet_execution: bool,
    pub enable_snippet_execution_replace: bool,
    pub render_speaker_notes_only: bool,
    pub auto_render_languages: Vec<SnippetLanguage>,
    pub theme_options: ThemeOptions,
    pub pause_before_incremental_lists: bool,
    pub pause_after_incremental_lists: bool,
    pub pause_create_new_slide: bool,
    pub list_item_newlines: u8,
    pub validate_snippets: bool,
    pub layout_grid: bool,
}

/// The value an override gives: its own when present, else the current one.
pub open spec fn or_current<T>(value: Option<T>, current: T) -> T {
    match value {
        Some(v) => v,
        None => current,
    }
}

/// Options with the overrides that a presentation gives applied: each flag, prefix and
/// list item newline count given replaces the current one, and the languages to render
/// automatically replace the current ones unless none is given; every other option stays.
pub open spec fn merged_options(
    current: PresentationBuilderOptions,
    options: OptionsConfig,
) -> PresentationBuilderOptions {
    PresentationBuilderOptions {
        implicit_slide_ends: or_current(options.implicit_slide_ends, current.implicit_slide_ends),
        incremental_lists: or_current(options.incremental_lists, current.incremental_lists),
        end_slide_shorthand: or_current(options.end_slide_shorthand, current.end_slide_shorthand),
        strict_front_matter_parsing: or_current(
            options.strict_front_matter_parsing,
            current.strict_front_matter_parsing,
        ),
        command_prefix: or_current(options.command_prefix, current.command_prefix),
        image_attribute_prefix: or_current(
            options.image_attributes_prefix,
            current.image_attribute_prefix,
        ),
        auto_render_languages: if options.auto_render_languages@.len() == 0 {
            current.auto_render_languages
        } else {
            options.auto_render_languages
        },
        list_item_newlines: or_current(options.list_item_newlines, current.list_item_newlines),
        ..current
    }
}

/// A flag's override, or its current value.
fn or_current_bool(value: Option<bool>, current: bool) -> (b: bool)
    ensures
        b == or_current(value, current),
{
    match value {
        Some(v) => v,
        None => current,
    }
}

impl PresentationBuilderOptions {
    /// Applies the options that a presentation overrides; the others stay.
    pub fn merge(&mut self, options: OptionsConfig)
        ensures
            *final(self) == merged_options(*old(self), options),
    {
        let OptionsConfig {
            implicit_slide_ends,
            command_prefix,
            image_attributes_prefix,
            incremental_lists,
            strict_front_matter_parsing,
            end_slide_shorthand,
            auto_render_languages,
            list_item_newlines,
        } = options;
        let mut current = PresentationBuilderOptions::default();
        std::mem::swap(&mut current, self);
        let PresentationBuilderOptions {
            allow_mutations,
            implicit_slide_ends: current_implicit_slide_ends,
            command_prefix: current_command_prefix,
            image_attribute_prefix: current_image_attribute_prefix,
            incremental_lists: current_incremental_lists,
            force_default_theme,
            end_slide_shorthand: current_end_slide_shorthand,
            print_modal_background,
            strict_front_matter_parsing: current_strict_front_matter_parsing,
            enable_snippet_execution,
            enable_snippet_execution_replace,
            render_speaker_notes_only,
            auto_render_languages: current_auto_render_languages,
            theme_options,
            pause_before_incremental_lists,
            pause_after_incremental_lists,
            pause_create_new_slide,
            list_item_newlines: current_list_item_newlines,
            validate_snippets,
            layout_grid,
        } = current;
        *self = PresentationBuilderOptions {
            allow_mutations,
            implicit_slide_ends: or_current_bool(implicit_slide_ends, current_implicit_slide_ends),
            command_prefix: match command_prefix {
                Some(prefix) => prefix,
                None => current_command_prefix,
            },
            image_attribute_prefix: match image_attributes_prefix {
                Some(prefix) => prefix,
                None => current_image_attribute_prefix,
            },
            incremental_lists: or_current_bool(incremental_lists, current_incremental_lists),
            force_default_theme,
            end_slide_shorthand: or_current_bool(end_slide_shorthand, current_end_slide_shorthand),
            print_modal_background,
            strict_front_matter_parsing: or_current_bool(
                strict_front_matter_parsing,
                current_strict_front_matter_parsing,
            ),
            enable_snippet_execution,
            enable_snippet_execution_replace,
            render_speaker_notes_only,
            auto_render_languages: if auto_render_languages.len() > 0 {
                auto_render_languages
            } else {
                current_auto_render_languages
            },
            theme_options,
            pause_before_incremental_lists,
            pause_after_incremental_lists,
            pause_create_new_slide,
            list_item_newlines: match list_item_newlines {
                Some(count) => count,
                None => current_list_item_newlines,
            },
            validate_snippets,
            layout_grid,
        };
    }
}

impl Default for PresentationBuilderOptions {
    fn default() -> (o: Self)
        ensures
            o.allow_mutations,
            !o.implicit_slide_ends,
            o.command_prefix@ == Seq::<char>::empty(),
            o.image_attribute_prefix@ == "image:"@,
            !o.incremental_lists,
            !o.force_default_theme,
            !o.end_slide_shorthand,
            !o.print_modal_background,
            o.strict_front_matter_parsing,
            !o.enable_snippet_execution,
            !o.enable_snippet_execution_replace,
            !o.render_speaker_notes_only,
            o.auto_render_languages@.len() == 0,
            !o.theme_options.font_size_supported,
            o.pause_before_incremental_lists,
            o.pause_after_incremental_lists,
            !o.pause_create_new_slide,
            o.list_item_newlines == 1,
            !o.validate_snippets,
            !o.layout_grid,
    {
        PresentationBuilderOptions {
            allow_mutations: true,
            implicit_slide_ends: false,
            command_prefix: String::new(),
            image_attribute_prefix: "image:".to_owned(),
            incremental_lists: false,
            force_default_theme: false,
            end_slide_shorthand: false,
            print_modal_background: false,
            strict_front_matter_parsing: true,
            enable_snippet_execution: false,
            enable_snippet_execution_replace: false,
            render_speaker_notes_only: false,
            auto_render_languages: Vec::new(),
            theme_options: ThemeOptions { font_size_supported: false },
            pause_before_incremental_lists: true,
            pause_after_incremental_lists: true,
            pause_create_new_slide: false,
            list_item_newlines: 1,
            validate_snippets: false,
            layout_grid: false,
        }
    }
}

/// How a presentation is presented.
#[derive(Clone, Debug)]
pub struct PresenterOptions {
    pub mode: PresentMode,
    pub builder_options: PresentationBuilderOptions,
    pub font_size_fallback: u8,
    pub validate_overflows: bool,
}

} // verus!
