//! A presentation's front matter: its introduction slide, and the theme it asks for.
use crate::builder::{
    lemma_single_step, lemma_steps_join, steps_done, BuildStep, BuilderView, ElementStyle,
    PresentationBuilder, SlidePrelude, BuilderSettings, lemma_no_steps,
};
use crate::diff::line_contents;
use crate::operation::RenderOperation;
use crate::options::OptionsConfig;
use crate::style::{merged_style, TextStyle};
use crate::text::{Text, WeightedLine};
use crate::text_util::{all_lines, lines_of, str_chars, string_from_chars};
use crate::theme_set::{listed, PresentationThemeSet};
use vstd::prelude::*;

verus! {

/// Where the authors go on the introduction slide.
#[derive(Clone, Copy, Debug, PartialEq, Eq, Structural)]
pub enum AuthorPositioning {
    /// Three lines below the title.
    BelowTitle,
    /// At the bottom of the slide.
    PageBottom,
}

/// How a piece of the introduction slide is drawn: its style, and the alignment and inline
/// code colors of its kind of element.
#[derive(Clone, Copy, Debug, PartialEq, Eq, Structural)]
pub struct IntroText {
    pub style: TextStyle,
    pub element: ElementStyle,
}

/// How the theme draws the introduction slide.
#[derive(Clone, Copy, Debug, PartialEq, Eq, Structural)]
pub struct IntroSlideTheme {
    pub title: IntroText,
    pub subtitle: IntroText,
    pub event: IntroText,
    pub location: IntroText,
    pub date: IntroText,
    pub author: IntroText,
    pub author_positioning: AuthorPositioning,
    /// Whether the introduction slide has a footer.
    pub footer: bool,
}

/// Overrides of the theme, given in the front matter; only whether they extend a theme matters
/// here.
#[derive(Clone, Debug)]
pub struct ThemeOverrides {
    pub extends: Option<String>,
}

/// The theme a presentation asks for: by name, by path, and overrides.
#[derive(Clone, Debug)]
pub struct PresentationThemeMetadata {
    pub name: Option<String>,
    pub path: Option<String>,
    pub overrides: Option<ThemeOverrides>,
}

/// What a presentation's front matter says of it.
#[derive(Clone, Debug)]
pub struct PresentationMetadata {
    pub title: Option<String>,
    pub sub_title: Option<String>,
    pub event: Option<String>,
    pub location: Option<String>,
    pub date: Option<String>,
    pub author: Option<String>,
    pub authors: Vec<String>,
    pub theme: PresentationThemeMetadata,
    /// Options that override those the presentation is built with.
    pub options: Option<OptionsConfig>,
}

/// What an optional text holds.
pub open spec fn opt_view(o: Option<String>) -> Option<Seq<char>> {
    match o {
        Some(s) => Some(s@),
        None => None,
    }
}

/// All the authors: the one given alone first, then the others.
pub open spec fn all_authors(m: PresentationMetadata) -> Seq<Seq<char>> {
    let first = match m.author {
        Some(a) => seq![a@],
        None => Seq::empty(),
    };
    first + m.authors@.map_values(|a: String| a@)
}

/// Whether the front matter says anything of the presentation itself.
pub open spec fn has_frontmatter_spec(m: PresentationMetadata) -> bool {
    m.title is Some || m.sub_title is Some || m.event is Some || m.location is Some || m.date
        is Some || m.author is Some || m.authors@.len() > 0
}

/// Whether the authors' row can be counted: placed at the bottom of the slide, the last
/// author's row from the bottom is one less than their number, counted in 16 bits.
pub open spec fn intro_fits(m: PresentationMetadata, theme: IntroSlideTheme) -> bool {
    theme.author_positioning is PageBottom ==> (all_authors(m).len() == 0 || all_authors(m).len() as u16
        != 0)
}

/// The settings once a front matter's options are applied: each option given replaces the
/// setting built from it.
pub open spec fn settings_with_options(s: BuilderSettings, options: Option<OptionsConfig>) -> BuilderSettings {
    match options {
        None => s,
        Some(o) => BuilderSettings {
            command_prefix: match o.command_prefix {
                Some(p) => p,
                None => s.command_prefix,
            },
            incremental_lists: match o.incremental_lists {
                Some(v) => v,
                None => s.incremental_lists,
            },
            list_item_newlines: match o.list_item_newlines {
                Some(v) => v,
                None => s.list_item_newlines,
            },
            ..s
        },
    }
}

impl PresentationMetadata {
    /// Whether the front matter says anything of the presentation itself.
    pub fn has_frontmatter(&self) -> (b: bool)
        ensures
            b == has_frontmatter_spec(*self),
    {
        self.title.is_some() || self.sub_title.is_some() || self.event.is_some()
            || self.location.is_some() || self.date.is_some() || self.author.is_some()
            || self.authors.len() > 0
    }
}

/// A line of a title: nothing for an empty line, else the line in the title's style.
pub open spec fn title_line_pieces(line: Seq<char>, style: TextStyle) -> Seq<(Seq<char>, TextStyle)> {
    if line.len() == 0 {
        Seq::empty()
    } else {
        seq![(line, merged_style(TextStyle::plain(), style))]
    }
}

/// The steps of a text of several lines: each line, then a line break.
pub open spec fn multiline_steps(text: Option<Seq<char>>, t: IntroText) -> Seq<BuildStep> {
    match text {
        None => Seq::empty(),
        Some(s) => lines_of(s).map_values(
            |l: Seq<char>| BuildStep::TextLine { pieces: title_line_pieces(l, t.style), style: t.element },
        ),
    }
}

/// The steps of a text of one line, in its style, then a line break.
pub open spec fn single_steps(text: Option<Seq<char>>, t: IntroText) -> Seq<BuildStep> {
    match text {
        None => Seq::empty(),
        Some(s) => seq![BuildStep::TextLine { pieces: seq![(s, t.style)], style: t.element }],
    }
}

/// The steps of the authors.
pub open spec fn author_steps(authors: Seq<Seq<char>>, t: IntroText) -> Seq<BuildStep> {
    authors.map_values(
        |a: Seq<char>| BuildStep::TextLine { pieces: seq![(a, t.style)], style: t.element },
    )
}

/// The steps of the introduction slide: no footer unless the theme has one there; the text
/// centered vertically; the title's and subtitle's lines; two line breaks, then the event,
/// location and date, when any is given; the authors, three lines below or at the bottom of
/// the slide; and the end of the slide.
pub open spec fn intro_steps(m: PresentationMetadata, theme: IntroSlideTheme) -> Seq<BuildStep> {
    intro_prefix(m, theme) + intro_details(m, theme) + intro_authors(m, theme) + seq![
        BuildStep::Terminate,
    ]
}

/// The steps of the authors: three line breaks below the title, or a jump to as many rows
/// from the bottom as there are authors, then each author; nothing without authors.
pub open spec fn intro_authors(m: PresentationMetadata, theme: IntroSlideTheme) -> Seq<BuildStep> {
    let authors = all_authors(m);
    if authors.len() > 0 {
        let place = match theme.author_positioning {
            AuthorPositioning::BelowTitle => BuildStep::LineBreaks(3),
            AuthorPositioning::PageBottom => BuildStep::Operation(
                RenderOperation::JumpToBottomRow { index: ((authors.len() as u16) - 1) as u16 },
            ),
        };
        seq![place] + author_steps(authors, theme.author)
    } else {
        Seq::empty()
    }
}

/// The lines of a text, each one piece in a style (an empty one none).
fn text_lines(text: &String, style: TextStyle) -> (v: Vec<WeightedLine>)
    ensures
        v@.len() == lines_of(text@).len(),
        forall|i: int|
            0 <= i < v@.len() ==> line_contents(#[trigger] v@[i]) == title_line_pieces(
                lines_of(text@)[i],
                style,
            ),
{
    let chars = str_chars(text.as_str());
    let lines = all_lines(chars.as_slice());
    let merged = TextStyle::default().merged(&style);
    let mut v: Vec<WeightedLine> = Vec::new();
    let mut i: usize = 0;
    while i < lines.len()
        invariant
            i <= lines@.len(),
            chars@ == text@,
            lines@.len() == lines_of(text@).len(),
            forall|j: int| 0 <= j < lines@.len() ==> (#[trigger] lines@[j])@ == lines_of(text@)[j],
            merged == merged_style(TextStyle::plain(), style),
            v@.len() == i,
            forall|j: int|
                0 <= j < i ==> line_contents(#[trigger] v@[j]) == title_line_pieces(
                    lines_of(text@)[j],
                    style,
                ),
        decreases lines@.len() - i,
    {
        let line = &lines[i];
        let mut chunks: Vec<Text> = Vec::new();
        if line.len() > 0 {
            chunks.push(Text { content: string_from_chars(line.as_slice()), style: merged });
        }
        let l = WeightedLine { chunks };
        assert(line_contents(l) =~= title_line_pieces(lines_of(text@)[i as int], style));
        v.push(l);
        i += 1;
    }
    v
}

/// A text of one line in a style.
fn single_line(text: &String, style: TextStyle) -> (l: WeightedLine)
    ensures
        line_contents(l) == seq![(text@, style)],
{
    let chars = str_chars(text.as_str());
    let l = WeightedLine::from_text(Text { content: string_from_chars(chars.as_slice()), style });
    assert(line_contents(l) =~= seq![(text@, style)]);
    l
}

impl PresentationBuilder {
    /// Some lines of text, each drawn as an element of a kind, then a line break.
    fn push_text_lines(&mut self, lines: &Vec<WeightedLine>, style: ElementStyle)
        ensures
            steps_done(
                old(self).view(),
                old(self).prelude,
                old(self).settings,
                lines@.map_values(
                    |l: WeightedLine| BuildStep::TextLine { pieces: line_contents(l), style },
                ),
                final(self).view(),
            ),
            final(self).settings == old(self).settings,
            final(self).prelude == old(self).prelude,
    {
        let ghost start = self.view();
        let ghost steps = lines@.map_values(
            |l: WeightedLine| BuildStep::TextLine { pieces: line_contents(l), style },
        );
        proof {
            lemma_no_steps(start, self.prelude, self.settings);
            assert(steps.take(0) =~= Seq::<BuildStep>::empty());
        }
        let mut i: usize = 0;
        while i < lines.len()
            invariant
                i <= lines@.len(),
                steps == lines@.map_values(
                    |l: WeightedLine| BuildStep::TextLine { pieces: line_contents(l), style },
                ),
                self.settings == old(self).settings,
                self.prelude == old(self).prelude,
                steps_done(start, self.prelude, self.settings, steps.take(i as int), self.view()),
            decreases lines@.len() - i,
        {
            let ghost mid = self.view();
            self.push_text_line(&lines[i], style);
            proof {
                lemma_single_step(mid, self.prelude, self.settings, steps[i as int], self.view());
                lemma_steps_join(
                    start,
                    self.prelude,
                    self.settings,
                    steps.take(i as int),
                    seq![steps[i as int]],
                    mid,
                    self.view(),
                );
                assert(steps.take(i as int) + seq![steps[i as int]] =~= steps.take(i + 1));
            }
            i += 1;
        }
        assert(steps.take(i as int) =~= steps);
    }

    /// The introduction slide, made of what the front matter says of the presentation.
    pub fn push_intro_slide(&mut self, metadata: &PresentationMetadata, theme: &IntroSlideTheme)
        requires
            intro_fits(*metadata, *theme),
        ensures
            steps_done(
                old(self).view(),
                old(self).prelude,
                old(self).settings,
                intro_steps(*metadata, *theme),
                final(self).view(),
            ),
            final(self).settings == old(self).settings,
            final(self).prelude == old(self).prelude,
    {
        let ghost start = self.view();
        self.push_intro_head(metadata, theme);
        let ghost v1 = self.view();
        self.push_intro_details(metadata, theme);
        let ghost v2 = self.view();
        self.push_intro_authors(metadata, theme);
        let ghost v3 = self.view();
        self.terminate_step();
        proof {
            let p1 = intro_prefix(*metadata, *theme);
            let p2 = intro_details(*metadata, *theme);
            let p3 = intro_authors(*metadata, *theme);
            lemma_steps_join(start, self.prelude, self.settings, p1, p2, v1, v2);
            lemma_steps_join(start, self.prelude, self.settings, p1 + p2, p3, v2, v3);
            lemma_single_step(v3, self.prelude, self.settings, BuildStep::Terminate, self.view());
            lemma_steps_join(
                start,
                self.prelude,
                self.settings,
                p1 + p2 + p3,
                seq![BuildStep::Terminate],
                v3,
                self.view(),
            );
        }
    }

    /// The first part of the introduction slide: up to the subtitle.
    fn push_intro_head(&mut self, metadata: &PresentationMetadata, theme: &IntroSlideTheme)
        ensures
            steps_done(
                old(self).view(),
                old(self).prelude,
                old(self).settings,
                intro_prefix(*metadata, *theme),
                final(self).view(),
            ),
            final(self).settings == old(self).settings,
            final(self).prelude == old(self).prelude,
    {
        let ghost start = self.view();
        let ghost mut steps: Seq<BuildStep> = Seq::empty();
        proof {
            lemma_no_steps(start, self.prelude, self.settings);
        }
        if !theme.footer {
            let ghost mid = self.view();
            self.ignore_footer_step();
            proof {
                lemma_single_step(mid, self.prelude, self.settings, BuildStep::IgnoreFooter, self.view());
                lemma_steps_join(start, self.prelude, self.settings, steps, seq![BuildStep::IgnoreFooter], mid, self.view());
                steps = steps + seq![BuildStep::IgnoreFooter];
            }
        }
        let ghost mid = self.view();
        self.push_operation_step(RenderOperation::JumpToVerticalCenter);
        proof {
            let step = BuildStep::Operation(RenderOperation::JumpToVerticalCenter);
            lemma_single_step(mid, self.prelude, self.settings, step, self.view());
            lemma_steps_join(start, self.prelude, self.settings, steps, seq![step], mid, self.view());
            steps = steps + seq![step];
        }
        let ghost mid = self.view();
        self.push_multiline(&metadata.title, theme.title);
        proof {
            let part = multiline_steps(opt_view(metadata.title), theme.title);
            lemma_steps_join(start, self.prelude, self.settings, steps, part, mid, self.view());
            steps = steps + part;
        }
        let ghost mid = self.view();
        self.push_multiline(&metadata.sub_title, theme.subtitle);
        proof {
            let part = multiline_steps(opt_view(metadata.sub_title), theme.subtitle);
            lemma_steps_join(start, self.prelude, self.settings, steps, part, mid, self.view());
            steps = steps + part;
            assert(steps =~= intro_prefix(*metadata, *theme));
        }
    }

    /// A text of several lines, when given, each line in its style, then a line break.
    fn push_multiline(&mut self, text: &Option<String>, t: IntroText)
        ensures
            steps_done(
                old(self).view(),
                old(self).prelude,
                old(self).settings,
                multiline_steps(opt_view(*text), t),
                final(self).view(),
            ),
            final(self).settings == old(self).settings,
            final(self).prelude == old(self).prelude,
    {
        match text {
            Some(s) => {
                let lines = text_lines(s, t.style);
                self.push_text_lines(&lines, t.element);
                proof {
                    let part = lines@.map_values(
                        |l: WeightedLine| BuildStep::TextLine { pieces: line_contents(l), style: t.element },
                    );
                    assert(part =~= multiline_steps(opt_view(*text), t));
                }
            },
            None => {
                proof {
                    lemma_no_steps(self.view(), self.prelude, self.settings);
                }
            },
        }
    }

    /// The event, location and date, after two line breaks, when any is given.
    fn push_intro_details(&mut self, metadata: &PresentationMetadata, theme: &IntroSlideTheme)
        ensures
            steps_done(
                old(self).view(),
                old(self).prelude,
                old(self).settings,
                intro_details(*metadata, *theme),
                final(self).view(),
            ),
            final(self).settings == old(self).settings,
            final(self).prelude == old(self).prelude,
    {
        let ghost start = self.view();
        if metadata.event.is_some() || metadata.location.is_some() || metadata.date.is_some() {
            self.push_line_breaks_step(2);
            let ghost v0 = self.view();
            self.push_single(&metadata.event, theme.event);
            let ghost v1 = self.view();
            self.push_single(&metadata.location, theme.location);
            let ghost v2 = self.view();
            self.push_single(&metadata.date, theme.date);
            proof {
                let s0 = seq![BuildStep::LineBreaks(2)];
                let s1 = single_steps(opt_view(metadata.event), theme.event);
                let s2 = single_steps(opt_view(metadata.location), theme.location);
                let s3 = single_steps(opt_view(metadata.date), theme.date);
                lemma_single_step(start, self.prelude, self.settings, BuildStep::LineBreaks(2), v0);
                lemma_steps_join(start, self.prelude, self.settings, s0, s1, v0, v1);
                lemma_steps_join(start, self.prelude, self.settings, s0 + s1, s2, v1, v2);
                lemma_steps_join(start, self.prelude, self.settings, s0 + s1 + s2, s3, v2, self.view());
            }
        } else {
            proof {
                lemma_no_steps(start, self.prelude, self.settings);
            }
        }
    }

    /// The authors.
    fn push_intro_authors(&mut self, metadata: &PresentationMetadata, theme: &IntroSlideTheme)
        requires
            intro_fits(*metadata, *theme),
        ensures
            steps_done(
                old(self).view(),
                old(self).prelude,
                old(self).settings,
                intro_authors(*metadata, *theme),
                final(self).view(),
            ),
            final(self).settings == old(self).settings,
            final(self).prelude == old(self).prelude,
    {
        let ghost start = self.view();
        let mut authors: Vec<WeightedLine> = Vec::new();
        if let Some(author) = &metadata.author {
            authors.push(single_line(author, theme.author.style));
        }
        let ghost first: int = if metadata.author is Some { 1 } else { 0 };
        let mut k: usize = 0;
        while k < metadata.authors.len()
            invariant
                k <= metadata.authors@.len(),
                first == (if metadata.author is Some { 1int } else { 0 }),
                authors@.len() == first + k,
                forall|j: int|
                    0 <= j < authors@.len() ==> line_contents(#[trigger] authors@[j]) == seq![
                        (all_authors(*metadata)[j], theme.author.style),
                    ],
            decreases metadata.authors@.len() - k,
        {
            authors.push(single_line(&metadata.authors[k], theme.author.style));
            k += 1;
        }
        let ghost part = authors@.map_values(
            |l: WeightedLine| BuildStep::TextLine { pieces: line_contents(l), style: theme.author.element },
        );
        assert(part =~= author_steps(all_authors(*metadata), theme.author));
        if authors.len() > 0 {
            let count: u16 = #[verifier::truncate] (authors.len() as u16);
            let below = match theme.author_positioning {
                AuthorPositioning::BelowTitle => true,
                AuthorPositioning::PageBottom => false,
            };
            if below {
                self.push_line_breaks_step(3);
            } else {
                self.push_operation_step(RenderOperation::JumpToBottomRow { index: count - 1 });
            }
            let ghost mid = self.view();
            proof {
                let place = if below {
                    BuildStep::LineBreaks(3)
                } else {
                    BuildStep::Operation(RenderOperation::JumpToBottomRow { index: (count - 1) as u16 })
                };
                lemma_single_step(start, self.prelude, self.settings, place, mid);
            }
            self.push_text_lines(&authors, theme.author.element);
            proof {
                let place = if below {
                    BuildStep::LineBreaks(3)
                } else {
                    BuildStep::Operation(RenderOperation::JumpToBottomRow { index: (count - 1) as u16 })
                };
                lemma_steps_join(start, self.prelude, self.settings, seq![place], part, mid, self.view());
                assert(seq![place] + part =~= intro_authors(*metadata, *theme));
            }
        } else {
            proof {
                lemma_no_steps(start, self.prelude, self.settings);
            }
        }
    }

    /// A text of one line, when given, in its style, then a line break.
    fn push_single(&mut self, text: &Option<String>, t: IntroText)
        ensures
            steps_done(
                old(self).view(),
                old(self).prelude,
                old(self).settings,
                single_steps(opt_view(*text), t),
                final(self).view(),
            ),
            final(self).settings == old(self).settings,
            final(self).prelude == old(self).prelude,
    {
        match text {
            Some(s) => {
                let line = single_line(s, t.style);
                let ghost mid = self.view();
                self.push_text_line(&line, t.element);
                proof {
                    let step = BuildStep::TextLine { pieces: seq![(s@, t.style)], style: t.element };
                    lemma_single_step(mid, self.prelude, self.settings, step, self.view());
                }
            },
            None => {
                proof {
                    lemma_no_steps(self.view(), self.prelude, self.settings);
                }
            },
        }
    }
}

/// The first steps of the introduction slide: up to the subtitle.
pub open spec fn intro_prefix(m: PresentationMetadata, theme: IntroSlideTheme) -> Seq<BuildStep> {
    let no_footer = if !theme.footer {
        seq![BuildStep::IgnoreFooter]
    } else {
        Seq::empty()
    };
    no_footer + seq![BuildStep::Operation(RenderOperation::JumpToVerticalCenter)]
        + multiline_steps(opt_view(m.title), theme.title) + multiline_steps(
        opt_view(m.sub_title),
        theme.subtitle,
    )
}

/// The steps of the event, location and date.
pub open spec fn intro_details(m: PresentationMetadata, theme: IntroSlideTheme) -> Seq<BuildStep> {
    if m.event is Some || m.location is Some || m.date is Some {
        seq![BuildStep::LineBreaks(2)] + single_steps(opt_view(m.event), theme.event)
            + single_steps(opt_view(m.location), theme.location) + single_steps(
            opt_view(m.date),
            theme.date,
        )
    } else {
        Seq::empty()
    }
}

/// The front matter cannot be used.
#[derive(Clone, Debug, PartialEq, Eq)]
pub enum FrontMatterError {
    /// Both `author` and `authors` are given.
    AuthorAndAuthors,
    /// Both a theme's name and its path are given.
    ThemeNameAndPath,
    /// No theme has the name given.
    ThemeNotFound(String),
    /// The theme overrides extend another theme, which they can't.
    OverridesExtend(String),
}

/// The builder with the operations that start a slide pushed.
pub open spec fn with_prelude(b: BuilderView, prelude: SlidePrelude) -> BuilderView {
    BuilderView { operations: b.operations + crate::builder::prelude_operations(prelude), ..b }
}

/// Whether a front matter can be used: it doesn't give both an author and authors, and the
/// theme it asks for is one there can be, as `theme_choice` says.
pub open spec fn front_matter_accepted<T>(
    m: PresentationMetadata,
    themes: PresentationThemeSet<T>,
    force_default: bool,
) -> bool {
    !(m.author is Some && m.authors@.len() > 0) && theme_choice(themes, m.theme, force_default) is Ok
}

/// Whether `e` is the error a refused front matter gives: both an author and authors first;
/// otherwise the theme's error.
pub open spec fn front_matter_refusal<T>(
    m: PresentationMetadata,
    themes: PresentationThemeSet<T>,
    force_default: bool,
    e: FrontMatterError,
) -> bool {
    if m.author is Some && m.authors@.len() > 0 {
        e == FrontMatterError::AuthorAndAuthors
    } else {
        theme_choice(themes, m.theme, force_default) == Err::<Option<(bool, Seq<char>)>, (int, Seq<char>)>(
            theme_error_view(e),
        )
    }
}

impl PresentationBuilder {
    /// What the front matter says of the presentation: refused when it gives both an author
    /// and authors, or asks for a theme there can't be; otherwise its options replace the
    /// settings they give and, when it says anything of the presentation, the introduction
    /// slide follows the operations that start a slide. The theme selected is returned; loading
    /// it is left to the caller.
    pub fn process_front_matter<T>(
        &mut self,
        metadata: &PresentationMetadata,
        theme: &IntroSlideTheme,
        themes: &PresentationThemeSet<T>,
        force_default: bool,
    ) -> (r: Result<ThemeSelection, FrontMatterError>)
        requires
            themes.wf(),
            front_matter_accepted(*metadata, *themes, force_default) ==> intro_fits(*metadata, *theme),
        ensures
            (r is Ok) == front_matter_accepted(*metadata, *themes, force_default),
            r matches Err(e) ==> front_matter_refusal(*metadata, *themes, force_default, e)
                && final(self).view() == old(self).view() && final(self).settings == old(self).settings,
            r matches Ok(sel) ==> theme_choice(*themes, metadata.theme, force_default) == Ok::<
                Option<(bool, Seq<char>)>,
                (int, Seq<char>),
            >(selection_view(sel)),
            r is Ok ==> final(self).settings == settings_with_options(old(self).settings, metadata.options),
            r is Ok && !has_frontmatter_spec(*metadata) ==> final(self).view() == old(self).view(),
            r is Ok && has_frontmatter_spec(*metadata) ==> steps_done(
                with_prelude(old(self).view(), old(self).prelude),
                old(self).prelude,
                final(self).settings,
                intro_steps(*metadata, *theme),
                final(self).view(),
            ),
            final(self).prelude == old(self).prelude,
    {
        if metadata.author.is_some() && metadata.authors.len() > 0 {
            return Err(FrontMatterError::AuthorAndAuthors);
        }
        let selection = match select_theme(themes, &metadata.theme, force_default) {
            Ok(sel) => sel,
            Err(e) => {
                return Err(e);
            },
        };
        self.apply_options(&metadata.options);
        if metadata.has_frontmatter() {
            self.push_slide_prelude();
            self.push_intro_slide(metadata, theme);
        }
        Ok(selection)
    }

    /// Applies a front matter's options to the settings they give.
    fn apply_options(&mut self, options: &Option<OptionsConfig>)
        ensures
            final(self).settings == settings_with_options(old(self).settings, *options),
            final(self).view() == old(self).view(),
            final(self).prelude == old(self).prelude,
    {
        if let Some(o) = options {
            if let Some(prefix) = &o.command_prefix {
                self.settings.command_prefix = prefix.clone();
            }
            if let Some(incremental) = o.incremental_lists {
                self.settings.incremental_lists = incremental;
            }
            if let Some(newlines) = o.list_item_newlines {
                self.settings.list_item_newlines = newlines;
            }
        }
    }
}

/// Where the theme comes from.
#[derive(Clone, Debug, PartialEq, Eq)]
pub enum ThemeSelection {
    /// The one in use stays.
    Current,
    /// The theme of this name, built in or custom.
    Named(String),
    /// The theme in the file at this path.
    Path(String),
}

/// What the theme selection holds.
pub open spec fn selection_view(s: ThemeSelection) -> Option<(bool, Seq<char>)> {
    match s {
        ThemeSelection::Current => None,
        ThemeSelection::Named(n) => Some((true, n@)),
        ThemeSelection::Path(p) => Some((false, p@)),
    }
}

/// The theme a presentation asks for: an error when it gives both a name and a path; unless
/// the default theme is forced, the theme of the name given, an error when none has it, or the
/// theme at the path given; and an error when the overrides extend a theme. Which selection,
/// or which error, as `Ok((is named, text))`, `Ok` of nothing for the current theme, or `Err`
/// of the error's kind (0 both given, 1 not found, 2 extending overrides) and its text.
pub open spec fn theme_choice<T>(
    themes: PresentationThemeSet<T>,
    metadata: PresentationThemeMetadata,
    force_default: bool,
) -> Result<Option<(bool, Seq<char>)>, (int, Seq<char>)> {
    if metadata.name is Some && metadata.path is Some {
        Err((0, Seq::empty()))
    } else {
        let chosen: Result<Option<(bool, Seq<char>)>, (int, Seq<char>)> = if force_default {
            Ok(None)
        } else {
            match metadata.name {
                Some(n) => if listed(themes.custom_names(), n@) || listed(themes.builtin(), n@) {
                    Ok(Some((true, n@)))
                } else {
                    Err((1, n@))
                },
                None => match metadata.path {
                    Some(p) => Ok(Some((false, p@))),
                    None => Ok(None),
                },
            }
        };
        match chosen {
            Err(e) => Err(e),
            Ok(c) => match metadata.overrides {
                Some(o) => match o.extends {
                    Some(e) => Err((2, e@)),
                    None => Ok(c),
                },
                None => Ok(c),
            },
        }
    }
}

/// What a theme error holds.
pub open spec fn theme_error_view(e: FrontMatterError) -> (int, Seq<char>) {
    match e {
        FrontMatterError::ThemeNameAndPath => (0, Seq::empty()),
        FrontMatterError::ThemeNotFound(n) => (1, n@),
        FrontMatterError::OverridesExtend(e) => (2, e@),
        FrontMatterError::AuthorAndAuthors => (3, Seq::empty()),
    }
}

/// A copy of a text.
fn copy_string(s: &String) -> (c: String)
    ensures
        c@ == s@,
{
    let chars = str_chars(s.as_str());
    string_from_chars(chars.as_slice())
}

/// The theme a presentation asks for, as `theme_choice` says; loading a theme from a path and
/// merging the overrides into the theme are left to the caller.
pub fn select_theme<T>(
    themes: &PresentationThemeSet<T>,
    metadata: &PresentationThemeMetadata,
    force_default: bool,
) -> (r: Result<ThemeSelection, FrontMatterError>)
    requires
        themes.wf(),
    ensures
        match r {
            Ok(s) => theme_choice(*themes, *metadata, force_default) == Ok::<
                Option<(bool, Seq<char>)>,
                (int, Seq<char>),
            >(selection_view(s)),
            Err(e) => theme_choice(*themes, *metadata, force_default) == Err::<
                Option<(bool, Seq<char>)>,
                (int, Seq<char>),
            >(theme_error_view(e)),
        },
{
    if metadata.name.is_some() && metadata.path.is_some() {
        return Err(FrontMatterError::ThemeNameAndPath);
    }
    let mut selection = ThemeSelection::Current;
    if !force_default {
        match &metadata.name {
            Some(name) => {
                if themes.has_theme(name.as_str()) {
                    selection = ThemeSelection::Named(copy_string(name));
                } else {
                    return Err(FrontMatterError::ThemeNotFound(copy_string(name)));
                }
            },
            None => match &metadata.path {
                Some(path) => {
                    selection = ThemeSelection::Path(copy_string(path));
                },
                None => {},
            },
        }
    }
    match &metadata.overrides {
        Some(overrides) => match &overrides.extends {
            Some(extends) => {
                return Err(FrontMatterError::OverridesExtend(copy_string(extends)));
            },
            None => {},
        },
        None => {},
    }
    Ok(selection)
}

} // verus!
