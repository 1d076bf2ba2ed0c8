//! Building a presentation out of its parsed markdown elements.
use crate::builder::{
    command_effect, font_size_of, ignored_comment, lemma_no_steps, lemma_single_step,
    lemma_steps_join, line_breaks, presentation_mode_result, slide_view, speaker_notes_mode_result,
    steps_done, terminated, trimmed, BuildError, BuildStep, BuilderSettings, BuilderView,
    CommentCommand, CommentOutcome, ElementStyle, InvalidPresentation, LastElement,
    PresentationBuilder, SlidePrelude, SlideState,
};
use crate::diff::line_contents;
use crate::front_matter::{
    all_authors, opt_view, front_matter_accepted, front_matter_refusal, has_frontmatter_spec, intro_fits,
    intro_steps, select_theme, settings_with_options, with_prelude, AuthorPositioning,
    FrontMatterError, IntroSlideTheme, PresentationMetadata,
};
use crate::list::{list_block_length, list_start_index, list_start_view, list_steps, list_width, ListItem};
use crate::operation::RenderOperation;
use crate::presentation::{Presentation, Slide};
use crate::quote::{alert_lines, alert_style, lines_pieces, quote_operations, AlertTheme, AlertType, QuoteStyle};
use crate::style::Colors;
use crate::table::{table_steps, Table};
use crate::theme_set::PresentationThemeSet;
use crate::text::WeightedLine;
use vstd::prelude::*;

verus! {

/// A markdown element, as a parser gives it.
pub enum MarkdownElement {
    /// The front matter, already read into its fields.
    FrontMatter(PresentationMetadata),
    /// A paragraph's lines.
    Paragraph(Vec<WeightedLine>),
    /// A list's items.
    List(Vec<ListItem>),
    Table(Table),
    /// A block quote's lines.
    BlockQuote(Vec<WeightedLine>),
    Alert { kind: AlertType, title: Option<String>, lines: Vec<WeightedLine> },
    /// A comment, with the command written in it when there's one.
    Comment { text: String, command: Option<CommentCommand> },
}

/// How the theme draws each kind of element.
pub struct BuildTheme {
    pub intro: IntroSlideTheme,
    pub paragraph: ElementStyle,
    pub table: ElementStyle,
    pub quote: QuoteStyle,
    pub alert: AlertTheme,
    pub code_colors: Colors,
    pub default_colors: Colors,
}

/// A presentation could not be built.
#[derive(Debug)]
pub enum PresentationBuildError {
    /// The front matter can't be used.
    FrontMatter(FrontMatterError),
    /// A comment or a layout is invalid.
    Build(BuildError),
    /// An element takes more rows, columns or items than can be counted.
    TooLarge,
}

/// The items of a vector in the other order.
fn reversed<T>(items: Vec<T>) -> (r: Vec<T>)
    ensures
        r@ == items@.reverse(),
{
    let mut items = items;
    let mut out: Vec<T> = Vec::new();
    let ghost original = items@;
    while items.len() > 0
        invariant
            original == items@ + out@.reverse(),
        decreases items@.len(),
    {
        let ghost before = items@;
        let item = items.pop().unwrap();
        out.push(item);
        proof {
            assert(before == items@.push(item));
            assert(out@.reverse() =~= seq![item] + out@.drop_last().reverse());
            assert(original =~= items@ + out@.reverse());
        }
    }
    proof {
        assert(out@.reverse().reverse() =~= out@);
        assert(original.reverse() =~= out@);
    }
    out
}

/// The footer of a slide that has one: out of any layout, and back to the whole screen.
pub open spec fn footer_operations() -> Seq<RenderOperation> {
    seq![RenderOperation::ExitLayout, RenderOperation::PopMargin]
}

/// The steps of a paragraph: each line, then as many line breaks as the font size is.
pub open spec fn paragraph_steps(lines: Seq<WeightedLine>, style: ElementStyle, font_size: u8) -> Seq<
    BuildStep,
>
    decreases lines.len(),
{
    if lines.len() == 0 {
        Seq::empty()
    } else {
        paragraph_steps(lines.drop_last(), style, font_size) + seq![
            BuildStep::TextLine { pieces: line_contents(lines.last()), style },
            BuildStep::LineBreaks((font_size - 1) as nat),
        ]
    }
}

/// Whether a slide was built with the footer: without it when marked so.
pub open spec fn footer_as_marked(slide: Slide, index: int, without_footer: Seq<usize>) -> bool {
    if without_footer.contains(index as usize) {
        slide.footer@.len() == 0
    } else {
        slide.footer@ == footer_operations()
    }
}

/// A built presentation: at least one slide, the first one shown, each slide showing its first
/// chunk, and each with the footer unless it was marked to go without.
pub open spec fn well_built(p: Presentation) -> bool {
    &&& p.slides@.len() >= 1
    &&& p.state.current_slide_index == 0
    &&& forall|i: int| 0 <= i < p.slides@.len() ==> (#[trigger] p.slides@[i]).visible_chunks == 1
    &&& exists|without: Seq<usize>| #[trigger] footers_as_marked(p.slides@, without)
}

/// Whether the elements start with a front matter that gives both an author and authors.
pub open spec fn front_matter_conflict(elements: Seq<MarkdownElement>) -> bool {
    elements.len() > 0 && (elements[0] matches MarkdownElement::FrontMatter(m) && m.author is Some
        && m.authors@.len() > 0)
}

/// Whether every slide was built with the footer, without it when marked so.
pub open spec fn footers_as_marked(slides: Seq<Slide>, without_footer: Seq<usize>) -> bool {
    forall|i: int| 0 <= i < slides.len() ==> #[trigger] footer_as_marked(slides[i], i, without_footer)
}


/// The builder at the start of an element: one that asks for no line break after it yet.
pub open spec fn element_start(b: BuilderView) -> BuilderView {
    BuilderView { state: SlideState { ignore_element_line_break: false, ..b.state }, ..b }
}

/// The builder once the last element drawn is no list.
pub open spec fn after_other(b: BuilderView) -> BuilderView {
    BuilderView { state: SlideState { last_element: LastElement::Other, ..b.state }, ..b }
}

/// The builder after an element skipped because only speaker notes are rendered.
pub open spec fn skipped(b: BuilderView) -> BuilderView {
    BuilderView {
        state: SlideState {
            last_element: LastElement::Other,
            ignore_element_line_break: true,
            ..b.state
        },
        ..b
    }
}

/// Whether a table can be drawn, as `Table::is_drawable` says.
pub open spec fn table_drawable(t: Table) -> bool {
    t.wf() && forall|k: int| 0 <= k < t.widths().len() ==> #[trigger] t.widths()[k] <= usize::MAX - 2
}

/// The error processing an element from the builder `b` gives, if any: a line break count
/// that can't be counted at the largest font size; a comment that is neither a command nor
/// one to ignore; a command that can't be run where it is; a list whose numbers or block can't
/// be counted; a table that can't be drawn.
pub open spec fn element_error(
    b: BuilderView,
    prelude: SlidePrelude,
    settings: BuilderSettings,
    e: MarkdownElement,
) -> Option<PresentationBuildError> {
    let font = font_size_of(b.state, settings.font_size_supported);
    match e {
        MarkdownElement::Comment { text, command } => {
            if command matches Some(CommentCommand::NewLines(n)) && n * 7 > usize::MAX {
                Some(PresentationBuildError::TooLarge)
            } else {
                match command {
                    None => if ignored_comment(trimmed(text@), settings.command_prefix@) {
                        None
                    } else {
                        Some(
                            PresentationBuildError::Build(
                                BuildError::InvalidPresentation(InvalidPresentation::CommandParse),
                            ),
                        )
                    },
                    Some(c) => if settings.render_speaker_notes_only || c is Include
                        || c is SnippetOutput || (c is Pause && settings.pause_create_new_slide) {
                        None
                    } else {
                        match command_effect(b, c, prelude, settings.pause_create_new_slide, font) {
                            Ok(_) => None,
                            Err(x) => Some(PresentationBuildError::Build(BuildError::InvalidPresentation(x))),
                        }
                    },
                }
            }
        },
        MarkdownElement::List(items) => if settings.render_speaker_notes_only {
            None
        } else if list_start_index(b) + items@.len() > usize::MAX || list_block_length(items@, font)
            > u16::MAX {
            Some(PresentationBuildError::TooLarge)
        } else {
            None
        },
        MarkdownElement::Table(t) => if settings.render_speaker_notes_only || table_drawable(t) {
            None
        } else {
            Some(PresentationBuildError::TooLarge)
        },
        _ => None,
    }
}

/// What processing an element that gives no error does to the builder `b`: a comment runs its
/// command (an include, or a snippet's output placed elsewhere, leaves the builder as it
/// was); in speaker notes mode anything else is skipped; otherwise each kind is drawn as the
/// theme draws it; after anything but a list or a comment, the last element is no list.
pub open spec fn element_processed(
    b: BuilderView,
    prelude: SlidePrelude,
    settings: BuilderSettings,
    theme: BuildTheme,
    e: MarkdownElement,
    after: BuilderView,
) -> bool {
    let font = font_size_of(b.state, settings.font_size_supported);
    match e {
        MarkdownElement::Comment { text, command } => match command {
            None => after == b,
            Some(c) => if settings.render_speaker_notes_only {
                speaker_notes_mode_result(b, prelude, b.state.alignment, font, c, after)
            } else {
                exists|r: Result<CommentOutcome, InvalidPresentation>|
                    #[trigger] presentation_mode_result(
                        b,
                        prelude,
                        settings.pause_create_new_slide,
                        font,
                        c,
                        r,
                        after,
                    ) && r is Ok
            },
        },
        _ => if settings.render_speaker_notes_only {
            after == skipped(b)
        } else {
            match e {
                MarkdownElement::Paragraph(lines) => exists|mid: BuilderView|
                    #[trigger] steps_done(
                        b,
                        prelude,
                        settings,
                        paragraph_steps(lines@, theme.paragraph, font),
                        mid,
                    ) && after == after_other(mid),
                MarkdownElement::List(items) => steps_done(
                    list_start_view(b),
                    prelude,
                    settings,
                    list_steps(
                        items@,
                        list_start_index(b) as usize,
                        list_block_length(items@, font) as u16,
                        theme.code_colors,
                        settings,
                        b.state.incremental_lists,
                    ),
                    after,
                ),
                MarkdownElement::Table(t) => exists|mid: BuilderView|
                    #[trigger] steps_done(b, prelude, settings, table_steps(t, theme.table, settings), mid)
                        && after == after_other(mid),
                MarkdownElement::BlockQuote(lines) => exists|mid: BuilderView|
                    mid == (BuilderView { operations: mid.operations, ..b }) && #[trigger] quote_operations(
                        b.operations,
                        mid.operations,
                        lines_pieces(lines@),
                        theme.quote,
                        theme.code_colors,
                        theme.default_colors,
                        font,
                    ) && after == after_other(mid),
                MarkdownElement::Alert { kind, title, lines } => exists|mid: BuilderView|
                    mid == (BuilderView { operations: mid.operations, ..b }) && #[trigger] quote_operations(
                        b.operations,
                        mid.operations,
                        alert_lines(
                            alert_style(theme.alert, kind),
                            opt_view(title),
                            lines_pieces(lines@),
                        ),
                        QuoteStyle {
                            prefix: theme.alert.prefix,
                            prefix_style: alert_style(theme.alert, kind).style,
                            base_colors: theme.alert.base_colors,
                            alignment: theme.alert.alignment,
                        },
                        theme.code_colors,
                        theme.default_colors,
                        font,
                    ) && after == after_other(mid),
                MarkdownElement::FrontMatter(_) => after == skipped(b),
                MarkdownElement::Comment { .. } => false,
            }
        },
    }
}

/// Whether, in a column layout, what was drawn last is inside a column: the layout itself, a
/// column entry or the layout's end.
pub open spec fn in_column(b: BuilderView) -> bool {
    let ops = b.operations;
    !b.state.needs_enter_column || ops.len() == 0 || ops.last() is InitColumnLayout
        || ops.last() is EnterColumn || ops.last() is ExitLayout
}

/// The builder once what was drawn last was checked against the column layout.
pub open spec fn validated(b: BuilderView) -> BuilderView {
    let ops = b.operations;
    if !b.state.needs_enter_column || ops.len() == 0 || ops.last() is InitColumnLayout {
        b
    } else {
        BuilderView { state: SlideState { needs_enter_column: false, ..b.state }, ..b }
    }
}

/// The builder with the line break that follows an element, unless it asked for none.
pub open spec fn line_break_after(b: BuilderView) -> BuilderView {
    if b.state.ignore_element_line_break {
        b
    } else {
        BuilderView { operations: b.operations + line_breaks(1), ..b }
    }
}

/// One element, as the presentation is built: processed without error from the builder ready
/// for it, inside a column when in a column layout, then followed by a line break unless it
/// asks for none.
pub open spec fn element_done(
    b: BuilderView,
    prelude: SlidePrelude,
    settings: BuilderSettings,
    theme: BuildTheme,
    e: MarkdownElement,
    after: BuilderView,
) -> bool {
    &&& element_error(element_start(b), prelude, settings, e) is None
    &&& exists|b1: BuilderView|
        #[trigger] element_processed(element_start(b), prelude, settings, theme, e, b1) && in_column(b1)
            && after == line_break_after(validated(b1))
}

/// Whether an element, from the builder `b`, fails with `err`: the error processing it gives,
/// or, once processed, something drawn outside a column.
pub open spec fn element_fails(
    b: BuilderView,
    prelude: SlidePrelude,
    settings: BuilderSettings,
    theme: BuildTheme,
    e: MarkdownElement,
    err: PresentationBuildError,
) -> bool {
    match element_error(element_start(b), prelude, settings, e) {
        Some(x) => err == x,
        None => err == PresentationBuildError::Build(BuildError::NotInsideColumn) && exists|b1: BuilderView|
            #[trigger] element_processed(element_start(b), prelude, settings, theme, e, b1) && !in_column(b1),
    }
}

/// Builder views, one before each element and one after the last, each element done from the
/// view before it to the view after it.
pub open spec fn is_element_trace(
    prelude: SlidePrelude,
    settings: BuilderSettings,
    theme: BuildTheme,
    es: Seq<MarkdownElement>,
    views: Seq<BuilderView>,
) -> bool {
    &&& views.len() == es.len() + 1
    &&& forall|i: int|
        #![trigger es[i], views[i]]
        0 <= i < es.len() ==> element_done(views[i], prelude, settings, theme, es[i], views[i + 1])
}

/// The elements, done one after the other, lead from `b` to `after`.
pub open spec fn elements_done(
    b: BuilderView,
    prelude: SlidePrelude,
    settings: BuilderSettings,
    theme: BuildTheme,
    es: Seq<MarkdownElement>,
    after: BuilderView,
) -> bool {
    exists|views: Seq<BuilderView>|
        #[trigger] is_element_trace(prelude, settings, theme, es, views) && views[0] == b && views.last()
            == after
}

/// The front matter, when the elements start with one.
pub open spec fn front_matter_of(es: Seq<MarkdownElement>) -> Option<PresentationMetadata> {
    if es.len() > 0 && es[0] is FrontMatter {
        Some(es[0]->FrontMatter_0)
    } else {
        None
    }
}

/// The elements after the front matter.
pub open spec fn body_of(es: Seq<MarkdownElement>) -> Seq<MarkdownElement> {
    if front_matter_of(es) is Some {
        es.skip(1)
    } else {
        es
    }
}

/// The settings the elements after the front matter are built with.
pub open spec fn body_settings(settings: BuilderSettings, es: Seq<MarkdownElement>) -> BuilderSettings {
    match front_matter_of(es) {
        Some(m) => settings_with_options(settings, m.options),
        None => settings,
    }
}

/// The builder ready for the first element: with the operations that start a slide when it
/// has no operation yet.
pub open spec fn body_start(b: BuilderView, prelude: SlidePrelude) -> BuilderView {
    if b.operations.len() == 0 {
        with_prelude(b, prelude)
    } else {
        b
    }
}

/// The front matter goes through, from the builder `b` to the builder `after` ready for the
/// first element: it is accepted, its authors' row can be counted, and the introduction slide
/// is drawn when it says anything of the presentation.
pub open spec fn front_matter_done<T>(
    b: BuilderView,
    prelude: SlidePrelude,
    settings: BuilderSettings,
    theme: BuildTheme,
    themes: PresentationThemeSet<T>,
    force_default: bool,
    es: Seq<MarkdownElement>,
    after: BuilderView,
) -> bool {
    match front_matter_of(es) {
        None => after == body_start(b, prelude),
        Some(m) => {
            &&& front_matter_accepted(m, themes, force_default)
            &&& intro_fits(m, theme.intro)
            &&& exists|b1: BuilderView|
                #[trigger] intro_done(b, prelude, body_settings(settings, es), theme.intro, m, b1)
                    && after == body_start(b1, prelude)
        },
    }
}

/// The introduction slide of a front matter, when it says anything of the presentation.
pub open spec fn intro_done(
    b: BuilderView,
    prelude: SlidePrelude,
    settings: BuilderSettings,
    theme: IntroSlideTheme,
    m: PresentationMetadata,
    after: BuilderView,
) -> bool {
    if has_frontmatter_spec(m) {
        steps_done(with_prelude(b, prelude), prelude, settings, intro_steps(m, theme), after)
    } else {
        after == b
    }
}

/// Whether the front matter fails with `err`: refused, or its authors' row can't be counted.
pub open spec fn front_matter_fails<T>(
    themes: PresentationThemeSet<T>,
    force_default: bool,
    theme: BuildTheme,
    es: Seq<MarkdownElement>,
    err: PresentationBuildError,
) -> bool {
    match front_matter_of(es) {
        None => false,
        Some(m) => if !front_matter_accepted(m, themes, force_default) {
            err matches PresentationBuildError::FrontMatter(fe) && front_matter_refusal(
                m,
                themes,
                force_default,
                fe,
            )
        } else {
            !intro_fits(m, theme.intro) && err == PresentationBuildError::TooLarge
        },
    }
}

/// The builder once the last slide ended: it ends when it has anything, and an empty slide is
/// added when there is none.
pub open spec fn finished(b: BuilderView, prelude: SlidePrelude) -> BuilderView {
    let b1 = if b.operations.len() > 0 || b.chunks.len() > 0 {
        terminated(b, prelude)
    } else {
        b
    };
    let b2 = if b1.slides.len() == 0 {
        terminated(b1, prelude)
    } else {
        b1
    };
    if b2.slides.len() == 0 {
        terminated(b2, prelude)
    } else {
        b2
    }
}

/// A presentation made of the slides of a finished builder: the same chunks in each slide,
/// the first slide current, each slide showing its first chunk, and the footer on each slide
/// unless it was marked to go without.
pub open spec fn presentation_of(p: Presentation, b: BuilderView) -> bool {
    &&& p.slides@.map_values(|s: Slide| slide_view(s)) == b.slides
    &&& p.state.current_slide_index == 0
    &&& forall|i: int| 0 <= i < p.slides@.len() ==> (#[trigger] p.slides@[i]).visible_chunks == 1
    &&& footers_as_marked(p.slides@, b.without_footer)
}

/// What building a presentation gives, from the builder `b`: the front matter's error; or,
/// once the front matter went through, the first element's error after the elements before it
/// were done; or the presentation of every element done, its last slide ended.
pub open spec fn build_result<T>(
    b: BuilderView,
    prelude: SlidePrelude,
    settings: BuilderSettings,
    theme: BuildTheme,
    themes: PresentationThemeSet<T>,
    force_default: bool,
    es: Seq<MarkdownElement>,
    r: Result<Presentation, PresentationBuildError>,
) -> bool {
    let body = body_of(es);
    let s = body_settings(settings, es);
    match r {
        Ok(p) => exists|start: BuilderView, end: BuilderView|
            #[trigger] front_matter_done(b, prelude, settings, theme, themes, force_default, es, start)
                && #[trigger] elements_done(start, prelude, s, theme, body, end) && presentation_of(
                p,
                finished(end, prelude),
            ),
        Err(err) => front_matter_fails(themes, force_default, theme, es, err) || exists|
            start: BuilderView,
            k: int,
            at: BuilderView,
        |
            0 <= k < body.len() && #[trigger] front_matter_done(
                b,
                prelude,
                settings,
                theme,
                themes,
                force_default,
                es,
                start,
            ) && #[trigger] elements_done(start, prelude, s, theme, body.take(k), at) && element_fails(
                at,
                prelude,
                s,
                theme,
                body[k],
                err,
            ),
    }
}

impl PresentationBuilder {
    /// A paragraph: each line drawn as the theme draws paragraphs, then as many line breaks as
    /// the font size is.
    pub fn push_paragraph(&mut self, lines: &Vec<WeightedLine>, style: ElementStyle)
        ensures
            steps_done(
                old(self).view(),
                old(self).prelude,
                old(self).settings,
                paragraph_steps(lines@, style, old(self).font_size()),
                final(self).view(),
            ),
            final(self).settings == old(self).settings,
            final(self).prelude == old(self).prelude,
            final(self).slide_state == old(self).slide_state,
    {
        let ghost start = self.view();
        let font = self.slide_font_size();
        proof {
            lemma_no_steps(start, self.prelude, self.settings);
            assert(lines@.take(0) =~= Seq::<WeightedLine>::empty());
        }
        let mut i: usize = 0;
        while i < lines.len()
            invariant
                i <= lines@.len(),
                font == font_size_of(old(self).slide_state, old(self).settings.font_size_supported),
                self.slide_state == old(self).slide_state,
                self.settings == old(self).settings,
                self.prelude == old(self).prelude,
                steps_done(
                    start,
                    self.prelude,
                    self.settings,
                    paragraph_steps(lines@.take(i as int), style, font),
                    self.view(),
                ),
            decreases lines@.len() - i,
        {
            let ghost mid = self.view();
            self.push_text_line(&lines[i], style);
            let ghost mid2 = self.view();
            self.push_line_breaks_step((font - 1) as usize);
            proof {
                let s1 = BuildStep::TextLine { pieces: line_contents(lines@[i as int]), style };
                let s2 = BuildStep::LineBreaks((font - 1) as nat);
                lemma_single_step(mid, self.prelude, self.settings, s1, mid2);
                lemma_single_step(mid2, self.prelude, self.settings, s2, self.view());
                lemma_steps_join(mid, self.prelude, self.settings, seq![s1], seq![s2], mid2, self.view());
                let before = paragraph_steps(lines@.take(i as int), style, font);
                lemma_steps_join(start, self.prelude, self.settings, before, seq![s1] + seq![s2], mid, self.view());
                assert(lines@.take(i + 1).drop_last() =~= lines@.take(i as int));
                assert(before + (seq![s1] + seq![s2]) =~= paragraph_steps(lines@.take(i + 1), style, font));
            }
            i += 1;
        }
        assert(lines@.take(i as int) =~= lines@);
    }

    /// One element, as the presentation is built: the error `element_error` says, or what
    /// `element_processed` says.
    fn process_element(&mut self, element: MarkdownElement, theme: &BuildTheme) -> (r: Result<(), PresentationBuildError>)
        ensures
            final(self).settings == old(self).settings,
            final(self).prelude == old(self).prelude,
            (r is Ok) == (element_error(old(self).view(), old(self).prelude, old(self).settings, element) is None),
            r matches Err(x) ==> element_error(old(self).view(), old(self).prelude, old(self).settings, element)
                == Some(x),
            r is Ok ==> element_processed(
                old(self).view(),
                old(self).prelude,
                old(self).settings,
                *theme,
                element,
                final(self).view(),
            ),
    {
        let ghost b = self.view();
        let ghost e = element;
        let ghost font = self.font_size();
        match element {
            MarkdownElement::Comment { text, command } => {
                if let Some(CommentCommand::NewLines(n)) = &command {
                    if (*n as u64) * 7 > usize::MAX as u64 {
                        return Err(PresentationBuildError::TooLarge);
                    }
                }
                proof {
                    if let Some(CommentCommand::NewLines(n)) = command {
                        assert(self.font_size() <= 7);
                        assert(n as nat * self.font_size() as nat <= n as nat * 7) by (nonlinear_arith)
                            requires
                                self.font_size() <= 7,
                        ;
                    }
                }
                let ghost parsed = command;
                let result = self.process_comment(text.as_str(), command);
                proof {
                    if let Some(c) = parsed {
                        if !self.settings.render_speaker_notes_only {
                            assert(presentation_mode_result(
                                b,
                                self.prelude,
                                self.settings.pause_create_new_slide,
                                font,
                                c,
                                result,
                                self.view(),
                            ));
                        }
                    }
                }
                match result {
                    Ok(_) => Ok(()),
                    Err(x) => Err(PresentationBuildError::Build(BuildError::InvalidPresentation(x))),
                }
            },
            _ => {
                if self.settings.render_speaker_notes_only {
                    self.slide_state.last_element = LastElement::Other;
                    self.slide_state.ignore_element_line_break = true;
                    assert(self.view() == skipped(b));
                    return Ok(());
                }
                let is_list = match &element {
                    MarkdownElement::List(_) => true,
                    _ => false,
                };
                let result = match element {
                    MarkdownElement::Paragraph(lines) => {
                        self.push_paragraph(&lines, theme.paragraph);
                        Ok(())
                    },
                    MarkdownElement::List(items) => {
                        let start = match self.slide_state.last_element {
                            LastElement::List { last_index } => if self.chunk_operations.len() == 0 {
                                last_index as u128 + 1
                            } else {
                                0
                            },
                            _ => 0,
                        };
                        assert(start == list_start_index(b));
                        if start + items.len() as u128 > usize::MAX as u128 {
                            Err(PresentationBuildError::TooLarge)
                        } else if self.push_list_checked(items, theme.code_colors) {
                            Ok(())
                        } else {
                            Err(PresentationBuildError::TooLarge)
                        }
                    },
                    MarkdownElement::Table(table) => {
                        if table.is_drawable() {
                            self.push_table(&table, theme.table);
                            Ok(())
                        } else {
                            Err(PresentationBuildError::TooLarge)
                        }
                    },
                    MarkdownElement::BlockQuote(lines) => {
                        self.push_block_quote(&lines, &theme.quote, theme.code_colors, theme.default_colors);
                        Ok(())
                    },
                    MarkdownElement::Alert { kind, title, lines } => {
                        self.push_alert(kind, title, &lines, &theme.alert, theme.code_colors, theme.default_colors);
                        Ok(())
                    },
                    MarkdownElement::FrontMatter(_) => {
                        self.slide_state.ignore_element_line_break = true;
                        Ok(())
                    },
                    MarkdownElement::Comment { .. } => Ok(()),
                };
                let ghost mid = self.view();
                if !is_list {
                    self.slide_state.last_element = LastElement::Other;
                }
                proof {
                    if !is_list {
                        assert(self.view() == after_other(mid));
                    }
                    if e is FrontMatter {
                        assert(self.view() == skipped(b));
                    }
                }
                result
            },
        }
    }

    /// Builds the presentation, as `build_result` says: the front matter first, when the
    /// elements start with it; then every element, each checked for a column it should have
    /// entered and followed by a line break unless it asks for none; the last slide ends; there
    /// is always one slide; and each slide gets the footer unless it was marked to go without.
    /// Includes and snippet outputs placed elsewhere are resolved before the elements get here.
    pub fn build_from_parsed<T>(
        self,
        elements: Vec<MarkdownElement>,
        theme: &BuildTheme,
        themes: &PresentationThemeSet<T>,
        force_default_theme: bool,
    ) -> (r: Result<Presentation, PresentationBuildError>)
        requires
            themes.wf(),
        ensures
            build_result(
                self.view(),
                self.prelude,
                self.settings,
                *theme,
                *themes,
                force_default_theme,
                elements@,
                r,
            ),
            r matches Ok(p) ==> well_built(p),
    {
        let mut builder = self;
        builder.build_elements(elements, theme, themes, force_default_theme)
    }

    /// Builds the presentation, as `build_from_parsed` says.
    fn build_elements<T>(
        &mut self,
        elements: Vec<MarkdownElement>,
        theme: &BuildTheme,
        themes: &PresentationThemeSet<T>,
        force_default: bool,
    ) -> (r: Result<Presentation, PresentationBuildError>)
        requires
            themes.wf(),
        ensures
            build_result(
                old(self).view(),
                old(self).prelude,
                old(self).settings,
                *theme,
                *themes,
                force_default,
                elements@,
                r,
            ),
            r matches Ok(p) ==> well_built(p),
    {
        let ghost b0 = self.view();
        let ghost s0 = self.settings;
        let ghost prelude = self.prelude;
        let ghost original = elements@;
        let ghost body = body_of(original);
        let ghost s1 = body_settings(s0, original);
        let mut remaining = reversed(elements);
        assert(original.len() > 0 ==> remaining@.last() == original[0]);
        let starts_with_front_matter = match remaining.last() {
            Some(MarkdownElement::FrontMatter(_)) => true,
            _ => false,
        };
        if starts_with_front_matter {
            match remaining.pop() {
                Some(MarkdownElement::FrontMatter(metadata)) => {
                    assert(front_matter_of(original) == Some(metadata));
                    if metadata.author.is_some() && metadata.authors.len() > 0 {
                        let r = Err(PresentationBuildError::FrontMatter(FrontMatterError::AuthorAndAuthors));
                        assert(front_matter_fails(*themes, force_default, *theme, original, r->Err_0));
                        return r;
                    }
                    match select_theme(themes, &metadata.theme, force_default) {
                        Ok(_) => {},
                        Err(e) => {
                            let r = Err(PresentationBuildError::FrontMatter(e));
                            assert(front_matter_fails(*themes, force_default, *theme, original, r->Err_0));
                            return r;
                        },
                    }
                    assert(front_matter_accepted(metadata, *themes, force_default));
                    let at_bottom = match theme.intro.author_positioning {
                        AuthorPositioning::BelowTitle => false,
                        AuthorPositioning::PageBottom => true,
                    };
                    assert(all_authors(metadata).len() == (if metadata.author is Some { 1int } else { 0 })
                        + metadata.authors@.len());
                    if at_bottom && metadata.author.is_none() && metadata.authors.len() > 0 && (
                    #[verifier::truncate] (metadata.authors.len() as u16)) == 0 {
                        let r = Err(PresentationBuildError::TooLarge);
                        assert(front_matter_fails(*themes, force_default, *theme, original, r->Err_0));
                        return r;
                    }
                    assert(intro_fits(metadata, theme.intro));
                    let ghost before_intro = self.view();
                    match self.process_front_matter(&metadata, &theme.intro, themes, force_default) {
                        Ok(_) => {},
                        Err(e) => {
                            return Err(PresentationBuildError::FrontMatter(e));
                        },
                    }
                    assert(intro_done(b0, prelude, s1, theme.intro, metadata, self.view()));
                },
                _ => {},
            }
        }
        let ghost b1 = self.view();
        assert(self.settings == s1);
        assert(front_matter_of(original) is Some ==> intro_done(
            b0,
            prelude,
            s1,
            theme.intro,
            front_matter_of(original)->0,
            b1,
        ));
        assert(front_matter_of(original) is None ==> b1 == b0);
        if self.chunk_operations.len() == 0 {
            self.push_slide_prelude();
        }
        let ghost start = self.view();
        assert(start == body_start(b1, prelude));
        assert(front_matter_done(b0, prelude, s0, *theme, *themes, force_default, original, start));
        proof {
            assert(remaining@.len() == body.len());
            assert forall|j: int| 0 <= j < remaining@.len() implies remaining@[j] == body[body.len() - 1
                - j] by {
                if front_matter_of(original) is Some {
                    assert(remaining@[j] == original[original.len() - 1 - j]);
                } else {
                    assert(remaining@[j] == original[original.len() - 1 - j]);
                }
            }
        }
        let ghost mut views: Seq<BuilderView> = seq![start];
        let ghost mut i: int = 0;
        proof {
            assert(body.take(0) =~= Seq::<MarkdownElement>::empty());
            assert(is_element_trace(prelude, s1, *theme, body.take(0), views));
        }
        while remaining.len() > 0
            invariant
                self.prelude == prelude,
                self.settings == s1,
                0 <= i,
                i + remaining@.len() == body.len(),
                forall|j: int| 0 <= j < remaining@.len() ==> remaining@[j] == body[body.len() - 1 - j],
                is_element_trace(prelude, s1, *theme, body.take(i), views),
                views[0] == start,
                views.last() == self.view(),
                front_matter_done(b0, prelude, s0, *theme, *themes, force_default, original, start),
                body == body_of(original),
                s1 == body_settings(s0, original),
                b0 == old(self).view(),
                s0 == old(self).settings,
                prelude == old(self).prelude,
                original == elements@,
            decreases remaining@.len(),
        {
            let ghost rem = remaining@;
            let element = remaining.pop().unwrap();
            assert(element == rem[rem.len() - 1]);
            assert(element == body[i]);
            let ghost before = self.view();
            self.slide_state.ignore_element_line_break = false;
            assert(self.view() == element_start(before));
            let processed = self.process_element(element, theme);
            match processed {
                Ok(()) => {},
                Err(e) => {
                    proof {
                        assert(element_fails(before, prelude, s1, *theme, body[i], e));
                        assert(elements_done(start, prelude, s1, *theme, body.take(i), before));
                        assert(build_result(b0, prelude, s0, *theme, *themes, force_default, original, Err::<Presentation, PresentationBuildError>(e)));
                    }
                    return Err(e);
                },
            }
            let ghost b2 = self.view();
            match self.validate_last_operation() {
                Ok(()) => {},
                Err(e) => {
                    let r = PresentationBuildError::Build(e);
                    proof {
                        assert(!in_column(b2));
                        assert(element_fails(before, prelude, s1, *theme, body[i], r));
                        assert(elements_done(start, prelude, s1, *theme, body.take(i), before));
                        assert(build_result(b0, prelude, s0, *theme, *themes, force_default, original, Err::<Presentation, PresentationBuildError>(r)));
                    }
                    return Err(r);
                },
            }
            assert(in_column(b2));
            assert(self.view() == validated(b2));
            if !self.slide_state.ignore_element_line_break {
                self.push_line_breaks(1);
            }
            proof {
                assert(self.view() == line_break_after(validated(b2)));
                assert(element_done(before, prelude, s1, *theme, body[i], self.view()));
                lemma_element_trace_push(prelude, s1, *theme, body.take(i), views, body[i], self.view());
                assert(body.take(i).push(body[i]) =~= body.take(i + 1));
                views = views.push(self.view());
                i = i + 1;
            }
        }
        let ghost end = self.view();
        proof {
            assert(body.take(i) =~= body);
            assert(elements_done(start, prelude, s1, *theme, body, end));
        }
        if self.chunk_operations.len() > 0 || self.slide_chunks.len() > 0 {
            self.terminate_slide();
        }
        if self.slides.len() == 0 {
            // A slide that was to be skipped ends first; then an empty one.
            self.terminate_slide();
            if self.slides.len() == 0 {
                self.terminate_slide();
                assert(self.slides@.len() == self.view().slides.len());
            }
        }
        let ghost fin = self.view();
        assert(fin == finished(end, prelude));
        let without = &self.slides_without_footer;
        let mut slides: Vec<Slide> = Vec::new();
        std::mem::swap(&mut slides, &mut self.slides);
        let ghost orig = slides@;
        assert(fin.slides == orig.map_values(|s: Slide| slide_view(s)));
        assert(without@ == fin.without_footer);
        let count = slides.len();
        let mut slides = reversed(slides);
        let mut built: Vec<Slide> = Vec::new();
        while slides.len() > 0
            invariant
                built@.len() + slides@.len() == count,
                count == orig.len(),
                count >= 1,
                forall|j: int| 0 <= j < slides@.len() ==> slides@[j] == orig[count - 1 - j],
                forall|i: int| 0 <= i < built@.len() ==> (#[trigger] built@[i]).visible_chunks == 1,
                forall|i: int| 0 <= i < built@.len() ==> slide_view(#[trigger] built@[i]) == slide_view(orig[i]),
                forall|i: int|
                    0 <= i < built@.len() ==> #[trigger] footer_as_marked(built@[i], i, without@),
            decreases slides@.len(),
        {
            let ghost rem = slides@;
            let slide = slides.pop().unwrap();
            let index = built.len();
            assert(slide == orig[index as int]);
            let Slide { chunks, .. } = slide;
            let mut marked = false;
            let mut k: usize = 0;
            while k < without.len()
                invariant
                    k <= without@.len(),
                    marked == exists|j: int| 0 <= j < k && without@[j] == index,
                decreases without@.len() - k,
            {
                if without[k] == index {
                    marked = true;
                }
                k += 1;
            }
            let mut footer: Vec<RenderOperation> = Vec::new();
            if !marked {
                footer.push(RenderOperation::ExitLayout);
                footer.push(RenderOperation::PopMargin);
            }
            let made = Slide::new(chunks, footer);
            proof {
                if marked {
                    let j = choose|j: int| 0 <= j < k && without@[j] == index;
                    assert(without@.contains(index));
                } else {
                    assert(!without@.contains(index));
                    assert(made.footer@ =~= footer_operations());
                }
                assert(footer_as_marked(made, index as int, without@));
                assert(slide_view(made) == slide_view(orig[index as int]));
            }
            let ghost prev = built@;
            built.push(made);
            proof {
                assert forall|i: int| 0 <= i < built@.len() implies #[trigger] footer_as_marked(
                    built@[i],
                    i,
                    without@,
                ) by {
                    if i < index {
                        assert(built@[i] == prev[i]);
                    }
                }
                assert forall|i: int| 0 <= i < built@.len() implies slide_view(#[trigger] built@[i])
                    == slide_view(orig[i]) by {
                    if i < index {
                        assert(built@[i] == prev[i]);
                    }
                }
            }
        }
        assert(footers_as_marked(built@, without@));
        let presentation = Presentation::from_slides(built);
        proof {
            assert(presentation.slides@.map_values(|s: Slide| slide_view(s)) =~= fin.slides);
            assert(footers_as_marked(presentation.slides@, without@));
            assert(presentation.slides@.len() >= 1);
            assert(exists|w: Seq<usize>| #[trigger] footers_as_marked(presentation.slides@, w));
            assert(well_built(presentation));
            assert(presentation_of(presentation, fin));
            assert(front_matter_done(b0, prelude, s0, *theme, *themes, force_default, original, start));
        }
        Ok(presentation)
    }
}

/// An element done after a trace of elements extends the trace.
pub proof fn lemma_element_trace_push(
    prelude: SlidePrelude,
    settings: BuilderSettings,
    theme: BuildTheme,
    es: Seq<MarkdownElement>,
    views: Seq<BuilderView>,
    e: MarkdownElement,
    next: BuilderView,
)
    requires
        is_element_trace(prelude, settings, theme, es, views),
        element_done(views.last(), prelude, settings, theme, e, next),
    ensures
        is_element_trace(prelude, settings, theme, es.push(e), views.push(next)),
        views.push(next)[0] == views[0],
{
    let es2 = es.push(e);
    let v2 = views.push(next);
    assert forall|i: int|
        #![trigger es2[i], v2[i]]
        0 <= i < es2.len() implies element_done(v2[i], prelude, settings, theme, es2[i], v2[i + 1]) by {
        if i < es.len() {
            assert(es2[i] == es[i] && v2[i] == views[i] && v2[i + 1] == views[i + 1]);
        } else {
            assert(es2[i] == e && v2[i] == views.last() && v2[i + 1] == next);
        }
    }
}

} // verus!
