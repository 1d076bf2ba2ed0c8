# presenterm

A library for terminal slideshows written in markdown, with its behaviour stated in
`requires`/`ensures` contracts and proved with Verus.

## Layout

- `src/` is the verified library. Verus proves every function in it against its contract.
  Calls into outside crates go through a few small trusted wrappers, each with a doc comment
  that says what it assumes.
  - Building slides:
    - `builder` handles comment commands, pauses, slide ends and column layouts. It models
      the steps of a slide as a trace of builder states.
    - `list`, `table` and `quote` push list items, tables, block quotes and alerts.
    - `front_matter` builds the introduction slide and picks the theme.
    - `separator` holds separators; `snippet` decides how a code snippet goes on a slide,
      keeps snippet ids unique and filters the lines of an external snippet.
    - `building` builds a presentation from its parsed markdown elements; `build_result`
      states the presentation, or the error, that every element leads to.
  - Rendering:
    - `layout`, `engine` and `text_drawer` turn render operations into terminal commands.
    - `draw` renders error screens and checks that slides fit the screen.
    - `wrap`, `text`, `style`, `properties` and `theme` cover text and its styling.
  - Terminals:
    - `virt` is a tracking terminal and a virtual grid terminal.
    - `query` (the queries sent and the answers read), `terminal`, `hyperlinks`, `ansi` and `printer` cover the terminal and its
      capabilities.
  - Navigation and presenting:
    - `presentation` holds the slides, chunks and navigation.
    - `presenter` decides what a user command does and where a reloaded presentation is
      shown.
    - `diff` finds where a reloaded presentation first changed.
    - `modals` draws the slide index.
  - Themes and code: `theme_set` holds built-in and custom themes and the order in which
    they extend each other. `highlighting` and `code` cover snippet languages and line
    numbering.
  - Also: `error_context`, `images`, `options`, `sources`, `splash` and `resource` (themes
    and external snippets cached by path).
- `tests/` exercise the library on concrete values.
- `app/` is the unverified shell around the library. It holds the real terminal (crossterm),
  the keyboard loop, reading files, the front matter's YAML, theme files (serde_yaml,
  merge_struct) and sending the capability queries.
