# pane_rows

Layout of the pane cards of a terminal sidebar that watches coding agents
running in tmux panes. Given what is known about a pane (status, agent,
permission mode, git branch, listening ports, task list, sub-agents, wait
reason, last prompt), the library computes the exact rows of styled text
that make up its card, each framed by the sidebar's border.

- `src/` — the library, written and proved with Verus:
  - `width.rs` — terminal cell widths (measured with ratatui), display width,
    truncation with an ellipsis, padding;
  - `text.rs` — string building, decimal and duration formatting;
  - `wrap.rs` — wrapping by characters and by words onto a bounded number
    of lines;
  - `style.rs` — colors, styles, spans and lines;
  - `pane.rs`, `theme.rs` — the pane model, the color theme and status icons;
  - `row.rs` — the rows of a card and the whole card;
  - `card.rs` — properties of every card: framing and background, row order,
    row widths, the spinner pulse, and that selection, activity, border
    color, theme and spinner frame change only styles, never texts.

Row widths are proved from the cell widths that ratatui reports: the
border `│`, the tree connectors `└` and `├`, the ellipsis `…`, the arrow
`▶` and the space each take one cell (their East Asian Width is narrow or
ambiguous, which ratatui counts as one). Every function that lays out a row
measures those glyphs through ratatui before it relies on that fact.
- `app/` — conversion of the rows to ratatui lines for drawing.
- `tests/` — tests of the rows and of the text helpers.
