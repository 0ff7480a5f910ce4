# NexTerm

The verified core of a GPU-accelerated terminal with SSH and SFTP.

`src/` is a library written in [Verus](https://github.com/verus-lang/verus): what is decided and
computed on whole numbers and text, with contracts that are proved. `app/` is ordinary Rust around
it: windows, graphics, fonts, floating point, the session database and connections. `tests/` runs
the library.

## The library

| Part | Modules |
|------|---------|
| The terminal | `cell`, `lines`, `clock`, `blocks`, `grid`, `reflow`, `resize`, `edit`, `sgr`, `term`, `osc`, `width`, `vt` |
| Reading the screen | `readout`, `search` |
| Drawing | `theme`, `places`, `folds`, `scene`, `frame`, `redraw`, `upload`, `atlas`, `canvas`, `builtin_font`, `pixels` |
| The window | `gui`, `state`, `settings`, `find_bar`, `ssh_dialog`, `session_panel`, `history_panel`, `agent_panel`, `status_bar`, `sftp_panel`, `system_panel` |
| Remote sides | `ssh`, `ssh_config`, `session`, `sftp`, `sync`, `ui_block` |
| Text and numbers | `text`, `number`, `readable`, `ids` |
| What holds throughout | `laws`, `pieces`, and the functions named `law_...` in every module |

Each control function of the terminal has a specification from state to state (`term`, `osc`,
`vt`); the executable code is proved to compute it. `laws` shows that whatever bytes a host sends,
the cursor, the margins and the rows stay sound, and that the primary screen and the saved cursor
come back whatever came in between. `pieces` shows that it does not matter how input is cut,
`resize` that a screen in another size shows what it showed, and `redraw` that drawing a frame
again in part gives exactly what drawing it anew gives.

What is taken on trust is small and marked: the escape-sequence parser `vte`, `regex`,
`unicode-width`, `uuid`, `serde_json` for lists of texts, and a few functions of the standard
library, each behind one item whose comment says what is assumed of it.

## The application

Floating point (colours for the shader, glyph metrics, the scrollbar's thumb) and everything that
talks to the outside stays in `app/`. It gives the library plain values and does what the library
answers. The program that embeds it supplies the bundled fonts and the `Pictures` trait: a file
dialog and an image decoder for the background picture.
