# explorer

A terminal program to look through the files of a repository: previews with the colours of a
language server, pickers for files and themes, and terminals, tiled in panes that can be resized
and reordered.

`src/` is a library, verified with [Verus](https://github.com/verus-lang/verus). It holds everything
that the program decides and computes: the stack of panes and its layout, keys and mouse, the
pickers and their ranking, previews, selections and highlights, line editing, themes, the
configuration, sessions, the terminals' screens, the list of files and how it follows the disk, the
dialogue with the language server, and what is drawn. Every public function states in its contract
what it returns or changes; the functions whose names start with `law_` state what holds across
several of them.

`app/` is the program around it: arguments, files, processes, threads and the terminal.

`tests/` runs the library.

## How the library is laid out

- Texts: `text`, `bytes`, `number`, `word`, `paths`, `keyed`
- Drawing: `geometry`, `render`, `title_row`, `status_bar`, `scrollbar`, `screen_draw`,
  `preview_draw`, `pane_draw`, `query_row`, `panes_renderer`
- Panes: `pane_manager`, `layout`, `pane`, `pane_component`, `pane_mouse`, `pane_select`, `ids`
- What panes show: `preview`, `preview_text`, `ranges`, `file_name_picker`, `theme_picker`,
  `fuzzy_picker`, `ranking`, `input_line`, `terminal_pane`, `screen`, `file_list`
- The state and its events: `state`, `loader`, `input`, `effect`, `app_*`, `session_time`, `keymap`,
  `shell`
- Themes, configuration and sessions: `theme`, `theme_data`, `config`, `cli`, `session*`
- Workers: `lsp*`, `watcher`, `supervisor`, `rmux_*`

The functions marked `external_body` call other crates, and their contracts are believed: paths
(`camino`), grapheme clusters (`unicode-segmentation`), URLs (`url`), fuzzy matching (`nucleo`), KDL
and TOML documents (`kdl`, `toml`), digests (`sha2`, `hex`) and colours (`rmux-sdk`). What can only be
had from outside, such as the time, a file's text or what became of a message, is handed in; what is
to be done outside comes back as values.
