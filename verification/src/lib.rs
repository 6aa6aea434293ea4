//! The logic of a terminal source explorer: panes and their layout, previews, embedded
//! terminals, pickers, sessions, and the rules by which keys and mouse events change them.

pub mod app_events;
pub mod app_files;
pub mod app_frame;
pub mod app_keys;
pub mod app_signal;
pub mod app_start;
pub mod app_terminal;
pub mod browsing_laws;
pub mod bytes;
pub mod canvas;
pub mod cli;
pub mod command_laws;
pub mod config;
pub mod copying_laws;
pub mod drawing_laws;
pub mod editing_laws;
pub mod effect;
pub mod file_list;
pub mod file_name_picker;
pub mod frame_laws;
pub mod fuzzy_picker;
pub mod geometry;
pub mod ids;
pub mod input;
pub mod input_line;
pub mod keyed;
pub mod keymap;
pub mod layout;
pub mod live_laws;
pub mod loader;
pub mod lsp;
pub mod lsp_frame;
pub mod lsp_start;
pub mod lsp_tokens;
pub mod lsp_turn;
pub mod lsp_worker;
pub mod mirror_laws;
pub mod number;
pub mod pane;
pub mod pane_component;
pub mod pane_draw;
pub mod pane_laws;
pub mod pane_manager;
pub mod pane_mouse;
pub mod pane_select;
pub mod panes_renderer;
pub mod paths;
pub mod preview;
pub mod preview_draw;
pub mod preview_laws;
pub mod preview_text;
pub mod query_laws;
pub mod query_row;
pub mod ranges;
pub mod ranking;
pub mod render;
pub mod rmux_bridge;
pub mod rmux_state;
pub mod rmux_theme;
pub mod screen;
pub mod screen_draw;
pub mod scrollbar;
pub mod serving_laws;
pub mod session;
pub mod session_apply;
pub mod session_file;
pub mod session_laws;
pub mod session_time;
pub mod shell;
pub mod state;
pub mod status_bar;
pub mod styling_laws;
pub mod supervisor;
pub mod terminal_laws;
pub mod terminal_pane;
pub mod text;
pub mod theme;
pub mod theme_data;
pub mod theme_picker;
pub mod title_row;
pub mod watcher;
pub mod window_laws;
pub mod word;
