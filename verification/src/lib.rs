//! Nexterm: the verified core of a terminal workbench.

pub mod agent_panel;
pub mod atlas;
pub mod blocks;
pub mod builtin_font;
pub mod canvas;
pub mod cell;
pub mod clock;
pub mod edit;
pub mod edits;
pub mod effects;
pub mod find_bar;
pub mod folds;
pub mod frame;
pub mod grid;
pub mod gui;
pub mod history_panel;
pub mod ids;
pub mod laws;
pub mod lines;
pub mod number;
pub mod osc;
pub mod picture;
pub mod pieces;
pub mod pixels;
pub mod places;
pub mod readable;
pub mod readout;
pub mod redraw;
pub mod reflow;
pub mod resize;
pub mod scene;
pub mod search;
pub mod session;
pub mod session_panel;
pub mod ssh_dialog;
pub mod settings;
pub mod sftp;
pub mod sftp_panel;
pub mod sgr;
pub mod ssh;
pub mod ssh_config;
pub mod state;
pub mod status_bar;
pub mod switches;
pub mod sync;
pub mod system_panel;
pub mod term;
pub mod text;
pub mod theme;
pub mod ui_block;
pub mod upload;
pub mod vt;
pub mod width;
pub mod writing;
