//! Terminal transcripts: a virtual terminal that replays what a program has written, a
//! viewer for such logs with searching and selecting, and the split view that shows a log
//! beside the running program.
//!
//! The library holds no files, processes or displays: what has been read is handed in as
//! plain values, and what is to be written or drawn is handed out.

pub mod bindings;
pub mod cell;
pub mod clipboard;
pub mod commands;
pub mod display;
pub mod events;
pub mod functions;
pub mod keys;
pub mod launch;
pub mod pager;
pub mod render;
pub mod replay;
pub mod screen;
pub mod selection;
pub mod selection_keys;
pub mod session;
pub mod split;
pub mod split_model;
pub mod terminal;
pub mod text;
pub mod transcript;
pub mod utf8;
pub mod viewer;

pub use cell::{char_width, row_to_text, trim_row, wrap_styled_line, Cell, Style};
pub use render::{
    apply_style, cell_prefix_width, clear_segment, common_prefix_len, draw_cells, overlay_cells,
};
pub use replay::ReplayFile;
pub use selection::{
    apply_selection_highlight, first_selectable_col, last_selectable_col, move_word_point,
    next_col, normalize_col, previous_col, selection_text, Selection, SelectionMode,
    SelectionPoint, WordMotion,
};
pub use terminal::{clamp, clamp_signed, VirtualTerminal};
pub use transcript::{load_resize_events, resize_events_path, ResizeEvent, TranscriptRecorder};
pub use utf8::decode_utf8_chunk;
pub use viewer::ViewerCore;
