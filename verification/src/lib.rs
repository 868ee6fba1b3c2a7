//! Interactive region selection for X11, as a verified core.
//!
//! The crate holds the decisions of a screen-region picker: the geometry of
//! rectangles and points, the two small configuration languages (output
//! format templates and hex colours), the resolution of a click to the
//! topmost window under it, and the state machine that follows a drag of the
//! pointer. Talking to the display server is left to the caller, who hands
//! in plain values and carries out the actions that come back.

pub mod colour;
pub mod format;
pub mod geometry;
pub mod grab;
pub mod roundtrip;
pub mod selection;
pub mod text;
pub mod window;

pub use colour::{parse_hex, parse_hex_slice, HexFault, ParseHexError};
pub use format::{
    fill_format_string, parse_all, parse_anything, parse_format, parse_format_string,
    parse_literal, Format, FormatToken,
};
pub use geometry::{min_max, HacksawResult, Point, Rectangle};
pub use grab::{
    after_grab_attempt, find_escape_keycode, grab_pointer_set_cursor, has_escape_keycode,
    key_grab_masks, GrabStatus, GrabStep, CURSOR_GRAB_DELAY_MS, CURSOR_GRAB_TRIES, ESC_KEYSYM,
    KEY_GRAB_MASK_MAX,
};
pub use selection::{
    build_frame, build_guides, closing_steps, final_result, frame_fits, guides_fit, run_events,
    Cancellation, Closing, Completion, Ending, Event, Feedback, Notice, Selection, Step,
    Teardown, SETTLE_DELAY_MS,
};
pub use window::{
    after_resolution, get_window_at_point, get_window_geom, input_output, remove_decorations,
    resolve_or_root, topmost_at, viewable, ChildWindow, Descent, MapState, Resolution,
    WindowAttributes, WindowClass, WindowGeometry,
};
