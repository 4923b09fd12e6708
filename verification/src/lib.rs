//! The decision core of a KMS compositor.

pub mod assignment;
pub mod attempt;
pub mod attempt_bounds;
pub mod attempt_laws;
pub mod attempt_talk;
pub mod basic_laws;
pub mod buffer;
pub mod compositor;
pub mod core_state;
pub mod cursor_buffer;
pub mod cursor_laws;
pub mod device;
pub mod drawing_laws;
pub mod driver;
pub mod effects;
pub mod element;
pub mod element_driver;
pub mod element_states;
pub mod error;
pub mod fits;
pub mod flags;
pub mod float;
pub mod format_probe;
pub mod formats;
pub mod fourcc;
pub mod frame_account;
pub mod frame_build;
pub mod frame_finish;
pub mod frame_laws;
pub mod frame_state;
pub mod frame_talk;
pub mod geometry;
pub mod init;
pub mod legacy_attempt;
pub mod legacy_cursor;
pub mod legacy_driver;
pub mod libei;
pub mod libei_laws;
pub mod making_laws;
pub mod overlay_map;
pub mod placement_laws;
pub mod plane;
pub mod prepared;
pub mod record;
pub mod region;
pub mod render;
pub mod render_laws;
pub mod render_states;
pub mod scanout_laws;
pub mod search_laws;
pub mod setup;
pub mod setup_laws;
pub mod setup_talk;
pub mod submit;
pub mod submit_laws;
pub mod talk;
pub mod touch;
pub mod touch_laws;
pub mod transform;
pub mod visibility;
pub mod visibility_laws;
