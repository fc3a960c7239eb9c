//! A tiling engine for the panes of one terminal workspace tab: panes are split, resized,
//! closed, focused and shown fullscreen within a shared screen area. Each operation is verified
//! against a contract over the panes' rectangles; `laws` proves what holds across operations.
pub mod geometry;
pub mod pane;
pub mod tab;
pub mod resize;
pub mod focus;
pub mod close;
pub mod split;
pub mod laws;
pub mod registry;
pub mod clipboard;
pub mod layout;
