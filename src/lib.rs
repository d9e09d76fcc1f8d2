//! Scrolling capture: detection of the vertical overlap between consecutive
//! screen captures, stitching of the captures into one tall image, and the
//! tick-driven session that decides when to scroll, when to capture and when
//! to stop. Also the plain state behind the annotation tools, the toolbar and
//! the editor's mini bar.
pub mod frame;
pub mod minibar;
pub mod overlap;
pub mod session;
pub mod stitch;
pub mod toolbar;
pub mod tools;
