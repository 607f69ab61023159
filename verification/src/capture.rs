//! Window capture: which windows can be captured, and frames from decoded
//! images.
use vstd::prelude::*;
use crate::frame::CapturedFrame;
use crate::preprocess::{bgra_to_rgba, rgba_image};
use crate::text::{chars_of, string_of, trim_spec, trim_str};
use crate::types::WindowInfo;

verus! {

/// Extended window style of tool windows (tray icons, overlays).
pub const WS_EX_TOOLWINDOW: u32 = 0x80;

/// A window worth offering for capture: visible, top-level, not a tool
/// window, with a title of at least two UTF-16 units that is not blank.
pub open spec fn capturable_spec(visible: bool, has_parent: bool, ex_style: u32, title_units: i32, title: Seq<char>) -> bool {
    &&& visible
    &&& !has_parent
    &&& ex_style & WS_EX_TOOLWINDOW == 0
    &&& title_units >= 2
    &&& trim_spec(title).len() > 0
}

/// Whether a window is offered for capture (see `capturable_spec`).
pub fn is_capturable_window(visible: bool, has_parent: bool, ex_style: u32, title_units: i32, title: &str) -> (r: bool)
    ensures
        r == capturable_spec(visible, has_parent, ex_style, title_units, title@),
{
    visible && !has_parent && ex_style & WS_EX_TOOLWINDOW == 0 && title_units >= 2 && trim_str(title).len() > 0
}

/// Why the windows could not be listed.
pub enum CaptureError {
    /// Window capture needs Windows Graphics Capture.
    Unsupported,
}

impl CaptureError {
    /// The error's message.
    pub fn message(&self) -> (r: String)
        ensures
            r@ == "capture is only available on Windows"@,
    {
        string_of(&chars_of("capture is only available on Windows"))
    }
}

/// The windows that can be captured.  Window capture needs Windows
/// Graphics Capture, which this build does not have: the list is refused.
pub fn list_capturable_windows() -> (r: Result<Vec<WindowInfo>, CaptureError>)
    ensures
        r matches Err(CaptureError::Unsupported),
{
    Err(CaptureError::Unsupported)
}

/// A frame from a decoded RGBA image of `width` x `height`: the pixels in
/// BGRA order.
pub fn frame_from_rgba(rgba: &[u8], width: u32, height: u32) -> (f: CapturedFrame)
    ensures
        f.bgra@ == rgba_image(rgba@),
        f.width == width,
        f.height == height,
{
    CapturedFrame { bgra: bgra_to_rgba(rgba), width, height }
}

} // verus!
