//! InkGraph: result-screen analysis for Splatoon 3 match tracking.
//!
//! The library holds the logic of the tracker: frame geometry and pixel
//! tests, the digit cascade, detection filtering, text normalisation of OCR
//! output, the screen state machines and the decisions of the capture loop.

pub mod frame;
pub mod geometry;
pub mod pixels;
pub mod text;
pub mod types;
pub mod detector;
pub mod detection;
pub mod cascade;
pub mod screen_state;

pub mod extractor;
pub mod ocr_rec;
pub mod preprocess;
pub mod imaging;
pub mod db;
pub mod capture_loop;
pub mod capture;
pub mod commands;
