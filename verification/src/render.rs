//! What playback needs beside the renderer itself: readers that say which
//! frame to load, and the controller that says how many points to show.

pub mod async_reader;
pub mod reader;
pub mod resolution_controller;
