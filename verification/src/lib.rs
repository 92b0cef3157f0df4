pub mod array;
pub mod error;
pub mod expr;
pub mod hop_stream_laws;
pub mod hop_window;
pub mod hop_window_laws;
pub mod interval;
pub mod plan;
pub mod projection;
pub mod projection_laws;
pub mod shared;
pub mod shared_buffer_uploader;
pub mod shared_buffer_uploader_laws;
pub mod stream;
pub mod text;
pub mod types;
