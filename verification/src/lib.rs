//! The verified core of rewynd, an instant-replay clip recorder.

pub mod activation;
pub mod annexb;
pub mod audio_mix;
pub mod clip_meta;
pub mod clips;
pub mod clock;
pub mod container;
pub mod desktop;
pub mod devices;
pub mod encode;
pub mod encoders;
pub mod fit;
pub mod gpu;
pub mod installer;
pub mod launch_agent;
pub mod logs;
pub mod mux;
pub mod nal;
pub mod opus_audio;
pub mod paths;
pub mod process;
pub mod read;
pub mod resolution;
pub mod run_key;
pub mod schema;
pub mod seek;
pub mod software;
pub mod status;
pub mod text;
pub mod trim;
pub mod upload_history;
pub mod videotoolbox;
