pub mod text;
pub mod clock;
pub mod numeric;
pub mod types;
pub mod device_identity;
pub mod transcript_buffer;
pub mod soniox_runtime;
pub mod audio_combine;
pub mod audio_pipeline;
pub mod audio_egress;
pub mod session_core;
pub mod storage_model;
pub mod ws_protocol;
pub mod secret_codec;
pub mod capabilities;
pub mod capture_plan;
pub mod device_settings;
pub mod system_devices;
pub mod secret_store;
