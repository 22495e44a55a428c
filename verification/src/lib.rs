//! Webcam background replacement: frame processing, the shared-memory frame
//! exchange, capture format selection and the application's decisions.

pub mod arith;
pub mod background;
pub mod blur;
pub mod blur_laws;
pub mod blur_reach;
pub mod blur_share;
pub mod camera;
pub mod channel;
pub mod color;
pub mod color_laws;
pub mod composite;
pub mod config;
pub mod device;
pub mod double;
pub mod engine;
pub mod engine_laws;
pub mod error;
pub mod exchange_laws;
pub mod format_laws;
pub mod frame;
pub mod geometry;
pub mod gpu;
pub mod gpu_laws;
pub mod gpu_model;
pub mod gpu_pipeline;
pub mod gradient_laws;
pub mod i18n;
pub mod icon;
pub mod icon_laws;
pub mod layout;
pub mod mask;
pub mod mask_laws;
pub mod model_input;
pub mod orientation;
pub mod orientation_laws;
pub mod pipeline;
pub mod pipeline_laws;
pub mod precision;
pub mod preview;
pub mod processor;
pub mod region;
pub mod rounding_laws;
pub mod scale;
pub mod segmentation;
pub mod seqlock;
pub mod settings_laws;
pub mod source;
pub mod status;
pub mod text;
pub mod variant;
pub mod variant_laws;
pub mod walk;
pub mod window;
