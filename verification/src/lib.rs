//! The verified core of a proxy for motion JPEG streams.
pub mod clients;
pub mod decimal;
pub mod element;
pub mod feed;
pub mod frame;
pub mod jpeg;
pub mod last_image;
pub mod multipart;
pub mod pattern;
pub mod queue;
pub mod request;
pub mod scale;
pub mod scaler;
pub mod scans;
pub mod subscription;
