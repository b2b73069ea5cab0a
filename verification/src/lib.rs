//! Verified core of a JNI face-detection bridge: camera-frame decoding,
//! gray-image orientation, detector-handle bookkeeping and parameter parsing.

pub mod yuv;
pub mod gray;
pub mod key;
pub mod param;
pub mod frame;
pub mod registry;
