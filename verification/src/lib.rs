//! Function multiversioning: target specification strings, feature sets,
//! and the decisions a multiversioned function makes when it is built
//! and when it is dispatched.
pub mod cpu_features;
pub mod strings;
pub mod text;
pub mod attrs;
pub mod stdlib;
pub mod database;
pub mod target;
pub mod legacy;
pub mod features;
pub mod dispatch;
pub mod options;
pub mod cfg;
pub mod match_target;
pub mod implied;
pub mod specialize;
pub mod target_cfg;
pub mod simd;
pub mod safe_inner;
pub mod cache;
