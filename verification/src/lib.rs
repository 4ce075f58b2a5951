//! Runtime logic for the Laya family of calibrated decision models: question and state
//! rendering, the token sequence builder, script/language routing, and request packing.

pub mod text;
pub mod json;
pub mod pyjson;
pub mod checkpoint;
pub mod collections;
pub mod error;
pub mod question;
pub mod state;
pub mod lang;
pub mod router;
pub mod sequence;
pub mod tokenizer;
pub mod config;
pub mod agent;
pub mod ascii;
pub mod readback;
pub mod batch;
