//! Verified core of an offline text-to-speech sidecar.

pub mod audio;
pub mod chars;
pub mod cli;
pub mod encode;
pub mod json;
pub mod kokoro;
pub mod order;
pub mod outputs;
pub mod pack;
pub mod phonemes;
pub mod promise;
pub mod protocol;
pub mod search;
pub mod session;
pub mod speech;
pub mod speed;
pub mod style;
pub mod table;
pub mod timing;
pub mod vocab;
