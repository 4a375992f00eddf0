//! ArchiGoat's work engine: the rules that turn one accepted Work into exactly one verified end.

pub mod config;
pub mod delivery;
pub mod egress;
pub mod envelope;
pub mod evidence;
pub mod journal;
pub mod json;
pub mod nonce;
pub mod preview;
pub mod number;
pub mod observer;
pub mod provider;
pub mod receipt;
pub mod release;
pub mod request;
pub mod runner;
pub mod runtime;
pub mod shell;
pub mod state;
pub mod text;
pub mod work_state;
