//! Verified core of jjit: configuration layering, parsing of the language
//! model's XML replies, jj invocation planning and stream decoding.

pub mod text;
pub mod strmap;
pub mod xml;
pub mod output;
pub mod config;
pub mod cli;
pub mod jj_util;
pub mod commands;
pub mod llm;
