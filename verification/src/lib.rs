pub mod conversion_laws;
pub mod dict;
pub mod engine;
pub mod grammar;
pub mod laws;
pub mod rules;
pub mod text;
pub mod trie;
pub mod types;

pub use dict::{DictError, SuffixDict, WordDict};
pub use engine::AvroEngine;
pub use grammar::AvroGrammar;
pub use types::{BanglaOutput, OutputContext};
