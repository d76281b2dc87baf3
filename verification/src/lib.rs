//! Verified core of the PF2e Remaster + Biblical-worldview companion:
//! text normalisation, markdown/frontmatter handling, encounter rules,
//! stream framing, chunking, grading and the agent's decision loop.

pub mod text;
pub mod sse;
pub mod rag;
pub mod json;
pub mod llm;
pub mod rules;
pub mod llm_tools;
pub mod anthropic;
pub mod ollama;
pub mod eval;
pub mod content;
pub mod vault_write;
pub mod foundry;
pub mod vault;
pub mod keystore;
pub mod commands;
pub mod markdown;
