//! LLM-assisted review: review records, provider selection and the
//! handling of replies.
pub mod client;
pub mod prompt;
pub mod review;
