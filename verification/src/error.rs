//! Everything that can go wrong while preparing or routing a request.

use vstd::prelude::*;

verus! {

/// Errors of the library. Failures of the model runtime and of file or network access are
/// reported by the application around it.
#[derive(Debug)]
pub enum Error {
    /// A question's options (with their `[MASK]` markers) do not fit in the head budget.
    OptionsExceedHeadBudget { question_id: String, head_max_len: usize },
    /// A Choice or Score question with fewer than two options cannot be answered.
    TooFewOptions { question_id: String, options: usize },
    /// A requested context budget exceeds what the encoder supports.
    ContextBudgetTooLarge { max_len: usize, max_position_embeddings: usize },
    /// A batch request failed validation; `request` is the index into the batch.
    Request { request: usize, source: Box<Error> },
    /// A checkpoint or routing setting is unusable.
    Config(String),
    /// A checkpoint file is missing (its path).
    MissingFile(String),
    /// The tokenizer failed or lacks a special token.
    Tokenizer(String),
}

pub type Result<T> = core::result::Result<T, Error>;

} // verus!
