//! Tokenizing MiniYaml text into spanned tokens, and the message plumbing
//! that drives language-server actors.

pub mod actor;
pub mod chars;
pub mod laws;
pub mod lexer;
pub mod numbers;
pub mod punct_laws;
pub mod span;
pub mod token;
pub mod tokenizer;
pub mod utf8;
pub mod word_laws;

pub use actor::{
    after_gathering, push_all_pending, Actor, ActorStep, PushAllPendingError, QueryRequest, QueryResponse, RangedFilePosition,
    ReceiveAction, ReceiveEvent, Symbol, TaskId,
};
pub use span::{ByteCount, ByteIndex, FileId, FileSpan};
pub use token::{Token, TokenCollectionExts, TokenKind};
pub use tokenizer::Tokenizer;
