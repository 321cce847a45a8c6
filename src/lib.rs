//! Conversation state for chat agents: messages, a bounded message history,
//! prompt windowing, a tool registry, and the decisions of a chat turn.

pub mod error;
pub mod value;
pub mod message;
pub mod history;
pub mod wire;
pub mod window;
pub mod tool;
pub mod chat;
pub mod text;

pub use error::AgentError;
pub use history::MessageHistory;
pub use message::{Message, ToolCall, ToolCallFunction};
pub use value::Value;
