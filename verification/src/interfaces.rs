//! Framework-level ports that product extensions implement.

use vstd::prelude::*;

verus! {

/// Gateway port: chat completion and model listing.
pub trait GatewayPort {
    fn chat(&self, request: ChatRequest) -> Result<ChatResponse, String>;

    fn list_models(&self) -> Vec<ModelInfo>;
}

#[derive(Debug, Clone)]
pub struct ChatRequest {
    pub model: String,
    pub messages: Vec<ChatMessage>,
}

#[derive(Debug, Clone)]
pub struct ChatResponse {
    pub content: String,
    pub model: String,
    pub usage: Option<TokenUsage>,
}

#[derive(Debug, Clone)]
pub struct ChatMessage {
    pub role: MessageRole,
    pub content: String,
}

#[derive(Debug, Clone, Copy, PartialEq, Eq)]
pub enum MessageRole {
    System,
    User,
    Assistant,
    Tool,
}

#[derive(Debug, Clone, Copy, PartialEq, Eq)]
pub struct TokenUsage {
    pub prompt_tokens: u32,
    pub completion_tokens: u32,
    pub total_tokens: u32,
}

#[derive(Debug, Clone)]
pub struct ModelInfo {
    pub id: String,
    pub name: String,
}

/// Session port.
pub trait SessionPort {
    fn create_session(&self, name: &str) -> Result<Session, String>;

    fn get_session(&self, id: &str) -> Result<Option<Session>, String>;

    fn add_message(&self, session_id: &str, message: Message) -> Result<(), String>;
}

#[derive(Debug, Clone)]
pub struct Session {
    pub id: String,
    pub name: String,
    pub created_at: String,
}

#[derive(Debug, Clone)]
pub struct Message {
    pub id: String,
    pub role: MessageRole,
    pub content: String,
    pub timestamp: String,
}

/// Agent port: runs one turn of a session.
pub trait AgentPort {
    fn execute_turn(&self, session_id: &str, input: &str) -> Result<String, String>;
}

/// Terminal port.
pub trait TerminalPort {
    fn create_pty(&self) -> Result<String, String>;

    fn write_pty(&self, id: &str, data: &str) -> Result<(), String>;
}

} // verus!
