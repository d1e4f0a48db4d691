//! Wire types of the backend's JSON API (the fields the client reads and
//! writes). Their JSON encoding lives with the program that does the I/O.
use vstd::prelude::*;

verus! {

/// Author of a chat message.
#[derive(Debug, Clone, Copy, PartialEq, Eq)]
pub enum Role {
    System,
    User,
    Assistant,
    Tool,
}

/// Token accounting of one completion.
#[derive(Debug, Clone, Copy, PartialEq, Eq)]
pub struct Usage {
    pub prompt_tokens: u32,
    pub completion_tokens: u32,
    pub total_tokens: u32,
}

/// Answer of `GET /health`.
#[derive(Debug, Clone, PartialEq, Eq)]
pub struct HealthResponse {
    pub status: String,
    pub model: String,
    pub loaded: bool,
}

/// One model file in the backend's models directory.
#[derive(Debug, Clone, PartialEq, Eq)]
pub struct ModelInfo {
    pub name: String,
    pub size_bytes: u64,
    pub loaded: bool,
}

/// Answer of `GET /v1/models`.
#[derive(Debug, Clone, PartialEq, Eq)]
pub struct ListModelsResponse {
    pub models: Vec<ModelInfo>,
}

/// Where a catalog entry comes from.
#[derive(Debug, Clone, Copy, PartialEq, Eq)]
pub enum ModelKind {
    Preset,
    Local,
}

/// One model the backend can load.
#[derive(Debug, Clone, PartialEq, Eq)]
pub struct ModelCatalogEntry {
    pub name: String,
    pub kind: ModelKind,
    pub repo: String,
    pub filename: String,
    pub context_length: u32,
    pub size_bytes: Option<u64>,
    pub min_ram_gib: Option<u32>,
    pub description: Option<String>,
    pub present: bool,
    pub loaded: bool,
}

/// Answer of `GET /v1/models/catalog`.
#[derive(Debug, Clone, PartialEq, Eq)]
pub struct ModelCatalog {
    pub current: String,
    pub entries: Vec<ModelCatalogEntry>,
}

/// One turn of the prompt the backend would build for a session.
#[derive(Debug, Clone, PartialEq, Eq)]
pub struct DebugTurn {
    pub role: Role,
    pub content: String,
}

/// Body of `POST /v1/sessions`.
#[derive(Debug, Clone, PartialEq, Eq)]
pub struct CreateSessionRequest {
    pub title: String,
    pub system_prompt: Option<String>,
}

/// Body the backend sends with every non-2xx status: `{"error": {...}}`.
#[derive(Debug, Clone, PartialEq, Eq)]
pub struct ApiError {
    pub error: ApiErrorDetail,
}

/// Machine-readable code and human-readable message of a backend error.
#[derive(Debug, Clone, PartialEq, Eq)]
pub struct ApiErrorDetail {
    pub code: String,
    pub message: String,
}

} // verus!
