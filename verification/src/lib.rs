//! A small orchestration engine: named tasks wired by directed edges run in
//! edge order over a shared typed blackboard, and a model-call task can
//! dispatch registered tool tasks from a parsed remote response.

pub mod graph;
pub mod json;
pub mod jsonio;
pub mod llm;
pub mod node;
pub mod state;
pub mod text;
pub mod tool;

pub use json::JsonData;
pub use json::JsonVal;
pub use state::State;
pub use state::StateBuilder;
pub use state::StateError;
pub use node::FunctionNode;
pub use node::HttpTransport;
pub use node::Node;
pub use node::RllmError;
pub use llm::LLMNode;
pub use graph::Graph;
pub use graph::GraphBuilder;
pub use graph::Task;
pub use tool::Tool;
pub use tool::ToolMap;
pub use tool::ToolRegistry;
