//! The logic of an adapter between the OpenAI chat protocol and a provider that answers in
//! frames: turning frames into chunks, finding and parsing the tool calls in a model's output,
//! repairing their JSON, and deciding what is tried again.
//!
//! The modules whose names end in `_laws` hold what is proved of the others.
pub mod adapter;
pub mod adapter_laws;
pub mod block_laws;
pub mod block_stream_laws;
pub mod blocks;
pub mod call_laws;
pub mod calls;
pub mod chat_flow;
pub mod chunk_laws;
pub mod content_laws;
pub mod converter;
pub mod converter_laws;
pub mod error;
pub mod frame_laws;
pub mod invoke;
pub mod invoke_laws;
pub mod invoke_scan_laws;
pub mod invoke_text_laws;
pub mod invoke_value_laws;
pub mod json;
pub mod pair_laws;
pub mod parser_laws;
pub mod place_laws;
pub mod poll_laws;
pub mod repair;
pub mod repair_laws;
pub mod repair_piece_laws;
pub mod request_laws;
pub mod search;
pub mod search_laws;
pub mod stream_laws;
pub mod tag_laws;
pub mod tag_search_laws;
pub mod tags;
pub mod text;
pub mod tokens;
pub mod tool_parser;
pub mod tool_stream;
pub mod types;
pub mod view_laws;
