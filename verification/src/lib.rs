//! DeepSeek-V4 chat prompts.
//!
//! A request's messages and tools go in as [`json::Json`] values, and the text of
//! the prompt comes out: [`request::render_request`] for a whole request,
//! [`render::render_messages`] for a list of messages.
//! What holds of all of this is stated in modules of its own: of whole prompts in
//! [`assembly`], [`conversation`], [`dropping_laws`] and [`prompt_laws`], of requests in
//! [`request_laws`], [`request_outcomes`] and [`options_laws`], of the steps in
//! [`merge_laws`], [`order_laws`], [`dsml_laws`], [`layout_laws`] and [`reading`].

pub mod assembly;
pub mod conversation;
pub mod dropping_laws;
pub mod dsml;
pub mod dsml_laws;
pub mod json;
pub mod layout_laws;
pub mod markers;
pub mod merge;
pub mod merge_laws;
pub mod options;
pub mod options_laws;
pub mod order;
pub mod order_laws;
pub mod parse;
pub mod prompt_laws;
pub mod pyjson;
pub mod reading;
pub mod render;
pub mod request;
pub mod request_laws;
pub mod request_outcomes;
pub mod text;
pub mod thinking;
pub mod tools;
pub mod turns;
