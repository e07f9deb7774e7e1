//! Provider-neutral model requests and responses, and the providers' wire formats.

pub mod anthropic;
pub mod attachments;
pub mod block_laws;
pub mod body_laws;
pub mod content_laws;
pub mod driver;
pub mod endpoint;
pub mod endpoint_laws;
pub mod fields;
pub mod gemini;
pub mod image;
pub mod image_laws;
pub mod image_text;
pub mod openai_compatible;
pub mod openai_responses;
pub mod probe;
pub mod report_laws;
pub mod requests;
pub mod retry_laws;
pub mod route_laws;
pub mod router;
pub mod sse;
pub mod sse_laws;
pub mod reply_laws;
pub mod stream_laws;
pub mod transport;
pub mod turns;
pub mod types;
pub mod wire_laws;
