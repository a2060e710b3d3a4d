//! What is sent to the text-generation service and what is made of its replies.

pub mod client;
