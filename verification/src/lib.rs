//! Holiday notification library.
//!
//! For a requested date and a list of countries, the library selects the
//! public-holiday records that apply, groups them by location, and renders
//! the chat message that announces them.  Fetching records over the network
//! and posting the rendered message are left to the surrounding program;
//! everything here works on plain values and is verified.

pub mod date;
pub mod group;
pub mod laws;
pub mod location;
pub mod message;
pub mod model;
pub mod notify;
pub mod order;
pub mod pipeline;
pub mod render;
pub mod seqs;
