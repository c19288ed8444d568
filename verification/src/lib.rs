//! Management API logic for n3n and n2n nodes: endpoint selection, request
//! routing, framing of the n2n management protocol and shaping of its replies.

pub mod api;
pub mod framing;
pub mod json;
pub mod text;
pub mod n2n;
pub mod n3n;
