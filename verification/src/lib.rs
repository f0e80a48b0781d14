//! Verified core of a peer-to-peer video sharing service: naming of uploaded
//! clips, the segmenting plan for an uploaded video, parsing of clip queries,
//! ordering of produced segments and the access-list decision.

pub mod text;
pub mod upload;
pub mod protocol;
pub mod segments;
pub mod access;
pub mod events;
