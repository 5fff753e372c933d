//! Client-side logic of a small object-storage disk: request signing,
//! request layout, multipart-upload bookkeeping and the XML documents
//! exchanged with the storage service.

pub mod config;
pub mod escape;
pub mod path;
pub mod reply;
pub mod request;
pub mod sign;
pub mod text;
pub mod upload;
pub mod xml;
