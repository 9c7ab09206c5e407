//! Verified core of caneDNA, an explorer for split-bamboo fly-rod tapers.
//!
//! The taper records carry floating-point stations and dimensions, which the
//! verified library does not hold; it holds the descriptive record and every
//! rule that reads it or works on counts and positions:
//!
//! - `taper`: the descriptive taper record, source groups, maker and model
//!   keys, cross-section geometry, ferrule slots, the export header.
//! - `library`: the library and its sorted, distinct filter values.
//! - `kb`: the casting knowledge base and how a taper links to it.
//! - `profile`: which zipped points make up a profile.
//! - `mill`: Morgan Hand Mill section plans, anvil numbering, bed registration
//!   and the moment grid index.
//! - `selection`: the explorer's click-ordered selection and list filters.
//! - `server`: routing and request rules of the design-assistant server.
//! - `text`: character-level string helpers the rules are built on.

pub mod kb;
pub mod library;
pub mod mill;
pub mod profile;
pub mod selection;
pub mod server;
pub mod taper;
pub mod text;
