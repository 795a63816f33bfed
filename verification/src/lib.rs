//! A site store and content-negotiation library for publishing static
//! websites.
//!
//! The library keeps, per named site, a transactionally consistent mapping
//! from URL path to a list of content variants ([`entity::Entity`] records),
//! stored in an embedded LMDB database.  On top of that mapping it offers:
//!
//! - a stable binary codec for variant lists ([`codec`]);
//! - capability-style read and write handles scoped to one path ([`cell`]);
//! - a registry that lazily opens one store per site name ([`storage`]);
//! - a content-negotiation engine that picks the variant to serve for a
//!   client's `Accept` and `Accept-Encoding` preferences ([`negotiate`]);
//! - a mapper that turns a file tree into the writes publishing it as a
//!   static site ([`upload`]).

pub mod cell;
pub mod codec;
pub mod entity;
pub mod main_view;
pub mod negotiate;
pub mod storage;
pub mod store;
pub mod upload;
