//! Range-aggregation queries over per-base depth data.
//!
//! A query names a chromosome and a half-open interval of positions. The
//! interval is cut into at most a thousand windows of one common stride, an
//! aggregation engine supplies one value per window, and the values travel
//! back in a fixed little-endian layout. A second kind of query asks for the
//! chromosome names alone, which are answered as a JSON array.
//!
//! The store that holds the data and the engine that aggregates over it are
//! not part of this library: it decides what to ask of them and what their
//! answers turn into.
//!
//! The modules, leaves first:
//! - [`window`]: from an interval to its windows;
//! - [`encode`]: the byte layout of a range response, and its inverse;
//! - [`query`]: the fields of a request and the kind of answer they ask for;
//! - [`json`]: the JSON text of the chromosome catalog;
//! - [`dispatch`]: which store work a query needs, and the response that the
//!   store's answer turns into.
pub mod dispatch;
pub mod encode;
pub mod json;
pub mod query;
pub mod window;
