//! Maintains a JSON catalog of locally installed "ghost" desktop-mascot
//! bundles: each record names an installation directory and two character
//! display names. The catalog is built by scanning directories for legacy
//! declaration files, and can be appended to, pruned, or merged with other
//! catalogs, always through an order-preserving deduplication fold.

pub mod ast;
pub mod codec;
pub mod config;
pub mod decode;
pub mod extract;
pub mod procedure;
pub mod text;
