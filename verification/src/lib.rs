//! Snip library logic: table conversion, intake bookkeeping, store helpers.

pub mod text;
pub mod cells;
pub mod table;
pub mod tabular;
pub mod session;
pub mod runtime;
pub mod intake;
pub mod html;
pub mod export;
pub mod search;
pub mod sysmon;
pub mod store;
pub mod dates;
pub mod paper;
pub mod ingest;
pub mod presentation;
pub mod wrap;
pub mod draw;
pub mod sidebar;
pub mod selection;
pub mod strip;
pub mod roundtrip;
pub mod pipes;
