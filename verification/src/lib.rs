//! Core of a structured, multi-transport logging pipeline: a bounded
//! queue of control messages drained by a single worker that routes each
//! record through per-transport level filters and format selection, with
//! pre-transport buffering, an effective-severity cache, backpressure
//! policies, a flush barrier, an orderly close, and a query engine over
//! buffered and transport-side records.

pub mod assoc;
pub mod builder;
pub mod laws;
pub mod levels;
pub mod logger;
pub mod message;
pub mod options;
pub mod query;
pub mod record;
pub mod text;
pub mod time;

pub use builder::LoggerBuilder;
pub use levels::LoggerLevels;
pub use levels::default_levels;
pub use logger::Logger;
pub use message::Action;
pub use message::DiagKind;
pub use message::LogMessage;
pub use options::BackpressureStrategy;
pub use options::LoggerOptions;
pub use options::LoggerTransport;
pub use options::TransportHandle;
pub use query::LogQuery;
pub use query::Order;
pub use record::LogInfo;
pub use record::MetaValue;
