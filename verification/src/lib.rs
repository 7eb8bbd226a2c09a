//! Verified decisions of a gRPC hello service and its clients: how client
//! channels pick endpoints (in turn, at random by weight, or through worker
//! groups), how the endpoint set follows name resolution, how a server's
//! elastic worker pool grows and shrinks, and the text they exchange.
pub mod chans;
pub mod choice;
pub mod counter;
pub mod endpoints;
pub mod keyed;
pub mod round_robin;
pub mod server_pool;
pub mod tally;
pub mod text;
pub mod worker_registry;
