//! Scrapes candidate HTTP(S) proxies out of listing pages and probes them.
//!
//! The library holds the verified core: the proxy data model with its
//! canonical string form, the extraction of proxy records out of page bodies,
//! the page-URL templates, and the paging / hand-off bookkeeping of the
//! producer and consumer loops. Network calls, the async runtime and the
//! command line live outside the library, in the application crate.

pub mod extract;
pub mod fetch;
pub mod proxy;
pub mod server;
pub mod text;

pub use fetch::{FetcherOf66, FetcherOfHappy, FetcherOfQuick, ProxyBuilder, StrategyId};
pub use proxy::{Ipv4Addr, Proxy, ProxyType};
pub use server::{ConsumerAction, ConsumerEvent, Supervisor};
