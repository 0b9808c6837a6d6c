//! A link checker for one site.
//!
//! A crawl starts at `https://<domain>`, visits every page that is reachable
//! over links within the domain, and fetches each link that leaves the domain
//! once, without following it further. It reports the URLs that could not be
//! fetched.
//!
//! This library holds the rules and the bookkeeping of such a crawl. It does
//! no I/O: [`crawl::Crawler`] names the next URL, the caller fetches it and
//! hands back the outcome.
//!
//! - [`url`]: which URLs are internal, which links are followed, and how a
//!   rooted path becomes an absolute URL.
//! - [`links`]: the links of a page.
//! - [`model`]: the crawl as a state machine, with its invariant.
//! - [`crawl`]: the engine, which is proved to follow the model.
//! - [`laws`]: what the invariant says about every crawl.
//! - [`report`]: the lines that report the failures.

pub mod crawl;
pub mod laws;
pub mod links;
pub mod model;
pub mod report;
pub mod url;
