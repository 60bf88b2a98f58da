//! Point-in-time package version lookup.
//!
//! Given the release history of a package, the library answers three
//! questions: which release was the newest one at a cutoff instant, during
//! which interval a given release was the newest one, and which releases were
//! the newest ones during an arbitrary interval.

pub mod instant;
pub mod release;
pub mod champion;
pub mod window;
pub mod overlap;
pub mod registry;
pub mod install;
pub mod timeline;
