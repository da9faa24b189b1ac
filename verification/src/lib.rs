//! Building blocks for servers that stay up under load: a permit pool that can run a
//! debt, a concurrency limit that can be retuned live, a queue that sheds on a deadline,
//! immediate rejection, per-tenant blame and the virtual clock that drives them all.
//!
//! Every type here is the plain state of one such block together with the decisions
//! taken on it. Whoever drives a block owns its sharing, its timers and its wakers: it puts the
//! state behind whatever lock it likes, asks the outside world, and hands the answer in.

pub mod backpressure;
pub mod book;
pub mod clock;
pub mod compose;
pub mod content;
pub mod cpu_concurrency;
pub mod debt;
pub mod duration;
pub mod figure;
pub mod limit;
pub mod moment;
pub mod queue;
pub mod rate_limit;
pub mod ready;
pub mod reject;
pub mod tenant;
