//! A relay between sequential producer stages and one collector.
//!
//! Stages run one after another. Each turns the elements of its batch into
//! items, one item per element, and hands them to an unbounded channel. A
//! collector takes the items in the order in which they arrive and joins their
//! bytes into one result, which it gives up only when the channel is exhausted.
//!
//! The modules:
//! - [`item`]: the items that travel through the channel, and how bytes are
//!   taken out of them;
//! - [`channel`]: the sending end of the channel, and what was sent on it;
//! - [`runner`]: the stages, which form and send the items;
//! - [`collector`]: the collector, as a machine that is fed one event at a time;
//! - [`pipeline`]: what the two sides compute together.
pub mod channel;
pub mod collector;
pub mod item;
pub mod pipeline;
pub mod runner;
