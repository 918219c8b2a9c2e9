//! Durable records for a course catalogue and a lottery, kept in stable
//! memory.
//!
//! Every record lives in an ordered map from a `u64` identifier to at most
//! [`store::MAX_RECORD_SIZE`] bytes, and every identifier is minted by a
//! counter that only moves forward. The operations on courses and on lottery
//! draws read and write whole records; each states, over the model of the
//! maps and counters, what it returns and what it leaves behind.
//!
//! - [`store`]: the counter and the map, over `ic_stable_structures`.
//! - [`wire`], [`lists`]: how the fields of a record are laid out in bytes.
//! - [`course`], [`ticket`], [`draw`]: the three records.
//! - [`listing`]: the order in which a scan of a store meets its records.
//! - [`course_management`], [`student_management`]: the course registry.
//! - [`lottery`], [`random`]: the lottery and its winning numbers.
//!
//! The library reads no clock, no caller and no random source: the time, the
//! buyer and the seed are arguments. Nor does it attach stable memory: the
//! program that uses it does, once, when it starts.

pub mod course;
pub mod course_management;
pub mod draw;
pub mod listing;
pub mod lists;
pub mod lottery;
pub mod random;
pub mod store;
pub mod student_management;
pub mod ticket;
pub mod wire;

pub use course::Course;
pub use random::generate_winning_numbers;
