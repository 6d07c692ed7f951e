//! A sliding-window validator for streams of integers.
//!
//! A value of the stream is valid when it is the sum of two members, at different
//! positions, of the window of values that precede it. The window is kept in a
//! doubly-linked list twice over, once in order of arrival and once in ascending
//! order, so that the oldest member can be dropped and a pair can be searched for
//! from both ends.

pub mod edits;
pub mod element;
pub mod list;
pub mod list_methods;
pub mod node;
pub mod order;
pub mod text;
pub mod window;
