//! System calls: error numbers, the checks on addresses that user space hands over, and
//! the decisions of the calls that need no more than those.
pub mod access;
pub mod convert;
pub mod dispatch;
pub mod errno;
