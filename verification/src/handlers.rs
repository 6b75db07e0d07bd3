//! What is done with a command once it is read: the decisions only. Talking
//! to the issue tracker is left to the caller.

pub mod assign;
