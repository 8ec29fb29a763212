//! The handlers of the constructs: for each, whether it starts here, and what it reads.
pub mod heading;
pub mod emphasis;
