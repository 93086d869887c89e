pub mod common;
pub mod java;
pub mod speadl;
