pub mod deployment;
pub mod execute;
