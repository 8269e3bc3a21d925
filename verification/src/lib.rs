pub mod backend;
pub mod cell;
pub mod encoding;
pub mod int8;
