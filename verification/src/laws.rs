//! What holds of the operations, said of their inputs and results: how a result is put
//! together from its input, and how the results of several calls relate.

pub mod calls;
pub mod config;
pub mod dsi;
pub mod relay;
pub mod text;
pub mod worker;
