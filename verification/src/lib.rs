//! A password vault: key wrapping, record encryption, record ordering and
//! search, legacy import, and the decisions behind its terminal interface.
pub mod text;
pub mod b64;
pub mod crypto;
pub mod forms;
pub mod migrate;
pub mod session;
pub mod sort;
pub mod storage;
pub mod ui;
