//! Hook protocol: contexts handed to extensions, the decisions they return,
//! and the guards of the default dispatcher.
pub mod context;
pub mod default_dispatcher;
pub mod mutations;
