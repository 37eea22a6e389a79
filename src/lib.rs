//! State model for running ad hoc tournaments: typed identifiers, a store of
//! players and matches, the operations that keep it consistent, and the
//! plain records that the match file is written from and read into.
pub mod ident;
pub mod model;
pub mod tournament;
pub mod render;
pub mod codec;
pub mod laws;
