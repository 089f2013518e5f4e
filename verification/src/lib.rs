//! Casting xmtv opera episodes to a DLNA renderer: the listing parser, the
//! grouping of episodes into dramas, the local cache rules and the playback
//! decisions, each with its contract.

pub mod text;
pub mod json;
pub mod listing;
pub mod grouping;
pub mod playlist;
pub mod dlna;
pub mod store;
pub mod control;
