//! Decision core of a branch merge: routing on the analysis of the incoming
//! commit, the fixed precedence policy for three-way conflicts, and the state
//! machine that orders every store operation of one merge attempt.
pub mod analysis;
pub mod laws;
pub mod messages;
pub mod resolver;
pub mod session;
