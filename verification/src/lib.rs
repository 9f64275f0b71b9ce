//! The logic of the kittest inspector and of its widget-tree queries.
pub mod animation;
pub mod budget;
pub mod controls;
pub mod details;
pub mod faithful;
pub mod handout;
pub mod id;
pub mod inspector;
pub mod limit;
pub mod lookup;
pub mod matching;
pub mod node;
pub mod outline;
pub mod pointer;
pub mod query;
pub mod resolve;
pub mod roles;
pub mod screenshot;
pub mod session;
pub mod source;
pub mod telling;
pub mod text;
pub mod walk;
pub mod widget;
pub mod wording;
