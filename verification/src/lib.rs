//! Recovery from encrypted conversation state that an endpoint no longer accepts.
//!
//! Reasoning and compaction checkpoints come back from an endpoint in encrypted form, bound to the
//! region that made them. When a conversation goes on in another region:
//!
//! - [`reasoning_recovery`] leaves rejected reasoning out of later requests, and sends replacements
//!   in place of checkpoints. The saved conversation is not rewritten.
//! - [`region_recovery`] has the checkpoints made again from the transcript behind them, within the
//!   limits of [`replay_budget`], or says by a [`refusal`] why not.
//! - [`source_history`] reads that transcript, whole or not at all.
//! - [`errors`] gives the endpoint's own wording of an error its meaning, by the rules of [`text`].
//!
//! The modules named `.._laws` state and prove what holds over several calls.
#![allow(unused_imports)]

pub mod error_laws;
pub mod errors;
pub mod fingerprint;
pub mod item_laws;
pub mod items;
pub mod reasoning_laws;
pub mod reasoning_recovery;
pub mod refusal;
pub mod region_laws;
pub mod region_recovery;
pub mod replay_budget;
pub mod source_history;
pub mod source_laws;
pub mod text;
pub mod text_laws;
