//! Verified core of a script-execution service: a shared ordered
//! key-value store, a monotonic counter and a membership set exposed to
//! scripts as host functions, the per-request execution state machine
//! that arms a watchdog before any script runs, and the cancellation
//! token through which the watchdog aborts an overrunning script.
//!
//! The transport, the script engine itself and the timer plumbing are
//! external collaborators; this crate holds the logic they drive.

mod bindings;
mod cancel;
mod config;
mod counter;
mod dispatch;
mod members;
mod order;
mod store;

pub use bindings::normalize_next_key;
pub use bindings::probe_value;
pub use cancel::CancelToken;
pub use cancel::TokenState;
pub use cancel::after_trigger;
pub use cancel::trigger_fires;
pub use cancel::lemma_trigger_idempotent;
pub use config::Opts;
pub use dispatch::Execution;
pub use dispatch::Outcome;
pub use dispatch::Phase;
pub use dispatch::RunResult;
pub use dispatch::run_outcome;
pub use dispatch::response_of;
pub use dispatch::render_response;
pub use members::MembershipSet;
pub use store::EntrySeq;
pub use store::Store;
pub use store::entries_sorted;
pub use store::map_get;
pub use store::map_set;
pub use store::map_next;
pub use store::lemma_get_absent;
pub use store::lemma_get_after_set_same;
pub use store::lemma_get_after_set_other;
pub use store::lemma_get_some_index;
pub use store::lemma_set_set_get;
pub use store::lemma_racing_sets;
pub use store::lemma_next_least_greater;

pub use order::lex_lt;
pub use order::lemma_lex_irreflexive;
pub use order::lemma_lex_total;
pub use order::lemma_lex_transitive;
pub use order::lemma_lex_asymmetric;
pub use counter::Counter;
pub use counter::RequestMeter;
pub use counter::counter_value_after;
pub use counter::lemma_counter_sequence;
