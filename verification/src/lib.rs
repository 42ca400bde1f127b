//! An escrow for paid questions: payers lock funds, an administrator settles each question
//! among the workers who answered it, and anyone can force a refund once its window has passed.

// The contract.
pub mod limits;
pub mod types;
pub mod env;
pub mod escrow;
pub mod index;
pub mod questions;
pub mod funds;
pub mod bond;
pub mod staking;
pub mod settlement;
pub mod upkeep;
pub mod upgrade;
pub mod migration;

// What holds of every call and every history.
pub mod sums;
pub mod seqs;
pub mod calls;
pub mod routine;
pub mod authority;
pub mod books;
pub mod capacity;
pub mod pending;
pub mod lifecycle;
pub mod accounts;
pub mod bonding;
pub mod maturity;
pub mod exits;
pub mod announcements;
pub mod lifetimes;
pub mod requests;
pub mod extensions;
pub mod terms;
pub mod refusals;
pub mod pairing;
pub mod interplay;
pub mod histories;

// Tokens, races, and a model to compare with.
pub mod bank;
pub mod fixture;
pub mod orders;
pub mod race;
pub mod model;
pub mod agreement;
pub mod harness;

// What resolving costs, and what reporting a flaw pays.
pub mod resources;
pub mod settings;
pub mod bounty;
