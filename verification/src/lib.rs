//! A provenance ledger for physical goods and the services around it.
//!
//! The ledger ([`state::State`]) keeps an append-only log of custody
//! events, the products and the transfers that the log backs, the check
//! that the recorded custody chain of a product is physically plausible,
//! and the ratings of and the disputes about participants. Beside it stand
//! the directory of participants ([`users::Directory`]), the feedback on
//! transactions ([`feedback::Feedback`]) and the reporting
//! ([`reporting::Reporting`]).
//!
//! Every operation takes the acting identity and the current time as
//! plain arguments and works on a state that is constructed explicitly,
//! on regions of stable memory ([`regions`]) that it is given.
//! The states keep their records in durable stores ([`store`]), in a byte
//! form of their own ([`codec`]); [`model`] says what each operation of the
//! ledger does, and [`guarantees`] what follows from it.

pub mod codec;
pub mod error;
pub mod events;
pub mod guarantees;
pub mod identity;
pub mod ledger;
pub mod lists;
pub mod model;
pub mod products;
pub mod rating_stats;
pub mod ratings;
pub mod regions;
pub mod registry;
pub mod reporting;
pub mod reports;
pub mod feedback;
pub mod roles;
pub mod state;
pub mod store;
pub mod table;
pub mod text;
pub mod transfers;
pub mod users;
pub mod verification;
