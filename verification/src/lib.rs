//! A quota-managed message store.
//!
//! Accounts hold prepaid storage credit and may create records ("emails")
//! that are indexed twice: by the account that sent them and by the account
//! that received them.  Every operation is a single step over one explicit
//! state value, [`Contract`], and is proved against the mathematical model
//! in [`state`].

pub mod account;
pub mod contract;
pub mod email;
pub mod error;
pub mod index;
pub mod keys;
pub mod laws;
pub mod quota;
pub mod state;
pub mod store;

pub use account::AccountId;
pub use contract::{Contract, Snapshot};
pub use email::{Email, EmailView};
pub use error::MailError;
pub use index::{Listing, MailIndex};
pub use keys::StorageKeys;
pub use quota::{StorageBalance, STORAGE_PER_MAIL};
pub use state::{MailboxState, Receipt};
pub use store::{EmailStore, Stored};
