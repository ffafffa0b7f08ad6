//! A ledger of memes and the likes and comments attached to them, with
//! per-owner aggregate statistics that always agree with the records.
mod types;
mod model;
mod ledger;

pub use types::{Comment, CommentView, LedgerError, MemeNFT, MemeView, UserStats};
pub use model::LedgerModel;
pub use ledger::MemeFiContract;
