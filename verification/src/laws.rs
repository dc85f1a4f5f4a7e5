//! What the operations promise to those who rely on them, stated apart from how
//! they are carried out.
pub mod dependencies;
pub mod findings;
pub mod grants;
pub mod kinds;
pub mod ledgers;
pub mod observing;
pub mod output;
pub mod overview;
pub mod limits;
pub mod membership;
pub mod ownership;
pub mod places;
pub mod removal;
pub mod repositories;
pub mod scanning;
pub mod settings;
pub mod texts;
pub mod upkeep;
pub mod wording;
