pub mod accepted;
pub mod archive;
pub mod assets;
pub mod bounded;
pub mod broker_api;
pub mod cleanup;
pub mod digest;
pub mod error;
pub mod framing;
pub mod guard;
pub mod inspect;
pub mod install;
pub mod interrupted;
pub mod journaled;
pub mod json;
pub mod layout;
pub mod lists;
pub mod migrated;
pub mod order;
pub mod path;
pub mod pathset;
pub mod pi;
pub mod places;
pub mod protocol;
pub mod random;
pub mod record;
pub mod recovery;
pub mod registry;
pub mod removal;
pub mod rescue;
pub mod restore;
pub mod rollback;
pub mod rpc;
pub mod snapshot;
pub mod status;
pub mod status_tui;
pub mod tasks;
pub mod text;
pub mod transaction;
pub mod version;
pub mod walk;
pub mod wire;
