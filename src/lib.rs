//! Reference resolution, reachability and addressables catalog decoding over
//! the serialized asset files of a Unity game.
//!
//! - `bytes`, `strings`, `values`, `locations`, `catalog`: the addressables
//!   binary catalog, decoded from its bytes against a model of the format.
//! - `archive_path`, `index`, `env`: archive-member identities, the index of
//!   bundle files and their members, and the load-once file cache.
//! - `reach`, `scene`, `prune`: object pointers, reachability inside one
//!   file, transform-path lookup and scene pruning.
//! - `resolver`, `settings`, `unity`, `scripts`: game-file classification,
//!   addressables settings, engine records and script selection.
//! - `text`, `utils`: character-level string helpers and folding.
pub mod archive_path;
pub mod bytes;
pub mod catalog;
pub mod env;
pub mod index;
pub mod locations;
pub mod prune;
pub mod reach;
pub mod resolver;
pub mod scene;
pub mod scripts;
pub mod settings;
pub mod strings;
pub mod text;
pub mod unity;
pub mod utils;
pub mod values;
