//! A catalog of media assets kept consistent with the directory trees that
//! hold them: classification of entries, the catalog store, the
//! reconciliation pass, the derivation-job pipeline and the change watcher.
pub mod text;
pub mod format;
pub mod media;
pub mod paths;
pub mod catalog;
pub mod reconcile;
pub mod pipeline;
pub mod watcher;
pub mod pagination;
pub mod manifest;
pub mod sorting;
pub mod snapshot;
