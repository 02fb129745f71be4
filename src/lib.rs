//! Downloads every media item of a remote album into a local directory.
//!
//! The verified parts are the pieces of the download pipeline that decide
//! something: turning a user argument into an album id, naming each item's
//! file, choosing between skipping and re-downloading an item, and scheduling
//! the per-item tasks under a concurrency cap.
mod album_id;

pub use album_id::{
    extract_album_id_from_argument, is_ascii_alphanumeric, parse_album_argument, AlbumRefError,
};
mod naming;

pub use naming::{digits_in_decmial_representation, file_name, MediaItem};
mod item;

pub use item::{skip_existing, ItemDownload, ItemEvent, ItemOutcome, ItemStep};
mod batch;

pub use batch::{Batch, TaskState, CONCURRENCY};
mod run;

pub use run::{album_url, Run, RunError, RunEvent, RunStage, ALBUM_URL_PREFIX, ALBUM_URL_QUERY};
