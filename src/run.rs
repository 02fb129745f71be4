use vstd::prelude::*;

verus! {

/// Start of the metadata endpoint's URL, up to the album id.
pub const ALBUM_URL_PREFIX: &'static str = "https://api.imgur.com/post/v1/albums/";

/// Rest of the metadata endpoint's URL, after the album id.
pub const ALBUM_URL_QUERY: &'static str = "?client_id=546c25a59c58ad7&include=media";

/// The metadata endpoint's URL for album `id`.
pub fn album_url(id: &str) -> (r: String)
    ensures
        r@ == ALBUM_URL_PREFIX@ + id@ + ALBUM_URL_QUERY@,
{
    let mut url = String::from_str(ALBUM_URL_PREFIX);
    url.append(id);
    url.append(ALBUM_URL_QUERY);
    url
}

/// What ends a whole run.
#[derive(Debug, Clone, Copy, PartialEq, Eq, Structural)]
pub enum RunError {
    /// The metadata request failed, or its response had a failure status.
    MetadataFetchFailed,
    /// The metadata response could not be read as an album.
    MetadataParseFailed,
    /// The destination directory could not be created.
    DirectoryFailed,
}

/// What a run is to do next.
#[derive(Debug, Clone, Copy, PartialEq, Eq, Structural)]
pub enum RunStage {
    /// Request the album's metadata.
    FetchMetadata,
    /// Create the destination directory for this many items.
    CreateDirectory(usize),
    /// Download this many items.
    Download(usize),
    /// All items have been dealt with.
    Finished,
    /// The run stopped on this error.
    Aborted(RunError),
}

/// What came of the stage that was last performed.
#[derive(Debug, Clone, Copy, PartialEq, Eq, Structural)]
pub enum RunEvent {
    /// The metadata arrived and lists this many items.
    MetadataFetched(usize),
    /// The directory exists.
    DirectoryCreated,
    /// Every item's download has ended, however it ended.
    BatchFinished,
    /// The stage failed with this error.
    Failed(RunError),
}

/// The stage that follows `stage` when `event` comes of it. An event that
/// does not answer the stage leaves it as it is; an ended run stays ended.
pub open spec fn next_stage(stage: RunStage, event: RunEvent) -> RunStage {
    match (stage, event) {
        (RunStage::Finished, _) => RunStage::Finished,
        (RunStage::Aborted(e), _) => RunStage::Aborted(e),
        (_, RunEvent::Failed(e)) => RunStage::Aborted(e),
        (RunStage::FetchMetadata, RunEvent::MetadataFetched(n)) => RunStage::CreateDirectory(n),
        (RunStage::CreateDirectory(n), RunEvent::DirectoryCreated) => RunStage::Download(n),
        (RunStage::Download(_), RunEvent::BatchFinished) => RunStage::Finished,
        _ => stage,
    }
}

/// The stages of one run: metadata, then the directory, then the downloads.
pub struct Run {
    /// What is to be done next.
    pub stage: RunStage,
}

impl Run {
    /// A run that starts by requesting the metadata.
    pub fn new() -> (r: Run)
        ensures
            r.stage == RunStage::FetchMetadata,
    {
        Run { stage: RunStage::FetchMetadata }
    }

    /// Takes in what came of the current stage and moves to the next one.
    pub fn advance(&mut self, event: RunEvent) -> (r: RunStage)
        ensures
            final(self).stage == next_stage(old(self).stage, event),
            r == final(self).stage,
    {
        let next = match (self.stage, event) {
            (RunStage::Finished, _) => RunStage::Finished,
            (RunStage::Aborted(e), _) => RunStage::Aborted(e),
            (_, RunEvent::Failed(e)) => RunStage::Aborted(e),
            (RunStage::FetchMetadata, RunEvent::MetadataFetched(n)) => RunStage::CreateDirectory(n),
            (RunStage::CreateDirectory(n), RunEvent::DirectoryCreated) => RunStage::Download(n),
            (RunStage::Download(_), RunEvent::BatchFinished) => RunStage::Finished,
            _ => self.stage,
        };
        self.stage = next;
        next
    }
}

/// A failed metadata request ends the run at once: no directory is created
/// and nothing is downloaded. The directory is created only for metadata
/// that arrived, and for as many items as it lists.
pub proof fn lemma_metadata_failure_aborts(e: RunError, event: RunEvent)
    ensures
        next_stage(RunStage::FetchMetadata, RunEvent::Failed(e)) == RunStage::Aborted(e),
        next_stage(RunStage::Aborted(e), event) == RunStage::Aborted(e),
        next_stage(RunStage::FetchMetadata, event) matches RunStage::CreateDirectory(n) ==> event
            == RunEvent::MetadataFetched(n),
{
}

} // verus!
