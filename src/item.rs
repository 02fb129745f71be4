use vstd::prelude::*;

verus! {

/// How one item's download ended.
#[derive(Debug, Clone, Copy, PartialEq, Eq, Structural)]
pub enum ItemOutcome {
    /// The file on disk already had the expected size.
    Skipped,
    /// The file was emptied and written again from the remote bytes.
    Downloaded,
    /// A step failed; the error stays with this item.
    Failed,
}

/// What an item's download is to do next.
#[derive(Debug, Clone, Copy, PartialEq, Eq, Structural)]
pub enum ItemStep {
    /// Open or create the destination file, without truncating, and report
    /// its length.
    Open,
    /// Truncate the destination file to zero length.
    Truncate,
    /// Request the item's bytes from its source URL.
    Fetch,
    /// Copy the fetched bytes into the destination file until exhausted.
    Copy,
    /// Nothing more: the item ended this way.
    Done(ItemOutcome),
}

/// What came of the step that was last performed.
#[derive(Debug, Clone, Copy, PartialEq, Eq, Structural)]
pub enum ItemEvent {
    /// The destination file is open and this long.
    Opened(u64),
    /// The destination file is now empty.
    Truncated,
    /// The byte stream of the item is open.
    Fetched,
    /// All bytes of the stream were written.
    Copied,
    /// The step failed.
    Error,
}

/// Whether a file of length `on_disk` must be downloaded again for an item
/// whose metadata reports `expected` bytes.
pub open spec fn needs_download(expected: u64, on_disk: u64) -> bool {
    on_disk != expected
}

/// The step that follows `step` when `event` comes of it. An event that does
/// not answer the step leaves it as it is; a finished item stays finished.
pub open spec fn next_step(expected: u64, step: ItemStep, event: ItemEvent) -> ItemStep {
    match (step, event) {
        (ItemStep::Done(o), _) => ItemStep::Done(o),
        (_, ItemEvent::Error) => ItemStep::Done(ItemOutcome::Failed),
        (ItemStep::Open, ItemEvent::Opened(len)) => if needs_download(expected, len) {
            ItemStep::Truncate
        } else {
            ItemStep::Done(ItemOutcome::Skipped)
        },
        (ItemStep::Truncate, ItemEvent::Truncated) => ItemStep::Fetch,
        (ItemStep::Fetch, ItemEvent::Fetched) => ItemStep::Copy,
        (ItemStep::Copy, ItemEvent::Copied) => ItemStep::Done(ItemOutcome::Downloaded),
        _ => step,
    }
}

/// Decides whether an existing file is kept: true when its length equals the
/// size that the metadata reports.
pub fn skip_existing(expected: u64, on_disk: u64) -> (r: bool)
    ensures
        r == !needs_download(expected, on_disk),
{
    on_disk == expected
}

/// The download of one media item, as a sequence of steps that the caller
/// performs and whose results it reports back.
pub struct ItemDownload {
    /// Byte size that the metadata reports for the item.
    pub expected: u64,
    /// What is to be done next.
    pub step: ItemStep,
}

impl ItemDownload {
    /// A download that starts by opening the destination file.
    pub fn new(expected: u64) -> (r: ItemDownload)
        ensures
            r.expected == expected,
            r.step == ItemStep::Open,
    {
        ItemDownload { expected, step: ItemStep::Open }
    }

    /// Takes in what came of the current step and moves to the next one.
    pub fn advance(&mut self, event: ItemEvent) -> (r: ItemStep)
        ensures
            final(self).expected == old(self).expected,
            final(self).step == next_step(old(self).expected, old(self).step, event),
            r == final(self).step,
    {
        let next = match (self.step, event) {
            (ItemStep::Done(o), _) => ItemStep::Done(o),
            (_, ItemEvent::Error) => ItemStep::Done(ItemOutcome::Failed),
            (ItemStep::Open, ItemEvent::Opened(len)) => if skip_existing(self.expected, len) {
                ItemStep::Done(ItemOutcome::Skipped)
            } else {
                ItemStep::Truncate
            },
            (ItemStep::Truncate, ItemEvent::Truncated) => ItemStep::Fetch,
            (ItemStep::Fetch, ItemEvent::Fetched) => ItemStep::Copy,
            (ItemStep::Copy, ItemEvent::Copied) => ItemStep::Done(ItemOutcome::Downloaded),
            _ => self.step,
        };
        self.step = next;
        next
    }

    /// Whether the item's download has ended.
    pub fn is_done(&self) -> (r: bool)
        ensures
            r == (self.step is Done),
    {
        matches!(self.step, ItemStep::Done(_))
    }

    /// How the item's download ended, once it has.
    pub fn outcome(&self) -> (r: Option<ItemOutcome>)
        ensures
            r == (match self.step {
                ItemStep::Done(o) => Some(o),
                _ => None,
            }),
    {
        match self.step {
            ItemStep::Done(o) => Some(o),
            _ => None,
        }
    }
}

/// Running the downloads again over files that already have their reported
/// sizes keeps every file as it is: each item's download ends at once, and no
/// item's bytes are requested.
pub proof fn lemma_rerun_requests_nothing(sizes: Seq<u64>, on_disk: Seq<u64>)
    requires
        on_disk == sizes,
    ensures
        forall|i: int|
            0 <= i < sizes.len() ==> #[trigger] next_step(
                sizes[i],
                ItemStep::Open,
                ItemEvent::Opened(on_disk[i]),
            ) == ItemStep::Done(ItemOutcome::Skipped),
{
}

/// A file whose length differs from the reported size, an empty one
/// included, is first truncated, and only then are the item's bytes
/// requested and written from the start.
pub proof fn lemma_mismatched_file_is_rewritten(expected: u64, on_disk: u64)
    requires
        on_disk != expected,
    ensures
        next_step(expected, ItemStep::Open, ItemEvent::Opened(on_disk)) == ItemStep::Truncate,
        next_step(expected, ItemStep::Truncate, ItemEvent::Truncated) == ItemStep::Fetch,
        next_step(expected, ItemStep::Fetch, ItemEvent::Fetched) == ItemStep::Copy,
        next_step(expected, ItemStep::Copy, ItemEvent::Copied) == ItemStep::Done(
            ItemOutcome::Downloaded,
        ),
{
}

/// A failure in any step ends that item alone, as failed.
pub proof fn lemma_error_ends_item(expected: u64, step: ItemStep)
    requires
        !(step is Done),
    ensures
        next_step(expected, step, ItemEvent::Error) == ItemStep::Done(ItemOutcome::Failed),
{
}

} // verus!
