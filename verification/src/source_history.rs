//! Bounded, read-only replay of a transcript for making encrypted checkpoints again.
//!
//! A transcript is a line of segments, oldest first: a thread that was forked continues the
//! segments of its parent, each cut off where the fork was made. The segments are read from the
//! newest to the oldest, and each from its end to its start. A source that is too large, or that
//! holds a line which cannot be read, is refused: history is never lost silently.
use crate::items::RolloutItem;
use vstd::prelude::*;

verus! {

/// How many bytes the segments may hold together.
pub const MAX_SOURCE_BYTES: u64 = 134_217_728;

/// How many items may be read.
pub const MAX_SOURCE_ITEMS: usize = 100_000;

/// How a thread keeps its history.
#[derive(Debug, Clone, Copy, PartialEq, Eq)]
pub enum HistoryMode {
    /// In one piece, which is loaded whole.
    Legacy,
    /// In segments.
    Paginated,
}

/// A line of a segment.
#[derive(Debug, PartialEq, Eq)]
pub enum ScanOutcome {
    Parsed(RolloutItem),
    /// The line could not be read, with the error.
    Rejected(String),
}

/// Why the source of a checkpoint cannot be read.
#[derive(Debug, PartialEq, Eq)]
pub enum SourceError {
    /// There is no segment.
    NoSource,
    /// The metadata of the thread could not be read, with the error.
    MetadataUnreadable(String),
    /// The reader did not come to an end, with the error.
    ReaderFailed(String),
    /// The segments hold too many bytes.
    ByteLimit,
    /// There are too many items.
    ItemLimit,
    /// A segment or a line of it could not be read, with the error.
    Unreadable(String),
}

/// An error of the store that keeps threads.
#[derive(Debug, PartialEq, Eq)]
pub enum ThreadStoreError {
    Internal { message: String },
    /// Any other error, with its text.
    Other(String),
}

/// The error in words.
pub open spec fn source_message(error: SourceError) -> Seq<char> {
    match error {
        SourceError::NoSource => "checkpoint recovery has no source rollout"@,
        SourceError::MetadataUnreadable(error) =>
            "cannot read checkpoint recovery metadata: "@ + error@,
        SourceError::ReaderFailed(error) => "checkpoint source reader failed: "@ + error@,
        SourceError::ByteLimit =>
            "cannot read checkpoint source history: checkpoint source history exceeds the byte limit"@,
        SourceError::ItemLimit =>
            "cannot read checkpoint source history: checkpoint source history exceeds the item limit"@,
        SourceError::Unreadable(error) => "cannot read checkpoint source history: "@ + error@,
    }
}

impl SourceError {
    /// The error that the store reports.
    pub fn into_error(self) -> (error: ThreadStoreError)
        ensures
            error matches ThreadStoreError::Internal { message } && message@ == source_message(self),
    {
        let message: String = match self {
            SourceError::NoSource => "checkpoint recovery has no source rollout".to_owned(),
            SourceError::MetadataUnreadable(error) => {
                let mut message = "cannot read checkpoint recovery metadata: ".to_owned();
                message.append(error.as_str());
                message
            },
            SourceError::ReaderFailed(error) => {
                let mut message = "checkpoint source reader failed: ".to_owned();
                message.append(error.as_str());
                message
            },
            SourceError::ByteLimit =>
                "cannot read checkpoint source history: checkpoint source history exceeds the byte limit".to_owned(),
            SourceError::ItemLimit =>
                "cannot read checkpoint source history: checkpoint source history exceeds the item limit".to_owned(),
            SourceError::Unreadable(error) => {
                let mut message = "cannot read checkpoint source history: ".to_owned();
                message.append(error.as_str());
                message
            },
        };
        ThreadStoreError::Internal { message }
    }
}

/// Whether the history is loaded whole, without reading segments.
pub fn is_loaded_whole(mode: HistoryMode) -> (result: bool)
    ensures
        result == (mode is Legacy),
{
    match mode {
        HistoryMode::Legacy => true,
        HistoryMode::Paginated => false,
    }
}

/// Which of the segments holds the metadata of the thread: the newest.
pub fn metadata_segment(segments: usize) -> (result: Result<usize, SourceError>)
    ensures
        segments == 0 ==> result == Err::<usize, SourceError>(SourceError::NoSource),
        segments > 0 ==> result == Ok::<usize, SourceError>((segments - 1) as usize),
{
    if segments == 0 {
        Err(SourceError::NoSource)
    } else {
        Ok(segments - 1)
    }
}

/// How far a source was read.
pub struct SourceView {
    /// How many segments are left; the newest of them comes next.
    pub remaining: nat,
    /// How many bytes the opened segments hold.
    pub bytes: u64,
    /// The items that were read, the newest first.
    pub newest_first: Seq<RolloutItem>,
}

/// Whether a segment has more lines to read.
#[derive(Debug, Clone, Copy, PartialEq, Eq)]
pub enum Scan {
    /// The line was taken; the one before it comes next.
    More,
    /// The segment says nothing more of its own.
    SegmentDone,
}

/// The sum, kept to the range of a `u64`.
pub open spec fn added(bytes: u64, more: u64) -> u64 {
    if bytes + more > u64::MAX {
        u64::MAX
    } else {
        (bytes + more) as u64
    }
}

/// The state once a segment of `end` bytes was opened.
pub open spec fn segment_opened(state: SourceView, end: u64) -> SourceView {
    SourceView { bytes: added(state.bytes, end), ..state }
}

/// What comes of a line. The metadata that starts a segment ends its reading.
pub open spec fn line_result(state: SourceView, line: ScanOutcome) -> Result<Scan, SourceError> {
    match line {
        ScanOutcome::Rejected(error) => Err(SourceError::Unreadable(error)),
        ScanOutcome::Parsed(RolloutItem::SessionMeta(_)) => Ok(Scan::SegmentDone),
        ScanOutcome::Parsed(_) => if state.newest_first.len() >= MAX_SOURCE_ITEMS {
            Err(SourceError::ItemLimit)
        } else {
            Ok(Scan::More)
        },
    }
}

/// The state once a line was read.
pub open spec fn line_read(state: SourceView, line: ScanOutcome) -> SourceView {
    match (line, line_result(state, line)) {
        (ScanOutcome::Parsed(item), Ok(Scan::More)) => SourceView {
            newest_first: state.newest_first.push(item),
            ..state
        },
        _ => state,
    }
}

/// Reads the segments of a transcript.
#[derive(Debug)]
pub struct SourceReader {
    remaining: usize,
    bytes: u64,
    newest_first: Vec<RolloutItem>,
}

impl View for SourceReader {
    type V = SourceView;

    closed spec fn view(&self) -> SourceView {
        SourceView {
            remaining: self.remaining as nat,
            bytes: self.bytes,
            newest_first: self.newest_first@,
        }
    }
}

impl SourceReader {
    /// A reader of so many segments.
    pub fn new(segments: usize) -> (reader: SourceReader)
        ensures
            reader@ == (SourceView { remaining: segments as nat, bytes: 0, newest_first: Seq::empty() }),
    {
        SourceReader { remaining: segments, bytes: 0, newest_first: Vec::new() }
    }

    /// The segment that comes next, counted from the oldest.
    pub fn next_segment(&mut self) -> (segment: Option<usize>)
        ensures
            match segment {
                Some(segment) => {
                    &&& old(self)@.remaining > 0
                    &&& segment == old(self)@.remaining - 1
                    &&& final(self)@ == (SourceView { remaining: segment as nat, ..old(self)@ })
                },
                None => old(self)@.remaining == 0 && final(self)@ == old(self)@,
            },
    {
        if self.remaining == 0 {
            return None;
        }
        self.remaining = self.remaining - 1;
        Some(self.remaining)
    }

    /// Notes that the segment which comes next ends at `end`.
    pub fn open_segment(&mut self, end: u64) -> (result: Result<(), SourceError>)
        ensures
            final(self)@ == segment_opened(old(self)@, end),
            result == (if added(old(self)@.bytes, end) > MAX_SOURCE_BYTES {
                Err::<(), SourceError>(SourceError::ByteLimit)
            } else {
                Ok(())
            }),
    {
        self.bytes = self.bytes.saturating_add(end);
        if self.bytes > MAX_SOURCE_BYTES {
            Err(SourceError::ByteLimit)
        } else {
            Ok(())
        }
    }

    /// Takes a line of the segment.
    pub fn read_line(&mut self, line: ScanOutcome) -> (result: Result<Scan, SourceError>)
        ensures
            result == line_result(old(self)@, line),
            final(self)@ == line_read(old(self)@, line),
    {
        match line {
            ScanOutcome::Rejected(error) => Err(SourceError::Unreadable(error)),
            ScanOutcome::Parsed(RolloutItem::SessionMeta(_)) => Ok(Scan::SegmentDone),
            ScanOutcome::Parsed(item) => {
                if self.newest_first.len() >= MAX_SOURCE_ITEMS {
                    return Err(SourceError::ItemLimit);
                }
                self.newest_first.push(item);
                Ok(Scan::More)
            },
        }
    }

    /// The history that was read, the oldest item first, after the metadata of the thread.
    pub fn finish(self, session_meta: String) -> (items: Vec<RolloutItem>)
        ensures
            items@ == seq![RolloutItem::SessionMeta(session_meta)] + self@.newest_first.reverse(),
    {
        let ghost read = self.newest_first@;
        let mut rest = self.newest_first;
        let mut items: Vec<RolloutItem> = Vec::new();
        items.push(RolloutItem::SessionMeta(session_meta));
        while rest.len() > 0
            invariant
                rest@.len() <= read.len(),
                rest@ == read.take(rest@.len() as int),
                items@ == seq![RolloutItem::SessionMeta(session_meta)] + read.skip(
                    rest@.len() as int,
                ).reverse(),
            decreases rest.len(),
        {
            let ghost n = rest@.len();
            let ghost before = items@;
            if let Some(item) = rest.pop() {
                items.push(item);
                assert(rest@ =~= read.take(n - 1));
                assert(item == read[n - 1]);
                assert(items@ =~= seq![RolloutItem::SessionMeta(session_meta)] + read.skip(
                    n - 1,
                ).reverse());
            }
        }
        assert(read.skip(0) =~= read);
        items
    }
}

} // verus!
