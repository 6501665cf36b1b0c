//! What the reading of a transcript yields as a whole.
use crate::items::{CompactedItem, RolloutItem};
use crate::source_history::{
    added, line_read, line_result, segment_opened, source_message, Scan, ScanOutcome, SourceError,
    SourceView, MAX_SOURCE_BYTES, MAX_SOURCE_ITEMS,
};
use vstd::prelude::*;

verus! {

/// A segment: where it ends, and its lines from the newest to the oldest.
pub struct SegmentView {
    pub end: u64,
    pub lines: Seq<ScanOutcome>,
}

/// The reading of lines, one after the other, until the segment is done.
pub open spec fn lines_read(state: SourceView, lines: Seq<ScanOutcome>) -> Result<
    SourceView,
    SourceError,
>
    decreases lines.len(),
{
    if lines.len() == 0 {
        Ok(state)
    } else {
        match line_result(state, lines.first()) {
            Err(error) => Err(error),
            Ok(Scan::SegmentDone) => Ok(line_read(state, lines.first())),
            Ok(Scan::More) => lines_read(line_read(state, lines.first()), lines.drop_first()),
        }
    }
}

/// The reading of one segment.
pub open spec fn segment_read(state: SourceView, segment: SegmentView) -> Result<
    SourceView,
    SourceError,
> {
    if added(state.bytes, segment.end) > MAX_SOURCE_BYTES {
        Err(SourceError::ByteLimit)
    } else {
        lines_read(segment_opened(state, segment.end), segment.lines)
    }
}

/// The reading of segments, given from the oldest to the newest: the newest is read first.
pub open spec fn segments_read(state: SourceView, segments: Seq<SegmentView>) -> Result<
    SourceView,
    SourceError,
>
    decreases segments.len(),
{
    if segments.len() == 0 {
        Ok(state)
    } else {
        let taken = SourceView { remaining: (segments.len() - 1) as nat, ..state };
        match segment_read(taken, segments.last()) {
            Err(error) => Err(error),
            Ok(next) => segments_read(next, segments.drop_last()),
        }
    }
}

/// The segment's own items, the oldest first: what follows the last metadata in it.
pub open spec fn own_items(lines: Seq<ScanOutcome>) -> Seq<RolloutItem>
    decreases lines.len(),
{
    if lines.len() == 0 {
        Seq::empty()
    } else {
        match lines.first() {
            ScanOutcome::Parsed(RolloutItem::SessionMeta(_)) => Seq::empty(),
            ScanOutcome::Parsed(item) => own_items(lines.drop_first()).push(item),
            ScanOutcome::Rejected(_) => Seq::empty(),
        }
    }
}

/// Every line that follows the last metadata can be read.
pub open spec fn readable(lines: Seq<ScanOutcome>) -> bool
    decreases lines.len(),
{
    if lines.len() == 0 {
        true
    } else {
        match lines.first() {
            ScanOutcome::Parsed(RolloutItem::SessionMeta(_)) => true,
            ScanOutcome::Parsed(_) => readable(lines.drop_first()),
            ScanOutcome::Rejected(_) => false,
        }
    }
}

/// The own items of all segments, the oldest first.
pub open spec fn own_history(segments: Seq<SegmentView>) -> Seq<RolloutItem>
    decreases segments.len(),
{
    if segments.len() == 0 {
        Seq::empty()
    } else {
        own_history(segments.drop_last()) + own_items(segments.last().lines)
    }
}

/// How many bytes the segments hold together.
pub open spec fn total_bytes(segments: Seq<SegmentView>) -> nat
    decreases segments.len(),
{
    if segments.len() == 0 {
        0
    } else {
        total_bytes(segments.drop_last()) + segments.last().end as nat
    }
}

/// Every segment can be read.
pub open spec fn all_readable(segments: Seq<SegmentView>) -> bool {
    forall|i: int| 0 <= i < segments.len() ==> readable((#[trigger] segments[i]).lines)
}

proof fn lemma_lines_read(state: SourceView, lines: Seq<ScanOutcome>)
    requires
        state.newest_first.len() <= MAX_SOURCE_ITEMS,
    ensures
        lines_read(state, lines) is Ok <==> readable(lines) && state.newest_first.len() + own_items(
            lines,
        ).len() <= MAX_SOURCE_ITEMS,
        lines_read(state, lines) matches Ok(next) ==> next == (SourceView {
            newest_first: state.newest_first + own_items(lines).reverse(),
            ..state
        }),
    decreases lines.len(),
{
    if lines.len() == 0 {
        assert(state.newest_first + own_items(lines).reverse() =~= state.newest_first);
    } else {
        match lines.first() {
            ScanOutcome::Parsed(RolloutItem::SessionMeta(_)) => {
                assert(state.newest_first + own_items(lines).reverse() =~= state.newest_first);
            },
            ScanOutcome::Parsed(item) => {
                if state.newest_first.len() < MAX_SOURCE_ITEMS {
                    let next = line_read(state, lines.first());
                    lemma_lines_read(next, lines.drop_first());
                    assert(next.newest_first + own_items(lines.drop_first()).reverse()
                        =~= state.newest_first + own_items(lines).reverse());
                }
            },
            ScanOutcome::Rejected(_) => {},
        }
    }
}

proof fn lemma_segments_read(state: SourceView, segments: Seq<SegmentView>)
    requires
        state.newest_first.len() <= MAX_SOURCE_ITEMS,
        state.bytes <= MAX_SOURCE_BYTES,
        state.remaining == segments.len(),
    ensures
        segments_read(state, segments) is Ok <==> all_readable(segments) && state.bytes
            + total_bytes(segments) <= MAX_SOURCE_BYTES && state.newest_first.len() + own_history(
            segments,
        ).len() <= MAX_SOURCE_ITEMS,
        segments_read(state, segments) matches Ok(next) ==> next == (SourceView {
            remaining: 0,
            bytes: (state.bytes + total_bytes(segments)) as u64,
            newest_first: state.newest_first + own_history(segments).reverse(),
        }),
    decreases segments.len(),
{
    if segments.len() == 0 {
        assert(state.newest_first + own_history(segments).reverse() =~= state.newest_first);
    } else {
        let earlier = segments.drop_last();
        let segment = segments.last();
        let taken = SourceView { remaining: (segments.len() - 1) as nat, ..state };
        assert(all_readable(segments) <==> all_readable(earlier) && readable(segment.lines)) by {
            assert(segments[segments.len() - 1] == segment);
            assert forall|i: int| 0 <= i < segments.len() && all_readable(earlier) && readable(
                segment.lines,
            ) implies readable((#[trigger] segments[i]).lines) by {
                if i < earlier.len() {
                    assert(earlier[i] == segments[i]);
                }
            }
            assert forall|i: int| 0 <= i < earlier.len() && all_readable(segments) implies readable(
                (#[trigger] earlier[i]).lines,
            ) by {
                assert(earlier[i] == segments[i]);
            }
        }
        if state.bytes + segment.end <= MAX_SOURCE_BYTES {
            lemma_lines_read(segment_opened(taken, segment.end), segment.lines);
            if let Ok(next) = segment_read(taken, segment) {
                lemma_segments_read(next, earlier);
                assert(next.newest_first + own_history(earlier).reverse() =~= state.newest_first
                    + own_history(segments).reverse());
            }
        }
    }
}

/// A source is read to its end exactly where it keeps to both limits and every line can be read;
/// otherwise it is refused. What is read is the own items of every segment, all of them, in the
/// order in which they were written.
pub proof fn law_source_is_read_whole_or_refused(segments: Seq<SegmentView>)
    ensures
        ({
            let start = SourceView {
                remaining: segments.len(),
                bytes: 0,
                newest_first: Seq::empty(),
            };
            &&& segments_read(start, segments) is Ok <==> all_readable(segments) && total_bytes(
                segments,
            ) <= MAX_SOURCE_BYTES && own_history(segments).len() <= MAX_SOURCE_ITEMS
            &&& segments_read(start, segments) matches Ok(end) ==> end.newest_first.reverse()
                == own_history(segments)
        }),
{
    let start = SourceView { remaining: segments.len(), bytes: 0, newest_first: Seq::empty() };
    lemma_segments_read(start, segments);
    assert((Seq::<RolloutItem>::empty() + own_history(segments).reverse()).reverse()
        =~= own_history(segments));
}

/// The own items of a segment are the items of its lines up to the first metadata, in the order
/// in which they were written.
pub proof fn law_own_items_are_the_lines_after_the_metadata(lines: Seq<ScanOutcome>, n: int)
    requires
        0 <= n <= lines.len(),
        forall|i: int|
            0 <= i < n ==> (#[trigger] lines[i] matches ScanOutcome::Parsed(item) && !(
            item is SessionMeta)),
        n < lines.len() ==> (lines[n] matches ScanOutcome::Parsed(item) && item is SessionMeta),
    ensures
        readable(lines),
        own_items(lines).len() == n,
        forall|i: int|
            0 <= i < n ==> #[trigger] lines[i] == ScanOutcome::Parsed(own_items(lines)[n - 1 - i]),
    decreases lines.len(),
{
    if n > 0 {
        let older = lines.drop_first();
        assert forall|i: int| 0 <= i < n - 1 implies (
        #[trigger] older[i] matches ScanOutcome::Parsed(item) && !(item is SessionMeta)) by {
            assert(older[i] == lines[i + 1]);
        }
        law_own_items_are_the_lines_after_the_metadata(older, n - 1);
        assert(lines.first() == lines[0]);
        assert forall|i: int| 0 <= i < n implies #[trigger] lines[i] == ScanOutcome::Parsed(
            own_items(lines)[n - 1 - i],
        ) by {
            if i > 0 {
                assert(older[i - 1] == lines[i]);
            }
        }
    }
}

/// The limits by their numbers.
pub proof fn law_source_limits_by_their_numbers()
    ensures
        MAX_SOURCE_BYTES == 128 * 1024 * 1024,
        MAX_SOURCE_ITEMS == 100_000,
{
}

/// The bytes of the segments are added up; a sum that is too large for a `u64` stays the largest.
pub proof fn law_bytes_are_added_up(state: SourceView, end: u64)
    ensures
        state.bytes + end <= 0xffff_ffff_ffff_ffff ==> added(state.bytes, end) == state.bytes + end,
        state.bytes + end > 0xffff_ffff_ffff_ffff ==> added(state.bytes, end)
            == 0xffff_ffff_ffff_ffff,
        segment_opened(state, end).bytes == added(state.bytes, end),
        segment_opened(state, end).remaining == state.remaining,
        segment_opened(state, end).newest_first == state.newest_first,
{
}

/// What becomes of a line, by its kind. A line that cannot be read refuses the source, whatever
/// was read before. Metadata ends the segment and is not taken. Any other item is taken, while
/// there are fewer than 100,000; whatever it holds does not count.
pub proof fn law_each_kind_of_line_is_taken_or_refused(
    state: SourceView,
    error: String,
    meta: String,
    compacted: CompactedItem,
    other: String,
)
    ensures
        line_result(state, ScanOutcome::Rejected(error)) == Err::<Scan, SourceError>(
            SourceError::Unreadable(error),
        ),
        line_read(state, ScanOutcome::Rejected(error)) == state,
        line_result(state, ScanOutcome::Parsed(RolloutItem::SessionMeta(meta))) == Ok::<
            Scan,
            SourceError,
        >(Scan::SegmentDone),
        line_read(state, ScanOutcome::Parsed(RolloutItem::SessionMeta(meta))) == state,
        forall|item: RolloutItem|
            item == RolloutItem::Compacted(compacted) || item == RolloutItem::Other(other) ==> {
                &&& state.newest_first.len() < 100_000 ==> #[trigger] line_result(
                    state,
                    ScanOutcome::Parsed(item),
                ) == Ok::<Scan, SourceError>(Scan::More) && line_read(
                    state,
                    ScanOutcome::Parsed(item),
                ) == (SourceView { newest_first: state.newest_first.push(item), ..state })
                &&& state.newest_first.len() >= 100_000 ==> line_result(
                    state,
                    ScanOutcome::Parsed(item),
                ) == Err::<Scan, SourceError>(SourceError::ItemLimit) && line_read(
                    state,
                    ScanOutcome::Parsed(item),
                ) == state
            },
{
}

/// Every error gives its message, word for word.
pub proof fn law_source_errors_word_for_word(error: String)
    ensures
        source_message(SourceError::NoSource) == "checkpoint recovery has no source rollout"@,
        source_message(SourceError::MetadataUnreadable(error))
            == "cannot read checkpoint recovery metadata: "@ + error@,
        source_message(SourceError::ReaderFailed(error)) == "checkpoint source reader failed: "@
            + error@,
        source_message(SourceError::ByteLimit)
            == "cannot read checkpoint source history: checkpoint source history exceeds the byte limit"@,
        source_message(SourceError::ItemLimit)
            == "cannot read checkpoint source history: checkpoint source history exceeds the item limit"@,
        source_message(SourceError::Unreadable(error))
            == "cannot read checkpoint source history: "@ + error@,
{
}

} // verus!
