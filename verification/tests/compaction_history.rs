use region_recovery::items::RolloutItem;
use region_recovery::source_history::{
    is_loaded_whole, metadata_segment, HistoryMode, Scan, ScanOutcome, SourceError, SourceReader,
    ThreadStoreError, MAX_SOURCE_BYTES, MAX_SOURCE_ITEMS,
};

fn item(text: &str) -> RolloutItem {
    RolloutItem::Other(text.to_string())
}

fn meta(text: &str) -> RolloutItem {
    RolloutItem::SessionMeta(text.to_string())
}

fn line(text: &str) -> ScanOutcome {
    ScanOutcome::Parsed(item(text))
}

/// Reads segments, given from the oldest to the newest, each with its end and its lines from the
/// newest to the oldest.
fn read(segments: Vec<(u64, Vec<ScanOutcome>)>) -> Result<Vec<RolloutItem>, SourceError> {
    metadata_segment(segments.len())?;
    let mut reader = SourceReader::new(segments.len());
    let mut segments: Vec<Option<(u64, Vec<ScanOutcome>)>> =
        segments.into_iter().map(Some).collect();
    while let Some(segment) = reader.next_segment() {
        let (end, lines) = match segments[segment].take() {
            Some(segment) => segment,
            None => panic!("segment read twice"),
        };
        reader.open_segment(end)?;
        for line in lines {
            if reader.read_line(line)? == Scan::SegmentDone {
                break;
            }
        }
    }
    Ok(reader.finish("thread".to_string()))
}

#[test]
fn refuses_oversized_or_corrupt_source_instead_of_silently_losing_history() {
    let oversized = vec![(MAX_SOURCE_BYTES + 1, vec![ScanOutcome::Parsed(meta("thread"))])];
    let corrupt = vec![(
        100,
        vec![
            ScanOutcome::Rejected("expected ident at line 1 column 2".to_string()),
            ScanOutcome::Parsed(meta("thread")),
        ],
    )];
    for (source, expected) in [
        (oversized, "byte limit"),
        (corrupt, "cannot read checkpoint source history"),
    ] {
        let error = match read(source) {
            Ok(_) => panic!("unsafe recovery source must fail"),
            Err(error) => error.into_error(),
        };
        match error {
            ThreadStoreError::Internal { message } => {
                assert!(message.contains(expected), "{}", message);
            }
            other => panic!("unexpected error: {:?}", other),
        }
    }
}

#[test]
fn segments_contribute_their_own_items_in_the_order_of_writing() {
    let history = read(vec![
        (10, vec![line("b"), line("a"), ScanOutcome::Parsed(meta("parent")), line("lost")]),
        (10, vec![]),
        (10, vec![line("d"), line("c"), ScanOutcome::Parsed(meta("thread"))]),
    ]);
    assert_eq!(
        history,
        Ok(vec![meta("thread"), item("a"), item("b"), item("c"), item("d")]),
    );
}

#[test]
fn lines_before_the_metadata_are_not_read() {
    let history = read(vec![(
        10,
        vec![
            line("a"),
            ScanOutcome::Parsed(meta("thread")),
            ScanOutcome::Rejected("unread".to_string()),
        ],
    )]);
    assert_eq!(history, Ok(vec![meta("thread"), item("a")]));
}

#[test]
fn segments_share_the_byte_limit() {
    assert!(read(vec![(MAX_SOURCE_BYTES, vec![])]).is_ok());
    assert!(read(vec![(MAX_SOURCE_BYTES - 1, vec![]), (1, vec![])]).is_ok());
    assert_eq!(
        read(vec![(MAX_SOURCE_BYTES, vec![]), (1, vec![])]),
        Err(SourceError::ByteLimit),
    );
    assert_eq!(read(vec![(u64::MAX, vec![]), (1, vec![])]), Err(SourceError::ByteLimit));
}

#[test]
fn segments_share_the_item_limit() {
    let lines = |n: usize| (0..n).map(|i| line(&i.to_string())).collect::<Vec<_>>();
    assert_eq!(
        read(vec![(1, lines(MAX_SOURCE_ITEMS))]).map(|items| items.len()),
        Ok(MAX_SOURCE_ITEMS + 1),
    );
    assert_eq!(
        read(vec![(1, lines(1)), (1, lines(MAX_SOURCE_ITEMS))]),
        Err(SourceError::ItemLimit),
    );
    let mut ended = lines(MAX_SOURCE_ITEMS);
    ended.push(ScanOutcome::Parsed(meta("thread")));
    assert!(read(vec![(1, ended)]).is_ok());
}

#[test]
fn the_newest_segment_holds_the_metadata() {
    assert_eq!(metadata_segment(3), Ok(2));
    assert_eq!(metadata_segment(0), Err(SourceError::NoSource));
    assert!(is_loaded_whole(HistoryMode::Legacy));
    assert!(!is_loaded_whole(HistoryMode::Paginated));
}

#[test]
fn source_errors_are_told_in_words() {
    for (error, expected) in [
        (SourceError::NoSource, "checkpoint recovery has no source rollout"),
        (
            SourceError::MetadataUnreadable("gone".to_string()),
            "cannot read checkpoint recovery metadata: gone",
        ),
        (
            SourceError::ReaderFailed("panic".to_string()),
            "checkpoint source reader failed: panic",
        ),
        (
            SourceError::ByteLimit,
            "cannot read checkpoint source history: checkpoint source history exceeds the byte limit",
        ),
        (
            SourceError::ItemLimit,
            "cannot read checkpoint source history: checkpoint source history exceeds the item limit",
        ),
        (
            SourceError::Unreadable("bad line".to_string()),
            "cannot read checkpoint source history: bad line",
        ),
    ] {
        assert_eq!(
            error.into_error(),
            ThreadStoreError::Internal { message: expected.to_string() },
        );
    }
}
