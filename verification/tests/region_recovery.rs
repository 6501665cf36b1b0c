use region_recovery::items::{CompactedItem, HistoryItem, ResponseItem, RolloutItem};
use region_recovery::reasoning_recovery::{EncodedItem, ReasoningRecovery};
use region_recovery::refusal::Refusal;
use region_recovery::region_recovery::{
    install_outcome, Affected, NextStep, Transcript, Window, MAX_CHECKPOINTS,
};
use region_recovery::replay_budget::{
    check_replay_size, replay_input, replay_limit, ModelWindow, MAX_REPLAY_BYTES, MAX_REPLAY_ITEMS,
};

fn checkpoint(content: &str) -> ResponseItem {
    ResponseItem::Compaction { encrypted_content: content.to_string(), rest: "{}".to_string() }
}

fn message(text: &str) -> ResponseItem {
    ResponseItem::Other { kind: "message".to_string(), rest: text.to_string() }
}

fn reasoning(content: &str) -> ResponseItem {
    ResponseItem::Reasoning {
        encrypted_content: Some(content.to_string()),
        rest: "{}".to_string(),
    }
}

fn noted(item: &ResponseItem) -> HistoryItem {
    HistoryItem { item: item.clone(), annotation: "noted".to_string() }
}

fn said(text: &str) -> RolloutItem {
    RolloutItem::Other(text.to_string())
}

fn compacted(items: &[ResponseItem]) -> RolloutItem {
    RolloutItem::Compacted(CompactedItem {
        replacement_history: Some(items.iter().map(noted).collect()),
        rest: "compacted".to_string(),
    })
}

/// The history that a transcript leaves: what the last compaction put in place, and what was said
/// since.
fn rebuild(source: &[RolloutItem]) -> Vec<HistoryItem> {
    let mut history = Vec::new();
    for item in source {
        match item {
            RolloutItem::Compacted(CompactedItem { replacement_history: Some(items), .. }) => {
                history = items.iter().map(|item| noted(&item.item)).collect();
            }
            RolloutItem::Other(text) => history.push(noted(&message(text))),
            _ => {}
        }
    }
    history
}

fn window() -> ModelWindow {
    ModelWindow {
        max_context_window: Some(100_000),
        context_window: Some(10_000),
        effective_context_window_percent: 95,
    }
}

/// Runs the work to its end. Answers each request with `answer`, and notes what was sent.
fn run(
    history: Vec<ResponseItem>,
    rollout: Vec<RolloutItem>,
    mut answer: impl FnMut(&[ResponseItem]) -> ResponseItem,
    sent: &mut Vec<Vec<ResponseItem>>,
) -> Result<Vec<(ResponseItem, ResponseItem)>, Refusal> {
    let affected = match Affected::begin(true, history) {
        Some(affected) => affected,
        None => return Ok(Vec::new()),
    };
    let mut recovery = affected.open(Transcript::Loaded(rollout))?;
    loop {
        let work = match recovery.next()? {
            NextStep::Install(pairs) => return Ok(pairs),
            NextStep::Rebuild(work) => work,
        };
        assert_eq!(work.source().len(), work.checkpoint_index());
        let history = rebuild(work.source());
        match work.rebuilt(&history)? {
            Window::Ancestor(next) => recovery = next,
            Window::Ready(replay) => {
                let request = replay.prompt(history.into_iter().map(|noted| noted.item).collect());
                let measured = request.input().to_vec();
                let regenerate = request.measured(1_000, Some(1_000), &window())?;
                assert_eq!(regenerate.input(), measured.as_slice());
                let output = answer(regenerate.input());
                sent.push(measured);
                recovery = regenerate.regenerated(output)?;
            }
        }
    }
}

fn numbered(prefix: &str) -> impl FnMut(&[ResponseItem]) -> ResponseItem + '_ {
    let mut n = 0;
    move |_| {
        n += 1;
        checkpoint(&format!("{}-{}", prefix, n))
    }
}

#[test]
fn a_checkpoint_is_made_again_from_its_source_window() {
    let old = checkpoint("old-checkpoint");
    let mut sent = Vec::new();
    let pairs = run(
        vec![old.clone(), message("later")],
        vec![said("task"), said("answer"), compacted(&[old.clone()]), said("later")],
        numbered("east"),
        &mut sent,
    );
    assert_eq!(pairs, Ok(vec![(old, checkpoint("east-1"))]));
    assert_eq!(
        sent,
        vec![vec![message("task"), message("answer"), ResponseItem::CompactionTrigger]],
    );
}

#[test]
fn ancestors_are_made_first_and_stand_in_the_later_windows() {
    let first = checkpoint("first");
    let second = checkpoint("second");
    let mut sent = Vec::new();
    let pairs = run(
        vec![second.clone()],
        vec![
            said("task"),
            compacted(&[first.clone()]),
            said("another task"),
            compacted(&[second.clone()]),
        ],
        numbered("east"),
        &mut sent,
    );
    assert_eq!(pairs, Ok(vec![(second, checkpoint("east-2"))]));
    assert_eq!(
        sent,
        vec![
            vec![message("task"), ResponseItem::CompactionTrigger],
            vec![
                checkpoint("east-1"),
                message("another task"),
                ResponseItem::CompactionTrigger,
            ],
        ],
    );
}

#[test]
fn every_checkpoint_of_the_conversation_is_paired_in_order() {
    let (a, b) = (checkpoint("a"), checkpoint("b"));
    let mut sent = Vec::new();
    let history = vec![a.clone(), message("m"), b.clone(), reasoning("r"), a.clone()];
    let pairs = run(
        history.clone(),
        vec![said("one"), compacted(&[a.clone(), b.clone()])],
        numbered("east"),
        &mut sent,
    );
    let expected = vec![
        (a.clone(), checkpoint("east-1")),
        (b.clone(), checkpoint("east-2")),
        (a.clone(), checkpoint("east-1")),
    ];
    assert_eq!(pairs, Ok(expected.clone()));
    assert_eq!(sent.len(), 2);

    let mut session = ReasoningRecovery::default();
    let accepted = session.install_compactions(
        expected
            .into_iter()
            .map(|(old, new)| (old, EncodedItem { item: new, encoded_len: Some(50) }))
            .collect(),
    );
    assert_eq!(install_outcome(accepted), Ok(true));
    let mut outgoing = history;
    session.prepare(&mut outgoing);
    assert_eq!(
        outgoing,
        vec![
            checkpoint("east-1"),
            message("m"),
            checkpoint("east-2"),
            reasoning("r"),
            checkpoint("east-1"),
        ],
    );
}

#[test]
fn the_last_record_of_a_checkpoint_counts() {
    let old = checkpoint("old");
    let mut sent = Vec::new();
    let pairs = run(
        vec![old.clone()],
        vec![said("one"), compacted(&[old.clone()]), said("two"), said("three")],
        numbered("east"),
        &mut sent,
    );
    assert!(pairs.is_ok());
    assert_eq!(sent[0], vec![message("one"), ResponseItem::CompactionTrigger]);
    let mut sent = Vec::new();
    let no_record = RolloutItem::Compacted(CompactedItem {
        replacement_history: None,
        rest: "legacy".to_string(),
    });
    let pairs = run(
        vec![old.clone()],
        vec![
            said("one"),
            compacted(&[message("summary"), old.clone()]),
            compacted(&[message("other summary")]),
            said("two"),
            compacted(&[old.clone()]),
            no_record,
        ],
        numbered("east"),
        &mut sent,
    );
    assert!(pairs.is_ok());
    assert_eq!(
        sent[0],
        vec![message("other summary"), message("two"), ResponseItem::CompactionTrigger],
    );
}

#[test]
fn nothing_happens_without_a_candidate_or_a_checkpoint() {
    assert!(Affected::begin(false, vec![checkpoint("old")]).is_none());
    assert!(Affected::begin(true, vec![message("m"), reasoning("r")]).is_none());
    assert!(Affected::begin(true, vec![]).is_none());
    assert!(Affected::begin(true, vec![checkpoint("old")]).is_some());
}

#[test]
fn a_transcript_that_cannot_be_had_is_refused() {
    for (transcript, expected) in [
        (Transcript::Unavailable, Refusal::TranscriptUnavailable),
        (
            Transcript::FlushFailed("full".to_string()),
            Refusal::FlushFailed("full".to_string()),
        ),
        (
            Transcript::LoadFailed("gone".to_string()),
            Refusal::LoadFailed("gone".to_string()),
        ),
    ] {
        let affected = Affected::begin(true, vec![checkpoint("old")]);
        let result = affected.map(|affected| affected.open(transcript));
        assert_eq!(result.and_then(Result::err), Some(expected));
    }
}

#[test]
fn missing_sources_are_refused() {
    let old = checkpoint("old");
    let mut sent = Vec::new();
    assert_eq!(
        run(vec![old.clone()], vec![said("one")], numbered("east"), &mut sent),
        Err(Refusal::CheckpointMissing),
    );
    assert_eq!(
        run(vec![old.clone()], vec![compacted(&[old.clone()])], numbered("east"), &mut sent),
        Err(Refusal::WindowMissing),
    );
    assert_eq!(sent.len(), 0);
}

#[test]
fn a_window_that_rests_on_its_own_checkpoint_is_refused() {
    let old = checkpoint("old");
    let mut sent = Vec::new();
    assert_eq!(
        run(
            vec![old.clone()],
            vec![compacted(&[old.clone()]), said("one"), compacted(&[old.clone()])],
            numbered("east"),
            &mut sent,
        ),
        Err(Refusal::WindowIncomplete),
    );
}

#[test]
fn too_many_dependent_checkpoints_are_refused() {
    let chain = |n: usize| {
        let mut rollout = vec![said("start")];
        for i in 0..n {
            rollout.push(compacted(&[checkpoint(&format!("old {}", i))]));
            rollout.push(said("more"));
        }
        rollout
    };
    let history = |n: usize| vec![checkpoint(&format!("old {}", n - 1))];
    let mut sent = Vec::new();
    assert!(run(history(MAX_CHECKPOINTS), chain(MAX_CHECKPOINTS), numbered("e"), &mut sent).is_ok());
    assert_eq!(sent.len(), MAX_CHECKPOINTS);
    sent.clear();
    assert_eq!(
        run(
            history(MAX_CHECKPOINTS + 1),
            chain(MAX_CHECKPOINTS + 1),
            numbered("e"),
            &mut sent,
        ),
        Err(Refusal::TooManyCheckpoints),
    );
    assert_eq!(sent.len(), 0);
    let many = (0..=MAX_CHECKPOINTS).map(|i| checkpoint(&i.to_string())).collect();
    assert_eq!(run(many, vec![], numbered("e"), &mut sent), Err(Refusal::TooManyCheckpoints));
}

#[test]
fn the_answer_must_be_another_checkpoint() {
    let old = checkpoint("old");
    let rollout = || vec![said("one"), compacted(&[checkpoint("old")])];
    let mut sent = Vec::new();
    assert_eq!(
        run(vec![old.clone()], rollout(), |_| message("sorry"), &mut sent),
        Err(Refusal::NotACheckpoint),
    );
    assert_eq!(
        run(vec![old.clone()], rollout(), |_| checkpoint("old"), &mut sent),
        Err(Refusal::SameCheckpoint),
    );
    assert_eq!(install_outcome(false), Err(Refusal::CacheLimit));
}

#[test]
fn windows_with_too_many_items_are_refused() {
    let old = checkpoint("old");
    let rollout = |n: usize| {
        let mut rollout: Vec<RolloutItem> = (0..n).map(|i| said(&i.to_string())).collect();
        rollout.push(compacted(&[checkpoint("old")]));
        rollout
    };
    let mut sent = Vec::new();
    assert!(run(vec![old.clone()], rollout(MAX_REPLAY_ITEMS), numbered("e"), &mut sent).is_ok());
    assert_eq!(
        run(vec![old], rollout(MAX_REPLAY_ITEMS + 1), numbered("e"), &mut sent),
        Err(Refusal::TooManyItems),
    );
}

#[test]
fn reasoning_is_left_out_of_a_replay() {
    assert_eq!(
        replay_input(vec![
            reasoning("a"),
            message("m"),
            ResponseItem::Reasoning { encrypted_content: None, rest: "{}".to_string() },
            checkpoint("c"),
            reasoning("b"),
        ]),
        vec![message("m"), checkpoint("c"), ResponseItem::CompactionTrigger],
    );
    assert_eq!(replay_input(vec![]), vec![ResponseItem::CompactionTrigger]);
}

#[test]
fn replays_are_held_to_the_advertised_capacity() {
    // 95 % of 100000 are 95000, and nine tenths of that are 85500.
    assert_eq!(replay_limit(&window()), Some(95_000));
    assert_eq!(check_replay_size(1, Some(85_500), &window()), Ok(()));
    assert_eq!(
        check_replay_size(1, Some(85_501), &window()),
        Err(Refusal::OverContextBudget),
    );
    let smaller = ModelWindow { max_context_window: None, ..window() };
    assert_eq!(replay_limit(&smaller), Some(9_500));
    assert_eq!(check_replay_size(1, Some(8_550), &smaller), Ok(()));
    assert_eq!(check_replay_size(1, Some(8_551), &smaller), Err(Refusal::OverContextBudget));
    let unknown = ModelWindow { max_context_window: None, context_window: None, ..window() };
    assert_eq!(replay_limit(&unknown), None);
    assert_eq!(check_replay_size(1, Some(0), &unknown), Err(Refusal::OverContextBudget));
    assert_eq!(check_replay_size(1, None, &window()), Err(Refusal::OverContextBudget));
}

#[test]
fn replays_are_held_to_the_byte_limit() {
    assert_eq!(MAX_REPLAY_BYTES, 32 * 1024 * 1024);
    assert_eq!(check_replay_size(MAX_REPLAY_BYTES, Some(1), &window()), Ok(()));
    assert_eq!(
        check_replay_size(MAX_REPLAY_BYTES + 1, None, &window()),
        Err(Refusal::TooManyBytes),
    );
}

#[test]
fn limits_are_computed_as_saturating_integers() {
    for (limit, percent) in [
        (i64::MAX, 95),
        (i64::MIN, 95),
        (-1, 95),
        (-250, 100),
        (i64::MAX, i64::MIN),
        (i64::MIN, i64::MIN),
        (7, 33),
        (0, 100),
        (272_000, 95),
    ] {
        let model = ModelWindow {
            max_context_window: Some(limit),
            context_window: None,
            effective_context_window_percent: percent,
        };
        let usable = limit.saturating_mul(percent) / 100;
        assert_eq!(replay_limit(&model), Some(usable));
        let most = usable.saturating_mul(9) / 10;
        assert_eq!(check_replay_size(0, Some(most), &model), Ok(()));
        assert_eq!(
            check_replay_size(0, most.checked_add(1), &model),
            Err(Refusal::OverContextBudget),
        );
    }
}

#[test]
fn a_second_recovery_sends_the_same_request_and_takes_the_new_answer() {
    let old = checkpoint("old-checkpoint");
    let history = || vec![old.clone(), message("later"), reasoning("kept")];
    let transcript =
        || vec![said("task"), said("answer"), compacted(&[old.clone()]), said("later")];
    let mut first = Vec::new();
    let pairs = run(history(), transcript(), |_| checkpoint("east-checkpoint"), &mut first);
    assert_eq!(pairs, Ok(vec![(old.clone(), checkpoint("east-checkpoint"))]));

    let mut grown = transcript();
    grown.push(said("more"));
    grown.push(compacted(&[checkpoint("east-checkpoint")]));
    let mut second = Vec::new();
    let pairs = run(history(), grown, |_| checkpoint("west-checkpoint"), &mut second);
    assert_eq!(pairs, Ok(vec![(old.clone(), checkpoint("west-checkpoint"))]));
    assert_eq!(second, first);
    assert_eq!(
        second,
        vec![vec![message("task"), message("answer"), ResponseItem::CompactionTrigger]],
    );
}

#[test]
fn a_second_recovery_starts_with_the_same_ancestor() {
    let (oldest, old) = (checkpoint("oldest"), checkpoint("old"));
    let transcript = || {
        vec![
            said("task"),
            compacted(&[oldest.clone()]),
            said("more"),
            compacted(&[message("more"), old.clone()]),
        ]
    };
    let mut first = Vec::new();
    assert!(run(vec![old.clone()], transcript(), numbered("east"), &mut first).is_ok());
    let mut grown = transcript();
    grown.push(compacted(&[checkpoint("east-1")]));
    let mut second = Vec::new();
    let pairs = run(vec![old.clone()], grown, numbered("west"), &mut second);
    assert_eq!(pairs, Ok(vec![(old, checkpoint("west-2"))]));
    assert_eq!(second[0], first[0]);
    assert_eq!(
        second[1],
        vec![checkpoint("west-1"), message("more"), ResponseItem::CompactionTrigger],
    );
}
