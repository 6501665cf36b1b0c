//! What holds of the work on region-bound checkpoints as a whole.
use crate::fingerprint::fingerprint;
use crate::items::{
    bare_items, checkpoint_text, checkpoint_texts, rollout_view, CompactedItem, HistoryItem,
    ResponseItem, RolloutItem, RolloutView,
};
use crate::reasoning_laws::{
    law_installed_replacement_is_sent, law_only_rejected_and_replaced_items_change,
    lemma_with_pairs_last,
};
use crate::reasoning_recovery::{
    installed, installs, prepared, with_pairs, within_limits, EncodedItem, RecoveryView,
};
use crate::region_recovery::{
    first_unregenerated, history_with_output, initial, last_record, records, replacement_pairs,
    still_pending, RegionView, MAX_CHECKPOINTS,
};
use crate::replay_budget::{replayed, MAX_REPLAY_ITEMS};
use vstd::prelude::*;

verus! {

/// Where nothing is pending any more, everything that was pending was made again.
proof fn lemma_nothing_pending(
    pending: Seq<Seq<char>>,
    replacements: Map<Seq<char>, ResponseItem>,
    content: Seq<char>,
)
    requires
        still_pending(pending, replacements).len() == 0,
        pending.contains(content),
    ensures
        replacements.contains_key(content),
    decreases pending.len(),
{
    let j = choose|j: int| 0 <= j < pending.len() && pending[j] == content;
    if j < pending.len() - 1 {
        assert(pending.drop_last()[j] == content);
        lemma_nothing_pending(pending.drop_last(), replacements, content);
    }
}

/// The checkpoints among `items`.
pub open spec fn checkpoints(items: Seq<ResponseItem>) -> Seq<ResponseItem> {
    items.filter(|item: ResponseItem| checkpoint_text(item) is Some)
}

/// The replacements pair every checkpoint that has one.
proof fn lemma_pairs_cover(
    history: Seq<ResponseItem>,
    replacements: Map<Seq<char>, ResponseItem>,
)
    requires
        forall|i: int|
            0 <= i < history.len() ==> (checkpoint_text(#[trigger] history[i]) matches Some(content)
                ==> replacements.contains_key(content)),
    ensures
        replacement_pairs(history, replacements).len() == checkpoints(history).len(),
        forall|i: int|
            0 <= i < checkpoints(history).len() ==> {
                &&& (#[trigger] replacement_pairs(history, replacements)[i]).0 == checkpoints(
                    history,
                )[i]
                &&& checkpoint_text(checkpoints(history)[i]) matches Some(content)
                &&& replacements.contains_key(content)
                &&& replacement_pairs(history, replacements)[i].1 == replacements[content]
            },
    decreases history.len(),
{
    reveal(Seq::filter);
    if history.len() > 0 {
        let earlier = history.drop_last();
        assert forall|i: int| 0 <= i < earlier.len() implies (checkpoint_text(
            #[trigger] earlier[i],
        ) matches Some(content) ==> replacements.contains_key(content)) by {
            assert(earlier[i] == history[i]);
        }
        lemma_pairs_cover(earlier, replacements);
        assert(history[history.len() - 1] == history.last());
        assert forall|i: int| 0 <= i < checkpoints(history).len() implies {
            &&& (#[trigger] replacement_pairs(history, replacements)[i]).0 == checkpoints(
                history,
            )[i]
            &&& checkpoint_text(checkpoints(history)[i]) matches Some(content)
            &&& replacements.contains_key(content)
            &&& replacement_pairs(history, replacements)[i].1 == replacements[content]
        } by {
            if i < checkpoints(earlier).len() {
                assert(replacement_pairs(history, replacements)[i] == replacement_pairs(
                    earlier,
                    replacements,
                )[i]);
                assert(checkpoints(history)[i] == checkpoints(earlier)[i]);
            }
        }
    }
}

/// The new checkpoints are handed out only once there is one for every checkpoint of the
/// conversation. The pairs hold exactly the conversation's checkpoints, in their order, each with
/// a checkpoint of other content.
pub proof fn law_no_checkpoint_is_omitted(state: RegionView)
    requires
        state.valid(),
        still_pending(state.pending, state.replacements).len() == 0,
    ensures
        ({
            let pairs = replacement_pairs(state.history, state.replacements);
            &&& pairs.len() == checkpoints(state.history).len()
            &&& forall|i: int|
                0 <= i < pairs.len() ==> {
                    &&& (#[trigger] pairs[i]).0 == checkpoints(state.history)[i]
                    &&& checkpoint_text(pairs[i].0) matches Some(old_content)
                    &&& checkpoint_text(pairs[i].1) matches Some(new_content)
                    &&& new_content != old_content
                    &&& state.regenerated.contains(new_content)
                    &&& state.replacements.contains_key(old_content)
                    &&& pairs[i].1 == state.replacements[old_content]
                }
        }),
{
    assert forall|i: int| 0 <= i < state.history.len() implies (checkpoint_text(
        #[trigger] state.history[i],
    ) matches Some(content) ==> state.replacements.contains_key(content)) by {
        if let Some(content) = checkpoint_text(state.history[i]) {
            if state.pending.contains(content) {
                lemma_nothing_pending(state.pending, state.replacements, content);
            }
        }
    }
    lemma_pairs_cover(state.history, state.replacements);
}

/// The handed-out pairs can be installed wherever the session's limits allow it: nothing else
/// about them is refused.
pub proof fn law_handed_out_pairs_are_refused_only_for_limits(
    state: RegionView,
    session: RecoveryView,
    items: Seq<(ResponseItem, EncodedItem)>,
)
    requires
        state.valid(),
        still_pending(state.pending, state.replacements).len() == 0,
        items.len() == replacement_pairs(state.history, state.replacements).len(),
        forall|i: int|
            0 <= i < items.len() ==> (#[trigger] items[i]).0 == replacement_pairs(
                state.history,
                state.replacements,
            )[i].0 && items[i].1.item == replacement_pairs(state.history, state.replacements)[i].1,
    ensures
        installs(session, items) <==> within_limits(with_pairs(session.compactions, items)),
{
    law_no_checkpoint_is_omitted(state);
    let pairs = replacement_pairs(state.history, state.replacements);
    assert forall|i: int| 0 <= i < items.len() implies checkpoint_text(
        (#[trigger] items[i]).0,
    ) is Some && checkpoint_text(items[i].1.item) is Some by {
        assert(pairs[i].0 == checkpoints(state.history)[i]);
    }
}

/// Once the handed-out pairs are installed, each checkpoint of the conversation is sent as the
/// checkpoint that was made for it, until others are installed and whatever is rejected meanwhile,
/// as long as SHA-256 tells the conversation's checkpoints apart.
pub proof fn law_installed_conversation_is_sent_with_new_checkpoints(
    state: RegionView,
    session: RecoveryView,
    items: Seq<(ResponseItem, EncodedItem)>,
    later: RecoveryView,
    n: int,
)
    requires
        state.valid(),
        still_pending(state.pending, state.replacements).len() == 0,
        items.len() == replacement_pairs(state.history, state.replacements).len(),
        forall|i: int|
            0 <= i < items.len() ==> (#[trigger] items[i]).0 == replacement_pairs(
                state.history,
                state.replacements,
            )[i].0 && items[i].1.item == replacement_pairs(state.history, state.replacements)[i].1,
        installs(session, items),
        later.compactions == installed(session, items).compactions,
        forall|i: int, j: int|
            0 <= i < state.history.len() && 0 <= j < state.history.len() && checkpoint_text(
                #[trigger] state.history[i],
            ) is Some && checkpoint_text(#[trigger] state.history[j]) is Some && fingerprint(
                checkpoint_text(state.history[i])->0,
            ) == fingerprint(checkpoint_text(state.history[j])->0) ==> checkpoint_text(
                state.history[i],
            ) == checkpoint_text(state.history[j]),
        0 <= n < state.history.len(),
        checkpoint_text(state.history[n]) is Some,
    ensures
        prepared(later, seq![state.history[n]]) == seq![
            state.replacements[checkpoint_text(state.history[n])->0],
        ],
{
    let is_checkpoint = |item: ResponseItem| checkpoint_text(item) is Some;
    let content = checkpoint_text(state.history[n])->0;
    law_no_checkpoint_is_omitted(state);
    let pairs = replacement_pairs(state.history, state.replacements);
    state.history.lemma_filter_contains(is_checkpoint, n);
    let first = choose|k: int|
        0 <= k < checkpoints(state.history).len() && checkpoints(state.history)[k]
            == state.history[n];
    assert(pairs[first].0 == state.history[n]);
    let last = lemma_last_with_fingerprint(items, first);
    assert(pairs[last].0 == checkpoints(state.history)[last]);
    let m = lemma_filter_source(state.history, is_checkpoint, last);
    assert(items[last].0 == state.history[m]);
    assert(items[first].0 == state.history[n]);
    assert(checkpoint_text(state.history[m]) == Some(content));
    assert(items[last].1.item == state.replacements[content]);
    law_installed_replacement_is_sent(session, items, later, last);
    law_only_rejected_and_replaced_items_change(later, items[last].0);
    law_only_rejected_and_replaced_items_change(later, state.history[n]);
    let key = fingerprint(content);
    lemma_with_pairs_last(session.compactions, items, last);
    assert(seq![later.compactions[key].item][0] == seq![items[last].1.item][0]);
}

/// The last pair whose checkpoint has the same fingerprint.
proof fn lemma_last_with_fingerprint(
    items: Seq<(ResponseItem, EncodedItem)>,
    first: int,
) -> (last: int)
    requires
        0 <= first < items.len(),
    ensures
        first <= last < items.len(),
        fingerprint(checkpoint_text(items[last].0)->0) == fingerprint(
            checkpoint_text(items[first].0)->0,
        ),
        forall|j: int|
            last < j < items.len() ==> fingerprint(checkpoint_text((#[trigger] items[j]).0)->0)
                != fingerprint(checkpoint_text(items[last].0)->0),
    decreases items.len() - first,
{
    if exists|j: int|
        first < j < items.len() && fingerprint(checkpoint_text((#[trigger] items[j]).0)->0)
            == fingerprint(checkpoint_text(items[first].0)->0) {
        let j = choose|j: int|
            first < j < items.len() && fingerprint(checkpoint_text((#[trigger] items[j]).0)->0)
                == fingerprint(checkpoint_text(items[first].0)->0);
        lemma_last_with_fingerprint(items, j)
    } else {
        first
    }
}

/// Where a kept item comes from.
proof fn lemma_filter_source(
    items: Seq<ResponseItem>,
    pred: spec_fn(ResponseItem) -> bool,
    i: int,
) -> (source: int)
    requires
        0 <= i < items.filter(pred).len(),
    ensures
        0 <= source < items.len(),
        items[source] == items.filter(pred)[i],
        pred(items[source]),
    decreases items.len(),
{
    reveal(Seq::filter);
    let earlier = items.drop_last().filter(pred);
    if i < earlier.len() {
        lemma_filter_source(items.drop_last(), pred, i)
    } else {
        items.len() - 1
    }
}

/// Each answer of the endpoint brings one more new checkpoint, and there are never more than the
/// limit: the number of requests for checkpoints is bounded.
pub proof fn law_regeneration_is_bounded(state: RegionView, index: int, output: ResponseItem)
    requires
        state.valid(),
        state.targets(index),
    ensures
        state.with_output(index, output).replacements.dom().len()
            == state.replacements.dom().len() + 1,
        state.with_output(index, output).replacements.dom().len() <= MAX_CHECKPOINTS,
{
}

/// A bound on the number of windows that are still to be rebuilt.
pub open spec fn rebuilds_left(state: RegionView) -> int {
    (MAX_CHECKPOINTS - state.replacements.dom().len()) * (MAX_CHECKPOINTS + 2) + (MAX_CHECKPOINTS
        - state.pending.len())
}

/// The stage without the checkpoints at the end that were made meanwhile: where the work goes on.
pub open spec fn passed_over(state: RegionView) -> RegionView {
    RegionView { pending: still_pending(state.pending, state.replacements), ..state }
}

proof fn lemma_still_pending_is_shorter(
    pending: Seq<Seq<char>>,
    replacements: Map<Seq<char>, ResponseItem>,
)
    ensures
        still_pending(pending, replacements).len() <= pending.len(),
    decreases pending.len(),
{
    if pending.len() > 0 && replacements.contains_key(pending.last()) {
        lemma_still_pending_is_shorter(pending.drop_last(), replacements);
    }
}

/// The work comes to an end: from one rebuilt window to the next the bound on their number
/// shrinks, whether a checkpoint was made in between or an ancestor comes first. The one window
/// for which this does not hold still shows a checkpoint that has a replacement already.
pub proof fn law_rebuilding_is_bounded(
    state: RegionView,
    index: int,
    ancestor: Seq<char>,
    output: ResponseItem,
    next_index: int,
)
    requires
        state.valid(),
        state.targets(index),
    ensures
        rebuilds_left(state) >= 0,
        !state.replacements.contains_key(ancestor) && passed_over(
            state.with_ancestor(ancestor),
        ).targets(next_index) ==> rebuilds_left(passed_over(state.with_ancestor(ancestor)))
            < rebuilds_left(state),
        passed_over(state.with_output(index, output)).targets(next_index) ==> rebuilds_left(
            passed_over(state.with_output(index, output)),
        ) < rebuilds_left(state),
{
    if !state.replacements.contains_key(ancestor) {
        assert(state.with_ancestor(ancestor).pending.last() == ancestor);
    }
    let next = state.with_output(index, output);
    lemma_still_pending_is_shorter(next.pending, next.replacements);
}

/// An answer changes nothing but the private copy of the transcript, and there only the record of
/// the checkpoint that it replaces: the length, every other transcript item, every other item of
/// the record and every annotation stay. The record then holds the new checkpoint in place of the
/// old one.
pub proof fn law_only_the_private_copy_changes(state: RegionView, index: int, output: ResponseItem)
    requires
        state.targets(index),
        checkpoint_text(output) is Some,
        checkpoint_text(output) != Some(state.pending.last()),
    ensures
        ({
            let next = state.with_output(index, output);
            let content = state.pending.last();
            &&& next.history == state.history
            &&& next.rollout.len() == state.rollout.len()
            &&& forall|i: int|
                0 <= i < state.rollout.len() && i != index ==> #[trigger] next.rollout[i]
                    == state.rollout[i]
            &&& !records(next.rollout[index], content)
            &&& records(next.rollout[index], checkpoint_text(output)->0)
            &&& state.rollout[index] matches RolloutView::Compacted {
                replacement_history: Some(before),
                rest,
            }
            &&& next.rollout[index] matches RolloutView::Compacted {
                replacement_history: Some(after),
                rest: rest_after,
            }
            &&& rest == rest_after
            &&& before.len() == after.len()
            &&& forall|i: int|
                0 <= i < before.len() ==> {
                    &&& (#[trigger] after[i]).annotation == before[i].annotation
                    &&& checkpoint_text(before[i].item) == Some(content) ==> after[i].item == output
                    &&& checkpoint_text(before[i].item) != Some(content) ==> after[i] == before[i]
                }
        }),
{
    let next = state.with_output(index, output);
    let content = state.pending.last();
    if let RolloutView::Compacted { replacement_history: Some(before), .. } = state.rollout[index] {
        let after = history_with_output(before, content, output);
        let i = choose|i: int|
            0 <= i < before.len() && checkpoint_text((#[trigger] before[i]).item) == Some(content);
        assert(after[i].item == output);
        assert forall|j: int| 0 <= j < after.len() implies checkpoint_text(
            (#[trigger] after[j]).item,
        ) != Some(content) by {
            if checkpoint_text(before[j].item) == Some(content) {
                assert(after[j].item == output);
            }
        }
    }
}

/// A window is sent only once every checkpoint in it was made again; otherwise the first one that
/// was not comes next.
pub proof fn law_ancestors_come_first(items: Seq<ResponseItem>, regenerated: Set<Seq<char>>)
    ensures
        match first_unregenerated(items, regenerated) {
            None => forall|i: int|
                0 <= i < items.len() ==> (checkpoint_text(#[trigger] items[i]) matches Some(content)
                    ==> regenerated.contains(content)),
            Some(ancestor) => exists|n: int|
                {
                    &&& 0 <= n < items.len()
                    &&& checkpoint_text(#[trigger] items[n]) == Some(ancestor)
                    &&& !regenerated.contains(ancestor)
                    &&& forall|i: int|
                        0 <= i < n ==> (checkpoint_text(#[trigger] items[i]) matches Some(content)
                            ==> regenerated.contains(content))
                },
        },
    decreases items.len(),
{
    if items.len() > 0 {
        let earlier = items.drop_last();
        law_ancestors_come_first(earlier, regenerated);
        match first_unregenerated(earlier, regenerated) {
            Some(ancestor) => {
                let n = choose|n: int|
                    {
                        &&& 0 <= n < earlier.len()
                        &&& checkpoint_text(#[trigger] earlier[n]) == Some(ancestor)
                        &&& !regenerated.contains(ancestor)
                        &&& forall|i: int|
                            0 <= i < n ==> (checkpoint_text(#[trigger] earlier[i]) matches Some(
                                content,
                            ) ==> regenerated.contains(content))
                    };
                assert(items[n] == earlier[n]);
                assert forall|i: int| 0 <= i < n implies (checkpoint_text(
                    #[trigger] items[i],
                ) matches Some(content) ==> regenerated.contains(content)) by {
                    assert(items[i] == earlier[i]);
                }
            },
            None => {
                assert forall|i: int| 0 <= i < items.len() - 1 implies (checkpoint_text(
                    #[trigger] items[i],
                ) matches Some(content) ==> regenerated.contains(content)) by {
                    assert(items[i] == earlier[i]);
                }
                assert(items[items.len() - 1] == items.last());
            },
        }
    }
}

/// None of the transcript items records the checkpoint.
pub open spec fn records_nowhere(rollout: Seq<RolloutView>, content: Seq<char>) -> bool {
    forall|i: int| 0 <= i < rollout.len() ==> !records(#[trigger] rollout[i], content)
}

/// What a transcript records of a checkpoint is found again after the transcript has grown, unless
/// what was appended records the same checkpoint: it stands in the same place, in no other, and
/// the same items stand before it.
pub proof fn law_growth_leaves_the_source_as_it_is(
    rollout: Seq<RolloutView>,
    appended: Seq<RolloutView>,
    content: Seq<char>,
    index: int,
)
    requires
        last_record(rollout, content, index),
        records_nowhere(appended, content),
    ensures
        last_record(rollout + appended, content, index),
        forall|other: int| #[trigger]
            last_record(rollout + appended, content, other) ==> other == index,
        (rollout + appended).take(index) == rollout.take(index),
{
    let longer = rollout + appended;
    assert forall|later: int| index < later < longer.len() implies !records(
        #[trigger] longer[later],
        content,
    ) by {
        if later >= rollout.len() {
            assert(longer[later] == appended[later - rollout.len()]);
        }
    }
    assert(longer.take(index) =~= rollout.take(index));
}

/// The stage of a recovery whose transcript goes on with `appended`.
pub open spec fn grown(state: RegionView, appended: Seq<RolloutView>) -> RegionView {
    RegionView { rollout: state.rollout + appended, ..state }
}

/// A recovery takes the same course on a transcript that has grown: as long as what was appended
/// does not record the checkpoint that is next, the same checkpoint is made at each stage, from
/// the same source. After the same ancestor or the same answer, the stage that follows is the same
/// but for the growth.
pub proof fn law_growth_leaves_the_course_as_it_is(
    state: RegionView,
    appended: Seq<RolloutView>,
    index: int,
    ancestor: Seq<char>,
    output: ResponseItem,
)
    ensures
        passed_over(grown(state, appended)) == grown(passed_over(state), appended),
        grown(state, appended).with_ancestor(ancestor) == grown(
            state.with_ancestor(ancestor),
            appended,
        ),
        records_nowhere(appended, state.pending.last()) ==> (grown(state, appended).targets(index)
            <==> state.targets(index)),
        state.targets(index) ==> {
            &&& grown(state, appended).rollout.take(index) == state.rollout.take(index)
            &&& grown(state, appended).with_output(index, output) == grown(
                state.with_output(index, output),
                appended,
            )
        },
{
    let content = state.pending.last();
    let longer = state.rollout + appended;
    if records_nowhere(appended, content) {
        if state.targets(index) {
            law_growth_leaves_the_source_as_it_is(state.rollout, appended, content, index);
        }
        if grown(state, appended).targets(index) {
            if index >= state.rollout.len() {
                assert(longer[index] == appended[index - state.rollout.len()]);
            }
            assert forall|later: int| index < later < state.rollout.len() implies !records(
                #[trigger] state.rollout[later],
                content,
            ) by {
                assert(longer[later] == state.rollout[later]);
            }
        }
    }
    if state.targets(index) {
        assert(longer.take(index) =~= state.rollout.take(index));
        assert(grown(state, appended).with_output(index, output).rollout =~= grown(
            state.with_output(index, output),
            appended,
        ).rollout);
    }
}

/// The first stage of a recovery whose transcript was read.
pub open spec fn begun(history: Seq<ResponseItem>, rollout: Seq<RolloutView>) -> RegionView {
    RegionView { rollout, ..initial(history) }
}

/// The first request that a recovery sends, with the stage at which it sends it and the place of
/// the checkpoint that it asks for. `rebuild` gives the history that a transcript leaves, and
/// `format` the form in which the model takes it. None where no request comes within so many
/// rebuilt windows.
pub open spec fn first_request(
    state: RegionView,
    rebuild: spec_fn(Seq<RolloutView>) -> Seq<HistoryItem>,
    format: spec_fn(Seq<HistoryItem>) -> Seq<ResponseItem>,
    windows: nat,
) -> Option<(RegionView, int, Seq<ResponseItem>)>
    decreases windows,
{
    let next = passed_over(state);
    if windows == 0 || !(exists|index: int| next.targets(index)) {
        None
    } else {
        let index = choose|index: int| next.targets(index);
        let window = rebuild(next.rollout.take(index));
        match first_unregenerated(bare_items(window), next.regenerated) {
            Some(ancestor) => if next.pending.contains(ancestor) {
                None
            } else {
                first_request(next.with_ancestor(ancestor), rebuild, format, (windows - 1) as nat)
            },
            None => if window.len() == 0 || window.len() > MAX_REPLAY_ITEMS {
                None
            } else {
                Some((next, index, replayed(format(window))))
            },
        }
    }
}

/// What was appended records no checkpoint that the transcript records.
pub open spec fn records_only_others(
    rollout: Seq<RolloutView>,
    appended: Seq<RolloutView>,
) -> bool {
    forall|i: int, content: Seq<char>|
        0 <= i < rollout.len() && #[trigger] records(rollout[i], content) ==> records_nowhere(
            appended,
            content,
        )
}

proof fn lemma_first_request_after_growth(
    state: RegionView,
    appended: Seq<RolloutView>,
    rebuild: spec_fn(Seq<RolloutView>) -> Seq<HistoryItem>,
    format: spec_fn(Seq<HistoryItem>) -> Seq<ResponseItem>,
    windows: nat,
)
    requires
        records_only_others(state.rollout, appended),
    ensures
        first_request(state, rebuild, format, windows) matches Some((stage, index, input)) ==> {
            &&& first_request(grown(state, appended), rebuild, format, windows) == Some(
                (grown(stage, appended), index, input),
            )
            &&& stage.rollout == state.rollout
            &&& stage.targets(index)
            &&& grown(stage, appended).targets(index)
            &&& input == replayed(format(rebuild(state.rollout.take(index))))
        },
    decreases windows,
{
    if first_request(state, rebuild, format, windows) is Some {
        let next = passed_over(state);
        let index = choose|index: int| next.targets(index);
        assert(records(next.rollout[index], next.pending.last()));
        let longer = grown(next, appended);
        assert(passed_over(grown(state, appended)) == longer);
        law_growth_leaves_the_source_as_it_is(
            next.rollout,
            appended,
            next.pending.last(),
            index,
        );
        assert(longer.targets(index));
        let other = choose|other: int| longer.targets(other);
        assert(last_record(longer.rollout, next.pending.last(), other));
        assert(other == index);
        let window = rebuild(next.rollout.take(index));
        if let Some(ancestor) = first_unregenerated(bare_items(window), next.regenerated) {
            assert(longer.with_ancestor(ancestor) == grown(next.with_ancestor(ancestor), appended));
            lemma_first_request_after_growth(
                next.with_ancestor(ancestor),
                appended,
                rebuild,
                format,
                (windows - 1) as nat,
            );
        }
    }
}

/// A second recovery of a conversation starts where the first one did, whatever the first one
/// made: its first request asks for the same checkpoint with the same input, made from the same
/// part of the transcript. The transcript may have grown meanwhile, by anything but a record of a
/// checkpoint that it records already.
pub proof fn law_second_recovery_sends_the_same_request(
    history: Seq<ResponseItem>,
    rollout: Seq<RolloutView>,
    appended: Seq<RolloutView>,
    rebuild: spec_fn(Seq<RolloutView>) -> Seq<HistoryItem>,
    format: spec_fn(Seq<HistoryItem>) -> Seq<ResponseItem>,
    windows: nat,
)
    requires
        first_request(begun(history, rollout), rebuild, format, windows) is Some,
        records_only_others(rollout, appended),
    ensures
        ({
            let (stage, index, input) = first_request(
                begun(history, rollout),
                rebuild,
                format,
                windows,
            )->0;
            &&& first_request(begun(history, rollout + appended), rebuild, format, windows)
                == Some((grown(stage, appended), index, input))
            &&& stage.targets(index)
            &&& grown(stage, appended).targets(index)
            &&& input == replayed(format(rebuild(rollout.take(index))))
        }),
{
    let first = begun(history, rollout);
    lemma_first_request_after_growth(first, appended, rebuild, format, windows);
    assert(grown(first, appended) == begun(history, rollout + appended));
}

proof fn lemma_sole_checkpoint_pending(history: Seq<ResponseItem>, content: Seq<char>)
    requires
        forall|i: int|
            0 <= i < history.len() ==> (checkpoint_text(#[trigger] history[i]) matches Some(other)
                ==> other == content),
    ensures
        forall|i: int|
            0 <= i < checkpoint_texts(history).len() ==> #[trigger] checkpoint_texts(history)[i]
                == content,
    decreases history.len(),
{
    if history.len() > 0 {
        let earlier = history.drop_last();
        assert forall|i: int| 0 <= i < earlier.len() implies (checkpoint_text(
            #[trigger] earlier[i],
        ) matches Some(other) ==> other == content) by {
            assert(earlier[i] == history[i]);
        }
        lemma_sole_checkpoint_pending(earlier, content);
        assert(history[history.len() - 1] == history.last());
        assert forall|i: int| 0 <= i < checkpoint_texts(history).len() implies
            #[trigger] checkpoint_texts(history)[i] == content by {
            if i < checkpoint_texts(earlier).len() {
                assert(checkpoint_texts(history)[i] == checkpoint_texts(earlier)[i]);
            }
        }
    }
}

proof fn lemma_nothing_else_pending(
    pending: Seq<Seq<char>>,
    replacements: Map<Seq<char>, ResponseItem>,
)
    requires
        forall|i: int|
            0 <= i < pending.len() ==> replacements.contains_key(#[trigger] pending[i]),
    ensures
        still_pending(pending, replacements).len() == 0,
    decreases pending.len(),
{
    if pending.len() > 0 {
        assert(pending[pending.len() - 1] == pending.last());
        lemma_nothing_else_pending(pending.drop_last(), replacements);
    }
}

/// Where a conversation holds a single checkpoint, however often, one answer completes the
/// recovery: what is handed out pairs that checkpoint with this answer, in every recovery, whatever
/// an earlier one was answered.
pub proof fn law_sole_checkpoint_is_replaced_by_the_answer(
    history: Seq<ResponseItem>,
    rollout: Seq<RolloutView>,
    index: int,
    output: ResponseItem,
)
    requires
        begun(history, rollout).targets(index),
        forall|i: int|
            0 <= i < history.len() ==> (checkpoint_text(#[trigger] history[i]) matches Some(content)
                ==> content == begun(history, rollout).pending.last()),
    ensures
        ({
            let done = begun(history, rollout).with_output(index, output);
            let pairs = replacement_pairs(history, done.replacements);
            &&& still_pending(done.pending, done.replacements).len() == 0
            &&& pairs.len() == checkpoints(history).len()
            &&& forall|i: int|
                0 <= i < pairs.len() ==> #[trigger] pairs[i] == (checkpoints(history)[i], output)
        }),
{
    let state = begun(history, rollout);
    let content = state.pending.last();
    let done = state.with_output(index, output);
    lemma_sole_checkpoint_pending(history, content);
    lemma_nothing_else_pending(done.pending, done.replacements);
    lemma_pairs_cover(history, done.replacements);
    let pairs = replacement_pairs(history, done.replacements);
    assert forall|i: int| 0 <= i < pairs.len() implies #[trigger] pairs[i] == (
        checkpoints(history)[i],
        output,
    ) by {
        let source = lemma_filter_source(
            history,
            |item: ResponseItem| checkpoint_text(item) is Some,
            i,
        );
        assert(pairs[i].0 == history[source]);
        assert(checkpoint_text(history[source]) == Some(content));
    }
}

/// A conversation with a single checkpoint that rests on no other can be recovered again, for
/// another region: the second recovery sends the request of the first, and hands out the second
/// answer for the same checkpoint, with no trace of the first answer.
pub proof fn law_sole_checkpoint_is_recovered_again(
    history: Seq<ResponseItem>,
    rollout: Seq<RolloutView>,
    appended: Seq<RolloutView>,
    rebuild: spec_fn(Seq<RolloutView>) -> Seq<HistoryItem>,
    format: spec_fn(Seq<HistoryItem>) -> Seq<ResponseItem>,
    index: int,
    input: Seq<ResponseItem>,
    second_output: ResponseItem,
)
    requires
        first_request(begun(history, rollout), rebuild, format, 1) == Some(
            (begun(history, rollout), index, input),
        ),
        records_only_others(rollout, appended),
        forall|i: int|
            0 <= i < history.len() ==> (checkpoint_text(#[trigger] history[i]) matches Some(content)
                ==> content == checkpoint_texts(history).last()),
    ensures
        ({
            let second = begun(history, rollout + appended);
            let done = second.with_output(index, second_output);
            let pairs = replacement_pairs(history, done.replacements);
            &&& first_request(second, rebuild, format, 1) == Some((second, index, input))
            &&& still_pending(done.pending, done.replacements).len() == 0
            &&& pairs.len() == checkpoints(history).len()
            &&& forall|i: int|
                0 <= i < pairs.len() ==> #[trigger] pairs[i] == (
                    checkpoints(history)[i],
                    second_output,
                )
        }),
{
    law_second_recovery_sends_the_same_request(history, rollout, appended, rebuild, format, 1);
    assert(grown(begun(history, rollout), appended) == begun(history, rollout + appended));
    law_sole_checkpoint_is_replaced_by_the_answer(
        history,
        rollout + appended,
        index,
        second_output,
    );
}

/// A transcript item records a checkpoint where a compaction item with this content stands at some
/// position of its recorded history, whichever position it is and whatever stands beside it. No
/// other transcript item records one.
pub proof fn law_checkpoint_is_recorded_at_any_position(item: RolloutView, content: Seq<char>)
    ensures
        records(item, content) <==> (item matches RolloutView::Compacted {
            replacement_history: Some(items),
            ..
        } && exists|i: int|
            0 <= i < items.len() && ((#[trigger] items[i]).item matches ResponseItem::Compaction {
                encrypted_content,
                ..
            } && encrypted_content@ == content)),
{
    if let RolloutView::Compacted { replacement_history: Some(items), .. } = item {
        if records(item, content) {
            let i = choose|i: int|
                0 <= i < items.len() && checkpoint_text((#[trigger] items[i]).item) == Some(
                    content,
                );
            assert(items[i].item is Compaction);
        }
        if exists|i: int|
            0 <= i < items.len() && ((#[trigger] items[i]).item matches ResponseItem::Compaction {
                encrypted_content,
                ..
            } && encrypted_content@ == content) {
            let i = choose|i: int|
                0 <= i < items.len() && ((
                #[trigger] items[i]).item matches ResponseItem::Compaction {
                    encrypted_content,
                    ..
                } && encrypted_content@ == content);
            assert(checkpoint_text(items[i].item) == Some(content));
        }
    }
}

/// Where a transcript records a checkpoint, it has a last record of it.
proof fn lemma_last_record_exists(rollout: Seq<RolloutView>, content: Seq<char>, k: int)
    requires
        0 <= k < rollout.len(),
        records(rollout[k], content),
    ensures
        exists|index: int| k <= index && last_record(rollout, content, index),
    decreases rollout.len() - k,
{
    if exists|later: int|
        k < later < rollout.len() && records(#[trigger] rollout[later], content) {
        let later = choose|later: int|
            k < later < rollout.len() && records(#[trigger] rollout[later], content);
        lemma_last_record_exists(rollout, content, later);
        let index = choose|index: int| later <= index && last_record(rollout, content, index);
        assert(k <= index && last_record(rollout, content, index));
    } else {
        assert(k <= k && last_record(rollout, content, k));
    }
}

/// A checkpoint that stands at any position of any recorded history of a transcript is found, at
/// this item of the transcript or at a later one, and never before. It is not called missing.
pub proof fn law_recorded_checkpoint_is_found(
    transcript: Seq<RolloutItem>,
    k: int,
    items: Vec<HistoryItem>,
    rest: String,
    i: int,
    content: String,
    item_rest: String,
)
    requires
        0 <= k < transcript.len(),
        transcript[k] == RolloutItem::Compacted(
            CompactedItem { replacement_history: Some(items), rest },
        ),
        0 <= i < items@.len(),
        items@[i].item == (ResponseItem::Compaction {
            encrypted_content: content,
            rest: item_rest,
        }),
    ensures
        exists|index: int| last_record(rollout_view(transcript), content@, index),
        forall|index: int| #[trigger]
            last_record(rollout_view(transcript), content@, index) ==> k <= index,
{
    let rollout = rollout_view(transcript);
    law_checkpoint_is_recorded_at_any_position(rollout[k], content@);
    assert(items@[i].item is Compaction);
    assert(records(rollout[k], content@));
    lemma_last_record_exists(rollout, content@, k);
}

/// Where a checkpoint is found, a compaction item with its content stands at some position of the
/// history that is recorded there.
pub proof fn law_found_checkpoint_is_recorded_there(
    transcript: Seq<RolloutItem>,
    content: Seq<char>,
    index: int,
)
    requires
        last_record(rollout_view(transcript), content, index),
    ensures
        0 <= index < transcript.len(),
        transcript[index] matches RolloutItem::Compacted(compacted)
            && compacted.replacement_history matches Some(items) && exists|i: int|
            0 <= i < items@.len() && ((#[trigger] items@[i]).item matches ResponseItem::Compaction {
                encrypted_content,
                ..
            } && encrypted_content@ == content),
{
    law_checkpoint_is_recorded_at_any_position(rollout_view(transcript)[index], content);
}

/// The limit by its number.
pub proof fn law_checkpoint_limit_by_its_number()
    ensures
        MAX_CHECKPOINTS == 16,
{
}

/// Where the work begins: with the conversation as it is, nothing made, and every checkpoint of
/// the conversation still to be made.
pub proof fn law_work_begins_with_every_checkpoint(history: Seq<ResponseItem>, i: int)
    ensures
        initial(history).history == history,
        initial(history).rollout == Seq::<RolloutView>::empty(),
        initial(history).pending == checkpoint_texts(history),
        initial(history).replacements == Map::<Seq<char>, ResponseItem>::empty(),
        initial(history).regenerated == Set::<Seq<char>>::empty(),
        initial(history).valid(),
        0 <= i < history.len() && history[i] is Compaction ==> initial(history).pending.contains(
            history[i]->Compaction_encrypted_content@,
        ),
{
    assert forall|k: int| 0 <= k < history.len() && #[trigger] history[k] is Compaction implies
        checkpoint_texts(history).contains(history[k]->Compaction_encrypted_content@) by {
        lemma_checkpoint_texts_hold(history, k);
    }
    assert(initial(history).remembers_history());
}

proof fn lemma_checkpoint_texts_hold(items: Seq<ResponseItem>, i: int)
    requires
        0 <= i < items.len(),
        items[i] is Compaction,
    ensures
        checkpoint_texts(items).contains(items[i]->Compaction_encrypted_content@),
    decreases items.len(),
{
    let all = checkpoint_texts(items);
    let content = items[i]->Compaction_encrypted_content@;
    if i == items.len() - 1 {
        assert(all[all.len() - 1] == content);
    } else {
        let earlier = checkpoint_texts(items.drop_last());
        lemma_checkpoint_texts_hold(items.drop_last(), i);
        let j = choose|j: int| 0 <= j < earlier.len() && earlier[j] == content;
        assert(all[j] == content);
    }
}

/// What is still pending is what was, up to the last checkpoint without a replacement: only
/// checkpoints that have one are passed over, and only at the end.
pub proof fn law_only_replaced_checkpoints_are_passed_over(
    pending: Seq<Seq<char>>,
    replacements: Map<Seq<char>, ResponseItem>,
)
    ensures
        ({
            let left = still_pending(pending, replacements);
            &&& left.len() <= pending.len()
            &&& left == pending.take(left.len() as int)
            &&& left.len() > 0 ==> !replacements.contains_key(left.last())
            &&& forall|i: int|
                left.len() <= i < pending.len() ==> replacements.contains_key(#[trigger] pending[i])
        }),
    decreases pending.len(),
{
    if pending.len() > 0 && replacements.contains_key(pending.last()) {
        let shorter = pending.drop_last();
        law_only_replaced_checkpoints_are_passed_over(shorter, replacements);
        let left = still_pending(pending, replacements);
        assert(shorter.take(left.len() as int) =~= pending.take(left.len() as int));
        assert forall|i: int| left.len() <= i < pending.len() implies replacements.contains_key(
            #[trigger] pending[i],
        ) by {
            if i < shorter.len() {
                assert(shorter[i] == pending[i]);
            }
        }
    } else {
        assert(pending.take(pending.len() as int) =~= pending);
    }
}

/// A checkpoint is taken on where one is pending, it has no replacement, those pending and those
/// made are no more than 16 together, and this is the last record of it.
pub proof fn law_next_checkpoint_is_the_last_pending(state: RegionView, index: int)
    ensures
        state.targets(index) <==> {
            &&& state.pending.len() > 0
            &&& state.pending.len() + state.replacements.dom().len() <= 16
            &&& !state.replacements.contains_key(state.pending.last())
            &&& last_record(state.rollout, state.pending.last(), index)
        },
{
}

/// A checkpoint that comes first is put behind the pending ones. Nothing else changes.
pub proof fn law_ancestor_becomes_the_next(state: RegionView, ancestor: Seq<char>)
    ensures
        state.with_ancestor(ancestor).pending == state.pending + seq![ancestor],
        state.with_ancestor(ancestor).history == state.history,
        state.with_ancestor(ancestor).rollout == state.rollout,
        state.with_ancestor(ancestor).replacements == state.replacements,
        state.with_ancestor(ancestor).regenerated == state.regenerated,
{
    assert(state.with_ancestor(ancestor).pending =~= state.pending + seq![ancestor]);
}

/// What an answer changes: the checkpoint is no more pending, the answer replaces it and counts as
/// made. In the record every compaction item of the old content, at every position, becomes the
/// answer; every other item and every annotation stays. Whatever the answer carries besides its
/// content goes along.
pub proof fn law_answer_takes_the_place_of_the_checkpoint(
    state: RegionView,
    index: int,
    made: String,
    rest: String,
)
    requires
        state.pending.len() > 0,
        0 <= index < state.rollout.len(),
    ensures
        ({
            let output = ResponseItem::Compaction { encrypted_content: made, rest };
            let content = state.pending.last();
            let next = state.with_output(index, output);
            &&& next.history == state.history
            &&& next.pending + seq![content] == state.pending
            &&& next.replacements == state.replacements.insert(content, output)
            &&& next.regenerated == state.regenerated.insert(made@)
            &&& next.rollout == state.rollout.update(index, next.rollout[index])
            &&& state.rollout[index] matches RolloutView::Compacted {
                replacement_history: Some(before),
                rest: record_rest,
            } ==> {
                &&& next.rollout[index] matches RolloutView::Compacted {
                    replacement_history: Some(after),
                    rest: after_rest,
                }
                &&& after_rest == record_rest
                &&& after.len() == before.len()
                &&& forall|i: int|
                    0 <= i < before.len() ==> {
                        &&& (#[trigger] after[i]).annotation == before[i].annotation
                        &&& after[i].item == (match before[i].item {
                            ResponseItem::Compaction { encrypted_content, .. } => {
                                if encrypted_content@ == content {
                                    output
                                } else {
                                    before[i].item
                                }
                            },
                            other => other,
                        })
                    }
            }
        }),
{
    let output = ResponseItem::Compaction { encrypted_content: made, rest };
    let next = state.with_output(index, output);
    assert(next.pending + seq![state.pending.last()] =~= state.pending);
    assert(next.rollout =~= state.rollout.update(index, next.rollout[index]));
}

/// A window asks for the first compaction item in it whose content was not made again; whatever
/// else stands in it does not count.
pub proof fn law_first_checkpoint_not_made_again_comes_next(
    items: Seq<ResponseItem>,
    regenerated: Set<Seq<char>>,
    n: int,
)
    requires
        0 <= n <= items.len(),
        forall|i: int|
            0 <= i < n ==> (#[trigger] items[i] matches ResponseItem::Compaction {
                encrypted_content,
                ..
            } ==> regenerated.contains(encrypted_content@)),
        n < items.len() ==> (items[n] matches ResponseItem::Compaction { encrypted_content, .. }
            && !regenerated.contains(encrypted_content@)),
    ensures
        n == items.len() ==> first_unregenerated(items, regenerated) is None,
        n < items.len() ==> (items[n] matches ResponseItem::Compaction { encrypted_content, .. }
            && first_unregenerated(items, regenerated) == Some(encrypted_content@)),
    decreases items.len(),
{
    if items.len() > 0 {
        let earlier = items.drop_last();
        let m = if n < items.len() {
            n
        } else {
            n - 1
        };
        assert forall|i: int| 0 <= i < m implies (
        #[trigger] earlier[i] matches ResponseItem::Compaction { encrypted_content, .. }
            ==> regenerated.contains(encrypted_content@)) by {
            assert(earlier[i] == items[i]);
        }
        if m < earlier.len() {
            assert(earlier[m] == items[m]);
        }
        law_first_checkpoint_not_made_again_comes_next(earlier, regenerated, m);
        assert(items[items.len() - 1] == items.last());
    }
}

/// What is handed out for a conversation is what is handed out for its first part and then for its
/// second. A compaction item is paired with what replaces its content, where there is something.
/// No other item is paired.
pub proof fn law_pairs_follow_the_conversation(
    first: Seq<ResponseItem>,
    second: Seq<ResponseItem>,
    replacements: Map<Seq<char>, ResponseItem>,
    content: String,
    rest: String,
    other: ResponseItem,
)
    ensures
        replacement_pairs(first + second, replacements) == replacement_pairs(first, replacements)
            + replacement_pairs(second, replacements),
        ({
            let item = ResponseItem::Compaction { encrypted_content: content, rest };
            replacement_pairs(seq![item], replacements) == (if replacements.contains_key(content@) {
                seq![(item, replacements[content@])]
            } else {
                Seq::empty()
            })
        }),
        !(other is Compaction) ==> replacement_pairs(seq![other], replacements) == Seq::<
            (ResponseItem, ResponseItem),
        >::empty(),
    decreases second.len(),
{
    let item = ResponseItem::Compaction { encrypted_content: content, rest };
    let none = Seq::<(ResponseItem, ResponseItem)>::empty();
    assert(seq![item].drop_last() =~= Seq::empty());
    assert(seq![other].drop_last() =~= Seq::empty());
    assert(replacement_pairs(Seq::empty(), replacements) =~= none);
    assert(replacement_pairs(seq![item], replacements) =~= if replacements.contains_key(content@) {
        seq![(item, replacements[content@])]
    } else {
        none
    });
    if second.len() == 0 {
        assert(first + second =~= first);
    } else {
        assert((first + second).drop_last() =~= first + second.drop_last());
        law_pairs_follow_the_conversation(
            first,
            second.drop_last(),
            replacements,
            content,
            rest,
            other,
        );
    }
    assert(replacement_pairs(first + second, replacements) =~= replacement_pairs(
        first,
        replacements,
    ) + replacement_pairs(second, replacements));
}

} // verus!
