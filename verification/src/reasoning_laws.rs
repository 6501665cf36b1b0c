//! What holds of a session's encrypted state over several calls.
use crate::errors::{ApiError, ErrorBody, ErrorResponse, TransportError};
use crate::fingerprint::{fingerprint, Fingerprint};
use crate::items::{checkpoint_text, reasoning_text, ResponseItem};
use crate::reasoning_recovery::{
    installed, installs, internal_error, is_sent, lemma_total_weight_insert, newly_rejected,
    pairs_checkpoints, prepared, reasoning_fingerprints, recoverable, recovered, recovers,
    region_error, sent_as, total_weight, weight, with_pairs, within_limits, EncodedItem,
    RecoveryView, MAX_COMPACTION_BYTES, MAX_COMPACTION_REPLACEMENTS, MAX_REJECTED_ITEMS,
};
use crate::text_laws::law_contained_text_has_a_before_and_an_after;
use vstd::prelude::*;

verus! {

/// No replacement weighs more than all of them.
proof fn lemma_weight_within_total(
    compactions: Map<Fingerprint, EncodedItem>,
    key: Fingerprint,
)
    requires
        compactions.dom().finite(),
        compactions.contains_key(key),
    ensures
        weight(compactions[key]) <= total_weight(compactions),
    decreases compactions.dom().len(),
{
    let chosen = compactions.dom().choose();
    if chosen != key {
        lemma_weight_within_total(compactions.remove(chosen), key);
    }
}

/// A valid session remembers a bounded number of rejected items and of replacements, and each
/// replacement can be encoded and fits the byte limit.
pub proof fn law_session_state_is_bounded(state: RecoveryView)
    requires
        state.valid(),
    ensures
        state.rejected.len() <= MAX_REJECTED_ITEMS,
        state.compactions.dom().len() <= MAX_COMPACTION_REPLACEMENTS,
        total_weight(state.compactions) <= MAX_COMPACTION_BYTES,
        forall|key: Fingerprint| #[trigger]
            state.compactions.contains_key(key) ==> (state.compactions[key].encoded_len matches Some(
                len,
            ) && len <= MAX_COMPACTION_BYTES),
{
    assert forall|key: Fingerprint| #[trigger] state.compactions.contains_key(key) implies (
    state.compactions[key].encoded_len matches Some(len) && len <= MAX_COMPACTION_BYTES) by {
        lemma_weight_within_total(state.compactions, key);
    }
}

/// An error that has nothing to do with encrypted state changes nothing.
pub proof fn law_unrelated_errors_change_nothing(
    state: RecoveryView,
    error: ApiError,
    input: Seq<ResponseItem>,
)
    requires
        !recoverable(error),
    ensures
        !recovers(state, error, input),
        recovered(state, error, input) == state,
{
}

/// A request without encrypted reasoning is never answered by leaving reasoning out.
pub proof fn law_nothing_to_reject_does_not_recover(
    state: RecoveryView,
    error: ApiError,
    input: Seq<ResponseItem>,
)
    requires
        forall|i: int| 0 <= i < input.len() ==> reasoning_text(#[trigger] input[i]) is None,
    ensures
        !recovers(state, error, input),
        recovered(state, error, input) == state,
{
    lemma_no_reasoning_no_fingerprints(input);
    assert(newly_rejected(state, input) =~= Set::empty());
}

proof fn lemma_no_reasoning_no_fingerprints(input: Seq<ResponseItem>)
    requires
        forall|i: int| 0 <= i < input.len() ==> reasoning_text(#[trigger] input[i]) is None,
    ensures
        reasoning_fingerprints(input) == Set::<Fingerprint>::empty(),
    decreases input.len(),
{
    if input.len() > 0 {
        assert forall|i: int| 0 <= i < input.drop_last().len() implies reasoning_text(
            #[trigger] input.drop_last()[i],
        ) is None by {
            assert(input[i] == input.drop_last()[i]);
        }
        lemma_no_reasoning_no_fingerprints(input.drop_last());
    }
}

/// Every encrypted reasoning in `items` is among that of `known`.
pub open spec fn reasoning_is_among(items: Seq<ResponseItem>, known: Seq<ResponseItem>) -> bool {
    forall|i: int|
        0 <= i < items.len() && reasoning_text(#[trigger] items[i]) is Some ==> exists|j: int|
            0 <= j < known.len() && reasoning_text(#[trigger] known[j]) == reasoning_text(items[i])
}

proof fn lemma_reasoning_fingerprints_contain(items: Seq<ResponseItem>, i: int)
    requires
        0 <= i < items.len(),
        reasoning_text(items[i]) is Some,
    ensures
        reasoning_fingerprints(items).contains(fingerprint(reasoning_text(items[i])->0)),
    decreases items.len(),
{
    if i < items.len() - 1 {
        lemma_reasoning_fingerprints_contain(items.drop_last(), i);
    }
}

/// Items with no other reasoning have no other fingerprints.
proof fn lemma_fingerprints_among(items: Seq<ResponseItem>, known: Seq<ResponseItem>)
    requires
        reasoning_is_among(items, known),
    ensures
        reasoning_fingerprints(items).subset_of(reasoning_fingerprints(known)),
    decreases items.len(),
{
    if items.len() > 0 {
        let earlier = items.drop_last();
        assert(reasoning_is_among(earlier, known));
        lemma_fingerprints_among(earlier, known);
        let last = items[items.len() - 1];
        if reasoning_text(last) is Some {
            let j = choose|j: int|
                0 <= j < known.len() && reasoning_text(#[trigger] known[j]) == reasoning_text(last);
            lemma_reasoning_fingerprints_contain(known, j);
        }
    }
}

/// Reasoning is rejected once: in no later state of the session is an error, whichever it is,
/// answered by leaving it out again. Only a request with other reasoning can recover.
pub proof fn law_recovery_happens_once(
    state: RecoveryView,
    error: ApiError,
    input: Seq<ResponseItem>,
    later: RecoveryView,
    later_error: ApiError,
    later_input: Seq<ResponseItem>,
)
    requires
        recovers(state, error, input),
        recovered(state, error, input).rejected.subset_of(later.rejected),
        reasoning_is_among(later_input, input),
    ensures
        !recovers(later, later_error, later_input),
        recovered(later, later_error, later_input) == later,
{
    lemma_fingerprints_among(later_input, input);
    assert(newly_rejected(later, later_input) =~= Set::empty());
}

/// What was rejected stays rejected, through every later error and every installed replacement.
pub proof fn law_rejection_is_permanent(
    state: RecoveryView,
    error: ApiError,
    input: Seq<ResponseItem>,
    items: Seq<(ResponseItem, EncodedItem)>,
)
    ensures
        state.rejected.subset_of(recovered(state, error, input).rejected),
        installed(state, items).rejected == state.rejected,
        recovered(state, error, input).compactions == state.compactions,
{
}

/// After a recovery no request, in whatever later state of the session, carries any of the
/// reasoning that was rejected.
pub proof fn law_rejected_reasoning_is_left_out(
    state: RecoveryView,
    error: ApiError,
    input: Seq<ResponseItem>,
    later: RecoveryView,
    request: Seq<ResponseItem>,
    i: int,
)
    requires
        recovers(state, error, input),
        later.valid(),
        recovered(state, error, input).rejected.subset_of(later.rejected),
        0 <= i < prepared(later, request).len(),
    ensures
        reasoning_text(prepared(later, request)[i]) matches Some(content)
            ==> !reasoning_fingerprints(input).contains(fingerprint(content)),
{
    let sent = |item: ResponseItem| is_sent(later, item);
    request.lemma_filter_pred(sent, i);
    let source = request.filter(sent)[i];
    assert(prepared(later, request)[i] == sent_as(later, source));
    if let Some(content) = checkpoint_text(source) {
        if later.compactions.contains_key(fingerprint(content)) {
            assert(checkpoint_text(later.compactions[fingerprint(content)].item) is Some);
        }
    }
}

/// Requests are prepared item by item: each item is handled as if it stood alone, and the order
/// is kept.
pub proof fn law_items_are_prepared_one_by_one(
    state: RecoveryView,
    first: Seq<ResponseItem>,
    second: Seq<ResponseItem>,
)
    ensures
        prepared(state, first + second) == prepared(state, first) + prepared(state, second),
{
    let sent = |item: ResponseItem| is_sent(state, item);
    Seq::filter_distributes_over_add(first, second, sent);
    assert(prepared(state, first + second) =~= prepared(state, first) + prepared(state, second));
}

/// What becomes of one item: rejected reasoning is left out, a replaced checkpoint is replaced,
/// and any other item is sent unchanged.
pub proof fn law_only_rejected_and_replaced_items_change(state: RecoveryView, item: ResponseItem)
    ensures
        prepared(state, seq![item]) == (match (reasoning_text(item), checkpoint_text(item)) {
            (Some(content), _) => if state.rejected.contains(fingerprint(content)) {
                Seq::empty()
            } else {
                seq![item]
            },
            (None, Some(content)) => if state.compactions.contains_key(fingerprint(content)) {
                seq![state.compactions[fingerprint(content)].item]
            } else {
                seq![item]
            },
            (None, None) => seq![item],
        }),
{
    reveal(Seq::filter);
    let sent = |item: ResponseItem| is_sent(state, item);
    assert(seq![item].drop_last() =~= Seq::empty());
    assert(seq![item].drop_last().filter(sent) =~= Seq::empty());
    assert(seq![item].filter(sent) =~= if is_sent(state, item) {
        seq![item]
    } else {
        Seq::empty()
    });
    assert(prepared(state, seq![item]) =~= if is_sent(state, item) {
        seq![sent_as(state, item)]
    } else {
        Seq::empty()
    });
}

/// A session that has learned nothing sends every request as it is.
pub proof fn law_fresh_session_changes_nothing(state: RecoveryView, input: Seq<ResponseItem>)
    requires
        state.rejected == Set::<Fingerprint>::empty(),
        state.compactions == Map::<Fingerprint, EncodedItem>::empty(),
    ensures
        prepared(state, input) == input,
    decreases input.len(),
{
    if input.len() == 0 {
        reveal(Seq::filter);
        assert(prepared(state, input) =~= input);
    } else {
        law_fresh_session_changes_nothing(state, input.drop_last());
        law_items_are_prepared_one_by_one(state, input.drop_last(), seq![input.last()]);
        law_only_rejected_and_replaced_items_change(state, input.last());
        assert(input =~= input.drop_last() + seq![input.last()]);
    }
}

/// Replacements are taken all or not at all.
pub proof fn law_install_is_atomic(state: RecoveryView, items: Seq<(ResponseItem, EncodedItem)>)
    ensures
        installs(state, items) ==> installed(state, items).compactions == with_pairs(
            state.compactions,
            items,
        ),
        !installs(state, items) ==> installed(state, items) == state,
        !pairs_checkpoints(items) ==> installed(state, items) == state,
        !within_limits(with_pairs(state.compactions, items)) ==> installed(state, items) == state,
{
}

/// The last pair for a checkpoint decides what replaces it.
pub(crate) proof fn lemma_with_pairs_last(
    compactions: Map<Fingerprint, EncodedItem>,
    items: Seq<(ResponseItem, EncodedItem)>,
    i: int,
)
    requires
        pairs_checkpoints(items),
        0 <= i < items.len(),
        forall|j: int|
            i < j < items.len() ==> fingerprint(checkpoint_text((#[trigger] items[j]).0)->0)
                != fingerprint(checkpoint_text(items[i].0)->0),
    ensures
        with_pairs(compactions, items).contains_key(fingerprint(checkpoint_text(items[i].0)->0)),
        with_pairs(compactions, items)[fingerprint(checkpoint_text(items[i].0)->0)] == items[i].1,
    decreases items.len(),
{
    let shorter = items.drop_last();
    if i < items.len() - 1 {
        assert forall|j: int| 0 <= j < shorter.len() implies checkpoint_text(
            (#[trigger] shorter[j]).0,
        ) is Some && checkpoint_text(shorter[j].1.item) is Some by {
            assert(shorter[j] == items[j]);
        }
        assert forall|j: int| i < j < shorter.len() implies fingerprint(
            checkpoint_text((#[trigger] shorter[j]).0)->0,
        ) != fingerprint(checkpoint_text(shorter[i].0)->0) by {
            assert(shorter[j] == items[j]);
        }
        lemma_with_pairs_last(compactions, shorter, i);
        assert(items[items.len() - 1] == items.last());
    }
}

/// Once pairs are taken, each checkpoint among them is sent as its replacement until others are
/// installed, whatever is rejected meanwhile; where a checkpoint occurs more than once, the last
/// pair counts.
pub proof fn law_installed_replacement_is_sent(
    state: RecoveryView,
    items: Seq<(ResponseItem, EncodedItem)>,
    later: RecoveryView,
    i: int,
)
    requires
        installs(state, items),
        later.compactions == installed(state, items).compactions,
        0 <= i < items.len(),
        forall|j: int|
            i < j < items.len() ==> fingerprint(checkpoint_text((#[trigger] items[j]).0)->0)
                != fingerprint(checkpoint_text(items[i].0)->0),
    ensures
        prepared(later, seq![items[i].0]) == seq![items[i].1.item],
{
    lemma_with_pairs_last(state.compactions, items, i);
    law_only_rejected_and_replaced_items_change(later, items[i].0);
}

/// A checkpoint can be replaced again: the newest replacement is sent, whatever was installed
/// before.
pub proof fn law_newest_replacement_is_sent(
    state: RecoveryView,
    original: ResponseItem,
    replacement: EncodedItem,
)
    requires
        installs(state, seq![(original, replacement)]),
    ensures
        prepared(installed(state, seq![(original, replacement)]), seq![original]) == seq![
            replacement.item,
        ],
{
    let items = seq![(original, replacement)];
    law_installed_replacement_is_sent(state, items, installed(state, items), 0);
}

/// Checkpoints that no pair names are sent as before.
pub proof fn law_other_checkpoints_are_sent_as_before(
    state: RecoveryView,
    items: Seq<(ResponseItem, EncodedItem)>,
    item: ResponseItem,
)
    requires
        checkpoint_text(item) is Some,
        installs(state, items),
        forall|i: int|
            0 <= i < items.len() ==> fingerprint(checkpoint_text((#[trigger] items[i]).0)->0)
                != fingerprint(checkpoint_text(item)->0),
    ensures
        sent_as(installed(state, items), item) == sent_as(state, item),
{
    lemma_with_pairs_other(state.compactions, items, fingerprint(checkpoint_text(item)->0));
}

proof fn lemma_with_pairs_other(
    compactions: Map<Fingerprint, EncodedItem>,
    items: Seq<(ResponseItem, EncodedItem)>,
    key: Fingerprint,
)
    requires
        pairs_checkpoints(items),
        forall|i: int|
            0 <= i < items.len() ==> fingerprint(checkpoint_text((#[trigger] items[i]).0)->0)
                != key,
    ensures
        with_pairs(compactions, items).contains_key(key) == compactions.contains_key(key),
        compactions.contains_key(key) ==> with_pairs(compactions, items)[key] == compactions[key],
    decreases items.len(),
{
    if items.len() > 0 {
        let shorter = items.drop_last();
        assert forall|j: int| 0 <= j < shorter.len() implies checkpoint_text(
            (#[trigger] shorter[j]).0,
        ) is Some && checkpoint_text(shorter[j].1.item) is Some && fingerprint(
            checkpoint_text(shorter[j].0)->0,
        ) != key by {
            assert(shorter[j] == items[j]);
        }
        lemma_with_pairs_other(compactions, shorter, key);
        assert(items[items.len() - 1] == items.last());
    }
}

/// A document says that reasoning was sent to another region where it has this code and this type,
/// and the whole sentence stands in its message.
pub proof fn law_region_error_is_told_by_the_whole_sentence(response: ErrorResponse)
    ensures
        region_error(ErrorBody::Response(response)) <==> {
            &&& response.error.code@ == "validation_error"@
            &&& response.error.error_type@ == "invalid_request_error"@
            &&& exists|before: Seq<char>, after: Seq<char>|
                response.error.message@ == #[trigger] (before
                    + "encrypted reasoning is scoped to the region that produced it and cannot be replayed in a different region"@
                    + after)
        },
        !region_error(ErrorBody::Unrecognized),
{
    law_contained_text_has_a_before_and_an_after(
        response.error.message@,
        "encrypted reasoning is scoped to the region that produced it and cannot be replayed in a different region"@,
    );
}

/// A bad request whose message does not hold the sentence is no region error, whatever else the
/// message says: it is not recovered from, and the session stays as it is.
pub proof fn law_other_bad_requests_change_nothing(
    state: RecoveryView,
    response: ErrorResponse,
    input: Seq<ResponseItem>,
)
    requires
        forall|before: Seq<char>, after: Seq<char>|
            response.error.message@ != #[trigger] (before
                + "encrypted reasoning is scoped to the region that produced it and cannot be replayed in a different region"@
                + after),
    ensures
        ({
            let error = ApiError::Transport(
                TransportError::Http {
                    status: 400,
                    body: Some(ErrorBody::Response(response)),
                },
            );
            &&& !region_error(ErrorBody::Response(response))
            &&& !recoverable(error)
            &&& !recovers(state, error, input)
            &&& recovered(state, error, input) == state
        }),
{
    law_region_error_is_told_by_the_whole_sentence(response);
}

/// The errors that may come from encrypted state: a status of 400 whose document is the region
/// error, or a status of 500 whose document has this code and this type, whatever its message
/// says. No other error is one: no other status, no answer without a document, no other failure.
pub proof fn law_recoverable_errors_by_status_and_document(
    error: ApiError,
    status: u16,
    response: ErrorResponse,
    text: String,
)
    ensures
        recoverable(
            ApiError::Transport(
                TransportError::Http { status, body: Some(ErrorBody::Response(response)) },
            ),
        ) <==> {
            ||| status == 400 && response.error.code@ == "validation_error"@
                && response.error.error_type@ == "invalid_request_error"@ && exists|
                before: Seq<char>,
                after: Seq<char>,
            |
                response.error.message@ == #[trigger] (before
                    + "encrypted reasoning is scoped to the region that produced it and cannot be replayed in a different region"@
                    + after)
            ||| status == 500 && response.error.code@ == "internal_server_error"@
                && response.error.error_type@ == "server_error"@
        },
        internal_error(ErrorBody::Response(response)) <==> response.error.code@
            == "internal_server_error"@ && response.error.error_type@ == "server_error"@,
        !internal_error(ErrorBody::Unrecognized),
        recoverable(error) ==> (error matches ApiError::Transport(
            TransportError::Http { body: Some(ErrorBody::Response(_)), .. },
        )),
        !recoverable(
            ApiError::Transport(
                TransportError::Http { status, body: Some(ErrorBody::Unrecognized) },
            ),
        ),
        !recoverable(ApiError::Transport(TransportError::Http { status, body: None })),
        !recoverable(ApiError::Transport(TransportError::Other(text))),
        !recoverable(ApiError::Stream(text)),
        !recoverable(ApiError::Other(text)),
{
    law_region_error_is_told_by_the_whole_sentence(response);
}

/// The fingerprints are those of the encrypted reasoning items, and no others.
proof fn lemma_reasoning_fingerprints_are(items: Seq<ResponseItem>, key: Fingerprint)
    ensures
        reasoning_fingerprints(items).contains(key) <==> exists|i: int|
            0 <= i < items.len() && (#[trigger] items[i] matches ResponseItem::Reasoning {
                encrypted_content: Some(content),
                ..
            } && fingerprint(content@) == key),
        reasoning_fingerprints(items).finite(),
    decreases items.len(),
{
    if items.len() > 0 {
        let earlier = items.drop_last();
        lemma_reasoning_fingerprints_are(earlier, key);
        assert forall|i: int| 0 <= i < earlier.len() implies earlier[i] == #[trigger] items[i] by {}
        assert(items[items.len() - 1] == items.last());
        if reasoning_fingerprints(earlier).contains(key) {
            let i = choose|i: int|
                0 <= i < earlier.len() && (#[trigger] earlier[i] matches ResponseItem::Reasoning {
                    encrypted_content: Some(content),
                    ..
                } && fingerprint(content@) == key);
            assert(items[i] == earlier[i]);
        }
    }
}

/// When an error is answered, and what is remembered. `all` is what was rejected before and the
/// fingerprint of every encrypted reasoning item of the request. The error is answered where it
/// may come from encrypted state, `all` holds something new, and there are no more than 16,384;
/// then exactly `all` is rejected, and otherwise nothing changes. Replacements never change.
pub proof fn law_recovery_rejects_all_reasoning_of_the_request(
    state: RecoveryView,
    error: ApiError,
    input: Seq<ResponseItem>,
    all: Set<Fingerprint>,
)
    requires
        state.rejected.finite(),
        forall|key: Fingerprint| #[trigger]
            all.contains(key) <==> state.rejected.contains(key) || exists|i: int|
                0 <= i < input.len() && (#[trigger] input[i] matches ResponseItem::Reasoning {
                    encrypted_content: Some(content),
                    ..
                } && fingerprint(content@) == key),
    ensures
        recovers(state, error, input) <==> recoverable(error) && all != state.rejected && all.len()
            <= 16_384,
        recovered(state, error, input).rejected == (if recovers(state, error, input) {
            all
        } else {
            state.rejected
        }),
        recovered(state, error, input).compactions == state.compactions,
{
    let keys = reasoning_fingerprints(input);
    assert forall|key: Fingerprint| #[trigger] all.contains(key) <==> state.rejected.union(
        keys,
    ).contains(key) by {
        lemma_reasoning_fingerprints_are(input, key);
    }
    assert(all =~= state.rejected.union(keys));
    lemma_reasoning_fingerprints_are(input, arbitrary());
    let fresh = newly_rejected(state, input);
    assert(all =~= state.rejected.union(fresh));
    vstd::set_lib::lemma_set_disjoint_lens(state.rejected, fresh);
    if fresh.len() == 0 {
        assert(fresh =~= Set::empty());
        assert(all =~= state.rejected);
    } else {
        let key = fresh.choose();
        assert(fresh.contains(key));
        assert(all.contains(key) && !state.rejected.contains(key));
    }
}

/// Any reasoning item with encrypted content is rejected and left out, whatever else it carries:
/// a session with room answers an error for it once, and sends it no more.
pub proof fn law_any_encrypted_reasoning_is_rejected(
    state: RecoveryView,
    error: ApiError,
    content: String,
    rest: String,
    other_rest: String,
)
    requires
        state.rejected.finite(),
        state.rejected.len() < 16_384,
        recoverable(error),
    ensures
        ({
            let item = ResponseItem::Reasoning { encrypted_content: Some(content), rest };
            let again = ResponseItem::Reasoning {
                encrypted_content: Some(content),
                rest: other_rest,
            };
            let next = recovered(state, error, seq![item]);
            &&& recovers(state, error, seq![item]) <==> !state.rejected.contains(
                fingerprint(content@),
            )
            &&& next.rejected == state.rejected.insert(fingerprint(content@))
            &&& prepared(next, seq![item]) == Seq::<ResponseItem>::empty()
            &&& prepared(next, seq![again]) == Seq::<ResponseItem>::empty()
        }),
{
    let item = ResponseItem::Reasoning { encrypted_content: Some(content), rest };
    let again = ResponseItem::Reasoning { encrypted_content: Some(content), rest: other_rest };
    let key = fingerprint(content@);
    let all = state.rejected.insert(key);
    let input = seq![item];
    assert(input[0] == item);
    assert forall|k: Fingerprint| #[trigger] all.contains(k) <==> state.rejected.contains(k)
        || exists|i: int|
        0 <= i < input.len() && (#[trigger] input[i] matches ResponseItem::Reasoning {
            encrypted_content: Some(text),
            ..
        } && fingerprint(text@) == k) by {}
    law_recovery_rejects_all_reasoning_of_the_request(state, error, input, all);
    if state.rejected.contains(key) {
        assert(all =~= state.rejected);
    }
    let next = recovered(state, error, input);
    law_only_rejected_and_replaced_items_change(next, item);
    law_only_rejected_and_replaced_items_change(next, again);
}

/// What is sent for a single item, by its kind. Reasoning is left out where its content was
/// rejected. A checkpoint is sent as its replacement where its content has one. Everything else is
/// sent as it is. What an item carries besides does not count.
pub proof fn law_each_kind_of_item_is_sent_by_its_content(
    state: RecoveryView,
    content: String,
    rest: String,
    kind: String,
)
    ensures
        ({
            let reasoning = ResponseItem::Reasoning { encrypted_content: Some(content), rest };
            let plain = ResponseItem::Reasoning { encrypted_content: None, rest };
            let checkpoint = ResponseItem::Compaction { encrypted_content: content, rest };
            let other = ResponseItem::Other { kind, rest };
            let key = fingerprint(content@);
            &&& prepared(state, seq![reasoning]) == (if state.rejected.contains(key) {
                Seq::empty()
            } else {
                seq![reasoning]
            })
            &&& prepared(state, seq![checkpoint]) == (if state.compactions.contains_key(key) {
                seq![state.compactions[key].item]
            } else {
                seq![checkpoint]
            })
            &&& prepared(state, seq![plain]) == seq![plain]
            &&& prepared(state, seq![ResponseItem::CompactionTrigger]) == seq![
                ResponseItem::CompactionTrigger,
            ]
            &&& prepared(state, seq![other]) == seq![other]
            &&& prepared(state, Seq::empty()) == Seq::<ResponseItem>::empty()
        }),
{
    let reasoning = ResponseItem::Reasoning { encrypted_content: Some(content), rest };
    let plain = ResponseItem::Reasoning { encrypted_content: None, rest };
    let checkpoint = ResponseItem::Compaction { encrypted_content: content, rest };
    law_only_rejected_and_replaced_items_change(state, reasoning);
    law_only_rejected_and_replaced_items_change(state, plain);
    law_only_rejected_and_replaced_items_change(state, checkpoint);
    law_only_rejected_and_replaced_items_change(state, ResponseItem::CompactionTrigger);
    law_only_rejected_and_replaced_items_change(state, ResponseItem::Other { kind, rest });
    reveal(Seq::filter);
    assert(prepared(state, Seq::empty()) =~= Seq::<ResponseItem>::empty());
}

/// The pairs that are offered pair checkpoints where both items of each are compaction items,
/// whatever they carry. Each pair sets what replaces the content of its first item, over what an
/// earlier one set, and nothing else.
pub proof fn law_pairs_are_added_one_by_one(
    compactions: Map<Fingerprint, EncodedItem>,
    items: Seq<(ResponseItem, EncodedItem)>,
    content: String,
    rest: String,
    replacement: EncodedItem,
)
    ensures
        pairs_checkpoints(items) <==> forall|i: int|
            0 <= i < items.len() ==> (#[trigger] items[i]).0 is Compaction
                && items[i].1.item is Compaction,
        with_pairs(compactions, Seq::empty()) == compactions,
        with_pairs(
            compactions,
            items.push((ResponseItem::Compaction { encrypted_content: content, rest }, replacement)),
        ) == with_pairs(compactions, items).insert(fingerprint(content@), replacement),
{
    let pair = (ResponseItem::Compaction { encrypted_content: content, rest }, replacement);
    assert(items.push(pair).drop_last() =~= items);
    assert(with_pairs(compactions, Seq::empty()) =~= compactions);
}

/// The replacements weigh what their encodings are long, together: none weigh nothing, and one
/// more adds its length.
pub proof fn law_weight_is_the_length_of_the_encodings(
    compactions: Map<Fingerprint, EncodedItem>,
    key: Fingerprint,
    item: ResponseItem,
    len: usize,
)
    requires
        compactions.dom().finite(),
        !compactions.contains_key(key),
    ensures
        total_weight(Map::empty()) == 0,
        total_weight(compactions.insert(key, EncodedItem { item, encoded_len: Some(len) }))
            == total_weight(compactions) + len,
        total_weight(compactions) <= 4_194_304 - len ==> total_weight(
            compactions.insert(key, EncodedItem { item, encoded_len: Some(len) }),
        ) <= 4_194_304,
        !within_limits(compactions.insert(key, EncodedItem { item, encoded_len: None })),
{
    lemma_total_weight_insert(compactions, key, EncodedItem { item, encoded_len: Some(len) });
    lemma_total_weight_insert(compactions, key, EncodedItem { item, encoded_len: None });
}

/// Pairs are taken where all their items are compaction items, the replacements are then no more
/// than 64, and they weigh no more than 4 MiB together. Then they replace, and what was rejected
/// stays; otherwise nothing changes.
pub proof fn law_pairs_are_taken_within_the_limits(
    state: RecoveryView,
    items: Seq<(ResponseItem, EncodedItem)>,
)
    ensures
        installs(state, items) <==> {
            &&& forall|i: int|
                0 <= i < items.len() ==> (#[trigger] items[i]).0 is Compaction
                    && items[i].1.item is Compaction
            &&& with_pairs(state.compactions, items).dom().len() <= 64
            &&& total_weight(with_pairs(state.compactions, items)) <= 4 * 1024 * 1024
        },
        installs(state, items) ==> installed(state, items) == (RecoveryView {
            rejected: state.rejected,
            compactions: with_pairs(state.compactions, items),
        }),
        !installs(state, items) ==> installed(state, items) == state,
{
    if forall|i: int|
        0 <= i < items.len() ==> (#[trigger] items[i]).0 is Compaction
            && items[i].1.item is Compaction {
        assert(pairs_checkpoints(items));
    }
}

} // verus!
