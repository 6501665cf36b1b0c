//! Recover incompatible encrypted state without rewriting the saved conversation.
use crate::errors::{ApiError, ErrorBody, TransportError, BAD_REQUEST, INTERNAL_SERVER_ERROR};
use crate::fingerprint::{fingerprint, fingerprint_of, Fingerprint};
use crate::items::{
    checkpoint_content, checkpoint_text, reasoning_content, reasoning_text, ResponseItem,
};
use crate::text::{contains, contains_text};
use std::collections::{BTreeMap, BTreeSet};
use vstd::prelude::*;

verus! {

broadcast use {vstd::std_specs::btree::group_btree_axioms, vstd::laws_cmp::group_laws_cmp};

/// How many reasoning items a session remembers as rejected.
pub const MAX_REJECTED_ITEMS: usize = 16_384;

/// How many checkpoints a session replaces.
pub const MAX_COMPACTION_REPLACEMENTS: usize = 64;

/// How many bytes the replacements take together.
pub const MAX_COMPACTION_BYTES: usize = 4_194_304;

/// An item with the length of its JSON encoding, where it can be encoded.
#[derive(Debug, PartialEq, Eq)]
pub struct EncodedItem {
    pub item: ResponseItem,
    pub encoded_len: Option<usize>,
}

impl Clone for EncodedItem {
    fn clone(&self) -> (copy: Self)
        ensures
            copy == *self,
    {
        EncodedItem { item: self.item.clone(), encoded_len: self.encoded_len }
    }
}

/// What a session has learned about its encrypted state.
pub struct RecoveryView {
    /// The fingerprints of the reasoning that was rejected.
    pub rejected: Set<Fingerprint>,
    /// What is sent in place of a checkpoint, by the fingerprint of the checkpoint's content.
    pub compactions: Map<Fingerprint, EncodedItem>,
}

/// How much of the byte limit a replacement takes. One that cannot be encoded takes more than
/// all of it.
pub open spec fn weight(replacement: EncodedItem) -> nat {
    match replacement.encoded_len {
        Some(len) => len as nat,
        None => (MAX_COMPACTION_BYTES + 1) as nat,
    }
}

/// What the replacements take together.
pub open spec fn total_weight(compactions: Map<Fingerprint, EncodedItem>) -> nat
    decreases compactions.dom().len(),
    when compactions.dom().finite()
{
    if compactions.dom().len() == 0 {
        0
    } else {
        let key = compactions.dom().choose();
        weight(compactions[key]) + total_weight(compactions.remove(key))
    }
}

/// There are not too many replacements, and all of them fit together.
pub open spec fn within_limits(compactions: Map<Fingerprint, EncodedItem>) -> bool {
    &&& compactions.dom().len() <= MAX_COMPACTION_REPLACEMENTS
    &&& total_weight(compactions) <= MAX_COMPACTION_BYTES
}

impl RecoveryView {
    /// What holds of every state of a session.
    pub open spec fn valid(self) -> bool {
        &&& self.rejected.finite()
        &&& self.rejected.len() <= MAX_REJECTED_ITEMS
        &&& self.compactions.dom().finite()
        &&& within_limits(self.compactions)
        &&& forall|key: Fingerprint| #[trigger]
            self.compactions.contains_key(key) ==> checkpoint_text(
                self.compactions[key].item,
            ) is Some
    }
}

/// The item is still sent: it is not reasoning that was rejected.
pub open spec fn is_sent(state: RecoveryView, item: ResponseItem) -> bool {
    match reasoning_text(item) {
        Some(content) => !state.rejected.contains(fingerprint(content)),
        None => true,
    }
}

/// What is sent for the item: its replacement, where it is a checkpoint that has one.
pub open spec fn sent_as(state: RecoveryView, item: ResponseItem) -> ResponseItem {
    match checkpoint_text(item) {
        Some(content) => if state.compactions.contains_key(fingerprint(content)) {
            state.compactions[fingerprint(content)].item
        } else {
            item
        },
        None => item,
    }
}

/// What is sent for the items of a request, in their order.
pub open spec fn prepared(state: RecoveryView, input: Seq<ResponseItem>) -> Seq<ResponseItem> {
    input.filter(|item: ResponseItem| is_sent(state, item)).map_values(
        |item: ResponseItem| sent_as(state, item),
    )
}

/// The document says that encrypted reasoning was sent to a region that did not produce it.
pub open spec fn region_error(body: ErrorBody) -> bool {
    match body {
        ErrorBody::Response(response) => {
            &&& response.error.code@ == "validation_error"@
            &&& response.error.error_type@ == "invalid_request_error"@
            &&& contains_text(
                response.error.message@,
                "encrypted reasoning is scoped to the region that produced it and cannot be replayed in a different region"@,
            )
        },
        ErrorBody::Unrecognized => false,
    }
}

/// The document reports a failure of the endpoint itself.
pub open spec fn internal_error(body: ErrorBody) -> bool {
    match body {
        ErrorBody::Response(response) => {
            &&& response.error.code@ == "internal_server_error"@
            &&& response.error.error_type@ == "server_error"@
        },
        ErrorBody::Unrecognized => false,
    }
}

/// The error may come from encrypted state that the endpoint cannot read.
pub open spec fn recoverable(error: ApiError) -> bool {
    match error {
        ApiError::Transport(TransportError::Http { status, body: Some(body) }) => {
            ||| status == BAD_REQUEST && region_error(body)
            ||| status == INTERNAL_SERVER_ERROR && internal_error(body)
        },
        _ => false,
    }
}

/// The fingerprints of the encrypted reasoning among `items`.
pub open spec fn reasoning_fingerprints(items: Seq<ResponseItem>) -> Set<Fingerprint>
    decreases items.len(),
{
    if items.len() == 0 {
        Set::empty()
    } else {
        match reasoning_text(items.last()) {
            Some(content) => reasoning_fingerprints(items.drop_last()).insert(fingerprint(content)),
            None => reasoning_fingerprints(items.drop_last()),
        }
    }
}

/// The reasoning among `items` that was not rejected before.
pub open spec fn newly_rejected(state: RecoveryView, items: Seq<ResponseItem>) -> Set<Fingerprint> {
    reasoning_fingerprints(items).difference(state.rejected)
}

/// The error is answered by leaving reasoning out: it may come from encrypted state, there is
/// reasoning that was not left out yet, and the session can remember it.
pub open spec fn recovers(state: RecoveryView, error: ApiError, input: Seq<ResponseItem>) -> bool {
    &&& recoverable(error)
    &&& newly_rejected(state, input).len() > 0
    &&& state.rejected.len() + newly_rejected(state, input).len() <= MAX_REJECTED_ITEMS
}

/// The state once the error was handled.
pub open spec fn recovered(
    state: RecoveryView,
    error: ApiError,
    input: Seq<ResponseItem>,
) -> RecoveryView {
    if recovers(state, error, input) {
        RecoveryView {
            rejected: state.rejected.union(reasoning_fingerprints(input)),
            compactions: state.compactions,
        }
    } else {
        state
    }
}

/// Both items of each pair are checkpoints.
pub open spec fn pairs_checkpoints(items: Seq<(ResponseItem, EncodedItem)>) -> bool {
    forall|i: int|
        0 <= i < items.len() ==> checkpoint_text((#[trigger] items[i]).0) is Some
            && checkpoint_text(items[i].1.item) is Some
}

/// The replacements once each pair was added in turn.
pub open spec fn with_pairs(
    compactions: Map<Fingerprint, EncodedItem>,
    items: Seq<(ResponseItem, EncodedItem)>,
) -> Map<Fingerprint, EncodedItem>
    decreases items.len(),
{
    if items.len() == 0 {
        compactions
    } else {
        let (original, replacement) = items.last();
        with_pairs(compactions, items.drop_last()).insert(
            fingerprint(checkpoint_text(original).unwrap()),
            replacement,
        )
    }
}

/// The pairs are taken: they pair checkpoints, and the limits still hold.
pub open spec fn installs(state: RecoveryView, items: Seq<(ResponseItem, EncodedItem)>) -> bool {
    pairs_checkpoints(items) && within_limits(with_pairs(state.compactions, items))
}

/// The state once the pairs were offered.
pub open spec fn installed(
    state: RecoveryView,
    items: Seq<(ResponseItem, EncodedItem)>,
) -> RecoveryView {
    if installs(state, items) {
        RecoveryView {
            rejected: state.rejected,
            compactions: with_pairs(state.compactions, items),
        }
    } else {
        state
    }
}

/// Taking any one replacement out takes its weight out of the total.
proof fn lemma_total_weight_remove(compactions: Map<Fingerprint, EncodedItem>, key: Fingerprint)
    requires
        compactions.dom().finite(),
        compactions.contains_key(key),
    ensures
        total_weight(compactions) == weight(compactions[key]) + total_weight(
            compactions.remove(key),
        ),
    decreases compactions.dom().len(),
{
    let chosen = compactions.dom().choose();
    if chosen != key {
        lemma_total_weight_remove(compactions.remove(chosen), key);
        lemma_total_weight_remove(compactions.remove(key), chosen);
        assert(compactions.remove(chosen).remove(key) =~= compactions.remove(key).remove(chosen));
    }
}

/// Adding a replacement adds its weight, in place of that of the one it displaces.
pub(crate) proof fn lemma_total_weight_insert(
    compactions: Map<Fingerprint, EncodedItem>,
    key: Fingerprint,
    replacement: EncodedItem,
)
    requires
        compactions.dom().finite(),
    ensures
        total_weight(compactions.insert(key, replacement)) == weight(replacement) + (
        if compactions.contains_key(key) {
            total_weight(compactions) - weight(compactions[key])
        } else {
            total_weight(compactions) as int
        }),
{
    let larger = compactions.insert(key, replacement);
    lemma_total_weight_remove(larger, key);
    assert(larger.remove(key) =~= compactions.remove(key));
    if compactions.contains_key(key) {
        lemma_total_weight_remove(compactions, key);
    } else {
        assert(compactions.remove(key) =~= compactions);
    }
}

/// The replacements weigh no more than so many of the heaviest.
proof fn lemma_total_weight_bound(compactions: Map<Fingerprint, EncodedItem>)
    requires
        compactions.dom().finite(),
    ensures
        total_weight(compactions) <= compactions.dom().len() * usize::MAX,
    decreases compactions.dom().len(),
{
    if compactions.dom().len() > 0 {
        let key = compactions.dom().choose();
        lemma_total_weight_bound(compactions.remove(key));
        let n = compactions.dom().len();
        assert(n * usize::MAX == (n - 1) * usize::MAX + usize::MAX) by (nonlinear_arith);
    }
}

proof fn lemma_with_pairs_finite(
    compactions: Map<Fingerprint, EncodedItem>,
    items: Seq<(ResponseItem, EncodedItem)>,
)
    requires
        compactions.dom().finite(),
    ensures
        with_pairs(compactions, items).dom().finite(),
    decreases items.len(),
{
    if items.len() > 0 {
        lemma_with_pairs_finite(compactions, items.drop_last());
    }
}

/// Pairs of checkpoints leave only checkpoints as replacements.
proof fn lemma_with_pairs_checkpoints(
    compactions: Map<Fingerprint, EncodedItem>,
    items: Seq<(ResponseItem, EncodedItem)>,
)
    requires
        pairs_checkpoints(items),
        forall|key: Fingerprint| #[trigger]
            compactions.contains_key(key) ==> checkpoint_text(compactions[key].item) is Some,
    ensures
        forall|key: Fingerprint| #[trigger]
            with_pairs(compactions, items).contains_key(key) ==> checkpoint_text(
                with_pairs(compactions, items)[key].item,
            ) is Some,
    decreases items.len(),
{
    if items.len() > 0 {
        assert forall|i: int| 0 <= i < items.drop_last().len() implies checkpoint_text(
            (#[trigger] items.drop_last()[i]).0,
        ) is Some && checkpoint_text(items.drop_last()[i].1.item) is Some by {
            assert(items[i] == items.drop_last()[i]);
        }
        lemma_with_pairs_checkpoints(compactions, items.drop_last());
    }
}

/// Whether the error document says that encrypted reasoning was sent to a region that did not
/// produce it.
pub fn is_region_error(body: &ErrorBody) -> (result: bool)
    ensures
        result == region_error(*body),
{
    match body {
        ErrorBody::Response(response) => {
            response.error.code == "validation_error".to_owned() && response.error.error_type
                == "invalid_request_error".to_owned() && contains(
                response.error.message.as_str(),
                "encrypted reasoning is scoped to the region that produced it and cannot be replayed in a different region",
            )
        },
        ErrorBody::Unrecognized => false,
    }
}

/// Whether the error may come from encrypted state that the endpoint cannot read.
///
/// Some models report such state as a failure of the endpoint. That is taken as a fallback,
/// not as proof that the region changed.
pub fn is_recoverable(error: &ApiError) -> (result: bool)
    ensures
        result == recoverable(*error),
{
    match error {
        ApiError::Transport(TransportError::Http { status, body: Some(body) }) => {
            if *status == BAD_REQUEST {
                is_region_error(body)
            } else if *status == INTERNAL_SERVER_ERROR {
                match body {
                    ErrorBody::Response(response) => response.error.code
                        == "internal_server_error".to_owned() && response.error.error_type
                        == "server_error".to_owned(),
                    ErrorBody::Unrecognized => false,
                }
            } else {
                false
            }
        },
        _ => false,
    }
}

/// The fingerprint of the encrypted content of a reasoning item.
pub fn reasoning_digest(item: &ResponseItem) -> (result: Option<Fingerprint>)
    ensures
        result == (match reasoning_text(*item) {
            Some(content) => Some(fingerprint(content)),
            None => None,
        }),
{
    match reasoning_content(item) {
        Some(content) => Some(fingerprint_of(content.as_str())),
        None => None,
    }
}

/// What a session has learned about its encrypted state: which reasoning was rejected, and which
/// checkpoints were replaced. Both are bounded, however often the endpoint changes regions.
#[derive(Debug)]
pub struct ReasoningRecovery {
    rejected: BTreeSet<Fingerprint>,
    compactions: BTreeMap<Fingerprint, EncodedItem>,
    /// What the replacements take together.
    compaction_bytes: usize,
}

impl View for ReasoningRecovery {
    type V = RecoveryView;

    closed spec fn view(&self) -> RecoveryView {
        RecoveryView { rejected: self.rejected@, compactions: self.compactions@ }
    }
}

impl ReasoningRecovery {
    /// What holds of every session.
    pub closed spec fn wf(&self) -> bool {
        &&& self@.valid()
        &&& self.compaction_bytes == total_weight(self@.compactions)
    }
}

/// What holds of every state of a session holds of every value that the functions below leave.
pub proof fn law_every_session_is_valid(recovery: ReasoningRecovery)
    requires
        recovery.wf(),
    ensures
        recovery@.valid(),
{
}

impl Default for ReasoningRecovery {
    /// A session in which nothing was rejected or replaced.
    fn default() -> (recovery: Self)
        ensures
            recovery.wf(),
            recovery@.rejected == Set::<Fingerprint>::empty(),
            recovery@.compactions == Map::<Fingerprint, EncodedItem>::empty(),
    {
        ReasoningRecovery {
            rejected: BTreeSet::new(),
            compactions: BTreeMap::new(),
            compaction_bytes: 0,
        }
    }
}

impl ReasoningRecovery {
    /// Leaves rejected reasoning out of a request, and puts replacements in place of the
    /// checkpoints that have one. Everything else stays as it is, in its place.
    pub fn prepare(&self, input: &mut Vec<ResponseItem>)
        requires
            self.wf(),
        ensures
            final(input)@ == prepared(self@, old(input)@),
    {
        let ghost original = input@;
        let ghost sent = |item: ResponseItem| is_sent(self@, item);
        let ghost replace = |item: ResponseItem| sent_as(self@, item);
        let mut items: Vec<ResponseItem> = Vec::new();
        std::mem::swap(&mut items, input);
        let mut outgoing: Vec<ResponseItem> = Vec::new();
        for item in it: items
            invariant
                it.seq() == original,
                sent == (|item: ResponseItem| is_sent(self@, item)),
                replace == (|item: ResponseItem| sent_as(self@, item)),
                outgoing@ == original.take(it.index()).filter(sent).map_values(replace),
        {
            proof {
                reveal(Seq::filter);
                let longer = original.take(it.index() + 1);
                assert(longer.drop_last() =~= original.take(it.index()));
                assert(longer.last() == item);
            }
            let keep: bool = match reasoning_digest(&item) {
                Some(key) => !self.rejected.contains(&key),
                None => true,
            };
            assert(keep == sent(item));
            if keep {
                let replacement: Option<ResponseItem> = match checkpoint_content(&item) {
                    Some(content) => match self.compactions.get(&fingerprint_of(content.as_str())) {
                        Some(replacement) => Some(replacement.item.clone()),
                        None => None,
                    },
                    None => None,
                };
                let outgoing_item = match replacement {
                    Some(replacement) => replacement,
                    None => item,
                };
                assert(outgoing_item == replace(item));
                outgoing.push(outgoing_item);
            }
            assert(outgoing@ =~= original.take(it.index() + 1).filter(sent).map_values(replace));
        }
        assert(original.take(original.len() as int) =~= original);
        *input = outgoing;
    }

    /// Takes replacements for checkpoints, given as pairs of the checkpoint and what is sent in
    /// its place. Either all of them are taken or none.
    pub fn install_compactions(&mut self, items: Vec<(ResponseItem, EncodedItem)>) -> (taken: bool)
        requires
            old(self).wf(),
        ensures
            final(self).wf(),
            taken == installs(old(self)@, items@),
            final(self)@ == installed(old(self)@, items@),
    {
        let ghost before = self@.compactions;
        let ghost pairs = items@;
        let mut updated = self.compactions.clone();
        let mut bytes: u128 = self.compaction_bytes as u128;
        for pair in it: items
            invariant
                it.seq() == pairs,
                before.dom().finite(),
                updated@ == with_pairs(before, pairs.take(it.index())),
                bytes == total_weight(updated@),
                forall|i: int|
                    0 <= i < it.index() ==> checkpoint_text((#[trigger] pairs[i]).0) is Some
                        && checkpoint_text(pairs[i].1.item) is Some,
                *self == *old(self),
                self.wf(),
        {
            let (original, replacement) = pair;
            proof {
                assert(pairs[it.index()] == pair);
                assert(pairs.take(it.index() + 1).drop_last() =~= pairs.take(it.index()));
                lemma_with_pairs_finite(before, pairs.take(it.index()));
            }
            let key: Fingerprint = match checkpoint_content(&original) {
                Some(content) => fingerprint_of(content.as_str()),
                None => return false,
            };
            if checkpoint_content(&replacement.item).is_none() {
                return false;
            }
            let added: usize = match replacement.encoded_len {
                Some(len) => len,
                None => MAX_COMPACTION_BYTES + 1,
            };
            let ghost smaller = updated@;
            proof {
                lemma_total_weight_insert(smaller, key, replacement);
                lemma_total_weight_bound(smaller);
                let n = updated.len();
                assert(n * usize::MAX + usize::MAX <= u128::MAX) by (nonlinear_arith)
                    requires
                        n <= usize::MAX,
                        usize::MAX <= u64::MAX,
                ;
                if smaller.contains_key(key) {
                    lemma_total_weight_remove(smaller, key);
                }
            }
            let displaced = updated.insert(key, replacement);
            let freed: usize = match displaced {
                Some(displaced) => match displaced.encoded_len {
                    Some(len) => len,
                    None => MAX_COMPACTION_BYTES + 1,
                },
                None => 0,
            };
            bytes = bytes - freed as u128 + added as u128;
        }
        proof {
            assert(pairs.take(pairs.len() as int) =~= pairs);
            lemma_with_pairs_finite(before, pairs);
            lemma_with_pairs_checkpoints(before, pairs);
        }
        if updated.len() > MAX_COMPACTION_REPLACEMENTS || bytes > MAX_COMPACTION_BYTES as u128 {
            return false;
        }
        self.compactions = updated;
        self.compaction_bytes = bytes as usize;
        true
    }

    /// Answers an error of a request: where it may come from encrypted state, the reasoning in
    /// the request is rejected and left out from then on. False where nothing would change, or
    /// where there is too much to remember.
    pub fn recover(&mut self, error: &ApiError, input: &[ResponseItem]) -> (result: bool)
        requires
            old(self).wf(),
        ensures
            final(self).wf(),
            result == recovers(old(self)@, *error, input@),
            final(self)@ == recovered(old(self)@, *error, input@),
    {
        if !is_recoverable(error) {
            return false;
        }
        let ghost before = self@.rejected;
        let mut fresh: BTreeSet<Fingerprint> = BTreeSet::new();
        let mut fresh_keys: Vec<Fingerprint> = Vec::new();
        let mut i: usize = 0;
        while i < input.len()
            invariant
                i <= input.len(),
                *self == *old(self),
                self.wf(),
                before == self@.rejected,
                fresh@.finite(),
                fresh@ == reasoning_fingerprints(input@.take(i as int)).difference(before),
                forall|key: Fingerprint| fresh@.contains(key) <==> fresh_keys@.contains(key),
            decreases input.len() - i,
        {
            assert(input@.take(i + 1).drop_last() =~= input@.take(i as int));
            if let Some(key) = reasoning_digest(&input[i]) {
                if !self.rejected.contains(&key) {
                    if fresh.insert(key) {
                        let ghost earlier = fresh_keys@;
                        fresh_keys.push(key);
                        assert forall|k: Fingerprint| fresh@.contains(k) implies fresh_keys@.contains(
                            k,
                        ) by {
                            if k == key {
                                assert(fresh_keys@[earlier.len() as int] == key);
                            } else {
                                let j = choose|j: int| 0 <= j < earlier.len() && earlier[j] == k;
                                assert(fresh_keys@[j] == k);
                            }
                        }
                    }
                }
            }
            i += 1;
            assert(fresh@ =~= reasoning_fingerprints(input@.take(i as int)).difference(before));
        }
        assert(input@.take(input@.len() as int) =~= input@);
        let new_count: usize = fresh.len();
        if new_count == 0 || new_count > MAX_REJECTED_ITEMS - self.rejected.len() {
            return false;
        }
        let mut j: usize = 0;
        while j < fresh_keys.len()
            invariant
                j <= fresh_keys.len(),
                self.compactions == old(self).compactions,
                self.compaction_bytes == old(self).compaction_bytes,
                self@.rejected == before.union(fresh_keys@.take(j as int).to_set()),
            decreases fresh_keys.len() - j,
        {
            let key: Fingerprint = fresh_keys[j];
            self.rejected.insert(key);
            proof {
                let shorter = fresh_keys@.take(j as int);
                let longer = fresh_keys@.take(j + 1);
                assert(longer =~= shorter.push(key));
                assert(longer[j as int] == key);
                assert forall|k: Fingerprint| longer.contains(k) <==> (shorter.contains(k) || k
                    == key) by {
                    if shorter.contains(k) {
                        let at = choose|at: int| 0 <= at < shorter.len() && shorter[at] == k;
                        assert(longer[at] == k);
                    }
                }
                assert(self@.rejected =~= before.union(longer.to_set()));
            }
            j += 1;
        }
        proof {
            assert(fresh_keys@.take(fresh_keys@.len() as int) =~= fresh_keys@);
            assert(self@.rejected =~= before.union(fresh@));
            assert(self@.rejected =~= before.union(reasoning_fingerprints(input@)));
            vstd::set_lib::lemma_set_disjoint_lens(before, fresh@);
        }
        true
    }
}

} // verus!
