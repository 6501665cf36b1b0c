//! Recreate region-bound checkpoints from their durable source windows.
//!
//! Work on a private copy of the transcript, and hand replacements out only after every
//! checkpoint that the conversation holds was made again. Never omit a checkpoint.
//!
//! Each state of the work is a type of its own. What the session has to do in between (rebuild a
//! history, send a request) it does with what the state holds, and it gets the next state by
//! handing back the outcome.
use crate::items::{
    bare_items, checkpoint_content, checkpoint_text, checkpoint_texts, rollout_view, CompactedItem,
    HistoryItem, ResponseItem, RolloutItem, RolloutView,
};
use crate::refusal::Refusal;
use crate::replay_budget::{
    check_replay_size, fits_context, replay_input, replayed, ModelWindow, MAX_REPLAY_BYTES,
    MAX_REPLAY_ITEMS,
};
use vstd::prelude::*;
use vstd::slice::slice_subrange;

verus! {

/// How many checkpoints are made again at once, those still to be made included.
pub const MAX_CHECKPOINTS: usize = 16;

/// How far the work has come.
pub struct RegionView {
    /// The conversation whose checkpoints were rejected.
    pub history: Seq<ResponseItem>,
    /// The private copy of the transcript.
    pub rollout: Seq<RolloutView>,
    /// The contents of the checkpoints that are still to be made again, the next one last.
    pub pending: Seq<Seq<char>>,
    /// The new checkpoints, by the content of the checkpoint that each replaces.
    pub replacements: Map<Seq<char>, ResponseItem>,
    /// The contents of the new checkpoints.
    pub regenerated: Set<Seq<char>>,
}

/// The transcript item records the checkpoint in the history that it puts in place.
pub open spec fn records(item: RolloutView, content: Seq<char>) -> bool {
    match item {
        RolloutView::Compacted { replacement_history: Some(items), .. } => exists|i: int|
            0 <= i < items.len() && checkpoint_text((#[trigger] items[i]).item) == Some(content),
        _ => false,
    }
}

/// `index` is the last place at which the transcript records the checkpoint.
pub open spec fn last_record(rollout: Seq<RolloutView>, content: Seq<char>, index: int) -> bool {
    &&& 0 <= index < rollout.len()
    &&& records(rollout[index], content)
    &&& forall|later: int|
        index < later < rollout.len() ==> !records(#[trigger] rollout[later], content)
}

/// The checkpoints still to be made, without those at the end that were made meanwhile.
pub open spec fn still_pending(
    pending: Seq<Seq<char>>,
    replacements: Map<Seq<char>, ResponseItem>,
) -> Seq<Seq<char>>
    decreases pending.len(),
{
    if pending.len() > 0 && replacements.contains_key(pending.last()) {
        still_pending(pending.drop_last(), replacements)
    } else {
        pending
    }
}

/// The first checkpoint among `items` that was not made again.
pub open spec fn first_unregenerated(items: Seq<ResponseItem>, regenerated: Set<Seq<char>>) -> Option<
    Seq<char>,
>
    decreases items.len(),
{
    if items.len() == 0 {
        None
    } else {
        match first_unregenerated(items.drop_last(), regenerated) {
            Some(content) => Some(content),
            None => match checkpoint_text(items.last()) {
                Some(content) => if regenerated.contains(content) {
                    None
                } else {
                    Some(content)
                },
                None => None,
            },
        }
    }
}

/// The history with `output` in place of each checkpoint of that content.
pub open spec fn history_with_output(
    items: Seq<HistoryItem>,
    content: Seq<char>,
    output: ResponseItem,
) -> Seq<HistoryItem> {
    Seq::new(
        items.len(),
        |i: int|
            if checkpoint_text(items[i].item) == Some(content) {
                HistoryItem { item: output, annotation: items[i].annotation }
            } else {
                items[i]
            },
    )
}

/// The transcript item with `output` in place of each checkpoint of that content.
pub open spec fn record_with_output(
    item: RolloutView,
    content: Seq<char>,
    output: ResponseItem,
) -> RolloutView {
    match item {
        RolloutView::Compacted { replacement_history: Some(items), rest } => RolloutView::Compacted {
            replacement_history: Some(history_with_output(items, content, output)),
            rest,
        },
        other => other,
    }
}

/// The checkpoints of the conversation, each with the one that replaces it, in their order.
pub open spec fn replacement_pairs(
    history: Seq<ResponseItem>,
    replacements: Map<Seq<char>, ResponseItem>,
) -> Seq<(ResponseItem, ResponseItem)>
    decreases history.len(),
{
    if history.len() == 0 {
        Seq::empty()
    } else {
        let earlier = replacement_pairs(history.drop_last(), replacements);
        match checkpoint_text(history.last()) {
            Some(content) => if replacements.contains_key(content) {
                earlier.push((history.last(), replacements[content]))
            } else {
                earlier
            },
            None => earlier,
        }
    }
}

impl RegionView {
    /// What holds at every stage.
    pub open spec fn valid(self) -> bool {
        &&& self.replacements.dom().finite()
        &&& self.replacements.dom().len() <= MAX_CHECKPOINTS
        // Each checkpoint is replaced by another one, which was made for this.
        &&& forall|content: Seq<char>| #[trigger]
            self.replacements.contains_key(content) ==> (checkpoint_text(
                self.replacements[content],
            ) matches Some(made) && made != content && self.regenerated.contains(made))
        &&& self.remembers_history()
    }

    /// No checkpoint of the conversation is forgotten.
    pub open spec fn remembers_history(self) -> bool {
        forall|i: int|
            0 <= i < self.history.len() ==> (checkpoint_text(
                #[trigger] self.history[i],
            ) matches Some(content) ==> self.pending.contains(content)
                || self.replacements.contains_key(content))
    }

    /// The checkpoint that is made next, and where the transcript records it.
    pub open spec fn targets(self, index: int) -> bool {
        &&& self.pending.len() > 0
        &&& self.pending.len() + self.replacements.dom().len() <= MAX_CHECKPOINTS
        &&& !self.replacements.contains_key(self.pending.last())
        &&& last_record(self.rollout, self.pending.last(), index)
    }

    /// The stage at which a checkpoint must be made again first.
    pub open spec fn with_ancestor(self, ancestor: Seq<char>) -> RegionView {
        RegionView { pending: self.pending.push(ancestor), ..self }
    }

    /// The stage at which `output` replaces the checkpoint that was next.
    pub open spec fn with_output(self, index: int, output: ResponseItem) -> RegionView {
        let content = self.pending.last();
        RegionView {
            history: self.history,
            rollout: self.rollout.update(
                index,
                record_with_output(self.rollout[index], content, output),
            ),
            pending: self.pending.drop_last(),
            replacements: self.replacements.insert(content, output),
            regenerated: self.regenerated.insert(checkpoint_text(output)->0),
        }
    }
}

/// Nothing is forgotten where the checkpoint that was next has a replacement or is still pending,
/// and all before it are still pending.
proof fn lemma_history_stays_remembered(before: RegionView, after: RegionView)
    requires
        before.remembers_history(),
        after.history == before.history,
        before.pending.len() > 0,
        before.pending.drop_last().is_prefix_of(after.pending),
        after.replacements.contains_key(before.pending.last()) || before.pending.is_prefix_of(
            after.pending,
        ),
        forall|content: Seq<char>| #[trigger]
            before.replacements.contains_key(content) ==> after.replacements.contains_key(content),
    ensures
        after.remembers_history(),
{
    assert forall|i: int| 0 <= i < after.history.len() implies (checkpoint_text(
        #[trigger] after.history[i],
    ) matches Some(wanted) ==> after.pending.contains(wanted)
        || after.replacements.contains_key(wanted)) by {
        if let Some(wanted) = checkpoint_text(after.history[i]) {
            if !after.replacements.contains_key(wanted) {
                let j = choose|j: int|
                    0 <= j < before.pending.len() && before.pending[j] == wanted;
                if j < before.pending.len() - 1 {
                    assert(before.pending.drop_last()[j] == wanted);
                }
                assert(after.pending[j] == wanted);
            }
        }
    }
}

/// The texts as sequences of characters.
pub open spec fn texts(strings: Seq<String>) -> Seq<Seq<char>> {
    Seq::new(strings.len(), |i: int| strings[i]@)
}

/// What a list of pairs maps a text to: the last pair for it counts.
pub open spec fn pairs_map(pairs: Seq<(String, ResponseItem)>) -> Map<Seq<char>, ResponseItem>
    decreases pairs.len(),
{
    if pairs.len() == 0 {
        Map::empty()
    } else {
        pairs_map(pairs.drop_last()).insert(pairs.last().0@, pairs.last().1)
    }
}

/// Whether the text is among the strings.
fn holds_text(strings: &Vec<String>, text: &String) -> (result: bool)
    ensures
        result == texts(strings@).contains(text@),
{
    let mut i: usize = 0;
    while i < strings.len()
        invariant
            i <= strings.len(),
            forall|j: int| 0 <= j < i ==> #[trigger] texts(strings@)[j] != text@,
        decreases strings.len() - i,
    {
        if strings[i] == *text {
            assert(texts(strings@)[i as int] == text@);
            return true;
        }
        i += 1;
    }
    false
}

/// What the pairs map the text to.
fn lookup<'a>(pairs: &'a Vec<(String, ResponseItem)>, text: &String) -> (found: Option<
    &'a ResponseItem,
>)
    ensures
        match found {
            Some(item) => pairs_map(pairs@).contains_key(text@) && pairs_map(pairs@)[text@] == *item,
            None => !pairs_map(pairs@).contains_key(text@),
        },
{
    let mut i: usize = pairs.len();
    assert(pairs@.take(i as int) =~= pairs@);
    while i > 0
        invariant
            i <= pairs.len(),
            pairs_map(pairs@).contains_key(text@) == pairs_map(pairs@.take(i as int)).contains_key(
                text@,
            ),
            pairs_map(pairs@.take(i as int)).contains_key(text@) ==> pairs_map(pairs@)[text@]
                == pairs_map(pairs@.take(i as int))[text@],
        decreases i,
    {
        assert(pairs@.take(i as int).drop_last() =~= pairs@.take(i - 1));
        if pairs[i - 1].0 == *text {
            return Some(&pairs[i - 1].1);
        }
        i -= 1;
    }
    None
}

/// Whether the transcript item records the checkpoint.
fn records_checkpoint(item: &RolloutItem, content: &String) -> (result: bool)
    ensures
        result == records(item@, content@),
{
    match item {
        RolloutItem::Compacted(CompactedItem { replacement_history: Some(items), .. }) => {
            let mut i: usize = 0;
            while i < items.len()
                invariant
                    i <= items.len(),
                    item@ matches RolloutView::Compacted { replacement_history: Some(recorded), .. }
                        && recorded == items@,
                    forall|j: int|
                        0 <= j < i ==> checkpoint_text((#[trigger] items@[j]).item) != Some(
                            content@,
                        ),
                decreases items.len() - i,
            {
                if let Some(recorded) = checkpoint_content(&items[i].item) {
                    if *recorded == *content {
                        assert(checkpoint_text(items@[i as int].item) == Some(content@));
                        return true;
                    }
                }
                i += 1;
            }
            false
        },
        _ => false,
    }
}

/// The last place at which the transcript records the checkpoint.
fn find_last_record(rollout: &Vec<RolloutItem>, content: &String) -> (found: Option<usize>)
    ensures
        match found {
            Some(index) => last_record(rollout_view(rollout@), content@, index as int),
            None => forall|i: int|
                0 <= i < rollout@.len() ==> !records(
                    #[trigger] rollout_view(rollout@)[i],
                    content@,
                ),
        },
{
    let mut i: usize = rollout.len();
    while i > 0
        invariant
            i <= rollout.len(),
            forall|later: int|
                i <= later < rollout@.len() ==> !records(
                    #[trigger] rollout_view(rollout@)[later],
                    content@,
                ),
        decreases i,
    {
        i -= 1;
        if records_checkpoint(&rollout[i], content) {
            assert(rollout_view(rollout@)[i as int] == rollout@[i as int]@);
            return Some(i);
        }
        assert(rollout_view(rollout@)[i as int] == rollout@[i as int]@);
    }
    None
}

/// Puts `output` in place of each checkpoint of that content.
fn put_output(items: &mut Vec<HistoryItem>, content: &String, output: &ResponseItem)
    ensures
        final(items)@ == history_with_output(old(items)@, content@, *output),
{
    let ghost before = items@;
    let mut i: usize = 0;
    while i < items.len()
        invariant
            i <= items.len() == before.len(),
            forall|j: int|
                0 <= j < i ==> #[trigger] items@[j] == history_with_output(
                    before,
                    content@,
                    *output,
                )[j],
            forall|j: int| i <= j < before.len() ==> #[trigger] items@[j] == before[j],
        decreases items.len() - i,
    {
        let replace: bool = match checkpoint_content(&items[i].item) {
            Some(recorded) => *recorded == *content,
            None => false,
        };
        if replace {
            items[i].item = output.clone();
        }
        i += 1;
    }
    assert(items@ =~= history_with_output(before, content@, *output));
}

/// The first checkpoint in the window that was not made again.
fn find_unregenerated(window: &[HistoryItem], regenerated: &Vec<String>) -> (found: Option<String>)
    ensures
        match found {
            Some(content) => first_unregenerated(bare_items(window@), texts(regenerated@).to_set())
                == Some(content@),
            None => first_unregenerated(bare_items(window@), texts(regenerated@).to_set()) is None,
        },
{
    let ghost items = bare_items(window@);
    let ghost made = texts(regenerated@).to_set();
    let mut i: usize = 0;
    while i < window.len()
        invariant
            i <= window.len(),
            items == bare_items(window@),
            made == texts(regenerated@).to_set(),
            first_unregenerated(items.take(i as int), made) is None,
        decreases window.len() - i,
    {
        assert(items.take(i + 1).drop_last() =~= items.take(i as int));
        assert(items.take(i + 1).last() == window@[i as int].item);
        if let Some(content) = checkpoint_content(&window[i].item) {
            if !holds_text(regenerated, content) {
                proof {
                    lemma_first_unregenerated_stays(items, made, i + 1);
                }
                return Some(content.clone());
            }
        }
        i += 1;
    }
    assert(items.take(items.len() as int) =~= items);
    None
}

/// What is found in the first items is found in all.
proof fn lemma_first_unregenerated_stays(
    items: Seq<ResponseItem>,
    regenerated: Set<Seq<char>>,
    n: int,
)
    requires
        0 <= n <= items.len(),
        first_unregenerated(items.take(n), regenerated) is Some,
    ensures
        first_unregenerated(items, regenerated) == first_unregenerated(items.take(n), regenerated),
    decreases items.len(),
{
    if n == items.len() {
        assert(items.take(n) =~= items);
    } else {
        assert(items.drop_last().take(n) =~= items.take(n));
        lemma_first_unregenerated_stays(items.drop_last(), regenerated, n);
    }
}

/// The contents of the checkpoints among the items.
fn collect_checkpoints(items: &Vec<ResponseItem>) -> (contents: Vec<String>)
    ensures
        texts(contents@) == checkpoint_texts(items@),
{
    let mut contents: Vec<String> = Vec::new();
    let mut i: usize = 0;
    assert(texts(contents@) =~= Seq::empty());
    while i < items.len()
        invariant
            i <= items.len(),
            texts(contents@) == checkpoint_texts(items@.take(i as int)),
        decreases items.len() - i,
    {
        assert(items@.take(i + 1).drop_last() =~= items@.take(i as int));
        if let Some(content) = checkpoint_content(&items[i]) {
            let ghost shorter = contents@;
            contents.push(content.clone());
            assert(texts(contents@) =~= texts(shorter).push(content@));
        }
        i += 1;
    }
    assert(items@.take(items@.len() as int) =~= items@);
    contents
}

/// Each checkpoint is among the checkpoint contents.
proof fn lemma_checkpoint_texts_contain(items: Seq<ResponseItem>, i: int)
    requires
        0 <= i < items.len(),
        checkpoint_text(items[i]) is Some,
    ensures
        checkpoint_texts(items).contains(checkpoint_text(items[i])->0),
    decreases items.len(),
{
    let all = checkpoint_texts(items);
    let content = checkpoint_text(items[i])->0;
    if i == items.len() - 1 {
        assert(all[all.len() - 1] == content);
    } else {
        let earlier = checkpoint_texts(items.drop_last());
        lemma_checkpoint_texts_contain(items.drop_last(), i);
        let j = choose|j: int| 0 <= j < earlier.len() && earlier[j] == content;
        assert(all[j] == content);
    }
}

/// What came of reading the transcript.
#[derive(Debug, PartialEq, Eq)]
pub enum Transcript {
    /// The session keeps none.
    Unavailable,
    /// It could not be written out, with the error.
    FlushFailed(String),
    /// It could not be read, with the error.
    LoadFailed(String),
    Loaded(Vec<RolloutItem>),
}

/// The stage at which nothing was made yet and no transcript was read.
pub open spec fn initial(history: Seq<ResponseItem>) -> RegionView {
    RegionView {
        history,
        rollout: Seq::empty(),
        pending: checkpoint_texts(history),
        replacements: Map::empty(),
        regenerated: Set::empty(),
    }
}

/// A conversation whose checkpoints were rejected.
#[derive(Debug)]
pub struct Affected {
    history: Vec<ResponseItem>,
    pending: Vec<String>,
}

impl View for Affected {
    type V = RegionView;

    closed spec fn view(&self) -> RegionView {
        RegionView {
            history: self.history@,
            rollout: Seq::empty(),
            pending: texts(self.pending@),
            replacements: Map::empty(),
            regenerated: Set::empty(),
        }
    }
}

/// Checkpoints of a conversation that are being made again.
#[derive(Debug)]
pub struct RegionRecovery {
    history: Vec<ResponseItem>,
    rollout: Vec<RolloutItem>,
    pending: Vec<String>,
    replacements: Vec<(String, ResponseItem)>,
    regenerated: Vec<String>,
}

impl View for RegionRecovery {
    type V = RegionView;

    closed spec fn view(&self) -> RegionView {
        RegionView {
            history: self.history@,
            rollout: rollout_view(self.rollout@),
            pending: texts(self.pending@),
            replacements: pairs_map(self.replacements@),
            regenerated: texts(self.regenerated@).to_set(),
        }
    }
}

/// A checkpoint whose source window is to be rebuilt.
#[derive(Debug)]
pub struct Rebuild {
    recovery: RegionRecovery,
    index: usize,
}

impl View for Rebuild {
    type V = RegionView;

    closed spec fn view(&self) -> RegionView {
        self.recovery@
    }
}

/// A checkpoint whose source window is to be put into the form that the model takes.
#[derive(Debug)]
pub struct Replay {
    recovery: RegionRecovery,
    index: usize,
}

impl View for Replay {
    type V = RegionView;

    closed spec fn view(&self) -> RegionView {
        self.recovery@
    }
}

/// A request for a checkpoint that is to be measured before it is sent.
#[derive(Debug)]
pub struct Request {
    recovery: RegionRecovery,
    index: usize,
    input: Vec<ResponseItem>,
}

impl View for Request {
    type V = RegionView;

    closed spec fn view(&self) -> RegionView {
        self.recovery@
    }
}

/// A request for a checkpoint that is to be sent.
#[derive(Debug)]
pub struct Regenerate {
    recovery: RegionRecovery,
    index: usize,
    input: Vec<ResponseItem>,
}

impl View for Regenerate {
    type V = RegionView;

    closed spec fn view(&self) -> RegionView {
        self.recovery@
    }
}

/// What is to be done next.
#[derive(Debug)]
pub enum NextStep {
    /// Rebuild the history that the checkpoint summarised.
    Rebuild(Rebuild),
    /// Install the new checkpoints, given as pairs of the old one and the new one.
    Install(Vec<(ResponseItem, ResponseItem)>),
}

/// What a rebuilt window asks for.
#[derive(Debug)]
pub enum Window {
    /// It holds a checkpoint that must be made again first.
    Ancestor(RegionRecovery),
    /// The checkpoint can be made from it, if it is not too large.
    Ready(Replay),
}

impl Affected {
    /// What holds of every value.
    pub closed spec fn wf(&self) -> bool {
        self@.valid()
    }

    /// The conversation, if there is something to make again: the error may come from its
    /// checkpoints, and it holds some.
    pub fn begin(is_candidate: bool, history: Vec<ResponseItem>) -> (affected: Option<Affected>)
        ensures
            affected is Some <==> is_candidate && checkpoint_texts(history@).len() > 0,
            affected matches Some(affected) ==> affected.wf() && affected@ == initial(history@),
    {
        if !is_candidate {
            return None;
        }
        let pending = collect_checkpoints(&history);
        if pending.len() == 0 {
            return None;
        }
        proof {
            assert forall|i: int| 0 <= i < history@.len() implies (checkpoint_text(
                #[trigger] history@[i],
            ) matches Some(content) ==> texts(pending@).contains(content)) by {
                if checkpoint_text(history@[i]) is Some {
                    lemma_checkpoint_texts_contain(history@, i);
                }
            }
        }
        Some(Affected { history, pending })
    }

    /// Starts on the transcript, or refuses where there is none.
    pub fn open(self, transcript: Transcript) -> (result: Result<RegionRecovery, Refusal>)
        requires
            self.wf(),
        ensures
            match (transcript, result) {
                (Transcript::Unavailable, Err(refusal)) => refusal
                    == Refusal::TranscriptUnavailable,
                (Transcript::FlushFailed(error), Err(refusal)) => refusal == Refusal::FlushFailed(
                    error,
                ),
                (Transcript::LoadFailed(error), Err(refusal)) => refusal == Refusal::LoadFailed(
                    error,
                ),
                (Transcript::Loaded(rollout), Ok(recovery)) => recovery.wf() && recovery@ == (
                RegionView { rollout: rollout_view(rollout@), ..self@ }),
                _ => false,
            },
    {
        match transcript {
            Transcript::Unavailable => Err(Refusal::TranscriptUnavailable),
            Transcript::FlushFailed(error) => Err(Refusal::FlushFailed(error)),
            Transcript::LoadFailed(error) => Err(Refusal::LoadFailed(error)),
            Transcript::Loaded(rollout) => {
                let recovery = RegionRecovery {
                    history: self.history,
                    rollout,
                    pending: self.pending,
                    replacements: Vec::new(),
                    regenerated: Vec::new(),
                };
                assert(texts(recovery.regenerated@).to_set() =~= Set::empty());
                Ok(recovery)
            },
        }
    }
}

impl RegionRecovery {
    /// What holds of every value.
    pub closed spec fn wf(&self) -> bool {
        &&& self@.valid()
        &&& self.replacements@.len() == self@.replacements.dom().len()
    }

    /// The checkpoints of the conversation, each with the one that replaces it.
    fn pairs(&self) -> (pairs: Vec<(ResponseItem, ResponseItem)>)
        ensures
            pairs@ == replacement_pairs(self@.history, self@.replacements),
    {
        let mut pairs: Vec<(ResponseItem, ResponseItem)> = Vec::new();
        let mut i: usize = 0;
        while i < self.history.len()
            invariant
                i <= self.history.len(),
                pairs@ == replacement_pairs(self.history@.take(i as int), self@.replacements),
            decreases self.history.len() - i,
        {
            assert(self.history@.take(i + 1).drop_last() =~= self.history@.take(i as int));
            if let Some(content) = checkpoint_content(&self.history[i]) {
                if let Some(replacement) = lookup(&self.replacements, content) {
                    pairs.push((self.history[i].clone(), replacement.clone()));
                }
            }
            i += 1;
        }
        assert(self.history@.take(self.history@.len() as int) =~= self.history@);
        pairs
    }

    /// Finds what is to be done next. Checkpoints that were made meanwhile are passed over; once
    /// none is left, the new checkpoints are handed out.
    pub fn next(self) -> (result: Result<NextStep, Refusal>)
        requires
            self.wf(),
        ensures
            ({
                let pending = still_pending(self@.pending, self@.replacements);
                if pending.len() == 0 {
                    &&& result matches Ok(NextStep::Install(pairs))
                    &&& pairs@ == replacement_pairs(self@.history, self@.replacements)
                } else if pending.len() + self@.replacements.dom().len() > MAX_CHECKPOINTS {
                    result matches Err(refusal) && refusal == Refusal::TooManyCheckpoints
                } else if exists|index: int| last_record(self@.rollout, pending.last(), index) {
                    &&& result matches Ok(NextStep::Rebuild(rebuild))
                    &&& rebuild.wf()
                    &&& rebuild@ == (RegionView { pending, ..self@ })
                    &&& rebuild@.targets(rebuild.place())
                } else {
                    result matches Err(refusal) && refusal == Refusal::CheckpointMissing
                }
            }),
    {
        let mut recovery = self;
        loop
            invariant
                recovery.wf(),
                self.wf(),
                recovery@.history == self@.history,
                recovery@.rollout == self@.rollout,
                recovery@.replacements == self@.replacements,
                recovery@.regenerated == self@.regenerated,
                still_pending(recovery@.pending, recovery@.replacements) == still_pending(
                    self@.pending,
                    self@.replacements,
                ),
            decreases recovery.pending.len(),
        {
            if recovery.pending.len() == 0 {
                return Ok(NextStep::Install(recovery.pairs()));
            }
            let last: usize = recovery.pending.len() - 1;
            let content: String = recovery.pending[last].clone();
            assert(recovery@.pending.last() == content@);
            if lookup(&recovery.replacements, &content).is_some() {
                let ghost before = recovery@;
                recovery.pending.pop();
                proof {
                    assert(recovery@.pending =~= before.pending.drop_last());
                    lemma_history_stays_remembered(before, recovery@);
                }
                continue;
            }
            assert(still_pending(self@.pending, self@.replacements) == recovery@.pending);
            if recovery.pending.len() > MAX_CHECKPOINTS - recovery.replacements.len() {
                return Err(Refusal::TooManyCheckpoints);
            }
            match find_last_record(&recovery.rollout, &content) {
                Some(index) => {
                    assert(last_record(self@.rollout, content@, index as int));
                    return Ok(NextStep::Rebuild(Rebuild { recovery, index }));
                },
                None => return Err(Refusal::CheckpointMissing),
            }
        }
    }
}

impl Rebuild {
    /// What holds of every value.
    pub closed spec fn wf(&self) -> bool {
        &&& self.recovery.wf()
        &&& self@.targets(self.index as int)
    }

    /// Where the transcript records the checkpoint.
    pub closed spec fn place(&self) -> int {
        self.index as int
    }

    /// Where the transcript records the checkpoint.
    pub fn checkpoint_index(&self) -> (index: usize)
        requires
            self.wf(),
        ensures
            index == self.place(),
            self@.targets(index as int),
    {
        self.index
    }

    /// The transcript before the checkpoint, with the checkpoints that were made so far. The
    /// history that it leaves is the source window.
    pub fn source(&self) -> (source: &[RolloutItem])
        requires
            self.wf(),
        ensures
            rollout_view(source@) == self@.rollout.take(self.place()),
    {
        let source = slice_subrange(self.recovery.rollout.as_slice(), 0, self.index);
        assert(rollout_view(source@) =~= self@.rollout.take(self.place()));
        source
    }

    /// Takes the rebuilt source window. Checkpoints in it that were not made again come first.
    pub fn rebuilt(self, window: &[HistoryItem]) -> (result: Result<Window, Refusal>)
        requires
            self.wf(),
        ensures
            ({
                let ancestor = first_unregenerated(bare_items(window@), self@.regenerated);
                if window@.len() == 0 {
                    result matches Err(refusal) && refusal == Refusal::WindowMissing
                } else if ancestor is Some && self@.pending.contains(ancestor->0) {
                    result matches Err(refusal) && refusal == Refusal::WindowIncomplete
                } else if ancestor is Some {
                    &&& result matches Ok(Window::Ancestor(recovery))
                    &&& recovery.wf()
                    &&& recovery@ == self@.with_ancestor(ancestor->0)
                } else if window@.len() > MAX_REPLAY_ITEMS {
                    result matches Err(refusal) && refusal == Refusal::TooManyItems
                } else {
                    &&& result matches Ok(Window::Ready(replay))
                    &&& replay.wf()
                    &&& replay@ == self@
                    &&& replay.place() == self.place()
                }
            }),
    {
        if window.len() == 0 {
            return Err(Refusal::WindowMissing);
        }
        let mut recovery = self.recovery;
        match find_unregenerated(window, &recovery.regenerated) {
            Some(ancestor) => {
                if holds_text(&recovery.pending, &ancestor) {
                    return Err(Refusal::WindowIncomplete);
                }
                let ghost before = recovery@;
                recovery.pending.push(ancestor);
                proof {
                    assert(recovery@.pending =~= before.pending.push(ancestor@));
                    lemma_history_stays_remembered(before, recovery@);
                }
                Ok(Window::Ancestor(recovery))
            },
            None => {
                if window.len() > MAX_REPLAY_ITEMS {
                    return Err(Refusal::TooManyItems);
                }
                Ok(Window::Ready(Replay { recovery, index: self.index }))
            },
        }
    }
}

impl Replay {
    /// What holds of every value.
    pub closed spec fn wf(&self) -> bool {
        &&& self.recovery.wf()
        &&& self@.targets(self.index as int)
    }

    /// Where the transcript records the checkpoint.
    pub closed spec fn place(&self) -> int {
        self.index as int
    }

    /// Takes the source window in the form that the model takes, and makes it a request for a
    /// checkpoint.
    pub fn prompt(self, window: Vec<ResponseItem>) -> (request: Request)
        requires
            self.wf(),
        ensures
            request.wf(),
            request@ == self@,
            request.place() == self.place(),
            request.sends() == replayed(window@),
    {
        Request { recovery: self.recovery, index: self.index, input: replay_input(window) }
    }
}

impl Request {
    /// What holds of every value.
    pub closed spec fn wf(&self) -> bool {
        &&& self.recovery.wf()
        &&& self@.targets(self.index as int)
    }

    /// Where the transcript records the checkpoint.
    pub closed spec fn place(&self) -> int {
        self.index as int
    }

    /// The input of the request.
    pub closed spec fn sends(&self) -> Seq<ResponseItem> {
        self.input@
    }

    /// The input of the request, to be measured.
    pub fn input(&self) -> (input: &[ResponseItem])
        ensures
            input@ == self.sends(),
    {
        self.input.as_slice()
    }

    /// Takes the size of the request: the bytes of its encoding, and the estimate of its tokens
    /// where one could be made.
    pub fn measured(self, bytes: usize, tokens: Option<i64>, model: &ModelWindow) -> (result: Result<
        Regenerate,
        Refusal,
    >)
        requires
            self.wf(),
        ensures
            if bytes > MAX_REPLAY_BYTES {
                result matches Err(refusal) && refusal == Refusal::TooManyBytes
            } else if !fits_context(tokens, *model) {
                result matches Err(refusal) && refusal == Refusal::OverContextBudget
            } else {
                &&& result matches Ok(regenerate)
                &&& regenerate.wf()
                &&& regenerate@ == self@
                &&& regenerate.place() == self.place()
                &&& regenerate.sends() == self.sends()
            },
    {
        match check_replay_size(bytes, tokens, model) {
            Ok(()) => Ok(
                Regenerate { recovery: self.recovery, index: self.index, input: self.input },
            ),
            Err(refusal) => Err(refusal),
        }
    }
}

impl Regenerate {
    /// What holds of every value.
    pub closed spec fn wf(&self) -> bool {
        &&& self.recovery.wf()
        &&& self@.targets(self.index as int)
    }

    /// Where the transcript records the checkpoint.
    pub closed spec fn place(&self) -> int {
        self.index as int
    }

    /// The input of the request.
    pub closed spec fn sends(&self) -> Seq<ResponseItem> {
        self.input@
    }

    /// The input of the request, to be sent.
    pub fn input(&self) -> (input: &[ResponseItem])
        ensures
            input@ == self.sends(),
    {
        self.input.as_slice()
    }

    /// Takes the endpoint's answer. Only the private copy of the transcript changes.
    pub fn regenerated(self, output: ResponseItem) -> (result: Result<RegionRecovery, Refusal>)
        requires
            self.wf(),
        ensures
            match checkpoint_text(output) {
                None => result matches Err(refusal) && refusal == Refusal::NotACheckpoint,
                Some(made) => if made == self@.pending.last() {
                    result matches Err(refusal) && refusal == Refusal::SameCheckpoint
                } else {
                    &&& result matches Ok(recovery)
                    &&& recovery.wf()
                    &&& recovery@ == self@.with_output(self.place(), output)
                },
            },
    {
        let mut recovery = self.recovery;
        let index = self.index;
        let ghost before = recovery@;
        let last: usize = recovery.pending.len() - 1;
        let content: String = recovery.pending[last].clone();
        assert(before.pending.last() == content@);
        let made: String = match checkpoint_content(&output) {
            Some(made) => made.clone(),
            None => return Err(Refusal::NotACheckpoint),
        };
        if made == content {
            return Err(Refusal::SameCheckpoint);
        }
        let ghost earlier = recovery.regenerated@;
        recovery.regenerated.push(made);
        let ghost rollout = recovery.rollout@;
        if let RolloutItem::Compacted(compacted) = &mut recovery.rollout[index] {
            if let Some(items) = &mut compacted.replacement_history {
                put_output(items, &content, &output);
            }
        }
        let ghost replaced = recovery.replacements@;
        recovery.replacements.push((content, output));
        recovery.pending.pop();
        proof {
            let after = recovery@;
            let expected = before.with_output(index as int, output);
            assert(recovery.rollout@.len() == rollout.len());
            assert(after.rollout =~= expected.rollout);
            assert(after.pending =~= expected.pending);
            assert(recovery.replacements@.drop_last() =~= replaced);
            assert(after.replacements == expected.replacements);
            assert(texts(recovery.regenerated@) =~= texts(earlier).push(made@));
            assert forall|text: Seq<char>| after.regenerated.contains(text) <==> (
            before.regenerated.contains(text) || text == made@) by {
                let old_texts = texts(earlier);
                let new_texts = texts(recovery.regenerated@);
                assert(new_texts[old_texts.len() as int] == made@);
                if old_texts.contains(text) {
                    let j = choose|j: int| 0 <= j < old_texts.len() && old_texts[j] == text;
                    assert(new_texts[j] == text);
                }
            }
            assert(after.regenerated =~= expected.regenerated);
            lemma_history_stays_remembered(before, after);
        }
        Ok(recovery)
    }
}

/// What holds at every stage holds of every conversation that is taken up.
pub proof fn law_every_affected_is_valid(affected: Affected)
    requires
        affected.wf(),
    ensures
        affected@.valid(),
{
}

/// What holds at every stage holds of every recovery under way.
pub proof fn law_every_recovery_is_valid(recovery: RegionRecovery)
    requires
        recovery.wf(),
    ensures
        recovery@.valid(),
{
}

/// What holds at every stage holds of every checkpoint whose window is rebuilt, and it is the one to be made next.
pub proof fn law_every_rebuild_is_valid(rebuild: Rebuild)
    requires
        rebuild.wf(),
    ensures
        rebuild@.valid(),
        rebuild@.targets(rebuild.place()),
{
}

/// What holds at every stage holds of every checkpoint whose window was rebuilt, and it is the one to be made next.
pub proof fn law_every_replay_is_valid(replay: Replay)
    requires
        replay.wf(),
    ensures
        replay@.valid(),
        replay@.targets(replay.place()),
{
}

/// What holds at every stage holds of every checkpoint whose request is measured, and it is the one to be made next.
pub proof fn law_every_request_is_valid(request: Request)
    requires
        request.wf(),
    ensures
        request@.valid(),
        request@.targets(request.place()),
{
}

/// What holds at every stage holds of every checkpoint whose request is sent, and it is the one to be made next.
pub proof fn law_every_regenerate_is_valid(regenerate: Regenerate)
    requires
        regenerate.wf(),
    ensures
        regenerate@.valid(),
        regenerate@.targets(regenerate.place()),
{
}

/// What the session returns once it was asked to install the new checkpoints.
pub fn install_outcome(accepted: bool) -> (result: Result<bool, Refusal>)
    ensures
        result == (if accepted {
            Ok::<bool, Refusal>(true)
        } else {
            Err(Refusal::CacheLimit)
        }),
{
    if accepted {
        Ok(true)
    } else {
        Err(Refusal::CacheLimit)
    }
}

} // verus!
