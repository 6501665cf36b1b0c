//! Which items hold encrypted content, told from the items themselves.
use crate::items::{
    bare_items, checkpoint_text, checkpoint_texts, reasoning_text, rollout_view, CompactedItem,
    HistoryItem, ResponseItem, RolloutItem, RolloutView,
};
use vstd::prelude::*;

verus! {

/// Reasoning counts by its encrypted content, the whole of it, whatever else the item carries.
pub proof fn law_reasoning_counts_by_its_encrypted_content(content: String, rest: String)
    ensures
        reasoning_text(
            ResponseItem::Reasoning { encrypted_content: Some(content), rest },
        ) == Some(content@),
        reasoning_text(ResponseItem::Reasoning { encrypted_content: None, rest }) is None,
        checkpoint_text(
            ResponseItem::Reasoning { encrypted_content: Some(content), rest },
        ) is None,
        checkpoint_text(ResponseItem::Reasoning { encrypted_content: None, rest }) is None,
{
}

/// A checkpoint counts by its encrypted content, the whole of it, whatever else the item carries.
pub proof fn law_checkpoint_counts_by_its_encrypted_content(content: String, rest: String)
    ensures
        checkpoint_text(
            ResponseItem::Compaction { encrypted_content: content, rest },
        ) == Some(content@),
        reasoning_text(ResponseItem::Compaction { encrypted_content: content, rest }) is None,
{
}

/// No other item holds encrypted content, whatever it is called and whatever it carries.
pub proof fn law_other_items_hold_no_encrypted_content(item: ResponseItem)
    ensures
        reasoning_text(item) is Some <==> (item matches ResponseItem::Reasoning {
            encrypted_content: Some(_),
            ..
        }),
        checkpoint_text(item) is Some <==> item is Compaction,
{
}

/// The checkpoints of a conversation are those of its first part and then those of its second. A
/// single checkpoint gives its content; any other item, and no item, gives nothing.
pub proof fn law_checkpoints_are_found_in_order(
    first: Seq<ResponseItem>,
    second: Seq<ResponseItem>,
    content: String,
    rest: String,
    other: ResponseItem,
)
    ensures
        checkpoint_texts(first + second) == checkpoint_texts(first) + checkpoint_texts(second),
        checkpoint_texts(seq![ResponseItem::Compaction { encrypted_content: content, rest }])
            == seq![content@],
        !(other is Compaction) ==> checkpoint_texts(seq![other]) == Seq::<Seq<char>>::empty(),
        checkpoint_texts(Seq::empty()) == Seq::<Seq<char>>::empty(),
    decreases second.len(),
{
    let item = ResponseItem::Compaction { encrypted_content: content, rest };
    assert(seq![item].drop_last() =~= Seq::empty());
    assert(seq![other].drop_last() =~= Seq::empty());
    assert(checkpoint_texts(Seq::empty()) =~= Seq::<Seq<char>>::empty());
    assert(checkpoint_texts(seq![item]) =~= seq![content@]);
    if second.len() == 0 {
        assert(first + second =~= first);
    } else {
        assert((first + second).drop_last() =~= first + second.drop_last());
        law_checkpoints_are_found_in_order(first, second.drop_last(), content, rest, other);
    }
    assert(checkpoint_texts(first + second) =~= checkpoint_texts(first) + checkpoint_texts(second));
}

/// The bare items of a history are its items, one for one.
pub proof fn law_bare_items_are_the_items(history: Seq<HistoryItem>, i: int)
    ensures
        bare_items(history).len() == history.len(),
        0 <= i < history.len() ==> bare_items(history)[i] == history[i].item,
{
}

/// The view of a transcript has an item for each, in its place, and keeps everything of it: the
/// items of a recorded history all of them, and whether one was recorded at all.
pub proof fn law_transcript_view_keeps_everything(
    rollout: Seq<RolloutItem>,
    i: int,
    meta: String,
    items: Vec<HistoryItem>,
    rest: String,
)
    ensures
        rollout_view(rollout).len() == rollout.len(),
        0 <= i < rollout.len() ==> rollout_view(rollout)[i] == rollout[i]@,
        RolloutItem::SessionMeta(meta)@ == RolloutView::SessionMeta(meta),
        RolloutItem::Other(rest)@ == RolloutView::Other(rest),
        RolloutItem::Compacted(CompactedItem { replacement_history: Some(items), rest })@
            == (RolloutView::Compacted { replacement_history: Some(items@), rest }),
        RolloutItem::Compacted(CompactedItem { replacement_history: None, rest })@
            == (RolloutView::Compacted { replacement_history: None, rest }),
{
}

} // verus!
