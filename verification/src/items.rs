//! The items of a conversation and of its transcript, as far as recovery reads them.
use vstd::prelude::*;

verus! {

/// An item of a conversation, as a request carries it.
///
/// `rest` is the JSON text of the fields that recovery carries along without reading them.
#[derive(Debug, PartialEq, Eq)]
pub enum ResponseItem {
    /// Reasoning of the model, with the encrypted form that can be sent back to it.
    Reasoning { encrypted_content: Option<String>, rest: String },
    /// A checkpoint: the encrypted summary of everything before it.
    Compaction { encrypted_content: String, rest: String },
    /// Asks the model to answer with a checkpoint.
    CompactionTrigger,
    /// Any other item: a message, a tool call, its output.
    Other { kind: String, rest: String },
}

impl Clone for ResponseItem {
    fn clone(&self) -> (copy: Self)
        ensures
            copy == *self,
    {
        match self {
            ResponseItem::Reasoning { encrypted_content, rest } => {
                let encrypted_content: Option<String> = match encrypted_content {
                    Some(content) => Some(content.clone()),
                    None => None,
                };
                ResponseItem::Reasoning { encrypted_content, rest: rest.clone() }
            },
            ResponseItem::Compaction { encrypted_content, rest } => ResponseItem::Compaction {
                encrypted_content: encrypted_content.clone(),
                rest: rest.clone(),
            },
            ResponseItem::CompactionTrigger => ResponseItem::CompactionTrigger,
            ResponseItem::Other { kind, rest } => ResponseItem::Other {
                kind: kind.clone(),
                rest: rest.clone(),
            },
        }
    }
}

/// The encrypted content of a checkpoint.
pub open spec fn checkpoint_text(item: ResponseItem) -> Option<Seq<char>> {
    match item {
        ResponseItem::Compaction { encrypted_content, .. } => Some(encrypted_content@),
        _ => None,
    }
}

/// The encrypted content of a reasoning item that has one.
pub open spec fn reasoning_text(item: ResponseItem) -> Option<Seq<char>> {
    match item {
        ResponseItem::Reasoning { encrypted_content: Some(content), .. } => Some(content@),
        _ => None,
    }
}

/// The encrypted contents of the checkpoints among `items`, in their order.
pub open spec fn checkpoint_texts(items: Seq<ResponseItem>) -> Seq<Seq<char>>
    decreases items.len(),
{
    if items.len() == 0 {
        Seq::empty()
    } else {
        match checkpoint_text(items.last()) {
            Some(content) => checkpoint_texts(items.drop_last()).push(content),
            None => checkpoint_texts(items.drop_last()),
        }
    }
}

/// The encrypted content of a checkpoint.
pub fn checkpoint_content(item: &ResponseItem) -> (content: Option<&String>)
    ensures
        match content {
            Some(content) => checkpoint_text(*item) == Some(content@),
            None => checkpoint_text(*item) is None,
        },
{
    match item {
        ResponseItem::Compaction { encrypted_content, .. } => Some(encrypted_content),
        _ => None,
    }
}

/// The encrypted content of a reasoning item that has one.
pub fn reasoning_content(item: &ResponseItem) -> (content: Option<&String>)
    ensures
        match content {
            Some(content) => reasoning_text(*item) == Some(content@),
            None => reasoning_text(*item) is None,
        },
{
    match item {
        ResponseItem::Reasoning { encrypted_content: Some(content), .. } => Some(content),
        _ => None,
    }
}

/// An item of a rebuilt history, with what the transcript notes beside it.
#[derive(Debug, PartialEq, Eq)]
pub struct HistoryItem {
    pub item: ResponseItem,
    pub annotation: String,
}

/// A compaction as the transcript records it.
#[derive(Debug, PartialEq, Eq)]
pub struct CompactedItem {
    /// The history that stands in place of everything before, where it was recorded.
    pub replacement_history: Option<Vec<HistoryItem>>,
    pub rest: String,
}

/// An item of a transcript.
#[derive(Debug, PartialEq, Eq)]
pub enum RolloutItem {
    SessionMeta(String),
    Compacted(CompactedItem),
    Other(String),
}

/// A transcript item with its recorded history as a sequence.
pub enum RolloutView {
    SessionMeta(String),
    Compacted { replacement_history: Option<Seq<HistoryItem>>, rest: String },
    Other(String),
}

impl View for RolloutItem {
    type V = RolloutView;

    open spec fn view(&self) -> RolloutView {
        match *self {
            RolloutItem::SessionMeta(meta) => RolloutView::SessionMeta(meta),
            RolloutItem::Compacted(compacted) => RolloutView::Compacted {
                replacement_history: match compacted.replacement_history {
                    Some(items) => Some(items@),
                    None => None,
                },
                rest: compacted.rest,
            },
            RolloutItem::Other(payload) => RolloutView::Other(payload),
        }
    }
}

/// A transcript as a sequence of views.
pub open spec fn rollout_view(rollout: Seq<RolloutItem>) -> Seq<RolloutView> {
    Seq::new(rollout.len(), |i: int| rollout[i]@)
}

/// The items of a rebuilt history without their annotations.
pub open spec fn bare_items(history: Seq<HistoryItem>) -> Seq<ResponseItem> {
    Seq::new(history.len(), |i: int| history[i].item)
}

} // verus!
