//! Whether the window behind a checkpoint can be sent again, and what is sent.
//!
//! A historical window can exceed the threshold at which a conversation is compacted. It is held
//! to the capacity that the model advertises, less headroom and room for the checkpoint.
use crate::items::ResponseItem;
use crate::refusal::Refusal;
use vstd::prelude::*;

verus! {

/// How many items a window may hold.
pub const MAX_REPLAY_ITEMS: usize = 20_000;

/// How many bytes the JSON encoding of a window may take.
pub const MAX_REPLAY_BYTES: usize = 33_554_432;

/// What the active model says of its context window.
#[derive(Debug, Clone, Copy, PartialEq, Eq)]
pub struct ModelWindow {
    pub max_context_window: Option<i64>,
    pub context_window: Option<i64>,
    pub effective_context_window_percent: i64,
}

/// The `i64` nearest to `value`.
pub open spec fn saturated(value: int) -> int {
    if value > i64::MAX {
        i64::MAX as int
    } else if value < i64::MIN {
        i64::MIN as int
    } else {
        value
    }
}

/// The quotient, rounded towards zero.
pub open spec fn quotient(value: int, divisor: int) -> int {
    if value >= 0 {
        value / divisor
    } else {
        -((-value) / divisor)
    }
}

/// The capacity that the model advertises.
pub open spec fn advertised_window(model: ModelWindow) -> Option<i64> {
    match model.max_context_window {
        Some(window) => Some(window),
        None => model.context_window,
    }
}

/// The part of `window` that the model uses.
pub open spec fn usable_window(window: int, percent: int) -> int {
    quotient(saturated(window * percent), 100)
}

/// The most tokens that a window may be estimated at: nine tenths of what the model uses.
pub open spec fn token_limit(window: int, percent: int) -> int {
    quotient(saturated(usable_window(window, percent) * 9), 10)
}

/// The window fits the model. An estimate that could not be made counts as too large.
pub open spec fn fits_context(tokens: Option<i64>, model: ModelWindow) -> bool {
    match advertised_window(model) {
        Some(window) => {
            let estimate = match tokens {
                Some(tokens) => tokens,
                None => i64::MAX,
            };
            estimate <= token_limit(window as int, model.effective_context_window_percent as int)
        },
        None => false,
    }
}

/// The product, kept to the range of an `i64`.
fn saturating_product(a: i64, b: i64) -> (product: i64)
    ensures
        product == saturated(a * b),
{
    assert(-0x4000_0000_0000_0000_0000_0000_0000_0000 <= a * b
        <= 0x4000_0000_0000_0000_0000_0000_0000_0000) by (nonlinear_arith)
        requires
            -0x8000_0000_0000_0000 <= a <= 0x7fff_ffff_ffff_ffff,
            -0x8000_0000_0000_0000 <= b <= 0x7fff_ffff_ffff_ffff,
    ;
    let wide: i128 = (a as i128) * (b as i128);
    if wide > i64::MAX as i128 {
        i64::MAX
    } else if wide < i64::MIN as i128 {
        i64::MIN
    } else {
        wide as i64
    }
}

/// How many tokens of the model's window a replay may fill, before the room for its checkpoint.
pub fn replay_limit(model: &ModelWindow) -> (limit: Option<i64>)
    ensures
        match (limit, advertised_window(*model)) {
            (Some(limit), Some(window)) => limit == usable_window(
                window as int,
                model.effective_context_window_percent as int,
            ),
            (None, None) => true,
            _ => false,
        },
{
    let window: i64 = match model.max_context_window {
        Some(window) => window,
        None => match model.context_window {
            Some(window) => window,
            None => return None,
        },
    };
    Some(saturating_product(window, model.effective_context_window_percent) / 100)
}

/// Refuses a window whose encoding is too long, or that does not fit the model.
pub fn check_replay_size(bytes: usize, tokens: Option<i64>, model: &ModelWindow) -> (result: Result<
    (),
    Refusal,
>)
    ensures
        result == (if bytes > MAX_REPLAY_BYTES {
            Err(Refusal::TooManyBytes)
        } else if !fits_context(tokens, *model) {
            Err(Refusal::OverContextBudget)
        } else {
            Ok(())
        }),
{
    if bytes > MAX_REPLAY_BYTES {
        return Err(Refusal::TooManyBytes);
    }
    let estimate: i64 = match tokens {
        Some(tokens) => tokens,
        None => i64::MAX,
    };
    match replay_limit(model) {
        Some(limit) => if estimate > saturating_product(limit, 9) / 10 {
            Err(Refusal::OverContextBudget)
        } else {
            Ok(())
        },
        None => Err(Refusal::OverContextBudget),
    }
}

/// What is sent to have a checkpoint made again: the window without reasoning, which is bound to
/// its region, and the request for a checkpoint.
pub open spec fn replayed(window: Seq<ResponseItem>) -> Seq<ResponseItem> {
    window.filter(|item: ResponseItem| !(item is Reasoning)).push(ResponseItem::CompactionTrigger)
}

/// The input of the request that has a checkpoint made again.
pub fn replay_input(window: Vec<ResponseItem>) -> (input: Vec<ResponseItem>)
    ensures
        input@ == replayed(window@),
{
    let ghost items = window@;
    let ghost kept = |item: ResponseItem| !(item is Reasoning);
    let mut input: Vec<ResponseItem> = Vec::new();
    for item in it: window
        invariant
            it.seq() == items,
            kept == (|item: ResponseItem| !(item is Reasoning)),
            input@ == items.take(it.index()).filter(kept),
    {
        proof {
            reveal(Seq::filter);
            assert(items.take(it.index() + 1).drop_last() =~= items.take(it.index()));
        }
        match item {
            ResponseItem::Reasoning { .. } => {},
            item => input.push(item),
        }
    }
    assert(items.take(items.len() as int) =~= items);
    input.push(ResponseItem::CompactionTrigger);
    input
}

/// No reasoning is sent again, nothing else is left out, and the request for a checkpoint comes
/// last.
pub proof fn law_replay_leaves_out_only_reasoning(window: Seq<ResponseItem>)
    ensures
        replayed(window).last() == ResponseItem::CompactionTrigger,
        forall|i: int| 0 <= i < replayed(window).len() ==> !(#[trigger] replayed(window)[i] is Reasoning),
        forall|i: int|
            0 <= i < window.len() && !(window[i] is Reasoning) ==> replayed(window).contains(
                #[trigger] window[i],
            ),
        (forall|i: int| 0 <= i < window.len() ==> !(#[trigger] window[i] is Reasoning))
            ==> replayed(window) == window.push(ResponseItem::CompactionTrigger),
{
    let kept = |item: ResponseItem| !(item is Reasoning);
    let sent = window.filter(kept);
    assert forall|i: int| 0 <= i < replayed(window).len() implies !(
    #[trigger] replayed(window)[i] is Reasoning) by {
        if i < sent.len() {
            window.lemma_filter_pred(kept, i);
        }
    }
    assert forall|i: int| 0 <= i < window.len() && !(window[i] is Reasoning) implies replayed(
        window,
    ).contains(#[trigger] window[i]) by {
        window.lemma_filter_contains(kept, i);
        let j = choose|j: int| 0 <= j < sent.len() && sent[j] == window[i];
        assert(replayed(window)[j] == window[i]);
    }
    if forall|i: int| 0 <= i < window.len() ==> !(#[trigger] window[i] is Reasoning) {
        lemma_filter_all(window, kept);
    }
}

proof fn lemma_filter_all(items: Seq<ResponseItem>, pred: spec_fn(ResponseItem) -> bool)
    requires
        forall|i: int| 0 <= i < items.len() ==> pred(#[trigger] items[i]),
    ensures
        items.filter(pred) == items,
    decreases items.len(),
{
    reveal(Seq::filter);
    if items.len() > 0 {
        assert forall|i: int| 0 <= i < items.drop_last().len() implies pred(
            #[trigger] items.drop_last()[i],
        ) by {
            assert(items.drop_last()[i] == items[i]);
        }
        lemma_filter_all(items.drop_last(), pred);
        assert(items.drop_last().push(items.last()) =~= items);
    }
}

/// Replays are sent item by item, in the order of the window.
pub proof fn law_replay_keeps_the_order(first: Seq<ResponseItem>, second: Seq<ResponseItem>)
    ensures
        replayed(first + second) == replayed(first).drop_last() + replayed(second),
{
    let kept = |item: ResponseItem| !(item is Reasoning);
    Seq::filter_distributes_over_add(first, second, kept);
    assert(replayed(first + second) =~= replayed(first).drop_last() + replayed(second));
}

/// A window that passes leaves at least a tenth of the model's window free.
pub proof fn law_replay_leaves_headroom(tokens: i64, model: ModelWindow, window: i64)
    requires
        fits_context(Some(tokens), model),
        advertised_window(model) == Some(window),
        window >= 0,
        0 <= model.effective_context_window_percent <= 100,
    ensures
        tokens * 10 <= window * 9,
{
    let percent = model.effective_context_window_percent as int;
    assert(0 <= window * percent <= window * 100) by (nonlinear_arith)
        requires
            window >= 0,
            0 <= percent <= 100,
    ;
    let usable = usable_window(window as int, percent);
    assert(0 <= usable <= window);
}

/// A model that does not say how large its window is gets no replay.
pub proof fn law_unknown_window_is_refused(tokens: Option<i64>, model: ModelWindow)
    requires
        model.max_context_window is None,
        model.context_window is None,
    ensures
        !fits_context(tokens, model),
{
}

/// The limits by their numbers.
pub proof fn law_replay_limits_by_their_numbers()
    ensures
        MAX_REPLAY_ITEMS == 20_000,
        MAX_REPLAY_BYTES == 32 * 1024 * 1024,
{
}

/// What is sent for a single item of the window: any item but reasoning, whatever it carries, and
/// then the request for a checkpoint.
pub proof fn law_each_kind_of_item_is_replayed_or_not(
    encrypted_content: Option<String>,
    content: String,
    rest: String,
    kind: String,
)
    ensures
        replayed(Seq::empty()) == seq![ResponseItem::CompactionTrigger],
        replayed(seq![ResponseItem::Reasoning { encrypted_content, rest }]) == seq![
            ResponseItem::CompactionTrigger,
        ],
        replayed(seq![ResponseItem::Compaction { encrypted_content: content, rest }]) == seq![
            ResponseItem::Compaction { encrypted_content: content, rest },
            ResponseItem::CompactionTrigger,
        ],
        replayed(seq![ResponseItem::CompactionTrigger]) == seq![
            ResponseItem::CompactionTrigger,
            ResponseItem::CompactionTrigger,
        ],
        replayed(seq![ResponseItem::Other { kind, rest }]) == seq![
            ResponseItem::Other { kind, rest },
            ResponseItem::CompactionTrigger,
        ],
{
    lemma_replayed_item(ResponseItem::Reasoning { encrypted_content, rest });
    lemma_replayed_item(ResponseItem::Compaction { encrypted_content: content, rest });
    lemma_replayed_item(ResponseItem::CompactionTrigger);
    lemma_replayed_item(ResponseItem::Other { kind, rest });
    reveal(Seq::filter);
    assert(replayed(Seq::empty()) =~= seq![ResponseItem::CompactionTrigger]);
}

proof fn lemma_replayed_item(item: ResponseItem)
    ensures
        replayed(seq![item]) == (if item is Reasoning {
            seq![ResponseItem::CompactionTrigger]
        } else {
            seq![item, ResponseItem::CompactionTrigger]
        }),
{
    reveal(Seq::filter);
    let kept = |item: ResponseItem| !(item is Reasoning);
    assert(seq![item].drop_last() =~= Seq::empty());
    assert(seq![item].drop_last().filter(kept) =~= Seq::empty());
    assert(replayed(seq![item]) =~= if item is Reasoning {
        seq![ResponseItem::CompactionTrigger]
    } else {
        seq![item, ResponseItem::CompactionTrigger]
    });
}

/// How many tokens fit, by the arithmetic of 64-bit integers. `window` is the largest window that
/// the model names, or else its window; `product` is it times the percentage, and `ninefold` nine
/// times the hundredth part `usable` of that, both kept to the range of an `i64`. An estimate fits
/// where it is not above the tenth part `limit` of `ninefold`. Both parts are cut off towards zero.
pub proof fn law_token_limit_by_its_arithmetic(
    tokens: i64,
    model: ModelWindow,
    window: i64,
    product: int,
    usable: int,
    ninefold: int,
    limit: int,
)
    requires
        model.max_context_window == Some(window) || (model.max_context_window is None
            && model.context_window == Some(window)),
        -0x8000_0000_0000_0000 <= product <= 0x7fff_ffff_ffff_ffff,
        ({
            let exact = window * model.effective_context_window_percent;
            ||| product == exact
            ||| product == 0x7fff_ffff_ffff_ffff && exact > product
            ||| product == -0x8000_0000_0000_0000 && exact < product
        }),
        product >= 0 ==> usable * 100 <= product < usable * 100 + 100,
        product < 0 ==> usable * 100 - 100 < product <= usable * 100,
        -0x8000_0000_0000_0000 <= ninefold <= 0x7fff_ffff_ffff_ffff,
        ({
            ||| ninefold == usable * 9
            ||| ninefold == 0x7fff_ffff_ffff_ffff && usable * 9 > ninefold
            ||| ninefold == -0x8000_0000_0000_0000 && usable * 9 < ninefold
        }),
        ninefold >= 0 ==> limit * 10 <= ninefold < limit * 10 + 10,
        ninefold < 0 ==> limit * 10 - 10 < ninefold <= limit * 10,
    ensures
        advertised_window(model) == Some(window),
        usable_window(window as int, model.effective_context_window_percent as int) == usable,
        fits_context(Some(tokens), model) <==> tokens <= limit,
        fits_context(None, model) <==> 0x7fff_ffff_ffff_ffff <= limit,
{
    let exact = window * model.effective_context_window_percent;
    assert(saturated(exact) == product);
    assert(quotient(product, 100) == usable);
    assert(saturated(usable * 9) == ninefold);
    assert(quotient(ninefold, 10) == limit);
}

/// Without any window there is none to advertise.
pub proof fn law_no_window_is_advertised_without_one(model: ModelWindow)
    ensures
        advertised_window(model) is None <==> model.max_context_window is None
            && model.context_window is None,
{
}

} // verus!
