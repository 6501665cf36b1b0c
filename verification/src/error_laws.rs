//! What the rules on error messages make of the endpoint's wording.
use crate::errors::{
    prompt_exceeds_model, reports_internal_error, signature_expired, UnexpectedResponse,
    BAD_REQUEST, BEDROCK_EXPIRED_SIGNATURE_MESSAGE, INTERNAL_SERVER_ERROR, REFUSAL_END,
    REFUSAL_START, UNAUTHORIZED,
};
use crate::refusal::{refusal_reason, Refusal};
use crate::text::{
    after_prefix, ascii_lower, contains_text, decimal_digit, lemma_split_at_first, occurs_at, split_once_text,
    trim_end, trim_start, trimmed, white_space, writes_u64,
};
use crate::text_laws::{
    law_contained_text_has_a_before_and_an_after, law_prefix_and_rest_make_up_the_text,
    law_split_is_at_the_first_separator,
};
use vstd::prelude::*;

verus! {

/// A separator that starts with a character which `before` does not hold is found right behind it.
proof fn lemma_split_after(before: Seq<char>, separator: Seq<char>, after: Seq<char>)
    requires
        separator.len() > 0,
        forall|i: int| 0 <= i < before.len() ==> #[trigger] before[i] != separator[0],
    ensures
        split_once_text(before + separator + after, separator) == Some((before, after)),
{
    let text = before + separator + after;
    let at = before.len() as int;
    assert(text.subrange(at, at + separator.len()) =~= separator);
    assert forall|earlier: int| earlier < at implies !occurs_at(text, separator, earlier) by {
        if occurs_at(text, separator, earlier) {
            assert(text.subrange(earlier, earlier + separator.len())[0] == text[earlier]);
            assert(text[earlier] == before[earlier]);
        }
    }
    lemma_split_at_first(text, separator, at);
    assert(text.take(at) =~= before);
    assert(text.skip(at + separator.len()) =~= after);
}

/// A number holds no bracket.
proof fn lemma_number_holds_no_bracket(number: Seq<char>)
    requires
        writes_u64(number),
    ensures
        number.len() > 0,
        forall|i: int| 0 <= i < number.len() ==> #[trigger] number[i] != ')',
{
    if number.len() > 0 && number[0] == '+' {
        let digits = number.skip(1);
        assert forall|i: int| 0 <= i < number.len() implies #[trigger] number[i] != ')' by {
            if i > 0 {
                assert(digits[i - 1] == number[i]);
                assert(decimal_digit(digits[i - 1]));
            }
        }
    }
}

/// The endpoint's message that a prompt is too long for a model is recognised, whatever the two
/// numbers and the model's name are.
pub proof fn law_model_limit_is_recognised(
    prompt_tokens: Seq<char>,
    model_maximum: Seq<char>,
    model: Seq<char>,
)
    requires
        writes_u64(prompt_tokens),
        writes_u64(model_maximum),
        model.len() > 0,
    ensures
        prompt_exceeds_model(
            "prompt tokens ("@ + prompt_tokens + ") exceed model maximum ("@ + model_maximum
                + ") for "@ + model,
        ),
{
    reveal_strlit(") exceed model maximum (");
    reveal_strlit(") for ");
    lemma_number_holds_no_bracket(prompt_tokens);
    lemma_number_holds_no_bracket(model_maximum);
    let prefix = "prompt tokens ("@;
    let separator = ") exceed model maximum ("@;
    let tail = model_maximum + ") for "@ + model;
    let rest = prompt_tokens + separator + tail;
    let message = prefix + prompt_tokens + separator + model_maximum + ") for "@ + model;
    assert(message =~= prefix + rest);
    assert(message.skip(prefix.len() as int) =~= rest);
    lemma_split_after(prompt_tokens, separator, tail);
    lemma_split_after(model_maximum, ") for "@, model);
}

/// The same message about a customer's model is recognised too, unless the model's name holds the
/// words of the other message.
pub proof fn law_customer_model_limit_is_recognised(
    prompt_tokens: Seq<char>,
    model_maximum: Seq<char>,
    model: Seq<char>,
)
    requires
        writes_u64(prompt_tokens),
        writes_u64(model_maximum),
        model.len() > 0,
        !contains_text(model, ") exceed model maximum ("@),
    ensures
        prompt_exceeds_model(
            "prompt tokens ("@ + prompt_tokens + ") exceed customer model maximum ("@
                + model_maximum + ") for "@ + model,
        ),
{
    reveal_strlit(") exceed model maximum (");
    reveal_strlit(") exceed customer model maximum (");
    reveal_strlit(") for ");
    lemma_number_holds_no_bracket(prompt_tokens);
    lemma_number_holds_no_bracket(model_maximum);
    let prefix = "prompt tokens ("@;
    let other = ") exceed model maximum ("@;
    let separator = ") exceed customer model maximum ("@;
    let tail = model_maximum + ") for "@ + model;
    let rest = prompt_tokens + separator + tail;
    let message = prefix + prompt_tokens + separator + model_maximum + ") for "@ + model;
    assert(message =~= prefix + rest);
    assert(message.skip(prefix.len() as int) =~= rest);
    let a = prompt_tokens.len() as int;
    let b = a + separator.len();
    let c = b + model_maximum.len();
    let d = c + ") for "@.len();
    assert forall|at: int| !occurs_at(rest, other, at) by {
        if occurs_at(rest, other, at) {
            let window = rest.subrange(at, at + other.len());
            assert(window[0] == rest[at]);
            assert(window[2] == rest[at + 2]);
            assert(window[9] == rest[at + 9]);
            if at < a {
                assert(rest[at] == prompt_tokens[at]);
            } else if at == a {
                assert(rest[at + 9] == separator[9]);
            } else if at < b {
                assert(rest[at] == separator[at - a]);
            } else if at < c {
                assert(rest[at] == model_maximum[at - b]);
            } else if at < d {
                assert(rest[at] == ") for "@[at - c]);
                if at == c {
                    assert(rest[at + 2] == ") for "@[2]);
                }
            } else {
                assert(model.subrange(at - d, at - d + other.len()) =~= window);
                assert(occurs_at(model, other, at - d));
            }
        }
    }
    lemma_split_after(prompt_tokens, separator, tail);
    lemma_split_after(model_maximum, ") for "@, model);
}

/// White space around a message does not count.
pub proof fn law_surrounding_white_space_is_ignored(
    before: Seq<char>,
    message: Seq<char>,
    after: Seq<char>,
)
    requires
        forall|i: int| 0 <= i < before.len() ==> white_space(#[trigger] before[i]),
        forall|i: int| 0 <= i < after.len() ==> white_space(#[trigger] after[i]),
        message.len() > 0,
        !white_space(message.first()),
        !white_space(message.last()),
    ensures
        trimmed(before + message + after) == message,
    decreases before.len() + after.len(),
{
    if before.len() > 0 {
        let text = before + message + after;
        assert(text.first() == before[0]);
        assert(text.drop_first() =~= before.drop_first() + message + after);
        assert forall|i: int| 0 <= i < before.drop_first().len() implies white_space(
            #[trigger] before.drop_first()[i],
        ) by {
            assert(before.drop_first()[i] == before[i + 1]);
        }
        law_surrounding_white_space_is_ignored(before.drop_first(), message, after);
    } else {
        let text = before + message + after;
        assert(text =~= message + after);
        assert(text.first() == message.first());
        lemma_trim_end(message, after);
    }
}

proof fn lemma_trim_end(message: Seq<char>, after: Seq<char>)
    requires
        forall|i: int| 0 <= i < after.len() ==> white_space(#[trigger] after[i]),
        message.len() > 0,
        !white_space(message.last()),
    ensures
        trim_end(message + after) == message,
    decreases after.len(),
{
    if after.len() > 0 {
        assert((message + after).last() == after[after.len() - 1]);
        assert((message + after).drop_last() =~= message + after.drop_last());
        assert forall|i: int| 0 <= i < after.drop_last().len() implies white_space(
            #[trigger] after.drop_last()[i],
        ) by {
            assert(after.drop_last()[i] == after[i]);
        }
        lemma_trim_end(message, after.drop_last());
    } else {
        assert(message + after =~= message);
    }
}

/// No message says both that a prompt is too long and that the endpoint failed.
pub proof fn law_error_messages_are_told_apart(message: Seq<char>)
    ensures
        !(prompt_exceeds_model(message) && reports_internal_error(message)),
{
    reveal_strlit("prompt tokens (");
    reveal_strlit("Internal server error");
    if prompt_exceeds_model(message) && reports_internal_error(message) {
        let prefix = "prompt tokens ("@;
        assert(message.subrange(0, prefix.len() as int)[0] == prefix[0]);
        assert("Internal server error"@[0] == 'I');
    }
}

proof fn lemma_trim_start_parts(text: Seq<char>) -> (before: Seq<char>)
    ensures
        text == before + trim_start(text),
        forall|i: int| 0 <= i < before.len() ==> white_space(#[trigger] before[i]),
    decreases text.len(),
{
    if text.len() > 0 && white_space(text.first()) {
        let shorter = lemma_trim_start_parts(text.drop_first());
        let before = seq![text.first()] + shorter;
        assert(text =~= seq![text.first()] + (shorter + trim_start(text.drop_first())));
        assert(text =~= before + trim_start(text));
        assert forall|i: int| 0 <= i < before.len() implies white_space(#[trigger] before[i]) by {
            if i > 0 {
                assert(before[i] == shorter[i - 1]);
            }
        }
        before
    } else {
        assert(text =~= Seq::empty() + text);
        Seq::empty()
    }
}

proof fn lemma_trim_end_parts(text: Seq<char>) -> (after: Seq<char>)
    ensures
        text == trim_end(text) + after,
        forall|i: int| 0 <= i < after.len() ==> white_space(#[trigger] after[i]),
    decreases text.len(),
{
    if text.len() > 0 && white_space(text.last()) {
        let shorter = lemma_trim_end_parts(text.drop_last());
        let after = shorter.push(text.last());
        assert(text =~= (trim_end(text.drop_last()) + shorter).push(text.last()));
        assert(text =~= trim_end(text) + after);
        after
    } else {
        assert(text =~= text + Seq::empty());
        Seq::empty()
    }
}

/// Trimming takes away nothing but white space at the two ends, and all of it.
pub proof fn law_trimming_takes_only_white_space(text: Seq<char>)
    ensures
        exists|before: Seq<char>, after: Seq<char>|
            {
                &&& text == #[trigger] (before + trimmed(text) + after)
                &&& forall|i: int| 0 <= i < before.len() ==> white_space(#[trigger] before[i])
                &&& forall|i: int| 0 <= i < after.len() ==> white_space(#[trigger] after[i])
            },
        trimmed(text).len() > 0 ==> !white_space(trimmed(text).first()) && !white_space(
            trimmed(text).last(),
        ),
{
    let before = lemma_trim_start_parts(text);
    let after = lemma_trim_end_parts(trim_start(text));
    assert(text =~= before + trimmed(text) + after);
    lemma_trimmed_ends(text);
}

proof fn lemma_trimmed_ends(text: Seq<char>)
    ensures
        trimmed(text).len() > 0 ==> !white_space(trimmed(text).first()) && !white_space(
            trimmed(text).last(),
        ),
{
    lemma_trim_start_first(text);
    lemma_trim_end_ends(trim_start(text));
}

proof fn lemma_trim_start_first(text: Seq<char>)
    ensures
        trim_start(text).len() > 0 ==> !white_space(trim_start(text).first()),
    decreases text.len(),
{
    if text.len() > 0 && white_space(text.first()) {
        lemma_trim_start_first(text.drop_first());
    }
}

proof fn lemma_trim_end_ends(text: Seq<char>)
    ensures
        trim_end(text).len() > 0 ==> !white_space(trim_end(text).last()) && trim_end(text).first()
            == text.first(),
    decreases text.len(),
{
    if text.len() > 0 && white_space(text.last()) {
        lemma_trim_end_ends(text.drop_last());
    }
}

/// A message reports a failure of the endpoint where it is written with these letters, each small
/// or capital, and in no other case.
pub proof fn law_internal_error_is_told_by_its_words(message: Seq<char>)
    ensures
        reports_internal_error(message) <==> {
            &&& message.len() == "internal server error"@.len()
            &&& forall|i: int|
                0 <= i < message.len() ==> #[trigger] message[i] == "internal server error"@[i]
                    || message[i] == "INTERNAL SERVER ERROR"@[i]
        },
{
    reveal_strlit("internal server error");
    reveal_strlit("INTERNAL SERVER ERROR");
    reveal_strlit("Internal server error");
    let small = "internal server error"@;
    let large = "INTERNAL SERVER ERROR"@;
    let mixed = "Internal server error"@;
    assert forall|i: int| 0 <= i < 21 implies #[trigger] ascii_lower(mixed[i])
        == small[i] && ascii_lower(large[i]) == small[i] && ascii_lower(
        small[i],
    ) == small[i] by {
        lemma_letters_of_internal_error(i);
    }
    if message.len() == 21 {
        assert forall|i: int| 0 <= i < 21 implies (ascii_lower(#[trigger] message[i])
            == ascii_lower(mixed[i]) <==> message[i] == small[i] || message[i]
            == large[i]) by {
            lemma_letters_of_internal_error(i);
            assert(ascii_lower(mixed[i]) == small[i]);
            if ascii_lower(message[i]) == small[i] && message[i] != small[i] {
                assert('A' <= message[i] <= 'Z');
                assert((message[i] as u32) + 32 == small[i] as u32);
            }
        }
    }
}

/// The letters of the words, small and capital.
proof fn lemma_letters_of_internal_error(i: int)
    requires
        0 <= i < 21,
    ensures
        "internal server error"@.len() == 21,
        "INTERNAL SERVER ERROR"@.len() == 21,
        "Internal server error"@.len() == 21,
        "internal server error"@[i] == ' ' ==> "INTERNAL SERVER ERROR"@[i] == ' ',
        "internal server error"@[i] != ' ' ==> 'a' <= "internal server error"@[i] <= 'z' && (
        "INTERNAL SERVER ERROR"@[i] as int) + 32 == "internal server error"@[i] as int,
        "Internal server error"@[i] == "internal server error"@[i] || "Internal server error"@[i]
            == "INTERNAL SERVER ERROR"@[i],
{
    reveal_strlit("internal server error");
    reveal_strlit("INTERNAL SERVER ERROR");
    reveal_strlit("Internal server error");
}

/// The message of an invalid request is taken as a failure of the endpoint where it consists of
/// these words, each letter small or capital, between white space. Any other message is not.
pub proof fn law_only_these_words_report_an_internal_error(message: Seq<char>)
    ensures
        reports_internal_error(trimmed(message)) <==> exists|
            before: Seq<char>,
            words: Seq<char>,
            after: Seq<char>,
        |
            {
                &&& message == #[trigger] (before + words + after)
                &&& forall|i: int| 0 <= i < before.len() ==> white_space(#[trigger] before[i])
                &&& forall|i: int| 0 <= i < after.len() ==> white_space(#[trigger] after[i])
                &&& words.len() == "internal server error"@.len()
                &&& forall|i: int|
                    0 <= i < words.len() ==> #[trigger] words[i] == "internal server error"@[i]
                        || words[i] == "INTERNAL SERVER ERROR"@[i]
            },
{
    reveal_strlit("internal server error");
    reveal_strlit("INTERNAL SERVER ERROR");
    if reports_internal_error(trimmed(message)) {
        law_internal_error_is_told_by_its_words(trimmed(message));
        law_trimming_takes_only_white_space(message);
    }
    if exists|before: Seq<char>, words: Seq<char>, after: Seq<char>|
        {
            &&& message == #[trigger] (before + words + after)
            &&& forall|i: int| 0 <= i < before.len() ==> white_space(#[trigger] before[i])
            &&& forall|i: int| 0 <= i < after.len() ==> white_space(#[trigger] after[i])
            &&& words.len() == "internal server error"@.len()
            &&& forall|i: int|
                0 <= i < words.len() ==> #[trigger] words[i] == "internal server error"@[i]
                    || words[i] == "INTERNAL SERVER ERROR"@[i]
        } {
        let (before, words, after) = choose|
            before: Seq<char>,
            words: Seq<char>,
            after: Seq<char>,
        |
            {
                &&& message == #[trigger] (before + words + after)
                &&& forall|i: int| 0 <= i < before.len() ==> white_space(#[trigger] before[i])
                &&& forall|i: int| 0 <= i < after.len() ==> white_space(#[trigger] after[i])
                &&& words.len() == "internal server error"@.len()
                &&& forall|i: int|
                    0 <= i < words.len() ==> #[trigger] words[i] == "internal server error"@[i]
                        || words[i] == "INTERNAL SERVER ERROR"@[i]
            };
        assert(words[0] == 'i' || words[0] == 'I');
        assert(words[20] == 'r' || words[20] == 'R');
        law_surrounding_white_space_is_ignored(before, words, after);
        law_internal_error_is_told_by_its_words(words);
    }
}

/// A message says that a prompt is too long where it is written in one of the two forms, with two
/// numbers and a name, and in no other case.
pub proof fn law_token_limit_is_told_by_its_form(message: Seq<char>)
    ensures
        prompt_exceeds_model(message) <==> exists|
            prompt_tokens: Seq<char>,
            model_maximum: Seq<char>,
            model: Seq<char>,
        |
            #![trigger writes_u64(prompt_tokens), writes_u64(model_maximum), model.len()]
            {
                &&& writes_u64(prompt_tokens)
                &&& writes_u64(model_maximum)
                &&& model.len() > 0
                &&& {
                    ||| message == "prompt tokens ("@ + prompt_tokens + ") exceed model maximum ("@
                        + model_maximum + ") for "@ + model
                    ||| message == "prompt tokens ("@ + prompt_tokens
                        + ") exceed customer model maximum ("@ + model_maximum + ") for "@ + model
                        && !contains_text(model, ") exceed model maximum ("@)
                }
            },
{
    let prefix = "prompt tokens ("@;
    let plain = ") exceed model maximum ("@;
    let customer = ") exceed customer model maximum ("@;
    if prompt_exceeds_model(message) {
        let rest = after_prefix(message, prefix)->0;
        law_prefix_and_rest_make_up_the_text(message, prefix, rest);
        law_split_is_at_the_first_separator(rest, plain);
        law_split_is_at_the_first_separator(rest, customer);
        let separator = if contains_text(rest, plain) {
            plain
        } else {
            customer
        };
        let (prompt_tokens, tail) = split_once_text(rest, separator)->0;
        law_split_is_at_the_first_separator(tail, ") for "@);
        let (model_maximum, model) = split_once_text(tail, ") for "@)->0;
        assert(writes_u64(prompt_tokens) && writes_u64(model_maximum) && model.len() > 0);
        assert(message =~= prefix + prompt_tokens + separator + model_maximum + ") for "@ + model);
        if separator == customer && contains_text(model, plain) {
            law_contained_text_has_a_before_and_an_after(model, plain);
            let (before, after) = choose|before: Seq<char>, after: Seq<char>|
                model == #[trigger] (before + plain + after);
            let longer = prompt_tokens + customer + model_maximum + ") for "@ + before;
            assert(rest =~= longer + plain + after);
            law_contained_text_has_a_before_and_an_after(rest, plain);
        }
    }
    assert forall|prompt_tokens: Seq<char>, model_maximum: Seq<char>, model: Seq<char>|
        #![trigger writes_u64(prompt_tokens), writes_u64(model_maximum), model.len()]
        {
            &&& writes_u64(prompt_tokens)
            &&& writes_u64(model_maximum)
            &&& model.len() > 0
            &&& {
                ||| message == prefix + prompt_tokens + plain + model_maximum + ") for "@ + model
                ||| message == prefix + prompt_tokens + customer + model_maximum + ") for "@ + model
                    && !contains_text(model, plain)
            }
        } implies prompt_exceeds_model(message) by {
        law_model_limit_is_recognised(prompt_tokens, model_maximum, model);
        if !contains_text(model, plain) {
            law_customer_model_limit_is_recognised(prompt_tokens, model_maximum, model);
        }
    }
}

/// A response calls a signature expired where its status is 401 and these words stand in its body.
/// Neither the user's message nor what is carried along counts.
pub proof fn law_expired_signature_is_told_by_status_and_words(response: UnexpectedResponse)
    ensures
        signature_expired(response) <==> response.status == 401 && exists|
            before: Seq<char>,
            after: Seq<char>,
        |
            response.body@ == #[trigger] (before + "Signature expired:"@ + after),
{
    law_contained_text_has_a_before_and_an_after(response.body@, "Signature expired:"@);
}

/// What the user is told, word for word, and the statuses by their numbers.
pub proof fn law_messages_word_for_word()
    ensures
        BEDROCK_EXPIRED_SIGNATURE_MESSAGE@
            == "Amazon Bedrock rejected the request because its AWS signature has expired. Refresh your AWS credentials and retry. If `AWS_BEARER_TOKEN_BEDROCK` is set, update or unset it, then restart Codex"@,
        REFUSAL_START@ == "Cannot migrate the encrypted compaction checkpoint to this region: "@,
        REFUSAL_END@
            == ". The saved conversation has been preserved. Resume in the checkpoint's original region and create a handoff summary for a new session."@,
        BAD_REQUEST == 400,
        UNAUTHORIZED == 401,
        INTERNAL_SERVER_ERROR == 500,
{
}

/// Every refusal gives its reason, word for word.
pub proof fn law_refusals_word_for_word(error: String)
    ensures
        refusal_reason(Refusal::TranscriptUnavailable)
            == "the original transcript is not available for this session"@,
        refusal_reason(Refusal::FlushFailed(error)) == "cannot flush the transcript: "@ + error@,
        refusal_reason(Refusal::LoadFailed(error)) == "cannot load the transcript: "@ + error@,
        refusal_reason(Refusal::TooManyCheckpoints)
            == "too many dependent checkpoints to rebuild safely"@,
        refusal_reason(Refusal::CheckpointMissing)
            == "the source checkpoint is missing from the transcript"@,
        refusal_reason(Refusal::WindowMissing) == "the checkpoint's source window is missing"@,
        refusal_reason(Refusal::WindowIncomplete)
            == "the checkpoint's source window is incomplete"@,
        refusal_reason(Refusal::TooManyItems) == "the source window exceeds the replay item limit"@,
        refusal_reason(Refusal::TooManyBytes) == "the source window exceeds the replay byte limit"@,
        refusal_reason(Refusal::OverContextBudget)
            == "the source window exceeds the active model's context budget"@,
        refusal_reason(Refusal::NotACheckpoint) == "regeneration did not return a checkpoint"@,
        refusal_reason(Refusal::SameCheckpoint) == "regeneration returned the rejected checkpoint"@,
        refusal_reason(Refusal::CacheLimit)
            == "regenerated checkpoints exceed the provider's cache limit"@,
{
}

} // verus!
