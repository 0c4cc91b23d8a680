//! Context monitor for token estimation and threshold detection.
//!
//! Token counts are estimated from byte lengths: four bytes to a token, two in
//! tool results, tool arguments and schemas, which are denser; a flat amount for
//! each image; and a fixed overhead for each message. Estimates are raised by a
//! safety margin. All amounts are multiples of a quarter token, and sums are
//! kept in quarter tokens.
//!
//! When an estimate exceeds the configured threshold, the monitor suggests to
//! summarize older messages or, near the limit, to drop them.

use crate::config::CompactionConfig;
use crate::providers::ToolDefinition;
use crate::session::{
    message_views, text_message, text_parts, CallView, ContentPart, Message, MessageView, PartView, Role, ToolCall,
};
use crate::utils::json::{compact_text, to_text};
use crate::utils::ratio::{
    above, add_counts, at_most, count_bytes, is_count, lemma_eighty_five_percent,
    lemma_fractions, lemma_nearest_monotone,
    lemma_number_kept, lemma_plus_exact, lemma_plus_is_count, lemma_reaches, lemma_scaled, lemma_scaled_below,
    lemma_stays_under,
    lemma_plus_monotone, lemma_quotient_monotone, lemma_rounded_exact, lemma_scale_by_one,
    lemma_scale_monotone, lemma_threshold, lemma_whole_monotone, lemma_zero, plus, product, quotient, rounded, truncated, whole, Number, Quantity, Ratio,
    ONE_SHIFT, SIGNIFICAND_BOUND,
};
use crate::utils::text::{
    byte_len, decimal, lemma_decimal, lemma_encode_concat, lemma_prefix_longest,
    lemma_prefix_maximal, lemma_suffix_longest, lemma_suffix_maximal, prefix_of, prefix_within, same_text, suffix_of, suffix_within, to_decimal,
};
use vstd::arithmetic::power::pow;
use vstd::arithmetic::power2::pow2;
use vstd::prelude::*;
use vstd::utf8::{is_ascii_chars, is_ascii_chars_encode_utf8};

verus! {

/// Flat estimate per image, in quarter tokens: 2000 tokens.
pub const IMAGE_QUARTERS: u128 = 8000;

/// Overhead per message (role markers, delimiters), in quarter tokens: 4 tokens.
pub const MESSAGE_FRAMING_QUARTERS: u128 = 16;

/// `0.90`, as a bit pattern.
pub const NINETY_PERCENT: u64 = 0x3fec_cccc_cccc_cccd;

/// `0.95`, as a bit pattern.
pub const NINETY_FIVE_PERCENT: u64 = 0x3fee_6666_6666_6666;

/// `0.85`, as a bit pattern.
pub const EIGHTY_FIVE_PERCENT: u64 = 0x3feb_3333_3333_3333;

/// `0.75`, as a bit pattern.
pub const SEVENTY_FIVE_PERCENT: u64 = 0x3fe8_0000_0000_0000;

/// `0.70`, as a bit pattern.
pub const SEVENTY_PERCENT: u64 = 0x3fe6_6666_6666_6666;

/// `0.50`, as a bit pattern.
pub const FIFTY_PERCENT: u64 = 0x3fe0_0000_0000_0000;

/// `1.2`, as a bit pattern.
pub const DEFAULT_MARGIN: u64 = 0x3ff3_3333_3333_3333;

/// Strategy suggested when the context is getting too large.
#[derive(Debug, Clone, PartialEq, Eq, Structural)]
pub enum CompactionStrategy {
    /// No compaction needed.
    Keep,
    /// Summarize the oldest messages, keeping the `keep_recent` most recent.
    Summarize { keep_recent: usize },
    /// Drop the oldest messages, keeping the `keep_recent` most recent.
    Truncate { keep_recent: usize },
}

/// Compaction urgency tier.
#[derive(Debug, Clone, Copy, PartialEq, Eq, Structural)]
pub enum CompactionUrgency {
    /// Above the threshold.
    Normal,
    /// At or above the emergency threshold.
    Emergency,
    /// At or above the critical threshold.
    Critical,
}

/// Result of a pre-flight context size check.
#[derive(Debug, Clone, PartialEq, Eq, Structural)]
pub enum PreflightAction {
    /// The context fits within the budget: proceed normally.
    Proceed,
    /// Tool results were trimmed in memory: proceed with the modified messages.
    Trimmed,
    /// The context is still too large: full compaction is due.
    NeedsCompaction,
}

// ---------------------------------------------------------------------------
// Estimates
// ---------------------------------------------------------------------------

/// The estimate of a text, in quarter tokens; `dense` where two bytes make a
/// token.
pub open spec fn text_quarters(s: Seq<char>, dense: bool) -> nat {
    rounded(byte_len(s)) * if dense {
        2nat
    } else {
        1nat
    }
}

/// The estimate of a part of a message.
pub open spec fn part_quarters(p: PartView, dense: bool) -> nat {
    match p {
        PartView::Text(t) => text_quarters(t, dense),
        PartView::Image(..) => IMAGE_QUARTERS as nat,
    }
}

/// The estimate of the parts of a message.
pub open spec fn parts_quarters(parts: Seq<PartView>, dense: bool) -> nat
    decreases parts.len(),
{
    if parts.len() == 0 {
        0
    } else {
        plus(parts_quarters(parts.drop_last(), dense), part_quarters(parts.last(), dense))
    }
}

/// The estimate of the tool calls of a message.
pub open spec fn calls_quarters(calls: Seq<CallView>) -> nat
    decreases calls.len(),
{
    if calls.len() == 0 {
        0
    } else {
        plus(
            calls_quarters(calls.drop_last()),
            plus(
                text_quarters(calls.last().name, false),
                text_quarters(calls.last().arguments, true),
            ),
        )
    }
}

/// The estimate of a message: the larger of its text and its parts, its tool
/// calls, and the framing.
pub open spec fn message_quarters(m: MessageView) -> nat {
    let dense = m.role == Role::Tool;
    let content = text_quarters(m.content, dense);
    let parts = parts_quarters(m.parts, dense);
    let body = if content >= parts {
        content
    } else {
        parts
    };
    let calls = match m.calls {
        None => 0,
        Some(calls) => calls_quarters(calls),
    };
    plus(plus(body, calls), MESSAGE_FRAMING_QUARTERS as nat)
}

/// The estimate of a conversation.
pub open spec fn total_quarters(messages: Seq<MessageView>) -> nat
    decreases messages.len(),
{
    if messages.len() == 0 {
        0
    } else {
        plus(total_quarters(messages.drop_last()), message_quarters(messages.last()))
    }
}

/// The estimate of a tool definition, from the text of its schema.
pub open spec fn described_quarters(
    name: Seq<char>,
    description: Seq<char>,
    schema: Seq<char>,
) -> nat {
    plus(rounded(byte_len(name) + byte_len(description)), text_quarters(schema, true))
}

/// The estimate of a tool definition.
pub open spec fn definition_quarters(d: ToolDefinition) -> nat {
    described_quarters(d.name@, d.description@, compact_text(d.parameters))
}

/// The estimate of the tool definitions.
pub open spec fn definitions_quarters(defs: Seq<ToolDefinition>) -> nat
    decreases defs.len(),
{
    if defs.len() == 0 {
        0
    } else {
        plus(definitions_quarters(defs.drop_last()), definition_quarters(defs.last()))
    }
}

/// Quarter tokens in tokens, raised by a margin.
pub open spec fn tokens(quarters: nat, margin: Number) -> nat {
    truncated(product(quarters, 4, margin))
}

/// A fraction of a context limit, in tokens.
pub open spec fn share(limit: usize, fraction: Number) -> nat {
    truncated(product(rounded(limit as nat), 1, fraction))
}

fn estimate_text(s: &str, dense: bool) -> (r: u128)
    ensures
        r == text_quarters(s@, dense),
        is_count(r as nat),
{
    count_bytes(s.as_bytes().len() as u128, dense)
}

fn estimate_parts(parts: &Vec<ContentPart>, dense: bool) -> (r: u128)
    ensures
        r == parts_quarters(parts@.map_values(|p: ContentPart| p@), dense),
        is_count(r as nat),
{
    let ghost views = parts@.map_values(|p: ContentPart| p@);
    let mut sum: u128 = 0;
    let mut i: usize = 0;
    proof {
        lemma_rounded_exact(0);
        lemma_rounded_exact(IMAGE_QUARTERS as nat);
    }
    while i < parts.len()
        invariant
            i <= parts@.len(),
            views == parts@.map_values(|p: ContentPart| p@),
            sum == parts_quarters(views.take(i as int), dense),
            is_count(sum as nat),
            is_count(IMAGE_QUARTERS as nat),
        decreases parts@.len() - i,
    {
        let q: u128 = match &parts[i] {
            ContentPart::Text { text } => estimate_text(text.as_str(), dense),
            ContentPart::Image { .. } => IMAGE_QUARTERS,
        };
        proof {
            assert(views.take(i + 1).drop_last() =~= views.take(i as int));
            assert(views.take(i + 1).last() == parts@[i as int]@);
        }
        sum = add_counts(sum, q);
        i = i + 1;
    }
    assert(views.take(i as int) =~= views);
    sum
}

fn estimate_calls(calls: &Vec<ToolCall>) -> (r: u128)
    ensures
        r == calls_quarters(calls@.map_values(|c: ToolCall| c@)),
        is_count(r as nat),
{
    let ghost views = calls@.map_values(|c: ToolCall| c@);
    let mut sum: u128 = 0;
    let mut i: usize = 0;
    proof {
        lemma_rounded_exact(0);
    }
    while i < calls.len()
        invariant
            i <= calls@.len(),
            views == calls@.map_values(|c: ToolCall| c@),
            sum == calls_quarters(views.take(i as int)),
            is_count(sum as nat),
        decreases calls@.len() - i,
    {
        let call = &calls[i];
        let name = estimate_text(call.name.as_str(), false);
        let arguments = estimate_text(call.arguments.as_str(), true);
        proof {
            assert(views.take(i + 1).drop_last() =~= views.take(i as int));
            assert(views.take(i + 1).last() == calls@[i as int]@);
        }
        sum = add_counts(sum, add_counts(name, arguments));
        i = i + 1;
    }
    assert(views.take(i as int) =~= views);
    sum
}

/// Estimates a single message, in quarter tokens.
fn estimate_message_tokens(msg: &Message) -> (r: u128)
    ensures
        r == message_quarters(msg@),
        is_count(r as nat),
{
    let dense: bool = msg.role == Role::Tool;
    let content = estimate_text(msg.content.as_str(), dense);
    let parts = estimate_parts(&msg.content_parts, dense);
    let body: u128 = if content >= parts {
        content
    } else {
        parts
    };
    let calls: u128 = match &msg.tool_calls {
        None => 0,
        Some(calls) => estimate_calls(calls),
    };
    proof {
        lemma_rounded_exact(0);
        lemma_rounded_exact(MESSAGE_FRAMING_QUARTERS as nat);
    }
    add_counts(add_counts(body, calls), MESSAGE_FRAMING_QUARTERS)
}

fn estimate_messages(messages: &[Message]) -> (r: u128)
    ensures
        r == total_quarters(message_views(messages@)),
        is_count(r as nat),
{
    let ghost views = message_views(messages@);
    let mut sum: u128 = 0;
    let mut i: usize = 0;
    proof {
        lemma_rounded_exact(0);
    }
    while i < messages.len()
        invariant
            i <= messages@.len(),
            views == message_views(messages@),
            sum == total_quarters(views.take(i as int)),
            is_count(sum as nat),
        decreases messages@.len() - i,
    {
        let q = estimate_message_tokens(&messages[i]);
        proof {
            assert(views.take(i + 1).drop_last() =~= views.take(i as int));
            assert(views.take(i + 1).last() == messages@[i as int]@);
        }
        sum = add_counts(sum, q);
        i = i + 1;
    }
    assert(views.take(i as int) =~= views);
    sum
}

/// Estimates a tool definition, in quarter tokens, from the text of its schema.
pub fn estimate_definition(name: &str, description: &str, schema: &str) -> (r: u128)
    ensures
        r == described_quarters(name@, description@, schema@),
        is_count(r as nat),
{
    let dense = estimate_text(schema, true);
    let names: u128 = name.as_bytes().len() as u128;
    let descriptions: u128 = description.as_bytes().len() as u128;
    add_counts(count_bytes(names + descriptions, false), dense)
}

fn estimate_definitions(defs: &[ToolDefinition]) -> (r: u128)
    ensures
        r == definitions_quarters(defs@),
        is_count(r as nat),
{
    let mut sum: u128 = 0;
    let mut i: usize = 0;
    proof {
        lemma_rounded_exact(0);
    }
    while i < defs.len()
        invariant
            i <= defs@.len(),
            sum == definitions_quarters(defs@.take(i as int)),
            is_count(sum as nat),
        decreases defs@.len() - i,
    {
        let d = &defs[i];
        let schema = to_text(&d.parameters);
        let q = estimate_definition(d.name.as_str(), d.description.as_str(), schema.as_str());
        proof {
            assert(defs@.take(i + 1).drop_last() =~= defs@.take(i as int));
        }
        sum = add_counts(sum, q);
        i = i + 1;
    }
    assert(defs@.take(i as int) =~= defs@);
    sum
}

// ---------------------------------------------------------------------------
// Thresholds
// ---------------------------------------------------------------------------

/// The urgency tier of a fullness ratio.
pub open spec fn urgency_of(
    fullness: Number,
    threshold: Number,
    emergency: Number,
    critical: Number,
) -> Option<CompactionUrgency> {
    if at_most(fullness, threshold) {
        None
    } else if at_most(critical, fullness) {
        Some(CompactionUrgency::Critical)
    } else if at_most(emergency, fullness) {
        Some(CompactionUrgency::Emergency)
    } else {
        Some(CompactionUrgency::Normal)
    }
}

/// The strategy for an urgency tier and a fullness ratio.
pub open spec fn strategy_of(
    urgency: Option<CompactionUrgency>,
    fullness: Number,
) -> CompactionStrategy {
    match urgency {
        None => CompactionStrategy::Keep,
        Some(CompactionUrgency::Critical) => CompactionStrategy::Truncate { keep_recent: 3 },
        Some(CompactionUrgency::Emergency) => CompactionStrategy::Truncate { keep_recent: 5 },
        Some(CompactionUrgency::Normal) => if above(
            fullness,
            crate::utils::ratio::number(EIGHTY_FIVE_PERCENT),
        ) {
            CompactionStrategy::Summarize { keep_recent: 5 }
        } else {
            CompactionStrategy::Summarize { keep_recent: 8 }
        },
    }
}

// ---------------------------------------------------------------------------
// Trimming
// ---------------------------------------------------------------------------

/// What a tool result is replaced with when it is dropped.
pub open spec fn compacted_text() -> Seq<char> {
    "[compacted]"@
}

/// A message with another text; its parts follow.
pub open spec fn with_text(m: MessageView, text: Seq<char>) -> MessageView {
    MessageView {
        content: text,
        parts: if m.parts.len() > 0 {
            seq![PartView::Text(text)]
        } else {
            m.parts
        },
        ..m
    }
}

/// A text cut down to its first and last bytes, seven to three.
pub open spec fn capped_text(s: Seq<char>, cap: nat) -> Seq<char> {
    let head = prefix_within(s, cap * 7 / 10);
    let tail = suffix_within(s, cap * 3 / 10);
    let dropped = (byte_len(s) - byte_len(head) - byte_len(tail)) as nat;
    head + "\n...[truncated "@ + decimal(dropped) + " bytes]...\n"@ + tail
}

/// Whether a message is a tool result of more than `cap` bytes.
pub open spec fn oversized(m: MessageView, cap: nat) -> bool {
    m.role == Role::Tool && byte_len(m.content) > cap
}

/// A message whose text is cut where it is an oversized tool result.
pub open spec fn capped(m: MessageView, cap: nat) -> MessageView {
    if oversized(m, cap) {
        with_text(m, capped_text(m.content, cap))
    } else {
        m
    }
}

/// Every message, cut where it is an oversized tool result.
pub open spec fn capped_all(messages: Seq<MessageView>, cap: nat) -> Seq<MessageView> {
    messages.map_values(|m: MessageView| capped(m, cap))
}

/// Whether a message is a tool result that has not been dropped.
pub open spec fn droppable(m: MessageView) -> bool {
    m.role == Role::Tool && m.content != compacted_text()
}

/// The messages after tool results from `i` on were dropped, oldest first,
/// until the estimate fits the budget.
pub open spec fn dropped_from(
    messages: Seq<MessageView>,
    i: int,
    definitions: nat,
    margin: Number,
    budget: nat,
) -> Seq<MessageView>
    decreases messages.len() - i,
{
    if i < 0 || i >= messages.len() {
        messages
    } else if droppable(messages[i]) {
        let next = messages.update(i, with_text(messages[i], compacted_text()));
        if tokens(plus(total_quarters(next), definitions), margin) <= budget {
            next
        } else {
            dropped_from(next, i + 1, definitions, margin, budget)
        }
    } else {
        dropped_from(messages, i + 1, definitions, margin, budget)
    }
}

/// Whether any tool result from `i` on can be dropped.
pub open spec fn any_droppable(messages: Seq<MessageView>, i: int) -> bool {
    exists|j: int| i <= j < messages.len() && droppable(#[trigger] messages[j])
}

fn replace_text(m: &mut Message, text: String)
    ensures
        final(m)@ == with_text(old(m)@, text@),
{
    let synced = !m.content_parts.is_empty();
    if synced {
        m.content_parts = text_parts(text.as_str());
    }
    m.content = text;
    assert(m@.parts =~= with_text(old(m)@, text@).parts);
}

fn cap_text(s: &str, cap: usize) -> (r: String)
    requires
        byte_len(s@) > cap,
    ensures
        r@ == capped_text(s@, cap as nat),
{
    let head_budget: u128 = (cap as u128) * 7 / 10;
    let tail_budget: u128 = (cap as u128) * 3 / 10;
    let head = safe_truncate(s, head_budget as usize);
    let tail = safe_truncate_tail(s, tail_budget as usize);
    proof {
        lemma_prefix_longest(s@, head_budget as nat);
        lemma_suffix_longest(s@, tail_budget as nat);
    }
    let total: usize = s.as_bytes().len();
    let head_len: usize = head.as_bytes().len();
    let tail_len: usize = tail.as_bytes().len();
    let truncated: usize = total - head_len - tail_len;
    let mut r = head.to_owned();
    r.append("\n...[truncated ");
    r.append(to_decimal(truncated as u64).as_str());
    r.append(" bytes]...\n");
    r.append(tail);
    r
}

/// Cuts every oversized tool result; tells whether there was any.
fn cap_results(messages: &mut [Message], cap: usize) -> (r: bool)
    ensures
        message_views(final(messages)@) == capped_all(message_views(old(messages)@), cap as nat),
        r == exists|i: int|
            0 <= i < old(messages)@.len() && oversized(
                #[trigger] message_views(old(messages)@)[i],
                cap as nat,
            ),
{
    let ghost before = message_views(messages@);
    let mut any = false;
    let mut i: usize = 0;
    let len: usize = messages.len();
    while i < len
        invariant
            i <= len,
            len == messages@.len(),
            len == before.len(),
            forall|j: int| 0 <= j < i ==> (#[trigger] messages@[j])@ == capped(before[j], cap as nat),
            forall|j: int| i <= j < len ==> (#[trigger] messages@[j])@ == before[j],
            any == exists|j: int| 0 <= j < i && oversized(#[trigger] before[j], cap as nat),
        decreases len - i,
    {
        let is_result: bool = messages[i].role == Role::Tool;
        let bytes: usize = messages[i].content.as_str().as_bytes().len();
        if is_result && bytes > cap {
            let text = cap_text(messages[i].content.as_str(), cap);
            replace_text(&mut messages[i], text);
            any = true;
            assert(oversized(before[i as int], cap as nat));
        }
        i = i + 1;
    }
    assert(message_views(messages@) =~= capped_all(before, cap as nat));
    any
}

/// Drops tool results, oldest first, until the estimate fits the budget; tells
/// whether any was dropped.
fn drop_results(
    messages: &mut [Message],
    tool_definitions: &[ToolDefinition],
    margin: Ratio,
    budget: usize,
) -> (r: bool)
    ensures
        message_views(final(messages)@) == dropped_from(
            message_views(old(messages)@),
            0,
            definitions_quarters(tool_definitions@),
            margin@,
            budget as nat,
        ),
        r == any_droppable(message_views(old(messages)@), 0),
{
    let ghost before = message_views(messages@);
    let ghost defs = definitions_quarters(tool_definitions@);
    let mut any = false;
    let mut i: usize = 0;
    let len: usize = messages.len();
    while i < len
        invariant
            i <= len,
            len == messages@.len(),
            len == before.len(),
            before == message_views(old(messages)@),
            defs == definitions_quarters(tool_definitions@),
            dropped_from(message_views(messages@), i as int, defs, margin@, budget as nat)
                == dropped_from(before, 0, defs, margin@, budget as nat),
            forall|j: int| i <= j < len ==> (#[trigger] messages@[j])@ == before[j],
            any == exists|j: int| 0 <= j < i && droppable(#[trigger] before[j]),
        decreases len - i,
    {
        let is_result: bool = messages[i].role == Role::Tool;
        let ghost now = message_views(messages@);
        proof {
            assert(now[i as int] == before[i as int]);
            reveal_strlit("[compacted]");
        }
        if is_result && !same_text(messages[i].content.as_str(), "[compacted]") {
            replace_text(&mut messages[i], "[compacted]".to_owned());
            any = true;
            proof {
                assert(droppable(before[i as int]));
                assert(message_views(messages@) =~= now.update(
                    i as int,
                    with_text(now[i as int], compacted_text()),
                ));
            }
            let total = ContextMonitor::estimate_tokens_full(
                &*messages,
                tool_definitions,
                margin,
            );
            if total <= budget {
                return true;
            }
        }
        i = i + 1;
    }
    any
}

/// Truncates a string to at most `max_bytes`, respecting character boundaries.
pub fn safe_truncate(s: &str, max_bytes: usize) -> (r: &str)
    ensures
        r@ == prefix_within(s@, max_bytes as nat),
{
    prefix_of(s, max_bytes)
}

/// Takes the last `max_bytes` of a string, respecting character boundaries.
pub fn safe_truncate_tail(s: &str, max_bytes: usize) -> (r: &str)
    ensures
        r@ == suffix_within(s@, max_bytes as nat),
{
    suffix_of(s, max_bytes)
}

// ---------------------------------------------------------------------------
// The monitor
// ---------------------------------------------------------------------------

/// Monitors conversation context size and suggests compaction strategies.
pub struct ContextMonitor {
    /// Maximum token capacity of the context window.
    pub context_limit: usize,
    /// Fraction of the limit at which compaction is suggested.
    pub threshold: Ratio,
    /// Fraction for emergency truncation behavior.
    pub emergency_threshold: Ratio,
    /// Fraction for critical hard-trim behavior.
    pub critical_threshold: Ratio,
    /// Fraction of the limit usable for messages.
    pub input_headroom_ratio: Ratio,
    /// Largest fraction of the limit for a single tool result.
    pub single_tool_result_share: Ratio,
    /// Safety margin multiplier for estimates.
    pub safety_margin: Ratio,
}

impl ContextMonitor {
    /// The estimate of a conversation, in tokens.
    pub open spec fn estimated(&self, messages: Seq<MessageView>) -> nat {
        tokens(total_quarters(messages), self.safety_margin@)
    }

    /// The estimate of a whole request, in tokens.
    pub open spec fn estimated_full(
        &self,
        messages: Seq<MessageView>,
        defs: Seq<ToolDefinition>,
    ) -> nat {
        tokens(plus(total_quarters(messages), definitions_quarters(defs)), self.safety_margin@)
    }

    /// How full the context is.
    pub open spec fn fullness(&self, messages: Seq<MessageView>) -> Number {
        quotient(rounded(self.estimated(messages)), rounded(self.context_limit as nat))
    }

    /// The token budget for messages.
    pub open spec fn budget(&self) -> nat {
        share(self.context_limit, self.input_headroom_ratio@)
    }

    /// The largest tool result, in bytes.
    pub open spec fn result_cap(&self) -> nat {
        let cap = 2 * rounded(share(self.context_limit, self.single_tool_result_share@));
        if cap > usize::MAX {
            usize::MAX as nat
        } else {
            cap
        }
    }

    /// The messages with oversized tool results cut.
    pub open spec fn after_capping(&self, messages: Seq<MessageView>) -> Seq<MessageView> {
        capped_all(messages, self.result_cap())
    }

    /// Whether old tool results are dropped.
    pub open spec fn drops(&self, messages: Seq<MessageView>, defs: Seq<ToolDefinition>) -> bool {
        self.estimated_full(self.after_capping(messages), defs) > self.budget()
    }

    /// The messages after a pre-flight check.
    pub open spec fn after_preflight(
        &self,
        messages: Seq<MessageView>,
        defs: Seq<ToolDefinition>,
    ) -> Seq<MessageView> {
        let first = self.after_capping(messages);
        if self.drops(messages, defs) {
            dropped_from(first, 0, definitions_quarters(defs), self.safety_margin@, self.budget())
        } else {
            first
        }
    }

    /// Whether a pre-flight check changes anything.
    pub open spec fn trims(&self, messages: Seq<MessageView>, defs: Seq<ToolDefinition>) -> bool {
        ||| exists|i: int|
            0 <= i < messages.len() && oversized(#[trigger] messages[i], self.result_cap())
        ||| self.drops(messages, defs) && any_droppable(self.after_capping(messages), 0)
    }

    /// The most that a request may take without compaction, trimmed or not.
    pub open spec fn hard_limit(&self) -> nat {
        share(self.context_limit, crate::utils::ratio::number(NINETY_PERCENT))
    }

    /// What a pre-flight check tells its caller. Above 90% of the limit the
    /// context is too large in any case; above the budget it is where nothing
    /// could be trimmed.
    pub open spec fn preflight_action(
        &self,
        messages: Seq<MessageView>,
        defs: Seq<ToolDefinition>,
    ) -> PreflightAction {
        let estimated = self.estimated_full(self.after_preflight(messages, defs), defs);
        if estimated > self.hard_limit() {
            PreflightAction::NeedsCompaction
        } else if self.trims(messages, defs) {
            PreflightAction::Trimmed
        } else if estimated > self.budget() {
            PreflightAction::NeedsCompaction
        } else {
            PreflightAction::Proceed
        }
    }

    /// Creates a context monitor with the given limit (e.g. `100_000`) and
    /// fraction of it that triggers compaction (e.g. `0.80`).
    pub fn new(context_limit: usize, threshold: Ratio) -> (r: Self)
        ensures
            r.context_limit == context_limit,
            r.threshold == threshold,
            r.emergency_threshold.bits == NINETY_PERCENT,
            r.critical_threshold.bits == NINETY_FIVE_PERCENT,
            r.input_headroom_ratio.bits == SEVENTY_FIVE_PERCENT,
            r.single_tool_result_share.bits == FIFTY_PERCENT,
            r.safety_margin.bits == DEFAULT_MARGIN,
    {
        Self::new_with_thresholds(
            context_limit,
            threshold,
            Ratio { bits: NINETY_PERCENT },
            Ratio { bits: NINETY_FIVE_PERCENT },
        )
    }

    /// Creates a context monitor with explicit normal, emergency and critical
    /// thresholds.
    pub fn new_with_thresholds(
        context_limit: usize,
        threshold: Ratio,
        emergency_threshold: Ratio,
        critical_threshold: Ratio,
    ) -> (r: Self)
        ensures
            r.context_limit == context_limit,
            r.threshold == threshold,
            r.emergency_threshold == emergency_threshold,
            r.critical_threshold == critical_threshold,
            r.input_headroom_ratio.bits == SEVENTY_FIVE_PERCENT,
            r.single_tool_result_share.bits == FIFTY_PERCENT,
            r.safety_margin.bits == DEFAULT_MARGIN,
    {
        Self {
            context_limit,
            threshold,
            emergency_threshold,
            critical_threshold,
            input_headroom_ratio: Ratio { bits: SEVENTY_FIVE_PERCENT },
            single_tool_result_share: Ratio { bits: FIFTY_PERCENT },
            safety_margin: Ratio { bits: DEFAULT_MARGIN },
        }
    }

    /// Creates a context monitor from its settings.
    pub fn from_config(config: &CompactionConfig) -> (r: Self)
        ensures
            r.context_limit == config.context_limit,
            r.threshold == config.threshold,
            r.emergency_threshold == config.emergency_threshold,
            r.critical_threshold == config.critical_threshold,
            r.input_headroom_ratio == config.input_headroom_ratio,
            r.single_tool_result_share == config.single_tool_result_share,
            r.safety_margin == config.safety_margin,
    {
        Self {
            context_limit: config.context_limit,
            threshold: config.threshold,
            emergency_threshold: config.emergency_threshold,
            critical_threshold: config.critical_threshold,
            input_headroom_ratio: config.input_headroom_ratio,
            single_tool_result_share: config.single_tool_result_share,
            safety_margin: config.safety_margin,
        }
    }

    /// Estimates the total token count for a slice of messages, with the default
    /// safety margin.
    pub fn estimate_tokens(messages: &[Message]) -> (r: usize)
        ensures
            r == tokens(
                total_quarters(message_views(messages@)),
                crate::utils::ratio::number(DEFAULT_MARGIN),
            ),
    {
        Self::estimate_tokens_with_margin(messages, Ratio { bits: DEFAULT_MARGIN })
    }

    /// Estimates tokens with a custom safety margin (`1.0` for none).
    pub fn estimate_tokens_with_margin(messages: &[Message], safety_margin: Ratio) -> (r: usize)
        ensures
            r == tokens(total_quarters(message_views(messages@)), safety_margin@),
    {
        let raw = estimate_messages(messages);
        safety_margin.scale(raw)
    }

    /// Estimates total tokens including tool definitions, for checks where the
    /// full request payload matters.
    pub fn estimate_tokens_full(
        messages: &[Message],
        tool_definitions: &[ToolDefinition],
        safety_margin: Ratio,
    ) -> (r: usize)
        ensures
            r == tokens(
                plus(
                    total_quarters(message_views(messages@)),
                    definitions_quarters(tool_definitions@),
                ),
                safety_margin@,
            ),
    {
        let messages_part = estimate_messages(messages);
        let definitions_part = estimate_definitions(tool_definitions);
        safety_margin.scale(add_counts(messages_part, definitions_part))
    }

    /// Effective token budget for messages.
    pub fn context_budget(&self) -> (r: usize)
        ensures
            r == self.budget(),
    {
        self.input_headroom_ratio.of(self.context_limit)
    }

    /// Whether the messages exceed the compaction threshold.
    pub fn needs_compaction(&self, messages: &[Message]) -> (r: bool)
        ensures
            r == above(
                whole(rounded(self.estimated(message_views(messages@)))),
                product(rounded(self.context_limit as nat), 1, self.threshold@),
            ),
    {
        let estimated = Self::estimate_tokens_with_margin(messages, self.safety_margin);
        Quantity::whole(estimated).above(self.threshold.times(self.context_limit))
    }

    /// Determines the compaction urgency tier from how full the context is.
    pub fn urgency(&self, messages: &[Message]) -> (r: Option<CompactionUrgency>)
        ensures
            r == urgency_of(
                self.fullness(message_views(messages@)),
                self.threshold@,
                self.emergency_threshold@,
                self.critical_threshold@,
            ),
    {
        let estimated = Self::estimate_tokens_with_margin(messages, self.safety_margin);
        let ratio = Quantity::quotient(estimated, self.context_limit);
        if ratio.at_most(self.threshold.value()) {
            None
        } else if self.critical_threshold.value().at_most(ratio) {
            Some(CompactionUrgency::Critical)
        } else if self.emergency_threshold.value().at_most(ratio) {
            Some(CompactionUrgency::Emergency)
        } else {
            Some(CompactionUrgency::Normal)
        }
    }

    /// Suggests a compaction strategy based on how full the context is.
    pub fn suggest_strategy(&self, messages: &[Message]) -> (r: CompactionStrategy)
        ensures
            r == strategy_of(
                urgency_of(
                    self.fullness(message_views(messages@)),
                    self.threshold@,
                    self.emergency_threshold@,
                    self.critical_threshold@,
                ),
                self.fullness(message_views(messages@)),
            ),
    {
        let estimated = Self::estimate_tokens_with_margin(messages, self.safety_margin);
        let ratio = Quantity::quotient(estimated, self.context_limit);
        match self.urgency(messages) {
            None => CompactionStrategy::Keep,
            Some(CompactionUrgency::Critical) => CompactionStrategy::Truncate { keep_recent: 3 },
            Some(CompactionUrgency::Emergency) => CompactionStrategy::Truncate { keep_recent: 5 },
            Some(CompactionUrgency::Normal) => {
                if ratio.above(Ratio { bits: EIGHTY_FIVE_PERCENT }.value()) {
                    CompactionStrategy::Summarize { keep_recent: 5 }
                } else {
                    CompactionStrategy::Summarize { keep_recent: 8 }
                }
            },
        }
    }

    /// Pre-flight context guard, to run before each provider call.
    ///
    /// Cuts oversized tool results, then, where the request is still over the
    /// budget, drops tool results, oldest first, until it fits. Full compaction
    /// is due where the request then takes more than 90% of the limit, or is
    /// over the budget and nothing could be trimmed.
    pub fn preflight_check(
        &self,
        messages: &mut [Message],
        tool_definitions: &[ToolDefinition],
    ) -> (r: PreflightAction)
        ensures
            message_views(final(messages)@) == self.after_preflight(
                message_views(old(messages)@),
                tool_definitions@,
            ),
            r == self.preflight_action(message_views(old(messages)@), tool_definitions@),
            r == PreflightAction::Proceed ==> self.estimated_full(
                message_views(final(messages)@),
                tool_definitions@,
            ) <= self.budget(),
    {
        let budget = self.context_budget();
        let cap_tokens = self.single_tool_result_share.of(self.context_limit);
        let cap = twice(cap_tokens);
        let ghost before = message_views(messages@);
        let mut trimmed = cap_results(messages, cap);
        let total = Self::estimate_tokens_full(
            &*messages,
            tool_definitions,
            self.safety_margin,
        );
        if total > budget {
            let dropped = drop_results(messages, tool_definitions, self.safety_margin, budget);
            trimmed = trimmed || dropped;
        }
        let final_total = Self::estimate_tokens_full(
            &*messages,
            tool_definitions,
            self.safety_margin,
        );
        let hard_limit = Ratio { bits: NINETY_PERCENT }.of(self.context_limit);
        if final_total > hard_limit {
            PreflightAction::NeedsCompaction
        } else if trimmed {
            PreflightAction::Trimmed
        } else if final_total > budget {
            PreflightAction::NeedsCompaction
        } else {
            PreflightAction::Proceed
        }
    }
}

/// Twice a count, at most `usize::MAX`.
fn twice(n: usize) -> (r: usize)
    ensures
        r == if 2 * rounded(n as nat) > usize::MAX {
            usize::MAX as nat
        } else {
            2 * rounded(n as nat)
        },
{
    let doubled = count_bytes(n as u128, true);
    if doubled > usize::MAX as u128 {
        usize::MAX
    } else {
        doubled as usize
    }
}

impl Default for ContextMonitor {
    fn default() -> (r: Self)
        ensures
            r.context_limit == 180_000,
            r.threshold.bits == SEVENTY_PERCENT,
            r.emergency_threshold.bits == NINETY_PERCENT,
            r.critical_threshold.bits == NINETY_FIVE_PERCENT,
            r.input_headroom_ratio.bits == SEVENTY_FIVE_PERCENT,
            r.single_tool_result_share.bits == FIFTY_PERCENT,
            r.safety_margin.bits == DEFAULT_MARGIN,
    {
        Self {
            context_limit: 180_000,
            threshold: Ratio { bits: SEVENTY_PERCENT },
            emergency_threshold: Ratio { bits: NINETY_PERCENT },
            critical_threshold: Ratio { bits: NINETY_FIVE_PERCENT },
            input_headroom_ratio: Ratio { bits: SEVENTY_FIVE_PERCENT },
            single_tool_result_share: Ratio { bits: FIFTY_PERCENT },
            safety_margin: Ratio { bits: DEFAULT_MARGIN },
        }
    }
}

// ---------------------------------------------------------------------------
// What holds of every estimate
// ---------------------------------------------------------------------------

/// The estimate of a conversation is a count that sums can hold.
proof fn lemma_total_is_count(messages: Seq<MessageView>)
    ensures
        is_count(total_quarters(messages)),
{
    lemma_zero(4, Number::Nan);
    if messages.len() > 0 {
        lemma_plus_is_count(
            total_quarters(messages.drop_last()),
            message_quarters(messages.last()),
        );
    }
}

/// Nothing is estimated for an empty conversation, whatever the margin.
pub proof fn lemma_empty_estimate(margin: Number)
    ensures
        tokens(total_quarters(seq![]), margin) == 0,
{
    lemma_zero(4, margin);
}

/// Another message never lowers the estimate.
pub proof fn lemma_estimate_grows(messages: Seq<MessageView>, m: MessageView, margin: Number)
    ensures
        total_quarters(messages) <= total_quarters(messages.push(m)),
        tokens(total_quarters(messages), margin) <= tokens(
            total_quarters(messages.push(m)),
            margin,
        ),
{
    let (a, b) = (total_quarters(messages), message_quarters(m));
    assert(messages.push(m).drop_last() =~= messages);
    lemma_total_is_count(messages);
    lemma_plus_monotone(a, b, a, b);
    lemma_scale_monotone(a, plus(a, b), 4, margin);
}

/// Counting the tool definitions in never lowers the estimate.
pub proof fn lemma_definitions_add(
    messages: Seq<MessageView>,
    defs: Seq<ToolDefinition>,
    margin: Number,
)
    ensures
        tokens(total_quarters(messages), margin) <= tokens(
            plus(total_quarters(messages), definitions_quarters(defs)),
            margin,
        ),
{
    let (a, b) = (total_quarters(messages), definitions_quarters(defs));
    lemma_total_is_count(messages);
    lemma_plus_monotone(a, b, a, b);
    lemma_scale_monotone(a, plus(a, b), 4, margin);
}

/// The same parts weigh no less in a tool result.
proof fn lemma_dense_parts(parts: Seq<PartView>)
    ensures
        parts_quarters(parts, false) <= parts_quarters(parts, true),
    decreases parts.len(),
{
    if parts.len() > 0 {
        lemma_dense_parts(parts.drop_last());
        lemma_plus_monotone(
            parts_quarters(parts.drop_last(), false),
            part_quarters(parts.last(), false),
            parts_quarters(parts.drop_last(), true),
            part_quarters(parts.last(), true),
        );
    }
}

/// A message weighs no less as a tool result than in another role.
pub proof fn lemma_tool_result_denser(m: MessageView, role: Role)
    ensures
        message_quarters(MessageView { role, ..m }) <= message_quarters(
            (MessageView { role: Role::Tool, ..m }),
        ),
{
    let framing = MESSAGE_FRAMING_QUARTERS as nat;
    let calls = match m.calls {
        None => 0,
        Some(calls) => calls_quarters(calls),
    };
    let plain = text_quarters(m.content, false);
    let dense = text_quarters(m.content, true);
    lemma_dense_parts(m.parts);
    let a = if plain >= parts_quarters(m.parts, false) {
        plain
    } else {
        parts_quarters(m.parts, false)
    };
    let b = if dense >= parts_quarters(m.parts, true) {
        dense
    } else {
        parts_quarters(m.parts, true)
    };
    lemma_plus_monotone(a, calls, b, calls);
    lemma_plus_monotone(plus(a, calls), framing, plus(b, calls), framing);
}

/// Asking for tool calls never lowers the estimate of a message.
pub proof fn lemma_calls_add(m: MessageView)
    ensures
        message_quarters(MessageView { calls: None, ..m }) <= message_quarters(m),
{
    let framing = MESSAGE_FRAMING_QUARTERS as nat;
    let dense = m.role == Role::Tool;
    let content = text_quarters(m.content, dense);
    let parts = parts_quarters(m.parts, dense);
    let body = if content >= parts {
        content
    } else {
        parts
    };
    let calls = match m.calls {
        None => 0,
        Some(calls) => calls_quarters(calls),
    };
    lemma_plus_monotone(body, 0, body, calls);
    lemma_plus_monotone(plus(body, 0), framing, plus(body, calls), framing);
}

/// A margin of `1.0` is no margin: the estimate is the number of whole tokens.
pub proof fn lemma_no_margin(messages: Seq<MessageView>)
    ensures
        tokens(
            total_quarters(messages),
            crate::utils::ratio::number(0x3ff0_0000_0000_0000),
        ) == if total_quarters(messages) / 4 > usize::MAX {
            usize::MAX as nat
        } else {
            total_quarters(messages) / 4
        },
{
    lemma_total_is_count(messages);
    lemma_scale_by_one(total_quarters(messages));
}

/// A message that is one text weighs a token for each four bytes, or for each
/// two of a tool result, and four tokens for the framing, exactly.
pub proof fn lemma_text_message_estimate(
    role: Role,
    content: Seq<char>,
    call_id: Option<Seq<char>>,
)
    requires
        byte_len(content) < 0x8_0000_0000_0000,
    ensures
        message_quarters(text_message(role, content, call_id)) == 16 + byte_len(content) * if role
            == Role::Tool {
            2nat
        } else {
            1nat
        },
{
    let m = text_message(role, content, call_id);
    let dense = role == Role::Tool;
    let n = byte_len(content);
    let q = text_quarters(content, dense);
    lemma_rounded_exact(n);
    lemma_rounded_exact(q);
    lemma_rounded_exact(q + 16);
    assert(m.parts.drop_last() =~= seq![]);
    assert(m.parts.last() == PartView::Text(content));
    assert(parts_quarters(seq![], dense) == 0);
    assert(parts_quarters(m.parts, dense) == q);
}

/// The estimate without a margin, in tokens.
pub open spec fn plain_tokens(messages: Seq<MessageView>) -> nat {
    tokens(total_quarters(messages), crate::utils::ratio::number(0x3ff0_0000_0000_0000))
}

/// Below `2^53` quarter tokens, the quarter tokens of a conversation are those of
/// its parts together.
proof fn lemma_total_adds_up(a: Seq<MessageView>, b: Seq<MessageView>)
    requires
        total_quarters(a + b) < SIGNIFICAND_BOUND || total_quarters(a) + total_quarters(b)
            < SIGNIFICAND_BOUND,
    ensures
        total_quarters(a + b) == total_quarters(a) + total_quarters(b),
    decreases b.len(),
{
    if b.len() == 0 {
        assert(a + b =~= a);
    } else {
        let q = message_quarters(b.last());
        let most = b.drop_last();
        assert((a + b).drop_last() =~= a + most);
        assert((a + b).last() == b.last());
        lemma_plus_exact(total_quarters(a + most), q);
        lemma_plus_exact(total_quarters(most), q);
        lemma_total_adds_up(a, most);
    }
}

/// Without a margin, and below `2^53` quarter tokens, the estimate of two
/// conversations together is the sum of their estimates, or one more: tokens are
/// rounded down once, on the sum.
pub proof fn lemma_estimates_add_up(a: Seq<MessageView>, b: Seq<MessageView>)
    requires
        total_quarters(a + b) < SIGNIFICAND_BOUND,
        total_quarters(a + b) / 4 <= usize::MAX,
    ensures
        plain_tokens(a) + plain_tokens(b) <= plain_tokens(a + b) <= plain_tokens(a)
            + plain_tokens(b) + 1,
{
    lemma_total_adds_up(a, b);
    lemma_no_margin(a);
    lemma_no_margin(b);
    lemma_no_margin(a + b);
}

/// Without a margin, and below `2^53` quarter tokens, every message adds four
/// tokens or more.
pub proof fn lemma_message_adds_framing(messages: Seq<MessageView>, m: MessageView)
    requires
        total_quarters(messages.push(m)) < SIGNIFICAND_BOUND,
        total_quarters(messages.push(m)) / 4 <= usize::MAX,
    ensures
        plain_tokens(messages.push(m)) >= plain_tokens(messages) + 4,
{
    let framing = MESSAGE_FRAMING_QUARTERS as nat;
    let dense = m.role == Role::Tool;
    let content = text_quarters(m.content, dense);
    let parts = parts_quarters(m.parts, dense);
    let body = if content >= parts {
        content
    } else {
        parts
    };
    let calls = match m.calls {
        None => 0,
        Some(calls) => calls_quarters(calls),
    };
    lemma_rounded_exact(framing);
    lemma_plus_monotone(plus(body, calls), framing, plus(body, calls), framing);
    assert(message_quarters(m) >= 16);
    assert(messages.push(m).drop_last() =~= messages);
    lemma_plus_exact(total_quarters(messages), message_quarters(m));
    lemma_no_margin(messages);
    lemma_no_margin(messages.push(m));
}

/// Below `2^53` quarter tokens, the estimate does not depend on the order of the
/// messages, whatever the margin.
pub proof fn lemma_order_does_not_matter(
    a: Seq<MessageView>,
    b: Seq<MessageView>,
    margin: Number,
)
    requires
        a.to_multiset() == b.to_multiset(),
        total_quarters(a) < SIGNIFICAND_BOUND,
    ensures
        total_quarters(a) == total_quarters(b),
        tokens(total_quarters(a), margin) == tokens(total_quarters(b), margin),
    decreases b.len(),
{
    a.to_multiset_ensures();
    b.to_multiset_ensures();
    if b.len() > 0 {
        let x = b.last();
        let most = b.drop_last();
        assert(b =~= most.push(x));
        assert(most =~= b.remove(b.len() - 1));
        assert(b.contains(x));
        assert(a.to_multiset().count(x) > 0);
        assert(a.contains(x));
        let i = choose|i: int| 0 <= i < a.len() && a[i] == x;
        let (before, after) = (a.take(i), a.skip(i + 1));
        assert(before.push(x).drop_last() =~= before);
        assert(before.push(x) + after =~= a);
        assert(a.remove(i) =~= before + after);
        lemma_total_adds_up(before.push(x), after);
        lemma_plus_exact(total_quarters(before), message_quarters(x));
        lemma_total_adds_up(before, after);
        lemma_order_does_not_matter(a.remove(i), most, margin);
        lemma_plus_exact(total_quarters(most), message_quarters(x));
    } else {
        assert(a =~= b);
    }
}

// ---------------------------------------------------------------------------
// Estimates, told by bytes
// ---------------------------------------------------------------------------

/// The sum of some counts.
pub open spec fn sum(counts: Seq<nat>) -> nat {
    counts.fold_left(0nat, |a: nat, b: nat| a + b)
}

/// The sum of one count more.
proof fn lemma_sum_push(counts: Seq<nat>, n: nat)
    ensures
        sum(counts.push(n)) == sum(counts) + n,
        sum(Seq::<nat>::empty()) == 0,
{
    assert(counts.push(n).drop_last() =~= counts);
}

/// Below `2^53` quarter tokens, tool calls weigh, all together, a quarter token for
/// each byte of their names and two for each byte of their arguments.
proof fn lemma_calls_sum(calls: Seq<CallView>)
    requires
        sum(
            calls.map_values(|c: CallView| byte_len(c.name) + 2 * byte_len(c.arguments)),
        ) < 0x20_0000_0000_0000,
    ensures
        calls_quarters(calls) == sum(
            calls.map_values(|c: CallView| byte_len(c.name) + 2 * byte_len(c.arguments)),
        ),
    decreases calls.len(),
{
    let weigh = |c: CallView| byte_len(c.name) + 2 * byte_len(c.arguments);
    lemma_sum_push(calls.drop_last().map_values(weigh), weigh(calls.last()));
    if calls.len() > 0 {
        let c = calls.last();
        assert(calls.map_values(weigh) =~= calls.drop_last().map_values(weigh).push(weigh(c)));
        lemma_calls_sum(calls.drop_last());
        lemma_rounded_exact(byte_len(c.name));
        lemma_rounded_exact(byte_len(c.arguments));
        lemma_plus_exact(byte_len(c.name), 2 * byte_len(c.arguments));
        lemma_plus_exact(calls_quarters(calls.drop_last()), weigh(c));
    } else {
        assert(calls.map_values(weigh) =~= Seq::empty());
    }
}

/// Below `2^53` quarter tokens, the parts of a message weigh, all together, a
/// quarter token for each byte of text, or two in a tool result, and 2000 tokens
/// for each image.
proof fn lemma_parts_sum(parts: Seq<PartView>, dense: bool)
    requires
        sum(
            parts.map_values(
                |p: PartView|
                    match p {
                        PartView::Text(t) => byte_len(t) * if dense { 2nat } else { 1nat },
                        PartView::Image(..) => 8000nat,
                    },
            ),
        ) < 0x20_0000_0000_0000,
    ensures
        parts_quarters(parts, dense) == sum(
            parts.map_values(
                |p: PartView|
                    match p {
                        PartView::Text(t) => byte_len(t) * if dense { 2nat } else { 1nat },
                        PartView::Image(..) => 8000nat,
                    },
            ),
        ),
    decreases parts.len(),
{
    let weigh = |p: PartView|
        match p {
            PartView::Text(t) => byte_len(t) * if dense { 2nat } else { 1nat },
            PartView::Image(..) => 8000nat,
        };
    lemma_sum_push(parts.drop_last().map_values(weigh), weigh(parts.last()));
    if parts.len() > 0 {
        let p = parts.last();
        assert(parts.map_values(weigh) =~= parts.drop_last().map_values(weigh).push(weigh(p)));
        lemma_parts_sum(parts.drop_last(), dense);
        if let PartView::Text(t) = p {
            lemma_rounded_exact(byte_len(t));
        }
        lemma_plus_exact(parts_quarters(parts.drop_last(), dense), weigh(p));
    } else {
        assert(parts.map_values(weigh) =~= Seq::empty());
    }
}

/// Below `2^53` quarter tokens, a message weighs exactly: four tokens; a quarter
/// token for each byte of its text, or of its parts with 2000 tokens for each
/// image, whichever is more, twice as much for bytes of a tool result; and for all
/// its tool calls together a quarter token for each byte of a name and two for each
/// byte of arguments.
pub proof fn lemma_message_estimate(m: MessageView)
    requires
        ({
            let dense = m.role == Role::Tool;
            let content = byte_len(m.content) * if dense { 2nat } else { 1nat };
            let parts = sum(
                m.parts.map_values(
                    |p: PartView|
                        match p {
                            PartView::Text(t) => byte_len(t) * if dense { 2nat } else { 1nat },
                            PartView::Image(..) => 8000nat,
                        },
                ),
            );
            let calls = match m.calls {
                None => 0nat,
                Some(calls) => sum(
                    calls.map_values(|c: CallView| byte_len(c.name) + 2 * byte_len(c.arguments)),
                ),
            };
            content + calls + 16 < 0x20_0000_0000_0000 && parts + calls + 16 < 0x20_0000_0000_0000
        }),
    ensures
        ({
            let dense = m.role == Role::Tool;
            let content = byte_len(m.content) * if dense { 2nat } else { 1nat };
            let parts = sum(
                m.parts.map_values(
                    |p: PartView|
                        match p {
                            PartView::Text(t) => byte_len(t) * if dense { 2nat } else { 1nat },
                            PartView::Image(..) => 8000nat,
                        },
                ),
            );
            let calls = match m.calls {
                None => 0nat,
                Some(calls) => sum(
                    calls.map_values(|c: CallView| byte_len(c.name) + 2 * byte_len(c.arguments)),
                ),
            };
            message_quarters(m) == if content >= parts { content } else { parts } + calls + 16
        }),
{
    let dense = m.role == Role::Tool;
    lemma_parts_sum(m.parts, dense);
    lemma_rounded_exact(byte_len(m.content));
    if let Some(calls) = m.calls {
        lemma_calls_sum(calls);
    }
    let content = text_quarters(m.content, dense);
    let parts = parts_quarters(m.parts, dense);
    let body = if content >= parts { content } else { parts };
    let calls = match m.calls {
        None => 0,
        Some(calls) => calls_quarters(calls),
    };
    lemma_plus_exact(body, calls);
    lemma_plus_exact(body + calls, 16);
}

/// Below `2^53` quarter tokens, what tool calls weigh together is what they weigh
/// apart.
proof fn lemma_calls_together(a: Seq<CallView>, b: Seq<CallView>)
    requires
        calls_quarters(a + b) < SIGNIFICAND_BOUND,
    ensures
        calls_quarters(a + b) == calls_quarters(a) + calls_quarters(b),
    decreases b.len(),
{
    if b.len() == 0 {
        assert(a + b =~= a);
    } else {
        let most = b.drop_last();
        let q = plus(
            text_quarters(b.last().name, false),
            text_quarters(b.last().arguments, true),
        );
        assert((a + b).drop_last() =~= a + most);
        assert((a + b).last() == b.last());
        lemma_plus_exact(calls_quarters(a + most), q);
        lemma_calls_together(a, most);
        lemma_plus_exact(calls_quarters(most), q);
    }
}

/// A length below `2^53` once rounded is kept.
proof fn lemma_small_rounded(n: nat)
    requires
        rounded(n) < SIGNIFICAND_BOUND,
    ensures
        rounded(n) == n,
{
    if n < SIGNIFICAND_BOUND {
        lemma_rounded_exact(n);
    } else {
        lemma_plus_exact(SIGNIFICAND_BOUND as nat, 0);
        lemma_nearest_monotone(SIGNIFICAND_BOUND as nat, n, 1);
    }
}

/// What tool calls add to a message.
proof fn lemma_calls_beside(m: MessageView, calls: Seq<CallView>)
    requires
        message_quarters(MessageView { calls: Some(calls), ..m }) < SIGNIFICAND_BOUND,
    ensures
        message_quarters(MessageView { calls: Some(calls), ..m }) == message_quarters(
            (MessageView { calls: None, ..m }),
        ) + calls_quarters(calls),
        calls_quarters(calls) < SIGNIFICAND_BOUND,
{
    let dense = m.role == Role::Tool;
    let content = text_quarters(m.content, dense);
    let parts = parts_quarters(m.parts, dense);
    let body = if content >= parts {
        content
    } else {
        parts
    };
    let q = calls_quarters(calls);
    lemma_plus_exact(plus(body, q), 16);
    lemma_plus_exact(body, q);
    lemma_plus_exact(body, 0);
    lemma_plus_exact(body, 16);
}

/// Below `2^53` quarter tokens, a message with tool calls exceeds the same message
/// without any by what the calls add one list after the other, however the calls
/// are split into lists.
pub proof fn lemma_calls_add_up(m: MessageView, a: Seq<CallView>, b: Seq<CallView>)
    requires
        message_quarters(MessageView { calls: Some(a + b), ..m }) < 0x20_0000_0000_0000,
    ensures
        ({
            let none = message_quarters(MessageView { calls: None, ..m });
            let first = message_quarters(MessageView { calls: Some(a), ..m }) - none;
            let second = message_quarters(MessageView { calls: Some(b), ..m }) - none;
            &&& first >= 0
            &&& second >= 0
            &&& message_quarters(MessageView { calls: Some(a + b), ..m }) == none + first + second
        }),
{
    lemma_calls_beside(m, a + b);
    lemma_calls_together(a, b);
    let dense = m.role == Role::Tool;
    let content = text_quarters(m.content, dense);
    let parts = parts_quarters(m.parts, dense);
    let body = if content >= parts {
        content
    } else {
        parts
    };
    lemma_plus_exact(plus(body, calls_quarters(a + b)), 16);
    lemma_plus_exact(body, calls_quarters(a + b));
    lemma_plus_exact(body, calls_quarters(a));
    lemma_plus_exact(body, calls_quarters(b));
    lemma_plus_exact(body + calls_quarters(a), 16);
    lemma_plus_exact(body + calls_quarters(b), 16);
    lemma_calls_beside(m, a);
    lemma_calls_beside(m, b);
}

/// Below `2^53` quarter tokens, a tool call adds a quarter token for each byte of
/// its name and two for each byte of its arguments, to a message with any others.
pub proof fn lemma_call_adds(m: MessageView, calls: Seq<CallView>, c: CallView)
    requires
        message_quarters(MessageView { calls: Some(calls.push(c)), ..m }) < 0x20_0000_0000_0000,
    ensures
        message_quarters(MessageView { calls: Some(calls.push(c)), ..m }) == message_quarters(
            (MessageView { calls: Some(calls), ..m }),
        ) + byte_len(c.name) + 2 * byte_len(c.arguments),
{
    let one = seq![c];
    assert(calls + one =~= calls.push(c));
    lemma_calls_add_up(m, calls, one);
    lemma_calls_beside(m, calls.push(c));
    lemma_calls_together(calls, one);
    let q = plus(text_quarters(c.name, false), text_quarters(c.arguments, true));
    assert(one.drop_last() =~= Seq::empty());
    assert(calls_quarters(one.drop_last()) == 0);
    assert(calls_quarters(one) == plus(0, q));
    lemma_plus_exact(0, q);
    lemma_plus_exact(text_quarters(c.name, false), text_quarters(c.arguments, true));
    lemma_small_rounded(byte_len(c.name));
    lemma_small_rounded(byte_len(c.arguments));
    let dense = m.role == Role::Tool;
    let content = text_quarters(m.content, dense);
    let parts = parts_quarters(m.parts, dense);
    let body = if content >= parts {
        content
    } else {
        parts
    };
    lemma_plus_exact(plus(body, calls_quarters(calls.push(c))), 16);
    lemma_plus_exact(body, calls_quarters(calls.push(c)));
    lemma_plus_exact(body, q);
    lemma_plus_exact(body + q, 16);
    lemma_calls_beside(m, one);
}

/// Below `2^53` quarter tokens, a conversation weighs what its messages weigh, all
/// together.
pub proof fn lemma_conversation_estimate(messages: Seq<MessageView>)
    requires
        sum(messages.map_values(|m: MessageView| message_quarters(m))) < 0x20_0000_0000_0000,
    ensures
        total_quarters(messages) == sum(
            messages.map_values(|m: MessageView| message_quarters(m)),
        ),
    decreases messages.len(),
{
    let weigh = |m: MessageView| message_quarters(m);
    lemma_sum_push(messages.drop_last().map_values(weigh), weigh(messages.last()));
    if messages.len() > 0 {
        assert(messages.map_values(weigh) =~= messages.drop_last().map_values(weigh).push(
            weigh(messages.last()),
        ));
        lemma_conversation_estimate(messages.drop_last());
        lemma_plus_exact(total_quarters(messages.drop_last()), weigh(messages.last()));
    } else {
        assert(messages.map_values(weigh) =~= Seq::empty());
    }
}

/// Below `2^53` quarter tokens, tool definitions weigh, all together, a quarter
/// token for each byte of their names and descriptions and two for each byte of
/// their schemas, written as compact JSON.
pub proof fn lemma_definitions_estimate(defs: Seq<ToolDefinition>)
    requires
        sum(
            defs.map_values(
                |d: ToolDefinition|
                    byte_len(d.name@) + byte_len(d.description@) + 2 * byte_len(
                        compact_text(d.parameters),
                    ),
            ),
        ) < 0x20_0000_0000_0000,
    ensures
        definitions_quarters(defs) == sum(
            defs.map_values(
                |d: ToolDefinition|
                    byte_len(d.name@) + byte_len(d.description@) + 2 * byte_len(
                        compact_text(d.parameters),
                    ),
            ),
        ),
    decreases defs.len(),
{
    let weigh = |d: ToolDefinition|
        byte_len(d.name@) + byte_len(d.description@) + 2 * byte_len(compact_text(d.parameters));
    lemma_sum_push(defs.drop_last().map_values(weigh), weigh(defs.last()));
    if defs.len() > 0 {
        let d = defs.last();
        assert(defs.map_values(weigh) =~= defs.drop_last().map_values(weigh).push(weigh(d)));
        lemma_definitions_estimate(defs.drop_last());
        let names = byte_len(d.name@) + byte_len(d.description@);
        lemma_rounded_exact(names);
        lemma_rounded_exact(byte_len(compact_text(d.parameters)));
        lemma_plus_exact(names, 2 * byte_len(compact_text(d.parameters)));
        lemma_plus_exact(definitions_quarters(defs.drop_last()), weigh(d));
    } else {
        assert(defs.map_values(weigh) =~= Seq::empty());
    }
}

/// Below `2^53` quarter tokens, a request weighs what its messages and its tool
/// definitions weigh, together.
pub proof fn lemma_request_estimate(
    monitor: ContextMonitor,
    messages: Seq<MessageView>,
    defs: Seq<ToolDefinition>,
)
    requires
        total_quarters(messages) + definitions_quarters(defs) < 0x20_0000_0000_0000,
    ensures
        monitor.estimated_full(messages, defs) == tokens(
            total_quarters(messages) + definitions_quarters(defs),
            monitor.safety_margin@,
        ),
        monitor.estimated(messages) == tokens(total_quarters(messages), monitor.safety_margin@),
{
    lemma_plus_exact(total_quarters(messages), definitions_quarters(defs));
}

/// An estimate is a quarter of the quarter tokens times the margin, rounded down but
/// for what is less than a millionth under a whole number: it is at least every `k`
/// that the product reaches, at most every `k` that the product does not exceed, and
/// under every `k` that the product misses by a millionth. Amounts are compared in
/// units of the margin.
pub proof fn lemma_margin(quarters: nat, units: nat, k: nat)
    requires
        k < 0x20_0000_0000_0000,
        k <= usize::MAX,
    ensures
        ({
            let estimate = tokens(quarters, Number::Finite { negative: false, units });
            &&& 4 * k * pow2(1074) <= quarters * units ==> k <= estimate
            &&& quarters * units <= 4 * k * pow2(1074) ==> estimate <= k
            &&& k <= 0x1_0000_0000 && 0x10_0000 * (quarters * units) + 4 * pow2(1074) <= 0x10_0000
                * (4 * k * pow2(1074)) ==> estimate < k
        }),
{
    lemma_scaled(quarters, 4, units, k);
    assert((k * pow2(1074)) * 4 == 4 * k * pow2(1074)) by (nonlinear_arith);
    if k <= 0x1_0000_0000 && 0x10_0000 * (quarters * units) + 4 * pow2(1074) <= 0x10_0000 * (4 * k
        * pow2(1074)) {
        lemma_scaled_below(quarters, 4, units, k);
    }
}

/// With the default margin an estimate is 1.2 tokens for every four quarter
/// tokens, rounded down, or one less where that is a whole number.
pub proof fn lemma_default_margin(quarters: nat)
    requires
        quarters < 0x1_0000_0000,
    ensures
        ({
            let estimate = tokens(quarters, crate::utils::ratio::number(DEFAULT_MARGIN));
            3 * quarters <= 10 * estimate + 10 && 10 * estimate <= 3 * quarters
        }),
{
    lemma_fractions();
    let one = pow2(1074);
    let grain = pow2(1021);
    let units = crate::utils::ratio::number(DEFAULT_MARGIN)->units;
    let up = (3 * quarters + 9) / 10;
    let exact = quarters * units;
    assert(10 * exact == 12 * (quarters * one) - 4 * (quarters * grain)) by (nonlinear_arith)
        requires
            exact == quarters * units,
            10 * units + 4 * grain == 12 * one,
    ;
    lemma_margin(quarters, units, up as nat);
    assert(exact <= 4 * up * one) by (nonlinear_arith)
        requires
            10 * exact == 12 * (quarters * one) - 4 * (quarters * grain),
            3 * quarters <= 10 * up,
    ;
    if (3 * quarters) % 10 != 0 {
        assert(0x10_0000 * exact + 4 * one <= 0x10_0000 * (4 * up * one)) by (nonlinear_arith)
            requires
                10 * exact == 12 * (quarters * one) - 4 * (quarters * grain),
                3 * quarters + 1 <= 10 * up,
                one > 0,
        ;
    }
    if 3 * quarters >= 11 {
        let down = (3 * quarters - 1) / 10;
        assert(4 * down * one <= exact) by (nonlinear_arith)
            requires
                10 * exact == 12 * (quarters * one) - 4 * (quarters * grain),
                10 * down + 1 <= 3 * quarters,
                quarters < 0x1_0000_0000,
                one == 0x20_0000_0000_0000 * grain,
        ;
        lemma_margin(quarters, units, down as nat);
    }
}

// ---------------------------------------------------------------------------
// What holds of every suggestion
// ---------------------------------------------------------------------------

/// How urgent a tier is.
pub open spec fn rank(urgency: Option<CompactionUrgency>) -> nat {
    match urgency {
        None => 0,
        Some(CompactionUrgency::Normal) => 1,
        Some(CompactionUrgency::Emergency) => 2,
        Some(CompactionUrgency::Critical) => 3,
    }
}

/// Once compaction is needed, another message does not undo it.
pub proof fn lemma_compaction_stays_needed(
    monitor: ContextMonitor,
    messages: Seq<MessageView>,
    m: MessageView,
)
    ensures
        ({
            let limit = product(rounded(monitor.context_limit as nat), 1, monitor.threshold@);
            above(whole(rounded(monitor.estimated(messages))), limit) ==> above(
                whole(rounded(monitor.estimated(messages.push(m)))),
                limit,
            )
        }),
{
    lemma_estimate_grows(messages, m, monitor.safety_margin@);
    lemma_whole_monotone(
        monitor.estimated(messages),
        monitor.estimated(messages.push(m)),
        product(rounded(monitor.context_limit as nat), 1, monitor.threshold@),
    );
}

/// Another message never makes the urgency fall, where the context has room for
/// anything at all.
pub proof fn lemma_urgency_grows(
    monitor: ContextMonitor,
    messages: Seq<MessageView>,
    m: MessageView,
)
    requires
        monitor.context_limit > 0,
    ensures
        rank(
            urgency_of(
                monitor.fullness(messages),
                monitor.threshold@,
                monitor.emergency_threshold@,
                monitor.critical_threshold@,
            ),
        ) <= rank(
            urgency_of(
                monitor.fullness(messages.push(m)),
                monitor.threshold@,
                monitor.emergency_threshold@,
                monitor.critical_threshold@,
            ),
        ),
{
    lemma_estimate_grows(messages, m, monitor.safety_margin@);
    lemma_quotient_monotone(
        monitor.estimated(messages),
        monitor.estimated(messages.push(m)),
        monitor.context_limit as nat,
    );
}

/// Nothing is suggested exactly where nothing is urgent, and messages are
/// dropped unsummarized exactly from the emergency tier on.
pub proof fn lemma_strategy_follows_urgency(
    urgency: Option<CompactionUrgency>,
    fullness: Number,
)
    ensures
        strategy_of(urgency, fullness) == CompactionStrategy::Keep <==> urgency is None,
        strategy_of(urgency, fullness) is Truncate <==> rank(urgency) >= 2,
{
}

/// Where the estimate is at least one token away from the threshold's share of the
/// limit, all three ways to ask for compaction agree, and say whether the
/// estimate exceeds that share. Amounts are compared in units of the threshold.
pub proof fn lemma_suggestions_agree(
    monitor: ContextMonitor,
    messages: Seq<MessageView>,
    negative: bool,
    units: nat,
)
    requires
        0 < monitor.context_limit <= 0x1_0000_0000,
        monitor.threshold@ == (Number::Finite { negative, units }),
        units <= 0x100 * pow2(ONE_SHIFT as nat),
        negative ==> units == 0,
        ({
            let estimated = monitor.estimated(messages) * pow2(ONE_SHIFT as nat);
            let share = units * monitor.context_limit;
            estimated >= share + pow2(ONE_SHIFT as nat) || estimated + pow2(ONE_SHIFT as nat)
                <= share
        }),
    ensures
        ({
            let exceeds = monitor.estimated(messages) * pow2(ONE_SHIFT as nat) > units
                * monitor.context_limit;
            let urgency = urgency_of(
                monitor.fullness(messages),
                monitor.threshold@,
                monitor.emergency_threshold@,
                monitor.critical_threshold@,
            );
            &&& above(
                whole(rounded(monitor.estimated(messages))),
                product(rounded(monitor.context_limit as nat), 1, monitor.threshold@),
            ) == exceeds
            &&& (urgency is Some) == exceeds
            &&& (strategy_of(urgency, monitor.fullness(messages)) != CompactionStrategy::Keep)
                == exceeds
        }),
{
    lemma_threshold(
        monitor.estimated(messages),
        monitor.context_limit as nat,
        negative,
        units,
    );
}

/// The tier is told by comparing the estimate with the configured fractions of
/// the limit, whatever these are. Up to the threshold nothing is urgent. From one
/// token over it on, the tier is critical from the critical threshold on;
/// otherwise, from a token under that down, it is an emergency from the emergency
/// threshold on, and normal from a token under that down. Amounts are compared in
/// units of the thresholds.
pub proof fn lemma_tiers(
    monitor: ContextMonitor,
    messages: Seq<MessageView>,
    negative: (bool, bool, bool),
    threshold: nat,
    emergency: nat,
    critical: nat,
)
    requires
        0 < monitor.context_limit <= 0x1_0000_0000,
        monitor.threshold@ == (Number::Finite { negative: negative.0, units: threshold }),
        monitor.emergency_threshold@ == (Number::Finite {
            negative: negative.1,
            units: emergency,
        }),
        monitor.critical_threshold@ == (Number::Finite { negative: negative.2, units: critical }),
        threshold <= 0x100 * pow2(1074),
        emergency <= 0x100 * pow2(1074),
        critical <= 0x100 * pow2(1074),
        negative.0 ==> threshold == 0,
        negative.1 ==> emergency == 0,
        negative.2 ==> critical == 0,
        monitor.estimated(messages) < 0x20_0000_0000_0000,
    ensures
        ({
            let one = pow2(1074);
            let limit = monitor.context_limit;
            let estimated = monitor.estimated(messages) * one;
            let fullness = monitor.fullness(messages);
            let tier = urgency_of(
                fullness,
                monitor.threshold@,
                monitor.emergency_threshold@,
                monitor.critical_threshold@,
            );
            &&& estimated <= threshold * limit ==> tier is None
            &&& estimated >= threshold * limit + one ==> {
                &&& tier is Some
                &&& estimated >= critical * limit ==> tier == Some(CompactionUrgency::Critical)
                &&& estimated + one <= critical * limit ==> {
                    &&& estimated >= emergency * limit ==> tier == Some(
                        CompactionUrgency::Emergency,
                    )
                    &&& estimated + one <= emergency * limit ==> tier == Some(
                        CompactionUrgency::Normal,
                    )
                }
            }
        }),
{
    lemma_fractions();
    let one = pow2(1074);
    let limit = monitor.context_limit as nat;
    let n = monitor.estimated(messages);
    lemma_number_kept(monitor.threshold.bits);
    lemma_number_kept(monitor.emergency_threshold.bits);
    lemma_number_kept(monitor.critical_threshold.bits);
    lemma_reaches(n, limit, negative.0, threshold);
    lemma_reaches(n, limit, negative.1, emergency);
    lemma_reaches(n, limit, negative.2, critical);
    if n * one >= threshold * limit + one {
        lemma_threshold(n, limit, negative.0, threshold);
    }
    if n * one + one <= critical * limit {
        assert(!negative.2) by (nonlinear_arith)
            requires
                negative.2 ==> critical == 0,
                n * one + one <= critical * limit,
                one > 0,
        ;
        lemma_stays_under(n, limit, critical);
    }
    if n * one + one <= emergency * limit {
        assert(!negative.1) by (nonlinear_arith)
            requires
                negative.1 ==> emergency == 0,
                n * one + one <= emergency * limit,
                one > 0,
        ;
        lemma_stays_under(n, limit, emergency);
    }
}

/// Ratios that are no fractions: a threshold that is not a number is never met, so
/// it holds nothing back and no tier is reached by it; an infinite one is never
/// reached; and a negative one always is.
pub proof fn lemma_unusual_thresholds(monitor: ContextMonitor, messages: Seq<MessageView>)
    requires
        monitor.context_limit > 0,
    ensures
        ({
            let tier = urgency_of(
                monitor.fullness(messages),
                monitor.threshold@,
                monitor.emergency_threshold@,
                monitor.critical_threshold@,
            );
            let never = |x: Number| x == Number::Nan || x == (Number::Infinite { negative: false });
            let always = |x: Number|
                x == (Number::Infinite { negative: true }) || (x matches Number::Finite {
                    negative,
                    units,
                } && negative && units > 0);
            &&& monitor.threshold@ == (Number::Infinite { negative: false }) ==> tier is None
            &&& monitor.threshold@ == Number::Nan || always(monitor.threshold@) ==> {
                &&& tier is Some
                &&& always(monitor.critical_threshold@) ==> tier == Some(
                    CompactionUrgency::Critical,
                )
                &&& never(monitor.critical_threshold@) ==> {
                    &&& always(monitor.emergency_threshold@) ==> tier == Some(
                        CompactionUrgency::Emergency,
                    )
                    &&& never(monitor.emergency_threshold@) ==> tier == Some(
                        CompactionUrgency::Normal,
                    )
                }
            }
        }),
{
    let n = monitor.estimated(messages);
    lemma_quotient_monotone(n, n, monitor.context_limit as nat);
}

/// Without room for anything, an empty conversation is normal in any case, and any
/// other is critical where the thresholds are numbers.
pub proof fn lemma_no_room(monitor: ContextMonitor, messages: Seq<MessageView>)
    requires
        monitor.context_limit == 0,
    ensures
        ({
            let tier = urgency_of(
                monitor.fullness(messages),
                monitor.threshold@,
                monitor.emergency_threshold@,
                monitor.critical_threshold@,
            );
            &&& monitor.estimated(messages) == 0 ==> tier == Some(CompactionUrgency::Normal)
            &&& 0 < monitor.estimated(messages) < 0x20_0000_0000_0000
                && monitor.threshold@ is Finite && monitor.critical_threshold@ is Finite ==> tier
                == Some(CompactionUrgency::Critical)
        }),
{
    lemma_rounded_exact(0);
    if monitor.estimated(messages) < 0x20_0000_0000_0000 {
        lemma_rounded_exact(monitor.estimated(messages));
    }
}

/// Margins that are no factors: with one that is not a number or is negative the
/// estimate is zero, and with an infinite one it is the largest there is.
pub proof fn lemma_unusual_margins(quarters: nat)
    ensures
        tokens(quarters, Number::Nan) == 0,
        tokens(quarters, Number::Infinite { negative: true }) == 0,
        quarters > 0 ==> tokens(quarters, Number::Infinite { negative: false }) == usize::MAX,
        forall|units: nat| #[trigger]
            tokens(quarters, Number::Finite { negative: true, units }) == 0,
{
}

/// What the named ratios are, in hundredths of one, up to a rounding that is far
/// below a token for every limit. A monitor has 90% and 95% for its upper tiers, and
/// room for messages of 75%, single results of 50% and a margin of 120%, where
/// nothing else is given.
pub proof fn lemma_named_ratios()
    ensures
        ({
            let one = pow2(1074);
            let grain = pow2(1021);
            let near = |bits: u64, hundredths: nat|
                crate::utils::ratio::number(bits) matches Number::Finite { negative, units }
                    && !negative && hundredths * one <= 100 * units + 40 * grain && 100 * units
                    <= hundredths * one + 40 * grain;
            &&& one == 0x20_0000_0000_0000 * grain
            &&& near(DEFAULT_MARGIN, 120)
            &&& near(NINETY_FIVE_PERCENT, 95)
            &&& near(NINETY_PERCENT, 90)
            &&& near(EIGHTY_FIVE_PERCENT, 85)
            &&& near(SEVENTY_FIVE_PERCENT, 75)
            &&& near(SEVENTY_PERCENT, 70)
            &&& near(FIFTY_PERCENT, 50)
        }),
{
    lemma_fractions();
}

/// Compaction is needed exactly above the threshold: never up to its share of the
/// limit, and always from one token over it on.
pub proof fn lemma_needs_compaction(
    monitor: ContextMonitor,
    messages: Seq<MessageView>,
    negative: bool,
    threshold: nat,
)
    requires
        0 < monitor.context_limit <= 0x1_0000_0000,
        monitor.threshold@ == (Number::Finite { negative, units: threshold }),
        threshold <= 0x100 * pow2(1074),
        negative ==> threshold == 0,
        monitor.estimated(messages) < 0x20_0000_0000_0000,
    ensures
        ({
            let one = pow2(1074);
            let estimated = monitor.estimated(messages) * one;
            let needed = above(
                whole(rounded(monitor.estimated(messages))),
                product(rounded(monitor.context_limit as nat), 1, monitor.threshold@),
            );
            &&& estimated <= threshold * monitor.context_limit ==> !needed
            &&& estimated >= threshold * monitor.context_limit + one ==> needed
        }),
{
    lemma_fractions();
    let n = monitor.estimated(messages);
    let limit = monitor.context_limit as nat;
    lemma_number_kept(monitor.threshold.bits);
    lemma_reaches(n, limit, negative, threshold);
    if n * pow2(1074) >= threshold * limit + pow2(1074) {
        lemma_threshold(n, limit, negative, threshold);
    }
}

/// What is suggested, in numbers: nothing where nothing is urgent; to keep three
/// messages in the critical tier, and five in an emergency, dropping the rest; and
/// else to keep eight up to 85% of the limit, and five from one token over that
/// on, summarizing the rest.
pub proof fn lemma_strategies(
    monitor: ContextMonitor,
    messages: Seq<MessageView>,
    tier: Option<CompactionUrgency>,
)
    requires
        0 < monitor.context_limit <= 0x1_0000_0000,
        monitor.estimated(messages) < 0x20_0000_0000_0000,
    ensures
        ({
            let strategy = strategy_of(tier, monitor.fullness(messages));
            let estimated = monitor.estimated(messages);
            let limit = monitor.context_limit;
            match tier {
                None => strategy == CompactionStrategy::Keep,
                Some(CompactionUrgency::Critical) => strategy == (CompactionStrategy::Truncate {
                    keep_recent: 3,
                }),
                Some(CompactionUrgency::Emergency) => strategy == (CompactionStrategy::Truncate {
                    keep_recent: 5,
                }),
                Some(CompactionUrgency::Normal) => {
                    &&& 20 * estimated <= 17 * limit ==> strategy
                        == (CompactionStrategy::Summarize { keep_recent: 8 })
                    &&& 20 * estimated >= 17 * limit + 20 ==> strategy
                        == (CompactionStrategy::Summarize { keep_recent: 5 })
                },
            }
        }),
{
    lemma_fractions();
    let one = pow2(1074);
    let grain = pow2(1021);
    let limit = monitor.context_limit as nat;
    let n = monitor.estimated(messages);
    let units = crate::utils::ratio::number(EIGHTY_FIVE_PERCENT)->units;
    lemma_number_kept(EIGHTY_FIVE_PERCENT);
    lemma_reaches(n, limit, false, units);
    if 20 * n == 17 * limit {
        lemma_eighty_five_percent(n, limit);
    } else if 20 * n < 17 * limit {
        assert(n * one <= units * limit) by (nonlinear_arith)
            requires
                20 * n + 1 <= 17 * limit,
                20 * units + 4 * grain == 17 * one,
                limit <= 0x1_0000_0000,
                one == 0x20_0000_0000_0000 * grain,
        ;
    }
    if 20 * n >= 17 * limit + 20 {
        assert(n * one >= units * limit + one) by (nonlinear_arith)
            requires
                20 * n >= 17 * limit + 20,
                20 * units + 4 * grain == 17 * one,
        ;
        assert(units <= one) by (nonlinear_arith)
            requires
                20 * units + 4 * grain == 17 * one,
        ;
        lemma_threshold(n, limit, false, units);
    }
}

// ---------------------------------------------------------------------------
// What holds of every pre-flight check
// ---------------------------------------------------------------------------

/// The messages with the tool results among the first `k` dropped.
pub open spec fn dropped_before(messages: Seq<MessageView>, k: int) -> Seq<MessageView> {
    messages.map(
        |i: int, m: MessageView|
            if i < k && droppable(m) {
                with_text(m, compacted_text())
            } else {
                m
            },
    )
}

/// Whether a request fits a budget.
pub open spec fn fits(
    messages: Seq<MessageView>,
    definitions: nat,
    margin: Number,
    budget: nat,
) -> bool {
    tokens(plus(total_quarters(messages), definitions), margin) <= budget
}

/// Results are dropped oldest first, and no more of them than it takes.
pub proof fn lemma_drops_oldest_first(
    messages: Seq<MessageView>,
    definitions: nat,
    margin: Number,
    budget: nat,
)
    requires
        !fits(messages, definitions, margin, budget),
    ensures
        exists|k: int|
            {
                &&& 0 <= k <= messages.len()
                &&& dropped_from(messages, 0, definitions, margin, budget)
                    == #[trigger] dropped_before(messages, k)
                &&& k == messages.len() || fits(
                    dropped_before(messages, k),
                    definitions,
                    margin,
                    budget,
                )
                &&& forall|j: int|
                    0 <= j < k ==> !fits(
                        #[trigger] dropped_before(messages, j),
                        definitions,
                        margin,
                        budget,
                    )
            },
{
    assert(dropped_before(messages, 0) =~= messages);
    lemma_drops_from(messages, 0, definitions, margin, budget);
}

proof fn lemma_drops_from(
    messages: Seq<MessageView>,
    i: int,
    definitions: nat,
    margin: Number,
    budget: nat,
)
    requires
        0 <= i <= messages.len(),
        forall|j: int|
            0 <= j <= i ==> !fits(
                #[trigger] dropped_before(messages, j),
                definitions,
                margin,
                budget,
            ),
    ensures
        exists|k: int|
            {
                &&& i <= k <= messages.len()
                &&& dropped_from(dropped_before(messages, i), i, definitions, margin, budget)
                    == #[trigger] dropped_before(messages, k)
                &&& k == messages.len() || fits(
                    dropped_before(messages, k),
                    definitions,
                    margin,
                    budget,
                )
                &&& forall|j: int|
                    0 <= j < k ==> !fits(
                        #[trigger] dropped_before(messages, j),
                        definitions,
                        margin,
                        budget,
                    )
            },
    decreases messages.len() - i,
{
    let now = dropped_before(messages, i);
    if i < messages.len() {
        let next = dropped_before(messages, i + 1);
        assert(now[i] == messages[i]);
        if droppable(messages[i]) {
            assert(next =~= now.update(i, with_text(now[i], compacted_text())));
            if fits(next, definitions, margin, budget) {
                assert(dropped_from(now, i, definitions, margin, budget) == dropped_before(
                    messages,
                    i + 1,
                ));
            } else {
                lemma_drops_from(messages, i + 1, definitions, margin, budget);
            }
        } else {
            assert(next =~= now);
            lemma_drops_from(messages, i + 1, definitions, margin, budget);
        }
    }
}

/// Each message after a check is the message before it, or a tool result whose
/// text was cut or dropped. So the number of messages, their roles, their tool
/// calls and the calls that they answer stay as they are, messages of other
/// roles stay whole, and where a text was replaced and there are parts, they
/// are that text.
pub proof fn lemma_preflight_keeps(
    monitor: ContextMonitor,
    messages: Seq<MessageView>,
    defs: Seq<ToolDefinition>,
)
    ensures
        monitor.after_preflight(messages, defs).len() == messages.len(),
        forall|i: int|
            0 <= i < messages.len() ==> {
                let after = #[trigger] monitor.after_preflight(messages, defs)[i];
                let before = messages[i];
                &&& after == capped(before, monitor.result_cap()) || (before.role == Role::Tool
                    && after == with_text(before, compacted_text()))
                &&& after.role == before.role
                &&& after.calls == before.calls
                &&& after.call_id == before.call_id
                &&& before.role != Role::Tool ==> after == before
                &&& after != before && before.parts.len() > 0 ==> after.parts == seq![
                    PartView::Text(after.content),
                ]
                &&& before.parts.len() == 0 ==> after.parts.len() == 0
            },
{
    let first = monitor.after_capping(messages);
    if monitor.drops(messages, defs) {
        let d = definitions_quarters(defs);
        lemma_drops_oldest_first(first, d, monitor.safety_margin@, monitor.budget());
        let k = choose|k: int|
            0 <= k <= first.len() && dropped_from(
                first,
                0,
                d,
                monitor.safety_margin@,
                monitor.budget(),
            ) == #[trigger] dropped_before(first, k);
        assert forall|i: int| 0 <= i < messages.len() implies dropped_before(first, k)[i]
            == capped(messages[i], monitor.result_cap()) || (messages[i].role == Role::Tool
            && dropped_before(first, k)[i] == with_text(messages[i], compacted_text())) by {
            assert(first[i] == capped(messages[i], monitor.result_cap()));
            if i < k && droppable(first[i]) {
                assert(with_text(first[i], compacted_text()) == with_text(
                    messages[i],
                    compacted_text(),
                )) by {
                    assert(with_text(first[i], compacted_text()).parts =~= with_text(
                        messages[i],
                        compacted_text(),
                    ).parts);
                }
            }
        }
    }
}

/// A share of a limit is the limit times the fraction, rounded down but for what is
/// less than a millionth under a whole number. Amounts are compared in units of the
/// fraction.
pub proof fn lemma_share(limit: usize, units: nat, k: nat)
    requires
        limit <= 0x1_0000_0000,
        k < 0x20_0000_0000_0000,
        k <= usize::MAX,
    ensures
        ({
            let part = share(limit, Number::Finite { negative: false, units });
            &&& k * pow2(1074) <= limit * units ==> k <= part
            &&& limit * units <= k * pow2(1074) ==> part <= k
            &&& k <= 0x1_0000_0000 && 0x10_0000 * (limit * units) + pow2(1074) <= 0x10_0000 * (k
                * pow2(1074)) ==> part < k
        }),
{
    lemma_rounded_exact(limit as nat);
    lemma_scaled(limit as nat, 1, units, k);
    if k <= 0x1_0000_0000 && 0x10_0000 * (limit * units) + pow2(1074) <= 0x10_0000 * (k * pow2(
        1074,
    )) {
        lemma_scaled_below(limit as nat, 1, units, k);
    }
}

/// The budget for messages is the limit times the headroom ratio, and the largest
/// tool result takes two bytes for each token of the limit times its share, both
/// rounded down but for what is less than a millionth under a whole number of tokens.
pub proof fn lemma_budget(monitor: ContextMonitor, headroom: nat, part: nat, k: nat)
    requires
        monitor.context_limit <= 0x1_0000_0000,
        monitor.input_headroom_ratio@ == (Number::Finite { negative: false, units: headroom }),
        monitor.single_tool_result_share@ == (Number::Finite { negative: false, units: part }),
        k < 0x8_0000_0000_0000,
        2 * k <= usize::MAX,
    ensures
        k * pow2(1074) <= monitor.context_limit * headroom ==> k <= monitor.budget(),
        monitor.context_limit * headroom <= k * pow2(1074) ==> monitor.budget() <= k,
        k * pow2(1074) <= monitor.context_limit * part ==> 2 * k <= monitor.result_cap(),
        monitor.context_limit * part <= k * pow2(1074) ==> monitor.result_cap() <= 2 * k,
        k <= 0x1_0000_0000 && 0x10_0000 * (monitor.context_limit * headroom) + pow2(1074)
            <= 0x10_0000 * (k * pow2(1074)) ==> monitor.budget() < k,
        k <= 0x1_0000_0000 && 0x10_0000 * (monitor.context_limit * part) + pow2(1074) <= 0x10_0000
            * (k * pow2(1074)) ==> monitor.result_cap() < 2 * k,
{
    lemma_share(monitor.context_limit, headroom, k);
    lemma_share(monitor.context_limit, part, k);
    let found = share(monitor.context_limit, monitor.single_tool_result_share@);
    lemma_rounded_exact(k);
    if found >= k {
        lemma_nearest_monotone(k, found, 1);
    }
    if found <= k {
        lemma_nearest_monotone(found, k, 1);
        lemma_rounded_exact(found);
    }
}

/// With the default ratios the budget is three quarters of the limit, rounded
/// down, and the largest tool result takes a byte for each token of the limit.
pub proof fn lemma_default_budget(monitor: ContextMonitor)
    requires
        monitor.context_limit <= 0x1_0000_0000,
        2 * (monitor.context_limit / 2) <= usize::MAX,
        monitor.input_headroom_ratio.bits == SEVENTY_FIVE_PERCENT,
        monitor.single_tool_result_share.bits == FIFTY_PERCENT,
    ensures
        monitor.budget() == 3 * monitor.context_limit / 4,
        monitor.result_cap() == 2 * (monitor.context_limit as nat / 2),
{
    lemma_fractions();
    let limit = monitor.context_limit as nat;
    let one = pow2(1074);
    let headroom = monitor.input_headroom_ratio@->units;
    let part = monitor.single_tool_result_share@->units;
    lemma_rounded_exact(limit);
    lemma_whole_share(limit, headroom, 3, 4);
    lemma_whole_share(limit, part, 1, 2);
    lemma_rounded_exact(limit / 2);
}

/// A share that is a small fraction, exactly or nearly, is rounded down.
proof fn lemma_whole_share(limit: nat, units: nat, a: nat, b: nat)
    requires
        limit <= 0x1_0000_0000,
        limit <= usize::MAX,
        0 < a < b <= 10,
        a * pow2(1074) <= b * units <= a * pow2(1074) + 2 * pow2(1021),
    ensures
        share(limit as usize, Number::Finite { negative: false, units }) == (a * limit) / b,
{
    lemma_fractions();
    let one = pow2(1074);
    let grain = pow2(1021);
    let exact = limit * units;
    let k = (a * limit) / b;
    vstd::arithmetic::div_mod::lemma_fundamental_div_mod((a * limit) as int, b as int);
    let rest = (a * limit) % b;
    assert(b * k + rest == a * limit);
    assert(b * exact == limit * (b * units)) by (nonlinear_arith)
        requires
            exact == limit * units,
    ;
    assert(limit * (b * units) >= limit * (a * one)) by (nonlinear_arith)
        requires
            a * one <= b * units,
    ;
    assert(limit * (b * units) <= limit * (a * one) + limit * (2 * grain)) by (nonlinear_arith)
        requires
            b * units <= a * one + 2 * grain,
    ;
    assert(limit * (a * one) == (b * k + rest) * one) by (nonlinear_arith)
        requires
            b * k + rest == a * limit,
    ;
    assert(k <= limit) by (nonlinear_arith)
        requires
            b * k <= a * limit,
            0 < a < b,
    ;
    assert(k * one <= exact) by (nonlinear_arith)
        requires
            b * exact >= (b * k + rest) * one,
            b > 0,
            rest >= 0,
            one >= 0,
    ;
    lemma_rounded_exact(limit);
    lemma_scaled(limit, 1, units, k);
    assert(0x10_0000 * exact + one <= 0x10_0000 * ((k + 1) * one)) by (nonlinear_arith)
        requires
            b * exact <= (b * k + rest) * one + limit * (2 * grain),
            rest + 1 <= b,
            0 < b <= 10,
            limit <= 0x1_0000_0000,
            one == 0x20_0000_0000_0000 * grain,
            grain > 0,
    ;
    assert(k < limit || limit == 0) by (nonlinear_arith)
        requires
            b * k <= a * limit,
            0 < a < b,
    ;
    assert(limit == 0 ==> k == 0) by (nonlinear_arith)
        requires
            b * k <= a * limit,
            0 < b,
    ;
    lemma_scaled_below(limit, 1, units, k + 1);
}

/// A check that tells its caller to proceed has changed nothing, and the request
/// fits the budget. Compaction is asked for wherever the request still takes more
/// than 90% of the limit, and otherwise exactly where it is over the budget and
/// nothing was trimmed.
pub proof fn lemma_preflight_verdict(
    monitor: ContextMonitor,
    messages: Seq<MessageView>,
    defs: Seq<ToolDefinition>,
)
    ensures
        monitor.preflight_action(messages, defs) == PreflightAction::Proceed
            ==> monitor.after_preflight(messages, defs) == messages && monitor.estimated_full(
            messages,
            defs,
        ) <= monitor.budget(),
        monitor.preflight_action(messages, defs) == PreflightAction::NeedsCompaction <==> {
            let estimated = monitor.estimated_full(monitor.after_preflight(messages, defs), defs);
            ||| estimated > monitor.hard_limit()
            ||| estimated > monitor.budget() && !monitor.trims(messages, defs)
        },
{
    let first = monitor.after_capping(messages);
    if monitor.preflight_action(messages, defs) == PreflightAction::Proceed {
        assert(first =~= messages);
        if monitor.drops(messages, defs) {
            lemma_nothing_to_drop(
                first,
                0,
                definitions_quarters(defs),
                monitor.safety_margin@,
                monitor.budget(),
            );
        }
    }
}

/// What a check tells its caller, in numbers. Above 90% of the limit compaction is
/// due. Up to that it is due only where the check changed nothing and the request
/// is over the budget; the caller is told of trimming only where a tool result was
/// too large or has been dropped; and a caller that is told to proceed has the
/// messages that it had, within the budget.
pub proof fn lemma_preflight_limit(
    monitor: ContextMonitor,
    messages: Seq<MessageView>,
    defs: Seq<ToolDefinition>,
)
    requires
        monitor.context_limit <= 0x1_0000_0000,
    ensures
        ({
            let after = monitor.after_preflight(messages, defs);
            let estimated = monitor.estimated_full(after, defs);
            let limit = monitor.context_limit;
            let action = monitor.preflight_action(messages, defs);
            &&& 10 * estimated > 9 * limit ==> action == PreflightAction::NeedsCompaction
            &&& 10 * estimated <= 9 * limit ==> match action {
                PreflightAction::Proceed => after == messages && estimated <= monitor.budget(),
                PreflightAction::NeedsCompaction => after == messages && estimated
                    > monitor.budget(),
                PreflightAction::Trimmed => exists|i: int|
                    0 <= i < messages.len() && (#[trigger] messages[i]).role == Role::Tool && (
                    byte_len(messages[i].content) > monitor.result_cap() || (messages[i].content
                        != "[compacted]"@ && after[i].content == "[compacted]"@)),
            }
        }),
{
    lemma_fractions();
    let limit = monitor.context_limit as nat;
    lemma_whole_share(limit, crate::utils::ratio::number(NINETY_PERCENT)->units, 9, 10);
    let after = monitor.after_preflight(messages, defs);
    let first = monitor.after_capping(messages);
    let cap = monitor.result_cap();
    if !monitor.trims(messages, defs) {
        assert(first =~= messages);
        if monitor.drops(messages, defs) {
            lemma_nothing_to_drop(
                first,
                0,
                definitions_quarters(defs),
                monitor.safety_margin@,
                monitor.budget(),
            );
        }
    } else if forall|i: int|
        0 <= i < messages.len() ==> !oversized(#[trigger] messages[i], cap) {
        assert(first =~= messages);
        let d = definitions_quarters(defs);
        let j = choose|j: int| 0 <= j < first.len() && droppable(#[trigger] first[j]);
        lemma_first_is_dropped(first, 0, j, d, monitor.safety_margin@, monitor.budget());
    }
}

/// Where results are dropped, the first that can be is.
proof fn lemma_first_is_dropped(
    messages: Seq<MessageView>,
    i: int,
    j: int,
    definitions: nat,
    margin: Number,
    budget: nat,
)
    requires
        0 <= i <= j < messages.len(),
        droppable(messages[j]),
    ensures
        exists|k: int|
            i <= k < messages.len() && (#[trigger] messages[k]).role == Role::Tool
                && messages[k].content != "[compacted]"@ && dropped_from(
                messages,
                i,
                definitions,
                margin,
                budget,
            )[k].content == "[compacted]"@,
    decreases j - i,
{
    if droppable(messages[i]) {
        let next = messages.update(i, with_text(messages[i], compacted_text()));
        lemma_dropped_keeps_before(next, i + 1, i, definitions, margin, budget);
        assert(messages[i].role == Role::Tool);
    } else {
        lemma_first_is_dropped(messages, i + 1, j, definitions, margin, budget);
    }
}

proof fn lemma_dropped_keeps_before(
    messages: Seq<MessageView>,
    i: int,
    k: int,
    definitions: nat,
    margin: Number,
    budget: nat,
)
    requires
        0 <= k < i <= messages.len(),
    ensures
        dropped_from(messages, i, definitions, margin, budget)[k] == messages[k],
    decreases messages.len() - i,
{
    if i < messages.len() {
        if droppable(messages[i]) {
            let next = messages.update(i, with_text(messages[i], compacted_text()));
            lemma_dropped_keeps_before(next, i + 1, k, definitions, margin, budget);
        } else {
            lemma_dropped_keeps_before(messages, i + 1, k, definitions, margin, budget);
        }
    }
}

proof fn lemma_nothing_to_drop(
    messages: Seq<MessageView>,
    i: int,
    definitions: nat,
    margin: Number,
    budget: nat,
)
    requires
        !any_droppable(messages, i),
        0 <= i <= messages.len(),
    ensures
        dropped_from(messages, i, definitions, margin, budget) == messages,
    decreases messages.len() - i,
{
    if i < messages.len() {
        lemma_nothing_to_drop(messages, i + 1, definitions, margin, budget);
    }
}

/// After a check the request fits the budget, or no tool result is left to drop.
pub proof fn lemma_preflight_does_what_it_can(
    monitor: ContextMonitor,
    messages: Seq<MessageView>,
    defs: Seq<ToolDefinition>,
)
    ensures
        ({
            let after = monitor.after_preflight(messages, defs);
            monitor.estimated_full(after, defs) <= monitor.budget() || !any_droppable(after, 0)
        }),
{
    let first = monitor.after_capping(messages);
    if monitor.drops(messages, defs) {
        let d = definitions_quarters(defs);
        let budget = monitor.budget();
        lemma_drops_oldest_first(first, d, monitor.safety_margin@, budget);
        let k = choose|k: int|
            {
                &&& 0 <= k <= first.len()
                &&& dropped_from(first, 0, d, monitor.safety_margin@, budget)
                    == #[trigger] dropped_before(first, k)
                &&& k == first.len() || fits(
                    dropped_before(first, k),
                    d,
                    monitor.safety_margin@,
                    budget,
                )
            };
        let after = dropped_before(first, k);
        if !fits(after, d, monitor.safety_margin@, budget) {
            assert forall|j: int| 0 <= j < after.len() implies !droppable(#[trigger] after[j]) by {
                assert(first[j].role == after[j].role);
            }
        }
    }
}

/// A tool result that is too large is cut to its start and its end: the longest
/// start within seven tenths of the cap, and the longest end within three tenths,
/// with a note between them of how many bytes were dropped.
pub proof fn lemma_cut_keeps_ends(s: Seq<char>, cap: nat)
    requires
        byte_len(s) > cap,
    ensures
        exists|head: Seq<char>, tail: Seq<char>|
            {
                &&& #[trigger] head.is_prefix_of(s)
                &&& #[trigger] tail.is_suffix_of(s)
                &&& 10 * byte_len(head) <= 7 * cap
                &&& 10 * byte_len(tail) <= 3 * cap
                &&& forall|p: Seq<char>| #[trigger]
                    p.is_prefix_of(s) && 10 * byte_len(p) <= 7 * cap ==> p.is_prefix_of(head)
                &&& forall|p: Seq<char>| #[trigger]
                    p.is_suffix_of(s) && 10 * byte_len(p) <= 3 * cap ==> p.is_suffix_of(tail)
                &&& capped_text(s, cap) == head + "\n...[truncated "@ + decimal(
                    (byte_len(s) - byte_len(head) - byte_len(tail)) as nat,
                ) + " bytes]...\n"@ + tail
            },
{
    let head = prefix_within(s, cap * 7 / 10);
    let tail = suffix_within(s, cap * 3 / 10);
    lemma_prefix_longest(s, cap * 7 / 10);
    lemma_suffix_longest(s, cap * 3 / 10);
    lemma_prefix_maximal(s, cap * 7 / 10);
    lemma_suffix_maximal(s, cap * 3 / 10);
    assert(head.is_prefix_of(s) && tail.is_suffix_of(s));
}

/// The messages with the tool results that take more than `cap` bytes cut.
pub open spec fn cut_results(messages: Seq<MessageView>, cap: nat) -> Seq<MessageView> {
    messages.map_values(
        |m: MessageView|
            if m.role == Role::Tool && byte_len(m.content) > cap {
                with_text(m, capped_text(m.content, cap))
            } else {
                m
            },
    )
}

/// What a check leaves of tool results. One that is not too large and not dropped
/// stays whole. None is dropped where the request fits once the large ones are
/// cut. One that is dropped reads `[compacted]`, and so does every older one. And
/// where the request is still over the budget, all of them do.
#[verifier::spinoff_prover]
pub proof fn lemma_preflight_results(
    monitor: ContextMonitor,
    messages: Seq<MessageView>,
    defs: Seq<ToolDefinition>,
)
    ensures
        ({
            let after = monitor.after_preflight(messages, defs);
            let cut = cut_results(messages, monitor.result_cap());
            &&& after.len() == messages.len()
            &&& monitor.estimated_full(cut, defs) <= monitor.budget() ==> after == cut
            &&& monitor.estimated_full(after, defs) > monitor.budget() ==> forall|i: int|
                0 <= i < after.len() && (#[trigger] after[i]).role == Role::Tool ==> after[i].content
                    == "[compacted]"@
            &&& forall|i: int|
                0 <= i < after.len() && #[trigger] after[i] != cut[i] ==> {
                    &&& messages[i].role == Role::Tool
                    &&& after[i].content == "[compacted]"@
                    &&& forall|j: int|
                        0 <= j < i && (#[trigger] after[j]).role == Role::Tool ==> after[j].content
                            == "[compacted]"@
                }
        }),
{
    let cut = cut_results(messages, monitor.result_cap());
    assert(monitor.after_capping(messages) =~= cut);
    let after = monitor.after_preflight(messages, defs);
    lemma_preflight_does_what_it_can(monitor, messages, defs);
    if monitor.estimated_full(after, defs) > monitor.budget() {
        assert forall|i: int|
            0 <= i < after.len() && (#[trigger] after[i]).role == Role::Tool implies after[i].content
            == "[compacted]"@ by {
            assert(!droppable(after[i]));
        }
    }
    if monitor.drops(messages, defs) {
        let k = lemma_how_many_dropped(monitor, messages, defs);
        assert(after == dropped_before(cut, k));
    }
}

/// Up to where results are dropped.
proof fn lemma_how_many_dropped(
    monitor: ContextMonitor,
    messages: Seq<MessageView>,
    defs: Seq<ToolDefinition>,
) -> (k: int)
    requires
        monitor.drops(messages, defs),
    ensures
        0 <= k <= messages.len(),
        monitor.after_preflight(messages, defs) == dropped_before(
            cut_results(messages, monitor.result_cap()),
            k,
        ),
        forall|j: int|
            0 <= j < k ==> monitor.estimated_full(
                #[trigger] dropped_before(cut_results(messages, monitor.result_cap()), j),
                defs,
            ) > monitor.budget(),
{
    let first = cut_results(messages, monitor.result_cap());
    assert(monitor.after_capping(messages) =~= first);
    let d = definitions_quarters(defs);
    let (margin, budget) = (monitor.safety_margin@, monitor.budget());
    lemma_drops_oldest_first(first, d, margin, budget);
    choose|k: int|
        {
            &&& 0 <= k <= first.len()
            &&& dropped_from(first, 0, d, margin, budget) == #[trigger] dropped_before(first, k)
            &&& forall|j: int|
                0 <= j < k ==> !fits(#[trigger] dropped_before(first, j), d, margin, budget)
        }
}

/// No more results are dropped than it takes: with the last one that was, the request
/// does not fit.
#[verifier::spinoff_prover]
pub proof fn lemma_last_dropped_had_to_go(
    monitor: ContextMonitor,
    messages: Seq<MessageView>,
    defs: Seq<ToolDefinition>,
    i: int,
)
    requires
        0 <= i < messages.len(),
        ({
            let after = monitor.after_preflight(messages, defs);
            let cut = cut_results(messages, monitor.result_cap());
            &&& after[i] != cut[i]
            &&& forall|j: int| i < j < messages.len() ==> #[trigger] after[j] == cut[j]
        }),
    ensures
        ({
            let after = monitor.after_preflight(messages, defs);
            let cut = cut_results(messages, monitor.result_cap());
            monitor.estimated_full(after.update(i, cut[i]), defs) > monitor.budget()
        }),
{
    let cut = cut_results(messages, monitor.result_cap());
    let after = monitor.after_preflight(messages, defs);
    assert(monitor.after_capping(messages) =~= cut);
    assert(monitor.drops(messages, defs));
    let k = lemma_how_many_dropped(monitor, messages, defs);
    assert(i < k);
    assert(after.update(i, cut[i]) =~= dropped_before(cut, i)) by {
        assert forall|j: int| 0 <= j < after.len() implies #[trigger] after.update(i, cut[i])[j]
            == dropped_before(cut, i)[j] by {
            if j > i {
                assert(after[j] == cut[j]);
            }
        }
    }
}

/// A message with another text is that message in all else, but that its parts, where
/// it has any, are that text.
pub proof fn lemma_other_text(m: MessageView, text: Seq<char>)
    ensures
        ({
            let r = with_text(m, text);
            &&& r.content == text
            &&& r.role == m.role
            &&& r.calls == m.calls
            &&& r.call_id == m.call_id
            &&& m.parts.len() == 0 ==> r.parts.len() == 0
            &&& m.parts.len() > 0 ==> r.parts == seq![PartView::Text(text)]
        }),
{
}

/// After a check no tool result exceeds the largest size by more than the note
/// that cutting it leaves, which takes up to 50 bytes.
pub proof fn lemma_preflight_bounds_results(
    monitor: ContextMonitor,
    messages: Seq<MessageView>,
    defs: Seq<ToolDefinition>,
    i: int,
)
    requires
        0 <= i < messages.len(),
        messages[i].role == Role::Tool,
        byte_len(messages[i].content) <= usize::MAX,
    ensures
        byte_len(monitor.after_preflight(messages, defs)[i].content) <= monitor.result_cap() + 50,
{
    lemma_preflight_keeps(monitor, messages, defs);
    let cap = monitor.result_cap();
    assert(byte_len(compacted_text()) == 11) by {
        reveal_strlit("[compacted]");
        assert(is_ascii_chars("[compacted]"@));
        is_ascii_chars_encode_utf8("[compacted]"@);
    }
    if oversized(messages[i], cap) {
        lemma_capped_text_len(messages[i].content, cap);
    }
}

proof fn lemma_capped_text_len(s: Seq<char>, cap: nat)
    requires
        cap < byte_len(s) <= usize::MAX,
    ensures
        byte_len(capped_text(s, cap)) <= cap + 50,
{
    let head = prefix_within(s, cap * 7 / 10);
    let tail = suffix_within(s, cap * 3 / 10);
    let n = (byte_len(s) - byte_len(head) - byte_len(tail)) as nat;
    lemma_prefix_longest(s, cap * 7 / 10);
    lemma_suffix_longest(s, cap * 3 / 10);
    assert(n < pow(10, 20)) by {
        reveal_with_fuel(pow, 21);
        assert(pow(10, 20) == 100_000_000_000_000_000_000);
        assert(usize::MAX <= 0xffff_ffff_ffff_ffff);
    }
    lemma_decimal(n, 20);
    let note = "\n...[truncated "@ + decimal(n) + " bytes]...\n"@;
    assert(byte_len(note) <= 50) by {
        reveal_strlit("\n...[truncated ");
        reveal_strlit(" bytes]...\n");
        assert(is_ascii_chars(note));
        is_ascii_chars_encode_utf8(note);
    }
    lemma_encode_concat(head, note);
    lemma_encode_concat(head + note, tail);
    assert(capped_text(s, cap) =~= head + note + tail);
}

} // verus!
