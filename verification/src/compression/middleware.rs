//! Middleware that compresses the conversation before a model call.
//!
//! [`CompressionMiddleware::on_pre_llm`] looks at the message list of the call
//! and says whether to compact it.  The compactor does the work; what it
//! hands back is recorded with [`CompressionMiddleware::on_compacted`].

use vstd::prelude::*;
use crate::compression::compactor::{ContextCompactor, SummaryCaches};
use crate::compression::config::CompressionConfig;
use crate::compression::events::{CompressionEvent, CompressionTrigger, EventView};
use crate::compression::filter::{
    format_message, is_summary, is_summary_message, message_json, ChatMessage, SUMMARY_PREFIX,
};
use crate::compression::policy::{AutoCompressionPolicy, CompressionPolicy};
use crate::json::{
    array, json_views, law_members_are_found_by_name, member, no_members, object, with_member, Json,
    JsonV,
};
use crate::text::{decimal, decimal_text};

verus! {

/// The compression middleware.
pub struct CompressionMiddleware<P: CompressionPolicy> {
    pub compactor: ContextCompactor,
    pub policy: P,
    /// Message count at the last compression.  Only messages after it count
    /// towards the threshold, so that recent messages that have become old do
    /// not trigger another compression.
    pub last_compressed_msg_count: usize,
}

/// What the message list calls for, before the policy is asked.
pub enum Gate {
    /// Send the messages as they are.
    Pass,
    /// Ask the policy.
    Ask { tokens_before: usize, msg_count: usize },
}

/// What to do with the message list.
pub enum PreLlmStep {
    /// Send the messages as they are.
    Pass,
    /// Compact the messages at the positions `keep`, in order.
    Compact { tokens_before: usize, msg_count: usize, keep: Vec<usize> },
}

/// Whether a message's tokens count towards the threshold.
pub open spec fn counts(m: ChatMessage) -> bool {
    m !is System && !is_summary(m)
}

/// The tokens of the messages from `from` on that count.
pub open spec fn tokens_from(msgs: Seq<ChatMessage>, tokens: Seq<usize>, from: int) -> int
    decreases msgs.len() - from,
{
    if from < 0 || from >= msgs.len() {
        0
    } else {
        (if counts(msgs[from]) {
            tokens[from] as int
        } else {
            0
        }) + tokens_from(msgs, tokens, from + 1)
    }
}

/// The tokens of the first `to` messages that are not system messages.
pub open spec fn tokens_upto(msgs: Seq<ChatMessage>, tokens: Seq<usize>, to: int) -> int
    decreases to,
{
    if to <= 0 || to > msgs.len() {
        0
    } else {
        tokens_upto(msgs, tokens, to - 1) + (if msgs[to - 1] !is System {
            tokens[to - 1] as int
        } else {
            0
        })
    }
}

/// The positions below `to` of the messages that are not summaries.
pub open spec fn kept(msgs: Seq<ChatMessage>, to: int) -> Seq<usize>
    decreases to,
{
    if to <= 0 || to > msgs.len() {
        Seq::empty()
    } else if is_summary(msgs[to - 1]) {
        kept(msgs, to - 1)
    } else {
        kept(msgs, to - 1).push((to - 1) as usize)
    }
}

/// Whether the list is too short to have an old part.
pub open spec fn too_few(count: int, keep: int) -> bool {
    count <= keep + 1
}

/// What a message list calls for, before the policy is asked.
pub open spec fn gate_of(
    c: CompressionConfig,
    last: int,
    msgs: Seq<ChatMessage>,
    tokens: Seq<usize>,
) -> Gate {
    let t = tokens_from(msgs, tokens, last);
    if too_few(msgs.len() as int, c.keep_recent_messages as int) || t <= c.trigger_tokens {
        Gate::Pass
    } else {
        Gate::Ask { tokens_before: t as usize, msg_count: msgs.len() as usize }
    }
}

/// Whether a list above the threshold stays as it is all the same: compression
/// is switched off, or too few messages are left without the old summaries.
pub open spec fn nothing_to_do(c: CompressionConfig, msgs: Seq<ChatMessage>) -> bool {
    !c.enabled || too_few(
        kept(msgs, msgs.len() as int).len() as int,
        c.keep_recent_messages as int,
    )
}

/// Where the old part of a compacted list ends.
pub open spec fn old_end(count: int, keep: int) -> int {
    if count > keep {
        count - keep
    } else {
        0
    }
}

/// The counted tokens of a list's tail do not exceed those of a longer tail.
pub proof fn lemma_tokens_from_monotone(
    msgs: Seq<ChatMessage>,
    tokens: Seq<usize>,
    a: int,
    b: int,
)
    requires
        0 <= a <= b,
    ensures
        0 <= tokens_from(msgs, tokens, b) <= tokens_from(msgs, tokens, a),
    decreases b - a, msgs.len() - b,
{
    if a < b {
        lemma_tokens_from_monotone(msgs, tokens, a + 1, b);
    } else if b < msgs.len() {
        lemma_tokens_from_nonneg(msgs, tokens, b);
    }
}

proof fn lemma_tokens_from_nonneg(msgs: Seq<ChatMessage>, tokens: Seq<usize>, from: int)
    ensures
        0 <= tokens_from(msgs, tokens, from),
    decreases msgs.len() - from,
{
    if 0 <= from < msgs.len() {
        lemma_tokens_from_nonneg(msgs, tokens, from + 1);
    }
}

/// Every prefix of a list has no more tokens than a longer one.
pub proof fn lemma_tokens_upto_monotone(
    msgs: Seq<ChatMessage>,
    tokens: Seq<usize>,
    a: int,
    b: int,
)
    requires
        0 <= a <= b <= msgs.len(),
    ensures
        0 <= tokens_upto(msgs, tokens, a) <= tokens_upto(msgs, tokens, b),
    decreases b,
{
    if a < b {
        lemma_tokens_upto_monotone(msgs, tokens, a, b - 1);
    } else if 0 < a {
        lemma_tokens_upto_monotone(msgs, tokens, a - 1, b - 1);
    }
}

fn is_system(m: &ChatMessage) -> (r: bool)
    ensures
        r == (*m is System),
{
    match m {
        ChatMessage::System { content: _ } => true,
        _ => false,
    }
}

impl CompressionMiddleware<AutoCompressionPolicy> {
    /// A middleware that always compresses when the threshold is hit.
    pub fn new(config: CompressionConfig, caches: &mut SummaryCaches) -> (r: Self)
        ensures
            r.compactor.spec_config() == config,
            r.compactor.cache_number() == old(caches)@.len(),
            final(caches)@ == old(caches)@.push(Seq::empty()),
            r.last_compressed_msg_count == 0,
    {
        CompressionMiddleware {
            compactor: ContextCompactor::new(config, caches),
            policy: AutoCompressionPolicy,
            last_compressed_msg_count: 0,
        }
    }

    /// A middleware on an existing compactor that always compresses when the
    /// threshold is hit.
    pub fn from_compactor(compactor: ContextCompactor) -> (r: Self)
        ensures
            r.compactor == compactor,
            r.last_compressed_msg_count == 0,
    {
        CompressionMiddleware {
            compactor,
            policy: AutoCompressionPolicy,
            last_compressed_msg_count: 0,
        }
    }
}

impl<P: CompressionPolicy> CompressionMiddleware<P> {
    /// A middleware with a policy of the caller's choice.
    pub fn with_policy(config: CompressionConfig, caches: &mut SummaryCaches, policy: P) -> (r: Self)
        ensures
            r.compactor.spec_config() == config,
            r.compactor.cache_number() == old(caches)@.len(),
            final(caches)@ == old(caches)@.push(Seq::empty()),
            r.policy == policy,
            r.last_compressed_msg_count == 0,
    {
        CompressionMiddleware {
            compactor: ContextCompactor::new(config, caches),
            policy,
            last_compressed_msg_count: 0,
        }
    }

    /// The compactor.
    pub fn compactor(&self) -> (r: &ContextCompactor)
        ensures
            *r == self.compactor,
    {
        &self.compactor
    }

    /// Another handle to the compactor: it shares the configuration and the
    /// cache, so clearing that through either handle empties it for both.
    pub fn clone_compactor(&self) -> (r: ContextCompactor)
        ensures
            r == self.compactor,
            r.spec_config() == self.compactor.spec_config(),
            r.cache_number() == self.compactor.cache_number(),
            forall|caches: SummaryCaches| #[trigger]
                r.cached(caches) == self.compactor.cached(caches),
    {
        self.compactor.clone_handle()
    }

    /// The compression config.
    pub fn config(&self) -> (r: &CompressionConfig)
        ensures
            *r == self.compactor.spec_config(),
    {
        self.compactor.config()
    }

    /// Measures the message list: passes it, or finds that the policy must be
    /// asked.  `tokens` holds the estimate for each message.
    pub fn gate(&self, messages: &Vec<ChatMessage>, tokens: &Vec<usize>) -> (r: Gate)
        requires
            messages@.len() == tokens@.len(),
            tokens_from(messages@, tokens@, self.last_compressed_msg_count as int) <= usize::MAX,
        ensures
            r == gate_of(
                self.compactor.spec_config(),
                self.last_compressed_msg_count as int,
                messages@,
                tokens@,
            ),
    {
        let msg_count: usize = messages.len();
        let keep: usize = self.config().keep_recent_messages;
        if msg_count == 0 || msg_count - 1 <= keep {
            return Gate::Pass;
        }
        let last: usize = self.last_compressed_msg_count;
        let mut sum: usize = 0;
        let mut i: usize = messages.len();
        while i > last
            invariant
                i <= messages@.len(),
                messages@.len() == tokens@.len(),
                i >= last || i == messages@.len(),
                sum == tokens_from(messages@, tokens@, i as int),
                tokens_from(messages@, tokens@, last as int) <= usize::MAX,
            decreases i,
        {
            let k: usize = i - 1;
            proof {
                lemma_tokens_from_monotone(messages@, tokens@, last as int, k as int);
                lemma_tokens_from_nonneg(messages@, tokens@, i as int);
            }
            if !is_system(&messages[k]) && !is_summary_message(&messages[k]) {
                sum += tokens[k];
            }
            i = k;
        }
        assert(sum == tokens_from(messages@, tokens@, last as int));
        if sum <= self.config().trigger_tokens {
            return Gate::Pass;
        }
        Gate::Ask { tokens_before: sum, msg_count }
    }

    /// Goes ahead once the policy has agreed: names the messages to compact,
    /// all but old summaries; or passes if they are too few or compression is
    /// switched off, and then does not look at them again.
    pub fn proceed(&mut self, messages: &Vec<ChatMessage>, tokens_before: usize) -> (r: PreLlmStep)
        ensures
            final(self).compactor == old(self).compactor,
            final(self).policy == old(self).policy,
            ({
                let k = kept(messages@, messages@.len() as int);
                if nothing_to_do(old(self).compactor.spec_config(), messages@) {
                    &&& r is Pass
                    &&& final(self).last_compressed_msg_count == messages@.len()
                } else {
                    &&& r matches PreLlmStep::Compact { tokens_before: t, msg_count: c, keep }
                    &&& t == tokens_before
                    &&& c == messages@.len()
                    &&& keep@ == k
                    &&& final(self).last_compressed_msg_count
                        == old(self).last_compressed_msg_count
                }
            }),
    {
        let msg_count: usize = messages.len();
        let mut keep: Vec<usize> = Vec::new();
        let mut i: usize = 0;
        while i < messages.len()
            invariant
                i <= messages@.len(),
                keep@ == kept(messages@, i as int),
            decreases messages@.len() - i,
        {
            if !is_summary_message(&messages[i]) {
                keep.push(i);
            }
            i += 1;
        }
        let recent: usize = self.config().keep_recent_messages;
        if !self.config().enabled || keep.len() == 0 || keep.len() - 1 <= recent {
            self.last_compressed_msg_count = msg_count;
            return PreLlmStep::Pass;
        }
        PreLlmStep::Compact { tokens_before, msg_count, keep }
    }

    /// Looks at the message list before a model call.
    ///
    /// The list passes when it is too short or its new messages are not above
    /// the threshold; the policy is then not asked.  Otherwise the policy's
    /// answer decides.  With compression switched off every list passes.
    pub fn on_pre_llm(
        &mut self,
        messages: &Vec<ChatMessage>,
        tokens: &Vec<usize>,
        now_nanos: u128,
    ) -> (r: PreLlmStep)
        requires
            messages@.len() == tokens@.len(),
            tokens_from(messages@, tokens@, old(self).last_compressed_msg_count as int)
                <= usize::MAX,
        ensures
            final(self).compactor == old(self).compactor,
            !old(self).compactor.spec_config().enabled ==> r is Pass,
            match gate_of(
                old(self).compactor.spec_config(),
                old(self).last_compressed_msg_count as int,
                messages@,
                tokens@,
            ) {
                Gate::Pass => r is Pass && *final(self) == *old(self),
                Gate::Ask { tokens_before, msg_count } => exists|answer: bool|
                    {
                        &&& #[trigger] old(self).policy.may_answer(
                            tokens_before,
                            msg_count,
                            now_nanos,
                            answer,
                            &final(self).policy,
                        )
                        &&& if !answer {
                            &&& r is Pass
                            &&& final(self).last_compressed_msg_count
                                == old(self).last_compressed_msg_count
                        } else if nothing_to_do(old(self).compactor.spec_config(), messages@) {
                            &&& r is Pass
                            &&& final(self).last_compressed_msg_count == messages@.len()
                        } else {
                            &&& r matches PreLlmStep::Compact {
                                tokens_before: t,
                                msg_count: c,
                                keep,
                            }
                            &&& t == tokens_before
                            &&& c == msg_count
                            &&& keep@ == kept(messages@, messages@.len() as int)
                            &&& final(self).last_compressed_msg_count
                                == old(self).last_compressed_msg_count
                        }
                    },
            },
    {
        match self.gate(messages, tokens) {
            Gate::Pass => PreLlmStep::Pass,
            Gate::Ask { tokens_before, msg_count } => {
                let ghost start = self.policy;
                let answer = self.policy.should_compress(tokens_before, msg_count, now_nanos);
                let ghost next = self.policy;
                assert(start.may_answer(tokens_before, msg_count, now_nanos, answer, &next));
                if !answer {
                    return PreLlmStep::Pass;
                }
                self.proceed(messages, tokens_before)
            },
        }
    }

    /// Records that a compaction of a list of `msg_count` messages is over,
    /// whether or not the compactor had anything to replace.
    pub fn on_compacted(&mut self, msg_count: usize)
        ensures
            final(self).last_compressed_msg_count == msg_count,
            final(self).compactor == old(self).compactor,
            final(self).policy == old(self).policy,
    {
        self.last_compressed_msg_count = msg_count;
    }

    /// The tokens of the compacted list's old part.
    pub fn tokens_after(&self, messages: &Vec<ChatMessage>, tokens: &Vec<usize>) -> (r: usize)
        requires
            messages@.len() == tokens@.len(),
            tokens_upto(messages@, tokens@, messages@.len() as int) <= usize::MAX,
        ensures
            r == tokens_upto(
                messages@,
                tokens@,
                old_end(
                    messages@.len() as int,
                    self.compactor.spec_config().keep_recent_messages as int,
                ),
            ),
    {
        let keep: usize = self.config().keep_recent_messages;
        let end: usize = if messages.len() > keep {
            messages.len() - keep
        } else {
            0
        };
        let mut sum: usize = 0;
        let mut i: usize = 0;
        while i < end
            invariant
                i <= end <= messages@.len(),
                messages@.len() == tokens@.len(),
                sum == tokens_upto(messages@, tokens@, i as int),
                tokens_upto(messages@, tokens@, messages@.len() as int) <= usize::MAX,
            decreases end - i,
        {
            proof {
                lemma_tokens_upto_monotone(messages@, tokens@, i + 1, messages@.len() as int);
            }
            if !is_system(&messages[i]) {
                sum += tokens[i];
            }
            i += 1;
        }
        sum
    }
}

/// The event that reports a finished compression; the middleware compresses on
/// its own account, so the trigger is automatic.
pub fn completed_event(
    session_id: u64,
    tokens_before: usize,
    tokens_after: usize,
    reduction_pct: i32,
    msg_count_before: usize,
    msg_count_after: usize,
) -> (r: CompressionEvent)
    ensures
        r@ == (EventView::Completed {
            session_id,
            tokens_before,
            tokens_after,
            reduction_pct,
            msg_count_before,
            msg_count_after,
            trigger: CompressionTrigger::Auto,
        }),
{
    CompressionEvent::Completed {
        session_id,
        tokens_before,
        tokens_after,
        reduction_pct,
        msg_count_before,
        msg_count_after,
        trigger: CompressionTrigger::Auto,
    }
}

// ---------------------------------------------------------------------------
// Compression log
// ---------------------------------------------------------------------------

/// The directory of the compression log.
pub const LOG_DIR: &'static str = "/tmp/phi-agent-compression";

/// The name of the log file of one compression.
pub fn log_filename(session_id: u64, timestamp: u64) -> (r: String)
    ensures
        r@ == "session_"@ + decimal(session_id as nat) + "_"@ + decimal(timestamp as nat)
            + ".json"@,
{
    let mut m = "session_".to_owned();
    m.append(decimal_text(session_id).as_str());
    m.append("_");
    m.append(decimal_text(timestamp).as_str());
    m.append(".json");
    m
}

/// A whole number as JSON.
pub open spec fn int_json(n: int) -> JsonV {
    if n >= 0 {
        JsonV::UInt(n as u64)
    } else {
        JsonV::NegInt(n as i64)
    }
}

/// A signed number as JSON.
pub fn int_to_json(n: i32) -> (r: Json)
    ensures
        r@ == int_json(n as int),
{
    if n >= 0 {
        Json::UInt(n as u64)
    } else {
        Json::NegInt(n as i64)
    }
}

pub open spec fn messages_json(msgs: Seq<ChatMessage>) -> JsonV {
    JsonV::Array(Seq::new(msgs.len(), |i: int| message_json(msgs[i])))
}

/// The record of one compression.
pub open spec fn log_json(
    session_id: u64,
    timestamp: u64,
    before: Seq<ChatMessage>,
    after: Seq<ChatMessage>,
    tokens_before: usize,
    tokens_after: usize,
    reduction_pct: i32,
) -> JsonV {
    JsonV::Object(
        seq![
            ("session_id"@, JsonV::UInt(session_id)),
            ("timestamp"@, JsonV::UInt(timestamp)),
            (
                "evaluation"@,
                JsonV::Object(
                    seq![
                        ("tokens_before"@, JsonV::UInt(tokens_before as u64)),
                        ("tokens_after"@, JsonV::UInt(tokens_after as u64)),
                        ("reduction_pct"@, int_json(reduction_pct as int)),
                        ("msg_count_before"@, JsonV::UInt(before.len() as u64)),
                        ("msg_count_after"@, JsonV::UInt(after.len() as u64)),
                    ],
                ),
            ),
            ("before"@, messages_json(before)),
            ("after"@, messages_json(after)),
        ],
    )
}

fn messages_array(msgs: &Vec<ChatMessage>) -> (r: Json)
    ensures
        r@ == messages_json(msgs@),
{
    let mut out: Vec<Json> = Vec::new();
    let ghost all = messages_json(msgs@)->Array_0;
    let mut i: usize = 0;
    while i < msgs.len()
        invariant
            i <= msgs@.len(),
            all == messages_json(msgs@)->Array_0,
            json_views(out@) == all.take(i as int),
        decreases msgs@.len() - i,
    {
        let ghost before = json_views(out@);
        let j = format_message(&msgs[i]);
        out.push(j);
        i += 1;
        assert(json_views(out@) == before.push(j@));
        assert(all.take(i as int) == all.take(i - 1).push(all[i - 1]));
    }
    assert(all.take(msgs@.len() as int) == all);
    array(out)
}

/// The record of one compression, for the log file.
pub fn compression_log(
    session_id: u64,
    timestamp: u64,
    before: &Vec<ChatMessage>,
    after: &Vec<ChatMessage>,
    tokens_before: usize,
    tokens_after: usize,
    reduction_pct: i32,
) -> (r: Json)
    ensures
        r@ == log_json(
            session_id,
            timestamp,
            before@,
            after@,
            tokens_before,
            tokens_after,
            reduction_pct,
        ),
{
    let e = no_members();
    let e = with_member(e, "tokens_before", Json::UInt(tokens_before as u64));
    let e = with_member(e, "tokens_after", Json::UInt(tokens_after as u64));
    let e = with_member(e, "reduction_pct", int_to_json(reduction_pct));
    let e = with_member(e, "msg_count_before", Json::UInt(before.len() as u64));
    let e = with_member(e, "msg_count_after", Json::UInt(after.len() as u64));
    let evaluation = object(e);
    let ghost want = log_json(
        session_id,
        timestamp,
        before@,
        after@,
        tokens_before,
        tokens_after,
        reduction_pct,
    );
    assert(evaluation@->Object_0 =~= want->Object_0[2].1->Object_0);
    let m = no_members();
    let m = with_member(m, "session_id", Json::UInt(session_id));
    let m = with_member(m, "timestamp", Json::UInt(timestamp));
    let m = with_member(m, "evaluation", evaluation);
    let m = with_member(m, "before", messages_array(before));
    let m = with_member(m, "after", messages_array(after));
    let r = object(m);
    assert(r@->Object_0 =~= want->Object_0);
    r
}

// ---------------------------------------------------------------------------
// Laws
// ---------------------------------------------------------------------------

/// Right after a compression nothing counts towards the threshold, so the same
/// list does not trigger another one.
pub proof fn law_no_immediate_retrigger(
    c: CompressionConfig,
    msgs: Seq<ChatMessage>,
    tokens: Seq<usize>,
)
    ensures
        gate_of(c, msgs.len() as int, msgs, tokens) is Pass,
{
}

/// After a compression, messages added since trigger another one only if their
/// own counted tokens exceed the threshold: what was there before is not
/// counted again.
pub proof fn law_only_new_messages_count(
    c: CompressionConfig,
    old_msgs: Seq<ChatMessage>,
    old_tokens: Seq<usize>,
    new_msgs: Seq<ChatMessage>,
    new_tokens: Seq<usize>,
)
    requires
        old_msgs.len() == old_tokens.len(),
        new_msgs.len() == new_tokens.len(),
    ensures
        tokens_from(old_msgs + new_msgs, old_tokens + new_tokens, old_msgs.len() as int)
            == tokens_from(new_msgs, new_tokens, 0),
        tokens_from(new_msgs, new_tokens, 0) <= c.trigger_tokens ==> gate_of(
            c,
            old_msgs.len() as int,
            old_msgs + new_msgs,
            old_tokens + new_tokens,
        ) is Pass,
{
    lemma_tokens_shift(old_msgs, old_tokens, new_msgs, new_tokens, 0);
}

proof fn lemma_tokens_shift(
    old_msgs: Seq<ChatMessage>,
    old_tokens: Seq<usize>,
    new_msgs: Seq<ChatMessage>,
    new_tokens: Seq<usize>,
    k: int,
)
    requires
        0 <= k,
        old_msgs.len() == old_tokens.len(),
        new_msgs.len() == new_tokens.len(),
    ensures
        tokens_from(old_msgs + new_msgs, old_tokens + new_tokens, old_msgs.len() + k)
            == tokens_from(new_msgs, new_tokens, k),
    decreases new_msgs.len() - k,
{
    if k < new_msgs.len() {
        lemma_tokens_shift(old_msgs, old_tokens, new_msgs, new_tokens, k + 1);
        assert((old_msgs + new_msgs)[old_msgs.len() + k] == new_msgs[k]);
        assert((old_tokens + new_tokens)[old_msgs.len() + k] == new_tokens[k]);
    }
}

/// The messages handed to the compactor are all but the old summaries, in
/// their order.
pub proof fn law_kept_are_the_non_summaries(msgs: Seq<ChatMessage>, to: int, i: int)
    requires
        0 <= i < to <= msgs.len(),
        msgs.len() <= usize::MAX,
    ensures
        kept(msgs, to).contains(i as usize) <==> !is_summary(msgs[i]),
        forall|a: int, b: int|
            0 <= a < b < kept(msgs, to).len() ==> kept(msgs, to)[a] < kept(msgs, to)[b],
        forall|a: int| 0 <= a < kept(msgs, to).len() ==> kept(msgs, to)[a] < to,
    decreases to,
{
    lemma_kept_below(msgs, to);
    let k = kept(msgs, to);
    let p = kept(msgs, to - 1);
    if i == to - 1 {
        if is_summary(msgs[i]) {
            lemma_kept_below(msgs, to - 1);
            assert(k == p);
        } else {
            assert(k[k.len() - 1] == i as usize);
        }
    } else {
        law_kept_are_the_non_summaries(msgs, to - 1, i);
        if !is_summary(msgs[to - 1]) {
            if p.contains(i as usize) {
                let j = p.index_of(i as usize);
                assert(k[j] == i as usize);
            }
            if k.contains(i as usize) {
                let j = k.index_of(i as usize);
                assert(j < p.len());
                assert(p[j] == i as usize);
            }
        }
    }
}

proof fn lemma_kept_below(msgs: Seq<ChatMessage>, to: int)
    requires
        0 <= to <= msgs.len(),
        msgs.len() <= usize::MAX,
    ensures
        forall|a: int| 0 <= a < kept(msgs, to).len() ==> #[trigger] kept(msgs, to)[a] < to,
        forall|a: int, b: int|
            0 <= a < b < kept(msgs, to).len() ==> kept(msgs, to)[a] < kept(msgs, to)[b],
    decreases to,
{
    if to > 0 {
        lemma_kept_below(msgs, to - 1);
        let k = kept(msgs, to);
        let p = kept(msgs, to - 1);
        assert forall|a: int| 0 <= a < k.len() implies #[trigger] k[a] < to by {
            if a < p.len() {
                assert(p[a] < to - 1);
            }
        }
        assert forall|a: int, b: int| 0 <= a < b < k.len() implies k[a] < k[b] by {
            assert(p[a] < to - 1);
            if b < p.len() {
                assert(p[a] < p[b]);
            }
        }
    }
}

/// The sum of numbers.
pub open spec fn sum_of(tokens: Seq<usize>) -> int
    decreases tokens.len(),
{
    if tokens.len() == 0 {
        0
    } else {
        sum_of(tokens.drop_last()) + tokens.last()
    }
}

/// One message counts with all its tokens, whatever its role, unless it is a
/// system message or a user message that starts with the prefix of summaries.
pub proof fn law_what_counts(m: ChatMessage, t: usize)
    ensures
        tokens_from(seq![m], seq![t], 0) == (if m is System || (m matches ChatMessage::User {
            content,
        } && content@.len() >= SUMMARY_PREFIX@.len() && content@.take(SUMMARY_PREFIX@.len() as int)
            == SUMMARY_PREFIX@) {
            0
        } else {
            t as int
        }),
{
    reveal_with_fuel(tokens_from, 2);
}

/// The counted tokens of a list are those of its parts together.
pub proof fn law_counts_add_up(
    a: Seq<ChatMessage>,
    at: Seq<usize>,
    b: Seq<ChatMessage>,
    bt: Seq<usize>,
)
    requires
        a.len() == at.len(),
        b.len() == bt.len(),
    ensures
        tokens_from(a + b, at + bt, 0) == tokens_from(a, at, 0) + tokens_from(b, bt, 0),
{
    lemma_tokens_front(a, at, b, bt, 0);
}

proof fn lemma_tokens_front(
    a: Seq<ChatMessage>,
    at: Seq<usize>,
    b: Seq<ChatMessage>,
    bt: Seq<usize>,
    k: int,
)
    requires
        0 <= k <= a.len(),
        a.len() == at.len(),
        b.len() == bt.len(),
    ensures
        tokens_from(a + b, at + bt, k) == tokens_from(a, at, k) + tokens_from(b, bt, 0),
    decreases a.len() - k,
{
    if k < a.len() {
        lemma_tokens_front(a, at, b, bt, k + 1);
        assert((a + b)[k] == a[k]);
        assert((at + bt)[k] == at[k]);
    } else {
        lemma_tokens_shift(a, at, b, bt, 0);
    }
}

/// A list without system messages and old summaries counts with the sum of all
/// its estimates, whatever the roles of its messages.
pub proof fn law_every_role_counts(msgs: Seq<ChatMessage>, tokens: Seq<usize>)
    requires
        msgs.len() == tokens.len(),
        forall|i: int|
            0 <= i < msgs.len() ==> (#[trigger] msgs[i]) !is System && !(msgs[i] matches
                ChatMessage::User { content } && content@.len() >= SUMMARY_PREFIX@.len()
                && content@.take(SUMMARY_PREFIX@.len() as int) == SUMMARY_PREFIX@),
    ensures
        tokens_from(msgs, tokens, 0) == sum_of(tokens),
    decreases msgs.len(),
{
    if msgs.len() > 0 {
        let m = msgs.drop_last();
        let t = tokens.drop_last();
        assert forall|i: int| 0 <= i < m.len() implies (#[trigger] m[i]) !is System && !(m[i] matches
            ChatMessage::User { content } && content@.len() >= SUMMARY_PREFIX@.len()
            && content@.take(SUMMARY_PREFIX@.len() as int) == SUMMARY_PREFIX@) by {
            assert(m[i] == msgs[i]);
        }
        law_every_role_counts(m, t);
        law_counts_add_up(m, t, seq![msgs.last()], seq![tokens.last()]);
        law_what_counts(msgs.last(), tokens.last());
        assert(m + seq![msgs.last()] =~= msgs);
        assert(t + seq![tokens.last()] =~= tokens);
        assert(msgs[msgs.len() - 1] == msgs.last());
    }
}

/// The policy is asked exactly when there are more than one message besides the
/// recent ones and the new messages' counted tokens exceed the threshold; it is
/// asked with that count and the number of all messages.
pub proof fn law_when_the_policy_is_asked(
    c: CompressionConfig,
    msgs: Seq<ChatMessage>,
    tokens: Seq<usize>,
    last: int,
)
    requires
        msgs.len() == tokens.len(),
        msgs.len() <= usize::MAX,
        0 <= last,
        tokens_from(msgs, tokens, last) <= usize::MAX,
    ensures
        gate_of(c, last, msgs, tokens) is Ask <==> msgs.len() > c.keep_recent_messages + 1
            && tokens_from(msgs, tokens, last) > c.trigger_tokens,
        gate_of(c, last, msgs, tokens) matches Gate::Ask { tokens_before, msg_count } ==> {
            &&& tokens_before == tokens_from(msgs, tokens, last)
            &&& msg_count == msgs.len()
        },
{
}

/// Whether a message is an old summary, by what it holds.
pub open spec fn starts_as_summary(m: ChatMessage) -> bool {
    m matches ChatMessage::User { content } && content@.len() >= SUMMARY_PREFIX@.len()
        && content@.take(SUMMARY_PREFIX@.len() as int) == SUMMARY_PREFIX@
}

/// How many messages are no old summaries.
pub open spec fn plain_count(msgs: Seq<ChatMessage>) -> nat
    decreases msgs.len(),
{
    if msgs.len() == 0 {
        0
    } else {
        plain_count(msgs.drop_last()) + (if starts_as_summary(msgs.last()) {
            0nat
        } else {
            1
        })
    }
}

proof fn lemma_kept_count(msgs: Seq<ChatMessage>, to: int)
    requires
        0 <= to <= msgs.len(),
    ensures
        kept(msgs, to).len() == plain_count(msgs.take(to)),
    decreases to,
{
    if to > 0 {
        lemma_kept_count(msgs, to - 1);
        assert(msgs.take(to).drop_last() =~= msgs.take(to - 1));
        assert(msgs.take(to).last() == msgs[to - 1]);
    }
}

/// Once the policy agrees, a list is compacted whenever compression is on and
/// more than one message besides the recent ones is no old summary.
pub proof fn law_when_there_is_work(c: CompressionConfig, msgs: Seq<ChatMessage>)
    ensures
        nothing_to_do(c, msgs) <==> !(c.enabled && plain_count(msgs) > c.keep_recent_messages + 1),
{
    lemma_kept_count(msgs, msgs.len() as int);
    assert(msgs.take(msgs.len() as int) =~= msgs);
}

/// Every message but the old summaries is handed to the compactor, and every
/// one of them once.
pub proof fn law_all_but_summaries_are_compacted(msgs: Seq<ChatMessage>, i: int)
    requires
        0 <= i < msgs.len() <= usize::MAX,
    ensures
        kept(msgs, msgs.len() as int).contains(i as usize) <==> !starts_as_summary(msgs[i]),
        kept(msgs, msgs.len() as int).len() == plain_count(msgs),
        kept(msgs, msgs.len() as int).no_duplicates(),
{
    let k = kept(msgs, msgs.len() as int);
    law_kept_are_the_non_summaries(msgs, msgs.len() as int, i);
    lemma_kept_count(msgs, msgs.len() as int);
    assert(msgs.take(msgs.len() as int) =~= msgs);
    assert forall|a: int, b: int| 0 <= a < k.len() && 0 <= b < k.len() && a != b implies k[a]
        != k[b] by {
        if a < b {
            assert(k[a] < k[b]);
        } else {
            assert(k[b] < k[a]);
        }
    }
}

/// The old part of a compacted list counts with every message in front of the
/// recent ones but system messages, one message at a time.
pub proof fn law_old_part_counts(
    msgs: Seq<ChatMessage>,
    tokens: Seq<usize>,
    m: ChatMessage,
    t: usize,
    keep: int,
)
    requires
        msgs.len() == tokens.len(),
        0 <= keep,
    ensures
        tokens_upto(msgs, tokens, 0) == 0,
        tokens_upto(msgs.push(m), tokens.push(t), (msgs.len() + 1) as int) == tokens_upto(
            msgs,
            tokens,
            msgs.len() as int,
        ) + (if m is System {
            0
        } else {
            t as int
        }),
        old_end(msgs.len() as int, keep) + keep == msgs.len() || (msgs.len() < keep && old_end(
            msgs.len() as int,
            keep,
        ) == 0),
{
    lemma_upto_prefix(msgs, tokens, m, t, msgs.len() as int);
}

proof fn lemma_upto_prefix(
    msgs: Seq<ChatMessage>,
    tokens: Seq<usize>,
    m: ChatMessage,
    t: usize,
    to: int,
)
    requires
        msgs.len() == tokens.len(),
        0 <= to <= msgs.len(),
    ensures
        tokens_upto(msgs.push(m), tokens.push(t), to) == tokens_upto(msgs, tokens, to),
    decreases to,
{
    if to > 0 {
        lemma_upto_prefix(msgs, tokens, m, t, to - 1);
    }
}

/// The record of a compression tells the session, the moment, the figures of
/// the compression and every message before and after it, in order.
pub proof fn law_records_tell_the_compression(
    session_id: u64,
    timestamp: u64,
    before: Seq<ChatMessage>,
    after: Seq<ChatMessage>,
    tokens_before: usize,
    tokens_after: usize,
    reduction_pct: i32,
)
    ensures
        ({
            let v = log_json(
                session_id,
                timestamp,
                before,
                after,
                tokens_before,
                tokens_after,
                reduction_pct,
            );
            &&& member(v, "session_id"@) == Some(JsonV::UInt(session_id))
            &&& member(v, "timestamp"@) == Some(JsonV::UInt(timestamp))
            &&& member(v, "before"@) matches Some(JsonV::Array(b))
            &&& b.len() == before.len()
            &&& forall|i: int|
                0 <= i < before.len() ==> #[trigger] b[i] == message_json(before[i])
            &&& member(v, "after"@) matches Some(JsonV::Array(a))
            &&& a.len() == after.len()
            &&& forall|i: int| 0 <= i < after.len() ==> #[trigger] a[i] == message_json(after[i])
            &&& member(v, "evaluation"@) matches Some(e)
            &&& member(e, "tokens_before"@) == Some(JsonV::UInt(tokens_before as u64))
            &&& member(e, "tokens_after"@) == Some(JsonV::UInt(tokens_after as u64))
            &&& reduction_pct >= 0 ==> member(e, "reduction_pct"@) == Some(
                JsonV::UInt(reduction_pct as u64),
            )
            &&& reduction_pct < 0 ==> member(e, "reduction_pct"@) == Some(
                JsonV::NegInt(reduction_pct as i64),
            )
            &&& member(e, "msg_count_before"@) == Some(JsonV::UInt(before.len() as u64))
            &&& member(e, "msg_count_after"@) == Some(JsonV::UInt(after.len() as u64))
        }),
{
    let v = log_json(
        session_id,
        timestamp,
        before,
        after,
        tokens_before,
        tokens_after,
        reduction_pct,
    );
    let m = v->Object_0;
    let e = m[2].1->Object_0;
    reveal_strlit("session_id");
    reveal_strlit("timestamp");
    reveal_strlit("evaluation");
    reveal_strlit("before");
    reveal_strlit("after");
    reveal_strlit("tokens_before");
    reveal_strlit("tokens_after");
    reveal_strlit("reduction_pct");
    reveal_strlit("msg_count_before");
    reveal_strlit("msg_count_after");
    assert("session_id"@[0] == 's');
    assert("timestamp"@[0] == 't');
    assert("evaluation"@[0] == 'e');
    assert("before"@[0] == 'b');
    assert("after"@[0] == 'a');
    assert("tokens_before"@.len() == 13 && "tokens_before"@[0] == 't');
    assert("tokens_after"@.len() == 12);
    assert("reduction_pct"@.len() == 13 && "reduction_pct"@[0] == 'r');
    assert("msg_count_before"@.len() == 16);
    assert("msg_count_after"@.len() == 15);
    assert forall|i: int, j: int| 0 <= i < j < m.len() implies (#[trigger] m[i]).0 != (
    #[trigger] m[j]).0 by {
        assert(m[i].0[0] != m[j].0[0]);
    }
    assert forall|i: int, j: int| 0 <= i < j < e.len() implies (#[trigger] e[i]).0 != (
    #[trigger] e[j]).0 by {
        assert(e[i].0.len() != e[j].0.len() || e[i].0[0] != e[j].0[0]);
    }
    lemma_member_at(m, 0);
    lemma_member_at(m, 1);
    lemma_member_at(m, 2);
    lemma_member_at(m, 3);
    lemma_member_at(m, 4);
    lemma_member_at(e, 0);
    lemma_member_at(e, 1);
    lemma_member_at(e, 2);
    lemma_member_at(e, 3);
    lemma_member_at(e, 4);
}

proof fn lemma_member_at(m: Seq<(Seq<char>, JsonV)>, i: int)
    requires
        0 <= i < m.len(),
        forall|a: int, b: int|
            0 <= a < b < m.len() ==> (#[trigger] m[a]).0 != (#[trigger] m[b]).0,
    ensures
        member(JsonV::Object(m), m[i].0) == Some(m[i].1),
{
    let before = m.take(i);
    let after = m.skip(i + 1);
    assert(m =~= before + seq![(m[i].0, m[i].1)] + after);
    assert forall|k: int| 0 <= k < before.len() implies (#[trigger] before[k]).0 != m[i].0 by {
        assert(before[k] == m[k]);
    }
    law_members_are_found_by_name(before, m[i].0, m[i].1, after);
}

} // verus!
