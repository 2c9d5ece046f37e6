//! Compression policy: whether compression goes ahead once the threshold is
//! crossed.
//!
//! - [`AutoCompressionPolicy`] always goes ahead (default).
//! - [`UserConfirmationPolicy`] asks the user for y/n.
//! - [`RateLimitPolicy`] keeps a minimum interval between compressions.

use vstd::prelude::*;
use core::time::Duration;
use crate::text::{
    all_space, char_at, chars_of, decimal, decimal_text, find_char, is_space, law_trimming,
    lemma_char_at, lemma_char_at_is, one_line, same_text, string_of, trim, trimmed,
};
use crate::time::whole_nanos;

verus! {

/// Decides whether compression goes ahead.
pub trait CompressionPolicy {
    /// Whether this policy, in its present state, may give `answer` and be left
    /// in the state `next`.
    spec fn may_answer(
        &self,
        tokens_before: usize,
        msg_count: usize,
        now_nanos: u128,
        answer: bool,
        next: &Self,
    ) -> bool;

    /// Asked before compression starts.
    ///
    /// * `tokens_before` — estimated token count of the current messages
    /// * `msg_count` — number of messages in the session
    /// * `now_nanos` — the reading of a clock that never goes back
    ///
    /// `true` goes ahead, `false` keeps the current messages.
    fn should_compress(&mut self, tokens_before: usize, msg_count: usize, now_nanos: u128) -> (r:
        bool)
        ensures
            old(self).may_answer(tokens_before, msg_count, now_nanos, r, final(self)),
    ;
}

/// Default policy: always compress when the threshold is exceeded.
pub struct AutoCompressionPolicy;

impl CompressionPolicy for AutoCompressionPolicy {
    open spec fn may_answer(
        &self,
        tokens_before: usize,
        msg_count: usize,
        now_nanos: u128,
        answer: bool,
        next: &Self,
    ) -> bool {
        answer
    }

    fn should_compress(&mut self, tokens_before: usize, msg_count: usize, now_nanos: u128) -> (r:
        bool) {
        true
    }
}

/// User confirmation policy: go ahead on the user's word.
pub struct UserConfirmationPolicy {
    /// What the user has typed and has not been read yet.
    pub reader: String,
}

/// The first line of `s`, with its line feed.
pub open spec fn first_line(s: Seq<char>) -> Seq<char> {
    match char_at(s, '\n') {
        Some(k) => s.take(k + 1),
        None => s,
    }
}

/// Whether a line says yes: the letter y in either case, and white space.
pub open spec fn says_yes(line: Seq<char>) -> bool {
    trimmed(line) == "y"@ || trimmed(line) == "Y"@
}

/// The question put to the user.
pub open spec fn question(tokens_before: nat, msg_count: nat) -> Seq<char> {
    "\n⏳ Compression needed (~"@ + decimal(tokens_before) + " tokens, "@ + decimal(msg_count)
        + " messages). Proceed? (y/n): "@
}

/// Whether a line says yes.
pub fn is_yes(line: &str) -> (r: bool)
    ensures
        r == says_yes(line@),
{
    let t = trim(line);
    same_text(t.as_str(), "y") || same_text(t.as_str(), "Y")
}

/// The question to put to the user.
pub fn confirmation_question(tokens_before: usize, msg_count: usize) -> (r: String)
    ensures
        r@ == question(tokens_before as nat, msg_count as nat),
{
    let mut m = "\n⏳ Compression needed (~".to_owned();
    m.append(decimal_text(tokens_before as u64).as_str());
    m.append(" tokens, ");
    m.append(decimal_text(msg_count as u64).as_str());
    m.append(" messages). Proceed? (y/n): ");
    m
}

impl UserConfirmationPolicy {
    /// A policy that reads the user's answers from `reader`.
    pub fn new(reader: String) -> (r: Self)
        ensures
            r.reader == reader,
    {
        UserConfirmationPolicy { reader }
    }

    /// Takes the next line off the reader; nothing is left at its end.
    pub fn read_line(&mut self) -> (r: String)
        ensures
            r@ == first_line(old(self).reader@),
            r@ + final(self).reader@ == old(self).reader@,
    {
        let v = chars_of(self.reader.as_str());
        assert(v@.skip(0) == v@);
        let total: usize = v.len();
        let end: usize = match find_char(&v, 0, '\n') {
            Some(k) => k + 1,
            None => total,
        };
        let line = string_of(&v, 0, end);
        self.reader = string_of(&v, end, v.len());
        assert(line@ == first_line(v@));
        line
    }
}

impl CompressionPolicy for UserConfirmationPolicy {
    open spec fn may_answer(
        &self,
        tokens_before: usize,
        msg_count: usize,
        now_nanos: u128,
        answer: bool,
        next: &Self,
    ) -> bool {
        &&& answer == says_yes(first_line(self.reader@))
        &&& first_line(self.reader@) + next.reader@ == self.reader@
    }

    fn should_compress(&mut self, tokens_before: usize, msg_count: usize, now_nanos: u128) -> (r:
        bool) {
        let line = self.read_line();
        is_yes(line.as_str())
    }
}

/// Rate limiting policy: compress at most once every interval.
pub struct RateLimitPolicy {
    /// The shortest time between two compressions, in nanoseconds.
    pub min_interval_nanos: u128,
    /// When the policy last said yes.
    pub last_compression: Option<u128>,
}

impl RateLimitPolicy {
    /// A policy that has not said yes yet.
    pub fn new(min_interval: Duration) -> (r: Self)
        ensures
            r.min_interval_nanos == whole_nanos(min_interval),
            r.last_compression is None,
    {
        RateLimitPolicy { min_interval_nanos: min_interval.as_nanos(), last_compression: None }
    }

    /// Whether it is too soon at `now` to compress again.
    pub open spec fn too_soon(&self, now: u128) -> bool {
        self.last_compression matches Some(last) && (if now > last {
            now - last
        } else {
            0
        }) < self.min_interval_nanos
    }
}

impl CompressionPolicy for RateLimitPolicy {
    open spec fn may_answer(
        &self,
        tokens_before: usize,
        msg_count: usize,
        now_nanos: u128,
        answer: bool,
        next: &Self,
    ) -> bool {
        &&& answer == !self.too_soon(now_nanos)
        &&& next.min_interval_nanos == self.min_interval_nanos
        &&& next.last_compression == if answer {
            Some(now_nanos)
        } else {
            self.last_compression
        }
    }

    fn should_compress(&mut self, tokens_before: usize, msg_count: usize, now_nanos: u128) -> (r:
        bool) {
        if let Some(last) = self.last_compression {
            let elapsed: u128 = if now_nanos > last {
                now_nanos - last
            } else {
                0
            };
            if elapsed < self.min_interval_nanos {
                return false;
            }
        }
        self.last_compression = Some(now_nanos);
        true
    }
}

/// A request to a policy: tokens, message count and time.
pub struct PolicyRequest {
    pub tokens_before: usize,
    pub msg_count: usize,
    pub now_nanos: u128,
}

/// Whether `states` are those a rate limit goes through while it gives
/// `answers` to `requests`, the clock never going back.
pub open spec fn rate_limit_run(
    states: Seq<RateLimitPolicy>,
    requests: Seq<PolicyRequest>,
    answers: Seq<bool>,
) -> bool {
    &&& states.len() == requests.len() + 1
    &&& answers.len() == requests.len()
    &&& forall|i: int|
        0 <= i < requests.len() ==> (#[trigger] states[i]).may_answer(
            requests[i].tokens_before,
            requests[i].msg_count,
            requests[i].now_nanos,
            answers[i],
            &states[i + 1],
        )
    &&& forall|i: int, j: int|
        0 <= i <= j < requests.len() ==> requests[i].now_nanos <= requests[j].now_nanos
}

proof fn lemma_last_grant(
    states: Seq<RateLimitPolicy>,
    requests: Seq<PolicyRequest>,
    answers: Seq<bool>,
    i: int,
    j: int,
)
    requires
        rate_limit_run(states, requests, answers),
        0 <= i < j < states.len(),
        answers[i],
    ensures
        states[j].min_interval_nanos == states[0].min_interval_nanos,
        states[j].last_compression matches Some(last) && requests[i].now_nanos <= last
            <= requests[j - 1].now_nanos,
    decreases j,
{
    lemma_interval_kept(states, requests, answers, j);
    assert(states[j - 1].may_answer(
        requests[j - 1].tokens_before,
        requests[j - 1].msg_count,
        requests[j - 1].now_nanos,
        answers[j - 1],
        &states[j - 1 + 1],
    ));
    if i < j - 1 {
        lemma_last_grant(states, requests, answers, i, j - 1);
    }
}

proof fn lemma_interval_kept(
    states: Seq<RateLimitPolicy>,
    requests: Seq<PolicyRequest>,
    answers: Seq<bool>,
    j: int,
)
    requires
        rate_limit_run(states, requests, answers),
        0 <= j < states.len(),
    ensures
        states[j].min_interval_nanos == states[0].min_interval_nanos,
    decreases j,
{
    if j > 0 {
        lemma_interval_kept(states, requests, answers, j - 1);
        assert(states[j - 1].min_interval_nanos == states[j - 1 + 1].min_interval_nanos);
    }
}

/// Between any two times the rate limit says yes, at least the interval
/// passes, however many requests it refuses in between.
pub proof fn law_rate_limit_spaces_compressions(
    states: Seq<RateLimitPolicy>,
    requests: Seq<PolicyRequest>,
    answers: Seq<bool>,
    i: int,
    j: int,
)
    requires
        rate_limit_run(states, requests, answers),
        0 <= i < j < requests.len(),
        answers[i],
        answers[j],
    ensures
        requests[j].now_nanos - requests[i].now_nanos >= states[0].min_interval_nanos,
{
    lemma_last_grant(states, requests, answers, i, j);
    assert(!states[j].too_soon(requests[j].now_nanos));
}

/// The first request is always granted.
pub proof fn law_rate_limit_grants_first(
    p: RateLimitPolicy,
    tokens: usize,
    count: usize,
    now: u128,
    answer: bool,
    next: RateLimitPolicy,
)
    requires
        p.last_compression is None,
        p.may_answer(tokens, count, now, answer, &next),
    ensures
        answer,
{
}

/// The rate limit refuses exactly the requests that come sooner than the
/// interval after the last one granted, and remembers the time of those it
/// grants alone.
pub proof fn law_rate_limit_refuses_only_what_is_too_soon(
    p: RateLimitPolicy,
    r: PolicyRequest,
    last: u128,
    answer: bool,
    next: RateLimitPolicy,
)
    requires
        p.last_compression == Some(last),
        last <= r.now_nanos,
        p.may_answer(r.tokens_before, r.msg_count, r.now_nanos, answer, &next),
    ensures
        answer <==> r.now_nanos - last >= p.min_interval_nanos,
        next.last_compression == (if answer {
            Some(r.now_nanos)
        } else {
            Some(last)
        }),
        next.min_interval_nanos == p.min_interval_nanos,
{
}

/// The automatic policy agrees to everything.
pub proof fn law_auto_always_agrees(r: PolicyRequest, answer: bool)
    requires
        AutoCompressionPolicy.may_answer(
            r.tokens_before,
            r.msg_count,
            r.now_nanos,
            answer,
            &AutoCompressionPolicy,
        ),
    ensures
        answer,
{
}

/// The user's word is the next line: the letter y in either case with white
/// space around it is a yes, any other text is a no, and what follows the line
/// is left for the next question.
pub proof fn law_the_next_line_answers(
    a: Seq<char>,
    word: Seq<char>,
    b: Seq<char>,
    rest: Seq<char>,
    p: UserConfirmationPolicy,
    r: PolicyRequest,
    answer: bool,
    next: UserConfirmationPolicy,
)
    requires
        all_space(a),
        all_space(b),
        one_line(a + word + b),
        word.len() > 0 ==> !is_space(word[0]) && !is_space(word.last()),
        p.reader@ == a + word + b + "\n"@ + rest,
        p.may_answer(r.tokens_before, r.msg_count, r.now_nanos, answer, &next),
    ensures
        answer <==> word == seq!['y'] || word == seq!['Y'],
        next.reader@ == rest,
{
    reveal_strlit("\n");
    reveal_strlit("y");
    reveal_strlit("Y");
    let line = a + word + b;
    let s = p.reader@;
    let n = line.len() as int;
    assert(s[n] == '\n');
    assert forall|i: int| 0 <= i < n implies s[i] != '\n' by {
        assert(s[i] == line[i]);
    }
    lemma_char_at_is(s, '\n', n);
    let end = b + "\n"@;
    assert(first_line(s) =~= a + word + end);
    assert(all_space(end)) by {
        assert forall|i: int| 0 <= i < end.len() implies is_space(#[trigger] end[i]) by {
            if i < b.len() {
                assert(end[i] == b[i]);
            }
        }
    }
    law_trimming(a, word, end);
    assert("y"@ =~= seq!['y']);
    assert("Y"@ =~= seq!['Y']);
    assert(next.reader@ =~= (first_line(s) + next.reader@).skip(n + 1));
    assert(s.skip(n + 1) =~= rest);
}

/// The question tells the tokens and the messages; and a user who typed a last
/// line without ending it has answered all the same.
pub proof fn law_the_last_line_answers_too(
    a: Seq<char>,
    word: Seq<char>,
    b: Seq<char>,
    p: UserConfirmationPolicy,
    r: PolicyRequest,
    answer: bool,
    next: UserConfirmationPolicy,
)
    requires
        all_space(a),
        all_space(b),
        one_line(a + word + b),
        word.len() > 0 ==> !is_space(word[0]) && !is_space(word.last()),
        p.reader@ == a + word + b,
        p.may_answer(r.tokens_before, r.msg_count, r.now_nanos, answer, &next),
    ensures
        answer <==> word == seq!['y'] || word == seq!['Y'],
        next.reader@.len() == 0,
        question(r.tokens_before as nat, r.msg_count as nat) == "\n⏳ Compression needed (~"@
            + decimal(r.tokens_before as nat) + " tokens, "@ + decimal(r.msg_count as nat)
            + " messages). Proceed? (y/n): "@,
{
    let s = a + word + b;
    reveal_strlit("y");
    reveal_strlit("Y");
    lemma_char_at(s, '\n');
    if let Some(k) = char_at(s, '\n') {
        assert(s[k] == '\n');
    }
    law_trimming(a, word, b);
    assert("y"@ =~= seq!['y']);
    assert("Y"@ =~= seq!['Y']);
    assert((s + next.reader@).len() == s.len());
}

} // verus!
