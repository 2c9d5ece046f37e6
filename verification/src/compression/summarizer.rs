//! Summarising a block of conversation with a model.
//!
//! The summary is written for another model to pick up: it keeps the original
//! goal, key decisions, tool findings, and clear next steps.

use vstd::prelude::*;
use crate::text::{
    char_at, chars_of, decimal, decimal_text, find_char, is_space, is_whitespace, lemma_char_at,
    same_text, string_of,
};

verus! {

/// Handoff-style summarisation prompt template, with the placeholders
/// `{goal}`, `{lang}`, `{max_chars}` and `{transcript}`.
pub const SUMMARIZATION_PROMPT: &'static str = "You are performing a CONTEXT CHECKPOINT COMPACTION. Create a handoff summary for another LLM that will resume the task.\n\nThe original goal of this session was: {goal}\n\nUser messages have been preserved separately. Summarize ONLY the assistant responses and tool results below.\n\nInclude:\n- What the assistant did (tools called, actions taken, results found)\n- Key decisions made and important constraints discovered\n- What remains to be done (clear next steps)\n{lang}\nDo NOT reproduce assistant text replies verbatim (poems, articles, code examples, etc.). Only describe what was done, not the content itself.\n\nBe concise, structured, and focused on helping the next LLM seamlessly continue the work. Do not repeat work that has already been done. Output ONLY the summary text, no preamble, about {max_chars} characters max.\n\n=== ASSISTANT AND TOOL RESPONSES ===\n{transcript}";

/// Language instruction injected when CJK content is detected.
pub const LANG_INSTRUCTION_CJK: &'static str = "Respond in the same language as the conversation (CJK detected).";

/// No extra language instruction for predominantly Latin text.
pub const LANG_INSTRUCTION_DEFAULT: &'static str = "";

/// Who the summarizing model is told to be.
pub const SUMMARIZER_SYSTEM: &'static str = "You are a conversation summarizer for an AI agent that can call tools (browser, shell, search, etc.).";

// ---------------------------------------------------------------------------
// Prompt construction
// ---------------------------------------------------------------------------

/// What the placeholders stand for.
pub struct PromptValues {
    pub goal: Seq<char>,
    pub lang: Seq<char>,
    pub max_chars: nat,
    pub transcript: Seq<char>,
}

/// The text that a placeholder's name stands for.
pub open spec fn placeholder(name: Seq<char>, v: PromptValues) -> Option<Seq<char>> {
    if name == "goal"@ {
        Some(v.goal)
    } else if name == "lang"@ {
        Some(v.lang)
    } else if name == "max_chars"@ {
        Some(decimal(v.max_chars))
    } else if name == "transcript"@ {
        Some(v.transcript)
    } else {
        None
    }
}

/// The characters up to the first closing brace, or all of them.
pub open spec fn brace_name(t: Seq<char>) -> Seq<char> {
    match char_at(t, '}') {
        Some(k) => t.take(k),
        None => t,
    }
}

/// The template with its placeholders filled, from left to right; what is
/// filled in is not looked at again.
pub open spec fn filled(t: Seq<char>, v: PromptValues) -> Seq<char>
    decreases t.len(),
{
    if t.len() == 0 {
        Seq::empty()
    } else {
        let name = brace_name(t.drop_first());
        match placeholder(name, v) {
            Some(value) => if t[0] == '{' {
                let used = name.len() + 2;
                value + (if used < t.len() {
                    filled(t.skip(used as int), v)
                } else {
                    Seq::empty()
                })
            } else {
                seq![t[0]] + filled(t.drop_first(), v)
            },
            None => seq![t[0]] + filled(t.drop_first(), v),
        }
    }
}

/// Fills a template's placeholders.
pub fn fill_template(
    template: &str,
    goal: &str,
    lang: &str,
    max_chars: usize,
    transcript: &str,
) -> (r: String)
    ensures
        r@ == filled(
            template@,
            (PromptValues {
                goal: goal@,
                lang: lang@,
                max_chars: max_chars as nat,
                transcript: transcript@,
            }),
        ),
{
    let t = chars_of(template);
    let ghost v = PromptValues {
        goal: goal@,
        lang: lang@,
        max_chars: max_chars as nat,
        transcript: transcript@,
    };
    let mut out = String::new();
    let mut i: usize = 0;
    assert(t@.skip(0) == t@);
    assert(out@ + filled(t@, v) == filled(t@, v));
    while i < t.len()
        invariant
            i <= t@.len(),
            v == (PromptValues {
                goal: goal@,
                lang: lang@,
                max_chars: max_chars as nat,
                transcript: transcript@,
            }),
            out@ + filled(t@.skip(i as int), v) == filled(t@, v),
        decreases t@.len() - i,
    {
        let ghost rest = t@.skip(i as int);
        let ghost before = out@;
        assert(rest.drop_first() == t@.skip(i + 1));
        let c = t[i];
        if c == '{' {
            let end: usize = match find_char(&t, i + 1, '}') {
                Some(k) => k,
                None => t.len(),
            };
            let name = string_of(&t, i + 1, end);
            assert(name@ == brace_name(rest.drop_first())) by {
                match char_at(rest.drop_first(), '}') {
                    Some(k) => {
                        assert(rest.drop_first().take(k) == t@.subrange(i + 1, end as int));
                    },
                    None => {
                        assert(rest.drop_first() == t@.subrange(i + 1, end as int));
                    },
                }
            }
            let value: Option<String> = if same_text(name.as_str(), "goal") {
                Some(goal.to_owned())
            } else if same_text(name.as_str(), "lang") {
                Some(lang.to_owned())
            } else if same_text(name.as_str(), "max_chars") {
                Some(decimal_text(max_chars as u64))
            } else if same_text(name.as_str(), "transcript") {
                Some(transcript.to_owned())
            } else {
                None
            };
            match value {
                Some(s) => {
                    out.append(s.as_str());
                    let ghost used = name@.len() + 2;
                    if end < t.len() {
                        i = end + 1;
                        assert(used == i - (t@.len() - rest.len()));
                        proof {
                            if used < rest.len() {
                                assert(rest.skip(used as int) == t@.skip(i as int));
                            } else {
                                assert(t@.skip(i as int).len() == 0);
                            }
                        }
                    } else {
                        i = t.len();
                        assert(t@.skip(i as int).len() == 0);
                    }
                    assert(before + (s@ + filled(t@.skip(i as int), v)) == out@ + filled(
                        t@.skip(i as int),
                        v,
                    ));
                },
                None => {
                    out.push(c);
                    i += 1;
                    assert(before + (seq![c] + filled(t@.skip(i as int), v)) == out@ + filled(
                        t@.skip(i as int),
                        v,
                    ));
                },
            }
        } else {
            out.push(c);
            i += 1;
            assert(before + (seq![c] + filled(t@.skip(i as int), v)) == out@ + filled(
                t@.skip(i as int),
                v,
            ));
        }
    }
    assert(out@ + Seq::<char>::empty() == out@);
    out
}

/// The prompt for a summary, with all placeholders filled.
pub open spec fn summary_prompt(
    goal: Seq<char>,
    lang: Seq<char>,
    max_chars: nat,
    transcript: Seq<char>,
) -> Seq<char> {
    filled(SUMMARIZATION_PROMPT@, PromptValues { goal, lang, max_chars, transcript })
}

/// Builds the summarisation prompt with all placeholders filled in a single
/// pass: a placeholder's name inside `goal` or `transcript` stays as it is.
pub fn build_prompt(goal: &str, lang: &str, max_chars: usize, transcript: &str) -> (r: String)
    ensures
        r@ == summary_prompt(goal@, lang@, max_chars as nat, transcript@),
{
    fill_template(SUMMARIZATION_PROMPT, goal, lang, max_chars, transcript)
}

/// Text without an opening brace is left as it is, and what follows it is
/// filled on its own.
pub proof fn law_literal_text_is_kept(a: Seq<char>, b: Seq<char>, v: PromptValues)
    requires
        !a.contains('{'),
    ensures
        filled(a + b, v) == a + filled(b, v),
    decreases a.len(),
{
    if a.len() == 0 {
        assert(a + b == b);
        assert(a + filled(b, v) == filled(b, v));
    } else {
        let d = a.drop_first();
        assert(a[0] != '{');
        assert(!d.contains('{')) by {
            assert forall|i: int| 0 <= i < d.len() implies d[i] != '{' by {
                assert(a[i + 1] != '{');
            }
        }
        law_literal_text_is_kept(d, b, v);
        assert((a + b).drop_first() == d + b);
        assert(seq![a[0]] + (d + filled(b, v)) == a + filled(b, v));
    }
}

/// A placeholder gives way to its text as it is, whatever that text holds, and
/// what follows is filled on its own.
pub proof fn law_filled_in_text_is_not_rescanned(
    name: Seq<char>,
    rest: Seq<char>,
    v: PromptValues,
)
    requires
        placeholder(name, v) is Some,
        !name.contains('}'),
    ensures
        filled(seq!['{'] + name + seq!['}'] + rest, v) == placeholder(name, v)->0 + filled(
            rest,
            v,
        ),
{
    let t = seq!['{'] + name + seq!['}'] + rest;
    let d = t.drop_first();
    assert(d =~= name + seq!['}'] + rest);
    lemma_char_at(d, '}');
    let n = name.len() as int;
    assert(d[n] == '}');
    match char_at(d, '}') {
        Some(k) => {
            if k < n {
                assert(name[k] == '}');
            }
            assert(k == n);
            assert(d.take(k) == name);
        },
        None => {
            assert(d.contains(d[n]));
        },
    }
    assert(brace_name(d) == name);
    if n + 2 < t.len() {
        assert(t.skip(n + 2) == rest);
    } else {
        assert(rest.len() == 0);
    }
}

// ---------------------------------------------------------------------------
// Language detection
// ---------------------------------------------------------------------------

/// A CJK ideograph, kana, hangul, or CJK punctuation, block by block: the
/// ideographs of the basic plane and of the two planes after it, the kana and
/// hangul with their extensions, the CJK symbols and the fullwidth forms.
pub open spec fn cjk(c: char) -> bool {
    let n = c as u32;
    ||| 0x4e00 <= n <= 0x9fff
    ||| 0x3400 <= n <= 0x4dbf
    ||| 0xf900 <= n <= 0xfaff
    ||| 0x3000 <= n <= 0x303f
    ||| 0xff00 <= n <= 0xffef
    ||| 0x3040 <= n <= 0x309f
    ||| 0x30a0 <= n <= 0x30ff
    ||| 0xac00 <= n <= 0xd7af
    ||| 0x20000 <= n <= 0x2fa1f
    ||| 0x30000 <= n <= 0x323af
    ||| 0x31f0 <= n <= 0x31ff
    ||| 0x1aff0 <= n <= 0x1b16f
    ||| 0x1100 <= n <= 0x11ff
    ||| 0x3130 <= n <= 0x318f
    ||| 0xa960 <= n <= 0xa97f
    ||| 0xd7b0 <= n <= 0xd7ff
}

/// Whether `c` is a CJK ideograph, kana, hangul, or CJK punctuation.
pub fn is_cjk(c: char) -> (r: bool)
    ensures
        r == cjk(c),
{
    let n: u32 = c as u32;
    (0x4e00 <= n && n <= 0x9fff) || (0x3400 <= n && n <= 0x4dbf) || (0xf900 <= n && n <= 0xfaff)
        || (0x3000 <= n && n <= 0x303f) || (0xff00 <= n && n <= 0xffef) || (0x3040 <= n && n
        <= 0x309f) || (0x30a0 <= n && n <= 0x30ff) || (0xac00 <= n && n <= 0xd7af) || (0x20000 <= n
        && n <= 0x2fa1f) || (0x30000 <= n && n <= 0x323af) || (0x31f0 <= n && n <= 0x31ff) || (
    0x1aff0 <= n && n <= 0x1b16f) || (0x1100 <= n && n <= 0x11ff) || (0x3130 <= n && n <= 0x318f)
        || (0xa960 <= n && n <= 0xa97f) || (0xd7b0 <= n && n <= 0xd7ff)
}

/// How many characters of `s` are not white space.
pub open spec fn meaningful_count(s: Seq<char>) -> nat
    decreases s.len(),
{
    if s.len() == 0 {
        0
    } else {
        meaningful_count(s.drop_last()) + (if is_space(s.last()) {
            0nat
        } else {
            1
        })
    }
}

/// How many characters of `s` are CJK and not white space.
pub open spec fn cjk_count(s: Seq<char>) -> nat
    decreases s.len(),
{
    if s.len() == 0 {
        0
    } else {
        cjk_count(s.drop_last()) + (if cjk(s.last()) && !is_space(s.last()) {
            1nat
        } else {
            0
        })
    }
}

/// Whether at least a fifth of the characters that are not white space are
/// CJK.
pub open spec fn mostly_cjk(s: Seq<char>) -> bool {
    meaningful_count(s) > 0 && cjk_count(s) * 5 >= meaningful_count(s)
}

/// The language instruction for the summary of `text`: the CJK one where at
/// least 20 % of the characters that are not white space are CJK.
pub fn language_instruction(text: &str) -> (r: &'static str)
    ensures
        r@ == if mostly_cjk(text@) {
            LANG_INSTRUCTION_CJK@
        } else {
            LANG_INSTRUCTION_DEFAULT@
        },
{
    let v = chars_of(text);
    let mut meaningful: u64 = 0;
    let mut found: u64 = 0;
    let mut i: usize = 0;
    while i < v.len()
        invariant
            i <= v@.len(),
            v@ == text@,
            meaningful == meaningful_count(text@.take(i as int)),
            found == cjk_count(text@.take(i as int)),
            found <= meaningful <= i,
        decreases v@.len() - i,
    {
        assert(text@.take(i + 1).drop_last() == text@.take(i as int));
        if !is_whitespace(v[i]) {
            meaningful += 1;
            if is_cjk(v[i]) {
                found += 1;
            }
        }
        i += 1;
    }
    assert(text@.take(text@.len() as int) == text@);
    if meaningful > 0 && (found as u128) * 5 >= (meaningful as u128) {
        LANG_INSTRUCTION_CJK
    } else {
        LANG_INSTRUCTION_DEFAULT
    }
}

// ---------------------------------------------------------------------------
// Output truncation
// ---------------------------------------------------------------------------

/// The characters kept from the front of a text that is cut down to `max`:
/// four fifths of what is left beside the separator.
pub open spec fn front_share(max: int) -> int {
    (max - 1) * 4 / 5
}

/// A text cut down to `max` characters: its front and its rear around an
/// ellipsis.
pub open spec fn truncated(s: Seq<char>, max: int) -> Seq<char> {
    if s.len() <= max {
        s
    } else if max == 0 {
        Seq::empty()
    } else {
        let rear = max - 1 - front_share(max);
        s.take(front_share(max)) + seq!['…'] + s.skip(s.len() - rear)
    }
}

/// Truncates a summary to `max_chars` (front 80 % + rear 20 %), keeping its
/// beginning and its end and dropping the middle.
pub fn truncate_summary_output(text: &str, max_chars: usize) -> (r: String)
    ensures
        r@ == truncated(text@, max_chars as int),
{
    let v = chars_of(text);
    if v.len() <= max_chars {
        return text.to_owned();
    }
    if max_chars == 0 {
        return String::new();
    }
    let budget: usize = max_chars - 1;
    let front: usize = (budget / 5) * 4 + (budget % 5) * 4 / 5;
    proof {
        let q = budget as int / 5;
        let m = budget as int % 5;
        assert(budget == 5 * q + m);
        assert(budget * 4 == 5 * (4 * q) + 4 * m);
        assert(front == 4 * q + 4 * m / 5);
        assert(front == front_share(max_chars as int));
    }
    let rear: usize = budget - front;
    let mut r = string_of(&v, 0, front);
    r.push('…');
    let tail = string_of(&v, v.len() - rear, v.len());
    r.append(tail.as_str());
    proof {
        assert(text@.take(front as int) == text@.subrange(0, front as int));
        assert(text@.skip(v@.len() - rear) == text@.subrange(v@.len() - rear, v@.len() as int));
        assert(r@ == text@.take(front as int) + seq!['…'] + text@.skip(text@.len() - rear));
    }
    r
}

/// A truncated text is never longer than asked for, and is exactly that long
/// where anything was dropped.
pub proof fn law_truncation_keeps_the_limit(s: Seq<char>, max: int)
    requires
        0 <= max,
    ensures
        truncated(s, max).len() <= max,
        s.len() > max ==> truncated(s, max).len() == max,
        s.len() <= max ==> truncated(s, max) == s,
{
}

// ---------------------------------------------------------------------------
// Asking for a summary
// ---------------------------------------------------------------------------

/// What the summarizing model is asked.
pub struct SummaryRequest {
    pub system_prompt: String,
    pub user_prompt: String,
}

/// A piece of a model's streamed answer.
pub enum StreamChunk {
    Text(String),
    Stop,
    /// Anything that holds no answer text.
    Other,
}

/// What a piece of the answer leads to.
pub enum ChunkStep {
    /// Report this many characters received so far.
    Progress(usize),
    /// The answer is complete.
    Done,
    /// Nothing.
    Ignore,
}

/// A summary while it is received.
pub struct Summary {
    pub text: String,
    pub max_chars: usize,
}

/// Starts a summary: nothing is asked for a summary of no characters.
pub fn summarize(transcript: &str, original_goal: &str, max_chars: usize) -> (r: Option<
    SummaryRequest,
>)
    ensures
        match r {
            None => max_chars == 0,
            Some(q) => {
                &&& max_chars > 0
                &&& q.system_prompt@ == SUMMARIZER_SYSTEM@
                &&& q.user_prompt@ == summary_prompt(
                    original_goal@,
                    if mostly_cjk(original_goal@ + "\n"@ + transcript@) {
                        LANG_INSTRUCTION_CJK@
                    } else {
                        LANG_INSTRUCTION_DEFAULT@
                    },
                    max_chars as nat,
                    transcript@,
                )
            },
        },
{
    if max_chars == 0 {
        return None;
    }
    let mut sample = original_goal.to_owned();
    sample.append("\n");
    sample.append(transcript);
    let lang = language_instruction(sample.as_str());
    Some(
        SummaryRequest {
            system_prompt: SUMMARIZER_SYSTEM.to_owned(),
            user_prompt: build_prompt(original_goal, lang, max_chars, transcript),
        },
    )
}

impl Summary {
    pub fn new(max_chars: usize) -> (r: Self)
        ensures
            r.text@ == Seq::<char>::empty(),
            r.max_chars == max_chars,
    {
        Summary { text: String::new(), max_chars }
    }

    /// Takes a piece of the answer in.
    pub fn take_chunk(&mut self, chunk: StreamChunk) -> (r: ChunkStep)
        ensures
            final(self).max_chars == old(self).max_chars,
            match chunk {
                StreamChunk::Text(t) => {
                    &&& final(self).text@ == old(self).text@ + t@
                    &&& r matches ChunkStep::Progress(n)
                    &&& n == final(self).text@.len()
                },
                StreamChunk::Stop => r is Done && *final(self) == *old(self),
                StreamChunk::Other => r is Ignore && *final(self) == *old(self),
            },
    {
        match chunk {
            StreamChunk::Text(t) => {
                self.text.append(t.as_str());
                let n: usize = self.text.as_str().unicode_len();
                ChunkStep::Progress(n)
            },
            StreamChunk::Stop => ChunkStep::Done,
            StreamChunk::Other => ChunkStep::Ignore,
        }
    }

    /// The summary, cut down to its limit.
    pub fn finish(self) -> (r: String)
        ensures
            r@ == truncated(self.text@, self.max_chars as int),
    {
        truncate_summary_output(self.text.as_str(), self.max_chars)
    }
}

// ---------------------------------------------------------------------------
// Laws on prompts, languages and lengths
// ---------------------------------------------------------------------------

/// Each placeholder gives way to its own value, whatever the others are, and
/// text between braces that is no placeholder's name stays.
pub proof fn law_placeholders_stand_for_their_values(v: PromptValues, rest: Seq<char>)
    ensures
        filled("{goal}"@ + rest, v) == v.goal + filled(rest, v),
        filled("{lang}"@ + rest, v) == v.lang + filled(rest, v),
        filled("{max_chars}"@ + rest, v) == decimal(v.max_chars) + filled(rest, v),
        filled("{transcript}"@ + rest, v) == v.transcript + filled(rest, v),
        filled(Seq::<char>::empty(), v).len() == 0,
{
    reveal_strlit("goal");
    reveal_strlit("lang");
    reveal_strlit("max_chars");
    reveal_strlit("transcript");
    reveal_strlit("{goal}");
    reveal_strlit("{lang}");
    reveal_strlit("{max_chars}");
    reveal_strlit("{transcript}");
    assert("goal"@[0] == 'g' && "lang"@[0] == 'l');
    assert("goal"@.len() == 4 && "lang"@.len() == 4);
    assert("max_chars"@.len() == 9 && "transcript"@.len() == 10);
    assert("{goal}"@ =~= seq!['{'] + "goal"@ + seq!['}']);
    assert("{lang}"@ =~= seq!['{'] + "lang"@ + seq!['}']);
    assert("{max_chars}"@ =~= seq!['{'] + "max_chars"@ + seq!['}']);
    assert("{transcript}"@ =~= seq!['{'] + "transcript"@ + seq!['}']);
    law_filled_in_text_is_not_rescanned("goal"@, rest, v);
    law_filled_in_text_is_not_rescanned("lang"@, rest, v);
    law_filled_in_text_is_not_rescanned("max_chars"@, rest, v);
    law_filled_in_text_is_not_rescanned("transcript"@, rest, v);
}

/// An opening brace before text that holds no placeholder's name up to the next
/// closing brace stays as it is.
pub proof fn law_other_braces_stay(name: Seq<char>, rest: Seq<char>, v: PromptValues)
    requires
        !name.contains('}'),
        !name.contains('{'),
        name != "goal"@,
        name != "lang"@,
        name != "max_chars"@,
        name != "transcript"@,
    ensures
        filled(seq!['{'] + name + seq!['}'] + rest, v) == seq!['{'] + name + seq!['}'] + filled(
            rest,
            v,
        ),
{
    let t = seq!['{'] + name + seq!['}'] + rest;
    let d = t.drop_first();
    let n = name.len() as int;
    assert(d =~= (name + seq!['}']) + rest);
    assert(d[n] == '}');
    assert forall|i: int| 0 <= i < n implies d[i] != '}' by {
        assert(d[i] == name[i]);
    }
    crate::text::lemma_char_at_is(d, '}', n);
    assert(brace_name(d) =~= name);
    let a = name + seq!['}'];
    assert(!a.contains('{')) by {
        assert forall|i: int| 0 <= i < a.len() implies a[i] != '{' by {
            if i < n {
                assert(a[i] == name[i]);
            }
        }
    }
    law_literal_text_is_kept(a, rest, v);
    assert(seq!['{'] + (a + filled(rest, v)) =~= seq!['{'] + name + seq!['}'] + filled(rest, v));
}

/// The summary prompt is the template filled with the goal, the language
/// instruction, the limit and the transcript of this call.
pub proof fn law_summary_prompt_is_the_template_filled(
    goal: Seq<char>,
    lang: Seq<char>,
    max_chars: nat,
    transcript: Seq<char>,
)
    ensures
        summary_prompt(goal, lang, max_chars, transcript) == filled(
            SUMMARIZATION_PROMPT@,
            PromptValues { goal, lang, max_chars, transcript },
        ),
{
}

/// White space does not count towards the language; every other character
/// counts once, and as CJK where it is one of the ideographs, kana, hangul,
/// symbols or fullwidth forms.
pub proof fn law_language_counts(a: Seq<char>, b: Seq<char>, c: char)
    ensures
        meaningful_count(a + b) == meaningful_count(a) + meaningful_count(b),
        cjk_count(a + b) == cjk_count(a) + cjk_count(b),
        is_space(c) ==> meaningful_count(seq![c]) == 0 && cjk_count(seq![c]) == 0,
        !is_space(c) ==> meaningful_count(seq![c]) == 1,
        !is_space(c) && ('\u{4e00}' <= c <= '\u{9fff}' || '\u{3400}' <= c <= '\u{4dbf}'
            || '\u{f900}' <= c <= '\u{faff}' || '\u{3000}' <= c <= '\u{303f}' || '\u{ff00}' <= c
            <= '\u{ffef}' || '\u{3040}' <= c <= '\u{30ff}' || '\u{ac00}' <= c <= '\u{d7af}'
            || '\u{20000}' <= c <= '\u{2fa1f}' || '\u{30000}' <= c <= '\u{323af}') ==> cjk_count(
            seq![c],
        ) == 1,
        c < '\u{1100}' ==> cjk_count(seq![c]) == 0,
        '\u{1200}' <= c < '\u{3000}' ==> cjk_count(seq![c]) == 0,
    decreases b.len(),
{
    reveal_with_fuel(meaningful_count, 2);
    reveal_with_fuel(cjk_count, 2);
    assert(seq![c].drop_last() =~= Seq::<char>::empty());
    if b.len() == 0 {
        assert(a + b =~= a);
    } else {
        law_language_counts(a, b.drop_last(), c);
        assert((a + b).drop_last() =~= a + b.drop_last());
        assert((a + b).last() == b.last());
    }
}

/// The CJK instruction is given exactly when a fifth or more of the characters
/// that are not white space are CJK, and there are any.
pub proof fn law_language_threshold(s: Seq<char>)
    ensures
        mostly_cjk(s) <==> meaningful_count(s) > 0 && 5 * cjk_count(s) >= meaningful_count(s),
{
}

/// A text that is cut keeps a front and a rear of itself, as they are, with one
/// ellipsis between them; the front is four fifths of the room, rounded down.
pub proof fn law_truncation_keeps_both_ends(s: Seq<char>, max: int)
    requires
        0 < max < s.len(),
    ensures
        ({
            let t = truncated(s, max);
            let f = 4 * (max - 1) / 5;
            &&& t.take(f) == s.take(f)
            &&& t[f] == '…'
            &&& t.skip(f + 1) == s.skip(s.len() - (max - 1 - f))
        }),
{
    let t = truncated(s, max);
    let f = 4 * (max - 1) / 5;
    assert(front_share(max) == f) by (nonlinear_arith)
        requires
            f == 4 * (max - 1) / 5,
            front_share(max) == (max - 1) * 4 / 5,
    {
    }
    assert(t.take(f) =~= s.take(f));
    assert(t.skip(f + 1) =~= s.skip(s.len() - (max - 1 - f)));
}

/// CJK are the ideographs, the kana, the hangul and their letters, the CJK
/// symbols and the fullwidth forms, each of their blocks whole and no other
/// character.
pub proof fn law_which_characters_are_cjk(c: char)
    ensures
        cjk(c) <==> {
            ||| '\u{1100}' <= c <= '\u{11ff}'
            ||| '\u{3000}' <= c <= '\u{30ff}'
            ||| '\u{3130}' <= c <= '\u{318f}'
            ||| '\u{31f0}' <= c <= '\u{31ff}'
            ||| '\u{3400}' <= c <= '\u{4dbf}'
            ||| '\u{4e00}' <= c <= '\u{9fff}'
            ||| '\u{a960}' <= c <= '\u{a97f}'
            ||| '\u{ac00}' <= c <= '\u{d7ff}'
            ||| '\u{f900}' <= c <= '\u{faff}'
            ||| '\u{ff00}' <= c <= '\u{ffef}'
            ||| '\u{1aff0}' <= c <= '\u{1b16f}'
            ||| '\u{20000}' <= c <= '\u{2fa1f}'
            ||| '\u{30000}' <= c <= '\u{323af}'
        },
{
}

} // verus!
