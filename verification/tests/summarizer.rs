use agent_works::compression::summarizer::{
    build_prompt, fill_template, is_cjk, language_instruction, summarize, truncate_summary_output,
    ChunkStep, StreamChunk, Summary, LANG_INSTRUCTION_CJK, LANG_INSTRUCTION_DEFAULT,
};

// ── language_instruction ──

#[test]
fn test_language_instruction_cjk() {
    assert_eq!(
        language_instruction("用户问了关于日志分析的问题，发现了5次操作"),
        LANG_INSTRUCTION_CJK
    );
}

#[test]
fn test_language_instruction_english() {
    assert_eq!(
        language_instruction("The user asked about log analysis, found 5 operations"),
        LANG_INSTRUCTION_DEFAULT
    );
}

#[test]
fn test_language_instruction_mostly_latin_with_some_cjk() {
    assert_eq!(
        language_instruction("The user asked about 日志 analysis of the system"),
        LANG_INSTRUCTION_DEFAULT
    );
}

#[test]
fn test_language_instruction_mixed_heavy_cjk() {
    assert_eq!(
        language_instruction("分析日志时发现 operations 有5次 user asked 分析"),
        LANG_INSTRUCTION_CJK
    );
}

#[test]
fn test_language_instruction_empty() {
    assert_eq!(language_instruction(""), LANG_INSTRUCTION_DEFAULT);
}

#[test]
fn test_language_instruction_whitespace_only() {
    assert_eq!(language_instruction("   \n\t  "), LANG_INSTRUCTION_DEFAULT);
}

#[test]
fn test_language_instruction_hangul() {
    assert_eq!(
        language_instruction("사용자가 로그 분석에 대해 물었습니다"),
        LANG_INSTRUCTION_CJK
    );
}

#[test]
fn ideographs_of_all_planes_count() {
    for c in ['\u{20000}', '\u{2a700}', '\u{2f800}', '\u{30000}', '\u{323af}', '\u{31f0}', '\u{1100}'] {
        assert!(is_cjk(c), "{c:?}");
    }
    for c in ['a', '\u{1f600}', '\u{2fa20}', '\u{323b0}', '\u{1ffff}'] {
        assert!(!is_cjk(c), "{c:?}");
    }
}

#[test]
fn a_fifth_is_enough() {
    assert_eq!(language_instruction("abcd日"), LANG_INSTRUCTION_CJK);
    assert_eq!(language_instruction("abcde日"), LANG_INSTRUCTION_DEFAULT);
    assert!(is_cjk('か') && is_cjk('カ') && is_cjk('Ａ') && !is_cjk('a'));
}

// ── truncate_summary_output ──

#[test]
fn test_truncate_short_text() {
    assert_eq!(truncate_summary_output("short", 100), "short");
}

#[test]
fn test_truncate_long_text_preserves_ends() {
    let text = "a".repeat(500) + "TAIL";
    let result = truncate_summary_output(&text, 100);
    assert!(result.chars().count() <= 100);
    assert!(result.starts_with('a'));
    assert!(result.contains("TAIL"));
    assert!(result.contains('…'));
}

#[test]
fn test_truncate_exact_boundary() {
    let text = "x".repeat(100);
    assert_eq!(truncate_summary_output(&text, 100), text);
}

#[test]
fn test_truncate_zero() {
    assert_eq!(truncate_summary_output("anything", 0), "");
}

/// The share of the front is the four fifths that a multiplication by 0.8
/// gives.
#[test]
fn the_front_gets_four_fifths() {
    assert_eq!(truncate_summary_output("0123456789abcdef", 11), "01234567…ef");
    assert_eq!(truncate_summary_output("0123456789", 1), "…");
    let text = "x".repeat(3000);
    for max in 1..2000usize {
        let out = truncate_summary_output(&text, max);
        let front = out.chars().position(|c| c == '…').unwrap();
        assert_eq!(front, ((max - 1) as f64 * 0.8) as usize);
        assert_eq!(out.chars().count(), max);
    }
}

// ── build_prompt ──

#[test]
fn test_build_prompt_all_placeholders_filled() {
    let prompt = build_prompt("fix the bug", LANG_INSTRUCTION_CJK, 5000, "user: hello");
    assert!(prompt.contains("fix the bug"));
    assert!(prompt.contains("CJK detected"));
    assert!(prompt.contains("5000"));
    assert!(prompt.contains("user: hello"));
    // No unfilled placeholders.
    assert!(!prompt.contains("{goal}"));
    assert!(!prompt.contains("{lang}"));
    assert!(!prompt.contains("{transcript}"));
    assert!(!prompt.contains("{max_chars}"));
}

#[test]
fn test_build_prompt_goal_with_placeholder_literals_not_polluted() {
    // goal contains literal {lang} and {max_chars} — must NOT be replaced.
    let goal = "按 {lang} 字段分组，max={max_chars}";
    let prompt = build_prompt(goal, LANG_INSTRUCTION_CJK, 5000, "data");
    assert!(
        prompt.contains("按 {lang} 字段分组，max={max_chars}"),
        "literal placeholders in goal must survive: {prompt}"
    );
    // The actual {lang} and {max_chars} placeholders should still be filled.
    assert!(prompt.contains("CJK detected"));
    assert!(prompt.contains("5000"));
}

#[test]
fn test_build_prompt_transcript_with_goal_placeholder_not_polluted() {
    let transcript = "user: use {goal} as the key";
    let prompt = build_prompt("real goal", LANG_INSTRUCTION_DEFAULT, 1000, transcript);
    assert!(
        prompt.contains("use {goal} as the key"),
        "literal {{goal}} in transcript must survive: {prompt}"
    );
    assert!(prompt.contains("real goal"));
}

#[test]
fn other_braces_stay() {
    assert_eq!(fill_template("a {x} {goal} {", "G", "L", 7, "T"), "a {x} G {");
    assert_eq!(fill_template("{{goal}}", "{goal}", "L", 7, "T"), "{{goal}}");
    assert_eq!(fill_template("{max_chars}{transcript", "G", "L", 7, "T"), "7T");
}

// ── summarize ──

#[test]
fn test_summarize_prompt_contains_goal_and_lang() {
    let q = summarize("tool output here", "分析服务器日志中的延迟问题", 5000).unwrap();
    assert!(q.user_prompt.contains("分析服务器日志中的延迟问题"));
    assert!(q.user_prompt.contains("CJK detected"));
    assert!(q.user_prompt.ends_with("=== ASSISTANT AND TOOL RESPONSES ===\ntool output here"));
    assert!(q.system_prompt.contains("conversation summarizer"));
}

#[test]
fn test_summarize_max_chars_zero() {
    // Should not even call the LLM.
    assert!(summarize("t", "g", 0).is_none());
    let mut s = Summary::new(0);
    s.take_chunk(StreamChunk::Text("ignored".to_string()));
    assert!(s.finish().is_empty());
}

#[test]
fn no_summary_is_asked_for_no_characters() {
    assert!(summarize("t", "g", 0).is_none());
}

#[test]
fn a_summary_is_collected_and_cut() {
    let mut s = Summary::new(6);
    assert!(matches!(s.take_chunk(StreamChunk::Text("日本".to_string())), ChunkStep::Progress(2)));
    assert!(matches!(s.take_chunk(StreamChunk::Other), ChunkStep::Ignore));
    assert!(matches!(
        s.take_chunk(StreamChunk::Text("abcdef".to_string())),
        ChunkStep::Progress(8)
    ));
    assert!(matches!(s.take_chunk(StreamChunk::Stop), ChunkStep::Done));
    assert_eq!(s.finish(), "日本ab…f");
}
