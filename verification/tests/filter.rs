use tmzgua::filter::is_eligible;

#[test]
fn plain_text_is_eligible() {
    assert!(is_eligible("hello there"));
    assert!(is_eligible(""));
    assert!(is_eligible("Hello, world! 123"));
    assert!(is_eligible("a < b and c > d"));
    assert!(is_eligible("ticks `like this` are fine"));
    assert!(is_eligible("double ``ticks`` too"));
}

#[test]
fn urls_are_rejected() {
    assert!(!is_eligible("see http://example.com for more"));
    assert!(!is_eligible("https://a"));
    assert!(!is_eligible("ftp://files.example.org/x"));
    assert!(!is_eligible("telnet://host"));
    assert!(!is_eligible("news://group"));
    assert!(!is_eligible("mms://stream"));
}

#[test]
fn url_scheme_match_is_case_insensitive() {
    assert!(!is_eligible("HTTP://EXAMPLE.COM"));
    assert!(!is_eligible("HtTpS://x"));
    assert!(!is_eligible("MMS://m"));
}

#[test]
fn url_needs_some_body() {
    // nothing speakable follows the separator
    assert!(is_eligible("http:// is how urls start"));
    assert!(is_eligible("http:/x"));
    assert!(is_eligible("http//x"));
    assert!(is_eligible("ht tp://x"));
}

#[test]
fn code_blocks_are_rejected() {
    assert!(!is_eligible("```rust\nfn main() {}\n```"));
    assert!(!is_eligible("before ```x``` after"));
    // seven backticks hold one character between two fences
    assert!(!is_eligible("```````"));
}

#[test]
fn unclosed_or_empty_fences_are_eligible() {
    assert!(is_eligible("``` open fence"));
    // six backticks leave nothing between the fences
    assert!(is_eligible("``````"));
}

#[test]
fn user_mentions_are_rejected() {
    assert!(!is_eligible("<@123>"));
    assert!(!is_eligible("hi <@1> there"));
}

#[test]
fn malformed_mentions_are_eligible() {
    assert!(is_eligible("<@>"));
    assert!(is_eligible("<@12a>"));
    assert!(is_eligible("<@ 12>"));
    assert!(is_eligible("< @12>"));
}

#[test]
fn channel_mentions_are_rejected() {
    assert!(!is_eligible("<#55>"));
    assert!(!is_eligible("go to <#900> please"));
}

#[test]
fn emoji_names_may_be_unicode_word_text() {
    assert!(!is_eligible("<:한글:123>"));
    assert!(!is_eligible("<a:日本語:55>"));
    assert!(!is_eligible("look <:émoji:9>"));
    // punctuation is not word text, so this is no emoji token
    assert!(is_eligible("<:…:123>"));
}

#[test]
fn unicode_whitespace_terminates_a_url() {
    // a no-break space right after the separator leaves no URL body
    assert!(is_eligible("http://\u{a0} nothing follows"));
    assert!(!is_eligible("http://a\u{a0}tail"));
}

#[test]
fn custom_emoji_are_rejected() {
    assert!(!is_eligible("<:smile:123>"));
    assert!(!is_eligible("look <:party_parrot:4567> !"));
    // animated variant, one word character before the name
    assert!(!is_eligible("<a:DDo:1055872203473825852>"));
}

#[test]
fn short_emoji_references_are_rejected() {
    assert!(!is_eligible("<:123>"));
    assert!(!is_eligible("<a:1>"));
}

#[test]
fn emoji_like_but_malformed_is_eligible() {
    assert!(is_eligible("<::123>"));
    assert!(is_eligible("<:smile:>"));
    assert!(is_eligible("<ab:123>"));
    assert!(is_eligible("a:b <not an emoji>"));
}

#[test]
fn filter_is_pure_same_input_same_output() {
    let text = "mixed http://u and <@1>";
    let first = is_eligible(text);
    for _ in 0..10 {
        assert_eq!(is_eligible(text), first);
    }
    assert!(!first);
}
