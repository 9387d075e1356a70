use tts_pipeline::scanner::scan_directive;
use tts_pipeline::segment::{default_voice_id, process_line, process_script, Segment};
use tts_pipeline::text::trim;

fn segs(lines: &[&str]) -> Vec<Segment> {
    let lines: Vec<String> = lines.iter().map(|l| l.to_string()).collect();
    process_script(&lines)
}

fn pairs(lines: &[&str]) -> Vec<(String, String)> {
    segs(lines).into_iter().map(|s| (s.voice, s.text)).collect()
}

#[test]
fn scenario_from_the_design() {
    let got = pairs(&[
        "[en-US-GuyNeural]Hello world",
        "Second line same voice",
        "",
        "[en-GB-LibbyNeural]Cheerio",
    ]);
    let want = vec![
        ("en-US-GuyNeural".to_string(), "Hello world".to_string()),
        ("en-US-GuyNeural".to_string(), "Second line same voice".to_string()),
        ("en-GB-LibbyNeural".to_string(), "Cheerio".to_string()),
    ];
    assert!(got == want);
}

#[test]
fn default_voice_before_any_directive() {
    let got = pairs(&["Hello"]);
    assert!(got.len() == 1);
    assert!(got[0].0.as_str() == "en-US-JennyNeural");
    assert!(got[0].1.as_str() == "Hello");
    assert!(default_voice_id().as_str() == "en-US-JennyNeural");
}

#[test]
fn voice_persists_until_next_directive() {
    let got = pairs(&["[voice-A_1]one", "two", "[voice-B]three", "four"]);
    assert!(got.len() == 4);
    assert!(got[0].0.as_str() == "voice-A_1");
    assert!(got[1].0.as_str() == "voice-A_1");
    assert!(got[2].0.as_str() == "voice-B");
    assert!(got[3].0.as_str() == "voice-B");
}

#[test]
fn inner_bracket_is_literal_text() {
    let got = pairs(&["say [en-US-GuyNeural] now"]);
    assert!(got.len() == 1);
    assert!(got[0].0.as_str() == "en-US-JennyNeural");
    assert!(got[0].1.as_str() == "say [en-US-GuyNeural] now");
}

#[test]
fn leading_space_keeps_bracket_literal() {
    let got = pairs(&[" [en-US-GuyNeural]still literal"]);
    assert!(got.len() == 1);
    assert!(got[0].0.as_str() == "en-US-JennyNeural");
    assert!(got[0].1.as_str() == "[en-US-GuyNeural]still literal");
}

#[test]
fn directive_only_line_switches_but_emits_nothing() {
    let got = pairs(&["[en-GB-LibbyNeural]", "hi"]);
    let want = vec![("en-GB-LibbyNeural".to_string(), "hi".to_string())];
    assert!(got == want);
}

#[test]
fn directive_followed_by_spaces_emits_nothing() {
    let got = pairs(&["[en-GB-LibbyNeural]   \t ", "hi"]);
    let want = vec![("en-GB-LibbyNeural".to_string(), "hi".to_string())];
    assert!(got == want);
}

#[test]
fn blank_lines_emit_nothing() {
    assert!(segs(&["", "   ", "\t", " \r "]).is_empty());
}

#[test]
fn segment_text_is_trimmed() {
    let got = pairs(&["[en-US-GuyNeural]   padded   "]);
    assert!(got.len() == 1);
    assert!(got[0].1.as_str() == "padded");
}

#[test]
fn scan_finds_anchored_directive() {
    let r = scan_directive("[en-US-GuyNeural]Hello");
    let (voice, rest) = r.unwrap();
    assert!(voice.as_str() == "en-US-GuyNeural");
    assert!(rest.as_str() == "Hello");
}

#[test]
fn scan_accepts_word_chars_and_hyphens() {
    let (voice, rest) = scan_directive("[ab-C_9]rest of line").unwrap();
    assert!(voice.as_str() == "ab-C_9");
    assert!(rest.as_str() == "rest of line");
}

#[test]
fn scan_rejects_unanchored_or_malformed() {
    assert!(scan_directive("").is_none());
    assert!(scan_directive("[").is_none());
    assert!(scan_directive("[]").is_none());
    assert!(scan_directive("[abc").is_none());
    assert!(scan_directive("[a b]c").is_none());
    assert!(scan_directive("hello [en-US-GuyNeural]").is_none());
    assert!(scan_directive(" [en-US-GuyNeural]x").is_none());
}

#[test]
fn process_line_threads_the_state() {
    let (v1, s1) = process_line(default_voice_id(), "[en-GB-LibbyNeural]");
    assert!(v1.as_str() == "en-GB-LibbyNeural");
    assert!(s1.is_none());
    let (v2, s2) = process_line(v1, "Cheerio");
    assert!(v2.as_str() == "en-GB-LibbyNeural");
    let seg = s2.unwrap();
    assert!(seg.voice.as_str() == "en-GB-LibbyNeural");
    assert!(seg.text.as_str() == "Cheerio");
}

#[test]
fn trim_removes_edges_only() {
    assert!(trim("  a b  ").as_str() == "a b");
    assert!(trim("").as_str() == "");
    assert!(trim("   ").as_str() == "");
    assert!(trim("\t x\r\n").as_str() == "x");
    assert!(trim("no-padding").as_str() == "no-padding");
}
