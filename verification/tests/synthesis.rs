use tts_pipeline::markup::get_ssml;
use tts_pipeline::request::{
    build_request, endpoint_url, request_headers, BodySource, SpeechApiConfig, SynthesisRequest,
};
use tts_pipeline::run::SynthesisRun;
use tts_pipeline::segment::Segment;

fn expected_ssml(text: &str, voice_id: &str) -> String {
    format!(
        "<speak version='1.0' xml:lang='en-US'>\n            <voice xml:lang='en-US' xml:gender='Female' name='{}'>\n                {}\n            </voice>\n        </speak>",
        voice_id, text,
    )
}

fn config() -> SpeechApiConfig {
    SpeechApiConfig {
        speech_key: "SECRET-REDACTED".to_string(),
        speech_region: "westus".to_string(),
    }
}

fn lines(ls: &[&str]) -> Vec<String> {
    ls.iter().map(|l| l.to_string()).collect()
}

/// Drive a whole run, answering every request with `synth`, and return the
/// final buffer together with the requests seen, in order.
fn drive(ls: &[&str], synth: impl Fn(&SynthesisRequest) -> Vec<u8>) -> (Vec<u8>, Vec<Vec<u8>>) {
    let mut run = SynthesisRun::new(config(), &lines(ls));
    let mut bodies = Vec::new();
    while run.remaining() > 0 {
        let req = run.begin_exchange();
        let resp = synth(&req);
        bodies.push(req.body.clone());
        run.append_chunk(&resp);
        run.end_exchange();
    }
    (run.into_buffer(), bodies)
}

#[test]
fn ssml_has_the_exact_envelope() {
    let got = get_ssml("Hello world", "en-US-GuyNeural");
    assert!(got == expected_ssml("Hello world", "en-US-GuyNeural"));
}

#[test]
fn ssml_passes_text_through_unescaped() {
    let got = get_ssml("a <b> & 'c'", "v-1");
    assert!(got == expected_ssml("a <b> & 'c'", "v-1"));
    assert!(got.contains("a <b> & 'c'"));
}

#[test]
fn endpoint_is_parameterized_by_region() {
    let got = endpoint_url("westus");
    assert!(got.as_str() == "https://westus.tts.speech.microsoft.com/cognitiveservices/v1");
}

#[test]
fn headers_are_exactly_the_four() {
    let hs = request_headers("SECRET-REDACTED");
    let want = vec![
        "Ocp-Apim-Subscription-Key: SECRET-REDACTED".to_string(),
        "Content-Type: application/ssml+xml".to_string(),
        "X-Microsoft-OutputFormat: audio-16khz-128kbitrate-mono-mp3".to_string(),
        "User-Agent: curl".to_string(),
    ];
    assert!(hs == want);
}

#[test]
fn request_carries_url_headers_and_document() {
    let seg = Segment { voice: "en-US-GuyNeural".to_string(), text: "Hello".to_string() };
    let req = build_request(&config(), &seg);
    assert!(req.url.as_str() == "https://westus.tts.speech.microsoft.com/cognitiveservices/v1");
    assert!(req.headers.len() == 4);
    assert!(req.body == expected_ssml("Hello", "en-US-GuyNeural").into_bytes());
}

#[test]
fn body_source_streams_in_order() {
    let data: Vec<u8> = (0u8..10).collect();
    let mut source = BodySource::new(data.clone());
    let mut got: Vec<u8> = Vec::new();
    loop {
        let chunk = source.read_chunk(3);
        if chunk.is_empty() {
            break;
        }
        assert!(chunk.len() <= 3);
        got.extend_from_slice(&chunk);
    }
    assert!(got == data);
}

#[test]
fn body_source_ends_with_empty_chunk() {
    let mut source = BodySource::new(vec![1, 2]);
    assert!(source.read_chunk(5) == vec![1, 2]);
    assert!(source.read_chunk(5).is_empty());
    assert!(source.read_chunk(5).is_empty());
}

#[test]
fn buffer_is_ordered_concatenation_of_responses() {
    // Answer request number n with n+1 copies of the first body byte.
    let mut n: u8 = 0;
    let script = [
        "[en-US-GuyNeural]Hello world",
        "Second line same voice",
        "",
        "[en-GB-LibbyNeural]Cheerio",
    ];
    let mut run = SynthesisRun::new(config(), &lines(&script));
    let mut expected: Vec<u8> = Vec::new();
    while run.remaining() > 0 {
        let req = run.begin_exchange();
        n += 1;
        let resp = vec![req.body[0]; n as usize];
        expected.extend_from_slice(&resp);
        run.append_chunk(&resp);
        run.end_exchange();
    }
    assert!(n == 3);
    assert!(run.into_buffer() == expected);
}

#[test]
fn responses_arriving_in_chunks_land_in_order() {
    let mut run = SynthesisRun::new(config(), &lines(&["one", "two"]));
    let req = run.begin_exchange();
    assert!(!req.body.is_empty());
    run.append_chunk(&[1, 2]);
    run.append_chunk(&[3]);
    run.end_exchange();
    let _ = run.begin_exchange();
    run.append_chunk(&[4, 5]);
    run.end_exchange();
    assert!(run.remaining() == 0);
    assert!(run.into_buffer() == vec![1, 2, 3, 4, 5]);
}

#[test]
fn requests_follow_the_segments_in_order() {
    let script = [
        "[en-US-GuyNeural]Hello world",
        "Second line same voice",
        "",
        "[en-GB-LibbyNeural]Cheerio",
    ];
    let (_, bodies) = drive(&script, |_| vec![0]);
    let want = vec![
        expected_ssml("Hello world", "en-US-GuyNeural").into_bytes(),
        expected_ssml("Second line same voice", "en-US-GuyNeural").into_bytes(),
        expected_ssml("Cheerio", "en-GB-LibbyNeural").into_bytes(),
    ];
    assert!(bodies == want);
}

#[test]
fn blank_script_makes_no_request_and_no_bytes() {
    let (buf, bodies) = drive(&["", "   ", "[en-GB-LibbyNeural]", "\t"], |_| vec![7]);
    assert!(bodies.is_empty());
    assert!(buf.is_empty());
}

#[test]
fn rerun_with_pure_synth_is_identical() {
    let script = [
        "[en-US-GuyNeural]Hello world",
        "mixed [not-a-directive] text",
        "[en-GB-LibbyNeural]Cheerio",
        "",
        "last",
    ];
    // A pure function of the request: echo the document bytes, reversed.
    let synth = |req: &SynthesisRequest| {
        let mut r = req.body.clone();
        r.reverse();
        r
    };
    let (first, _) = drive(&script, synth);
    let (second, _) = drive(&script, synth);
    assert!(!first.is_empty());
    assert!(first == second);
}
