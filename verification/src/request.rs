//! Synthesis request construction: the endpoint parameterized by the
//! region, the four request headers, the document body as bytes, and a
//! streaming source that hands the body to the transport chunk by chunk.

use crate::markup::{get_ssml, ssml_doc};
use crate::segment::Segment;
use vstd::math::min;
use vstd::prelude::*;
use vstd::string::*;
use vstd::utf8::encode_utf8;

verus! {

/// Credentials for the speech service, supplied externally before any
/// segment is processed and read-only for the lifetime of the run.
pub struct SpeechApiConfig {
    pub speech_key: String,
    pub speech_region: String,
}

/// The service endpoint for `region`.
pub open spec fn endpoint_url_spec(region: Seq<char>) -> Seq<char> {
    "https://"@ + region + ".tts.speech.microsoft.com/cognitiveservices/v1"@
}

/// Build the endpoint URL for `region`.
pub fn endpoint_url(region: &str) -> (url: String)
    ensures
        url@ == endpoint_url_spec(region@),
{
    let mut url = "https://".to_owned();
    url.append(region);
    url.append(".tts.speech.microsoft.com/cognitiveservices/v1");
    proof {
        assert(url@ =~= endpoint_url_spec(region@));
    }
    url
}

/// The header carrying the subscription credential.
pub open spec fn subscription_header_spec(key: Seq<char>) -> Seq<char> {
    "Ocp-Apim-Subscription-Key: "@ + key
}

/// The four request headers: subscription credential, content type of the
/// markup format, desired output audio encoding, and the client agent.
pub open spec fn headers_spec(key: Seq<char>) -> Seq<Seq<char>> {
    seq![
        subscription_header_spec(key),
        "Content-Type: application/ssml+xml"@,
        "X-Microsoft-OutputFormat: audio-16khz-128kbitrate-mono-mp3"@,
        "User-Agent: curl"@,
    ]
}

/// Assemble the request headers for subscription key `key`.
pub fn request_headers(key: &str) -> (hs: Vec<String>)
    ensures
        hs@.map_values(|h: String| h@) == headers_spec(key@),
{
    let mut hs: Vec<String> = Vec::new();
    let mut sub = "Ocp-Apim-Subscription-Key: ".to_owned();
    sub.append(key);
    hs.push(sub);
    hs.push("Content-Type: application/ssml+xml".to_owned());
    hs.push("X-Microsoft-OutputFormat: audio-16khz-128kbitrate-mono-mp3".to_owned());
    hs.push("User-Agent: curl".to_owned());
    proof {
        assert(hs@.map_values(|h: String| h@) =~= headers_spec(key@));
    }
    hs
}

/// One synthesis exchange, fully determined before it is performed: the
/// endpoint, the headers, and the document body as bytes.
pub struct SynthesisRequest {
    pub url: String,
    pub headers: Vec<String>,
    pub body: Vec<u8>,
}

/// The mathematical content of a [`SynthesisRequest`].
pub ghost struct RequestView {
    pub url: Seq<char>,
    pub headers: Seq<Seq<char>>,
    pub body: Seq<u8>,
}

impl View for SynthesisRequest {
    type V = RequestView;

    open spec fn view(&self) -> RequestView {
        RequestView {
            url: self.url@,
            headers: self.headers@.map_values(|h: String| h@),
            body: self.body@,
        }
    }
}

/// The request that credentials `key`/`region` and a segment of `voice`
/// and `text` determine.
pub open spec fn request_spec(
    key: Seq<char>,
    region: Seq<char>,
    voice: Seq<char>,
    text: Seq<char>,
) -> RequestView {
    RequestView {
        url: endpoint_url_spec(region),
        headers: headers_spec(key),
        body: encode_utf8(ssml_doc(text, voice)),
    }
}

/// Build the full request for one segment.
pub fn build_request(config: &SpeechApiConfig, seg: &Segment) -> (req: SynthesisRequest)
    ensures
        req@ == request_spec(config.speech_key@, config.speech_region@, seg.voice@, seg.text@),
{
    let ssml = get_ssml(seg.text.as_str(), seg.voice.as_str());
    let body = ssml.as_str().as_bytes_vec();
    let req = SynthesisRequest {
        url: endpoint_url(config.speech_region.as_str()),
        headers: request_headers(config.speech_key.as_str()),
        body,
    };
    proof {
        assert(req@ =~= request_spec(
            config.speech_key@,
            config.speech_region@,
            seg.voice@,
            seg.text@,
        ));
    }
    req
}

/// Streams the request body to the transport. The body is produced
/// incrementally: each read hands out the next chunk with an explicit byte
/// count, and an empty chunk signals the end of the stream.
pub struct BodySource {
    data: Vec<u8>,
    pos: usize,
}

impl BodySource {
    /// The whole body this source streams.
    pub closed spec fn data_spec(&self) -> Seq<u8> {
        self.data@
    }

    /// How many bytes have been handed out so far.
    pub closed spec fn pos_spec(&self) -> int {
        self.pos as int
    }

    pub open spec fn wf(&self) -> bool {
        0 <= self.pos_spec() <= self.data_spec().len()
    }

    /// A source positioned at the start of `data`.
    pub fn new(data: Vec<u8>) -> (s: Self)
        ensures
            s.wf(),
            s.data_spec() == data@,
            s.pos_spec() == 0,
    {
        BodySource { data, pos: 0 }
    }

    /// Hand out the next chunk of at most `max` bytes: exactly the bytes of
    /// the body from the current position, in order. The chunk is empty
    /// exactly when the body is exhausted or `max` is zero.
    pub fn read_chunk(&mut self, max: usize) -> (chunk: Vec<u8>)
        requires
            old(self).wf(),
        ensures
            final(self).wf(),
            final(self).data_spec() == old(self).data_spec(),
            final(self).pos_spec() == min(
                old(self).pos_spec() + max as int,
                old(self).data_spec().len() as int,
            ),
            chunk@ == old(self).data_spec().subrange(old(self).pos_spec(), final(self).pos_spec()),
    {
        let avail = self.data.len() - self.pos;
        let take = if max < avail {
            max
        } else {
            avail
        };
        let mut chunk: Vec<u8> = Vec::new();
        let mut k: usize = 0;
        assert(chunk@ =~= self.data@.subrange(self.pos as int, self.pos as int));
        while k < take
            invariant
                0 <= k <= take,
                self.pos + take <= self.data.len(),
                chunk@ == self.data@.subrange(self.pos as int, self.pos as int + k as int),
            decreases take - k,
        {
            chunk.push(self.data[self.pos + k]);
            k = k + 1;
            proof {
                assert(chunk@ =~= self.data@.subrange(
                    self.pos as int,
                    self.pos as int + k as int,
                ));
            }
        }
        self.pos = self.pos + take;
        chunk
    }
}

} // verus!
