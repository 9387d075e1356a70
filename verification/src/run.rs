//! The synthesis run: one blocking exchange per segment, in line order,
//! with every response's bytes appended to a single growing audio buffer.
//! The network exchange itself is the caller's: the run hands out the next
//! request, receives the response bytes chunk by chunk, and keeps the
//! accumulator's order invariant.

use crate::request::{build_request, request_spec, RequestView, SpeechApiConfig, SynthesisRequest};
use crate::segment::{
    default_voice, lemma_blank_line, line_text, process_script, segments, Segment,
};
use vstd::prelude::*;

verus! {

/// The ordered concatenation of a sequence of byte chunks.
pub open spec fn concat_bytes(chunks: Seq<Seq<u8>>) -> Seq<u8>
    decreases chunks.len(),
{
    if chunks.len() == 0 {
        Seq::empty()
    } else {
        concat_bytes(chunks.drop_last()) + chunks.last()
    }
}

pub proof fn lemma_concat_bytes_push(chunks: Seq<Seq<u8>>, c: Seq<u8>)
    ensures
        concat_bytes(chunks.push(c)) == concat_bytes(chunks) + c,
{
    assert(chunks.push(c).drop_last() =~= chunks);
    assert(chunks.push(c).last() == c);
}

/// Audio accumulator: append `chunk` at the end of `buf`, preserving all
/// previously appended content and its order.
pub fn append_audio(buf: &mut Vec<u8>, chunk: &[u8])
    ensures
        final(buf)@ == old(buf)@ + chunk@,
{
    let mut k: usize = 0;
    assert(buf@ =~= old(buf)@ + chunk@.subrange(0, 0));
    while k < chunk.len()
        invariant
            0 <= k <= chunk@.len(),
            buf@ == old(buf)@ + chunk@.subrange(0, k as int),
        decreases chunk@.len() - k,
    {
        buf.push(chunk[k]);
        k = k + 1;
        proof {
            assert(buf@ =~= old(buf)@ + chunk@.subrange(0, k as int));
        }
    }
    proof {
        assert(chunk@.subrange(0, chunk@.len() as int) =~= chunk@);
    }
}

/// The request that run `i` of the exchange loop performs, for input
/// `lines` under credentials `key` and `region`.
pub open spec fn run_request(
    lines: Seq<Seq<char>>,
    key: Seq<char>,
    region: Seq<char>,
    i: int,
) -> RequestView {
    let seg = segments(default_voice(), lines)[i];
    request_spec(key, region, seg.voice, seg.text)
}

/// The responses a full run would collect when the synthesis service is the
/// pure function `synth` of the request.
pub open spec fn run_responses(
    lines: Seq<Seq<char>>,
    key: Seq<char>,
    region: Seq<char>,
    synth: spec_fn(RequestView) -> Seq<u8>,
) -> Seq<Seq<u8>> {
    Seq::new(
        segments(default_voice(), lines).len(),
        |i: int| synth(run_request(lines, key, region, i)),
    )
}

/// The final audio buffer of such a run: a deterministic function of the
/// input lines, the credentials and `synth` alone.
pub open spec fn run_buffer(
    lines: Seq<Seq<char>>,
    key: Seq<char>,
    region: Seq<char>,
    synth: spec_fn(RequestView) -> Seq<u8>,
) -> Seq<u8> {
    concat_bytes(run_responses(lines, key, region, synth))
}

/// A synthesis run in progress. One exchange is outstanding at a time:
/// `begin_exchange` hands out the request for the next segment,
/// `append_chunk` forwards each arriving piece of the response straight
/// into the audio buffer, and `end_exchange` closes the exchange. The
/// response bytes land in the buffer in segment order, which is line order.
pub struct SynthesisRun {
    pub config: SpeechApiConfig,
    pub segs: Vec<Segment>,
    pub next: usize,
    pub in_flight: bool,
    pub buf: Vec<u8>,
    /// The completed exchanges' response bytes, in order.
    pub responses: Ghost<Seq<Seq<u8>>>,
    /// The bytes of the exchange in progress received so far.
    pub cur: Ghost<Seq<u8>>,
    /// The input lines the run was started on.
    pub lines: Ghost<Seq<Seq<char>>>,
}

impl SynthesisRun {
    pub open spec fn wf(&self) -> bool {
        &&& self.segs@.map_values(|s: Segment| s@) == segments(default_voice(), self.lines@)
        &&& self.next <= self.segs@.len()
        &&& self.responses@.len() == self.next
        &&& (self.in_flight ==> self.next < self.segs@.len())
        &&& (!self.in_flight ==> self.cur@ == Seq::<u8>::empty())
        &&& self.buf@ == concat_bytes(self.responses@) + self.cur@
    }

    /// All exchanges done and none outstanding.
    pub open spec fn complete(&self) -> bool {
        !self.in_flight && self.next == self.segs@.len()
    }

    /// Start a run: derive the segments from `lines`; no exchange has
    /// happened and the audio buffer is empty.
    pub fn new(config: SpeechApiConfig, lines: &Vec<String>) -> (run: Self)
        ensures
            run.wf(),
            !run.in_flight,
            run.next == 0,
            run.buf@ == Seq::<u8>::empty(),
            run.responses@ == Seq::<Seq<u8>>::empty(),
            run.lines@ == lines@.map_values(|l: String| l@),
            run.config == config,
    {
        let segs = process_script(lines);
        let run = SynthesisRun {
            config,
            segs,
            next: 0,
            in_flight: false,
            buf: Vec::new(),
            responses: Ghost(Seq::empty()),
            cur: Ghost(Seq::empty()),
            lines: Ghost(lines@.map_values(|l: String| l@)),
        };
        proof {
            assert(run.buf@ =~= concat_bytes(run.responses@) + run.cur@);
        }
        run
    }

    /// How many segments still await their exchange.
    pub fn remaining(&self) -> (n: usize)
        requires
            self.wf(),
        ensures
            n == self.segs@.len() - self.next,
    {
        self.segs.len() - self.next
    }

    /// Whether an exchange is outstanding.
    pub fn is_in_flight(&self) -> (b: bool)
        ensures
            b == self.in_flight,
    {
        self.in_flight
    }

    /// Begin the exchange for the next segment and hand out its request:
    /// the one the input lines and the credentials determine for it.
    pub fn begin_exchange(&mut self) -> (req: SynthesisRequest)
        requires
            old(self).wf(),
            !old(self).in_flight,
            old(self).next < old(self).segs@.len(),
        ensures
            final(self).wf(),
            final(self).in_flight,
            final(self).next == old(self).next,
            final(self).buf@ == old(self).buf@,
            final(self).cur@ == old(self).cur@,
            final(self).responses@ == old(self).responses@,
            final(self).lines@ == old(self).lines@,
            final(self).config == old(self).config,
            req@ == run_request(
                old(self).lines@,
                old(self).config.speech_key@,
                old(self).config.speech_region@,
                old(self).next as int,
            ),
    {
        proof {
            assert(self.segs@.map_values(|s: Segment| s@)[self.next as int] == self.segs@[
                self.next as int
            ]@);
        }
        let seg = &self.segs[self.next];
        let req = build_request(&self.config, seg);
        self.in_flight = true;
        req
    }

    /// Forward one arriving chunk of the outstanding response into the
    /// audio buffer: appended at the end, nothing else changed.
    pub fn append_chunk(&mut self, chunk: &[u8])
        requires
            old(self).wf(),
            old(self).in_flight,
        ensures
            final(self).wf(),
            final(self).in_flight,
            final(self).next == old(self).next,
            final(self).buf@ == old(self).buf@ + chunk@,
            final(self).cur@ == old(self).cur@ + chunk@,
            final(self).responses@ == old(self).responses@,
            final(self).lines@ == old(self).lines@,
            final(self).config == old(self).config,
    {
        append_audio(&mut self.buf, chunk);
        proof {
            self.cur@ = self.cur@ + chunk@;
            assert(self.buf@ =~= concat_bytes(self.responses@) + self.cur@);
        }
    }

    /// Close the outstanding exchange: its bytes, now fully forwarded,
    /// become the next completed response.
    pub fn end_exchange(&mut self)
        requires
            old(self).wf(),
            old(self).in_flight,
        ensures
            final(self).wf(),
            !final(self).in_flight,
            final(self).next == old(self).next + 1,
            final(self).buf@ == old(self).buf@,
            final(self).responses@ == old(self).responses@.push(old(self).cur@),
            final(self).lines@ == old(self).lines@,
            final(self).config == old(self).config,
    {
        let n = self.segs.len();
        assert(self.next < n);
        self.next = self.next + 1;
        self.in_flight = false;
        proof {
            self.responses@ = self.responses@.push(self.cur@);
            self.cur@ = Seq::empty();
            lemma_concat_bytes_push(old(self).responses@, old(self).cur@);
            assert(self.buf@ =~= concat_bytes(self.responses@) + self.cur@);
        }
    }

    /// Surrender the final audio buffer of a completed run.
    pub fn into_buffer(self) -> (buf: Vec<u8>)
        requires
            self.wf(),
            self.complete(),
        ensures
            buf@ == concat_bytes(self.responses@),
    {
        proof {
            assert(self.buf@ =~= concat_bytes(self.responses@));
        }
        self.buf
    }
}

/// Law: in every completed run the audio buffer equals the ordered
/// concatenation of each exchange's response bytes, and there were exactly
/// as many exchanges as segments — lines that yielded no segment (blank or
/// directive-only) contributed no exchange and no bytes.
pub proof fn lemma_buffer_is_concat(run: SynthesisRun)
    requires
        run.wf(),
        run.complete(),
    ensures
        run.buf@ == concat_bytes(run.responses@),
        run.responses@.len() == segments(default_voice(), run.lines@).len(),
{
    assert(run.buf@ =~= concat_bytes(run.responses@));
}

/// Law: a line whose content is blank after trimming — with or without a
/// directive — contributes zero bytes to the output: the buffer a run over
/// the lines up to and including it would collect equals the one over the
/// lines before it.
pub proof fn lemma_blank_line_no_bytes(
    lines: Seq<Seq<char>>,
    i: int,
    key: Seq<char>,
    region: Seq<char>,
    synth: spec_fn(RequestView) -> Seq<u8>,
)
    requires
        0 <= i < lines.len(),
        line_text(lines[i]).len() == 0,
    ensures
        run_buffer(lines.take(i + 1), key, region, synth) == run_buffer(
            lines.take(i),
            key,
            region,
            synth,
        ),
{
    lemma_blank_line(default_voice(), lines, i);
    assert(run_responses(lines.take(i + 1), key, region, synth) =~= run_responses(
        lines.take(i),
        key,
        region,
        synth,
    ));
}

/// Law: when the synthesis service is a pure function `synth` of the
/// request, the final buffer of a completed run is the deterministic
/// function [`run_buffer`] of the input lines and the credentials alone.
pub proof fn lemma_run_buffer(run: SynthesisRun, synth: spec_fn(RequestView) -> Seq<u8>)
    requires
        run.wf(),
        run.complete(),
        forall|i: int|
            0 <= i < run.responses@.len() ==> #[trigger] run.responses@[i] == synth(
                run_request(run.lines@, run.config.speech_key@, run.config.speech_region@, i),
            ),
    ensures
        run.buf@ == run_buffer(
            run.lines@,
            run.config.speech_key@,
            run.config.speech_region@,
            synth,
        ),
{
    lemma_buffer_is_concat(run);
    assert(run.responses@ =~= run_responses(
        run.lines@,
        run.config.speech_key@,
        run.config.speech_region@,
        synth,
    ));
}

/// Law: idempotence — two completed runs over identical input lines and
/// identical credentials, against a synthesis service that is the same pure
/// deterministic function of its request, produce identical audio buffers.
pub proof fn lemma_rerun_is_identical(
    first: SynthesisRun,
    second: SynthesisRun,
    synth: spec_fn(RequestView) -> Seq<u8>,
)
    requires
        first.wf(),
        first.complete(),
        second.wf(),
        second.complete(),
        first.lines@ == second.lines@,
        first.config.speech_key@ == second.config.speech_key@,
        first.config.speech_region@ == second.config.speech_region@,
        forall|i: int|
            0 <= i < first.responses@.len() ==> #[trigger] first.responses@[i] == synth(
                run_request(first.lines@, first.config.speech_key@, first.config.speech_region@, i),
            ),
        forall|i: int|
            0 <= i < second.responses@.len() ==> #[trigger] second.responses@[i] == synth(
                run_request(
                    second.lines@,
                    second.config.speech_key@,
                    second.config.speech_region@,
                    i,
                ),
            ),
    ensures
        first.buf@ == second.buf@,
{
    lemma_run_buffer(first, synth);
    lemma_run_buffer(second, synth);
}

} // verus!
