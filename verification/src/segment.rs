//! Segment processor: a single-variable state machine that threads the
//! active voice across lines, strips directives, and emits non-empty text
//! segments paired with the voice in effect.

use crate::scanner::{directive_rest, directive_voice, has_directive, scan_directive};
use crate::text::{trim, trim_spec};
use vstd::prelude::*;

verus! {

/// The voice active before any directive has been seen.
pub open spec fn default_voice() -> Seq<char> {
    "en-US-JennyNeural"@
}

/// Executable counterpart of [`default_voice`].
pub fn default_voice_id() -> (v: String)
    ensures
        v@ == default_voice(),
{
    "en-US-JennyNeural".to_owned()
}

/// A unit of non-empty trimmed text paired with the voice active when it
/// was read. Immutable once created.
pub struct Segment {
    pub voice: String,
    pub text: String,
}

/// The mathematical content of a [`Segment`].
pub ghost struct SegView {
    pub voice: Seq<char>,
    pub text: Seq<char>,
}

impl View for Segment {
    type V = SegView;

    open spec fn view(&self) -> SegView {
        SegView { voice: self.voice@, text: self.text@ }
    }
}

/// The voice in effect after `line`, given that `voice` was in effect
/// before it: a leading directive switches it, anything else keeps it.
pub open spec fn line_voice(voice: Seq<char>, line: Seq<char>) -> Seq<char> {
    if has_directive(line) {
        directive_voice(line)
    } else {
        voice
    }
}

/// The text `line` offers for synthesis: the line with a leading directive
/// (if any) removed, then trimmed of leading and trailing whitespace.
pub open spec fn line_text(line: Seq<char>) -> Seq<char> {
    if has_directive(line) {
        trim_spec(directive_rest(line))
    } else {
        trim_spec(line)
    }
}

/// The segments `line` contributes: none when its text is blank, else one.
pub open spec fn line_segments(voice: Seq<char>, line: Seq<char>) -> Seq<SegView> {
    if line_text(line).len() == 0 {
        Seq::empty()
    } else {
        seq![SegView { voice: line_voice(voice, line), text: line_text(line) }]
    }
}

/// The voice in effect after all of `lines`, given `voice` before them.
pub open spec fn voice_after(voice: Seq<char>, lines: Seq<Seq<char>>) -> Seq<char>
    decreases lines.len(),
{
    if lines.len() == 0 {
        voice
    } else {
        voice_after(line_voice(voice, lines[0]), lines.drop_first())
    }
}

/// All segments of `lines` in line order, given the voice `voice` in
/// effect before the first line.
pub open spec fn segments(voice: Seq<char>, lines: Seq<Seq<char>>) -> Seq<SegView>
    decreases lines.len(),
{
    if lines.len() == 0 {
        Seq::empty()
    } else {
        line_segments(voice, lines[0]) + segments(line_voice(voice, lines[0]), lines.drop_first())
    }
}

pub proof fn lemma_voice_after_snoc(voice: Seq<char>, lines: Seq<Seq<char>>, line: Seq<char>)
    ensures
        voice_after(voice, lines.push(line)) == line_voice(voice_after(voice, lines), line),
    decreases lines.len(),
{
    let all = lines.push(line);
    if lines.len() == 0 {
        assert(all[0] == line);
        assert(all.drop_first() =~= Seq::<Seq<char>>::empty());
        assert(voice_after(line_voice(voice, line), Seq::<Seq<char>>::empty()) == line_voice(
            voice,
            line,
        ));
    } else {
        assert(all[0] == lines[0]);
        assert(all.drop_first() =~= lines.drop_first().push(line));
        lemma_voice_after_snoc(line_voice(voice, lines[0]), lines.drop_first(), line);
    }
}

pub proof fn lemma_segments_snoc(voice: Seq<char>, lines: Seq<Seq<char>>, line: Seq<char>)
    ensures
        segments(voice, lines.push(line)) == segments(voice, lines) + line_segments(
            voice_after(voice, lines),
            line,
        ),
    decreases lines.len(),
{
    let all = lines.push(line);
    if lines.len() == 0 {
        assert(all[0] == line);
        assert(all.drop_first() =~= Seq::<Seq<char>>::empty());
        assert(segments(line_voice(voice, line), Seq::<Seq<char>>::empty())
            =~= Seq::<SegView>::empty());
        assert(voice_after(voice, lines) == voice);
        assert(segments(voice, all) =~= segments(voice, lines) + line_segments(
            voice_after(voice, lines),
            line,
        ));
    } else {
        assert(all[0] == lines[0]);
        assert(all.drop_first() =~= lines.drop_first().push(line));
        lemma_segments_snoc(line_voice(voice, lines[0]), lines.drop_first(), line);
        assert(segments(voice, all) =~= segments(voice, lines) + line_segments(
            voice_after(voice, lines),
            line,
        ));
    }
}

proof fn lemma_voice_after_tracks(voice: Seq<char>, lines: Seq<Seq<char>>)
    ensures
        (forall|j: int| 0 <= j < lines.len() ==> !has_directive(#[trigger] lines[j]))
            ==> voice_after(voice, lines) == voice,
        forall|k: int|
            (0 <= k < lines.len() && has_directive(#[trigger] lines[k]) && (forall|j: int|
                k < j < lines.len() ==> !has_directive(#[trigger] lines[j]))) ==> voice_after(
                voice,
                lines,
            ) == directive_voice(lines[k]),
    decreases lines.len(),
{
    if lines.len() == 0 {
    } else {
        let tail = lines.drop_first();
        let v1 = line_voice(voice, lines[0]);
        lemma_voice_after_tracks(v1, tail);
        if forall|j: int| 0 <= j < lines.len() ==> !has_directive(#[trigger] lines[j]) {
            assert forall|j: int| 0 <= j < tail.len() implies !has_directive(
                #[trigger] tail[j],
            ) by {
                assert(tail[j] == lines[j + 1]);
            }
            assert(!has_directive(lines[0]));
            assert(voice_after(voice, lines) == voice);
        }
        assert forall|k: int|
            (0 <= k < lines.len() && has_directive(#[trigger] lines[k]) && (forall|j: int|
                k < j < lines.len() ==> !has_directive(#[trigger] lines[j]))) implies voice_after(
            voice,
            lines,
        ) == directive_voice(lines[k]) by {
            if k == 0 {
                assert forall|j: int| 0 <= j < tail.len() implies !has_directive(
                    #[trigger] tail[j],
                ) by {
                    assert(tail[j] == lines[j + 1]);
                }
                assert(voice_after(v1, tail) == v1);
            } else {
                assert(tail[k - 1] == lines[k]);
                assert forall|j: int| k - 1 < j < tail.len() implies !has_directive(
                    #[trigger] tail[j],
                ) by {
                    assert(tail[j] == lines[j + 1]);
                }
                assert(voice_after(v1, tail) == directive_voice(tail[k - 1]));
            }
        }
    }
}

/// Law: the voice in effect before line `i` — the voice that a line without
/// its own directive is synthesized with — equals the most recently seen
/// directive's identifier among the lines before `i`, or the default voice
/// when no directive has occurred yet.
pub proof fn lemma_effective_voice(lines: Seq<Seq<char>>, i: int)
    requires
        0 <= i <= lines.len(),
    ensures
        (forall|j: int| 0 <= j < i ==> !has_directive(#[trigger] lines[j])) ==> voice_after(
            default_voice(),
            lines.take(i),
        ) == default_voice(),
        forall|k: int|
            (0 <= k < i && has_directive(#[trigger] lines[k]) && (forall|j: int|
                k < j < i ==> !has_directive(#[trigger] lines[j]))) ==> voice_after(
                default_voice(),
                lines.take(i),
            ) == directive_voice(lines[k]),
{
    let pre = lines.take(i);
    lemma_voice_after_tracks(default_voice(), pre);
    if forall|j: int| 0 <= j < i ==> !has_directive(#[trigger] lines[j]) {
        assert forall|j: int| 0 <= j < pre.len() implies !has_directive(#[trigger] pre[j]) by {
            assert(pre[j] == lines[j]);
        }
    }
    assert forall|k: int|
        (0 <= k < i && has_directive(#[trigger] lines[k]) && (forall|j: int|
            k < j < i ==> !has_directive(#[trigger] lines[j]))) implies voice_after(
        default_voice(),
        pre,
    ) == directive_voice(lines[k]) by {
        assert(pre[k] == lines[k]);
        assert forall|j: int| k < j < pre.len() implies !has_directive(#[trigger] pre[j]) by {
            assert(pre[j] == lines[j]);
        }
        assert(voice_after(default_voice(), pre) == directive_voice(pre[k]));
    }
}

/// Law: a bracketed identifier that does not stand at position zero of the
/// line is never a directive. Such a line leaves the voice state unchanged,
/// and its whole content — the bracketed identifier included — is kept as
/// literal text, trimmed.
pub proof fn lemma_inner_bracket_is_literal(voice: Seq<char>, line: Seq<char>)
    requires
        line.len() == 0 || line[0] != '[',
    ensures
        !has_directive(line),
        line_voice(voice, line) == voice,
        line_text(line) == trim_spec(line),
{
}

/// Law: a line whose content is blank after trimming — with or without a
/// directive — contributes no segment, and hence no synthesis call: the
/// segment sequence after that line is the one before it.
pub proof fn lemma_blank_line(voice: Seq<char>, lines: Seq<Seq<char>>, i: int)
    requires
        0 <= i < lines.len(),
        line_text(lines[i]).len() == 0,
    ensures
        line_segments(voice_after(voice, lines.take(i)), lines[i]) == Seq::<SegView>::empty(),
        segments(voice, lines.take(i + 1)) == segments(voice, lines.take(i)),
{
    assert(lines.take(i + 1) =~= lines.take(i).push(lines[i]));
    lemma_segments_snoc(voice, lines.take(i), lines[i]);
    assert(segments(voice, lines.take(i + 1)) =~= segments(voice, lines.take(i)));
}

/// Process one line: run the directive scanner, update the voice state,
/// trim the remaining text, and emit a segment when the text is non-blank.
/// Directive-only and blank lines update the state but emit nothing.
pub fn process_line(voice: String, line: &str) -> (r: (String, Option<Segment>))
    ensures
        r.0@ == line_voice(voice@, line@),
        match r.1 {
            Some(seg) => line_text(line@).len() > 0 && seg@ == (SegView {
                voice: line_voice(voice@, line@),
                text: line_text(line@),
            }),
            None => line_text(line@).len() == 0,
        },
{
    match scan_directive(line) {
        Some(found) => {
            let (new_voice, rest) = found;
            let t = trim(rest.as_str());
            if t.as_str().is_empty() {
                (new_voice, None)
            } else {
                let seg = Segment { voice: new_voice.clone(), text: t };
                (new_voice, Some(seg))
            }
        },
        None => {
            let t = trim(line);
            if t.as_str().is_empty() {
                (voice, None)
            } else {
                let seg = Segment { voice: voice.clone(), text: t };
                (voice, Some(seg))
            }
        },
    }
}

/// Process all lines in order, starting from the default voice: the
/// sequence of emitted (voice, text) segments is a deterministic function
/// of the input lines alone.
pub fn process_script(lines: &Vec<String>) -> (segs: Vec<Segment>)
    ensures
        segs@.map_values(|s: Segment| s@) == segments(
            default_voice(),
            lines@.map_values(|l: String| l@),
        ),
{
    let ghost lviews = lines@.map_values(|l: String| l@);
    let mut voice = default_voice_id();
    let mut segs: Vec<Segment> = Vec::new();
    assert(lviews.take(0) =~= Seq::<Seq<char>>::empty());
    assert(segs@.map_values(|s: Segment| s@) =~= Seq::<SegView>::empty());
    for i in 0..lines.len()
        invariant
            lviews == lines@.map_values(|l: String| l@),
            lviews.len() == lines@.len(),
            voice@ == voice_after(default_voice(), lviews.take(i as int)),
            segs@.map_values(|s: Segment| s@) == segments(default_voice(), lviews.take(i as int)),
    {
        let ghost pre = lviews.take(i as int);
        let ghost segs_pre = segs@.map_values(|s: Segment| s@);
        let line = lines[i].as_str();
        proof {
            assert(lviews[i as int] == line@);
        }
        let r = process_line(voice, line);
        voice = r.0;
        proof {
            assert(lviews.take(i as int + 1) =~= pre.push(lviews[i as int]));
            lemma_voice_after_snoc(default_voice(), pre, lviews[i as int]);
            lemma_segments_snoc(default_voice(), pre, lviews[i as int]);
        }
        match r.1 {
            Some(seg) => {
                let ghost segv = seg@;
                segs.push(seg);
                proof {
                    assert(line_segments(voice_after(default_voice(), pre), line@) =~= seq![segv]);
                    assert(segs@.map_values(|s: Segment| s@) =~= segs_pre.push(segv));
                    assert(segs@.map_values(|s: Segment| s@) =~= segments(
                        default_voice(),
                        lviews.take(i as int + 1),
                    ));
                }
            },
            None => {
                proof {
                    assert(line_segments(voice_after(default_voice(), pre), line@)
                        =~= Seq::<SegView>::empty());
                    assert(segs@.map_values(|s: Segment| s@) =~= segments(
                        default_voice(),
                        lviews.take(i as int + 1),
                    ));
                }
            },
        }
    }
    proof {
        assert(lviews.take(lines@.len() as int) =~= lviews);
    }
    segs
}

} // verus!
