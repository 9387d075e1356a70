//! Markup builder: renders the synthesis request document for one segment.

use vstd::prelude::*;
use vstd::string::*;

verus! {

/// The synthesis document for one segment: the voice identifier and the
/// segment text, both verbatim, inside a fixed voice/language envelope.
/// No escaping is performed: markup-significant characters in the text are
/// passed through unmodified, which is a deliberate, documented behaviour.
pub open spec fn ssml_doc(text: Seq<char>, voice_id: Seq<char>) -> Seq<char> {
    "<speak version='1.0' xml:lang='en-US'>\n            <voice xml:lang='en-US' xml:gender='Female' name='"@
        + voice_id
        + "'>\n                "@
        + text
        + "\n            </voice>\n        </speak>"@
}

/// Build the synthesis document embedding `voice_id` and `text` verbatim.
pub fn get_ssml(text: &str, voice_id: &str) -> (ssml: String)
    ensures
        ssml@ == ssml_doc(text@, voice_id@),
{
    let mut ssml =
        "<speak version='1.0' xml:lang='en-US'>\n            <voice xml:lang='en-US' xml:gender='Female' name='".to_owned();
    ssml.append(voice_id);
    ssml.append("'>\n                ");
    ssml.append(text);
    ssml.append("\n            </voice>\n        </speak>");
    proof {
        assert(ssml@ =~= ssml_doc(text@, voice_id@));
    }
    ssml
}

} // verus!
