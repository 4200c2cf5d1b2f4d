use vstd::prelude::*;
use vstd::string::StringExecFns;

verus! {

/// The text escape convention: the ASCII authoring shorthand '&' becomes the
/// protocol's formatting marker '\u{00A7}'; every other character is kept.
pub open spec fn escape_text(s: Seq<char>) -> Seq<char> {
    s.map_values(|c: char| if c == '&' { '\u{00A7}' } else { c })
}

/// Escaping leaves no '&' behind, so escaping twice is escaping once.
pub proof fn lemma_escape_idempotent(s: Seq<char>)
    ensures
        escape_text(escape_text(s)) == escape_text(s),
{
    assert(escape_text(escape_text(s)) =~= escape_text(s));
}

/// Relies on str::replace with a one-character pattern and a one-character
/// replacement: every '&' becomes '\u{00A7}' and all other characters are
/// unchanged, in order.
#[verifier::external_body]
fn replace_escape_marker(text: &str) -> (r: String)
    ensures
        r@ == escape_text(text@),
{
    text.replace("&", "\u{00A7}")
}

/// A rich-text node: text with an optional bold flag and ordered child nodes.
/// The bold flag and the children are left empty unless set.
pub struct ChatMessage {
    pub text: String,
    pub bold: String,
    pub extra: Vec<ChatMessage>,
}

impl ChatMessage {
    /// A plain node holding `text` with the escape convention applied,
    /// no bold flag and no children.
    pub fn text(text: String) -> (r: Self)
        ensures
            r.text@ == escape_text(text@),
            r.bold@ == Seq::<char>::empty(),
            r.extra@ == Seq::<ChatMessage>::empty(),
    {
        ChatMessage { text: replace_escape_marker(text.as_str()), bold: String::new(), extra: Vec::new() }
    }

    /// Sets the bold flag to the words "true" or "false".
    pub fn set_bold(&mut self, value: bool)
        ensures
            final(self).text == old(self).text,
            final(self).extra == old(self).extra,
            value ==> final(self).bold@ == "true"@,
            !value ==> final(self).bold@ == "false"@,
    {
        if value {
            self.bold = String::from_str("true");
        } else {
            self.bold = String::from_str("false");
        }
    }

    /// A plain node from a string slice; the escape convention is applied
    /// (applying it twice changes nothing more).
    pub fn str(text: &str) -> (r: Self)
        ensures
            r.text@ == escape_text(text@),
            r.bold@ == Seq::<char>::empty(),
            r.extra@ == Seq::<ChatMessage>::empty(),
    {
        let once = replace_escape_marker(text);
        proof {
            lemma_escape_idempotent(text@);
        }
        ChatMessage::text(once)
    }
}

/// The version block of a list-ping response: a display name and the
/// protocol number.
pub struct ListPingResponseVersion {
    pub name: String,
    pub protocol: u32,
}

/// One entry of the player sample list.
pub struct ListPingResponsePlayerSample {
    pub name: String,
    pub id: String,
}

/// The players block of a list-ping response: capacity, current count and a
/// sample of player names.
pub struct ListPingResponsePlayers {
    pub max: u32,
    pub online: u32,
    pub sample: Vec<ListPingResponsePlayerSample>,
}

/// The full list-ping response: version, players and a rich-text description.
pub struct ListPingResponse {
    pub version: ListPingResponseVersion,
    pub players: ListPingResponsePlayers,
    pub description: ChatMessage,
}

} // verus!
