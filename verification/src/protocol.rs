//! The wire protocols that LLM providers speak.
use vstd::prelude::*;
use crate::text::{ToOwnedString, concat, str_eq, to_lowercase, lower, ascii_lower, all_ascii};

verus! {

/// A provider protocol.
#[derive(Debug, Clone, Copy, PartialEq, Eq, Hash, Structural)]
pub enum Protocol {
    OpenAI,
    Anthropic,
    Gemini,
}

impl Protocol {
    /// The protocol's name as written in configuration files.
    pub open spec fn text(self) -> Seq<char> {
        match self {
            Protocol::OpenAI => "openai"@,
            Protocol::Anthropic => "anthropic"@,
            Protocol::Gemini => "gemini"@,
        }
    }

    /// The protocol's name (`Display`).
    pub fn to_string(&self) -> (s: String)
        ensures
            s@ == self.text(),
    {
        match self {
            Protocol::OpenAI => "openai".to_owned_string(),
            Protocol::Anthropic => "anthropic".to_owned_string(),
            Protocol::Gemini => "gemini".to_owned_string(),
        }
    }

    /// What `from_str` gives for a text `s`: matched on its lower-case form.
    pub open spec fn parsed(s: Seq<char>) -> Result<Protocol, Seq<char>> {
        let l = lower(s);
        if l == "openai"@ {
            Ok(Protocol::OpenAI)
        } else if l == "anthropic"@ {
            Ok(Protocol::Anthropic)
        } else if l == "gemini"@ {
            Ok(Protocol::Gemini)
        } else {
            Err("unsupported protocol: "@ + s)
        }
    }

    /// Parses a protocol name, ignoring case (`FromStr`).
    pub fn from_str(s: &str) -> (r: Result<Protocol, String>)
        ensures
            r matches Ok(p) ==> Protocol::parsed(s@) == Ok::<Protocol, Seq<char>>(p),
            r matches Err(e) ==> Protocol::parsed(s@) == Err::<Protocol, Seq<char>>(e@),
    {
        let l = to_lowercase(s);
        if str_eq(l.as_str(), "openai") {
            Ok(Protocol::OpenAI)
        } else if str_eq(l.as_str(), "anthropic") {
            Ok(Protocol::Anthropic)
        } else if str_eq(l.as_str(), "gemini") {
            Ok(Protocol::Gemini)
        } else {
            Err(concat("unsupported protocol: ", s))
        }
    }
}

/// Writing a protocol's name and reading it back gives the same protocol.
pub proof fn law_protocol_round_trip(p: Protocol)
    ensures
        Protocol::parsed(p.text()) == Ok::<Protocol, Seq<char>>(p),
{
    reveal_strlit("openai");
    reveal_strlit("anthropic");
    reveal_strlit("gemini");
    let t = p.text();
    assert(all_ascii(t));
    assert(ascii_lower(t) =~= t);
    assert(lower(t) == t);
    match p {
        Protocol::OpenAI => {},
        Protocol::Anthropic => {
            assert(t.len() != "openai"@.len());
        },
        Protocol::Gemini => {
            assert(t.len() != "anthropic"@.len());
            assert(t[0] != "openai"@[0]);
        },
    }
}

/// Lowering ASCII text twice is lowering it once, and keeps it ASCII.
proof fn lemma_ascii_lower_twice(s: Seq<char>)
    requires
        all_ascii(s),
    ensures
        all_ascii(ascii_lower(s)),
        ascii_lower(ascii_lower(s)) == ascii_lower(s),
{
    let l = ascii_lower(s);
    assert forall|i: int| 0 <= i < l.len() implies (l[i] as u32) < 128 by {
        assert(l[i] == crate::text::ascii_lower_char(s[i]));
    }
    assert(ascii_lower(l) =~= l);
}

/// Parsing ignores case: a text that names a protocol names it still once
/// lower-cased, and for ASCII text (all the names are) parsing the text and
/// parsing its lower-case form succeed alike, with the same protocol.
pub proof fn law_protocol_ignores_case(s: Seq<char>)
    ensures
        Protocol::parsed(s) matches Ok(p) ==> Protocol::parsed(lower(s)) == Ok::<Protocol, Seq<char>>(p),
        all_ascii(s) ==> (Protocol::parsed(s) is Ok <==> Protocol::parsed(lower(s)) is Ok),
        all_ascii(s) && Protocol::parsed(s) is Ok ==> Protocol::parsed(s) == Protocol::parsed(lower(s)),
{
    if Protocol::parsed(s) is Ok {
        let p = Protocol::parsed(s)->Ok_0;
        law_protocol_round_trip(p);
        assert(lower(s) == p.text());
    }
    if all_ascii(s) {
        lemma_ascii_lower_twice(s);
        assert(lower(lower(s)) == lower(s));
    }
}

} // verus!
