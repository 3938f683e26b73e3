use vstd::prelude::*;
use crate::codec::dec_rep;
use crate::codec::push_dec;
use crate::error::Error;

verus! {

/// One character of event-code text, as the format writes it.
///
/// The closed set covers the codes this crate interprets; `Other` carries
/// any single-character code of a foreign or future event kind through
/// unchanged.
#[derive(Debug, Clone, Copy, PartialEq, Eq, Structural)]
pub enum EventCode {
    Output,
    Input,
    Resize,
    Marker,
    Other(char),
}

impl EventCode {
    /// The one character that stands for this code on disk.
    pub open spec fn spec_char(&self) -> char {
        match self {
            EventCode::Output => 'o',
            EventCode::Input => 'i',
            EventCode::Resize => 'r',
            EventCode::Marker => 'm',
            EventCode::Other(c) => *c,
        }
    }

    /// Renders the code as its one-character text.
    pub fn to_text(&self) -> (r: String)
        ensures
            r@ == seq![self.spec_char()],
    {
        match self {
            EventCode::Output => {
                proof {
                    reveal_strlit("o");
                    assert("o"@ =~= seq!['o']);
                }
                String::from_str("o")
            },
            EventCode::Input => {
                proof {
                    reveal_strlit("i");
                    assert("i"@ =~= seq!['i']);
                }
                String::from_str("i")
            },
            EventCode::Resize => {
                proof {
                    reveal_strlit("r");
                    assert("r"@ =~= seq!['r']);
                }
                String::from_str("r")
            },
            EventCode::Marker => {
                proof {
                    reveal_strlit("m");
                    assert("m"@ =~= seq!['m']);
                }
                String::from_str("m")
            },
            EventCode::Other(c) => char_to_string(*c),
        }
    }
}

/// What decoding an event-code string yields: the empty string is a
/// missing code; each of the four known one-character codes maps to its
/// variant; any other nonempty string carries its first character.
pub open spec fn spec_code_of(s: Seq<char>) -> Result<EventCode, Error> {
    if s.len() == 0 {
        Err(Error::MissingEventCode)
    } else if s == seq!['o'] {
        Ok(EventCode::Output)
    } else if s == seq!['i'] {
        Ok(EventCode::Input)
    } else if s == seq!['r'] {
        Ok(EventCode::Resize)
    } else if s == seq!['m'] {
        Ok(EventCode::Marker)
    } else {
        Ok(EventCode::Other(s[0]))
    }
}

/// Decodes an event-code string, exactly as `spec_code_of` states it.
pub fn code_from_str(s: &str) -> (r: Result<EventCode, Error>)
    ensures
        r == spec_code_of(s@),
{
    let n = s.unicode_len();
    if n == 0 {
        return Err(Error::MissingEventCode);
    }
    let c = s.get_char(0);
    if n == 1 {
        proof {
            if c == 'o' {
                assert(s@ =~= seq!['o']);
            }
            if c == 'i' {
                assert(s@ =~= seq!['i']);
            }
            if c == 'r' {
                assert(s@ =~= seq!['r']);
            }
            if c == 'm' {
                assert(s@ =~= seq!['m']);
            }
        }
        if c == 'o' {
            Ok(EventCode::Output)
        } else if c == 'i' {
            Ok(EventCode::Input)
        } else if c == 'r' {
            Ok(EventCode::Resize)
        } else if c == 'm' {
            Ok(EventCode::Marker)
        } else {
            Ok(EventCode::Other(c))
        }
    } else {
        Ok(EventCode::Other(c))
    }
}

/// Each single-character code that is none of the four known ones decodes
/// to `Other` and encodes back to itself: foreign event kinds survive a
/// round trip unchanged, and so does each known code.
pub proof fn lemma_code_round_trip(code: EventCode)
    requires
        code matches EventCode::Other(c) ==> c != 'o' && c != 'i' && c != 'r' && c != 'm',
    ensures
        spec_code_of(seq![code.spec_char()]) == Ok::<EventCode, Error>(code),
{
    let s = seq![code.spec_char()];
    assert(s[0] == code.spec_char());
    match code {
        EventCode::Other(c) => {
            assert(s != seq!['o'] && s != seq!['i'] && s != seq!['r'] && s != seq!['m']);
        },
        _ => {},
    }
}

/// Relies on char::to_string: the rendering of one character is that
/// character alone.
#[verifier::external_body]
fn char_to_string(c: char) -> (r: String)
    ensures
        r@ == seq![c],
{
    c.to_string()
}

/// The characters that stand for `b` after replacement of invalid UTF-8
/// sequences, as `String::from_utf8_lossy` defines them.
pub uninterp spec fn utf8_lossy_of(b: Seq<u8>) -> Seq<char>;

/// Relies on String::from_utf8_lossy: the result is a function of the
/// bytes alone; no bytes yield no text; valid UTF-8 passes through
/// unchanged, so in particular ASCII bytes render as exactly their
/// characters.
#[verifier::external_body]
fn utf8_lossy(b: &[u8]) -> (r: String)
    ensures
        r@ == utf8_lossy_of(b@),
        b@.len() == 0 ==> r@.len() == 0,
        vstd::utf8::valid_utf8(b@) ==> r@ == vstd::utf8::decode_utf8(b@),
        (forall|i: int| 0 <= i < b@.len() ==> b@[i] < 128) ==> r@.len() == b@.len()
            && (forall|i: int| 0 <= i < b@.len() ==> r@[i] == b@[i] as char),
{
    String::from_utf8_lossy(b).to_string()
}

/// The mathematical content of an event: its fields over plain values.
pub ghost struct EventV {
    pub time: u64,
    pub code: EventCode,
    pub data: Seq<char>,
}

/// One timestamped terminal activity record. `time` counts microseconds
/// from the start of the recording; across a well-formed sequence it is
/// non-decreasing, which this crate assumes rather than enforces.
#[derive(Debug)]
pub struct Event {
    pub time: u64,
    pub code: EventCode,
    pub data: String,
}

impl Event {
    /// The mathematical content of this event.
    pub open spec fn content(&self) -> EventV {
        EventV { time: self.time, code: self.code, data: self.data@ }
    }

    /// A terminal-output event; raw bytes become text by lossy conversion,
    /// never by failing.
    pub fn output(time: u64, data: &[u8]) -> (r: Event)
        ensures
            r.time == time,
            r.code == EventCode::Output,
            r.data@ == utf8_lossy_of(data@),
    {
        Event { time, code: EventCode::Output, data: utf8_lossy(data) }
    }

    /// A keyboard-input event; raw bytes become text by lossy conversion.
    pub fn input(time: u64, data: &[u8]) -> (r: Event)
        ensures
            r.time == time,
            r.code == EventCode::Input,
            r.data@ == utf8_lossy_of(data@),
    {
        Event { time, code: EventCode::Input, data: utf8_lossy(data) }
    }

    /// A terminal-resize event; its data reads `<cols>x<rows>`.
    pub fn resize(time: u64, size: (u16, u16)) -> (r: Event)
        ensures
            r.time == time,
            r.code == EventCode::Resize,
            r.data@ == dec_rep(size.0 as nat) + seq!['x'] + dec_rep(size.1 as nat),
    {
        let mut s = String::new();
        push_dec(&mut s, size.0 as u64);
        proof {
            reveal_strlit("x");
            assert("x"@ =~= seq!['x']);
        }
        s.append("x");
        push_dec(&mut s, size.1 as u64);
        proof {
            assert(s@ =~= dec_rep(size.0 as nat) + seq!['x'] + dec_rep(size.1 as nat));
        }
        Event { time, code: EventCode::Resize, data: s }
    }

    /// A marker event; it carries no data.
    pub fn marker(time: u64) -> (r: Event)
        ensures
            r.time == time,
            r.code == EventCode::Marker,
            r.data@ == Seq::<char>::empty(),
    {
        Event { time, code: EventCode::Marker, data: String::new() }
    }
}

} // verus!
