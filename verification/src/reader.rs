use vstd::prelude::*;
use crate::codec::all_digits;
use crate::codec::digits_val;
use crate::codec::dot_count;
use crate::codec::spec_decode_time;
use crate::codec::decode_time;
use crate::error::Error;
use crate::event::Event;
use crate::event::EventV;
use crate::event::EventCode;
use crate::event::code_from_str;
use crate::event::spec_code_of;
use crate::header::Header;
use crate::header::HeaderView;
use crate::header::env_keys_distinct;
use crate::header::env_pairs_view;
use crate::header::env_view;
use crate::header::lemma_env_pairs_view;
use crate::header::opt_str_view;
use crate::json::JsonV;
use crate::json::content_of;
use crate::json::json_of;
use crate::json::json_parse;
use crate::json::number_decimal;
use crate::json::spec_get;
use crate::json::value_as_array;
use crate::json::value_as_str;
use crate::json::value_as_u64;
use crate::json::value_get;
use crate::json::value_is_null;
use crate::json::value_object_entries;

verus! {

/// A decoded recording: its header and its events in order. An event
/// that could not be decoded stands as the error for its line; blank
/// lines produce nothing.
#[derive(Debug)]
pub struct Reader {
    pub header: Header,
    pub events: Vec<Result<Event, Error>>,
}

/// The mathematical content of a decoded recording.
pub ghost struct ReaderV {
    pub header: HeaderView,
    pub events: Seq<Result<EventV, Error>>,
}

/// The content of an event sequence, item by item.
pub open spec fn events_content(s: Seq<Result<Event, Error>>) -> Seq<Result<EventV, Error>> {
    Seq::new(
        s.len(),
        |i: int|
            match s[i] {
                Ok(e) => Ok(e.content()),
                Err(er) => Err(er),
            },
    )
}

impl Reader {
    /// The mathematical content of this recording.
    pub open spec fn content(&self) -> ReaderV {
        ReaderV { header: self.header.content(), events: events_content(self.events@) }
    }
}

proof fn lemma_events_content_push(s: Seq<Result<Event, Error>>, x: Result<Event, Error>)
    ensures
        events_content(s.push(x)) == events_content(s).push(
            match x {
                Ok(e) => Ok(e.content()),
                Err(er) => Err(er),
            },
        ),
{
    assert(events_content(s.push(x)) =~= events_content(s).push(
        match x {
            Ok(e) => Ok(e.content()),
            Err(er) => Err(er),
        },
    ));
}

// ---------------------------------------------------------------------------
// What decoding yields, field by field
// ---------------------------------------------------------------------------

/// What reading a decimal seconds rendering as a saturating microsecond
/// count yields: a negative value counts as no idle time at all; with
/// exactly one '.' this is the event-time codec's own format, its
/// errors rejecting the field; a whole number of seconds needs no '.';
/// a value beyond range saturates instead of failing.
pub open spec fn spec_limit_micros(s: Seq<char>) -> Option<u64> {
    if s.len() == 0 {
        None
    } else if s[0] == '-' {
        Some(0)
    } else if dot_count(s) == 1 {
        match spec_decode_time(s) {
            Ok(t) => Some(t),
            Err(_) => None,
        }
    } else if dot_count(s) != 0 {
        None
    } else if !all_digits(s) {
        None
    } else if digits_val(s) * 1_000_000 > u64::MAX {
        Some(u64::MAX)
    } else {
        Some((digits_val(s) * 1_000_000) as u64)
    }
}

/// A required unsigned-integer field.
pub open spec fn spec_u64_field(j: JsonV, key: Seq<char>) -> Option<u64> {
    match spec_get(j, key) {
        Some(JsonV::Num(u, _)) => u,
        _ => None,
    }
}

/// An optional unsigned-integer field: absent or null is no value; a
/// present field of any other shape rejects the record.
pub open spec fn spec_opt_u64_field(j: JsonV, key: Seq<char>) -> Option<Option<u64>> {
    match spec_get(j, key) {
        None => Some(None),
        Some(JsonV::Null) => Some(None),
        Some(JsonV::Num(Some(u), _)) => Some(Some(u)),
        Some(_) => None,
    }
}

/// An optional string field, with the same absent/null/reject rules.
pub open spec fn spec_opt_str_field(j: JsonV, key: Seq<char>) -> Option<Option<Seq<char>>> {
    match spec_get(j, key) {
        None => Some(None),
        Some(JsonV::Null) => Some(None),
        Some(JsonV::Str(t)) => Some(Some(t)),
        Some(_) => None,
    }
}

/// The entries of an all-string object, or nothing if any value is not
/// a string.
pub open spec fn spec_str_values(es: Seq<(Seq<char>, JsonV)>) -> Option<
    Seq<(Seq<char>, Seq<char>)>,
> {
    if forall|i: int| 0 <= i < es.len() ==> (#[trigger] es[i]).1 is Str {
        Some(Seq::new(es.len(), |i: int| (es[i].0, es[i].1->Str_0)))
    } else {
        None
    }
}

/// The optional environment mapping: every value must be a string.
pub open spec fn spec_env_field(j: JsonV) -> Option<Option<Seq<(Seq<char>, Seq<char>)>>> {
    match spec_get(j, "env"@) {
        None => Some(None),
        Some(JsonV::Null) => Some(None),
        Some(JsonV::Obj(es)) => match spec_str_values(es) {
            Some(ps) => Some(Some(ps)),
            None => None,
        },
        Some(_) => None,
    }
}

/// The optional idle-time limit: any JSON number is read through its
/// decimal rendering as saturating microseconds.
pub open spec fn spec_idle_field(j: JsonV) -> Option<Option<u64>> {
    match spec_get(j, "idle_time_limit"@) {
        None => Some(None),
        Some(JsonV::Null) => Some(None),
        Some(JsonV::Num(_, d)) => match spec_limit_micros(d) {
            Some(m) => Some(Some(m)),
            None => None,
        },
        Some(_) => None,
    }
}

/// What reading a parsed first line as a current-generation header
/// record yields: nothing wherever the record's shape is not that of
/// such a header (upon which the legacy path is tried), else the header
/// content with the version as given.
pub open spec fn spec_v2_header(j: JsonV) -> Option<HeaderView> {
    match spec_u64_field(j, "version"@) {
        None => None,
        Some(version) => if version > 255 {
            None
        } else {
            match spec_u64_field(j, "width"@) {
                None => None,
                Some(width) => match spec_u64_field(j, "height"@) {
                    None => None,
                    Some(height) => if width > 65535 || height > 65535 {
                        None
                    } else {
                        match spec_opt_u64_field(j, "timestamp"@) {
                            None => None,
                            Some(timestamp) => match spec_idle_field(j) {
                                None => None,
                                Some(idle_time_limit) => match spec_opt_str_field(
                                    j,
                                    "command"@,
                                ) {
                                    None => None,
                                    Some(command) => match spec_opt_str_field(j, "title"@) {
                                        None => None,
                                        Some(title) => match spec_env_field(j) {
                                            None => None,
                                            Some(env) => Some(
                                                HeaderView {
                                                    version: version as nat,
                                                    width: width as nat,
                                                    height: height as nat,
                                                    timestamp,
                                                    idle_time_limit,
                                                    command,
                                                    title,
                                                    env,
                                                },
                                            ),
                                        },
                                    },
                                },
                            },
                        }
                    },
                },
            }
        },
    }
}

/// What decoding one parsed event line yields: a three element array of
/// a number, the code string and the data string, each failure with its
/// error.
pub open spec fn spec_event_of(j: JsonV) -> Result<EventV, Error> {
    match j {
        JsonV::Arr(es) => if es.len() != 3 {
            Err(Error::Decode)
        } else {
            match es[0] {
                JsonV::Num(_, d) => match spec_decode_time(d) {
                    Err(e) => Err(e),
                    Ok(t) => match es[1] {
                        JsonV::Str(cs) => match spec_code_of(cs) {
                            Err(e) => Err(e),
                            Ok(code) => match es[2] {
                                JsonV::Str(ds) => Ok(EventV { time: t, code, data: ds }),
                                _ => Err(Error::Decode),
                            },
                        },
                        _ => Err(Error::Decode),
                    },
                },
                _ => Err(Error::InvalidTimeFormat),
            }
        },
        _ => Err(Error::Decode),
    }
}

/// What decoding one streaming-path line yields: nothing for a blank
/// line, else the decoded event or that line's error.
pub open spec fn spec_parse_event(line: Seq<char>) -> Option<Result<EventV, Error>> {
    if line.len() == 0 {
        None
    } else {
        match json_of(line) {
            None => Some(Err(Error::Decode)),
            Some(j) => Some(spec_event_of(j)),
        }
    }
}

/// What decoding one legacy `stdout` entry yields: its time through the
/// event-time codec, its data as given, always an output event.
pub open spec fn spec_v1_entry(j: JsonV) -> Result<EventV, Error> {
    match spec_get(j, "time"@) {
        None => Err(Error::Decode),
        Some(JsonV::Num(_, d)) => match spec_decode_time(d) {
            Err(e) => Err(e),
            Ok(t) => match spec_get(j, "data"@) {
                None => Err(Error::Decode),
                Some(JsonV::Str(ds)) => Ok(EventV { time: t, code: EventCode::Output, data: ds }),
                Some(_) => Err(Error::Decode),
            },
        },
        Some(_) => Err(Error::InvalidTimeFormat),
    }
}

/// The legacy events from entry `i` on: the first failing entry's error
/// fails the whole document.
pub open spec fn spec_v1_events(es: Seq<JsonV>, i: int) -> Result<Seq<EventV>, Error>
    decreases es.len() - i,
{
    if i < 0 || i >= es.len() {
        Ok(Seq::empty())
    } else {
        match spec_v1_entry(es[i]) {
            Err(e) => Err(e),
            Ok(ev) => match spec_v1_events(es, i + 1) {
                Err(e) => Err(e),
                Ok(rest) => Ok(seq![ev] + rest),
            },
        }
    }
}

/// What decoding a whole legacy document yields: its fields, then its
/// `stdout` events, and only then the version check, as the original
/// format demands.
pub open spec fn spec_v1(j: JsonV) -> Result<ReaderV, Error> {
    match spec_u64_field(j, "version"@) {
        None => Err(Error::Decode),
        Some(version) => if version > 255 {
            Err(Error::Decode)
        } else {
            match spec_u64_field(j, "width"@) {
                None => Err(Error::Decode),
                Some(width) => match spec_u64_field(j, "height"@) {
                    None => Err(Error::Decode),
                    Some(height) => if width > 65535 || height > 65535 {
                        Err(Error::Decode)
                    } else {
                        match spec_opt_str_field(j, "command"@) {
                            None => Err(Error::Decode),
                            Some(command) => match spec_opt_str_field(j, "title"@) {
                                None => Err(Error::Decode),
                                Some(title) => match spec_env_field(j) {
                                    None => Err(Error::Decode),
                                    Some(env) => match spec_get(j, "stdout"@) {
                                        None => Err(Error::Decode),
                                        Some(JsonV::Arr(es)) => match spec_v1_events(es, 0) {
                                            Err(e) => Err(e),
                                            Ok(evs) => if version != 1 {
                                                Err(Error::UnsupportedVersion)
                                            } else {
                                                Ok(
                                                    ReaderV {
                                                        header: HeaderView {
                                                            version: 1,
                                                            width: width as nat,
                                                            height: height as nat,
                                                            timestamp: None,
                                                            idle_time_limit: None,
                                                            command,
                                                            title,
                                                            env,
                                                        },
                                                        events: Seq::new(
                                                            evs.len(),
                                                            |k: int| Ok(evs[k]),
                                                        ),
                                                    },
                                                )
                                            },
                                        },
                                        Some(_) => Err(Error::Decode),
                                    },
                                },
                            },
                        }
                    },
                },
            }
        },
    }
}

/// The streaming-path events from line `i` on: one decoded event or
/// error per non-blank line, blank lines producing nothing.
pub open spec fn spec_v2_events(lines: Seq<String>, i: int) -> Seq<Result<EventV, Error>>
    decreases lines.len() - i,
{
    if i < 0 || i >= lines.len() {
        Seq::empty()
    } else {
        (match spec_parse_event(lines[i]@) {
            None => Seq::<Result<EventV, Error>>::empty(),
            Some(res) => seq![res],
        }) + spec_v2_events(lines, i + 1)
    }
}

/// The legacy path: the whole input as one document.
pub open spec fn spec_open_v1(lines: Seq<String>) -> Result<ReaderV, Error> {
    match json_of(joined(lines)) {
        None => Err(Error::Decode),
        Some(j) => spec_v1(j),
    }
}

/// What opening a recording yields, line by line: no lines is empty
/// input; a first line whose parse has the shape of a current-generation
/// header record decides the streaming path, with its version checked;
/// any other first line makes the whole input one legacy document.
pub open spec fn spec_open(lines: Seq<String>) -> Result<ReaderV, Error> {
    if lines.len() == 0 {
        Err(Error::EmptyInput)
    } else {
        match json_of(lines[0]@) {
            Some(j) => match spec_v2_header(j) {
                Some(hv) => if hv.version != 2 {
                    Err(Error::UnsupportedVersion)
                } else {
                    Ok(ReaderV { header: hv, events: spec_v2_events(lines, 1) })
                },
                None => spec_open_v1(lines),
            },
            None => spec_open_v1(lines),
        }
    }
}

// ---------------------------------------------------------------------------
// The decoder, executable
// ---------------------------------------------------------------------------

/// All lines joined into one document, without separators, the way a
/// line reader that strips newlines hands a multi-line document back.
pub open spec fn joined(ls: Seq<String>) -> Seq<char>
    decreases ls.len(),
{
    if ls.len() == 0 {
        Seq::empty()
    } else {
        joined(ls.drop_last()) + ls.last()@
    }
}

fn join_lines(lines: &Vec<String>) -> (r: String)
    ensures
        r@ == joined(lines@),
{
    let mut out = String::new();
    let mut i: usize = 0;
    while i < lines.len()
        invariant
            i <= lines@.len(),
            out@ == joined(lines@.take(i as int)),
        decreases lines@.len() - i,
    {
        out.append(lines[i].as_str());
        proof {
            assert(lines@.take(i as int + 1).drop_last() =~= lines@.take(i as int));
            assert(lines@.take(i as int + 1).last() == lines@[i as int]);
        }
        i = i + 1;
    }
    proof {
        assert(lines@.take(lines@.len() as int) =~= lines@);
    }
    out
}

/// Reads a decimal seconds rendering as a saturating microsecond count,
/// exactly as `spec_limit_micros` states it.
#[verifier::rlimit(60)]
#[verifier::loop_isolation(false)]
fn decimal_to_micros(s: &str) -> (r: Option<u64>)
    ensures
        r == spec_limit_micros(s@),
{
    let n = s.unicode_len();
    if n == 0 {
        return None;
    }
    if s.get_char(0) == '-' {
        return Some(0);
    }
    // Count the dots; with exactly one, this is the event-time codec's
    // own format.
    let mut i: usize = 0;
    let mut dots: usize = 0;
    while i < n
        invariant
            n == s@.len(),
            i <= n,
            dots <= i,
            dots == dot_count(s@.take(i as int)),
        decreases n - i,
    {
        let c = s.get_char(i);
        proof {
            assert(s@.take(i as int + 1).drop_last() =~= s@.take(i as int));
            assert(s@.take(i as int + 1).last() == s@[i as int]);
        }
        if c == '.' {
            dots = dots + 1;
        }
        i = i + 1;
    }
    proof {
        assert(s@.take(n as int) =~= s@);
    }
    if dots == 1 {
        return match decode_time(s) {
            Ok(t) => Some(t),
            Err(_) => None,
        };
    }
    if dots != 0 {
        return None;
    }
    // A whole number of seconds.
    let mut acc: u64 = 0;
    let mut j: usize = 0;
    let mut saturated: bool = false;
    while j < n
        invariant
            n == s@.len(),
            j <= n,
            !saturated ==> acc == digits_val(s@.take(j as int)),
            saturated ==> digits_val(s@.take(j as int)) > u64::MAX,
            forall|k: int| 0 <= k < j ==> crate::codec::is_digit(#[trigger] s@[k]),
        decreases n - j,
    {
        let c = s.get_char(j);
        let u = c as u32;
        if u < 48 || u > 57 {
            proof {
                assert(!crate::codec::is_digit(s@[j as int]));
            }
            return None;
        }
        let dv = (u - 48) as u64;
        proof {
            crate::codec::lemma_digits_val_step(s@, j as int);
        }
        if saturated || acc > (u64::MAX - dv) / 10 {
            proof {
                if !saturated {
                    assert(acc * 10 + dv > u64::MAX) by (nonlinear_arith)
                        requires
                            acc > (u64::MAX - dv) / 10,
                            dv <= 9,
                    ;
                }
            }
            saturated = true;
        } else {
            acc = acc * 10 + dv;
        }
        j = j + 1;
    }
    proof {
        assert(s@.take(n as int) =~= s@);
        crate::codec::lemma_digits_val_grows(s@, n as int);
    }
    if saturated {
        proof {
            assert(digits_val(s@) * 1_000_000 >= digits_val(s@)) by (nonlinear_arith);
        }
        return Some(u64::MAX);
    }
    if acc > u64::MAX / 1_000_000 {
        proof {
            assert(acc * 1_000_000 > u64::MAX) by (nonlinear_arith)
                requires
                    acc > u64::MAX / 1_000_000,
            ;
        }
        return Some(u64::MAX);
    }
    Some(acc * 1_000_000)
}

/// An optional field that must be a string when present; `None` for a
/// present field of another kind, which rejects the record.
fn get_opt_string(v: &serde_json::Value, key: &str) -> (r: Option<Option<String>>)
    ensures
        r is Some <==> spec_opt_str_field(content_of(*v), key@) is Some,
        r matches Some(o) ==> spec_opt_str_field(content_of(*v), key@) == Some(opt_str_view(o)),
{
    match value_get(v, key) {
        None => Some(None),
        Some(f) => {
            if value_is_null(f) {
                Some(None)
            } else {
                match value_as_str(f) {
                    Some(s) => Some(Some(s)),
                    None => None,
                }
            }
        },
    }
}

/// An optional field that must be an unsigned integer when present.
fn get_opt_u64(v: &serde_json::Value, key: &str) -> (r: Option<Option<u64>>)
    ensures
        r == spec_opt_u64_field(content_of(*v), key@),
{
    match value_get(v, key) {
        None => Some(None),
        Some(f) => {
            if value_is_null(f) {
                Some(None)
            } else {
                match value_as_u64(f) {
                    Some(t) => Some(Some(t)),
                    None => None,
                }
            }
        },
    }
}

/// A required field that must be an unsigned integer.
fn get_u64_field(v: &serde_json::Value, key: &str) -> (r: Option<u64>)
    ensures
        r == spec_u64_field(content_of(*v), key@),
{
    match value_get(v, key) {
        None => None,
        Some(f) => value_as_u64(f),
    }
}

/// The optional environment mapping: every value must be a string. The
/// keys of a decoded mapping are distinct, since an object holds each
/// key once.
#[verifier::loop_isolation(false)]
fn get_env(v: &serde_json::Value) -> (r: Option<Option<Vec<(String, String)>>>)
    ensures
        r is Some <==> spec_env_field(content_of(*v)) is Some,
        r matches Some(o) ==> spec_env_field(content_of(*v)) == Some(env_view(o)),
        r matches Some(o) ==> (o matches Some(e) ==> env_keys_distinct(env_pairs_view(e@))),
{
    let f = match value_get(v, "env") {
        None => {
            return Some(None);
        },
        Some(f) => f,
    };
    if value_is_null(f) {
        return Some(None);
    }
    let entries = match value_object_entries(f) {
        None => {
            return None;
        },
        Some(e) => e,
    };
    let ghost es = content_of(*f)->Obj_0;
    let mut out: Vec<(String, String)> = Vec::new();
    let mut i: usize = 0;
    while i < entries.len()
        invariant
            out@.len() == i,
            i <= entries@.len(),
            forall|k: int| 0 <= k < i ==> (#[trigger] es[k]).1 is Str,
            forall|k: int|
                0 <= k < i ==> (#[trigger] out@[k]).0@ == es[k].0 && out@[k].1@
                    == es[k].1->Str_0,
        decreases entries@.len() - i,
    {
        let sv = match value_as_str(&entries[i].1) {
            None => {
                proof {
                    assert(!(es[i as int].1 is Str));
                    assert(spec_str_values(es) is None);
                }
                return None;
            },
            Some(s) => s,
        };
        let k = entries[i].0.clone();
        out.push((k, sv));
        i = i + 1;
    }
    proof {
        assert(spec_str_values(es) == Some(
            Seq::new(es.len(), |k: int| (es[k].0, es[k].1->Str_0)),
        ));
        lemma_env_pairs_view(out@);
        assert(env_pairs_view(out@) =~= Seq::new(es.len(), |k: int| (es[k].0, es[k].1->Str_0)));
    }
    Some(Some(out))
}

/// Reads a current-generation header record from a parsed first line,
/// exactly as `spec_v2_header` states it; `None` makes the caller try
/// the legacy path instead.
#[verifier::rlimit(100)]
fn header_from_v2_value(v: &serde_json::Value) -> (r: Option<Header>)
    ensures
        r is Some <==> spec_v2_header(content_of(*v)) is Some,
        r matches Some(h) ==> spec_v2_header(content_of(*v)) == Some(h.content()),
        r matches Some(h) ==> h.env_wf(),
{
    let version = match get_u64_field(v, "version") {
        None => {
            return None;
        },
        Some(x) => x,
    };
    if version > 255 {
        return None;
    }
    let width = match get_u64_field(v, "width") {
        None => {
            return None;
        },
        Some(x) => x,
    };
    let height = match get_u64_field(v, "height") {
        None => {
            return None;
        },
        Some(x) => x,
    };
    if width > 65535 || height > 65535 {
        return None;
    }
    let timestamp = match get_opt_u64(v, "timestamp") {
        None => {
            return None;
        },
        Some(t) => t,
    };
    let idle_time_limit = match value_get(v, "idle_time_limit") {
        None => None,
        Some(f) => {
            if value_is_null(f) {
                None
            } else {
                let ds = match number_decimal(f) {
                    None => {
                        return None;
                    },
                    Some(d) => d,
                };
                match decimal_to_micros(ds.as_str()) {
                    None => {
                        return None;
                    },
                    Some(m) => Some(m),
                }
            }
        },
    };
    let command = match get_opt_string(v, "command") {
        None => {
            return None;
        },
        Some(c) => c,
    };
    let title = match get_opt_string(v, "title") {
        None => {
            return None;
        },
        Some(t) => t,
    };
    let env = match get_env(v) {
        None => {
            return None;
        },
        Some(e) => e,
    };
    let h = Header {
        version: version as u8,
        cols: width as u16,
        rows: height as u16,
        timestamp,
        idle_time_limit,
        command,
        title,
        env,
    };
    proof {
        assert(spec_v2_header(content_of(*v)) == Some(h.content()));
    }
    Some(h)
}

/// Decodes one parsed event line, exactly as `spec_event_of` states it.
fn event_from_value(v: &serde_json::Value) -> (r: Result<Event, Error>)
    ensures
        spec_event_of(content_of(*v)) matches Ok(ev) ==> (r matches Ok(e) && e.content() == ev),
        spec_event_of(content_of(*v)) matches Err(er) ==> r == Err::<Event, Error>(er),
{
    let arr = match value_as_array(v) {
        None => {
            return Err(Error::Decode);
        },
        Some(a) => a,
    };
    if arr.len() != 3 {
        return Err(Error::Decode);
    }
    let tstr = match number_decimal(&arr[0]) {
        None => {
            return Err(Error::InvalidTimeFormat);
        },
        Some(s) => s,
    };
    let time = match decode_time(tstr.as_str()) {
        Ok(t) => t,
        Err(e) => {
            return Err(e);
        },
    };
    let cs = match value_as_str(&arr[1]) {
        None => {
            return Err(Error::Decode);
        },
        Some(s) => s,
    };
    let code = match code_from_str(cs.as_str()) {
        Ok(c) => c,
        Err(e) => {
            return Err(e);
        },
    };
    let data = match value_as_str(&arr[2]) {
        None => {
            return Err(Error::Decode);
        },
        Some(s) => s,
    };
    Ok(Event { time, code, data })
}

/// Decodes one line of the streaming path, exactly as
/// `spec_parse_event` states it: a blank line yields nothing and is no
/// error; any other line yields its decoded event or its own error.
pub fn parse_event(line: &str) -> (r: Option<Result<Event, Error>>)
    ensures
        line@.len() == 0 <==> r is None,
        r matches Some(Ok(e)) ==> spec_parse_event(line@) == Some(Ok::<EventV, Error>(e.content())),
        r matches Some(Err(er)) ==> spec_parse_event(line@) == Some(Err::<EventV, Error>(er)),
{
    if line.is_empty() {
        return None;
    }
    match json_parse(line) {
        None => Some(Err(Error::Decode)),
        Some(v) => Some(event_from_value(&v)),
    }
}

/// Splitting the legacy event walk at any all-decodable prefix.
proof fn lemma_v1_events_prefix(es: Seq<JsonV>, j: int, i: int)
    requires
        0 <= j <= i <= es.len(),
        forall|k: int| j <= k < i ==> spec_v1_entry(#[trigger] es[k]) is Ok,
    ensures
        spec_v1_events(es, j) == (match spec_v1_events(es, i) {
            Err(e) => Err(e),
            Ok(rest) => Ok(
                Seq::new((i - j) as nat, |k: int| spec_v1_entry(es[j + k])->Ok_0) + rest,
            ),
        }),
    decreases i - j,
{
    if j == i {
        match spec_v1_events(es, i) {
            Err(_) => {},
            Ok(rest) => {
                assert(Seq::new(0, |k: int| spec_v1_entry(es[j + k])->Ok_0) + rest =~= rest);
            },
        }
    } else {
        lemma_v1_events_prefix(es, j + 1, i);
        assert(spec_v1_entry(es[j]) is Ok);
        match spec_v1_events(es, i) {
            Err(_) => {},
            Ok(rest) => {
                assert(seq![spec_v1_entry(es[j])->Ok_0] + (Seq::new(
                    (i - j - 1) as nat,
                    |k: int| spec_v1_entry(es[j + 1 + k])->Ok_0,
                ) + rest) =~= Seq::new((i - j) as nat, |k: int| spec_v1_entry(es[j + k])->Ok_0)
                    + rest);
            },
        }
    }
}

/// Decodes a whole legacy document, exactly as `spec_v1` states it. All
/// its events are output events, and the version check comes only after
/// the full structural decode, as the format demands.
#[verifier::rlimit(100)]
#[verifier::loop_isolation(false)]
fn v1_from_value(v: &serde_json::Value) -> (r: Result<Reader, Error>)
    ensures
        spec_v1(content_of(*v)) matches Ok(rv) ==> (r matches Ok(rd) && rd.content() == rv),
        spec_v1(content_of(*v)) matches Err(er) ==> r == Err::<Reader, Error>(er),
        r matches Err(e) ==> e != Error::EmptyInput,
        r matches Ok(rd) ==> rd.header.version == 1 && rd.header.timestamp is None
            && rd.header.idle_time_limit is None && rd.header.env_wf() && (forall|i: int|
            0 <= i < rd.events@.len() ==> ((#[trigger] rd.events@[i]) matches Ok(e) && e.code
                == EventCode::Output)),
{
    let ghost cj = content_of(*v);
    let version = match get_u64_field(v, "version") {
        None => {
            return Err(Error::Decode);
        },
        Some(x) => x,
    };
    if version > 255 {
        return Err(Error::Decode);
    }
    let width = match get_u64_field(v, "width") {
        None => {
            return Err(Error::Decode);
        },
        Some(x) => x,
    };
    let height = match get_u64_field(v, "height") {
        None => {
            return Err(Error::Decode);
        },
        Some(x) => x,
    };
    if width > 65535 || height > 65535 {
        return Err(Error::Decode);
    }
    let command = match get_opt_string(v, "command") {
        None => {
            return Err(Error::Decode);
        },
        Some(c) => c,
    };
    let title = match get_opt_string(v, "title") {
        None => {
            return Err(Error::Decode);
        },
        Some(t) => t,
    };
    let env = match get_env(v) {
        None => {
            return Err(Error::Decode);
        },
        Some(e) => e,
    };
    let stdout_field = match value_get(v, "stdout") {
        None => {
            return Err(Error::Decode);
        },
        Some(f) => f,
    };
    let arr = match value_as_array(stdout_field) {
        None => {
            return Err(Error::Decode);
        },
        Some(a) => a,
    };
    let ghost es = content_of(*stdout_field)->Arr_0;
    let mut events: Vec<Result<Event, Error>> = Vec::new();
    let mut i: usize = 0;
    while i < arr.len()
        invariant
            events@.len() == i,
            i <= arr@.len(),
            forall|k: int| 0 <= k < i ==> spec_v1_entry(#[trigger] es[k]) is Ok,
            forall|k: int|
                0 <= k < i ==> ((#[trigger] events@[k]) matches Ok(e) && e.code
                    == EventCode::Output && e.content() == spec_v1_entry(es[k])->Ok_0),
        decreases arr@.len() - i,
    {
        let entry = &arr[i];
        proof {
            assert(content_of(*entry) == es[i as int]);
        }
        let tv = match value_get(entry, "time") {
            None => {
                proof {
                    lemma_v1_events_prefix(es, 0, i as int);
                }
                return Err(Error::Decode);
            },
            Some(f) => f,
        };
        let ds = match number_decimal(tv) {
            None => {
                proof {
                    lemma_v1_events_prefix(es, 0, i as int);
                }
                return Err(Error::InvalidTimeFormat);
            },
            Some(s) => s,
        };
        let time = match decode_time(ds.as_str()) {
            Ok(t) => t,
            Err(e) => {
                proof {
                    lemma_v1_events_prefix(es, 0, i as int);
                }
                return Err(e);
            },
        };
        let dv = match value_get(entry, "data") {
            None => {
                proof {
                    lemma_v1_events_prefix(es, 0, i as int);
                }
                return Err(Error::Decode);
            },
            Some(f) => f,
        };
        let data = match value_as_str(dv) {
            None => {
                proof {
                    lemma_v1_events_prefix(es, 0, i as int);
                }
                return Err(Error::Decode);
            },
            Some(s) => s,
        };
        events.push(Ok(Event { time, code: EventCode::Output, data }));
        i = i + 1;
    }
    proof {
        lemma_v1_events_prefix(es, 0, es.len() as int);
    }
    if version != 1 {
        return Err(Error::UnsupportedVersion);
    }
    let rd = Reader {
        header: Header {
            version: 1,
            cols: width as u16,
            rows: height as u16,
            timestamp: None,
            idle_time_limit: None,
            command,
            title,
            env,
        },
        events,
    };
    proof {
        let evs = Seq::new(es.len(), |k: int| spec_v1_entry(es[k])->Ok_0);
        assert(spec_v1_events(es, es.len() as int) == Ok::<Seq<EventV>, Error>(Seq::empty()));
        assert(spec_v1_events(es, 0) is Ok);
        assert(spec_v1_events(es, 0)->Ok_0 =~= evs);
        assert(spec_v1_events(es, 0) == Ok::<Seq<EventV>, Error>(evs));
        assert(events_content(rd.events@) =~= Seq::new(evs.len(), |k: int| Ok(evs[k])));
        assert(spec_v1(cj) matches Ok(rv) && rd.content() == rv);
    }
    Ok(rd)
}

/// Opens a recording given its lines, with the trailing newlines already
/// stripped, exactly as `spec_open` states it.
///
/// The first line decides the generation: a line that decodes as a
/// current-generation header record takes the streaming path (each later
/// line one event, blank lines skipped, a bad line standing as its own
/// error); any other first line makes the whole input one legacy
/// document. An input without lines is empty; a document of either shape
/// whose version field does not match its generation is unsupported.
#[verifier::rlimit(100)]
#[verifier::loop_isolation(false)]
pub fn open(lines: Vec<String>) -> (r: Result<Reader, Error>)
    ensures
        r matches Ok(rd) ==> (spec_open(lines@) matches Ok(rv) && rd.content() == rv),
        r matches Err(e) ==> spec_open(lines@) == Err::<ReaderV, Error>(e),
        (lines@.len() == 0) <==> (r matches Err(e) && e == Error::EmptyInput),
        r matches Ok(rd) ==> rd.header.version == 1 || rd.header.version == 2,
        r matches Ok(rd) ==> rd.header.env_wf(),
        r matches Ok(rd) ==> (rd.header.version == 1 ==> rd.header.timestamp is None
            && rd.header.idle_time_limit is None && (forall|i: int|
            0 <= i < rd.events@.len() ==> ((#[trigger] rd.events@[i]) matches Ok(e) && e.code
                == EventCode::Output))),
{
    if lines.len() == 0 {
        return Err(Error::EmptyInput);
    }
    let v2 = match json_parse(lines[0].as_str()) {
        Some(v) => header_from_v2_value(&v),
        None => None,
    };
    match v2 {
        Some(h) => {
            if h.version != 2 {
                return Err(Error::UnsupportedVersion);
            }
            let mut events: Vec<Result<Event, Error>> = Vec::new();
            let mut i: usize = 1;
            while i < lines.len()
                invariant
                    1 <= i <= lines@.len(),
                    events_content(events@) + spec_v2_events(lines@, i as int) == spec_v2_events(
                        lines@,
                        1,
                    ),
                decreases lines@.len() - i,
            {
                let ghost before = events@;
                match parse_event(lines[i].as_str()) {
                    Some(ev) => {
                        let ghost res = spec_parse_event(lines@[i as int]@)->0;
                        events.push(ev);
                        proof {
                            lemma_events_content_push(before, ev);
                            assert(events_content(before).push(res) + spec_v2_events(
                                lines@,
                                i as int + 1,
                            ) =~= events_content(before) + (seq![res] + spec_v2_events(
                                lines@,
                                i as int + 1,
                            )));
                        }
                    },
                    None => {
                        proof {
                            assert(Seq::<Result<EventV, Error>>::empty() + spec_v2_events(
                                lines@,
                                i as int + 1,
                            ) =~= spec_v2_events(lines@, i as int + 1));
                        }
                    },
                }
                i = i + 1;
            }
            let rd = Reader { header: h, events };
            proof {
                assert(spec_v2_events(lines@, lines@.len() as int)
                    =~= Seq::<Result<EventV, Error>>::empty());
                assert(events_content(rd.events@) + Seq::<Result<EventV, Error>>::empty()
                    =~= events_content(rd.events@));
                assert(spec_open(lines@) matches Ok(rv) && rd.content() == rv);
            }
            Ok(rd)
        },
        None => {
            let doc = join_lines(&lines);
            match json_parse(doc.as_str()) {
                None => Err(Error::Decode),
                Some(v) => v1_from_value(&v),
            }
        },
    }
}

} // verus!
