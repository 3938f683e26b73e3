use vstd::prelude::*;
use crate::codec::dec_rep;
use crate::codec::dec_pad;
use crate::codec::trim_zeros;
use crate::codec::push_dec;
use crate::codec::push_trim_frac;
use crate::codec::spec_encode_time;
use crate::codec::encode_time;
use crate::event::Event;
use crate::event::EventCode;
use crate::header::Header;
use crate::header::HeaderView;
use crate::header::V2Header;
use crate::header::env_pairs_view;
use crate::header::lemma_env_pairs_view;
use crate::json::json_quote;
use crate::json::json_str_of;

verus! {

/// The JSON number for an idle-time limit of `m` microseconds: decimal
/// seconds with the fractional zeros trimmed, but always at least one
/// fractional digit, so that the text stays a JSON number.
pub open spec fn spec_json_seconds(m: u64) -> Seq<char> {
    dec_rep((m / 1_000_000) as nat) + "."@ + if m % 1_000_000 == 0 {
        "0"@
    } else {
        trim_zeros(dec_pad((m % 1_000_000) as nat, 6))
    }
}

fn push_json_seconds(out: &mut String, m: u64)
    ensures
        final(out)@ == old(out)@ + spec_json_seconds(m),
{
    push_dec(out, m / 1_000_000);
    out.append(".");
    if m % 1_000_000 == 0 {
        out.append("0");
    } else {
        push_trim_frac(out, m % 1_000_000);
    }
    proof {
        assert(final(out)@ =~= old(out)@ + spec_json_seconds(m));
    }
}

/// The text of one environment entry: a JSON key and a JSON value.
pub open spec fn spec_env_entry(p: (Seq<char>, Seq<char>)) -> Seq<char> {
    json_str_of(p.0) + ":"@ + json_str_of(p.1)
}

/// The comma separated entries of the environment object, in order.
pub open spec fn spec_env_entries(e: Seq<(Seq<char>, Seq<char>)>) -> Seq<char>
    decreases e.len(),
{
    if e.len() == 0 {
        Seq::empty()
    } else if e.len() == 1 {
        spec_env_entry(e[0])
    } else {
        spec_env_entries(e.drop_last()) + ","@ + spec_env_entry(e.last())
    }
}

/// The four fields every header line carries, in fixed order, with
/// `timestamp` written as `null` when absent.
pub open spec fn spec_header_required(h: HeaderView) -> Seq<char> {
    "{\"version\":"@ + dec_rep(h.version) + ",\"width\":"@ + dec_rep(h.width) + ",\"height\":"@
        + dec_rep(h.height) + ",\"timestamp\":"@ + (match h.timestamp {
        Some(t) => dec_rep(t as nat),
        None => "null"@,
    })
}

/// The idle-time-limit field, only when present.
pub open spec fn spec_idle_part(o: Option<u64>) -> Seq<char> {
    match o {
        Some(m) => ",\"idle_time_limit\":"@ + spec_json_seconds(m),
        None => Seq::<char>::empty(),
    }
}

/// The command field, only when present.
pub open spec fn spec_command_part(o: Option<Seq<char>>) -> Seq<char> {
    match o {
        Some(c) => ",\"command\":"@ + json_str_of(c),
        None => Seq::<char>::empty(),
    }
}

/// The title field, only when present.
pub open spec fn spec_title_part(o: Option<Seq<char>>) -> Seq<char> {
    match o {
        Some(t) => ",\"title\":"@ + json_str_of(t),
        None => Seq::<char>::empty(),
    }
}

/// The environment object, only when present and nonempty.
pub open spec fn spec_env_part(o: Option<Seq<(Seq<char>, Seq<char>)>>) -> Seq<char> {
    match o {
        Some(e) => if e.len() > 0 {
            ",\"env\":{"@ + spec_env_entries(e) + "}"@
        } else {
            Seq::<char>::empty()
        },
        None => Seq::<char>::empty(),
    }
}

/// The optional fields, each appearing only when present, and `env`
/// only when also nonempty.
pub open spec fn spec_header_optional(h: HeaderView) -> Seq<char> {
    spec_idle_part(h.idle_time_limit) + spec_command_part(h.command) + spec_title_part(h.title)
        + spec_env_part(h.env)
}

/// The one header line of a current-generation file: the required
/// fields, then the optional ones, as one JSON object.
pub open spec fn spec_header_line(h: HeaderView) -> Seq<char> {
    spec_header_required(h) + spec_header_optional(h) + "}"@
}

/// One event line: a three element JSON array of the encoded time, the
/// one-character code as a JSON string, and the data as a JSON string.
pub open spec fn spec_event_line(t: u64, code: char, data: Seq<char>) -> Seq<char> {
    "["@ + spec_encode_time(t) + ", "@ + json_str_of(seq![code]) + ", "@ + json_str_of(data)
        + "]"@
}

fn push_env_entries(out: &mut String, e: &Vec<(String, String)>)
    ensures
        final(out)@ == old(out)@ + spec_env_entries(env_pairs_view(e@)),
{
    let ghost ep = env_pairs_view(e@);
    proof {
        lemma_env_pairs_view(e@);
    }
    let mut i: usize = 0;
    while i < e.len()
        invariant
            i <= e@.len(),
            ep == env_pairs_view(e@),
            ep.len() == e@.len(),
            forall|k: int| 0 <= k < e@.len() ==> #[trigger] ep[k] == (e@[k].0@, e@[k].1@),
            out@ == old(out)@ + spec_env_entries(ep.take(i as int)),
        decreases e@.len() - i,
    {
        if i > 0 {
            out.append(",");
        }
        let kq = json_quote(e[i].0.as_str());
        out.append(kq.as_str());
        out.append(":");
        let vq = json_quote(e[i].1.as_str());
        out.append(vq.as_str());
        proof {
            assert(ep.take(i as int + 1).drop_last() =~= ep.take(i as int));
            assert(ep.take(i as int + 1).last() == ep[i as int]);
            assert(spec_env_entry(ep[i as int]) == json_str_of(e@[i as int].0@) + ":"@
                + json_str_of(e@[i as int].1@));
            if i == 0 {
                assert(spec_env_entries(ep.take(1)) == spec_env_entry(ep[0]));
                assert(out@ =~= old(out)@ + spec_env_entries(ep.take(i as int + 1)));
            } else {
                assert(out@ =~= old(out)@ + spec_env_entries(ep.take(i as int + 1)));
            }
        }
        i = i + 1;
    }
    proof {
        assert(ep.take(e@.len() as int) =~= ep);
    }
}

fn push_idle_part(out: &mut String, o: &Option<u64>)
    ensures
        final(out)@ == old(out)@ + spec_idle_part(*o),
{
    match o {
        Some(m) => {
            out.append(",\"idle_time_limit\":");
            push_json_seconds(out, *m);
            proof {
                assert(final(out)@ =~= old(out)@ + spec_idle_part(*o));
            }
        },
        None => {
            proof {
                assert(final(out)@ =~= old(out)@ + spec_idle_part(*o));
            }
        },
    }
}

fn push_command_part(out: &mut String, o: &Option<String>)
    ensures
        final(out)@ == old(out)@ + spec_command_part(crate::header::opt_str_view(*o)),
{
    match o {
        Some(c) => {
            out.append(",\"command\":");
            let q = json_quote(c.as_str());
            out.append(q.as_str());
            proof {
                assert(final(out)@ =~= old(out)@ + spec_command_part(
                    crate::header::opt_str_view(*o),
                ));
            }
        },
        None => {
            proof {
                assert(final(out)@ =~= old(out)@ + spec_command_part(
                    crate::header::opt_str_view(*o),
                ));
            }
        },
    }
}

fn push_title_part(out: &mut String, o: &Option<String>)
    ensures
        final(out)@ == old(out)@ + spec_title_part(crate::header::opt_str_view(*o)),
{
    match o {
        Some(t) => {
            out.append(",\"title\":");
            let q = json_quote(t.as_str());
            out.append(q.as_str());
            proof {
                assert(final(out)@ =~= old(out)@ + spec_title_part(
                    crate::header::opt_str_view(*o),
                ));
            }
        },
        None => {
            proof {
                assert(final(out)@ =~= old(out)@ + spec_title_part(
                    crate::header::opt_str_view(*o),
                ));
            }
        },
    }
}

fn push_env_part(out: &mut String, o: &Option<Vec<(String, String)>>)
    ensures
        final(out)@ == old(out)@ + spec_env_part(crate::header::env_view(*o)),
{
    match o {
        Some(e) => {
            if e.len() > 0 {
                out.append(",\"env\":{");
                push_env_entries(out, e);
                out.append("}");
                proof {
                    lemma_env_pairs_view(e@);
                    assert(final(out)@ =~= old(out)@ + spec_env_part(crate::header::env_view(*o)));
                }
            } else {
                proof {
                    lemma_env_pairs_view(e@);
                    assert(final(out)@ =~= old(out)@ + spec_env_part(crate::header::env_view(*o)));
                }
            }
        },
        None => {
            proof {
                assert(final(out)@ =~= old(out)@ + spec_env_part(crate::header::env_view(*o)));
            }
        },
    }
}

fn push_header_optional(out: &mut String, h: &V2Header)
    ensures
        final(out)@ == old(out)@ + spec_header_optional(h.content()),
{
    push_idle_part(out, &h.idle_time_limit);
    push_command_part(out, &h.command);
    push_title_part(out, &h.title);
    push_env_part(out, &h.env);
    proof {
        assert(final(out)@ =~= old(out)@ + spec_header_optional(h.content()));
    }
}

fn header_line(h: &V2Header) -> (r: String)
    ensures
        r@ == spec_header_line(h.content()),
{
    let mut out = String::from_str("{\"version\":");
    push_dec(&mut out, h.version as u64);
    out.append(",\"width\":");
    push_dec(&mut out, h.width as u64);
    out.append(",\"height\":");
    push_dec(&mut out, h.height as u64);
    out.append(",\"timestamp\":");
    match &h.timestamp {
        Some(t) => push_dec(&mut out, *t),
        None => out.append("null"),
    }
    proof {
        assert(out@ =~= spec_header_required(h.content()));
    }
    push_header_optional(&mut out, h);
    out.append("}");
    proof {
        assert(out@ =~= spec_header_line(h.content()));
    }
    out
}

fn event_line(t: u64, code: &EventCode, data: &str) -> (r: String)
    ensures
        r@ == spec_event_line(t, code.spec_char(), data@),
{
    let mut out = String::from_str("[");
    let time_text = encode_time(t);
    out.append(time_text.as_str());
    out.append(", ");
    let code_text = code.to_text();
    let code_json = json_quote(code_text.as_str());
    out.append(code_json.as_str());
    out.append(", ");
    let data_json = json_quote(data);
    out.append(data_json.as_str());
    out.append("]");
    proof {
        assert(out@ =~= spec_event_line(t, code.spec_char(), data@));
    }
    out
}

/// Renders recording lines for one destination, adding a fixed offset to
/// every event time - used when appending a later segment to a timeline
/// that already has elapsed time. The caller puts each returned line on
/// the wire followed by one newline.
pub struct Writer {
    pub time_offset: u64,
}

impl Writer {
    pub fn new(time_offset: u64) -> (w: Writer)
        ensures
            w.time_offset == time_offset,
    {
        Writer { time_offset }
    }

    /// The header line for `header`, with the wire version pinned to 2.
    pub fn write_header(&self, header: &Header) -> (r: String)
        ensures
            r@ == spec_header_line(header.wire_view()),
    {
        let wire = V2Header::of_header(header);
        header_line(&wire)
    }

    /// The line for one event, its time shifted by this writer's offset.
    /// The shifted time must stay representable.
    pub fn write_event(&self, event: &Event) -> (r: String)
        requires
            event.time + self.time_offset <= u64::MAX,
        ensures
            r@ == spec_event_line((event.time + self.time_offset) as u64, event.code.spec_char(),
                event.data@),
    {
        event_line(event.time + self.time_offset, &event.code, event.data.as_str())
    }
}

} // verus!
