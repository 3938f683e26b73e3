use vstd::prelude::*;

verus! {

/// Session metadata, one per recording.
///
/// `version` tells which format generation the recording uses (1 or 2);
/// `cols` and `rows` are the terminal size. The optional fields are only
/// meaningful for the current generation; decoding a legacy document
/// never populates `timestamp` or `idle_time_limit`. The idle time limit
/// is held in microseconds, the resolution of every time in this crate.
#[derive(Debug)]
pub struct Header {
    pub version: u8,
    pub cols: u16,
    pub rows: u16,
    pub timestamp: Option<u64>,
    pub idle_time_limit: Option<u64>,
    pub command: Option<String>,
    pub title: Option<String>,
    pub env: Option<Vec<(String, String)>>,
}

/// The view of an optional text field.
pub open spec fn opt_str_view(o: Option<String>) -> Option<Seq<char>> {
    match o {
        Some(s) => Some(s@),
        None => None,
    }
}

/// The view of a sequence of environment entries.
pub open spec fn env_pairs_view(v: Seq<(String, String)>) -> Seq<(Seq<char>, Seq<char>)>
    decreases v.len(),
{
    if v.len() == 0 {
        Seq::empty()
    } else {
        env_pairs_view(v.drop_last()).push((v.last().0@, v.last().1@))
    }
}

/// The view of the optional environment mapping.
pub open spec fn env_view(o: Option<Vec<(String, String)>>) -> Option<
    Seq<(Seq<char>, Seq<char>)>,
> {
    match o {
        Some(v) => Some(env_pairs_view(v@)),
        None => None,
    }
}

/// The mathematical content of a header line: every field reduced to
/// plain values and character sequences.
pub ghost struct HeaderView {
    pub version: nat,
    pub width: nat,
    pub height: nat,
    pub timestamp: Option<u64>,
    pub idle_time_limit: Option<u64>,
    pub command: Option<Seq<char>>,
    pub title: Option<Seq<char>>,
    pub env: Option<Seq<(Seq<char>, Seq<char>)>>,
}

/// The documented invariant of an environment mapping: each key occurs
/// once. Decoding establishes it (a JSON object holds each key once);
/// the writer emits entries in the order given either way, so a caller
/// who builds a header by hand keeps it.
pub open spec fn env_keys_distinct(e: Seq<(Seq<char>, Seq<char>)>) -> bool {
    forall|i: int, j: int| 0 <= i < j < e.len() ==> (#[trigger] e[i]).0 != (#[trigger] e[j]).0
}

impl Header {
    /// The environment mapping, when present, holds each key once.
    pub open spec fn env_wf(&self) -> bool {
        match env_view(self.env) {
            Some(e) => env_keys_distinct(e),
            None => true,
        }
    }

    /// The mathematical content of this header, with the version as it
    /// stands in the record.
    pub open spec fn content(&self) -> HeaderView {
        HeaderView {
            version: self.version as nat,
            width: self.cols as nat,
            height: self.rows as nat,
            timestamp: self.timestamp,
            idle_time_limit: self.idle_time_limit,
            command: opt_str_view(self.command),
            title: opt_str_view(self.title),
            env: env_view(self.env),
        }
    }

    /// What this header says when written: the wire version is always 2.
    pub open spec fn wire_view(&self) -> HeaderView {
        HeaderView {
            version: 2,
            width: self.cols as nat,
            height: self.rows as nat,
            timestamp: self.timestamp,
            idle_time_limit: self.idle_time_limit,
            command: opt_str_view(self.command),
            title: opt_str_view(self.title),
            env: env_view(self.env),
        }
    }
}

/// Element values of the environment view.
pub proof fn lemma_env_pairs_view(v: Seq<(String, String)>)
    ensures
        env_pairs_view(v).len() == v.len(),
        forall|i: int| 0 <= i < v.len() ==> #[trigger] env_pairs_view(v)[i] == (v[i].0@, v[i].1@),
    decreases v.len(),
{
    if v.len() > 0 {
        lemma_env_pairs_view(v.drop_last());
        assert forall|i: int| 0 <= i < v.len() implies #[trigger] env_pairs_view(v)[i] == (
        v[i].0@,
        v[i].1@,
        ) by {
            if i < v.len() - 1 {
                assert(env_pairs_view(v)[i] == env_pairs_view(v.drop_last())[i]);
                assert(v.drop_last()[i] == v[i]);
            }
        }
    }
}

/// The wire record of a current-generation header line, not exposed past
/// the reading and writing boundary.
#[derive(Debug)]
pub struct V2Header {
    pub version: u8,
    pub width: u16,
    pub height: u16,
    pub timestamp: Option<u64>,
    pub idle_time_limit: Option<u64>,
    pub command: Option<String>,
    pub title: Option<String>,
    pub env: Option<Vec<(String, String)>>,
}

impl V2Header {
    /// The mathematical content of this wire record.
    pub open spec fn content(&self) -> HeaderView {
        HeaderView {
            version: self.version as nat,
            width: self.width as nat,
            height: self.height as nat,
            timestamp: self.timestamp,
            idle_time_limit: self.idle_time_limit,
            command: opt_str_view(self.command),
            title: opt_str_view(self.title),
            env: env_view(self.env),
        }
    }
}

fn clone_opt_string(o: &Option<String>) -> (r: Option<String>)
    ensures
        opt_str_view(r) == opt_str_view(*o),
{
    match o {
        Some(s) => Some(s.clone()),
        None => None,
    }
}

fn clone_env(o: &Option<Vec<(String, String)>>) -> (r: Option<Vec<(String, String)>>)
    ensures
        env_view(r) == env_view(*o),
{
    match o {
        None => None,
        Some(v) => {
            let mut out: Vec<(String, String)> = Vec::new();
            let mut i: usize = 0;
            while i < v.len()
                invariant
                    i <= v@.len(),
                    env_pairs_view(out@) =~~= env_pairs_view(v@.take(i as int)),
                decreases v@.len() - i,
            {
                let k = v[i].0.clone();
                let val = v[i].1.clone();
                let ghost prev = out@;
                out.push((k, val));
                proof {
                    assert(out@.drop_last() =~= prev);
                    assert(out@.last() == (v@[i as int].0, v@[i as int].1));
                    assert(v@.take(i as int + 1).drop_last() =~= v@.take(i as int));
                    assert(v@.take(i as int + 1).last() == v@[i as int]);
                    assert(env_pairs_view(out@) =~= env_pairs_view(v@.take(i as int + 1)));
                }
                i = i + 1;
            }
            proof {
                assert(v@.take(v@.len() as int) =~= v@);
            }
            Some(out)
        },
    }
}

impl V2Header {
    /// The wire record that writes a given header: the version is pinned
    /// to 2, the size and every optional field carry over.
    pub fn of_header(h: &Header) -> (r: V2Header)
        ensures
            r.version == 2,
            r.width == h.cols,
            r.height == h.rows,
            r.timestamp == h.timestamp,
            r.idle_time_limit == h.idle_time_limit,
            opt_str_view(r.command) == opt_str_view(h.command),
            opt_str_view(r.title) == opt_str_view(h.title),
            env_view(r.env) == env_view(h.env),
            r.content() == h.wire_view(),
    {
        V2Header {
            version: 2,
            width: h.cols,
            height: h.rows,
            timestamp: h.timestamp,
            idle_time_limit: h.idle_time_limit,
            command: clone_opt_string(&h.command),
            title: clone_opt_string(&h.title),
            env: clone_env(&h.env),
        }
    }

    /// The header a decoded current-generation wire record stands for.
    pub fn into_header(self) -> (r: Header)
        ensures
            r.version == 2,
            r.cols == self.width,
            r.rows == self.height,
            r.timestamp == self.timestamp,
            r.idle_time_limit == self.idle_time_limit,
            r.command == self.command,
            r.title == self.title,
            r.env == self.env,
    {
        Header {
            version: 2,
            cols: self.width,
            rows: self.height,
            timestamp: self.timestamp,
            idle_time_limit: self.idle_time_limit,
            command: self.command,
            title: self.title,
            env: self.env,
        }
    }
}

} // verus!
