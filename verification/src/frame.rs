//! Frame reassembly and event translation for a streaming answer.
//!
//! Raw byte chunks arrive from the network in arbitrary pieces; a frame is a
//! line `data: <payload>` terminated by a newline, where the payload is a
//! JSON unit of model output or the terminal sentinel `[DONE]`. The
//! reassembler carries the trailing incomplete line across chunk boundaries,
//! so that a frame split at any byte boundary is decoded exactly once, when
//! its line terminator has arrived; a complete line whose payload does not
//! decode is absorbed locally and never stops the stream.

use vstd::prelude::*;

verus! {

use crate::llm::LLMAnswer;
use crate::text::{
    line_end,
    lemma_line_end_bounds,
    lemma_line_end_skip,
    find_line_end,
    matches_at,
    spec_matches_at,
    chars_eq,
    sub_vec,
    append_vec,
    to_chars,
    from_chars,
};
use crate::translate::{spec_normalize, normalize};

/// One streaming event, abstractly.
pub enum Ev {
    Start,
    Ans(Seq<char>),
    End,
}

/// The abstract event carried by an answer event value.
pub open spec fn ev_of(e: LLMAnswer) -> Ev {
    match e {
        LLMAnswer::StartAnswer => Ev::Start,
        LLMAnswer::Answer(s) => Ev::Ans(s@),
        LLMAnswer::EndAnswer => Ev::End,
    }
}

/// The abstract events carried by a vector of answer events.
pub open spec fn evs_of(es: Seq<LLMAnswer>) -> Seq<Ev> {
    es.map_values(|e: LLMAnswer| ev_of(e))
}

/// The line prefix that starts a frame.
pub open spec fn delim() -> Seq<char> {
    seq!['d', 'a', 't', 'a', ':', ' ']
}

/// The payload that terminates the stream.
pub open spec fn sentinel() -> Seq<char> {
    seq!['[', 'D', 'O', 'N', 'E', ']']
}

/// The decode artifact that is dropped rather than emitted.
pub open spec fn null_text() -> Seq<char> {
    seq!['n', 'u', 'l', 'l']
}

/// What the JSON decode of a complete frame payload yields: `None` when the
/// payload does not parse, `Some(None)` when it parses but carries no text
/// fragment, and `Some(Some(t))` when it carries the fragment `t`. The
/// result depends on the payload text alone.
pub uninterp spec fn frame_decode(payload: Seq<char>) -> Option<Option<Seq<char>>>;

/// Relies on `serde_json::from_str::<Value>` and `serde_json::Value`
/// indexing/`as_str`: parses the payload as JSON and extracts its text
/// fragment — the top-level `delta` string, or the nested
/// `choices[0].delta.content` string — with `None` for a payload that is
/// not valid JSON.
#[verifier::external_body]
fn decode_payload(payload: &str) -> (r: Option<Option<String>>)
    ensures
        match r {
            None => frame_decode(payload@) is None,
            Some(None) => frame_decode(payload@) == Some(None::<Seq<char>>),
            Some(Some(t)) => frame_decode(payload@) == Some(Some(t@)),
        },
{
    match serde_json::from_str::<serde_json::Value>(payload) {
        Err(_) => None,
        Ok(v) => {
            if let Some(s) = v["delta"].as_str() {
                Some(Some(s.to_string()))
            } else if let Some(s) = v["choices"][0]["delta"]["content"].as_str() {
                Some(Some(s.to_string()))
            } else {
                Some(None)
            }
        },
    }
}

/// How a backend's fragments are translated before emission.
#[derive(Debug, Clone, Copy, PartialEq, Eq, Structural)]
pub enum Translation {
    /// The fragment is forwarded as it stands; a frame with no fragment
    /// stands for a line break.
    Verbatim,
    /// The fragment passes the escape-decoding normalization chain; a frame
    /// with no fragment contributes nothing.
    Decoded,
}

/// The text a decoded frame contributes, by translation mode.
pub open spec fn fragment_of(t: Translation, content: Option<Seq<char>>) -> Seq<char> {
    match t {
        Translation::Verbatim => match content {
            Some(c) => c,
            None => seq!['\n'],
        },
        Translation::Decoded => match content {
            Some(c) => spec_normalize(c),
            None => Seq::<char>::empty(),
        },
    }
}

/// Whether a translated fragment is emitted: the artifact text `null` is
/// dropped.
pub open spec fn emits(frag: Seq<char>) -> bool {
    frag != null_text()
}

/// The outcome of scanning a buffer: the events emitted, the carried-over
/// tail, and whether the sentinel ended the stream.
#[verifier::ext_equal]
pub struct ScanOut {
    pub events: Seq<Ev>,
    pub tail: Seq<char>,
    pub done: bool,
}

/// Scan a buffer line by line. A complete `data: ` line is decoded — the
/// sentinel ends the stream at once, a fragment is translated and possibly
/// emitted, an undecodable payload is absorbed — any other complete line is
/// skipped, and the trailing incomplete line is carried over as the tail.
pub open spec fn scan(buf: Seq<char>, t: Translation) -> ScanOut
    decreases buf.len(),
    via scan_decreases
{
    let le = line_end(buf, 0);
    if le >= buf.len() {
        ScanOut { events: Seq::<Ev>::empty(), tail: buf, done: false }
    } else {
        let line = buf.subrange(0, le);
        let rest = buf.skip(le + 1);
        if spec_matches_at(line, 0, delim()) {
            let payload = line.skip(6);
            if payload == sentinel() {
                ScanOut { events: seq![Ev::End], tail: Seq::<char>::empty(), done: true }
            } else {
                match frame_decode(payload) {
                    None => scan(rest, t),
                    Some(content) => {
                        let frag = fragment_of(t, content);
                        let out = scan(rest, t);
                        if emits(frag) {
                            ScanOut {
                                events: seq![Ev::Ans(frag)] + out.events,
                                tail: out.tail,
                                done: out.done,
                            }
                        } else {
                            out
                        }
                    },
                }
            }
        } else {
            scan(rest, t)
        }
    }
}

#[via_fn]
proof fn scan_decreases(buf: Seq<char>, t: Translation) {
    lemma_line_end_bounds(buf, 0);
}

/// A scan outcome with earlier events prepended.
pub open spec fn glue(pre: Seq<Ev>, sc: ScanOut) -> ScanOut {
    ScanOut { events: pre + sc.events, tail: sc.tail, done: sc.done }
}

/// All events of a sequence are answer fragments.
pub open spec fn answers_only(es: Seq<Ev>) -> bool {
    forall|i: int| 0 <= i < es.len() ==> es[i] is Ans
}

/// Scanning from a suffix sees the same first line, shifted.
pub proof fn lemma_line_end_shift(s: Seq<char>, p: int)
    requires
        0 <= p <= s.len(),
    ensures
        line_end(s.skip(p), 0) == line_end(s, p) - p,
{
    let le = line_end(s, p);
    lemma_line_end_bounds(s, p);
    let t = s.skip(p);
    assert(forall|k: int| 0 <= k < le - p ==> t[k] == s[p + k]);
    lemma_line_end_skip(t, 0, le - p);
    if le - p < t.len() {
        assert(t[le - p] == s[le]);
    }
}

/// The scan of the suffix of `buf` at position `pos`, unfolded one line.
pub proof fn lemma_scan_unfold_at(buf: Seq<char>, t: Translation, pos: int)
    requires
        0 <= pos <= buf.len(),
    ensures
        line_end(buf, pos) >= buf.len() ==> scan(buf.skip(pos), t) == (ScanOut {
            events: Seq::<Ev>::empty(),
            tail: buf.skip(pos),
            done: false,
        }),
        line_end(buf, pos) < buf.len() ==> {
            let le = line_end(buf, pos);
            let line = buf.subrange(pos, le);
            let rest_scan = scan(buf.skip(le + 1), t);
            scan(buf.skip(pos), t) == (if spec_matches_at(line, 0, delim()) {
                if line.skip(6) == sentinel() {
                    ScanOut { events: seq![Ev::End], tail: Seq::<char>::empty(), done: true }
                } else {
                    match frame_decode(line.skip(6)) {
                        None => rest_scan,
                        Some(content) => {
                            if emits(fragment_of(t, content)) {
                                glue(seq![Ev::Ans(fragment_of(t, content))], rest_scan)
                            } else {
                                rest_scan
                            }
                        },
                    }
                }
            } else {
                rest_scan
            })
        },
{
    let s = buf.skip(pos);
    lemma_line_end_shift(buf, pos);
    lemma_line_end_bounds(buf, pos);
    let le = line_end(buf, pos);
    if le >= buf.len() {
        assert(line_end(s, 0) >= s.len());
        assert(scan(s, t) =~= ScanOut { events: Seq::<Ev>::empty(), tail: s, done: false });
    } else {
        let le2 = le - pos;
        assert(line_end(s, 0) == le2);
        assert(le2 < s.len());
        let line2 = s.subrange(0, le2);
        let line = buf.subrange(pos, le);
        assert(line2 =~= line);
        assert(s.skip(le2 + 1) =~= buf.skip(le + 1));
        let rest_scan = scan(buf.skip(le + 1), t);
        if spec_matches_at(line, 0, delim()) {
            if line.skip(6) == sentinel() {
            } else {
                match frame_decode(line.skip(6)) {
                    None => {},
                    Some(content) => {
                        if emits(fragment_of(t, content)) {
                            assert(scan(s, t) =~= glue(
                                seq![Ev::Ans(fragment_of(t, content))],
                                rest_scan,
                            ));
                        }
                    },
                }
            }
        }
    }
}

/// The shape of any scan outcome: a finished scan ends in exactly one
/// terminal event after only answers and leaves no tail; an unfinished scan
/// yields only answers and a tail that holds no newline.
pub proof fn lemma_scan_shape(buf: Seq<char>, t: Translation)
    ensures
        scan(buf, t).done ==> scan(buf, t).events.len() >= 1 && scan(buf, t).events.last() is End
            && answers_only(scan(buf, t).events.drop_last()) && scan(buf, t).tail.len() == 0,
        !scan(buf, t).done ==> answers_only(scan(buf, t).events),
        forall|i: int|
            0 <= i < scan(buf, t).tail.len() ==> #[trigger] scan(buf, t).tail[i] != '\n',
    decreases buf.len(),
{
    let le = line_end(buf, 0);
    lemma_line_end_bounds(buf, 0);
    if le >= buf.len() {
    } else {
        let line = buf.subrange(0, le);
        let rest = buf.skip(le + 1);
        lemma_scan_shape(rest, t);
        if spec_matches_at(line, 0, delim()) {
            let payload = line.skip(6);
            if payload == sentinel() {
            } else {
                match frame_decode(payload) {
                    None => {},
                    Some(content) => {
                        let frag = fragment_of(t, content);
                        let out = scan(rest, t);
                        if emits(frag) {
                            let es = seq![Ev::Ans(frag)] + out.events;
                            if out.done {
                                assert(es.last() == out.events.last());
                                assert(es.drop_last() =~= seq![Ev::Ans(frag)]
                                    + out.events.drop_last());
                            }
                        }
                    },
                }
            }
        }
    }
}

/// A first line that is complete stays the same line when input is appended.
pub proof fn lemma_line_end_append(u: Seq<char>, v: Seq<char>)
    requires
        line_end(u, 0) < u.len(),
    ensures
        line_end(u + v, 0) == line_end(u, 0),
{
    let le = line_end(u, 0);
    lemma_line_end_bounds(u, 0);
    let w = u + v;
    assert(forall|k: int| 0 <= k < le ==> w[k] == u[k]);
    lemma_line_end_skip(w, 0, le);
    assert(w[le] == u[le]);
}

/// Scanning composes across an append: the events of `u + v` are the events
/// of `u` followed by those of scanning `v` behind the carried tail of `u` —
/// as long as `u` did not end the stream.
pub proof fn lemma_scan_append(u: Seq<char>, v: Seq<char>, t: Translation)
    requires
        !scan(u, t).done,
    ensures
        scan(u + v, t) == glue(scan(u, t).events, scan(scan(u, t).tail + v, t)),
    decreases u.len(),
{
    let le = line_end(u, 0);
    lemma_line_end_bounds(u, 0);
    if le >= u.len() {
        assert(scan(u, t).tail == u);
        assert(scan(u, t).events == Seq::<Ev>::empty());
        assert(glue(scan(u, t).events, scan(u + v, t)) =~= scan(u + v, t));
    } else {
        lemma_line_end_append(u, v);
        let w = u + v;
        let line = u.subrange(0, le);
        assert(w.subrange(0, le) =~= line);
        let rest_u = u.skip(le + 1);
        assert(w.skip(le + 1) =~= rest_u + v);
        if spec_matches_at(line, 0, delim()) {
            let payload = line.skip(6);
            if payload == sentinel() {
                assert(scan(u, t).done);
            } else {
                match frame_decode(payload) {
                    None => {
                        lemma_scan_append(rest_u, v, t);
                    },
                    Some(content) => {
                        let frag = fragment_of(t, content);
                        lemma_scan_append(rest_u, v, t);
                        if emits(frag) {
                            let ru = scan(rest_u, t);
                            let x = scan(ru.tail + v, t);
                            assert((seq![Ev::Ans(frag)] + ru.events) + x.events =~= seq![
                                Ev::Ans(frag),
                            ] + (ru.events + x.events));
                            assert(scan(w, t) =~= glue(scan(u, t).events, x));
                        }
                    },
                }
            }
        } else {
            lemma_scan_append(rest_u, v, t);
        }
    }
}

/// A scan that saw the sentinel ignores anything appended after it.
pub proof fn lemma_scan_done_absorb(u: Seq<char>, v: Seq<char>, t: Translation)
    requires
        scan(u, t).done,
    ensures
        scan(u + v, t) == scan(u, t),
    decreases u.len(),
{
    let le = line_end(u, 0);
    lemma_line_end_bounds(u, 0);
    assert(le < u.len());
    lemma_line_end_append(u, v);
    let w = u + v;
    let line = u.subrange(0, le);
    assert(w.subrange(0, le) =~= line);
    let rest_u = u.skip(le + 1);
    assert(w.skip(le + 1) =~= rest_u + v);
    if spec_matches_at(line, 0, delim()) {
        let payload = line.skip(6);
        if payload == sentinel() {
            assert(scan(w, t) =~= scan(u, t));
        } else {
            match frame_decode(payload) {
                None => {
                    lemma_scan_done_absorb(rest_u, v, t);
                },
                Some(content) => {
                    let frag = fragment_of(t, content);
                    lemma_scan_done_absorb(rest_u, v, t);
                    if emits(frag) {
                        assert(scan(w, t) =~= scan(u, t));
                    }
                },
            }
        }
    } else {
        lemma_scan_done_absorb(rest_u, v, t);
    }
}

/// The concatenation of a sequence of chunks.
pub open spec fn concat_all(chunks: Seq<Seq<char>>) -> Seq<char>
    decreases chunks.len(),
{
    if chunks.len() == 0 {
        Seq::<char>::empty()
    } else {
        chunks[0] + concat_all(chunks.skip(1))
    }
}

/// Feeding chunks one at a time through the reassembler, starting from a
/// carried tail: the abstract run of a whole streaming call.
pub open spec fn feed(tail: Seq<char>, done: bool, chunks: Seq<Seq<char>>, t: Translation) -> ScanOut
    decreases chunks.len(),
{
    if chunks.len() == 0 || done {
        ScanOut { events: Seq::<Ev>::empty(), tail, done }
    } else {
        let sc = scan(tail + chunks[0], t);
        let r = feed(sc.tail, sc.done, chunks.skip(1), t);
        ScanOut { events: sc.events + r.events, tail: r.tail, done: r.done }
    }
}

/// Chunk-at-a-time reassembly equals one scan of the whole stream, from any
/// carried tail that holds no newline.
pub proof fn lemma_feed_merge(tail: Seq<char>, chunks: Seq<Seq<char>>, t: Translation)
    requires
        forall|i: int| 0 <= i < tail.len() ==> tail[i] != '\n',
    ensures
        feed(tail, false, chunks, t) == scan(tail + concat_all(chunks), t),
    decreases chunks.len(),
{
    if chunks.len() == 0 {
        lemma_line_end_skip(tail, 0, tail.len() as int);
        assert(line_end(tail, 0) >= tail.len());
        assert(tail + concat_all(chunks) =~= tail);
        assert(feed(tail, false, chunks, t) =~= scan(tail, t));
    } else {
        let c = chunks[0];
        let rest = chunks.skip(1);
        let sc = scan(tail + c, t);
        lemma_scan_shape(tail + c, t);
        assert(tail + concat_all(chunks) =~= (tail + c) + concat_all(rest));
        if sc.done {
            lemma_scan_done_absorb(tail + c, concat_all(rest), t);
            assert(feed(sc.tail, sc.done, rest, t) =~= ScanOut {
                events: Seq::<Ev>::empty(),
                tail: sc.tail,
                done: true,
            });
            assert(sc.events + Seq::<Ev>::empty() =~= sc.events);
            assert(feed(tail, false, chunks, t) =~= sc);
        } else {
            lemma_scan_append(tail + c, concat_all(rest), t);
            lemma_feed_merge(sc.tail, rest, t);
            assert(feed(tail, false, chunks, t) =~= glue(sc.events, scan(
                sc.tail + concat_all(rest),
                t,
            )));
        }
    }
}

/// Split-invariance law: a frame stream cut into chunks at arbitrary
/// character boundaries yields exactly the outcome — the same ordered
/// events — as the unsplit stream.
pub proof fn lemma_split_invariance(chunks: Seq<Seq<char>>, t: Translation)
    ensures
        feed(Seq::<char>::empty(), false, chunks, t) == feed(
            Seq::<char>::empty(),
            false,
            seq![concat_all(chunks)],
            t,
        ),
{
    let e = Seq::<char>::empty();
    lemma_feed_merge(e, chunks, t);
    lemma_feed_merge(e, seq![concat_all(chunks)], t);
    let single = seq![concat_all(chunks)];
    assert(single[0] == concat_all(chunks));
    assert(single.skip(1) =~= Seq::<Seq<char>>::empty());
    assert(concat_all(single.skip(1)) == Seq::<char>::empty());
    assert(concat_all(single) =~= concat_all(chunks) + Seq::<char>::empty());
    assert(concat_all(chunks) + Seq::<char>::empty() =~= concat_all(chunks));
    assert(e + concat_all(single) =~= e + concat_all(chunks));
}

/// The lifecycle of one streaming call.
#[derive(Debug, Clone, Copy, PartialEq, Eq, Structural)]
pub enum SessionState {
    /// Constructed; the response has not been opened.
    Created,
    /// The opening event has been emitted and chunks are being consumed.
    Open,
    /// The terminal event has been emitted; nothing more is emitted.
    Done,
}

/// The per-call state of a streaming answer: the reassembly tail carried
/// between chunks, the lifecycle state, and the translation mode. The ghost
/// history records every event emitted by this session, in order.
pub struct StreamSession {
    tail: Vec<char>,
    state: SessionState,
    translation: Translation,
    framed: bool,
    hist: Ghost<Seq<Ev>>,
}

impl StreamSession {
    /// Every event this session has emitted, in order.
    pub closed spec fn history(&self) -> Seq<Ev> {
        self.hist@
    }

    /// The carried-over text of the trailing incomplete line.
    pub closed spec fn tail_view(&self) -> Seq<char> {
        self.tail@
    }

    /// The lifecycle state.
    pub closed spec fn st(&self) -> SessionState {
        self.state
    }

    /// The translation mode.
    pub closed spec fn trans(&self) -> Translation {
        self.translation
    }

    /// Whether chunks are reassembled into frames (rather than forwarded).
    pub closed spec fn is_framed(&self) -> bool {
        self.framed
    }

    /// Event discipline and reassembly invariant: the history is one opening
    /// event, then only answers, closed by at most one terminal event; the
    /// tail holds no newline, and is empty outside the open framed state.
    pub open spec fn wf(&self) -> bool {
        &&& (self.st() is Created ==> self.history().len() == 0 && self.tail_view().len() == 0)
        &&& (self.st() is Open ==> self.history().len() >= 1 && self.history()[0] is Start
            && answers_only(self.history().skip(1)))
        &&& (self.st() is Done ==> self.history().len() >= 2 && self.history()[0] is Start
            && self.history().last() is End && answers_only(
            self.history().subrange(1, self.history().len() - 1),
        ) && self.tail_view().len() == 0)
        &&& (forall|i: int|
            0 <= i < self.tail_view().len() ==> #[trigger] self.tail_view()[i] != '\n')
        &&& (!self.is_framed() ==> self.tail_view().len() == 0)
    }

    /// A fresh session that reassembles `data: ` frames.
    pub fn framed(translation: Translation) -> (r: StreamSession)
        ensures
            r.wf(),
            r.st() is Created,
            r.is_framed(),
            r.trans() == translation,
            r.history() == Seq::<Ev>::empty(),
    {
        StreamSession {
            tail: Vec::new(),
            state: SessionState::Created,
            translation,
            framed: true,
            hist: Ghost(Seq::empty()),
        }
    }

    /// A fresh session that forwards each chunk as one fragment.
    pub fn passthrough() -> (r: StreamSession)
        ensures
            r.wf(),
            r.st() is Created,
            !r.is_framed(),
            r.history() == Seq::<Ev>::empty(),
    {
        StreamSession {
            tail: Vec::new(),
            state: SessionState::Created,
            translation: Translation::Verbatim,
            framed: false,
            hist: Ghost(Seq::empty()),
        }
    }

    /// Open the stream: emit exactly the opening event, before any answer.
    pub fn start(&mut self) -> (events: Vec<LLMAnswer>)
        requires
            old(self).wf(),
            old(self).st() is Created,
        ensures
            final(self).wf(),
            final(self).st() is Open,
            final(self).trans() == old(self).trans(),
            final(self).is_framed() == old(self).is_framed(),
            final(self).tail_view() == old(self).tail_view(),
            evs_of(events@) == seq![Ev::Start],
            final(self).history() == seq![Ev::Start],
    {
        self.state = SessionState::Open;
        proof {
            self.hist@ = seq![Ev::Start];
        }
        let mut events: Vec<LLMAnswer> = Vec::new();
        events.push(LLMAnswer::StartAnswer);
        proof {
            assert(evs_of(events@) =~= seq![Ev::Start]);
            assert(self.history().skip(1) =~= Seq::<Ev>::empty());
        }
        events
    }

    /// Consume one arrived chunk, with the cancellation flag as observed at
    /// its arrival. A finished session emits nothing; a cancelled one emits
    /// the terminal event at once and finishes; otherwise the chunk joins
    /// the carried tail and every complete frame in it is translated.
    pub fn process_chunk(&mut self, chunk: &str, cancelled: bool) -> (events: Vec<LLMAnswer>)
        requires
            old(self).wf(),
            !(old(self).st() is Created),
        ensures
            final(self).wf(),
            final(self).trans() == old(self).trans(),
            final(self).is_framed() == old(self).is_framed(),
            final(self).history() == old(self).history() + evs_of(events@),
            old(self).st() is Done ==> events@.len() == 0 && final(self).st() is Done
                && final(self).tail_view() == old(self).tail_view(),
            (old(self).st() is Open && cancelled) ==> evs_of(events@) == seq![Ev::End]
                && final(self).st() is Done,
            (old(self).st() is Open && !cancelled && old(self).is_framed()) ==> ({
                let sc = scan(old(self).tail_view() + chunk@, old(self).trans());
                &&& evs_of(events@) == sc.events
                &&& final(self).tail_view() == sc.tail
                &&& (final(self).st() is Done <==> sc.done)
            }),
            (old(self).st() is Open && !cancelled && !old(self).is_framed()) ==> evs_of(events@)
                == seq![Ev::Ans(chunk@)] && final(self).st() is Open,
    {
        if self.state == SessionState::Done {
            let events: Vec<LLMAnswer> = Vec::new();
            proof {
                assert(evs_of(events@) =~= Seq::<Ev>::empty());
                assert(self.history() + evs_of(events@) =~= self.history());
            }
            return events;
        }
        if cancelled {
            self.state = SessionState::Done;
            self.tail = Vec::new();
            let mut events: Vec<LLMAnswer> = Vec::new();
            events.push(LLMAnswer::EndAnswer);
            proof {
                assert(evs_of(events@) =~= seq![Ev::End]);
                self.hist@ = self.hist@ + evs_of(events@);
                let h = self.history();
                assert(h.last() is End);
                assert(h.subrange(1, h.len() - 1) =~= old(self).history().skip(1));
            }
            return events;
        }
        if !self.framed {
            let mut events: Vec<LLMAnswer> = Vec::new();
            events.push(LLMAnswer::Answer(chunk.to_owned()));
            proof {
                assert(evs_of(events@) =~= seq![Ev::Ans(chunk@)]);
                self.hist@ = self.hist@ + evs_of(events@);
                let h = self.history();
                assert(h.skip(1) =~= old(self).history().skip(1) + evs_of(events@));
            }
            return events;
        }
        // Framed: join the carried tail with the chunk and scan line by line.
        let chunk_chars = to_chars(chunk);
        let mut buf = sub_vec(&self.tail, 0, self.tail.len());
        append_vec(&mut buf, &chunk_chars);
        let ghost combined = old(self).tail_view() + chunk@;
        proof {
            assert(self.tail@.subrange(0, self.tail@.len() as int) =~= self.tail@);
            assert(buf@ == combined);
        }
        let ghost t = self.translation;
        let delim_v = to_chars("data: ");
        let done_v = to_chars("[DONE]");
        let null_v = to_chars("null");
        proof {
            reveal_strlit("data: ");
            reveal_strlit("[DONE]");
            reveal_strlit("null");
            assert(delim_v@ =~= delim());
            assert(done_v@ =~= sentinel());
            assert(null_v@ =~= null_text());
        }
        let mut events: Vec<LLMAnswer> = Vec::new();
        let mut pos: usize = 0;
        let mut sent_end = false;
        let mut stop = false;
        proof {
            assert(combined.skip(0) =~= combined);
            assert(evs_of(events@) =~= Seq::<Ev>::empty());
            assert(scan(combined, t) =~= glue(evs_of(events@), scan(combined.skip(0), t)));
        }
        while !stop
            invariant
                buf@ == combined,
                t == self.translation,
                delim_v@ == delim(),
                done_v@ == sentinel(),
                null_v@ == null_text(),
                pos <= buf@.len(),
                !sent_end ==> scan(combined, t) == glue(
                    evs_of(events@),
                    scan(combined.skip(pos as int), t),
                ),
                sent_end ==> scan(combined, t) == (ScanOut {
                    events: evs_of(events@),
                    tail: Seq::<char>::empty(),
                    done: true,
                }),
                sent_end ==> stop,
                stop ==> sent_end || line_end(combined, pos as int) >= combined.len(),
            decreases combined.len() - pos, (if stop { 0int } else { 1int }),
        {
            proof {
                lemma_scan_unfold_at(combined, t, pos as int);
                lemma_line_end_bounds(combined, pos as int);
            }
            let le = find_line_end(&buf, pos);
            if le >= buf.len() {
                stop = true;
            } else {
                let ghost pos0 = pos as int;
                let ghost line = combined.subrange(pos0, le as int);
                let ghost pre = evs_of(events@);
                let is_frame = matches_at(&buf, pos, &delim_v);
                proof {
                    if is_frame {
                        assert(spec_matches_at(combined, pos0, delim()));
                        assert(forall|k: int|
                            0 <= k < 6 ==> combined[pos0 + k] == delim()[k]);
                        assert(delim()[0] != '\n' && delim()[1] != '\n' && delim()[2] != '\n'
                            && delim()[3] != '\n' && delim()[4] != '\n' && delim()[5] != '\n');
                        if le < pos0 + 6 {
                            assert(combined[le as int] == delim()[le - pos0]);
                            assert(false);
                        }
                        assert(spec_matches_at(line, 0, delim())) by {
                            assert(line.subrange(0, 6) =~= combined.subrange(pos0, pos0 + 6));
                        }
                    } else {
                        if spec_matches_at(line, 0, delim()) {
                            assert(combined.subrange(pos0, pos0 + 6) =~= line.subrange(0, 6));
                            assert(spec_matches_at(combined, pos0, delim()));
                            assert(false);
                        }
                    }
                }
                if is_frame {
                    let payload_v = sub_vec(&buf, pos + 6, le);
                    proof {
                        assert(payload_v@ =~= line.skip(6));
                    }
                    if chars_eq(&payload_v, &done_v) {
                        events.push(LLMAnswer::EndAnswer);
                        sent_end = true;
                        stop = true;
                        proof {
                            assert(evs_of(events@) =~= pre + seq![Ev::End]);
                            assert(scan(combined.skip(pos0), t) == ScanOut {
                                events: seq![Ev::End],
                                tail: Seq::<char>::empty(),
                                done: true,
                            });
                            assert(pre + seq![Ev::End] =~= evs_of(events@));
                            assert(scan(combined, t) =~= ScanOut {
                                events: evs_of(events@),
                                tail: Seq::<char>::empty(),
                                done: true,
                            });
                        }
                    } else {
                        let payload_s = from_chars(&payload_v);
                        let decoded = decode_payload(payload_s.as_str());
                        match decoded {
                            None => {
                                pos = le + 1;
                                proof {
                                    assert(scan(combined.skip(pos0), t) == scan(
                                        combined.skip(pos as int),
                                        t,
                                    ));
                                }
                            },
                            Some(content) => {
                                let ghost content_view = match content {
                                    Some(ref s) => Some(s@),
                                    None => None::<Seq<char>>,
                                };
                                proof {
                                    assert(frame_decode(line.skip(6)) == Some(content_view));
                                }
                                let frag: Vec<char> = match content {
                                    Some(s) => {
                                        let sv = to_chars(s.as_str());
                                        match self.translation {
                                            Translation::Verbatim => sv,
                                            Translation::Decoded => normalize(&sv),
                                        }
                                    },
                                    None => {
                                        match self.translation {
                                            Translation::Verbatim => {
                                                let nl = to_chars("\n");
                                                proof {
                                                    reveal_strlit("\n");
                                                    assert(nl@ =~= seq!['\n']);
                                                }
                                                nl
                                            },
                                            Translation::Decoded => Vec::new(),
                                        }
                                    },
                                };
                                proof {
                                    assert(frag@ == fragment_of(t, content_view));
                                }
                                if !chars_eq(&frag, &null_v) {
                                    let frag_s = from_chars(&frag);
                                    events.push(LLMAnswer::Answer(frag_s));
                                    proof {
                                        assert(evs_of(events@) =~= pre + seq![
                                            Ev::Ans(fragment_of(t, content_view)),
                                        ]);
                                    }
                                } else {
                                    proof {
                                        assert(!emits(fragment_of(t, content_view)));
                                    }
                                }
                                pos = le + 1;
                                proof {
                                    let rest_scan = scan(combined.skip(pos as int), t);
                                    if emits(fragment_of(t, content_view)) {
                                        assert(scan(combined.skip(pos0), t) == glue(
                                            seq![Ev::Ans(fragment_of(t, content_view))],
                                            rest_scan,
                                        ));
                                        assert((pre + seq![Ev::Ans(fragment_of(t, content_view))])
                                            + rest_scan.events =~= pre + (seq![
                                            Ev::Ans(fragment_of(t, content_view)),
                                        ] + rest_scan.events));
                                        assert(scan(combined, t) =~= glue(
                                            evs_of(events@),
                                            rest_scan,
                                        ));
                                    } else {
                                        assert(scan(combined.skip(pos0), t) == rest_scan);
                                    }
                                }
                            },
                        }
                    }
                } else {
                    pos = le + 1;
                    proof {
                        assert(scan(combined.skip(pos0), t) == scan(combined.skip(pos as int), t));
                    }
                }
            }
        }
        // Either the sentinel ended the stream, or the incomplete trailing
        // line is carried over.
        if sent_end {
            self.state = SessionState::Done;
            self.tail = Vec::new();
        } else {
            self.tail = sub_vec(&buf, pos, buf.len());
            proof {
                lemma_line_end_bounds(combined, pos as int);
                lemma_scan_unfold_at(combined, t, pos as int);
                assert(scan(combined.skip(pos as int), t) =~= ScanOut {
                    events: Seq::<Ev>::empty(),
                    tail: combined.skip(pos as int),
                    done: false,
                });
                assert(evs_of(events@) + Seq::<Ev>::empty() =~= evs_of(events@));
                assert(self.tail@ =~= combined.skip(pos as int));
            }
        }
        proof {
            self.hist@ = old(self).history() + evs_of(events@);
            lemma_scan_shape(combined, t);
            let sc = scan(combined, t);
            let h = self.history();
            if sent_end {
                assert(h.last() == sc.events.last());
                assert(h.subrange(1, h.len() - 1) =~= old(self).history().skip(1)
                    + sc.events.drop_last());
                assert(answers_only(h.subrange(1, h.len() - 1)));
            } else {
                assert(h.skip(1) =~= old(self).history().skip(1) + sc.events);
                assert(answers_only(h.skip(1)));
            }
        }
        events
    }

    /// Close the stream at its natural end (the connection closed): emit the
    /// terminal event unless one was already emitted.
    pub fn finish(&mut self) -> (events: Vec<LLMAnswer>)
        requires
            old(self).wf(),
            !(old(self).st() is Created),
        ensures
            final(self).wf(),
            final(self).st() is Done,
            final(self).trans() == old(self).trans(),
            final(self).is_framed() == old(self).is_framed(),
            final(self).history() == old(self).history() + evs_of(events@),
            old(self).st() is Open ==> evs_of(events@) == seq![Ev::End],
            old(self).st() is Done ==> events@.len() == 0,
    {
        if self.state == SessionState::Done {
            let events: Vec<LLMAnswer> = Vec::new();
            proof {
                assert(evs_of(events@) =~= Seq::<Ev>::empty());
                assert(self.history() + evs_of(events@) =~= self.history());
            }
            return events;
        }
        self.state = SessionState::Done;
        self.tail = Vec::new();
        let mut events: Vec<LLMAnswer> = Vec::new();
        events.push(LLMAnswer::EndAnswer);
        proof {
            assert(evs_of(events@) =~= seq![Ev::End]);
            self.hist@ = self.hist@ + evs_of(events@);
            let h = self.history();
            assert(h.last() is End);
            assert(h.subrange(1, h.len() - 1) =~= old(self).history().skip(1));
        }
        events
    }
}

/// Event discipline law: in the history of any session, the opening event
/// stands exactly at the front, a terminal event only at the very end, and
/// every answer strictly between them — so exactly one opening event is
/// emitted per call, at most one terminal event, and no answer comes before
/// the opening event or after the terminal one.
pub proof fn lemma_event_discipline(s: &StreamSession)
    requires
        s.wf(),
    ensures
        forall|i: int| 0 <= i < s.history().len() && s.history()[i] is Start ==> i == 0,
        forall|i: int|
            0 <= i < s.history().len() && s.history()[i] is End ==> i == s.history().len() - 1,
        forall|i: int|
            0 <= i < s.history().len() && s.history()[i] is Ans ==> 0 < i < s.history().len(),
        s.history().len() > 0 ==> s.history()[0] is Start,
        !(s.st() is Created) ==> s.history().len() > 0,
{
    let h = s.history();
    if s.st() is Open {
        assert forall|i: int| 0 < i < h.len() implies h[i] is Ans by {
            assert(h.skip(1)[i - 1] == h[i]);
        }
    } else if s.st() is Done {
        assert forall|i: int| 0 < i < h.len() - 1 implies h[i] is Ans by {
            assert(h.subrange(1, h.len() - 1)[i - 1] == h[i]);
        }
    }
}

/// Cancellation guarantee law: a finished session — as a cancelled poll
/// forces at its next chunk — has emitted the terminal event as its very
/// last event, and (by the contract of `process_chunk`) emits nothing
/// further.
pub proof fn lemma_cancellation_guarantee(s: &StreamSession)
    requires
        s.wf(),
        s.st() is Done,
    ensures
        s.history().len() >= 1,
        s.history().last() is End,
        forall|i: int|
            0 <= i < s.history().len() && s.history()[i] is Ans ==> i < s.history().len() - 1,
{
    lemma_event_discipline(s);
}

} // verus!
