//! Stream Decoder: incremental parsing of the provider's line-delimited
//! event protocol into ordered text-delta events and a termination signal.
//!
//! The decoder keeps one growable text buffer across reads. Each chunk of
//! bytes is decoded (lossily) and appended; complete lines are then taken
//! off the front of the buffer, a trailing partial line stays buffered. A
//! line matters only when, after trimming, it starts with the event prefix
//! `data: `. The payload `[DONE]` ends the stream: nothing fed afterwards is
//! processed. Any other payload is read as a JSON choice list; per choice
//! the first non-empty of the incremental-delta content and the full-message
//! content is emitted as a delta event and appended to the accumulated text.
//! Payloads that do not parse are skipped silently.

use vstd::prelude::*;

use crate::models::opt_view;
use crate::models::strs_view;
use crate::text::chars_to_string;
use crate::text::string_chars;
use crate::text::trim_chars;
use crate::text::trim_ws;

verus! {

/// The decoder's mathematical state: the buffered partial input, the
/// accumulated text, and whether `[DONE]` was seen.
#[verifier::ext_equal]
pub ghost struct DecoderState {
    pub buf: Seq<char>,
    pub text: Seq<char>,
    pub done: bool,
}

/// Index of the first newline of `s`, or -1 when there is none.
pub open spec fn find_nl(s: Seq<char>) -> int
    decreases s.len(),
{
    if s.len() == 0 {
        -1
    } else if s[0] == '\n' {
        0
    } else if find_nl(s.drop_first()) < 0 {
        -1
    } else {
        find_nl(s.drop_first()) + 1
    }
}

pub proof fn lemma_find_nl_at(s: Seq<char>, k: int)
    requires
        0 <= k < s.len(),
        s[k] == '\n',
        forall|j: int| 0 <= j < k ==> s[j] != '\n',
    ensures
        find_nl(s) == k,
    decreases k,
{
    if k > 0 {
        lemma_find_nl_at(s.drop_first(), k - 1);
    }
}

pub proof fn lemma_find_nl_none(s: Seq<char>)
    requires
        forall|j: int| 0 <= j < s.len() ==> s[j] != '\n',
    ensures
        find_nl(s) == -1,
    decreases s.len(),
{
    if s.len() > 0 {
        lemma_find_nl_none(s.drop_first());
    }
}

pub proof fn lemma_find_nl_bounds(s: Seq<char>)
    ensures
        -1 <= find_nl(s) < s.len(),
        find_nl(s) >= 0 ==> s[find_nl(s)] == '\n',
        forall|j: int| 0 <= j < find_nl(s) ==> s[j] != '\n',
    decreases s.len(),
{
    if s.len() > 0 && s[0] != '\n' {
        let t = s.drop_first();
        lemma_find_nl_bounds(t);
        if find_nl(s) >= 0 {
            assert(s[find_nl(s)] == t[find_nl(t)]);
        }
        assert forall|j: int| 0 <= j < find_nl(s) implies s[j] != '\n' by {
            if j > 0 {
                assert(t[j - 1] != '\n');
            }
        }
    }
}

pub proof fn lemma_find_nl_append(s: Seq<char>, t: Seq<char>)
    requires
        find_nl(s) >= 0,
    ensures
        find_nl(s + t) == find_nl(s),
{
    let k = find_nl(s);
    lemma_find_nl_bounds(s);
    assert(forall|j: int| 0 <= j < k ==> (s + t)[j] != '\n');
    lemma_find_nl_at(s + t, k);
}

/// The event prefix every meaningful line starts with.
pub open spec fn data_prefix() -> Seq<char> {
    seq!['d', 'a', 't', 'a', ':', ' ']
}

/// The payload that signals normal stream termination.
pub open spec fn done_payload() -> Seq<char> {
    seq!['[', 'D', 'O', 'N', 'E', ']']
}

/// A (trimmed) line that carries an event payload.
pub open spec fn is_data_line(l: Seq<char>) -> bool {
    l.len() >= 6 && l.subrange(0, 6) == data_prefix()
}

/// The payload behind the event prefix.
pub open spec fn payload_of(l: Seq<char>) -> Seq<char> {
    l.subrange(6, l.len() as int)
}

/// The choice list of an event payload, as the JSON reader yields it: per
/// choice the incremental-delta content and the full-message content; none
/// when the payload is not a JSON object with a "choices" array.
pub uninterp spec fn choices_of(payload: Seq<char>) -> Option<
    Seq<(Option<Seq<char>>, Option<Seq<char>>)>,
>;

pub open spec fn nonempty_str(o: Option<Seq<char>>) -> bool {
    match o {
        Option::Some(s) => s.len() > 0,
        Option::None => false,
    }
}

/// Per choice, the first non-empty of delta content and message content.
pub open spec fn choice_fragment(c: (Option<Seq<char>>, Option<Seq<char>>)) -> Option<Seq<char>> {
    if nonempty_str(c.0) {
        c.0
    } else if nonempty_str(c.1) {
        c.1
    } else {
        Option::None
    }
}

/// The fragments a choice list yields, in choice order.
pub open spec fn fragments_of(cs: Seq<(Option<Seq<char>>, Option<Seq<char>>)>) -> Seq<Seq<char>>
    decreases cs.len(),
{
    if cs.len() == 0 {
        Seq::<Seq<char>>::empty()
    } else {
        fragments_of(cs.drop_last()) + (match choice_fragment(cs.last()) {
            Option::Some(f) => seq![f],
            Option::None => Seq::<Seq<char>>::empty(),
        })
    }
}

/// The fragments of one event payload; a payload that does not parse
/// yields none.
pub open spec fn payload_fragments(p: Seq<char>) -> Seq<Seq<char>> {
    match choices_of(p) {
        Option::Some(cs) => fragments_of(cs),
        Option::None => Seq::<Seq<char>>::empty(),
    }
}

/// Concatenation of a fragment list.
pub open spec fn cat(fs: Seq<Seq<char>>) -> Seq<char>
    decreases fs.len(),
{
    if fs.len() == 0 {
        Seq::<char>::empty()
    } else {
        cat(fs.drop_last()) + fs.last()
    }
}

/// One complete, trimmed line applied to the state: the events it emits and
/// the state it leaves. The buffer is untouched here; the caller has already
/// taken the line off it.
pub open spec fn handle_line(st: DecoderState, line: Seq<char>) -> (DecoderState, Seq<Seq<char>>) {
    if is_data_line(line) {
        if payload_of(line) == done_payload() {
            (DecoderState { done: true, ..st }, Seq::<Seq<char>>::empty())
        } else {
            let fs = payload_fragments(payload_of(line));
            (DecoderState { text: st.text + cat(fs), ..st }, fs)
        }
    } else {
        (st, Seq::<Seq<char>>::empty())
    }
}

/// Process every complete line of the buffer, in order, stopping at
/// `[DONE]`; the trailing partial line stays buffered.
pub open spec fn drain(st: DecoderState) -> (DecoderState, Seq<Seq<char>>)
    decreases st.buf.len(),
    via drain_decreases
{
    if st.done || find_nl(st.buf) < 0 {
        (st, Seq::<Seq<char>>::empty())
    } else {
        let pos = find_nl(st.buf);
        let line = trim_ws(st.buf.subrange(0, pos));
        let rest = st.buf.subrange(pos + 1, st.buf.len() as int);
        let step = handle_line(DecoderState { buf: rest, ..st }, line);
        let tail = drain(step.0);
        (tail.0, step.1 + tail.1)
    }
}

#[via_fn]
proof fn drain_decreases(st: DecoderState) {
    lemma_find_nl_bounds(st.buf);
}

/// Feeding a chunk appends it to the buffer and processes complete lines.
pub open spec fn spec_feed(st: DecoderState, chunk: Seq<char>) -> (DecoderState, Seq<Seq<char>>) {
    drain(DecoderState { buf: st.buf + chunk, ..st })
}

/// The text the bytes decode to; invalid sequences become replacement
/// characters, so the text is a function of the bytes alone.
pub uninterp spec fn lossy_of(b: Seq<u8>) -> Seq<char>;

/// Relies on String::from_utf8_lossy: the decoded text is a function of
/// the bytes alone.
#[verifier::external_body]
fn lossy_decode(chunk: &[u8]) -> (r: String)
    ensures
        r@ == lossy_of(chunk@),
{
    String::from_utf8_lossy(chunk).into_owned()
}

/// Spec-level image of an executable choice list.
pub open spec fn choices_view(s: Seq<(Option<String>, Option<String>)>) -> Seq<
    (Option<Seq<char>>, Option<Seq<char>>),
> {
    s.map_values(|c: (Option<String>, Option<String>)| (opt_view(c.0), opt_view(c.1)))
}

/// Relies on serde_json::from_str and serde_json::Value::get / as_array /
/// as_str: the choice list of an event payload is a function of the payload
/// text alone, and absent exactly when the payload is not a JSON object
/// carrying a "choices" array. A choice without readable string content
/// yields an empty pair and so contributes no fragment: one malformed
/// choice does not discard its well-formed neighbours.
#[verifier::external_body]
fn parse_payload_choices(payload: &str) -> (r: Option<Vec<(Option<String>, Option<String>)>>)
    ensures
        match r {
            Option::Some(v) => choices_of(payload@) matches Option::Some(cs) && choices_view(v@)
                == cs,
            Option::None => choices_of(payload@) is None,
        },
{
    let v: serde_json::Value = match serde_json::from_str(payload) {
        Ok(v) => v,
        Err(_) => return None,
    };
    let arr = match v.get("choices").and_then(|c| c.as_array()) {
        Some(a) => a,
        None => return None,
    };
    let content = |c: &serde_json::Value, k: &str| {
        c.get(k).and_then(|d| d.get("content")).and_then(|s| s.as_str()).map(|s| s.to_string())
    };
    Some(arr.iter().map(|c| (content(c, "delta"), content(c, "message"))).collect())
}

fn pick_fragment(c: (Option<String>, Option<String>)) -> (r: Option<String>)
    ensures
        opt_view(r) == choice_fragment((opt_view(c.0), opt_view(c.1))),
{
    let first_ok = match &c.0 {
        Option::Some(s) => !s.as_str().is_empty(),
        Option::None => false,
    };
    if first_ok {
        return c.0;
    }
    let second_ok = match &c.1 {
        Option::Some(s) => !s.as_str().is_empty(),
        Option::None => false,
    };
    if second_ok {
        c.1
    } else {
        Option::None
    }
}

/// The incremental decoder of the provider's event stream.
pub struct StreamDecoder {
    buf: Vec<char>,
    acc: Vec<char>,
    done: bool,
}

impl View for StreamDecoder {
    type V = DecoderState;

    closed spec fn view(&self) -> DecoderState {
        DecoderState { buf: self.buf@, text: self.acc@, done: self.done }
    }
}

impl StreamDecoder {
    /// A fresh decoder: nothing buffered, nothing accumulated.
    pub fn new() -> (r: StreamDecoder)
        ensures
            r@ == (DecoderState { buf: Seq::<char>::empty(), text: Seq::<char>::empty(), done: false }),
    {
        let r = StreamDecoder { buf: Vec::new(), acc: Vec::new(), done: false };
        proof {
            assert(r@ =~= DecoderState {
                buf: Seq::<char>::empty(),
                text: Seq::<char>::empty(),
                done: false,
            });
        }
        r
    }

    /// Whether `[DONE]` has been seen.
    pub fn is_done(&self) -> (r: bool)
        ensures
            r == self@.done,
    {
        self.done
    }

    /// The text accumulated so far, in decode order.
    pub fn accumulated_text(&self) -> (r: String)
        ensures
            r@ == self@.text,
    {
        chars_to_string(&self.acc)
    }

    fn take_line(&mut self) -> (r: Option<Vec<char>>)
        ensures
            ({
                let pos = find_nl(old(self)@.buf);
                match r {
                    Option::None => final(self)@ == old(self)@ && pos < 0,
                    Option::Some(l) => {
                        &&& pos >= 0
                        &&& l@ == trim_ws(old(self)@.buf.subrange(0, pos))
                        &&& final(self)@.buf == old(self)@.buf.subrange(
                            pos + 1,
                            old(self)@.buf.len() as int,
                        )
                        &&& final(self)@.text == old(self)@.text
                        &&& final(self)@.done == old(self)@.done
                    },
                }
            }),
    {
        let n = self.buf.len();
        let mut i: usize = 0;
        while i < n && self.buf[i] != '\n'
            invariant
                n == self.buf@.len(),
                0 <= i <= n,
                forall|j: int| 0 <= j < i ==> self.buf@[j] != '\n',
                self@ == old(self)@,
            decreases n - i,
        {
            i = i + 1;
        }
        if i == n {
            proof {
                lemma_find_nl_none(self.buf@);
            }
            return Option::None;
        }
        proof {
            lemma_find_nl_at(self.buf@, i as int);
        }
        let mut line: Vec<char> = Vec::new();
        let mut j: usize = 0;
        while j < i
            invariant
                j <= i < self.buf@.len(),
                line@ == self.buf@.subrange(0, j as int),
                self@ == old(self)@,
            decreases i - j,
        {
            line.push(self.buf[j]);
            assert(line@ =~= self.buf@.subrange(0, j + 1 as int));
            j = j + 1;
        }
        let rest = self.buf.split_off(i + 1);
        self.buf = rest;
        let trimmed = trim_chars(&line);
        Option::Some(trimmed)
    }

    fn line_is_data(line: &Vec<char>) -> (r: bool)
        ensures
            r == is_data_line(line@),
    {
        if line.len() >= 6 && line[0] == 'd' && line[1] == 'a' && line[2] == 't' && line[3] == 'a'
            && line[4] == ':' && line[5] == ' ' {
            proof {
                assert(line@.subrange(0, 6) =~= data_prefix());
            }
            true
        } else {
            proof {
                if line@.len() >= 6 && line@.subrange(0, 6) == data_prefix() {
                    assert(line@[0] == line@.subrange(0, 6)[0]);
                    assert(line@[1] == line@.subrange(0, 6)[1]);
                    assert(line@[2] == line@.subrange(0, 6)[2]);
                    assert(line@[3] == line@.subrange(0, 6)[3]);
                    assert(line@[4] == line@.subrange(0, 6)[4]);
                    assert(line@[5] == line@.subrange(0, 6)[5]);
                }
            }
            false
        }
    }

    fn payload_chars(line: &Vec<char>) -> (r: Vec<char>)
        requires
            line@.len() >= 6,
        ensures
            r@ == payload_of(line@),
    {
        let mut out: Vec<char> = Vec::new();
        let mut i: usize = 6;
        let n = line.len();
        while i < n
            invariant
                6 <= i <= n,
                n == line@.len(),
                out@ == line@.subrange(6, i as int),
            decreases n - i,
        {
            out.push(line[i]);
            assert(out@ =~= line@.subrange(6, i + 1 as int));
            i = i + 1;
        }
        out
    }

    fn payload_is_done(p: &Vec<char>) -> (r: bool)
        ensures
            r == (p@ == done_payload()),
    {
        if p.len() == 6 && p[0] == '[' && p[1] == 'D' && p[2] == 'O' && p[3] == 'N' && p[4] == 'E'
            && p[5] == ']' {
            proof {
                assert(p@ =~= done_payload());
            }
            true
        } else {
            proof {
                if p@ == done_payload() {
                    assert(p@[0] == done_payload()[0]);
                    assert(p@[1] == done_payload()[1]);
                    assert(p@[2] == done_payload()[2]);
                    assert(p@[3] == done_payload()[3]);
                    assert(p@[4] == done_payload()[4]);
                    assert(p@[5] == done_payload()[5]);
                }
            }
            false
        }
    }

    /// Apply one complete, trimmed line, pushing its delta events onto
    /// `deltas`.
    fn apply_line(&mut self, line: Vec<char>, deltas: &mut Vec<String>)
        ensures
            ({
                let step = handle_line(old(self)@, line@);
                final(self)@ == step.0 && strs_view(final(deltas)@) == strs_view(old(deltas)@)
                    + step.1
            }),
    {
        let ghost st0 = self@;
        let ghost d0 = strs_view(deltas@);
        if !Self::line_is_data(&line) {
            proof {
                assert(strs_view(deltas@) =~= d0 + handle_line(st0, line@).1);
            }
            return ;
        }
        let p = Self::payload_chars(&line);
        if Self::payload_is_done(&p) {
            self.done = true;
            proof {
                assert(self@ =~= handle_line(st0, line@).0);
                assert(strs_view(deltas@) =~= d0 + handle_line(st0, line@).1);
            }
            return ;
        }
        let ps = chars_to_string(&p);
        match parse_payload_choices(ps.as_str()) {
            Option::None => {
                proof {
                    assert(cat(payload_fragments(p@)) =~= Seq::<char>::empty());
                    assert(self@.text =~= st0.text + cat(payload_fragments(p@)));
                    assert(self@ =~= handle_line(st0, line@).0);
                    assert(strs_view(deltas@) =~= d0 + handle_line(st0, line@).1);
                }
            },
            Option::Some(choices) => {
                let ghost cs = choices_view(choices@);
                let ghost a0 = self.acc@;
                let mut rest = choices;
                let ghost mut i: int = 0;
                while rest.len() > 0
                    invariant
                        0 <= i <= cs.len(),
                        choices_view(rest@) == cs.subrange(i, cs.len() as int),
                        strs_view(deltas@) == d0 + fragments_of(cs.subrange(0, i)),
                        self.acc@ == a0 + cat(fragments_of(cs.subrange(0, i))),
                        self.buf@ == st0.buf,
                        self.done == st0.done,
                    decreases rest@.len(),
                {
                    let ghost r0 = rest@;
                    let c = rest.remove(0);
                    proof {
                        assert(choices_view(r0).len() == r0.len());
                        assert(c == r0[0]);
                        assert(choices_view(r0)[0] == (opt_view(c.0), opt_view(c.1)));
                        assert((opt_view(c.0), opt_view(c.1)) == cs[i]);
                        assert(rest@ == r0.remove(0));
                        assert forall|j: int| 0 <= j < rest@.len() implies choices_view(rest@)[j]
                            == cs.subrange(i + 1, cs.len() as int)[j] by {
                            assert(rest@[j] == r0[j + 1]);
                            assert(choices_view(r0)[j + 1] == cs.subrange(i, cs.len() as int)[j
                                + 1]);
                        }
                        assert(choices_view(rest@) =~= cs.subrange(i + 1, cs.len() as int));
                        let pre = cs.subrange(0, i);
                        let cur = cs.subrange(0, i + 1);
                        assert(cur.drop_last() =~= pre);
                        assert(cur.last() == cs[i]);
                    }
                    let frag = pick_fragment(c);
                    match frag {
                        Option::None => {
                            proof {
                                assert(fragments_of(cs.subrange(0, i + 1)) =~= fragments_of(
                                    cs.subrange(0, i),
                                ));
                            }
                        },
                        Option::Some(f) => {
                            let mut fc = string_chars(f.as_str());
                            self.acc.append(&mut fc);
                            let ghost dpre = deltas@;
                            deltas.push(f);
                            proof {
                                let pre_f = fragments_of(cs.subrange(0, i));
                                let cur = cs.subrange(0, i + 1);
                                let cur_f = fragments_of(cur);
                                assert(cur.last() == cs[i]);
                                assert(choice_fragment(cs[i]) == Option::<Seq<char>>::Some(f@));
                                assert(fragments_of(cur.drop_last()) == pre_f);
                                assert(cur_f == pre_f + seq![f@]);
                                assert(pre_f + seq![f@] =~= pre_f.push(f@));
                                assert(cur_f.drop_last() =~= pre_f);
                                assert(cur_f.last() == f@);
                                assert(cat(cur_f) == cat(cur_f.drop_last()) + cur_f.last());
                                assert(cat(cur_f) =~= cat(pre_f) + f@);
                                assert(deltas@ == dpre.push(f));
                                assert(strs_view(dpre).len() == dpre.len());
                                assert(dpre.len() == d0.len() + pre_f.len());
                                assert(cur_f.len() == pre_f.len() + 1);
                                assert(strs_view(deltas@).len() == dpre.len() + 1);
                                assert forall|j: int| 0 <= j < deltas@.len() implies strs_view(
                                    deltas@,
                                )[j] == (d0 + cur_f)[j] by {
                                    assert(strs_view(deltas@)[j] == deltas@[j]@);
                                    if j < dpre.len() {
                                        assert(deltas@[j] == dpre[j]);
                                        assert(strs_view(dpre)[j] == dpre[j]@);
                                        assert(strs_view(dpre)[j] == (d0 + pre_f)[j]);
                                        assert((d0 + pre_f)[j] == (d0 + cur_f)[j]);
                                    } else {
                                        assert(deltas@[j] == f);
                                        assert((d0 + cur_f)[j] == cur_f.last());
                                    }
                                }
                                assert(strs_view(deltas@) =~= d0 + cur_f);
                                assert(self.acc@ =~= a0 + cat(cur_f));
                            }
                        },
                    }
                    proof {
                        i = i + 1;
                    }
                }
                proof {
                    assert(cs.subrange(0, cs.len() as int) =~= cs);
                    assert(payload_fragments(p@) == fragments_of(cs));
                    assert(self@ =~= handle_line(st0, line@).0);
                }
            },
        }
    }

    /// Feed one chunk of already-decoded text.
    pub fn feed_text(&mut self, chunk: &str) -> (deltas: Vec<String>)
        ensures
            ({
                let step = spec_feed(old(self)@, chunk@);
                final(self)@ == step.0 && strs_view(deltas@) == step.1
            }),
    {
        let mut cs = string_chars(chunk);
        self.buf.append(&mut cs);
        let ghost st0 = self@;
        let mut deltas: Vec<String> = Vec::new();
        let mut go = true;
        proof {
            assert(strs_view(deltas@) =~= Seq::<Seq<char>>::empty());
        }
        while go
            invariant
                ({
                    let full = drain(st0);
                    let cur = drain(self@);
                    full.0 == cur.0 && full.1 == strs_view(deltas@) + cur.1
                }),
                !go ==> (self@.done || find_nl(self@.buf) < 0),
            decreases self.buf@.len(), (if go { 1int } else { 0int }),
        {
            if self.done {
                go = false;
            } else {
                let ghost pre = self@;
                let ghost d_pre = strs_view(deltas@);
                match self.take_line() {
                    Option::None => {
                        go = false;
                    },
                    Option::Some(line) => {
                        proof {
                            lemma_find_nl_bounds(pre.buf);
                        }
                        let ghost mid = self@;
                        self.apply_line(line, &mut deltas);
                        proof {
                            let pos = find_nl(pre.buf);
                            let step = handle_line(mid, trim_ws(pre.buf.subrange(0, pos)));
                            let tail = drain(step.0);
                            assert(drain(pre).0 == tail.0 && drain(pre).1 == step.1 + tail.1);
                            assert(self@ == step.0);
                            assert(strs_view(deltas@) =~= d_pre + step.1);
                            assert(d_pre + drain(pre).1 =~= strs_view(deltas@) + tail.1);
                        }
                    },
                }
            }
        }
        proof {
            assert(drain(self@).0 == self@ && drain(self@).1 =~= Seq::<Seq<char>>::empty());
            assert(strs_view(deltas@) =~= strs_view(deltas@) + drain(self@).1);
        }
        deltas
    }

    /// Feed one chunk of raw bytes from the response body.
    pub fn feed_chunk(&mut self, chunk: &[u8]) -> (deltas: Vec<String>)
        ensures
            ({
                let step = spec_feed(old(self)@, lossy_of(chunk@));
                final(self)@ == step.0 && strs_view(deltas@) == step.1
            }),
    {
        let s = lossy_decode(chunk);
        self.feed_text(s.as_str())
    }
}

/// Feeding does not depend on chunk boundaries: feeding `a` and then `b`
/// leaves the same state and emits the same delta events, in the same
/// order, as feeding `a + b` at once.
pub proof fn lemma_feed_split(st: DecoderState, a: Seq<char>, b: Seq<char>)
    ensures
        ({
            let first = spec_feed(st, a);
            let then = spec_feed(first.0, b);
            let joined = spec_feed(st, a + b);
            then.0 == joined.0 && first.1 + then.1 == joined.1
        }),
{
    let sta = DecoderState { buf: st.buf + a, ..st };
    lemma_drain_append(sta, b);
    assert(DecoderState { buf: sta.buf + b, ..sta } =~= DecoderState { buf: st.buf + (a + b), ..st })
        by {
        assert((st.buf + a) + b =~= st.buf + (a + b));
    }
    assert(spec_feed(st, a).0 == drain(sta).0);
    assert(DecoderState { buf: drain(sta).0.buf + b, ..drain(sta).0 } == DecoderState {
        buf: spec_feed(st, a).0.buf + b,
        ..spec_feed(st, a).0
    });
}

proof fn lemma_drain_append(st: DecoderState, b: Seq<char>)
    ensures
        ({
            let first = drain(st);
            let then = drain(DecoderState { buf: first.0.buf + b, ..first.0 });
            let joined = drain(DecoderState { buf: st.buf + b, ..st });
            then.0 == joined.0 && first.1 + then.1 == joined.1
        }),
    decreases st.buf.len(),
{
    let stb = DecoderState { buf: st.buf + b, ..st };
    if st.done {
        assert(drain(st).0 == st && drain(st).1 =~= Seq::<Seq<char>>::empty());
        assert(DecoderState { buf: drain(st).0.buf + b, ..drain(st).0 } =~= stb);
        assert(drain(st).1 + drain(stb).1 =~= drain(stb).1);
    } else if find_nl(st.buf) < 0 {
        assert(drain(st).0 == st && drain(st).1 =~= Seq::<Seq<char>>::empty());
        assert(DecoderState { buf: drain(st).0.buf + b, ..drain(st).0 } =~= stb);
        assert(drain(st).1 + drain(stb).1 =~= drain(stb).1);
    } else {
        let pos = find_nl(st.buf);
        proof_drain_step(st, b, pos);
    }
}

proof fn proof_drain_step(st: DecoderState, b: Seq<char>, pos: int)
    requires
        !st.done,
        pos == find_nl(st.buf),
        pos >= 0,
    ensures
        ({
            let first = drain(st);
            let then = drain(DecoderState { buf: first.0.buf + b, ..first.0 });
            let joined = drain(DecoderState { buf: st.buf + b, ..st });
            then.0 == joined.0 && first.1 + then.1 == joined.1
        }),
    decreases st.buf.len(), 0int,
{
    let stb = DecoderState { buf: st.buf + b, ..st };
    lemma_find_nl_bounds(st.buf);
    lemma_find_nl_append(st.buf, b);
    assert(find_nl(stb.buf) == pos);
    let line = trim_ws(st.buf.subrange(0, pos));
    assert(stb.buf.subrange(0, pos) =~= st.buf.subrange(0, pos));
    let rest = st.buf.subrange(pos + 1, st.buf.len() as int);
    let restb = stb.buf.subrange(pos + 1, stb.buf.len() as int);
    assert(restb =~= rest + b);
    let st1 = DecoderState { buf: rest, ..st };
    let st1b = DecoderState { buf: restb, ..stb };
    let step = handle_line(st1, line);
    let stepb = handle_line(st1b, line);
    assert(stepb.0 =~= DecoderState { buf: step.0.buf + b, ..step.0 } && stepb.1 == step.1);
    assert(rest.len() < st.buf.len());
    lemma_drain_append(step.0, b);
    assert(drain(st).0 == drain(step.0).0 && drain(st).1 == step.1 + drain(step.0).1);
    assert(drain(stb).0 == drain(stepb.0).0 && drain(stb).1 == stepb.1 + drain(stepb.0).1);
    let first = drain(st);
    let then = drain(DecoderState { buf: first.0.buf + b, ..first.0 });
    assert(then.0 == drain(stepb.0).0 && drain(step.0).1 + then.1 == drain(stepb.0).1);
    assert(first.1 + then.1 =~= (step.1 + drain(step.0).1) + then.1);
    assert((step.1 + drain(step.0).1) + then.1 =~= step.1 + (drain(step.0).1 + then.1));
    assert(step.1 + (drain(step.0).1 + then.1) =~= stepb.1 + drain(stepb.0).1);
}

} // verus!
