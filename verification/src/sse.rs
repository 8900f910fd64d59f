use vstd::prelude::*;

verus! {

// ---------------------------------------------------------------------------
// Server-sent events: an incremental decoder from text to the data payload
// of each complete event. Lines end with CR, LF or CRLF; `data:` lines feed
// the event's data (joined with a newline when there are several); a blank
// line dispatches the event; `:` lines are comments; other fields are read
// and ignored.
// ---------------------------------------------------------------------------

/// The decoder's whole condition after some text: the unfinished line, the
/// data gathered for the unfinished event, whether the last character was a
/// CR, and every event dispatched so far.
#[verifier::ext_equal]
pub struct SseState {
    pub line: Seq<char>,
    pub data: Seq<char>,
    pub prev_cr: bool,
    pub events: Seq<Seq<char>>,
}

pub open spec fn sse_init() -> SseState {
    SseState { line: Seq::empty(), data: Seq::empty(), prev_cr: false, events: Seq::empty() }
}

/// The position of the first colon at or after `i`, or the line's length.
pub open spec fn find_colon(s: Seq<char>, i: int) -> int
    decreases s.len() - i,
{
    if i < 0 || i >= s.len() {
        s.len() as int
    } else if s[i] == ':' {
        i
    } else {
        find_colon(s, i + 1)
    }
}

pub proof fn lemma_find_colon(s: Seq<char>, i: int)
    requires
        0 <= i <= s.len(),
    ensures
        i <= find_colon(s, i) <= s.len(),
        find_colon(s, i) < s.len() ==> s[find_colon(s, i)] == ':',
        forall|t: int| i <= t < find_colon(s, i) ==> s[t] != ':',
    decreases s.len() - i,
{
    if i < s.len() && s[i] != ':' {
        lemma_find_colon(s, i + 1);
    }
}

/// A line's field name: what stands before its first colon.
pub open spec fn line_field(line: Seq<char>) -> Seq<char> {
    line.take(find_colon(line, 0))
}

/// A line's field value: what stands after its first colon, one leading
/// space stripped; empty when the line has no colon.
pub open spec fn line_value(line: Seq<char>) -> Seq<char> {
    let ci = find_colon(line, 0);
    if ci >= line.len() {
        Seq::empty()
    } else {
        let v = line.skip(ci + 1);
        if v.len() > 0 && v[0] == ' ' {
            v.drop_first()
        } else {
            v
        }
    }
}

/// What a completed line does to the data buffer: the new buffer, and the
/// event dispatched, if any. A blank line dispatches the gathered data with
/// its trailing newline removed; a blank line with no data dispatches
/// nothing; a `data` line appends its value and a newline; anything else is
/// ignored.
pub open spec fn process_line_parts(line: Seq<char>, data: Seq<char>) -> (Seq<char>, Option<
    Seq<char>,
>) {
    if line.len() == 0 {
        if data.len() == 0 {
            (data, None)
        } else {
            (Seq::empty(), Some(data.drop_last()))
        }
    } else if line[0] == ':' {
        (data, None)
    } else if line_field(line) == "data"@ {
        (data + line_value(line) + seq!['\n'], None)
    } else {
        (data, None)
    }
}

/// One character advances the decoder.
pub open spec fn sse_step(st: SseState, c: char) -> SseState {
    if st.prev_cr && c == '\n' {
        SseState { line: st.line, data: st.data, prev_cr: false, events: st.events }
    } else if c == '\r' || c == '\n' {
        let pl = process_line_parts(st.line, st.data);
        SseState {
            line: Seq::empty(),
            data: pl.0,
            prev_cr: c == '\r',
            events: match pl.1 {
                Some(ev) => st.events.push(ev),
                None => st.events,
            },
        }
    } else {
        SseState { line: st.line.push(c), data: st.data, prev_cr: false, events: st.events }
    }
}

/// The decoder's condition after reading a whole text from the start.
pub open spec fn sse_run(s: Seq<char>) -> SseState
    decreases s.len(),
{
    if s.len() == 0 {
        sse_init()
    } else {
        sse_step(sse_run(s.drop_last()), s.last())
    }
}

/// The events a whole text holds.
pub open spec fn sse_events(s: Seq<char>) -> Seq<Seq<char>> {
    sse_run(s).events
}

/// The incremental decoder. Push text in as it arrives; each push returns
/// the data payloads of the events that completed during it.
pub struct SseDecoder {
    line: Vec<char>,
    data: Vec<char>,
    prev_cr: bool,
    history: Ghost<Seq<char>>,
}

impl SseDecoder {
    /// All the text pushed so far.
    pub closed spec fn history(self) -> Seq<char> {
        self.history@
    }

    pub closed spec fn wf(self) -> bool {
        let st = sse_run(self.history@);
        self.line@ == st.line && self.data@ == st.data && self.prev_cr == st.prev_cr
    }

    /// The events decoded so far.
    pub open spec fn events(self) -> Seq<Seq<char>> {
        sse_events(self.history())
    }

    pub fn new() -> (d: SseDecoder)
        ensures
            d.wf(),
            d.history() == Seq::<char>::empty(),
    {
        SseDecoder { line: Vec::new(), data: Vec::new(), prev_cr: false, history: Ghost(Seq::empty()) }
    }

    /// Ends the current line and applies it, returning a dispatched event.
    #[verifier::loop_isolation(false)]
    fn end_line(&mut self) -> (ev: Option<Vec<char>>)
        ensures
            final(self).line@ == Seq::<char>::empty(),
            final(self).prev_cr == old(self).prev_cr,
            final(self).history@ == old(self).history@,
            final(self).data@ == process_line_parts(old(self).line@, old(self).data@).0,
            (match ev {
                Some(v) => process_line_parts(old(self).line@, old(self).data@).1 == Some(v@),
                None => process_line_parts(old(self).line@, old(self).data@).1 is None,
            }),
    {
        let mut result: Option<Vec<char>> = None;
        if self.line.len() == 0 {
            if self.data.len() > 0 {
                let mut ev: Vec<char> = Vec::new();
                let mut t: usize = 0;
                let end = self.data.len() - 1;
                while t < end
                    invariant
                        t <= end,
                        end == self.data@.len() - 1,
                        ev@ == self.data@.take(t as int),
                    decreases end - t,
                {
                    proof {
                        assert(self.data@.take(t as int + 1) =~= self.data@.take(t as int).push(
                            self.data@[t as int],
                        ));
                    }
                    ev.push(self.data[t]);
                    t = t + 1;
                }
                proof {
                    assert(ev@ =~= self.data@.drop_last());
                }
                result = Some(ev);
                self.data.clear();
            }
        } else if self.line[0] == ':' {
            // a comment line
        } else {
            // find the colon that splits field from value
            let mut ci: usize = 0;
            while ci < self.line.len() && self.line[ci] != ':'
                invariant
                    ci <= self.line@.len(),
                    forall|t: int| 0 <= t < ci ==> self.line@[t] != ':',
                decreases self.line@.len() - ci,
            {
                ci = ci + 1;
            }
            proof {
                lemma_find_colon(self.line@, 0);
                assert(find_colon(self.line@, 0) == ci as int) by {
                    if find_colon(self.line@, 0) < ci as int {
                        assert(self.line@[find_colon(self.line@, 0)] == ':');
                    }
                    if find_colon(self.line@, 0) > ci as int {
                        assert(ci < self.line@.len());
                    }
                }
            }
            let is_data = ci == 4 && self.line[0] == 'd' && self.line[1] == 'a' && self.line[2]
                == 't' && self.line[3] == 'a';
            proof {
                reveal_strlit("data");
                assert("data"@.len() == 4);
                assert("data"@[0] == 'd' && "data"@[1] == 'a' && "data"@[2] == 't' && "data"@[3]
                    == 'a');
                if is_data {
                    assert(line_field(self.line@) =~= "data"@);
                } else {
                    assert(line_field(self.line@).len() == ci);
                    if line_field(self.line@) == "data"@ {
                        assert(self.line@.take(4)[0] == self.line@[0]);
                        assert(self.line@.take(4)[1] == self.line@[1]);
                        assert(self.line@.take(4)[2] == self.line@[2]);
                        assert(self.line@.take(4)[3] == self.line@[3]);
                    }
                }
            }
            if is_data {
                // append the value and a joining newline to the data buffer
                let ghost data0: Seq<char> = self.data@;
                if ci < self.line.len() {
                    let mut start = ci + 1;
                    if start < self.line.len() && self.line[start] == ' ' {
                        start = start + 1;
                    }
                    let ghost start0: int = start as int;
                    let mut t: usize = start;
                    proof {
                        assert(data0 + self.line@.subrange(start0, start0) =~= data0);
                    }
                    while t < self.line.len()
                        invariant
                            start0 <= t <= self.line@.len(),
                            self.data@ == data0 + self.line@.subrange(start0, t as int),
                            self.line@ == old(self).line@,
                            self.prev_cr == old(self).prev_cr,
                            self.history@ == old(self).history@,
                        decreases self.line@.len() - t,
                    {
                        proof {
                            assert(self.line@.subrange(start0, t as int + 1) =~= self.line@
                                .subrange(start0, t as int).push(self.line@[t as int]));
                        }
                        let c = self.line[t];
                        self.data.push(c);
                        t = t + 1;
                    }
                    self.data.push('\n');
                    proof {
                        assert(self.line@.subrange(start0, self.line@.len() as int)
                            =~= line_value(self.line@));
                        assert(self.data@ =~= data0 + line_value(self.line@) + seq!['\n']);
                    }
                } else {
                    self.data.push('\n');
                    proof {
                        assert(line_value(self.line@) =~= Seq::<char>::empty());
                        assert(self.data@ =~= data0 + line_value(self.line@) + seq!['\n']);
                    }
                }
            }
        }
        self.line.clear();
        result
    }

    /// Feeds `chunk` in; returns the data of each event that completed.
    pub fn push_chars(&mut self, chunk: &Vec<char>) -> (events: Vec<Vec<char>>)
        requires
            old(self).wf(),
        ensures
            final(self).wf(),
            final(self).history() == old(self).history() + chunk@,
            final(self).events() == old(self).events() + events@.map_values(|e: Vec<char>| e@),
    {
        let ghost h0: Seq<char> = self.history@;
        let mut out: Vec<Vec<char>> = Vec::new();
        let mut i: usize = 0;
        proof {
            assert(h0 + chunk@.take(0) =~= h0);
            assert(out@.map_values(|e: Vec<char>| e@) =~= Seq::<Seq<char>>::empty());
            assert(sse_run(h0).events + Seq::<Seq<char>>::empty() =~= sse_run(h0).events);
        }
        while i < chunk.len()
            invariant
                i <= chunk@.len(),
                self.history@ == h0 + chunk@.take(i as int),
                self.wf(),
                sse_run(self.history@).events == sse_run(h0).events + out@.map_values(
                    |e: Vec<char>| e@,
                ),
            decreases chunk@.len() - i,
        {
            let c = chunk[i];
            let ghost h_pre: Seq<char> = self.history@;
            let ghost st_pre: SseState = sse_run(h_pre);
            proof {
                assert((h0 + chunk@.take(i as int + 1)).drop_last() =~= h_pre);
                assert((h0 + chunk@.take(i as int + 1)).last() == chunk@[i as int]);
                assert(sse_run(h0 + chunk@.take(i as int + 1)) == sse_step(st_pre, c));
            }
            if self.prev_cr && c == '\n' {
                self.prev_cr = false;
            } else if c == '\r' || c == '\n' {
                let ev = self.end_line();
                self.prev_cr = c == '\r';
                match ev {
                    Some(v) => {
                        let ghost old_out: Seq<Vec<char>> = out@;
                        out.push(v);
                        proof {
                            assert(out@.map_values(|e: Vec<char>| e@) =~= old_out.map_values(
                                |e: Vec<char>| e@,
                            ).push(v@));
                            assert(sse_run(h0).events + out@.map_values(|e: Vec<char>| e@)
                                =~= (sse_run(h0).events + old_out.map_values(|e: Vec<char>| e@))
                                .push(v@));
                        }
                    },
                    None => {},
                }
            } else {
                self.line.push(c);
                self.prev_cr = false;
            }
            proof {
                self.history@ = h0 + chunk@.take(i as int + 1);
            }
            i = i + 1;
        }
        proof {
            assert(h0 + chunk@.take(chunk@.len() as int) =~= h0 + chunk@);
        }
        out
    }
}

} // verus!