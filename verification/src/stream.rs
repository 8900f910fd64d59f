use vstd::prelude::*;
use crate::codec::{chunk_of, chunk_from_json, chars_eq};
use crate::err::Error;
use crate::json::{json_parse, parse_json, str_to_chars, chars_to_string};
use crate::sse::{SseDecoder, sse_events};
use crate::types::{ResponsePart, ResponsePartV};

verus! {

// ---------------------------------------------------------------------------
// The streaming decoder: SSE events in, decoded response parts out. The
// sentinel frame ends the stream; after it nothing more is produced. A frame
// that fails to decode yields an error value at its position and the stream
// goes on.
// ---------------------------------------------------------------------------

/// The sentinel the server sends in place of a JSON frame when the reply is
/// complete.
pub open spec fn done_marker() -> Seq<char> {
    "[DONE]"@
}

/// What one frame's data yields: the completion marker, a decoded chunk, or
/// nothing where the frame does not decode (an error value in the output).
pub open spec fn frame_part(d: Seq<char>) -> Option<ResponsePartV> {
    if d == done_marker() {
        Some(ResponsePartV::Done)
    } else {
        match json_parse(d) {
            Some(v) => match chunk_of(v) {
                Some(c) => Some(ResponsePartV::Chunk(c)),
                None => None,
            },
            None => None,
        }
    }
}

/// The whole output for a list of frames: each frame yields its part in
/// order, and production stops right after the first completion marker.
pub open spec fn stream_output(frames: Seq<Seq<char>>) -> Seq<Option<ResponsePartV>>
    decreases frames.len(),
{
    if frames.len() == 0 {
        Seq::empty()
    } else if frame_part(frames[0]) == Some(ResponsePartV::Done) {
        seq![Some(ResponsePartV::Done)]
    } else {
        seq![frame_part(frames[0])] + stream_output(frames.drop_first())
    }
}

/// Whether a list of frames holds the completion marker on the produced
/// prefix.
pub open spec fn stream_completed(frames: Seq<Seq<char>>) -> bool
    decreases frames.len(),
{
    if frames.len() == 0 {
        false
    } else if frame_part(frames[0]) == Some(ResponsePartV::Done) {
        true
    } else {
        stream_completed(frames.drop_first())
    }
}

/// Law: frames after the completion marker change nothing; and without it,
/// outputs concatenate.
pub proof fn lemma_stream_output_append(f1: Seq<Seq<char>>, f2: Seq<Seq<char>>)
    ensures
        stream_completed(f1) ==> stream_output(f1 + f2) == stream_output(f1),
        !stream_completed(f1) ==> stream_output(f1 + f2) == stream_output(f1) + stream_output(f2),
        stream_completed(f1 + f2) == (stream_completed(f1) || stream_completed(f2)),
    decreases f1.len(),
{
    if f1.len() == 0 {
        assert(f1 + f2 =~= f2);
        assert(stream_output(f1) + stream_output(f2) =~= stream_output(f2));
    } else {
        assert((f1 + f2)[0] == f1[0]);
        assert((f1 + f2).len() > 0);
        assert((f1 + f2).drop_first() =~= f1.drop_first() + f2);
        lemma_stream_output_append(f1.drop_first(), f2);
        if frame_part(f1[0]) != Some(ResponsePartV::Done) && !stream_completed(f1.drop_first()) {
            assert(seq![frame_part(f1[0])] + (stream_output(f1.drop_first()) + stream_output(f2))
                =~= (seq![frame_part(f1[0])] + stream_output(f1.drop_first())) + stream_output(
                f2,
            ));
        }
    }
}

/// How one decoded part stands in the output sequence: an error value is a
/// position that produced nothing well-formed.
pub open spec fn part_view(r: Result<ResponsePart, Error>) -> Option<ResponsePartV> {
    match r {
        Ok(p) => Some(p@),
        Err(_) => None,
    }
}

/// Decodes one frame's data: the sentinel gives `Done`; anything else must
/// be a JSON chunk, and a frame that is not carries its own text back in the
/// error.
pub fn decode_frame(data: &Vec<char>) -> (r: Result<ResponsePart, Error>)
    ensures
        (match frame_part(data@) {
            Some(p) => r matches Ok(rp) && rp@ == p,
            None => r matches Err(e) && (e matches Error::ApiError(raw, d) && raw@ == data@),
        }),
{
    let marker = str_to_chars("[DONE]");
    if chars_eq(data, &marker) {
        return Ok(ResponsePart::Done);
    }
    match parse_json(data) {
        None => Err(
            Error::ApiError(
                chars_to_string(data),
                crate::json::chars_to_string(&str_to_chars("the frame is not valid JSON")),
            ),
        ),
        Some(j) => match chunk_from_json(&j) {
            Some(c) => Ok(ResponsePart::Chunk(c)),
            None => Err(
                Error::ApiError(
                    chars_to_string(data),
                    crate::json::chars_to_string(
                        &str_to_chars("the frame does not have the shape of a completion chunk"),
                    ),
                ),
            ),
        },
    }
}

/// The streaming decoder: push raw SSE text in as it arrives; out come the
/// decoded parts, ending with `Done` at the sentinel, after which nothing
/// more is produced.
pub struct StreamDecoder {
    sse: SseDecoder,
    done: bool,
}

impl StreamDecoder {
    /// All the text pushed so far.
    pub closed spec fn history(self) -> Seq<char> {
        self.sse.history()
    }

    pub closed spec fn wf(self) -> bool {
        self.sse.wf() && self.done == stream_completed(sse_events(self.history()))
    }

    /// Everything produced so far.
    pub open spec fn outputs(self) -> Seq<Option<ResponsePartV>> {
        stream_output(sse_events(self.history()))
    }

    pub fn new() -> (d: StreamDecoder)
        ensures
            d.wf(),
            d.history() == Seq::<char>::empty(),
    {
        let d = StreamDecoder { sse: SseDecoder::new(), done: false };
        proof {
            assert(sse_events(d.history()) =~= Seq::<Seq<char>>::empty());
        }
        d
    }

    /// Feeds a piece of the response text in; returns the parts produced by
    /// the events that completed, one per frame, errors in place.
    pub fn push_chars(&mut self, chunk: &Vec<char>) -> (parts: Vec<Result<ResponsePart, Error>>)
        requires
            old(self).wf(),
        ensures
            final(self).wf(),
            final(self).history() == old(self).history() + chunk@,
            final(self).outputs() == old(self).outputs() + parts@.map_values(
                |r: Result<ResponsePart, Error>| part_view(r),
            ),
    {
        let ghost e_old: Seq<Seq<char>> = sse_events(old(self).history());
        let events = self.sse.push_chars(chunk);
        let ghost e_new: Seq<Seq<char>> = events@.map_values(|e: Vec<char>| e@);
        let mut parts: Vec<Result<ResponsePart, Error>> = Vec::new();
        let mut i: usize = 0;
        proof {
            assert(e_new.take(0) =~= Seq::<Seq<char>>::empty());
            assert(e_old + e_new.take(0) =~= e_old);
            assert(parts@.map_values(|r: Result<ResponsePart, Error>| part_view(r)) =~= Seq::<
                Option<ResponsePartV>,
            >::empty());
            assert(stream_output(e_old) + Seq::<Option<ResponsePartV>>::empty() =~= stream_output(
                e_old,
            ));
        }
        while i < events.len()
            invariant
                i <= events@.len(),
                e_new == events@.map_values(|e: Vec<char>| e@),
                e_new.len() == events@.len(),
                self.sse.wf(),
                self.history() == old(self).history() + chunk@,
                sse_events(self.history()) == e_old + e_new,
                self.done == stream_completed(e_old + e_new.take(i as int)),
                stream_output(e_old + e_new.take(i as int)) == stream_output(e_old) + parts@
                    .map_values(|r: Result<ResponsePart, Error>| part_view(r)),
            decreases events@.len() - i,
        {
            let ghost pre: Seq<Seq<char>> = e_old + e_new.take(i as int);
            proof {
                assert(e_new.take(i as int + 1) =~= e_new.take(i as int).push(e_new[i as int]));
                assert(e_old + e_new.take(i as int + 1) =~= pre + seq![e_new[i as int]]);
                lemma_stream_output_append(pre, seq![e_new[i as int]]);
                assert(seq![e_new[i as int]][0] == e_new[i as int]);
                assert(seq![e_new[i as int]].drop_first() =~= Seq::<Seq<char>>::empty());
                assert(stream_output(Seq::<Seq<char>>::empty()) =~= Seq::<
                    Option<ResponsePartV>,
                >::empty());
                assert(!stream_completed(Seq::<Seq<char>>::empty()));
                assert(stream_completed(seq![e_new[i as int]]) == (frame_part(e_new[i as int])
                    == Some(ResponsePartV::Done)));
                assert(stream_output(seq![e_new[i as int]]) =~= seq![frame_part(e_new[i as int])]);
                assert(e_new[i as int] == events@[i as int]@);
            }
            if self.done {
                proof {
                    assert(stream_output(e_old + e_new.take(i as int + 1)) == stream_output(pre));
                }
            } else {
                let part = decode_frame(&events[i]);
                let ghost old_parts: Seq<Result<ResponsePart, Error>> = parts@;
                let is_done = match &part {
                    Ok(ResponsePart::Done) => true,
                    _ => false,
                };
                parts.push(part);
                if is_done {
                    self.done = true;
                }
                proof {
                    assert(part_view(part) == frame_part(e_new[i as int]));
                    assert(parts@.map_values(|r: Result<ResponsePart, Error>| part_view(r))
                        =~= old_parts.map_values(|r: Result<ResponsePart, Error>| part_view(r))
                        .push(part_view(part)));
                    assert(stream_output(e_old) + old_parts.map_values(
                        |r: Result<ResponsePart, Error>| part_view(r),
                    ) + seq![frame_part(e_new[i as int])] =~= stream_output(e_old) + parts@
                        .map_values(|r: Result<ResponsePart, Error>| part_view(r)));
                }
            }
            i = i + 1;
        }
        proof {
            assert(e_new.take(e_new.len() as int) =~= e_new);
            assert(sse_events(self.history()) == e_old + e_new);
        }
        parts
    }

    /// [`Self::push_chars`], taking the text as a string slice.
    pub fn push_str(&mut self, chunk: &str) -> (parts: Vec<Result<ResponsePart, Error>>)
        requires
            old(self).wf(),
        ensures
            final(self).wf(),
            final(self).history() == old(self).history() + chunk@,
            final(self).outputs() == old(self).outputs() + parts@.map_values(
                |r: Result<ResponsePart, Error>| part_view(r),
            ),
    {
        let cs = str_to_chars(chunk);
        self.push_chars(&cs)
    }
}

// ---------------------------------------------------------------------------
// Laws of the produced sequence.
// ---------------------------------------------------------------------------

/// Law: for frames `chunk1, chunk2, [DONE]`, whatever follows, the output is
/// exactly `[Chunk(chunk1), Chunk(chunk2), Done]` and nothing after.
pub proof fn lemma_stream_two_chunks_then_done(
    f1: Seq<char>,
    f2: Seq<char>,
    c1: crate::types::ChatCompletionChunkV,
    c2: crate::types::ChatCompletionChunkV,
    more: Seq<Seq<char>>,
)
    requires
        frame_part(f1) == Some(ResponsePartV::Chunk(c1)),
        frame_part(f2) == Some(ResponsePartV::Chunk(c2)),
    ensures
        stream_output(seq![f1, f2, done_marker()] + more) == seq![
            Some(ResponsePartV::Chunk(c1)),
            Some(ResponsePartV::Chunk(c2)),
            Some(ResponsePartV::Done),
        ],
{
    let fs = seq![f1, f2, done_marker()];
    reveal_with_fuel(stream_completed, 4);
    reveal_with_fuel(stream_output, 4);
    assert(fs[0] == f1 && fs[1] == f2 && fs[2] == done_marker());
    assert(frame_part(done_marker()) == Some(ResponsePartV::Done));
    assert(fs.drop_first() =~= seq![f2, done_marker()]);
    assert(seq![f2, done_marker()].drop_first() =~= seq![done_marker()]);
    assert(seq![done_marker()].drop_first() =~= Seq::<Seq<char>>::empty());
    assert(stream_completed(fs));
    lemma_stream_output_append(fs, more);
    assert(fs + more =~= seq![f1, f2, done_marker()] + more);
    assert(fs.drop_first() =~= seq![f2, done_marker()]);
    assert(seq![f2, done_marker()].drop_first() =~= seq![done_marker()]);
    assert(stream_output(seq![done_marker()]) =~= seq![Some(ResponsePartV::Done)]);
    assert(stream_output(seq![f2, done_marker()]) =~= seq![Some(ResponsePartV::Chunk(c2))] + seq![
        Some(ResponsePartV::Done),
    ]);
    assert(stream_output(fs) =~= seq![
        Some(ResponsePartV::Chunk(c1)),
        Some(ResponsePartV::Chunk(c2)),
        Some(ResponsePartV::Done),
    ]);
}

/// Law: where no frame is the sentinel, the stream ends without `Done`:
/// every frame yields exactly its own item and no `Done` appears at all.
pub proof fn lemma_stream_no_done(frames: Seq<Seq<char>>)
    requires
        forall|i: int| 0 <= i < frames.len() ==> frames[i] != done_marker(),
    ensures
        stream_output(frames).len() == frames.len(),
        forall|i: int| 0 <= i < frames.len() ==> stream_output(frames)[i] == frame_part(frames[i])
            && stream_output(frames)[i] != Some(ResponsePartV::Done),
    decreases frames.len(),
{
    if frames.len() > 0 {
        assert(frame_part(frames[0]) != Some(ResponsePartV::Done));
        lemma_stream_no_done(frames.drop_first());
        assert forall|i: int| 0 <= i < frames.len() implies stream_output(frames)[i] == frame_part(
            frames[i],
        ) && stream_output(frames)[i] != Some(ResponsePartV::Done) by {
            if i > 0 {
                assert(stream_output(frames)[i] == stream_output(frames.drop_first())[i - 1]);
                assert(frames.drop_first()[i - 1] == frames[i]);
            }
        }
    }
}

/// Law: the completion marker can only stand at the end of the output:
/// no produced position before the last one is `Done`.
pub proof fn lemma_done_only_last(frames: Seq<Seq<char>>)
    ensures
        forall|i: int| 0 <= i < stream_output(frames).len() - 1 ==> stream_output(frames)[i]
            != Some(ResponsePartV::Done),
    decreases frames.len(),
{
    if frames.len() > 0 && frame_part(frames[0]) != Some(ResponsePartV::Done) {
        lemma_done_only_last(frames.drop_first());
        assert forall|i: int| 0 <= i < stream_output(frames).len() - 1 implies stream_output(
            frames,
        )[i] != Some(ResponsePartV::Done) by {
            if i > 0 {
                assert(stream_output(frames)[i] == stream_output(frames.drop_first())[i - 1]);
            }
        }
    }
}

} // verus!