//! The session-scoped decoder: one [`EventBuilder`] kept across batches and
//! chunk boundaries, so that callers never see partial state.
//!
//! [`StreamHandler::read`] applies one batch of already-split lines;
//! [`StreamHandler::feed_chunk`] takes one raw text chunk as it came from
//! the transport, with no guarantee that the chunk ends on a line boundary:
//! the partial line after the chunk's last newline is buffered and stands in
//! front of the next chunk, so a field line cut across two chunks is decoded
//! whole rather than as two malformed lines.

use vstd::prelude::*;

use crate::event::Event;
use crate::event::EventBuilder;
use crate::event::EventLineResponse;
use crate::event::EventModel;
use crate::event::StepModel;
use crate::event::spec_empty_builder;
use crate::event::spec_step;
use crate::event::spec_steps;

verus! {

/// What one batch of lines or one chunk yielded: a completed event, or
/// nothing completed yet.
#[derive(Debug)]
pub enum EventStreamResponse {
    Complete(Event),
    Incomplete,
}

/// The lines of `s` that a newline completes, in order, without their
/// newline characters. Text after the last newline belongs to no complete
/// line; an empty segment between two newlines is a (terminator) line of
/// its own.
pub open spec fn spec_complete_lines(s: Seq<char>) -> Seq<Seq<char>>
    decreases s.len(),
{
    if s.len() == 0 {
        Seq::empty()
    } else if s.last() == '\n' {
        spec_complete_lines(s.drop_last()).push(spec_line_rest(s.drop_last()))
    } else {
        spec_complete_lines(s.drop_last())
    }
}

/// The partial line after the last newline of `s`: what an incremental
/// decoder must buffer until the rest of the line arrives.
pub open spec fn spec_line_rest(s: Seq<char>) -> Seq<char>
    decreases s.len(),
{
    if s.len() == 0 {
        Seq::empty()
    } else if s.last() == '\n' {
        Seq::empty()
    } else {
        spec_line_rest(s.drop_last()).push(s.last())
    }
}

/// The session decoder: the builder for the event in flight, and the
/// buffered partial line from the last chunk.
#[derive(Debug)]
pub struct StreamHandler {
    pub b: EventBuilder,
    pub pending: String,
}

impl StreamHandler {
    /// A fresh session: an empty builder and nothing buffered.
    pub fn new() -> (h: StreamHandler)
        ensures
            h.b@ == spec_empty_builder(),
            h.pending@ == Seq::<char>::empty(),
    {
        StreamHandler { b: EventBuilder::new(), pending: String::new() }
    }

    /// Applies one batch of lines to the held builder. A completed event is
    /// handed out and the held builder starts over empty; otherwise the
    /// builder keeps the accumulated state. Lines after a terminator within
    /// the batch are not processed. The chunk buffer is untouched: `read`
    /// is for callers that split lines themselves.
    pub fn read(&mut self, lines: Vec<&str>) -> (r: EventStreamResponse)
        ensures
            final(self).pending == old(self).pending,
            match spec_steps(old(self).b@, lines.deep_view()) {
                StepModel::Continue(m) => r is Incomplete && final(self).b@ == m,
                StepModel::Complete(m) => (r matches EventStreamResponse::Complete(e) && e@ == m)
                    && final(self).b@ == spec_empty_builder(),
            },
    {
        let mut b = EventBuilder::new();
        core::mem::swap(&mut self.b, &mut b);
        match b.read_in_lines(lines) {
            EventLineResponse::Continue(next) => {
                self.b = next;
                EventStreamResponse::Incomplete
            },
            EventLineResponse::Complete(event) => EventStreamResponse::Complete(event),
        }
    }

    /// Feeds one raw text chunk. The buffered partial line from the last
    /// chunk is put in front, the combined text is split at its newlines,
    /// every completed line is applied as in [`StreamHandler::read`], and
    /// the text after the last newline becomes the new buffer.
    #[verifier::loop_isolation(false)]
    pub fn feed_chunk(&mut self, chunk: &str) -> (r: EventStreamResponse)
        ensures
            final(self).pending@ == spec_line_rest(old(self).pending@ + chunk@),
            match spec_steps(
                old(self).b@,
                spec_complete_lines(old(self).pending@ + chunk@),
            ) {
                StepModel::Continue(m) => r is Incomplete && final(self).b@ == m,
                StepModel::Complete(m) => (r matches EventStreamResponse::Complete(e) && e@ == m)
                    && final(self).b@ == spec_empty_builder(),
            },
    {
        let combined = self.pending.clone().concat(chunk);
        let n = combined.as_str().unicode_len();
        let mut lines: Vec<&str> = Vec::new();
        let mut start: usize = 0;
        let mut i: usize = 0;
        proof {
            assert(combined@.subrange(0, 0) =~= Seq::<char>::empty());
            assert(lines.deep_view() =~= spec_complete_lines(combined@.subrange(0, 0)));
        }
        while i < n
            invariant
                start <= i <= n,
                n == combined@.len(),
                lines.deep_view() == spec_complete_lines(combined@.subrange(0, i as int)),
                combined@.subrange(start as int, i as int) == spec_line_rest(
                    combined@.subrange(0, i as int),
                ),
            decreases n - i,
        {
            let c = combined.as_str().get_char(i);
            proof {
                assert(combined@.subrange(0, i as int + 1).drop_last() =~= combined@.subrange(
                    0,
                    i as int,
                ));
                assert(combined@.subrange(0, i as int + 1).last() == combined@[i as int]);
            }
            if c == '\n' {
                let line = combined.as_str().substring_char(start, i);
                lines.push(line);
                proof {
                    assert(lines.deep_view() =~= spec_complete_lines(
                        combined@.subrange(0, i as int + 1),
                    ));
                    assert(combined@.subrange(i as int + 1, i as int + 1) =~= spec_line_rest(
                        combined@.subrange(0, i as int + 1),
                    ));
                }
                start = i + 1;
            } else {
                proof {
                    assert(combined@.subrange(start as int, i as int + 1) =~= combined@.subrange(
                        start as int,
                        i as int,
                    ).push(combined@[i as int]));
                }
            }
            i = i + 1;
        }
        proof {
            assert(combined@.subrange(0, n as int) =~= combined@);
        }
        let rest = combined.as_str().substring_char(start, n).to_owned();
        let resp = self.read(lines);
        self.pending = rest;
        resp
    }
}

proof fn lemma_line_rest_no_newline(s: Seq<char>)
    ensures
        forall|i: int| 0 <= i < spec_line_rest(s).len() ==> spec_line_rest(s)[i] != '\n',
    decreases s.len(),
{
    if s.len() == 0 {
    } else if s.last() == '\n' {
    } else {
        lemma_line_rest_no_newline(s.drop_last());
        let r = spec_line_rest(s.drop_last());
        assert forall|i: int| 0 <= i < spec_line_rest(s).len() implies spec_line_rest(s)[i]
            != '\n' by {
            if i < r.len() {
                assert(spec_line_rest(s)[i] == r[i]);
            } else {
                assert(spec_line_rest(s)[i] == s.last());
            }
        }
    }
}

proof fn lemma_no_newline_split(u: Seq<char>)
    requires
        forall|i: int| 0 <= i < u.len() ==> u[i] != '\n',
    ensures
        spec_complete_lines(u) == Seq::<Seq<char>>::empty(),
        spec_line_rest(u) == u,
    decreases u.len(),
{
    if u.len() == 0 {
        assert(spec_line_rest(u) =~= u);
    } else {
        assert(u.last() != '\n');
        assert(forall|i: int| 0 <= i < u.drop_last().len() ==> u.drop_last()[i] != '\n');
        lemma_no_newline_split(u.drop_last());
        assert(spec_line_rest(u) =~= u);
    }
}

/// Splitting composes across a cut: the complete lines of `s + t` are those
/// of `s` followed by those of the buffered rest of `s` put in front of
/// `t`, and the leftover partial line is the same either way.
proof fn lemma_split_concat(s: Seq<char>, t: Seq<char>)
    ensures
        spec_complete_lines(s + t) == spec_complete_lines(s) + spec_complete_lines(
            spec_line_rest(s) + t,
        ),
        spec_line_rest(s + t) == spec_line_rest(spec_line_rest(s) + t),
    decreases t.len(),
{
    if t.len() == 0 {
        assert(s + t =~= s);
        assert(spec_line_rest(s) + t =~= spec_line_rest(s));
        lemma_line_rest_no_newline(s);
        lemma_no_newline_split(spec_line_rest(s));
        assert(spec_complete_lines(s) + spec_complete_lines(spec_line_rest(s))
            =~= spec_complete_lines(s));
    } else {
        let t2 = t.drop_last();
        let c = t.last();
        lemma_split_concat(s, t2);
        assert((s + t).drop_last() =~= s + t2);
        assert((spec_line_rest(s) + t).drop_last() =~= spec_line_rest(s) + t2);
        assert((s + t).last() == c);
        assert((spec_line_rest(s) + t).last() == c);
        if c == '\n' {
            assert((spec_complete_lines(s) + spec_complete_lines(spec_line_rest(s) + t2)).push(
                spec_line_rest(spec_line_rest(s) + t2),
            ) =~= spec_complete_lines(s) + spec_complete_lines(spec_line_rest(s) + t2).push(
                spec_line_rest(spec_line_rest(s) + t2),
            ));
        }
    }
}

/// [`spec_steps`] over a batch split in two: the second half only matters
/// if the first half did not already complete an event.
proof fn lemma_steps_append(b: EventModel, l1: Seq<Seq<char>>, l2: Seq<Seq<char>>)
    ensures
        spec_steps(b, l1 + l2) == match spec_steps(b, l1) {
            StepModel::Continue(b2) => spec_steps(b2, l2),
            StepModel::Complete(e) => StepModel::Complete(e),
        },
    decreases l1.len(),
{
    if l1.len() == 0 {
        assert(l1 + l2 =~= l2);
    } else {
        assert((l1 + l2)[0] == l1[0]);
        assert((l1 + l2).drop_first() =~= l1.drop_first() + l2);
        match spec_step(b, l1[0]) {
            StepModel::Continue(b2) => {
                lemma_steps_append(b2, l1.drop_first(), l2);
            },
            StepModel::Complete(_) => {
            },
        }
    }
}

/// Chunk boundaries are immaterial: buffering the partial line of one chunk
/// and feeding the next chunk behind it drives the decoder exactly as if
/// the two chunks had arrived as one; and when the first chunk already
/// completes an event, it is the very event the combined chunk completes.
/// This is what lets [`StreamHandler::feed_chunk`] decode a field line cut
/// mid-line across two chunks.
pub proof fn lemma_chunk_boundary_immaterial(b: EventModel, s: Seq<char>, t: Seq<char>)
    ensures
        spec_steps(b, spec_complete_lines(s + t)) == match spec_steps(
            b,
            spec_complete_lines(s),
        ) {
            StepModel::Continue(b2) => spec_steps(b2, spec_complete_lines(spec_line_rest(s) + t)),
            StepModel::Complete(e) => StepModel::Complete(e),
        },
{
    lemma_split_concat(s, t);
    lemma_steps_append(
        b,
        spec_complete_lines(s),
        spec_complete_lines(spec_line_rest(s) + t),
    );
}

} // verus!
