//! The streaming decoder: a growable frame buffer fed in chunks, frame
//! extraction at newline delimiters, and the refinement of the whole session
//! to a specification over the concatenated bytes.

use vstd::prelude::*;
use crate::shape;
use crate::shape::{
    classify_frame_spec, shapes_view, DecodeError, DecodedRecord, ErrorSpec, FrameClassSpec,
    RecordSpec, VariantShape, VariantShapeSpec,
};

verus! {

/// Whether a byte is JSON whitespace (space, tab, carriage return, newline).
pub open spec fn is_ws(b: u8) -> bool {
    b == 32u8 || b == 9u8 || b == 13u8 || b == 10u8
}

/// Whether every byte is whitespace; a frame that trims to empty.
pub open spec fn all_ws(s: Seq<u8>) -> bool {
    forall|i: int| 0 <= i < s.len() ==> is_ws(#[trigger] s[i])
}

/// Position of the first newline byte, or the length when there is none.
pub open spec fn scan_nl(s: Seq<u8>) -> nat
    decreases s.len(),
{
    if s.len() == 0 {
        0
    } else if s[0] == 10u8 {
        0
    } else {
        1 + scan_nl(s.drop_first())
    }
}

/// `scan_nl` is in range, points at a newline when one exists, and nothing
/// before it is a newline.
pub proof fn lemma_scan_nl(s: Seq<u8>)
    ensures
        scan_nl(s) <= s.len(),
        scan_nl(s) < s.len() ==> s[scan_nl(s) as int] == 10u8,
        forall|i: int| 0 <= i < scan_nl(s) ==> s[i] != 10u8,
    decreases s.len(),
{
    if s.len() > 0 && s[0] != 10u8 {
        lemma_scan_nl(s.drop_first());
        assert forall|i: int| 0 <= i < scan_nl(s) implies s[i] != 10u8 by {
            if i > 0 {
                assert(s.drop_first()[i - 1] == s[i]);
            }
        }
    }
}

/// A position preceded by no newline, and itself a newline or the end, is
/// where the scan stops.
pub proof fn lemma_scan_nl_is(s: Seq<u8>, n: int)
    requires
        0 <= n <= s.len(),
        forall|i: int| 0 <= i < n ==> s[i] != 10u8,
        n < s.len() ==> s[n] == 10u8,
    ensures
        scan_nl(s) == n,
    decreases n,
{
    if n > 0 {
        assert(s[0] != 10u8);
        assert forall|i: int| 0 <= i < n - 1 implies s.drop_first()[i] != 10u8 by {
            assert(s.drop_first()[i] == s[i + 1]);
        }
        if n - 1 < s.drop_first().len() {
            assert(s.drop_first()[n - 1] == s[n]);
        }
        lemma_scan_nl_is(s.drop_first(), n - 1);
    }
}

/// Appending bytes does not move a first newline that is already there.
pub proof fn lemma_scan_nl_append(a: Seq<u8>, b: Seq<u8>)
    requires
        scan_nl(a) < a.len(),
    ensures
        scan_nl(a + b) == scan_nl(a),
{
    lemma_scan_nl(a);
    let n = scan_nl(a) as int;
    assert forall|i: int| 0 <= i < n implies (a + b)[i] != 10u8 by {
        assert((a + b)[i] == a[i]);
    }
    assert((a + b)[n] == a[n]);
    lemma_scan_nl_is(a + b, n);
}

/// What one poll produced, at specification level.
#[verifier::ext_equal]
pub enum StepSpec {
    NeedChunk,
    Item(RecordSpec),
    Fail(ErrorSpec),
    Finished,
}

/// The step a classified frame turns into.
pub open spec fn class_step(c: FrameClassSpec) -> StepSpec {
    match c {
        FrameClassSpec::Record(r) => StepSpec::Item(r),
        FrameClassSpec::Malformed(b) => StepSpec::Fail(ErrorSpec::Malformed(b)),
        FrameClassSpec::Unrecognized(j) => StepSpec::Fail(ErrorSpec::Unrecognized(j)),
    }
}

/// One pull step over buffered bytes: skip blank frames, then yield the
/// classification of the first complete frame together with the bytes kept
/// for the next call; with no newline, ask for a chunk — or, at end of
/// source, treat the remainder as the final frame or finish.
pub open spec fn poll_spec(shapes: Seq<VariantShapeSpec>, buf: Seq<u8>, eof: bool) -> (
    StepSpec,
    Seq<u8>,
)
    decreases buf.len(),
{
    let n = scan_nl(buf) as int;
    if n < buf.len() {
        let frame = buf.take(n);
        let rest = buf.skip(n + 1);
        if all_ws(frame) {
            poll_spec(shapes, rest, eof)
        } else {
            (class_step(classify_frame_spec(shapes, frame)), rest)
        }
    } else if eof {
        if all_ws(buf) {
            (StepSpec::Finished, Seq::empty())
        } else {
            (class_step(classify_frame_spec(shapes, buf)), Seq::empty())
        }
    } else {
        (StepSpec::NeedChunk, buf)
    }
}

/// How a decode session ends, at specification level.
#[verifier::ext_equal]
pub enum StreamEndSpec {
    Finished,
    Failed(ErrorSpec),
}

/// The meaning of a whole byte stream: its records in order and its end.
#[verifier::ext_equal]
pub struct StreamSpec {
    pub records: Seq<RecordSpec>,
    pub end: StreamEndSpec,
}

/// A record followed by the rest of a stream.
pub open spec fn stream_cons(r: RecordSpec, s: StreamSpec) -> StreamSpec {
    StreamSpec { records: seq![r] + s.records, end: s.end }
}

/// The stream a classified frame contributes: its record followed by the
/// tail, or the error that ends the session at once.
pub open spec fn class_stream(c: FrameClassSpec, tail: StreamSpec) -> StreamSpec {
    match c {
        FrameClassSpec::Record(r) => stream_cons(r, tail),
        FrameClassSpec::Malformed(b) => StreamSpec {
            records: Seq::empty(),
            end: StreamEndSpec::Failed(ErrorSpec::Malformed(b)),
        },
        FrameClassSpec::Unrecognized(j) => StreamSpec {
            records: Seq::empty(),
            end: StreamEndSpec::Failed(ErrorSpec::Unrecognized(j)),
        },
    }
}

/// The meaning of a complete byte stream: frames split at newlines, a
/// non-empty unterminated trailing frame included, blank frames skipped, and
/// the records of the frames in order until the first frame that fails to
/// classify, whose error ends the stream.
pub open spec fn decode_stream(shapes: Seq<VariantShapeSpec>, bytes: Seq<u8>) -> StreamSpec
    decreases bytes.len(),
{
    let n = scan_nl(bytes) as int;
    if n < bytes.len() {
        let frame = bytes.take(n);
        let rest = bytes.skip(n + 1);
        if all_ws(frame) {
            decode_stream(shapes, rest)
        } else {
            class_stream(classify_frame_spec(shapes, frame), decode_stream(shapes, rest))
        }
    } else {
        if all_ws(bytes) {
            StreamSpec { records: Seq::empty(), end: StreamEndSpec::Finished }
        } else {
            class_stream(
                classify_frame_spec(shapes, bytes),
                StreamSpec { records: Seq::empty(), end: StreamEndSpec::Finished },
            )
        }
    }
}

/// Records prepended to a stream.
pub open spec fn prepended(rs: Seq<RecordSpec>, s: StreamSpec) -> StreamSpec {
    StreamSpec { records: rs + s.records, end: s.end }
}

/// Decoding bytes that start with a complete frame decodes that frame first,
/// whatever bytes are still to come: the frame's contribution is already
/// determined.
pub proof fn lemma_decode_extend(shapes: Seq<VariantShapeSpec>, buf: Seq<u8>, t: Seq<u8>)
    requires
        scan_nl(buf) < buf.len(),
    ensures
        ({
            let n = scan_nl(buf) as int;
            let frame = buf.take(n);
            let rest = buf.skip(n + 1);
            if all_ws(frame) {
                decode_stream(shapes, buf + t) == decode_stream(shapes, rest + t)
            } else {
                decode_stream(shapes, buf + t) == class_stream(
                    classify_frame_spec(shapes, frame),
                    decode_stream(shapes, rest + t),
                )
            }
        }),
{
    let n = scan_nl(buf) as int;
    lemma_scan_nl_append(buf, t);
    lemma_scan_nl(buf);
    assert((buf + t).take(n) =~= buf.take(n));
    assert((buf + t).skip(n + 1) =~= buf.skip(n + 1) + t);
    assert(scan_nl(buf + t) as int == n);
    assert(n < (buf + t).len());
}

/// The byte sequences of a sequence of chunks.
pub open spec fn chunks_view(chunks: Seq<Vec<u8>>) -> Seq<Seq<u8>> {
    chunks.map_values(|c: Vec<u8>| c@)
}

/// The views of a sequence of decoded records.
pub open spec fn records_view(rs: Seq<DecodedRecord>) -> Seq<RecordSpec> {
    rs.map_values(|d: DecodedRecord| d@)
}

/// The concatenation of a sequence of chunks, in arrival order.
pub open spec fn flatten_chunks(chunks: Seq<Seq<u8>>) -> Seq<u8>
    decreases chunks.len(),
{
    if chunks.len() == 0 {
        Seq::empty()
    } else {
        chunks[0] + flatten_chunks(chunks.drop_first())
    }
}

/// Concatenating one more chunk extends the flattened bytes by that chunk.
pub proof fn lemma_flatten_take_step(chunks: Seq<Seq<u8>>, i: int)
    requires
        0 <= i < chunks.len(),
    ensures
        flatten_chunks(chunks.take(i + 1)) == flatten_chunks(chunks.take(i)) + chunks[i],
    decreases i,
{
    if i == 0 {
        assert(chunks.take(1).drop_first() =~= Seq::<Seq<u8>>::empty());
        assert(flatten_chunks(Seq::<Seq<u8>>::empty()) =~= Seq::<u8>::empty());
        assert(flatten_chunks(chunks.take(1)) =~= flatten_chunks(chunks.take(0)) + chunks[0]);
    } else {
        let df = chunks.drop_first();
        lemma_flatten_take_step(df, i - 1);
        assert(chunks.take(i + 1).drop_first() =~= df.take(i));
        assert(chunks.take(i).drop_first() =~= df.take(i - 1));
        assert(chunks[0] + (flatten_chunks(df.take(i - 1)) + df[i - 1]) =~= (chunks[0]
            + flatten_chunks(df.take(i - 1))) + chunks[i]);
    }
}

/// The flattened stream splits at any chunk boundary.
pub proof fn lemma_flatten_split(chunks: Seq<Seq<u8>>, i: int)
    requires
        0 <= i <= chunks.len(),
    ensures
        flatten_chunks(chunks) == flatten_chunks(chunks.take(i)) + flatten_chunks(chunks.skip(i)),
    decreases i,
{
    if i == 0 {
        assert(chunks.skip(0) =~= chunks);
        assert(flatten_chunks(chunks.take(0)) + flatten_chunks(chunks) =~= flatten_chunks(chunks));
    } else {
        let df = chunks.drop_first();
        lemma_flatten_split(df, i - 1);
        assert(df.take(i - 1) =~= chunks.take(i).drop_first());
        assert(df.skip(i - 1) =~= chunks.skip(i));
        assert(chunks[0] + (flatten_chunks(df.take(i - 1)) + flatten_chunks(chunks.skip(i)))
            =~= (chunks[0] + flatten_chunks(df.take(i - 1))) + flatten_chunks(chunks.skip(i)));
        assert(flatten_chunks(chunks.take(i)) =~= chunks.take(i)[0] + flatten_chunks(
            chunks.take(i).drop_first(),
        ));
    }
}

/// Before the source has ended, a poll never reports the end of the stream.
pub proof fn lemma_poll_no_finish(shapes: Seq<VariantShapeSpec>, buf: Seq<u8>)
    ensures
        !(poll_spec(shapes, buf, false).0 is Finished),
    decreases buf.len(),
{
    let n = scan_nl(buf) as int;
    if n < buf.len() && all_ws(buf.take(n)) {
        lemma_poll_no_finish(shapes, buf.skip(n + 1));
    }
}

/// Once the source has ended, a poll never asks for another chunk.
pub proof fn lemma_poll_eof_no_need(shapes: Seq<VariantShapeSpec>, buf: Seq<u8>)
    ensures
        !(poll_spec(shapes, buf, true).0 is NeedChunk),
    decreases buf.len(),
{
    let n = scan_nl(buf) as int;
    if n < buf.len() && all_ws(buf.take(n)) {
        lemma_poll_eof_no_need(shapes, buf.skip(n + 1));
    }
}

/// A poll that yields a record consumes at least one buffered byte.
pub proof fn lemma_poll_shrinks(shapes: Seq<VariantShapeSpec>, buf: Seq<u8>, eof: bool)
    ensures
        poll_spec(shapes, buf, eof).0 is Item ==> poll_spec(shapes, buf, eof).1.len() < buf.len(),
    decreases buf.len(),
{
    let n = scan_nl(buf) as int;
    if n < buf.len() && all_ws(buf.take(n)) {
        lemma_poll_shrinks(shapes, buf.skip(n + 1), eof);
    }
}

// Executable helpers over the byte buffer.

/// First newline in the buffer.
fn find_nl(buf: &Vec<u8>) -> (r: Option<usize>)
    ensures
        match r {
            Some(n) => n < buf@.len() && scan_nl(buf@) == n,
            None => scan_nl(buf@) == buf@.len(),
        },
{
    let mut i: usize = 0;
    while i < buf.len()
        invariant
            0 <= i <= buf@.len(),
            forall|k: int| 0 <= k < i ==> buf@[k] != 10u8,
        decreases buf@.len() - i,
    {
        if buf[i] == 10u8 {
            proof {
                lemma_scan_nl_is(buf@, i as int);
            }
            return Some(i);
        }
        i += 1;
    }
    proof {
        lemma_scan_nl_is(buf@, buf@.len() as int);
    }
    None
}

/// The first `n` bytes, as a frame of their own.
fn take_prefix(buf: &Vec<u8>, n: usize) -> (r: Vec<u8>)
    requires
        n <= buf@.len(),
    ensures
        r@ == buf@.take(n as int),
{
    let mut out: Vec<u8> = Vec::new();
    let mut i: usize = 0;
    while i < n
        invariant
            0 <= i <= n <= buf@.len(),
            out@ == buf@.take(i as int),
        decreases n - i,
    {
        out.push(buf[i]);
        i += 1;
        proof {
            assert(out@ =~= buf@.take(i as int));
        }
    }
    out
}

/// The bytes from position `n` on.
fn drop_through(buf: &Vec<u8>, n: usize) -> (r: Vec<u8>)
    requires
        n <= buf@.len(),
    ensures
        r@ == buf@.skip(n as int),
{
    let mut out: Vec<u8> = Vec::new();
    let mut i: usize = n;
    while i < buf.len()
        invariant
            n <= i <= buf@.len(),
            out@ == buf@.subrange(n as int, i as int),
        decreases buf@.len() - i,
    {
        out.push(buf[i]);
        i += 1;
        proof {
            assert(out@ =~= buf@.subrange(n as int, i as int));
        }
    }
    proof {
        assert(buf@.skip(n as int) =~= buf@.subrange(n as int, buf@.len() as int));
    }
    out
}

/// Whether the frame trims to empty.
fn all_ws_exec(frame: &Vec<u8>) -> (r: bool)
    ensures
        r == all_ws(frame@),
{
    let mut i: usize = 0;
    while i < frame.len()
        invariant
            0 <= i <= frame@.len(),
            forall|k: int| 0 <= k < i ==> is_ws(#[trigger] frame@[k]),
        decreases frame@.len() - i,
    {
        let b = frame[i];
        if !(b == 32 || b == 9 || b == 13 || b == 10) {
            return false;
        }
        i += 1;
    }
    true
}

/// Appends a chunk to the buffer.
fn append_bytes(dst: &mut Vec<u8>, src: &Vec<u8>)
    ensures
        final(dst)@ == old(dst)@ + src@,
{
    let mut i: usize = 0;
    while i < src.len()
        invariant
            0 <= i <= src@.len(),
            dst@ == old(dst)@ + src@.take(i as int),
        decreases src@.len() - i,
    {
        dst.push(src[i]);
        i += 1;
        proof {
            assert(dst@ =~= old(dst)@ + src@.take(i as int));
        }
    }
    proof {
        assert(old(dst)@ + src@.take(src@.len() as int) =~= old(dst)@ + src@);
    }
}

/// The phase a decode session is in.
#[derive(Clone, Copy, PartialEq, Eq, Structural)]
pub enum Phase {
    /// More chunks may still arrive.
    Pulling,
    /// End of source declared; trailing frames may remain buffered.
    Ended,
    /// The source failed; the failure has not yet been reported.
    SourceFailed,
    /// Terminal: every further poll reports end of stream.
    Done,
}

/// What one poll of the decoder produced.
pub enum PollStep {
    /// No complete frame is buffered: feed another chunk, declare the end of
    /// the source, or report its failure, then poll again.
    NeedChunk,
    /// The next record of the stream.
    Item(DecodedRecord),
    /// The session failed; the decoder is terminal.
    Failed(DecodeError),
    /// End of stream; terminal and repeatable.
    Finished,
}

/// A pull-based decoder of newline-delimited JSON records, driven without
/// I/O: the caller feeds byte chunks in arrival order and polls records out.
/// Its contract refines every session to `decode_stream` over the
/// concatenation of all bytes fed, whatever the chunk boundaries.
pub struct StreamingRecordDecoder {
    shapes: Vec<VariantShape>,
    buffer: Vec<u8>,
    phase: Phase,
    fed: Ghost<Seq<u8>>,
    emitted: Ghost<Seq<RecordSpec>>,
}

impl StreamingRecordDecoder {
    /// The variant list, in declared order.
    pub closed spec fn shapes_spec(&self) -> Seq<VariantShapeSpec> {
        shapes_view(self.shapes@)
    }

    /// Every byte fed so far.
    pub closed spec fn fed(&self) -> Seq<u8> {
        self.fed@
    }

    /// The views of the records yielded so far, in order.
    pub closed spec fn emitted(&self) -> Seq<RecordSpec> {
        self.emitted@
    }

    /// Bytes received but not yet consumed by a yielded frame.
    pub closed spec fn pending(&self) -> Seq<u8> {
        self.buffer@
    }

    /// The session's phase.
    pub closed spec fn phase_spec(&self) -> Phase {
        self.phase
    }

    /// Whether the decoder still accepts source input.
    pub open spec fn accepting_input(&self) -> bool {
        self.phase_spec() is Pulling
    }

    /// Whether the decoder is terminal: every further poll reports end of
    /// stream and touches nothing.
    pub open spec fn terminal(&self) -> bool {
        self.phase_spec() is Done
    }

    /// The session invariant: whatever bytes may still arrive, the meaning of
    /// everything fed is the records already yielded followed by the meaning
    /// of the bytes still buffered.
    pub closed spec fn wf(&self) -> bool {
        match self.phase {
            Phase::Pulling => forall|t: Seq<u8>|
                #[trigger] decode_stream(self.shapes_spec(), self.fed@ + t) == prepended(
                    self.emitted@,
                    decode_stream(self.shapes_spec(), self.buffer@ + t),
                ),
            Phase::Ended => decode_stream(self.shapes_spec(), self.fed@) == prepended(
                self.emitted@,
                decode_stream(self.shapes_spec(), self.buffer@),
            ),
            Phase::SourceFailed => true,
            Phase::Done => true,
        }
    }

    /// Wraps a variant list; performs no input yet.
    pub fn new(shapes: Vec<VariantShape>) -> (r: Self)
        ensures
            r.wf(),
            r.shapes_spec() == shapes_view(shapes@),
            r.fed() == Seq::<u8>::empty(),
            r.emitted() == Seq::<RecordSpec>::empty(),
            r.pending() == Seq::<u8>::empty(),
            r.accepting_input(),
    {
        let d = StreamingRecordDecoder {
            shapes,
            buffer: Vec::new(),
            phase: Phase::Pulling,
            fed: Ghost(Seq::empty()),
            emitted: Ghost(Seq::empty()),
        };
        proof {
            assert forall|t: Seq<u8>|
                #[trigger] decode_stream(d.shapes_spec(), d.fed@ + t) == prepended(
                    d.emitted@,
                    decode_stream(d.shapes_spec(), d.buffer@ + t),
                ) by {
                assert(d.fed@ + t =~= t);
                assert(d.buffer@ + t =~= t);
                assert(prepended(d.emitted@, decode_stream(d.shapes_spec(), t)) =~= decode_stream(
                    d.shapes_spec(),
                    t,
                ));
            }
        }
        d
    }

    /// Appends one chunk from the byte source to the frame buffer.
    pub fn feed_chunk(&mut self, chunk: &Vec<u8>)
        requires
            old(self).wf(),
            old(self).accepting_input(),
        ensures
            final(self).wf(),
            final(self).accepting_input(),
            final(self).shapes_spec() == old(self).shapes_spec(),
            final(self).fed() == old(self).fed() + chunk@,
            final(self).emitted() == old(self).emitted(),
            final(self).pending() == old(self).pending() + chunk@,
    {
        append_bytes(&mut self.buffer, chunk);
        proof {
            self.fed@ = self.fed@ + chunk@;
        }
        proof {
            let sv = self.shapes_spec();
            assert forall|t: Seq<u8>|
                #[trigger] decode_stream(sv, self.fed@ + t) == prepended(
                    self.emitted@,
                    decode_stream(sv, self.buffer@ + t),
                ) by {
                let t0 = chunk@ + t;
                assert(decode_stream(sv, old(self).fed@ + t0) == prepended(
                    old(self).emitted@,
                    decode_stream(sv, old(self).buffer@ + t0),
                ));
                assert(self.fed@ + t =~= old(self).fed@ + t0);
                assert(self.buffer@ + t =~= old(self).buffer@ + t0);
            }
        }
    }

    /// Declares a clean end of the byte source.
    pub fn end_of_source(&mut self)
        requires
            old(self).wf(),
            old(self).accepting_input(),
        ensures
            final(self).wf(),
            final(self).phase_spec() is Ended,
            final(self).shapes_spec() == old(self).shapes_spec(),
            final(self).fed() == old(self).fed(),
            final(self).emitted() == old(self).emitted(),
            final(self).pending() == old(self).pending(),
    {
        self.phase = Phase::Ended;
        proof {
            let sv = self.shapes_spec();
            assert(decode_stream(sv, self.fed@ + Seq::<u8>::empty()) == prepended(
                self.emitted@,
                decode_stream(sv, self.buffer@ + Seq::<u8>::empty()),
            ));
            assert(self.fed@ + Seq::<u8>::empty() =~= self.fed@);
            assert(self.buffer@ + Seq::<u8>::empty() =~= self.buffer@);
        }
    }

    /// Advances to the next record: skips blank frames, classifies the first
    /// complete frame (at end of source, also the unterminated trailing
    /// frame), and reports the record, the failure, the need for another
    /// chunk, or the end of the stream. Terminal outcomes are sticky: once
    /// the stream has ended or failed, every further call returns `Finished`
    /// and changes nothing.
    pub fn poll_next(&mut self) -> (r: PollStep)
        requires
            old(self).wf(),
        ensures
            final(self).wf(),
            final(self).shapes_spec() == old(self).shapes_spec(),
            final(self).fed() == old(self).fed(),
            match old(self).phase_spec() {
                Phase::Pulling | Phase::Ended => ({
                    let eof = old(self).phase_spec() is Ended;
                    let (step, rest) = poll_spec(old(self).shapes_spec(), old(self).pending(), eof);
                    match step {
                        StepSpec::NeedChunk => {
                            &&& r is NeedChunk
                            &&& final(self).phase_spec() == old(self).phase_spec()
                            &&& final(self).pending() == rest
                            &&& final(self).emitted() == old(self).emitted()
                        },
                        StepSpec::Item(rec) => {
                            &&& r matches PollStep::Item(d) && d@ == rec
                            &&& final(self).phase_spec() == old(self).phase_spec()
                            &&& final(self).pending() == rest
                            &&& final(self).emitted() == old(self).emitted().push(rec)
                        },
                        StepSpec::Fail(e) => {
                            &&& r matches PollStep::Failed(err) && err@ == e
                            &&& final(self).terminal()
                            &&& final(self).emitted() == old(self).emitted()
                            &&& (old(self).phase_spec() is Ended ==> decode_stream(
                                old(self).shapes_spec(),
                                old(self).fed(),
                            ) == (StreamSpec {
                                records: old(self).emitted(),
                                end: StreamEndSpec::Failed(e),
                            }))
                            &&& (old(self).phase_spec() is Pulling ==> forall|t: Seq<u8>|
                                #[trigger] decode_stream(old(self).shapes_spec(), old(self).fed() + t)
                                    == (StreamSpec {
                                    records: old(self).emitted(),
                                    end: StreamEndSpec::Failed(e),
                                }))
                        },
                        StepSpec::Finished => {
                            &&& r is Finished
                            &&& final(self).terminal()
                            &&& final(self).emitted() == old(self).emitted()
                            &&& decode_stream(old(self).shapes_spec(), old(self).fed())
                                == (StreamSpec {
                                records: old(self).emitted(),
                                end: StreamEndSpec::Finished,
                            })
                        },
                    }
                }),
                Phase::SourceFailed => {
                    &&& r matches PollStep::Failed(err) && err@ == ErrorSpec::Source
                    &&& final(self).terminal()
                    &&& final(self).emitted() == old(self).emitted()
                },
                Phase::Done => r is Finished && *final(self) == *old(self),
            },
    {
        match self.phase {
            Phase::Done => {
                return PollStep::Finished;
            },
            Phase::SourceFailed => {
                self.phase = Phase::Done;
                return PollStep::Failed(DecodeError::SourceError);
            },
            _ => {},
        }
        let eof = self.phase == Phase::Ended;
        let ghost sv = self.shapes_spec();
        let ghost buf0 = self.buffer@;
        let ghost e0 = self.emitted@;
        loop
            invariant
                self.phase == old(self).phase,
                self.phase is Pulling || self.phase is Ended,
                eof == (self.phase is Ended),
                sv == self.shapes_spec(),
                sv == old(self).shapes_spec(),
                self.fed@ == old(self).fed@,
                self.emitted@ == e0,
                e0 == old(self).emitted@,
                buf0 == old(self).buffer@,
                self.wf(),
                poll_spec(sv, self.buffer@, eof) == poll_spec(sv, buf0, eof),
            decreases self.buffer@.len(),
        {
            let ghost buf_pre = self.buffer@;
            match find_nl(&self.buffer) {
                None => {
                    if !eof {
                        return PollStep::NeedChunk;
                    }
                    if all_ws_exec(&self.buffer) {
                        proof {
                            assert(prepended(
                                e0,
                                StreamSpec {
                                    records: Seq::empty(),
                                    end: StreamEndSpec::Finished,
                                },
                            ) =~= StreamSpec { records: e0, end: StreamEndSpec::Finished });
                        }
                        self.buffer = Vec::new();
                        self.phase = Phase::Done;
                        return PollStep::Finished;
                    }
                    let len = self.buffer.len();
                    let frame = take_prefix(&self.buffer, len);
                    proof {
                        assert(frame@ =~= buf_pre);
                    }
                    self.buffer = Vec::new();
                    match shape::classify_frame(&self.shapes, frame) {
                        Ok(rec) => {
                            proof {
                                self.emitted@ = self.emitted@.push(rec@);
                                assert(prepended(
                                    e0,
                                    stream_cons(
                                        rec@,
                                        StreamSpec {
                                            records: Seq::empty(),
                                            end: StreamEndSpec::Finished,
                                        },
                                    ),
                                ) =~= prepended(
                                    e0.push(rec@),
                                    decode_stream(sv, Seq::<u8>::empty()),
                                ));
                            }
                            return PollStep::Item(rec);
                        },
                        Err(e) => {
                            self.phase = Phase::Done;
                            proof {
                                assert(prepended(e0, decode_stream(sv, buf_pre)) =~= StreamSpec {
                                    records: e0,
                                    end: StreamEndSpec::Failed(e@),
                                });
                            }
                            return PollStep::Failed(e);
                        },
                    }
                },
                Some(n) => {
                    let blen = self.buffer.len();
                    assert(n < blen);
                    let frame = take_prefix(&self.buffer, n);
                    let rest = drop_through(&self.buffer, n + 1);
                    self.buffer = rest;
                    if all_ws_exec(&frame) {
                        proof {
                            if eof {
                                assert(decode_stream(sv, buf_pre) == decode_stream(
                                    sv,
                                    self.buffer@,
                                ));
                            } else {
                                assert forall|t: Seq<u8>|
                                    #[trigger] decode_stream(sv, self.fed@ + t) == prepended(
                                        e0,
                                        decode_stream(sv, self.buffer@ + t),
                                    ) by {
                                    assert(decode_stream(sv, self.fed@ + t) == prepended(
                                        e0,
                                        decode_stream(sv, buf_pre + t),
                                    ));
                                    lemma_decode_extend(sv, buf_pre, t);
                                }
                            }
                        }
                    } else {
                        match shape::classify_frame(&self.shapes, frame) {
                            Ok(rec) => {
                                proof {
                                    if eof {
                                        assert(prepended(
                                            e0,
                                            stream_cons(rec@, decode_stream(sv, self.buffer@)),
                                        ) =~= prepended(
                                            e0.push(rec@),
                                            decode_stream(sv, self.buffer@),
                                        ));
                                    } else {
                                        assert forall|t: Seq<u8>|
                                            #[trigger] decode_stream(sv, self.fed@ + t)
                                                == prepended(
                                                e0.push(rec@),
                                                decode_stream(sv, self.buffer@ + t),
                                            ) by {
                                            assert(decode_stream(sv, self.fed@ + t) == prepended(
                                                e0,
                                                decode_stream(sv, buf_pre + t),
                                            ));
                                            lemma_decode_extend(sv, buf_pre, t);
                                            assert(prepended(
                                                e0,
                                                stream_cons(
                                                    rec@,
                                                    decode_stream(sv, self.buffer@ + t),
                                                ),
                                            ) =~= prepended(
                                                e0.push(rec@),
                                                decode_stream(sv, self.buffer@ + t),
                                            ));
                                        }
                                    }
                                    self.emitted@ = self.emitted@.push(rec@);
                                }
                                return PollStep::Item(rec);
                            },
                            Err(e) => {
                                self.phase = Phase::Done;
                                proof {
                                    if eof {
                                        assert(prepended(e0, decode_stream(sv, buf_pre))
                                            =~= StreamSpec {
                                            records: e0,
                                            end: StreamEndSpec::Failed(e@),
                                        });
                                    } else {
                                        assert forall|t: Seq<u8>|
                                            #[trigger] decode_stream(sv, self.fed@ + t)
                                                == (StreamSpec {
                                                records: e0,
                                                end: StreamEndSpec::Failed(e@),
                                            }) by {
                                            assert(decode_stream(sv, self.fed@ + t) == prepended(
                                                e0,
                                                decode_stream(sv, buf_pre + t),
                                            ));
                                            lemma_decode_extend(sv, buf_pre, t);
                                            assert(prepended(
                                                e0,
                                                decode_stream(sv, buf_pre + t),
                                            ) =~= StreamSpec {
                                                records: e0,
                                                end: StreamEndSpec::Failed(e@),
                                            });
                                        }
                                    }
                                }
                                return PollStep::Failed(e);
                            },
                        }
                    }
                },
            }
        }
    }

    /// Reports a transport failure of the byte source; buffered bytes that
    /// never formed a complete frame are discarded.
    pub fn source_failed(&mut self)
        requires
            old(self).wf(),
            old(self).accepting_input(),
        ensures
            final(self).wf(),
            final(self).phase_spec() is SourceFailed,
            final(self).shapes_spec() == old(self).shapes_spec(),
            final(self).fed() == old(self).fed(),
            final(self).emitted() == old(self).emitted(),
            final(self).pending() == Seq::<u8>::empty(),
    {
        self.buffer = Vec::new();
        self.phase = Phase::SourceFailed;
    }
}

/// How a finished in-memory decode ended.
pub enum StreamEnd {
    /// Clean end of stream.
    Finished,
    /// The session failed with this error.
    Failed(DecodeError),
}

impl View for StreamEnd {
    type V = StreamEndSpec;

    open spec fn view(&self) -> StreamEndSpec {
        match self {
            StreamEnd::Finished => StreamEndSpec::Finished,
            StreamEnd::Failed(e) => StreamEndSpec::Failed(e@),
        }
    }
}

/// Decodes a complete, in-memory stream by feeding its chunks to a decoder
/// in arrival order. The result is exactly `decode_stream` over the
/// concatenation of the chunks: how the stream was sliced cannot matter.
#[verifier::loop_isolation(false)]
pub fn decode_all(shapes: Vec<VariantShape>, chunks: &Vec<Vec<u8>>) -> (r: (
    Vec<DecodedRecord>,
    StreamEnd,
))
    ensures
        ({
            let s = decode_stream(
                shapes_view(shapes@),
                flatten_chunks(chunks_view(chunks@)),
            );
            records_view(r.0@) == s.records && r.1@ == s.end
        }),
{
    let ghost sv = shapes_view(shapes@);
    let ghost cs = chunks_view(chunks@);
    let mut dec = StreamingRecordDecoder::new(shapes);
    let mut out: Vec<DecodedRecord> = Vec::new();
    proof {
        assert(cs.take(0) =~= Seq::<Seq<u8>>::empty());
    }
    let mut i: usize = 0;
    while i < chunks.len()
        invariant
            0 <= i <= chunks@.len(),
            cs == chunks_view(chunks@),
            dec.wf(),
            dec.shapes_spec() == sv,
            dec.phase_spec() is Pulling,
            dec.fed() == flatten_chunks(cs.take(i as int)),
            records_view(out@) == dec.emitted(),
        decreases chunks@.len() - i,
    {
        loop
            invariant
                0 <= i < chunks@.len(),
                cs == chunks_view(chunks@),
                dec.wf(),
                dec.shapes_spec() == sv,
                dec.phase_spec() is Pulling,
                dec.fed() == flatten_chunks(cs.take(i as int)),
                records_view(out@) == dec.emitted(),
            decreases dec.pending().len(),
        {
            proof {
                lemma_poll_no_finish(sv, dec.pending());
                lemma_poll_shrinks(sv, dec.pending(), false);
            }
            let ghost fed_pre = dec.fed();
            let ghost emitted_pre = dec.emitted();
            match dec.poll_next() {
                PollStep::NeedChunk => { break; },
                PollStep::Item(d) => {
                    proof {
                        assert(records_view(out@.push(d)) =~= records_view(out@).push(d@));
                    }
                    out.push(d);
                },
                PollStep::Failed(e) => {
                    proof {
                        lemma_flatten_split(cs, i as int);
                        assert(decode_stream(sv, fed_pre + flatten_chunks(cs.skip(i as int)))
                            == (StreamSpec {
                            records: emitted_pre,
                            end: StreamEndSpec::Failed(e@),
                        }));
                        assert(fed_pre + flatten_chunks(cs.skip(i as int)) == flatten_chunks(cs));
                    }
                    return (out, StreamEnd::Failed(e));
                },
                PollStep::Finished => {
                    return vstd::pervasive::unreached();
                },
            }
        }
        dec.feed_chunk(&chunks[i]);
        proof {
            lemma_flatten_take_step(cs, i as int);
            assert(cs[i as int] == chunks@[i as int]@);
        }
        i += 1;
    }
    proof {
        assert(cs.take(cs.len() as int) =~= cs);
    }
    dec.end_of_source();
    loop
        invariant
            dec.wf(),
            dec.shapes_spec() == sv,
            dec.phase_spec() is Ended,
            dec.fed() == flatten_chunks(cs),
            records_view(out@) == dec.emitted(),
        decreases dec.pending().len(),
    {
        proof {
            lemma_poll_eof_no_need(sv, dec.pending());
            lemma_poll_shrinks(sv, dec.pending(), true);
        }
        match dec.poll_next() {
            PollStep::NeedChunk => {
                return vstd::pervasive::unreached();
            },
            PollStep::Item(d) => {
                proof {
                    assert(records_view(out@.push(d)) =~= records_view(out@).push(d@));
                }
                out.push(d);
            },
            PollStep::Failed(e) => {
                proof {
                    assert(decode_stream(sv, flatten_chunks(cs)) == (StreamSpec {
                        records: records_view(out@),
                        end: StreamEndSpec::Failed(e@),
                    }));
                    assert(StreamEnd::Failed(e)@ == StreamEndSpec::Failed(e@));
                }
                return (out, StreamEnd::Failed(e));
            },
            PollStep::Finished => {
                proof {
                    assert(decode_stream(sv, flatten_chunks(cs)) == (StreamSpec {
                        records: records_view(out@),
                        end: StreamEndSpec::Finished,
                    }));
                }
                return (out, StreamEnd::Finished);
            },
        }
    }
}

// Stream-level laws.

/// Chunk boundaries are transparent: two slicings of the same bytes decode
/// to the same records and the same end.
pub proof fn lemma_chunking_transparent(
    shapes: Seq<VariantShapeSpec>,
    a: Seq<Seq<u8>>,
    b: Seq<Seq<u8>>,
)
    requires
        flatten_chunks(a) == flatten_chunks(b),
    ensures
        decode_stream(shapes, flatten_chunks(a)) == decode_stream(shapes, flatten_chunks(b)),
{
}

/// A trailing frame with no terminating newline decodes as if the newline
/// were there: appending a final newline to any stream changes nothing.
pub proof fn lemma_trailing_newline_irrelevant(shapes: Seq<VariantShapeSpec>, bytes: Seq<u8>)
    ensures
        decode_stream(shapes, bytes.push(10u8)) == decode_stream(shapes, bytes),
    decreases bytes.len(),
{
    let b2 = bytes.push(10u8);
    let n = scan_nl(bytes) as int;
    lemma_scan_nl(bytes);
    if n < bytes.len() {
        assert(b2 =~= bytes + seq![10u8]);
        lemma_scan_nl_append(bytes, seq![10u8]);
        assert(scan_nl(b2) as int == n);
        assert(b2.take(n) =~= bytes.take(n));
        assert(b2.skip(n + 1) =~= bytes.skip(n + 1).push(10u8));
        lemma_trailing_newline_irrelevant(shapes, bytes.skip(n + 1));
        assert(decode_stream(shapes, b2.skip(n + 1)) == decode_stream(shapes, bytes.skip(n + 1)));
    } else {
        assert(b2[bytes.len() as int] == 10u8);
        lemma_scan_nl_is(b2, bytes.len() as int);
        assert(b2.take(bytes.len() as int) =~= bytes);
        assert(b2.skip(bytes.len() as int + 1) =~= Seq::<u8>::empty());
        assert(decode_stream(shapes, Seq::<u8>::empty()) == (StreamSpec {
            records: Seq::empty(),
            end: StreamEndSpec::Finished,
        }));
        assert(scan_nl(b2) < b2.len());
        if all_ws(bytes) {
            assert(decode_stream(shapes, b2) == decode_stream(
                shapes,
                b2.skip(bytes.len() as int + 1),
            ));
        } else {
            assert(decode_stream(shapes, b2) == class_stream(
                classify_frame_spec(shapes, bytes),
                decode_stream(shapes, b2.skip(bytes.len() as int + 1)),
            ));
        }
    }
}

/// A blank line between frames is skipped: it contributes no record and no
/// error.
pub proof fn lemma_blank_line_skipped(shapes: Seq<VariantShapeSpec>, blank: Seq<u8>, rest: Seq<u8>)
    requires
        all_ws(blank),
        forall|i: int| 0 <= i < blank.len() ==> blank[i] != 10u8,
    ensures
        decode_stream(shapes, blank + seq![10u8] + rest) == decode_stream(shapes, rest),
{
    let s = blank + seq![10u8] + rest;
    let n = blank.len() as int;
    assert forall|i: int| 0 <= i < n implies s[i] != 10u8 by {
        assert(s[i] == blank[i]);
    }
    assert(s[n] == 10u8);
    lemma_scan_nl_is(s, n);
    assert(s.take(n) =~= blank);
    assert(s.skip(n + 1) =~= rest);
}

} // verus!
