//! Newline-delimited framing for the raw TCP transport: one frame per line,
//! never buffering more than a fixed number of bytes of one frame.
//!
//! The transport reads its socket chunk by chunk; [`take_chunk`] decides what
//! to do with each chunk, [`finish_frame`] turns a complete frame into a line.
//! [`read_bounded_line`] runs the same steps over bytes already in memory.

use crate::model::Ack;
use crate::state::MAX_INGEST_PAYLOAD_BYTES;
use crate::text::{decimal, decimal_string, is_blank, is_blank_str};
use vstd::prelude::*;
use vstd::utf8::{decode_utf8, valid_utf8};

verus! {

/// One frame read from the stream.
#[derive(Debug, PartialEq, Eq)]
pub enum BoundedLine {
    /// The stream ended before any byte of a new frame.
    Eof,
    /// A complete frame, without its line terminator.
    Line(String),
    /// The frame is longer than the limit; nothing of it was consumed.
    TooLarge,
    /// The frame is not UTF-8; it was consumed.
    InvalidUtf8,
}

/// What to do after a chunk of input was looked at.
#[derive(Debug, Clone, Copy, PartialEq, Eq, Structural)]
pub enum ChunkOutcome {
    /// The frame goes on in the next chunk.
    NeedMore,
    /// The chunk ended the frame with a newline.
    FrameEnd,
    /// The frame would exceed the limit.
    TooLarge,
}

/// `String::from_utf8`: the text the bytes encode, if they are UTF-8.
#[verifier::external_body]
fn utf8_string(bytes: Vec<u8>) -> (r: Option<String>)
    ensures
        r is Some <==> valid_utf8(bytes@),
        r matches Some(s) ==> s@ == decode_utf8(bytes@),
{
    String::from_utf8(bytes).ok()
}

/// Number of bytes of `s` before its first newline (all of `s` when it has none).
pub open spec fn line_len(s: Seq<u8>) -> nat
    decreases s.len(),
{
    if s.len() == 0 || s[0] == 10 {
        0
    } else {
        1 + line_len(s.drop_first())
    }
}

proof fn lemma_line_len(s: Seq<u8>)
    ensures
        line_len(s) <= s.len(),
        forall|i: int| 0 <= i < line_len(s) ==> #[trigger] s[i] != 10,
        line_len(s) < s.len() ==> s[line_len(s) as int] == 10,
    decreases s.len(),
{
    if s.len() > 0 && s[0] != 10 {
        lemma_line_len(s.drop_first());
        assert forall|i: int| 0 <= i < line_len(s) implies #[trigger] s[i] != 10 by {
            if i > 0 {
                assert(s[i] == s.drop_first()[i - 1]);
            }
        }
    }
}

proof fn lemma_line_len_prefix(s: Seq<u8>, i: int)
    requires
        0 <= i <= s.len(),
        forall|j: int| 0 <= j < i ==> #[trigger] s[j] != 10,
    ensures
        line_len(s) == i + line_len(s.skip(i)),
    decreases i,
{
    if i > 0 {
        lemma_line_len_prefix(s.drop_first(), i - 1);
        assert(s.drop_first().skip(i - 1) =~= s.skip(i));
    } else {
        assert(s.skip(0) =~= s);
    }
}

/// The frame after a chunk, and how much of the chunk is consumed. The
/// frame, less a carriage return that may belong to its terminator, never
/// grows beyond `max` bytes.
pub open spec fn chunk_step(frame: Seq<u8>, chunk: Seq<u8>, max: nat) -> (ChunkOutcome, Seq<u8>, nat) {
    let take = line_len(chunk);
    let next = frame + chunk.take(take as int);
    if without_cr(next).len() > max {
        (ChunkOutcome::TooLarge, frame, 0)
    } else if take < chunk.len() {
        (ChunkOutcome::FrameEnd, next, take + 1)
    } else {
        (ChunkOutcome::NeedMore, next, take)
    }
}

/// A frame being read. A carriage return that ends the bytes taken so far is
/// held apart from them: it belongs to the line terminator when a newline
/// follows, and is not counted against the limit then. So the bytes held in
/// memory are the frame without such a carriage return.
pub struct FrameBuffer {
    bytes: Vec<u8>,
    cr: bool,
}

impl FrameBuffer {
    /// The bytes of the frame taken so far.
    pub closed spec fn view(&self) -> Seq<u8> {
        if self.cr {
            self.bytes@.push(13)
        } else {
            self.bytes@
        }
    }

    /// The bytes held in memory.
    pub closed spec fn held(&self) -> Seq<u8> {
        self.bytes@
    }

    pub closed spec fn wf(&self) -> bool {
        !self.cr ==> (self.bytes@.len() == 0 || self.bytes@.last() != 13)
    }

    /// What is held is the frame without a trailing carriage return.
    pub proof fn lemma_held(&self)
        requires
            self.wf(),
        ensures
            self.held() == without_cr(self@),
    {
        if self.cr {
            assert(self@.drop_last() =~= self.bytes@);
        }
    }

    /// A frame with no byte yet.
    pub fn new() -> (r: Self)
        ensures
            r.wf(),
            r@ == Seq::<u8>::empty(),
            r.held() == Seq::<u8>::empty(),
    {
        FrameBuffer { bytes: Vec::new(), cr: false }
    }

    /// The bytes held in memory.
    pub fn held_bytes(&self) -> (r: &[u8])
        ensures
            r@ == self.held(),
    {
        self.bytes.as_slice()
    }
}

/// Looks at the next chunk of input: appends the part of the chunk up to the
/// first newline to `frame` unless that would make the frame (without a
/// trailing carriage return) longer than `max`, and returns what to do next
/// with the number of bytes consumed (the newline included). The bytes held in
/// memory never exceed `max`.
pub fn take_chunk(frame: &mut FrameBuffer, chunk: &[u8], max: usize) -> (r: (ChunkOutcome, usize))
    requires
        old(frame).wf(),
    ensures
        final(frame).wf(),
        chunk_step(old(frame)@, chunk@, max as nat) == (r.0, final(frame)@, r.1 as nat),
        final(frame).held() == without_cr(final(frame)@),
        !(r.0 is TooLarge) ==> final(frame).held().len() <= max,
{
    proof {
        frame.lemma_held();
    }
    let n = chunk.len();
    let mut i: usize = 0;
    while i < n && chunk[i] != 10u8
        invariant
            n == chunk@.len(),
            0 <= i <= n,
            forall|j: int| 0 <= j < i ==> #[trigger] chunk@[j] != 10,
        decreases n - i,
    {
        i = i + 1;
    }
    proof {
        lemma_line_len_prefix(chunk@, i as int);
        if i < n {
            assert(chunk@.skip(i as int)[0] == 10);
        }
        assert(i == line_len(chunk@));
    }
    let ghost old_view = frame@;
    let ghost old_bytes = frame.bytes@;
    let ghost next = frame@ + chunk@.take(i as int);
    let held: u128 = frame.bytes.len() as u128;
    let content: u128 = if i > 0 {
        let pending: u128 = if frame.cr { 1 } else { 0 };
        let last_cr: u128 = if chunk[i - 1] == 13u8 { 1 } else { 0 };
        proof {
            assert(next.last() == chunk@[i - 1]);
            assert(next.len() == old_view.len() + i);
        }
        held + pending + (i as u128) - last_cr
    } else {
        proof {
            assert(next =~= old_view);
        }
        held
    };
    assert(content == without_cr(next).len());
    if content > max as u128 {
        return (ChunkOutcome::TooLarge, 0);
    }
    if i > 0 {
        if frame.cr {
            frame.bytes.push(13u8);
        }
        let ends_cr = chunk[i - 1] == 13u8;
        let upto: usize = if ends_cr { i - 1 } else { i };
        let ghost base = frame.bytes@;
        assert(base =~= if old(frame).cr { old_bytes.push(13) } else { old_bytes });
        assert(base =~= old_view);
        let mut k: usize = 0;
        while k < upto
            invariant
                0 <= k <= upto <= i <= n,
                n == chunk@.len(),
                frame.bytes@ =~= base + chunk@.take(k as int),
            decreases upto - k,
        {
            frame.bytes.push(chunk[k]);
            k = k + 1;
        }
        frame.cr = ends_cr;
        proof {
            if ends_cr {
                assert(chunk@.take(i as int) =~= chunk@.take(upto as int).push(13));
                assert(frame@ =~= next);
            } else {
                assert(frame@ =~= next);
                assert(frame.bytes@.last() == chunk@[i - 1]);
            }
            frame.lemma_held();
        }
    } else {
        assert(next =~= old_view);
    }
    if i < n {
        (ChunkOutcome::FrameEnd, i + 1)
    } else {
        (ChunkOutcome::NeedMore, i)
    }
}

/// A complete frame without one trailing carriage return.
pub open spec fn without_cr(frame: Seq<u8>) -> Seq<u8> {
    if frame.len() > 0 && frame.last() == 13 {
        frame.drop_last()
    } else {
        frame
    }
}

/// What a complete frame reads as.
pub open spec fn frame_reads_as(frame: Seq<u8>, r: BoundedLine) -> bool {
    let b = without_cr(frame);
    if valid_utf8(b) {
        r matches BoundedLine::Line(s) && s@ == decode_utf8(b)
    } else {
        r is InvalidUtf8
    }
}

/// Turns a complete frame into a line: drops one trailing `\r`, and refuses
/// bytes that are not UTF-8.
pub fn finish_frame(frame: FrameBuffer) -> (r: BoundedLine)
    requires
        frame.wf(),
    ensures
        frame_reads_as(frame@, r),
{
    proof {
        frame.lemma_held();
    }
    match utf8_string(frame.bytes) {
        Some(s) => BoundedLine::Line(s),
        None => BoundedLine::InvalidUtf8,
    }
}

/// The frame in progress when the input ended: nothing, or a last line
/// without terminator.
pub fn end_of_input(frame: FrameBuffer) -> (r: BoundedLine)
    requires
        frame.wf(),
    ensures
        frame@.len() == 0 ==> r is Eof,
        frame@.len() > 0 ==> frame_reads_as(frame@, r),
{
    if frame.bytes.len() == 0 && !frame.cr {
        BoundedLine::Eof
    } else {
        finish_frame(frame)
    }
}

/// Reads one frame from the start of `input`, which holds everything the
/// stream has left; returns the frame and the number of bytes consumed.
pub fn read_bounded_line(input: &[u8], max: usize) -> (r: (BoundedLine, usize))
    ensures
        input@.len() == 0 ==> r.0 is Eof && r.1 == 0,
        input@.len() > 0 && without_cr(input@.take(line_len(input@) as int)).len() > max ==> r.0 is TooLarge
            && r.1 == 0,
        input@.len() > 0 && without_cr(input@.take(line_len(input@) as int)).len() <= max ==> frame_reads_as(
            input@.take(line_len(input@) as int),
            r.0,
        ) && r.1 == (if line_len(input@) < input@.len() {
            line_len(input@) + 1
        } else {
            line_len(input@)
        }),
{
    if input.len() == 0 {
        return (BoundedLine::Eof, 0);
    }
    let mut frame = FrameBuffer::new();
    let (outcome, consumed) = take_chunk(&mut frame, input, max);
    proof {
        lemma_line_len(input@);
        assert(Seq::<u8>::empty() + input@.take(line_len(input@) as int) =~= input@.take(
            line_len(input@) as int,
        ));
        if line_len(input@) == input@.len() {
            assert(input@.take(line_len(input@) as int) =~= input@);
        }
    }
    match outcome {
        ChunkOutcome::TooLarge => (BoundedLine::TooLarge, 0),
        _ => (finish_frame(frame), consumed),
    }
}


/// What the TCP transport does with a frame it read.
#[derive(Debug)]
pub enum FrameAction {
    /// Send the ack, if any, and close the connection.
    Close(Option<Ack>),
    /// Send the ack and read the next frame.
    Reply(Ack),
    /// Read the next frame without answering.
    Skip,
    /// Ingest the line as a payload and answer with its ack.
    Ingest(String),
}

/// The TCP transport's decision for one frame: the end of the stream closes
/// the connection; an oversized frame is refused and closes it, since the rest
/// of that frame cannot be told from the next; a frame that is not UTF-8 is
/// refused and the connection goes on; a blank line is skipped; any other line
/// is ingested.
pub fn frame_action(frame: BoundedLine) -> (r: FrameAction)
    ensures
        match frame {
            BoundedLine::Eof => r matches FrameAction::Close(None),
            BoundedLine::TooLarge => r matches FrameAction::Close(Some(a)) && (!a.ok && a.seq is None
                && a.error is Some && a.error->0@ == "payload exceeds 65536 byte limit"@),
            BoundedLine::InvalidUtf8 => r matches FrameAction::Reply(a) && (!a.ok && a.seq is None
                && a.error is Some && a.error->0@ == "payload must be UTF-8"@),
            BoundedLine::Line(l) => if is_blank(l@) {
                r is Skip
            } else {
                r matches FrameAction::Ingest(m) && m == l
            },
        },
{
    match frame {
        BoundedLine::Eof => FrameAction::Close(None),
        BoundedLine::TooLarge => {
            let mut m = String::from_str("payload exceeds ");
            m.append(decimal_string(MAX_INGEST_PAYLOAD_BYTES as u64).as_str());
            m.append(" byte limit");
            proof {
                reveal_strlit("payload exceeds ");
                reveal_strlit(" byte limit");
                reveal_strlit("payload exceeds 65536 byte limit");
                reveal_with_fuel(decimal, 6);
                assert(m@ =~= "payload exceeds 65536 byte limit"@);
            }
            FrameAction::Close(Some(Ack::err(m)))
        },
        BoundedLine::InvalidUtf8 => FrameAction::Reply(Ack::err(String::from_str("payload must be UTF-8"))),
        BoundedLine::Line(l) => {
            if is_blank_str(l.as_str()) {
                FrameAction::Skip
            } else {
                FrameAction::Ingest(l)
            }
        },
    }
}

} // verus!
