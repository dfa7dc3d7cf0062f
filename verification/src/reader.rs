//! The per-session reader loop, as a verified decision core.
//!
//! One blocking read loop runs per session in the embedding application.
//! After every read it hands the outcome to [`reader_step`], which decides
//! whether an `output` event is emitted or the loop is over; once the loop
//! is over, the child's exit status is turned into exactly one `exit`
//! event and the session is removed from the registry.

use vstd::prelude::*;
use vstd::string::*;
use vstd::utf8::{encode_utf8, valid_utf8};

verus! {

/// An `output` notification: a lossily decoded chunk of what the session's
/// child wrote.
pub struct PtyOutput {
    pub session_id: String,
    pub data: String,
}

/// An `exit` notification: the child of the named session terminated.
/// `exit_code` is absent when the status could not be obtained.
pub struct PtyExit {
    pub session_id: String,
    pub exit_code: Option<i32>,
}

/// A notification handed to whatever listens for session events.
pub enum PtyEvent {
    Output(PtyOutput),
    Exit(PtyExit),
}

/// What one blocking read of the master end produced: a nonempty chunk of
/// bytes, end of stream, or a read error.
pub enum ReadOutcome {
    Data(Vec<u8>),
    Eof,
    ReadError(String),
}

/// What the reader loop does with one read outcome.
pub enum ReaderStep {
    Emit(PtyOutput),
    Stop,
}

/// The text that lossy UTF-8 decoding makes of a byte sequence: valid
/// sequences decode as themselves, invalid ones are replaced.
pub uninterp spec fn lossy_of(bytes: Seq<u8>) -> Seq<char>;

/// Relies on `String::from_utf8_lossy`: the decoding is a function of the
/// bytes alone, an empty input decodes to the empty string, and valid
/// UTF-8 decodes to exactly the text those bytes encode.
#[verifier::external_body]
fn utf8_lossy(bytes: &Vec<u8>) -> (r: String)
    ensures
        r@ == lossy_of(bytes@),
        bytes@.len() == 0 ==> r@.len() == 0,
        valid_utf8(bytes@) ==> encode_utf8(r@) == bytes@,
{
    String::from_utf8_lossy(bytes.as_slice()).into_owned()
}

/// Decides what one read outcome means for the session named `session_id`:
/// a chunk of bytes is decoded and emitted in place, end of stream and
/// read errors both end the loop.
pub fn reader_step(session_id: &str, outcome: &ReadOutcome) -> (r: ReaderStep)
    ensures
        match outcome {
            ReadOutcome::Data(bytes) => r matches ReaderStep::Emit(o)
                && o.session_id@ == session_id@
                && o.data@ == lossy_of(bytes@)
                && (valid_utf8(bytes@) ==> encode_utf8(o.data@) == bytes@),
            ReadOutcome::Eof => r == ReaderStep::Stop,
            ReadOutcome::ReadError(_) => r == ReaderStep::Stop,
        },
{
    match outcome {
        ReadOutcome::Data(bytes) => ReaderStep::Emit(PtyOutput {
            session_id: String::from_str(session_id),
            data: utf8_lossy(bytes),
        }),
        ReadOutcome::Eof => ReaderStep::Stop,
        ReadOutcome::ReadError(_) => ReaderStep::Stop,
    }
}

/// The `exit` notification for a session whose child terminated with the
/// given status.
pub fn exit_event(session_id: &str, exit_code: Option<i32>) -> (e: PtyExit)
    ensures
        e.session_id@ == session_id@,
        e.exit_code == exit_code,
{
    PtyExit { session_id: String::from_str(session_id), exit_code }
}

/// The chunks a reader loop emits: every leading `Data` outcome, cut off at
/// the first end of stream or read error.
pub open spec fn emitted_chunks(outs: Seq<ReadOutcome>) -> Seq<Seq<u8>>
    decreases outs.len(),
{
    if outs.len() == 0 {
        Seq::empty()
    } else {
        match outs[0] {
            ReadOutcome::Data(b) => seq![b@] + emitted_chunks(outs.skip(1)),
            _ => Seq::empty(),
        }
    }
}

/// The chunks of a run, concatenated.
pub open spec fn concat_chunks(chunks: Seq<Seq<u8>>) -> Seq<u8>
    decreases chunks.len(),
{
    if chunks.len() == 0 {
        Seq::empty()
    } else {
        concat_chunks(chunks.drop_last()) + chunks.last()
    }
}

/// The bytes of the `output` events, re-encoded and concatenated in
/// emission order; `exit` events carry no output.
pub open spec fn output_bytes(evs: Seq<PtyEvent>) -> Seq<u8>
    decreases evs.len(),
{
    if evs.len() == 0 {
        Seq::empty()
    } else {
        output_bytes(evs.drop_last()) + match evs.last() {
            PtyEvent::Output(o) => encode_utf8(o.data@),
            PtyEvent::Exit(_) => Seq::empty(),
        }
    }
}

/// Events whose outputs re-encode to the chunks, one per chunk and in
/// order, concatenate to the concatenation of the chunks.
proof fn lemma_output_concat(evs: Seq<PtyEvent>, chunks: Seq<Seq<u8>>)
    requires
        evs.len() == chunks.len() || evs.len() == chunks.len() + 1,
        evs.len() == chunks.len() + 1 ==> evs.last() is Exit,
        forall|i: int|
            0 <= i < chunks.len() ==> (#[trigger] evs[i] matches PtyEvent::Output(o)
                && encode_utf8(o.data@) == chunks[i]),
    ensures
        output_bytes(evs) == concat_chunks(chunks),
    decreases evs.len(),
{
    if evs.len() == chunks.len() + 1 {
        lemma_output_concat(evs.drop_last(), chunks);
        assert(output_bytes(evs) =~= output_bytes(evs.drop_last()));
    } else if evs.len() > 0 {
        lemma_output_concat(evs.drop_last(), chunks.drop_last());
        assert(evs[evs.len() - 1] matches PtyEvent::Output(o)
            && encode_utf8(o.data@) == chunks[chunks.len() - 1]);
    }
}

/// How many of the events are `exit` notifications.
pub open spec fn exit_count(evs: Seq<PtyEvent>) -> int
    decreases evs.len(),
{
    if evs.len() == 0 {
        0
    } else {
        exit_count(evs.drop_last()) + if evs.last() is Exit {
            1int
        } else {
            0int
        }
    }
}

/// If the chunks of a prefix are all `Data` and the prefix ends where the
/// first other outcome stands, the emitted chunks are exactly that prefix.
proof fn lemma_emitted_prefix(outs: Seq<ReadOutcome>, k: int)
    requires
        0 <= k <= outs.len(),
        forall|j: int| 0 <= j < k ==> outs[j] is Data,
        k < outs.len() ==> !(outs[k] is Data),
    ensures
        emitted_chunks(outs).len() == k,
        forall|j: int| 0 <= j < k ==> emitted_chunks(outs)[j] == outs[j]->Data_0@,
    decreases outs.len(),
{
    if outs.len() == 0 {
    } else if k == 0 {
    } else {
        assert(outs[0] is Data);
        lemma_emitted_prefix(outs.skip(1), k - 1);
        assert forall|j: int| 0 <= j < k implies emitted_chunks(outs)[j] == outs[j]->Data_0@ by {
            if j > 0 {
                assert(emitted_chunks(outs.skip(1))[j - 1] == outs.skip(1)[j - 1]->Data_0@);
                assert(outs.skip(1)[j - 1] == outs[j]);
            }
        }
    }
}

/// A run of events that is all `output` notifications except for an `exit`
/// at the very end holds exactly one `exit`.
proof fn lemma_single_exit(evs: Seq<PtyEvent>)
    requires
        evs.len() >= 1,
        evs.last() is Exit,
        forall|j: int| 0 <= j < evs.len() - 1 ==> evs[j] is Output,
    ensures
        exit_count(evs) == 1,
    decreases evs.len(),
{
    lemma_all_output_no_exit(evs.drop_last());
}

/// A run of `output` notifications holds no `exit`.
proof fn lemma_all_output_no_exit(evs: Seq<PtyEvent>)
    requires
        forall|j: int| 0 <= j < evs.len() ==> evs[j] is Output,
    ensures
        exit_count(evs) == 0,
    decreases evs.len(),
{
    if evs.len() > 0 {
        lemma_all_output_no_exit(evs.drop_last());
    }
}

/// Replays a whole reader-loop run: every read outcome in order, then the
/// wait on the child.  The result is the full event trace of the session:
/// one `output` event per chunk, in emission order and with the chunk's
/// lossy decoding as its data, followed by exactly one `exit` event that
/// carries the child's exit code.  No chunk is dropped and none is
/// reordered.
pub fn session_events(session_id: &str, outcomes: &Vec<ReadOutcome>, exit_code: Option<i32>)
    -> (evs: Vec<PtyEvent>)
    ensures
        evs@.len() == emitted_chunks(outcomes@).len() + 1,
        forall|i: int|
            0 <= i < evs@.len() - 1 ==> (#[trigger] evs@[i] matches PtyEvent::Output(o)
                && o.session_id@ == session_id@
                && o.data@ == lossy_of(emitted_chunks(outcomes@)[i])),
        evs@.last() matches PtyEvent::Exit(e)
            && e.session_id@ == session_id@
            && e.exit_code == exit_code,
        exit_count(evs@) == 1,
        (forall|i: int|
            0 <= i < emitted_chunks(outcomes@).len()
                ==> valid_utf8(#[trigger] emitted_chunks(outcomes@)[i]))
            ==> output_bytes(evs@) == concat_chunks(emitted_chunks(outcomes@)),
{
    let n = outcomes.len();
    let mut evs: Vec<PtyEvent> = Vec::new();
    let mut i: usize = 0;
    let mut stopped = false;
    while i < n && !stopped
        invariant
            n == outcomes@.len(),
            0 <= i <= n,
            !stopped ==> evs@.len() == i,
            !stopped ==> forall|j: int| 0 <= j < i ==> outcomes@[j] is Data,
            stopped ==> i >= 1 && evs@.len() == i - 1 && !(outcomes@[i - 1] is Data)
                && forall|j: int| 0 <= j < i - 1 ==> outcomes@[j] is Data,
            forall|j: int|
                0 <= j < evs@.len() ==> (#[trigger] evs@[j] matches PtyEvent::Output(o)
                    && o.session_id@ == session_id@
                    && o.data@ == lossy_of(outcomes@[j]->Data_0@)
                    && (valid_utf8(outcomes@[j]->Data_0@) ==> encode_utf8(o.data@)
                        == outcomes@[j]->Data_0@)),
        decreases n - i,
    {
        match reader_step(session_id, &outcomes[i]) {
            ReaderStep::Emit(o) => {
                evs.push(PtyEvent::Output(o));
            },
            ReaderStep::Stop => {
                stopped = true;
            },
        }
        i += 1;
    }
    proof {
        let k = evs@.len() as int;
        lemma_emitted_prefix(outcomes@, k);
    }
    evs.push(PtyEvent::Exit(exit_event(session_id, exit_code)));
    proof {
        lemma_single_exit(evs@);
        let chunks = emitted_chunks(outcomes@);
        if forall|i: int| 0 <= i < chunks.len() ==> valid_utf8(#[trigger] chunks[i]) {
            lemma_output_concat(evs@, chunks);
        }
    }
    evs
}

} // verus!
