//! The shared capture state and its command-driven state machine.
//!
//! One `AudioState` is created at startup and shared, behind a lock owned by
//! the caller, between the capture loop (sole writer of the history) and the
//! command surface (start, stop, save, halt).  Every observable effect of a
//! command is stated against the abstract `StateModel`.

use vstd::prelude::*;

use crate::chunk::chunk_frames;
use crate::pcm::convert_block;
use crate::pcm::spec_clip_count;
use crate::pcm::spec_pcm_seq;
use crate::ring::SampleRing;
use crate::ring::ring_capacity;
use crate::ring::ring_contents;
use crate::ring::ring_push_all;

verus! {

/// Abstract view of the shared capture state.
#[verifier::ext_equal]
pub struct StateModel {
    /// Samples held by the rolling history, oldest first.
    pub contents: Seq<u32>,
    /// Fixed capacity of the rolling history.
    pub capacity: nat,
    /// Whether incoming blocks are being written to the history.
    pub recording: bool,
    /// Whether shutdown has been requested; never reset once set.
    pub halting: bool,
    /// Directory that saved recordings are written into.
    pub output_dir: Seq<char>,
}

/// A command arriving from the control surface.
pub enum Command {
    Start,
    Stop,
    Halt,
}

/// Well-formedness: the history was created with at least one slot and never
/// holds more than its capacity.
pub open spec fn wf(s: StateModel) -> bool {
    &&& s.capacity >= 1
    &&& s.contents.len() <= s.capacity
}

/// Effect of the start command: recording is on; nothing else moves.
pub open spec fn spec_start(s: StateModel) -> StateModel {
    StateModel {
        contents: s.contents,
        capacity: s.capacity,
        recording: true,
        halting: s.halting,
        output_dir: s.output_dir,
    }
}

/// Effect of the stop command: recording is off; the history is not cleared.
pub open spec fn spec_stop(s: StateModel) -> StateModel {
    StateModel {
        contents: s.contents,
        capacity: s.capacity,
        recording: false,
        halting: s.halting,
        output_dir: s.output_dir,
    }
}

/// Effect of the halt command: recording is off and the halting flag is set;
/// the flag is monotonic, no transition ever clears it.
pub open spec fn spec_halt(s: StateModel) -> StateModel {
    StateModel {
        contents: s.contents,
        capacity: s.capacity,
        recording: false,
        halting: true,
        output_dir: s.output_dir,
    }
}

/// Effect of one command on the state.
pub open spec fn spec_apply(s: StateModel, c: Command) -> StateModel {
    match c {
        Command::Start => spec_start(s),
        Command::Stop => spec_stop(s),
        Command::Halt => spec_halt(s),
    }
}

/// Effect of one incoming audio block on the state: while recording, every
/// sample of the block enters the history in order (overwriting the oldest
/// when full); otherwise the block leaves the state untouched.
pub open spec fn spec_record_block(s: StateModel, block: Seq<u32>) -> StateModel {
    if s.recording {
        StateModel {
            contents: ring_push_all(s.contents, s.capacity, block),
            capacity: s.capacity,
            recording: s.recording,
            halting: s.halting,
            output_dir: s.output_dir,
        }
    } else {
        s
    }
}

/// Whether the capture loop keeps running when it polls the state.
pub open spec fn spec_keep_running(s: StateModel) -> bool {
    !s.halting
}

/// The process-wide capture state: rolling sample history, the two control
/// flags, and the output configuration fixed at startup.
pub struct AudioState {
    history: SampleRing,
    is_recording: bool,
    is_halting: bool,
    output_dir: String,
}

impl View for AudioState {
    type V = StateModel;

    closed spec fn view(&self) -> StateModel {
        StateModel {
            contents: ring_contents(self.history),
            capacity: ring_capacity(self.history),
            recording: self.is_recording,
            halting: self.is_halting,
            output_dir: self.output_dir@,
        }
    }
}

impl AudioState {
    /// Create the shared state: an empty history with the given capacity,
    /// recording already on, shutdown not requested.
    pub fn new(capacity: usize, output_dir: String) -> (r: AudioState)
        requires
            capacity >= 1,
        ensures
            r@ == (StateModel {
                contents: Seq::<u32>::empty(),
                capacity: capacity as nat,
                recording: true,
                halting: false,
                output_dir: output_dir@,
            }),
            wf(r@),
    {
        let r = AudioState {
            history: SampleRing::new(capacity),
            is_recording: true,
            is_halting: false,
            output_dir,
        };
        proof {
            assert(r@ =~= (StateModel {
                contents: Seq::<u32>::empty(),
                capacity: capacity as nat,
                recording: true,
                halting: false,
                output_dir: r.output_dir@,
            }));
        }
        r
    }

    /// Start recording; a second start changes nothing further.
    pub fn start_recording(&mut self)
        ensures
            final(self)@ == spec_start(old(self)@),
    {
        self.is_recording = true;
        proof {
            assert(final(self)@ =~= spec_start(old(self)@));
        }
    }

    /// Stop recording; the history keeps what it holds.
    pub fn stop_recording(&mut self)
        ensures
            final(self)@ == spec_stop(old(self)@),
    {
        self.is_recording = false;
        proof {
            assert(final(self)@ =~= spec_stop(old(self)@));
        }
    }

    /// Request shutdown: recording stops and the halting flag is set, never
    /// to be cleared again for the life of the process.
    pub fn halt(&mut self)
        ensures
            final(self)@ == spec_halt(old(self)@),
    {
        self.is_recording = false;
        self.is_halting = true;
        proof {
            assert(final(self)@ =~= spec_halt(old(self)@));
        }
    }

    /// Apply one control command.
    pub fn apply(&mut self, c: &Command)
        ensures
            final(self)@ == spec_apply(old(self)@, *c),
    {
        match c {
            Command::Start => self.start_recording(),
            Command::Stop => self.stop_recording(),
            Command::Halt => self.halt(),
        }
    }

    /// The capture loop's poll: keep running until shutdown is requested.
    pub fn keep_running(&self) -> (r: bool)
        ensures
            r == spec_keep_running(self@),
    {
        !self.is_halting
    }

    /// Whether incoming blocks are currently written to the history.
    pub fn is_recording(&self) -> (r: bool)
        ensures
            r == self@.recording,
    {
        self.is_recording
    }

    /// Store one incoming block: while recording, every sample enters the
    /// history in order; otherwise nothing changes.
    pub fn record_block(&mut self, block: &Vec<u32>)
        ensures
            final(self)@ == spec_record_block(old(self)@, block@),
            wf(old(self)@) ==> wf(final(self)@),
    {
        if self.is_recording {
            self.history.push_block(block);
            proof {
                assert(final(self)@ =~= spec_record_block(old(self)@, block@));
                if wf(old(self)@) {
                    crate::ring::lemma_ring_push_all_closed(
                        old(self)@.contents,
                        old(self)@.capacity,
                        block@,
                    );
                }
            }
        } else {
            proof {
                assert(final(self)@ =~= spec_record_block(old(self)@, block@));
            }
        }
    }

    /// Read the whole history, oldest sample first, removing nothing: the
    /// snapshot that a save writes out.
    pub fn snapshot(&self) -> (v: Vec<u32>)
        ensures
            v@ == self@.contents,
    {
        self.history.snapshot()
    }

    /// The fixed capacity of the history.
    pub fn capacity(&self) -> (c: usize)
        ensures
            c == self@.capacity,
            c >= 1,
    {
        self.history.capacity()
    }

    /// How many samples the history currently holds.
    pub fn len(&self) -> (n: usize)
        ensures
            n == self@.contents.len(),
            n <= self@.capacity,
    {
        self.history.len()
    }

    /// The directory that saved recordings are written into, fixed at startup.
    pub fn output_dir(&self) -> (d: &String)
        ensures
            d@ == self@.output_dir,
    {
        &self.output_dir
    }
}

/// What one incoming audio block produces for the rest of the capture loop:
/// the full detector-sized frames of the converted block, and how many
/// samples clipped during conversion (each records one warning).
pub struct BlockOutcome {
    pub frames: Vec<Vec<i16>>,
    pub clipped: usize,
}

impl AudioState {
    /// The whole per-callback step of the capture loop: store the block in
    /// the history while recording, then convert it to 16-bit PCM and cut it
    /// into full detector frames, whatever the recording flag says.
    pub fn ingest_block(&mut self, block: &Vec<u32>, frame_len: usize) -> (out: BlockOutcome)
        requires
            frame_len >= 1,
        ensures
            final(self)@ == spec_record_block(old(self)@, block@),
            wf(old(self)@) ==> wf(final(self)@),
            out.frames@.len() == block@.len() as int / frame_len as int,
            forall|i: int|
                0 <= i < out.frames@.len() ==> #[trigger] out.frames@[i]@ == spec_pcm_seq(
                    block@,
                ).subrange(i * frame_len, i * frame_len + frame_len),
            out.clipped == spec_clip_count(block@),
    {
        self.record_block(block);
        let (pcm, clipped) = convert_block(block);
        let frames = chunk_frames(&pcm, frame_len);
        BlockOutcome { frames, clipped }
    }
}

/// Recording toggle idempotence: starting twice has the same observable
/// effect as starting once, and likewise for stopping.
pub proof fn lemma_toggle_idempotent(s: StateModel)
    ensures
        spec_start(spec_start(s)) == spec_start(s),
        spec_stop(spec_stop(s)) == spec_stop(s),
{
    assert(spec_start(spec_start(s)) =~= spec_start(s));
    assert(spec_stop(spec_stop(s)) =~= spec_stop(s));
}

/// Halt terminality: once the halting flag is set no command or incoming
/// block ever clears it; immediately after a halt the capture loop's poll
/// says to stop and an incoming block adds nothing to the history.
pub proof fn lemma_halt_terminal(s: StateModel, c: Command, block: Seq<u32>)
    ensures
        spec_halt(s).halting,
        s.halting ==> spec_apply(s, c).halting,
        s.halting ==> spec_record_block(s, block).halting,
        !spec_keep_running(spec_halt(s)),
        spec_record_block(spec_halt(s), block).contents == spec_halt(s).contents,
{
}

/// Snapshot non-destructiveness: two snapshots of the same state, with no
/// mutation in between, return the identical sample sequence.
pub proof fn lemma_snapshot_repeatable(s: StateModel, first: Seq<u32>, second: Seq<u32>)
    requires
        first == s.contents,
        second == s.contents,
    ensures
        first == second,
{
}

} // verus!
