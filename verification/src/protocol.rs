//! The turn protocol driver: classification of incoming frames, the
//! `Idle -> InTurn -> Done` turn state machine, extraction of the audio
//! payload out of binary frames, and the replay of a whole frame sequence.
//!
//! The driver is pure: it consumes frames that the transport collaborator
//! has already read and returns the accumulated audio bytes or a typed
//! failure.  Sending and receiving stay with the caller.

use vstd::prelude::*;
use vstd::string::StrSliceExecFns;
use vstd::string::StringExecFns;

use crate::text::{contains_pat, is_match_at, str_contains};

verus! {

/// One unit read from the socket, reduced to what the protocol inspects:
/// a text control message, a binary audio frame, a close notice with its
/// optional reason, or any other frame kind (ping, pong, ...).
pub enum Frame {
    Text(String),
    Binary(Vec<u8>),
    Close(Option<String>),
    Other,
}

/// The turn state: `InTurn` is entered on the turn-start marker, `Done` on
/// the turn-end marker or on an unrecognized frame kind.  Binary frames
/// contribute audio only while `InTurn`.
#[derive(Clone, Copy, PartialEq, Eq, Structural, Debug)]
pub enum TurnState {
    Idle,
    InTurn,
    Done,
}

/// A typed failure of one synthesis turn.  `TransportError` is reserved for
/// the caller that owns the socket: a send or receive failure is mapped to
/// it outside this core.
#[derive(Debug)]
pub enum TTSError {
    /// The underlying socket failed to send or receive.
    TransportError(String),
    /// The peer closed the connection before the turn ended, with the
    /// peer-supplied reason, or "the socket closed" when none was given.
    RemoteClosed(String),
}

/// What one processed frame means for the enclosing read loop.
pub enum StepOutcome {
    /// Keep reading frames: the turn is still open.
    Continue,
    /// The turn ended; the accumulated audio is the result.
    Finished,
    /// The peer closed the connection; the turn failed with this reason.
    Closed(String),
}

/// The marker substring announcing the start of a turn.
pub open spec fn turn_start_marker() -> Seq<char> {
    "turn.start"@
}

/// The marker substring announcing the end of a turn.
pub open spec fn turn_end_marker() -> Seq<char> {
    "turn.end"@
}

/// The byte sequence that terminates the embedded text header of a binary
/// audio frame; the audio payload begins right after it.
pub open spec fn audio_marker() -> Seq<u8> {
    seq![
        'P' as u8,
        'a' as u8,
        't' as u8,
        'h' as u8,
        ':' as u8,
        'a' as u8,
        'u' as u8,
        'd' as u8,
        'i' as u8,
        'o' as u8,
        13u8,
        10u8,
    ]
}

/// Where the audio payload of a binary frame begins: right after the first
/// occurrence of the audio marker, or at offset zero when the marker is
/// absent (the whole frame then counts as audio).
pub open spec fn spec_audio_offset(b: Seq<u8>) -> int {
    if contains_pat(b, audio_marker()) {
        (choose|i: int|
            is_match_at(b, audio_marker(), i) && (forall|j: int|
                0 <= j < i ==> !is_match_at(b, audio_marker(), j))) + audio_marker().len()
    } else {
        0
    }
}

/// The audio bytes a binary frame contributes.
pub open spec fn spec_audio_payload(b: Seq<u8>) -> Seq<u8> {
    b.skip(spec_audio_offset(b))
}

/// The offset is well placed: after the first marker occurrence when there
/// is one, zero otherwise, and never past the end of the frame.
pub proof fn lemma_audio_offset_slices_after_marker(b: Seq<u8>)
    ensures
        contains_pat(b, audio_marker()) ==> {
            let i = spec_audio_offset(b) - audio_marker().len();
            is_match_at(b, audio_marker(), i) && (forall|j: int|
                0 <= j < i ==> !is_match_at(b, audio_marker(), j))
        },
        !contains_pat(b, audio_marker()) ==> spec_audio_offset(b) == 0,
        0 <= spec_audio_offset(b) <= b.len(),
{
    if contains_pat(b, audio_marker()) {
        let w = choose|i: int| is_match_at(b, audio_marker(), i);
        lemma_first_match_exists(b, audio_marker(), w);
        let i = choose|i: int|
            is_match_at(b, audio_marker(), i) && (forall|j: int|
                0 <= j < i ==> !is_match_at(b, audio_marker(), j));
        assert(is_match_at(b, audio_marker(), i));
    }
}

/// Among the occurrences of `p` in `s` there is a first one.
pub proof fn lemma_first_match_exists<T>(s: Seq<T>, p: Seq<T>, w: int)
    requires
        is_match_at(s, p, w),
    ensures
        exists|i: int|
            is_match_at(s, p, i) && (forall|j: int| 0 <= j < i ==> !is_match_at(s, p, j)),
    decreases w,
{
    if forall|j: int| 0 <= j < w ==> !is_match_at(s, p, j) {
        assert(is_match_at(s, p, w) && (forall|j: int| 0 <= j < w ==> !is_match_at(s, p, j)));
    } else {
        let w2 = choose|j: int| 0 <= j < w && is_match_at(s, p, j);
        lemma_first_match_exists(s, p, w2);
    }
}

/// Finds where the audio payload of a binary frame begins.
pub fn find_audio_offset(b: &Vec<u8>) -> (r: usize)
    ensures
        r == spec_audio_offset(b@),
{
    let mut marker: Vec<u8> = Vec::new();
    marker.push('P' as u8);
    marker.push('a' as u8);
    marker.push('t' as u8);
    marker.push('h' as u8);
    marker.push(':' as u8);
    marker.push('a' as u8);
    marker.push('u' as u8);
    marker.push('d' as u8);
    marker.push('i' as u8);
    marker.push('o' as u8);
    marker.push(13u8);
    marker.push(10u8);
    proof {
        assert(marker@ =~= audio_marker());
    }
    let n = b.len();
    if n < 12 {
        proof {
            assert(forall|i: int| !is_match_at(b@, audio_marker(), i));
        }
        return 0;
    }
    let mut i: usize = 0;
    while i <= n - 12
        invariant
            12 <= n,
            n == b@.len(),
            marker@ == audio_marker(),
            0 <= i <= n - 12 + 1,
            forall|k: int| 0 <= k < i ==> !is_match_at(b@, audio_marker(), k),
        decreases n - 12 + 1 - i,
    {
        let mut j: usize = 0;
        let mut matched = true;
        while j < 12
            invariant
                12 <= n,
                n == b@.len(),
                marker@ == audio_marker(),
                0 <= i <= n - 12,
                0 <= j <= 12,
                matched ==> forall|k: int| 0 <= k < j ==> b@[i + k] == audio_marker()[k],
                !matched ==> exists|k: int|
                    0 <= k < 12 && b@[i + k] != #[trigger] audio_marker()[k],
            decreases 12 - j,
        {
            if b[i + j] != marker[j] {
                proof {
                    assert(0 <= j < 12 && b@[i + j] != audio_marker()[j as int]);
                }
                matched = false;
                j = 12;
            } else {
                j = j + 1;
            }
        }
        if matched {
            proof {
                assert(b@.subrange(i as int, i + audio_marker().len()) =~= audio_marker());
                assert(is_match_at(b@, audio_marker(), i as int));
                let c = choose|x: int|
                    is_match_at(b@, audio_marker(), x) && (forall|j: int|
                        0 <= j < x ==> !is_match_at(b@, audio_marker(), j));
                assert(is_match_at(b@, audio_marker(), i as int) && (forall|j: int|
                    0 <= j < i ==> !is_match_at(b@, audio_marker(), j)));
                if c < i {
                    assert(is_match_at(b@, audio_marker(), c));
                }
                if i < c {
                    assert(is_match_at(b@, audio_marker(), i as int));
                }
                assert(c == i);
            }
            return i + 12;
        }
        proof {
            let k = choose|k: int| 0 <= k < 12 && b@[i + k] != #[trigger] audio_marker()[k];
            assert(b@.subrange(i as int, i + audio_marker().len())[k] == b@[i + k]);
            assert(!is_match_at(b@, audio_marker(), i as int));
        }
        i = i + 1;
    }
    proof {
        assert(forall|k: int| is_match_at(b@, audio_marker(), k) ==> 0 <= k <= n - 12);
        assert(!contains_pat(b@, audio_marker()));
    }
    0
}

/// The outcome of processing frames, at the specification level: either the
/// turn is still open with a state and the audio gathered so far, or it
/// completed with the final audio, or the peer closed with a reason.
pub enum SpecRun {
    Running(TurnState, Seq<u8>),
    Audio(Seq<u8>),
    Closed(Seq<char>),
}

/// What one frame does to an open turn: the turn-start marker enters
/// `InTurn` (checked first, so a message carrying both markers counts as a
/// start); the turn-end marker completes the turn; other text is discarded;
/// a binary frame contributes its audio payload only while `InTurn`; a close
/// frame fails the turn with the peer's reason or the generic one; any other
/// frame kind completes the turn defensively.
pub open spec fn spec_step(st: TurnState, audio: Seq<u8>, frame: Frame) -> SpecRun {
    match frame {
        Frame::Text(s) => if contains_pat(s@, turn_start_marker()) {
            SpecRun::Running(TurnState::InTurn, audio)
        } else if contains_pat(s@, turn_end_marker()) {
            SpecRun::Audio(audio)
        } else {
            SpecRun::Running(st, audio)
        },
        Frame::Binary(b) => if st is InTurn {
            SpecRun::Running(st, audio + spec_audio_payload(b@))
        } else {
            SpecRun::Running(st, audio)
        },
        Frame::Close(reason) => match reason {
            Option::None => SpecRun::Closed("the socket closed"@),
            Option::Some(r) => SpecRun::Closed(r@),
        },
        Frame::Other => SpecRun::Audio(audio),
    }
}

/// Processing a whole frame sequence from a given state.
pub open spec fn spec_run_from(st: TurnState, audio: Seq<u8>, frames: Seq<Frame>) -> SpecRun
    decreases frames.len(),
{
    if frames.len() == 0 {
        SpecRun::Running(st, audio)
    } else {
        match spec_step(st, audio, frames[0]) {
            SpecRun::Running(st2, audio2) => spec_run_from(st2, audio2, frames.skip(1)),
            SpecRun::Audio(a) => SpecRun::Audio(a),
            SpecRun::Closed(r) => SpecRun::Closed(r),
        }
    }
}

/// Processing a whole frame sequence as one fresh turn: initial state
/// `Idle`, empty accumulator.  The outcome is a function of the frames
/// alone, so successive turns cannot leak state into one another.
pub open spec fn spec_run(frames: Seq<Frame>) -> SpecRun {
    spec_run_from(TurnState::Idle, Seq::empty(), frames)
}

/// A close frame fails the turn in every state and with any audio gathered
/// so far: no reason yields the generic text, a peer-supplied reason is
/// surfaced verbatim.
pub proof fn lemma_close_always_fails_turn(st: TurnState, audio: Seq<u8>, reason: Option<String>)
    ensures
        reason is None ==> spec_step(st, audio, Frame::Close(reason)) == SpecRun::Closed(
            "the socket closed"@,
        ),
        reason matches Some(r) ==> spec_step(st, audio, Frame::Close(reason)) == SpecRun::Closed(
            r@,
        ),
{
}

/// A binary frame leaves the accumulator unchanged unless the turn-start
/// marker was already seen.
pub proof fn lemma_binary_discarded_before_start(audio: Seq<u8>, b: Vec<u8>)
    ensures
        spec_step(TurnState::Idle, audio, Frame::Binary(b)) == SpecRun::Running(
            TurnState::Idle,
            audio,
        ),
{
}

/// Processing frames only ever appends to the accumulator: whatever the run
/// ends with starts with the bytes it began with.  A fresh turn begins with
/// an empty accumulator, so one turn's audio can never leak into the next
/// turn's result.
pub proof fn lemma_accumulator_only_grows(st: TurnState, audio: Seq<u8>, frames: Seq<Frame>)
    ensures
        spec_run_from(st, audio, frames) matches SpecRun::Running(st2, a2) ==> a2.len()
            >= audio.len() && a2.subrange(0, audio.len() as int) == audio,
        spec_run_from(st, audio, frames) matches SpecRun::Audio(a2) ==> a2.len() >= audio.len()
            && a2.subrange(0, audio.len() as int) == audio,
    decreases frames.len(),
{
    if frames.len() == 0 {
        assert(audio.subrange(0, audio.len() as int) =~= audio);
    } else {
        match spec_step(st, audio, frames[0]) {
            SpecRun::Running(st2, audio2) => {
                lemma_accumulator_only_grows(st2, audio2, frames.skip(1));
                assert(audio2.subrange(0, audio.len() as int) =~= audio);
                match spec_run_from(st2, audio2, frames.skip(1)) {
                    SpecRun::Running(st3, a2) => {
                        assert forall|k: int| 0 <= k < audio.len() implies a2[k] == audio[k] by {
                            assert(a2[k] == a2.subrange(0, audio2.len() as int)[k]);
                            assert(audio2[k] == audio2.subrange(0, audio.len() as int)[k]);
                        }
                        assert(a2.subrange(0, audio.len() as int) =~= audio);
                    },
                    SpecRun::Audio(a2) => {
                        assert forall|k: int| 0 <= k < audio.len() implies a2[k] == audio[k] by {
                            assert(a2[k] == a2.subrange(0, audio2.len() as int)[k]);
                            assert(audio2[k] == audio2.subrange(0, audio.len() as int)[k]);
                        }
                        assert(a2.subrange(0, audio.len() as int) =~= audio);
                    },
                    SpecRun::Closed(_) => {},
                }
            },
            SpecRun::Audio(a) => {
                assert(audio.subrange(0, audio.len() as int) =~= audio);
            },
            SpecRun::Closed(_) => {},
        }
    }
}

/// One synthesis turn in progress: the state and the audio accumulator,
/// both local to one `send` call.
pub struct Turn {
    pub state: TurnState,
    pub audio: Vec<u8>,
}

impl Turn {
    /// Opens a fresh turn: state `Idle`, nothing accumulated.
    pub fn new() -> (t: Turn)
        ensures
            t.state == TurnState::Idle,
            t.audio@ == Seq::<u8>::empty(),
    {
        Turn { state: TurnState::Idle, audio: Vec::new() }
    }

    /// Processes one frame.  The caller keeps reading while `Continue` comes
    /// back, returns the accumulated audio on `Finished`, and fails with
    /// `RemoteClosed` on `Closed`.
    pub fn step(&mut self, frame: &Frame) -> (r: StepOutcome)
        requires
            old(self).state != TurnState::Done,
        ensures
            match spec_step(old(self).state, old(self).audio@, *frame) {
                SpecRun::Running(st2, audio2) => final(self).state == st2 && final(self).audio@
                    == audio2 && final(self).state != TurnState::Done && (r is Continue),
                SpecRun::Audio(a) => final(self).audio@ == a && final(self).state
                    == TurnState::Done && (r is Finished),
                SpecRun::Closed(reason) => (r matches StepOutcome::Closed(s) && s@ == reason)
                    && *final(self) == *old(self),
            },
    {
        match frame {
            Frame::Text(s) => {
                proof {
                    assert("turn.start"@ == turn_start_marker());
                    assert("turn.end"@ == turn_end_marker());
                }
                if str_contains(s.as_str(), "turn.start") {
                    self.state = TurnState::InTurn;
                    StepOutcome::Continue
                } else if str_contains(s.as_str(), "turn.end") {
                    self.state = TurnState::Done;
                    StepOutcome::Finished
                } else {
                    StepOutcome::Continue
                }
            },
            Frame::Binary(b) => {
                if self.state == TurnState::InTurn {
                    let off = find_audio_offset(b);
                    proof {
                        lemma_audio_offset_slices_after_marker(b@);
                    }
                    let ghost audio0 = self.audio@;
                    let n = b.len();
                    let mut k = off;
                    while k < n
                        invariant
                            0 <= off <= k <= n,
                            n == b@.len(),
                            self.state == old(self).state,
                            self.audio@ == audio0 + b@.subrange(off as int, k as int),
                        decreases n - k,
                    {
                        self.audio.push(b[k]);
                        proof {
                            assert(audio0 + b@.subrange(off as int, k + 1) =~= (audio0
                                + b@.subrange(off as int, k as int)).push(b@[k as int]));
                        }
                        k = k + 1;
                    }
                    proof {
                        assert(b@.subrange(off as int, n as int) =~= b@.skip(off as int));
                    }
                    StepOutcome::Continue
                } else {
                    StepOutcome::Continue
                }
            },
            Frame::Close(reason) => match reason {
                Option::None => StepOutcome::Closed(String::from_str("the socket closed")),
                Option::Some(r) => StepOutcome::Closed(r.clone()),
            },
            Frame::Other => {
                self.state = TurnState::Done;
                StepOutcome::Finished
            },
        }
    }
}

/// Replays a whole frame sequence as one fresh turn, as the read loop of a
/// live `send` call would process it, and returns the accumulated audio, or
/// the `RemoteClosed` failure when a close frame was hit first.  A sequence
/// that runs out of frames with the turn still open yields the audio
/// gathered so far.
pub fn run_turn(frames: &Vec<Frame>) -> (r: Result<Vec<u8>, TTSError>)
    ensures
        match spec_run(frames@) {
            SpecRun::Running(st, a) => r matches Ok(v) && v@ == a,
            SpecRun::Audio(a) => r matches Ok(v) && v@ == a,
            SpecRun::Closed(reason) => r matches Err(TTSError::RemoteClosed(s)) && s@ == reason,
        },
{
    let mut t = Turn::new();
    let mut i: usize = 0;
    proof {
        assert(frames@.skip(0) =~= frames@);
    }
    while i < frames.len()
        invariant
            0 <= i <= frames@.len(),
            t.state != TurnState::Done,
            spec_run(frames@) == spec_run_from(t.state, t.audio@, frames@.skip(i as int)),
        decreases frames@.len() - i,
    {
        let outcome = t.step(&frames[i]);
        proof {
            assert(frames@.skip(i as int)[0] == frames@[i as int]);
            assert(frames@.skip(i as int).skip(1) =~= frames@.skip(i + 1));
        }
        match outcome {
            StepOutcome::Continue => {
                i = i + 1;
            },
            StepOutcome::Finished => {
                return Ok(t.audio);
            },
            StepOutcome::Closed(reason) => {
                return Err(TTSError::RemoteClosed(reason));
            },
        }
    }
    proof {
        assert(frames@.skip(i as int) =~= Seq::<Frame>::empty());
    }
    Ok(t.audio)
}

} // verus!
