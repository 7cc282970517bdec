//! Capture-side voice-activity detection with hangover, and the playback
//! decision logic.
//!
//! The audio devices and the perceptual codec are external collaborators;
//! this module holds the decisions around them: which captured frames are
//! worth sending, and what to do with each received message.
use vstd::prelude::*;
use vstd::bytes::*;
use vstd::slice::slice_subrange;

use crate::PeerAddr;
use crate::client::{ClientMessage, ClientMessageView};

verus! {

/// Root-mean-square level, in sample units, below which a frame counts as
/// silence.
pub const VAD_THRESHOLD: u16 = 200;

/// Silent frames still transmitted after the last voice frame, so that
/// word-final sounds are not clipped.
pub const HANGOVER_LIMIT: u32 = 10;

/// Sum of the squared samples.
pub open spec fn sum_squares(s: Seq<i16>) -> int
    decreases s.len(),
{
    if s.len() == 0 {
        0
    } else {
        sum_squares(s.drop_last()) + s.last() * s.last()
    }
}

/// A block is silence when its root-mean-square lies below the threshold,
/// that is, when the sum of squares lies below `threshold²·len`. An empty
/// block counts as silence.
pub open spec fn spec_is_silence(pcm: Seq<i16>, threshold: u16) -> bool {
    pcm.len() == 0 || sum_squares(pcm) < threshold * threshold * pcm.len()
}

/// The sum of squares of a block is nonnegative and at most `len·2³⁰`.
proof fn lemma_sum_squares_bounds(s: Seq<i16>)
    ensures
        0 <= sum_squares(s) <= s.len() * 0x40000000,
    decreases s.len(),
{
    if s.len() > 0 {
        lemma_sum_squares_bounds(s.drop_last());
        let v = s.last() as int;
        assert(0 <= v * v <= 0x40000000) by (nonlinear_arith)
            requires
                -0x8000 <= v <= 0x7fff,
        ;
        assert((s.len() - 1) * 0x40000000 + 0x40000000 == s.len() * 0x40000000) by (nonlinear_arith);
    }
}

/// An all-zero block sums to zero.
proof fn lemma_sum_squares_zero(s: Seq<i16>)
    requires
        forall|i: int| 0 <= i < s.len() ==> s[i] == 0,
    ensures
        sum_squares(s) == 0,
    decreases s.len(),
{
    if s.len() > 0 {
        assert(forall|i: int| 0 <= i < s.len() - 1 ==> s.drop_last()[i] == s[i]);
        lemma_sum_squares_zero(s.drop_last());
    }
}

/// The fixed-threshold voice-activity test: true when the block's
/// root-mean-square lies below `threshold`. An empty block is silence.
pub fn is_silence(pcm: &[i16], threshold: u16) -> (r: bool)
    requires
        pcm@.len() <= 1920,
    ensures
        r == spec_is_silence(pcm@, threshold),
{
    let n: usize = pcm.len();
    if n == 0 {
        return true;
    }
    let mut sum: i64 = 0;
    let mut i: usize = 0;
    while i < n
        invariant
            i <= n,
            n == pcm@.len() <= 1920,
            sum == sum_squares(pcm@.take(i as int)),
            0 <= sum <= i * 0x40000000,
        decreases n - i,
    {
        let v: i64 = pcm[i] as i64;
        proof {
            assert(0 <= v * v <= 0x40000000) by (nonlinear_arith)
                requires
                    -0x8000 <= v <= 0x7fff,
            ;
            assert(pcm@.take(i + 1).drop_last() =~= pcm@.take(i as int));
            assert(pcm@.take(i + 1).last() == pcm@[i as int]);
            assert(i * 0x40000000 + 0x40000000 == (i + 1) * 0x40000000) by (nonlinear_arith);
        }
        sum = sum + v * v;
        i = i + 1;
    }
    proof {
        assert(pcm@.take(n as int) =~= pcm@);
    }
    let t: i64 = threshold as i64;
    proof {
        assert(0 <= t * t <= 0xffff * 0xffff) by (nonlinear_arith)
            requires
                0 <= t <= 0xffff,
        ;
        assert(t * t * (n as int) <= 0xffff * 0xffff * 1920) by (nonlinear_arith)
            requires
                0 <= t * t <= 0xffff * 0xffff,
                0 < n <= 1920,
        ;
        assert(0 <= t * t * (n as int)) by (nonlinear_arith)
            requires
                0 <= t * t,
                0 < n,
        ;
    }
    let rhs: i64 = t * t * (n as i64);
    sum < rhs
}

/// The capture task's decision state: the hangover countdown and the local
/// mute flag.
#[derive(Clone, Copy, Debug, PartialEq, Eq, Structural)]
pub struct CaptureState {
    pub hangover: u32,
    pub muted: bool,
}

/// What the capture task does with one captured frame.
#[derive(Clone, Copy, Debug, PartialEq, Eq, Structural)]
pub enum CaptureAction {
    /// Muted: pace one frame duration and emit nothing.
    Paced,
    /// Silence past the hangover: emit only `TransmitAudio(false)`.
    Suppress,
    /// Encode the frame and emit `TransmitAudio(true)` then the audio.
    Transmit,
}

/// One step of the capture decision: a muted state emits nothing; silence
/// is suppressed once the hangover has drained, and otherwise consumes one
/// hangover frame; voice resets the hangover to its ceiling.
pub open spec fn spec_capture_step(s: CaptureState, silent: bool) -> (CaptureState, CaptureAction) {
    if s.muted {
        (s, CaptureAction::Paced)
    } else if silent {
        if s.hangover == 0 {
            (s, CaptureAction::Suppress)
        } else {
            (
                CaptureState { hangover: (s.hangover - 1) as u32, muted: s.muted },
                CaptureAction::Transmit,
            )
        }
    } else {
        (CaptureState { hangover: HANGOVER_LIMIT, muted: s.muted }, CaptureAction::Transmit)
    }
}

impl CaptureState {
    /// The capture state at startup: not muted, hangover drained.
    pub fn new() -> (s: CaptureState)
        ensures
            s == (CaptureState { hangover: 0u32, muted: false }),
    {
        CaptureState { hangover: 0, muted: false }
    }

    /// Absorbs one `ToggleMute` control event.
    pub fn toggle_mute(&mut self)
        ensures
            final(self).muted == !old(self).muted,
            final(self).hangover == old(self).hangover,
    {
        self.muted = !self.muted;
    }
}

/// Advances the capture state by one frame whose voice-activity test came
/// out as `silent`, and says what to do with the frame.
pub fn capture_step(state: &mut CaptureState, silent: bool) -> (action: CaptureAction)
    ensures
        (*final(state), action) == spec_capture_step(*old(state), silent),
{
    if state.muted {
        CaptureAction::Paced
    } else if silent {
        if state.hangover == 0 {
            CaptureAction::Suppress
        } else {
            state.hangover = state.hangover - 1;
            CaptureAction::Transmit
        }
    } else {
        state.hangover = HANGOVER_LIMIT;
        CaptureAction::Transmit
    }
}

/// Runs the voice-activity test on one captured frame and advances the
/// capture state accordingly.
pub fn process_capture_frame(state: &mut CaptureState, pcm: &[i16]) -> (action: CaptureAction)
    requires
        pcm@.len() <= 1920,
    ensures
        (*final(state), action) == spec_capture_step(
            *old(state),
            spec_is_silence(pcm@, VAD_THRESHOLD),
        ),
{
    let silent = is_silence(pcm, VAD_THRESHOLD);
    capture_step(state, silent)
}

/// Voice law: a frame whose root-mean-square reaches the threshold is
/// transmitted, and the hangover is reset to its ceiling.
pub proof fn lemma_vad_voice(s: CaptureState, pcm: Seq<i16>)
    requires
        !s.muted,
        pcm.len() > 0,
        sum_squares(pcm) >= VAD_THRESHOLD * VAD_THRESHOLD * pcm.len(),
    ensures
        spec_capture_step(s, spec_is_silence(pcm, VAD_THRESHOLD)).1 == CaptureAction::Transmit,
        spec_capture_step(s, spec_is_silence(pcm, VAD_THRESHOLD)).0.hangover == HANGOVER_LIMIT,
{
}

/// Suppression law: an all-zero frame arriving with the hangover drained is
/// suppressed and leaves the state unchanged.
pub proof fn lemma_vad_zero_suppressed(s: CaptureState, pcm: Seq<i16>)
    requires
        !s.muted,
        s.hangover == 0,
        forall|i: int| 0 <= i < pcm.len() ==> pcm[i] == 0,
    ensures
        spec_capture_step(s, spec_is_silence(pcm, VAD_THRESHOLD)) == (s, CaptureAction::Suppress),
{
    lemma_sum_squares_zero(pcm);
    if pcm.len() > 0 {
        assert(VAD_THRESHOLD * VAD_THRESHOLD * pcm.len() > 0) by (nonlinear_arith)
            requires
                pcm.len() > 0,
        ;
    }
}

/// How many of `n` consecutive silent frames are still transmitted from
/// this state on.
pub open spec fn silent_emissions(s: CaptureState, n: nat) -> nat
    decreases n,
{
    if n == 0 {
        0
    } else {
        let (s2, a) = spec_capture_step(s, true);
        (if a == CaptureAction::Transmit {
            1nat
        } else {
            0nat
        }) + silent_emissions(s2, (n - 1) as nat)
    }
}

/// A run of silent frames is transmitted for exactly as long as the
/// hangover lasts.
proof fn lemma_silent_run(s: CaptureState, n: nat)
    requires
        !s.muted,
    ensures
        silent_emissions(s, n) == if n <= s.hangover {
            n
        } else {
            s.hangover as nat
        },
    decreases n,
{
    if n > 0 {
        let (s2, a) = spec_capture_step(s, true);
        lemma_silent_run(s2, (n - 1) as nat);
    }
}

/// Hangover law: after a voice frame, exactly `HANGOVER_LIMIT` consecutive
/// silent frames are still transmitted before suppression begins.
pub proof fn lemma_hangover_exact(s: CaptureState, n: nat)
    requires
        !s.muted,
    ensures
        silent_emissions(spec_capture_step(s, false).0, n) == if n <= HANGOVER_LIMIT {
            n
        } else {
            HANGOVER_LIMIT as nat
        },
{
    lemma_silent_run(spec_capture_step(s, false).0, n);
}

/// Mute law: a muted capture state emits nothing and does not change, for
/// voice and silence alike.
pub proof fn lemma_mute_suppresses(s: CaptureState, silent: bool)
    requires
        s.muted,
    ensures
        spec_capture_step(s, silent) == (s, CaptureAction::Paced),
{
}

/// The sample at position `i` of a little-endian 16-bit PCM byte block.
pub open spec fn spec_sample_at(bytes: Seq<u8>, i: int) -> i16 {
    spec_u16_from_le_bytes(bytes.subrange(2 * i, 2 * i + 2)) as i16
}

/// The byte block read as its sequence of 16-bit samples.
pub open spec fn spec_pcm_samples(bytes: Seq<u8>) -> Seq<i16> {
    Seq::new((bytes.len() / 2) as nat, |i: int| spec_sample_at(bytes, i))
}

/// Reads a captured byte block as 16-bit little-endian samples, as the
/// voice-activity test and the codec want them.
pub fn pcm_samples(data: &[u8]) -> (r: Vec<i16>)
    ensures
        r@ == spec_pcm_samples(data@),
{
    let len: usize = data.len();
    let n: usize = len / 2;
    let mut r: Vec<i16> = Vec::new();
    let mut i: usize = 0;
    while i < n
        invariant
            i <= n,
            len == data@.len(),
            n == len / 2,
            r@.len() == i,
            forall|k: int| 0 <= k < i ==> r@[k] == spec_sample_at(data@, k),
        decreases n - i,
    {
        proof {
            assert(2 * (len / 2) <= len);
            assert(2 * i + 2 <= len);
        }
        let v: u16 = u16_from_le_bytes(slice_subrange(data, 2 * i, 2 * i + 2));
        r.push(#[verifier::truncate] (v as i16));
        i = i + 1;
    }
    proof {
        assert(r@ =~= spec_pcm_samples(data@));
    }
    r
}

/// The little-endian byte form of a sample sequence.
pub open spec fn spec_sample_bytes(samples: Seq<i16>) -> Seq<u8>
    decreases samples.len(),
{
    if samples.len() == 0 {
        Seq::empty()
    } else {
        spec_sample_bytes(samples.drop_last()) + spec_u16_to_le_bytes(samples.last() as u16)
    }
}

/// Writes decoded samples back out as the little-endian byte block the
/// playback device consumes.
pub fn sample_bytes(samples: &[i16]) -> (r: Vec<u8>)
    ensures
        r@ == spec_sample_bytes(samples@),
{
    let n: usize = samples.len();
    let mut r: Vec<u8> = Vec::new();
    let mut i: usize = 0;
    while i < n
        invariant
            i <= n,
            n == samples@.len(),
            r@ == spec_sample_bytes(samples@.take(i as int)),
        decreases n - i,
    {
        let mut pair = u16_to_le_bytes(samples[i] as u16);
        r.append(&mut pair);
        proof {
            assert(samples@.take(i + 1).drop_last() =~= samples@.take(i as int));
            assert(samples@.take(i + 1).last() == samples@[i as int]);
        }
        i = i + 1;
    }
    proof {
        assert(samples@.take(n as int) =~= samples@);
    }
    r
}

/// The byte form of a sample block is twice as long as the block.
proof fn lemma_sample_bytes_len(samples: Seq<i16>)
    ensures
        spec_sample_bytes(samples).len() == 2 * samples.len(),
    decreases samples.len(),
{
    lemma_auto_spec_u16_to_from_le_bytes();
    if samples.len() > 0 {
        lemma_sample_bytes_len(samples.drop_last());
    }
}

/// Reinterpretation law: writing samples out as bytes and reading them back
/// yields the same samples, so capture, codec and playback agree on what a
/// byte block means.
pub proof fn lemma_sample_round_trip(samples: Seq<i16>)
    ensures
        spec_pcm_samples(spec_sample_bytes(samples)) == samples,
    decreases samples.len(),
{
    lemma_auto_spec_u16_to_from_le_bytes();
    lemma_sample_bytes_len(samples);
    let bytes = spec_sample_bytes(samples);
    if samples.len() > 0 {
        lemma_sample_round_trip(samples.drop_last());
        lemma_sample_bytes_len(samples.drop_last());
        let prefix = spec_sample_bytes(samples.drop_last());
        assert forall|i: int| 0 <= i < samples.len() implies spec_sample_at(bytes, i)
            == samples[i] by {
            if i < samples.len() - 1 {
                assert(bytes.subrange(2 * i, 2 * i + 2) =~= prefix.subrange(2 * i, 2 * i + 2));
                assert(spec_pcm_samples(prefix)[i] == samples.drop_last()[i]);
            } else {
                let s0 = samples.last();
                let v = s0 as u16;
                assert(bytes.subrange(2 * i, 2 * i + 2) =~= spec_u16_to_le_bytes(v));
                assert(spec_u16_from_le_bytes(spec_u16_to_le_bytes(v)) == v);
                assert((s0 as u16) as i16 == s0) by (bit_vector);
            }
        }
        assert(spec_pcm_samples(bytes) =~= samples);
    } else {
        assert(spec_pcm_samples(bytes) =~= samples);
    }
}

/// The playback task's decision state: the local deafen flag.
#[derive(Clone, Copy, Debug, PartialEq, Eq, Structural)]
pub struct PlaybackState {
    pub deafened: bool,
}

/// What the playback task does with one message from the coordinator.
#[derive(Debug, PartialEq)]
pub enum PlaybackAction {
    /// Deafened while audio arrived: pace one frame duration, play nothing.
    Pace,
    /// Decode these bytes and hand one frame to the playback device.
    Play(Vec<u8>),
    /// Nothing to do.
    Ignore,
}

/// Model of a [`PlaybackAction`].
pub enum PlaybackActionView {
    Pace,
    Play(Seq<u8>),
    Ignore,
}

impl View for PlaybackAction {
    type V = PlaybackActionView;

    open spec fn view(&self) -> PlaybackActionView {
        match self {
            PlaybackAction::Pace => PlaybackActionView::Pace,
            PlaybackAction::Play(data) => PlaybackActionView::Play(data@),
            PlaybackAction::Ignore => PlaybackActionView::Ignore,
        }
    }
}

/// One step of the playback decision: received audio is played unless the
/// local deafen flag is set, `ToggleDeafen` flips that flag, and all other
/// messages are ignored.
pub open spec fn spec_playback_step(deafened: bool, m: ClientMessageView) -> (
    bool,
    PlaybackActionView,
) {
    match m {
        ClientMessageView::RecvAudio(data, _) => if deafened {
            (deafened, PlaybackActionView::Pace)
        } else {
            (deafened, PlaybackActionView::Play(data))
        },
        ClientMessageView::ToggleDeafen => (!deafened, PlaybackActionView::Ignore),
        _ => (deafened, PlaybackActionView::Ignore),
    }
}

impl PlaybackState {
    /// The playback state at startup: not deafened.
    pub fn new() -> (s: PlaybackState)
        ensures
            s == (PlaybackState { deafened: false }),
    {
        PlaybackState { deafened: false }
    }
}

/// Advances the playback state by one coordinator message and says what to
/// do with it.
pub fn playback_step(state: &mut PlaybackState, msg: ClientMessage) -> (action: PlaybackAction)
    ensures
        ({
            let (deafened, a) = spec_playback_step(old(state).deafened, msg@);
            &&& final(state).deafened == deafened
            &&& action@ == a
        }),
{
    match msg {
        ClientMessage::RecvAudio(data, _) => {
            if state.deafened {
                PlaybackAction::Pace
            } else {
                PlaybackAction::Play(data)
            }
        }
        ClientMessage::ToggleDeafen => {
            state.deafened = !state.deafened;
            PlaybackAction::Ignore
        }
        _ => PlaybackAction::Ignore,
    }
}

} // verus!
