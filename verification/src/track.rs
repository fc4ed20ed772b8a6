//! A backing track decoded to mono, and how its frames map onto the output
//! rate.  The sample type is a parameter; the audio path uses `f32`.
use vstd::prelude::*;

verus! {

/// A decoded mono track: its samples, their rate and the file's name.
pub struct Track<S> {
    pub samples: Vec<S>,
    pub sample_rate: u32,
    pub name: String,
}

/// Number of output frames a track of `len` samples at `sample_rate` lasts
/// when played at `play_rate` (rounded down).
pub open spec fn playback_frames(len: nat, sample_rate: u32, play_rate: u32) -> int {
    if sample_rate == play_rate {
        len as int
    } else {
        (len * play_rate) / (sample_rate as int)
    }
}

/// Law: at a different output rate a track lasts the whole number of output
/// frames that fit in its length: `len * play_rate / sample_rate` taken over
/// the integers and rounded down, so `frames * sample_rate <= len * play_rate
/// < (frames + 1) * sample_rate`.  At the same rate it lasts `len` frames.
pub proof fn law_playback_frames_floor(len: nat, sample_rate: u32, play_rate: u32)
    requires
        sample_rate > 0,
    ensures
        sample_rate == play_rate ==> playback_frames(len, sample_rate, play_rate) == len,
        sample_rate != play_rate ==> playback_frames(len, sample_rate, play_rate) == (len
            * play_rate) / (sample_rate as int),
        playback_frames(len, sample_rate, play_rate) >= 0,
        playback_frames(len, sample_rate, play_rate) * sample_rate <= len * play_rate
            || sample_rate == play_rate,
        len * play_rate < (playback_frames(len, sample_rate, play_rate) + 1) * sample_rate
            || sample_rate == play_rate,
{
    let a: int = len * play_rate;
    let b: int = sample_rate as int;
    assert(a >= 0) by (nonlinear_arith)
        requires
            len >= 0,
            play_rate >= 0,
            a == len * play_rate,
    ;
    vstd::arithmetic::div_mod::lemma_fundamental_div_mod(a, b);
    vstd::arithmetic::div_mod::lemma_div_pos_is_pos(a, b);
    let q: int = a / b;
    let m: int = a % b;
    assert(q * b <= a && a < (q + 1) * b) by (nonlinear_arith)
        requires
            a == b * q + m,
            0 <= m < b,
    ;
}

impl<S: Copy> Track<S> {
    /// Number of output frames the track lasts at `play_rate`.
    pub fn frame_count(&self, play_rate: u32) -> (r: usize)
        requires
            self.sample_rate != play_rate ==> self.sample_rate != 0 && self.samples@.len()
                * play_rate <= u64::MAX,
        ensures
            r == playback_frames(self.samples@.len(), self.sample_rate, play_rate) as usize,
            self.sample_rate == play_rate ==> r == self.samples@.len(),
            self.sample_rate != play_rate && (self.samples@.len() * play_rate) / (
            self.sample_rate as int) <= usize::MAX ==> {
                &&& r as int == (self.samples@.len() * play_rate) / (self.sample_rate as int)
                &&& r * self.sample_rate <= self.samples@.len() * play_rate
                &&& self.samples@.len() * play_rate < (r + 1) * self.sample_rate
            },
    {
        if self.sample_rate == play_rate {
            return self.samples.len();
        }
        let len: u64 = self.samples.len() as u64;
        let frames: u64 = len * (play_rate as u64) / (self.sample_rate as u64);
        proof {
            law_playback_frames_floor(self.samples@.len(), self.sample_rate, play_rate);
        }
        frames as usize
    }

    /// The sample at `index`, or `default` past the end of the track.
    pub fn sample_or(&self, index: usize, default: S) -> (r: S)
        ensures
            r == (if index < self.samples@.len() {
                self.samples@[index as int]
            } else {
                default
            }),
    {
        if index < self.samples.len() {
            self.samples[index]
        } else {
            default
        }
    }
}

/// What the demuxer gave back when asked for its next packet.
pub enum PacketRead {
    /// A packet of the track with this id.
    Packet(u32),
    /// The stream ended.
    EndOfStream,
    /// The decoder must be reset before going on.
    ResetRequired,
    /// Any other read error.
    Failed,
}

/// What the decoding loop does next.
pub enum ReadStep {
    Decode,
    Skip,
    Reset,
    Finish,
    Fail,
}

/// The decoding loop's decision on one read: packets of the chosen track are
/// decoded and others skipped; the end of the stream finishes the track; a
/// reset request resets the decoder; any other error fails the load.
pub fn packet_step(read: PacketRead, track_id: u32) -> (r: ReadStep)
    ensures
        read matches PacketRead::Packet(id) ==> (if id == track_id {
            r is Decode
        } else {
            r is Skip
        }),
        read is EndOfStream ==> r is Finish,
        read is ResetRequired ==> r is Reset,
        read is Failed ==> r is Fail,
{
    match read {
        PacketRead::Packet(id) => {
            if id == track_id {
                ReadStep::Decode
            } else {
                ReadStep::Skip
            }
        },
        PacketRead::EndOfStream => ReadStep::Finish,
        PacketRead::ResetRequired => ReadStep::Reset,
        PacketRead::Failed => ReadStep::Fail,
    }
}

/// Channels averaged into each mono sample: the stream's channel count, or 1
/// when it is unknown or 0.
pub fn mixdown_channels(channels: Option<usize>) -> (r: usize)
    ensures
        r == (match channels {
            Some(c) => if c == 0 {
                1
            } else {
                c
            },
            None => 1,
        }),
        r >= 1,
{
    match channels {
        Some(c) => if c == 0 {
            1
        } else {
            c
        },
        None => 1,
    }
}

impl<S> Track<S> {
    /// A track from decoded mono samples; a file from which nothing could be
    /// decoded is refused.
    pub fn from_decoded(samples: Vec<S>, sample_rate: u32, name: String) -> (r: Result<
        Track<S>,
        String,
    >)
        ensures
            samples@.len() == 0 ==> (r matches Err(msg) && msg@
                == "Could not decode any audio from that file"@),
            samples@.len() > 0 ==> (r matches Ok(t) && t.samples@ == samples@ && t.sample_rate
                == sample_rate && t.name == name),
    {
        if samples.len() == 0 {
            return Err("Could not decode any audio from that file".to_owned());
        }
        Ok(Track { samples, sample_rate, name })
    }
}

} // verus!
