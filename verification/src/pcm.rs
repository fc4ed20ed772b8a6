//! PCM frame layout on the wire: how captured device bytes are cut into
//! frames and read channel by channel, how output samples are laid out for a
//! device with a given channel count and sample width, and the format
//! decisions taken when a device is opened.
use vstd::prelude::*;

use std::collections::VecDeque;

verus! {

/// What the engine knows of an opened audio client.
#[derive(Clone, Copy)]
pub struct ClientInfo {
    pub exclusive: bool,
    pub float: bool,
    pub channels: usize,
    pub sample_rate: u32,
    pub block_align: usize,
}

/// Sample rate asked of every device.
pub const TARGET_RATE: usize = 48_000;

/// Little-endian bytes of a 32-bit word.
pub open spec fn le32_bytes(w: u32) -> Seq<u8> {
    seq![
        (w & 0xff) as u8,
        ((w >> 8u32) & 0xff) as u8,
        ((w >> 16u32) & 0xff) as u8,
        ((w >> 24u32) & 0xff) as u8,
    ]
}

/// The 32-bit word whose little-endian bytes are `b0 b1 b2 b3`.
pub open spec fn le32_word(b0: u8, b1: u8, b2: u8, b3: u8) -> u32 {
    (b0 as u32) | ((b1 as u32) << 8u32) | ((b2 as u32) << 16u32) | ((b3 as u32) << 24u32)
}

/// Little-endian bytes of a 16-bit signed sample (its two's complement).
pub open spec fn le16_bytes(v: i16) -> Seq<u8> {
    seq![((v as u16) & 0xff) as u8, (((v as u16) >> 8u16) & 0xff) as u8]
}

/// The 16-bit signed sample whose little-endian bytes are `b0 b1`.
pub open spec fn le16_value(b0: u8, b1: u8) -> i16 {
    (#[verifier::truncate] (((b0 as u16) | ((b1 as u16) << 8u16)) as i16))
}

/// Number of whole channel slots of `width` bytes that a frame of `len` bytes
/// holds, capped by the channel count.
pub open spec fn channel_slots(len: nat, channels: nat, width: nat) -> nat {
    let whole: nat = len / width;
    if channels < whole {
        channels
    } else {
        whole
    }
}

/// The 32-bit words of the channels of a frame, channel 0 first; a channel
/// whose four bytes do not all lie within the frame is left out.
pub open spec fn frame_words(frame: Seq<u8>, channels: nat) -> Seq<u32> {
    Seq::new(
        channel_slots(frame.len(), channels, 4),
        |c: int| le32_word(frame[4 * c], frame[4 * c + 1], frame[4 * c + 2], frame[4 * c + 3]),
    )
}

/// The 16-bit samples of the channels of a frame, channel 0 first; a channel
/// whose two bytes do not both lie within the frame is left out.
pub open spec fn frame_pcm16(frame: Seq<u8>, channels: nat) -> Seq<i16> {
    Seq::new(
        channel_slots(frame.len(), channels, 2),
        |c: int| le16_value(frame[2 * c], frame[2 * c + 1]),
    )
}

/// `b` repeated `n` times.
pub open spec fn repeat_bytes(b: Seq<u8>, n: nat) -> Seq<u8>
    decreases n,
{
    if n == 0 {
        Seq::empty()
    } else {
        repeat_bytes(b, (n - 1) as nat) + b
    }
}

/// Interleaved 32-bit output: for each sample in order, its four bytes once
/// per channel.
pub open spec fn interleave_words(words: Seq<u32>, channels: nat) -> Seq<u8>
    decreases words.len(),
{
    if words.len() == 0 {
        Seq::empty()
    } else {
        interleave_words(words.drop_last(), channels) + repeat_bytes(
            le32_bytes(words.last()),
            channels,
        )
    }
}

/// Interleaved 16-bit output: for each sample in order, its two bytes once
/// per channel.
pub open spec fn interleave_pcm16(values: Seq<i16>, channels: nat) -> Seq<u8>
    decreases values.len(),
{
    if values.len() == 0 {
        Seq::empty()
    } else {
        interleave_pcm16(values.drop_last(), channels) + repeat_bytes(
            le16_bytes(values.last()),
            channels,
        )
    }
}

/// Reads the channel words of one captured frame (the `f32` bit patterns of
/// a float device).
pub fn frame_f32_words(frame: &[u8], channels: usize) -> (r: Vec<u32>)
    ensures
        r@ == frame_words(frame@, channels as nat),
{
    let n: usize = frame.len();
    let whole: usize = n / 4;
    let count: usize = if channels < whole {
        channels
    } else {
        whole
    };
    let mut out: Vec<u32> = Vec::new();
    let mut c: usize = 0;
    while c < count
        invariant
            count == channel_slots(frame@.len(), channels as nat, 4),
            count <= frame@.len() / 4,
            n == frame@.len(),
            c <= count,
            out@ =~= frame_words(frame@, channels as nat).take(c as int),
        decreases count - c,
    {
        assert(4 * c + 4 <= frame@.len()) by (nonlinear_arith)
            requires
                c < count,
                count <= frame@.len() / 4,
        ;
        let s: usize = 4 * c;
        let w: u32 = (frame[s] as u32) | ((frame[s + 1] as u32) << 8u32) | ((frame[s + 2] as u32)
            << 16u32) | ((frame[s + 3] as u32) << 24u32);
        out.push(w);
        c = c + 1;
    }
    out
}

/// Reads the channel samples of one captured 16-bit frame.
pub fn frame_pcm16_values(frame: &[u8], channels: usize) -> (r: Vec<i16>)
    ensures
        r@ == frame_pcm16(frame@, channels as nat),
{
    let n: usize = frame.len();
    let whole: usize = n / 2;
    let count: usize = if channels < whole {
        channels
    } else {
        whole
    };
    let mut out: Vec<i16> = Vec::new();
    let mut c: usize = 0;
    while c < count
        invariant
            count == channel_slots(frame@.len(), channels as nat, 2),
            count <= frame@.len() / 2,
            n == frame@.len(),
            c <= count,
            out@ =~= frame_pcm16(frame@, channels as nat).take(c as int),
        decreases count - c,
    {
        assert(2 * c + 2 <= frame@.len()) by (nonlinear_arith)
            requires
                c < count,
                count <= frame@.len() / 2,
        ;
        let s: usize = 2 * c;
        let v: i16 = (#[verifier::truncate] (((frame[s] as u16) | ((frame[s + 1] as u16) << 8u16)) as i16));
        out.push(v);
        c = c + 1;
    }
    out
}

/// Lays out 32-bit output words (the `f32` bit patterns of a float device)
/// for a device with `channels` channels: each sample's four little-endian
/// bytes once per channel, sample after sample.
pub fn interleave_f32_words(words: &[u32], channels: usize) -> (r: Vec<u8>)
    ensures
        r@ == interleave_words(words@, channels as nat),
{
    let mut out: Vec<u8> = Vec::new();
    let mut k: usize = 0;
    while k < words.len()
        invariant
            k <= words@.len(),
            out@ == interleave_words(words@.take(k as int), channels as nat),
        decreases words@.len() - k,
    {
        let w: u32 = words[k];
        let b0: u8 = (w & 0xff) as u8;
        let b1: u8 = ((w >> 8u32) & 0xff) as u8;
        let b2: u8 = ((w >> 16u32) & 0xff) as u8;
        let b3: u8 = ((w >> 24u32) & 0xff) as u8;
        let ghost before = out@;
        let mut c: usize = 0;
        while c < channels
            invariant
                c <= channels,
                out@ == before + repeat_bytes(le32_bytes(w), c as nat),
                le32_bytes(w) == seq![b0, b1, b2, b3],
            decreases channels - c,
        {
            out.push(b0);
            out.push(b1);
            out.push(b2);
            out.push(b3);
            c = c + 1;
            assert(out@ =~= before + repeat_bytes(le32_bytes(w), c as nat));
        }
        assert(words@.take(k + 1).drop_last() =~= words@.take(k as int));
        assert(words@.take(k + 1).last() == w);
        k = k + 1;
    }
    assert(words@.take(k as int) =~= words@);
    out
}

/// Lays out 16-bit output samples for a device with `channels` channels: each
/// sample's two little-endian bytes once per channel, sample after sample.
pub fn interleave_pcm16_values(values: &[i16], channels: usize) -> (r: Vec<u8>)
    ensures
        r@ == interleave_pcm16(values@, channels as nat),
{
    let mut out: Vec<u8> = Vec::new();
    let mut k: usize = 0;
    while k < values.len()
        invariant
            k <= values@.len(),
            out@ == interleave_pcm16(values@.take(k as int), channels as nat),
        decreases values@.len() - k,
    {
        let v: i16 = values[k];
        let u: u16 = v as u16;
        let b0: u8 = (u & 0xff) as u8;
        let b1: u8 = ((u >> 8u16) & 0xff) as u8;
        let ghost before = out@;
        let mut c: usize = 0;
        while c < channels
            invariant
                c <= channels,
                out@ == before + repeat_bytes(le16_bytes(v), c as nat),
                le16_bytes(v) == seq![b0, b1],
            decreases channels - c,
        {
            out.push(b0);
            out.push(b1);
            c = c + 1;
            assert(out@ =~= before + repeat_bytes(le16_bytes(v), c as nat));
        }
        assert(values@.take(k + 1).drop_last() =~= values@.take(k as int));
        assert(values@.take(k + 1).last() == v);
        k = k + 1;
    }
    assert(values@.take(k as int) =~= values@);
    out
}

/// Takes every whole frame of `block_align` bytes off the front of the
/// captured byte queue, in order; the bytes of an incomplete last frame stay
/// queued for the next read.
pub fn drain_frames(queue: &mut VecDeque<u8>, block_align: usize) -> (r: Vec<Vec<u8>>)
    requires
        block_align > 0,
    ensures
        r@.len() == old(queue)@.len() / (block_align as nat),
        forall|k: int|
            0 <= k < r@.len() ==> (#[trigger] r@[k])@ == old(queue)@.subrange(
                k * block_align,
                k * block_align + block_align,
            ),
        final(queue)@ == old(queue)@.subrange(
            r@.len() * block_align,
            old(queue)@.len() as int,
        ),
{
    let ghost start = queue@;
    let mut frames: Vec<Vec<u8>> = Vec::new();
    let ghost mut taken: int = 0;
    assert(frames@.len() * block_align == 0);
    while queue.len() >= block_align
        invariant
            block_align > 0,
            taken == frames@.len() * block_align,
            0 <= taken <= start.len(),
            queue@ == start.subrange(taken, start.len() as int),
            forall|k: int|
                0 <= k < frames@.len() ==> (#[trigger] frames@[k])@ == start.subrange(
                    k * block_align,
                    k * block_align + block_align,
                ),
        decreases queue@.len(),
    {
        let mut frame: Vec<u8> = Vec::new();
        let mut j: usize = 0;
        while j < block_align
            invariant
                j <= block_align,
                block_align <= start.len() - taken,
                queue@ == start.subrange(taken + j, start.len() as int),
                frame@ == start.subrange(taken, taken + j),
                0 <= taken,
            decreases block_align - j,
        {
            let b = queue.pop_front();
            match b {
                Some(x) => {
                    frame.push(x);
                },
                None => {
                    frame.push(0u8);
                },
            }
            assert(frame@ =~= start.subrange(taken, taken + j + 1));
            assert(queue@ =~= start.subrange(taken + j + 1, start.len() as int));
            j = j + 1;
        }
        proof {
            assert((frames@.len() + 1) * block_align == frames@.len() * block_align + block_align)
                by (nonlinear_arith);
        }
        frames.push(frame);
        proof {
            taken = taken + block_align;
        }
    }
    proof {
        let n: int = frames@.len() as int;
        vstd::arithmetic::div_mod::lemma_fundamental_div_mod_converse(
            start.len() as int,
            block_align as int,
            n,
            start.len() - taken,
        );
    }
    frames
}

/// How the client of an exclusive-mode stream is described, from the format
/// the device accepted: only 16-bit integer and 32-bit float samples are used.
pub fn exclusive_client_info(
    bits_per_sample: u16,
    channels: u16,
    sample_rate: u32,
    block_align: u16,
) -> (r: Result<ClientInfo, String>)
    ensures
        bits_per_sample != 16 && bits_per_sample != 32 ==> (r matches Err(msg) && msg@
            == "exclusive format is not 16 or 32 bit"@),
        bits_per_sample == 16 || bits_per_sample == 32 ==> r == Ok::<ClientInfo, String>(
            ClientInfo {
                exclusive: true,
                float: bits_per_sample == 32,
                channels: channels as usize,
                sample_rate,
                block_align: block_align as usize,
            },
        ),
{
    if bits_per_sample != 16 && bits_per_sample != 32 {
        return Err("exclusive format is not 16 or 32 bit".to_owned());
    }
    Ok(
        ClientInfo {
            exclusive: true,
            float: bits_per_sample == 32,
            channels: channels as usize,
            sample_rate,
            block_align: block_align as usize,
        },
    )
}

/// Output latency reported for a buffer of `period_frames` frames: two
/// periods, in microseconds, at the given rate (a rate of 0 counts as 1).
pub fn latency_micros(period_frames: u32, sample_rate: u32) -> (r: u32)
    requires
        2 * period_frames * 1_000_000 <= u32::MAX,
    ensures
        r == (2 * period_frames * 1_000_000) / (if sample_rate == 0 {
            1
        } else {
            sample_rate as int
        }),
{
    let doubled: u32 = period_frames * 2;
    let rate: u32 = if sample_rate == 0 {
        1
    } else {
        sample_rate
    };
    (doubled * 1_000_000) / rate
}

/// Reading back the little-endian bytes of a word gives the word.
pub proof fn lemma_le32_roundtrip(w: u32)
    ensures
        le32_word(le32_bytes(w)[0], le32_bytes(w)[1], le32_bytes(w)[2], le32_bytes(w)[3]) == w,
{
    let b0: u8 = (w & 0xff) as u8;
    let b1: u8 = ((w >> 8u32) & 0xff) as u8;
    let b2: u8 = ((w >> 16u32) & 0xff) as u8;
    let b3: u8 = ((w >> 24u32) & 0xff) as u8;
    assert((b0 as u32) | ((b1 as u32) << 8u32) | ((b2 as u32) << 16u32) | ((b3 as u32) << 24u32)
        == w) by (bit_vector)
        requires
            b0 == (w & 0xff) as u8,
            b1 == ((w >> 8u32) & 0xff) as u8,
            b2 == ((w >> 16u32) & 0xff) as u8,
            b3 == ((w >> 24u32) & 0xff) as u8,
    ;
}

/// Reading back the little-endian bytes of a 16-bit sample gives the sample.
pub proof fn lemma_le16_roundtrip(v: i16)
    ensures
        le16_value(le16_bytes(v)[0], le16_bytes(v)[1]) == v,
{
    let u: u16 = v as u16;
    let b0: u8 = (u & 0xff) as u8;
    let b1: u8 = ((u >> 8u16) & 0xff) as u8;
    assert(((b0 as u16) | ((b1 as u16) << 8u16)) == u) by (bit_vector)
        requires
            b0 == (u & 0xff) as u8,
            b1 == ((u >> 8u16) & 0xff) as u8,
    ;
    assert((#[verifier::truncate] (u as i16)) == v) by (bit_vector)
        requires
            u == v as u16,
    ;
}

proof fn lemma_repeat_len(b: Seq<u8>, n: nat)
    ensures
        repeat_bytes(b, n).len() == n * b.len(),
    decreases n,
{
    if n == 0 {
        assert(n * b.len() == 0);
    } else {
        let m: nat = (n - 1) as nat;
        lemma_repeat_len(b, m);
        assert(repeat_bytes(b, n) == repeat_bytes(b, m) + b);
        assert(m * b.len() + b.len() == n * b.len()) by (nonlinear_arith)
            requires
                m + 1 == n,
        ;
    }
}

proof fn lemma_repeat_slot(b: Seq<u8>, n: nat, c: int)
    requires
        0 <= c < n,
    ensures
        c * b.len() + b.len() <= repeat_bytes(b, n).len(),
        repeat_bytes(b, n).subrange(c * b.len(), c * b.len() + b.len()) == b,
    decreases n,
{
    let prev = repeat_bytes(b, (n - 1) as nat);
    lemma_repeat_len(b, (n - 1) as nat);
    lemma_repeat_len(b, n);
    assert(repeat_bytes(b, n) == prev + b);
    if c == n - 1 {
        assert(c * b.len() == (n - 1) * b.len());
        assert((prev + b).subrange(c * b.len(), c * b.len() + b.len()) =~= b);
    } else {
        lemma_repeat_slot(b, (n - 1) as nat, c);
        assert(c * b.len() + b.len() <= (n - 1) * b.len()) by (nonlinear_arith)
            requires
                c < n - 1,
                0 <= c,
        ;
        assert((prev + b).subrange(c * b.len(), c * b.len() + b.len()) =~= prev.subrange(
            c * b.len(),
            c * b.len() + b.len(),
        ));
    }
}

proof fn lemma_interleave_words_len(words: Seq<u32>, channels: nat)
    ensures
        interleave_words(words, channels).len() == words.len() * (4 * channels),
    decreases words.len(),
{
    if words.len() > 0 {
        lemma_interleave_words_len(words.drop_last(), channels);
        lemma_repeat_len(le32_bytes(words.last()), channels);
        let m: int = words.len() - 1;
        assert(m * (4 * channels) + channels * 4 == words.len() * (4 * channels))
            by (nonlinear_arith)
            requires
                m + 1 == words.len(),
        ;
    }
}

proof fn lemma_interleave_words_frame(words: Seq<u32>, channels: nat, k: int)
    requires
        0 <= k < words.len(),
    ensures
        k * (4 * channels) + 4 * channels <= interleave_words(words, channels).len(),
        interleave_words(words, channels).subrange(
            k * (4 * channels),
            k * (4 * channels) + 4 * channels,
        ) == repeat_bytes(le32_bytes(words[k]), channels),
    decreases words.len(),
{
    let fb: nat = 4 * channels;
    let prev = interleave_words(words.drop_last(), channels);
    let tail = repeat_bytes(le32_bytes(words.last()), channels);
    lemma_interleave_words_len(words.drop_last(), channels);
    lemma_interleave_words_len(words, channels);
    lemma_repeat_len(le32_bytes(words.last()), channels);
    assert(interleave_words(words, channels) == prev + tail);
    assert(tail.len() == fb) by {
        assert(channels * 4 == 4 * channels) by (nonlinear_arith);
    }
    assert(prev.len() == (words.len() - 1) * fb);
    assert(k * fb + fb <= words.len() * fb) by (nonlinear_arith)
        requires
            k < words.len(),
            fb >= 0,
    ;
    if k == words.len() - 1 {
        assert((prev + tail).subrange(k * fb, k * fb + fb) =~= tail);
    } else {
        lemma_interleave_words_frame(words.drop_last(), channels, k);
        assert((prev + tail).subrange(k * fb, k * fb + fb) =~= prev.subrange(k * fb, k * fb + fb));
    }
}

proof fn lemma_interleave_pcm16_len(values: Seq<i16>, channels: nat)
    ensures
        interleave_pcm16(values, channels).len() == values.len() * (2 * channels),
    decreases values.len(),
{
    if values.len() > 0 {
        lemma_interleave_pcm16_len(values.drop_last(), channels);
        lemma_repeat_len(le16_bytes(values.last()), channels);
        let m: int = values.len() - 1;
        assert(m * (2 * channels) + channels * 2 == values.len() * (2 * channels))
            by (nonlinear_arith)
            requires
                m + 1 == values.len(),
        ;
    }
}

proof fn lemma_interleave_pcm16_frame(values: Seq<i16>, channels: nat, k: int)
    requires
        0 <= k < values.len(),
    ensures
        k * (2 * channels) + 2 * channels <= interleave_pcm16(values, channels).len(),
        interleave_pcm16(values, channels).subrange(
            k * (2 * channels),
            k * (2 * channels) + 2 * channels,
        ) == repeat_bytes(le16_bytes(values[k]), channels),
    decreases values.len(),
{
    let fb: nat = 2 * channels;
    let prev = interleave_pcm16(values.drop_last(), channels);
    let tail = repeat_bytes(le16_bytes(values.last()), channels);
    lemma_interleave_pcm16_len(values.drop_last(), channels);
    lemma_interleave_pcm16_len(values, channels);
    lemma_repeat_len(le16_bytes(values.last()), channels);
    assert(interleave_pcm16(values, channels) == prev + tail);
    assert(tail.len() == fb) by {
        assert(channels * 2 == 2 * channels) by (nonlinear_arith);
    }
    assert(prev.len() == (values.len() - 1) * fb);
    assert(k * fb + fb <= values.len() * fb) by (nonlinear_arith)
        requires
            k < values.len(),
            fb >= 0,
    ;
    if k == values.len() - 1 {
        assert((prev + tail).subrange(k * fb, k * fb + fb) =~= tail);
    } else {
        lemma_interleave_pcm16_frame(values.drop_last(), channels, k);
        assert((prev + tail).subrange(k * fb, k * fb + fb) =~= prev.subrange(k * fb, k * fb + fb));
    }
}

proof fn lemma_frame_words_of_repeat(w: u32, channels: nat)
    ensures
        frame_words(repeat_bytes(le32_bytes(w), channels), channels) == Seq::new(
            channels,
            |c: int| w,
        ),
{
    let b = le32_bytes(w);
    let frame = repeat_bytes(b, channels);
    lemma_repeat_len(b, channels);
    assert(frame.len() == channels * 4);
    assert(channel_slots(frame.len(), channels, 4) == channels) by {
        vstd::arithmetic::div_mod::lemma_div_multiples_vanish(channels as int, 4);
    }
    lemma_le32_roundtrip(w);
    assert forall|c: int| 0 <= c < channels implies #[trigger] frame_words(frame, channels)[c]
        == w by {
        lemma_repeat_slot(b, channels, c);
        assert(c * 4 == 4 * c);
        let slot = frame.subrange(c * 4, c * 4 + 4);
        assert(slot =~= b);
        assert(frame[4 * c] == b[0]);
        assert(frame[4 * c + 1] == b[1]);
        assert(frame[4 * c + 2] == b[2]);
        assert(frame[4 * c + 3] == b[3]);
    }
    assert(frame_words(frame, channels) =~= Seq::new(channels, |c: int| w));
}

proof fn lemma_frame_pcm16_of_repeat(v: i16, channels: nat)
    ensures
        frame_pcm16(repeat_bytes(le16_bytes(v), channels), channels) == Seq::new(
            channels,
            |c: int| v,
        ),
{
    let b = le16_bytes(v);
    let frame = repeat_bytes(b, channels);
    lemma_repeat_len(b, channels);
    assert(frame.len() == channels * 2);
    assert(channel_slots(frame.len(), channels, 2) == channels) by {
        vstd::arithmetic::div_mod::lemma_div_multiples_vanish(channels as int, 2);
    }
    lemma_le16_roundtrip(v);
    assert forall|c: int| 0 <= c < channels implies #[trigger] frame_pcm16(frame, channels)[c]
        == v by {
        lemma_repeat_slot(b, channels, c);
        assert(c * 2 == 2 * c);
        let slot = frame.subrange(c * 2, c * 2 + 2);
        assert(slot =~= b);
        assert(frame[2 * c] == b[0]);
        assert(frame[2 * c + 1] == b[1]);
    }
    assert(frame_pcm16(frame, channels) =~= Seq::new(channels, |c: int| v));
}

/// Law: every frame of an interleaved 32-bit stream reads back, channel by
/// channel, as the sample that was written into it.
pub proof fn law_f32_frames_read_back(words: Seq<u32>, channels: nat, k: int)
    requires
        0 <= k < words.len(),
    ensures
        k * (4 * channels) + 4 * channels <= interleave_words(words, channels).len(),
        frame_words(
            interleave_words(words, channels).subrange(
                k * (4 * channels),
                k * (4 * channels) + 4 * channels,
            ),
            channels,
        ) == Seq::new(channels, |c: int| words[k]),
{
    lemma_interleave_words_frame(words, channels, k);
    lemma_frame_words_of_repeat(words[k], channels);
}

/// Law: every frame of an interleaved 16-bit stream reads back, channel by
/// channel, as the sample that was written into it.
pub proof fn law_pcm16_frames_read_back(values: Seq<i16>, channels: nat, k: int)
    requires
        0 <= k < values.len(),
    ensures
        k * (2 * channels) + 2 * channels <= interleave_pcm16(values, channels).len(),
        frame_pcm16(
            interleave_pcm16(values, channels).subrange(
                k * (2 * channels),
                k * (2 * channels) + 2 * channels,
            ),
            channels,
        ) == Seq::new(channels, |c: int| values[k]),
{
    lemma_interleave_pcm16_frame(values, channels, k);
    lemma_frame_pcm16_of_repeat(values[k], channels);
}

} // verus!
