//! Musical pitch on the integer MIDI note grid: pitch classes, the three
//! scales the tuner knows, snapping a detected pitch to the nearest note of
//! the chosen scale, and note names such as "A4".
use vstd::prelude::*;

use crate::text::{decimal_int, push_decimal_int};

verus! {

/// Letter names of the twelve pitch classes, C first.
pub const NOTE_NAMES: [&'static str; 12] = ["C", "C#", "D", "D#", "E", "F", "F#", "G", "G#", "A", "A#", "B"];

/// Scale degrees, in semitones above the tonic, of the chromatic, major and
/// natural minor scales.
pub const CHROMATIC_STEPS: [i32; 12] = [0, 1, 2, 3, 4, 5, 6, 7, 8, 9, 10, 11];

/// Degrees of the major scale.
pub const MAJOR_STEPS: [i32; 7] = [0, 2, 4, 5, 7, 9, 11];

/// Degrees of the natural minor scale.
pub const MINOR_STEPS: [i32; 7] = [0, 2, 3, 5, 7, 8, 10];

/// Degrees of the scale a scale number selects: 0 chromatic, 1 major, any
/// other number minor.
pub open spec fn scale_steps_spec(scale: usize) -> Seq<i32> {
    if scale == 0 {
        seq![0, 1, 2, 3, 4, 5, 6, 7, 8, 9, 10, 11]
    } else if scale == 1 {
        seq![0, 2, 4, 5, 7, 9, 11]
    } else {
        seq![0, 2, 3, 5, 7, 8, 10]
    }
}

/// The degrees of the scale that `scale` selects.
pub fn scale_steps(scale: usize) -> (r: &'static [i32])
    ensures
        r@ == scale_steps_spec(scale),
{
    if scale == 0 {
        let r: &'static [i32] = &CHROMATIC_STEPS;
        r
    } else if scale == 1 {
        &MAJOR_STEPS
    } else {
        &MINOR_STEPS
    }
}

/// Notes searched on each side of the detected pitch when snapping.
pub const SEARCH_RADIUS: i32 = 12;

/// Number of candidate notes examined by a snap: the floor of the pitch and
/// `SEARCH_RADIUS` notes on each side of it.
pub const SEARCH_SPAN: usize = 25;

/// Bit pattern of `f32::INFINITY`.  For non-negative `f32` values (sign bit
/// clear) the order of the bit patterns, read as `u32`, is the numeric order;
/// +infinity is `0x7f80_0000` and every NaN lies above it.
pub const INFINITY_BITS: u32 = 0x7f80_0000;

/// Pitch class (0 = C ... 11 = B) of a MIDI note; `%` here is Euclidean, so
/// negative notes wrap round as well.
pub open spec fn pitch_class_of(n: int) -> int {
    n % 12
}

/// The scale index that a stored scale number selects: 0 chromatic, 1 major,
/// anything above that minor.
pub open spec fn scale_index(scale: usize) -> usize {
    if scale < 2 {
        scale
    } else {
        2
    }
}

/// Note `n` belongs to the scale `scale` built on the tonic `key`.
pub open spec fn in_scale_spec(n: int, key: int, scale: usize) -> bool {
    scale_steps_spec(scale).contains(((n - key) % 12) as i32)
}

/// Pitch class (0 = C ... 11 = B) of a MIDI note.
pub fn pitch_class(n: i32) -> (r: i32)
    ensures
        r == pitch_class_of(n as int),
        0 <= r < 12,
{
    ((n % 12) + 12) % 12
}

/// A stored key brought into the range the picker offers (0..=11).
pub fn clamp_key(key: i32) -> (r: i32)
    ensures
        r == (if key < 0 {
            0
        } else if key > 11 {
            11
        } else {
            key
        }),
{
    if key < 0 {
        0
    } else if key > 11 {
        11
    } else {
        key
    }
}

/// A stored scale number brought into the range the picker offers (0..=2):
/// the smaller of the stored number and 2, so a number the picker offers comes
/// back unchanged.
pub fn clamp_scale(scale: usize) -> (r: usize)
    ensures
        r == scale_index(scale),
        scale <= 2 ==> r == scale,
        scale > 2 ==> r == 2,
        r <= 2,
        r <= scale,
{
    if scale < 2 {
        scale
    } else {
        2
    }
}

fn steps_contain(steps: &[i32], degree: i32) -> (r: bool)
    ensures
        r == steps@.contains(degree),
{
    let mut i: usize = 0;
    while i < steps.len()
        invariant
            0 <= i <= steps@.len(),
            forall|j: int| 0 <= j < i ==> steps@[j] != degree,
        decreases steps@.len() - i,
    {
        if steps[i] == degree {
            assert(steps@[i as int] == degree);
            return true;
        }
        i = i + 1;
    }
    false
}

/// Whether note `n` is in the scale `scale` on the tonic `key`.
pub fn in_scale(n: i32, key: i32, scale: usize) -> (r: bool)
    ensures
        r == in_scale_spec(n as int, key as int, scale),
{
    let tonic: i32 = pitch_class(key);
    let class: i32 = pitch_class(n);
    let degree: i32 = (class - tonic + 12) % 12;
    assert(degree == (n - key) % 12) by {
        lemma_degree(n as int, key as int);
    }
    steps_contain(scale_steps(scale), degree)
}

proof fn lemma_degree(n: int, key: int)
    ensures
        ((n % 12) - (key % 12) + 12) % 12 == (n - key) % 12,
{
    vstd::arithmetic::div_mod::lemma_fundamental_div_mod(n, 12);
    vstd::arithmetic::div_mod::lemma_fundamental_div_mod(key, 12);
    let a: int = n % 12;
    let b: int = key % 12;
    assert((n - key) == 12 * (n / 12 - key / 12) + (a - b));
    vstd::arithmetic::div_mod::lemma_mod_multiples_vanish(n / 12 - key / 12 - 1, a - b + 12, 12);
    assert(n - key == 12 * (n / 12 - key / 12 - 1) + (a - b + 12));
}

/// Candidate `i` of a snap window starting at `lo` is in the scale and its
/// distance key is finite.
pub open spec fn finite_in_scale(keys: Seq<u32>, lo: int, key: int, scale: usize, i: int) -> bool {
    0 <= i < keys.len() && in_scale_spec(lo + i, key, scale) && keys[i] < INFINITY_BITS
}

/// Candidate `i` is the snap target: in the scale, with a finite key no
/// greater than that of any candidate in the scale, and strictly smaller than
/// the key of every earlier candidate in the scale (ties go to the lower note).
pub open spec fn best_candidate(keys: Seq<u32>, lo: int, key: int, scale: usize, i: int) -> bool {
    &&& finite_in_scale(keys, lo, key, scale, i)
    &&& forall|j: int|
        0 <= j < keys.len() && in_scale_spec(lo + j, key, scale) ==> keys[i] <= #[trigger] keys[j]
    &&& forall|j: int|
        0 <= j < i && in_scale_spec(lo + j, key, scale) ==> keys[i] < #[trigger] keys[j]
}

/// Some candidate of the scale has a finite distance key.
pub open spec fn some_finite_in_scale(keys: Seq<u32>, lo: int, key: int, scale: usize) -> bool {
    exists|i: int| #[trigger] finite_in_scale(keys, lo, key, scale, i)
}

/// Picks the note of the scale nearest to a detected pitch.
///
/// The candidates are the notes `lo, lo + 1, ..., lo + 24` (the floor of the
/// pitch and `SEARCH_RADIUS` notes on each side); `distance_keys[i]` is the
/// `f32` bit pattern of the distance between candidate `lo + i` and the pitch.
/// The result is the candidate of the scale with the smallest finite key, the
/// lowest one on a tie, or `fallback` (the pitch rounded) when no candidate of
/// the scale has a finite distance.
pub fn nearest_in_scale(lo: i32, distance_keys: &Vec<u32>, fallback: i32, key: i32, scale: usize) -> (r: i32)
    requires
        distance_keys@.len() == SEARCH_SPAN,
        lo + 24 <= i32::MAX,
    ensures
        some_finite_in_scale(distance_keys@, lo as int, key as int, scale) ==> best_candidate(
            distance_keys@,
            lo as int,
            key as int,
            scale,
            r - lo,
        ),
        !some_finite_in_scale(distance_keys@, lo as int, key as int, scale) ==> r == fallback,
{
    let ghost keys = distance_keys@;
    let mut best: i32 = fallback;
    let mut best_key: u32 = INFINITY_BITS;
    let mut found: bool = false;
    let mut i: usize = 0;
    while i < SEARCH_SPAN
        invariant
            keys == distance_keys@,
            keys.len() == SEARCH_SPAN,
            lo + 24 <= i32::MAX,
            i <= SEARCH_SPAN,
            !found ==> best == fallback && best_key == INFINITY_BITS,
            !found ==> forall|j: int|
                0 <= j < i ==> !(#[trigger] finite_in_scale(keys, lo as int, key as int, scale, j)),
            found ==> {
                let b: int = best - lo;
                &&& 0 <= b < i
                &&& finite_in_scale(keys, lo as int, key as int, scale, b)
                &&& keys[b] == best_key
                &&& forall|j: int|
                    0 <= j < i && in_scale_spec(lo + j, key as int, scale) ==> best_key
                        <= #[trigger] keys[j]
                &&& forall|j: int|
                    0 <= j < b && in_scale_spec(lo + j, key as int, scale) ==> best_key
                        < #[trigger] keys[j]
            },
        decreases SEARCH_SPAN - i,
    {
        let candidate: i32 = lo + i as i32;
        if in_scale(candidate, key, scale) {
            let k: u32 = distance_keys[i];
            if k < best_key {
                assert forall|j: int|
                    0 <= j < i && in_scale_spec(lo + j, key as int, scale) implies k
                    < #[trigger] keys[j] by {
                    if !found {
                        assert(!finite_in_scale(keys, lo as int, key as int, scale, j));
                    }
                }
                best_key = k;
                best = candidate;
                found = true;
            }
        }
        i = i + 1;
    }
    if !found {
        assert forall|j: int| !(#[trigger] finite_in_scale(keys, lo as int, key as int, scale, j)) by {
            if 0 <= j < SEARCH_SPAN {
            }
        }
    }
    best
}

/// The name of a MIDI note: pitch-class letter(s) followed by the octave,
/// where note 60 is "C4" and 69 is "A4".
pub fn note_name(note: i32) -> (r: String)
    ensures
        r@ == NOTE_NAMES[pitch_class_of(note as int)]@ + decimal_int(note / 12 - 1),
{
    let pc: i32 = pitch_class(note);
    let octave: i64 = (note as i64 - pc as i64) / 12 - 1;
    assert(octave == note / 12 - 1) by {
        vstd::arithmetic::div_mod::lemma_fundamental_div_mod(note as int, 12);
    }
    let mut s = NOTE_NAMES[pc as usize].to_owned();
    push_decimal_int(&mut s, octave);
    s
}

/// Law: the snap target is unique, so a snap has one answer.
pub proof fn law_snap_target_unique(keys: Seq<u32>, lo: int, key: int, scale: usize, i: int, j: int)
    requires
        best_candidate(keys, lo, key, scale, i),
        best_candidate(keys, lo, key, scale, j),
    ensures
        i == j,
{
    if i < j {
        assert(keys[j] < keys[i]);
        assert(keys[j] <= keys[i]);
    } else if j < i {
        assert(keys[i] < keys[j]);
    }
}

/// Law: a pitch sitting exactly on a note of the scale (distance key 0 for
/// that candidate, nonzero for every other) snaps to that note.
pub proof fn law_snap_keeps_scale_note(keys: Seq<u32>, lo: int, key: int, scale: usize, i: int)
    requires
        keys.len() == SEARCH_SPAN,
        0 <= i < keys.len(),
        in_scale_spec(lo + i, key, scale),
        keys[i] == 0,
        forall|j: int| 0 <= j < keys.len() && j != i ==> #[trigger] keys[j] > 0,
    ensures
        some_finite_in_scale(keys, lo, key, scale),
        best_candidate(keys, lo, key, scale, i),
{
    assert(finite_in_scale(keys, lo, key, scale, i));
}

/// Law: the chromatic scale holds every note, whatever the key.
pub proof fn law_chromatic_holds_every_note(n: int, key: int)
    ensures
        in_scale_spec(n, key, 0),
{
    let d: int = (n - key) % 12;
    assert(0 <= d < 12);
    assert(scale_steps_spec(0)[d] == d as i32);
}

/// Law: scale membership repeats every octave and moves with the key: a note
/// raised by `t` semitones is in the scale on a key raised by `t` exactly when
/// the untransposed note is in the untransposed scale, and a note an octave up is in
/// the same scale as the note itself.
pub proof fn law_scale_transposes(n: int, key: int, t: int, scale: usize)
    ensures
        in_scale_spec(n + t, key + t, scale) == in_scale_spec(n, key, scale),
        in_scale_spec(n + 12, key, scale) == in_scale_spec(n, key, scale),
{
    assert((n + t) - (key + t) == n - key);
    vstd::arithmetic::div_mod::lemma_mod_add_multiples_vanish(n - key, 12);
    assert((n + 12) - key == 12 + (n - key));
}

/// Law: the scale a stored number selects is the smaller of that number and
/// 2; a number the picker offers (chromatic 0, major 1, minor 2) selects
/// itself, and selecting twice changes nothing.
pub proof fn law_scale_index_is_min(s: usize)
    ensures
        s <= 2 ==> scale_index(s) == s,
        s > 2 ==> scale_index(s) == 2,
        scale_index(s) <= 2,
        scale_index(s) <= s,
        scale_index(scale_index(s)) == scale_index(s),
{
}

/// Law: a note an octave up has the same letter name and the next octave
/// number.
pub proof fn law_note_name_octave(n: int)
    ensures
        pitch_class_of(n + 12) == pitch_class_of(n),
        (n + 12) / 12 - 1 == (n / 12 - 1) + 1,
{
    vstd::arithmetic::div_mod::lemma_mod_add_multiples_vanish(n, 12);
    vstd::arithmetic::div_mod::lemma_div_plus_one(n, 12);
    assert(n + 12 == 12 + n);
}

} // verus!
