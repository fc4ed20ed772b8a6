//! Audio device names: which ones are virtual cables or loopback inputs,
//! the order in which playback devices are listed, and which device the
//! Discord send goes to.
use vstd::prelude::*;

use crate::text::{
    ascii_lower, chars_le, chars_le_exec, chars_of, contains_chars, has_infix, lower_chars,
    lemma_chars_le_antisymmetric, lemma_chars_le_reflexive, lemma_chars_le_total,
    lemma_chars_le_transitive,
};

verus! {

/// A playback endpoint as shown in the device picker.
#[derive(Clone)]
pub struct PlaybackDevice {
    pub id: String,
    pub name: String,
    pub looks_virtual: bool,
}

/// The name, folded to ASCII lower case, mentions one of the usual virtual
/// audio cable products.
pub open spec fn names_virtual_cable(name: Seq<char>) -> bool {
    let lower = ascii_lower(name);
    has_infix(lower, "cable input"@) || has_infix(lower, "vb-audio"@) || has_infix(
        lower,
        "voicemeeter"@,
    ) || has_infix(lower, "virtual cable"@) || has_infix(lower, "virtual audio"@) || has_infix(
        lower,
        "line 1"@,
    )
}

/// The name, folded to ASCII lower case, mentions one of the usual names of a
/// "what you hear" loopback recording input.
pub open spec fn names_stereo_mix(name: Seq<char>) -> bool {
    let lower = ascii_lower(name);
    has_infix(lower, "stereo mix"@) || has_infix(lower, "what u hear"@) || has_infix(
        lower,
        "wave out mix"@,
    ) || has_infix(lower, "waveoutmix"@) || has_infix(lower, "rec. playback"@) || has_infix(
        lower,
        "loopback"@,
    )
}

fn mentions(lower: &Vec<char>, marker: &str) -> (r: bool)
    ensures
        r == has_infix(lower@, marker@),
{
    let m = chars_of(marker);
    contains_chars(lower, &m)
}

/// Whether a playback device with this name looks like a virtual audio cable.
pub fn is_virtual_cable_name(name: &str) -> (r: bool)
    ensures
        r == names_virtual_cable(name@),
        r == (has_infix(ascii_lower(name@), "cable input"@) || has_infix(ascii_lower(name@), "vb-audio"@)
            || has_infix(ascii_lower(name@), "voicemeeter"@) || has_infix(ascii_lower(name@), "virtual cable"@)
            || has_infix(ascii_lower(name@), "virtual audio"@) || has_infix(ascii_lower(name@), "line 1"@)),
{
    let lower = lower_chars(name);
    mentions(&lower, "cable input") || mentions(&lower, "vb-audio") || mentions(
        &lower,
        "voicemeeter",
    ) || mentions(&lower, "virtual cable") || mentions(&lower, "virtual audio") || mentions(
        &lower,
        "line 1",
    )
}

/// Whether a capture device with this name looks like a loopback input
/// ("Stereo Mix" and its vendor-specific spellings).
pub fn is_stereo_mix_name(name: &str) -> (r: bool)
    ensures
        r == names_stereo_mix(name@),
        r == (has_infix(ascii_lower(name@), "stereo mix"@) || has_infix(ascii_lower(name@), "what u hear"@)
            || has_infix(ascii_lower(name@), "wave out mix"@) || has_infix(ascii_lower(name@), "waveoutmix"@)
            || has_infix(ascii_lower(name@), "rec. playback"@) || has_infix(ascii_lower(name@), "loopback"@)),
{
    let lower = lower_chars(name);
    mentions(&lower, "stereo mix") || mentions(&lower, "what u hear") || mentions(
        &lower,
        "wave out mix",
    ) || mentions(&lower, "waveoutmix") || mentions(&lower, "rec. playback") || mentions(
        &lower,
        "loopback",
    )
}

/// A device entry for an endpoint with this id and friendly name; it is
/// marked virtual exactly when its name looks like a virtual cable.
pub fn playback_device(id: String, name: String) -> (r: PlaybackDevice)
    ensures
        r.id == id,
        r.name == name,
        r.looks_virtual == names_virtual_cable(name@),
{
    let looks_virtual = is_virtual_cable_name(name.as_str());
    PlaybackDevice { id, name, looks_virtual }
}

/// Listing order of playback devices: virtual cables first, then by name
/// (`String` order); `device_le(a, b)` says `a` may stand before `b`.
pub open spec fn device_le(a: PlaybackDevice, b: PlaybackDevice) -> bool {
    (a.looks_virtual && !b.looks_virtual) || (a.looks_virtual == b.looks_virtual && chars_le(
        a.name@,
        b.name@,
    ))
}

/// Two devices that the listing order does not tell apart.
pub open spec fn same_rank(a: PlaybackDevice, b: PlaybackDevice) -> bool {
    a.looks_virtual == b.looks_virtual && a.name@ == b.name@
}

/// Every device may stand before every later one.
pub open spec fn devices_sorted(s: Seq<PlaybackDevice>) -> bool {
    forall|a: int, b: int| 0 <= a < b < s.len() ==> device_le(#[trigger] s[a], #[trigger] s[b])
}

/// `perm` lists each index below `n` exactly once.
pub open spec fn is_index_permutation(perm: Seq<int>, n: nat) -> bool {
    &&& perm.len() == n
    &&& forall|k: int| 0 <= k < n ==> 0 <= #[trigger] perm[k] < n
    &&& forall|a: int, b: int| 0 <= a < b < n ==> #[trigger] perm[a] != #[trigger] perm[b]
}

/// `out` is `input` rearranged by `perm` (`out[k]` is `input[perm[k]]`),
/// and devices of the same rank keep their relative order.
pub open spec fn stable_rearrangement(
    out: Seq<PlaybackDevice>,
    input: Seq<PlaybackDevice>,
    perm: Seq<int>,
) -> bool {
    &&& out.len() == input.len()
    &&& is_index_permutation(perm, input.len())
    &&& forall|k: int| 0 <= k < out.len() ==> #[trigger] out[k] == input[perm[k]]
    &&& forall|a: int, b: int|
        0 <= a < b < out.len() && same_rank(#[trigger] out[a], #[trigger] out[b]) ==> perm[a]
            < perm[b]
}

/// The listing order is total.
pub proof fn lemma_device_le_total(a: PlaybackDevice, b: PlaybackDevice)
    ensures
        device_le(a, b) || device_le(b, a),
{
    lemma_chars_le_total(a.name@, b.name@);
}

/// The listing order is transitive.
pub proof fn lemma_device_le_transitive(a: PlaybackDevice, b: PlaybackDevice, c: PlaybackDevice)
    requires
        device_le(a, b),
        device_le(b, c),
    ensures
        device_le(a, c),
{
    if a.looks_virtual == b.looks_virtual && b.looks_virtual == c.looks_virtual {
        lemma_chars_le_transitive(a.name@, b.name@, c.name@);
    }
}

/// Devices of the same rank may stand either way round.
pub proof fn lemma_same_rank_le(a: PlaybackDevice, b: PlaybackDevice)
    requires
        same_rank(a, b),
    ensures
        device_le(a, b),
        device_le(b, a),
{
    lemma_chars_le_reflexive(a.name@);
}

fn device_le_exec(a: &PlaybackDevice, b: &PlaybackDevice) -> (r: bool)
    ensures
        r == device_le(*a, *b),
{
    if a.looks_virtual != b.looks_virtual {
        a.looks_virtual
    } else {
        let an = chars_of(a.name.as_str());
        let bn = chars_of(b.name.as_str());
        chars_le_exec(&an, &bn)
    }
}

/// The devices in listing order: virtual cables first, then by name, devices
/// of the same rank in the order they were given (a stable sort).
pub fn sort_playback_devices(devices: Vec<PlaybackDevice>) -> (r: Vec<PlaybackDevice>)
    ensures
        devices_sorted(r@),
        exists|perm: Seq<int>| stable_rearrangement(r@, devices@, perm),
{
    let ghost input = devices@;
    let ghost n: nat = devices@.len();
    let mut rest = devices;
    let mut out: Vec<PlaybackDevice> = Vec::new();
    let ghost mut perm: Seq<int> = Seq::empty();
    while rest.len() > 0
        invariant
            rest@ == input.take(rest@.len() as int),
            rest@.len() <= n,
            n == input.len(),
            out@.len() + rest@.len() == n,
            devices_sorted(out@),
            perm.len() == out@.len(),
            forall|k: int| 0 <= k < out@.len() ==> rest@.len() <= #[trigger] perm[k] < n,
            forall|a: int, b: int|
                0 <= a < b < out@.len() ==> #[trigger] perm[a] != #[trigger] perm[b],
            forall|k: int| 0 <= k < out@.len() ==> #[trigger] out@[k] == input[perm[k]],
            forall|a: int, b: int|
                0 <= a < b < out@.len() && same_rank(#[trigger] out@[a], #[trigger] out@[b])
                    ==> perm[a] < perm[b],
        decreases rest@.len(),
    {
        let x = rest.pop().unwrap();
        let ghost i: int = rest@.len() as int;
        assert(x == input[i]);
        assert(rest@ =~= input.take(i));
        let mut j: usize = 0;
        while j < out.len() && !device_le_exec(&x, &out[j])
            invariant
                j <= out@.len(),
                forall|k: int| 0 <= k < j ==> !device_le(x, #[trigger] out@[k]),
            decreases out@.len() - j,
        {
            j = j + 1;
        }
        let ghost old_out = out@;
        let ghost old_perm = perm;
        proof {
            perm = old_perm.insert(j as int, i);
        }
        out.insert(j, x);
        assert forall|k: int| 0 <= k < out@.len() implies #[trigger] out@[k] == input[perm[k]] by {
            if k < j {
                assert(out@[k] == old_out[k]);
                assert(perm[k] == old_perm[k]);
            } else if k > j {
                assert(out@[k] == old_out[k - 1]);
                assert(perm[k] == old_perm[k - 1]);
            }
        }
        assert forall|k: int| 0 <= k < out@.len() implies rest@.len() <= #[trigger] perm[k] < n by {
            if k < j {
                assert(perm[k] == old_perm[k]);
            } else if k > j {
                assert(perm[k] == old_perm[k - 1]);
            }
        }
        assert forall|a: int, b: int| 0 <= a < b < out@.len() implies #[trigger] perm[a]
            != #[trigger] perm[b] by {
            if a < j {
                assert(perm[a] == old_perm[a]);
            } else if a > j {
                assert(perm[a] == old_perm[a - 1]);
            }
            if b < j {
                assert(perm[b] == old_perm[b]);
            } else if b > j {
                assert(perm[b] == old_perm[b - 1]);
            }
        }
        assert forall|a: int, b: int| 0 <= a < b < out@.len() implies device_le(
            #[trigger] out@[a],
            #[trigger] out@[b],
        ) by {
            if b < j {
                assert(out@[a] == old_out[a] && out@[b] == old_out[b]);
            } else if a > j {
                assert(out@[a] == old_out[a - 1] && out@[b] == old_out[b - 1]);
            } else if a == j {
                assert(out@[b] == old_out[b - 1]);
                assert(device_le(x, old_out[j as int]));
                if b - 1 > j {
                    lemma_device_le_transitive(x, old_out[j as int], old_out[b - 1]);
                }
            } else if b == j {
                assert(out@[a] == old_out[a]);
                assert(!device_le(x, old_out[a]));
                lemma_device_le_total(x, old_out[a]);
            } else {
                assert(out@[a] == old_out[a] && out@[b] == old_out[b - 1]);
            }
        }
        assert forall|a: int, b: int|
            0 <= a < b < out@.len() && same_rank(#[trigger] out@[a], #[trigger] out@[b])
            implies perm[a] < perm[b] by {
            if b < j {
                assert(out@[a] == old_out[a] && out@[b] == old_out[b]);
                assert(perm[a] == old_perm[a] && perm[b] == old_perm[b]);
            } else if a > j {
                assert(out@[a] == old_out[a - 1] && out@[b] == old_out[b - 1]);
                assert(perm[a] == old_perm[a - 1] && perm[b] == old_perm[b - 1]);
            } else if a == j {
                assert(perm[b] == old_perm[b - 1]);
            } else if b == j {
                assert(out@[a] == old_out[a]);
                lemma_same_rank_le(x, old_out[a]);
            } else {
                assert(out@[a] == old_out[a] && out@[b] == old_out[b - 1]);
                assert(perm[a] == old_perm[a] && perm[b] == old_perm[b - 1]);
            }
        }
    }
    assert(stable_rearrangement(out@, input, perm));
    out
}

/// Index of the first device that looks like a virtual cable.
pub open spec fn first_virtual_index(devices: Seq<PlaybackDevice>) -> int {
    choose|k: int|
        0 <= k < devices.len() && devices[k].looks_virtual && forall|j: int|
            0 <= j < k ==> !(#[trigger] devices[j]).looks_virtual
}

/// Some device in the list looks like a virtual cable.
pub open spec fn any_virtual(devices: Seq<PlaybackDevice>) -> bool {
    exists|k: int| 0 <= k < devices.len() && (#[trigger] devices[k]).looks_virtual
}

/// The id of the first virtual-cable device in the list, if there is one;
/// it is the device the Discord send defaults to.
pub fn first_virtual_device_id(devices: &Vec<PlaybackDevice>) -> (r: Option<String>)
    ensures
        r is None <==> !any_virtual(devices@),
        r matches Some(id) ==> {
            let k = first_virtual_index(devices@);
            &&& 0 <= k < devices@.len()
            &&& devices@[k].looks_virtual
            &&& forall|j: int| 0 <= j < k ==> !(#[trigger] devices@[j]).looks_virtual
            &&& id == devices@[k].id
        },
{
    let mut i: usize = 0;
    while i < devices.len()
        invariant
            i <= devices@.len(),
            forall|j: int| 0 <= j < i ==> !(#[trigger] devices@[j]).looks_virtual,
        decreases devices@.len() - i,
    {
        if devices[i].looks_virtual {
            let ghost k: int = first_virtual_index(devices@);
            assert(0 <= k < devices@.len() && devices@[k].looks_virtual && forall|j: int|
                0 <= j < k ==> !(#[trigger] devices@[j]).looks_virtual) by {
                assert(devices@[i as int].looks_virtual);
            }
            assert(k == i) by {
                if k < i {
                    assert(!devices@[k].looks_virtual);
                }
                if k > i {
                    assert(!devices@[i as int].looks_virtual);
                }
            }
            return Some(devices[i].id.clone());
        }
        i = i + 1;
    }
    None
}

/// Whether any listed device looks like a virtual cable.
pub fn has_virtual_device(devices: &Vec<PlaybackDevice>) -> (r: bool)
    ensures
        r == any_virtual(devices@),
{
    first_virtual_device_id(devices).is_some()
}

/// Some virtual-cable device in the list has this id.
pub open spec fn is_virtual_id(devices: Seq<PlaybackDevice>, id: Seq<char>) -> bool {
    exists|k: int|
        0 <= k < devices.len() && (#[trigger] devices[k]).id@ == id && devices[k].looks_virtual
}

/// The device the Discord send is routed to: the chosen id when it names a
/// listed virtual cable, otherwise the empty id (no cable).
pub fn cable_device_id(devices: &Vec<PlaybackDevice>, chosen: &String) -> (r: String)
    ensures
        r@ == (if is_virtual_id(devices@, chosen@) {
            chosen@
        } else {
            Seq::<char>::empty()
        }),
{
    let mut i: usize = 0;
    while i < devices.len()
        invariant
            i <= devices@.len(),
            forall|j: int|
                0 <= j < i ==> !((#[trigger] devices@[j]).id@ == chosen@
                    && devices@[j].looks_virtual),
        decreases devices@.len() - i,
    {
        if devices[i].id == *chosen && devices[i].looks_virtual {
            assert(devices@[i as int].id@ == chosen@);
            return devices[i].id.clone();
        }
        i = i + 1;
    }
    String::new()
}

/// Some listed device has this id; `label_index` is the first such.
pub open spec fn has_id(devices: Seq<PlaybackDevice>, id: Seq<char>) -> bool {
    exists|k: int| 0 <= k < devices.len() && (#[trigger] devices[k]).id@ == id
}

/// Index of the first device with this id.
pub open spec fn label_index(devices: Seq<PlaybackDevice>, id: Seq<char>) -> int {
    choose|k: int|
        0 <= k < devices.len() && devices[k].id@ == id && forall|j: int|
            0 <= j < k ==> (#[trigger] devices[j]).id@ != id
}

/// The name shown for the chosen cable in the picker: the name of the first
/// device with that id, or "Cable" when no device has it.
pub fn cable_label(devices: &Vec<PlaybackDevice>, chosen: &String) -> (r: String)
    ensures
        !has_id(devices@, chosen@) ==> r@ == "Cable"@,
        has_id(devices@, chosen@) ==> {
            let k = label_index(devices@, chosen@);
            &&& 0 <= k < devices@.len()
            &&& devices@[k].id@ == chosen@
            &&& forall|j: int| 0 <= j < k ==> (#[trigger] devices@[j]).id@ != chosen@
            &&& r@ == devices@[k].name@
        },
{
    let mut i: usize = 0;
    while i < devices.len()
        invariant
            i <= devices@.len(),
            forall|j: int| 0 <= j < i ==> (#[trigger] devices@[j]).id@ != chosen@,
        decreases devices@.len() - i,
    {
        if devices[i].id == *chosen {
            let ghost k: int = label_index(devices@, chosen@);
            assert(0 <= k < devices@.len() && devices@[k].id@ == chosen@ && forall|j: int|
                0 <= j < k ==> (#[trigger] devices@[j]).id@ != chosen@) by {
                assert(devices@[i as int].id@ == chosen@);
            }
            assert(k == i) by {
                if k < i {
                    assert(devices@[k].id@ != chosen@);
                }
                if k > i {
                    assert(devices@[i as int].id@ != chosen@);
                }
            }
            return devices[i].name.clone();
        }
        i = i + 1;
    }
    "Cable".to_owned()
}

/// The first capture-device name that looks like a loopback input.
pub fn first_stereo_mix_name(names: Vec<String>) -> (r: Option<String>)
    ensures
        r is None <==> forall|k: int| 0 <= k < names@.len() ==> !names_stereo_mix(#[trigger] names@[k]@),
        r matches Some(name) ==> exists|k: int|
            0 <= k < names@.len() && names@[k] == name && names_stereo_mix(name@) && forall|j: int|
                0 <= j < k ==> !names_stereo_mix(#[trigger] names@[j]@),
{
    let mut i: usize = 0;
    while i < names.len()
        invariant
            i <= names@.len(),
            forall|j: int| 0 <= j < i ==> !names_stereo_mix(#[trigger] names@[j]@),
        decreases names@.len() - i,
    {
        if is_stereo_mix_name(names[i].as_str()) {
            let found = names[i].clone();
            assert(names@[i as int] == found);
            return Some(found);
        }
        i = i + 1;
    }
    None
}

/// Law: name matching ignores ASCII case: two names that agree once folded
/// to lower case get the same verdicts, and folding a name first changes
/// nothing.
pub proof fn law_name_matching_ignores_case(a: Seq<char>, b: Seq<char>)
    requires
        ascii_lower(a) == ascii_lower(b),
    ensures
        names_virtual_cable(a) == names_virtual_cable(b),
        names_stereo_mix(a) == names_stereo_mix(b),
        names_virtual_cable(ascii_lower(a)) == names_virtual_cable(a),
        names_stereo_mix(ascii_lower(a)) == names_stereo_mix(a),
{
    assert(ascii_lower(ascii_lower(a)) =~= ascii_lower(a));
}

/// Law: a device name is taken for a virtual cable exactly when, folded to
/// lower case, it contains one of the six markers "cable input", "vb-audio",
/// "voicemeeter", "virtual cable", "virtual audio" or "line 1"; a name with
/// none of them (an ordinary headset or speaker) is not.
pub proof fn law_virtual_cable_markers(name: Seq<char>)
    ensures
        names_virtual_cable(name) == (has_infix(ascii_lower(name), "cable input"@) || has_infix(ascii_lower(name), "vb-audio"@)
            || has_infix(ascii_lower(name), "voicemeeter"@) || has_infix(ascii_lower(name), "virtual cable"@)
            || has_infix(ascii_lower(name), "virtual audio"@) || has_infix(ascii_lower(name), "line 1"@)),
        !has_infix(ascii_lower(name), "cable input"@) && !has_infix(ascii_lower(name), "vb-audio"@)
            && !has_infix(ascii_lower(name), "voicemeeter"@) && !has_infix(ascii_lower(name), "virtual cable"@)
            && !has_infix(ascii_lower(name), "virtual audio"@) && !has_infix(ascii_lower(name), "line 1"@)
            ==> !names_virtual_cable(name),
{
}

/// Law: a capture name is taken for a loopback input exactly when, folded to
/// lower case, it contains one of "stereo mix", "what u hear", "wave out mix",
/// "waveoutmix", "rec. playback" or "loopback"; a name with none of them (a
/// line or microphone input) is not.
pub proof fn law_stereo_mix_markers(name: Seq<char>)
    ensures
        names_stereo_mix(name) == (has_infix(ascii_lower(name), "stereo mix"@) || has_infix(ascii_lower(name), "what u hear"@)
            || has_infix(ascii_lower(name), "wave out mix"@) || has_infix(ascii_lower(name), "waveoutmix"@)
            || has_infix(ascii_lower(name), "rec. playback"@) || has_infix(ascii_lower(name), "loopback"@)),
        !has_infix(ascii_lower(name), "stereo mix"@) && !has_infix(ascii_lower(name), "what u hear"@)
            && !has_infix(ascii_lower(name), "wave out mix"@) && !has_infix(ascii_lower(name), "waveoutmix"@)
            && !has_infix(ascii_lower(name), "rec. playback"@) && !has_infix(ascii_lower(name), "loopback"@)
            ==> !names_stereo_mix(name),
{
}

/// Law: in the listing order no ordinary output comes before a virtual
/// cable.
pub proof fn law_virtual_cables_listed_first(s: Seq<PlaybackDevice>, i: int, j: int)
    requires
        devices_sorted(s),
        0 <= i < j < s.len(),
        s[j].looks_virtual,
    ensures
        s[i].looks_virtual,
{
    assert(device_le(s[i], s[j]));
}

/// Every index below `n` occurs in an index permutation of length `n`.
proof fn lemma_permutation_onto(perm: Seq<int>, n: nat, v: int)
    requires
        is_index_permutation(perm, n),
        0 <= v < n,
    ensures
        exists|k: int| 0 <= k < n && perm[k] == v,
{
    let x = vstd::set_lib::set_int_range(0, n as int);
    let f = |i: int| perm[i];
    vstd::set_lib::lemma_int_range(0, n as int);
    let y = x.map(f);
    assert(vstd::relations::injective_on(f, x)) by {
        assert forall|a: int, b: int|
            x.contains(a) && x.contains(b) && #[trigger] f(a) == #[trigger] f(b) implies a == b by {
            if a < b {
                assert(perm[a] != perm[b]);
            } else if b < a {
                assert(perm[b] != perm[a]);
            }
        }
    }
    vstd::set_lib::lemma_map_size(x, y, f);
    assert(y.subset_of(x)) by {
        assert forall|w: int| y.contains(w) implies x.contains(w) by {
            let a = choose|a: int| x.contains(a) && f(a) == w;
            assert(0 <= perm[a] < n);
        }
    }
    vstd::set_lib::lemma_subset_equality(y, x);
    assert(x.contains(v));
    assert(y.contains(v));
    let a = choose|a: int| x.contains(a) && f(a) == v;
    assert(0 <= a < n && perm[a] == v);
}

proof fn lemma_le_both_ways_same_rank(a: PlaybackDevice, b: PlaybackDevice)
    requires
        device_le(a, b),
        device_le(b, a),
    ensures
        same_rank(a, b),
{
    if a.looks_virtual == b.looks_virtual {
        lemma_chars_le_antisymmetric(a.name@, b.name@);
    }
}

proof fn lemma_stable_positions_agree(
    input: Seq<PlaybackDevice>,
    out1: Seq<PlaybackDevice>,
    perm1: Seq<int>,
    out2: Seq<PlaybackDevice>,
    perm2: Seq<int>,
    k: int,
)
    requires
        devices_sorted(out1),
        stable_rearrangement(out1, input, perm1),
        devices_sorted(out2),
        stable_rearrangement(out2, input, perm2),
        0 <= k <= input.len(),
    ensures
        forall|t: int| 0 <= t < k ==> perm1[t] == perm2[t],
    decreases k,
{
    if k > 0 {
        lemma_stable_positions_agree(input, out1, perm1, out2, perm2, k - 1);
        let n = input.len();
        let t = k - 1;
        let a = perm1[t];
        let b = perm2[t];
        if a != b {
            lemma_permutation_onto(perm2, n, a);
            let k2 = choose|j: int| 0 <= j < n && perm2[j] == a;
            lemma_permutation_onto(perm1, n, b);
            let k1 = choose|j: int| 0 <= j < n && perm1[j] == b;
            if k2 < t {
                assert(perm1[k2] == perm2[k2]);
                assert(perm1[k2] != perm1[t]);
            }
            if k1 < t {
                assert(perm1[k1] == perm2[k1]);
                assert(perm2[k1] != perm2[t]);
            }
            assert(k2 > t && k1 > t);
            assert(out1[t] == input[a] && out1[k1] == input[b]);
            assert(out2[t] == input[b] && out2[k2] == input[a]);
            assert(device_le(out1[t], out1[k1]));
            assert(device_le(out2[t], out2[k2]));
            lemma_le_both_ways_same_rank(input[a], input[b]);
            assert(same_rank(out1[t], out1[k1]));
            assert(same_rank(out2[t], out2[k2]));
            assert(perm1[t] < perm1[k1]);
            assert(perm2[t] < perm2[k2]);
        }
    }
}

/// Law: the listing order leaves no choice: any two stable arrangements of
/// the same devices in listing order are equal, so sorting has exactly one
/// possible result.
pub proof fn law_listing_is_unique(
    input: Seq<PlaybackDevice>,
    out1: Seq<PlaybackDevice>,
    perm1: Seq<int>,
    out2: Seq<PlaybackDevice>,
    perm2: Seq<int>,
)
    requires
        devices_sorted(out1),
        stable_rearrangement(out1, input, perm1),
        devices_sorted(out2),
        stable_rearrangement(out2, input, perm2),
    ensures
        out1 == out2,
{
    lemma_stable_positions_agree(input, out1, perm1, out2, perm2, input.len() as int);
    assert forall|k: int| 0 <= k < out1.len() implies out1[k] == out2[k] by {
        assert(perm1[k] == perm2[k]);
    }
    assert(out1 =~= out2);
}

} // verus!
