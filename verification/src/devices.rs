//! Which configured GPU is which device of the HIP runtime.
//!
//! GPUs are identified by their PCI address. The HIP runtime writes it bare
//! (`0000:75:00.0`), the hypervisor with a prefix (`amd-gpu-0000:75:00.0`), and the
//! provider with the prefix in capitals (`AMD-GPU-0000:75:00.0`).
use crate::text::{
    ascii, ascii_lowered, lowercased, same_text, strip_prefix, texts, to_lowercase,
    without_prefix,
};
use vstd::prelude::*;

verus! {

/// The PCI address in the identifier of a GPU.
pub open spec fn bdf_of(uuid: Seq<char>) -> Seq<char> {
    without_prefix(lowercased(uuid), "amd-gpu-"@)
}

/// The PCI address in an identifier that is ASCII only.
pub open spec fn ascii_bdf_of(uuid: Seq<char>) -> Seq<char> {
    without_prefix(ascii_lowered(uuid), "amd-gpu-"@)
}

/// The PCI address in the identifier of a GPU: all in lower case, without the
/// prefix `amd-gpu-`.
pub fn normalize_uuid_to_bdf(uuid: &str) -> (bdf: String)
    ensures
        bdf@ == bdf_of(uuid@),
        ascii(uuid@) ==> bdf@ == ascii_bdf_of(uuid@),
{
    let lowered = to_lowercase(uuid);
    strip_prefix(lowered.as_str(), "amd-gpu-")
}

/// A device ordinal as an index; a negative one wraps around.
pub open spec fn index_of(ordinal: i32) -> usize {
    (if ordinal >= 0 {
        ordinal as int
    } else {
        usize::MAX + 1 + ordinal
    }) as usize
}

/// A device ordinal as an index; a negative one wraps around.
pub fn device_index(ordinal: i32) -> (index: usize)
    ensures
        index == index_of(ordinal),
        ordinal >= 0 ==> index == ordinal,
{
    if ordinal >= 0 {
        ordinal as usize
    } else {
        let distance: i64 = -(ordinal as i64) - 1;
        usize::MAX - distance as usize
    }
}

/// Device ordinals with the characters of their PCI addresses.
pub open spec fn enumeration(devices: Seq<(i32, String)>) -> Seq<(i32, Seq<char>)> {
    Seq::new(devices.len(), |i: int| (devices[i].0, devices[i].1@))
}

/// Device indices with the characters of their identifiers.
pub open spec fn indexed(pairs: Seq<(usize, String)>) -> Seq<(usize, Seq<char>)> {
    Seq::new(pairs.len(), |i: int| (pairs[i].0, pairs[i].1@))
}

/// Devices with their PCI addresses in lower case, as `lower` makes it.
pub open spec fn lowered_devices(
    devices: Seq<(i32, Seq<char>)>,
    lower: spec_fn(Seq<char>) -> Seq<char>,
) -> Seq<(i32, Seq<char>)> {
    Seq::new(devices.len(), |i: int| (devices[i].0, lower(devices[i].1)))
}

/// The PCI addresses in identifiers, with lower case as `lower` makes it.
pub open spec fn bdfs_by(
    uuids: Seq<Seq<char>>,
    lower: spec_fn(Seq<char>) -> Seq<char>,
) -> Seq<Seq<char>> {
    Seq::new(uuids.len(), |i: int| without_prefix(lower(uuids[i]), "amd-gpu-"@))
}

/// Lower case by the rules of Unicode.
pub open spec fn unicode_lower() -> spec_fn(Seq<char>) -> Seq<char> {
    |s: Seq<char>| lowercased(s)
}

/// Lower case of ASCII texts.
pub open spec fn ascii_only_lower() -> spec_fn(Seq<char>) -> Seq<char> {
    |s: Seq<char>| ascii_lowered(s)
}

/// The index of the first device at a PCI address.
pub open spec fn device_at(devices: Seq<(i32, Seq<char>)>, bdf: Seq<char>) -> Option<usize>
    decreases devices.len(),
{
    if devices.len() == 0 {
        None
    } else if devices[0].1 == bdf {
        Some(index_of(devices[0].0))
    } else {
        device_at(devices.skip(1), bdf)
    }
}

/// `r` names each device at one of the PCI addresses once, in the order of the indices,
/// each with the identifier of the first address that leads to it.
pub open spec fn is_resolution(
    uuids: Seq<Seq<char>>,
    bdfs: Seq<Seq<char>>,
    devices: Seq<(i32, Seq<char>)>,
    r: Seq<(usize, Seq<char>)>,
) -> bool {
    &&& forall|k: int, l: int| 0 <= k < l < r.len() ==> (#[trigger] r[k]).0 < (#[trigger] r[l]).0
    &&& forall|k: int|
        0 <= k < r.len() ==> is_first_naming(uuids, bdfs, devices, (#[trigger] r[k]).1, r[k].0)
    &&& forall|j: int|
        0 <= j < bdfs.len() ==> (device_at(devices, #[trigger] bdfs[j]) matches Some(d)
            ==> exists|k: int| 0 <= k < r.len() && (#[trigger] r[k]).0 == d)
}

/// `uuid` is the identifier of the first of the PCI addresses that leads to the device.
pub open spec fn is_first_naming(
    uuids: Seq<Seq<char>>,
    bdfs: Seq<Seq<char>>,
    devices: Seq<(i32, Seq<char>)>,
    uuid: Seq<char>,
    device: usize,
) -> bool {
    exists|j: int|
        {
            &&& 0 <= j < bdfs.len()
            &&& device_at(devices, #[trigger] bdfs[j]) == Some(device)
            &&& uuids[j] == uuid
            &&& forall|i: int|
                0 <= i < j ==> device_at(devices, #[trigger] bdfs[i]) != Some(device)
        }
}

/// `r` names each device that one of the identifiers means, with lower case by the rules
/// of Unicode.
pub open spec fn resolves(
    uuids: Seq<Seq<char>>,
    devices: Seq<(i32, Seq<char>)>,
    r: Seq<(usize, Seq<char>)>,
) -> bool {
    is_resolution(
        uuids,
        bdfs_by(uuids, unicode_lower()),
        lowered_devices(devices, unicode_lower()),
        r,
    )
}

/// Finds the first device at a PCI address.
fn find_device(devices: &[(i32, String)], bdf: &str) -> (r: Option<usize>)
    ensures
        r == device_at(enumeration(devices@), bdf@),
{
    let mut i: usize = 0;
    let ghost all = enumeration(devices@);
    assert(all.skip(0) =~= all);
    while i < devices.len()
        invariant
            i <= devices@.len(),
            all == enumeration(devices@),
            device_at(all, bdf@) == device_at(all.skip(i as int), bdf@),
        decreases devices@.len() - i,
    {
        if same_text(devices[i].1.as_str(), bdf) {
            return Some(device_index(devices[i].0));
        }
        assert(all.skip(i as int).skip(1) =~= all.skip(i + 1));
        i = i + 1;
    }
    None
}

/// Adds a device to a list in the order of the indices, unless it is there.
fn insert_device(pairs: &mut Vec<(usize, String)>, index: usize, uuid: String)
    requires
        forall|k: int, l: int|
            0 <= k < l < old(pairs)@.len() ==> (#[trigger] old(pairs)@[k]).0 < (
            #[trigger] old(pairs)@[l]).0,
    ensures
        forall|k: int, l: int|
            0 <= k < l < final(pairs)@.len() ==> (#[trigger] final(pairs)@[k]).0 < (
            #[trigger] final(pairs)@[l]).0,
        forall|k: int|
            0 <= k < final(pairs)@.len() ==> {
                ||| old(pairs)@.contains(#[trigger] final(pairs)@[k])
                ||| final(pairs)@[k] == (index, uuid) && forall|l: int|
                    0 <= l < old(pairs)@.len() ==> (#[trigger] old(pairs)@[l]).0 != index
            },
        forall|k: int|
            0 <= k < old(pairs)@.len() ==> final(pairs)@.contains(#[trigger] old(pairs)@[k]),
        exists|k: int| 0 <= k < final(pairs)@.len() && (#[trigger] final(pairs)@[k]).0 == index,
{
    let mut p: usize = 0;
    while p < pairs.len() && pairs[p].0 < index
        invariant
            p <= pairs@.len(),
            *pairs == *old(pairs),
            forall|k: int| 0 <= k < p ==> (#[trigger] pairs@[k]).0 < index,
        decreases pairs@.len() - p,
    {
        p = p + 1;
    }
    let ghost o = old(pairs)@;
    if p < pairs.len() && pairs[p].0 == index {
        assert(pairs@[p as int].0 == index);
        return;
    }
    let ghost entry = (index, uuid);
    pairs.insert(p, (index, uuid));
    proof {
        let n = pairs@;
        assert(n =~= o.insert(p as int, entry));
        assert forall|k: int| 0 <= k < o.len() implies n.contains(#[trigger] o[k]) by {
            if k < p {
                assert(n[k] == o[k]);
            } else {
                assert(n[k + 1] == o[k]);
            }
        }
        assert forall|k: int| 0 <= k < n.len() implies {
            ||| o.contains(#[trigger] n[k])
            ||| n[k] == entry && forall|l: int| 0 <= l < o.len() ==> (#[trigger] o[l]).0 != index
        } by {
            if k < p {
                assert(n[k] == o[k]);
            } else if k > p {
                assert(n[k] == o[k - 1]);
            } else {
                assert forall|l: int| 0 <= l < o.len() implies (#[trigger] o[l]).0 != index by {
                    if l > p {
                        assert(o[p as int].0 < o[l].0);
                    }
                }
            }
        }
        assert(n[p as int].0 == index);
    }
}

/// Matches PCI addresses, each with the identifier it comes from, against devices with
/// their PCI addresses. The result is in the order of the device indices and names each
/// device once; addresses without a device are left out.
pub fn match_devices(
    gpu_uuids: &[String],
    bdfs: &[String],
    devices: &[(i32, String)],
) -> (resolved: Vec<(usize, String)>)
    requires
        gpu_uuids@.len() == bdfs@.len(),
    ensures
        is_resolution(
            texts(gpu_uuids@),
            texts(bdfs@),
            enumeration(devices@),
            indexed(resolved@),
        ),
{
    let mut resolved: Vec<(usize, String)> = Vec::new();
    let mut i: usize = 0;
    let ghost uuids = texts(gpu_uuids@);
    let ghost targets = texts(bdfs@);
    let ghost all = enumeration(devices@);
    while i < bdfs.len()
        invariant
            i <= bdfs@.len(),
            gpu_uuids@.len() == bdfs@.len(),
            uuids == texts(gpu_uuids@),
            targets == texts(bdfs@),
            all == enumeration(devices@),
            forall|k: int, l: int|
                0 <= k < l < resolved@.len() ==> (#[trigger] resolved@[k]).0 < (
                #[trigger] resolved@[l]).0,
            forall|k: int|
                0 <= k < resolved@.len() ==> is_first_naming(
                    uuids,
                    targets,
                    all,
                    (#[trigger] resolved@[k]).1@,
                    resolved@[k].0,
                ),
            forall|j: int|
                0 <= j < i ==> (device_at(all, #[trigger] targets[j]) matches Some(d)
                    ==> exists|k: int| 0 <= k < resolved@.len() && (#[trigger] resolved@[k]).0 == d),
        decreases bdfs@.len() - i,
    {
        let ghost o = resolved@;
        let found = find_device(devices, bdfs[i].as_str());
        assert(found == device_at(all, targets[i as int]));
        if let Some(index) = found {
            insert_device(&mut resolved, index, gpu_uuids[i].clone());
            proof {
                let n = resolved@;
                assert forall|k: int| 0 <= k < n.len() implies is_first_naming(
                    uuids,
                    targets,
                    all,
                    (#[trigger] n[k]).1@,
                    n[k].0,
                ) by {
                    if o.contains(n[k]) {
                        let l = choose|l: int| 0 <= l < o.len() && o[l] == n[k];
                        assert(is_first_naming(uuids, targets, all, o[l].1@, o[l].0));
                    } else {
                        assert(uuids[i as int] == n[k].1@);
                        assert forall|j: int| 0 <= j < i implies device_at(
                            all,
                            #[trigger] targets[j],
                        ) != Some(n[k].0) by {
                            if device_at(all, targets[j]) == Some(index) {
                                let l = choose|l: int|
                                    0 <= l < o.len() && (#[trigger] o[l]).0 == index;
                                assert(o[l].0 == index);
                            }
                        }
                        assert(device_at(all, targets[i as int]) == Some(n[k].0));
                    }
                }
                assert forall|j: int| 0 <= j < i + 1 implies (device_at(
                    all,
                    #[trigger] targets[j],
                ) matches Some(d) ==> exists|k: int|
                    0 <= k < n.len() && (#[trigger] n[k]).0 == d) by {
                    if j < i {
                        if let Some(d) = device_at(all, targets[j]) {
                            let l = choose|l: int| 0 <= l < o.len() && (#[trigger] o[l]).0 == d;
                            assert(n.contains(o[l]));
                            let k = choose|k: int| 0 <= k < n.len() && n[k] == o[l];
                            assert(n[k].0 == d);
                        }
                    }
                }
            }
        }
        i = i + 1;
    }
    proof {
        let r = indexed(resolved@);
        assert forall|k: int, l: int| 0 <= k < l < r.len() implies (#[trigger] r[k]).0 < (
        #[trigger] r[l]).0 by {
            assert(resolved@[k].0 < resolved@[l].0);
        }
        assert forall|k: int| 0 <= k < r.len() implies is_first_naming(
            uuids,
            targets,
            all,
            (#[trigger] r[k]).1,
            r[k].0,
        ) by {
            assert(is_first_naming(uuids, targets, all, resolved@[k].1@, resolved@[k].0));
        }
        assert forall|j: int| 0 <= j < targets.len() implies (device_at(
            all,
            #[trigger] targets[j],
        ) matches Some(d) ==> exists|k: int| 0 <= k < r.len() && (#[trigger] r[k]).0 == d) by {
            if let Some(d) = device_at(all, targets[j]) {
                let k = choose|k: int| 0 <= k < resolved@.len() && (#[trigger] resolved@[k]).0 == d;
                assert(r[k].0 == d);
            }
        }
    }
    resolved
}

/// The PCI addresses in identifiers.
fn normalize_all(uuids: &[String]) -> (bdfs: Vec<String>)
    ensures
        texts(bdfs@) == bdfs_by(texts(uuids@), unicode_lower()),
        all_ascii(texts(uuids@)) ==> texts(bdfs@) == bdfs_by(texts(uuids@), ascii_only_lower()),
{
    let mut bdfs: Vec<String> = Vec::new();
    let mut i: usize = 0;
    while i < uuids.len()
        invariant
            i <= uuids@.len(),
            bdfs@.len() == i,
            forall|j: int|
                0 <= j < i ==> {
                    &&& (#[trigger] bdfs@[j])@ == bdf_of(uuids@[j]@)
                    &&& ascii(uuids@[j]@) ==> bdfs@[j]@ == ascii_bdf_of(uuids@[j]@)
                },
        decreases uuids@.len() - i,
    {
        bdfs.push(normalize_uuid_to_bdf(uuids[i].as_str()));
        i = i + 1;
    }
    proof {
        assert(texts(bdfs@) =~= bdfs_by(texts(uuids@), unicode_lower()));
        if all_ascii(texts(uuids@)) {
            assert forall|j: int| 0 <= j < bdfs@.len() implies texts(bdfs@)[j] == bdfs_by(
                texts(uuids@),
                ascii_only_lower(),
            )[j] by {
                assert(ascii(texts(uuids@)[j]));
                assert(bdfs@[j]@ == ascii_bdf_of(uuids@[j]@));
            }
            assert(texts(bdfs@) =~= bdfs_by(texts(uuids@), ascii_only_lower()));
        }
    }
    bdfs
}

/// All texts are ASCII only.
pub open spec fn all_ascii(s: Seq<Seq<char>>) -> bool {
    forall|i: int| 0 <= i < s.len() ==> ascii(#[trigger] s[i])
}

/// The PCI addresses of all devices are ASCII only.
pub open spec fn ascii_devices(devices: Seq<(i32, Seq<char>)>) -> bool {
    forall|i: int| 0 <= i < devices.len() ==> ascii((#[trigger] devices[i]).1)
}

/// Devices with their PCI addresses in lower case.
fn lower_all(devices: &[(i32, String)]) -> (lowered: Vec<(i32, String)>)
    ensures
        enumeration(lowered@) == lowered_devices(enumeration(devices@), unicode_lower()),
        ascii_devices(enumeration(devices@)) ==> enumeration(lowered@) == lowered_devices(
            enumeration(devices@),
            ascii_only_lower(),
        ),
{
    let mut lowered: Vec<(i32, String)> = Vec::new();
    let mut i: usize = 0;
    while i < devices.len()
        invariant
            i <= devices@.len(),
            lowered@.len() == i,
            forall|j: int|
                0 <= j < i ==> {
                    &&& (#[trigger] lowered@[j]).0 == devices@[j].0
                    &&& lowered@[j].1@ == lowercased(devices@[j].1@)
                    &&& ascii(devices@[j].1@) ==> lowered@[j].1@ == ascii_lowered(devices@[j].1@)
                },
        decreases devices@.len() - i,
    {
        lowered.push((devices[i].0, to_lowercase(devices[i].1.as_str())));
        i = i + 1;
    }
    proof {
        let given = enumeration(devices@);
        assert(enumeration(lowered@) =~= lowered_devices(given, unicode_lower()));
        if ascii_devices(given) {
            assert forall|j: int| 0 <= j < lowered@.len() implies enumeration(lowered@)[j]
                == lowered_devices(given, ascii_only_lower())[j] by {
                assert(ascii(given[j].1));
                assert(lowered@[j].0 == devices@[j].0);
            }
            assert(enumeration(lowered@) =~= lowered_devices(given, ascii_only_lower()));
        }
    }
    lowered
}

/// Matches identifiers of GPUs against the devices of the HIP runtime by PCI address,
/// letter case aside. The result is in the order of the device indices and names each
/// device once; identifiers without a device are left out.
pub fn resolve_device_indices(
    gpu_uuids: &[String],
    enumerated_devices: &[(i32, String)],
) -> (resolved: Vec<(usize, String)>)
    ensures
        resolves(texts(gpu_uuids@), enumeration(enumerated_devices@), indexed(resolved@)),
        all_ascii(texts(gpu_uuids@)) && ascii_devices(enumeration(enumerated_devices@))
            ==> is_resolution(
            texts(gpu_uuids@),
            bdfs_by(texts(gpu_uuids@), ascii_only_lower()),
            lowered_devices(enumeration(enumerated_devices@), ascii_only_lower()),
            indexed(resolved@),
        ),
{
    let bdfs = normalize_all(gpu_uuids);
    assert(texts(bdfs@).len() == bdfs@.len());
    let lowered = lower_all(enumerated_devices);
    match_devices(gpu_uuids, bdfs.as_slice(), lowered.as_slice())
}

/// The first configured device at a PCI address, given the addresses of all of them.
pub open spec fn index_at(
    pairs: Seq<(usize, Seq<char>)>,
    bdfs: Seq<Seq<char>>,
    bdf: Seq<char>,
) -> Option<usize>
    decreases pairs.len(),
{
    if pairs.len() == 0 || bdfs.len() == 0 {
        None
    } else if bdfs[0] == bdf {
        Some(pairs[0].0)
    } else {
        index_at(pairs.skip(1), bdfs.skip(1), bdf)
    }
}

/// The identifiers of configured devices.
pub open spec fn identifiers(pairs: Seq<(usize, Seq<char>)>) -> Seq<Seq<char>> {
    Seq::new(pairs.len(), |i: int| pairs[i].1)
}

/// The first configured device at a PCI address in lower case.
pub open spec fn configured_at(pairs: Seq<(usize, Seq<char>)>, bdf: Seq<char>) -> Option<usize> {
    index_at(pairs, bdfs_by(identifiers(pairs), unicode_lower()), bdf)
}

/// Finds the first configured device at a PCI address, given the addresses of all of them.
pub fn find_index(pairs: &[(usize, String)], bdfs: &[String], bdf: &str) -> (r: Option<usize>)
    requires
        pairs@.len() == bdfs@.len(),
    ensures
        r == index_at(indexed(pairs@), texts(bdfs@), bdf@),
{
    let mut i: usize = 0;
    let ghost all = indexed(pairs@);
    let ghost at = texts(bdfs@);
    assert(all.skip(0) =~= all && at.skip(0) =~= at);
    while i < pairs.len()
        invariant
            i <= pairs@.len(),
            pairs@.len() == bdfs@.len(),
            all == indexed(pairs@),
            at == texts(bdfs@),
            index_at(all, at, bdf@) == index_at(all.skip(i as int), at.skip(i as int), bdf@),
        decreases pairs@.len() - i,
    {
        if same_text(bdfs[i].as_str(), bdf) {
            return Some(pairs[i].0);
        }
        assert(all.skip(i as int).skip(1) =~= all.skip(i + 1));
        assert(at.skip(i as int).skip(1) =~= at.skip(i + 1));
        i = i + 1;
    }
    None
}

/// Finds the first configured device at a PCI address in lower case.
pub fn find_configured(pairs: &[(usize, String)], bdf: &str) -> (r: Option<usize>)
    ensures
        r == configured_at(indexed(pairs@), bdf@),
{
    let mut uuids: Vec<String> = Vec::new();
    let mut i: usize = 0;
    while i < pairs.len()
        invariant
            i <= pairs@.len(),
            uuids@.len() == i,
            forall|j: int| 0 <= j < i ==> (#[trigger] uuids@[j])@ == pairs@[j].1@,
        decreases pairs@.len() - i,
    {
        uuids.push(pairs[i].1.clone());
        i = i + 1;
    }
    assert(texts(uuids@) =~= identifiers(indexed(pairs@)));
    let bdfs = normalize_all(uuids.as_slice());
    assert(texts(bdfs@).len() == bdfs@.len());
    find_index(pairs, bdfs.as_slice(), bdf)
}

/// The three spellings of an identifier mean the same PCI address.
pub proof fn law_spellings_agree(bdf: Seq<char>)
    requires
        ascii(bdf),
        !"amd-gpu-"@.is_prefix_of(ascii_lowered(bdf)),
    ensures
        ascii_bdf_of(bdf) == ascii_lowered(bdf),
        ascii_bdf_of("amd-gpu-"@ + bdf) == ascii_lowered(bdf),
        ascii_bdf_of("AMD-GPU-"@ + bdf) == ascii_lowered(bdf),
{
    reveal_strlit("amd-gpu-");
    reveal_strlit("AMD-GPU-");
    let prefix = "amd-gpu-"@;
    let low = ascii_lowered("amd-gpu-"@ + bdf);
    let high = ascii_lowered("AMD-GPU-"@ + bdf);
    assert(low =~= prefix + ascii_lowered(bdf));
    assert(high =~= prefix + ascii_lowered(bdf));
    assert((prefix + ascii_lowered(bdf)).subrange(0, 8) =~= prefix);
    assert((prefix + ascii_lowered(bdf)).skip(8) =~= ascii_lowered(bdf));
}

/// The resolution of identifiers against devices is unique.
pub proof fn law_resolution_is_unique(
    uuids: Seq<Seq<char>>,
    bdfs: Seq<Seq<char>>,
    devices: Seq<(i32, Seq<char>)>,
    a: Seq<(usize, Seq<char>)>,
    b: Seq<(usize, Seq<char>)>,
)
    requires
        is_resolution(uuids, bdfs, devices, a),
        is_resolution(uuids, bdfs, devices, b),
    ensures
        a == b,
{
    assert forall|k: int| 0 <= k < a.len() implies b.contains(#[trigger] a[k]) by {
        lemma_named_by_any(uuids, bdfs, devices, a, b, k);
    }
    assert forall|k: int| 0 <= k < b.len() implies a.contains(#[trigger] b[k]) by {
        lemma_named_by_any(uuids, bdfs, devices, b, a, k);
    }
    lemma_same_prefix(a, b, a.len());
    lemma_same_prefix(b, a, b.len());
    assert(a =~= b);
}

/// The indices are in order.
spec fn increasing(r: Seq<(usize, Seq<char>)>) -> bool {
    forall|k: int, l: int| 0 <= k < l < r.len() ==> (#[trigger] r[k]).0 < (#[trigger] r[l]).0
}

/// Lists in order with the same entries agree place by place.
proof fn lemma_same_prefix(a: Seq<(usize, Seq<char>)>, b: Seq<(usize, Seq<char>)>, n: nat)
    requires
        increasing(a),
        increasing(b),
        forall|k: int| 0 <= k < a.len() ==> b.contains(#[trigger] a[k]),
        forall|k: int| 0 <= k < b.len() ==> a.contains(#[trigger] b[k]),
        n <= a.len(),
    ensures
        n <= b.len(),
        forall|k: int| 0 <= k < n ==> #[trigger] a[k] == b[k],
    decreases n,
{
    if n > 0 {
        lemma_same_prefix(a, b, (n - 1) as nat);
        let m = n - 1;
        assert(b.contains(a[m]));
        let l = choose|l: int| 0 <= l < b.len() && b[l] == a[m];
        if l < m {
            assert(a[l] == b[l]);
            assert(a[l].0 < a[m].0);
        }
        if l > m {
            assert(b[m].0 < b[l].0);
            assert(a.contains(b[m]));
            let k = choose|k: int| 0 <= k < a.len() && a[k] == b[m];
            if k > m {
                assert(a[m].0 < a[k].0);
            } else if k < m {
                assert(a[k] == b[k]);
                assert(b[k].0 < b[m].0);
            }
        }
    }
}

/// An entry of one resolution is an entry of any other.
proof fn lemma_named_by_any(
    uuids: Seq<Seq<char>>,
    bdfs: Seq<Seq<char>>,
    devices: Seq<(i32, Seq<char>)>,
    a: Seq<(usize, Seq<char>)>,
    b: Seq<(usize, Seq<char>)>,
    m: int,
)
    requires
        is_resolution(uuids, bdfs, devices, a),
        is_resolution(uuids, bdfs, devices, b),
        0 <= m < a.len(),
    ensures
        b.contains(a[m]),
{
    assert(is_first_naming(uuids, bdfs, devices, a[m].1, a[m].0));
    let i = lemma_first_place(uuids, bdfs, devices, a[m].1, a[m].0);
    let l = choose|l: int| 0 <= l < b.len() && (#[trigger] b[l]).0 == a[m].0;
    assert(device_at(devices, bdfs[i]) is Some);
    assert(is_first_naming(uuids, bdfs, devices, b[l].1, b[l].0));
    lemma_same_first(uuids, bdfs, devices, a[m].1, b[l].1, a[m].0);
    assert(b[l] == a[m]);
}

/// An address that leads to the device of an identifier.
proof fn lemma_first_place(
    uuids: Seq<Seq<char>>,
    bdfs: Seq<Seq<char>>,
    devices: Seq<(i32, Seq<char>)>,
    uuid: Seq<char>,
    device: usize,
) -> (j: int)
    requires
        is_first_naming(uuids, bdfs, devices, uuid, device),
    ensures
        0 <= j < bdfs.len(),
        device_at(devices, bdfs[j]) == Some(device),
        uuids[j] == uuid,
        forall|i: int| 0 <= i < j ==> device_at(devices, #[trigger] bdfs[i]) != Some(device),
{
    choose|j: int|
        {
            &&& 0 <= j < bdfs.len()
            &&& device_at(devices, #[trigger] bdfs[j]) == Some(device)
            &&& uuids[j] == uuid
            &&& forall|i: int|
                0 <= i < j ==> device_at(devices, #[trigger] bdfs[i]) != Some(device)
        }
}

/// There is one first identifier of a device.
proof fn lemma_same_first(
    uuids: Seq<Seq<char>>,
    bdfs: Seq<Seq<char>>,
    devices: Seq<(i32, Seq<char>)>,
    u: Seq<char>,
    v: Seq<char>,
    device: usize,
)
    requires
        is_first_naming(uuids, bdfs, devices, u, device),
        is_first_naming(uuids, bdfs, devices, v, device),
    ensures
        u == v,
{
    let i = lemma_first_place(uuids, bdfs, devices, u, device);
    let j = lemma_first_place(uuids, bdfs, devices, v, device);
    if i < j {
        assert(device_at(devices, bdfs[i]) != Some(device));
    } else if j < i {
        assert(device_at(devices, bdfs[j]) != Some(device));
    }
}

/// The address in an identifier is the same whether one is looked at or a list, and an
/// ordinal that is not negative is the index itself.
pub proof fn law_addresses_and_indices(
    uuids: Seq<Seq<char>>,
    devices: Seq<(i32, Seq<char>)>,
    i: int,
    ordinal: i32,
)
    ensures
        bdfs_by(uuids, ascii_only_lower()).len() == uuids.len(),
        bdfs_by(uuids, unicode_lower()).len() == uuids.len(),
        0 <= i < uuids.len() ==> bdfs_by(uuids, ascii_only_lower())[i] == ascii_bdf_of(uuids[i]),
        0 <= i < uuids.len() ==> bdfs_by(uuids, unicode_lower())[i] == bdf_of(uuids[i]),
        lowered_devices(devices, ascii_only_lower()).len() == devices.len(),
        0 <= i < devices.len() ==> lowered_devices(devices, ascii_only_lower())[i] == (
            devices[i].0,
            ascii_lowered(devices[i].1),
        ),
        0 <= i < devices.len() ==> lowered_devices(devices, unicode_lower())[i] == (
            devices[i].0,
            lowercased(devices[i].1),
        ),
        ordinal >= 0 ==> index_of(ordinal) == ordinal,
{
}

/// The device at an address is the first that has it, and there is none where no device
/// has it.
pub proof fn law_first_device_at_an_address(
    devices: Seq<(i32, Seq<char>)>,
    bdf: Seq<char>,
    i: int,
)
    requires
        0 <= i <= devices.len(),
        forall|k: int| 0 <= k < i ==> (#[trigger] devices[k]).1 != bdf,
        i < devices.len() ==> devices[i].1 == bdf && devices[i].0 >= 0,
    ensures
        i < devices.len() ==> device_at(devices, bdf) == Some(devices[i].0 as usize),
        i == devices.len() ==> device_at(devices, bdf) is None,
    decreases devices.len(),
{
    if devices.len() > 0 && i > 0 {
        let rest = devices.skip(1);
        assert forall|k: int| 0 <= k < i - 1 implies (#[trigger] rest[k]).1 != bdf by {
            assert(rest[k] == devices[k + 1]);
        }
        assert(devices[0].1 != bdf);
        law_first_device_at_an_address(rest, bdf, i - 1);
    }
}

/// The configured device at an address is the first whose identifier means it, and there is
/// none where no identifier does.
pub proof fn law_first_configured_at_an_address(
    pairs: Seq<(usize, Seq<char>)>,
    bdfs: Seq<Seq<char>>,
    bdf: Seq<char>,
    i: int,
)
    requires
        pairs.len() == bdfs.len(),
        0 <= i <= pairs.len(),
        forall|k: int| 0 <= k < i ==> #[trigger] bdfs[k] != bdf,
        i < pairs.len() ==> bdfs[i] == bdf,
    ensures
        i < pairs.len() ==> index_at(pairs, bdfs, bdf) == Some(pairs[i].0),
        i == pairs.len() ==> index_at(pairs, bdfs, bdf) is None,
        configured_at(pairs, bdf) == index_at(
            pairs,
            Seq::new(pairs.len(), |k: int| bdf_of(pairs[k].1)),
            bdf,
        ),
    decreases pairs.len(),
{
    assert(bdfs_by(identifiers(pairs), unicode_lower()) =~= Seq::new(
        pairs.len(),
        |k: int| bdf_of(pairs[k].1),
    ));
    if pairs.len() > 0 && i > 0 {
        let rest = bdfs.skip(1);
        assert forall|k: int| 0 <= k < i - 1 implies #[trigger] rest[k] != bdf by {
            assert(rest[k] == bdfs[k + 1]);
        }
        assert(bdfs[0] != bdf);
        law_first_configured_at_an_address(pairs.skip(1), rest, bdf, i - 1);
    }
}

/// A resolution is in rising order, so it names each device once.
pub proof fn law_resolution_is_in_order(
    uuids: Seq<Seq<char>>,
    bdfs: Seq<Seq<char>>,
    devices: Seq<(i32, Seq<char>)>,
    r: Seq<(usize, Seq<char>)>,
    k: int,
)
    requires
        is_resolution(uuids, bdfs, devices, r),
        0 < k < r.len(),
    ensures
        r[k - 1].0 < r[k].0,
{
}

/// Each device of a resolution is there with the first identifier that leads to it.
pub proof fn law_resolution_names_no_other(
    uuids: Seq<Seq<char>>,
    bdfs: Seq<Seq<char>>,
    devices: Seq<(i32, Seq<char>)>,
    r: Seq<(usize, Seq<char>)>,
    k: int,
) -> (j: int)
    requires
        is_resolution(uuids, bdfs, devices, r),
        0 <= k < r.len(),
    ensures
        0 <= j < bdfs.len(),
        uuids[j] == r[k].1,
        device_at(devices, bdfs[j]) == Some(r[k].0),
        forall|i: int| 0 <= i < j ==> device_at(devices, #[trigger] bdfs[i]) != Some(r[k].0),
{
    assert(is_first_naming(uuids, bdfs, devices, r[k].1, r[k].0));
    lemma_first_place(uuids, bdfs, devices, r[k].1, r[k].0)
}

/// Each device that an identifier leads to is in a resolution.
pub proof fn law_resolution_leaves_none_out(
    uuids: Seq<Seq<char>>,
    bdfs: Seq<Seq<char>>,
    devices: Seq<(i32, Seq<char>)>,
    r: Seq<(usize, Seq<char>)>,
    j: int,
) -> (k: int)
    requires
        is_resolution(uuids, bdfs, devices, r),
        0 <= j < bdfs.len(),
        device_at(devices, bdfs[j]) is Some,
    ensures
        0 <= k < r.len(),
        r[k].0 == device_at(devices, bdfs[j])->0,
{
    let d = device_at(devices, bdfs[j])->0;
    choose|k: int| 0 <= k < r.len() && (#[trigger] r[k]).0 == d
}

/// A GPU that was asked for by its address, with a prefix or without and in letters of
/// either case, is found where the runtime enumerates it.
pub proof fn law_configured_gpus_are_found(
    uuids: Seq<Seq<char>>,
    devices: Seq<(i32, Seq<char>)>,
    r: Seq<(usize, Seq<char>)>,
    j: int,
    i: int,
)
    requires
        is_resolution(
            uuids,
            bdfs_by(uuids, ascii_only_lower()),
            lowered_devices(devices, ascii_only_lower()),
            r,
        ),
        0 <= j < uuids.len(),
        0 <= i < devices.len(),
        devices[i].0 >= 0,
        ascii_bdf_of(uuids[j]) == ascii_lowered(devices[i].1),
        forall|k: int|
            0 <= k < i ==> ascii_lowered((#[trigger] devices[k]).1) != ascii_lowered(devices[i].1),
    ensures
        exists|k: int| 0 <= k < r.len() && (#[trigger] r[k]).0 == devices[i].0,
{
    let bdfs = bdfs_by(uuids, ascii_only_lower());
    let lowered = lowered_devices(devices, ascii_only_lower());
    law_addresses_and_indices(uuids, devices, i, devices[i].0);
    law_addresses_and_indices(uuids, devices, j, devices[i].0);
    assert forall|k: int| 0 <= k < i implies (#[trigger] lowered[k]).1 != bdfs[j] by {
        assert(lowered[k].1 == ascii_lowered(devices[k].1));
    }
    law_first_device_at_an_address(lowered, bdfs[j], i);
    let k = law_resolution_leaves_none_out(uuids, bdfs, lowered, r, j);
    assert(r[k].0 == devices[i].0);
}

/// Devices as plain values are the devices, one by one.
pub proof fn law_devices_as_plain_values(
    devices: Seq<(i32, String)>,
    pairs: Seq<(usize, String)>,
    i: int,
)
    ensures
        enumeration(devices).len() == devices.len(),
        0 <= i < devices.len() ==> enumeration(devices)[i] == (devices[i].0, devices[i].1@),
        indexed(pairs).len() == pairs.len(),
        0 <= i < pairs.len() ==> indexed(pairs)[i] == (pairs[i].0, pairs[i].1@),
{
}

} // verus!
