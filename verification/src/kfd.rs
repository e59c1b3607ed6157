//! GPU devices as the kernel driver's topology shows them, without the HIP runtime.
use crate::number::{
    bounded_value, holds, law_numbers_read_back, law_only_digits_are_read, parse_u32, parse_u64,
};
use crate::text::{
    blank, chars_of, is_white, law_padding, law_written_digits, lemma_trimmed_surrounded,
    lowercased, part, push_decimal, push_hex, push_text, same_text, string_of, texts,
    to_lowercase, trim, trimmed, trimmed_start, white, written, zero_padded,
};
use vstd::prelude::*;

verus! {

/// Where the driver shows its topology.
pub const KFD_TOPOLOGY_PATH: &'static str = "/sys/class/kfd/kfd/topology/nodes";

/// Where the render devices are.
pub const DRI_PATH: &'static str = "/dev/dri";

/// A GPU found in the topology.
#[derive(Debug, PartialEq, Eq)]
pub struct GpuDevice {
    /// Its PCI address.
    pub pci_bdf: String,
    /// The minor number of its render device.
    pub render_minor: u32,
}

/// What a node of the topology says about itself.
#[derive(Debug)]
pub struct NodeProperties {
    /// The PCI domain.
    pub domain: u32,
    /// Bus, device and function in one number.
    pub location_id: u32,
    /// The minor number of the render device.
    pub drm_render_minor: u32,
}

/// Why no GPUs were found.
#[derive(Debug)]
pub enum EnumerationError {
    /// The topology is not there.
    SysfsNotAvailable(String),
    /// A node lacks a field.
    MissingField(String),
    /// A field holds no number.
    ParseError(String),
    /// There are no GPUs.
    NoDevicesFound,
}

/// Why no GPUs were found, as plain values.
pub enum EnumerationFailure {
    /// The topology is not there.
    SysfsNotAvailable(Seq<char>),
    /// A node lacks a field.
    MissingField(Seq<char>),
    /// A field holds no number.
    ParseError(Seq<char>),
    /// There are no GPUs.
    NoDevicesFound,
}

impl View for EnumerationError {
    type V = EnumerationFailure;

    open spec fn view(&self) -> EnumerationFailure {
        match *self {
            EnumerationError::SysfsNotAvailable(path) => EnumerationFailure::SysfsNotAvailable(
                path@,
            ),
            EnumerationError::MissingField(field) => EnumerationFailure::MissingField(field@),
            EnumerationError::ParseError(what) => EnumerationFailure::ParseError(what@),
            EnumerationError::NoDevicesFound => EnumerationFailure::NoDevicesFound,
        }
    }
}

impl EnumerationError {
    /// The failure in words.
    pub fn message(&self) -> (m: String)
        ensures
            m@ == match self@ {
                EnumerationFailure::SysfsNotAvailable(path) => "KFD sysfs not available: "@ + path,
                EnumerationFailure::MissingField(field) => "missing required field: "@ + field,
                EnumerationFailure::ParseError(what) => "parse error: "@ + what,
                EnumerationFailure::NoDevicesFound => "no GPU devices found"@,
            },
    {
        let mut m = String::new();
        let ghost empty = m@;
        match self {
            EnumerationError::SysfsNotAvailable(path) => {
                push_text(&mut m, "KFD sysfs not available: ");
                push_text(&mut m, path.as_str());
                assert(m@ =~= "KFD sysfs not available: "@ + path@);
            },
            EnumerationError::MissingField(field) => {
                push_text(&mut m, "missing required field: ");
                push_text(&mut m, field.as_str());
                assert(m@ =~= "missing required field: "@ + field@);
            },
            EnumerationError::ParseError(what) => {
                push_text(&mut m, "parse error: ");
                push_text(&mut m, what.as_str());
                assert(m@ =~= "parse error: "@ + what@);
            },
            EnumerationError::NoDevicesFound => {
                push_text(&mut m, "no GPU devices found");
                assert(m@ =~= "no GPU devices found"@);
            },
        }
        m
    }
}

/// A PCI address in writing: domain, bus and device in hexadecimal, and the function.
pub open spec fn bdf_text(domain: nat, bus: nat, device: nat, function: nat) -> Seq<char> {
    zero_padded(written(domain, 16), 4) + seq![':'] + zero_padded(written(bus, 16), 2) + seq![':']
        + zero_padded(written(device, 16), 2) + seq!['.'] + written(function, 10)
}

/// Writes a PCI address.
pub fn write_bdf(domain: u64, bus: u64, device: u64, function: u64) -> (text: String)
    ensures
        text@ == bdf_text(domain as nat, bus as nat, device as nat, function as nat),
{
    let mut text = String::new();
    push_hex(&mut text, domain, 4);
    text.push(':');
    push_hex(&mut text, bus, 2);
    text.push(':');
    push_hex(&mut text, device, 2);
    text.push('.');
    push_decimal(&mut text, function);
    assert(text@ =~= bdf_text(domain as nat, bus as nat, device as nat, function as nat));
    text
}

/// The PCI address of a node: its location holds the function in the lowest three bits,
/// above them the device in five, and above those the bus in eight.
pub fn decode_pci_bdf(domain: u32, location_id: u32) -> (bdf: String)
    ensures
        bdf@ == bdf_text(
            domain as nat,
            (location_id as nat / 256) % 256,
            (location_id as nat / 8) % 32,
            location_id as nat % 8,
        ),
{
    let bus: u32 = (location_id >> 8) & 0xFF;
    let device: u32 = (location_id >> 3) & 0x1F;
    let function: u32 = location_id & 0x7;
    assert((location_id >> 8) & 0xFF == (location_id / 256) % 256) by (bit_vector);
    assert((location_id >> 3) & 0x1F == (location_id / 8) % 32) by (bit_vector);
    assert(location_id & 0x7 == location_id % 8) by (bit_vector);
    write_bdf(domain as u64, bus as u64, device as u64, function as u64)
}

/// A location written and taken apart again: each part comes back.
pub proof fn law_location_parts(bus: u32, device: u32, function: u32)
    requires
        bus < 256,
        device < 32,
        function < 8,
    ensures
        ({
            let location = (bus * 256 + device * 8 + function) as u32;
            &&& (location as nat / 256) % 256 == bus
            &&& (location as nat / 8) % 32 == device
            &&& location as nat % 8 == function
        }),
{
}

/// The number of characters in front of the first line feed.
pub open spec fn line_length(s: Seq<char>) -> nat
    decreases s.len(),
{
    if s.len() == 0 || s[0] == '\n' {
        0
    } else {
        1 + line_length(s.skip(1))
    }
}

/// The number of characters in front of the first white one.
pub open spec fn word_length(s: Seq<char>) -> nat
    decreases s.len(),
{
    if s.len() == 0 || white(s[0]) {
        0
    } else {
        1 + word_length(s.skip(1))
    }
}

/// The first word of a line; empty where there is none.
pub open spec fn first_word(s: Seq<char>) -> Seq<char> {
    trimmed_start(s).take(word_length(trimmed_start(s)) as int)
}

/// What follows the first word of a line.
pub open spec fn after_first_word(s: Seq<char>) -> Seq<char> {
    trimmed_start(s).skip(word_length(trimmed_start(s)) as int)
}

/// What has been read of a node's properties.
pub struct Fields {
    /// The PCI domain.
    pub domain: Option<u32>,
    /// Bus, device and function.
    pub location_id: Option<u32>,
    /// The minor number of the render device.
    pub drm_render_minor: Option<u32>,
}

/// The value of a field as a number, or what is wrong with it.
pub open spec fn field_value(key: Seq<char>, value: Seq<char>) -> Result<u32, Seq<char>> {
    match bounded_value(value, u32::MAX as nat) {
        Some(n) => Ok(n as u32),
        None => Err(key + ": "@ + value),
    }
}

/// What is known after one more line: its first word names a field, and its second word
/// is the value. Other fields and shorter lines say nothing.
pub open spec fn after_line(f: Fields, line: Seq<char>) -> Result<Fields, Seq<char>> {
    let key = first_word(line);
    let value = first_word(after_first_word(line));
    if value.len() == 0 {
        Ok(f)
    } else if key == "domain"@ {
        match field_value(key, value) {
            Ok(n) => Ok(Fields { domain: Some(n), ..f }),
            Err(e) => Err(e),
        }
    } else if key == "location_id"@ {
        match field_value(key, value) {
            Ok(n) => Ok(Fields { location_id: Some(n), ..f }),
            Err(e) => Err(e),
        }
    } else if key == "drm_render_minor"@ {
        match field_value(key, value) {
            Ok(n) => Ok(Fields { drm_render_minor: Some(n), ..f }),
            Err(e) => Err(e),
        }
    } else {
        Ok(f)
    }
}

/// What is known after all lines of a text, or the first thing that is wrong.
pub open spec fn after_lines(f: Fields, s: Seq<char>) -> Result<Fields, Seq<char>>
    decreases s.len(),
{
    let n = line_length(s) as int;
    match after_line(f, s.take(n)) {
        Err(e) => Err(e),
        Ok(g) => if n < s.len() {
            after_lines(g, s.skip(n + 1))
        } else {
            Ok(g)
        },
    }
}

/// What the properties of a node come to.
pub open spec fn properties_of(s: Seq<char>) -> Result<(u32, u32, u32), EnumerationFailure> {
    match after_lines(
        Fields { domain: None, location_id: None, drm_render_minor: None },
        s,
    ) {
        Err(e) => Err(EnumerationFailure::ParseError(e)),
        Ok(f) => if f.domain is None {
            Err(EnumerationFailure::MissingField("domain"@))
        } else if f.location_id is None {
            Err(EnumerationFailure::MissingField("location_id"@))
        } else if f.drm_render_minor is None {
            Err(EnumerationFailure::MissingField("drm_render_minor"@))
        } else {
            Ok((f.domain->0, f.location_id->0, f.drm_render_minor->0))
        },
    }
}

/// The first word between two places, and where it ends.
fn next_word(v: &[char], from: usize, to: usize) -> (r: (Vec<char>, usize))
    requires
        from <= to <= v@.len(),
    ensures
        from <= r.1 <= to,
        r.0@ == first_word(v@.subrange(from as int, to as int)),
        v@.subrange(r.1 as int, to as int) == after_first_word(
            v@.subrange(from as int, to as int),
        ),
{
    let ghost s = v@.subrange(from as int, to as int);
    let mut start: usize = from;
    while start < to && is_white(v[start])
        invariant
            from <= start <= to <= v@.len(),
            trimmed_start(s) == trimmed_start(v@.subrange(start as int, to as int)),
        decreases to - start,
    {
        assert(v@.subrange(start as int, to as int).skip(1) =~= v@.subrange(start + 1, to as int));
        start = start + 1;
    }
    let ghost t = v@.subrange(start as int, to as int);
    assert(trimmed_start(s) == t);
    let mut end: usize = start;
    while end < to && !is_white(v[end])
        invariant
            start <= end <= to <= v@.len(),
            t == v@.subrange(start as int, to as int),
            word_length(t) == (end - start) + word_length(v@.subrange(end as int, to as int)),
        decreases to - end,
    {
        assert(v@.subrange(end as int, to as int).skip(1) =~= v@.subrange(end + 1, to as int));
        end = end + 1;
    }
    assert(word_length(t) == end - start);
    assert(v@.subrange(start as int, end as int) =~= t.take(end - start));
    assert(v@.subrange(end as int, to as int) =~= t.skip(end - start));
    (part(v, start, end), end)
}

/// The value of a field as a number, or what is wrong with it.
fn read_field(key: &str, value: &[char]) -> (r: Result<u32, EnumerationError>)
    ensures
        match field_value(key@, value@) {
            Ok(n) => r is Ok && r->Ok_0 == n,
            Err(e) => r is Err && r->Err_0@ == EnumerationFailure::ParseError(e),
        },
{
    match parse_u32(value) {
        Some(n) => Ok(n),
        None => {
            let mut what = String::new();
            push_text(&mut what, key);
            push_text(&mut what, ": ");
            let text = string_of(value);
            push_text(&mut what, text.as_str());
            assert(what@ =~= key@ + ": "@ + value@);
            Err(EnumerationError::ParseError(what))
        },
    }
}

/// Reads the line between two places.
fn read_line(f: Fields, v: &[char], from: usize, to: usize) -> (r: Result<Fields, EnumerationError>)
    requires
        from <= to <= v@.len(),
    ensures
        match after_line(f, v@.subrange(from as int, to as int)) {
            Ok(g) => r is Ok && r->Ok_0 == g,
            Err(e) => r is Err && r->Err_0@ == EnumerationFailure::ParseError(e),
        },
{
    let (key, end) = next_word(v, from, to);
    let (value, _end) = next_word(v, end, to);
    if value.len() == 0 {
        return Ok(f);
    }
    let key = string_of(key.as_slice());
    if same_text(key.as_str(), "domain") {
        match read_field("domain", value.as_slice()) {
            Ok(n) => Ok(
                Fields {
                    domain: Some(n),
                    location_id: f.location_id,
                    drm_render_minor: f.drm_render_minor,
                },
            ),
            Err(e) => Err(e),
        }
    } else if same_text(key.as_str(), "location_id") {
        match read_field("location_id", value.as_slice()) {
            Ok(n) => Ok(
                Fields {
                    domain: f.domain,
                    location_id: Some(n),
                    drm_render_minor: f.drm_render_minor,
                },
            ),
            Err(e) => Err(e),
        }
    } else if same_text(key.as_str(), "drm_render_minor") {
        match read_field("drm_render_minor", value.as_slice()) {
            Ok(n) => Ok(
                Fields {
                    domain: f.domain,
                    location_id: f.location_id,
                    drm_render_minor: Some(n),
                },
            ),
            Err(e) => Err(e),
        }
    } else {
        Ok(f)
    }
}

/// Where the line that begins at a place ends.
fn line_end(v: &[char], from: usize) -> (end: usize)
    requires
        from <= v@.len(),
    ensures
        from <= end <= v@.len(),
        end - from == line_length(v@.skip(from as int)),
{
    let mut end: usize = from;
    while end < v.len() && v[end] != '\n'
        invariant
            from <= end <= v@.len(),
            line_length(v@.skip(from as int)) == (end - from) + line_length(v@.skip(end as int)),
        decreases v@.len() - end,
    {
        assert(v@.skip(end as int).skip(1) =~= v@.skip(end + 1));
        end = end + 1;
    }
    end
}

/// Reads the properties of a node: one field per line, its name and its value, which is
/// a decimal number. Fails on the first needed field that holds no number, and then on
/// the first that is missing.
pub fn parse_properties(content: &str) -> (r: Result<NodeProperties, EnumerationError>)
    ensures
        match properties_of(content@) {
            Ok((domain, location_id, minor)) => r is Ok && r->Ok_0 == (NodeProperties {
                domain,
                location_id,
                drm_render_minor: minor,
            }),
            Err(e) => r is Err && r->Err_0@ == e,
        },
{
    let v = chars_of(content);
    let mut f = Fields { domain: None, location_id: None, drm_render_minor: None };
    let ghost start = f;
    let mut from: usize = 0;
    assert(v@.skip(0) =~= content@);
    loop
        invariant_except_break
            v@ == content@,
            from <= v@.len(),
            after_lines(start, content@) == after_lines(f, content@.skip(from as int)),
        invariant
            start == (Fields { domain: None, location_id: None, drm_render_minor: None }),
        ensures
            after_lines(start, content@) == Ok::<Fields, Seq<char>>(f),
        decreases v@.len() - from,
    {
        let end: usize = line_end(v.as_slice(), from);
        let ghost s = content@.skip(from as int);
        assert(s.take(end - from) =~= v@.subrange(from as int, end as int));
        match read_line(f, v.as_slice(), from, end) {
            Err(e) => {
                return Err(e);
            },
            Ok(g) => {
                f = g;
            },
        }
        if end < v.len() {
            assert(s.skip(end - from + 1) =~= content@.skip(end + 1));
            from = end + 1;
        } else {
            break;
        }
    }
    match f.domain {
        None => Err(EnumerationError::MissingField("domain".to_string())),
        Some(domain) => match f.location_id {
            None => Err(EnumerationError::MissingField("location_id".to_string())),
            Some(location_id) => match f.drm_render_minor {
                None => Err(EnumerationError::MissingField("drm_render_minor".to_string())),
                Some(drm_render_minor) => Ok(
                    NodeProperties { domain, location_id, drm_render_minor },
                ),
            },
        },
    }
}

/// The numbers among the first `n` names of directory entries.
pub open spec fn numeric_names(names: Seq<Seq<char>>, n: nat) -> Seq<u32>
    decreases n,
{
    if n == 0 {
        Seq::empty()
    } else {
        let rest = numeric_names(names, (n - 1) as nat);
        match bounded_value(names[n - 1], u32::MAX as nat) {
            Some(id) => rest.push(id as u32),
            None => rest,
        }
    }
}

/// The numbers are in order.
pub open spec fn ascending(ids: Seq<u32>) -> bool {
    forall|i: int, j: int| 0 <= i < j < ids.len() ==> #[trigger] ids[i] <= #[trigger] ids[j]
}

/// Adds a number to an ordered list.
fn insert_id(ids: &mut Vec<u32>, id: u32)
    requires
        ascending(old(ids)@),
    ensures
        ascending(final(ids)@),
        final(ids)@.to_multiset() == old(ids)@.to_multiset().insert(id),
{
    let mut p: usize = 0;
    while p < ids.len() && ids[p] <= id
        invariant
            p <= ids@.len(),
            *ids == *old(ids),
            forall|i: int| 0 <= i < p ==> #[trigger] ids@[i] <= id,
        decreases ids@.len() - p,
    {
        p = p + 1;
    }
    ids.insert(p, id);
    proof {
        let o = old(ids)@;
        let n = ids@;
        assert(n =~= o.insert(p as int, id));
        assert forall|i: int, j: int| 0 <= i < j < n.len() implies #[trigger] n[i]
            <= #[trigger] n[j] by {
            if j == p {
                assert(n[i] == o[i]);
            } else if i == p {
                assert(n[j] == o[j - 1]);
                if j - 1 > p {
                    assert(o[p as int] <= o[j - 1]);
                }
            } else if j < p {
                assert(n[i] == o[i] && n[j] == o[j]);
            } else if i < p {
                assert(n[i] == o[i] && n[j] == o[j - 1]);
            } else {
                assert(n[i] == o[i - 1] && n[j] == o[j - 1]);
            }
        }
        broadcast use vstd::seq_lib::to_multiset_remove, vstd::seq_lib::group_to_multiset_ensures, vstd::multiset::group_multiset_axioms;

        assert(n.remove(p as int) =~= o);
        assert(n[p as int] == id);
        assert(n.contains(id));
        assert(n.to_multiset().count(id) > 0);
        assert(o.to_multiset() == n.to_multiset().remove(id));
        assert(n.to_multiset() =~= o.to_multiset().insert(id));
    }
}

/// The nodes among directory entries, by number and in order. Entries that are no
/// numbers are left out.
pub fn node_ids(names: &[String]) -> (ids: Vec<u32>)
    ensures
        ascending(ids@),
        ids@.to_multiset() == numeric_names(texts(names@), names@.len()).to_multiset(),
{
    let mut ids: Vec<u32> = Vec::new();
    let mut i: usize = 0;
    while i < names.len()
        invariant
            i <= names@.len(),
            ascending(ids@),
            ids@.to_multiset() == numeric_names(texts(names@), i as nat).to_multiset(),
        decreases names@.len() - i,
    {
        let name = chars_of(names[i].as_str());
        assert(texts(names@)[i as int] == name@);
        if let Some(id) = parse_u32(name.as_slice()) {
            insert_id(&mut ids, id);
            proof {
                broadcast use vstd::seq_lib::group_to_multiset_ensures;

            }
        }
        i = i + 1;
    }
    ids
}

/// What could be read of a node of the topology.
pub struct KfdNode {
    /// The file that holds the GPU's number.
    pub gpu_id: Option<String>,
    /// The file that holds the properties.
    pub properties: Option<String>,
}

/// A node is a GPU: its number can be read and is not zero.
pub open spec fn is_gpu(node: KfdNode) -> bool {
    node.gpu_id matches Some(text) && (bounded_value(trimmed(text@), u64::MAX as nat) matches Some(
        id,
    ) && id != 0)
}

/// The minor number of the render device that a node asks for.
pub open spec fn asked_minor(node: KfdNode) -> Option<u32> {
    if is_gpu(node) && node.properties is Some {
        match properties_of(node.properties->0@) {
            Ok((_domain, _location_id, minor)) => Some(minor),
            Err(_) => None,
        }
    } else {
        None
    }
}

/// The device of a node, where it is a GPU with its render device at hand: its PCI
/// address and that minor number.
pub open spec fn node_device(node: KfdNode, present: Seq<u32>) -> Option<(Seq<char>, u32)> {
    match asked_minor(node) {
        Some(minor) => if present.contains(minor) {
            let (domain, location_id, _minor) = properties_of(node.properties->0@)->Ok_0;
            Some(
                (
                    bdf_text(
                        domain as nat,
                        (location_id as nat / 256) % 256,
                        (location_id as nat / 8) % 32,
                        location_id as nat % 8,
                    ),
                    minor,
                ),
            )
        } else {
            None
        },
        None => None,
    }
}

/// The devices of the first `n` nodes.
pub open spec fn node_devices(
    nodes: Seq<KfdNode>,
    present: Seq<u32>,
    n: nat,
) -> Seq<(Seq<char>, u32)>
    decreases n,
{
    if n == 0 {
        Seq::empty()
    } else {
        let rest = node_devices(nodes, present, (n - 1) as nat);
        match node_device(nodes[n - 1], present) {
            Some(device) => rest.push(device),
            None => rest,
        }
    }
}

/// Devices as plain values.
pub open spec fn device_values(devices: Seq<GpuDevice>) -> Seq<(Seq<char>, u32)> {
    Seq::new(devices.len(), |i: int| (devices[i].pci_bdf@, devices[i].render_minor))
}

/// The properties of a node that is a GPU, where they can be read.
fn gpu_properties(node: &KfdNode) -> (r: Option<NodeProperties>)
    ensures
        r is Some <==> asked_minor(*node) is Some,
        r matches Some(p) ==> properties_of(node.properties->0@) == Ok::<
            (u32, u32, u32),
            EnumerationFailure,
        >((p.domain, p.location_id, p.drm_render_minor)),
{
    match &node.gpu_id {
        None => None,
        Some(text) => {
            let v = chars_of(text.as_str());
            let id = trim(v.as_slice());
            match parse_u64(id.as_slice()) {
                None => None,
                Some(id) => if id == 0 {
                    None
                } else {
                    match &node.properties {
                        None => None,
                        Some(content) => match parse_properties(content.as_str()) {
                            Ok(properties) => Some(properties),
                            Err(_) => None,
                        },
                    }
                },
            }
        },
    }
}

/// The minor number of the render device that a node asks for.
pub fn requested_minor(node: &KfdNode) -> (r: Option<u32>)
    ensures
        r == asked_minor(*node),
{
    match gpu_properties(node) {
        Some(properties) => Some(properties.drm_render_minor),
        None => None,
    }
}

/// The name of a render device.
pub fn render_name(minor: u32) -> (name: String)
    ensures
        name@ == "renderD"@ + written(minor as nat, 10),
{
    let mut name = String::new();
    push_text(&mut name, "renderD");
    push_decimal(&mut name, minor as u64);
    assert(name@ =~= "renderD"@ + written(minor as nat, 10));
    name
}

/// The GPUs among the nodes of the topology, in the order of the nodes. `present` holds
/// the minor numbers of the render devices that exist. Nodes that are no GPUs, cannot be
/// read or have no render device are left out; with none left that is a failure, and so
/// is a topology that is not there, at the given path.
pub fn enumerate_gpu_devices_from(
    nodes: Result<Vec<KfdNode>, String>,
    present: &[u32],
) -> (r: Result<Vec<GpuDevice>, EnumerationError>)
    ensures
        match nodes {
            Err(path) => r is Err && r->Err_0@ == EnumerationFailure::SysfsNotAvailable(path@),
            Ok(nodes) => {
                let devices = node_devices(nodes@, present@, nodes@.len());
                if devices.len() == 0 {
                    r is Err && r->Err_0@ == EnumerationFailure::NoDevicesFound
                } else {
                    r is Ok && device_values(r->Ok_0@) == devices
                }
            },
        },
{
    match nodes {
        Err(path) => Err(EnumerationError::SysfsNotAvailable(path)),
        Ok(nodes) => {
            let mut devices: Vec<GpuDevice> = Vec::new();
            let mut i: usize = 0;
            assert(device_values(devices@) =~= node_devices(nodes@, present@, 0));
            while i < nodes.len()
                invariant
                    i <= nodes@.len(),
                    device_values(devices@) == node_devices(nodes@, present@, i as nat),
                decreases nodes@.len() - i,
            {
                let ghost before = devices@;
                if let Some(properties) = gpu_properties(&nodes[i]) {
                    if holds(present, properties.drm_render_minor) {
                        let pci_bdf = decode_pci_bdf(properties.domain, properties.location_id);
                        devices.push(
                            GpuDevice { pci_bdf, render_minor: properties.drm_render_minor },
                        );
                        assert(device_values(devices@) =~= device_values(before).push(
                            (pci_bdf@, properties.drm_render_minor),
                        ));
                    }
                }
                i = i + 1;
            }
            if devices.len() == 0 {
                Err(EnumerationError::NoDevicesFound)
            } else {
                Ok(devices)
            }
        },
    }
}

/// The GPUs of this machine, where its topology could be read.
pub fn enumerate_gpu_devices(
    nodes: Option<Vec<KfdNode>>,
    present: &[u32],
) -> (r: Result<Vec<GpuDevice>, EnumerationError>)
    ensures
        match nodes {
            None => r is Err && r->Err_0@ == EnumerationFailure::SysfsNotAvailable(
                KFD_TOPOLOGY_PATH@,
            ),
            Some(nodes) => {
                let devices = node_devices(nodes@, present@, nodes@.len());
                if devices.len() == 0 {
                    r is Err && r->Err_0@ == EnumerationFailure::NoDevicesFound
                } else {
                    r is Ok && device_values(r->Ok_0@) == devices
                }
            },
        },
        nodes is None ==> r is Err && r->Err_0@ == EnumerationFailure::SysfsNotAvailable(
            "/sys/class/kfd/kfd/topology/nodes"@,
        ),
{
    match nodes {
        None => enumerate_gpu_devices_from(
            Err(KFD_TOPOLOGY_PATH.to_string()),
            present,
        ),
        Some(nodes) => enumerate_gpu_devices_from(Ok(nodes), present),
    }
}

/// What comes of comparing the topology's devices with those of the HIP runtime.
#[derive(Debug)]
pub enum Verification {
    /// The numbers of devices differ.
    CountMismatch,
    /// The devices or their order differ.
    OrderMismatch,
    /// Both agree.
    Match,
}

/// The texts in lower case.
pub open spec fn all_lowercased(s: Seq<Seq<char>>) -> Seq<Seq<char>> {
    Seq::new(s.len(), |i: int| lowercased(s[i]))
}

/// What comes of comparing two lists of PCI addresses.
pub open spec fn comparison(a: Seq<Seq<char>>, b: Seq<Seq<char>>) -> Verification {
    if a.len() != b.len() {
        Verification::CountMismatch
    } else if a != b {
        Verification::OrderMismatch
    } else {
        Verification::Match
    }
}

/// Compares two lists of PCI addresses.
pub fn compare_devices(a: &[String], b: &[String]) -> (v: Verification)
    ensures
        v == comparison(texts(a@), texts(b@)),
{
    if a.len() != b.len() {
        return Verification::CountMismatch;
    }
    let ghost x = texts(a@);
    let ghost y = texts(b@);
    let mut i: usize = 0;
    while i < a.len()
        invariant
            i <= a@.len(),
            x == texts(a@),
            y == texts(b@),
            x.len() == y.len(),
            forall|j: int| 0 <= j < i ==> #[trigger] x[j] == y[j],
        decreases a@.len() - i,
    {
        if !same_text(a[i].as_str(), b[i].as_str()) {
            assert(x[i as int] != y[i as int]);
            return Verification::OrderMismatch;
        }
        i = i + 1;
    }
    assert(x =~= y);
    Verification::Match
}

/// The texts in lower case.
fn lower_texts(given: &[String]) -> (lowered: Vec<String>)
    ensures
        texts(lowered@) == all_lowercased(texts(given@)),
{
    let mut lowered: Vec<String> = Vec::new();
    let mut i: usize = 0;
    while i < given.len()
        invariant
            i <= given@.len(),
            lowered@.len() == i,
            forall|j: int| 0 <= j < i ==> (#[trigger] lowered@[j])@ == lowercased(given@[j]@),
        decreases given@.len() - i,
    {
        lowered.push(to_lowercase(given[i].as_str()));
        i = i + 1;
    }
    assert(texts(lowered@) =~= all_lowercased(texts(given@)));
    lowered
}

/// Compares the PCI addresses of the topology with those of the HIP runtime, letter case
/// aside.
pub fn verify_against_hip(sysfs_bdfs: &[String], hip_bdfs: &[String]) -> (v: Verification)
    ensures
        v == comparison(all_lowercased(texts(sysfs_bdfs@)), all_lowercased(texts(hip_bdfs@))),
{
    let sysfs = lower_texts(sysfs_bdfs);
    let hip = lower_texts(hip_bdfs);
    compare_devices(sysfs.as_slice(), hip.as_slice())
}

/// A PCI address in writing has twelve characters, as long as its parts are in range: four
/// hexadecimal digits of the domain, a colon, two of the bus, a colon, two of the device, a
/// point, and the function.
pub proof fn law_addresses_in_writing(domain: nat, bus: nat, device: nat, function: nat)
    requires
        domain < 0x1_0000,
        bus < 256,
        device < 32,
        function < 8,
    ensures
        ({
            let text = bdf_text(domain, bus, device, function);
            &&& text.len() == 12
            &&& text.take(4) == zero_padded(written(domain, 16), 4)
            &&& text[4] == ':'
            &&& text.subrange(5, 7) == zero_padded(written(bus, 16), 2)
            &&& text[7] == ':'
            &&& text.subrange(8, 10) == zero_padded(written(device, 16), 2)
            &&& text[10] == '.'
            &&& text.skip(11) == written(function, 10)
        }),
{
    reveal_with_fuel(sixteen, 5);
    lemma_hex_length(domain, 4);
    lemma_hex_length(bus, 2);
    lemma_hex_length(device, 2);
    law_padding(written(domain, 16), 4);
    law_padding(written(bus, 16), 2);
    law_padding(written(device, 16), 2);
    law_written_digits(function, 10);
    let text = bdf_text(domain, bus, device, function);
    assert(text.take(4) =~= zero_padded(written(domain, 16), 4));
    assert(text.subrange(5, 7) =~= zero_padded(written(bus, 16), 2));
    assert(text.subrange(8, 10) =~= zero_padded(written(device, 16), 2));
    assert(text.skip(11) =~= written(function, 10));
}

/// A number takes no more hexadecimal digits than it has.
proof fn lemma_hex_length(n: nat, digits: nat)
    requires
        digits > 0,
        n < sixteen(digits),
    ensures
        sixteen(2) == 256,
        sixteen(4) == 0x1_0000,
        written(n, 16).len() <= digits,
    decreases digits,
{
    reveal_with_fuel(sixteen, 5);
    law_written_digits(n, 16);
    if n >= 16 {
        assert(digits > 1);
        lemma_hex_length(n / 16, (digits - 1) as nat);
    }
}

/// A power of sixteen.
spec fn sixteen(n: nat) -> nat
    decreases n,
{
    if n == 0 {
        1
    } else {
        16 * sixteen((n - 1) as nat)
    }
}

/// A word in front of a blank is the first word, and what follows is left.
proof fn lemma_words(word: Seq<char>, rest: Seq<char>)
    requires
        word.len() > 0,
        forall|i: int| 0 <= i < word.len() ==> !white(#[trigger] word[i]),
    ensures
        first_word(word + seq![' '] + rest) == word,
        after_first_word(word + seq![' '] + rest) == seq![' '] + rest,
        first_word(seq![' '] + word) == word,
        first_word(word) == word,
{
    let s = word + seq![' '] + rest;
    assert(s[0] == word[0]);
    let tail = seq![' '] + rest;
    assert(s =~= word + tail);
    lemma_word_length(word, tail);
    assert(s.take(word.len() as int) =~= word);
    assert(s.skip(word.len() as int) =~= tail);
    let t = seq![' '] + word;
    assert(t[0] == ' ');
    assert(t.skip(1) =~= word);
    assert(trimmed_start(t) == trimmed_start(word));
    lemma_word_length(word, Seq::empty());
    assert(word + Seq::<char>::empty() =~= word);
    assert(word.take(word.len() as int) =~= word);
}

proof fn lemma_word_length(word: Seq<char>, rest: Seq<char>)
    requires
        forall|i: int| 0 <= i < word.len() ==> !white(#[trigger] word[i]),
        rest.len() == 0 || white(rest[0]),
    ensures
        word_length(word + rest) == word.len(),
    decreases word.len(),
{
    if word.len() > 0 {
        let tail = word.skip(1);
        assert((word + rest)[0] == word[0]);
        assert((word + rest).skip(1) =~= tail + rest);
        assert forall|i: int| 0 <= i < tail.len() implies !white(#[trigger] tail[i]) by {
            assert(tail[i] == word[i + 1]);
        }
        lemma_word_length(tail, rest);
    } else {
        assert(word + rest =~= rest);
    }
}

/// A line with a word, a blank and a number.
proof fn lemma_field_line(f: Fields, key: Seq<char>, n: u32)
    requires
        key.len() > 0,
        forall|i: int| 0 <= i < key.len() ==> !white(#[trigger] key[i]),
    ensures
        first_word(key + seq![' '] + written(n as nat, 10)) == key,
        first_word(after_first_word(key + seq![' '] + written(n as nat, 10))) == written(
            n as nat,
            10,
        ),
        written(n as nat, 10).len() > 0,
        field_value(key, written(n as nat, 10)) == Ok::<u32, Seq<char>>(n),
{
    let value = written(n as nat, 10);
    law_numbers_read_back(n as nat, u32::MAX as nat);
    law_written_digits(n as nat, 10);
    assert forall|i: int| 0 <= i < value.len() implies !white(#[trigger] value[i]) by {
        law_only_digits_are_read(value, i);
    }
    lemma_words(key, value);
    lemma_words(value, Seq::empty());
}

/// A line with the name of a field and a number sets that field to that number and leaves
/// the others alone; a line with any other name says nothing.
pub proof fn law_lines_set_fields(f: Fields, key: Seq<char>, n: u32)
    requires
        key.len() > 0,
        forall|i: int| 0 <= i < key.len() ==> !white(#[trigger] key[i]),
    ensures
        ({
            let line = key + seq![' '] + written(n as nat, 10);
            &&& after_line(f, line) is Ok
            &&& after_line(f, line)->Ok_0.domain == (if key == "domain"@ {
                Some(n)
            } else {
                f.domain
            })
            &&& after_line(f, line)->Ok_0.location_id == (if key == "location_id"@ {
                Some(n)
            } else {
                f.location_id
            })
            &&& after_line(f, line)->Ok_0.drm_render_minor == (if key == "drm_render_minor"@ {
                Some(n)
            } else {
                f.drm_render_minor
            })
        }),
{
    lemma_field_line(f, key, n);
    reveal_strlit("domain");
    reveal_strlit("location_id");
    reveal_strlit("drm_render_minor");
    assert("domain"@.len() == 6 && "location_id"@.len() == 11 && "drm_render_minor"@.len() == 16);
}

/// Lines are read one after the other, up to each line feed.
pub proof fn law_lines_are_read_in_order(f: Fields, line: Seq<char>, rest: Seq<char>)
    requires
        forall|i: int| 0 <= i < line.len() ==> #[trigger] line[i] != '\n',
    ensures
        after_lines(f, line) == after_line(f, line),
        after_line(f, line) is Ok ==> after_lines(f, line + seq!['\n'] + rest) == after_lines(
            after_line(f, line)->Ok_0,
            rest,
        ),
        after_line(f, line) is Err ==> after_lines(f, line + seq!['\n'] + rest) == after_line(
            f,
            line,
        ),
{
    lemma_line_length(line, Seq::empty());
    assert(line + Seq::<char>::empty() =~= line);
    assert(line.take(line.len() as int) =~= line);
    let s = line + seq!['\n'] + rest;
    let tail = seq!['\n'] + rest;
    assert(s =~= line + tail);
    lemma_line_length(line, tail);
    assert(s.take(line.len() as int) =~= line);
    assert(s.skip(line.len() as int + 1) =~= rest);
}

proof fn lemma_line_length(line: Seq<char>, rest: Seq<char>)
    requires
        forall|i: int| 0 <= i < line.len() ==> #[trigger] line[i] != '\n',
        rest.len() == 0 || rest[0] == '\n',
    ensures
        line_length(line + rest) == line.len(),
    decreases line.len(),
{
    if line.len() > 0 {
        let tail = line.skip(1);
        assert((line + rest)[0] == line[0]);
        assert((line + rest).skip(1) =~= tail + rest);
        assert forall|i: int| 0 <= i < tail.len() implies #[trigger] tail[i] != '\n' by {
            assert(tail[i] == line[i + 1]);
        }
        lemma_line_length(tail, rest);
    } else {
        assert(line + rest =~= rest);
    }
}

/// The properties of a node are complete exactly where all three fields were read; the first
/// that is missing is named.
pub proof fn law_properties_are_complete(s: Seq<char>)
    ensures
        ({
            let read = after_lines(
                Fields { domain: None, location_id: None, drm_render_minor: None },
                s,
            );
            &&& properties_of(s) is Ok <==> read is Ok && read->Ok_0.domain is Some
                && read->Ok_0.location_id is Some && read->Ok_0.drm_render_minor is Some
            &&& properties_of(s) matches Ok((domain, location_id, minor)) ==> read->Ok_0.domain
                == Some(domain) && read->Ok_0.location_id == Some(location_id)
                && read->Ok_0.drm_render_minor == Some(minor)
            &&& read is Err ==> properties_of(s) == Err::<(u32, u32, u32), EnumerationFailure>(
                EnumerationFailure::ParseError(read->Err_0),
            )
            &&& read is Ok && read->Ok_0.domain is None ==> properties_of(s) == Err::<
                (u32, u32, u32),
                EnumerationFailure,
            >(EnumerationFailure::MissingField("domain"@))
        }),
{
}

/// A node is a GPU by its number, with white space around it or not: every number but zero.
pub proof fn law_gpus_by_number(node: KfdNode, id: u64, a: Seq<char>, b: Seq<char>)
    requires
        node.gpu_id is Some,
        node.gpu_id->0@ == a + written(id as nat, 10) + b,
        blank(a),
        blank(b),
    ensures
        is_gpu(node) <==> id != 0,
{
    let digits = written(id as nat, 10);
    law_numbers_read_back(id as nat, u64::MAX as nat);
    law_written_digits(id as nat, 10);
    law_only_digits_are_read(digits, 0);
    law_only_digits_are_read(digits, digits.len() - 1);
    assert(trimmed(digits) == digits);
    lemma_trimmed_surrounded(a, digits, b);
}

/// A node without a number is none, and one without properties asks for no render device.
pub proof fn law_nodes_that_are_left_out(node: KfdNode, present: Seq<u32>)
    ensures
        node.gpu_id is None ==> !is_gpu(node),
        node_device(node, present) is Some <==> {
            &&& is_gpu(node)
            &&& node.properties is Some
            &&& properties_of(node.properties->0@) is Ok
            &&& present.contains((properties_of(node.properties->0@)->Ok_0).2)
        },
        node_device(node, present) matches Some(device) ==> {
            let (domain, location_id, minor) = properties_of(node.properties->0@)->Ok_0;
            &&& device.1 == minor
            &&& device.0 == bdf_text(
                domain as nat,
                (location_id as nat / 256) % 256,
                (location_id as nat / 8) % 32,
                location_id as nat % 8,
            )
        },
{
}

/// The devices are those of the nodes, in their order: every node with a device adds it at
/// the end, and the others add nothing.
pub proof fn law_devices_of_nodes(nodes: Seq<KfdNode>, present: Seq<u32>, n: nat, i: int)
    requires
        n <= nodes.len(),
        0 <= i < n,
    ensures
        node_devices(nodes, present, n).len() <= n,
        node_device(nodes[i], present) matches Some(device) ==> node_devices(
            nodes,
            present,
            n,
        ).contains(device),
        node_devices(nodes, present, n).len() == 0 ==> node_device(nodes[i], present) is None,
        node_device(nodes[n - 1], present) matches Some(device) ==> node_devices(
            nodes,
            present,
            n,
        ) == node_devices(nodes, present, (n - 1) as nat).push(device),
    decreases n,
{
    lemma_few_devices(nodes, present, n);
    let all = node_devices(nodes, present, n);
    let rest = node_devices(nodes, present, (n - 1) as nat);
    if i < n - 1 {
        law_devices_of_nodes(nodes, present, (n - 1) as nat, i);
        if node_device(nodes[i], present) is Some {
            let device = node_device(nodes[i], present)->0;
            let k = choose|k: int| 0 <= k < rest.len() && rest[k] == device;
            assert(all[k] == device);
        }
    } else if node_device(nodes[i], present) is Some {
        assert(all.last() == node_device(nodes[i], present)->0);
    }
}

proof fn lemma_few_devices(nodes: Seq<KfdNode>, present: Seq<u32>, n: nat)
    requires
        n <= nodes.len(),
    ensures
        node_devices(nodes, present, n).len() <= n,
    decreases n,
{
    if n > 0 {
        lemma_few_devices(nodes, present, (n - 1) as nat);
    }
}

/// The numbers among names are those that are written in full, and no other name counts.
pub proof fn law_nodes_by_number(names: Seq<Seq<char>>, n: nat, id: u32)
    requires
        n <= names.len(),
    ensures
        numeric_names(names, n).contains(id) <==> exists|i: int|
            0 <= i < n && bounded_value(#[trigger] names[i], u32::MAX as nat) == Some(id as nat),
    decreases n,
{
    if n > 0 {
        let m = (n - 1) as nat;
        law_nodes_by_number(names, m, id);
        let rest = numeric_names(names, m);
        let all = numeric_names(names, n);
        if rest.contains(id) {
            let k = choose|k: int| 0 <= k < rest.len() && rest[k] == id;
            assert(all[k] == id);
        }
        if bounded_value(names[n - 1], u32::MAX as nat) == Some(id as nat) {
            assert(all.last() == id);
        }
        if all.contains(id) {
            let k = choose|k: int| 0 <= k < all.len() && all[k] == id;
            if k < rest.len() {
                assert(rest[k] == id);
            } else {
                assert(bounded_value(names[n - 1], u32::MAX as nat) == Some(id as nat));
            }
        }
    }
}

/// Two lists agree exactly where they are as long and the same at every place.
pub proof fn law_lists_agree(a: Seq<Seq<char>>, b: Seq<Seq<char>>)
    ensures
        comparison(a, b) == Verification::CountMismatch <==> a.len() != b.len(),
        comparison(a, b) == Verification::Match <==> a.len() == b.len() && forall|i: int|
            0 <= i < a.len() ==> #[trigger] a[i] == b[i],
        all_lowercased(a).len() == a.len(),
        forall|i: int| 0 <= i < a.len() ==> #[trigger] all_lowercased(a)[i] == lowercased(a[i]),
{
    if a.len() == b.len() && (forall|i: int| 0 <= i < a.len() ==> #[trigger] a[i] == b[i]) {
        assert(a =~= b);
    }
}

/// A line with one word says nothing, and neither does one without any. A value that is no
/// number is a failure where a field asks for one, and says so with both words.
pub proof fn law_lines_without_numbers(f: Fields, key: Seq<char>, value: Seq<char>)
    requires
        key.len() > 0,
        value.len() > 0,
        forall|i: int| 0 <= i < key.len() ==> !white(#[trigger] key[i]),
        forall|i: int| 0 <= i < value.len() ==> !white(#[trigger] value[i]),
    ensures
        after_line(f, key) == Ok::<Fields, Seq<char>>(f),
        after_line(f, Seq::empty()) == Ok::<Fields, Seq<char>>(f),
        bounded_value(value, u32::MAX as nat) is None && (key == "domain"@ || key
            == "location_id"@ || key == "drm_render_minor"@) ==> after_line(
            f,
            key + seq![' '] + value,
        ) == Err::<Fields, Seq<char>>(key + ": "@ + value),
{
    lemma_words(key, value);
    lemma_words(value, Seq::empty());
    assert(key[0] == key[0] && !white(key[0]));
    assert(trimmed_start(key) == key);
    lemma_word_length(key, Seq::empty());
    assert(key + Seq::<char>::empty() =~= key);
    let nothing = after_first_word(key);
    assert(nothing =~= Seq::<char>::empty());
    assert(trimmed_start(nothing) =~= Seq::<char>::empty());
    assert(first_word(nothing) =~= Seq::<char>::empty());
    let empty = Seq::<char>::empty();
    assert(trimmed_start(empty) =~= empty);
    assert(after_first_word(empty) =~= empty);
    assert(first_word(empty) =~= empty);
}

/// Of three missing fields the first is named: the domain, then the location, then the render
/// device.
pub proof fn law_missing_fields_are_named(s: Seq<char>)
    requires
        after_lines(Fields { domain: None, location_id: None, drm_render_minor: None }, s) is Ok,
    ensures
        ({
            let read = after_lines(
                Fields { domain: None, location_id: None, drm_render_minor: None },
                s,
            )->Ok_0;
            &&& read.domain is Some && read.location_id is None ==> properties_of(s) == Err::<
                (u32, u32, u32),
                EnumerationFailure,
            >(EnumerationFailure::MissingField("location_id"@))
            &&& read.domain is Some && read.location_id is Some && read.drm_render_minor is None
                ==> properties_of(s) == Err::<(u32, u32, u32), EnumerationFailure>(
                EnumerationFailure::MissingField("drm_render_minor"@),
            )
        }),
{
}

/// A node whose number cannot be read is no GPU.
pub proof fn law_gpus_have_numbers(node: KfdNode)
    ensures
        is_gpu(node) ==> node.gpu_id is Some && bounded_value(
            trimmed(node.gpu_id->0@),
            0xffff_ffff_ffff_ffff,
        ) is Some,
{
}

/// Devices as plain values are the devices, one by one.
pub proof fn law_found_devices_as_plain_values(devices: Seq<GpuDevice>, i: int)
    requires
        0 <= i < devices.len(),
    ensures
        device_values(devices).len() == devices.len(),
        device_values(devices)[i].0 == devices[i].pci_bdf@,
        device_values(devices)[i].1 == devices[i].render_minor,
{
}

} // verus!
