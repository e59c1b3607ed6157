//! What the annotations and labels of a pod ask for.
use crate::quantity::{
    memory_value, parse_memory_value, parse_tflops_value, tflops_value, Tflops, TflopsUnit,
};
use crate::text::{chars_of, part, push_text, same_text, string_of, texts, trim, trimmed};
use crate::text_map::TextMap;
use std::collections::BTreeMap;
use vstd::prelude::*;

verus! {

/// How important a pod is.
#[derive(Clone, Copy, PartialEq, Eq, Structural, Debug)]
pub enum QosLevel {
    /// Low.
    Low,
    /// Medium.
    Medium,
    /// High.
    High,
    /// Critical.
    Critical,
}

/// Why the annotations of a pod cannot be used.
#[derive(Debug)]
pub enum KubernetesError {
    /// An annotation cannot be read.
    AnnotationParseError {
        /// What is wrong with it.
        message: String,
    },
}

impl View for KubernetesError {
    type V = Seq<char>;

    open spec fn view(&self) -> Seq<char> {
        match *self {
            KubernetesError::AnnotationParseError { message } => message@,
        }
    }
}

/// What a pod asks for.
pub struct PodResourceInfo {
    /// The labels of the pod.
    pub labels: TextMap<String>,
    /// The workload that the pod belongs to.
    pub workload_name: Option<String>,
    /// The compute that is asked for.
    pub tflops_request: Option<Tflops>,
    /// The memory that is asked for.
    pub vram_request: Option<u64>,
    /// The compute that may be used.
    pub tflops_limit: Option<Tflops>,
    /// The memory that may be used.
    pub vram_limit: Option<u64>,
    /// The GPUs of the pod.
    pub gpu_uuids: Option<Vec<String>>,
    /// The GPUs of each container.
    pub container_gpu_uuids: Option<TextMap<Vec<String>>>,
    /// How important the pod is.
    pub qos_level: Option<QosLevel>,
    /// The containers that are to be limited.
    pub containers: Option<Vec<String>>,
    /// Whether compute is shared without limits.
    pub compute_shard: bool,
    /// The isolation that is asked for.
    pub isolation: Option<String>,
}

/// The requests of a pod.
pub struct TensorFusionPodInfo(pub PodResourceInfo);

/// A text map with the characters of its values.
pub open spec fn values_of(m: TextMap<String>) -> Map<Seq<char>, Seq<char>> {
    m@.map_values(|v: String| v@)
}

/// A text map with the characters of its lists.
pub open spec fn lists_of(m: TextMap<Vec<String>>) -> Map<Seq<char>, Seq<Seq<char>>> {
    m@.map_values(|v: Vec<String>| texts(v@))
}

/// The value of a key, where it has one.
pub open spec fn entry(m: Map<Seq<char>, Seq<char>>, key: Seq<char>) -> Option<Seq<char>> {
    if m.dom().contains(key) {
        Some(m[key])
    } else {
        None
    }
}

/// An annotation that says something: it is there, and not just white space.
pub open spec fn said(m: Map<Seq<char>, Seq<char>>, key: Seq<char>) -> Option<Seq<char>> {
    match entry(m, key) {
        Some(v) => if trimmed(v).len() > 0 {
            Some(v)
        } else {
            None
        },
        None => None,
    }
}

/// The number of characters in front of the first comma.
pub open spec fn comma_at(s: Seq<char>) -> nat
    decreases s.len(),
{
    if s.len() == 0 || s[0] == ',' {
        0
    } else {
        1 + comma_at(s.skip(1))
    }
}

/// The parts of a text between its commas.
pub open spec fn comma_parts(s: Seq<char>) -> Seq<Seq<char>>
    decreases s.len(),
{
    let n = comma_at(s) as int;
    if n < s.len() {
        seq![s.take(n)] + comma_parts(s.skip(n + 1))
    } else {
        seq![s]
    }
}

/// Takes a text apart at its commas.
pub fn split_commas(s: &str) -> (parts: Vec<String>)
    ensures
        texts(parts@) == comma_parts(s@),
{
    let v = chars_of(s);
    let mut parts: Vec<String> = Vec::new();
    let mut from: usize = 0;
    proof {
        assert(v@.skip(0) =~= s@);
        assert(texts(parts@) + comma_parts(s@.skip(0)) =~= comma_parts(s@));
    }
    loop
        invariant_except_break
            v@ == s@,
            from <= v@.len(),
            comma_parts(s@) == texts(parts@) + comma_parts(s@.skip(from as int)),
        ensures
            texts(parts@) == comma_parts(s@),
        decreases v@.len() - from,
    {
        let ghost rest = s@.skip(from as int);
        let mut end: usize = from;
        while end < v.len() && v[end] != ','
            invariant
                from <= end <= v@.len(),
                v@ == s@,
                rest == s@.skip(from as int),
                comma_at(rest) == (end - from) + comma_at(s@.skip(end as int)),
            decreases v@.len() - end,
        {
            assert(s@.skip(end as int).skip(1) =~= s@.skip(end + 1));
            end = end + 1;
        }
        let ghost before = texts(parts@);
        let piece = part(v.as_slice(), from, end);
        parts.push(string_of(piece.as_slice()));
        assert(texts(parts@) =~= before.push(piece@));
        assert(piece@ =~= rest.take(end - from));
        if end < v.len() {
            assert(rest.skip(end - from + 1) =~= s@.skip(end + 1));
            assert(before + (seq![piece@] + comma_parts(s@.skip(end + 1))) =~= texts(parts@)
                + comma_parts(s@.skip(end + 1)));
            from = end + 1;
        } else {
            assert(piece@ =~= rest);
            assert(before + seq![rest] =~= texts(parts@));
            break;
        }
    }
    parts
}

/// The importance that a text stands for; what is not known is medium.
pub open spec fn qos_of(s: Seq<char>) -> QosLevel {
    if s == "High"@ || s == "high"@ {
        QosLevel::High
    } else if s == "Low"@ || s == "low"@ {
        QosLevel::Low
    } else if s == "Critical"@ || s == "critical"@ {
        QosLevel::Critical
    } else {
        QosLevel::Medium
    }
}

/// Reads an importance.
pub fn parse_qos(s: &str) -> (q: QosLevel)
    ensures
        q == qos_of(s@),
{
    if same_text(s, "High") || same_text(s, "high") {
        QosLevel::High
    } else if same_text(s, "Low") || same_text(s, "low") {
        QosLevel::Low
    } else if same_text(s, "Critical") || same_text(s, "critical") {
        QosLevel::Critical
    } else {
        QosLevel::Medium
    }
}

/// The object of lists that a JSON text stands for, in the order of its keys; `None`
/// where it is no such text.
pub uninterp spec fn json_lists(s: Seq<char>) -> Option<Seq<(Seq<char>, Seq<Seq<char>>)>>;

/// Lists under keys, as plain values.
pub open spec fn lists_view(
    r: Option<Vec<(String, Vec<String>)>>,
) -> Option<Seq<(Seq<char>, Seq<Seq<char>>)>> {
    match r {
        Some(pairs) => Some(
            Seq::new(pairs@.len(), |i: int| (pairs@[i].0@, texts(pairs@[i].1@))),
        ),
        None => None,
    }
}

/// Trusted: `serde_json::from_str` reads an object whose values are lists of texts into a
/// `BTreeMap`, or fails; which of the two, and what it reads, depends on the text alone.
#[verifier::external_body]
fn read_json_lists(s: &str) -> (r: Option<Vec<(String, Vec<String>)>>)
    ensures
        lists_view(r) == json_lists(s@),
{
    serde_json::from_str::<BTreeMap<String, Vec<String>>>(s).ok().map(|m| m.into_iter().collect())
}

/// The first `n` texts without white space around them, and without those that are
/// nothing else.
pub open spec fn cleaned_list(list: Seq<Seq<char>>, n: nat) -> Seq<Seq<char>>
    decreases n,
{
    if n == 0 {
        Seq::empty()
    } else {
        let rest = cleaned_list(list, (n - 1) as nat);
        let item = trimmed(list[n - 1]);
        if item.len() > 0 {
            rest.push(item)
        } else {
            rest
        }
    }
}

/// The first `n` lists, cleaned, under their keys without white space around them; empty
/// lists are left out, and of two lists under one key the later one stays.
pub open spec fn cleaned_lists(
    pairs: Seq<(Seq<char>, Seq<Seq<char>>)>,
    n: nat,
) -> Map<Seq<char>, Seq<Seq<char>>>
    decreases n,
{
    if n == 0 {
        Map::empty()
    } else {
        let rest = cleaned_lists(pairs, (n - 1) as nat);
        let (key, list) = pairs[n - 1];
        let cleaned = cleaned_list(list, list.len());
        if cleaned.len() > 0 {
            rest.insert(trimmed(key), cleaned)
        } else {
            rest
        }
    }
}

/// A text without white space around it.
fn trim_text(s: &str) -> (r: String)
    ensures
        r@ == trimmed(s@),
{
    let v = chars_of(s);
    let t = trim(v.as_slice());
    string_of(t.as_slice())
}

/// Cleans a list: takes the white space off its texts, and drops those that are nothing
/// else.
fn clean_list(list: &Vec<String>) -> (r: Vec<String>)
    ensures
        texts(r@) == cleaned_list(texts(list@), list@.len()),
{
    let mut r: Vec<String> = Vec::new();
    let mut i: usize = 0;
    assert(texts(r@) =~= Seq::empty());
    while i < list.len()
        invariant
            i <= list@.len(),
            texts(r@) == cleaned_list(texts(list@), i as nat),
        decreases list@.len() - i,
    {
        let item = trim_text(list[i].as_str());
        let ghost before = texts(r@);
        assert(texts(list@)[i as int] == list@[i as int]@);
        if item.as_str().unicode_len() > 0 {
            r.push(item);
            assert(texts(r@) =~= before.push(item@));
        }
        i = i + 1;
    }
    r
}

/// Cleans the GPU lists of containers.
pub fn clean_container_gpus(pairs: &Vec<(String, Vec<String>)>) -> (m: TextMap<Vec<String>>)
    ensures
        m.wf(),
        lists_of(m) == cleaned_lists(
            Seq::new(pairs@.len(), |i: int| (pairs@[i].0@, texts(pairs@[i].1@))),
            pairs@.len(),
        ),
{
    let ghost given = Seq::new(pairs@.len(), |i: int| (pairs@[i].0@, texts(pairs@[i].1@)));
    let mut m: TextMap<Vec<String>> = TextMap::new();
    let mut i: usize = 0;
    assert(lists_of(m) =~= Map::empty());
    while i < pairs.len()
        invariant
            i <= pairs@.len(),
            m.wf(),
            given == Seq::new(pairs@.len(), |i: int| (pairs@[i].0@, texts(pairs@[i].1@))),
            lists_of(m) == cleaned_lists(given, i as nat),
        decreases pairs@.len() - i,
    {
        let cleaned = clean_list(&pairs[i].1);
        assert(given[i as int] == (pairs@[i as int].0@, texts(pairs@[i as int].1@)));
        assert(texts(cleaned@).len() == cleaned@.len());
        let ghost before = m;
        if cleaned.len() > 0 {
            let key = trim_text(pairs[i].0.as_str());
            let ghost (k, c) = (key@, cleaned);
            m.insert(key, cleaned);
            assert(lists_of(m) =~= lists_of(before).insert(k, texts(c@)));
        }
        i = i + 1;
    }
    m
}

/// The requests of a pod as plain values.
pub struct PodRequests {
    /// The labels of the pod.
    pub labels: Map<Seq<char>, Seq<char>>,
    /// The workload that the pod belongs to.
    pub workload_name: Option<Seq<char>>,
    /// The compute that is asked for.
    pub tflops_request: Option<(Seq<char>, TflopsUnit)>,
    /// The memory that is asked for.
    pub vram_request: Option<u64>,
    /// The compute that may be used.
    pub tflops_limit: Option<(Seq<char>, TflopsUnit)>,
    /// The memory that may be used.
    pub vram_limit: Option<u64>,
    /// The GPUs of the pod.
    pub gpu_uuids: Option<Seq<Seq<char>>>,
    /// The GPUs of each container.
    pub container_gpu_uuids: Option<Map<Seq<char>, Seq<Seq<char>>>>,
    /// How important the pod is.
    pub qos_level: Option<QosLevel>,
    /// The containers that are to be limited.
    pub containers: Option<Seq<Seq<char>>>,
    /// Whether compute is shared without limits.
    pub compute_shard: bool,
    /// The isolation that is asked for.
    pub isolation: Option<Seq<char>>,
}

/// An amount of compute as plain values.
pub open spec fn tflops_view(t: Option<Tflops>) -> Option<(Seq<char>, TflopsUnit)> {
    match t {
        Some(t) => Some((t.number@, t.unit)),
        None => None,
    }
}

/// A list of texts as plain values.
pub open spec fn list_view(l: Option<Vec<String>>) -> Option<Seq<Seq<char>>> {
    match l {
        Some(l) => Some(texts(l@)),
        None => None,
    }
}

/// A text as plain values.
pub open spec fn text_view(t: Option<String>) -> Option<Seq<char>> {
    match t {
        Some(t) => Some(t@),
        None => None,
    }
}

impl View for TensorFusionPodInfo {
    type V = PodRequests;

    open spec fn view(&self) -> PodRequests {
        PodRequests {
            labels: values_of(self.0.labels),
            workload_name: text_view(self.0.workload_name),
            tflops_request: tflops_view(self.0.tflops_request),
            vram_request: self.0.vram_request,
            tflops_limit: tflops_view(self.0.tflops_limit),
            vram_limit: self.0.vram_limit,
            gpu_uuids: list_view(self.0.gpu_uuids),
            container_gpu_uuids: match self.0.container_gpu_uuids {
                Some(m) => Some(lists_of(m)),
                None => None,
            },
            qos_level: self.0.qos_level,
            containers: list_view(self.0.containers),
            compute_shard: self.0.compute_shard,
            isolation: text_view(self.0.isolation),
        }
    }
}

/// The compute that an annotation asks for.
pub open spec fn annotated_tflops(
    a: Map<Seq<char>, Seq<char>>,
    key: Seq<char>,
) -> Result<Option<(Seq<char>, TflopsUnit)>, Seq<char>> {
    match said(a, key) {
        None => Ok(None),
        Some(v) => match tflops_value(v) {
            Ok(t) => Ok(Some(t)),
            Err(e) => Err(e),
        },
    }
}

/// The memory that an annotation asks for.
pub open spec fn annotated_memory(
    a: Map<Seq<char>, Seq<char>>,
    key: Seq<char>,
) -> Result<Option<u64>, Seq<char>> {
    match said(a, key) {
        None => Ok(None),
        Some(v) => match memory_value(v) {
            Ok(bytes) => Ok(Some(bytes)),
            Err(e) => Err(e),
        },
    }
}

/// The list that an annotation holds.
pub open spec fn annotated_list(
    a: Map<Seq<char>, Seq<char>>,
    key: Seq<char>,
) -> Option<Seq<Seq<char>>> {
    match said(a, key) {
        None => None,
        Some(v) => Some(comma_parts(v)),
    }
}

/// The GPUs of each container, as an annotation holds them: none where no list is left.
pub open spec fn annotated_containers(
    a: Map<Seq<char>, Seq<char>>,
    json: spec_fn(Seq<char>) -> Option<Seq<(Seq<char>, Seq<Seq<char>>)>>,
) -> Result<Option<Map<Seq<char>, Seq<Seq<char>>>>, Seq<char>> {
    match said(a, "tensor-fusion.ai/container-gpus"@) {
        None => Ok(None),
        Some(v) => match json(v) {
            None => Err("Invalid container-gpus JSON format: "@ + v),
            Some(pairs) => {
                let lists = cleaned_lists(pairs, pairs.len());
                if lists == Map::<Seq<char>, Seq<Seq<char>>>::empty() {
                    Ok(None)
                } else {
                    Ok(Some(lists))
                }
            },
        },
    }
}

/// What the annotations and labels of a pod come to, or the first thing that is wrong
/// with them. `json` reads objects of lists.
pub open spec fn pod_requests(
    a: Map<Seq<char>, Seq<char>>,
    labels: Map<Seq<char>, Seq<char>>,
    json: spec_fn(Seq<char>) -> Option<Seq<(Seq<char>, Seq<Seq<char>>)>>,
) -> Result<PodRequests, Seq<char>> {
    match annotated_tflops(a, "tensor-fusion.ai/tflops-request"@) {
        Err(e) => Err(e),
        Ok(tflops_request) => match annotated_memory(a, "tensor-fusion.ai/vram-request"@) {
            Err(e) => Err(e),
            Ok(vram_request) => match annotated_tflops(a, "tensor-fusion.ai/tflops-limit"@) {
                Err(e) => Err(e),
                Ok(tflops_limit) => match annotated_memory(a, "tensor-fusion.ai/vram-limit"@) {
                    Err(e) => Err(e),
                    Ok(vram_limit) => match annotated_containers(a, json) {
                        Err(e) => Err(e),
                        Ok(container_gpu_uuids) => Ok(
                            PodRequests {
                                labels,
                                workload_name: entry(labels, "tensor-fusion.ai/workload"@),
                                tflops_request,
                                vram_request,
                                tflops_limit,
                                vram_limit,
                                gpu_uuids: annotated_list(a, "tensor-fusion.ai/gpu-ids"@),
                                container_gpu_uuids,
                                qos_level: match entry(a, "tensor-fusion.ai/qos"@) {
                                    Some(v) => Some(qos_of(v)),
                                    None => None,
                                },
                                containers: annotated_list(
                                    a,
                                    "tensor-fusion.ai/inject-container"@,
                                ),
                                compute_shard: entry(a, "tensor-fusion.ai/isolation"@) == Some(
                                    "shared"@,
                                ),
                                isolation: entry(a, "tensor-fusion.ai/isolation"@),
                            },
                        ),
                    },
                },
            },
        },
    }
}

/// Whether a text is more than white space.
fn says_something(s: &str) -> (b: bool)
    ensures
        b == (trimmed(s@).len() > 0),
{
    let v = chars_of(s);
    let t = trim(v.as_slice());
    t.len() > 0
}

/// A text of an annotation or a label.
fn lookup(m: &TextMap<String>, key: &str) -> (r: Option<String>)
    requires
        m.wf(),
    ensures
        text_view(r) == entry(values_of(*m), key@),
{
    match m.get(key) {
        Some(v) => Some(v.clone()),
        None => None,
    }
}

/// A text of an annotation that says something.
fn lookup_said(m: &TextMap<String>, key: &str) -> (r: Option<String>)
    requires
        m.wf(),
    ensures
        text_view(r) == said(values_of(*m), key@),
{
    match lookup(m, key) {
        Some(v) => if says_something(v.as_str()) {
            Some(v)
        } else {
            None
        },
        None => None,
    }
}

/// Reads the compute that an annotation asks for.
fn read_tflops(m: &TextMap<String>, key: &str) -> (r: Result<Option<Tflops>, KubernetesError>)
    requires
        m.wf(),
    ensures
        match annotated_tflops(values_of(*m), key@) {
            Ok(t) => r is Ok && tflops_view(r->Ok_0) == t,
            Err(e) => r is Err && r->Err_0@ == e,
        },
{
    match lookup_said(m, key) {
        None => Ok(None),
        Some(v) => match parse_tflops_value(v.as_str()) {
            Ok(t) => Ok(Some(t)),
            Err(message) => Err(KubernetesError::AnnotationParseError { message }),
        },
    }
}

/// Reads the memory that an annotation asks for.
fn read_memory(m: &TextMap<String>, key: &str) -> (r: Result<Option<u64>, KubernetesError>)
    requires
        m.wf(),
    ensures
        match annotated_memory(values_of(*m), key@) {
            Ok(bytes) => r is Ok && r->Ok_0 == bytes,
            Err(e) => r is Err && r->Err_0@ == e,
        },
{
    match lookup_said(m, key) {
        None => Ok(None),
        Some(v) => match parse_memory_value(v.as_str()) {
            Ok(bytes) => Ok(Some(bytes)),
            Err(message) => Err(KubernetesError::AnnotationParseError { message }),
        },
    }
}

/// Reads the list that an annotation holds.
fn read_list(m: &TextMap<String>, key: &str) -> (r: Option<Vec<String>>)
    requires
        m.wf(),
    ensures
        list_view(r) == annotated_list(values_of(*m), key@),
{
    match lookup_said(m, key) {
        None => None,
        Some(v) => Some(split_commas(v.as_str())),
    }
}

/// Makes use of what was read from an annotation with the GPUs of each container.
pub fn container_gpus_from(
    value: &str,
    read: Option<Vec<(String, Vec<String>)>>,
) -> (r: Result<Option<TextMap<Vec<String>>>, KubernetesError>)
    ensures
        match lists_view(read) {
            None => r is Err && r->Err_0@ == "Invalid container-gpus JSON format: "@
                + value@,
            Some(pairs) => {
                let lists = cleaned_lists(pairs, pairs.len());
                &&& r is Ok
                &&& r->Ok_0 is None <==> lists == Map::<Seq<char>, Seq<Seq<char>>>::empty()
                &&& r->Ok_0 matches Some(m) ==> m.wf() && lists_of(m) == lists
            },
        },
{
    match read {
        None => {
            let mut message = String::new();
            push_text(&mut message, "Invalid container-gpus JSON format: ");
            push_text(&mut message, value);
            assert(message@ =~= "Invalid container-gpus JSON format: "@ + value@);
            Err(KubernetesError::AnnotationParseError { message })
        },
        Some(pairs) => {
            let m = clean_container_gpus(&pairs);
            if m.is_empty() {
                assert(lists_of(m) =~= Map::<Seq<char>, Seq<Seq<char>>>::empty());
                Ok(None)
            } else {
                proof {
                    if lists_of(m) == Map::<Seq<char>, Seq<Seq<char>>>::empty() {
                        assert(m@.dom() =~= lists_of(m).dom());
                        assert(m@ =~= Map::<Seq<char>, Vec<String>>::empty());
                    }
                }
                Ok(Some(m))
            }
        },
    }
}

/// Reads the GPUs of each container.
fn read_containers(
    m: &TextMap<String>,
) -> (r: Result<Option<TextMap<Vec<String>>>, KubernetesError>)
    requires
        m.wf(),
    ensures
        match annotated_containers(values_of(*m), |s: Seq<char>| json_lists(s)) {
            Ok(lists) => {
                &&& r is Ok
                &&& match r->Ok_0 {
                    Some(m) => m.wf() && lists == Some(lists_of(m)),
                    None => lists is None,
                }
            },
            Err(e) => r is Err && r->Err_0@ == e,
        },
{
    match lookup_said(m, "tensor-fusion.ai/container-gpus") {
        None => Ok(None),
        Some(v) => {
            let read = read_json_lists(v.as_str());
            container_gpus_from(v.as_str(), read)
        },
    }
}

impl TensorFusionPodInfo {
    /// Reads the annotations and labels of a pod. Annotations of other domains, and those
    /// that say nothing, are passed over. Fails on the first one that cannot be read.
    pub fn from_pod_annotations_labels(
        annotations: &TextMap<String>,
        labels: &TextMap<String>,
    ) -> (r: Result<Self, KubernetesError>)
        requires
            annotations.wf(),
            labels.wf(),
        ensures
            match pod_requests(
                values_of(*annotations),
                values_of(*labels),
                |s: Seq<char>| json_lists(s),
            ) {
                Ok(requests) => r is Ok && r->Ok_0@ == requests && r->Ok_0.0.labels.wf() && (
                r->Ok_0.0.container_gpu_uuids matches Some(m) ==> m.wf()),
                Err(e) => r is Err && r->Err_0@ == e,
            },
    {
        let tflops_request = match read_tflops(annotations, "tensor-fusion.ai/tflops-request") {
            Ok(t) => t,
            Err(e) => {
                return Err(e);
            },
        };
        let vram_request: Option<u64> = match read_memory(
            annotations,
            "tensor-fusion.ai/vram-request",
        ) {
            Ok(bytes) => bytes,
            Err(e) => {
                return Err(e);
            },
        };
        let tflops_limit = match read_tflops(annotations, "tensor-fusion.ai/tflops-limit") {
            Ok(t) => t,
            Err(e) => {
                return Err(e);
            },
        };
        let vram_limit: Option<u64> = match read_memory(
            annotations,
            "tensor-fusion.ai/vram-limit",
        ) {
            Ok(bytes) => bytes,
            Err(e) => {
                return Err(e);
            },
        };
        let gpu_uuids = read_list(annotations, "tensor-fusion.ai/gpu-ids");
        let container_gpu_uuids = match read_containers(annotations) {
            Ok(m) => m,
            Err(e) => {
                return Err(e);
            },
        };
        let qos_level = match lookup(annotations, "tensor-fusion.ai/qos") {
            Some(v) => Some(parse_qos(v.as_str())),
            None => None,
        };
        let containers = read_list(annotations, "tensor-fusion.ai/inject-container");
        let isolation = lookup(annotations, "tensor-fusion.ai/isolation");
        let compute_shard = match &isolation {
            Some(v) => same_text(v.as_str(), "shared"),
            None => false,
        };
        Ok(
            TensorFusionPodInfo(
                PodResourceInfo {
                    labels: labels.copy(),
                    workload_name: lookup(labels, "tensor-fusion.ai/workload"),
                    tflops_request,
                    vram_request,
                    tflops_limit,
                    vram_limit,
                    gpu_uuids,
                    container_gpu_uuids,
                    qos_level,
                    containers,
                    compute_shard,
                    isolation,
                },
            ),
        )
    }

    /// Whether any annotation asks for something.
    pub fn has_annotations(&self) -> (b: bool)
        ensures
            b == ({
                ||| self@.tflops_request is Some
                ||| self@.vram_request is Some
                ||| self@.tflops_limit is Some
                ||| self@.vram_limit is Some
                ||| self@.gpu_uuids is Some
                ||| self@.container_gpu_uuids is Some
                ||| self@.qos_level is Some
                ||| self@.containers is Some
                ||| self@.isolation is Some
            }),
    {
        self.0.tflops_request.is_some() || self.0.vram_request.is_some()
            || self.0.tflops_limit.is_some() || self.0.vram_limit.is_some()
            || self.0.gpu_uuids.is_some() || self.0.container_gpu_uuids.is_some()
            || self.0.qos_level.is_some() || self.0.containers.is_some()
            || self.0.isolation.is_some()
    }
}

/// Without annotations nothing is asked for, whatever the labels are.
pub proof fn law_no_annotations_no_requests(
    labels: Map<Seq<char>, Seq<char>>,
    json: spec_fn(Seq<char>) -> Option<Seq<(Seq<char>, Seq<Seq<char>>)>>,
)
    ensures
        pod_requests(Map::empty(), labels, json) == Ok::<PodRequests, Seq<char>>(
            PodRequests {
                labels,
                workload_name: entry(labels, "tensor-fusion.ai/workload"@),
                tflops_request: None,
                vram_request: None,
                tflops_limit: None,
                vram_limit: None,
                gpu_uuids: None,
                container_gpu_uuids: None,
                qos_level: None,
                containers: None,
                compute_shard: false,
                isolation: None,
            },
        ),
{
}

/// The keys of the annotations that are read.
pub open spec fn is_read(key: Seq<char>) -> bool {
    ||| key == "tensor-fusion.ai/tflops-request"@
    ||| key == "tensor-fusion.ai/vram-request"@
    ||| key == "tensor-fusion.ai/tflops-limit"@
    ||| key == "tensor-fusion.ai/vram-limit"@
    ||| key == "tensor-fusion.ai/gpu-ids"@
    ||| key == "tensor-fusion.ai/container-gpus"@
    ||| key == "tensor-fusion.ai/qos"@
    ||| key == "tensor-fusion.ai/inject-container"@
    ||| key == "tensor-fusion.ai/isolation"@
}

/// An annotation under any other key changes nothing.
pub proof fn law_other_annotations_do_not_matter(
    a: Map<Seq<char>, Seq<char>>,
    labels: Map<Seq<char>, Seq<char>>,
    json: spec_fn(Seq<char>) -> Option<Seq<(Seq<char>, Seq<Seq<char>>)>>,
    key: Seq<char>,
    value: Seq<char>,
)
    requires
        !is_read(key),
    ensures
        pod_requests(a.insert(key, value), labels, json) == pod_requests(a, labels, json),
{
}

/// No annotation of another domain is read.
pub proof fn law_other_domains_are_not_read(key: Seq<char>)
    requires
        !"tensor-fusion.ai/"@.is_prefix_of(key),
    ensures
        !is_read(key),
{
    reveal_strlit("tensor-fusion.ai/");
    reveal_strlit("tensor-fusion.ai/tflops-request");
    reveal_strlit("tensor-fusion.ai/vram-request");
    reveal_strlit("tensor-fusion.ai/tflops-limit");
    reveal_strlit("tensor-fusion.ai/vram-limit");
    reveal_strlit("tensor-fusion.ai/gpu-ids");
    reveal_strlit("tensor-fusion.ai/container-gpus");
    reveal_strlit("tensor-fusion.ai/qos");
    reveal_strlit("tensor-fusion.ai/inject-container");
    reveal_strlit("tensor-fusion.ai/isolation");
    let p = "tensor-fusion.ai/"@;
    assert(p =~= "tensor-fusion.ai/tflops-request"@.subrange(0, 17));
    assert(p =~= "tensor-fusion.ai/vram-request"@.subrange(0, 17));
    assert(p =~= "tensor-fusion.ai/tflops-limit"@.subrange(0, 17));
    assert(p =~= "tensor-fusion.ai/vram-limit"@.subrange(0, 17));
    assert(p =~= "tensor-fusion.ai/gpu-ids"@.subrange(0, 17));
    assert(p =~= "tensor-fusion.ai/container-gpus"@.subrange(0, 17));
    assert(p =~= "tensor-fusion.ai/qos"@.subrange(0, 17));
    assert(p =~= "tensor-fusion.ai/inject-container"@.subrange(0, 17));
    assert(p =~= "tensor-fusion.ai/isolation"@.subrange(0, 17));
}

/// Texts with commas between them.
pub open spec fn joined(parts: Seq<Seq<char>>) -> Seq<char>
    decreases parts.len(),
{
    if parts.len() == 0 {
        Seq::empty()
    } else if parts.len() == 1 {
        parts[0]
    } else {
        parts[0] + seq![','] + joined(parts.skip(1))
    }
}

/// The parts of a text have no commas, and with commas between them they are the text.
pub proof fn law_parts_make_the_text(s: Seq<char>)
    ensures
        comma_parts(s).len() >= 1,
        joined(comma_parts(s)) == s,
        forall|i: int|
            0 <= i < comma_parts(s).len() ==> !(#[trigger] comma_parts(s)[i]).contains(','),
    decreases s.len(),
{
    lemma_comma_at(s);
    let n = comma_at(s) as int;
    if n < s.len() {
        let rest = comma_parts(s.skip(n + 1));
        law_parts_make_the_text(s.skip(n + 1));
        let parts = comma_parts(s);
        assert(parts.skip(1) =~= rest);
        assert(parts[0] == s.take(n));
        assert(s =~= s.take(n) + seq![','] + s.skip(n + 1));
        assert forall|i: int| 0 <= i < parts.len() implies !(#[trigger] parts[i]).contains(',') by {
            if i > 0 {
                assert(parts[i] == rest[i - 1]);
            } else {
                assert forall|j: int| 0 <= j < n implies s.take(n)[j] != ',' by {
                    assert(s.take(n)[j] == s[j]);
                }
            }
        }
    } else {
        assert(comma_parts(s)[0] == s);
    }
}

proof fn lemma_comma_at(s: Seq<char>)
    ensures
        comma_at(s) <= s.len(),
        comma_at(s) < s.len() ==> s[comma_at(s) as int] == ',',
        forall|j: int| 0 <= j < comma_at(s) ==> #[trigger] s[j] != ',',
    decreases s.len(),
{
    if s.len() > 0 && s[0] != ',' {
        lemma_comma_at(s.skip(1));
        assert forall|j: int| 0 <= j < comma_at(s) implies #[trigger] s[j] != ',' by {
            if j > 0 {
                assert(s.skip(1)[j - 1] == s[j]);
            }
        }
    }
}

/// What is left of a list are its texts without white space around them, as far as they are
/// anything else, and nothing besides.
pub proof fn law_cleaned_texts(list: Seq<Seq<char>>, n: nat, x: Seq<char>)
    requires
        n <= list.len(),
    ensures
        cleaned_list(list, n).contains(x) <==> x.len() > 0 && exists|i: int|
            0 <= i < n && trimmed(#[trigger] list[i]) == x,
        cleaned_list(list, n).len() <= n,
        (forall|i: int| 0 <= i < n ==> trimmed(#[trigger] list[i]) == list[i] && list[i].len() > 0)
            ==> cleaned_list(list, n) == list.take(n as int),
    decreases n,
{
    if n > 0 {
        let m = (n - 1) as nat;
        law_cleaned_texts(list, m, x);
        let rest = cleaned_list(list, m);
        let item = trimmed(list[n - 1]);
        let all = cleaned_list(list, n);
        if item.len() > 0 {
            assert(all == rest.push(item));
            assert(all.last() == item);
            if rest.contains(x) {
                let k = choose|k: int| 0 <= k < rest.len() && rest[k] == x;
                assert(all[k] == x);
            }
            if x == item {
                assert(all[rest.len() as int] == x);
            }
            if all.contains(x) {
                let k = choose|k: int| 0 <= k < all.len() && all[k] == x;
                if k < rest.len() {
                    assert(rest[k] == x);
                } else {
                    assert(trimmed(list[n - 1]) == x);
                }
            }
        }
        if forall|i: int|
            0 <= i < n ==> trimmed(#[trigger] list[i]) == list[i] && list[i].len() > 0 {
            assert(list.take(n as int) =~= list.take(m as int).push(list[n - 1]));
        }
    } else {
        assert(cleaned_list(list, n) =~= list.take(0));
    }
}

/// A container has GPUs where one of its lists has any, and they are those of the last such
/// list.
pub proof fn law_cleaned_containers(
    pairs: Seq<(Seq<char>, Seq<Seq<char>>)>,
    n: nat,
    key: Seq<char>,
)
    requires
        n <= pairs.len(),
    ensures
        cleaned_lists(pairs, n).dom().contains(key) <==> exists|i: int|
            0 <= i < n && trimmed((#[trigger] pairs[i]).0) == key && cleaned_list(
                pairs[i].1,
                pairs[i].1.len(),
            ).len() > 0,
        forall|i: int|
            0 <= i < n && trimmed((#[trigger] pairs[i]).0) == key && cleaned_list(
                pairs[i].1,
                pairs[i].1.len(),
            ).len() > 0 && (forall|j: int|
                i < j < n ==> trimmed((#[trigger] pairs[j]).0) != key || cleaned_list(
                    pairs[j].1,
                    pairs[j].1.len(),
                ).len() == 0) ==> cleaned_lists(pairs, n)[key] == cleaned_list(
                pairs[i].1,
                pairs[i].1.len(),
            ),
    decreases n,
{
    if n > 0 {
        let m = (n - 1) as nat;
        law_cleaned_containers(pairs, m, key);
        let last = cleaned_list(pairs[n - 1].1, pairs[n - 1].1.len());
        if last.len() > 0 && trimmed(pairs[n - 1].0) == key {
            assert(trimmed((pairs[n - 1]).0) == key);
            assert forall|i: int|
                0 <= i < n && trimmed((#[trigger] pairs[i]).0) == key && cleaned_list(
                    pairs[i].1,
                    pairs[i].1.len(),
                ).len() > 0 && (forall|j: int|
                    i < j < n ==> trimmed((#[trigger] pairs[j]).0) != key || cleaned_list(
                        pairs[j].1,
                        pairs[j].1.len(),
                    ).len() == 0) implies i == n - 1 by {
                if i < n - 1 {
                    assert(trimmed((pairs[n - 1]).0) != key || last.len() == 0);
                }
            }
        } else {
            assert forall|i: int|
                0 <= i < n && trimmed((#[trigger] pairs[i]).0) == key && cleaned_list(
                    pairs[i].1,
                    pairs[i].1.len(),
                ).len() > 0 implies i < m by {}
        }
    }
}

/// The importance of a pod, by its name with a small or a capital letter in front; whatever
/// else is written is medium.
pub proof fn law_importance_by_name(s: Seq<char>)
    ensures
        qos_of(s) == QosLevel::High <==> s == "High"@ || s == "high"@,
        qos_of(s) == QosLevel::Low <==> s == "Low"@ || s == "low"@,
        qos_of(s) == QosLevel::Critical <==> s == "Critical"@ || s == "critical"@,
{
    reveal_strlit("High");
    reveal_strlit("high");
    reveal_strlit("Low");
    reveal_strlit("low");
    reveal_strlit("Critical");
    reveal_strlit("critical");
    assert("High"@.len() == 4 && "high"@.len() == 4);
    assert("Low"@.len() == 3 && "low"@.len() == 3);
    assert("Critical"@.len() == 8 && "critical"@.len() == 8);
}

/// What each annotation of a pod is about, by its key: where it says something it is read,
/// and where it does not nothing comes of it. A pod whose annotations can be read asks for
/// exactly this.
#[verifier::rlimit(40)]
pub proof fn law_annotations_by_key(
    a: Map<Seq<char>, Seq<char>>,
    labels: Map<Seq<char>, Seq<char>>,
    json: spec_fn(Seq<char>) -> Option<Seq<(Seq<char>, Seq<Seq<char>>)>>,
)
    requires
        pod_requests(a, labels, json) is Ok,
    ensures
        ({
            let r = pod_requests(a, labels, json)->Ok_0;
            &&& r.labels == labels
            &&& r.workload_name is Some <==> labels.dom().contains("tensor-fusion.ai/workload"@)
            &&& r.workload_name matches Some(w) ==> w == labels["tensor-fusion.ai/workload"@]
            &&& r.isolation is Some <==> a.dom().contains("tensor-fusion.ai/isolation"@)
            &&& r.isolation matches Some(i) ==> i == a["tensor-fusion.ai/isolation"@]
            &&& r.compute_shard <==> r.isolation is Some && r.isolation->0 == "shared"@
            &&& r.qos_level is Some <==> a.dom().contains("tensor-fusion.ai/qos"@)
            &&& r.qos_level matches Some(q) ==> q == qos_of(a["tensor-fusion.ai/qos"@])
            &&& r.vram_request is Some <==> a.dom().contains("tensor-fusion.ai/vram-request"@) && trimmed(
                a["tensor-fusion.ai/vram-request"@],
            ).len() > 0
            &&& r.vram_request matches Some(v) ==> memory_value(a["tensor-fusion.ai/vram-request"@]) is Ok && memory_value(
                a["tensor-fusion.ai/vram-request"@],
            )->Ok_0 == v
            &&& r.vram_limit is Some <==> a.dom().contains("tensor-fusion.ai/vram-limit"@) && trimmed(
                a["tensor-fusion.ai/vram-limit"@],
            ).len() > 0
            &&& r.vram_limit matches Some(v) ==> memory_value(a["tensor-fusion.ai/vram-limit"@]) is Ok && memory_value(
                a["tensor-fusion.ai/vram-limit"@],
            )->Ok_0 == v
            &&& r.tflops_request is Some <==> a.dom().contains("tensor-fusion.ai/tflops-request"@) && trimmed(
                a["tensor-fusion.ai/tflops-request"@],
            ).len() > 0
            &&& r.tflops_request matches Some(v) ==> tflops_value(a["tensor-fusion.ai/tflops-request"@]) is Ok && tflops_value(
                a["tensor-fusion.ai/tflops-request"@],
            )->Ok_0 == v
            &&& r.tflops_limit is Some <==> a.dom().contains("tensor-fusion.ai/tflops-limit"@) && trimmed(
                a["tensor-fusion.ai/tflops-limit"@],
            ).len() > 0
            &&& r.tflops_limit matches Some(v) ==> tflops_value(a["tensor-fusion.ai/tflops-limit"@]) is Ok && tflops_value(
                a["tensor-fusion.ai/tflops-limit"@],
            )->Ok_0 == v
            &&& r.gpu_uuids is Some <==> a.dom().contains("tensor-fusion.ai/gpu-ids"@) && trimmed(
                a["tensor-fusion.ai/gpu-ids"@],
            ).len() > 0
            &&& r.gpu_uuids matches Some(parts) ==> joined(parts) == a["tensor-fusion.ai/gpu-ids"@]
            &&& r.containers is Some <==> a.dom().contains("tensor-fusion.ai/inject-container"@) && trimmed(
                a["tensor-fusion.ai/inject-container"@],
            ).len() > 0
            &&& r.containers matches Some(parts) ==> joined(parts) == a["tensor-fusion.ai/inject-container"@]
            &&& r.container_gpu_uuids matches Some(lists) ==> {
                &&& a.dom().contains("tensor-fusion.ai/container-gpus"@)
                &&& json(a["tensor-fusion.ai/container-gpus"@]) is Some
                &&& lists == cleaned_lists(
                    json(a["tensor-fusion.ai/container-gpus"@])->0,
                    json(a["tensor-fusion.ai/container-gpus"@])->0.len(),
                )
            }
        }),
{
    if a.dom().contains("tensor-fusion.ai/gpu-ids"@) {
        law_parts_make_the_text(a["tensor-fusion.ai/gpu-ids"@]);
    }
    if a.dom().contains("tensor-fusion.ai/inject-container"@) {
        law_parts_make_the_text(a["tensor-fusion.ai/inject-container"@]);
    }
}

/// A pod is refused exactly where one of the amounts it asks for, or the GPUs of its
/// containers, cannot be read.
pub proof fn law_unreadable_annotations(
    a: Map<Seq<char>, Seq<char>>,
    labels: Map<Seq<char>, Seq<char>>,
    json: spec_fn(Seq<char>) -> Option<Seq<(Seq<char>, Seq<Seq<char>>)>>,
)
    ensures
        pod_requests(a, labels, json) is Err <==> {
            ||| a.dom().contains("tensor-fusion.ai/vram-request"@) && trimmed(a["tensor-fusion.ai/vram-request"@]).len() > 0 && memory_value(
                a["tensor-fusion.ai/vram-request"@],
            ) is Err
            ||| a.dom().contains("tensor-fusion.ai/vram-limit"@) && trimmed(a["tensor-fusion.ai/vram-limit"@]).len() > 0 && memory_value(
                a["tensor-fusion.ai/vram-limit"@],
            ) is Err
            ||| a.dom().contains("tensor-fusion.ai/tflops-request"@) && trimmed(a["tensor-fusion.ai/tflops-request"@]).len() > 0 && tflops_value(
                a["tensor-fusion.ai/tflops-request"@],
            ) is Err
            ||| a.dom().contains("tensor-fusion.ai/tflops-limit"@) && trimmed(a["tensor-fusion.ai/tflops-limit"@]).len() > 0 && tflops_value(
                a["tensor-fusion.ai/tflops-limit"@],
            ) is Err
            ||| a.dom().contains("tensor-fusion.ai/container-gpus"@) && trimmed(a["tensor-fusion.ai/container-gpus"@]).len() > 0 && json(
                a["tensor-fusion.ai/container-gpus"@],
            ) is None
        },
{
}

/// What a pod asks for, as plain values: each list and each amount is as it was read.
pub proof fn law_requests_as_plain_values(t: Option<Tflops>, l: Option<Vec<String>>, i: int)
    ensures
        tflops_view(t) is Some <==> t is Some,
        t is Some ==> (tflops_view(t)->0).0 == t->0.number@ && (tflops_view(t)->0).1 == t->0.unit,
        list_view(l) is Some <==> l is Some,
        l is Some ==> list_view(l)->0.len() == l->0@.len(),
        l is Some && 0 <= i < l->0@.len() ==> list_view(l)->0[i] == l->0@[i]@,
{
}

/// A key has the value that the annotations give it, and says something where that is more
/// than white space.
pub proof fn law_entries_of_annotations(m: Map<Seq<char>, Seq<char>>, key: Seq<char>)
    ensures
        entry(m, key) is Some <==> m.dom().contains(key),
        entry(m, key) matches Some(v) ==> v == m[key],
        said(m, key) is Some <==> m.dom().contains(key) && trimmed(m[key]).len() > 0,
        said(m, key) matches Some(v) ==> v == m[key],
{
}

} // verus!
