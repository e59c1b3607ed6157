//! The configuration of a pod, as the hypervisor hands it out.
use crate::number::{decimal_digit, digit_value};
use crate::text::{
    ascii_letter, chars_of, digit, is_white, push_decimal, push_text, string_of, texts, trim, trimmed, white,
    written,
};
use vstd::prelude::*;

verus! {

/// Where the token of the service account is.
pub const SERVICE_ACCOUNT_TOKEN_PATH: &'static str =
    "/var/run/secrets/kubernetes.io/serviceaccount/token";

/// A span of time.
#[derive(Clone, Copy, PartialEq, Eq, Structural, Debug)]
pub struct Span {
    /// Whole seconds.
    pub secs: u64,
    /// Nanoseconds on top of them.
    pub nanos: u32,
}

/// How long a request may take, unless the environment says otherwise.
pub const DEFAULT_REQUEST_SECS: u64 = 30;

/// How long connecting may take, unless the environment says otherwise.
pub const DEFAULT_CONNECT_SECS: u64 = 15;

/// The GPUs of a pod, and its isolation.
#[derive(Debug)]
pub struct PodConfig {
    /// The identifiers of the GPUs.
    pub gpu_uuids: Vec<String>,
    /// The isolation that was asked for.
    pub isolation: Option<String>,
}

/// What went wrong with the configuration.
#[derive(Clone, Copy, PartialEq, Eq, Structural, Debug)]
pub enum ConfigError {
    /// The token cannot be read.
    TokenRead,
    /// The token is empty.
    EmptyToken,
    /// The request failed.
    HttpRequest,
    /// The response makes no sense.
    InvalidResponse,
    /// The response lacks something.
    MissingData,
    /// The response cannot be read.
    JsonParsing,
}

impl ConfigError {
    /// The failure in words.
    pub open spec fn words(self) -> Seq<char> {
        match self {
            ConfigError::TokenRead => "Failed to read service account token"@,
            ConfigError::EmptyToken => "Service account token is empty"@,
            ConfigError::HttpRequest => "HTTP request failed"@,
            ConfigError::InvalidResponse => "Invalid response from hypervisor"@,
            ConfigError::MissingData => "Missing required data in response"@,
            ConfigError::JsonParsing => "JSON parsing failed"@,
        }
    }

    /// The failure in words.
    pub fn message(&self) -> (m: String)
        ensures
            m@ == self.words(),
            *self == ConfigError::TokenRead ==> m@ == "Failed to read service account token"@,
            *self == ConfigError::EmptyToken ==> m@ == "Service account token is empty"@,
            *self == ConfigError::HttpRequest ==> m@ == "HTTP request failed"@,
            *self == ConfigError::InvalidResponse ==> m@ == "Invalid response from hypervisor"@,
            *self == ConfigError::MissingData ==> m@ == "Missing required data in response"@,
            *self == ConfigError::JsonParsing ==> m@ == "JSON parsing failed"@,
    {
        match self {
            ConfigError::TokenRead => "Failed to read service account token".to_string(),
            ConfigError::EmptyToken => "Service account token is empty".to_string(),
            ConfigError::HttpRequest => "HTTP request failed".to_string(),
            ConfigError::InvalidResponse => "Invalid response from hypervisor".to_string(),
            ConfigError::MissingData => "Missing required data in response".to_string(),
            ConfigError::JsonParsing => "JSON parsing failed".to_string(),
        }
    }
}

/// A failure, and a note on what it was about.
#[derive(Debug)]
pub struct ConfigReport {
    /// The failure.
    pub error: ConfigError,
    /// The note.
    pub note: String,
}

/// A report with a note made of two texts.
fn report(error: ConfigError, what: &str, detail: &str) -> (r: ConfigReport)
    ensures
        r.error == error,
        r.note@ == what@ + detail@,
{
    let mut note = String::new();
    push_text(&mut note, what);
    push_text(&mut note, detail);
    assert(note@ =~= what@ + detail@);
    ConfigReport { error, note }
}

/// A report with a note.
fn plain_report(error: ConfigError, note: &str) -> (r: ConfigReport)
    ensures
        r.error == error,
        r.note@ == note@,
{
    ConfigReport { error, note: note.to_string() }
}

/// What the hypervisor knows about a pod.
pub struct PodInfo {
    /// The identifiers of the GPUs.
    pub gpu_uuids: Vec<String>,
    /// The isolation that was asked for.
    pub isolation: Option<String>,
    /// Whether compute is shared without limits.
    pub compute_shard: bool,
}

/// What the hypervisor answers.
pub struct PodInfoResponse {
    /// Whether the pod could be looked up.
    pub success: bool,
    /// What the hypervisor has to say.
    pub message: String,
    /// What it knows about the pod.
    pub pod_info: Option<PodInfo>,
}

/// The reply to a request.
pub struct HttpReply {
    /// Whether the status is one of success.
    pub success: bool,
    /// The status in writing.
    pub status: String,
    /// The answer, where it could be read.
    pub body: Option<PodInfoResponse>,
}

/// Where the hypervisor answers questions about pods.
pub fn pod_info_url(hypervisor_ip: &str, hypervisor_port: &str) -> (url: String)
    ensures
        url@ == url_text(hypervisor_ip@, hypervisor_port@),
        url@ == "http://"@ + hypervisor_ip@ + ":"@ + hypervisor_port@ + "/api/v1/pod"@,
{
    let mut url = String::new();
    push_text(&mut url, "http://");
    push_text(&mut url, hypervisor_ip);
    push_text(&mut url, ":");
    push_text(&mut url, hypervisor_port);
    push_text(&mut url, "/api/v1/pod");
    assert(url@ =~= "http://"@ + hypervisor_ip@ + ":"@ + hypervisor_port@ + "/api/v1/pod"@);
    url
}

/// Pairs of texts as plain values.
pub open spec fn text_pairs(pairs: Seq<(String, String)>) -> Seq<(Seq<char>, Seq<char>)> {
    Seq::new(pairs.len(), |i: int| (pairs[i].0@, pairs[i].1@))
}

/// A pair, unless its value is empty.
pub open spec fn unless_empty(key: Seq<char>, value: Seq<char>) -> Seq<(Seq<char>, Seq<char>)> {
    if value.len() > 0 {
        seq![(key, value)]
    } else {
        Seq::empty()
    }
}

/// Adds a pair, unless its value is empty.
fn push_unless_empty(pairs: &mut Vec<(String, String)>, key: &str, value: &str)
    ensures
        text_pairs(final(pairs)@) == text_pairs(old(pairs)@) + unless_empty(key@, value@),
{
    let ghost before = text_pairs(pairs@);
    if value.unicode_len() > 0 {
        pairs.push((key.to_string(), value.to_string()));
        assert(text_pairs(pairs@) =~= before + seq![(key@, value@)]);
    } else {
        assert(before + Seq::empty() =~= before);
    }
}

/// What a request says about the one who asks: its process id, and the names of container,
/// pod and namespace as far as they are known.
pub fn request_query(
    container_pid: u32,
    container_name: &str,
    pod_name: &str,
    pod_namespace: &str,
) -> (pairs: Vec<(String, String)>)
    ensures
        text_pairs(pairs@) == seq![("container_pid"@, written(container_pid as nat, 10))]
            + unless_empty("container_name"@, container_name@) + unless_empty(
            "pod_name"@,
            pod_name@,
        ) + unless_empty("pod_namespace"@, pod_namespace@),
        pairs@[0].0@ == "container_pid"@,
        pairs@[0].1@ == written(container_pid as nat, 10),
        container_name@.len() > 0 ==> pairs@[1].0@ == "container_name"@ && pairs@[1].1@
            == container_name@,
        pod_namespace@.len() > 0 ==> pairs@[pairs@.len() - 1].0@ == "pod_namespace"@
            && pairs@[pairs@.len() - 1].1@ == pod_namespace@,
{
    let mut pid = String::new();
    push_decimal(&mut pid, container_pid as u64);
    assert(pid@ =~= written(container_pid as nat, 10));
    let mut pairs: Vec<(String, String)> = Vec::new();
    pairs.push(("container_pid".to_string(), pid));
    assert(text_pairs(pairs@) =~= seq![("container_pid"@, written(container_pid as nat, 10))]);
    push_unless_empty(&mut pairs, "container_name", container_name);
    push_unless_empty(&mut pairs, "pod_name", pod_name);
    push_unless_empty(&mut pairs, "pod_namespace", pod_namespace);
    proof {
        let all = text_pairs(pairs@);
        let first = seq![("container_pid"@, written(container_pid as nat, 10))];
        let a = unless_empty("container_name"@, container_name@);
        let b = unless_empty("pod_name"@, pod_name@);
        let c = unless_empty("pod_namespace"@, pod_namespace@);
        assert(all =~= first + a + b + c);
        assert(all.len() == 1 + a.len() + b.len() + c.len());
        assert(all.len() == pairs@.len());
        assert(all[0] == first[0]);
        assert(container_name@.len() > 0 ==> all[1] == a[0]);
        assert(pod_namespace@.len() > 0 ==> all[all.len() - 1] == c[0]);
        assert(all[0] == (pairs@[0].0@, pairs@[0].1@));
        assert(container_name@.len() > 0 ==> all[1] == (pairs@[1].0@, pairs@[1].1@));
        assert(all[all.len() - 1] == (pairs@[pairs@.len() - 1].0@, pairs@[pairs@.len() - 1].1@));
    }
    pairs
}

/// Makes a configuration of the reply to a request at the given address, or of the
/// absence of one.
pub fn request_pod_info(url: &str, reply: Option<HttpReply>) -> (r: Result<PodConfig, ConfigReport>)
    ensures
        match config_from(url@, reply) {
            Ok(info) => r is Ok && r->Ok_0.gpu_uuids == info.gpu_uuids && r->Ok_0.isolation
                == info.isolation,
            Err((error, note)) => r is Err && r->Err_0.error == error && r->Err_0.note@ == note,
        },
{
    match reply {
        None => Err(report(ConfigError::HttpRequest, "Failed to send GET request to ", url)),
        Some(reply) => {
            if !reply.success {
                return Err(
                    report(
                        ConfigError::HttpRequest,
                        "HTTP request failed with status: ",
                        reply.status.as_str(),
                    ),
                );
            }
            match reply.body {
                None => Err(
                    plain_report(ConfigError::JsonParsing, "Failed to parse PodInfoResponse"),
                ),
                Some(body) => {
                    if !body.success {
                        return Err(
                            report(
                                ConfigError::InvalidResponse,
                                "Hypervisor API error: ",
                                body.message.as_str(),
                            ),
                        );
                    }
                    match body.pod_info {
                        None => Err(
                            plain_report(ConfigError::MissingData, "No pod data in response"),
                        ),
                        Some(info) => Ok(
                            PodConfig { gpu_uuids: info.gpu_uuids, isolation: info.isolation },
                        ),
                    }
                },
            }
        },
    }
}

/// The address of the hypervisor's answers in writing.
pub open spec fn url_text(hypervisor_ip: Seq<char>, hypervisor_port: Seq<char>) -> Seq<char> {
    "http://"@ + hypervisor_ip + ":"@ + hypervisor_port + "/api/v1/pod"@
}

/// What a reply comes to: the configuration, or the failure and a note on it.
pub open spec fn config_from(
    url: Seq<char>,
    reply: Option<HttpReply>,
) -> Result<PodInfo, (ConfigError, Seq<char>)> {
    match reply {
        None => Err((ConfigError::HttpRequest, "Failed to send GET request to "@ + url)),
        Some(reply) => if !reply.success {
            Err((ConfigError::HttpRequest, "HTTP request failed with status: "@ + reply.status@))
        } else {
            match reply.body {
                None => Err((ConfigError::JsonParsing, "Failed to parse PodInfoResponse"@)),
                Some(body) => if !body.success {
                    Err((ConfigError::InvalidResponse, "Hypervisor API error: "@ + body.message@))
                } else {
                    match body.pod_info {
                        None => Err((ConfigError::MissingData, "No pod data in response"@)),
                        Some(info) => Ok(info),
                    }
                },
            }
        },
    }
}

/// The configuration of this pod, from the reply of the hypervisor at an address and a
/// port, or from the absence of one.
pub fn get_worker_config(
    hypervisor_ip: &str,
    hypervisor_port: &str,
    reply: Option<HttpReply>,
) -> (r: Result<PodConfig, ConfigReport>)
    ensures
        match config_from(url_text(hypervisor_ip@, hypervisor_port@), reply) {
            Ok(info) => r is Ok && r->Ok_0.gpu_uuids == info.gpu_uuids && r->Ok_0.isolation
                == info.isolation,
            Err((error, note)) => r is Err && r->Err_0.error == error && r->Err_0.note@ == note,
        },
{
    let url = pod_info_url(hypervisor_ip, hypervisor_port);
    request_pod_info(url.as_str(), reply)
}

/// Makes a token of what was read from its file, where it could be read.
pub fn read_service_account_token(content: Option<&str>) -> (r: Result<String, ConfigReport>)
    ensures
        match content {
            None => r is Err && r->Err_0.error == ConfigError::TokenRead && r->Err_0.note@
                == "Failed to read token from "@ + SERVICE_ACCOUNT_TOKEN_PATH@,
            Some(content) => if trimmed(content@).len() == 0 {
                r is Err && r->Err_0.error == ConfigError::EmptyToken && r->Err_0.note@
                    == "Service account token is empty"@
            } else {
                r is Ok && r->Ok_0@ == trimmed(content@)
            },
        },
        content is None ==> r->Err_0.note@ == "Failed to read token from "@
            + "/var/run/secrets/kubernetes.io/serviceaccount/token"@,
{
    match content {
        None => Err(
            report(
                ConfigError::TokenRead,
                "Failed to read token from ",
                SERVICE_ACCOUNT_TOKEN_PATH,
            ),
        ),
        Some(content) => {
            let v = chars_of(content);
            let token = trim(v.as_slice());
            if token.len() == 0 {
                return Err(plain_report(ConfigError::EmptyToken, "Service account token is empty"));
            }
            Ok(string_of(token.as_slice()))
        },
    }
}

/// Where the hypervisor is, where both its address and its port are known.
pub fn get_hypervisor_config(
    ip: Option<String>,
    port: Option<String>,
) -> (r: Option<(String, String)>)
    ensures
        r == (match (ip, port) {
            (Some(ip), Some(port)) => Some((ip, port)),
            _ => None,
        }),
{
    match ip {
        None => None,
        Some(ip) => match port {
            None => None,
            Some(port) => Some((ip, port)),
        },
    }
}

/// The span of time that a text stands for, in seconds and nanoseconds; `None` where it
/// stands for none.
pub uninterp spec fn humantime_span(s: Seq<char>) -> Option<(u64, u32)>;

/// More than any number that can be read, and than any number of seconds in a span.
pub const BEYOND: u128 = 0x1_0000_0000_0000_0000;

/// More nanoseconds than any span has.
pub const BEYOND_NANOS: u128 = 0x1_0000_0000_0000_0000 * 1_000_000_000;

/// The last power of ten that a fraction can be read with.
pub const LAST_POWER: u128 = 10_000_000_000_000_000_000;

/// The nanoseconds of a unit, by the first three characters of the text that begins with
/// it. Units that do not exist count nothing.
pub open spec fn unit_nanos(first: char, second: char, third: char) -> u64 {
    if first == 'n' {
        1
    } else if first == 'u' || first == '\u{b5}' {
        1_000
    } else if first == 'm' && (second == 's' || (second == 'i' && third == 'l')) {
        1_000_000
    } else if first == 's' {
        1_000_000_000
    } else if first == 'm' && second != 'o' {
        60_000_000_000
    } else if first == 'h' {
        3_600_000_000_000
    } else if first == 'd' {
        86_400_000_000_000
    } else if first == 'w' {
        604_800_000_000_000
    } else if first == 'm' || first == 'M' {
        2_630_016_000_000_000
    } else if first == 'y' {
        31_557_600_000_000_000
    } else {
        0
    }
}

/// A character of a text, or a blank where the text has ended.
pub open spec fn char_at(s: Seq<char>, i: int) -> char {
    if 0 <= i < s.len() {
        s[i]
    } else {
        ' '
    }
}

/// A number that is being read.
pub struct Reading {
    /// Its whole part. What is too large to be read is not told apart.
    pub whole: nat,
    /// The digits behind its point.
    pub fraction: nat,
    /// The power of ten that they are divided by; zero in front of a point.
    pub power: nat,
}

impl Reading {
    /// Nothing was read yet.
    pub open spec fn nothing() -> Reading {
        Reading { whole: 0, fraction: 0, power: 0 }
    }

    /// The number with one more digit. Digits that are too many to be read are dropped.
    pub open spec fn longer(self, digit: nat) -> Reading {
        if self.power == 0 {
            Reading {
                whole: if self.whole * 10 + digit < BEYOND {
                    self.whole * 10 + digit
                } else {
                    BEYOND as nat
                },
                ..self
            }
        } else if self.power < LAST_POWER {
            Reading {
                fraction: self.fraction * 10 + digit,
                power: self.power * 10,
                ..self
            }
        } else {
            self
        }
    }

    /// The number with a point behind it.
    pub open spec fn pointed(self) -> Reading {
        Reading { fraction: 0, power: 1, ..self }
    }

    /// The nanoseconds of so many of a unit.
    pub open spec fn nanos(self, unit: nat) -> nat {
        self.whole * unit + (if self.power == 0 {
            0
        } else {
            self.fraction * unit / self.power
        })
    }
}

/// The nanoseconds that the numbers in a text with their units add up to, of which a
/// number was read already. White space does not end a number.
pub open spec fn nanos_in(s: Seq<char>, reading: Reading) -> nat
    decreases s.len(),
{
    if s.len() == 0 {
        0
    } else {
        let rest = s.skip(1);
        match digit_value(s[0]) {
            Some(digit) => nanos_in(rest, reading.longer(digit)),
            None => if s[0] == '.' {
                nanos_in(rest, reading.pointed())
            } else if white(s[0]) {
                nanos_in(rest, reading)
            } else {
                reading.nanos(unit_nanos(s[0], char_at(s, 1), char_at(s, 2)) as nat) + nanos_in(
                    rest,
                    Reading::nothing(),
                )
            },
        }
    }
}

/// The numbers in a text with their units add up to a span that can be counted.
pub open spec fn addable(s: Seq<char>) -> bool {
    nanos_in(s, Reading::nothing()) < BEYOND_NANOS
}

/// A whole number and an `s` stand for so many seconds.
pub open spec fn reads_seconds(s: Seq<char>, r: Option<(u64, u32)>) -> bool {
    forall|n: u64| s == #[trigger] seconds_text(n) ==> r == Some((n, 0u32))
}

/// A number of seconds in writing.
pub open spec fn seconds_text(n: u64) -> Seq<char> {
    written(n as nat, 10) + seq!['s']
}

/// Trusted: `humantime::parse_duration` reads a span of time or fails; which of the two,
/// and what it reads, depends on the text alone. The nanoseconds are less than a second,
/// and a whole number followed by an `s` is a number of seconds.
/// Where the numbers of a text add up to more than can be counted, it fails or panics;
/// what is required leaves those texts out, and no other.
#[verifier::external_body]
fn read_humantime(s: &str) -> (r: Option<(u64, u32)>)
    requires
        addable(s@),
    ensures
        r == humantime_span(s@),
        r matches Some(span) ==> span.1 < 1_000_000_000,
        reads_seconds(s@, r),
{
    humantime::parse_duration(s).ok().map(|d| (d.as_secs(), d.subsec_nanos()))
}

/// Makes a span of what was read from a text, if it was read.
pub fn span_from(text: &str, read: Option<(u64, u32)>) -> (r: Result<Span, ConfigReport>)
    ensures
        match read {
            Some((secs, nanos)) => r is Ok && r->Ok_0 == (Span { secs, nanos }),
            None => r is Err && r->Err_0.error == ConfigError::InvalidResponse && r->Err_0.note@
                == "Failed to parse duration: "@ + text@,
        },
{
    match read {
        Some((secs, nanos)) => Ok(Span { secs, nanos }),
        None => Err(report(ConfigError::InvalidResponse, "Failed to parse duration: ", text)),
    }
}

/// The span that a text without white space around it stands for. Numbers that add up to
/// more than can be counted stand for none.
pub open spec fn span_of(s: Seq<char>) -> Option<(u64, u32)> {
    if addable(s) {
        humantime_span(s)
    } else {
        None
    }
}

/// Reads a span of time.
pub fn parse_duration(duration_str: &str) -> (r: Result<Span, ConfigReport>)
    ensures
        trimmed(duration_str@).len() == 0 ==> r is Err && r->Err_0.error
            == ConfigError::InvalidResponse && r->Err_0.note@ == "Duration string is empty"@,
        trimmed(duration_str@).len() > 0 ==> match span_of(trimmed(duration_str@)) {
            Some((secs, nanos)) => r is Ok && r->Ok_0 == (Span { secs, nanos }) && nanos
                < 1_000_000_000,
            None => r is Err && r->Err_0.error == ConfigError::InvalidResponse && r->Err_0.note@
                == "Failed to parse duration: "@ + trimmed(duration_str@),
        },
        forall|n: u64|
            trimmed(duration_str@) == #[trigger] seconds_text(n) ==> r == Ok::<Span, ConfigReport>(
                Span { secs: n, nanos: 0 },
            ),
{
    let v = chars_of(duration_str);
    let t = trim(v.as_slice());
    proof {
        assert forall|n: u64| t@ == #[trigger] seconds_text(n) implies addable(t@) by {
            law_seconds_are_addable(n);
        }
    }
    if t.len() == 0 {
        return Err(plain_report(ConfigError::InvalidResponse, "Duration string is empty"));
    }
    let text = string_of(t.as_slice());
    let read: Option<(u64, u32)> = if is_addable(t.as_slice()) {
        read_humantime(text.as_str())
    } else {
        None
    };
    span_from(text.as_str(), read)
}

/// Digits are read as the number that they are written for.
proof fn lemma_reads_written(n: nat, rest: Seq<char>)
    requires
        n <= u64::MAX,
    ensures
        nanos_in(written(n, 10) + rest, Reading::nothing()) == nanos_in(
            rest,
            Reading { whole: n, fraction: 0, power: 0 },
        ),
    decreases n,
{
    let last = n % 10;
    assert(digit_value(digit(last)) == Some(last));
    let s = written(n, 10) + rest;
    if n < 10 {
        assert(s.skip(1) =~= rest);
        assert(s[0] == digit(n));
    } else {
        let tail = seq![digit(last)] + rest;
        assert(s =~= written(n / 10, 10) + tail);
        lemma_reads_written(n / 10, tail);
        assert(tail.skip(1) =~= rest);
        assert(tail[0] == digit(last));
        assert((n / 10) * 10 + last == n);
    }
}

/// Every number of seconds can be counted.
pub proof fn law_seconds_are_addable(n: u64)
    ensures
        addable(seconds_text(n)),
{
    lemma_reads_written(n as nat, seq!['s']);
    let s = seq!['s'];
    let reading = Reading { whole: n as nat, fraction: 0, power: 0 };
    assert(s.skip(1).len() == 0);
    assert(nanos_in(s.skip(1), Reading::nothing()) == 0);
    assert(nanos_in(s, reading) == reading.nanos(1_000_000_000));
    assert(n * 1_000_000_000 < BEYOND_NANOS);
}

/// The nanoseconds of a unit.
fn nanos_of_unit(first: char, second: char, third: char) -> (nanos: u64)
    ensures
        nanos == unit_nanos(first, second, third),
        nanos <= 31_557_600_000_000_000,
{
    if first == 'n' {
        1
    } else if first == 'u' || first == '\u{b5}' {
        1_000
    } else if first == 'm' && (second == 's' || (second == 'i' && third == 'l')) {
        1_000_000
    } else if first == 's' {
        1_000_000_000
    } else if first == 'm' && second != 'o' {
        60_000_000_000
    } else if first == 'h' {
        3_600_000_000_000
    } else if first == 'd' {
        86_400_000_000_000
    } else if first == 'w' {
        604_800_000_000_000
    } else if first == 'm' || first == 'M' {
        2_630_016_000_000_000
    } else if first == 'y' {
        31_557_600_000_000_000
    } else {
        0
    }
}

/// Whether the numbers in a text with their units add up to a span that can be counted.
pub fn is_addable(v: &[char]) -> (b: bool)
    ensures
        b == addable(v@),
{
    let mut total: u128 = 0;
    let mut whole: u128 = 0;
    let mut fraction: u128 = 0;
    let mut power: u128 = 0;
    let mut i: usize = 0;
    assert(v@.skip(0) =~= v@);
    while i < v.len()
        invariant
            i <= v@.len(),
            total < BEYOND_NANOS,
            whole <= BEYOND,
            power < 10 * LAST_POWER,
            fraction < power || (fraction == 0 && power == 0),
            nanos_in(v@, Reading::nothing()) == total + nanos_in(
                v@.skip(i as int),
                Reading { whole: whole as nat, fraction: fraction as nat, power: power as nat },
            ),
        decreases v@.len() - i,
    {
        let c = v[i];
        let ghost s = v@.skip(i as int);
        assert(s.skip(1) =~= v@.skip(i + 1));
        assert(s[0] == c);
        match decimal_digit(c) {
            Some(digit) => {
                if power == 0 {
                    let next: u128 = whole * 10 + digit as u128;
                    whole = if next < BEYOND {
                        next
                    } else {
                        BEYOND
                    };
                } else if power < LAST_POWER {
                    fraction = fraction * 10 + digit as u128;
                    power = power * 10;
                }
            },
            None => {
                if c == '.' {
                    fraction = 0;
                    power = 1;
                } else if !is_white(c) {
                    let second = if i + 1 < v.len() {
                        v[i + 1]
                    } else {
                        ' '
                    };
                    let third = if i < v.len() - 1 && i + 1 < v.len() - 1 {
                        v[i + 2]
                    } else {
                        ' '
                    };
                    let unit: u128 = nanos_of_unit(c, second, third) as u128;
                    assert(whole * unit <= BEYOND * 31_557_600_000_000_000 && fraction * unit
                        <= 10 * LAST_POWER * 31_557_600_000_000_000) by (nonlinear_arith)
                        requires
                            0 <= whole <= BEYOND,
                            0 <= fraction <= 10 * LAST_POWER,
                            0 <= unit <= 31_557_600_000_000_000,
                    ;
                    let part: u128 = if power == 0 {
                        0
                    } else {
                        fraction * unit / power
                    };
                    assert(part <= fraction * unit) by (nonlinear_arith)
                        requires
                            power == 0 ==> part == 0,
                            power > 0 ==> part == (fraction * unit) / (power as int),
                            0 <= fraction * unit,
                            0 <= power,
                    ;
                    total = total + whole * unit + part;
                    if total >= BEYOND_NANOS {
                        return false;
                    }
                    whole = 0;
                    fraction = 0;
                    power = 0;
                }
            },
        }
        i = i + 1;
    }
    true
}

/// How long requests and connecting may take.
pub struct TimeoutConfig {
    /// A whole request.
    pub request: Span,
    /// Connecting alone.
    pub connect: Span,
}

/// The span that a text from the environment asks for, where it can be used.
pub open spec fn timeout_of(value: Option<Seq<char>>) -> Option<Span> {
    match value {
        None => None,
        Some(s) => if trimmed(s).len() == 0 {
            None
        } else {
            match span_of(trimmed(s)) {
                Some((secs, nanos)) => Some(Span { secs, nanos }),
                None => None,
            }
        },
    }
}

impl TimeoutConfig {
    /// The span that a text from the environment asks for. Without one that can be used,
    /// the default stands.
    pub fn parse_env_timeout(value: Option<&str>, default: Span) -> (span: Span)
        ensures
            span == (match timeout_of(
                match value {
                    Some(s) => Some(s@),
                    None => None,
                },
            ) {
                Some(span) => span,
                None => default,
            }),
            value is None ==> span == default,
            value matches Some(s) ==> (forall|n: u64|
                trimmed(s@) == #[trigger] seconds_text(n) ==> span == (Span { secs: n, nanos: 0 })),
    {
        match value {
            None => default,
            Some(s) => match parse_duration(s) {
                Ok(span) => span,
                Err(_) => default,
            },
        }
    }

    /// The spans that the environment asks for, or thirty seconds for a request and
    /// fifteen for connecting.
    pub fn from_env(request: Option<&str>, connect: Option<&str>) -> (c: Self)
        ensures
            c.request == (match timeout_of(
                match request {
                    Some(s) => Some(s@),
                    None => None,
                },
            ) {
                Some(span) => span,
                None => Span { secs: 30, nanos: 0 },
            }),
            c.connect == (match timeout_of(
                match connect {
                    Some(s) => Some(s@),
                    None => None,
                },
            ) {
                Some(span) => span,
                None => Span { secs: 15, nanos: 0 },
            }),
            request is None ==> c.request == (Span { secs: 30, nanos: 0 }),
            connect is None ==> c.connect == (Span { secs: 15, nanos: 0 }),
            request matches Some(s) ==> (forall|n: u64|
                trimmed(s@) == #[trigger] seconds_text(n) ==> c.request == (Span {
                    secs: n,
                    nanos: 0,
                })),
            connect matches Some(s) ==> (forall|n: u64|
                trimmed(s@) == #[trigger] seconds_text(n) ==> c.connect == (Span {
                    secs: n,
                    nanos: 0,
                })),
    {
        TimeoutConfig {
            request: Self::parse_env_timeout(
                request,
                Span { secs: DEFAULT_REQUEST_SECS, nanos: 0 },
            ),
            connect: Self::parse_env_timeout(
                connect,
                Span { secs: DEFAULT_CONNECT_SECS, nanos: 0 },
            ),
        }
    }
}

/// Letters without a number count nothing.
proof fn lemma_letters_count_nothing(s: Seq<char>)
    requires
        forall|i: int| 0 <= i < s.len() ==> ascii_letter(#[trigger] s[i]),
    ensures
        nanos_in(s, Reading::nothing()) == 0,
    decreases s.len(),
{
    if s.len() > 0 {
        let rest = s.skip(1);
        assert(ascii_letter(s[0]));
        assert forall|i: int| 0 <= i < rest.len() implies ascii_letter(#[trigger] rest[i]) by {
            assert(rest[i] == s[i + 1]);
        }
        lemma_letters_count_nothing(rest);
        let unit = unit_nanos(s[0], char_at(s, 1), char_at(s, 2)) as nat;
        assert(0 * unit == 0);
        assert(Reading::nothing().nanos(unit) == 0);
    }
}

/// A whole number with a unit counts so many times the unit.
proof fn lemma_number_of_units(n: u64, unit: Seq<char>)
    requires
        unit.len() > 0,
        forall|i: int| 0 <= i < unit.len() ==> ascii_letter(#[trigger] unit[i]),
    ensures
        nanos_in(written(n as nat, 10) + unit, Reading::nothing()) == n * unit_nanos(
            unit[0],
            char_at(unit, 1),
            char_at(unit, 2),
        ),
{
    lemma_reads_written(n as nat, unit);
    let rest = unit.skip(1);
    assert(ascii_letter(unit[0]));
    assert forall|i: int| 0 <= i < rest.len() implies ascii_letter(#[trigger] rest[i]) by {
        assert(rest[i] == unit[i + 1]);
    }
    lemma_letters_count_nothing(rest);
}

/// What a unit of time comes to, by its name: behind any number, in nanoseconds.
#[verifier::rlimit(40)]
pub proof fn law_units_of_time(n: u64)
    ensures
        nanos_in(written(n as nat, 10) + "ns"@, Reading::nothing()) == n * 1,
        nanos_in(written(n as nat, 10) + "nsec"@, Reading::nothing()) == n * 1,
        nanos_in(written(n as nat, 10) + "nanos"@, Reading::nothing()) == n * 1,
        nanos_in(written(n as nat, 10) + "us"@, Reading::nothing()) == n * 1_000,
        nanos_in(written(n as nat, 10) + "usec"@, Reading::nothing()) == n * 1_000,
        nanos_in(written(n as nat, 10) + "ms"@, Reading::nothing()) == n * 1_000_000,
        nanos_in(written(n as nat, 10) + "msec"@, Reading::nothing()) == n * 1_000_000,
        nanos_in(written(n as nat, 10) + "millis"@, Reading::nothing()) == n * 1_000_000,
        nanos_in(written(n as nat, 10) + "s"@, Reading::nothing()) == n * 1_000_000_000,
        nanos_in(written(n as nat, 10) + "sec"@, Reading::nothing()) == n * 1_000_000_000,
        nanos_in(written(n as nat, 10) + "secs"@, Reading::nothing()) == n * 1_000_000_000,
        nanos_in(written(n as nat, 10) + "second"@, Reading::nothing()) == n * 1_000_000_000,
        nanos_in(written(n as nat, 10) + "seconds"@, Reading::nothing()) == n * 1_000_000_000,
        nanos_in(written(n as nat, 10) + "m"@, Reading::nothing()) == n * 60_000_000_000,
        nanos_in(written(n as nat, 10) + "min"@, Reading::nothing()) == n * 60_000_000_000,
        nanos_in(written(n as nat, 10) + "mins"@, Reading::nothing()) == n * 60_000_000_000,
        nanos_in(written(n as nat, 10) + "minute"@, Reading::nothing()) == n * 60_000_000_000,
        nanos_in(written(n as nat, 10) + "minutes"@, Reading::nothing()) == n * 60_000_000_000,
        nanos_in(written(n as nat, 10) + "h"@, Reading::nothing()) == n * 3_600_000_000_000,
        nanos_in(written(n as nat, 10) + "hr"@, Reading::nothing()) == n * 3_600_000_000_000,
        nanos_in(written(n as nat, 10) + "hrs"@, Reading::nothing()) == n * 3_600_000_000_000,
        nanos_in(written(n as nat, 10) + "hour"@, Reading::nothing()) == n * 3_600_000_000_000,
        nanos_in(written(n as nat, 10) + "hours"@, Reading::nothing()) == n * 3_600_000_000_000,
        nanos_in(written(n as nat, 10) + "d"@, Reading::nothing()) == n * 86_400_000_000_000,
        nanos_in(written(n as nat, 10) + "day"@, Reading::nothing()) == n * 86_400_000_000_000,
        nanos_in(written(n as nat, 10) + "days"@, Reading::nothing()) == n * 86_400_000_000_000,
        nanos_in(written(n as nat, 10) + "w"@, Reading::nothing()) == n * 604_800_000_000_000,
        nanos_in(written(n as nat, 10) + "wk"@, Reading::nothing()) == n * 604_800_000_000_000,
        nanos_in(written(n as nat, 10) + "wks"@, Reading::nothing()) == n * 604_800_000_000_000,
        nanos_in(written(n as nat, 10) + "week"@, Reading::nothing()) == n * 604_800_000_000_000,
        nanos_in(written(n as nat, 10) + "weeks"@, Reading::nothing()) == n * 604_800_000_000_000,
        nanos_in(written(n as nat, 10) + "M"@, Reading::nothing()) == n * 2_630_016_000_000_000,
        nanos_in(written(n as nat, 10) + "month"@, Reading::nothing()) == n * 2_630_016_000_000_000,
        nanos_in(written(n as nat, 10) + "months"@, Reading::nothing()) == n * 2_630_016_000_000_000,
        nanos_in(written(n as nat, 10) + "y"@, Reading::nothing()) == n * 31_557_600_000_000_000,
        nanos_in(written(n as nat, 10) + "yr"@, Reading::nothing()) == n * 31_557_600_000_000_000,
        nanos_in(written(n as nat, 10) + "yrs"@, Reading::nothing()) == n * 31_557_600_000_000_000,
        nanos_in(written(n as nat, 10) + "year"@, Reading::nothing()) == n * 31_557_600_000_000_000,
        nanos_in(written(n as nat, 10) + "years"@, Reading::nothing()) == n * 31_557_600_000_000_000,
{
    assert(nanos_in(written(n as nat, 10) + "ns"@, Reading::nothing()) == n * 1) by {
        reveal_strlit("ns");
        lemma_number_of_units(n, "ns"@);
    }
    assert(nanos_in(written(n as nat, 10) + "nsec"@, Reading::nothing()) == n * 1) by {
        reveal_strlit("nsec");
        lemma_number_of_units(n, "nsec"@);
    }
    assert(nanos_in(written(n as nat, 10) + "nanos"@, Reading::nothing()) == n * 1) by {
        reveal_strlit("nanos");
        lemma_number_of_units(n, "nanos"@);
    }
    assert(nanos_in(written(n as nat, 10) + "us"@, Reading::nothing()) == n * 1_000) by {
        reveal_strlit("us");
        lemma_number_of_units(n, "us"@);
    }
    assert(nanos_in(written(n as nat, 10) + "usec"@, Reading::nothing()) == n * 1_000) by {
        reveal_strlit("usec");
        lemma_number_of_units(n, "usec"@);
    }
    assert(nanos_in(written(n as nat, 10) + "ms"@, Reading::nothing()) == n * 1_000_000) by {
        reveal_strlit("ms");
        lemma_number_of_units(n, "ms"@);
    }
    assert(nanos_in(written(n as nat, 10) + "msec"@, Reading::nothing()) == n * 1_000_000) by {
        reveal_strlit("msec");
        lemma_number_of_units(n, "msec"@);
    }
    assert(nanos_in(written(n as nat, 10) + "millis"@, Reading::nothing()) == n * 1_000_000) by {
        reveal_strlit("millis");
        lemma_number_of_units(n, "millis"@);
    }
    assert(nanos_in(written(n as nat, 10) + "s"@, Reading::nothing()) == n * 1_000_000_000) by {
        reveal_strlit("s");
        lemma_number_of_units(n, "s"@);
    }
    assert(nanos_in(written(n as nat, 10) + "sec"@, Reading::nothing()) == n * 1_000_000_000) by {
        reveal_strlit("sec");
        lemma_number_of_units(n, "sec"@);
    }
    assert(nanos_in(written(n as nat, 10) + "secs"@, Reading::nothing()) == n * 1_000_000_000) by {
        reveal_strlit("secs");
        lemma_number_of_units(n, "secs"@);
    }
    assert(nanos_in(written(n as nat, 10) + "second"@, Reading::nothing()) == n * 1_000_000_000) by {
        reveal_strlit("second");
        lemma_number_of_units(n, "second"@);
    }
    assert(nanos_in(written(n as nat, 10) + "seconds"@, Reading::nothing()) == n * 1_000_000_000) by {
        reveal_strlit("seconds");
        lemma_number_of_units(n, "seconds"@);
    }
    assert(nanos_in(written(n as nat, 10) + "m"@, Reading::nothing()) == n * 60_000_000_000) by {
        reveal_strlit("m");
        lemma_number_of_units(n, "m"@);
    }
    assert(nanos_in(written(n as nat, 10) + "min"@, Reading::nothing()) == n * 60_000_000_000) by {
        reveal_strlit("min");
        lemma_number_of_units(n, "min"@);
    }
    assert(nanos_in(written(n as nat, 10) + "mins"@, Reading::nothing()) == n * 60_000_000_000) by {
        reveal_strlit("mins");
        lemma_number_of_units(n, "mins"@);
    }
    assert(nanos_in(written(n as nat, 10) + "minute"@, Reading::nothing()) == n * 60_000_000_000) by {
        reveal_strlit("minute");
        lemma_number_of_units(n, "minute"@);
    }
    assert(nanos_in(written(n as nat, 10) + "minutes"@, Reading::nothing()) == n * 60_000_000_000) by {
        reveal_strlit("minutes");
        lemma_number_of_units(n, "minutes"@);
    }
    assert(nanos_in(written(n as nat, 10) + "h"@, Reading::nothing()) == n * 3_600_000_000_000) by {
        reveal_strlit("h");
        lemma_number_of_units(n, "h"@);
    }
    assert(nanos_in(written(n as nat, 10) + "hr"@, Reading::nothing()) == n * 3_600_000_000_000) by {
        reveal_strlit("hr");
        lemma_number_of_units(n, "hr"@);
    }
    assert(nanos_in(written(n as nat, 10) + "hrs"@, Reading::nothing()) == n * 3_600_000_000_000) by {
        reveal_strlit("hrs");
        lemma_number_of_units(n, "hrs"@);
    }
    assert(nanos_in(written(n as nat, 10) + "hour"@, Reading::nothing()) == n * 3_600_000_000_000) by {
        reveal_strlit("hour");
        lemma_number_of_units(n, "hour"@);
    }
    assert(nanos_in(written(n as nat, 10) + "hours"@, Reading::nothing()) == n * 3_600_000_000_000) by {
        reveal_strlit("hours");
        lemma_number_of_units(n, "hours"@);
    }
    assert(nanos_in(written(n as nat, 10) + "d"@, Reading::nothing()) == n * 86_400_000_000_000) by {
        reveal_strlit("d");
        lemma_number_of_units(n, "d"@);
    }
    assert(nanos_in(written(n as nat, 10) + "day"@, Reading::nothing()) == n * 86_400_000_000_000) by {
        reveal_strlit("day");
        lemma_number_of_units(n, "day"@);
    }
    assert(nanos_in(written(n as nat, 10) + "days"@, Reading::nothing()) == n * 86_400_000_000_000) by {
        reveal_strlit("days");
        lemma_number_of_units(n, "days"@);
    }
    assert(nanos_in(written(n as nat, 10) + "w"@, Reading::nothing()) == n * 604_800_000_000_000) by {
        reveal_strlit("w");
        lemma_number_of_units(n, "w"@);
    }
    assert(nanos_in(written(n as nat, 10) + "wk"@, Reading::nothing()) == n * 604_800_000_000_000) by {
        reveal_strlit("wk");
        lemma_number_of_units(n, "wk"@);
    }
    assert(nanos_in(written(n as nat, 10) + "wks"@, Reading::nothing()) == n * 604_800_000_000_000) by {
        reveal_strlit("wks");
        lemma_number_of_units(n, "wks"@);
    }
    assert(nanos_in(written(n as nat, 10) + "week"@, Reading::nothing()) == n * 604_800_000_000_000) by {
        reveal_strlit("week");
        lemma_number_of_units(n, "week"@);
    }
    assert(nanos_in(written(n as nat, 10) + "weeks"@, Reading::nothing()) == n * 604_800_000_000_000) by {
        reveal_strlit("weeks");
        lemma_number_of_units(n, "weeks"@);
    }
    assert(nanos_in(written(n as nat, 10) + "M"@, Reading::nothing()) == n * 2_630_016_000_000_000) by {
        reveal_strlit("M");
        lemma_number_of_units(n, "M"@);
    }
    assert(nanos_in(written(n as nat, 10) + "month"@, Reading::nothing()) == n * 2_630_016_000_000_000) by {
        reveal_strlit("month");
        lemma_number_of_units(n, "month"@);
    }
    assert(nanos_in(written(n as nat, 10) + "months"@, Reading::nothing()) == n * 2_630_016_000_000_000) by {
        reveal_strlit("months");
        lemma_number_of_units(n, "months"@);
    }
    assert(nanos_in(written(n as nat, 10) + "y"@, Reading::nothing()) == n * 31_557_600_000_000_000) by {
        reveal_strlit("y");
        lemma_number_of_units(n, "y"@);
    }
    assert(nanos_in(written(n as nat, 10) + "yr"@, Reading::nothing()) == n * 31_557_600_000_000_000) by {
        reveal_strlit("yr");
        lemma_number_of_units(n, "yr"@);
    }
    assert(nanos_in(written(n as nat, 10) + "yrs"@, Reading::nothing()) == n * 31_557_600_000_000_000) by {
        reveal_strlit("yrs");
        lemma_number_of_units(n, "yrs"@);
    }
    assert(nanos_in(written(n as nat, 10) + "year"@, Reading::nothing()) == n * 31_557_600_000_000_000) by {
        reveal_strlit("year");
        lemma_number_of_units(n, "year"@);
    }
    assert(nanos_in(written(n as nat, 10) + "years"@, Reading::nothing()) == n * 31_557_600_000_000_000) by {
        reveal_strlit("years");
        lemma_number_of_units(n, "years"@);
    }
}

/// Spans with a blank between them add up.
pub proof fn law_spans_add_up(a: Seq<char>, b: Seq<char>, reading: Reading)
    requires
        a.len() > 0,
        ascii_letter(a.last()),
    ensures
        nanos_in(a + seq![' '] + b, reading) == nanos_in(a, reading) + nanos_in(
            b,
            Reading::nothing(),
        ),
    decreases a.len(),
{
    let s = a + seq![' '] + b;
    let rest = a.skip(1);
    assert(s[0] == a[0]);
    assert(s.skip(1) =~= rest + seq![' '] + b);
    assert(char_at(s, 1) == char_at(a, 1));
    assert(a.len() >= 2 ==> char_at(s, 2) == char_at(a, 2));
    assert(unit_nanos(s[0], char_at(s, 1), char_at(s, 2)) == unit_nanos(
        a[0],
        char_at(a, 1),
        char_at(a, 2),
    ));
    if a.len() == 1 {
        let tail = seq![' '] + b;
        assert(s.skip(1) =~= tail);
        assert(tail.skip(1) =~= b);
        assert(tail[0] == ' ');
        assert(nanos_in(tail, Reading::nothing()) == nanos_in(b, Reading::nothing()));
        assert(nanos_in(rest, Reading::nothing()) == 0);
    } else {
        assert(rest.last() == a.last());
        match digit_value(a[0]) {
            Some(digit) => law_spans_add_up(rest, b, reading.longer(digit)),
            None => {
                if a[0] == '.' {
                    law_spans_add_up(rest, b, reading.pointed());
                } else if white(a[0]) {
                    law_spans_add_up(rest, b, reading);
                } else {
                    law_spans_add_up(rest, b, Reading::nothing());
                }
            },
        }
    }
}

/// Spans are added up as long as their sum is less than two to the power of 64 seconds; a
/// text whose sum is more is not read.
pub proof fn law_spans_within_the_range(s: Seq<char>)
    ensures
        addable(s) <==> nanos_in(s, Reading::nothing()) < 0x1_0000_0000_0000_0000
            * 1_000_000_000,
        !addable(s) ==> span_of(s) is None,
        addable(s) ==> span_of(s) == humantime_span(s),
{
}

/// A pod is configured by a full answer, and by that alone: a reply came, its status is one
/// of success, it could be read, it says that the pod was found, and it tells what is known
/// of it. Where one of these is missing, the failure says which.
pub proof fn law_configuration_by_a_full_answer(url: Seq<char>, reply: Option<HttpReply>)
    ensures
        ({
            let r = config_from(url, reply);
            &&& r is Ok <==> reply is Some && reply->0.success && reply->0.body is Some
                && reply->0.body->0.success && reply->0.body->0.pod_info is Some
            &&& r matches Ok(info) ==> info == reply->0.body->0.pod_info->0
            &&& r is Err && (r->Err_0).0 == ConfigError::HttpRequest <==> reply is None
                || !reply->0.success
            &&& r is Err && (r->Err_0).0 == ConfigError::JsonParsing <==> reply is Some
                && reply->0.success && reply->0.body is None
            &&& r is Err && (r->Err_0).0 == ConfigError::InvalidResponse <==> reply is Some
                && reply->0.success && reply->0.body is Some && !reply->0.body->0.success
            &&& r is Err && (r->Err_0).0 == ConfigError::MissingData <==> reply is Some
                && reply->0.success && reply->0.body is Some && reply->0.body->0.success
                && reply->0.body->0.pod_info is None
        }),
{
}

/// A part of a query is there exactly where it has a value, and says just that.
pub proof fn law_query_parts(key: Seq<char>, value: Seq<char>)
    ensures
        value.len() == 0 ==> unless_empty(key, value).len() == 0,
        value.len() > 0 ==> unless_empty(key, value).len() == 1 && unless_empty(key, value)[0] == (
            key,
            value,
        ),
{
}

/// What a text from the environment asks for: a number of seconds with an `s` is that many
/// seconds, and no text and nothing but white space ask for nothing.
pub proof fn law_timeouts_in_seconds(n: u64, s: Seq<char>)
    ensures
        seconds_text(n) == written(n as nat, 10) + "s"@,
        timeout_of(None) is None,
        trimmed(s).len() == 0 ==> timeout_of(Some(s)) is None,
        trimmed(s).len() > 0 ==> (timeout_of(Some(s)) is Some <==> span_of(trimmed(s)) is Some),
        timeout_of(Some(s)) matches Some(span) ==> span_of(trimmed(s)) == Some(
            (span.secs, span.nanos),
        ),
{
    reveal_strlit("s");
    assert(seconds_text(n) =~= written(n as nat, 10) + "s"@);
}

/// A thousandth of a millisecond may be written with the sign for a micron.
pub proof fn law_micro_sign(n: u64)
    ensures
        nanos_in(written(n as nat, 10) + seq!['\u{b5}', 's'], Reading::nothing()) == n * 1_000,
{
    let unit = seq!['\u{b5}', 's'];
    lemma_reads_written(n as nat, unit);
    let rest = unit.skip(1);
    assert(rest =~= seq!['s']);
    lemma_letters_count_nothing(rest);
    assert(unit[0] == '\u{b5}');
    let reading = Reading { whole: n as nat, fraction: 0, power: 0 };
    assert(nanos_in(unit, reading) == reading.nanos(1_000) + nanos_in(rest, Reading::nothing()));
}

} // verus!
