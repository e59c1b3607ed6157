use hip_limiter::config::{
    get_hypervisor_config, get_worker_config, is_addable, parse_duration, pod_info_url,
    read_service_account_token, request_query, ConfigError, HttpReply, PodInfo, PodInfoResponse,
    Span, TimeoutConfig,
};
use hip_limiter::hooks::{
    dlsym_plan, enable_hooks, entry_point, hooks_enabled, needs_bdf_function, should_install,
    should_skip_hooks_on_no_limit, try_intercept_smi_symbol, HookRole, HookState, SmiHook,
};
use hip_limiter::limiter::{Limiter, SharedMemory};
use hip_limiter::logging::{log_switched_off, log_target, LogTarget};
use hip_limiter::shared_state::SharedDeviceState;
use hip_limiter::startup::{
    after_hypervisor, after_limiter, init_hooks, init_limiter, mock_shm_path, plan_standalone,
    shm_path, visible_devices, Environment, HookPlan, InitStep, LimiterErrors,
};

fn empty() -> Environment {
    Environment {
        memory_limit: None,
        shm_file: None,
        visible_devices: None,
        hypervisor_ip: None,
        hypervisor_port: None,
    }
}

fn text(s: &str) -> Option<String> {
    Some(s.to_string())
}

fn given_up(step: InitStep) -> String {
    match step {
        InitStep::GiveUp(reason) => reason,
        _ => panic!("should give up"),
    }
}

#[test]
fn limits_come_from_the_environment_first() {
    let env = Environment {
        memory_limit: text("2GiB"),
        shm_file: text("/tmp/x/shm"),
        visible_devices: text("a"),
        hypervisor_ip: text("1.2.3.4"),
        hypervisor_port: text("80"),
    };
    assert!(matches!(init_limiter(Ok(()), env), InitStep::Enumerate(2147483648)));
    let env = Environment { memory_limit: text("lots"), ..empty() };
    assert_eq!(given_up(init_limiter(Ok(()), env)), "invalid TF_MEMORY_LIMIT: lots");
    assert_eq!(
        given_up(init_limiter(Err("no lib".to_string()), empty())),
        "failed to initialize HIP library: no lib"
    );
}

#[test]
fn a_local_file_comes_before_the_hypervisor() {
    let env = Environment {
        shm_file: text("/tmp/x/shm"),
        visible_devices: text(" a ,, b"),
        hypervisor_ip: text("1.2.3.4"),
        hypervisor_port: text("80"),
        ..empty()
    };
    match init_limiter(Ok(()), env) {
        InitStep::Build(config) => {
            assert_eq!(config.gpu_uuids, vec!["a", "b"]);
            assert_eq!(config.isolation, None);
        }
        _ => panic!("should be set up at once"),
    }
    let env = Environment { shm_file: text("x"), ..empty() };
    assert_eq!(
        given_up(init_limiter(Ok(()), env)),
        "TF_VISIBLE_DEVICES not set in mock/test mode; skipping limiter init"
    );
    assert_eq!(visible_devices(""), Vec::<String>::new());
}

#[test]
fn the_hypervisor_is_asked_last() {
    let env = Environment { hypervisor_ip: text("h"), hypervisor_port: text("1"), ..empty() };
    match init_limiter(Ok(()), env) {
        InitStep::Ask(ip, port) => assert_eq!((ip.as_str(), port.as_str()), ("h", "1")),
        _ => panic!("should ask"),
    }
    let env = Environment { hypervisor_ip: text("h"), ..empty() };
    assert_eq!(
        given_up(init_limiter(Ok(()), env)),
        "HYPERVISOR_IP or HYPERVISOR_PORT not set; skipping limiter init"
    );
    assert_eq!(get_hypervisor_config(None, text("1")), None);
}

#[test]
fn standalone_limits_every_gpu() {
    let devices = vec![(0, "0000:75:00.0".to_string()), (1, "0000:05:00.0".to_string())];
    let plan = match plan_standalone(&devices, 77) {
        Ok(plan) => plan,
        Err(e) => panic!("{e}"),
    };
    assert_eq!(plan.configs.len(), 2);
    assert_eq!(plan.configs[1].device_idx, 1);
    assert_eq!(plan.configs[1].device_uuid, "0000:05:00.0");
    assert_eq!(plan.configs[1].mem_limit, 77);
    assert_eq!(plan.configs[1].up_limit, 100);
    assert_eq!(plan.configs[1].sm_count, 0);
    assert_eq!(plan.configs[1].max_thread_per_sm, 0);
    assert_eq!(plan.configs[1].total_cuda_cores, 0);
    assert_eq!(plan.pod.gpu_uuids, vec!["0000:75:00.0", "0000:05:00.0"]);
    assert_eq!(plan.pod.isolation, text("soft"));
    match plan_standalone(&[], 77) {
        Ok(_) => panic!("nothing to limit"),
        Err(e) => assert_eq!(e, "TF_MEMORY_LIMIT set but no GPUs visible"),
    }
}

#[test]
fn paths_of_the_shared_state() {
    assert_eq!(shm_path(true, None), "/dev/shm/tensor-fusion");
    assert_eq!(shm_path(false, None), "/run/tensor-fusion/shm");
    assert_eq!(shm_path(true, Some("/x")), "/x");
    assert_eq!(mock_shm_path(None), None);
    assert_eq!(mock_shm_path(Some("/tmp/dir/shm")), text("/tmp/dir"));
    assert_eq!(mock_shm_path(Some("shm")), text(""));
    assert_eq!(mock_shm_path(Some("/")), text("/"));
}

#[test]
fn the_first_reason_is_reported_once() {
    let mut errors = LimiterErrors::new();
    assert!(errors.record_limiter_error("first".to_string()));
    assert!(!errors.record_limiter_error("second".to_string()));
    assert_eq!(
        errors.report_limiter_not_initialized(),
        text("Limiter not initialized; last error: first")
    );
    assert_eq!(errors.report_limiter_not_initialized(), None);
    let mut errors = LimiterErrors::new();
    assert_eq!(
        errors.report_limiter_not_initialized(),
        text("Limiter not initialized; init has not run")
    );
}

fn limiter(isolation: Option<&str>) -> Limiter {
    match Limiter::new(Vec::new(), Ok(Vec::new()), isolation.map(|s| s.to_string()), false) {
        Ok(limiter) => limiter,
        Err(e) => panic!("{}", e.message()),
    }
}

#[test]
fn hooks_depend_on_isolation_and_limits() {
    let shm = SharedMemory::Attached(SharedDeviceState::new(&[]));
    assert_eq!(init_hooks(None, &shm, true, true), HookPlan::NoLimiter);
    let hard = limiter(Some("hard"));
    assert_eq!(init_hooks(Some(&hard), &shm, false, true), HookPlan::OtherIsolation);
    for isolation in [None, Some("soft")] {
        let l = limiter(isolation);
        assert_eq!(init_hooks(Some(&l), &shm, false, true), HookPlan::Install(true));
        assert_eq!(init_hooks(Some(&l), &shm, false, false), HookPlan::Install(false));
        assert_eq!(init_hooks(Some(&l), &shm, true, true), HookPlan::NoLimits);
        assert_eq!(init_hooks(Some(&l), &SharedMemory::new(), true, true), HookPlan::Install(true));
    }
}

#[test]
fn switches_in_the_environment() {
    assert!(hooks_enabled(None));
    assert!(hooks_enabled(Some("0")));
    assert!(!hooks_enabled(Some("false")));
    assert!(should_skip_hooks_on_no_limit(Some("true")));
    assert!(should_skip_hooks_on_no_limit(Some("1")));
    assert!(!should_skip_hooks_on_no_limit(Some("TRUE")));
    assert!(!should_skip_hooks_on_no_limit(None));
    assert!(log_switched_off(Some("off")));
    assert!(log_switched_off(Some("0")));
    assert!(log_switched_off(Some("false")));
    assert!(!log_switched_off(Some("OFF")));
    assert!(!log_switched_off(None));
}

#[test]
fn runtime_calls_that_are_intercepted() {
    let hooks = enable_hooks();
    assert_eq!(hooks.len(), 27);
    let count = |role| hooks.iter().filter(|h| h.role == role).count();
    assert_eq!(count(HookRole::Alloc), 15);
    assert_eq!(count(HookRole::Free), 7);
    assert_eq!(count(HookRole::Info), 5);
    let place = |symbol: &str| hooks.iter().position(|h| h.symbol == symbol).unwrap();
    assert!(place("hipFree") < place("hipMallocPitch"));
    assert!(place("hipFree") < place("hipMalloc3D"));
    let mut symbols: Vec<&str> = hooks.iter().map(|h| h.symbol.as_str()).collect();
    symbols.sort();
    symbols.dedup();
    assert_eq!(symbols.len(), 27);
}

#[test]
fn lookups_set_up_once() {
    let (state, install) = entry_point(true);
    assert!(install);
    let plan = dlsym_plan(Some("hipMalloc"), false, state);
    assert!(plan.run_init && plan.try_install && plan.intercept.is_none());
    let done = HookState { init_attempted: true, hooks_initialized: true, ..state };
    let plan = dlsym_plan(Some("hipMalloc"), false, done);
    assert!(!plan.run_init && !plan.try_install);

    let plan = dlsym_plan(Some("rsmi_dev_memory_total_get"), false, state);
    assert!(plan.run_init && !plan.try_install);
    assert_eq!(plan.intercept, Some(SmiHook::RsmiMemoryTotal));
    for (symbol, in_detour) in [(None, false), (Some("malloc"), false), (Some("hipFree"), true)] {
        let plan = dlsym_plan(symbol, in_detour, state);
        assert!(!plan.run_init && !plan.try_install && plan.intercept.is_none());
    }
    let early = HookState { ctor_complete: false, init_attempted: false, hooks_initialized: false };
    assert!(!dlsym_plan(Some("hipMalloc"), false, early).run_init);

    let (off, install) = entry_point(false);
    assert!(!install);
    assert!(!dlsym_plan(Some("hipMalloc"), false, off).run_init);
    assert!(!dlsym_plan(Some("hipMalloc"), false, off).try_install);
}

#[test]
fn management_calls_that_are_intercepted() {
    assert_eq!(
        try_intercept_smi_symbol("amdsmi_get_gpu_memory_total"),
        Some(SmiHook::AmdsmiMemoryTotal)
    );
    assert_eq!(
        try_intercept_smi_symbol("amdsmi_get_gpu_vram_info"),
        Some(SmiHook::AmdsmiVramInfo)
    );
    assert_eq!(try_intercept_smi_symbol("amdsmi_init"), None);
    assert!(!needs_bdf_function(SmiHook::RsmiMemoryTotal));
    assert!(needs_bdf_function(SmiHook::AmdsmiMemoryTotal));
    assert!(needs_bdf_function(SmiHook::AmdsmiVramInfo));
    assert!(should_install(false, true));
    assert!(!should_install(true, true));
    assert!(!should_install(false, false));
}

fn reply(body: Option<PodInfoResponse>) -> Option<HttpReply> {
    Some(HttpReply { success: true, status: "200 OK".to_string(), body })
}

fn response(success: bool, pod_info: Option<PodInfo>) -> Option<PodInfoResponse> {
    Some(PodInfoResponse { success, message: "no such pod".to_string(), pod_info })
}

#[test]
fn replies_of_the_hypervisor() {
    let ask = |reply| get_worker_config("10.0.0.1", "8000", reply);
    let failure = |reply| {
        let report = ask(reply).unwrap_err();
        (report.error, report.note)
    };
    assert_eq!(pod_info_url("10.0.0.1", "8000"), "http://10.0.0.1:8000/api/v1/pod");
    assert_eq!(
        failure(None),
        (
            ConfigError::HttpRequest,
            "Failed to send GET request to http://10.0.0.1:8000/api/v1/pod".to_string()
        )
    );
    let refused = HttpReply { success: false, status: "503 Busy".to_string(), body: None };
    assert_eq!(
        failure(Some(refused)),
        (ConfigError::HttpRequest, "HTTP request failed with status: 503 Busy".to_string())
    );
    assert_eq!(
        failure(reply(None)),
        (ConfigError::JsonParsing, "Failed to parse PodInfoResponse".to_string())
    );
    assert_eq!(
        failure(reply(response(false, None))),
        (ConfigError::InvalidResponse, "Hypervisor API error: no such pod".to_string())
    );
    assert_eq!(
        failure(reply(response(true, None))),
        (ConfigError::MissingData, "No pod data in response".to_string())
    );
    let info = PodInfo {
        gpu_uuids: vec!["a".to_string()],
        isolation: text("soft"),
        compute_shard: true,
    };
    let config = ask(reply(response(true, Some(info)))).unwrap();
    assert_eq!(config.gpu_uuids, vec!["a"]);
    assert_eq!(config.isolation, text("soft"));

    assert!(matches!(after_hypervisor(Ok(config)), InitStep::Build(_)));
    assert_eq!(
        given_up(after_hypervisor(ask(None))),
        "failed to get device configs: HTTP request failed"
    );
    match after_limiter(Limiter::new(Vec::new(), Err(7), None, false)) {
        Ok(_) => panic!("should fail"),
        Err(e) => assert_eq!(e, "failed to initialize limiter: HIP error: 7"),
    }
    assert!(after_limiter(Ok(limiter(None))).is_ok());
}

#[test]
fn failures_in_words() {
    for (error, words) in [
        (ConfigError::TokenRead, "Failed to read service account token"),
        (ConfigError::EmptyToken, "Service account token is empty"),
        (ConfigError::HttpRequest, "HTTP request failed"),
        (ConfigError::InvalidResponse, "Invalid response from hypervisor"),
        (ConfigError::MissingData, "Missing required data in response"),
        (ConfigError::JsonParsing, "JSON parsing failed"),
    ] {
        assert_eq!(error.message(), words);
    }
}

#[test]
fn requests_say_who_asks() {
    let pair = |k: &str, v: &str| (k.to_string(), v.to_string());
    assert_eq!(
        request_query(17, "c", "", "n"),
        vec![pair("container_pid", "17"), pair("container_name", "c"), pair("pod_namespace", "n")]
    );
    assert_eq!(request_query(1, "", "p", "").len(), 2);
}

#[test]
fn tokens_are_trimmed() {
    assert_eq!(read_service_account_token(Some(" abc\n")).unwrap(), "abc");
    let report = read_service_account_token(Some(" \n")).unwrap_err();
    assert_eq!(report.error, ConfigError::EmptyToken);
    let report = read_service_account_token(None).unwrap_err();
    assert_eq!(report.error, ConfigError::TokenRead);
    assert_eq!(
        report.note,
        "Failed to read token from /var/run/secrets/kubernetes.io/serviceaccount/token"
    );
}

#[test]
fn spans_of_time() {
    assert_eq!(parse_duration(" 2h 37min ").unwrap(), Span { secs: 9420, nanos: 0 });
    assert_eq!(parse_duration("32ms").unwrap(), Span { secs: 0, nanos: 32_000_000 });
    let report = parse_duration("soon").unwrap_err();
    assert_eq!(report.error, ConfigError::InvalidResponse);
    assert_eq!(report.note, "Failed to parse duration: soon");
    let report = parse_duration("  ").unwrap_err();
    assert_eq!(report.error, ConfigError::InvalidResponse);
    assert_eq!(report.note, "Duration string is empty");
}

#[test]
fn timeouts_have_defaults() {
    let c = TimeoutConfig::from_env(None, None);
    assert_eq!(c.request, Span { secs: 30, nanos: 0 });
    assert_eq!(c.connect, Span { secs: 15, nanos: 0 });
    let c = TimeoutConfig::from_env(Some("1m"), Some("never"));
    assert_eq!(c.request, Span { secs: 60, nanos: 0 });
    assert_eq!(c.connect, Span { secs: 15, nanos: 0 });
    let c = TimeoutConfig::from_env(Some(""), Some("1000000000000000000ns"));
    assert_eq!(c.request, Span { secs: 30, nanos: 0 });
    assert_eq!(c.connect, Span { secs: 1_000_000_000, nanos: 0 });
}

/// Numbers that add up to more than can be counted are not read.
#[test]
fn spans_that_run_over_are_not_read() {
    let addable = |s: &str| is_addable(&s.chars().collect::<Vec<char>>());
    for s in [
        "18446744073709551615s 1000ms",
        "18446744073709551615s 0.5s 0.5s",
        "18446744073709551615s 1s",
        "584542046091y",
        "999999999999y 1s",
    ] {
        assert!(!addable(s), "{s}");
        let report = parse_duration(s).unwrap_err();
        assert_eq!(report.error, ConfigError::InvalidResponse);
        assert_eq!(report.note, format!("Failed to parse duration: {s}"));
        let c = TimeoutConfig::from_env(Some(s), None);
        assert_eq!(c.request, Span { secs: 30, nanos: 0 });
    }
    for (s, secs, nanos) in [
        ("18446744073709551615 s", u64::MAX, 0),
        ("18446744073709551615s 1ns", u64::MAX, 1),
        ("18446744073709551615s 999us", u64::MAX, 999_000),
        ("18446744073709551615s 999ms", u64::MAX, 999_000_000),
        ("18446744073709551615s 999millis", u64::MAX, 999_000_000),
        ("18446744073709551615.999999999s", u64::MAX, 999_999_999),
        ("18446744073709551554s 1m 1.5s", u64::MAX, 500_000_000),
        ("18446744073709551555s 0.5min 30s", u64::MAX, 0),
        ("18446744073706921599s 1month", u64::MAX, 0),
        ("18446744073706921599s 1M", u64::MAX, 0),
        ("18446744073709551614s 1000ms", u64::MAX, 0),
        ("1844674407370955161.5s", 1_844_674_407_370_955_161, 500_000_000),
    ] {
        assert!(addable(s), "{s}");
        assert_eq!(parse_duration(s).unwrap(), Span { secs, nanos }, "{s}");
        let c = TimeoutConfig::from_env(None, Some(s));
        assert_eq!(c.connect, Span { secs, nanos });
    }
}

/// Many digits do no harm as long as the numbers can be added up.
#[test]
fn long_spans_are_read() {
    let s = "1year 2months 12days 23h 59m 59s 999ms 999us 999ns";
    let c = TimeoutConfig::from_env(Some(s), Some("10.000000000000000s"));
    let days: u64 = 31_557_600 + 2 * 2_630_016 + 12 * 86_400;
    assert_eq!(c.request, Span { secs: days + 23 * 3600 + 59 * 60 + 59, nanos: 999_999_999 });
    assert_eq!(c.connect, Span { secs: 10, nanos: 0 });
    let c = TimeoutConfig::from_env(Some("1700000000s 500000us"), Some("1844674407370955161.5s"));
    assert_eq!(c.request, Span { secs: 1_700_000_000, nanos: 500_000_000 });
    assert_eq!(c.connect, Span { secs: 1_844_674_407_370_955_161, nanos: 500_000_000 });
    let c = TimeoutConfig::from_env(
        Some("10000000000ns 10000s"),
        Some("18446744073709551614s 1000ms"),
    );
    assert_eq!(c.request, Span { secs: 10_010, nanos: 0 });
    assert_eq!(c.connect, Span { secs: u64::MAX, nanos: 0 });
    let c = TimeoutConfig::from_env(Some("7000000000000\u{b5}s 1M"), Some("9000000000000ms 1h"));
    assert_eq!(c.request, Span { secs: 7_000_000 + 2_630_016, nanos: 0 });
    assert_eq!(c.connect, Span { secs: 9_000_000_000 + 3_600, nanos: 0 });
}

#[test]
fn messages_go_to_files_or_to_standard_output() {
    let files = |path: &str, is_dir| match log_target(Some(path), is_dir) {
        LogTarget::Files(directory, prefix) => (directory, prefix),
        LogTarget::Stdout => panic!("a path was given"),
    };
    let pair = |a: &str, b: &str| (a.to_string(), b.to_string());
    assert!(matches!(log_target(None, false), LogTarget::Stdout));
    assert_eq!(files("/var/log", true), pair("/var/log", "tf.log"));
    assert_eq!(files("a/b/c.log", false), pair("a/b", "c.log"));
    assert_eq!(files("c.log", false), pair(".", "c.log"));
    assert_eq!(files("/", false), pair(".", "tf.log"));
    assert_eq!(files("a/..", false), pair("a", "tf.log"));
}
