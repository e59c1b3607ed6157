use hip_limiter::pod_info::{KubernetesError, QosLevel, TensorFusionPodInfo};
use hip_limiter::quantity::{parse_memory_value, parse_tflops_value, Tflops, TflopsUnit};
use hip_limiter::text_map::TextMap;

/// The amount that a number in a unit stands for.
fn amount(t: &Tflops) -> f64 {
    let number: f64 = t.number.parse().unwrap();
    match t.unit {
        TflopsUnit::One => number,
        TflopsUnit::Milli => number * 0.001,
        TflopsUnit::Kilo => number * 1000.0,
        TflopsUnit::Mega => number * 1_000_000.0,
        TflopsUnit::Giga => number * 1_000_000_000.0,
    }
}

fn tflops(s: &str) -> Result<f64, String> {
    parse_tflops_value(s).map(|t| amount(&t))
}

fn value(t: &Option<Tflops>) -> Option<f64> {
    t.as_ref().map(amount)
}

fn read(annotations: &TextMap<String>) -> TensorFusionPodInfo {
    match TensorFusionPodInfo::from_pod_annotations_labels(annotations, &TextMap::new()) {
        Ok(info) => info,
        Err(_) => panic!("annotations should be readable"),
    }
}

#[test]
fn parse_memory_value_bytes() {
    assert_eq!(parse_memory_value("1024").unwrap(), 1024);
    assert_eq!(parse_memory_value("1024B").unwrap(), 1024);
}

#[test]
fn parse_memory_value_with_units() {
    assert_eq!(parse_memory_value("1Ki").unwrap(), 1024);
    assert_eq!(parse_memory_value("1Mi").unwrap(), 1024 * 1024);
    assert_eq!(parse_memory_value("2Gi").unwrap(), 2 * 1024 * 1024 * 1024);
    assert_eq!(parse_memory_value("1Ti").unwrap(), 1024_u64.pow(4));
}

#[test]
fn parse_memory_value_case_insensitive() {
    assert_eq!(parse_memory_value("1gi").unwrap(), 1024 * 1024 * 1024);
    assert_eq!(parse_memory_value("1GI").unwrap(), 1024 * 1024 * 1024);
}

#[test]
fn parse_tflops_value_raw() {
    assert_eq!(tflops("1000").unwrap(), 1000.0);
    assert_eq!(tflops("1000.5").unwrap(), 1000.5);
}

#[test]
fn parse_tflops_value_with_units() {
    assert_eq!(tflops("1k").unwrap(), 1000.0);
    assert_eq!(tflops("1K").unwrap(), 1000.0);
    assert_eq!(tflops("1m").unwrap(), 0.001);
    assert_eq!(tflops("1M").unwrap(), 1_000_000.0);
    assert_eq!(tflops("1G").unwrap(), 1_000_000_000.0);
}

#[test]
fn parse_tflops_value_case_insensitive() {
    assert_eq!(tflops("1k").unwrap(), 1000.0);
    assert_eq!(tflops("1K").unwrap(), 1000.0);
    assert_eq!(tflops("1m").unwrap(), 0.001);
    assert_eq!(tflops("1M").unwrap(), 1_000_000.0);
    assert_eq!(tflops("1G").unwrap(), 1_000_000_000.0);
}

#[test]
fn parse_tflops_value_error_case_71200m() {
    assert_eq!(tflops("71200m").unwrap(), 71.2);
}

#[test]
fn from_pod_annotations_with_tflops_units() {
    let mut annotations = TextMap::new();
    annotations.insert(
        "tensor-fusion.ai/tflops-request".to_string(),
        "71200m".to_string(),
    );
    annotations.insert(
        "tensor-fusion.ai/tflops-limit".to_string(),
        "5k".to_string(),
    );

    let result =
        read(&annotations);

    assert!(result.has_annotations());
    assert_eq!(value(&result.0.tflops_request), Some(71.2));
    assert_eq!(value(&result.0.tflops_limit), Some(5000.0));
}

#[test]
fn from_pod_annotations_empty() {
    let annotations = TextMap::new();
    let result =
        read(&annotations);
    assert!(!result.has_annotations());
}

#[test]
fn from_pod_annotations_with_values() {
    let mut annotations = TextMap::new();
    annotations.insert(
        "tensor-fusion.ai/tflops-request".to_string(),
        "10.5".to_string(),
    );
    annotations.insert(
        "tensor-fusion.ai/vram-request".to_string(),
        "2Gi".to_string(),
    );
    annotations.insert(
        "tensor-fusion.ai/tflops-limit".to_string(),
        "20.0".to_string(),
    );
    annotations.insert("tensor-fusion.ai/vram-limit".to_string(), "4Gi".to_string());

    let result =
        read(&annotations);

    assert!(result.has_annotations());
    assert_eq!(value(&result.0.tflops_request), Some(10.5));
    assert_eq!(result.0.vram_request, Some(2 * 1024 * 1024 * 1024));
    assert_eq!(value(&result.0.tflops_limit), Some(20.0));
    assert_eq!(result.0.vram_limit, Some(4 * 1024 * 1024 * 1024));
}

#[test]
fn from_pod_annotations_ignores_other_annotations() {
    let mut annotations = TextMap::new();
    annotations.insert("other.domain/annotation".to_string(), "value".to_string());
    annotations.insert(
        "tensor-fusion.ai/tflops-request".to_string(),
        "5.0".to_string(),
    );

    let result =
        read(&annotations);

    assert!(result.has_annotations());
    assert_eq!(value(&result.0.tflops_request), Some(5.0));
    assert_eq!(result.0.vram_request, None);
}

#[test]
fn from_pod_annotations_with_gpu_uuids_single() {
    let mut annotations = TextMap::new();
    annotations.insert(
        "tensor-fusion.ai/gpu-ids".to_string(),
        "GPU-12345678-1234-1234-1234-123456789abc".to_string(),
    );

    let result =
        read(&annotations);

    assert!(result.has_annotations());
    assert_eq!(
        result.0.gpu_uuids,
        Some(vec!["GPU-12345678-1234-1234-1234-123456789abc".to_string()])
    );
}

#[test]
fn from_pod_annotations_with_gpu_uuids_multiple() {
    let mut annotations = TextMap::new();
    annotations.insert(
        "tensor-fusion.ai/gpu-ids".to_string(),
        "GPU-12345678-1234-1234-1234-123456789abc,GPU-87654321-4321-4321-4321-cba987654321"
            .to_string(),
    );

    let result =
        read(&annotations);

    assert!(result.has_annotations());
    assert_eq!(
        result.0.gpu_uuids,
        Some(vec![
            "GPU-12345678-1234-1234-1234-123456789abc".to_string(),
            "GPU-87654321-4321-4321-4321-cba987654321".to_string()
        ])
    );
}

#[test]
fn from_pod_annotations_comprehensive_with_gpu_uuids() {
    let mut annotations = TextMap::new();
    annotations.insert(
        "tensor-fusion.ai/tflops-request".to_string(),
        "10.5".to_string(),
    );
    annotations.insert(
        "tensor-fusion.ai/vram-request".to_string(),
        "2Gi".to_string(),
    );
    annotations.insert(
        "tensor-fusion.ai/tflops-limit".to_string(),
        "20.0".to_string(),
    );
    annotations.insert("tensor-fusion.ai/vram-limit".to_string(), "4Gi".to_string());
    annotations.insert(
        "tensor-fusion.ai/gpu-ids".to_string(),
        "GPU-11111111-1111-1111-1111-111111111111,GPU-22222222-2222-2222-2222-222222222222"
            .to_string(),
    );

    let result =
        read(&annotations);

    assert!(result.has_annotations());
    assert_eq!(value(&result.0.tflops_request), Some(10.5));
    assert_eq!(result.0.vram_request, Some(2 * 1024 * 1024 * 1024));
    assert_eq!(value(&result.0.tflops_limit), Some(20.0));
    assert_eq!(result.0.vram_limit, Some(4 * 1024 * 1024 * 1024));
    assert_eq!(
        result.0.gpu_uuids,
        Some(vec![
            "GPU-11111111-1111-1111-1111-111111111111".to_string(),
            "GPU-22222222-2222-2222-2222-222222222222".to_string()
        ])
    );
}

#[test]
fn from_pod_annotations_with_container_gpus_single_container() {
    let mut annotations = TextMap::new();
    annotations.insert(
        "tensor-fusion.ai/container-gpus".to_string(),
        r#"{"container1": ["GPU-aaaa", "GPU-bbbb"]}"#.to_string(),
    );

    let result =
        read(&annotations);

    assert!(result.has_annotations());
    assert!(result.0.container_gpu_uuids.is_some());

    let container_gpus = result.0.container_gpu_uuids.unwrap();
    assert_eq!(container_gpus.len(), 1);
    assert_eq!(
        container_gpus.get("container1"),
        Some(&vec!["GPU-aaaa".to_string(), "GPU-bbbb".to_string()])
    );
}

#[test]
fn from_pod_annotations_with_container_gpus_multiple_containers() {
    let mut annotations = TextMap::new();
    annotations.insert(
        "tensor-fusion.ai/container-gpus".to_string(),
        r#"{"container1": ["GPU-1111"], "container2": ["GPU-2222", "GPU-3333"]}"#.to_string(),
    );

    let result =
        read(&annotations);

    assert!(result.has_annotations());
    assert!(result.0.container_gpu_uuids.is_some());

    let container_gpus = result.0.container_gpu_uuids.unwrap();
    assert_eq!(container_gpus.len(), 2);
    assert_eq!(
        container_gpus.get("container1"),
        Some(&vec!["GPU-1111".to_string()])
    );
    assert_eq!(
        container_gpus.get("container2"),
        Some(&vec!["GPU-2222".to_string(), "GPU-3333".to_string()])
    );
}

#[test]
fn from_pod_annotations_with_container_gpus_trim_whitespace() {
    let mut annotations = TextMap::new();
    annotations.insert(
        "tensor-fusion.ai/container-gpus".to_string(),
        r#"{"  container1  ": ["  GPU-aaaa  ", "GPU-bbbb"]}"#.to_string(),
    );

    let result =
        read(&annotations);

    assert!(result.has_annotations());
    let container_gpus = result.0.container_gpu_uuids.unwrap();
    assert_eq!(
        container_gpus.get("container1"),
        Some(&vec!["GPU-aaaa".to_string(), "GPU-bbbb".to_string()])
    );
}

#[test]
fn from_pod_annotations_with_container_gpus_filter_empty() {
    let mut annotations = TextMap::new();
    annotations.insert(
        "tensor-fusion.ai/container-gpus".to_string(),
        r#"{"container1": ["GPU-aaaa", "", "GPU-bbbb"], "container2": []}"#.to_string(),
    );

    let result =
        read(&annotations);

    assert!(result.has_annotations());
    let container_gpus = result.0.container_gpu_uuids.unwrap();

    assert_eq!(container_gpus.len(), 1);
    assert_eq!(
        container_gpus.get("container1"),
        Some(&vec!["GPU-aaaa".to_string(), "GPU-bbbb".to_string()])
    );
    assert_eq!(container_gpus.get("container2"), None);
}

#[test]
fn from_pod_annotations_with_container_gpus_invalid_json() {
    let mut annotations = TextMap::new();
    annotations.insert(
        "tensor-fusion.ai/container-gpus".to_string(),
        "not a valid json".to_string(),
    );

    let result =
        TensorFusionPodInfo::from_pod_annotations_labels(&annotations, &TextMap::new());

    assert!(result.is_err());
}

#[test]
fn from_pod_annotations_with_both_gpu_ids_and_container_gpus() {
    let mut annotations = TextMap::new();
    annotations.insert(
        "tensor-fusion.ai/gpu-ids".to_string(),
        "GPU-default-1,GPU-default-2".to_string(),
    );
    annotations.insert(
        "tensor-fusion.ai/container-gpus".to_string(),
        r#"{"container1": ["GPU-container-1"]}"#.to_string(),
    );

    let result =
        read(&annotations);

    assert!(result.has_annotations());
    assert_eq!(
        result.0.gpu_uuids,
        Some(vec![
            "GPU-default-1".to_string(),
            "GPU-default-2".to_string()
        ])
    );
    assert!(result.0.container_gpu_uuids.is_some());
    let container_gpus = result.0.container_gpu_uuids.unwrap();
    assert_eq!(
        container_gpus.get("container1"),
        Some(&vec!["GPU-container-1".to_string()])
    );
}

#[test]
fn from_pod_annotations_with_container_gpus_empty_after_cleaning() {
    let mut annotations = TextMap::new();
    annotations.insert(
        "tensor-fusion.ai/container-gpus".to_string(),
        r#"{"container1": ["", "  "]}"#.to_string(),
    );

    let result =
        read(&annotations);

    assert!(!result.has_annotations());
    assert!(result.0.container_gpu_uuids.is_none());
}

#[test]
fn from_pod_annotations_with_empty_string_values() {
    let mut annotations = TextMap::new();
    annotations.insert(
        "tensor-fusion.ai/tflops-request".to_string(),
        "".to_string(),
    );
    annotations.insert("tensor-fusion.ai/tflops-limit".to_string(), "".to_string());
    annotations.insert("tensor-fusion.ai/vram-request".to_string(), "".to_string());
    annotations.insert("tensor-fusion.ai/vram-limit".to_string(), "".to_string());

    let result =
        TensorFusionPodInfo::from_pod_annotations_labels(&annotations, &TextMap::new());

    assert!(result.is_ok());
    let pod_info = result.unwrap();
    assert!(!pod_info.has_annotations());
    assert!(pod_info.0.tflops_request.is_none());
    assert!(pod_info.0.tflops_limit.is_none());
    assert_eq!(pod_info.0.vram_request, None);
    assert_eq!(pod_info.0.vram_limit, None);
}

#[test]
fn from_pod_annotations_with_partial_empty_strings() {
    let mut annotations = TextMap::new();
    annotations.insert(
        "tensor-fusion.ai/tflops-request".to_string(),
        "".to_string(),
    );
    annotations.insert("tensor-fusion.ai/tflops-limit".to_string(), "".to_string());
    annotations.insert(
        "tensor-fusion.ai/vram-request".to_string(),
        "10Gi".to_string(),
    );
    annotations.insert(
        "tensor-fusion.ai/vram-limit".to_string(),
        "10Gi".to_string(),
    );

    let result =
        read(&annotations);

    assert!(result.has_annotations());
    assert!(result.0.tflops_request.is_none());
    assert!(result.0.tflops_limit.is_none());
    assert_eq!(result.0.vram_request, Some(10 * 1024 * 1024 * 1024));
    assert_eq!(result.0.vram_limit, Some(10 * 1024 * 1024 * 1024));
}

#[test]
fn from_pod_annotations_with_empty_gpu_ids() {
    let mut annotations = TextMap::new();
    annotations.insert("tensor-fusion.ai/gpu-ids".to_string(), "".to_string());

    let result =
        read(&annotations);

    assert!(!result.has_annotations());
    assert_eq!(result.0.gpu_uuids, None);
}

#[test]
fn from_pod_annotations_with_empty_container_gpus() {
    let mut annotations = TextMap::new();
    annotations.insert(
        "tensor-fusion.ai/container-gpus".to_string(),
        "".to_string(),
    );

    let result =
        read(&annotations);

    assert!(!result.has_annotations());
    assert!(result.0.container_gpu_uuids.is_none());
}

#[test]
fn from_pod_annotations_with_empty_inject_container() {
    let mut annotations = TextMap::new();
    annotations.insert(
        "tensor-fusion.ai/inject-container".to_string(),
        "".to_string(),
    );

    let result =
        read(&annotations);

    assert!(!result.has_annotations());
    assert_eq!(result.0.containers, None);
}

#[test]
fn from_pod_annotations_with_whitespace_only_values() {
    let mut annotations = TextMap::new();
    annotations.insert(
        "tensor-fusion.ai/tflops-request".to_string(),
        "   ".to_string(),
    );
    annotations.insert(
        "tensor-fusion.ai/vram-limit".to_string(),
        "\t\n".to_string(),
    );

    let result =
        TensorFusionPodInfo::from_pod_annotations_labels(&annotations, &TextMap::new());

    assert!(result.is_ok());
    let pod_info = result.unwrap();
    assert!(!pod_info.has_annotations());
    assert!(pod_info.0.tflops_request.is_none());
    assert_eq!(pod_info.0.vram_limit, None);
}

#[test]
fn memory_follows_floating_point_numbers() {
    let bytes = |s: &str| parse_memory_value(s);
    assert_eq!(bytes("1.5Ki"), Ok(1536));
    assert_eq!(bytes("+2K"), Ok(2048));
    assert_eq!(bytes("-1Gi"), Ok(0));
    assert_eq!(bytes("0.5B"), Ok(0));
    assert_eq!(bytes("99999999999999999999Ti"), Ok(u64::MAX));
    assert_eq!(bytes(" 18446744073709551615 "), Ok(u64::MAX));
    assert_eq!(bytes("+7"), Ok(7));
    for number in ["0.1", "0.57", "1.005", "123.456789", "4398046511104.5", "0.000000001"] {
        for (unit, multiplier) in [("b", 1u64), ("ki", 1 << 10), ("M", 1 << 20), ("gI", 1 << 30), ("T", 1 << 40)] {
            let expected = (number.parse::<f64>().unwrap() * multiplier as f64) as u64;
            assert_eq!(bytes(&format!("{number}{unit}")), Ok(expected), "{number}{unit}");
        }
    }
}

#[test]
fn memory_that_cannot_be_read_is_named() {
    let failure = |s: &str| parse_memory_value(s).unwrap_err();
    assert_eq!(failure(" 1.5 "), "Invalid memory value format: 1.5");
    assert_eq!(failure("1_0Ki"), "Invalid numeric part in memory value: 1_0");
    assert_eq!(failure("Gi"), "Invalid numeric part in memory value: ");
    assert_eq!(failure("1Pi"), "Unsupported memory unit: Pi");
    assert_eq!(failure("1 Gi"), "Invalid numeric part in memory value: 1 ");
}

#[test]
fn compute_that_cannot_be_read_is_named() {
    let failure = |s: &str| parse_tflops_value(s).unwrap_err();
    assert_eq!(failure("1_0"), "Invalid TFLOPS value format: 1_0");
    assert_eq!(failure("x1"), "Invalid numeric part in TFLOPS value: ");
    assert_eq!(failure("1T"), "Unsupported TFLOPS unit: T");
    assert_eq!(failure("1e5k"), "Unsupported TFLOPS unit: e5k");
}

#[test]
fn plain_compute_is_any_floating_point_number() {
    for number in [
        "1", "+1.5", "-2", "1e5", "1.E+3", ".5e-1", "inf", "-Infinity", "NaN", "1e400",
    ] {
        assert!(number.parse::<f64>().is_ok());
        let t = parse_tflops_value(number).unwrap();
        assert_eq!(t.number, number);
        assert_eq!(t.unit, TflopsUnit::One);
    }
    for text in ["", ".", "+", "1e", "1e+", "e5", "1.2.3", "infinit", "0x10", "1e5.0"] {
        assert!(text.parse::<f64>().is_err());
        assert!(parse_tflops_value(text).is_err(), "{text}");
    }
}

#[test]
fn other_requests_are_read() {
    let mut annotations = TextMap::new();
    annotations.insert("tensor-fusion.ai/qos".to_string(), "critical".to_string());
    annotations.insert("tensor-fusion.ai/isolation".to_string(), "shared".to_string());
    annotations.insert("tensor-fusion.ai/inject-container".to_string(), "a, b".to_string());
    let mut labels = TextMap::new();
    labels.insert("tensor-fusion.ai/workload".to_string(), "w".to_string());
    let info = match TensorFusionPodInfo::from_pod_annotations_labels(&annotations, &labels) {
        Ok(info) => info.0,
        Err(_) => panic!("should be readable"),
    };
    assert_eq!(info.qos_level, Some(QosLevel::Critical));
    assert!(info.compute_shard);
    assert_eq!(info.isolation, Some("shared".to_string()));
    assert_eq!(info.containers, Some(vec!["a".to_string(), " b".to_string()]));
    assert_eq!(info.workload_name, Some("w".to_string()));
    assert_eq!(info.labels.len(), 1);

    annotations.insert("tensor-fusion.ai/qos".to_string(), "Low".to_string());
    assert_eq!(read(&annotations).0.qos_level, Some(QosLevel::Low));
    annotations.insert("tensor-fusion.ai/qos".to_string(), "HIGH".to_string());
    assert_eq!(read(&annotations).0.qos_level, Some(QosLevel::Medium));
    annotations.insert("tensor-fusion.ai/isolation".to_string(), "soft".to_string());
    assert!(!read(&annotations).0.compute_shard);
}

#[test]
fn any_annotation_counts() {
    let mut annotations = TextMap::new();
    annotations.insert("tensor-fusion.ai/elsewhere".to_string(), "x".to_string());
    assert!(!read(&annotations).has_annotations());
    annotations.insert("tensor-fusion.ai/isolation".to_string(), "soft".to_string());
    assert!(read(&annotations).has_annotations());
}

#[test]
fn the_first_unreadable_annotation_is_reported() {
    let mut annotations = TextMap::new();
    annotations.insert("tensor-fusion.ai/container-gpus".to_string(), "[]".to_string());
    let failure = |a: &TextMap<String>| {
        match TensorFusionPodInfo::from_pod_annotations_labels(a, &TextMap::new()) {
            Ok(_) => panic!("should fail"),
            Err(KubernetesError::AnnotationParseError { message }) => message,
        }
    };
    assert_eq!(failure(&annotations), "Invalid container-gpus JSON format: []");
    annotations.insert("tensor-fusion.ai/vram-limit".to_string(), "1X".to_string());
    assert_eq!(failure(&annotations), "Unsupported memory unit: X");
    annotations.insert("tensor-fusion.ai/tflops-limit".to_string(), "1X".to_string());
    assert_eq!(failure(&annotations), "Unsupported TFLOPS unit: X");
}

#[test]
fn keys_that_become_the_same_keep_the_later_list() {
    let mut annotations = TextMap::new();
    annotations.insert(
        "tensor-fusion.ai/container-gpus".to_string(),
        r#"{"a": ["1"], " a": ["2"]}"#.to_string(),
    );
    let gpus = read(&annotations).0.container_gpu_uuids.unwrap();
    assert_eq!(gpus.len(), 1);
    assert_eq!(gpus.get("a"), Some(&vec!["1".to_string()]));
}
