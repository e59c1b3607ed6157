use hip_limiter::devices::{
    device_index, find_configured, find_index, match_devices, normalize_uuid_to_bdf,
    resolve_device_indices,
};
use hip_limiter::text::sorted_set;
use hip_limiter::info::format_amdsmi_bdf;

#[test]
fn test_normalize_uuid_strips_lowercase_prefix() {
    assert_eq!(
        normalize_uuid_to_bdf("amd-gpu-0000:75:00.0"),
        "0000:75:00.0"
    );
}

#[test]
fn test_normalize_uuid_strips_uppercase_prefix() {
    assert_eq!(
        normalize_uuid_to_bdf("AMD-GPU-0000:75:00.0"),
        "0000:75:00.0"
    );
}

#[test]
fn test_normalize_uuid_bare_bdf() {
    assert_eq!(
        normalize_uuid_to_bdf("0000:75:00.0"),
        "0000:75:00.0"
    );
}

#[test]
fn test_normalize_uuid_mixed_case_hex() {
    assert_eq!(
        normalize_uuid_to_bdf("AMD-GPU-0000:F5:00.0"),
        "0000:f5:00.0"
    );
}

fn devices(pairs: &[(i32, &str)]) -> Vec<(i32, String)> {
    pairs.iter().map(|(i, s)| (*i, s.to_string())).collect()
}

fn uuids(ids: &[&str]) -> Vec<String> {
    ids.iter().map(|s| s.to_string()).collect()
}

fn mi325x_devices() -> Vec<(i32, String)> {
    devices(&[
        (0, "0000:75:00.0"),
        (1, "0000:05:00.0"),
        (2, "0000:65:00.0"),
        (3, "0000:15:00.0"),
        (4, "0000:f5:00.0"),
        (5, "0000:85:00.0"),
        (6, "0000:e5:00.0"),
        (7, "0000:95:00.0"),
    ])
}

#[test]
fn test_resolve_picks_correct_gpus_on_mi325x() {
    let config = uuids(&["amd-gpu-0000:75:00.0", "amd-gpu-0000:f5:00.0"]);
    let result = resolve_device_indices(&config, &mi325x_devices());

    assert_eq!(result.len(), 2);
    assert_eq!(result[0].0, 0); // device 0 = 0000:75:00.0
    assert_eq!(result[1].0, 4); // device 4 = 0000:f5:00.0
}

#[test]
fn test_resolve_single_gpu_allocation() {
    let config = uuids(&["amd-gpu-0000:15:00.0"]);
    let result = resolve_device_indices(&config, &mi325x_devices());

    assert_eq!(result.len(), 1);
    assert_eq!(result[0].0, 3);
}

#[test]
fn test_resolve_all_8_gpus() {
    let config = uuids(&[
        "amd-gpu-0000:75:00.0",
        "amd-gpu-0000:05:00.0",
        "amd-gpu-0000:65:00.0",
        "amd-gpu-0000:15:00.0",
        "amd-gpu-0000:f5:00.0",
        "amd-gpu-0000:85:00.0",
        "amd-gpu-0000:e5:00.0",
        "amd-gpu-0000:95:00.0",
    ]);
    let result = resolve_device_indices(&config, &mi325x_devices());

    assert_eq!(result.len(), 8);
    let indices: Vec<usize> = result.iter().map(|(idx, _)| *idx).collect();
    assert_eq!(indices, vec![0, 1, 2, 3, 4, 5, 6, 7]);
}

#[test]
fn test_resolve_c_provider_format() {
    let config = uuids(&["AMD-GPU-0000:85:00.0"]);
    let result = resolve_device_indices(&config, &mi325x_devices());

    assert_eq!(result.len(), 1);
    assert_eq!(result[0].0, 5); // device 5 = 0000:85:00.0
}

#[test]
fn test_resolve_missing_uuid_skipped() {
    let config = uuids(&["amd-gpu-0000:75:00.0", "amd-gpu-0000:aa:00.0"]);
    let result = resolve_device_indices(&config, &mi325x_devices());

    assert_eq!(result.len(), 1);
    assert_eq!(result[0].0, 0);
}

#[test]
fn test_resolve_empty_config() {
    let result = resolve_device_indices(&uuids(&[]), &mi325x_devices());
    assert!(result.is_empty());
}

#[test]
fn test_resolve_empty_enumerated() {
    let config = uuids(&["amd-gpu-0000:75:00.0"]);
    let result = resolve_device_indices(&config, &[]);
    assert!(result.is_empty());
}

#[test]
fn test_resolve_sorted_regardless_of_config_order() {
    let config = uuids(&[
        "amd-gpu-0000:95:00.0", // device 7
        "amd-gpu-0000:05:00.0", // device 1
        "amd-gpu-0000:e5:00.0", // device 6
    ]);
    let result = resolve_device_indices(&config, &mi325x_devices());

    assert_eq!(result.len(), 3);
    assert_eq!(result[0].0, 1); // device 1
    assert_eq!(result[1].0, 6); // device 6
    assert_eq!(result[2].0, 7); // device 7
}

#[test]
fn test_resolve_device_indices_bdf_match() {
    let result = resolve_device_indices(
        &uuids(&["amd-gpu-0000:75:00.0", "amd-gpu-0000:f5:00.0"]),
        &mi325x_devices(),
    );
    assert_eq!(result.len(), 2);

    let bdf = "0000:75:00.0";
    let bdf_lower = bdf.to_lowercase();
    let found = result.iter().find(|(_, uuid)| {
        normalize_uuid_to_bdf(uuid) == bdf_lower
    });
    assert!(found.is_some());
    assert_eq!(found.unwrap().0, 0);
}

#[test]
fn test_resolve_device_indices_bdf_no_match() {
    let result = resolve_device_indices(
        &uuids(&["amd-gpu-0000:75:00.0"]),
        &mi325x_devices(),
    );
    let bdf = "0000:aa:00.0";
    let bdf_lower = bdf.to_lowercase();
    let found = result.iter().find(|(_, uuid)| {
        normalize_uuid_to_bdf(uuid) == bdf_lower
    });
    assert!(found.is_none());
}

#[test]
fn test_format_amdsmi_bdf_mi325x_device() {
    assert_eq!(format_amdsmi_bdf(0x0000000000007500), "0000:75:00.0");
}

#[test]
fn test_format_amdsmi_bdf_high_bus() {
    assert_eq!(format_amdsmi_bdf(0x000000000000f500), "0000:f5:00.0");
}

#[test]
fn test_format_amdsmi_bdf_with_function() {
    let raw: u64 = 3 | (1 << 3) | (0x05 << 8);
    assert_eq!(format_amdsmi_bdf(raw), "0000:05:01.3");
}

#[test]
fn test_format_amdsmi_bdf_nonzero_domain() {
    let raw: u64 = (0x75 << 8) | (1u64 << 16);
    assert_eq!(format_amdsmi_bdf(raw), "0001:75:00.0");
}

#[test]
fn addresses_are_matched_as_they_are() {
    let names = uuids(&["first", "second", "third", "fourth"]);
    let bdfs = uuids(&["b", "a", "b", "A"]);
    let found = match_devices(&names, &bdfs, &devices(&[(3, "a"), (1, "b"), (0, "a")]));
    assert_eq!(found, vec![(1, "first".to_string()), (3, "second".to_string())]);
}

#[test]
fn letter_case_of_the_runtime_does_not_matter() {
    let found = resolve_device_indices(&uuids(&["amd-gpu-0000:f5:00.0"]), &devices(&[(2, "0000:F5:00.0")]));
    assert_eq!(found.len(), 1);
    assert_eq!(found[0].0, 2);
}

#[test]
fn negative_ordinals_wrap_around() {
    assert_eq!(device_index(7), 7);
    assert_eq!(device_index(-1), usize::MAX);
    assert_eq!(device_index(i32::MIN), i32::MIN as usize);
    let found = resolve_device_indices(&uuids(&["x", "y"]), &devices(&[(-1, "x"), (0, "y")]));
    assert_eq!(found[0].0, 0);
    assert_eq!(found[1].0, usize::MAX);
}

#[test]
fn the_first_configured_device_is_found() {
    let pairs = vec![(4, "AMD-GPU-a".to_string()), (5, "amd-gpu-b".to_string()), (6, "a".to_string())];
    assert_eq!(find_configured(&pairs, "a"), Some(4));
    assert_eq!(find_configured(&pairs, "b"), Some(5));
    assert_eq!(find_configured(&pairs, "B"), None);
    assert_eq!(find_index(&pairs, &uuids(&["x", "y", "y"]), "y"), Some(5));
}

#[test]
fn texts_are_sorted_by_their_characters() {
    let given = uuids(&["b", "a", "ab", "B", "a", "", "\u{e9}"]);
    assert_eq!(sorted_set(&given), uuids(&["", "B", "a", "ab", "b", "\u{e9}"]));
}
