use hip_limiter::kfd::{
    decode_pci_bdf, enumerate_gpu_devices, enumerate_gpu_devices_from, node_ids, parse_properties,
    render_name, requested_minor, verify_against_hip, EnumerationError, GpuDevice, KfdNode,
    Verification,
};

#[test]
fn test_decode_bdf_mi325x_device0() {
    assert_eq!(decode_pci_bdf(0, 0x7500), "0000:75:00.0");
}

#[test]
fn test_decode_bdf_high_bus() {
    assert_eq!(decode_pci_bdf(0, 0xf500), "0000:f5:00.0");
}

#[test]
fn test_decode_bdf_with_device_and_function() {
    assert_eq!(decode_pci_bdf(0, 0x050b), "0000:05:01.3");
}

#[test]
fn test_decode_bdf_nonzero_domain() {
    assert_eq!(decode_pci_bdf(1, 0x7500), "0001:75:00.0");
}

#[test]
fn test_decode_bdf_zero_location() {
    assert_eq!(decode_pci_bdf(0, 0), "0000:00:00.0");
}

#[test]
fn test_parse_properties_mi325x() {
    let content = "\
cpu_cores_count 0
simd_count 304
mem_banks_count 1
caches_count 228
io_links_count 3
p2p_links_count 0
max_waves_per_simd 16
lds_size_in_kb 64
gds_size_in_kb 0
num_gws 64
wave_front_size 64
array_count 38
simd_arrays_per_engine 2
cu_per_simd_array 2
simd_per_cu 4
max_slots_scratch_cu 32
gfx_target_version 120100
vendor_id 4098
device_id 29856
location_id 29952
domain 0
drm_render_minor 128
hive_id 11638818706288400384
num_sdma_engines 2
num_sdma_xgmi_engines 6
num_sdma_queues_per_engine 8
num_cp_queues 24
max_engine_clk_fcompute 2100
local_mem_size 206142726144
fw_version 262
capability 540676
sdma_fw_version 24
max_engine_clk_ccompute 2100
num_xcc 1
debug_prop 32768
unique_id 9895604649984";

    let props = match parse_properties(content) {
        Ok(props) => props,
        Err(e) => panic!("{}", e.message()),
    };
    assert_eq!(props.domain, 0);
    assert_eq!(props.location_id, 29952);
    assert_eq!(props.drm_render_minor, 128);
}

#[test]
fn test_parse_properties_missing_field() {
    let content = "domain 0\nlocation_id 29952\n";
    let result = parse_properties(content);
    assert!(result.is_err());
    assert!(
        matches!(result, Err(EnumerationError::MissingField(ref f)) if f == "drm_render_minor"),
        "expected MissingField(drm_render_minor)"
    );
}

#[test]
fn test_parse_properties_empty() {
    let result = parse_properties("");
    assert!(result.is_err());
}

#[test]
fn test_parse_properties_malformed_value() {
    let content = "domain abc\nlocation_id 29952\ndrm_render_minor 128\n";
    let result = parse_properties(content);
    assert!(matches!(result, Err(EnumerationError::ParseError(_))));
}

/// A topology in memory: nodes by directory name, and render devices by minor number.
struct Topology {
    nodes: Vec<(u32, u64, Option<String>)>,
    render: Vec<u32>,
}

impl Topology {
    fn new() -> Self {
        Topology { nodes: Vec::new(), render: Vec::new() }
    }

    fn create_node(&mut self, node_id: u32, gpu_id: u64, properties: Option<&str>) {
        self.nodes.push((node_id, gpu_id, properties.map(|p| p.to_string())));
    }

    fn create_render_device(&mut self, minor: u32) {
        self.render.push(minor);
    }

    fn enumerate(&self) -> Result<Vec<GpuDevice>, EnumerationError> {
        let names: Vec<String> = self.nodes.iter().map(|n| n.0.to_string()).collect();
        let mut nodes = Vec::new();
        for id in node_ids(&names) {
            let node = self.nodes.iter().find(|n| n.0 == id).unwrap();
            nodes.push(KfdNode {
                gpu_id: Some(format!("{}\n", node.1)),
                properties: node.2.clone(),
            });
        }
        enumerate_gpu_devices_from(Ok(nodes), &self.render)
    }
}

fn found(r: Result<Vec<GpuDevice>, EnumerationError>) -> Vec<GpuDevice> {
    match r {
        Ok(devices) => devices,
        Err(e) => panic!("{}", e.message()),
    }
}

fn gpu_properties(domain: u32, location_id: u32, render_minor: u32) -> String {
    format!("domain {domain}\nlocation_id {location_id}\ndrm_render_minor {render_minor}\n")
}

#[test]
fn test_enumerate_single_gpu() {
    let mut topology = Topology::new();
    topology.create_node(0, 0, None);
    let props = gpu_properties(0, 0x7500, 128);
    topology.create_node(1, 12345, Some(&props));
    topology.create_render_device(128);

    let devices = found(topology.enumerate());
    assert_eq!(devices.len(), 1);
    assert_eq!(devices[0].pci_bdf, "0000:75:00.0");
    assert_eq!(devices[0].render_minor, 128);
}

#[test]
fn test_enumerate_multiple_gpus_sorted() {
    let mut topology = Topology::new();
    topology.create_node(0, 0, None);
    let props2 = gpu_properties(0, 0xf500, 129);
    topology.create_node(2, 67890, Some(&props2));
    topology.create_render_device(129);
    let props1 = gpu_properties(0, 0x7500, 128);
    topology.create_node(1, 12345, Some(&props1));
    topology.create_render_device(128);

    let devices = found(topology.enumerate());
    assert_eq!(devices.len(), 2);
    assert_eq!(devices[0].pci_bdf, "0000:75:00.0");
    assert_eq!(devices[0].render_minor, 128);
    assert_eq!(devices[1].pci_bdf, "0000:f5:00.0");
    assert_eq!(devices[1].render_minor, 129);
}

#[test]
fn test_enumerate_skips_missing_render_device() {
    let mut topology = Topology::new();
    topology.create_node(0, 0, None);
    let props1 = gpu_properties(0, 0x7500, 128);
    topology.create_node(1, 12345, Some(&props1));
    topology.create_render_device(128);
    let props2 = gpu_properties(0, 0xf500, 129);
    topology.create_node(2, 67890, Some(&props2));

    let devices = found(topology.enumerate());
    assert_eq!(devices.len(), 1);
    assert_eq!(devices[0].pci_bdf, "0000:75:00.0");
}

#[test]
fn test_enumerate_no_gpus_returns_error() {
    let mut topology = Topology::new();
    topology.create_node(0, 0, None);
    assert!(matches!(topology.enumerate(), Err(EnumerationError::NoDevicesFound)));
}

#[test]
fn test_enumerate_skips_node_without_properties() {
    let mut topology = Topology::new();
    topology.create_node(0, 0, None);
    topology.create_node(1, 12345, None);
    let props = gpu_properties(0, 0x7500, 128);
    topology.create_node(2, 67890, Some(&props));
    topology.create_render_device(128);

    let devices = found(topology.enumerate());
    assert_eq!(devices.len(), 1);
    assert_eq!(devices[0].pci_bdf, "0000:75:00.0");
}

#[test]
fn test_enumerate_sysfs_not_available() {
    let result = enumerate_gpu_devices_from(Err("/tmp/does-not-exist-kfd-test".to_string()), &[]);
    assert!(matches!(result, Err(EnumerationError::SysfsNotAvailable(_))));
}

#[test]
fn missing_topology_names_its_path() {
    match enumerate_gpu_devices(None, &[]) {
        Err(e) => assert_eq!(
            e.message(),
            "KFD sysfs not available: /sys/class/kfd/kfd/topology/nodes"
        ),
        Ok(_) => panic!("there is no topology"),
    }
}

#[test]
fn node_ids_are_sorted_as_numbers() {
    let names: Vec<String> = ["10", "x", "2", "+3", "4294967296", "2", ""]
        .iter()
        .map(|s| s.to_string())
        .collect();
    assert_eq!(node_ids(&names), vec![2, 2, 3, 10]);
}

#[test]
fn properties_fail_on_the_first_bad_value() {
    let failure = |content: &str| match parse_properties(content) {
        Ok(_) => panic!("should fail"),
        Err(e) => e.message(),
    };
    assert_eq!(failure("location_id 1\ndomain x\ndomain 1"), "parse error: domain: x");
    assert_eq!(failure("domain -1\n"), "parse error: domain: -1");
    assert_eq!(failure("drm_render_minor 4294967296"), "parse error: drm_render_minor: 4294967296");
    assert_eq!(failure("domain\n"), "missing required field: domain");
    assert_eq!(failure("domain 1"), "missing required field: location_id");
    assert_eq!(
        EnumerationError::NoDevicesFound.message(),
        "no GPU devices found"
    );
}

#[test]
fn properties_take_the_last_of_repeated_fields() {
    let content = "  domain\t1 extra\r\ndomain 2\nlocation_id +7\n\ndrm_render_minor 9";
    let props = match parse_properties(content) {
        Ok(props) => props,
        Err(e) => panic!("{}", e.message()),
    };
    assert_eq!(props.domain, 2);
    assert_eq!(props.location_id, 7);
    assert_eq!(props.drm_render_minor, 9);
}

#[test]
fn only_readable_gpus_ask_for_a_render_device() {
    let props = gpu_properties(0, 0x7500, 128);
    let node = |gpu_id: Option<&str>| KfdNode {
        gpu_id: gpu_id.map(|s| s.to_string()),
        properties: Some(props.clone()),
    };
    assert_eq!(requested_minor(&node(Some(" 17\n"))), Some(128));
    assert_eq!(requested_minor(&node(Some("0\n"))), None);
    assert_eq!(requested_minor(&node(Some("gpu"))), None);
    assert_eq!(requested_minor(&node(None)), None);
    assert_eq!(render_name(128), "renderD128");
}

#[test]
fn both_enumerations_are_compared_in_order() {
    let list = |v: &[&str]| v.iter().map(|s| s.to_string()).collect::<Vec<String>>();
    let a = list(&["0000:f5:00.0", "0000:75:00.0"]);
    assert!(matches!(
        verify_against_hip(&a, &list(&["0000:F5:00.0", "0000:75:00.0"])),
        Verification::Match
    ));
    assert!(matches!(
        verify_against_hip(&a, &list(&["0000:75:00.0", "0000:f5:00.0"])),
        Verification::OrderMismatch
    ));
    assert!(matches!(
        verify_against_hip(&a, &list(&["0000:f5:00.0"])),
        Verification::CountMismatch
    ));
}
