use streaming_nn::error::Error;
use streaming_nn::registry::{
    bind_units, is_bound, missing_roles, required_roles, scan_settled, Binding, DeviceInfo, Role,
};

fn device(units: &[Role]) -> DeviceInfo {
    DeviceInfo { access_granted: true, units: units.to_vec() }
}

fn busy(units: &[Role]) -> DeviceInfo {
    DeviceInfo { access_granted: false, units: units.to_vec() }
}

const INPUT_SIDE: [Role; 3] = [Role::PartitionInWeights, Role::StreamJoin, Role::PartitionInData];
const OUTPUT_SIDE: [Role; 3] = [Role::PartitionOutWeights, Role::StreamSplit, Role::PartitionOutData];

fn missing(role: Role) -> Result<Binding, Error> {
    Err(Error::MissingComputeUnit { role })
}

#[test]
fn unit_names() {
    assert_eq!(Role::WeightStreamer.unit_name(false), "esa.informatik.tu-darmstadt.de:user:WeightStreamer:1.0");
    assert_eq!(Role::WeightStreamer.unit_name(true), "esa.informatik.tu-darmstadt.de:user:WeightStreamer:1.0");
    assert_eq!(Role::DataStreamer.unit_name(false), "esa.informatik.tu-darmstadt.de:user:DataStreamer:1.0");
    assert_eq!(Role::DataStreamer.unit_name(true), "esa.informatik.tu-darmstadt.de:user:DataStreamerMM:1.0");
    assert_eq!(
        Role::PartitionInWeights.unit_name(true),
        "esa.informatik.tu-darmstadt.de:user:WeightStreamerPartIn:1.0"
    );
    assert_eq!(
        Role::PartitionOutWeights.unit_name(false),
        "esa.informatik.tu-darmstadt.de:user:WeightStreamerPartOut:1.0"
    );
    assert_eq!(
        Role::PartitionInData.unit_name(false),
        "esa.informatik.tu-darmstadt.de:user:DataStreamerPartIn:1.0"
    );
    assert_eq!(
        Role::PartitionInData.unit_name(true),
        "esa.informatik.tu-darmstadt.de:user:DataStreamerMMPartIn:1.0"
    );
    assert_eq!(
        Role::PartitionOutData.unit_name(false),
        "esa.informatik.tu-darmstadt.de:user:DataStreamerPartOut:1.0"
    );
    assert_eq!(
        Role::PartitionOutData.unit_name(true),
        "esa.informatik.tu-darmstadt.de:user:DataStreamerMMPartOut:1.0"
    );
    assert_eq!(Role::StreamJoin.unit_name(false), "tu-darmstadt.de:user:StreamJoin:1.0");
    assert_eq!(Role::StreamSplit.unit_name(true), "tu-darmstadt.de:user:StreamSplit:1.0");
}

#[test]
fn roles_in_check_order() {
    assert_eq!(required_roles(false), vec![Role::WeightStreamer, Role::DataStreamer]);
    assert_eq!(
        required_roles(true),
        vec![
            Role::PartitionInWeights,
            Role::PartitionOutWeights,
            Role::StreamSplit,
            Role::StreamJoin,
            Role::PartitionInData,
            Role::PartitionOutData,
        ]
    );
}

#[test]
fn has_unit_looks_the_role_up() {
    let d = device(&[Role::StreamJoin, Role::DataStreamer]);
    assert!(d.has_unit(Role::StreamJoin));
    assert!(d.has_unit(Role::DataStreamer));
    assert!(!d.has_unit(Role::WeightStreamer));
    assert!(!device(&[]).has_unit(Role::StreamJoin));
}

#[test]
fn device_for_role() {
    let single = Binding::Single { device: 3 };
    assert_eq!(single.device_for(Role::WeightStreamer), 3);
    assert_eq!(single.device_for(Role::DataStreamer), 3);
    let split = Binding::Split { input_device: 1, output_device: 4 };
    assert_eq!(split.device_for(Role::PartitionInWeights), 1);
    assert_eq!(split.device_for(Role::StreamJoin), 1);
    assert_eq!(split.device_for(Role::PartitionInData), 1);
    assert_eq!(split.device_for(Role::PartitionOutWeights), 4);
    assert_eq!(split.device_for(Role::StreamSplit), 4);
    assert_eq!(split.device_for(Role::PartitionOutData), 4);
}

#[test]
fn single_run_takes_the_first_self_sufficient_device() {
    let devices = [
        device(&[Role::WeightStreamer, Role::DataStreamer]),
        device(&[Role::WeightStreamer, Role::DataStreamer]),
    ];
    assert_eq!(bind_units(&devices, false), Ok(Binding::Single { device: 0 }));
}

#[test]
fn single_run_skips_devices_that_lack_a_unit() {
    let devices = [
        device(&[]),
        device(&[Role::WeightStreamer]),
        device(&[Role::DataStreamer]),
        device(&[Role::DataStreamer, Role::StreamJoin, Role::WeightStreamer]),
        device(&[Role::WeightStreamer, Role::DataStreamer]),
    ];
    assert_eq!(bind_units(&devices, false), Ok(Binding::Single { device: 3 }));
}

#[test]
fn single_run_without_weight_streamer_names_it() {
    assert_eq!(bind_units(&[], false), missing(Role::WeightStreamer));
    let devices = [device(&[Role::DataStreamer]), device(&[Role::StreamJoin])];
    assert_eq!(bind_units(&devices, false), missing(Role::WeightStreamer));
}

#[test]
fn single_run_without_data_streamer_names_it() {
    let devices = [device(&[Role::WeightStreamer]), device(&[])];
    assert_eq!(bind_units(&devices, false), missing(Role::DataStreamer));
    // The two units on different devices do not make a run.
    let devices = [device(&[Role::WeightStreamer]), device(&[Role::DataStreamer])];
    assert_eq!(bind_units(&devices, false), missing(Role::DataStreamer));
}

#[test]
fn single_run_stops_at_a_busy_device() {
    let devices = [
        device(&[Role::WeightStreamer]),
        busy(&[Role::WeightStreamer, Role::DataStreamer]),
        device(&[Role::WeightStreamer, Role::DataStreamer]),
    ];
    assert_eq!(bind_units(&devices, false), Err(Error::DeviceAccess { device: 1 }));
}

#[test]
fn single_run_never_reaches_a_busy_device_behind_the_chosen_one() {
    let devices = [
        device(&[Role::WeightStreamer, Role::DataStreamer]),
        busy(&[]),
    ];
    assert_eq!(bind_units(&devices, false), Ok(Binding::Single { device: 0 }));
}

#[test]
fn split_run_on_two_devices() {
    let devices = [device(&INPUT_SIDE), device(&OUTPUT_SIDE)];
    assert_eq!(
        bind_units(&devices, true),
        Ok(Binding::Split { input_device: 0, output_device: 1 })
    );
    let devices = [device(&[]), device(&OUTPUT_SIDE), device(&[]), device(&INPUT_SIDE)];
    assert_eq!(
        bind_units(&devices, true),
        Ok(Binding::Split { input_device: 3, output_device: 1 })
    );
}

#[test]
fn split_run_on_one_device_that_has_everything() {
    let mut all = INPUT_SIDE.to_vec();
    all.extend_from_slice(&OUTPUT_SIDE);
    let devices = [device(&all)];
    assert_eq!(
        bind_units(&devices, true),
        Ok(Binding::Split { input_device: 0, output_device: 0 })
    );
}

#[test]
fn split_run_binds_the_first_match_and_does_not_look_back() {
    // The first device with the input weight streamer gets the input side,
    // although only the later one could serve it completely.
    let devices = [
        device(&[Role::PartitionInWeights]),
        device(&INPUT_SIDE),
        device(&OUTPUT_SIDE),
    ];
    assert_eq!(bind_units(&devices, true), missing(Role::StreamJoin));
    // A stream-join unit on another device than the input side does not count.
    let devices = [
        device(&[Role::StreamJoin, Role::PartitionInData]),
        device(&[Role::PartitionInWeights, Role::PartitionInData]),
        device(&OUTPUT_SIDE),
    ];
    assert_eq!(bind_units(&devices, true), missing(Role::StreamJoin));
}

#[test]
fn split_run_names_the_first_unmet_role_in_check_order() {
    let order = required_roles(true);
    // One role absent at a time.
    for (k, absent) in order.iter().enumerate() {
        let input: Vec<Role> = INPUT_SIDE.iter().copied().filter(|r| r != absent).collect();
        let output: Vec<Role> = OUTPUT_SIDE.iter().copied().filter(|r| r != absent).collect();
        let devices = [device(&input), device(&output)];
        assert_eq!(bind_units(&devices, true), missing(order[k]));
    }
    // Every role from position k on absent: the role at k is named.
    for k in 0..order.len() {
        let present = &order[0..k];
        let input: Vec<Role> = INPUT_SIDE.iter().copied().filter(|r| present.contains(r)).collect();
        let output: Vec<Role> = OUTPUT_SIDE.iter().copied().filter(|r| present.contains(r)).collect();
        let devices = [device(&input), device(&output)];
        assert_eq!(bind_units(&devices, true), missing(order[k]));
    }
}

#[test]
fn split_run_without_any_device() {
    assert_eq!(bind_units(&[], true), missing(Role::PartitionInWeights));
}

#[test]
fn split_run_with_only_the_input_side() {
    let devices = [device(&INPUT_SIDE), device(&INPUT_SIDE)];
    assert_eq!(bind_units(&devices, true), missing(Role::PartitionOutWeights));
}

#[test]
fn split_run_missing_data_units_is_found_before_any_run() {
    let devices = [
        device(&[Role::PartitionInWeights, Role::StreamJoin]),
        device(&[Role::PartitionOutWeights, Role::StreamSplit]),
    ];
    assert_eq!(bind_units(&devices, true), missing(Role::PartitionInData));
    let devices = [
        device(&INPUT_SIDE),
        device(&[Role::PartitionOutWeights, Role::StreamSplit]),
    ];
    assert_eq!(bind_units(&devices, true), missing(Role::PartitionOutData));
}

#[test]
fn split_run_scans_every_device_for_access() {
    let devices = [device(&INPUT_SIDE), device(&OUTPUT_SIDE), busy(&[])];
    assert_eq!(bind_units(&devices, true), Err(Error::DeviceAccess { device: 2 }));
    let devices = [busy(&INPUT_SIDE), busy(&OUTPUT_SIDE)];
    assert_eq!(bind_units(&devices, true), Err(Error::DeviceAccess { device: 0 }));
}

#[test]
fn refused_access_is_reported_before_missing_units() {
    let devices = [device(&[]), busy(&[])];
    assert_eq!(bind_units(&devices, true), Err(Error::DeviceAccess { device: 1 }));
    assert_eq!(bind_units(&devices, false), Err(Error::DeviceAccess { device: 1 }));
}

#[test]
fn every_missing_role_is_listed_in_check_order() {
    let devices = [device(&INPUT_SIDE), device(&OUTPUT_SIDE)];
    assert_eq!(missing_roles(&devices, true), Vec::<Role>::new());
    assert_eq!(missing_roles(&devices, false), vec![Role::WeightStreamer, Role::DataStreamer]);
    let devices = [
        device(&[Role::PartitionInWeights, Role::PartitionInData]),
        device(&[Role::PartitionOutWeights]),
    ];
    assert_eq!(
        missing_roles(&devices, true),
        vec![Role::StreamSplit, Role::StreamJoin, Role::PartitionOutData]
    );
    assert_eq!(bind_units(&devices, true), missing(Role::StreamSplit));
    assert_eq!(missing_roles(&[], true), required_roles(true));
    assert_eq!(missing_roles(&[], false), required_roles(false));
}

#[test]
fn first_listed_missing_role_is_the_one_that_fails_the_scan() {
    let order = required_roles(true);
    for mask in 0u32..64 {
        let present: Vec<Role> =
            order.iter().copied().enumerate().filter(|(k, _)| mask >> k & 1 == 1).map(|(_, r)| r).collect();
        let input: Vec<Role> = INPUT_SIDE.iter().copied().filter(|r| present.contains(r)).collect();
        let output: Vec<Role> = OUTPUT_SIDE.iter().copied().filter(|r| present.contains(r)).collect();
        let devices = [device(&input), device(&output)];
        let listed = missing_roles(&devices, true);
        match bind_units(&devices, true) {
            Ok(binding) => {
                assert!(listed.is_empty());
                assert_eq!(binding, Binding::Split { input_device: 0, output_device: 1 });
            }
            Err(Error::MissingComputeUnit { role }) => assert_eq!(listed[0], role),
            Err(other) => panic!("unexpected failure {:?}", other),
        }
    }
}

#[test]
fn a_unit_counts_only_on_the_device_of_its_side() {
    let devices = [
        device(&[Role::StreamJoin]),
        device(&[Role::PartitionInWeights]),
        device(&[Role::PartitionOutWeights, Role::StreamSplit]),
    ];
    assert!(is_bound(&devices, Role::PartitionInWeights));
    assert!(is_bound(&devices, Role::PartitionOutWeights));
    assert!(is_bound(&devices, Role::StreamSplit));
    assert!(!is_bound(&devices, Role::StreamJoin));
    assert!(!is_bound(&devices, Role::PartitionInData));
    assert!(!is_bound(&devices, Role::WeightStreamer));
    assert!(!is_bound(&devices, Role::DataStreamer));
    let devices = [device(&[Role::WeightStreamer]), device(&[Role::DataStreamer])];
    assert!(is_bound(&devices, Role::WeightStreamer));
    assert!(!is_bound(&devices, Role::DataStreamer));
}

#[test]
fn scan_is_settled_by_a_refusal_or_by_the_device_of_a_single_run() {
    let complete = device(&[Role::WeightStreamer, Role::DataStreamer]);
    assert!(!scan_settled(&[], false));
    assert!(!scan_settled(&[], true));
    assert!(!scan_settled(&[device(&[Role::WeightStreamer])], false));
    assert!(scan_settled(&[device(&[]), device(&[Role::WeightStreamer, Role::DataStreamer])], false));
    assert!(scan_settled(&[complete], false));
    assert!(scan_settled(&[device(&[]), busy(&[])], false));
    assert!(scan_settled(&[device(&[]), busy(&[])], true));
    // A split run looks at every device, also when both sides are found.
    assert!(!scan_settled(&[device(&INPUT_SIDE), device(&OUTPUT_SIDE)], true));
}

#[test]
fn devices_behind_a_settled_scan_change_nothing() {
    let head = vec![
        device(&[Role::WeightStreamer]),
        device(&[Role::WeightStreamer, Role::DataStreamer]),
    ];
    assert!(scan_settled(&head, false));
    let mut all = vec![
        device(&[Role::WeightStreamer]),
        device(&[Role::WeightStreamer, Role::DataStreamer]),
    ];
    all.push(busy(&[]));
    all.push(device(&[Role::WeightStreamer, Role::DataStreamer]));
    assert_eq!(bind_units(&all, false), bind_units(&head, false));
}

#[test]
fn a_binding_names_devices_that_granted_access_and_have_the_units() {
    let mut all = INPUT_SIDE.to_vec();
    all.extend_from_slice(&OUTPUT_SIDE);
    let scans: Vec<(Vec<DeviceInfo>, bool)> = vec![
        (vec![device(&[]), device(&INPUT_SIDE), device(&OUTPUT_SIDE)], true),
        (vec![device(&OUTPUT_SIDE), device(&all)], true),
        (vec![device(&[Role::DataStreamer]), device(&[Role::WeightStreamer, Role::DataStreamer])], false),
        (vec![device(&[Role::WeightStreamer, Role::DataStreamer]), busy(&[])], false),
    ];
    for (devices, split) in scans {
        let binding = bind_units(&devices, split).unwrap();
        assert_eq!(matches!(binding, Binding::Split { .. }), split);
        for role in required_roles(split) {
            let at = binding.device_for(role);
            assert!(at < devices.len());
            assert!(devices[at].access_granted);
            assert!(devices[at].has_unit(role));
        }
    }
}
