//! Compute units, the roles they fill, and the scan that binds them.
//!
//! Devices are scanned once, in the order in which they were enumerated.
//! The first device that offers what a role needs gets the role; an earlier
//! device is never looked at again.

use vstd::prelude::*;
use crate::error::Error;

verus! {

/// A logical role that a compute unit fills in a run.
#[derive(Clone, Copy, Debug, PartialEq, Eq, Structural)]
pub enum Role {
    /// Loads the weights of the whole network (one device).
    WeightStreamer,
    /// Feeds samples and collects results (one device).
    DataStreamer,
    /// Loads the weights of the first two layers (input-side device).
    PartitionInWeights,
    /// Loads the weights of the last layer (output-side device).
    PartitionOutWeights,
    /// Sends the intermediate stream on to the other device.
    StreamSplit,
    /// Receives the intermediate stream from the other device.
    StreamJoin,
    /// Feeds samples (input-side device).
    PartitionInData,
    /// Collects results (output-side device).
    PartitionOutData,
}

/// What the scan learned about one device.
#[derive(Debug, PartialEq, Eq)]
pub struct DeviceInfo {
    /// Whether the device granted exclusive access.
    pub access_granted: bool,
    /// The roles for which the device has a unit, looked up under the
    /// names that the transfers of the run ask for. Empty when access was
    /// refused.
    pub units: Vec<Role>,
}

/// Which device serves which side of a run. Devices are named by their
/// position in the scan.
#[derive(Clone, Copy, Debug, PartialEq, Eq, Structural)]
pub enum Binding {
    /// The whole network runs on `device`.
    Single { device: usize },
    /// The first two layers run on `input_device`, the last on `output_device`.
    Split { input_device: usize, output_device: usize },
}

/// The name under which the unit for `role` is registered on a device.
/// The data-moving roles have one unit for mapped and one for streaming
/// transfers.
pub open spec fn unit_name_of(role: Role, mapped: bool) -> Seq<char> {
    match role {
        Role::WeightStreamer => "esa.informatik.tu-darmstadt.de:user:WeightStreamer:1.0"@,
        Role::DataStreamer => if mapped {
            "esa.informatik.tu-darmstadt.de:user:DataStreamerMM:1.0"@
        } else {
            "esa.informatik.tu-darmstadt.de:user:DataStreamer:1.0"@
        },
        Role::PartitionInWeights => "esa.informatik.tu-darmstadt.de:user:WeightStreamerPartIn:1.0"@,
        Role::PartitionOutWeights => {
            "esa.informatik.tu-darmstadt.de:user:WeightStreamerPartOut:1.0"@
        },
        Role::StreamSplit => "tu-darmstadt.de:user:StreamSplit:1.0"@,
        Role::StreamJoin => "tu-darmstadt.de:user:StreamJoin:1.0"@,
        Role::PartitionInData => if mapped {
            "esa.informatik.tu-darmstadt.de:user:DataStreamerMMPartIn:1.0"@
        } else {
            "esa.informatik.tu-darmstadt.de:user:DataStreamerPartIn:1.0"@
        },
        Role::PartitionOutData => if mapped {
            "esa.informatik.tu-darmstadt.de:user:DataStreamerMMPartOut:1.0"@
        } else {
            "esa.informatik.tu-darmstadt.de:user:DataStreamerPartOut:1.0"@
        },
    }
}

/// The roles a run needs, in the order in which they are checked.
pub open spec fn role_check_order(split: bool) -> Seq<Role> {
    if split {
        seq![
            Role::PartitionInWeights,
            Role::PartitionOutWeights,
            Role::StreamSplit,
            Role::StreamJoin,
            Role::PartitionInData,
            Role::PartitionOutData,
        ]
    } else {
        seq![Role::WeightStreamer, Role::DataStreamer]
    }
}

/// Position of the first `true` in `flags`; `flags.len()` when there is none.
pub open spec fn first_true(flags: Seq<bool>) -> int
    decreases flags.len(),
{
    if flags.len() == 0 {
        0
    } else if flags[0] {
        0
    } else {
        1 + first_true(flags.drop_first())
    }
}

/// Whether `device` has a unit for `role`.
pub open spec fn offers(device: DeviceInfo, role: Role) -> bool {
    device.units@.contains(role)
}

/// For each device, whether it has a unit for `role`.
pub open spec fn offering(devices: Seq<DeviceInfo>, role: Role) -> Seq<bool> {
    Seq::new(devices.len(), |i: int| offers(devices[i], role))
}

/// For each device, whether it refused exclusive access.
pub open spec fn refusing(devices: Seq<DeviceInfo>) -> Seq<bool> {
    Seq::new(devices.len(), |i: int| !devices[i].access_granted)
}

/// For each device, whether it can run the whole network: it has both the
/// weight streamer and the data streamer.
pub open spec fn self_sufficient(devices: Seq<DeviceInfo>) -> Seq<bool> {
    Seq::new(
        devices.len(),
        |i: int| offers(devices[i], Role::WeightStreamer) && offers(devices[i], Role::DataStreamer),
    )
}

/// The device that serves the input side of a split run: the first that has
/// the weight streamer of the input partition. `devices.len()` when none has.
pub open spec fn input_device(devices: Seq<DeviceInfo>) -> int {
    first_true(offering(devices, Role::PartitionInWeights))
}

/// The device that serves the output side of a split run: the first that has
/// the weight streamer of the output partition. `devices.len()` when none has.
pub open spec fn output_device(devices: Seq<DeviceInfo>) -> int {
    first_true(offering(devices, Role::PartitionOutWeights))
}

/// The device that serves a run on one device: the first that is
/// self-sufficient. `devices.len()` when none is.
pub open spec fn single_device(devices: Seq<DeviceInfo>) -> int {
    first_true(self_sufficient(devices))
}

/// Whether the scan finds a unit for `role`.
///
/// The weight streamers decide which device serves a side; every other unit
/// of that side is looked for on that device alone.
pub open spec fn bound(devices: Seq<DeviceInfo>, role: Role) -> bool {
    match role {
        Role::WeightStreamer => first_true(offering(devices, Role::WeightStreamer)) < devices.len(),
        Role::DataStreamer => single_device(devices) < devices.len(),
        Role::PartitionInWeights => input_device(devices) < devices.len(),
        Role::PartitionOutWeights => output_device(devices) < devices.len(),
        Role::StreamJoin | Role::PartitionInData => {
            &&& input_device(devices) < devices.len()
            &&& offers(devices[input_device(devices)], role)
        },
        Role::StreamSplit | Role::PartitionOutData => {
            &&& output_device(devices) < devices.len()
            &&& offers(devices[output_device(devices)], role)
        },
    }
}

/// For each role of the check order, whether the scan finds no unit for it.
pub open spec fn unmet(devices: Seq<DeviceInfo>, split: bool) -> Seq<bool> {
    Seq::new(
        role_check_order(split).len(),
        |k: int| !bound(devices, role_check_order(split)[k]),
    )
}

/// How the scan of `devices` ends.
///
/// A device that refuses exclusive access ends the scan when the scan
/// reaches it. A split run looks at every device; a run on one device stops
/// at the first self-sufficient device. After the scan, the first role of
/// the check order without a unit is reported as missing.
pub open spec fn scan_outcome(devices: Seq<DeviceInfo>, split: bool) -> Result<Binding, Error> {
    let refused = first_true(refusing(devices));
    let missing = first_true(unmet(devices, split));
    let reached = if split {
        devices.len() as int
    } else {
        single_device(devices) + 1
    };
    if refused < devices.len() && refused < reached {
        Err(Error::DeviceAccess { device: refused as usize })
    } else if missing < role_check_order(split).len() {
        Err(Error::MissingComputeUnit { role: role_check_order(split)[missing] })
    } else if split {
        Ok(
            Binding::Split {
                input_device: input_device(devices) as usize,
                output_device: output_device(devices) as usize,
            },
        )
    } else {
        Ok(Binding::Single { device: single_device(devices) as usize })
    }
}

/// The roles among `order` for which the scan finds no unit, in the order
/// of `order`.
pub open spec fn unbound_among(devices: Seq<DeviceInfo>, order: Seq<Role>) -> Seq<Role>
    decreases order.len(),
{
    if order.len() == 0 {
        Seq::empty()
    } else {
        let earlier = unbound_among(devices, order.drop_last());
        if bound(devices, order.last()) {
            earlier
        } else {
            earlier.push(order.last())
        }
    }
}

/// Whether the scan of `devices` has ended before a further device could
/// be looked at: a device refused access, or a run on one device has found
/// its device.
pub open spec fn scan_is_settled(devices: Seq<DeviceInfo>, split: bool) -> bool {
    ||| scan_outcome(devices, split) matches Err(Error::DeviceAccess { .. })
    ||| !split && scan_outcome(devices, split) is Ok
}

/// `first_true` is in range, points at a `true` if there is one, and
/// nothing before it is `true`.
pub proof fn lemma_first_true(flags: Seq<bool>)
    ensures
        0 <= first_true(flags) <= flags.len(),
        first_true(flags) < flags.len() ==> flags[first_true(flags)],
        forall|j: int| 0 <= j < first_true(flags) ==> !flags[j],
    decreases flags.len(),
{
    if flags.len() > 0 && !flags[0] {
        let rest = flags.drop_first();
        lemma_first_true(rest);
        assert forall|j: int| 0 <= j < first_true(flags) implies !flags[j] by {
            if j > 0 {
                assert(flags[j] == rest[j - 1]);
            }
        }
        if first_true(flags) < flags.len() {
            assert(flags[first_true(flags)] == rest[first_true(rest)]);
        }
    }
}

/// A position that holds `true` after nothing but `false` is `first_true`;
/// so is the length when nothing is `true`.
pub proof fn lemma_first_true_is(flags: Seq<bool>, at: int)
    requires
        0 <= at <= flags.len(),
        at < flags.len() ==> flags[at],
        forall|j: int| 0 <= j < at ==> !flags[j],
    ensures
        first_true(flags) == at,
{
    lemma_first_true(flags);
    let found = first_true(flags);
    if found < at {
        assert(!flags[found]);
    } else if found > at {
        assert(!flags[at]);
    }
}

/// When the scan reports a missing unit, it names a role of the check order
/// that has no unit, and every role checked before it has one.
pub proof fn lemma_missing_is_first_unmet(devices: Seq<DeviceInfo>, split: bool, role: Role)
    requires
        scan_outcome(devices, split) == Err::<Binding, Error>(Error::MissingComputeUnit { role }),
    ensures
        exists|k: int|
            {
                &&& 0 <= k < role_check_order(split).len()
                &&& #[trigger] role_check_order(split)[k] == role
                &&& !bound(devices, role)
                &&& forall|j: int|
                    0 <= j < k ==> bound(devices, #[trigger] role_check_order(split)[j])
            },
{
    let flags = unmet(devices, split);
    lemma_first_true(flags);
    let k = first_true(flags);
    assert(flags[k]);
    assert forall|j: int| 0 <= j < k implies bound(
        devices,
        #[trigger] role_check_order(split)[j],
    ) by {
        assert(!flags[j]);
    }
    assert(role_check_order(split)[k] == role);
}

/// When every device grants access and none of them has a unit for a role
/// that the run needs, the scan reports a missing unit: that role, or one
/// that is checked before it.
pub proof fn lemma_absent_role_fails_setup(devices: Seq<DeviceInfo>, split: bool, at: int)
    requires
        0 <= at < role_check_order(split).len(),
        forall|i: int| 0 <= i < devices.len() ==> (#[trigger] devices[i]).access_granted,
        forall|i: int|
            0 <= i < devices.len() ==> !offers(#[trigger] devices[i], role_check_order(split)[at]),
    ensures
        first_true(unmet(devices, split)) <= at,
        scan_outcome(devices, split) == Err::<Binding, Error>(
            Error::MissingComputeUnit {
                role: role_check_order(split)[first_true(unmet(devices, split))],
            },
        ),
{
    let role = role_check_order(split)[at];
    lemma_first_true(refusing(devices));
    lemma_first_true(offering(devices, role));
    lemma_first_true(self_sufficient(devices));
    lemma_first_true(offering(devices, Role::PartitionInWeights));
    lemma_first_true(offering(devices, Role::PartitionOutWeights));
    assert(!bound(devices, role));
    let flags = unmet(devices, split);
    assert(flags[at]);
    lemma_first_true(flags);
}

/// A binding that the scan arrives at is sound: every role that the run
/// needs is bound to a scanned device that granted access and has the unit.
pub proof fn lemma_binding_is_sound(devices: Seq<DeviceInfo>, split: bool, binding: Binding, k: int)
    requires
        devices.len() <= usize::MAX,
        scan_outcome(devices, split) == Ok::<Binding, Error>(binding),
        0 <= k < role_check_order(split).len(),
    ensures
        binding is Split <==> split,
        binding.device_of(role_check_order(split)[k]) < devices.len(),
        devices[binding.device_of(role_check_order(split)[k]) as int].access_granted,
        offers(
            devices[binding.device_of(role_check_order(split)[k]) as int],
            role_check_order(split)[k],
        ),
{
    let flags = unmet(devices, split);
    let role = role_check_order(split)[k];
    lemma_first_true(flags);
    lemma_first_true(refusing(devices));
    lemma_first_true(self_sufficient(devices));
    lemma_first_true(offering(devices, Role::PartitionInWeights));
    lemma_first_true(offering(devices, Role::PartitionOutWeights));
    assert(!flags[k]);
    assert(bound(devices, role));
    let device = binding.device_of(role) as int;
    if split {
        assert(!flags[0] && !flags[1]);
        let input = input_device(devices);
        let output = output_device(devices);
        assert(offering(devices, Role::PartitionInWeights)[input]);
        assert(offering(devices, Role::PartitionOutWeights)[output]);
        assert(binding == Binding::Split {
            input_device: input as usize,
            output_device: output as usize,
        });
        assert(device == input || device == output);
        assert(offers(devices[device], role));
    } else {
        assert(!flags[1]);
        let chosen = single_device(devices);
        assert(self_sufficient(devices)[chosen]);
        assert(binding == Binding::Single { device: chosen as usize });
        assert(device == chosen);
        assert(role == Role::WeightStreamer || role == Role::DataStreamer);
        assert(offers(devices[device], role));
    }
    if !devices[device].access_granted {
        assert(refusing(devices)[device]);
    }
}

/// The role that the scan reports as missing is the first of the roles
/// without a unit.
pub proof fn lemma_missing_heads_the_unbound(devices: Seq<DeviceInfo>, split: bool, role: Role)
    requires
        scan_outcome(devices, split) == Err::<Binding, Error>(Error::MissingComputeUnit { role }),
    ensures
        unbound_among(devices, role_check_order(split)).len() > 0,
        unbound_among(devices, role_check_order(split))[0] == role,
{
    let order = role_check_order(split);
    let flags = unmet(devices, split);
    lemma_first_true(flags);
    let k = first_true(flags);
    assert(flags[k]);
    assert forall|j: int| 0 <= j < k implies bound(devices, #[trigger] order[j]) by {
        assert(!flags[j]);
    }
    lemma_unbound_among_prefix(devices, order, k);
}

/// When the first `k` roles of `order` have a unit and the next has none,
/// that role is the first of the roles without a unit.
proof fn lemma_unbound_among_prefix(devices: Seq<DeviceInfo>, order: Seq<Role>, k: int)
    requires
        0 <= k < order.len(),
        !bound(devices, order[k]),
        forall|j: int| 0 <= j < k ==> bound(devices, #[trigger] order[j]),
    ensures
        unbound_among(devices, order).len() > 0,
        unbound_among(devices, order)[0] == order[k],
    decreases order.len(),
{
    let earlier = order.drop_last();
    if k == order.len() - 1 {
        lemma_unbound_among_all_bound(devices, earlier);
    } else {
        assert(earlier[k] == order[k]);
        assert forall|j: int| 0 <= j < k implies bound(devices, #[trigger] earlier[j]) by {
            assert(earlier[j] == order[j]);
        }
        lemma_unbound_among_prefix(devices, earlier, k);
    }
}

/// When every role of `order` has a unit, none is without.
proof fn lemma_unbound_among_all_bound(devices: Seq<DeviceInfo>, order: Seq<Role>)
    requires
        forall|j: int| 0 <= j < order.len() ==> bound(devices, #[trigger] order[j]),
    ensures
        unbound_among(devices, order).len() == 0,
    decreases order.len(),
{
    if order.len() > 0 {
        let earlier = order.drop_last();
        assert forall|j: int| 0 <= j < earlier.len() implies bound(
            devices,
            #[trigger] earlier[j],
        ) by {
            assert(earlier[j] == order[j]);
        }
        lemma_unbound_among_all_bound(devices, earlier);
        assert(bound(devices, order[order.len() - 1]));
    }
}

/// What is found among the first devices stays found when further devices
/// follow.
pub proof fn lemma_first_true_of_prefix(flags: Seq<bool>, more: Seq<bool>)
    ensures
        first_true(flags) < flags.len() ==> first_true(flags + more) == first_true(flags),
        first_true(flags) == flags.len() ==> first_true(flags + more) == flags.len() + first_true(
            more,
        ),
{
    lemma_first_true(flags);
    lemma_first_true(more);
    let all = flags + more;
    if first_true(flags) < flags.len() {
        lemma_first_true_is(all, first_true(flags));
    } else {
        let at = flags.len() + first_true(more);
        assert forall|j: int| 0 <= j < at implies !all[j] by {
            if j >= flags.len() {
                assert(all[j] == more[j - flags.len()]);
            }
        }
        if first_true(more) < more.len() {
            assert(all[at] == more[first_true(more)]);
        }
        lemma_first_true_is(all, at);
    }
}

/// Once the scan is settled, devices that follow do not change how it ends.
pub proof fn lemma_settled_scan_is_final(
    devices: Seq<DeviceInfo>,
    further: Seq<DeviceInfo>,
    split: bool,
)
    requires
        scan_is_settled(devices, split),
    ensures
        scan_outcome(devices + further, split) == scan_outcome(devices, split),
{
    let all = devices + further;
    assert(refusing(all) =~= refusing(devices) + refusing(further));
    assert(self_sufficient(all) =~= self_sufficient(devices) + self_sufficient(further));
    assert(offering(all, Role::WeightStreamer) =~= offering(devices, Role::WeightStreamer)
        + offering(further, Role::WeightStreamer));
    lemma_first_true_of_prefix(refusing(devices), refusing(further));
    lemma_first_true_of_prefix(self_sufficient(devices), self_sufficient(further));
    lemma_first_true_of_prefix(
        offering(devices, Role::WeightStreamer),
        offering(further, Role::WeightStreamer),
    );
    lemma_first_true(refusing(devices));
    lemma_first_true(refusing(further));
    lemma_first_true(self_sufficient(devices));
    lemma_first_true(self_sufficient(further));
    lemma_first_true(offering(devices, Role::WeightStreamer));
    if scan_outcome(devices, split) is Ok {
        lemma_first_true(unmet(devices, split));
        let before = unmet(devices, false);
        assert(!before[0] && !before[1]);
        let after = unmet(all, false);
        assert(!after[0] && !after[1]);
        lemma_first_true_is(after, 2);
    }
}

impl Role {
    /// The name under which the unit for this role is registered on a device.
    pub fn unit_name(self, mapped: bool) -> (name: &'static str)
        ensures
            name@ == unit_name_of(self, mapped),
    {
        match self {
            Role::WeightStreamer => "esa.informatik.tu-darmstadt.de:user:WeightStreamer:1.0",
            Role::DataStreamer => if mapped {
                "esa.informatik.tu-darmstadt.de:user:DataStreamerMM:1.0"
            } else {
                "esa.informatik.tu-darmstadt.de:user:DataStreamer:1.0"
            },
            Role::PartitionInWeights => {
                "esa.informatik.tu-darmstadt.de:user:WeightStreamerPartIn:1.0"
            },
            Role::PartitionOutWeights => {
                "esa.informatik.tu-darmstadt.de:user:WeightStreamerPartOut:1.0"
            },
            Role::StreamSplit => "tu-darmstadt.de:user:StreamSplit:1.0",
            Role::StreamJoin => "tu-darmstadt.de:user:StreamJoin:1.0",
            Role::PartitionInData => if mapped {
                "esa.informatik.tu-darmstadt.de:user:DataStreamerMMPartIn:1.0"
            } else {
                "esa.informatik.tu-darmstadt.de:user:DataStreamerPartIn:1.0"
            },
            Role::PartitionOutData => if mapped {
                "esa.informatik.tu-darmstadt.de:user:DataStreamerMMPartOut:1.0"
            } else {
                "esa.informatik.tu-darmstadt.de:user:DataStreamerPartOut:1.0"
            },
        }
    }
}

/// The roles a run needs, in the order in which they are checked.
pub fn required_roles(split: bool) -> (roles: Vec<Role>)
    ensures
        roles@ == role_check_order(split),
{
    let mut roles: Vec<Role> = Vec::new();
    if split {
        roles.push(Role::PartitionInWeights);
        roles.push(Role::PartitionOutWeights);
        roles.push(Role::StreamSplit);
        roles.push(Role::StreamJoin);
        roles.push(Role::PartitionInData);
        roles.push(Role::PartitionOutData);
    } else {
        roles.push(Role::WeightStreamer);
        roles.push(Role::DataStreamer);
    }
    assert(roles@ =~= role_check_order(split));
    roles
}

impl DeviceInfo {
    /// Whether the device has a unit for `role`.
    pub fn has_unit(&self, role: Role) -> (found: bool)
        ensures
            found == offers(*self, role),
    {
        let mut i: usize = 0;
        while i < self.units.len()
            invariant
                i <= self.units@.len(),
                forall|j: int| 0 <= j < i ==> self.units@[j] != role,
            decreases self.units@.len() - i,
        {
            if self.units[i] == role {
                return true;
            }
            i += 1;
        }
        false
    }
}

impl Binding {
    /// The device on which the unit for `role` runs.
    pub open spec fn device_of(self, role: Role) -> usize {
        match self {
            Binding::Single { device } => device,
            Binding::Split { input_device, output_device } => match role {
                Role::PartitionOutWeights | Role::StreamSplit | Role::PartitionOutData => {
                    output_device
                },
                _ => input_device,
            },
        }
    }

    /// The device on which the unit for `role` runs.
    pub fn device_for(&self, role: Role) -> (device: usize)
        ensures
            device == self.device_of(role),
    {
        match self {
            Binding::Single { device } => *device,
            Binding::Split { input_device, output_device } => match role {
                Role::PartitionOutWeights | Role::StreamSplit | Role::PartitionOutData => {
                    *output_device
                },
                _ => *input_device,
            },
        }
    }
}

/// Scans `devices` for a run on one device.
fn bind_single(devices: &[DeviceInfo]) -> (result: Result<Binding, Error>)
    ensures
        result == scan_outcome(devices@, false),
{
    let mut weights_seen: bool = false;
    let mut i: usize = 0;
    while i < devices.len()
        invariant
            i <= devices@.len(),
            forall|j: int| 0 <= j < i ==> !refusing(devices@)[j],
            forall|j: int| 0 <= j < i ==> !self_sufficient(devices@)[j],
            forall|j: int|
                0 <= j < i && !weights_seen ==> !offering(devices@, Role::WeightStreamer)[j],
            weights_seen ==> exists|j: int|
                0 <= j < i && #[trigger] offering(devices@, Role::WeightStreamer)[j],
        decreases devices@.len() - i,
    {
        let device = &devices[i];
        if !device.access_granted {
            proof {
                lemma_first_true_is(refusing(devices@), i as int);
                lemma_first_true(self_sufficient(devices@));
                if single_device(devices@) < i {
                    assert(self_sufficient(devices@)[single_device(devices@)]);
                }
            }
            return Err(Error::DeviceAccess { device: i });
        }
        if device.has_unit(Role::WeightStreamer) {
            weights_seen = true;
            assert(offering(devices@, Role::WeightStreamer)[i as int]);
            if device.has_unit(Role::DataStreamer) {
                proof {
                    lemma_first_true_is(self_sufficient(devices@), i as int);
                    lemma_first_true(refusing(devices@));
                    let refused = first_true(refusing(devices@));
                    if refused <= i {
                        assert(refusing(devices@)[refused]);
                    }
                    lemma_first_true(offering(devices@, Role::WeightStreamer));
                    let first = first_true(offering(devices@, Role::WeightStreamer));
                    if first >= devices@.len() {
                        assert(!offering(devices@, Role::WeightStreamer)[i as int]);
                    }
                    assert(bound(devices@, Role::WeightStreamer));
                    assert(bound(devices@, Role::DataStreamer));
                    let flags = unmet(devices@, false);
                    assert(!flags[0] && !flags[1]);
                    lemma_first_true_is(flags, 2);
                }
                return Ok(Binding::Single { device: i });
            }
        }
        i += 1;
    }
    proof {
        lemma_first_true_is(refusing(devices@), devices@.len() as int);
        lemma_first_true_is(self_sufficient(devices@), devices@.len() as int);
        lemma_first_true(offering(devices@, Role::WeightStreamer));
        let flags = unmet(devices@, false);
        assert(!bound(devices@, Role::DataStreamer));
        assert(flags[1]);
        if weights_seen {
            let j = choose|j: int|
                0 <= j < i && #[trigger] offering(devices@, Role::WeightStreamer)[j];
            let first = first_true(offering(devices@, Role::WeightStreamer));
            if first >= devices@.len() {
                assert(!offering(devices@, Role::WeightStreamer)[j]);
            }
            assert(!flags[0]);
            lemma_first_true_is(flags, 1);
        } else {
            lemma_first_true_is(offering(devices@, Role::WeightStreamer), devices@.len() as int);
            assert(flags[0]);
            lemma_first_true_is(flags, 0);
        }
    }
    if weights_seen {
        Err(Error::MissingComputeUnit { role: Role::DataStreamer })
    } else {
        Err(Error::MissingComputeUnit { role: Role::WeightStreamer })
    }
}

/// Scans `devices` for a run split over two devices.
fn bind_split(devices: &[DeviceInfo]) -> (result: Result<Binding, Error>)
    ensures
        result == scan_outcome(devices@, true),
{
    let count: usize = devices.len();
    let mut input: usize = count;
    let mut output: usize = count;
    let mut i: usize = 0;
    while i < count
        invariant
            count == devices@.len(),
            i <= count,
            forall|j: int| 0 <= j < i ==> !refusing(devices@)[j],
            input < count ==> input < i && offering(
                devices@,
                Role::PartitionInWeights,
            )[input as int],
            output < count ==> output < i && offering(
                devices@,
                Role::PartitionOutWeights,
            )[output as int],
            input <= count,
            output <= count,
            forall|j: int|
                0 <= j < i && j < input ==> !offering(devices@, Role::PartitionInWeights)[j],
            forall|j: int|
                0 <= j < i && j < output ==> !offering(devices@, Role::PartitionOutWeights)[j],
        decreases count - i,
    {
        let device = &devices[i];
        if !device.access_granted {
            proof {
                lemma_first_true_is(refusing(devices@), i as int);
            }
            return Err(Error::DeviceAccess { device: i });
        }
        if input == count && device.has_unit(Role::PartitionInWeights) {
            input = i;
        }
        if output == count && device.has_unit(Role::PartitionOutWeights) {
            output = i;
        }
        i += 1;
    }
    proof {
        lemma_first_true_is(refusing(devices@), count as int);
        lemma_first_true_is(offering(devices@, Role::PartitionInWeights), input as int);
        lemma_first_true_is(offering(devices@, Role::PartitionOutWeights), output as int);
    }
    let ghost flags = unmet(devices@, true);
    if input == count {
        proof {
            assert(flags[0]);
            lemma_first_true_is(flags, 0);
        }
        return Err(Error::MissingComputeUnit { role: Role::PartitionInWeights });
    }
    if output == count {
        proof {
            assert(!flags[0] && flags[1]);
            lemma_first_true_is(flags, 1);
        }
        return Err(Error::MissingComputeUnit { role: Role::PartitionOutWeights });
    }
    if !devices[output].has_unit(Role::StreamSplit) {
        proof {
            assert(!flags[0] && !flags[1] && flags[2]);
            lemma_first_true_is(flags, 2);
        }
        return Err(Error::MissingComputeUnit { role: Role::StreamSplit });
    }
    if !devices[input].has_unit(Role::StreamJoin) {
        proof {
            assert(!flags[0] && !flags[1] && !flags[2] && flags[3]);
            lemma_first_true_is(flags, 3);
        }
        return Err(Error::MissingComputeUnit { role: Role::StreamJoin });
    }
    if !devices[input].has_unit(Role::PartitionInData) {
        proof {
            assert(!flags[0] && !flags[1] && !flags[2] && !flags[3] && flags[4]);
            lemma_first_true_is(flags, 4);
        }
        return Err(Error::MissingComputeUnit { role: Role::PartitionInData });
    }
    if !devices[output].has_unit(Role::PartitionOutData) {
        proof {
            assert(!flags[0] && !flags[1] && !flags[2] && !flags[3] && !flags[4] && flags[5]);
            lemma_first_true_is(flags, 5);
        }
        return Err(Error::MissingComputeUnit { role: Role::PartitionOutData });
    }
    proof {
        assert(!flags[0] && !flags[1] && !flags[2] && !flags[3] && !flags[4] && !flags[5]);
        lemma_first_true_is(flags, 6);
    }
    Ok(Binding::Split { input_device: input, output_device: output })
}

/// Scans `devices` in order and binds every role that a run needs to a
/// device, or says why that cannot be done.
pub fn bind_units(devices: &[DeviceInfo], split: bool) -> (result: Result<Binding, Error>)
    ensures
        result == scan_outcome(devices@, split),
{
    if split {
        bind_split(devices)
    } else {
        bind_single(devices)
    }
}

/// Position of the first device that has a unit for `role`;
/// `devices.len()` when none has.
fn first_with_unit(devices: &[DeviceInfo], role: Role) -> (at: usize)
    ensures
        at == first_true(offering(devices@, role)),
{
    let mut i: usize = 0;
    while i < devices.len()
        invariant
            i <= devices@.len(),
            forall|j: int| 0 <= j < i ==> !offering(devices@, role)[j],
        decreases devices@.len() - i,
    {
        if devices[i].has_unit(role) {
            proof {
                lemma_first_true_is(offering(devices@, role), i as int);
            }
            return i;
        }
        i += 1;
    }
    proof {
        lemma_first_true_is(offering(devices@, role), i as int);
    }
    i
}

/// Position of the first self-sufficient device; `devices.len()` when
/// none is.
fn first_self_sufficient(devices: &[DeviceInfo]) -> (at: usize)
    ensures
        at == single_device(devices@),
{
    let mut i: usize = 0;
    while i < devices.len()
        invariant
            i <= devices@.len(),
            forall|j: int| 0 <= j < i ==> !self_sufficient(devices@)[j],
        decreases devices@.len() - i,
    {
        if devices[i].has_unit(Role::WeightStreamer) && devices[i].has_unit(Role::DataStreamer) {
            proof {
                lemma_first_true_is(self_sufficient(devices@), i as int);
            }
            return i;
        }
        i += 1;
    }
    proof {
        lemma_first_true_is(self_sufficient(devices@), i as int);
    }
    i
}

/// Whether the scan finds a unit for `role`.
pub fn is_bound(devices: &[DeviceInfo], role: Role) -> (found: bool)
    ensures
        found == bound(devices@, role),
{
    match role {
        Role::WeightStreamer => first_with_unit(devices, Role::WeightStreamer) < devices.len(),
        Role::DataStreamer => first_self_sufficient(devices) < devices.len(),
        Role::PartitionInWeights => first_with_unit(devices, Role::PartitionInWeights)
            < devices.len(),
        Role::PartitionOutWeights => first_with_unit(devices, Role::PartitionOutWeights)
            < devices.len(),
        Role::StreamJoin | Role::PartitionInData => {
            let side: usize = first_with_unit(devices, Role::PartitionInWeights);
            side < devices.len() && devices[side].has_unit(role)
        },
        Role::StreamSplit | Role::PartitionOutData => {
            let side: usize = first_with_unit(devices, Role::PartitionOutWeights);
            side < devices.len() && devices[side].has_unit(role)
        },
    }
}

/// Every role that the run needs and for which the scan finds no unit, in
/// check order.
pub fn missing_roles(devices: &[DeviceInfo], split: bool) -> (roles: Vec<Role>)
    ensures
        roles@ == unbound_among(devices@, role_check_order(split)),
{
    let order = required_roles(split);
    let mut roles: Vec<Role> = Vec::new();
    let mut k: usize = 0;
    assert(order@.take(0) =~= Seq::<Role>::empty());
    while k < order.len()
        invariant
            k <= order@.len(),
            roles@ == unbound_among(devices@, order@.take(k as int)),
        decreases order@.len() - k,
    {
        assert(order@.take(k + 1).drop_last() =~= order@.take(k as int));
        if !is_bound(devices, order[k]) {
            roles.push(order[k]);
        }
        k += 1;
    }
    assert(order@.take(k as int) =~= order@);
    roles
}

/// Whether the scan of `devices` has ended before a further device could
/// be looked at. A caller that learns about devices one by one stops
/// asking as soon as this holds.
pub fn scan_settled(devices: &[DeviceInfo], split: bool) -> (settled: bool)
    ensures
        settled == scan_is_settled(devices@, split),
{
    match bind_units(devices, split) {
        Err(Error::DeviceAccess { .. }) => true,
        Ok(_) => !split,
        Err(_) => false,
    }
}

} // verus!
