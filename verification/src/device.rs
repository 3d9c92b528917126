//! Which device is used, and what is asked of it.

use vstd::prelude::*;
use vstd::string::StringExecFns;

verus! {

/// A device lacks something that is needed.
#[derive(Clone, Copy, Debug)]
pub struct SuitabilityError(pub &'static str);

impl SuitabilityError {
    /// The error in words.
    pub fn message(&self) -> (out: String)
        ensures
            out@ == "Missing "@ + self.0@,
    {
        let mut out = String::from_str("Missing ");
        out.append(self.0);
        out
    }
}

/// The device cannot be set up, or what it gave cannot be used.
#[derive(Clone, Copy, PartialEq, Eq, Structural, Debug)]
pub enum DeviceError {
    ValidationLayerMissing,
    NoMemoryType,
    NoPhysicalDevice,
    ZeroGeometryAddress,
    ZeroInstanceAddress,
}

impl DeviceError {
    /// The error in words.
    pub open spec fn text(self) -> Seq<char> {
        match self {
            DeviceError::ValidationLayerMissing =>
                "Validation layer requested but not supported"@,
            DeviceError::NoMemoryType => "Failed to find suitable memory type."@,
            DeviceError::NoPhysicalDevice => "Failed to find suitable physical device"@,
            DeviceError::ZeroGeometryAddress =>
                "Vertex or index buffer has a zero device address"@,
            DeviceError::ZeroInstanceAddress =>
                "TLAS instance buffer has a zero device address"@,
        }
    }

    /// The error in words.
    pub fn message(&self) -> (out: String)
        ensures
            out@ == self.text(),
    {
        match *self {
            DeviceError::ValidationLayerMissing => String::from_str(
                "Validation layer requested but not supported",
            ),
            DeviceError::NoMemoryType => String::from_str("Failed to find suitable memory type."),
            DeviceError::NoPhysicalDevice => String::from_str(
                "Failed to find suitable physical device",
            ),
            DeviceError::ZeroGeometryAddress => String::from_str(
                "Vertex or index buffer has a zero device address",
            ),
            DeviceError::ZeroInstanceAddress => String::from_str(
                "TLAS instance buffer has a zero device address",
            ),
        }
    }
}

/// The first place at which a list holds `true`.
pub open spec fn first_true(list: Seq<bool>) -> Option<int>
    decreases list.len(),
{
    if list.len() == 0 {
        None
    } else {
        match first_true(list.drop_last()) {
            Some(i) => Some(i),
            None => if list.last() {
                Some(list.len() - 1)
            } else {
                None
            },
        }
    }
}

fn find_true(list: &[bool]) -> (out: Option<u32>)
    requires
        list@.len() <= u32::MAX,
    ensures
        match first_true(list@) {
            Some(i) => out is Some && out->Some_0 == i,
            None => out is None,
        },
{
    let mut i: usize = 0;
    proof {
        assert(list@.take(0) =~= Seq::<bool>::empty());
    }
    while i < list.len()
        invariant
            i <= list@.len() <= u32::MAX,
            first_true(list@.take(i as int)) is None,
        decreases list@.len() - i,
    {
        proof {
            assert(list@.take(i + 1).drop_last() =~= list@.take(i as int));
        }
        if list[i] {
            proof {
                lemma_first_true_prefix(list@, i + 1);
            }
            return Some(i as u32);
        }
        i = i + 1;
    }
    proof {
        assert(list@.take(i as int) =~= list@);
    }
    None
}

/// What is found in the front part of a list is found in all of it.
proof fn lemma_first_true_prefix(list: Seq<bool>, n: int)
    requires
        0 <= n <= list.len(),
        first_true(list.take(n)) is Some,
    ensures
        first_true(list) == first_true(list.take(n)),
    decreases list.len() - n,
{
    if n < list.len() {
        assert(list.take(n + 1).drop_last() =~= list.take(n));
        lemma_first_true_prefix(list, n + 1);
    } else {
        assert(list.take(n) =~= list);
    }
}

/// The queue families that draw and that show images.
#[derive(Clone, Copy, PartialEq, Eq, Structural, Debug)]
pub struct QueueFamilyIndices {
    pub graphics: u32,
    pub present: u32,
}

impl QueueFamilyIndices {
    /// The first family that can draw and the first that can show images.
    pub open spec fn chosen(graphics: Seq<bool>, presents: Seq<bool>) -> Option<QueueFamilyIndices> {
        match (first_true(graphics), first_true(presents)) {
            (Some(graphics), Some(present)) => Some(
                QueueFamilyIndices { graphics: graphics as u32, present: present as u32 },
            ),
            _ => None,
        }
    }

    /// Picks the families, by what each of them can do.
    pub fn get(graphics: &[bool], presents: &[bool]) -> (out: Result<Self, SuitabilityError>)
        requires
            graphics@.len() <= u32::MAX,
            presents@.len() <= u32::MAX,
        ensures
            match Self::chosen(graphics@, presents@) {
                Some(chosen) => out is Ok && out->Ok_0 == chosen,
                None => out is Err && out->Err_0.0@ == "Missing required queue families"@,
            },
    {
        match (find_true(graphics), find_true(presents)) {
            (Some(graphics), Some(present)) => Ok(QueueFamilyIndices { graphics, present }),
            _ => Err(SuitabilityError("Missing required queue families")),
        }
    }

    /// The families without repetition.
    pub fn unique(&self) -> (out: Vec<u32>)
        ensures
            out@.no_duplicates(),
            out@.to_set() == set![self.graphics, self.present],
    {
        let mut families: Vec<u32> = Vec::new();
        families.push(self.graphics);
        if self.present != self.graphics {
            families.push(self.present);
        }
        proof {
            assert(families@[0] == self.graphics);
            if self.present != self.graphics {
                assert(families@[1] == self.present);
            }
            assert forall|family: u32| families@.to_set().contains(family) <==> (set![
                self.graphics,
                self.present,
            ]).contains(family) by {
                if family == self.graphics {
                    assert(families@.contains(family));
                }
                if family == self.present && self.present != self.graphics {
                    assert(families@.contains(family));
                }
            }
            assert(families@.to_set() =~= set![self.graphics, self.present]);
        }
        families
    }
}

/// Whether memory of type `i` will do: the requirements allow the type, and it has all the wanted
/// properties.
pub open spec fn memory_type_fits(
    allowed: u32,
    wanted: u32,
    types: Seq<u32>,
    i: int,
) -> bool {
    &&& allowed & (1u32 << (i as u32)) != 0
    &&& types[i] & wanted == wanted
}

/// Picks the first memory type that will do. `allowed` has a bit for each type that the
/// requirements allow, `types` the properties of each type.
pub fn get_memory_type_index(allowed: u32, wanted: u32, types: &[u32]) -> (out: Result<
    u32,
    DeviceError,
>)
    requires
        types@.len() <= 32,
    ensures
        match out {
            Ok(i) => {
                &&& i < types@.len()
                &&& memory_type_fits(allowed, wanted, types@, i as int)
                &&& forall|j: int| 0 <= j < i ==> !memory_type_fits(allowed, wanted, types@, j)
            },
            Err(e) => {
                &&& e == DeviceError::NoMemoryType
                &&& forall|j: int|
                    0 <= j < types@.len() ==> !memory_type_fits(allowed, wanted, types@, j)
            },
        },
{
    let mut i: u32 = 0;
    while (i as usize) < types.len()
        invariant
            i <= types@.len() <= 32,
            forall|j: int| 0 <= j < i ==> !memory_type_fits(allowed, wanted, types@, j),
        decreases types@.len() - i,
    {
        let suitable = allowed & (1u32 << i) != 0;
        if suitable && types[i as usize] & wanted == wanted {
            return Ok(i);
        }
        i = i + 1;
    }
    Err(DeviceError::NoMemoryType)
}

/// The extensions that a device must have.
pub open spec fn required_extensions() -> Seq<Seq<char>> {
    seq![
        "VK_KHR_swapchain"@,
        "VK_KHR_acceleration_structure"@,
        "VK_KHR_ray_tracing_pipeline"@,
        "VK_KHR_deferred_host_operations"@,
        "VK_KHR_buffer_device_address"@,
        "VK_EXT_descriptor_indexing"@,
    ]
}

/// The characters of each text.
pub open spec fn texts(list: Seq<String>) -> Seq<Seq<char>> {
    Seq::new(list.len(), |i: int| list[i]@)
}

/// The extensions that a device must have.
pub fn device_extensions() -> (out: Vec<String>)
    ensures
        texts(out@) == required_extensions(),
{
    let mut list: Vec<String> = Vec::new();
    list.push(String::from_str("VK_KHR_swapchain"));
    list.push(String::from_str("VK_KHR_acceleration_structure"));
    list.push(String::from_str("VK_KHR_ray_tracing_pipeline"));
    list.push(String::from_str("VK_KHR_deferred_host_operations"));
    list.push(String::from_str("VK_KHR_buffer_device_address"));
    list.push(String::from_str("VK_EXT_descriptor_indexing"));
    proof {
        assert(texts(list@) =~= required_extensions());
    }
    list
}

/// Whether a text is in a list.
fn has_text(list: &[String], text: &String) -> (out: bool)
    ensures
        out == texts(list@).contains(text@),
{
    let mut i: usize = 0;
    while i < list.len()
        invariant
            i <= list@.len(),
            forall|j: int| 0 <= j < i ==> #[trigger] texts(list@)[j] != text@,
        decreases list@.len() - i,
    {
        if list[i] == *text {
            proof {
                assert(texts(list@)[i as int] == text@);
            }
            return true;
        }
        i = i + 1;
    }
    false
}

/// What a device can do with regard to ray tracing.
#[derive(Clone, Copy, PartialEq, Eq, Structural, Debug)]
pub struct RtFeatures {
    pub ray_tracing_pipeline: bool,
    pub acceleration_structure: bool,
    pub scalar_block_layout: bool,
    pub buffer_device_address: bool,
}

/// What is known of a device.
pub struct DeviceFacts {
    /// For each queue family, whether it can draw.
    pub graphics: Vec<bool>,
    /// For each queue family, whether it can show images; may end at the first that can.
    pub presents: Vec<bool>,
    pub extensions: Vec<String>,
    pub features: RtFeatures,
    /// How many image formats and ways to show images there are.
    pub format_count: usize,
    pub present_mode_count: usize,
}

/// The first thing that a device lacks, if anything.
pub open spec fn missing_feature(features: RtFeatures) -> Option<Seq<char>> {
    if !features.ray_tracing_pipeline {
        Some("Missing ray tracing pipeline feature"@)
    } else if !features.acceleration_structure {
        Some("Missing acceleration structure feature"@)
    } else if !features.scalar_block_layout {
        Some("Missing scalarBlockLayout feature"@)
    } else if !features.buffer_device_address {
        Some("Missing buffer device address feature"@)
    } else {
        None
    }
}

/// Whether every extension that a device must have is there.
pub open spec fn extensions_suffice(available: Seq<Seq<char>>) -> bool {
    forall|i: int|
        0 <= i < required_extensions().len() ==> available.contains(
            #[trigger] required_extensions()[i],
        )
}

impl DeviceFacts {
    /// The first thing that the device lacks, if anything: queue families come first, then
    /// extensions, features, and ways to show images.
    pub open spec fn lacks(&self) -> Option<Seq<char>> {
        if QueueFamilyIndices::chosen(self.graphics@, self.presents@) is None {
            Some("Missing required queue families"@)
        } else if !extensions_suffice(texts(self.extensions@)) {
            Some("Missing required device extensions"@)
        } else if missing_feature(self.features) is Some {
            missing_feature(self.features)
        } else if self.format_count == 0 || self.present_mode_count == 0 {
            Some("Insufficient swapchain support."@)
        } else {
            None
        }
    }

    /// There are not more queue families than can be numbered.
    pub open spec fn wf(&self) -> bool {
        self.graphics@.len() <= u32::MAX && self.presents@.len() <= u32::MAX
    }
}

/// A result says what is lacking, or that nothing is.
pub open spec fn says(out: Result<(), SuitabilityError>, lacks: Option<Seq<char>>) -> bool {
    match lacks {
        Some(text) => out is Err && out->Err_0.0@ == text,
        None => out is Ok,
    }
}

/// Checks that every extension that a device must have is there.
pub fn check_physical_device_extensions(extensions: &[String]) -> (out: Result<
    (),
    SuitabilityError,
>)
    ensures
        says(
            out,
            if extensions_suffice(texts(extensions@)) {
                None
            } else {
                Some("Missing required device extensions"@)
            },
        ),
{
    let required = device_extensions();
    let mut i: usize = 0;
    while i < required.len()
        invariant
            i <= required@.len(),
            texts(required@) == required_extensions(),
            forall|j: int|
                0 <= j < i ==> texts(extensions@).contains(#[trigger] required_extensions()[j]),
        decreases required@.len() - i,
    {
        if !has_text(extensions, &required[i]) {
            proof {
                assert(texts(required@)[i as int] == required@[i as int]@);
                assert(!texts(extensions@).contains(required_extensions()[i as int]));
            }
            return Err(SuitabilityError("Missing required device extensions"));
        }
        proof {
            assert(texts(required@)[i as int] == required@[i as int]@);
        }
        i = i + 1;
    }
    proof {
        assert(texts(required@).len() == required@.len());
    }
    Ok(())
}

/// Checks that a device can do what ray tracing needs.
pub fn check_physical_device_rt_features(features: &RtFeatures) -> (out: Result<
    (),
    SuitabilityError,
>)
    ensures
        says(out, missing_feature(*features)),
{
    if !features.ray_tracing_pipeline {
        return Err(SuitabilityError("Missing ray tracing pipeline feature"));
    }
    if !features.acceleration_structure {
        return Err(SuitabilityError("Missing acceleration structure feature"));
    }
    if !features.scalar_block_layout {
        return Err(SuitabilityError("Missing scalarBlockLayout feature"));
    }
    if !features.buffer_device_address {
        return Err(SuitabilityError("Missing buffer device address feature"));
    }
    Ok(())
}

/// Checks that a device can be used.
pub fn check_physical_device(facts: &DeviceFacts) -> (out: Result<(), SuitabilityError>)
    requires
        facts.wf(),
    ensures
        says(out, facts.lacks()),
{
    match QueueFamilyIndices::get(&facts.graphics, &facts.presents) {
        Ok(_) => {},
        Err(e) => return Err(e),
    }
    match check_physical_device_extensions(&facts.extensions) {
        Ok(_) => {},
        Err(e) => return Err(e),
    }
    match check_physical_device_rt_features(&facts.features) {
        Ok(_) => {},
        Err(e) => return Err(e),
    }
    if facts.format_count == 0 || facts.present_mode_count == 0 {
        return Err(SuitabilityError("Insufficient swapchain support."));
    }
    Ok(())
}

/// A device of which the facts are known and that lacks nothing.
pub open spec fn suitable(device: Option<DeviceFacts>) -> bool {
    device matches Some(facts) && facts.lacks() is None
}

/// Picks the first device that can be used. A device whose facts could not be found out is passed
/// over.
pub fn pick_physical_device(devices: &[Option<DeviceFacts>]) -> (out: Result<usize, DeviceError>)
    requires
        forall|i: int|
            0 <= i < devices@.len() ==> ((#[trigger] devices@[i]) matches Some(facts)
                ==> facts.wf()),
    ensures
        match out {
            Ok(i) => {
                &&& i < devices@.len()
                &&& suitable(devices@[i as int])
                &&& forall|j: int| 0 <= j < i ==> !suitable(#[trigger] devices@[j])
            },
            Err(e) => {
                &&& e == DeviceError::NoPhysicalDevice
                &&& forall|j: int| 0 <= j < devices@.len() ==> !suitable(#[trigger] devices@[j])
            },
        },
{
    let mut i: usize = 0;
    while i < devices.len()
        invariant
            i <= devices@.len(),
            forall|j: int|
                0 <= j < devices@.len() ==> ((#[trigger] devices@[j]) matches Some(facts)
                    ==> facts.wf()),
            forall|j: int| 0 <= j < i ==> !suitable(#[trigger] devices@[j]),
        decreases devices@.len() - i,
    {
        if let Some(facts) = &devices[i] {
            if check_physical_device(facts).is_ok() {
                return Ok(i);
            }
        }
        i = i + 1;
    }
    Err(DeviceError::NoPhysicalDevice)
}

/// Whether the loader is new enough to ask for devices that conform only in part, which is how
/// they come on macOS.
pub fn needs_portability(macos: bool, major: u32, minor: u32, patch: u32) -> (out: bool)
    ensures
        out <==> macos && (major > 1 || (major == 1 && (minor > 3 || (minor == 3 && patch
            >= 216)))),
{
    macos && (major > 1 || (major == 1 && (minor > 3 || (minor == 3 && patch >= 216))))
}

/// How the instance is set up.
pub struct InstancePlan {
    pub extensions: Vec<String>,
    pub layers: Vec<String>,
    /// Whether devices that conform only in part are asked for.
    pub enumerate_portability: bool,
    /// Whether messages of the validation layer are taken.
    pub debug_messenger: bool,
}

/// The extensions of the instance: those for the window, and those for macOS and for validation.
pub open spec fn instance_extensions(
    window: Seq<Seq<char>>,
    portability: bool,
    validation: bool,
) -> Seq<Seq<char>> {
    let for_macos = if portability {
        seq!["VK_KHR_get_physical_device_properties2"@, "VK_KHR_portability_enumeration"@]
    } else {
        Seq::empty()
    };
    let for_validation = if validation {
        seq!["VK_EXT_debug_utils"@]
    } else {
        Seq::empty()
    };
    window + for_macos + for_validation
}

/// The layers that are switched on.
pub open spec fn validation_layers(validation: bool) -> Seq<Seq<char>> {
    if validation {
        seq!["VK_LAYER_KHRONOS_validation"@]
    } else {
        Seq::empty()
    }
}

/// The layers that are switched on.
pub fn enabled_layers(validation: bool) -> (out: Vec<String>)
    ensures
        texts(out@) == validation_layers(validation),
{
    let mut layers: Vec<String> = Vec::new();
    if validation {
        layers.push(String::from_str("VK_LAYER_KHRONOS_validation"));
    }
    proof {
        assert(texts(layers@) =~= validation_layers(validation));
    }
    layers
}

/// Plans the instance. Fails where validation is wanted and its layer is not there.
pub fn create_instance(
    window_extensions: Vec<String>,
    portability: bool,
    validation: bool,
    available_layers: &[String],
) -> (out: Result<InstancePlan, DeviceError>)
    ensures
        if validation && !texts(available_layers@).contains("VK_LAYER_KHRONOS_validation"@) {
            out is Err && out->Err_0 == DeviceError::ValidationLayerMissing
        } else {
            &&& out is Ok
            &&& texts(out->Ok_0.extensions@) == instance_extensions(
                texts(window_extensions@),
                portability,
                validation,
            )
            &&& texts(out->Ok_0.layers@) == validation_layers(validation)
            &&& out->Ok_0.enumerate_portability == portability
            &&& out->Ok_0.debug_messenger == validation
        },
{
    let ghost window = texts(window_extensions@);
    let mut extensions = window_extensions;
    if portability {
        extensions.push(String::from_str("VK_KHR_get_physical_device_properties2"));
        extensions.push(String::from_str("VK_KHR_portability_enumeration"));
    }
    let layer = String::from_str("VK_LAYER_KHRONOS_validation");
    if validation && !has_text(available_layers, &layer) {
        return Err(DeviceError::ValidationLayerMissing);
    }
    let layers = enabled_layers(validation);
    if validation {
        extensions.push(String::from_str("VK_EXT_debug_utils"));
    }
    proof {
        assert(texts(extensions@) =~= instance_extensions(window, portability, validation));
    }
    Ok(
        InstancePlan {
            extensions,
            layers,
            enumerate_portability: portability,
            debug_messenger: validation,
        },
    )
}

/// How important a message is.
#[derive(Clone, Copy, PartialEq, Eq, Structural, Debug)]
pub enum LogLevel {
    Error,
    Warn,
    Debug,
    Trace,
}

/// The level at which a message of the validation layer is logged, by the bits of its severity.
pub fn debug_log_level(severity: u32) -> (out: LogLevel)
    ensures
        out == if severity >= 0x1000 {
            LogLevel::Error
        } else if severity >= 0x100 {
            LogLevel::Warn
        } else if severity >= 0x10 {
            LogLevel::Debug
        } else {
            LogLevel::Trace
        },
{
    if severity >= 0x1000 {
        LogLevel::Error
    } else if severity >= 0x100 {
        LogLevel::Warn
    } else if severity >= 0x10 {
        LogLevel::Debug
    } else {
        LogLevel::Trace
    }
}

/// How the device is set up.
pub struct DevicePlan {
    /// One queue is made for each of these families.
    pub queue_families: Vec<u32>,
    pub extensions: Vec<String>,
    pub layers: Vec<String>,
}

/// Plans the device. Fails where its shaders have no 64-bit integers.
pub fn create_logical_device(
    indices: QueueFamilyIndices,
    portability: bool,
    validation: bool,
    shader_int64: bool,
) -> (out: Result<DevicePlan, SuitabilityError>)
    ensures
        if !shader_int64 {
            out is Err && out->Err_0.0@ == "Missing shaderInt64 feature"@
        } else {
            &&& out is Ok
            &&& out->Ok_0.queue_families@.no_duplicates()
            &&& out->Ok_0.queue_families@.to_set() == set![indices.graphics, indices.present]
            &&& texts(out->Ok_0.extensions@) == required_extensions() + if portability {
                seq!["VK_KHR_portability_subset"@]
            } else {
                Seq::empty()
            }
            &&& texts(out->Ok_0.layers@) == validation_layers(validation)
        },
{
    if !shader_int64 {
        return Err(SuitabilityError("Missing shaderInt64 feature"));
    }
    let layers = enabled_layers(validation);
    let mut extensions = device_extensions();
    let ghost required = texts(extensions@);
    if portability {
        extensions.push(String::from_str("VK_KHR_portability_subset"));
    }
    proof {
        assert(texts(extensions@) =~= required + if portability {
            seq!["VK_KHR_portability_subset"@]
        } else {
            Seq::empty()
        });
    }
    Ok(DevicePlan { queue_families: indices.unique(), extensions, layers })
}

/// What is found is a place that holds `true`, and none before it does; where nothing is found, no place
/// does.
pub proof fn law_the_first_of_its_kind_is_found(list: Seq<bool>)
    ensures
        match first_true(list) {
            Some(i) => {
                &&& 0 <= i < list.len()
                &&& list[i]
                &&& forall|j: int| 0 <= j < i ==> !#[trigger] list[j]
            },
            None => forall|j: int| 0 <= j < list.len() ==> !#[trigger] list[j],
        },
    decreases list.len(),
{
    if list.len() > 0 {
        let front = list.drop_last();
        law_the_first_of_its_kind_is_found(front);
        assert forall|j: int| 0 <= j < front.len() implies front[j] == #[trigger] list[j] by {}
        if let Some(i) = first_true(front) {
            assert(front[i] == list[i]);
        }
    }
}

/// The families that are picked can do what they are picked for, and are the first that can. Nothing is
/// picked only where no family can draw or none can show images.
pub proof fn law_queue_families_are_the_first(graphics: Seq<bool>, presents: Seq<bool>)
    requires
        graphics.len() <= u32::MAX,
        presents.len() <= u32::MAX,
    ensures
        match QueueFamilyIndices::chosen(graphics, presents) {
            Some(chosen) => {
                &&& chosen.graphics < graphics.len() && graphics[chosen.graphics as int]
                &&& forall|j: int| 0 <= j < chosen.graphics ==> !#[trigger] graphics[j]
                &&& chosen.present < presents.len() && presents[chosen.present as int]
                &&& forall|j: int| 0 <= j < chosen.present ==> !#[trigger] presents[j]
            },
            None => {
                ||| forall|j: int| 0 <= j < graphics.len() ==> !#[trigger] graphics[j]
                ||| forall|j: int| 0 <= j < presents.len() ==> !#[trigger] presents[j]
            },
        },
{
    law_the_first_of_its_kind_is_found(graphics);
    law_the_first_of_its_kind_is_found(presents);
}

/// Memory will do where its bit is set among those that are allowed and every wanted property is there.
pub proof fn law_memory_has_all_wanted_properties(
    allowed: u32,
    wanted: u32,
    types: Seq<u32>,
    i: int,
    property: u32,
)
    requires
        0 <= i < types.len() <= 32,
        property < 32,
    ensures
        memory_type_fits(allowed, wanted, types, i) ==> (allowed >> (i as u32)) & 1 == 1,
        memory_type_fits(allowed, wanted, types, i) && (wanted >> property) & 1 == 1 ==> (types[i]
            >> property) & 1 == 1,
        (allowed >> (i as u32)) & 1 == 1 && wanted & !types[i] == 0 ==> memory_type_fits(
            allowed,
            wanted,
            types,
            i,
        ),
{
    let n: u32 = i as u32;
    let held: u32 = types[i];
    assert(n < 32 ==> (allowed & (1u32 << n) != 0 <==> (allowed >> n) & 1 == 1)) by (bit_vector);
    assert(property < 32 && held & wanted == wanted && (wanted >> property) & 1 == 1 ==> (held
        >> property) & 1 == 1) by (bit_vector);
    assert(wanted & !held == 0 ==> held & wanted == wanted) by (bit_vector);
}

/// Every device must be able to show images, trace rays over acceleration structures with work that is
/// put off, use addresses of buffers, and index descriptors.
pub proof fn law_extensions_that_must_be_there(available: Seq<Seq<char>>)
    ensures
        extensions_suffice(available) <==> {
            &&& available.contains("VK_KHR_swapchain"@)
            &&& available.contains("VK_KHR_acceleration_structure"@)
            &&& available.contains("VK_KHR_ray_tracing_pipeline"@)
            &&& available.contains("VK_KHR_deferred_host_operations"@)
            &&& available.contains("VK_KHR_buffer_device_address"@)
            &&& available.contains("VK_EXT_descriptor_indexing"@)
        },
{
    let required = required_extensions();
    assert(required.len() == 6);
    if extensions_suffice(available) {
        assert(available.contains(required[0]));
        assert(available.contains(required[1]));
        assert(available.contains(required[2]));
        assert(available.contains(required[3]));
        assert(available.contains(required[4]));
        assert(available.contains(required[5]));
    }
}

/// A device lacks nothing exactly where it has a family for each purpose, the extensions, all four
/// features, and some format and some way to show images.
pub proof fn law_devices_that_lack_nothing(facts: DeviceFacts)
    requires
        facts.wf(),
    ensures
        facts.lacks() is None <==> {
            &&& exists|i: int| 0 <= i < facts.graphics@.len() && #[trigger] facts.graphics@[i]
            &&& exists|i: int| 0 <= i < facts.presents@.len() && #[trigger] facts.presents@[i]
            &&& extensions_suffice(texts(facts.extensions@))
            &&& facts.features.ray_tracing_pipeline
            &&& facts.features.acceleration_structure
            &&& facts.features.scalar_block_layout
            &&& facts.features.buffer_device_address
            &&& facts.format_count > 0
            &&& facts.present_mode_count > 0
        },
        suitable(Some(facts)) <==> facts.lacks() is None,
        !suitable(None),
{
    law_queue_families_are_the_first(facts.graphics@, facts.presents@);
    law_the_first_of_its_kind_is_found(facts.graphics@);
    law_the_first_of_its_kind_is_found(facts.presents@);
}

/// What is said to be missing is missing, and whatever is asked for before it is there.
pub proof fn law_what_is_said_to_be_missing_is(facts: DeviceFacts)
    ensures
        facts.lacks() == Some("Missing required queue families"@)
            || QueueFamilyIndices::chosen(facts.graphics@, facts.presents@) is Some,
        QueueFamilyIndices::chosen(facts.graphics@, facts.presents@) is Some ==> {
            let features = facts.features;
            let available = texts(facts.extensions@);
            &&& !extensions_suffice(available) ==> facts.lacks() == Some(
                "Missing required device extensions"@,
            )
            &&& extensions_suffice(available) && !features.ray_tracing_pipeline ==> facts.lacks()
                == Some("Missing ray tracing pipeline feature"@)
            &&& extensions_suffice(available) && features.ray_tracing_pipeline
                && !features.acceleration_structure ==> facts.lacks() == Some(
                "Missing acceleration structure feature"@,
            )
            &&& extensions_suffice(available) && features.ray_tracing_pipeline
                && features.acceleration_structure && !features.scalar_block_layout
                ==> facts.lacks() == Some("Missing scalarBlockLayout feature"@)
            &&& extensions_suffice(available) && features.ray_tracing_pipeline
                && features.acceleration_structure && features.scalar_block_layout
                && !features.buffer_device_address ==> facts.lacks() == Some(
                "Missing buffer device address feature"@,
            )
            &&& extensions_suffice(available) && features.ray_tracing_pipeline
                && features.acceleration_structure && features.scalar_block_layout
                && features.buffer_device_address && (facts.format_count == 0
                || facts.present_mode_count == 0) ==> facts.lacks() == Some(
                "Insufficient swapchain support."@,
            )
        },
{
}

/// The instance has all extensions for the window, in their order, and behind them those for devices
/// that conform only in part and for validation, each only where it is asked for.
pub proof fn law_instances_have_what_is_asked_for(
    window: Seq<Seq<char>>,
    portability: bool,
    validation: bool,
)
    ensures
        ({
            let all = instance_extensions(window, portability, validation);
            let n = window.len() as int;
            &&& all.take(n) == window
            &&& portability ==> all[n] == "VK_KHR_get_physical_device_properties2"@ && all[n + 1]
                == "VK_KHR_portability_enumeration"@
            &&& validation ==> all.last() == "VK_EXT_debug_utils"@
            &&& all.len() == n + (if portability {
                2int
            } else {
                0
            }) + (if validation {
                1int
            } else {
                0
            })
        }),
        validation ==> validation_layers(validation).len() == 1 && validation_layers(validation)[0]
            == "VK_LAYER_KHRONOS_validation"@,
        !validation ==> validation_layers(validation).len() == 0,
{
    let all = instance_extensions(window, portability, validation);
    assert(all.take(window.len() as int) =~= window);
}

/// What is wrong is told in words.
pub proof fn law_device_errors_in_words(error: DeviceError)
    ensures
        error is ValidationLayerMissing ==> error.text()
            == "Validation layer requested but not supported"@,
        error is NoMemoryType ==> error.text() == "Failed to find suitable memory type."@,
        error is NoPhysicalDevice ==> error.text() == "Failed to find suitable physical device"@,
        error is ZeroGeometryAddress ==> error.text()
            == "Vertex or index buffer has a zero device address"@,
        error is ZeroInstanceAddress ==> error.text()
            == "TLAS instance buffer has a zero device address"@,
{
}

} // verus!
