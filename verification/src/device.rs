//! The choice of a graphics device, of a queue and of the length of the swapchain.
use vstd::prelude::*;

verus! {

/// What a physical device says of itself: whether it can present to a window,
/// and which of its queue families take graphics commands.
#[derive(Debug)]
pub struct DeviceInfo {
    pub khr_swapchain: bool,
    pub graphics: Vec<bool>,
}

/// The search for a device and a queue family that can draw to the surface.
///
/// Only the driver knows whether a family supports the surface, so the search
/// asks about one family at a time.
#[derive(Clone, Copy, Debug, PartialEq, Eq, Structural)]
pub enum DeviceSearch {
    /// Does this family of this device support the surface?
    Query { device: usize, family: usize },
    /// This family of this device will do.
    Found { device: usize, family: usize },
    /// No device will do.
    Exhausted,
}

/// The family is worth asking about: its device can present, and it takes
/// graphics commands.
pub open spec fn candidate(devices: Seq<DeviceInfo>, d: int, f: int) -> bool {
    &&& 0 <= d < devices.len()
    &&& devices[d].khr_swapchain
    &&& 0 <= f < devices[d].graphics.len()
    &&& devices[d].graphics[f]
}

/// Family `f` of device `d` is asked about before family `f2` of device `d2`.
pub open spec fn precedes(d: int, f: int, d2: int, f2: int) -> bool {
    d < d2 || (d == d2 && f < f2)
}

/// `next` asks about the first candidate that does not precede family `f` of
/// device `d`, or gives up because there is none.
pub open spec fn is_next(devices: Seq<DeviceInfo>, d: int, f: int, next: DeviceSearch) -> bool {
    match next {
        DeviceSearch::Query { device, family } => {
            &&& candidate(devices, device as int, family as int)
            &&& !precedes(device as int, family as int, d, f)
            &&& forall|d2: int, f2: int| #[trigger]
                candidate(devices, d2, f2) && precedes(d2, f2, device as int, family as int)
                    ==> precedes(d2, f2, d, f)
        },
        DeviceSearch::Found { .. } => false,
        DeviceSearch::Exhausted => forall|d2: int, f2: int| #[trigger]
            candidate(devices, d2, f2) ==> precedes(d2, f2, d, f),
    }
}

/// No candidate before family `f` of device `d` supports the surface.
pub open spec fn none_before(
    devices: Seq<DeviceInfo>,
    supported: spec_fn(int, int) -> bool,
    d: int,
    f: int,
) -> bool {
    forall|d2: int, f2: int| #[trigger]
        candidate(devices, d2, f2) && precedes(d2, f2, d, f) ==> !supported(d2, f2)
}

/// The search is on its way to the first candidate that supports the surface,
/// or has found it, or there is none.
pub open spec fn on_track(
    devices: Seq<DeviceInfo>,
    supported: spec_fn(int, int) -> bool,
    search: DeviceSearch,
) -> bool {
    match search {
        DeviceSearch::Query { device, family } => {
            &&& candidate(devices, device as int, family as int)
            &&& none_before(devices, supported, device as int, family as int)
        },
        DeviceSearch::Found { device, family } => {
            &&& candidate(devices, device as int, family as int)
            &&& supported(device as int, family as int)
            &&& none_before(devices, supported, device as int, family as int)
        },
        DeviceSearch::Exhausted => forall|d: int, f: int| #[trigger]
            candidate(devices, d, f) ==> !supported(d, f),
    }
}

/// What the search becomes once a question is answered.
pub open spec fn is_answered(
    devices: Seq<DeviceInfo>,
    search: DeviceSearch,
    supported: bool,
    next: DeviceSearch,
) -> bool {
    match search {
        DeviceSearch::Query { device, family } => if supported {
            next == (DeviceSearch::Found { device, family })
        } else {
            is_next(devices, device as int, family + 1, next)
        },
        _ => next == search,
    }
}

/// A family is a candidate if and only if its device is one of the list and can
/// present, and the family is one of the device's and takes graphics commands.
pub proof fn law_candidates_by_what_devices_say(devices: Seq<DeviceInfo>, d: int, f: int)
    ensures
        candidate(devices, d, f) <==> {
            &&& 0 <= d < devices.len()
            &&& 0 <= f < devices[d].graphics@.len()
            &&& devices[d].khr_swapchain
            &&& devices[d].graphics@[f]
        },
{
}

/// The first question is about the first graphics family of the first device
/// that can present and has one, the very first included; there is none only if
/// no device that can present has a graphics family.
pub proof fn law_first_question(devices: Seq<DeviceInfo>, search: DeviceSearch)
    requires
        is_next(devices, 0, 0, search),
    ensures
        search !is Found,
        search matches DeviceSearch::Query { device, family } ==> {
            &&& device < devices.len()
            &&& devices[device as int].khr_swapchain
            &&& family < devices[device as int].graphics@.len()
            &&& devices[device as int].graphics@[family as int]
            &&& forall|f: int| 0 <= f < family ==> !devices[device as int].graphics@[f]
            &&& forall|d: int, f: int|
                0 <= d < device && devices[d].khr_swapchain && 0 <= f
                    < devices[d].graphics@.len() ==> !#[trigger] devices[d].graphics@[f]
        },
        search is Exhausted ==> forall|d: int, f: int|
            0 <= d < devices.len() && devices[d].khr_swapchain && 0 <= f
                < devices[d].graphics@.len() ==> !#[trigger] devices[d].graphics@[f],
{
    match search {
        DeviceSearch::Query { device, family } => {
            assert forall|f: int| 0 <= f < family implies !devices[device as int].graphics@[f] by {
                assert(!candidate(devices, device as int, f));
            }
            assert forall|d: int, f: int|
                0 <= d < device && devices[d].khr_swapchain && 0 <= f
                    < devices[d].graphics@.len() implies !#[trigger] devices[d].graphics@[f] by {
                assert(!candidate(devices, d, f));
            }
        },
        _ => {
            assert forall|d: int, f: int|
                0 <= d < devices.len() && devices[d].khr_swapchain && 0 <= f
                    < devices[d].graphics@.len() implies !#[trigger] devices[d].graphics@[f] by {
                assert(!candidate(devices, d, f));
            }
        },
    }
}

/// After a no, the next question is about the first graphics family further on,
/// of the same device or of a later one that can present; there is none only if
/// no such family is left.
pub proof fn law_question_after_a_no(
    devices: Seq<DeviceInfo>,
    device: usize,
    family: usize,
    next: DeviceSearch,
)
    requires
        device < devices.len(),
        devices[device as int].khr_swapchain,
        is_answered(devices, DeviceSearch::Query { device, family }, false, next),
    ensures
        next !is Found,
        next matches DeviceSearch::Query { device: d2, family: f2 } ==> {
            &&& d2 < devices.len()
            &&& devices[d2 as int].khr_swapchain
            &&& f2 < devices[d2 as int].graphics@.len()
            &&& devices[d2 as int].graphics@[f2 as int]
            &&& device < d2 || (device == d2 && family < f2)
            &&& forall|d: int, f: int|
                0 <= d < devices.len() && devices[d].khr_swapchain && 0 <= f
                    < devices[d].graphics@.len() && (device < d || (device == d && family < f)) && (
                d < d2 || (d == d2 && f < f2)) ==> !#[trigger] devices[d].graphics@[f]
        },
        next is Exhausted ==> forall|d: int, f: int|
            0 <= d < devices.len() && devices[d].khr_swapchain && 0 <= f
                < devices[d].graphics@.len() && (device < d || (device == d && family < f))
                ==> !#[trigger] devices[d].graphics@[f],
{
    assert forall|d: int, f: int|
        0 <= d < devices.len() && devices[d].khr_swapchain && 0 <= f
            < devices[d].graphics@.len() && #[trigger] devices[d].graphics@[f] implies candidate(
        devices,
        d,
        f,
    ) by {}
}

/// A yes ends the search with the family that was asked about; an ended search
/// stays as it is.
pub proof fn law_yes_ends_the_search(
    devices: Seq<DeviceInfo>,
    device: usize,
    family: usize,
    answer: bool,
    next: DeviceSearch,
)
    ensures
        is_answered(devices, DeviceSearch::Query { device, family }, true, next) <==> next == (
        DeviceSearch::Found { device, family }),
        is_answered(devices, DeviceSearch::Found { device, family }, answer, next) <==> next == (
        DeviceSearch::Found { device, family }),
        is_answered(devices, DeviceSearch::Exhausted, answer, next) <==> next
            == DeviceSearch::Exhausted,
{
}

/// A search on track that ends has found the first family, of the first device,
/// that presents, takes graphics commands and supports the surface; it gives up
/// only if no family of any device does.
pub proof fn law_search_finds_what_there_is(
    devices: Seq<DeviceInfo>,
    supported: spec_fn(int, int) -> bool,
    search: DeviceSearch,
)
    requires
        on_track(devices, supported, search),
    ensures
        search matches DeviceSearch::Found { device, family } ==> {
            &&& device < devices.len()
            &&& devices[device as int].khr_swapchain
            &&& family < devices[device as int].graphics@.len()
            &&& devices[device as int].graphics@[family as int]
            &&& supported(device as int, family as int)
            &&& forall|d: int, f: int|
                0 <= d < devices.len() && 0 <= f < devices[d].graphics@.len() && (d < device || (d
                    == device && f < family)) && devices[d].khr_swapchain
                    && #[trigger] devices[d].graphics@[f] ==> !supported(d, f)
        },
        search is Exhausted ==> forall|d: int, f: int|
            0 <= d < devices.len() && 0 <= f < devices[d].graphics@.len()
                && devices[d].khr_swapchain && #[trigger] devices[d].graphics@[f] ==> !supported(
                d,
                f,
            ),
{
    assert forall|d: int, f: int|
        0 <= d < devices.len() && 0 <= f < devices[d].graphics@.len() && devices[d].khr_swapchain
            && #[trigger] devices[d].graphics@[f] implies candidate(devices, d, f) by {}
}

/// A search starts on track, whatever the driver will answer.
pub proof fn law_search_starts_on_track(
    devices: Seq<DeviceInfo>,
    supported: spec_fn(int, int) -> bool,
    search: DeviceSearch,
)
    requires
        is_next(devices, 0, 0, search),
    ensures
        on_track(devices, supported, search),
{
}

/// Truthful answers keep a search on track, so that it finds the first device,
/// and of that device the first family, that will do.
pub proof fn law_answers_keep_search_on_track(
    devices: Seq<DeviceInfo>,
    supported: spec_fn(int, int) -> bool,
    search: DeviceSearch,
    answer: bool,
    next: DeviceSearch,
)
    requires
        on_track(devices, supported, search),
        search matches DeviceSearch::Query { device, family } ==> answer == supported(
            device as int,
            family as int,
        ),
        is_answered(devices, search, answer, next),
    ensures
        on_track(devices, supported, next),
{
}

/// A search that has ended on track could not have ended otherwise.
pub proof fn law_search_has_one_outcome(
    devices: Seq<DeviceInfo>,
    supported: spec_fn(int, int) -> bool,
    one: DeviceSearch,
    other: DeviceSearch,
)
    requires
        on_track(devices, supported, one),
        on_track(devices, supported, other),
        one !is Query,
        other !is Query,
    ensures
        one == other,
{
    match (one, other) {
        (
            DeviceSearch::Found { device: d1, family: f1 },
            DeviceSearch::Found { device: d2, family: f2 },
        ) => {
            assert(candidate(devices, d1 as int, f1 as int));
            assert(candidate(devices, d2 as int, f2 as int));
        },
        (DeviceSearch::Found { device, family }, _) => {
            assert(candidate(devices, device as int, family as int));
        },
        (_, DeviceSearch::Found { device, family }) => {
            assert(candidate(devices, device as int, family as int));
        },
        _ => {},
    }
}

/// The question that comes first, or that none is left, from family `family` of
/// device `device` on.
fn next_query(devices: &Vec<DeviceInfo>, device: usize, family: usize) -> (r: DeviceSearch)
    ensures
        is_next(devices@, device as int, family as int, r),
{
    let mut d: usize = device;
    let mut first: usize = family;
    while d < devices.len()
        invariant
            device <= d,
            d > device ==> first == 0,
            d == device ==> first == family,
            forall|d2: int, f2: int| #[trigger]
                candidate(devices@, d2, f2) && d2 < d ==> precedes(
                    d2,
                    f2,
                    device as int,
                    family as int,
                ),
        decreases devices.len() - d,
    {
        if devices[d].khr_swapchain {
            let mut f: usize = first;
            while f < devices[d].graphics.len()
                invariant
                    device <= d < devices.len(),
                    devices[d as int].khr_swapchain,
                    d > device ==> first == 0,
                    d == device ==> first == family,
                    first <= f,
                    forall|d2: int, f2: int| #[trigger]
                        candidate(devices@, d2, f2) && precedes(d2, f2, d as int, f as int)
                            ==> precedes(d2, f2, device as int, family as int),
                decreases devices[d as int].graphics.len() - f,
            {
                if devices[d].graphics[f] {
                    return DeviceSearch::Query { device: d, family: f };
                }
                f = f + 1;
            }
        }
        first = 0;
        d = d + 1;
    }
    DeviceSearch::Exhausted
}

impl DeviceSearch {
    /// Begins the search, at the first family of the first device.
    pub fn start(devices: &Vec<DeviceInfo>) -> (r: Self)
        ensures
            is_next(devices@, 0, 0, r),
    {
        next_query(devices, 0, 0)
    }

    /// Takes the answer to the question that the search asks, and asks the next
    /// one unless the answer was yes.
    pub fn answer(self, devices: &Vec<DeviceInfo>, supported: bool) -> (r: Self)
        requires
            self matches DeviceSearch::Query { device, family } ==> candidate(
                devices@,
                device as int,
                family as int,
            ),
        ensures
            is_answered(devices@, self, supported, r),
    {
        match self {
            DeviceSearch::Query { device, family } => {
                if supported {
                    DeviceSearch::Found { device, family }
                } else {
                    next_query(devices, device, family + 1)
                }
            },
            _ => self,
        }
    }
}

/// The position of the first queue of the family `wanted`, where `families`
/// lists the families of the queues.
pub fn find_queue(families: &Vec<u32>, wanted: u32) -> (r: Option<usize>)
    ensures
        match r {
            Some(i) => {
                &&& i < families.len()
                &&& families[i as int] == wanted
                &&& forall|j: int| 0 <= j < i ==> families[j] != wanted
            },
            None => forall|j: int| 0 <= j < families.len() ==> families[j] != wanted,
        },
{
    let mut i: usize = 0;
    while i < families.len()
        invariant
            i <= families.len(),
            forall|j: int| 0 <= j < i ==> families[j] != wanted,
        decreases families.len() - i,
    {
        if families[i] == wanted {
            return Some(i);
        }
        i = i + 1;
    }
    None
}

/// The number of images to ask of a swapchain: one more than the surface needs,
/// or as many as it allows if that is fewer.
pub fn swapchain_image_count(min_image_count: u32, max_image_count: Option<u32>) -> (count: u32)
    requires
        min_image_count < u32::MAX,
    ensures
        count == match max_image_count {
            Some(max) if max <= min_image_count => max as int,
            _ => min_image_count + 1,
        },
        max_image_count matches Some(max) ==> count <= max,
        (max_image_count matches Some(max) ==> min_image_count <= max) ==> min_image_count
            <= count,
{
    let extra_image_count: u32 = min_image_count + 1;
    let most: u32 = max_image_count.unwrap_or(extra_image_count);
    if most < extra_image_count {
        most
    } else {
        extra_image_count
    }
}

} // verus!
