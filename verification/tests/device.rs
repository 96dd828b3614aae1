use game_of_life::device::{find_queue, swapchain_image_count, DeviceInfo, DeviceSearch};

fn devices() -> Vec<DeviceInfo> {
    vec![
        DeviceInfo { khr_swapchain: false, graphics: vec![true, true] },
        DeviceInfo { khr_swapchain: true, graphics: vec![] },
        DeviceInfo { khr_swapchain: true, graphics: vec![false, true, false, true] },
        DeviceInfo { khr_swapchain: true, graphics: vec![true] },
    ]
}

/// Runs a search whose driver supports the surface on the families listed, and
/// tells what it asked.
fn run(supported: &[(usize, usize)]) -> (Vec<(usize, usize)>, DeviceSearch) {
    let infos = devices();
    let mut asked = Vec::new();
    let mut search = DeviceSearch::start(&infos);
    while let DeviceSearch::Query { device, family } = search {
        asked.push((device, family));
        search = search.answer(&infos, supported.contains(&(device, family)));
    }
    (asked, search)
}

#[test]
fn search_asks_about_graphics_families_of_presenting_devices_in_order() {
    let (asked, end) = run(&[]);
    assert_eq!(asked, [(2, 1), (2, 3), (3, 0)]);
    assert_eq!(end, DeviceSearch::Exhausted);
}

#[test]
fn search_stops_at_the_first_that_will_do() {
    let (asked, end) = run(&[(3, 0), (2, 3), (0, 0)]);
    assert_eq!(asked, [(2, 1), (2, 3)]);
    assert_eq!(end, DeviceSearch::Found { device: 2, family: 3 });
    let (asked, end) = run(&[(3, 0)]);
    assert_eq!(asked.len(), 3);
    assert_eq!(end, DeviceSearch::Found { device: 3, family: 0 });
}

#[test]
fn families_that_were_not_asked_about_do_not_count() {
    let (_, end) = run(&[(0, 0), (0, 1), (2, 0), (2, 2)]);
    assert_eq!(end, DeviceSearch::Exhausted);
}

#[test]
fn search_without_devices_is_exhausted() {
    assert_eq!(DeviceSearch::start(&vec![]), DeviceSearch::Exhausted);
}

#[test]
fn ended_search_stays_as_it_is() {
    let infos = devices();
    let found = DeviceSearch::Found { device: 2, family: 1 };
    assert_eq!(found.answer(&infos, false), found);
    assert_eq!(DeviceSearch::Exhausted.answer(&infos, true), DeviceSearch::Exhausted);
}

#[test]
fn first_queue_of_the_family_is_found() {
    assert_eq!(find_queue(&vec![3, 1, 2, 1], 1), Some(1));
    assert_eq!(find_queue(&vec![3, 1, 2, 1], 3), Some(0));
    assert_eq!(find_queue(&vec![3, 1, 2, 1], 0), None);
    assert_eq!(find_queue(&vec![], 0), None);
}

#[test]
fn swapchain_has_one_image_to_spare_if_allowed() {
    assert_eq!(swapchain_image_count(2, None), 3);
    assert_eq!(swapchain_image_count(2, Some(8)), 3);
    assert_eq!(swapchain_image_count(2, Some(3)), 3);
    assert_eq!(swapchain_image_count(2, Some(2)), 2);
    assert_eq!(swapchain_image_count(0, None), 1);
}
