use nuru_graph::device::{
    choosePresentMode, chooseSurfaceFormat, chooseSwapExtent, extensionsSupported, firstMatchingQueue,
    isDeviceSuitable, swapchainImageCount, uniqueQueueFamilies, Extent, GPUProperties, PresentMode, SurfaceFormat,
    COLOR_SPACE_SRGB_NONLINEAR, FORMAT_B8G8R8A8_SRGB,
};

#[test]
fn gpu_name_is_kept() {
    assert_eq!(GPUProperties::new("Test GPU".to_string()).name(), "Test GPU");
}

#[test]
fn first_matching_queue_family() {
    assert_eq!(firstMatchingQueue(&vec![false, true, true]), Some(1));
    assert_eq!(firstMatchingQueue(&vec![false, false]), None);
    assert_eq!(firstMatchingQueue(&vec![]), None);
}

#[test]
fn extension_support() {
    let available = vec!["VK_KHR_swapchain".to_string(), "VK_KHR_maintenance1".to_string()];
    assert!(extensionsSupported(&vec!["VK_KHR_swapchain".to_string()], &available));
    assert!(extensionsSupported(&vec![], &available));
    assert!(!extensionsSupported(&vec!["VK_KHR_swapchain".to_string(), "VK_EXT_other".to_string()], &available));
}

#[test]
fn suitability_needs_both_queues_and_extensions() {
    assert!(isDeviceSuitable(Some(0), Some(1), true));
    assert!(!isDeviceSuitable(None, Some(1), true));
    assert!(!isDeviceSuitable(Some(0), None, true));
    assert!(!isDeviceSuitable(Some(0), Some(0), false));
}

#[test]
fn queue_families_are_deduplicated() {
    assert_eq!(uniqueQueueFamilies(2, 2), vec![2]);
    assert_eq!(uniqueQueueFamilies(0, 3), vec![0, 3]);
}

#[test]
fn mailbox_is_preferred_over_fifo() {
    assert_eq!(choosePresentMode(&vec![PresentMode::Fifo, PresentMode::Mailbox]), PresentMode::Mailbox);
    assert_eq!(choosePresentMode(&vec![PresentMode::Immediate, PresentMode::Fifo]), PresentMode::Fifo);
    assert_eq!(choosePresentMode(&vec![]), PresentMode::Fifo);
}

#[test]
fn srgb_surface_format_is_chosen() {
    let wanted = SurfaceFormat { format: FORMAT_B8G8R8A8_SRGB, colorSpace: COLOR_SPACE_SRGB_NONLINEAR };
    let other = SurfaceFormat { format: 44, colorSpace: COLOR_SPACE_SRGB_NONLINEAR };
    assert_eq!(chooseSurfaceFormat(&vec![other, wanted]), Some(wanted));
    assert_eq!(chooseSurfaceFormat(&vec![other]), None);
}

#[test]
fn swap_extent_follows_surface_or_window() {
    let min = Extent { width: 100, height: 100 };
    let max = Extent { width: 1000, height: 800 };
    let fixed = Extent { width: 640, height: 480 };
    assert_eq!(chooseSwapExtent(fixed, min, max, Extent { width: 5, height: 5 }), fixed);
    let free = Extent { width: u32::MAX, height: u32::MAX };
    assert_eq!(chooseSwapExtent(free, min, max, Extent { width: 5000, height: 50 }), Extent { width: 1000, height: 100 });
    assert_eq!(chooseSwapExtent(free, min, max, Extent { width: 300, height: 200 }), Extent { width: 300, height: 200 });
}

#[test]
fn image_count_is_one_above_minimum_within_maximum() {
    assert_eq!(swapchainImageCount(2, 0), 3);
    assert_eq!(swapchainImageCount(2, 8), 3);
    assert_eq!(swapchainImageCount(3, 3), 3);
    assert_eq!(swapchainImageCount(u32::MAX, 0), u32::MAX);
}
