use park_engine::render::{
    device_suitable, instance_buffer_size, swapchain_settings, SwapchainError, align_up, choose_surface_format, min_image_count, physical_device_queue_families_info, select_physical_device,
    DeviceCandidate, QueueFamiliesInfo, QueueFamilySupport, SurfaceFormat,
};

fn fam(graphics: bool, transfer: bool, compute: bool, present: bool) -> QueueFamilySupport {
    QueueFamilySupport { graphics, transfer, compute, present }
}

fn info(g: u32, p: u32, t: u32) -> QueueFamiliesInfo {
    QueueFamiliesInfo { graphics_family_index: g, present_family_index: p, transfer_family_index: t }
}

#[test]
fn unique_family_indices_drop_repeats() {
    assert_eq!(info(0, 0, 0).unique_family_indices().to_vec(), vec![0]);
    assert_eq!(info(0, 1, 0).unique_family_indices().to_vec(), vec![0, 1]);
    assert_eq!(info(0, 1, 2).unique_family_indices().to_vec(), vec![0, 1, 2]);
    assert_eq!(info(2, 2, 1).unique_family_indices().to_vec(), vec![2, 1]);
    assert_eq!(info(0, 1, 1).unique_family_indices().to_vec(), vec![0, 1]);
}

#[test]
fn queue_families_prefer_graphics_with_present_and_dedicated_transfer() {
    let fams = [fam(true, true, true, false), fam(true, true, true, true), fam(false, true, false, false)];
    assert_eq!(physical_device_queue_families_info(&fams), Some(info(1, 1, 2)));
}

#[test]
fn queue_families_missing_present_gives_none() {
    let fams = [fam(true, true, true, false)];
    assert_eq!(physical_device_queue_families_info(&fams), None);
    assert_eq!(physical_device_queue_families_info(&[]), None);
}

#[test]
fn queue_families_separate_present_family() {
    let fams = [fam(true, true, true, false), fam(false, false, false, true)];
    assert_eq!(physical_device_queue_families_info(&fams), Some(info(0, 1, 0)));
}

#[test]
fn device_selection_prefers_discrete() {
    let a = DeviceCandidate { suitable: true, discrete: false, queue_families: info(0, 0, 0) };
    let b = DeviceCandidate { suitable: true, discrete: true, queue_families: info(1, 1, 1) };
    let c = DeviceCandidate { suitable: false, discrete: true, queue_families: info(2, 2, 2) };
    assert_eq!(select_physical_device(&[a, b, c]), Some((1, info(1, 1, 1))));
    assert_eq!(select_physical_device(&[a, c]), Some((0, info(0, 0, 0))));
    assert_eq!(select_physical_device(&[c]), None);
}

#[test]
fn surface_format_prefers_bgra_srgb() {
    let other = SurfaceFormat { format: 44, color_space: 0 };
    let preferred = SurfaceFormat { format: 30, color_space: 0 };
    assert_eq!(choose_surface_format(&[other, preferred]), Some(preferred));
    assert_eq!(choose_surface_format(&[other]), Some(other));
    assert_eq!(choose_surface_format(&[]), None);
}

#[test]
fn image_count_is_one_more_than_minimum_within_maximum() {
    assert_eq!(min_image_count(2, 0), 3);
    assert_eq!(min_image_count(2, 8), 3);
    assert_eq!(min_image_count(3, 3), 3);
}

#[test]
fn align_up_rounds_to_alignment() {
    assert_eq!(align_up(100, 64), 128);
    assert_eq!(align_up(128, 64), 128);
    assert_eq!(align_up(0, 256), 0);
    assert_eq!(align_up(1, 1), 1);
}

#[test]
fn swapchain_settings_refuse_separate_present_family() {
    let preferred = SurfaceFormat { format: 30, color_space: 0 };
    assert_eq!(swapchain_settings(info(0, 1, 0), &[preferred], 2, 0), Err(SwapchainError::SeparatePresentFamily));
    assert_eq!(swapchain_settings(info(0, 0, 1), &[], 2, 0), Err(SwapchainError::NoSurfaceFormat));
    assert_eq!(swapchain_settings(info(0, 0, 1), &[preferred], 2, 3), Ok((preferred, 3)));
}

#[test]
fn device_suitability_needs_every_part() {
    let swapchain = b"VK_KHR_swapchain".to_vec();
    let other = b"VK_KHR_other".to_vec();
    let req = [swapchain.clone()];
    let fams = Some(info(0, 0, 0));
    assert!(device_suitable(&req, &[other.clone(), swapchain.clone()], fams, true, 1, 1));
    assert!(!device_suitable(&req, &[other.clone()], fams, true, 1, 1));
    assert!(!device_suitable(&req, &[swapchain.clone()], None, true, 1, 1));
    assert!(!device_suitable(&req, &[swapchain.clone()], fams, false, 1, 1));
    assert!(!device_suitable(&req, &[swapchain.clone()], fams, true, 0, 1));
    assert!(!device_suitable(&req, &[swapchain.clone()], fams, true, 1, 0));
    assert!(device_suitable(&[], &[], fams, true, 2, 3));
}

#[test]
fn instance_buffer_holds_four_aligned_slots() {
    assert_eq!(instance_buffer_size(64, 256), (256, 1024));
    assert_eq!(instance_buffer_size(300, 256), (512, 2048));
    assert_eq!(instance_buffer_size(64, 64), (64, 256));
}
