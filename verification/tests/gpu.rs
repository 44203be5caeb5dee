use rosten::gpu::{
    choose_image_count, choose_present_mode, choose_surface_format, clamp_extent_axis,
    device_type_score, find_queue_indices, is_device_suitable, DeviceClass, QueueFamilyInfo,
};

fn fam(graphics: bool, transfer: bool, surface_support: bool) -> QueueFamilyInfo {
    QueueFamilyInfo { graphics, transfer, surface_support }
}

#[test]
fn queue_indices_pick_first_match_per_role() {
    let families = vec![
        fam(true, true, true),   // graphics + present, but not dedicated transfer
        fam(false, true, false), // dedicated transfer
        fam(false, true, true),
    ];
    let indices = find_queue_indices(&families);
    assert_eq!(indices.graphics_queue, Some(0));
    assert_eq!(indices.present_queue, Some(0));
    assert_eq!(indices.transfer_queue, Some(1));
    assert!(indices.is_complete());
}

#[test]
fn queue_indices_incomplete_without_dedicated_transfer() {
    let families = vec![fam(true, true, true)];
    let indices = find_queue_indices(&families);
    assert_eq!(indices.graphics_queue, Some(0));
    assert_eq!(indices.transfer_queue, None);
    assert!(!indices.is_complete());
}

#[test]
fn device_suitability_needs_graphics_and_present() {
    let good = vec![fam(true, false, true)];
    let no_present = vec![fam(true, false, false)];
    assert!(is_device_suitable(true, true, &good));
    assert!(!is_device_suitable(true, true, &no_present));
    assert!(!is_device_suitable(false, true, &good));
    assert!(!is_device_suitable(true, false, &good));
}

#[test]
fn device_ranking_prefers_discrete() {
    assert_eq!(device_type_score(DeviceClass::DiscreteGpu), 0);
    assert_eq!(device_type_score(DeviceClass::IntegratedGpu), 1);
    assert_eq!(device_type_score(DeviceClass::VirtualGpu), 2);
    assert_eq!(device_type_score(DeviceClass::Cpu), 3);
    assert_eq!(device_type_score(DeviceClass::Other), 4);
}

#[test]
fn image_count_is_min_plus_one_capped() {
    assert_eq!(choose_image_count(2, None), 3);
    assert_eq!(choose_image_count(2, Some(8)), 3);
    assert_eq!(choose_image_count(2, Some(3)), 3);
    assert_eq!(choose_image_count(2, Some(2)), 2);
}

#[test]
fn extent_axis_clamps_into_surface_range() {
    assert_eq!(clamp_extent_axis(500, 600, 4096), 600);
    assert_eq!(clamp_extent_axis(5000, 600, 4096), 4096);
    assert_eq!(clamp_extent_axis(800, 600, 4096), 800);
}

#[test]
fn surface_format_prefers_exact_pair_else_first() {
    let formats = vec![(10, 1), (44, 0), (44, 1)];
    assert_eq!(choose_surface_format(&formats, 44, 1), (44, 1));
    assert_eq!(choose_surface_format(&formats, 99, 1), (10, 1));
}

#[test]
fn present_mode_prefers_lowest_positive_code() {
    // code zero wraps to the largest key and is chosen last
    assert_eq!(choose_present_mode(&vec![0, 2, 1]), 1);
    assert_eq!(choose_present_mode(&vec![0, 3]), 3);
    assert_eq!(choose_present_mode(&vec![0]), 0);
}
