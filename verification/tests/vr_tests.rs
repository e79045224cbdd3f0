use park_engine::vr::{
    check_xr_system, runtime_version_outdated, session_renders, session_state_changed, xr_frame_action, ViewConfig, VrError,
    XrFrameAction, XrSessionAction, XrSessionState, XrVersion,
};

fn view(w: u32) -> ViewConfig {
    ViewConfig {
        recommended_image_rect_width: w,
        max_image_rect_width: 4096,
        recommended_image_rect_height: 1000,
        max_image_rect_height: 4096,
        recommended_swapchain_sample_count: 1,
        max_swapchain_sample_count: 4,
    }
}

fn v(major: u16, minor: u16, patch: u32) -> XrVersion {
    XrVersion { major, minor, patch }
}

#[test]
fn xr_system_with_two_equal_views_is_accepted() {
    assert_eq!(check_xr_system(true, v(1, 0, 0), &[3, 1], &[view(900), view(900)]), Ok(view(900)));
}

#[test]
fn xr_system_checks_in_order() {
    let views = [view(900), view(900)];
    assert_eq!(check_xr_system(false, v(2, 0, 0), &[], &[]), Err(VrError::ExtensionUnavailable));
    assert_eq!(check_xr_system(true, v(1, 3, 1), &[1], &views), Err(VrError::VulkanTooOld(v(1, 3, 1))));
    assert_eq!(check_xr_system(true, v(1, 0, 0), &[1], &views), Ok(view(900)));
    assert_eq!(check_xr_system(true, v(1, 0, 0), &[2, 3], &views), Err(VrError::NoOpaqueBlendMode));
    assert_eq!(
        check_xr_system(true, v(1, 0, 0), &[1], &[view(900), view(901)]),
        Err(VrError::InvalidViewConfiguration)
    );
    assert_eq!(check_xr_system(true, v(1, 0, 0), &[1], &[view(900)]), Err(VrError::InvalidViewConfiguration));
}

#[test]
fn outdated_runtime_is_only_flagged() {
    assert!(runtime_version_outdated(v(1, 2, 9)));
    assert!(!runtime_version_outdated(v(1, 3, 0)));
    assert!(!runtime_version_outdated(v(2, 0, 0)));
}

#[test]
fn session_state_changes_and_frames() {
    assert_eq!(session_state_changed(XrSessionState::Unknown, XrSessionState::Idle), XrSessionAction::Nothing);
    assert_eq!(session_state_changed(XrSessionState::Idle, XrSessionState::Ready), XrSessionAction::Begin);
    assert_eq!(session_state_changed(XrSessionState::Focused, XrSessionState::Stopping), XrSessionAction::End);
    assert_eq!(session_state_changed(XrSessionState::Ready, XrSessionState::Visible), XrSessionAction::Nothing);
    assert!(session_renders(XrSessionState::Focused));
    assert!(!session_renders(XrSessionState::Idle));
    assert_eq!(xr_frame_action(XrSessionState::Stopping, true), XrFrameAction::WindowOnly);
    assert_eq!(xr_frame_action(XrSessionState::Ready, false), XrFrameAction::EmptyFrame);
    assert_eq!(xr_frame_action(XrSessionState::Visible, true), XrFrameAction::RenderViews);
}
