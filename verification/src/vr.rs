use vstd::prelude::*;

verus! {

/// An OpenXR version: major, minor and patch.
#[derive(Clone, Copy, PartialEq, Eq, Structural, Debug)]
pub struct XrVersion {
    pub major: u16,
    pub minor: u16,
    pub patch: u32,
}

/// The Vulkan version that the renderer uses: 1.3.0.
pub open spec fn renderer_version() -> XrVersion {
    XrVersion { major: 1, minor: 3, patch: 0 }
}

/// Whether version `a` comes before version `b`.
pub open spec fn version_before(a: XrVersion, b: XrVersion) -> bool {
    a.major < b.major || (a.major == b.major && (a.minor < b.minor || (a.minor == b.minor && a.patch < b.patch)))
}

/// The value of the opaque environment blend mode.
pub const OPAQUE_BLEND_MODE: i32 = 1;

/// What a view of the view configuration recommends and allows.
#[derive(Clone, Copy, PartialEq, Eq, Structural, Debug)]
pub struct ViewConfig {
    pub recommended_image_rect_width: u32,
    pub max_image_rect_width: u32,
    pub recommended_image_rect_height: u32,
    pub max_image_rect_height: u32,
    pub recommended_swapchain_sample_count: u32,
    pub max_swapchain_sample_count: u32,
}

/// Why an OpenXR system cannot be used.
#[derive(Clone, Copy, PartialEq, Eq, Structural, Debug)]
pub enum VrError {
    /// The runtime does not offer the Vulkan enable extension.
    ExtensionUnavailable,
    /// The runtime needs a Vulkan version newer than the renderer's; the minimum it supports.
    VulkanTooOld(XrVersion),
    /// No opaque blend mode.
    NoOpaqueBlendMode,
    /// Not exactly two views, or two views that differ.
    InvalidViewConfiguration,
}

/// The outcome of checking an OpenXR system: the extension must be there,
/// the oldest Vulkan version the runtime supports must be no newer than the
/// renderer's, an opaque blend mode must be offered, and there must be exactly two equal
/// views, whose configuration is the result; the first check that fails
/// gives the error. A runtime whose newest supported version is older than
/// the renderer's is accepted (see `runtime_version_outdated`).
pub open spec fn spec_check_xr_system(
    vulkan_enable2: bool,
    min_version: XrVersion,
    blend_modes: Seq<i32>,
    views: Seq<ViewConfig>,
) -> Result<ViewConfig, VrError> {
    if !vulkan_enable2 {
        Err(VrError::ExtensionUnavailable)
    } else if version_before(renderer_version(), min_version) {
        Err(VrError::VulkanTooOld(min_version))
    } else if !blend_modes.contains(OPAQUE_BLEND_MODE) {
        Err(VrError::NoOpaqueBlendMode)
    } else if views.len() != 2 || views[0] != views[1] {
        Err(VrError::InvalidViewConfiguration)
    } else {
        Ok(views[0])
    }
}

/// Versions are ordered (law): no version comes before itself, the order is
/// transitive, and of two different versions one comes before the other.
pub proof fn law_version_order(a: XrVersion, b: XrVersion, c: XrVersion)
    ensures
        !version_before(a, a),
        version_before(a, b) && version_before(b, c) ==> version_before(a, c),
        a != b ==> version_before(a, b) || version_before(b, a),
        version_before(a, b) ==> !version_before(b, a),
{
}

/// Which systems are accepted (law): exactly those with the Vulkan enable
/// extension, whose oldest supported Vulkan version is no newer than the
/// renderer's, that offer the opaque blend mode and that have exactly two
/// equal views; the view configuration returned is that of those views.
pub proof fn law_xr_system_accepted(
    vulkan_enable2: bool,
    min_version: XrVersion,
    blend_modes: Seq<i32>,
    views: Seq<ViewConfig>,
)
    ensures
        spec_check_xr_system(vulkan_enable2, min_version, blend_modes, views) is Ok <==> {
            &&& vulkan_enable2
            &&& !version_before(renderer_version(), min_version)
            &&& blend_modes.contains(OPAQUE_BLEND_MODE)
            &&& views.len() == 2
            &&& views[0] == views[1]
        },
        spec_check_xr_system(vulkan_enable2, min_version, blend_modes, views) matches Ok(v) ==> v == views[0]
            && v == views[1],
        vulkan_enable2 && version_before(renderer_version(), min_version) ==> spec_check_xr_system(
            vulkan_enable2,
            min_version,
            blend_modes,
            views,
        ) == Err::<ViewConfig, VrError>(VrError::VulkanTooOld(min_version)),
{
}

/// Whether the newest Vulkan version that the runtime supports, `max_version`,
/// is older than the renderer's, which deserves a warning but no refusal.
pub fn runtime_version_outdated(max_version: XrVersion) -> (r: bool)
    ensures
        r == version_before(max_version, renderer_version()),
{
    is_before(max_version, XrVersion { major: 1, minor: 3, patch: 0 })
}

/// Whether version `a` comes before version `b`.
fn is_before(a: XrVersion, b: XrVersion) -> (r: bool)
    ensures
        r == version_before(a, b),
{
    a.major < b.major || (a.major == b.major && (a.minor < b.minor || (a.minor == b.minor && a.patch < b.patch)))
}

/// Checks what an OpenXR system offers: whether it has the Vulkan enable
/// extension, the oldest Vulkan version it supports, its blend modes, and
/// its views. Returns the view configuration to render with.
pub fn check_xr_system(
    vulkan_enable2: bool,
    min_version: XrVersion,
    blend_modes: &[i32],
    views: &[ViewConfig],
) -> (r: Result<ViewConfig, VrError>)
    ensures
        r == spec_check_xr_system(vulkan_enable2, min_version, blend_modes@, views@),
{
    let renderer = XrVersion { major: 1, minor: 3, patch: 0 };
    if !vulkan_enable2 {
        return Err(VrError::ExtensionUnavailable);
    }
    if is_before(renderer, min_version) {
        return Err(VrError::VulkanTooOld(min_version));
    }
    let mut found = false;
    let mut i: usize = 0;
    while i < blend_modes.len()
        invariant
            i <= blend_modes@.len(),
            found <==> blend_modes@.take(i as int).contains(OPAQUE_BLEND_MODE),
        decreases blend_modes@.len() - i,
    {
        proof {
            let t = blend_modes@.take(i + 1);
            assert(t.drop_last() =~= blend_modes@.take(i as int));
            if t.contains(OPAQUE_BLEND_MODE) {
                let k = choose|k: int| 0 <= k < t.len() && t[k] == OPAQUE_BLEND_MODE;
                if k < i {
                    assert(blend_modes@.take(i as int)[k] == OPAQUE_BLEND_MODE);
                }
            }
            if blend_modes@.take(i as int).contains(OPAQUE_BLEND_MODE) {
                let k = choose|k: int| 0 <= k < i && blend_modes@.take(i as int)[k] == OPAQUE_BLEND_MODE;
                assert(t[k] == OPAQUE_BLEND_MODE);
            }
            assert(t[i as int] == blend_modes@[i as int]);
        }
        if blend_modes[i] == OPAQUE_BLEND_MODE {
            found = true;
        }
        i = i + 1;
    }
    assert(blend_modes@.take(i as int) =~= blend_modes@);
    if !found {
        return Err(VrError::NoOpaqueBlendMode);
    }
    if views.len() != 2 || views[0] != views[1] {
        return Err(VrError::InvalidViewConfiguration);
    }
    Ok(views[0])
}


/// The states of an OpenXR session.
#[derive(Clone, Copy, PartialEq, Eq, Structural, Debug)]
pub enum XrSessionState {
    Unknown,
    Idle,
    Ready,
    Synchronized,
    Visible,
    Focused,
    Stopping,
    LossPending,
    Exiting,
}

/// What to do with the session when its state changes.
#[derive(Clone, Copy, PartialEq, Eq, Structural, Debug)]
pub enum XrSessionAction {
    Nothing,
    Begin,
    End,
}

/// Whether a session in `state` renders frames to the headset.
pub open spec fn spec_session_renders(state: XrSessionState) -> bool {
    state is Ready || state is Synchronized || state is Visible || state is Focused
}

/// Whether a session in `state` renders frames to the headset: it is ready,
/// synchronized, visible or focused. Otherwise only the window is drawn.
pub fn session_renders(state: XrSessionState) -> (r: bool)
    ensures
        r == spec_session_renders(state),
{
    match state {
        XrSessionState::Ready | XrSessionState::Synchronized | XrSessionState::Visible | XrSessionState::Focused => true,
        _ => false,
    }
}

/// Whether the session can move from `current` to `new`: the game handles
/// the idle state only as the first one, and neither a pending loss nor an
/// exit, nor a change to the unknown state.
pub open spec fn state_change_ok(current: XrSessionState, new: XrSessionState) -> bool {
    match new {
        XrSessionState::Idle => current is Unknown,
        XrSessionState::Unknown | XrSessionState::LossPending | XrSessionState::Exiting => false,
        _ => true,
    }
}

/// What to do when the session changes from `current` to `new`: begin the
/// session when it becomes ready, end it when it is stopping, and nothing
/// otherwise. The session's state is then `new`.
pub fn session_state_changed(current: XrSessionState, new: XrSessionState) -> (r: XrSessionAction)
    requires
        state_change_ok(current, new),
    ensures
        r == match new {
            XrSessionState::Ready => XrSessionAction::Begin,
            XrSessionState::Stopping => XrSessionAction::End,
            _ => XrSessionAction::Nothing,
        },
{
    match new {
        XrSessionState::Ready => XrSessionAction::Begin,
        XrSessionState::Stopping => XrSessionAction::End,
        _ => XrSessionAction::Nothing,
    }
}

/// What a frame does for the headset.
#[derive(Clone, Copy, PartialEq, Eq, Structural, Debug)]
pub enum XrFrameAction {
    /// The session does not render: only the window is drawn.
    WindowOnly,
    /// The frame is ended with no layers.
    EmptyFrame,
    /// Both views are rendered and submitted.
    RenderViews,
}

/// What a frame does in session state `state`; `should_render` is what
/// waiting for the frame said, and is only asked for when the session renders.
pub fn xr_frame_action(state: XrSessionState, should_render: bool) -> (r: XrFrameAction)
    ensures
        r == if !spec_session_renders(state) {
            XrFrameAction::WindowOnly
        } else if !should_render {
            XrFrameAction::EmptyFrame
        } else {
            XrFrameAction::RenderViews
        },
{
    if !session_renders(state) {
        XrFrameAction::WindowOnly
    } else if !should_render {
        XrFrameAction::EmptyFrame
    } else {
        XrFrameAction::RenderViews
    }
}

} // verus!
