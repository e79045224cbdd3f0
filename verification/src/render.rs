use vstd::prelude::*;

use smallvec::SmallVec;

verus! {

/// A small vector of up to three inline `u32`s, held in a `smallvec::SmallVec`.
#[verifier::external_body]
pub struct FamilyIndices {
    inner: SmallVec<[u32; 3]>,
}

/// The elements of the small vector, in order.
pub uninterp spec fn small_contents(v: FamilyIndices) -> Seq<u32>;

/// `SmallVec::new`: an empty small vector.
#[verifier::external_body]
fn small_new() -> (r: FamilyIndices)
    ensures
        small_contents(r) == Seq::<u32>::empty(),
{
    FamilyIndices { inner: SmallVec::new() }
}

/// `SmallVec::push`: appends `x`.
#[verifier::external_body]
fn small_push(v: &mut FamilyIndices, x: u32)
    requires
        small_contents(*old(v)).len() < usize::MAX,
    ensures
        small_contents(*final(v)) == small_contents(*old(v)).push(x),
{
    v.inner.push(x)
}

impl FamilyIndices {
    /// `SmallVec::as_slice`: the elements, in order.
    #[verifier::external_body]
    pub(crate) fn as_slice(&self) -> (r: &[u32])
        ensures
            r@ == small_contents(*self),
    {
        self.inner.as_slice()
    }

    /// The elements, in order.
    pub fn to_vec(&self) -> (r: Vec<u32>)
        ensures
            r@ == small_contents(*self),
    {
        let s = self.as_slice();
        let mut r: Vec<u32> = Vec::new();
        let mut i: usize = 0;
        while i < s.len()
            invariant
                i <= s@.len(),
                r@ == s@.take(i as int),
            decreases s@.len() - i,
        {
            r.push(s[i]);
            assert(r@ =~= s@.take(i + 1));
            i = i + 1;
        }
        assert(s@.take(i as int) =~= s@);
        r
    }
}

/// Whether `x` is in the small vector.
fn small_contains(v: &FamilyIndices, x: u32) -> (r: bool)
    ensures
        r == small_contents(*v).contains(x),
{
    let s = v.as_slice();
    let mut i: usize = 0;
    while i < s.len()
        invariant
            i <= s@.len(),
            s@ == small_contents(*v),
            forall|j: int| 0 <= j < i ==> s@[j] != x,
        decreases s@.len() - i,
    {
        if s[i] == x {
            return true;
        }
        i = i + 1;
    }
    false
}

/// The queue families that the renderer uses.
#[derive(Clone, Copy, PartialEq, Eq, Structural, Debug)]
pub struct QueueFamiliesInfo {
    pub graphics_family_index: u32,
    pub present_family_index: u32,
    pub transfer_family_index: u32,
}

impl QueueFamiliesInfo {
    /// The distinct family indices: graphics, then present and transfer when
    /// they differ from those before.
    pub open spec fn spec_unique_family_indices(&self) -> Seq<u32> {
        let g = seq![self.graphics_family_index];
        let p = if self.present_family_index == self.graphics_family_index {
            g
        } else {
            g.push(self.present_family_index)
        };
        if p.contains(self.transfer_family_index) {
            p
        } else {
            p.push(self.transfer_family_index)
        }
    }

    /// The distinct family indices: graphics, then present and transfer when
    /// they differ from those before.
    pub fn unique_family_indices(&self) -> (r: FamilyIndices)
        ensures
            small_contents(r) == self.spec_unique_family_indices(),
    {
        let mut r = small_new();
        small_push(&mut r, self.graphics_family_index);
        if !small_contains(&r, self.present_family_index) {
            small_push(&mut r, self.present_family_index);
        }
        assert(seq![self.graphics_family_index].contains(self.present_family_index) <==> self.present_family_index
            == self.graphics_family_index) by {
            if self.present_family_index == self.graphics_family_index {
                assert(seq![self.graphics_family_index][0] == self.present_family_index);
            }
        }
        if !small_contains(&r, self.transfer_family_index) {
            small_push(&mut r, self.transfer_family_index);
        }
        r
    }
}

/// What a queue family of a physical device supports.
#[derive(Clone, Copy, PartialEq, Eq, Structural, Debug)]
pub struct QueueFamilySupport {
    pub graphics: bool,
    pub transfer: bool,
    pub compute: bool,
    pub present: bool,
}

/// The families chosen so far while going through the families in order:
/// graphics, present and transfer.
pub type FamilyChoice = (Option<u32>, Option<u32>, Option<u32>);

/// The choice after looking at family `i` with support `f`: the first
/// graphics family, unless a family supports both graphics and presenting,
/// which then serves for both (the last such one); otherwise the first family
/// that can present; for transfers the first family that can transfer, or
/// later ones that can transfer but are not the graphics family and cannot
/// compute (the last such one).
pub open spec fn family_step(c: FamilyChoice, i: u32, f: QueueFamilySupport) -> FamilyChoice {
    let g1 = if f.graphics && c.0 is None {
        Some(i)
    } else {
        c.0
    };
    let (g2, p2) = if f.present {
        if f.graphics {
            (Some(i), Some(i))
        } else if c.1 is None {
            (g1, Some(i))
        } else {
            (g1, c.1)
        }
    } else {
        (g1, c.1)
    };
    let t2 = if f.transfer && (c.2 is None || (g2 != Some(i) && !f.compute)) {
        Some(i)
    } else {
        c.2
    };
    (g2, p2, t2)
}

/// The choice after going through the families in order.
pub open spec fn family_scan(fs: Seq<QueueFamilySupport>) -> FamilyChoice
    decreases fs.len(),
{
    if fs.len() == 0 {
        (None, None, None)
    } else {
        family_step(family_scan(fs.drop_last()), (fs.len() - 1) as u32, fs.last())
    }
}

/// Which queue families are chosen (law): each chosen family supports what
/// it is chosen for, and a family is chosen for graphics, presenting or
/// transfers exactly when some family supports it. Where one family supports
/// both graphics and presenting, graphics and presenting share a family.
pub proof fn law_family_choice(fs: Seq<QueueFamilySupport>)
    requires
        fs.len() <= u32::MAX,
    ensures
        ({
            let c = family_scan(fs);
            &&& c.0 matches Some(g) ==> g < fs.len() && fs[g as int].graphics
            &&& c.1 matches Some(p) ==> p < fs.len() && fs[p as int].present
            &&& c.2 matches Some(t) ==> t < fs.len() && fs[t as int].transfer
            &&& c.0 is None <==> forall|i: int| 0 <= i < fs.len() ==> !(#[trigger] fs[i]).graphics
            &&& c.1 is None <==> forall|i: int| 0 <= i < fs.len() ==> !(#[trigger] fs[i]).present
            &&& c.2 is None <==> forall|i: int| 0 <= i < fs.len() ==> !(#[trigger] fs[i]).transfer
            &&& (exists|i: int| 0 <= i < fs.len() && (#[trigger] fs[i]).graphics && fs[i].present) ==> c.0 == c.1
        }),
    decreases fs.len(),
{
    if fs.len() > 0 {
        let pre = fs.drop_last();
        law_family_choice(pre);
        let n = fs.len() - 1;
        assert forall|i: int| 0 <= i < pre.len() implies #[trigger] pre[i] == fs[i] by {}
        if exists|i: int| 0 <= i < fs.len() && (#[trigger] fs[i]).graphics {
            let i = choose|i: int| 0 <= i < fs.len() && (#[trigger] fs[i]).graphics;
            if i < n {
                assert(pre[i].graphics);
            }
        }
        if exists|i: int| 0 <= i < fs.len() && (#[trigger] fs[i]).present {
            let i = choose|i: int| 0 <= i < fs.len() && (#[trigger] fs[i]).present;
            if i < n {
                assert(pre[i].present);
            }
        }
        if exists|i: int| 0 <= i < fs.len() && (#[trigger] fs[i]).transfer {
            let i = choose|i: int| 0 <= i < fs.len() && (#[trigger] fs[i]).transfer;
            if i < n {
                assert(pre[i].transfer);
            }
        }
        if exists|i: int| 0 <= i < fs.len() && (#[trigger] fs[i]).graphics && fs[i].present {
            let i = choose|i: int| 0 <= i < fs.len() && (#[trigger] fs[i]).graphics && fs[i].present;
            if i < n {
                assert(pre[i].graphics && pre[i].present);
            }
        }
    }
}

/// The queue families for a device with the given families, when it has
/// families for graphics, presenting and transfers.
pub open spec fn spec_queue_families_info(fs: Seq<QueueFamilySupport>) -> Option<QueueFamiliesInfo> {
    match family_scan(fs) {
        (Some(g), Some(p), Some(t)) => Some(
            QueueFamiliesInfo { graphics_family_index: g, present_family_index: p, transfer_family_index: t },
        ),
        _ => None,
    }
}

/// Chooses the queue families of a device from what its families support,
/// in family order; `None` when one of graphics, presenting or transfers has
/// no family.
pub fn physical_device_queue_families_info(families: &[QueueFamilySupport]) -> (r: Option<QueueFamiliesInfo>)
    requires
        families@.len() <= u32::MAX,
    ensures
        r == spec_queue_families_info(families@),
{
    let mut graphics: Option<u32> = None;
    let mut present: Option<u32> = None;
    let mut transfer: Option<u32> = None;
    let mut i: usize = 0;
    while i < families.len()
        invariant
            i <= families@.len() <= u32::MAX,
            (graphics, present, transfer) == family_scan(families@.take(i as int)),
        decreases families@.len() - i,
    {
        let f = families[i];
        let index = i as u32;
        assert(families@.take(i + 1).drop_last() =~= families@.take(i as int));
        if f.graphics && graphics.is_none() {
            graphics = Some(index);
        }
        if f.present {
            if f.graphics {
                graphics = Some(index);
                present = Some(index);
            } else if present.is_none() {
                present = Some(index);
            }
        }
        if f.transfer && (transfer.is_none() || (graphics != Some(index) && !f.compute)) {
            transfer = Some(index);
        }
        i = i + 1;
    }
    assert(families@.take(i as int) =~= families@);
    match (graphics, present, transfer) {
        (Some(g), Some(p), Some(t)) => Some(
            QueueFamiliesInfo { graphics_family_index: g, present_family_index: p, transfer_family_index: t },
        ),
        _ => None,
    }
}

/// What the renderer knows of a physical device once it has asked about it.
/// A device is suitable when it has the required extensions, queue families
/// for graphics, presenting and transfers, presenting support on the chosen
/// present family, and at least one surface format and present mode.
#[derive(Clone, Copy, PartialEq, Eq, Structural, Debug)]
pub struct DeviceCandidate {
    pub suitable: bool,
    pub discrete: bool,
    pub queue_families: QueueFamiliesInfo,
}

/// The device chosen after going through the candidates in order: the first
/// suitable one, replaced by any later suitable discrete one.
pub open spec fn device_scan(ds: Seq<DeviceCandidate>) -> Option<int>
    decreases ds.len(),
{
    if ds.len() == 0 {
        None
    } else {
        let prev = device_scan(ds.drop_last());
        let d = ds.last();
        if !d.suitable {
            prev
        } else if prev is None || d.discrete {
            Some(ds.len() - 1)
        } else {
            prev
        }
    }
}

/// Which device is chosen (law): a suitable one, and one exactly when some
/// device is suitable. Where some suitable device is discrete, the chosen one
/// is discrete, and no later device is both suitable and discrete; otherwise
/// it is the first suitable device. So a later device that is not discrete
/// never takes the place of the chosen one.
pub proof fn law_device_choice(ds: Seq<DeviceCandidate>)
    ensures
        device_scan(ds) is None <==> forall|i: int| 0 <= i < ds.len() ==> !(#[trigger] ds[i]).suitable,
        device_scan(ds) matches Some(k) ==> 0 <= k < ds.len() && ds[k].suitable,
        (exists|i: int| 0 <= i < ds.len() && (#[trigger] ds[i]).suitable && ds[i].discrete) ==> (device_scan(
            ds,
        ) matches Some(k) && ds[k].discrete && forall|j: int|
            k < j < ds.len() ==> !((#[trigger] ds[j]).suitable && ds[j].discrete)),
        !(exists|i: int| 0 <= i < ds.len() && (#[trigger] ds[i]).suitable && ds[i].discrete) ==> (device_scan(
            ds,
        ) matches Some(k) ==> forall|j: int| 0 <= j < k ==> !(#[trigger] ds[j]).suitable),
    decreases ds.len(),
{
    if ds.len() > 0 {
        let pre = ds.drop_last();
        law_device_choice(pre);
        let n = ds.len() - 1;
        let d = ds[n];
        assert forall|i: int| 0 <= i < pre.len() implies #[trigger] pre[i] == ds[i] by {}
        let pre_sd = exists|i: int| 0 <= i < pre.len() && (#[trigger] pre[i]).suitable && pre[i].discrete;
        let all_sd = exists|i: int| 0 <= i < ds.len() && (#[trigger] ds[i]).suitable && ds[i].discrete;
        if pre_sd {
            let i = choose|i: int| 0 <= i < pre.len() && (#[trigger] pre[i]).suitable && pre[i].discrete;
            assert(ds[i].suitable && ds[i].discrete);
        }
        if all_sd && !(d.suitable && d.discrete) {
            let i = choose|i: int| 0 <= i < ds.len() && (#[trigger] ds[i]).suitable && ds[i].discrete;
            assert(pre[i].suitable && pre[i].discrete);
            assert(pre_sd);
            let k = device_scan(pre)->0;
            assert(device_scan(ds) == Some(k));
            assert forall|j: int| k < j < ds.len() implies !((#[trigger] ds[j]).suitable && ds[j].discrete) by {
                if j < n {
                    assert(pre[j] == ds[j]);
                }
            }
        }
        if !all_sd {
            assert(!pre_sd);
            if d.suitable && device_scan(pre) is None {
                assert forall|j: int| 0 <= j < n implies !(#[trigger] ds[j]).suitable by {
                    assert(pre[j] == ds[j]);
                }
            }
            if let Some(k) = device_scan(pre) {
                assert forall|j: int| 0 <= j < k implies !(#[trigger] ds[j]).suitable by {
                    assert(pre[j] == ds[j]);
                }
            }
        }
        if exists|i: int| 0 <= i < ds.len() && (#[trigger] ds[i]).suitable {
            let i = choose|i: int| 0 <= i < ds.len() && (#[trigger] ds[i]).suitable;
            if i < n {
                assert(pre[i].suitable);
            }
        }
    }
}

/// Chooses a device: the first suitable one, unless a later suitable one is
/// discrete, in which case the last such one. Returns its position and queue
/// families.
pub fn select_physical_device(candidates: &[DeviceCandidate]) -> (r: Option<(usize, QueueFamiliesInfo)>)
    ensures
        match device_scan(candidates@) {
            Some(i) => r == Some((i as usize, candidates@[i].queue_families)),
            None => r is None,
        },
{
    let mut selected: Option<usize> = None;
    let mut i: usize = 0;
    while i < candidates.len()
        invariant
            i <= candidates@.len(),
            match device_scan(candidates@.take(i as int)) {
                Some(k) => selected == Some(k as usize) && 0 <= k < i,
                None => selected is None,
            },
        decreases candidates@.len() - i,
    {
        assert(candidates@.take(i + 1).drop_last() =~= candidates@.take(i as int));
        let d = candidates[i];
        if d.suitable {
            if selected.is_none() {
                selected = Some(i);
            } else if d.discrete {
                selected = Some(i);
            }
        }
        i = i + 1;
    }
    assert(candidates@.take(i as int) =~= candidates@);
    match selected {
        Some(k) => Some((k, candidates[k].queue_families)),
        None => None,
    }
}

/// A surface format: the values of a `vk::Format` and a `vk::ColorSpaceKHR`.
#[derive(Clone, Copy, PartialEq, Eq, Structural, Debug)]
pub struct SurfaceFormat {
    pub format: i32,
    pub color_space: i32,
}

/// The preferred surface format: `B8G8R8_UNORM` in the `SRGB_NONLINEAR_KHR` color space.
pub open spec fn spec_preferred_format() -> SurfaceFormat {
    SurfaceFormat { format: 30, color_space: 0 }
}

/// The swapchain's surface format: the first of the device's formats that is
/// the preferred one, or else its first format; `None` when it has none.
pub open spec fn spec_choose_surface_format(formats: Seq<SurfaceFormat>) -> Option<SurfaceFormat> {
    if formats.len() == 0 {
        None
    } else if formats.contains(spec_preferred_format()) {
        Some(spec_preferred_format())
    } else {
        Some(formats[0])
    }
}

/// Chooses the swapchain's surface format from the device's formats.
pub fn choose_surface_format(formats: &[SurfaceFormat]) -> (r: Option<SurfaceFormat>)
    ensures
        r == spec_choose_surface_format(formats@),
{
    if formats.len() == 0 {
        return None;
    }
    let mut chosen = formats[0];
    let mut i: usize = 0;
    while i < formats.len()
        invariant
            i <= formats@.len(),
            formats@.len() > 0,
            chosen == formats@[0],
            forall|j: int| 0 <= j < i ==> formats@[j] != spec_preferred_format(),
        decreases formats@.len() - i,
    {
        let f = formats[i];
        if f.format == 30 && f.color_space == 0 {
            chosen = f;
            assert(formats@.contains(spec_preferred_format()));
            return Some(chosen);
        }
        i = i + 1;
    }
    Some(chosen)
}

/// The number of swapchain images to ask for: one more than the least the
/// surface allows, but no more than its most, where a most of zero means no limit.
pub open spec fn spec_min_image_count(min_count: u32, max_count: u32) -> u32 {
    if max_count != 0 && min_count + 1 > max_count {
        max_count
    } else {
        (min_count + 1) as u32
    }
}

/// The number of swapchain images to ask for.
pub fn min_image_count(min_count: u32, max_count: u32) -> (r: u32)
    requires
        min_count < u32::MAX,
    ensures
        r == spec_min_image_count(min_count, max_count),
{
    let mut count = min_count + 1;
    if max_count != 0 && count > max_count {
        count = max_count;
    }
    count
}

/// Whether `a` is a power of two.
pub open spec fn is_power_of_two(a: u64) -> bool {
    a > 0 && a & ((a - 1) as u64) == 0
}

/// `size` rounded up to the alignment `alignment`, a power of two: the
/// smallest value at least `size` whose bits below `alignment` are clear.
pub fn align_up(size: u64, alignment: u64) -> (r: u64)
    requires
        is_power_of_two(alignment),
        size + alignment - 1 <= u64::MAX,
    ensures
        r & ((alignment - 1) as u64) == 0,
        size <= r < size + alignment,
{
    let mask = alignment - 1;
    let x = size + mask;
    let r = x & !mask;
    assert(r & mask == 0 && r + (x & mask) == x && x & mask <= mask) by (bit_vector)
        requires
            r == x & !mask,
    ;
    r
}


/// Why a swapchain could not be set up.
#[derive(Clone, Copy, PartialEq, Eq, Structural, Debug)]
pub enum SwapchainError {
    /// Graphics and presenting use different queue families, which is not supported.
    SeparatePresentFamily,
    /// The surface offers no format.
    NoSurfaceFormat,
}

/// The settings of a swapchain for a device with queue families `queues`, a
/// surface offering `formats`, and an image count range from `min_count` to
/// `max_count` (zero for no maximum): the surface format and the number of
/// images. Separate graphics and present families are refused first, then a
/// surface without formats.
pub fn swapchain_settings(queues: QueueFamiliesInfo, formats: &[SurfaceFormat], min_count: u32, max_count: u32) -> (r:
    Result<(SurfaceFormat, u32), SwapchainError>)
    requires
        min_count < u32::MAX,
    ensures
        queues.graphics_family_index != queues.present_family_index ==> r == Err::<(SurfaceFormat, u32), SwapchainError>(
            SwapchainError::SeparatePresentFamily,
        ),
        queues.graphics_family_index == queues.present_family_index ==> r == match spec_choose_surface_format(
            formats@,
        ) {
            Some(f) => Ok((f, spec_min_image_count(min_count, max_count))),
            None => Err(SwapchainError::NoSurfaceFormat),
        },
{
    if queues.graphics_family_index != queues.present_family_index {
        return Err(SwapchainError::SeparatePresentFamily);
    }
    match choose_surface_format(formats) {
        Some(f) => Ok((f, min_image_count(min_count, max_count))),
        None => Err(SwapchainError::NoSurfaceFormat),
    }
}


/// The names of a list of extensions, as bytes.
pub open spec fn name_views(names: Seq<Vec<u8>>) -> Seq<Seq<u8>> {
    names.map_values(|n: Vec<u8>| n@)
}

/// Whether a device that offers the extensions `available`, with queue
/// families `families` (none when graphics, presenting or transfers have no
/// family), present support `present_supported` on its present family, and
/// `format_count` surface formats and `present_mode_count` present modes,
/// can render: it offers every extension in `required`, has the queue
/// families, can present on the present family, and has a format and a
/// present mode.
pub open spec fn spec_device_suitable(
    required: Seq<Seq<u8>>,
    available: Seq<Seq<u8>>,
    families: Option<QueueFamiliesInfo>,
    present_supported: bool,
    format_count: nat,
    present_mode_count: nat,
) -> bool {
    &&& forall|i: int| 0 <= i < required.len() ==> available.contains(#[trigger] required[i])
    &&& families is Some
    &&& present_supported
    &&& format_count > 0
    &&& present_mode_count > 0
}

/// Whether two names are the same bytes.
fn same_name(a: &Vec<u8>, b: &Vec<u8>) -> (r: bool)
    ensures
        r == (a@ == b@),
{
    if a.len() != b.len() {
        return false;
    }
    let mut i: usize = 0;
    while i < a.len()
        invariant
            i <= a@.len(),
            a@.len() == b@.len(),
            forall|k: int| 0 <= k < i ==> a@[k] == b@[k],
        decreases a@.len() - i,
    {
        if a[i] != b[i] {
            return false;
        }
        i = i + 1;
    }
    assert(a@ =~= b@);
    true
}

/// Whether `name` is among `names`.
fn has_name(names: &[Vec<u8>], name: &Vec<u8>) -> (r: bool)
    ensures
        r == name_views(names@).contains(name@),
{
    let mut i: usize = 0;
    while i < names.len()
        invariant
            i <= names@.len(),
            forall|k: int| 0 <= k < i ==> names@[k]@ != name@,
        decreases names@.len() - i,
    {
        if same_name(&names[i], name) {
            assert(name_views(names@)[i as int] == name@);
            return true;
        }
        i = i + 1;
    }
    proof {
        if name_views(names@).contains(name@) {
            let k = choose|k: int| 0 <= k < name_views(names@).len() && name_views(names@)[k] == name@;
            assert(names@[k]@ == name@);
        }
    }
    false
}

/// Whether a device can render, from what it offers: see `spec_device_suitable`.
pub fn device_suitable(
    required: &[Vec<u8>],
    available: &[Vec<u8>],
    families: Option<QueueFamiliesInfo>,
    present_supported: bool,
    format_count: usize,
    present_mode_count: usize,
) -> (r: bool)
    ensures
        r == spec_device_suitable(
            name_views(required@),
            name_views(available@),
            families,
            present_supported,
            format_count as nat,
            present_mode_count as nat,
        ),
{
    let mut i: usize = 0;
    while i < required.len()
        invariant
            i <= required@.len(),
            forall|k: int| 0 <= k < i ==> name_views(available@).contains(#[trigger] name_views(required@)[k]),
        decreases required@.len() - i,
    {
        if !has_name(available, &required[i]) {
            assert(name_views(required@)[i as int] == required@[i as int]@);
            return false;
        }
        assert(name_views(required@)[i as int] == required@[i as int]@);
        i = i + 1;
    }
    families.is_some() && present_supported && format_count > 0 && present_mode_count > 0
}

/// The size of the uniform buffer of a frame: four slots, each an instance's
/// data of `instance_size` bytes rounded up to the device's alignment
/// `min_alignment`, a power of two.
pub fn instance_buffer_size(instance_size: u64, min_alignment: u64) -> (r: (u64, u64))
    requires
        is_power_of_two(min_alignment),
        instance_size + min_alignment - 1 <= u64::MAX,
        4 * (instance_size + min_alignment) <= u64::MAX,
    ensures
        r.0 & ((min_alignment - 1) as u64) == 0,
        instance_size <= r.0 < instance_size + min_alignment,
        r.1 == 4 * r.0,
{
    let slot = align_up(instance_size, min_alignment);
    (slot, slot * 4)
}

} // verus!
