//! Device and swapchain selection decisions.
//!
//! The choices the GPU bootstrap makes - which queue families serve
//! graphics, present and transfer work, how devices are ranked, and
//! how the swapchain's image count, extent, format and present mode
//! are picked - are plain functions of the enumerated capabilities and
//! are decided here; the device and surface handles themselves stay
//! outside.

use vstd::prelude::*;

verus! {

/// What one queue family offers.
#[derive(Clone, Copy, Debug, PartialEq, Eq, Structural)]
pub struct QueueFamilyInfo {
    pub graphics: bool,
    pub transfer: bool,
    pub surface_support: bool,
}

/// The chosen queue family index per role.
#[derive(Clone, Copy, Debug, PartialEq, Eq, Structural)]
pub struct QueueIndices {
    pub graphics_queue: Option<u32>,
    pub present_queue: Option<u32>,
    pub transfer_queue: Option<u32>,
}

/// The first family index with graphics support.
pub open spec fn first_graphics(s: Seq<QueueFamilyInfo>) -> Option<int>
    decreases s.len(),
{
    if s.len() == 0 {
        None
    } else if s[0].graphics {
        Some(0)
    } else {
        match first_graphics(s.drop_first()) {
            None => None,
            Some(i) => Some(i + 1),
        }
    }
}

/// The first family index that can present to the surface.
pub open spec fn first_present(s: Seq<QueueFamilyInfo>) -> Option<int>
    decreases s.len(),
{
    if s.len() == 0 {
        None
    } else if s[0].surface_support {
        Some(0)
    } else {
        match first_present(s.drop_first()) {
            None => None,
            Some(i) => Some(i + 1),
        }
    }
}

/// The first dedicated transfer family: transfer but not graphics.
pub open spec fn first_transfer(s: Seq<QueueFamilyInfo>) -> Option<int>
    decreases s.len(),
{
    if s.len() == 0 {
        None
    } else if s[0].transfer && !s[0].graphics {
        Some(0)
    } else {
        match first_transfer(s.drop_first()) {
            None => None,
            Some(i) => Some(i + 1),
        }
    }
}

impl QueueIndices {
    /// All three roles have a family.
    pub fn is_complete(&self) -> (r: bool)
        ensures
            r == (self.graphics_queue is Some && self.present_queue is Some
                && self.transfer_queue is Some),
    {
        self.graphics_queue.is_some() && self.present_queue.is_some()
            && self.transfer_queue.is_some()
    }
}

/// Picks the first family for each role: graphics, surface present,
/// and dedicated (non-graphics) transfer.
pub fn find_queue_indices(families: &Vec<QueueFamilyInfo>) -> (r: QueueIndices)
    requires
        families@.len() <= 0xFFFF_FFFF,
    ensures
        r.graphics_queue == match first_graphics(families@) {
            None => None::<u32>,
            Some(i) => Some(i as u32),
        },
        r.present_queue == match first_present(families@) {
            None => None::<u32>,
            Some(i) => Some(i as u32),
        },
        r.transfer_queue == match first_transfer(families@) {
            None => None::<u32>,
            Some(i) => Some(i as u32),
        },
{
    proof {
        lemma_first_prefix(families@, 0);
        assert(families@.take(0) =~= Seq::<QueueFamilyInfo>::empty());
    }
    let mut graphics_queue: Option<u32> = None;
    let mut present_queue: Option<u32> = None;
    let mut transfer_queue: Option<u32> = None;
    let mut i: usize = 0;
    while i < families.len()
        invariant
            0 <= i <= families@.len(),
            families@.len() <= 0xFFFF_FFFF,
            graphics_queue == match first_graphics(families@.take(i as int)) {
                None => None::<u32>,
                Some(j) => Some(j as u32),
            },
            present_queue == match first_present(families@.take(i as int)) {
                None => None::<u32>,
                Some(j) => Some(j as u32),
            },
            transfer_queue == match first_transfer(families@.take(i as int)) {
                None => None::<u32>,
                Some(j) => Some(j as u32),
            },
            first_graphics(families@.take(i as int)) is Some ==> first_graphics(families@)
                == first_graphics(families@.take(i as int)),
            first_present(families@.take(i as int)) is Some ==> first_present(families@)
                == first_present(families@.take(i as int)),
            first_transfer(families@.take(i as int)) is Some ==> first_transfer(families@)
                == first_transfer(families@.take(i as int)),
            first_graphics(families@.take(i as int)) is None ==> (match first_graphics(
                families@,
            ) {
                None => true,
                Some(j) => j >= i,
            }),
            first_present(families@.take(i as int)) is None ==> (match first_present(families@) {
                None => true,
                Some(j) => j >= i,
            }),
            first_transfer(families@.take(i as int)) is None ==> (match first_transfer(
                families@,
            ) {
                None => true,
                Some(j) => j >= i,
            }),
        decreases families@.len() - i,
    {
        let f = families[i];
        proof {
            lemma_first_take_step(families@, i as int);
        }
        if graphics_queue.is_none() && f.graphics {
            graphics_queue = Some(i as u32);
        }
        if present_queue.is_none() && f.surface_support {
            present_queue = Some(i as u32);
        }
        if transfer_queue.is_none() && f.transfer && !f.graphics {
            transfer_queue = Some(i as u32);
        }
        i += 1;
    }
    proof {
        assert(families@.take(families@.len() as int) =~= families@);
    }
    QueueIndices { graphics_queue, present_queue, transfer_queue }
}

/// How the first-match searches extend by one element.
proof fn lemma_first_take_step(s: Seq<QueueFamilyInfo>, i: int)
    requires
        0 <= i < s.len(),
    ensures
        first_graphics(s.take(i + 1)) == (match first_graphics(s.take(i)) {
            Some(j) => Some(j),
            None => if s[i].graphics {
                Some(i)
            } else {
                None
            },
        }),
        first_present(s.take(i + 1)) == (match first_present(s.take(i)) {
            Some(j) => Some(j),
            None => if s[i].surface_support {
                Some(i)
            } else {
                None
            },
        }),
        first_transfer(s.take(i + 1)) == (match first_transfer(s.take(i)) {
            Some(j) => Some(j),
            None => if s[i].transfer && !s[i].graphics {
                Some(i)
            } else {
                None
            },
        }),
        (match first_graphics(s) {
            Some(j) => j >= i ==> first_graphics(s.take(i + 1)) == (if s[i].graphics {
                Some(i)
            } else {
                None::<int>
            }),
            None => first_graphics(s.take(i + 1)) is None,
        }),
        first_graphics(s.take(i + 1)) is Some && first_graphics(s.take(i)) is None
            ==> first_graphics(s) == first_graphics(s.take(i + 1)),
        first_present(s.take(i + 1)) is Some && first_present(s.take(i)) is None ==> first_present(
            s,
        ) == first_present(s.take(i + 1)),
        first_transfer(s.take(i + 1)) is Some && first_transfer(s.take(i)) is None
            ==> first_transfer(s) == first_transfer(s.take(i + 1)),
        first_graphics(s.take(i + 1)) is None ==> (match first_graphics(s) {
            None => true,
            Some(j) => j >= i + 1,
        }),
        first_present(s.take(i + 1)) is None ==> (match first_present(s) {
            None => true,
            Some(j) => j >= i + 1,
        }),
        first_transfer(s.take(i + 1)) is None ==> (match first_transfer(s) {
            None => true,
            Some(j) => j >= i + 1,
        }),
    decreases i,
{
    lemma_first_prefix(s, i);
    lemma_first_prefix(s, i + 1);
}

/// The first-match of a prefix agrees with the whole sequence as long
/// as the match falls inside the prefix.
proof fn lemma_first_prefix(s: Seq<QueueFamilyInfo>, n: int)
    requires
        0 <= n <= s.len(),
    ensures
        (match first_graphics(s.take(n)) {
            Some(j) => 0 <= j < n && s[j].graphics && (forall|k: int|
                0 <= k < j ==> !(#[trigger] s[k]).graphics) && first_graphics(s) == Some(j),
            None => forall|k: int| 0 <= k < n ==> !(#[trigger] s[k]).graphics,
        }),
        (match first_present(s.take(n)) {
            Some(j) => 0 <= j < n && s[j].surface_support && (forall|k: int|
                0 <= k < j ==> !(#[trigger] s[k]).surface_support) && first_present(s) == Some(j),
            None => forall|k: int| 0 <= k < n ==> !(#[trigger] s[k]).surface_support,
        }),
        (match first_transfer(s.take(n)) {
            Some(j) => 0 <= j < n && (s[j].transfer && !s[j].graphics) && (forall|k: int|
                0 <= k < j ==> !((#[trigger] s[k]).transfer && !s[k].graphics)) && first_transfer(
                s,
            ) == Some(j),
            None => forall|k: int| 0 <= k < n ==> !((#[trigger] s[k]).transfer && !s[k].graphics),
        }),
        (match first_graphics(s) {
            Some(j) => 0 <= j < s.len() && s[j].graphics && forall|k: int|
                0 <= k < j ==> !(#[trigger] s[k]).graphics,
            None => forall|k: int| 0 <= k < s.len() ==> !(#[trigger] s[k]).graphics,
        }),
        (match first_present(s) {
            Some(j) => 0 <= j < s.len() && s[j].surface_support && forall|k: int|
                0 <= k < j ==> !(#[trigger] s[k]).surface_support,
            None => forall|k: int| 0 <= k < s.len() ==> !(#[trigger] s[k]).surface_support,
        }),
        (match first_transfer(s) {
            Some(j) => 0 <= j < s.len() && (s[j].transfer && !s[j].graphics) && forall|k: int|
                0 <= k < j ==> !((#[trigger] s[k]).transfer && !s[k].graphics),
            None => forall|k: int|
                0 <= k < s.len() ==> !((#[trigger] s[k]).transfer && !s[k].graphics),
        }),
{
    lemma_first_char(s.take(n));
    lemma_first_char(s);
    assert(forall|k: int| 0 <= k < n ==> s.take(n)[k] == s[k]);
    match first_graphics(s.take(n)) {
        Some(j) => {
            assert(s[j].graphics);
            match first_graphics(s) {
                Some(j2) => {
                    if j2 < j {
                        assert(!s.take(n)[j2].graphics);
                        assert(false);
                    }
                    if j < j2 {
                        assert(!s[j].graphics);
                        assert(false);
                    }
                },
                None => {
                    assert(!s[j].graphics);
                },
            }
        },
        None => {},
    }
    match first_present(s.take(n)) {
        Some(j) => {
            assert(s[j].surface_support);
            match first_present(s) {
                Some(j2) => {
                    if j2 < j {
                        assert(!s.take(n)[j2].surface_support);
                        assert(false);
                    }
                    if j < j2 {
                        assert(!s[j].surface_support);
                        assert(false);
                    }
                },
                None => {
                    assert(!s[j].surface_support);
                },
            }
        },
        None => {},
    }
    match first_transfer(s.take(n)) {
        Some(j) => {
            assert(s[j].transfer && !s[j].graphics);
            match first_transfer(s) {
                Some(j2) => {
                    if j2 < j {
                        assert(!(s.take(n)[j2].transfer && !s.take(n)[j2].graphics));
                        assert(false);
                    }
                    if j < j2 {
                        assert(!(s[j].transfer && !s[j].graphics));
                        assert(false);
                    }
                },
                None => {
                    assert(!(s[j].transfer && !s[j].graphics));
                },
            }
        },
        None => {},
    }
}

/// First-match searches find a matching index with nothing matching
/// before it, or report that nothing matches.
proof fn lemma_first_char(s: Seq<QueueFamilyInfo>)
    ensures
        (match first_graphics(s) {
            Some(j) => 0 <= j < s.len() && s[j].graphics && forall|k: int|
                0 <= k < j ==> !(#[trigger] s[k]).graphics,
            None => forall|k: int| 0 <= k < s.len() ==> !(#[trigger] s[k]).graphics,
        }),
        (match first_present(s) {
            Some(j) => 0 <= j < s.len() && s[j].surface_support && forall|k: int|
                0 <= k < j ==> !(#[trigger] s[k]).surface_support,
            None => forall|k: int| 0 <= k < s.len() ==> !(#[trigger] s[k]).surface_support,
        }),
        (match first_transfer(s) {
            Some(j) => 0 <= j < s.len() && (s[j].transfer && !s[j].graphics) && forall|k: int|
                0 <= k < j ==> !((#[trigger] s[k]).transfer && !s[k].graphics),
            None => forall|k: int|
                0 <= k < s.len() ==> !((#[trigger] s[k]).transfer && !s[k].graphics),
        }),
    decreases s.len(),
{
    if s.len() > 0 {
        let t = s.drop_first();
        lemma_first_char(t);
        assert(forall|k: int| 0 <= k < s.len() - 1 ==> #[trigger] t[k] == s[k + 1]);
        match first_graphics(s) {
            Some(j) => {
                assert forall|k: int| 0 <= k < j implies !(#[trigger] s[k]).graphics by {
                    if k > 0 {
                        assert(t[k - 1] == s[k]);
                    }
                }
            },
            None => {
                assert forall|k: int| 0 <= k < s.len() implies !(#[trigger] s[k]).graphics by {
                    if k > 0 {
                        assert(t[k - 1] == s[k]);
                    }
                }
            },
        }
        match first_present(s) {
            Some(j) => {
                assert forall|k: int| 0 <= k < j implies !(#[trigger] s[k]).surface_support by {
                    if k > 0 {
                        assert(t[k - 1] == s[k]);
                    }
                }
            },
            None => {
                assert forall|k: int| 0 <= k < s.len()
                    implies !(#[trigger] s[k]).surface_support by {
                    if k > 0 {
                        assert(t[k - 1] == s[k]);
                    }
                }
            },
        }
        match first_transfer(s) {
            Some(j) => {
                assert forall|k: int| 0 <= k < j implies !((#[trigger] s[k]).transfer
                    && !s[k].graphics) by {
                    if k > 0 {
                        assert(t[k - 1] == s[k]);
                    }
                }
            },
            None => {
                assert forall|k: int| 0 <= k < s.len() implies !((#[trigger] s[k]).transfer
                    && !s[k].graphics) by {
                    if k > 0 {
                        assert(t[k - 1] == s[k]);
                    }
                }
            },
        }
    }
}

/// A physical device is usable when it offers the needed API or
/// extension support, the required device extensions, and both a
/// graphics and a present family.
pub fn is_device_suitable(
    api_or_dynamic_rendering: bool,
    has_required_extensions: bool,
    families: &Vec<QueueFamilyInfo>,
) -> (r: bool)
    requires
        families@.len() <= 0xFFFF_FFFF,
    ensures
        r == (api_or_dynamic_rendering && has_required_extensions && first_graphics(families@)
            is Some && first_present(families@) is Some),
{
    let indices = find_queue_indices(families);
    api_or_dynamic_rendering && has_required_extensions && indices.graphics_queue.is_some()
        && indices.present_queue.is_some()
}

/// Device classes, ranked.
#[derive(Clone, Copy, Debug, PartialEq, Eq, Structural)]
pub enum DeviceClass {
    DiscreteGpu,
    IntegratedGpu,
    VirtualGpu,
    Cpu,
    Other,
}

/// The ranking score of a device class: lower is preferred, discrete
/// first, integrated next, then virtual, CPU, and anything else last.
pub fn device_type_score(c: DeviceClass) -> (r: u32)
    ensures
        r == (match c {
            DeviceClass::DiscreteGpu => 0u32,
            DeviceClass::IntegratedGpu => 1u32,
            DeviceClass::VirtualGpu => 2u32,
            DeviceClass::Cpu => 3u32,
            DeviceClass::Other => 4u32,
        }),
{
    match c {
        DeviceClass::DiscreteGpu => 0,
        DeviceClass::IntegratedGpu => 1,
        DeviceClass::VirtualGpu => 2,
        DeviceClass::Cpu => 3,
        DeviceClass::Other => 4,
    }
}

/// The swapchain image count: one above the surface's minimum, capped
/// at the surface's maximum when it has one.
pub fn choose_image_count(min_count: u32, max_count: Option<u32>) -> (r: u32)
    requires
        min_count < 0xFFFF_FFFF,
    ensures
        r == (match max_count {
            Some(m) => if min_count + 1 < m {
                (min_count + 1) as u32
            } else {
                m
            },
            None => (min_count + 1) as u32,
        }),
{
    match max_count {
        Some(m) => {
            if min_count + 1 < m {
                min_count + 1
            } else {
                m
            }
        },
        None => min_count + 1,
    }
}

/// One extent axis clamped into the surface's supported range.
pub fn clamp_extent_axis(x: u32, lo: u32, hi: u32) -> (r: u32)
    requires
        lo <= hi,
    ensures
        r == (if x < lo {
            lo
        } else if x > hi {
            hi
        } else {
            x
        }),
{
    if x < lo {
        lo
    } else if x > hi {
        hi
    } else {
        x
    }
}

/// The surface format: the first entry matching the preferred format
/// and color space pair, or the first entry when none matches.
pub fn choose_surface_format(
    formats: &Vec<(u32, u32)>,
    preferred_format: u32,
    preferred_space: u32,
) -> (r: (u32, u32))
    requires
        formats@.len() > 0,
    ensures
        (exists|i: int|
            0 <= i < formats@.len() && #[trigger] formats@[i] == (
                preferred_format,
                preferred_space,
            )) ==> r == (preferred_format, preferred_space),
        !(exists|i: int|
            0 <= i < formats@.len() && #[trigger] formats@[i] == (
                preferred_format,
                preferred_space,
            )) ==> r == formats@[0],
{
    let mut i: usize = 0;
    while i < formats.len()
        invariant
            0 <= i <= formats@.len(),
            formats@.len() > 0,
            forall|j: int|
                0 <= j < i ==> #[trigger] formats@[j] != (preferred_format, preferred_space),
        decreases formats@.len() - i,
    {
        let (f, cs) = formats[i];
        if f == preferred_format && cs == preferred_space {
            return (f, cs);
        }
        i += 1;
    }
    formats[0]
}

/// The present mode: the entry whose code minimizes the code
/// decremented by one with wraparound, taking the first of equals -
/// which prefers the lowest code above zero and puts code zero last.
pub fn choose_present_mode(modes: &Vec<u32>) -> (r: u32)
    requires
        modes@.len() > 0,
    ensures
        exists|i: int| 0 <= i < modes@.len() && #[trigger] modes@[i] == r,
        forall|i: int|
            0 <= i < modes@.len() ==> sub_one_wrapping(r) <= sub_one_wrapping(
                #[trigger] modes@[i],
            ),
{
    let mut best: u32 = modes[0];
    let mut i: usize = 1;
    while i < modes.len()
        invariant
            1 <= i <= modes@.len(),
            modes@.len() > 0,
            exists|j: int| 0 <= j < modes@.len() && #[trigger] modes@[j] == best,
            forall|j: int|
                0 <= j < i ==> sub_one_wrapping(best) <= sub_one_wrapping(#[trigger] modes@[j]),
        decreases modes@.len() - i,
    {
        let m = modes[i];
        if m.wrapping_sub(1) < best.wrapping_sub(1) {
            best = m;
        }
        i += 1;
    }
    best
}

/// A code decremented by one, wrapping below zero.
pub open spec fn sub_one_wrapping(x: u32) -> u32 {
    if x == 0 {
        0xFFFF_FFFF
    } else {
        (x - 1) as u32
    }
}

} // verus!
