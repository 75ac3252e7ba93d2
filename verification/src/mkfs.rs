//! What `format` decides before it writes: the volume's size, its layout
//! with the data region aligned, and the boot sector's fields.

use vstd::prelude::*;
use crate::error::ErrorKind;
use crate::format::BootFields;
use crate::layout::{lemma_bounded_offsets, is_pow2, is_power_of_two, lemma_plan_wf, plan, spec_plan, Layout, LayoutError, Request};
use crate::options::{serial, spec_serial, FatOptions, Timestamp};

verus! {

/// The error a layout failure is reported as.
pub open spec fn spec_layout_error(err: LayoutError) -> ErrorKind {
    match err {
        LayoutError::TooSmall => ErrorKind::NoSpace,
        LayoutError::TooLarge => ErrorKind::LimitExceeded,
        LayoutError::Invalid(_) => ErrorKind::InvalidInput,
    }
}

/// The error a layout failure is reported as: no room when the volume is
/// too small, a limit when it is too large, bad input otherwise.
pub fn layout_error(err: LayoutError) -> (e: ErrorKind)
    ensures
        e == spec_layout_error(err),
{
    match err {
        LayoutError::TooSmall => ErrorKind::NoSpace,
        LayoutError::TooLarge => ErrorKind::LimitExceeded,
        LayoutError::Invalid(_) => ErrorKind::InvalidInput,
    }
}

/// `a * b`, or `u64::MAX` when that is larger.
pub open spec fn saturating_product(a: u64, b: u64) -> u64 {
    if a * b > u64::MAX {
        u64::MAX
    } else {
        (a * b) as u64
    }
}

fn saturating_mul(a: u64, b: u64) -> (p: u64)
    ensures
        p == saturating_product(a, b),
{
    match a.checked_mul(b) {
        Some(p) => p,
        None => u64::MAX,
    }
}

/// The bytes of the volume asked for on a device of `block_count` blocks
/// of `block_size` bytes that can grow to `max_block_count`.
pub open spec fn spec_volume_bytes(
    size: Option<u64>,
    block_size: u64,
    block_count: u64,
    max_block_count: u64,
) -> Result<u64, ErrorKind> {
    let device = saturating_product(block_count, block_size);
    match size {
        None => Ok(device),
        Some(size) => if size <= device || size <= saturating_product(max_block_count, block_size) {
            Ok(size)
        } else {
            Err(ErrorKind::NoSpace)
        },
    }
}

/// The bytes of the volume `size` asks for on a device of `block_count`
/// blocks of `block_size` bytes that can grow to `max_block_count`: the
/// whole device without a size, else the size if the device holds it or
/// can grow to hold it.
pub fn volume_bytes(size: Option<u64>, block_size: u64, block_count: u64, max_block_count: u64) -> (r:
    Result<u64, ErrorKind>)
    ensures
        r == spec_volume_bytes(size, block_size, block_count, max_block_count),
{
    let device = saturating_mul(block_count, block_size);
    match size {
        None => Ok(device),
        Some(size) => if size <= device || size <= saturating_mul(max_block_count, block_size) {
            Ok(size)
        } else {
            Err(ErrorKind::NoSpace)
        },
    }
}

/// The sectors before the volume on its disk, `offset` bytes in: bad input
/// unless that is a whole number of sectors.
pub fn offset_sectors(offset: u64, sector_size: u64) -> (r: Result<u64, ErrorKind>)
    requires
        sector_size > 0,
    ensures
        r == (if offset % sector_size != 0 {
            Err(ErrorKind::InvalidInput)
        } else {
            Ok::<u64, ErrorKind>(offset / sector_size)
        }),
{
    if offset % sector_size != 0 {
        return Err(ErrorKind::InvalidInput);
    }
    Ok(offset / sector_size)
}

/// `request` with `reserved` reserved sectors.
pub open spec fn with_reserved(request: Request, reserved: u16) -> Request {
    Request { reserved_sectors: Some(reserved), ..request }
}

/// One step of aligning `layout`: `None` when its data region starts on a
/// multiple of `align`, else the layout planned with the sectors it falls
/// short added to the reserved ones.
pub open spec fn align_step(request: Request, align: int, layout: Layout) -> Result<
    Option<Layout>,
    ErrorKind,
> {
    let short = (align - layout.spec_data_start() % align) % align;
    if short == 0 {
        Ok(None)
    } else {
        let reserved = layout.reserved_sectors + short / (request.sector_size as int);
        if reserved > u16::MAX {
            Err(ErrorKind::LimitExceeded)
        } else {
            match spec_plan(with_reserved(request, reserved as u16)) {
                Ok(next) => Ok(Some(next)),
                Err(e) => Err(spec_layout_error(e)),
            }
        }
    }
}

/// What aligning `layout` finds in at most `tries` more plans.
pub open spec fn align_tries(request: Request, align: int, layout: Layout, tries: nat) -> Result<
    Layout,
    ErrorKind,
>
    decreases tries,
{
    if tries == 0 {
        Err(ErrorKind::LimitExceeded)
    } else {
        match align_step(request, align, layout) {
            Ok(None) => Ok(layout),
            Ok(Some(next)) => align_tries(request, align, next, (tries - 1) as nat),
            Err(e) => Err(e),
        }
    }
}

/// The layout [`plan_aligned`] gives.
pub open spec fn spec_plan_aligned(request: Request, alignment: Option<u32>) -> Result<
    Layout,
    ErrorKind,
> {
    match spec_plan(request) {
        Err(e) => Err(spec_layout_error(e)),
        Ok(layout) => match alignment {
            None => Ok(layout),
            Some(align) => if !is_pow2(align as int) || align < request.sector_size {
                Err(ErrorKind::InvalidInput)
            } else {
                align_tries(request, align as int, layout, 8)
            },
        },
    }
}

/// One step of aligning `layout` to `align`.
fn realign(request: &Request, layout: &Layout, align: u64) -> (r: Result<Option<Layout>, ErrorKind>)
    requires
        layout.wf(),
        512 <= request.sector_size <= align <= u32::MAX,
    ensures
        r == align_step(*request, align as int, *layout),
        r matches Ok(Some(next)) ==> next.wf() && next.sector_size == request.sector_size,
{
    proof {
        lemma_bounded_offsets(*layout);
    }
    let start = layout.data_start();
    let short = (align - start % align) % align;
    if short == 0 {
        return Ok(None);
    }
    let reserved = layout.reserved_sectors as u64 + short / request.sector_size as u64;
    if reserved > u16::MAX as u64 {
        return Err(ErrorKind::LimitExceeded);
    }
    let next = Request { reserved_sectors: Some(reserved as u16), ..*request };
    assert(next == with_reserved(*request, reserved as u16));
    match plan(&next) {
        Ok(layout) => {
            proof {
                lemma_plan_wf(next);
            }
            Ok(Some(layout))
        },
        Err(e) => Err(layout_error(e)),
    }
}

/// Plans the layout, adding reserved sectors until the data region starts
/// on a multiple of `alignment`, in at most eight tries.
pub fn plan_aligned(request: &Request, alignment: Option<u32>) -> (r: Result<Layout, ErrorKind>)
    ensures
        r == spec_plan_aligned(*request, alignment),
{
    let mut layout = match plan(request) {
        Ok(layout) => layout,
        Err(e) => return Err(layout_error(e)),
    };
    proof {
        lemma_plan_wf(*request);
    }
    let align = match alignment {
        None => return Ok(layout),
        Some(align) => align,
    };
    if !is_power_of_two(align) || align < request.sector_size {
        return Err(ErrorKind::InvalidInput);
    }
    let align = align as u64;
    let ghost goal = spec_plan_aligned(*request, alignment);
    let mut tries: u32 = 8;
    while tries > 0
        invariant
            layout.wf(),
            layout.sector_size == request.sector_size,
            512 <= request.sector_size <= align <= u32::MAX,
            tries <= 8,
            goal == spec_plan_aligned(*request, alignment),
            goal == align_tries(*request, align as int, layout, tries as nat),
        decreases tries,
    {
        match realign(request, &layout, align) {
            Ok(None) => return Ok(layout),
            Ok(Some(next)) => layout = next,
            Err(e) => return Err(e),
        }
        tries -= 1;
    }
    Err(ErrorKind::LimitExceeded)
}

/// What aligning finds is consistent and starts its data region on a
/// multiple of the alignment.
proof fn lemma_align_tries(request: Request, align: int, layout: Layout, tries: nat)
    requires
        align >= 1,
        layout.wf(),
        align_tries(request, align, layout, tries) is Ok,
    ensures
        align_tries(request, align, layout, tries)->Ok_0.wf(),
        align_tries(request, align, layout, tries)->Ok_0.spec_data_start() % align == 0,
    decreases tries,
{
    match align_step(request, align, layout) {
        Ok(None) => {
            let ds = layout.spec_data_start();
            vstd::arithmetic::div_mod::lemma_mod_pos_bound(ds, align);
            if ds % align != 0 {
                vstd::arithmetic::div_mod::lemma_small_mod((align - ds % align) as nat, align as nat);
            }
        },
        Ok(Some(next)) => {
            let short = (align - layout.spec_data_start() % align) % align;
            let reserved = layout.reserved_sectors + short / (request.sector_size as int);
            lemma_plan_wf(with_reserved(request, reserved as u16));
            lemma_align_tries(request, align, next, (tries - 1) as nat);
        },
        Err(_) => {},
    }
}

/// A layout planned with an alignment is consistent, and its data region
/// starts on a multiple of the alignment.
pub proof fn lemma_plan_aligned(request: Request, align: u32)
    requires
        spec_plan_aligned(request, Some(align)) is Ok,
    ensures
        spec_plan_aligned(request, Some(align))->Ok_0.wf(),
        spec_plan_aligned(request, Some(align))->Ok_0.spec_data_start() % (align as int) == 0,
{
    lemma_plan_wf(request);
    let layout = spec_plan(request)->Ok_0;
    assert(align >= 1);
    lemma_align_tries(request, align as int, layout, 8);
}

/// The sector size a format uses: the one asked for, else the device's
/// block size when that is 512 to 4096 bytes, else 512.
pub open spec fn spec_sector_size(options: FatOptions, block_size: u64) -> u32 {
    match options.sector_size {
        Some(size) => size,
        None => if block_size == 512 || block_size == 1024 || block_size == 2048 || block_size
            == 4096 {
            block_size as u32
        } else {
            512
        },
    }
}

/// The layout request of a format of `bytes` with sectors of
/// `sector_size`.
pub open spec fn format_request(options: FatOptions, sector_size: u32, bytes: u64) -> Request {
    Request {
        kind: options.kind,
        sector_size,
        total_sectors: bytes / (if sector_size < 1 {
            1
        } else {
            sector_size
        }) as u64,
        cluster_size: options.cluster_size,
        reserved_sectors: options.reserved_sectors,
        fat_count: options.fat_count,
        root_entries: options.root_entries,
    }
}

/// The layout, hidden sectors and volume length a format decides, or why
/// it fails: a media byte other than `0xF0` or `0xF8` to `0xFF`, a volume
/// the device cannot hold, no layout, or a partition offset that is not a
/// whole number of sectors or lies too far in.
pub open spec fn spec_format_layout(
    options: FatOptions,
    block_size: u64,
    block_count: u64,
    max_block_count: u64,
    disk_offset: u64,
) -> Result<(Layout, u32, u64), ErrorKind> {
    if !(options.media == 0xF0 || options.media >= 0xF8) {
        Err(ErrorKind::InvalidInput)
    } else {
        match spec_volume_bytes(options.size, block_size, block_count, max_block_count) {
            Err(e) => Err(e),
            Ok(bytes) => {
                let ss = spec_sector_size(options, block_size);
                match spec_plan_aligned(format_request(options, ss, bytes), options.alignment) {
                    Err(e) => Err(e),
                    Ok(layout) => {
                        let offset = match options.partition_offset {
                            Some(offset) => offset,
                            None => disk_offset,
                        };
                        if offset % (ss as u64) != 0 {
                            Err(ErrorKind::InvalidInput)
                        } else if offset / (ss as u64) > u32::MAX {
                            Err(ErrorKind::LimitExceeded)
                        } else {
                            Ok((layout, (offset / (ss as u64)) as u32, (layout.total_sectors * ss) as u64))
                        }
                    },
                }
            },
        }
    }
}

/// What a format writes besides the data: the layout, the boot sector's
/// fields and the volume's length in bytes.
#[derive(Debug, Clone, Copy)]
pub struct FormatPlan {
    /// The layout.
    pub layout: Layout,
    /// The boot sector fields that do not follow from the layout.
    pub fields: BootFields,
    /// The volume's length in bytes.
    pub volume: u64,
}

/// Decides a format of a device of `block_count` blocks of `block_size`
/// bytes that can grow to `max_block_count` and starts `disk_offset`
/// bytes into its disk: the layout, with the data region aligned when
/// asked, the boot sector's fields, the serial derived unless given, and
/// the volume's length.
pub fn format_layout(
    options: &FatOptions,
    block_size: u64,
    block_count: u64,
    max_block_count: u64,
    disk_offset: u64,
) -> (r: Result<FormatPlan, ErrorKind>)
    ensures
        match spec_format_layout(*options, block_size, block_count, max_block_count, disk_offset) {
            Ok((layout, hidden, volume)) => r matches Ok(p) && {
                &&& p.layout == layout
                &&& p.volume == volume
                &&& p.fields.hidden_sectors == hidden
                &&& p.fields.oem_name == options.oem_name
                &&& p.fields.media == options.media
                &&& p.fields.volume_id == match options.serial {
                    Some(serial) => serial,
                    None => spec_serial(options.time, options.seed),
                }
                &&& match options.label {
                    Some(label) => p.fields.label matches Some(bytes) && bytes@ == label.spec_bytes(),
                    None => p.fields.label is None,
                }
            },
            Err(e) => r == Err::<FormatPlan, ErrorKind>(e),
        },
{
    let media = options.media;
    if !(media == 0xF0 || media >= 0xF8) {
        return Err(ErrorKind::InvalidInput);
    }
    let bytes = match volume_bytes(options.size, block_size, block_count, max_block_count) {
        Ok(bytes) => bytes,
        Err(e) => return Err(e),
    };
    let sector_size: u32 = match options.sector_size {
        Some(size) => size,
        None => if block_size == 512 || block_size == 1024 || block_size == 2048 || block_size
            == 4096 {
            block_size as u32
        } else {
            512
        },
    };
    let divisor: u32 = if sector_size < 1 {
        1
    } else {
        sector_size
    };
    let request = Request {
        kind: options.kind,
        sector_size,
        total_sectors: bytes / divisor as u64,
        cluster_size: options.cluster_size,
        reserved_sectors: options.reserved_sectors,
        fat_count: options.fat_count,
        root_entries: options.root_entries,
    };
    assert(request == format_request(*options, sector_size, bytes));
    let layout = match plan_aligned(&request, options.alignment) {
        Ok(layout) => layout,
        Err(e) => return Err(e),
    };
    proof {
        lemma_plan_wf(request);
    }
    let offset = match options.partition_offset {
        Some(offset) => offset,
        None => disk_offset,
    };
    let hidden = match offset_sectors(offset, sector_size as u64) {
        Ok(hidden) => hidden,
        Err(e) => return Err(e),
    };
    if hidden > u32::MAX as u64 {
        return Err(ErrorKind::LimitExceeded);
    }
    let volume_id = match options.serial {
        Some(serial) => serial,
        None => serial(options.time, options.seed),
    };
    let label = match options.label {
        Some(label) => Some(*label.as_bytes()),
        None => None,
    };
    assert(layout.total_sectors * sector_size <= u32::MAX * 4096) by (nonlinear_arith)
        requires
            sector_size <= 4096,
    ;
    let volume = layout.total_sectors as u64 * sector_size as u64;
    Ok(
        FormatPlan {
            layout,
            fields: BootFields {
                oem_name: options.oem_name,
                media,
                hidden_sectors: hidden as u32,
                volume_id,
                label,
            },
            volume,
        },
    )
}

/// The times a node written from a tree carries: each of its `created`,
/// `modified` and `accessed` times that is set, and `time` for each that
/// is not.
pub fn stamped_times(
    created: Option<Timestamp>,
    modified: Option<Timestamp>,
    accessed: Option<Timestamp>,
    time: Timestamp,
) -> (r: (Timestamp, Timestamp, Timestamp))
    ensures
        r.0 == (match created {
            Some(t) => t,
            None => time,
        }),
        r.1 == (match modified {
            Some(t) => t,
            None => time,
        }),
        r.2 == (match accessed {
            Some(t) => t,
            None => time,
        }),
{
    let c = match created {
        Some(t) => t,
        None => time,
    };
    let m = match modified {
        Some(t) => t,
        None => time,
    };
    let a = match accessed {
        Some(t) => t,
        None => time,
    };
    (c, m, a)
}

} // verus!
