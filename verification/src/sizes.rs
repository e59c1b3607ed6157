//! How many bytes an allocation call asks for.
use crate::counter::MAX_ALLOC_SIZE;
use vstd::prelude::*;

verus! {

/// The largest number of levels of a mipmapped array that is looked at.
pub const MAX_MIP_LEVELS: u32 = 32;

/// The extent of a three-dimensional allocation.
#[derive(Clone, Copy)]
pub struct HipExtent {
    /// The width, in bytes or elements.
    pub width: usize,
    /// The height.
    pub height: usize,
    /// The depth.
    pub depth: usize,
}

/// The bit widths of the channels of an element.
#[derive(Clone, Copy)]
pub struct HipChannelFormatDesc {
    /// The bits of the first channel.
    pub x: i32,
    /// The bits of the second channel.
    pub y: i32,
    /// The bits of the third channel.
    pub z: i32,
    /// The bits of the fourth channel.
    pub w: i32,
    /// The kind of number, which does not matter here.
    pub f: i32,
}

/// A two-dimensional array of the driver interface.
#[derive(Clone, Copy)]
pub struct HipArrayDescriptor {
    /// The width in elements.
    pub width: usize,
    /// The height.
    pub height: usize,
    /// The format of a channel.
    pub format: i32,
    /// The number of channels.
    pub num_channels: u32,
}

/// A three-dimensional array of the driver interface.
#[derive(Clone, Copy)]
pub struct HipArray3DDescriptor {
    /// The width in elements.
    pub width: usize,
    /// The height.
    pub height: usize,
    /// The depth.
    pub depth: usize,
    /// The format of a channel.
    pub format: i32,
    /// The number of channels.
    pub num_channels: u32,
    /// Flags, which do not matter here.
    pub flags: u32,
}

/// The result of a pitched allocation in three dimensions.
#[derive(Clone, Copy)]
pub struct HipPitchedPtr {
    /// The address.
    pub ptr: usize,
    /// The distance between two rows in bytes.
    pub pitch: usize,
    /// The width.
    pub xsize: usize,
    /// The height.
    pub ysize: usize,
}

/// The product of the first `n` dimensions.
pub open spec fn product(dims: Seq<usize>, n: nat) -> nat
    decreases n,
{
    if n == 0 {
        1
    } else {
        product(dims, (n - 1) as nat) * dims[n - 1] as nat
    }
}

/// Multiplies dimensions. Returns `None` where the product of the first few exceeds
/// what an address can hold, or the whole product the largest request.
pub fn checked_pitched_size(dims: &[usize]) -> (r: Option<u64>)
    ensures
        r == (if (forall|n: nat| n <= dims@.len() ==> #[trigger] product(dims@, n) <= usize::MAX)
            && product(dims@, dims@.len()) <= usize::MAX / 2 {
            Some(product(dims@, dims@.len()) as u64)
        } else {
            None
        }),
{
    let mut size: usize = 1;
    let mut i: usize = 0;
    while i < dims.len()
        invariant
            i <= dims@.len(),
            size == product(dims@, i as nat),
            forall|n: nat| n <= i ==> #[trigger] product(dims@, n) <= usize::MAX,
        decreases dims@.len() - i,
    {
        assert(product(dims@, (i + 1) as nat) == size * dims@[i as int]);
        match size.checked_mul(dims[i]) {
            Some(next) => {
                size = next;
            },
            None => {
                return None;
            },
        }
        i = i + 1;
    }
    if size <= usize::MAX / 2 {
        Some(size as u64)
    } else {
        None
    }
}

/// The bytes of one channel of an array format.
pub open spec fn format_bytes(format: i32) -> Option<u64> {
    if format == 0x01 || format == 0x08 {
        Some(1)
    } else if format == 0x02 || format == 0x09 || format == 0x10 {
        Some(2)
    } else if format == 0x03 || format == 0x0a || format == 0x20 {
        Some(4)
    } else {
        None
    }
}

/// The bytes of one channel of an array format: eight, sixteen or thirty-two bit
/// integers with or without sign, and half and single precision. Other formats are
/// not known.
pub fn array_format_bytes(format: i32) -> (r: Option<u64>)
    ensures
        r == format_bytes(format),
{
    match format {
        0x01 | 0x08 => Some(1),
        0x02 | 0x09 | 0x10 => Some(2),
        0x03 | 0x0a | 0x20 => Some(4),
        _ => None,
    }
}

/// The bits of an element.
pub open spec fn element_bits(desc: HipChannelFormatDesc) -> int {
    desc.x + desc.y + desc.z + desc.w
}

/// The channels of an element make whole bytes.
pub open spec fn whole_bytes(desc: HipChannelFormatDesc) -> bool {
    &&& desc.x >= 0
    &&& desc.y >= 0
    &&& desc.z >= 0
    &&& desc.w >= 0
    &&& element_bits(desc) > 0
    &&& element_bits(desc) % 8 == 0
}

/// The bytes of an element. Returns `None` for a negative width, and where the
/// widths do not add up to whole bytes.
pub fn channel_desc_bytes_per_elem(desc: &HipChannelFormatDesc) -> (r: Option<u64>)
    ensures
        r == (if whole_bytes(*desc) {
            Some((element_bits(*desc) / 8) as u64)
        } else {
            None
        }),
        r is Some <==> {
            &&& desc.x >= 0 && desc.y >= 0 && desc.z >= 0 && desc.w >= 0
            &&& desc.x + desc.y + desc.z + desc.w > 0
            &&& (desc.x + desc.y + desc.z + desc.w) % 8 == 0
        },
        r matches Some(n) ==> 8 * n == desc.x + desc.y + desc.z + desc.w,
{
    if desc.x < 0 || desc.y < 0 || desc.z < 0 || desc.w < 0 {
        return None;
    }
    let total_bits: u64 = (desc.x as u64) + (desc.y as u64) + (desc.z as u64) + (desc.w as u64);
    if total_bits == 0 || total_bits % 8 != 0 {
        return None;
    }
    Some(total_bits / 8)
}

/// A dimension, where zero stands for a missing one.
pub open spec fn at_least_one(n: usize) -> nat {
    if n == 0 {
        1
    } else {
        n as nat
    }
}

/// The bytes of an array of the given element size.
pub open spec fn array_bytes(bytes_per_elem: nat, width: nat, height: nat, depth: nat) -> nat {
    bytes_per_elem * width * height * depth
}

/// Multiplying with a missing factor filled in never makes less.
proof fn lemma_array_bytes_parts(bytes_per_elem: nat, width: nat, height: nat, depth: nat)
    requires
        height >= 1,
        depth >= 1,
    ensures
        bytes_per_elem * width <= array_bytes(bytes_per_elem, width, height, depth),
        bytes_per_elem * width * height <= array_bytes(bytes_per_elem, width, height, depth),
{
    assert(bytes_per_elem * width <= bytes_per_elem * width * height) by (nonlinear_arith)
        requires
            height >= 1,
            bytes_per_elem * width >= 0,
    ;
    assert(bytes_per_elem * width * height <= bytes_per_elem * width * height * depth)
        by (nonlinear_arith)
        requires
            depth >= 1,
            bytes_per_elem * width * height >= 0,
    ;
}

/// Multiplies an element size with three dimensions.
fn checked_array_bytes(
    bytes_per_elem: u64,
    width: usize,
    height: usize,
    depth: usize,
) -> (r: Option<u64>)
    requires
        height >= 1,
        depth >= 1,
    ensures
        r == (if array_bytes(bytes_per_elem as nat, width as nat, height as nat, depth as nat)
            <= u64::MAX {
            Some(
                array_bytes(
                    bytes_per_elem as nat,
                    width as nat,
                    height as nat,
                    depth as nat,
                ) as u64,
            )
        } else {
            None
        }),
{
    proof {
        lemma_array_bytes_parts(
            bytes_per_elem as nat,
            width as nat,
            height as nat,
            depth as nat,
        );
    }
    match bytes_per_elem.checked_mul(width as u64) {
        None => None,
        Some(row) => match row.checked_mul(height as u64) {
            None => None,
            Some(plane) => plane.checked_mul(depth as u64),
        },
    }
}

/// The bytes of an array, where they are no more than the largest request.
pub open spec fn bounded(bytes: nat) -> Option<u64> {
    if bytes <= MAX_ALLOC_SIZE {
        Some(bytes as u64)
    } else {
        None
    }
}

/// The bytes of an array with a channel format. Returns `None` for a format without
/// whole bytes, and for more bytes than the largest request.
pub fn channel_desc_alloc_size(
    desc: &HipChannelFormatDesc,
    width: usize,
    height: usize,
    depth: usize,
) -> (r: Option<u64>)
    ensures
        r == (if whole_bytes(*desc) {
            bounded(
                array_bytes(
                    (element_bits(*desc) / 8) as nat,
                    width as nat,
                    at_least_one(height),
                    at_least_one(depth),
                ),
            )
        } else {
            None
        }),
{
    match channel_desc_bytes_per_elem(desc) {
        None => None,
        Some(bytes_per_elem) => {
            let h: usize = if height == 0 {
                1
            } else {
                height
            };
            let d: usize = if depth == 0 {
                1
            } else {
                depth
            };
            match checked_array_bytes(bytes_per_elem, width, h, d) {
                None => None,
                Some(size) => if size <= MAX_ALLOC_SIZE {
                    Some(size)
                } else {
                    None
                },
            }
        },
    }
}

/// The bytes of an array of the driver interface. Returns `None` for a format that is
/// not known, and for more bytes than the largest request.
pub fn driver_array_alloc_size(
    format: i32,
    num_channels: u32,
    width: usize,
    height: usize,
    depth: usize,
) -> (r: Option<u64>)
    ensures
        r == (match format_bytes(format) {
            Some(channel_bytes) => bounded(
                array_bytes(
                    channel_bytes as nat * num_channels as nat,
                    width as nat,
                    at_least_one(height),
                    at_least_one(depth),
                ),
            ),
            None => None,
        }),
{
    match array_format_bytes(format) {
        None => None,
        Some(channel_bytes) => {
            let h: usize = if height == 0 {
                1
            } else {
                height
            };
            let d: usize = if depth == 0 {
                1
            } else {
                depth
            };
            assert(channel_bytes * num_channels <= 4 * 0xffff_ffff) by (nonlinear_arith)
                requires
                    0 <= channel_bytes <= 4,
                    0 <= num_channels <= 0xffff_ffff,
            ;
            let bytes_per_elem: u64 = channel_bytes * num_channels as u64;
            match checked_array_bytes(bytes_per_elem, width, h, d) {
                None => None,
                Some(size) => if size <= MAX_ALLOC_SIZE {
                    Some(size)
                } else {
                    None
                },
            }
        },
    }
}

/// A dimension at a level: each level halves it, down to one.
pub open spec fn mip_dim(n: nat, level: nat) -> nat
    decreases level,
{
    if level == 0 {
        n
    } else {
        let half = mip_dim(n, (level - 1) as nat) / 2;
        if half == 0 {
            1
        } else {
            half
        }
    }
}

/// The bytes of one level.
pub open spec fn mip_level_bytes(
    bytes_per_elem: nat,
    width: nat,
    height: nat,
    depth: nat,
    level: nat,
) -> nat {
    array_bytes(bytes_per_elem, mip_dim(width, level), mip_dim(height, level), mip_dim(depth, level))
}

/// The bytes of the first `n` levels.
pub open spec fn mip_bytes(bytes_per_elem: nat, width: nat, height: nat, depth: nat, n: nat) -> nat
    decreases n,
{
    if n == 0 {
        0
    } else {
        mip_bytes(bytes_per_elem, width, height, depth, (n - 1) as nat) + mip_level_bytes(
            bytes_per_elem,
            width,
            height,
            depth,
            (n - 1) as nat,
        )
    }
}

/// More levels take no fewer bytes.
pub proof fn law_more_levels_take_more(
    bytes_per_elem: nat,
    width: nat,
    height: nat,
    depth: nat,
    n: nat,
    m: nat,
)
    requires
        n <= m,
    ensures
        mip_bytes(bytes_per_elem, width, height, depth, n) <= mip_bytes(
            bytes_per_elem,
            width,
            height,
            depth,
            m,
        ),
    decreases m - n,
{
    if n < m {
        law_more_levels_take_more(bytes_per_elem, width, height, depth, n + 1, m);
    }
}

/// Half of a dimension, down to one.
fn halved(n: usize) -> (r: usize)
    ensures
        r == (if n / 2 == 0 {
            1int
        } else {
            n as int / 2
        }),
{
    let half: usize = n / 2;
    if half == 0 {
        1
    } else {
        half
    }
}

/// The bytes of a mipmapped array: the sum over its levels. Returns `None` for more
/// than thirty-two levels, and for more bytes than the largest request.
pub fn mip_chain_total_size(
    bytes_per_elem: u64,
    width: usize,
    height: usize,
    depth: usize,
    num_levels: u32,
) -> (r: Option<u64>)
    ensures
        r == (if num_levels > MAX_MIP_LEVELS {
            None
        } else {
            bounded(
                mip_bytes(
                    bytes_per_elem as nat,
                    width as nat,
                    at_least_one(height),
                    at_least_one(depth),
                    num_levels as nat,
                ),
            )
        }),
        num_levels > 32 ==> r is None,
        num_levels <= 32 ==> (r is Some <==> mip_bytes(
            bytes_per_elem as nat,
            width as nat,
            at_least_one(height),
            at_least_one(depth),
            num_levels as nat,
        ) <= u64::MAX / 2),
{
    if num_levels > MAX_MIP_LEVELS {
        return None;
    }
    let mut total: u64 = 0;
    let mut w: usize = width;
    let mut h: usize = if height == 0 {
        1
    } else {
        height
    };
    let mut d: usize = if depth == 0 {
        1
    } else {
        depth
    };
    let ghost b = bytes_per_elem as nat;
    let ghost (w0, h0, d0) = (width as nat, at_least_one(height), at_least_one(depth));
    let mut level: u32 = 0;
    while level < num_levels
        invariant
            level <= num_levels,
            b == bytes_per_elem,
            w0 == width,
            h0 == at_least_one(height),
            d0 == at_least_one(depth),
            w == mip_dim(w0, level as nat),
            h == mip_dim(h0, level as nat),
            d == mip_dim(d0, level as nat),
            h >= 1,
            d >= 1,
            total == mip_bytes(b, w0, h0, d0, level as nat),
        decreases num_levels - level,
    {
        proof {
            law_more_levels_take_more(b, w0, h0, d0, (level + 1) as nat, num_levels as nat);
            assert(mip_bytes(b, w0, h0, d0, (level + 1) as nat) == total + mip_level_bytes(
                b,
                w0,
                h0,
                d0,
                level as nat,
            ));
        }
        match checked_array_bytes(bytes_per_elem, w, h, d) {
            None => {
                return None;
            },
            Some(size) => match total.checked_add(size) {
                None => {
                    return None;
                },
                Some(sum) => {
                    total = sum;
                },
            },
        }
        w = halved(w);
        h = halved(h);
        d = halved(d);
        level = level + 1;
    }
    if total <= MAX_ALLOC_SIZE {
        Some(total)
    } else {
        None
    }
}

/// One level of a mipmapped array is a plain array.
pub proof fn law_one_level_is_an_array(bytes_per_elem: nat, width: nat, height: nat, depth: nat)
    ensures
        mip_bytes(bytes_per_elem, width, height, depth, 1) == array_bytes(
            bytes_per_elem,
            width,
            height,
            depth,
        ),
        mip_bytes(bytes_per_elem, width, height, depth, 0) == 0,
{
    reveal_with_fuel(mip_bytes, 2);
}

/// Without a zero among the dimensions, the whole product alone decides whether a
/// pitched size is known.
pub proof fn law_nonzero_dimensions(dims: Seq<usize>, n: nat)
    requires
        n <= dims.len(),
        forall|i: int| 0 <= i < dims.len() ==> #[trigger] dims[i] > 0,
    ensures
        1 <= product(dims, n) <= product(dims, dims.len()),
    decreases dims.len() - n,
{
    lemma_product_positive(dims, n);
    if n < dims.len() {
        law_nonzero_dimensions(dims, n + 1);
        assert(product(dims, n) <= product(dims, n) * dims[n as int]) by (nonlinear_arith)
            requires
                dims[n as int] >= 1,
                product(dims, n) >= 0,
        ;
    }
}

/// A product of positive factors is positive.
proof fn lemma_product_positive(dims: Seq<usize>, n: nat)
    requires
        n <= dims.len(),
        forall|i: int| 0 <= i < dims.len() ==> #[trigger] dims[i] > 0,
    ensures
        product(dims, n) >= 1,
    decreases n,
{
    if n > 0 {
        lemma_product_positive(dims, (n - 1) as nat);
        assert(product(dims, (n - 1) as nat) * dims[n - 1] >= 1) by (nonlinear_arith)
            requires
                dims[n - 1] >= 1,
                product(dims, (n - 1) as nat) >= 1,
        ;
    }
}

/// An element takes what its four channels take: eight bits of any channel are a byte, and
/// a description is refused exactly where a channel is negative or the bits make no whole
/// bytes.
pub proof fn law_elements_are_their_channels(desc: HipChannelFormatDesc)
    ensures
        whole_bytes(desc) <==> desc.x >= 0 && desc.y >= 0 && desc.z >= 0 && desc.w >= 0 && desc.x
            + desc.y + desc.z + desc.w > 0 && (desc.x + desc.y + desc.z + desc.w) % 8 == 0,
        whole_bytes(desc) ==> 8 * (element_bits(desc) / 8) == desc.x + desc.y + desc.z + desc.w,
        forall|other: HipChannelFormatDesc|
            other.x == desc.x && other.y == desc.y && other.z == desc.z && other.w == desc.w
                ==> #[trigger] element_bits(other) == element_bits(desc),
{
}

/// Eight bits more in any one channel are one byte more per element.
pub proof fn law_each_channel_counts(desc: HipChannelFormatDesc, more: HipChannelFormatDesc)
    requires
        whole_bytes(desc),
        more.x >= desc.x && more.y >= desc.y && more.z >= desc.z && more.w >= desc.w,
        (more.x - desc.x) + (more.y - desc.y) + (more.z - desc.z) + (more.w - desc.w) == 8,
    ensures
        whole_bytes(more),
        element_bits(more) / 8 == element_bits(desc) / 8 + 1,
{
}

/// The formats of a channel, by the width of the numbers that they are made of: an integer
/// with a sign takes as much as the one without, which comes seven places before it.
pub proof fn law_formats_by_width(format: i32)
    ensures
        format_bytes(format) == Some(1u64) <==> format == 1 || format == 8,
        format_bytes(format) == Some(2u64) <==> format == 2 || format == 9 || format == 16,
        format_bytes(format) == Some(4u64) <==> format == 3 || format == 10 || format == 32,
        format_bytes(format) is Some ==> 1 <= format <= 3 || 8 <= format <= 10 || format == 16
            || format == 32,
        1 <= format <= 3 ==> format_bytes((format + 7) as i32) == format_bytes(format),
{
}

/// A missing dimension counts as one, and a request is at most half of what can be counted.
pub proof fn law_arrays_are_products(bytes: nat, width: nat, height: usize, depth: usize)
    ensures
        at_least_one(0) == 1,
        height > 0 ==> at_least_one(height) == height,
        array_bytes(bytes, width, at_least_one(height), at_least_one(depth)) == bytes * width * (if
        height == 0 {
            1
        } else {
            height as int
        }) * (if depth == 0 {
            1
        } else {
            depth as int
        }),
        bounded(bytes) is Some <==> bytes <= u64::MAX / 2,
        bounded(bytes) matches Some(n) ==> n == bytes,
{
}

/// Two to the power of `n`.
pub open spec fn halvings(n: nat) -> nat
    decreases n,
{
    if n == 0 {
        1
    } else {
        2 * halvings((n - 1) as nat)
    }
}

/// Level `level` of a dimension is the dimension divided by two to that power, down to one.
pub proof fn law_levels_halve(n: nat, level: nat)
    requires
        n > 0,
    ensures
        halvings(level) > 0,
        mip_dim(n, level) == (if n / halvings(level) > 0 {
            n / halvings(level)
        } else {
            1
        }),
    decreases level,
{
    if level > 0 {
        let k = (level - 1) as nat;
        law_levels_halve(n, k);
        let p = halvings(k);
        assert(n / (2 * p) == (n / p) / 2) by (nonlinear_arith)
            requires
                p > 0,
                n >= 0,
        ;
    } else {
        assert(n / 1 == n);
    }
}

/// A mipmapped array is its first level, and the mipmapped array of half its dimensions
/// with one level less.
pub proof fn law_first_level_and_the_rest(bytes: nat, width: nat, height: nat, depth: nat, n: nat)
    requires
        n > 0,
    ensures
        mip_bytes(bytes, width, height, depth, n) == bytes * width * height * depth + mip_bytes(
            bytes,
            if width / 2 > 0 {
                width / 2
            } else {
                1
            },
            if height / 2 > 0 {
                height / 2
            } else {
                1
            },
            if depth / 2 > 0 {
                depth / 2
            } else {
                1
            },
            (n - 1) as nat,
        ),
        mip_bytes(bytes, width, height, depth, 0) == 0,
    decreases n,
{
    let (w, h, d) = (
        if width / 2 > 0 {
            width / 2
        } else {
            1
        },
        if height / 2 > 0 {
            height / 2
        } else {
            1
        },
        if depth / 2 > 0 {
            depth / 2
        } else {
            1
        },
    );
    if n > 1 {
        law_first_level_and_the_rest(bytes, width, height, depth, (n - 1) as nat);
        lemma_next_level(width, (n - 1) as nat);
        lemma_next_level(height, (n - 1) as nat);
        lemma_next_level(depth, (n - 1) as nat);
    } else {
        reveal_with_fuel(mip_bytes, 2);
    }
}

/// A level of a dimension is the level before of its half.
proof fn lemma_next_level(n: nat, level: nat)
    requires
        level > 0,
    ensures
        mip_dim(n, level) == mip_dim(
            if n / 2 > 0 {
                n / 2
            } else {
                1
            },
            (level - 1) as nat,
        ),
    decreases level,
{
    if level > 1 {
        lemma_next_level(n, (level - 1) as nat);
    } else {
        reveal_with_fuel(mip_dim, 2);
    }
}

/// A pitched request in two or three dimensions is the product of its dimensions.
pub proof fn law_pitched_sizes_are_products(width: usize, height: usize, depth: usize)
    ensures
        product(seq![width, height], 2) == width * height,
        product(seq![width, height, depth], 3) == width * height * depth,
        product(seq![width, height], 1) == width,
        product(seq![width, height], 0) == 1,
{
    let two = seq![width, height];
    let three = seq![width, height, depth];
    assert(product(two, 0) == 1 && product(three, 0) == 1);
    assert(product(two, 1) == 1 * two[0]);
    assert(product(three, 1) == 1 * three[0]);
    assert(1 * width == width) by (nonlinear_arith);
    assert(product(two, 2) == product(two, 1) * two[1]);
    assert(product(three, 2) == product(three, 1) * three[1]);
    assert(product(three, 3) == product(three, 2) * three[2]);
}

} // verus!
