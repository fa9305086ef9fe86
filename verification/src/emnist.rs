//! The byte formats around the dataset: the big-endian headers of the
//! label and image files, the image-to-bitmap transposition, the bitmap
//! export used to inspect parsed images, and the encoding of labels and
//! pixels as fixed-point columns.  File reading itself is the caller's
//! concern; everything here works on plain bytes.

use vstd::prelude::*;

use crate::fixed::{fx_in_range, FX_SCALE};

verus! {

/// The big-endian 32-bit integer stored at offset `off`.
pub open spec fn be_u32_at(s: Seq<u8>, off: int) -> int {
    (s[off] as int) * 0x1000000 + (s[off + 1] as int) * 0x10000 + (s[off + 2] as int) * 0x100 + (
    s[off + 3] as int)
}

/// The four little-endian bytes of a 32-bit value.
pub open spec fn le4(x: int) -> Seq<int> {
    seq![x % 256, x / 256 % 256, x / 65536 % 256, x / 16777216 % 256]
}

/// The two little-endian bytes of a 16-bit value.
pub open spec fn le2(x: int) -> Seq<int> {
    seq![x % 256, x / 256 % 256]
}

/// Read a big-endian 32-bit integer from four bytes.
fn read_be_u32(b0: u8, b1: u8, b2: u8, b3: u8) -> (r: u32)
    ensures
        r as int == (b0 as int) * 0x1000000 + (b1 as int) * 0x10000 + (b2 as int) * 0x100 + (
        b3 as int),
{
    (b0 as u32) * 0x1000000 + (b1 as u32) * 0x10000 + (b2 as u32) * 0x100 + (b3 as u32)
}

/// Append the four little-endian bytes of a 32-bit value.
fn push_le4(out: &mut Vec<u8>, x: u32)
    ensures
        final(out)@.len() == old(out)@.len() + 4,
        final(out)@.map_values(|b: u8| b as int) == old(out)@.map_values(|b: u8| b as int) + le4(
            x as int,
        ),
{
    out.push((x % 256) as u8);
    out.push((x / 256 % 256) as u8);
    out.push((x / 65536 % 256) as u8);
    out.push((x / 16777216 % 256) as u8);
    proof {
        assert(final(out)@.map_values(|b: u8| b as int) =~= old(out)@.map_values(|b: u8| b as int)
            + le4(x as int));
    }
}

/// Append the two little-endian bytes of a 16-bit value.
fn push_le2(out: &mut Vec<u8>, x: u16)
    ensures
        final(out)@.len() == old(out)@.len() + 2,
        final(out)@.map_values(|b: u8| b as int) == old(out)@.map_values(|b: u8| b as int) + le2(
            x as int,
        ),
{
    out.push((x % 256) as u8);
    out.push((x / 256 % 256) as u8);
    proof {
        assert(final(out)@.map_values(|b: u8| b as int) =~= old(out)@.map_values(|b: u8| b as int)
            + le2(x as int));
    }
}

/// Header of the dataset's image file: magic number, image count, and the
/// row and column counts, all big-endian.
#[derive(Debug)]
pub struct ImageFileHeader {
    pub magic_number: u32,
    pub num_images: u32,
    pub rows: u32,
    pub cols: u32,
}

/// Header of the dataset's label file: magic number and label count,
/// both big-endian.
#[derive(Debug)]
pub struct LabelFileHeader {
    pub magic_number: u32,
    pub num_labels: u32,
}

impl LabelFileHeader {
    /// Decode the two big-endian fields from the file's first eight bytes.
    pub fn parse_header(file_data: &[u8]) -> (r: LabelFileHeader)
        requires
            file_data@.len() >= 8,
        ensures
            r.magic_number as int == be_u32_at(file_data@, 0),
            r.num_labels as int == be_u32_at(file_data@, 4),
    {
        LabelFileHeader {
            magic_number: read_be_u32(file_data[0], file_data[1], file_data[2], file_data[3]),
            num_labels: read_be_u32(file_data[4], file_data[5], file_data[6], file_data[7]),
        }
    }
}

impl ImageFileHeader {
    /// Decode the four big-endian fields from the file's first sixteen
    /// bytes.
    pub fn parse_header(file_data: &[u8]) -> (r: ImageFileHeader)
        requires
            file_data@.len() >= 16,
        ensures
            r.magic_number as int == be_u32_at(file_data@, 0),
            r.num_images as int == be_u32_at(file_data@, 4),
            r.rows as int == be_u32_at(file_data@, 8),
            r.cols as int == be_u32_at(file_data@, 12),
    {
        ImageFileHeader {
            magic_number: read_be_u32(file_data[0], file_data[1], file_data[2], file_data[3]),
            num_images: read_be_u32(file_data[4], file_data[5], file_data[6], file_data[7]),
            rows: read_be_u32(file_data[8], file_data[9], file_data[10], file_data[11]),
            cols: read_be_u32(file_data[12], file_data[13], file_data[14], file_data[15]),
        }
    }
}

/// Rewrite a 28 x 28 image for bitmap export: the stored image is
/// column-major from the top, the bitmap wants rows from the bottom, so
/// pixel `(row, col)` of the image lands at bitmap row `27 - row`.
pub fn transpose(image_buffer: &[u8], transposed_buffer: &mut Vec<u8>)
    requires
        image_buffer@.len() == 784,
        old(transposed_buffer)@.len() == 784,
    ensures
        final(transposed_buffer)@.len() == 784,
        forall|row: int, col: int|
            0 <= row < 28 && 0 <= col < 28 ==> final(transposed_buffer)@[(27 - row) * 28 + col]
                == #[trigger] image_buffer@[col * 28 + row],
{
    let mut row: usize = 0;
    while row < 28
        invariant
            image_buffer@.len() == 784,
            transposed_buffer@.len() == 784,
            row <= 28,
            forall|r: int, c: int|
                0 <= r < row && 0 <= c < 28 ==> transposed_buffer@[(27 - r) * 28 + c]
                    == #[trigger] image_buffer@[c * 28 + r],
        decreases 28 - row,
    {
        let mut col: usize = 0;
        while col < 28
            invariant
                image_buffer@.len() == 784,
                transposed_buffer@.len() == 784,
                row < 28,
                col <= 28,
                forall|r: int, c: int|
                    0 <= r < row && 0 <= c < 28 ==> transposed_buffer@[(27 - r) * 28 + c]
                        == #[trigger] image_buffer@[c * 28 + r],
                forall|c: int|
                    0 <= c < col ==> transposed_buffer@[(27 - row) * 28 + c]
                        == #[trigger] image_buffer@[c * 28 + row],
            decreases 28 - col,
        {
            let pixel: u8 = image_buffer[col * 28 + row];
            let bmp_row: usize = 27 - row;
            let bmp_index: usize = bmp_row * 28 + col;
            transposed_buffer[bmp_index] = pixel;
            col += 1;
        }
        row += 1;
    }
}

/// The fourteen-byte bitmap file header.
pub struct Bitmap {
    pub signature: u16,
    pub size: u32,
    pub reserved: u32,
    pub offset: u32,
}

/// The forty-byte bitmap information header.
pub struct Dib {
    pub size: u32,
    pub width: u32,
    pub height: u32,
    pub planes: u16,
    pub bit_count: u16,
    pub compression: u32,
    pub image_size: u32,
    pub x_per_m: u32,
    pub y_per_m: u32,
    pub colors_used: u32,
    pub colors_important: u32,
}

/// The serialized form of an information header.
pub open spec fn dib_bytes(d: Dib) -> Seq<int> {
    le4(d.size as int) + le4(d.width as int) + le4(d.height as int) + le2(d.planes as int) + le2(
        d.bit_count as int,
    ) + le4(d.compression as int) + le4(d.image_size as int) + le4(d.x_per_m as int) + le4(
        d.y_per_m as int,
    ) + le4(d.colors_used as int) + le4(d.colors_important as int)
}

/// The serialized form of a file header.
pub open spec fn bitmap_bytes(b: Bitmap) -> Seq<int> {
    le2(b.signature as int) + le4(b.size as int) + le4(b.reserved as int) + le4(b.offset as int)
}

impl Dib {
    /// An information header for an uncompressed image of the given width,
    /// height and bit depth, with the fixed palette and resolution used
    /// for dataset previews.
    pub fn new(w: u32, h: u32, bpp: u16, size: u32) -> (r: Dib)
        ensures
            r == (Dib {
                size: 40u32,
                width: w,
                height: h,
                planes: 1u16,
                bit_count: bpp,
                compression: 0u32,
                image_size: size,
                x_per_m: 28u32,
                y_per_m: 28u32,
                colors_used: 256u32,
                colors_important: 0u32,
            }),
    {
        Dib {
            size: 40,
            width: w,
            height: h,
            planes: 1,
            bit_count: bpp,
            compression: 0,
            image_size: size,
            x_per_m: 28,
            y_per_m: 28,
            colors_used: 256,
            colors_important: 0,
        }
    }

    /// Serialize the header to its forty little-endian bytes.
    pub fn to_vec(&self) -> (r: Vec<u8>)
        ensures
            r@.len() == 40,
            r@.map_values(|b: u8| b as int) == dib_bytes(*self),
    {
        let mut out: Vec<u8> = Vec::new();
        push_le4(&mut out, self.size);
        push_le4(&mut out, self.width);
        push_le4(&mut out, self.height);
        push_le2(&mut out, self.planes);
        push_le2(&mut out, self.bit_count);
        push_le4(&mut out, self.compression);
        push_le4(&mut out, self.image_size);
        push_le4(&mut out, self.x_per_m);
        push_le4(&mut out, self.y_per_m);
        push_le4(&mut out, self.colors_used);
        push_le4(&mut out, self.colors_important);
        proof {
            assert(out@.map_values(|b: u8| b as int) =~= dib_bytes(*self));
        }
        out
    }
}

impl Bitmap {
    /// A file header for a bitmap whose pixel data holds `data_len` bytes:
    /// the two fixed header sizes plus the data, with the pixel offset
    /// after the headers and the 256-entry palette.
    pub fn new(data_len: u32) -> (r: Bitmap)
        requires
            data_len <= u32::MAX - 54,
        ensures
            r == (Bitmap {
                signature: 0x4D42u16,
                size: (54 + data_len) as u32,
                reserved: 0u32,
                offset: 1078u32,
            }),
    {
        Bitmap { signature: 0x4D42, size: 40 + 14 + data_len, reserved: 0, offset: 54 + 1024 }
    }

    /// The total file size recorded in the header.
    pub fn size(&self) -> (r: u32)
        ensures
            r == self.size,
    {
        self.size
    }

    /// Serialize the header to its fourteen little-endian bytes.
    pub fn to_vec(&self) -> (r: Vec<u8>)
        ensures
            r@.len() == 14,
            r@.map_values(|b: u8| b as int) == bitmap_bytes(*self),
    {
        let mut out: Vec<u8> = Vec::new();
        push_le2(&mut out, self.signature);
        push_le4(&mut out, self.size);
        push_le4(&mut out, self.reserved);
        push_le4(&mut out, self.offset);
        proof {
            assert(out@.map_values(|b: u8| b as int) =~= bitmap_bytes(*self));
        }
        out
    }

    /// Assemble a complete eight-bit grayscale bitmap file around a
    /// 28 x 28 pixel buffer: file header, information header, a 256-entry
    /// gray palette, then the pixels.
    pub fn create_bitmap(image_buffer: &[u8]) -> (r: Vec<u8>)
        requires
            image_buffer@.len() == 784,
        ensures
            r@.len() == 1862,
            forall|n: int|
                0 <= n < 14 ==> r@[n] as int == bitmap_bytes(
                    Bitmap { signature: 0x4D42u16, size: 838u32, reserved: 0u32, offset: 1078u32 },
                )[n],
            forall|n: int|
                0 <= n < 40 ==> r@[14 + n] as int == dib_bytes(
                    Dib {
                        size: 40u32,
                        width: 28u32,
                        height: 28u32,
                        planes: 1u16,
                        bit_count: 8u16,
                        compression: 0u32,
                        image_size: 0u32,
                        x_per_m: 28u32,
                        y_per_m: 28u32,
                        colors_used: 256u32,
                        colors_important: 0u32,
                    },
                )[n],
            forall|i: int|
                0 <= i < 256 ==> #[trigger] r@[54 + 4 * i] as int == i && r@[54 + 4 * i
                    + 1] as int == i && r@[54 + 4 * i + 2] as int == i && r@[54 + 4 * i
                    + 3] as int == 0,
            forall|i: int| 0 <= i < 784 ==> r@[1078 + i] == image_buffer@[i],
    {
        let dib = Dib::new(28, 28, 8, 0);
        let bitmap = Bitmap::new(784);
        let header = bitmap.to_vec();
        let dib_vec = dib.to_vec();
        let mut palette: Vec<u8> = Vec::new();
        let mut i: usize = 0;
        while i < 256
            invariant
                i <= 256,
                palette@.len() == 4 * i,
                forall|k: int|
                    0 <= k < i ==> #[trigger] palette@[4 * k] as int == k && palette@[4 * k
                        + 1] as int == k && palette@[4 * k + 2] as int == k && palette@[4 * k
                        + 3] as int == 0,
            decreases 256 - i,
        {
            let v: u8 = i as u8;
            let ghost pre = palette@;
            palette.push(v);
            palette.push(v);
            palette.push(v);
            palette.push(0);
            proof {
                assert(v as int == i as int);
                assert(forall|j: int| 0 <= j < pre.len() ==> palette@[j] == pre[j]);
                assert forall|k: int| 0 <= k < i + 1 implies #[trigger] palette@[4 * k] as int
                    == k && palette@[4 * k + 1] as int == k && palette@[4 * k + 2] as int == k
                    && palette@[4 * k + 3] as int == 0 by {
                    if k < i as int {
                        assert(pre[4 * k] as int == k && pre[4 * k + 1] as int == k && pre[4 * k
                            + 2] as int == k && pre[4 * k + 3] as int == 0);
                        assert(palette@[4 * k] == pre[4 * k]);
                        assert(palette@[4 * k + 1] == pre[4 * k + 1]);
                        assert(palette@[4 * k + 2] == pre[4 * k + 2]);
                        assert(palette@[4 * k + 3] == pre[4 * k + 3]);
                    }
                }
            }
            i += 1;
        }
        let mut out: Vec<u8> = Vec::new();
        let mut n: usize = 0;
        while n < 14
            invariant
                header@.len() == 14,
                n <= 14,
                out@.len() == n,
                forall|k: int| 0 <= k < n ==> out@[k] == header@[k],
            decreases 14 - n,
        {
            let b: u8 = header[n];
            out.push(b);
            n += 1;
        }
        let mut n2: usize = 0;
        while n2 < 40
            invariant
                dib_vec@.len() == 40,
                header@.len() == 14,
                out@.len() == 14 + n2,
                n2 <= 40,
                forall|k: int| 0 <= k < 14 ==> out@[k] == header@[k],
                forall|k: int| 0 <= k < n2 ==> out@[14 + k] == dib_vec@[k],
            decreases 40 - n2,
        {
            let b: u8 = dib_vec[n2];
            out.push(b);
            n2 += 1;
        }
        let mut n3: usize = 0;
        while n3 < 1024
            invariant
                dib_vec@.len() == 40,
                header@.len() == 14,
                palette@.len() == 1024,
                out@.len() == 54 + n3,
                n3 <= 1024,
                forall|k: int| 0 <= k < 14 ==> out@[k] == header@[k],
                forall|k: int| 0 <= k < 40 ==> out@[14 + k] == dib_vec@[k],
                forall|k: int| 0 <= k < n3 ==> out@[54 + k] == palette@[k],
            decreases 1024 - n3,
        {
            let b: u8 = palette[n3];
            out.push(b);
            n3 += 1;
        }
        let mut p: usize = 0;
        while p < 784
            invariant
                image_buffer@.len() == 784,
                dib_vec@.len() == 40,
                header@.len() == 14,
                palette@.len() == 1024,
                out@.len() == 1078 + p,
                p <= 784,
                forall|k: int| 0 <= k < 14 ==> out@[k] == header@[k],
                forall|k: int| 0 <= k < 40 ==> out@[14 + k] == dib_vec@[k],
                forall|k: int| 0 <= k < 1024 ==> out@[54 + k] == palette@[k],
                forall|k: int| 0 <= k < p ==> out@[1078 + k] == image_buffer@[k],
            decreases 784 - p,
        {
            let b: u8 = image_buffer[p];
            out.push(b);
            p += 1;
        }
        proof {
            assert(forall|n: int|
                0 <= n < 14 ==> #[trigger] out@[n] as int == header@.map_values(
                    |b: u8| b as int,
                )[n]);
            assert(forall|n: int|
                0 <= n < 40 ==> #[trigger] out@[14 + n] as int == dib_vec@.map_values(
                    |b: u8| b as int,
                )[n]);
            assert forall|k: int| 0 <= k < 256 implies #[trigger] out@[54 + 4 * k] as int == k
                && out@[54 + 4 * k + 1] as int == k && out@[54 + 4 * k + 2] as int == k && out@[54
                + 4 * k + 3] as int == 0 by {
                assert(out@[54 + (4 * k)] == palette@[4 * k]);
                assert(out@[54 + (4 * k + 1)] == palette@[4 * k + 1]);
                assert(out@[54 + (4 * k + 2)] == palette@[4 * k + 2]);
                assert(out@[54 + (4 * k + 3)] == palette@[4 * k + 3]);
                assert(palette@[4 * k] as int == k && palette@[4 * k + 1] as int == k && palette@[4
                    * k + 2] as int == k && palette@[4 * k + 3] as int == 0);
            }
        }
        out
    }
}

/// Encode a digit label as a one-hot fixed-point column of length ten.
pub fn label_to_vec(label: u8) -> (r: Vec<i64>)
    requires
        label < 10,
    ensures
        r@.len() == 10,
        forall|k: int| 0 <= k < 10 ==> r@[k] as int == if k == label as int {
            FX_SCALE as int
        } else {
            0
        },
{
    let mut v: Vec<i64> = Vec::new();
    let mut k: usize = 0;
    while k < 10
        invariant
            k <= 10,
            v@.len() == k,
            forall|j: int| 0 <= j < k ==> v@[j] as int == if j == label as int {
                FX_SCALE as int
            } else {
                0
            },
        decreases 10 - k,
    {
        if k == label as usize {
            v.push(FX_SCALE);
        } else {
            v.push(0);
        }
        k += 1;
    }
    v
}

/// Decode a network output column to a label: the index of the first
/// maximal element.
pub fn vec_to_label(vec: &Vec<i64>) -> (r: u8)
    requires
        1 <= vec@.len() <= 256,
    ensures
        r < vec@.len(),
        forall|k: int| 0 <= k < vec@.len() ==> vec@[k] <= vec@[r as int],
        forall|k: int| 0 <= k < r ==> vec@[k] < vec@[r as int],
{
    let mut best: usize = 0;
    let mut k: usize = 1;
    while k < vec.len()
        invariant
            1 <= vec@.len() <= 256,
            best < k,
            1 <= k <= vec@.len(),
            forall|j: int| 0 <= j < k ==> vec@[j] <= vec@[best as int],
            forall|j: int| 0 <= j < best ==> vec@[j] < vec@[best as int],
        decreases vec@.len() - k,
    {
        if vec[k] > vec[best] {
            best = k;
        }
        k += 1;
    }
    best as u8
}

/// Normalize raw pixel bytes into fixed-point units in `[0, 1]`:
/// each byte is divided by 255.
pub fn pixels_to_units(original: &Vec<u8>) -> (r: Vec<i64>)
    ensures
        r@.len() == original@.len(),
        forall|k: int|
            0 <= k < r@.len() ==> r@[k] as int == (original@[k] as int) * (FX_SCALE as int) / 255,
        forall|k: int| 0 <= k < r@.len() ==> fx_in_range(#[trigger] r@[k] as int),
{
    let mut v: Vec<i64> = Vec::new();
    let mut k: usize = 0;
    let len: usize = original.len();
    while k < len
        invariant
            len == original@.len(),
            k <= len,
            v@.len() == k,
            forall|j: int|
                0 <= j < k ==> v@[j] as int == (original@[j] as int) * (FX_SCALE as int) / 255,
            forall|j: int| 0 <= j < k ==> fx_in_range(#[trigger] v@[j] as int),
        decreases len - k,
    {
        let b: u8 = original[k];
        let units: u64 = (b as u64) * (FX_SCALE as u64) / 255;
        proof {
            assert(units as int == (b as int) * (FX_SCALE as int) / 255);
            assert((b as int) * (FX_SCALE as int) / 255 <= FX_SCALE as int) by (nonlinear_arith)
                requires
                    0 <= b as int <= 255,
                    FX_SCALE == 1_000_000_000i64,
            ;
        }
        v.push(units as i64);
        k += 1;
    }
    v
}

} // verus!
