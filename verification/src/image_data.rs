use crate::arith::{lemma_byte_index_bound, lemma_div_mod_of_sum, lemma_mul_le};
use crate::error::MosaicError;
use vstd::prelude::*;
use vstd::slice::slice_subrange;

verus! {

/// Layout of one pixel: which channels it has and how wide each sample is.
#[derive(Clone, Copy, Debug, PartialEq, Eq, Structural)]
pub enum ColorFormat {
    /// 8-bit luminance.
    L8,
    /// 8-bit luminance with an alpha channel.
    La8,
    /// 8-bit red, green and blue.
    Rgb8,
    /// 8-bit red, green and blue with an alpha channel.
    Rgba8,
    /// 16-bit luminance.
    L16,
    /// 16-bit luminance with an alpha channel.
    La16,
    /// 16-bit red, green and blue.
    Rgb16,
    /// 16-bit red, green and blue with an alpha channel.
    Rgba16,
    /// 32-bit float red, green and blue.
    Rgb32F,
    /// 32-bit float red, green and blue with an alpha channel.
    Rgba32F,
}

impl ColorFormat {
    /// Number of channels of a pixel in this format.
    pub open spec fn spec_channel_count(self) -> u8 {
        match self {
            ColorFormat::L8 | ColorFormat::L16 => 1,
            ColorFormat::La8 | ColorFormat::La16 => 2,
            ColorFormat::Rgb8 | ColorFormat::Rgb16 | ColorFormat::Rgb32F => 3,
            ColorFormat::Rgba8 | ColorFormat::Rgba16 | ColorFormat::Rgba32F => 4,
        }
    }

    /// Number of channels of a pixel in this format.
    #[verifier::when_used_as_spec(spec_channel_count)]
    pub fn channel_count(self) -> (count: u8)
        ensures
            count == self.spec_channel_count(),
    {
        match self {
            ColorFormat::L8 | ColorFormat::L16 => 1,
            ColorFormat::La8 | ColorFormat::La16 => 2,
            ColorFormat::Rgb8 | ColorFormat::Rgb16 | ColorFormat::Rgb32F => 3,
            ColorFormat::Rgba8 | ColorFormat::Rgba16 | ColorFormat::Rgba32F => 4,
        }
    }
}

/// The largest multiple of `tile_side` that is not above `extent`: what is
/// left of an axis once it is cut down to whole tiles.
pub open spec fn cropped_extent(extent: u32, tile_side: u32) -> int {
    (extent as int / tile_side as int) * tile_side as int
}

/// The margin cut off before the kept part of an axis: half of what the crop
/// removes, rounded down.
pub open spec fn crop_margin(extent: u32, tile_side: u32) -> int {
    (extent - cropped_extent(extent, tile_side)) / 2
}

/// Decoded pixels with their geometry: rows from top to bottom, pixels from
/// left to right, the channels of a pixel side by side, one byte each.
#[derive(Clone, Debug, PartialEq, Eq)]
pub struct ImageData {
    pub width: u32,
    pub height: u32,
    pub channels: u8,
    pub data: Vec<u8>,
    pub color: ColorFormat,
}

impl ImageData {
    /// The buffer holds exactly one byte for each channel of each pixel.
    pub open spec fn wf(&self) -> bool {
        self.data.len() == self.width * self.height * self.channels
    }

    /// Where the byte of channel `channel` of pixel `(x, y)` stands in the buffer.
    pub open spec fn byte_index(&self, x: int, y: int, channel: int) -> int {
        (y * self.width + x) * self.channels + channel
    }

    /// The byte of channel `channel` of pixel `(x, y)`.
    pub open spec fn byte_at(&self, x: int, y: int, channel: int) -> u8 {
        self.data[self.byte_index(x, y, channel)]
    }

    /// Both axes are whole numbers of tiles of side `tile_side`.
    pub open spec fn aligned_to(&self, tile_side: u32) -> bool {
        &&& tile_side > 0
        &&& self.width as int % tile_side as int == 0
        &&& self.height as int % tile_side as int == 0
    }

    /// `self` is `source` cut down to whole tiles of side `tile_side`, with
    /// the removed columns and rows split evenly between the two sides of
    /// each axis (the odd one out goes to the right and to the bottom).
    pub open spec fn is_crop_of(&self, source: &ImageData, tile_side: u32) -> bool {
        &&& self.wf()
        &&& self.width == cropped_extent(source.width, tile_side)
        &&& self.height == cropped_extent(source.height, tile_side)
        &&& self.channels == source.channels
        &&& self.color == source.color
        &&& forall|x: int, y: int, channel: int|
            0 <= x < self.width && 0 <= y < self.height && 0 <= channel < self.channels
                ==> #[trigger] self.byte_at(x, y, channel) == source.byte_at(
                x + crop_margin(source.width, tile_side),
                y + crop_margin(source.height, tile_side),
                channel,
            )
    }

    /// Takes what a decoder hands over (geometry, pixel format and bytes) and
    /// keeps the part that `tile_side_length` divides into whole tiles.
    ///
    /// A zero tile side is refused before anything is allocated. A buffer
    /// that does not hold one byte per channel and pixel of `color` is
    /// refused as undecodable.
    pub fn new(
        width: u32,
        height: u32,
        color: ColorFormat,
        data: Vec<u8>,
        tile_side_length: u32,
    ) -> (result: Result<ImageData, MosaicError>)
        ensures
            tile_side_length == 0 ==> result == Err::<ImageData, MosaicError>(
                MosaicError::InvalidTileSize,
            ),
            tile_side_length > 0 && data.len() != width * height * color.channel_count()
                ==> result == Err::<ImageData, MosaicError>(MosaicError::DecodeFailure),
            tile_side_length > 0 && data.len() == width * height * color.channel_count() ==> {
                &&& result is Ok
                &&& result->Ok_0.is_crop_of(
                    &(ImageData { width, height, channels: color.channel_count(), data, color }),
                    tile_side_length,
                )
                &&& result->Ok_0.aligned_to(tile_side_length)
            },
    {
        if tile_side_length == 0 {
            return Err(MosaicError::InvalidTileSize);
        }
        let channels = color.channel_count();
        proof {
            lemma_mul_le(width as int, height as int, u32::MAX as int, u32::MAX as int);
            lemma_mul_le(
                width * height,
                channels as int,
                u32::MAX * u32::MAX,
                u8::MAX as int,
            );
        }
        let pixels: u128 = (width as u128) * (height as u128);
        let expected: u128 = pixels * (channels as u128);
        if data.len() as u128 != expected {
            return Err(MosaicError::DecodeFailure);
        }
        let decoded = ImageData { width, height, channels, data, color };
        Ok(decoded.crop_image(tile_side_length))
    }

    /// The pixel `(x, y)` exists and has a channel `channel`.
    pub open spec fn has_channel(&self, x: u32, y: u32, channel: u8) -> bool {
        x < self.width && y < self.height && channel < self.channels
    }

    /// The byte of one channel of one pixel, if the image has it.
    pub fn get_pixel_channel(&self, x: u32, y: u32, channel: u8) -> (byte: Option<&u8>)
        requires
            self.wf(),
        ensures
            self.has_channel(x, y, channel) ==> byte == Some(
                &self.byte_at(x as int, y as int, channel as int),
            ),
            !self.has_channel(x, y, channel) ==> byte is None,
    {
        if x >= self.width || y >= self.height || channel >= self.channels {
            return None;
        }
        proof {
            lemma_byte_index_bound(
                self.width as int,
                self.height as int,
                self.channels as int,
                x as int,
                y as int,
                channel as int,
            );
            lemma_mul_le(
                self.width * self.height,
                1,
                self.width * self.height,
                self.channels as int,
            );
        }
        let index = (y as usize * self.width as usize + x as usize) * self.channels as usize;
        Some(&self.data[index + channel as usize])
    }

    /// The byte of one channel of one pixel, to be overwritten, if the image
    /// has it. Nothing else of the image changes.
    pub fn get_pixel_channel_mut(&mut self, x: u32, y: u32, channel: u8) -> (byte: Option<&mut u8>)
        requires
            old(self).wf(),
        ensures
            final(self).width == old(self).width,
            final(self).height == old(self).height,
            final(self).channels == old(self).channels,
            final(self).color == old(self).color,
            old(self).has_channel(x, y, channel) ==> {
                &&& byte is Some
                &&& *byte->Some_0 == old(self).byte_at(x as int, y as int, channel as int)
                &&& final(self).data@ == old(self).data@.update(
                    old(self).byte_index(x as int, y as int, channel as int),
                    *final(byte->Some_0),
                )
            },
            !old(self).has_channel(x, y, channel) ==> byte is None && final(self).data@ == old(
                self,
            ).data@,
    {
        if x >= self.width || y >= self.height || channel >= self.channels {
            return None;
        }
        proof {
            lemma_byte_index_bound(
                self.width as int,
                self.height as int,
                self.channels as int,
                x as int,
                y as int,
                channel as int,
            );
            lemma_mul_le(
                self.width * self.height,
                1,
                self.width * self.height,
                self.channels as int,
            );
        }
        let index = (y as usize * self.width as usize + x as usize) * self.channels as usize;
        Some(&mut self.data[index + channel as usize])
    }

    /// The part of the image that `tile_side_length` divides into whole tiles.
    pub fn crop_image(&self, tile_side_length: u32) -> (cropped: ImageData)
        requires
            self.wf(),
            tile_side_length > 0,
        ensures
            cropped.is_crop_of(self, tile_side_length),
            cropped.aligned_to(tile_side_length),
    {
        let new_width = floor_to_multiple(self.width, tile_side_length);
        let new_height = floor_to_multiple(self.height, tile_side_length);
        let margin_x = (self.width - new_width) / 2;
        let margin_y = (self.height - new_height) / 2;
        let mut out: Vec<u8> = Vec::new();
        // An empty result has no row to copy, and with one of the three at
        // zero the length of a row need not fit the buffer's index type.
        if new_width == 0 || new_height == 0 || self.channels == 0 {
            let cropped = ImageData {
                width: new_width,
                height: new_height,
                channels: self.channels,
                data: out,
                color: self.color,
            };
            proof {
                assert(new_width * new_height * self.channels == 0) by (nonlinear_arith)
                    requires
                        new_width == 0 || new_height == 0 || self.channels == 0,
                ;
                assert forall|x: int, y: int, channel: int|
                    0 <= x < cropped.width && 0 <= y < cropped.height && 0 <= channel
                        < cropped.channels implies #[trigger] cropped.byte_at(x, y, channel)
                    == self.byte_at(
                    x + crop_margin(self.width, tile_side_length),
                    y + crop_margin(self.height, tile_side_length),
                    channel,
                ) by {
                    lemma_byte_index_bound(
                        cropped.width as int,
                        cropped.height as int,
                        cropped.channels as int,
                        x,
                        y,
                        channel,
                    );
                }
            }
            return cropped;
        }
        let w = self.width as usize;
        let c = self.channels as usize;
        proof {
            lemma_mul_le(new_width as int, 1, self.width as int, self.height as int);
            lemma_mul_le(new_width as int, c as int, self.width * self.height, c as int);
            lemma_mul_le(self.width * self.height, 1, self.width * self.height, c as int);
        }
        let row_len = new_width as usize * c;
        let mut y: usize = 0;
        while y < new_height as usize
            invariant
                self.wf(),
                w == self.width,
                c == self.channels,
                c >= 1,
                self.width * self.height <= self.data.len(),
                row_len == new_width * c,
                margin_x + new_width <= self.width,
                margin_y + new_height <= self.height,
                y <= new_height,
                out.len() == y * row_len,
                forall|r: int, i: int|
                    0 <= r < y && 0 <= i < row_len ==> #[trigger] out[r * row_len + i]
                        == self.data[((r + margin_y) * w + margin_x) * c + i],
            decreases new_height - y,
        {
            proof {
                lemma_row_within(
                    self.width as int,
                    self.height as int,
                    c as int,
                    new_width as int,
                    margin_x as int,
                    y + margin_y,
                );
            }
            let start = ((y + margin_y as usize) * w + margin_x as usize) * c;
            let row = slice_subrange(self.data.as_slice(), start, start + row_len);
            let ghost before = out@;
            out.extend_from_slice(row);
            proof {
                assert((y + 1) * row_len == y * row_len + row_len) by (nonlinear_arith);
                assert forall|r: int, i: int| 0 <= r < y + 1 && 0 <= i < row_len implies #[trigger] out[r
                    * row_len + i] == self.data[((r + margin_y) * w + margin_x) * c + i] by {
                    if r < y {
                        assert(r * row_len + i < y * row_len) by (nonlinear_arith)
                            requires
                                0 <= r < y,
                                0 <= i < row_len,
                        ;
                        assert(out[r * row_len + i] == before[r * row_len + i]);
                    } else {
                        assert(r == y);
                        assert(out[y * row_len + i] == row@[i]);
                    }
                }
            }
            y += 1;
        }
        let cropped = ImageData {
            width: new_width,
            height: new_height,
            channels: self.channels,
            data: out,
            color: self.color,
        };
        proof {
            assert(new_height * row_len == new_width * new_height * c) by (nonlinear_arith)
                requires
                    row_len == new_width * c,
            ;
            assert forall|x: int, y: int, channel: int|
                0 <= x < cropped.width && 0 <= y < cropped.height && 0 <= channel
                    < cropped.channels implies #[trigger] cropped.byte_at(x, y, channel)
                == self.byte_at(
                x + crop_margin(self.width, tile_side_length),
                y + crop_margin(self.height, tile_side_length),
                channel,
            ) by {
                let i = x * c + channel;
                assert(0 <= i < row_len) by (nonlinear_arith)
                    requires
                        0 <= x < new_width,
                        0 <= channel < c,
                        i == x * c + channel,
                        row_len == new_width * c,
                ;
                assert(cropped.byte_index(x, y, channel) == y * row_len + i) by (nonlinear_arith)
                    requires
                        cropped.byte_index(x, y, channel) == (y * new_width + x) * c + channel,
                        i == x * c + channel,
                        row_len == new_width * c,
                ;
                assert(self.byte_index(x + margin_x, y + margin_y, channel) == ((y + margin_y) * w
                    + margin_x) * c + i) by (nonlinear_arith)
                    requires
                        self.byte_index(x + margin_x, y + margin_y, channel) == ((y + margin_y) * w
                            + (x + margin_x)) * c + channel,
                        i == x * c + channel,
                ;
                assert(cropped.data[y * row_len + i] == self.data[((y + margin_y) * w + margin_x)
                    * c + i]);
            }
        }
        cropped
    }
}

/// The largest multiple of `tile_side` that is not above `extent`.
pub fn floor_to_multiple(extent: u32, tile_side: u32) -> (kept: u32)
    requires
        tile_side > 0,
    ensures
        kept == cropped_extent(extent, tile_side),
        kept <= extent,
        kept as int % tile_side as int == 0,
        kept as int / tile_side as int == extent as int / tile_side as int,
{
    let tiles = extent / tile_side;
    proof {
        vstd::arithmetic::div_mod::lemma_fundamental_div_mod(extent as int, tile_side as int);
        assert(tile_side * tiles == tiles * tile_side) by (nonlinear_arith);
        lemma_div_mod_of_sum(tiles as int, tile_side as int, 0);
    }
    tiles * tile_side
}

/// A row segment of `new_w` pixels that starts `mx` pixels into row `yy`
/// lies inside a buffer of `w * h` pixels of `c` bytes.
proof fn lemma_row_within(w: int, h: int, c: int, new_w: int, mx: int, yy: int)
    requires
        0 <= yy < h,
        0 <= mx,
        0 <= new_w,
        mx + new_w <= w,
        0 <= c,
    ensures
        0 <= yy * w <= w * h,
        0 <= yy * w + mx <= w * h,
        0 <= (yy * w + mx) * c,
        (yy * w + mx) * c + new_w * c <= w * h * c,
{
    assert(0 <= yy * w && yy * w + w <= w * h) by (nonlinear_arith)
        requires
            0 <= yy < h,
            0 <= w,
    ;
    let p = yy * w + mx;
    assert(0 <= p * c && p * c + new_w * c <= (w * h) * c) by (nonlinear_arith)
        requires
            0 <= p,
            0 <= new_w,
            p + new_w <= w * h,
            0 <= c,
    ;
}

} // verus!
