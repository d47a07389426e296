//! The picture as rows of red, green and blue bytes.

use crate::frame::{
    encode_channel, lemma_quantize_is_a_byte, pixel_index, spec_encode_channel, spec_pixel_index,
};
use crate::scalar::Scalar;
use crate::vector::Vector3;
use vstd::prelude::*;

verus! {

/// An `image::RgbImage`: a picture of three bytes per pixel. It is held as
/// the image library has it. Nothing here looks inside: what it holds is
/// known by `canvas_samples` and `canvas_dimensions` alone, and by what the
/// three functions below claim of the library's own.
#[verifier::external_body]
pub struct Canvas {
    picture: image::RgbImage,
}

/// The samples of a picture as its container holds them: row after row, and
/// in each row pixel after pixel, red, green, blue.
pub uninterp spec fn canvas_samples(canvas: Canvas) -> Seq<u8>;

/// The width and the height of a picture.
pub uninterp spec fn canvas_dimensions(canvas: Canvas) -> (u32, u32);

/// The samples with the three at `at`, `at + 1` and `at + 2` replaced.
pub open spec fn with_pixel(samples: Seq<u8>, at: int, red: u8, green: u8, blue: u8) -> Seq<u8> {
    samples.update(at, red).update(at + 1, green).update(at + 2, blue)
}

/// `image::ImageBuffer::new`: a picture of the given width and height, over
/// a fresh container of three samples per pixel, each of them zero.
#[verifier::external_body]
fn blank(width: u32, height: u32) -> (canvas: Canvas)
    requires
        3 * width * height <= isize::MAX,
    ensures
        canvas_dimensions(canvas) == (width, height),
        canvas_samples(canvas) == Seq::new((3 * width * height) as nat, |i: int| 0u8),
{
    Canvas { picture: image::ImageBuffer::new(width, height) }
}

/// `image::ImageBuffer::put_pixel`: the pixel `(x, y)` is given the three
/// samples. They stand at `3 * (y * width + x)` and the two places after it;
/// all other samples and the dimensions stay.
#[verifier::external_body]
fn put_pixel(canvas: &mut Canvas, x: u32, y: u32, red: u8, green: u8, blue: u8)
    requires
        x < canvas_dimensions(*old(canvas)).0,
        y < canvas_dimensions(*old(canvas)).1,
    ensures
        canvas_dimensions(*final(canvas)) == canvas_dimensions(*old(canvas)),
        canvas_samples(*final(canvas)) == with_pixel(
            canvas_samples(*old(canvas)),
            3 * (y * canvas_dimensions(*old(canvas)).0 + x),
            red,
            green,
            blue,
        ),
{
    canvas.picture.put_pixel(x, y, image::Rgb([red, green, blue]));
}

/// `image::ImageBuffer::into_raw`: the container of the picture.
#[verifier::external_body]
fn into_raw(canvas: Canvas) -> (samples: Vec<u8>)
    ensures
        samples@ == canvas_samples(canvas),
{
    canvas.picture.into_raw()
}

/// Channel `c` of a colour: 0 is red, 1 is green, 2 is blue.
pub open spec fn channel(colour: Vector3, c: int) -> Scalar {
    if c == 0 {
        colour.x
    } else if c == 1 {
        colour.y
    } else {
        colour.z
    }
}

/// The bytes of a picture whose pixels have the given colours: for each
/// pixel in turn the bytes of its red, its green and its blue channel.
pub open spec fn spec_encode_picture(colours: Seq<Vector3>) -> Seq<u8> {
    Seq::new(3 * colours.len(), |i: int| spec_encode_channel(channel(colours[i / 3], i % 3)) as u8)
}

/// Encodes a picture of `width` by `height` pixels, whose colours are given
/// row by row, as three bytes per pixel.
pub fn encode_picture(width: u32, height: u32, colours: &Vec<Vector3>) -> (samples: Vec<u8>)
    requires
        colours@.len() == width * height,
        3 * width * height <= isize::MAX,
    ensures
        samples@ == spec_encode_picture(colours@),
        forall|x: int, y: int, c: int|
            0 <= x < width && 0 <= y < height && 0 <= c < 3 ==> #[trigger] samples@[3
                * spec_pixel_index(width as nat, x as nat, y as nat) + c] == spec_encode_channel(
                channel(colours@[spec_pixel_index(width as nat, x as nat, y as nat) as int], c),
            ),
{
    let mut canvas = blank(width, height);
    let mut y: u32 = 0;
    while y < height
        invariant
            y <= height,
            colours@.len() == width * height,
            3 * width * height <= isize::MAX,
            canvas_dimensions(canvas) == (width, height),
            canvas_samples(canvas).len() == 3 * width * height,
            forall|i: int|
                0 <= i < 3 * (y * width) ==> canvas_samples(canvas)[i] == spec_encode_picture(
                    colours@,
                )[i],
        decreases height - y,
    {
        let mut x: u32 = 0;
        while x < width
            invariant
                y < height,
                x <= width,
                colours@.len() == width * height,
                3 * width * height <= isize::MAX,
                canvas_dimensions(canvas) == (width, height),
                canvas_samples(canvas).len() == 3 * width * height,
                forall|i: int|
                    0 <= i < 3 * (y * width + x) ==> canvas_samples(canvas)[i]
                        == spec_encode_picture(colours@)[i],
            decreases width - x,
        {
            proof {
                lemma_pixel_fits(width as int, height as int, x as int, y as int);
            }
            let colour = colours[pixel_index(width, x, y) as usize];
            let red = encode_channel(colour.x);
            let green = encode_channel(colour.y);
            let blue = encode_channel(colour.z);
            let ghost before = canvas_samples(canvas);
            put_pixel(&mut canvas, x, y, red, green, blue);
            proof {
                let at = 3 * (y * width + x);
                let after = canvas_samples(canvas);
                assert(after == with_pixel(before, at, red, green, blue));
                assert(after.len() == before.len());
                assert forall|i: int| 0 <= i < at + 3 implies after[i] == spec_encode_picture(
                    colours@,
                )[i] by {
                    if i < at {
                        assert(after[i] == before[i]);
                    } else {
                        assert(i / 3 == y * width + x);
                        assert(colours@[i / 3] == colour);
                    }
                }
            }
            x += 1;
        }
        proof {
            assert(3 * (y * width + width) == 3 * ((y + 1) * width)) by (nonlinear_arith);
        }
        y += 1;
    }
    proof {
        assert(y * width == width * height && 3 * width * height == 3 * (width * height))
            by (nonlinear_arith)
            requires
                y == height,
        ;
    }
    let samples = into_raw(canvas);
    assert(samples@ =~= spec_encode_picture(colours@));
    assert forall|x: int, y: int, c: int|
        0 <= x < width && 0 <= y < height && 0 <= c < 3 implies #[trigger] samples@[3
        * spec_pixel_index(width as nat, x as nat, y as nat) + c] == spec_encode_channel(
        channel(colours@[spec_pixel_index(width as nat, x as nat, y as nat) as int], c),
    ) by {
        lemma_pixel_fits(width as int, height as int, x, y);
        let pixel = spec_pixel_index(width as nat, x as nat, y as nat) as int;
        assert(pixel == y * width + x);
        assert((3 * pixel + c) / 3 == pixel && (3 * pixel + c) % 3 == c);
        lemma_quantize_is_a_byte(channel(colours@[pixel], c));
    }
    samples
}

/// A pixel of the picture is counted before the picture ends.
proof fn lemma_pixel_fits(width: int, height: int, x: int, y: int)
    by (nonlinear_arith)
    requires
        0 <= x < width,
        0 <= y < height,
    ensures
        0 <= y * width,
        y * width + x < width * height,
        3 * width * height == 3 * (width * height),
{
    assert(y * width <= (height - 1) * width);
}

} // verus!
