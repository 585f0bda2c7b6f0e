//! The order in which the pixels of an image are rendered and written, and
//! the reassembly of an image that was rendered in parts.
//!
//! The pixels are rendered in chunks by independent tasks. Every task hands
//! back the colours of its chunk, or nothing if it failed. The image is the
//! chunks put together in order; if any task failed there is no image.

use vstd::prelude::*;
use vstd::arithmetic::div_mod::*;
use vstd::arithmetic::mul::*;
use crate::types::Color;

verus! {

/// Why there is no image.
#[derive(Clone, Copy, Debug, PartialEq, Eq, Structural)]
pub enum RenderError {
    /// The task of the chunk with this number failed, and none before it.
    TaskFailed(usize),
}

/// The parts put together in order.
pub open spec fn joined(parts: Seq<Seq<Color>>) -> Seq<Color>
    decreases parts.len(),
{
    if parts.len() == 0 {
        Seq::empty()
    } else {
        joined(parts.drop_last()) + parts.last()
    }
}

/// What the tasks handed back, as values: the colours of each chunk.
pub open spec fn colours(parts: Seq<Option<Vec<Color>>>) -> Seq<Seq<Color>> {
    Seq::new(
        parts.len(),
        |i: int|
            match parts[i] {
                Some(part) => part@,
                None => Seq::empty(),
            },
    )
}

/// `pixels` cut into consecutive chunks of `size` pixels, the last one
/// shorter if the pixels do not divide evenly.
pub open spec fn chunked(pixels: Seq<Color>, size: nat) -> Seq<Seq<Color>>
    decreases pixels.len(),
{
    if size == 0 || pixels.len() == 0 {
        Seq::empty()
    } else if pixels.len() <= size {
        seq![pixels]
    } else {
        seq![pixels.take(size as int)] + chunked(pixels.skip(size as int), size)
    }
}

/// Putting a part in front.
pub proof fn lemma_joined_front(first: Seq<Color>, rest: Seq<Seq<Color>>)
    ensures
        joined(seq![first] + rest) == first + joined(rest),
    decreases rest.len(),
{
    let all = seq![first] + rest;
    if rest.len() == 0 {
        assert(all.drop_last() =~= Seq::<Seq<Color>>::empty());
        assert(joined(all.drop_last()) =~= Seq::<Color>::empty());
        assert(all.last() == first);
        assert(joined(all) =~= first + joined(rest));
    } else {
        assert(all.drop_last() =~= seq![first] + rest.drop_last());
        assert(all.last() == rest.last());
        lemma_joined_front(first, rest.drop_last());
        assert(joined(all) =~= first + joined(rest));
    }
}

/// Cutting an image into chunks and putting the chunks together again gives
/// the image back, pixel for pixel and in order.
pub proof fn lemma_chunks_join(pixels: Seq<Color>, size: nat)
    requires
        size > 0,
    ensures
        joined(chunked(pixels, size)) == pixels,
    decreases pixels.len(),
{
    if pixels.len() == 0 {
        assert(joined(chunked(pixels, size)) =~= pixels);
    } else if pixels.len() <= size {
        lemma_joined_front(pixels, Seq::empty());
        assert(seq![pixels] + Seq::<Seq<Color>>::empty() =~= seq![pixels]);
        assert(pixels + joined(Seq::<Seq<Color>>::empty()) =~= pixels);
    } else {
        lemma_chunks_join(pixels.skip(size as int), size);
        lemma_joined_front(pixels.take(size as int), chunked(pixels.skip(size as int), size));
        assert(pixels.take(size as int) + pixels.skip(size as int) =~= pixels);
    }
}

/// The image from the parts that the tasks handed back: all colours in the
/// order of the chunks if every task succeeded, else the number of the first
/// chunk whose task failed.
pub fn assemble(parts: &Vec<Option<Vec<Color>>>) -> (r: Result<Vec<Color>, RenderError>)
    ensures
        match r {
            Ok(pixels) => {
                &&& forall|i: int| 0 <= i < parts@.len() ==> (#[trigger] parts@[i]) is Some
                &&& pixels@ == joined(colours(parts@))
            },
            Err(RenderError::TaskFailed(chunk)) => {
                &&& chunk < parts@.len()
                &&& parts@[chunk as int] is None
                &&& forall|i: int| 0 <= i < chunk ==> (#[trigger] parts@[i]) is Some
            },
        },
{
    let mut pixels: Vec<Color> = Vec::new();
    let mut i: usize = 0;
    while i < parts.len()
        invariant
            i <= parts@.len(),
            forall|k: int| 0 <= k < i ==> (#[trigger] parts@[k]) is Some,
            pixels@ == joined(colours(parts@).take(i as int)),
        decreases parts@.len() - i,
    {
        match &parts[i] {
            None => {
                return Err(RenderError::TaskFailed(i));
            },
            Some(part) => {
                let ghost before = pixels@;
                let mut k: usize = 0;
                while k < part.len()
                    invariant
                        k <= part@.len(),
                        pixels@ == before + part@.take(k as int),
                    decreases part@.len() - k,
                {
                    pixels.push(part[k]);
                    assert(pixels@ =~= before + part@.take(k + 1));
                    k += 1;
                }
                proof {
                    let all = colours(parts@);
                    assert(part@.take(part@.len() as int) == part@);
                    assert(all.take(i + 1).drop_last() == all.take(i as int));
                    assert(all.take(i + 1).last() == part@);
                }
            },
        }
        i += 1;
    }
    assert(colours(parts@).take(parts@.len() as int) == colours(parts@));
    Ok(pixels)
}

/// The pixel that is rendered `k`-th, as `(row, column)`: rows are counted
/// from the bottom of the image and rendered from the top, columns run from
/// the left.
pub open spec fn pixel_at(width: int, height: int, k: int) -> (i32, i32) {
    ((height - 1 - k / width) as i32, (k % width) as i32)
}

/// All pixels of an image in rendering order: row by row from the top, each
/// row from the left. An image without columns or rows has no pixels.
pub open spec fn pixel_order_spec(width: int, height: int) -> Seq<(i32, i32)> {
    if width <= 0 || height <= 0 {
        Seq::empty()
    } else {
        Seq::new((width * height) as nat, |k: int| pixel_at(width, height, k))
    }
}

/// The pixels of an image in rendering order.
pub fn pixel_order(image_width: i32, image_height: i32) -> (pixels: Vec<(i32, i32)>)
    ensures
        pixels@ == pixel_order_spec(image_width as int, image_height as int),
{
    let mut pixels: Vec<(i32, i32)> = Vec::new();
    if image_width <= 0 || image_height <= 0 {
        return pixels;
    }
    let ghost width = image_width as int;
    let ghost height = image_height as int;
    let ghost all = pixel_order_spec(width, height);
    let mut j: i32 = image_height;
    while j > 0
        invariant
            0 <= j <= image_height,
            width == image_width as int,
            height == image_height as int,
            width > 0,
            height > 0,
            all == pixel_order_spec(width, height),
            (height - j) * width <= width * height,
            pixels@ == all.take((height - j) * width),
        decreases j,
    {
        j -= 1;
        let ghost done = (height - 1 - j) * width;
        proof {
            lemma_mul_inequality(height - j, height, width);
            lemma_mul_is_commutative(height, width);
            lemma_mul_is_distributive_add_other_way(width, height - 1 - j, 1);
            lemma_mul_nonnegative(height - 1 - j, width);
        }
        let mut i: i32 = 0;
        while i < image_width
            invariant
                0 <= i <= image_width,
                0 <= j < image_height,
                width == image_width as int,
                height == image_height as int,
                all == pixel_order_spec(width, height),
                done == (height - 1 - j) * width,
                0 <= done,
                done + width <= width * height,
                pixels@ == all.take(done + i),
            decreases image_width - i,
        {
            proof {
                let k = done + i;
                lemma_fundamental_div_mod_converse(k, width, height - 1 - j, i as int);
                assert(all[k] == (j, i));
                assert(all.take(k + 1) =~= all.take(k).push(all[k]));
            }
            pixels.push((j, i));
            i += 1;
        }
    }
    proof {
        lemma_mul_is_commutative(height, width);
        assert(all.take(width * height) == all);
    }
    pixels
}

/// Rendering order covers the image: every pixel of the image occurs in it
/// once, at the place `(height - 1 - row) * width + column`.
pub proof fn lemma_pixel_order_covers(width: int, height: int, row: int, column: int)
    requires
        0 <= row < height,
        0 <= column < width,
        width <= i32::MAX,
        height <= i32::MAX,
    ensures
        pixel_order_spec(width, height).len() == width * height,
        0 <= (height - 1 - row) * width + column < width * height,
        pixel_order_spec(width, height)[(height - 1 - row) * width + column] == (
            row as i32,
            column as i32,
        ),
        forall|k: int|
            0 <= k < width * height && #[trigger] pixel_order_spec(width, height)[k] == (
                row as i32,
                column as i32,
            ) ==> k == (height - 1 - row) * width + column,
{
    let k0 = (height - 1 - row) * width + column;
    lemma_mul_nonnegative(height - 1 - row, width);
    lemma_mul_inequality(height - 1 - row, height - 1, width);
    lemma_mul_is_distributive_add_other_way(width, height - 1, 1);
    lemma_mul_is_commutative(height, width);
    lemma_mul_strictly_positive(width, height);
    lemma_fundamental_div_mod_converse(k0, width, height - 1 - row, column);
    assert forall|k: int|
        0 <= k < width * height && #[trigger] pixel_order_spec(width, height)[k] == (
            row as i32,
            column as i32,
        ) implies k == k0 by {
        lemma_fundamental_div_mod(k, width);
        lemma_div_pos_is_pos(k, width);
        lemma_mod_bound(k, width);
        if k / width >= height {
            lemma_mul_inequality(height, k / width, width);
            lemma_mul_is_commutative(k / width, width);
        }
        assert(0 <= k / width < height);
        assert(pixel_order_spec(width, height)[k] == pixel_at(width, height, k));
        assert(k / width == height - 1 - row);
        assert(k % width == column);
        lemma_mul_is_commutative(height - 1 - row, width);
    }
}

} // verus!
