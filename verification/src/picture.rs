//! Picture data: the palette index of a pixel, and the run-length coding of
//! a picture's indices.

use vstd::prelude::*;

verus! {

/// The index in the palette that stands for no colour of a picture.
pub const TRANSPARENCY_COLOUR: u8 = 1;

/// The level, from 0 to 5, of one colour channel: the channel's value over
/// 51, rounded to the nearest.
pub open spec fn channel_level(c: u8) -> int {
    if (c + 25) / 51 < 5 {
        (c + 25) / 51
    } else {
        5
    }
}

/// The palette index of a colour: the palette holds, from index 16 on, the
/// six levels of red, green and blue in all their combinations.
pub open spec fn colour_index(r: u8, g: u8, b: u8) -> int {
    16 + 36 * channel_level(r) + 6 * channel_level(g) + channel_level(b)
}

/// The level of one colour channel.
fn quantize_channel(c: u8) -> (level: u8)
    ensures
        level == channel_level(c),
        level <= 5,
{
    let v: u16 = (c as u16 + 25) / 51;
    if v < 5 {
        v as u8
    } else {
        5
    }
}

/// The index of the palette colour that is closest to the given colour.
pub fn find_closest_color_index(r: u8, g: u8, b: u8) -> (index: u8)
    ensures
        index == colour_index(r, g, b),
        16 <= index <= 231,
{
    let rq = quantize_channel(r);
    let gq = quantize_channel(g);
    let bq = quantize_channel(b);
    16 + 36 * rq + 6 * gq + bq
}

/// The palette index of a pixel: that of transparency for a pixel that is
/// fully transparent, else that of its colour.
pub open spec fn pixel_index(pixel: (u8, u8, u8, u8)) -> int {
    if pixel.3 == 0 {
        TRANSPARENCY_COLOUR as int
    } else {
        colour_index(pixel.0, pixel.1, pixel.2)
    }
}

/// The palette indices of the pixels of a picture, given as red, green,
/// blue and opacity.
pub fn palette_indices(pixels: &Vec<(u8, u8, u8, u8)>) -> (raw: Vec<u8>)
    ensures
        raw@.len() == pixels@.len(),
        forall|i: int| 0 <= i < raw@.len() ==> #[trigger] raw@[i] == pixel_index(pixels@[i]),
{
    let mut raw: Vec<u8> = Vec::new();
    let mut i: usize = 0;
    while i < pixels.len()
        invariant
            i <= pixels@.len(),
            raw@.len() == i,
            forall|k: int| 0 <= k < i ==> #[trigger] raw@[k] == pixel_index(pixels@[k]),
        decreases pixels@.len() - i,
    {
        let pixel = pixels[i];
        let index = if pixel.3 == 0 {
            TRANSPARENCY_COLOUR
        } else {
            find_closest_color_index(pixel.0, pixel.1, pixel.2)
        };
        raw.push(index);
        i += 1;
    }
    raw
}

/// The values that run-length coded data stands for: the data is read as
/// pairs of a count and a value, and each pair stands for the value
/// repeated count times.
pub open spec fn run_length_decoded(coded: Seq<u8>) -> Seq<u8>
    decreases coded.len(),
{
    if coded.len() < 2 {
        Seq::empty()
    } else {
        run_length_decoded(coded.subrange(0, coded.len() - 2)) + Seq::new(
            coded[coded.len() - 2] as nat,
            |i: int| coded[coded.len() - 1],
        )
    }
}

/// Whether run-length coded data is made of whole pairs with runs as long as
/// they can be: no count is zero, and a run is followed by a run of the
/// same value only where its own count is the largest a byte holds.
pub open spec fn runs_are_longest(coded: Seq<u8>) -> bool {
    &&& coded.len() % 2 == 0
    &&& forall|k: int| 0 <= k < coded.len() && k % 2 == 0 ==> #[trigger] coded[k] >= 1
    &&& forall|k: int|
        0 <= k && k + 3 < coded.len() && k % 2 == 0 ==> #[trigger] coded[k] == u8::MAX || coded[k + 1] != coded[k + 3]
}

/// The run-length coding of `raw`, with runs as long as they can be.
pub fn run_length_encode(raw: &Vec<u8>) -> (coded: Vec<u8>)
    ensures
        run_length_decoded(coded@) == raw@,
        runs_are_longest(coded@),
{
    let mut coded: Vec<u8> = Vec::new();
    if raw.len() == 0 {
        assert(run_length_decoded(coded@) =~= raw@);
        return coded;
    }
    let mut run_value: u8 = raw[0];
    let mut run_count: u8 = 1;
    let mut i: usize = 1;
    assert(run_length_decoded(coded@) + Seq::new(1, |k: int| run_value) =~= raw@.subrange(0, 1));
    while i < raw.len()
        invariant
            1 <= i <= raw@.len(),
            run_count >= 1,
            run_length_decoded(coded@) + Seq::new(run_count as nat, |k: int| run_value) == raw@.subrange(0, i as int),
            runs_are_longest(coded@),
            coded@.len() >= 2 ==> coded@[coded@.len() - 2] == u8::MAX || coded@[coded@.len() - 1] != run_value,
        decreases raw@.len() - i,
    {
        let value = raw[i];
        let ghost before = coded@;
        let ghost decoded = run_length_decoded(coded@);
        let ghost run = Seq::new(run_count as nat, |k: int| run_value);
        if value == run_value && run_count < u8::MAX {
            run_count += 1;
            assert(decoded + Seq::new(run_count as nat, |k: int| run_value) =~= raw@.subrange(0, i + 1)) by {
                assert(raw@.subrange(0, i + 1) =~= raw@.subrange(0, i as int).push(value));
                assert(Seq::new(run_count as nat, |k: int| run_value) =~= run.push(value));
            }
        } else {
            coded.push(run_count);
            coded.push(run_value);
            assert(coded@.subrange(0, coded@.len() - 2) =~= before);
            assert(run_length_decoded(coded@) == decoded + run);
            run_value = value;
            run_count = 1;
            assert(run_length_decoded(coded@) + Seq::new(1, |k: int| value) =~= raw@.subrange(0, i + 1)) by {
                assert(raw@.subrange(0, i + 1) =~= raw@.subrange(0, i as int).push(value));
            }
            assert(runs_are_longest(coded@)) by {
                assert forall|k: int| 0 <= k < coded@.len() && k % 2 == 0 implies #[trigger] coded@[k] >= 1 by {
                    if k < before.len() {
                        assert(coded@[k] == before[k]);
                    }
                }
                assert forall|k: int| 0 <= k && k + 3 < coded@.len() && k % 2 == 0 implies #[trigger] coded@[k]
                    == u8::MAX || coded@[k + 1] != coded@[k + 3] by {
                    if k + 3 < before.len() {
                        assert(coded@[k] == before[k] && coded@[k + 1] == before[k + 1] && coded@[k + 3] == before[k + 3]);
                    } else {
                        assert(k == before.len() - 2);
                        assert(coded@[k] == before[k] && coded@[k + 1] == before[k + 1]);
                    }
                }
            }
        }
        i += 1;
    }
    let ghost before = coded@;
    let ghost decoded = run_length_decoded(coded@);
    coded.push(run_count);
    coded.push(run_value);
    proof {
        assert(coded@.subrange(0, coded@.len() - 2) =~= before);
        assert(raw@.subrange(0, i as int) =~= raw@);
        assert forall|k: int| 0 <= k < coded@.len() && k % 2 == 0 implies #[trigger] coded@[k] >= 1 by {
            if k < before.len() {
                assert(coded@[k] == before[k]);
            }
        }
        assert forall|k: int| 0 <= k && k + 3 < coded@.len() && k % 2 == 0 implies #[trigger] coded@[k] == u8::MAX
            || coded@[k + 1] != coded@[k + 3] by {
            if k + 3 < before.len() {
                assert(coded@[k] == before[k] && coded@[k + 1] == before[k + 1] && coded@[k + 3] == before[k + 3]);
            } else {
                assert(k == before.len() - 2);
                assert(coded@[k] == before[k] && coded@[k + 1] == before[k + 1]);
            }
        }
    }
    coded
}

/// How the data of a picture is coded.
#[derive(Clone, Copy, Debug, PartialEq, Eq, Structural)]
pub enum DataCodeType {
    /// One byte for each pixel.
    Raw,
    /// Pairs of a count and a value.
    RunLength,
}

/// The data of a picture with the given palette indices, in the shorter of
/// its two codings: run-length coded, with runs as long as they can be,
/// where that takes fewer bytes, else one byte for each pixel.
pub fn encode_picture_data(raw: Vec<u8>) -> (r: (Vec<u8>, DataCodeType))
    ensures
        r.1 == DataCodeType::RunLength ==> run_length_decoded(r.0@) == raw@ && runs_are_longest(r.0@) && r.0@.len()
            < raw@.len(),
        r.1 == DataCodeType::Raw ==> r.0@ == raw@ && exists|coded: Seq<u8>|
            run_length_decoded(coded) == raw@ && #[trigger] runs_are_longest(coded) && coded.len() >= raw@.len(),
{
    let coded = run_length_encode(&raw);
    if coded.len() < raw.len() {
        (coded, DataCodeType::RunLength)
    } else {
        (raw, DataCodeType::Raw)
    }
}

} // verus!
