//! Frame naming for the animation pipeline.
//!
//! An animation renders one file per frame; the frames of chained scenes
//! share one numbering, so the names here are a pure function of the frame
//! number, zero-padded to a fixed width of eight digits.

use vstd::prelude::*;
use vstd::string::StrSliceExecFns;
use vstd::string::StringExecFns;

use crate::numerals::decimal_digits;
use crate::numerals::decimal_string;

verus! {

/// `count` zero characters.
pub open spec fn zero_chars(count: nat) -> Seq<char> {
    Seq::new(count, |k: int| '0')
}

/// The file name (without extension) of one animation frame: `frame_`
/// followed by the frame number, zero-padded to eight digits.
pub open spec fn frame_filename_spec(frame_number: nat) -> Seq<char> {
    if decimal_digits(frame_number).len() >= 8 {
        "frame_"@ + decimal_digits(frame_number)
    } else {
        "frame_"@ + zero_chars((8 - decimal_digits(frame_number).len()) as nat) + decimal_digits(
            frame_number,
        )
    }
}

/// Names the output file of one animation frame.
pub fn frame_filename(frame_number: u32) -> (name: String)
    ensures
        name@ == frame_filename_spec(frame_number as nat),
{
    let digits = decimal_string(frame_number);
    let digit_count = digits.as_str().unicode_len();
    let mut name = String::from_str("frame_");
    let mut padded: usize = 0;
    while digit_count + padded < 8
        invariant
            name@ == "frame_"@ + zero_chars(padded as nat),
            digit_count + padded <= 8 || padded == 0,
        decreases 8 - padded,
    {
        name.append("0");
        proof {
            reveal_strlit("0");
            assert(name@ =~= "frame_"@ + zero_chars((padded + 1) as nat));
        }
        padded = padded + 1;
    }
    name.append(digits.as_str());
    proof {
        assert(name@ =~= frame_filename_spec(frame_number as nat));
    }
    name
}

/// Names the output files of a whole scene: `frame_count` frames numbered
/// from `initial_frame_number` upward, in frame order. A later scene of the
/// same animation continues the numbering where the previous one stopped.
pub fn frame_filenames(initial_frame_number: u32, frame_count: u32) -> (names: Vec<String>)
    requires
        initial_frame_number + frame_count <= u32::MAX,
    ensures
        names@.len() == frame_count,
        forall|k: int|
            0 <= k < frame_count ==> (#[trigger] names@[k])@ == frame_filename_spec(
                (initial_frame_number + k) as nat,
            ),
{
    let mut names: Vec<String> = Vec::new();
    let mut produced: u32 = 0;
    while produced < frame_count
        invariant
            initial_frame_number + frame_count <= u32::MAX,
            produced <= frame_count,
            names@.len() == produced,
            forall|k: int|
                0 <= k < produced ==> (#[trigger] names@[k])@ == frame_filename_spec(
                    (initial_frame_number + k) as nat,
                ),
        decreases frame_count - produced,
    {
        names.push(frame_filename(initial_frame_number + produced));
        produced = produced + 1;
    }
    names
}

} // verus!
