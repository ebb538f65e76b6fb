//! What the e-reader side computes around its device tools: the screen size
//! read from the framebuffer report, and the arguments of a touch.

use crate::text::{decimal, decimal_string, parse_u32, parse_u32_bytes, split_bytes, split_on};
use vstd::prelude::*;

verus! {

/// The screen size that a framebuffer report (the output of `fbset`) gives:
/// its fourth line, split on spaces, holds the width and the height as its
/// second and third words.
pub open spec fn fbset_resolution(report: Seq<u8>) -> Option<(u32, u32)> {
    let lines = split_on(report, 10);
    if lines.len() <= 3 {
        None
    } else {
        let words = split_on(lines[3], 32);
        if words.len() <= 2 {
            None
        } else {
            match (parse_u32(words[1]), parse_u32(words[2])) {
                (Some(x), Some(y)) => Some((x, y)),
                _ => None,
            }
        }
    }
}

/// Reads the screen width and height from a framebuffer report; `None` where
/// the report has no such line or the words are not numbers.
pub fn parse_screen_size(report: &[u8]) -> (size: Option<(u32, u32)>)
    ensures
        size == fbset_resolution(report@),
{
    let lines = split_bytes(report, 10);
    if lines.len() <= 3 {
        return None;
    }
    let words = split_bytes(lines[3].as_slice(), 32);
    if words.len() <= 2 {
        return None;
    }
    let x = parse_u32_bytes(words[1].as_slice());
    let y = parse_u32_bytes(words[2].as_slice());
    match (x, y) {
        (Some(x), Some(y)) => Some((x, y)),
        _ => None,
    }
}

/// The screen size read from a report is its fourth line's second word as
/// the width and third word as the height, in that order: it is `(a, b)`
/// exactly when the report has a fourth line with at least three
/// space-separated words, the second reading as `a` and the third as `b`.
pub proof fn law_screen_size_words(report: Seq<u8>, a: u32, b: u32)
    ensures
        fbset_resolution(report) == Some((a, b)) <==> ({
            let lines = split_on(report, 10);
            &&& lines.len() > 3
            &&& split_on(lines[3], 32).len() > 2
            &&& parse_u32(split_on(lines[3], 32)[1]) == Some(a)
            &&& parse_u32(split_on(lines[3], 32)[2]) == Some(b)
        }),
{
}

/// The screen size is `None` exactly when the report has no fourth line,
/// that line has fewer than three words, or its second or third word is no
/// `u32`.
pub proof fn law_screen_size_missing(report: Seq<u8>)
    ensures
        fbset_resolution(report) is None <==> ({
            let lines = split_on(report, 10);
            ||| lines.len() <= 3
            ||| split_on(lines[3], 32).len() <= 2
            ||| parse_u32(split_on(lines[3], 32)[1]) is None
            ||| parse_u32(split_on(lines[3], 32)[2]) is None
        }),
{
}

/// The arguments of the touch tool for a tap at `x`, `y`: the `touch`
/// command, the input device, and the two coordinates in decimal.
pub fn click_args(x: u16, y: u16) -> (args: Vec<String>)
    ensures
        args@.len() == 4,
        args@[0]@ == "touch"@,
        args@[1]@ == "/dev/input/event1"@,
        args@[2]@ == decimal(x as nat),
        args@[3]@ == decimal(y as nat),
{
    let mut args: Vec<String> = Vec::new();
    args.push("touch".to_owned());
    args.push("/dev/input/event1".to_owned());
    args.push(decimal_string(x as usize));
    args.push(decimal_string(y as usize));
    args
}

} // verus!
