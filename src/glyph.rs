//! Glyph text: `#` is a set pixel, `.` a clear one; other characters are
//! layout and are skipped.
use vstd::prelude::*;

use crate::error::ModelError;

verus! {

/// The pixels that the text `s` spells, in order: `1` for `#`, `0` for `.`.
pub open spec fn glyph_pixels(s: Seq<char>) -> Seq<i32>
    decreases s.len(),
{
    if s.len() == 0 {
        Seq::empty()
    } else {
        let rest = glyph_pixels(s.drop_last());
        if s.last() == '#' {
            rest.push(1)
        } else if s.last() == '.' {
            rest.push(0)
        } else {
            rest
        }
    }
}

/// The first `pixel_count` pixels of the glyph text `text`; fails when the
/// text spells fewer.
pub fn parse_glyph(text: &[char], pixel_count: usize) -> (r: Result<Vec<i32>, ModelError>)
    ensures
        glyph_pixels(text@).len() >= pixel_count ==> (r matches Ok(v) && v@ == glyph_pixels(
            text@,
        ).take(pixel_count as int)),
        glyph_pixels(text@).len() < pixel_count ==> r == Err::<Vec<i32>, ModelError>(
            ModelError::MalformedSample {
                expected: pixel_count,
                actual: glyph_pixels(text@).len() as usize,
            },
        ),
{
    let mut all: Vec<i32> = Vec::new();
    let mut i: usize = 0;
    while i < text.len()
        invariant
            i <= text@.len(),
            all@ == glyph_pixels(text@.subrange(0, i as int)),
            all@.len() <= i,
        decreases text@.len() - i,
    {
        let c = text[i];
        assert(text@.subrange(0, i + 1).drop_last() == text@.subrange(0, i as int));
        if c == '#' {
            all.push(1);
        } else if c == '.' {
            all.push(0);
        }
        i += 1;
    }
    assert(text@.subrange(0, text@.len() as int) == text@);
    if all.len() < pixel_count {
        return Err(ModelError::MalformedSample { expected: pixel_count, actual: all.len() });
    }
    let mut out: Vec<i32> = Vec::new();
    let mut k: usize = 0;
    while k < pixel_count
        invariant
            k <= pixel_count <= all@.len(),
            out@ == all@.take(k as int),
        decreases pixel_count - k,
    {
        out.push(all[k]);
        k += 1;
        assert(out@ =~= all@.take(k as int));
    }
    Ok(out)
}

} // verus!
