//! Breaks a run of glyphs into lines.
//!
//! The text of a run may be broken at its white space. Lines are filled
//! word by word: a word that does not fit into what is left of a line opens
//! the next line.

use crate::html_parser::{char_is_white_space, is_white_space};
use crate::sculpter::fixed::{fx_add, spec_add};
use crate::sculpter::shaper::GlyphPlan;
use vstd::prelude::*;
use vstd::slice::slice_subrange;

verus! {

/// What kind of white space a line may be broken at.
#[derive(Debug, Clone, Copy, PartialEq, Eq, Structural)]
pub enum BreakpointType {
    Newline,
    Wordbreak,
}

/// A place at which a line may be broken, by its distance from the place
/// before it.
#[derive(Debug, Clone, Copy, PartialEq, Eq, Structural)]
pub struct Breakpoint {
    pub distance: u32,
    pub t: BreakpointType,
}

/// The glyphs of one line.
#[derive(Debug)]
pub struct Line<'a> {
    pub glyphs: &'a [GlyphPlan],
}

/// The lines that were filled, how many glyphs they took, and the glyphs
/// that are left.
#[derive(Debug)]
pub struct LinesResult<'a> {
    pub lines: Vec<Line<'a>>,
    pub used_glyphs: usize,
    pub rest: &'a [GlyphPlan],
}

/// The breakpoints of the first `k` characters of `text` with the place of
/// the last of them: each white space is a breakpoint, a newline of its own
/// kind. The distance of the first is its place, that of another is counted
/// from the breakpoint before it; distances are cut to 32 bits.
pub open spec fn breaks(text: Seq<char>, k: int) -> (Seq<Breakpoint>, int)
    decreases k,
{
    if k <= 0 {
        (Seq::empty(), 0)
    } else {
        let before = breaks(text, k - 1);
        if is_white_space(text[k - 1]) {
            (
                before.0.push(
                    Breakpoint {
                        distance: ((k - 1 - before.1) % 0x1_0000_0000) as u32,
                        t: if text[k - 1] == '\n' {
                            BreakpointType::Newline
                        } else {
                            BreakpointType::Wordbreak
                        },
                    },
                ),
                k - 1,
            )
        } else {
            before
        }
    }
}

/// The breakpoints of `text`.
pub fn breakpoints(text: &Vec<char>) -> (r: Vec<Breakpoint>)
    ensures
        r@ == breaks(text@, text@.len() as int).0,
{
    let mut r: Vec<Breakpoint> = Vec::new();
    let mut last_brk: usize = 0;
    let mut k: usize = 0;
    while k < text.len()
        invariant
            k <= text@.len(),
            last_brk <= k,
            r@ == breaks(text@, k as int).0,
            last_brk == breaks(text@, k as int).1,
        decreases text@.len() - k,
    {
        let ch = text[k];
        if char_is_white_space(ch) {
            let distance = (((k - last_brk) as u64) % 0x1_0000_0000u64) as u32;
            last_brk = k;
            r.push(
                Breakpoint {
                    distance,
                    t: if ch == '\n' {
                        BreakpointType::Newline
                    } else {
                        BreakpointType::Wordbreak
                    },
                },
            );
        }
        k = k + 1;
    }
    r
}

/// The widths of the glyphs from `from` up to `to` added up, a sum that
/// does not fit stopping at the largest or smallest number.
pub open spec fn width_of(glyphs: Seq<GlyphPlan>, from: int, to: int) -> int
    decreases to - from,
{
    if to <= from {
        0
    } else {
        spec_add(width_of(glyphs, from, to - 1), glyphs[to - 1].pos.x_advance as int)
    }
}

fn measure(glyphs: &[GlyphPlan], from: usize, to: usize) -> (w: i32)
    requires
        from <= to <= glyphs@.len(),
    ensures
        w == width_of(glyphs@, from as int, to as int),
{
    let mut w: i32 = 0;
    let mut i: usize = from;
    while i < to
        invariant
            from <= i <= to <= glyphs@.len(),
            w == width_of(glyphs@, from as int, i as int),
        decreases to - i,
    {
        w = fx_add(w, glyphs[i].pos.x_advance);
        i = i + 1;
    }
    w
}

/// The filling of lines between two words: the lines that are full, as
/// pairs of the places of their first glyph and of the glyph behind their
/// last, the place at which the line that is being filled starts, the place
/// of the next glyph, and the next breakpoint.
pub struct Filling {
    pub lines: Seq<(int, int)>,
    pub start: int,
    pub current: int,
    pub next_break: int,
}

/// The filling after the words that fit into a line of `max_width` of which
/// `line_width` is taken; nothing where a breakpoint lies behind the glyphs
/// or is not followed by a glyph.
///
/// A word reaches from the next glyph up to the breakpoint. With the word,
/// the line takes the glyph behind the breakpoint. A word that does not fit
/// ends the line in front of it.
pub open spec fn line_filled(
    glyphs: Seq<GlyphPlan>,
    bps: Seq<Breakpoint>,
    max_width: i32,
    line_width: i32,
    f: Filling,
) -> Option<Filling>
    decreases bps.len() - f.next_break,
{
    if f.next_break < 0 || f.next_break >= bps.len() {
        Some(f)
    } else {
        let breakpoint = f.current + bps[f.next_break].distance;
        if breakpoint > glyphs.len() || f.current < 0 {
            None
        } else {
            let word_width = width_of(glyphs, f.current, breakpoint);
            if spec_add(line_width as int, word_width) > max_width {
                Some(
                    Filling {
                        lines: f.lines.push((f.start, f.current)),
                        start: f.current,
                        ..f
                    },
                )
            } else if breakpoint + 1 >= glyphs.len() {
                None
            } else {
                line_filled(
                    glyphs,
                    bps,
                    max_width,
                    spec_add(
                        line_width as int,
                        spec_add(word_width, glyphs[breakpoint + 1].pos.x_advance as int),
                    ) as i32,
                    Filling { current: breakpoint + 1, next_break: f.next_break + 1, ..f },
                )
            }
        }
    }
}

/// The filling after the first `k` lines.
///
/// What is left of a line when the breakpoints run out, or what stands in a
/// line that its first word did not fit into, is a line as well.
pub open spec fn lines_filled(
    glyphs: Seq<GlyphPlan>,
    widths: Seq<i32>,
    bps: Seq<Breakpoint>,
    k: int,
) -> Option<Filling>
    decreases k,
{
    if k <= 0 {
        Some(Filling { lines: Seq::empty(), start: 0, current: 0, next_break: 0 })
    } else {
        match lines_filled(glyphs, widths, bps, k - 1) {
            Some(before) => match line_filled(glyphs, bps, widths[k - 1], 0, before) {
                Some(f) => if f.start < f.current {
                    Some(Filling { lines: f.lines.push((f.start, f.current)), ..f })
                } else {
                    Some(f)
                },
                None => None,
            },
            None => None,
        }
    }
}

/// Where there is no filling of the first lines there is none of more lines.
pub proof fn lemma_lines_filled_stays_none(
    glyphs: Seq<GlyphPlan>,
    widths: Seq<i32>,
    bps: Seq<Breakpoint>,
    k: int,
    n: int,
)
    requires
        0 <= k <= n,
        lines_filled(glyphs, widths, bps, k) is None,
    ensures
        lines_filled(glyphs, widths, bps, n) is None,
    decreases n - k,
{
    if k < n {
        lemma_lines_filled_stays_none(glyphs, widths, bps, k, n - 1);
    }
}

/// The lines as pairs of places in the glyphs that they were cut from.
pub open spec fn cut_from(lines: Seq<Line<'_>>, glyphs: Seq<GlyphPlan>, places: Seq<(int, int)>) -> bool {
    &&& lines.len() == places.len()
    &&& forall|i: int|
        0 <= i < lines.len() ==> 0 <= (#[trigger] places[i]).0 <= places[i].1 <= glyphs.len()
            && lines[i].glyphs@ == glyphs.subrange(places[i].0, places[i].1)
}

/// Fills lines of the widths `lines_widths` with the glyphs of a run that
/// may be broken at `breakpoints`.
///
/// There is no filling where a breakpoint lies behind the glyphs or is not
/// followed by a glyph.
#[verifier::loop_isolation(false)]
pub fn fill_lines<'a>(
    glyphs: &'a [GlyphPlan],
    lines_widths: &Vec<i32>,
    breakpoints: &Vec<Breakpoint>,
) -> (r: Option<LinesResult<'a>>)
    ensures
        match r {
            Some(result) => lines_filled(
                glyphs@,
                lines_widths@,
                breakpoints@,
                lines_widths@.len() as int,
            ) matches Some(f) && cut_from(result.lines@, glyphs@, f.lines) && result.used_glyphs
                == f.current && f.current <= glyphs@.len() && result.rest@ == glyphs@.subrange(
                f.current,
                glyphs@.len() as int,
            ),
            None => lines_filled(glyphs@, lines_widths@, breakpoints@, lines_widths@.len() as int)
                is None,
        },
{
    let mut lines: Vec<Line<'a>> = Vec::new();
    let mut start: usize = 0;
    let mut current: usize = 0;
    let mut next_break: usize = 0;
    let ghost mut places: Seq<(int, int)> = Seq::empty();
    let mut k: usize = 0;
    while k < lines_widths.len()
        invariant
            k <= lines_widths@.len(),
            start <= current <= glyphs@.len(),
            next_break <= breakpoints@.len(),
            cut_from(lines@, glyphs@, places),
            lines_filled(glyphs@, lines_widths@, breakpoints@, k as int) == Some(
                Filling {
                    lines: places,
                    start: start as int,
                    current: current as int,
                    next_break: next_break as int,
                },
            ),
        decreases lines_widths@.len() - k,
    {
        let max_width = lines_widths[k];
        let mut line_width: i32 = 0;
        let ghost entry = Filling {
            lines: places,
            start: start as int,
            current: current as int,
            next_break: next_break as int,
        };
        let ghost goal = line_filled(glyphs@, breakpoints@, max_width, 0, entry);
        let mut broke = false;
        while next_break < breakpoints.len() && !broke
            invariant
                start <= current <= glyphs@.len(),
                next_break <= breakpoints@.len(),
                cut_from(lines@, glyphs@, places),
                !broke ==> line_filled(
                    glyphs@,
                    breakpoints@,
                    max_width,
                    line_width,
                    Filling {
                        lines: places,
                        start: start as int,
                        current: current as int,
                        next_break: next_break as int,
                    },
                ) == goal,
                broke ==> goal == Some(
                    Filling {
                        lines: places,
                        start: start as int,
                        current: current as int,
                        next_break: next_break as int,
                    },
                ),
            decreases breakpoints@.len() - next_break + (if broke {
                0int
            } else {
                1int
            }),
        {
            let bp = breakpoints[next_break];
            if bp.distance as usize > glyphs.len() - current {
                proof {
                    assert(goal is None);
                    lemma_lines_filled_stays_none(
                        glyphs@,
                        lines_widths@,
                        breakpoints@,
                        k + 1,
                        lines_widths@.len() as int,
                    );
                }
                return None;
            }
            let breakpoint = current + bp.distance as usize;
            let word_width = measure(glyphs, current, breakpoint);
            if fx_add(line_width, word_width) > max_width {
                let ghost before = lines@;
                lines.push(Line { glyphs: slice_subrange(glyphs, start, current) });
                proof {
                    places = places.push((start as int, current as int));
                }
                start = current;
                broke = true;
            } else {
                if glyphs.len() - breakpoint <= 1 {
                    proof {
                        assert(goal is None);
                        lemma_lines_filled_stays_none(
                            glyphs@,
                            lines_widths@,
                            breakpoints@,
                            k + 1,
                            lines_widths@.len() as int,
                        );
                    }
                    return None;
                }
                current = breakpoint + 1;
                line_width = fx_add(line_width, fx_add(word_width, glyphs[current].pos.x_advance));
                next_break = next_break + 1;
            }
        }
        if start < current {
            lines.push(Line { glyphs: slice_subrange(glyphs, start, current) });
            proof {
                places = places.push((start as int, current as int));
            }
        }
        k = k + 1;
    }
    Some(
        LinesResult {
            lines,
            used_glyphs: current,
            rest: slice_subrange(glyphs, current, glyphs.len()),
        },
    )
}

} // verus!
