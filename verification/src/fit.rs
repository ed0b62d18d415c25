//! The fit search: a binary search over font sizes that selects the largest
//! size whose word-wrapped layout satisfies a line-count and height budget.
//!
//! Font sizes are carried in quarter-pixel units, so the search's
//! convergence threshold of a quarter pixel is exactly one unit and the
//! floor size of five pixels is twenty units. The candidate size is
//! `min + max / 2` — deliberately not the arithmetic mean; the asymmetric
//! midpoint is part of the search's observable behavior and is kept as is.
//!
//! Measuring a candidate (laying the text out with the font rasterizer) is
//! work the search's caller performs; the search itself is a state machine.
//! The caller asks for [`FitSearch::candidate`], lays the text out at that
//! size, and feeds the measured line count and height to
//! [`FitSearch::step`], until `step` returns a result.

use vstd::prelude::*;

use vstd::arithmetic::power2::pow2;

verus! {

/// The floor font size of five pixels, in quarter-pixel units.
pub const MIN_FONT_SIZE_Q: u32 = 20;

/// True for the characters that word-splitting treats as separators
/// (the Unicode white-space characters).
pub open spec fn is_space_char(c: char) -> bool {
    ||| c == '\u{0009}'
    ||| c == '\u{000A}'
    ||| c == '\u{000B}'
    ||| c == '\u{000C}'
    ||| c == '\u{000D}'
    ||| c == ' '
    ||| c == '\u{0085}'
    ||| c == '\u{00A0}'
    ||| c == '\u{1680}'
    ||| c == '\u{2000}'
    ||| c == '\u{2001}'
    ||| c == '\u{2002}'
    ||| c == '\u{2003}'
    ||| c == '\u{2004}'
    ||| c == '\u{2005}'
    ||| c == '\u{2006}'
    ||| c == '\u{2007}'
    ||| c == '\u{2008}'
    ||| c == '\u{2009}'
    ||| c == '\u{200A}'
    ||| c == '\u{2028}'
    ||| c == '\u{2029}'
    ||| c == '\u{202F}'
    ||| c == '\u{205F}'
    ||| c == '\u{3000}'
}

/// Whether one character is a word separator.
pub fn is_space(c: char) -> (r: bool)
    ensures
        r == is_space_char(c),
{
    c == '\u{0009}' || c == '\u{000A}' || c == '\u{000B}' || c == '\u{000C}' || c == '\u{000D}'
        || c == ' ' || c == '\u{0085}' || c == '\u{00A0}' || c == '\u{1680}' || c == '\u{2000}'
        || c == '\u{2001}' || c == '\u{2002}' || c == '\u{2003}' || c == '\u{2004}'
        || c == '\u{2005}' || c == '\u{2006}' || c == '\u{2007}' || c == '\u{2008}'
        || c == '\u{2009}' || c == '\u{200A}' || c == '\u{2028}' || c == '\u{2029}'
        || c == '\u{202F}' || c == '\u{205F}' || c == '\u{3000}'
}

/// The number of word separators in a character sequence.
pub open spec fn count_spaces(s: Seq<char>) -> int
    decreases s.len(),
{
    if s.len() == 0 {
        0
    } else {
        count_spaces(s.drop_last()) + if is_space_char(s.last()) {
            1int
        } else {
            0int
        }
    }
}

/// Splitting at every separator yields one more piece than there are
/// separators; that is the largest number of lines word-wrap could ever
/// produce (one word per line).
pub open spec fn token_budget(s: Seq<char>) -> int {
    count_spaces(s) + 1
}

proof fn lemma_count_spaces_nonneg(s: Seq<char>)
    ensures
        0 <= count_spaces(s) <= s.len(),
    decreases s.len(),
{
    if s.len() > 0 {
        lemma_count_spaces_nonneg(s.drop_last());
    }
}

/// The token budget of a text: its word-separator count plus one,
/// saturating at `u64::MAX` (unreachable for any text a machine holds).
pub fn count_tokens(text: &str) -> (n: u64)
    ensures
        count_spaces(text@) + 1 <= u64::MAX ==> n == token_budget(text@),
        n >= 1,
{
    proof {
        lemma_count_spaces_nonneg(text@);
    }
    let mut spaces: u64 = 0;
    for c in it: text.chars()
        invariant
            it.seq() == text@,
            spaces as int == if count_spaces(text@.take(it.index() as int)) <= u64::MAX {
                count_spaces(text@.take(it.index() as int))
            } else {
                u64::MAX as int
            },
    {
        proof {
            let pre = text@.take(it.index() as int);
            let post = text@.take(it.index() as int + 1);
            assert(post.drop_last() =~= pre);
            assert(post.last() == text@[it.index() as int]);
            lemma_count_spaces_nonneg(pre);
        }
        if is_space(c) && spaces < u64::MAX {
            spaces = spaces + 1;
        }
    }
    proof {
        assert(text@.take(text@.len() as int) =~= text@);
    }
    if spaces < u64::MAX {
        spaces + 1
    } else {
        u64::MAX
    }
}

/// The outcome of a fit search: the chosen size in quarter-pixel units, and
/// whether the measurement at that size satisfied both budgets (`fit`), or
/// the bracket was exhausted without any size fitting and the smallest
/// tried size was accepted (`!fit`).
#[derive(Clone, Copy, PartialEq, Eq, Structural, Debug)]
pub struct FitResult {
    pub size_q: u32,
    pub fit: bool,
}

/// The state of one fit search over the size bracket `[min_q, max_q]`.
pub struct FitSearch {
    /// Lower end of the size bracket, quarter-pixel units.
    pub min_q: u32,
    /// Upper end of the size bracket, quarter-pixel units.
    pub max_q: u32,
    /// Largest admissible laid-out line count: the text's token budget.
    pub abs_max_lines: u64,
    /// Width of the target box in pixels (for the caller's layout).
    pub box_w: u32,
    /// Height budget of the target box, quarter-pixel units.
    pub box_h_q: u64,
    /// Number of measurements fed so far.
    pub steps: Ghost<nat>,
    /// Upper bound for the shrinking bracket measure, fixed at the start.
    pub gap0: Ghost<int>,
}

/// The candidate size of a bracket: `min + max / 2`, the search's
/// deliberately asymmetric midpoint.
pub open spec fn spec_candidate(s: FitSearch) -> int {
    s.min_q + s.max_q / 2
}

/// The bracket measure that each continuing step at least halves.
pub open spec fn gap(s: FitSearch) -> int {
    s.max_q - 2 * s.min_q
}

/// True when a measurement breaks a budget: more lines than the token
/// budget, or a laid-out height above the box height.
pub open spec fn too_big(s: FitSearch, lines: u64, height_q: u64) -> bool {
    lines > s.abs_max_lines || height_q > s.box_h_q
}

impl FitSearch {
    /// A valid search state.
    pub open spec fn wf(self) -> bool {
        &&& 1 <= self.min_q
        &&& self.min_q <= 0x2000_0000
        &&& self.min_q <= self.max_q
        &&& self.max_q <= 0x4000_0000
        &&& 0 <= self.gap0@
        &&& pow2(self.steps@) * gap(self) <= self.gap0@
    }

    /// Start a search for `text` over the size bracket `[min_q, max_q]`
    /// (quarter-pixel units), in a box of `box_w` by `box_h` pixels.
    pub fn new(min_q: u32, max_q: u32, text: &str, box_w: u32, box_h: u32) -> (r: FitSearch)
        requires
            1 <= min_q,
            min_q <= max_q,
            min_q <= 0x2000_0000,
            max_q <= 0x4000_0000,
        ensures
            r.wf(),
            r.min_q == min_q,
            r.max_q == max_q,
            count_spaces(text@) + 1 <= u64::MAX ==> r.abs_max_lines == token_budget(text@),
            r.box_w == box_w,
            r.box_h_q == 4 * box_h,
            r.steps@ == 0,
            r.gap0@ == if gap(r) >= 0 {
                gap(r)
            } else {
                0
            },
    {
        let abs_max_lines = count_tokens(text);
        let r = FitSearch {
            min_q,
            max_q,
            abs_max_lines,
            box_w,
            box_h_q: (box_h as u64) * 4,
            steps: Ghost(0),
            gap0: Ghost(
                if max_q as int - 2 * min_q >= 0 {
                    max_q as int - 2 * min_q
                } else {
                    0
                },
            ),
        };
        proof {
            vstd::arithmetic::power2::lemma2_to64();
            assert(pow2(r.steps@) == 1);
            assert(1 * gap(r) == gap(r)) by (nonlinear_arith);
        }
        r
    }

    /// The size to measure next.
    pub fn candidate(&self) -> (c: u32)
        requires
            self.wf(),
        ensures
            c == spec_candidate(*self),
            self.min_q <= c,
    {
        self.min_q + self.max_q / 2
    }

    /// Feed the measurement of the current candidate: the laid-out line
    /// count and the laid-out height in quarter-pixel units. Returns the
    /// search's result once it has converged.
    ///
    /// A candidate that breaks a budget becomes the bracket's new upper
    /// end, at least halving the bracket measure; and the next candidate
    /// is never larger than the rejected one, so when the bracket cannot
    /// shrink further the accepted candidate is the smallest size the
    /// search ever measured. A candidate that fits is returned at once
    /// whenever the bracket ends are within the quarter-pixel convergence
    /// threshold, which a valid bracket always is.
    pub fn step(&mut self, lines: u64, height_q: u64) -> (r: Option<FitResult>)
        requires
            old(self).wf(),
        ensures
            final(self).wf(),
            final(self).min_q == old(self).min_q,
            final(self).abs_max_lines == old(self).abs_max_lines,
            final(self).box_w == old(self).box_w,
            final(self).box_h_q == old(self).box_h_q,
            final(self).gap0@ == old(self).gap0@,
            r is Some ==> *final(self) == *old(self),
            r is None ==> too_big(*old(self), lines, height_q),
            r is None ==> final(self).max_q == spec_candidate(*old(self)) < old(self).max_q,
            r is None ==> spec_candidate(*final(self)) <= spec_candidate(*old(self)),
            r is None ==> 2 * gap(*final(self)) <= gap(*old(self)),
            r is None ==> final(self).steps@ == old(self).steps@ + 1,
            r is None ==> 2 * old(self).min_q <= old(self).max_q ==> 2 * final(self).min_q
                <= final(self).max_q,
            r matches Some(res) ==> res.size_q == spec_candidate(*old(self)),
            r matches Some(res) ==> res.fit == !too_big(*old(self), lines, height_q),
            r matches Some(res) && !res.fit ==> spec_candidate(*old(self)) >= old(self).max_q,
            r matches Some(res) ==> old(self).min_q <= res.size_q,
            2 * old(self).min_q <= old(self).max_q ==> (r matches Some(res) ==> res.size_q
                <= old(self).max_q),
            !too_big(*old(self), lines, height_q) ==> r is Some,
            gap(*old(self)) <= 0 ==> r is Some,
    {
        let c = self.candidate();
        let is_too_big = lines > self.abs_max_lines || height_q > self.box_h_q;
        if is_too_big {
            if c >= self.max_q {
                Some(FitResult { size_q: c, fit: false })
            } else {
                proof {
                    let g_new = spec_candidate(*self) - 2 * self.min_q;
                    assert(2 * g_new <= gap(*self));
                    lemma_pow2_mul_le(self.steps@, self.gap0@, gap(*self), g_new);
                }
                self.max_q = c;
                self.steps = Ghost(self.steps@ + 1);
                None
            }
        } else {
            if self.min_q <= self.max_q + 1 {
                Some(FitResult { size_q: c, fit: true })
            } else {
                // Unreachable for a valid bracket (`min_q <= max_q` makes the
                // convergence threshold hold); kept as the search is defined.
                self.min_q = c;
                self.steps = Ghost(self.steps@ + 1);
                None
            }
        }
    }
}

/// Halving the measure keeps the shrinking-bracket bound: if the measure
/// drops from `g` to at most half, one more doubling of the step count's
/// power of two stays below the fixed initial bound.
proof fn lemma_pow2_mul_le(k: nat, g0: int, g: int, g2: int)
    requires
        pow2(k) * g <= g0,
        2 * g2 <= g,
    ensures
        pow2(k + 1) * g2 <= g0,
{
    vstd::arithmetic::power2::lemma_pow2_unfold(k + 1);
    assert(pow2(k + 1) * g2 <= g0) by (nonlinear_arith)
        requires
            pow2(k) * g <= g0,
            2 * g2 <= g,
            pow2(k + 1) == 2 * pow2(k),
            pow2(k) >= 0,
    ;
}

/// A search that can still continue has made at most logarithmically many
/// measurements: two to the power of the step count is bounded by the
/// bracket measure the search began with.
pub proof fn lemma_fit_iteration_bound(s: FitSearch)
    requires
        s.wf(),
        gap(s) >= 1,
    ensures
        pow2(s.steps@) <= s.gap0@,
{
    assert(pow2(s.steps@) <= pow2(s.steps@) * gap(s)) by (nonlinear_arith)
        requires
            gap(s) >= 1,
            pow2(s.steps@) >= 0,
    ;
}

} // verus!
