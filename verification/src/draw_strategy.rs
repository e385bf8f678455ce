//! Pixel traversal policies.  A strategy fixes the order in which a
//! rectangle's pixels are emitted into a command buffer: row by row, column
//! by column (each optionally reversed), or a uniform random permutation.

use vstd::prelude::*;

use rand::seq::SliceRandom;

verus! {

#[derive(Debug, Copy, Clone, PartialEq, Eq, Structural)]
pub enum DrawStrategy {
    Random,
    Rows { reversed: bool },
    Columns { reversed: bool },
}

/// Rejected strategy names carry the offending bytes.
#[derive(Debug)]
pub enum ParseError {
    Invalid(Vec<u8>),
}

/// The canonical name of a strategy, as command-line syntax spells it.
pub open spec fn spec_strategy_name(s: DrawStrategy) -> Seq<u8> {
    match s {
        DrawStrategy::Random => seq![114u8, 97u8, 110u8, 100u8, 111u8, 109u8],
        DrawStrategy::Rows { reversed: false } => seq![100u8, 111u8, 119u8, 110u8],
        DrawStrategy::Rows { reversed: true } => seq![117u8, 112u8],
        DrawStrategy::Columns { reversed: false } => seq![114u8, 105u8, 103u8, 104u8, 116u8],
        DrawStrategy::Columns { reversed: true } => seq![108u8, 101u8, 102u8, 116u8],
    }
}

/// The strategy a name denotes, if any.
pub open spec fn spec_parse_strategy(s: Seq<u8>) -> Option<DrawStrategy> {
    if s == spec_strategy_name(DrawStrategy::Random) {
        Some(DrawStrategy::Random)
    } else if s == spec_strategy_name(DrawStrategy::Rows { reversed: false }) {
        Some(DrawStrategy::Rows { reversed: false })
    } else if s == spec_strategy_name(DrawStrategy::Rows { reversed: true }) {
        Some(DrawStrategy::Rows { reversed: true })
    } else if s == spec_strategy_name(DrawStrategy::Columns { reversed: false }) {
        Some(DrawStrategy::Columns { reversed: false })
    } else if s == spec_strategy_name(DrawStrategy::Columns { reversed: true }) {
        Some(DrawStrategy::Columns { reversed: true })
    } else {
        None
    }
}

/// Parsing a name and rendering the parsed strategy returns the name.
pub proof fn lemma_strategy_round_trip(s: Seq<u8>)
    requires
        spec_parse_strategy(s) is Some,
    ensures
        spec_strategy_name(spec_parse_strategy(s)->Some_0) == s,
{
}

/// Rendering a strategy and parsing the rendering returns the strategy.
pub proof fn lemma_strategy_names_distinct(d: DrawStrategy)
    ensures
        spec_parse_strategy(spec_strategy_name(d)) == Some(d),
{
}

impl DrawStrategy {
    /// The canonical name, as bytes.
    pub fn name_bytes(&self) -> (r: Vec<u8>)
        ensures
            r@ == spec_strategy_name(*self),
    {
        let mut v: Vec<u8> = Vec::new();
        match self {
            DrawStrategy::Random => {
                v.push(114u8);
                v.push(97u8);
                v.push(110u8);
                v.push(100u8);
                v.push(111u8);
                v.push(109u8);
            },
            DrawStrategy::Rows { reversed } => {
                if *reversed {
                    v.push(117u8);
                    v.push(112u8);
                } else {
                    v.push(100u8);
                    v.push(111u8);
                    v.push(119u8);
                    v.push(110u8);
                }
            },
            DrawStrategy::Columns { reversed } => {
                if *reversed {
                    v.push(108u8);
                    v.push(101u8);
                    v.push(102u8);
                    v.push(116u8);
                } else {
                    v.push(114u8);
                    v.push(105u8);
                    v.push(103u8);
                    v.push(104u8);
                    v.push(116u8);
                }
            },
        }
        assert(v@ =~= spec_strategy_name(*self));
        v
    }

    /// Parses a strategy name; unknown names come back in the error.
    pub fn from_bytes(s: &[u8]) -> (r: Result<DrawStrategy, ParseError>)
        ensures
            r matches Ok(d) ==> spec_parse_strategy(s@) == Some(d),
            r is Err <==> spec_parse_strategy(s@) is None,
            r matches Err(ParseError::Invalid(b)) ==> b@ == s@,
    {
        let candidates: [DrawStrategy; 5] = [
            DrawStrategy::Random,
            DrawStrategy::Rows { reversed: false },
            DrawStrategy::Rows { reversed: true },
            DrawStrategy::Columns { reversed: false },
            DrawStrategy::Columns { reversed: true },
        ];
        let mut i: usize = 0;
        while i < 5
            invariant
                0 <= i <= 5,
                candidates@ =~= seq![
                    DrawStrategy::Random,
                    DrawStrategy::Rows { reversed: false },
                    DrawStrategy::Rows { reversed: true },
                    DrawStrategy::Columns { reversed: false },
                    DrawStrategy::Columns { reversed: true },
                ],
                forall|j: int| 0 <= j < i ==> spec_strategy_name(candidates@[j]) != s@,
            decreases 5 - i,
        {
            let cand = candidates[i];
            let name = cand.name_bytes();
            if crate::text::bytes_eq(s, name.as_slice()) {
                return Ok(cand);
            }
            i += 1;
        }
        Err(ParseError::Invalid(vstd::slice::slice_to_vec(s)))
    }
}

/// One traversal of a `size.0 × size.1` index grid: the first component
/// runs outermost, the second innermost; `swap` exchanges the pair before it
/// is emitted.  Entry `i` is therefore `(i / size.1, i % size.1)`, swapped
/// when asked.
pub open spec fn spec_generated_order(s0: u16, s1: u16, swap: bool) -> Seq<(u16, u16)> {
    Seq::new(
        (s0 * s1) as nat,
        |i: int|
            if swap {
                ((i % (s1 as int)) as u16, (i / (s1 as int)) as u16)
            } else {
                ((i / (s1 as int)) as u16, (i % (s1 as int)) as u16)
            },
    )
}

/// Walks the grid `0..size.0 × 0..size.1`, outer to inner, emitting each
/// pair as is, or swapped.
pub fn generate_draw_order(size: (u16, u16), swap: bool) -> (r: Vec<(u16, u16)>)
    ensures
        r@ == spec_generated_order(size.0, size.1, swap),
{
    let mut r: Vec<(u16, u16)> = Vec::new();
    let mut x: u16 = 0;
    while x < size.0
        invariant
            0 <= x <= size.0,
            r@.len() == x * size.1,
            r@ =~= spec_generated_order(size.0, size.1, swap).take((x * size.1) as int),
        decreases size.0 - x,
    {
        let mut y: u16 = 0;
        while y < size.1
            invariant
                0 <= x < size.0,
                0 <= y <= size.1,
                r@.len() == x * size.1 + y,
                r@ =~= spec_generated_order(size.0, size.1, swap).take((x * size.1 + y) as int),
            decreases size.1 - y,
        {
            proof {
                let i = x * size.1 + y;
                assert(i < size.0 * size.1) by (nonlinear_arith)
                    requires
                        x < size.0,
                        y < size.1,
                        i == x * size.1 + y,
                ;
                assert(i / (size.1 as int) == x as int && i % (size.1 as int) == y as int)
                    by (nonlinear_arith)
                    requires
                        0 <= y < size.1,
                        0 <= x,
                        i == x * size.1 + y,
                ;
            }
            if swap {
                r.push((y, x));
            } else {
                r.push((x, y));
            }
            y += 1;
            assert(r@ =~= spec_generated_order(size.0, size.1, swap).take((x * size.1 + y) as int));
        }
        x += 1;
        assert(x * size.1 == (x - 1) * size.1 + size.1) by (nonlinear_arith);
    }
    proof {
        assert(r@.len() == size.0 * size.1);
        assert(r@ =~= spec_generated_order(size.0, size.1, swap));
    }
    r
}

/// Permutes `v` uniformly in place.
///
/// Relies on rand's `SliceRandom::shuffle` (a Fisher–Yates pass built from
/// in-place swaps): the result holds exactly the elements it was given,
/// rearranged.  Which arrangement comes back depends on the thread-local
/// generator, so only permutation itself is stated.
#[verifier::external_body]
fn shuffle_in_place(v: &mut Vec<(u16, u16)>)
    ensures
        final(v)@.to_multiset() == old(v)@.to_multiset(),
{
    v.shuffle(&mut rand::thread_rng());
}

/// Every entry of the generated order lies in the grid, and no entry
/// repeats.
pub proof fn lemma_generated_order_valid(s0: u16, s1: u16, swap: bool)
    ensures
        spec_generated_order(s0, s1, swap).len() == s0 * s1,
        forall|i: int|
            0 <= i < s0 * s1 ==> {
                let p = #[trigger] spec_generated_order(s0, s1, swap)[i];
                if swap {
                    p.0 < s1 && p.1 < s0
                } else {
                    p.0 < s0 && p.1 < s1
                }
            },
        spec_generated_order(s0, s1, swap).no_duplicates(),
{
    let s = spec_generated_order(s0, s1, swap);
    assert forall|i: int| 0 <= i < s0 * s1 implies {
        let p = #[trigger] s[i];
        if swap {
            p.0 < s1 && p.1 < s0
        } else {
            p.0 < s0 && p.1 < s1
        }
    } by {
        lemma_grid_div_mod(i, s0 as int, s1 as int);
    }
    assert forall|i: int, j: int| 0 <= i < j < s.len() implies s[i] != s[j] by {
        lemma_grid_div_mod(i, s0 as int, s1 as int);
        lemma_grid_div_mod(j, s0 as int, s1 as int);
    }
}

/// Division and remainder of a grid index by the inner extent stay inside
/// the grid, and recombine to the index.
pub proof fn lemma_grid_div_mod(i: int, s0: int, s1: int)
    requires
        0 <= i < s0 * s1,
        0 <= s0,
        0 <= s1,
    ensures
        0 <= i % s1 < s1,
        0 <= i / s1 < s0,
        i == s1 * (i / s1) + i % s1,
{
    assert(s1 > 0 && s0 > 0) by (nonlinear_arith)
        requires
            0 <= i < s0 * s1,
            0 <= s0,
            0 <= s1,
    ;
    vstd::arithmetic::div_mod::lemma_fundamental_div_mod(i, s1);
    vstd::arithmetic::div_mod::lemma_mod_bound(i, s1);
    assert(i / s1 < s0) by (nonlinear_arith)
        requires
            s1 > 0,
            i < s0 * s1,
            i == s1 * (i / s1) + i % s1,
            0 <= i % s1 < s1,
    ;
    assert(i / s1 >= 0) by (nonlinear_arith)
        requires
            s1 > 0,
            i >= 0,
            i == s1 * (i / s1) + i % s1,
            0 <= i % s1 < s1,
    ;
}

/// Which exact sequence a strategy promises for a `w × h` rectangle; the
/// random strategy promises only what `draw_order`'s other clauses state.
pub open spec fn spec_strategy_order(d: DrawStrategy, w: u16, h: u16, order: Seq<(u16, u16)>) -> bool {
    match d {
        DrawStrategy::Random => true,
        DrawStrategy::Rows { reversed } => order == if reversed {
            spec_generated_order(h, w, true).reverse()
        } else {
            spec_generated_order(h, w, true)
        },
        DrawStrategy::Columns { reversed } => order == if reversed {
            spec_generated_order(w, h, false).reverse()
        } else {
            spec_generated_order(w, h, false)
        },
    }
}

impl DrawStrategy {
    /// The full traversal of a `size.0 × size.1` pixel rectangle under this
    /// strategy: every coordinate of the rectangle exactly once, rows or
    /// columns in their stated direction, or — for `Random` — in some
    /// arbitrary arrangement of the same coordinates.
    pub fn draw_order(&self, size: (u16, u16)) -> (r: Vec<(u16, u16)>)
        ensures
            r@.len() == size.0 * size.1,
            r@.to_multiset() == spec_generated_order(size.0, size.1, false).to_multiset(),
            forall|i: int|
                0 <= i < r@.len() ==> (#[trigger] r@[i]).0 < size.0 && r@[i].1 < size.1,
            r@.no_duplicates(),
            spec_strategy_order(*self, size.0, size.1, r@),
    {
        proof {
            lemma_generated_order_valid(size.0, size.1, false);
            lemma_generated_order_valid(size.1, size.0, true);
        }
        match self {
            DrawStrategy::Random => {
                let mut order = generate_draw_order(size, false);
                shuffle_in_place(&mut order);
                proof {
                    spec_generated_order(size.0, size.1, false).lemma_multiset_has_no_duplicates();
                    order@.lemma_multiset_has_no_duplicates_conv();
                    assert(order@.len() == order@.to_multiset().len()) by {
                        order@.to_multiset_ensures();
                    }
                    assert(spec_generated_order(size.0, size.1, false).len()
                        == spec_generated_order(size.0, size.1, false).to_multiset().len()) by {
                        spec_generated_order(size.0, size.1, false).to_multiset_ensures();
                    }
                    assert forall|i: int| 0 <= i < order@.len() implies (#[trigger] order@[i]).0
                        < size.0 && order@[i].1 < size.1 by {
                        assert(order@.to_multiset().contains(order@[i])) by {
                            order@.to_multiset_ensures();
                        }
                        assert(spec_generated_order(size.0, size.1, false).contains(order@[i])) by {
                            spec_generated_order(size.0, size.1, false).to_multiset_ensures();
                        }
                    }
                }
                order
            },
            DrawStrategy::Rows { reversed } => {
                let mut order = generate_draw_order((size.1, size.0), true);
                if *reversed {
                    order = reverse_vec(order);
                }
                proof {
                    let base = spec_generated_order(size.1, size.0, true);
                    base.lemma_reverse_to_multiset();
                    if *reversed {
                        base.lemma_multiset_has_no_duplicates();
                        base.reverse().lemma_multiset_has_no_duplicates_conv();
                    }
                    lemma_orders_same_multiset(size.0, size.1);
                }
                order
            },
            DrawStrategy::Columns { reversed } => {
                let mut order = generate_draw_order(size, false);
                if *reversed {
                    order = reverse_vec(order);
                }
                proof {
                    let base = spec_generated_order(size.0, size.1, false);
                    base.lemma_reverse_to_multiset();
                    if *reversed {
                        base.lemma_multiset_has_no_duplicates();
                        base.reverse().lemma_multiset_has_no_duplicates_conv();
                    }
                }
                order
            },
        }
    }
}

/// Row-major and column-major traversals of the same rectangle visit the
/// same coordinates.
pub proof fn lemma_orders_same_multiset(w: u16, h: u16)
    ensures
        spec_generated_order(h, w, true).to_multiset() == spec_generated_order(
            w,
            h,
            false,
        ).to_multiset(),
{
    let rows = spec_generated_order(h, w, true);
    let cols = spec_generated_order(w, h, false);
    lemma_generated_order_valid(h, w, true);
    lemma_generated_order_valid(w, h, false);
    rows.lemma_multiset_has_no_duplicates();
    cols.lemma_multiset_has_no_duplicates();
    rows.to_multiset_ensures();
    cols.to_multiset_ensures();
    assert forall|p: (u16, u16)| true implies rows.to_multiset().count(p) == cols.to_multiset().count(
        p,
    ) by {
        if p.0 < w && p.1 < h {
            let ir = p.1 as int * w + p.0;
            assert(0 <= ir < h * w && ir % (w as int) == p.0 && ir / (w as int) == p.1)
                by (nonlinear_arith)
                requires
                    p.0 < w,
                    p.1 < h,
                    ir == p.1 as int * w + p.0,
            ;
            assert(rows[ir] == p);
            assert(rows.contains(p));
            let ic = p.0 as int * h + p.1;
            assert(0 <= ic < w * h && ic / (h as int) == p.0 && ic % (h as int) == p.1)
                by (nonlinear_arith)
                requires
                    p.0 < w,
                    p.1 < h,
                    ic == p.0 as int * h + p.1,
            ;
            assert(cols[ic] == p);
            assert(cols.contains(p));
            assert(rows.to_multiset().count(p) == 1 && cols.to_multiset().count(p) == 1);
        } else {
            assert(!rows.contains(p) && !cols.contains(p));
            assert(rows.to_multiset().count(p) == 0 && cols.to_multiset().count(p) == 0);
        }
    }
    assert(rows.to_multiset() =~= cols.to_multiset());
}

/// The same sequence, back to front.
pub fn reverse_vec(v: Vec<(u16, u16)>) -> (r: Vec<(u16, u16)>)
    ensures
        r@ == v@.reverse(),
{
    let mut r: Vec<(u16, u16)> = Vec::new();
    let mut i: usize = v.len();
    while i > 0
        invariant
            0 <= i <= v@.len(),
            r@.len() == v@.len() - i,
            forall|j: int| 0 <= j < r@.len() ==> r@[j] == v@[v@.len() - 1 - j],
        decreases i,
    {
        i -= 1;
        let p = v[i];
        r.push(p);
    }
    assert(r@ =~= v@.reverse());
    r
}

} // verus!
