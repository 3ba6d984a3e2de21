//! Which pairs of lens surfaces produce ghosts: a ghost is a ray reflected
//! at one glass surface and again at a later one.

use vstd::prelude::*;

verus! {

/// What kind of element a lens element is, as far as ghosts go.
#[derive(Debug, Clone, Copy, PartialEq, Eq, Structural)]
pub enum ElementKind {
    Glass,
    Aperture,
}

/// The kinds of the elements of a lens, in order along the optical axis.
#[derive(Debug, Clone)]
pub struct LensLayout {
    pub elements: Vec<ElementKind>,
}

pub open spec fn is_glass(kinds: Seq<ElementKind>, i: int) -> bool {
    kinds[i] == ElementKind::Glass
}

/// The glass pairs `(i, j)` for one `i`, with `i < j < m`.
pub open spec fn pair_row(kinds: Seq<ElementKind>, i: int, m: int) -> Seq<(int, int)>
    decreases m - i,
{
    if m <= i + 1 {
        Seq::empty()
    } else if is_glass(kinds, i) && is_glass(kinds, m - 1) {
        pair_row(kinds, i, m - 1).push((i, m - 1))
    } else {
        pair_row(kinds, i, m - 1)
    }
}

/// The glass pairs with first element below `n`.
pub open spec fn pairs_upto(kinds: Seq<ElementKind>, n: int) -> Seq<(int, int)>
    decreases n,
{
    if n <= 0 {
        Seq::empty()
    } else {
        pairs_upto(kinds, n - 1) + pair_row(kinds, n - 1, kinds.len() as int)
    }
}

/// All pairs `(i, j)`, `i < j`, of glass elements, in lexicographic order:
/// the ghosts, numbered from one.
pub open spec fn glass_pairs(kinds: Seq<ElementKind>) -> Seq<(int, int)> {
    pairs_upto(kinds, kinds.len() - 1)
}

/// The ghosts selected by `which_ghost`: all of them for zero, otherwise
/// the ghost of that number if there is one.
pub open spec fn selected_ghosts(kinds: Seq<ElementKind>, which_ghost: int) -> Seq<(int, int)> {
    let pairs = glass_pairs(kinds);
    if which_ghost == 0 {
        pairs
    } else if which_ghost <= pairs.len() {
        seq![pairs[which_ghost - 1]]
    } else {
        Seq::empty()
    }
}

/// A pair of element indices as the `u32` pair that the GPU buffers hold.
pub open spec fn as_u32_pair(p: (int, int)) -> Seq<u32> {
    seq![p.0 as u32, p.1 as u32]
}

impl LensLayout {
    /// The two element indices of the selected ghost: for `which_ghost`
    /// zero the first ghost, otherwise ghost number `which_ghost`; `None`
    /// when there is no such ghost or bit 0 of `draw_mode` is clear.
    pub fn get_ghost_index(&self, draw_mode: usize, which_ghost: usize) -> (r: Option<[u32; 2]>)
        requires
            draw_mode & 1 > 0 ==> self.elements@.len() >= 1,
        ensures
            match r {
                Some(a) => {
                    &&& draw_mode & 1 > 0
                    &&& selected_ghosts(self.elements@, which_ghost as int).len() > 0
                    &&& a@ == as_u32_pair(selected_ghosts(self.elements@, which_ghost as int)[0])
                },
                None => !(draw_mode & 1 > 0) || selected_ghosts(
                    self.elements@,
                    which_ghost as int,
                ).len() == 0,
            },
    {
        let ghost kinds = self.elements@;
        let ghost n = kinds.len() as int;
        if draw_mode & 1 > 0 {
            let mut ghost_num: usize = 0;
            let mut i: usize = 0;
            while i < self.elements.len() - 1
                invariant
                    kinds == self.elements@,
                    draw_mode & 1 > 0,
                    n == kinds.len(),
                    n >= 1,
                    i <= n - 1,
                    ghost_num == pairs_upto(kinds, i as int).len(),
                    which_ghost == 0 ==> ghost_num == 0,
                    which_ghost > 0 ==> ghost_num < which_ghost,
                decreases n - 1 - i,
            {
                let mut j: usize = i + 1;
                let ghost before = pairs_upto(kinds, i as int);
                while j < self.elements.len()
                    invariant
                        kinds == self.elements@,
                        draw_mode & 1 > 0,
                        n == kinds.len(),
                        i < n - 1,
                        i + 1 <= j <= n,
                        before == pairs_upto(kinds, i as int),
                        ghost_num == before.len() + pair_row(kinds, i as int, j as int).len(),
                        which_ghost == 0 ==> ghost_num == 0,
                        which_ghost > 0 ==> ghost_num < which_ghost,
                    decreases n - j,
                {
                    let ghost row = pair_row(kinds, i as int, j as int);
                    if self.elements[i] == ElementKind::Glass && self.elements[j]
                        == ElementKind::Glass {
                        assert(pair_row(kinds, i as int, j + 1) == row.push((i as int, j as int)));
                        ghost_num = ghost_num + 1;
                        if ghost_num == which_ghost || which_ghost == 0 {
                            proof {
                                lemma_pairs_prefix(kinds, i as int, j as int);
                                let pos: int = (before.len() + row.len()) as int;
                                assert(glass_pairs(kinds)[pos] == (i as int, j as int));
                                if which_ghost == 0 {
                                    assert(pos == 0);
                                } else {
                                    assert(pos == which_ghost - 1);
                                }
                                assert(selected_ghosts(kinds, which_ghost as int).len() > 0);
                                assert(selected_ghosts(kinds, which_ghost as int)[0] == (
                                    i as int,
                                    j as int,
                                ));
                            }
                            let pair = [i as u32, j as u32];
                            assert(pair@ =~= as_u32_pair((i as int, j as int)));
                            return Some(pair);
                        }
                    }
                    j = j + 1;
                }
                proof {
                    lemma_pairs_prefix_full(kinds, i as int);
                }
                i = i + 1;
            }
            proof {
                assert(glass_pairs(kinds) == pairs_upto(kinds, i as int));
            }
        }
        None
    }

    /// The element index pairs of the selected ghosts (all of them for
    /// `which_ghost` zero) when bit 0 of `draw_mode` is set, followed by
    /// `[0, 0]` when bit 1 is set.
    pub fn get_ghosts_indicies(&self, draw_mode: usize, which_ghost: usize) -> (r: Vec<[u32; 2]>)
        requires
            draw_mode & 1 > 0 ==> self.elements@.len() >= 1,
            draw_mode & 1 > 0 ==> glass_pairs(self.elements@).len() <= usize::MAX,
        ensures
            r@.len() == (if draw_mode & 1 > 0 {
                selected_ghosts(self.elements@, which_ghost as int).len()
            } else {
                0
            }) + (if draw_mode & 2 > 0 {
                1int
            } else {
                0
            }),
            forall|a: int|
                0 <= a < r@.len() ==> (#[trigger] r@[a])@ == (if draw_mode & 1 > 0 && a
                    < selected_ghosts(self.elements@, which_ghost as int).len() {
                    as_u32_pair(selected_ghosts(self.elements@, which_ghost as int)[a])
                } else {
                    seq![0u32, 0u32]
                }),
    {
        let ghost kinds = self.elements@;
        let ghost n = kinds.len() as int;
        let ghost sel = selected_ghosts(kinds, which_ghost as int);
        let mut rays: Vec<[u32; 2]> = Vec::new();
        if draw_mode & 1 > 0 {
            let mut ghost_num: usize = 0;
            let mut i: usize = 0;
            while i < self.elements.len() - 1
                invariant
                    kinds == self.elements@,
                    draw_mode & 1 > 0,
                    n == kinds.len(),
                    n >= 1,
                    i <= n - 1,
                    glass_pairs(kinds).len() <= usize::MAX,
                    sel == selected_ghosts(kinds, which_ghost as int),
                    ghost_num == pairs_upto(kinds, i as int).len(),
                    rays@.len() == selected_prefix(kinds, which_ghost as int, ghost_num as int).len(),
                    forall|a: int|
                        0 <= a < rays@.len() ==> (#[trigger] rays@[a])@ == as_u32_pair(
                            selected_prefix(kinds, which_ghost as int, ghost_num as int)[a],
                        ),
                decreases n - 1 - i,
            {
                let mut j: usize = i + 1;
                let ghost before = pairs_upto(kinds, i as int);
                while j < self.elements.len()
                    invariant
                        kinds == self.elements@,
                        draw_mode & 1 > 0,
                        n == kinds.len(),
                        i < n - 1,
                        i + 1 <= j <= n,
                        glass_pairs(kinds).len() <= usize::MAX,
                        sel == selected_ghosts(kinds, which_ghost as int),
                        before == pairs_upto(kinds, i as int),
                        ghost_num == before.len() + pair_row(kinds, i as int, j as int).len(),
                        rays@.len() == selected_prefix(
                            kinds,
                            which_ghost as int,
                            ghost_num as int,
                        ).len(),
                        forall|a: int|
                            0 <= a < rays@.len() ==> (#[trigger] rays@[a])@ == as_u32_pair(
                                selected_prefix(kinds, which_ghost as int, ghost_num as int)[a],
                            ),
                    decreases n - j,
                {
                    let ghost row = pair_row(kinds, i as int, j as int);
                    if self.elements[i] == ElementKind::Glass && self.elements[j]
                        == ElementKind::Glass {
                        assert(pair_row(kinds, i as int, j + 1) == row.push((i as int, j as int)));
                        proof {
                            lemma_pairs_prefix(kinds, i as int, j as int);
                        }
                        let ghost pos: int = (before.len() + row.len()) as int;
                        assert(glass_pairs(kinds)[pos] == (i as int, j as int));
                        ghost_num = ghost_num + 1;
                        proof {
                            lemma_selected_prefix_step(kinds, which_ghost as int, pos);
                        }
                        if ghost_num == which_ghost || which_ghost == 0 {
                            let pair = [i as u32, j as u32];
                            assert(pair@ =~= seq![i as u32, j as u32]);
                            rays.push(pair);
                        }
                    }
                    j = j + 1;
                }
                proof {
                    lemma_pairs_prefix_full(kinds, i as int);
                }
                i = i + 1;
            }
            proof {
                assert(glass_pairs(kinds) == pairs_upto(kinds, i as int));
                lemma_selected_prefix_full(kinds, which_ghost as int);
            }
        }
        let ghost first = rays@;
        if draw_mode & 2 > 0 {
            let pair = [0u32, 0u32];
            assert(pair@ =~= seq![0u32, 0u32]);
            rays.push(pair);
        }
        rays
    }
}

/// The selected ghosts among the first `count` ghosts.
pub open spec fn selected_prefix(kinds: Seq<ElementKind>, which_ghost: int, count: int) -> Seq<
    (int, int),
> {
    let pairs = glass_pairs(kinds);
    if which_ghost == 0 {
        pairs.take(count)
    } else if 1 <= which_ghost <= count {
        seq![pairs[which_ghost - 1]]
    } else {
        Seq::empty()
    }
}

proof fn lemma_selected_prefix_step(kinds: Seq<ElementKind>, which_ghost: int, pos: int)
    requires
        0 <= pos < glass_pairs(kinds).len(),
        which_ghost >= 0,
    ensures
        selected_prefix(kinds, which_ghost, pos + 1) == (if pos + 1 == which_ghost
            || which_ghost == 0 {
            selected_prefix(kinds, which_ghost, pos).push(glass_pairs(kinds)[pos])
        } else {
            selected_prefix(kinds, which_ghost, pos)
        }),
{
    let pairs = glass_pairs(kinds);
    if which_ghost == 0 {
        assert(pairs.take(pos + 1) =~= pairs.take(pos).push(pairs[pos]));
    } else if pos + 1 == which_ghost {
        assert(seq![pairs[which_ghost - 1]] =~= Seq::<(int, int)>::empty().push(pairs[pos]));
    }
}

proof fn lemma_selected_prefix_full(kinds: Seq<ElementKind>, which_ghost: int)
    requires
        which_ghost >= 0,
    ensures
        selected_prefix(kinds, which_ghost, glass_pairs(kinds).len() as int) == selected_ghosts(
            kinds,
            which_ghost,
        ),
{
    let pairs = glass_pairs(kinds);
    assert(pairs.take(pairs.len() as int) =~= pairs);
}

proof fn lemma_pairs_upto_prefix(kinds: Seq<ElementKind>, a: int, b: int)
    requires
        0 <= a <= b,
    ensures
        pairs_upto(kinds, b).take(pairs_upto(kinds, a).len() as int) == pairs_upto(kinds, a),
        pairs_upto(kinds, a).len() <= pairs_upto(kinds, b).len(),
    decreases b - a,
{
    if a < b {
        lemma_pairs_upto_prefix(kinds, a, b - 1);
        assert(pairs_upto(kinds, b).take(pairs_upto(kinds, a).len() as int) =~= pairs_upto(
            kinds,
            b - 1,
        ).take(pairs_upto(kinds, a).len() as int));
    } else {
        assert(pairs_upto(kinds, b).take(pairs_upto(kinds, a).len() as int) =~= pairs_upto(
            kinds,
            a,
        ));
    }
}

proof fn lemma_pair_row_prefix(kinds: Seq<ElementKind>, i: int, a: int, b: int)
    requires
        a <= b,
    ensures
        pair_row(kinds, i, b).take(pair_row(kinds, i, a).len() as int) == pair_row(kinds, i, a),
        pair_row(kinds, i, a).len() <= pair_row(kinds, i, b).len(),
    decreases b - a,
{
    if a < b {
        lemma_pair_row_prefix(kinds, i, a, b - 1);
        assert(pair_row(kinds, i, b).take(pair_row(kinds, i, a).len() as int) =~= pair_row(
            kinds,
            i,
            b - 1,
        ).take(pair_row(kinds, i, a).len() as int));
    } else {
        assert(pair_row(kinds, i, b).take(pair_row(kinds, i, a).len() as int) =~= pair_row(
            kinds,
            i,
            a,
        ));
    }
}

/// When elements `i` and `j` are both glass, their pair is ghost number
/// `pairs_upto(kinds, i).len() + pair_row(kinds, i, j).len() + 1`.
proof fn lemma_pairs_prefix(kinds: Seq<ElementKind>, i: int, j: int)
    requires
        0 <= i < kinds.len() - 1,
        i + 1 <= j < kinds.len(),
        is_glass(kinds, i),
        is_glass(kinds, j),
    ensures
        pairs_upto(kinds, i).len() + pair_row(kinds, i, j).len() < glass_pairs(kinds).len(),
        glass_pairs(kinds)[pairs_upto(kinds, i).len() + pair_row(kinds, i, j).len() as int] == (i, j),
{
    let before = pairs_upto(kinds, i);
    let row = pair_row(kinds, i, j);
    let row1 = pair_row(kinds, i, j + 1);
    assert(row1 == row.push((i, j)));
    lemma_pair_row_prefix(kinds, i, j + 1, kinds.len() as int);
    let full_row = pair_row(kinds, i, kinds.len() as int);
    assert(pairs_upto(kinds, i + 1) == before + full_row);
    lemma_pairs_upto_prefix(kinds, i + 1, kinds.len() - 1);
    let all = glass_pairs(kinds);
    let pos: int = (before.len() + row.len()) as int;
    assert(full_row[row.len() as int] == row1[row.len() as int]);
    assert(all.take(pairs_upto(kinds, i + 1).len() as int) == pairs_upto(kinds, i + 1));
    assert(all[pos] == pairs_upto(kinds, i + 1)[pos]);
}

proof fn lemma_pairs_prefix_full(kinds: Seq<ElementKind>, i: int)
    requires
        0 <= i,
    ensures
        pairs_upto(kinds, i + 1) == pairs_upto(kinds, i) + pair_row(kinds, i, kinds.len() as int),
{
}

/// A pair of glass elements, the first before the second.
pub open spec fn is_ghost_pair(kinds: Seq<ElementKind>, p: (int, int)) -> bool {
    &&& 0 <= p.0 < p.1 < kinds.len()
    &&& is_glass(kinds, p.0)
    &&& is_glass(kinds, p.1)
}

proof fn lemma_pair_row_valid(kinds: Seq<ElementKind>, i: int, m: int)
    requires
        0 <= i,
        m <= kinds.len(),
    ensures
        forall|k: int|
            0 <= k < pair_row(kinds, i, m).len() ==> is_ghost_pair(
                kinds,
                #[trigger] pair_row(kinds, i, m)[k],
            ),
    decreases m - i,
{
    if m > i + 1 {
        lemma_pair_row_valid(kinds, i, m - 1);
        let r = pair_row(kinds, i, m - 1);
        let c = pair_row(kinds, i, m);
        assert forall|k: int| 0 <= k < c.len() implies is_ghost_pair(kinds, #[trigger] c[k]) by {
            if k < r.len() {
                assert(c[k] == r[k]);
            }
        }
    }
}

proof fn lemma_pairs_upto_valid(kinds: Seq<ElementKind>, n: int)
    ensures
        forall|k: int|
            0 <= k < pairs_upto(kinds, n).len() ==> is_ghost_pair(
                kinds,
                #[trigger] pairs_upto(kinds, n)[k],
            ),
    decreases n,
{
    if n > 0 {
        lemma_pairs_upto_valid(kinds, n - 1);
        lemma_pair_row_valid(kinds, n - 1, kinds.len() as int);
        let a = pairs_upto(kinds, n - 1);
        let b = pair_row(kinds, n - 1, kinds.len() as int);
        assert forall|k: int| 0 <= k < (a + b).len() implies is_ghost_pair(
            kinds,
            #[trigger] (a + b)[k],
        ) by {
            if k < a.len() {
                assert((a + b)[k] == a[k]);
            } else {
                assert((a + b)[k] == b[k - a.len()]);
            }
        }
    }
}

/// Every ghost that the ghost functions hand out is a pair of glass
/// elements, the first before the second, whatever the selection.
pub proof fn lemma_selected_ghosts_are_glass_pairs(kinds: Seq<ElementKind>, which_ghost: int)
    requires
        which_ghost >= 0,
    ensures
        forall|k: int|
            0 <= k < selected_ghosts(kinds, which_ghost).len() ==> is_ghost_pair(
                kinds,
                #[trigger] selected_ghosts(kinds, which_ghost)[k],
            ),
{
    lemma_pairs_upto_valid(kinds, kinds.len() - 1);
    let pairs = glass_pairs(kinds);
    let sel = selected_ghosts(kinds, which_ghost);
    assert forall|k: int| 0 <= k < sel.len() implies is_ghost_pair(kinds, #[trigger] sel[k]) by {
        if which_ghost != 0 {
            assert(sel[k] == pairs[which_ghost - 1]);
        }
    }
}

/// Strict lexicographic order of element index pairs.
pub open spec fn index_pair_lt(a: (int, int), b: (int, int)) -> bool {
    a.0 < b.0 || (a.0 == b.0 && a.1 < b.1)
}

proof fn lemma_pair_row_order(kinds: Seq<ElementKind>, i: int, m: int)
    ensures
        forall|k: int|
            0 <= k < pair_row(kinds, i, m).len() ==> (#[trigger] pair_row(kinds, i, m)[k]).0 == i
                && pair_row(kinds, i, m)[k].1 < m,
        forall|a: int, b: int|
            0 <= a < b < pair_row(kinds, i, m).len() ==> #[trigger] pair_row(kinds, i, m)[a].1
                < #[trigger] pair_row(kinds, i, m)[b].1,
    decreases m - i,
{
    if m > i + 1 {
        lemma_pair_row_order(kinds, i, m - 1);
        let r = pair_row(kinds, i, m - 1);
        let c = pair_row(kinds, i, m);
        assert forall|k: int| 0 <= k < c.len() implies (#[trigger] c[k]).0 == i && c[k].1 < m by {
            if k < r.len() {
                assert(c[k] == r[k]);
            }
        }
        assert forall|a: int, b: int| 0 <= a < b < c.len() implies #[trigger] c[a].1
            < #[trigger] c[b].1 by {
            assert(c[a] == r[a]);
            if b < r.len() {
                assert(c[b] == r[b]);
            }
        }
    }
}

proof fn lemma_pairs_upto_order(kinds: Seq<ElementKind>, n: int)
    ensures
        forall|k: int|
            0 <= k < pairs_upto(kinds, n).len() ==> (#[trigger] pairs_upto(kinds, n)[k]).0 < n,
        forall|a: int, b: int|
            0 <= a < b < pairs_upto(kinds, n).len() ==> index_pair_lt(
                #[trigger] pairs_upto(kinds, n)[a],
                #[trigger] pairs_upto(kinds, n)[b],
            ),
    decreases n,
{
    if n > 0 {
        lemma_pairs_upto_order(kinds, n - 1);
        lemma_pair_row_order(kinds, n - 1, kinds.len() as int);
        let p = pairs_upto(kinds, n - 1);
        let r = pair_row(kinds, n - 1, kinds.len() as int);
        let c = pairs_upto(kinds, n);
        assert(c == p + r);
        assert forall|k: int| 0 <= k < c.len() implies (#[trigger] c[k]).0 < n by {
            if k < p.len() {
                assert(c[k] == p[k]);
            } else {
                assert(c[k] == r[k - p.len()]);
            }
        }
        assert forall|a: int, b: int| 0 <= a < b < c.len() implies index_pair_lt(
            #[trigger] c[a],
            #[trigger] c[b],
        ) by {
            if b < p.len() {
                assert(c[a] == p[a] && c[b] == p[b]);
            } else if a < p.len() {
                assert(c[a] == p[a]);
                assert(c[b] == r[b - p.len()]);
            } else {
                assert(c[a] == r[a - p.len()]);
                assert(c[b] == r[b - p.len()]);
            }
        }
    }
}

/// The ghosts are exactly the pairs `(i, j)` of glass elements with
/// `i < j`, each once, in lexicographic order.
pub proof fn lemma_glass_pairs_complete(kinds: Seq<ElementKind>)
    ensures
        forall|i: int, j: int|
            is_ghost_pair(kinds, (i, j)) ==> #[trigger] glass_pairs(kinds).contains((i, j)),
        forall|k: int|
            0 <= k < glass_pairs(kinds).len() ==> is_ghost_pair(kinds, #[trigger] glass_pairs(kinds)[k]),
        forall|a: int, b: int|
            0 <= a < b < glass_pairs(kinds).len() ==> index_pair_lt(
                #[trigger] glass_pairs(kinds)[a],
                #[trigger] glass_pairs(kinds)[b],
            ),
{
    lemma_pairs_upto_order(kinds, kinds.len() - 1);
    lemma_selected_ghosts_are_glass_pairs(kinds, 0);
    assert forall|i: int, j: int| is_ghost_pair(kinds, (i, j)) implies #[trigger] glass_pairs(
        kinds,
    ).contains((i, j)) by {
        lemma_pairs_prefix(kinds, i, j);
        let pos = pairs_upto(kinds, i).len() + pair_row(kinds, i, j).len();
        assert(glass_pairs(kinds)[pos as int] == (i, j));
    }
    assert forall|k: int| 0 <= k < glass_pairs(kinds).len() implies is_ghost_pair(
        kinds,
        #[trigger] glass_pairs(kinds)[k],
    ) by {
        assert(selected_ghosts(kinds, 0)[k] == glass_pairs(kinds)[k]);
    }
}

} // verus!
