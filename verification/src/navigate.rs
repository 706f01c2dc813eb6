//! Spatial navigation over the word grid: stepping the selection
//! horizontally through the reading order with relevance filtering, and
//! jumping vertically to the nearest word rectangle above or below.

use vstd::prelude::*;

use crate::srs::CardStateCache;
use crate::word::Word;

verus! {

/// A word's rectangle on screen, in integer pixels.
#[derive(Debug, Clone, Copy, PartialEq, Eq, Structural)]
pub struct Rect {
    pub left: i32,
    pub top: i32,
    pub right: i32,
    pub bottom: i32,
}

/// Squared Euclidean distance between two rectangles' centers (scaled by
/// two, which preserves all comparisons).
pub open spec fn dist2(a: Rect, b: Rect) -> int {
    let dx = (a.left + a.right) - (b.left + b.right);
    let dy = (a.top + a.bottom) - (b.top + b.bottom);
    dx * dx + dy * dy
}

/// Every paragraph of the grid holds at least one word, as the aligner
/// guarantees.
pub open spec fn grid_wf(g: Seq<Vec<Word>>) -> bool {
    forall|p: int| 0 <= p < g.len() ==> (#[trigger] g[p])@.len() > 0
}

/// Whether a selection points into the grid.
pub open spec fn sel_in_bounds(g: Seq<Vec<Word>>, q: (usize, usize)) -> bool {
    q.0 < g.len() && q.1 < g[q.0 as int]@.len()
}

/// Whether `a` comes before `b` in reading order (row-major).
pub open spec fn pos_before(a: (usize, usize), b: (usize, usize)) -> bool {
    a.0 < b.0 || (a.0 == b.0 && a.1 < b.1)
}

/// Whether `a` comes before `b` in the direction of travel.
pub open spec fn dir_before(a: (usize, usize), b: (usize, usize), forward: bool) -> bool {
    if forward {
        pos_before(a, b)
    } else {
        pos_before(b, a)
    }
}

/// A word is a valid stop for the cursor when it has a definition and — with
/// skip-irrelevant active — its resolved card state is relevant.
pub open spec fn word_valid(
    g: Seq<Vec<Word>>,
    cache: CardStateCache,
    skip: bool,
    q: (usize, usize),
) -> bool {
    &&& g[q.0 as int]@[q.1 as int]@.definition is Some
    &&& (skip ==> cache.resolved_state(g[q.0 as int]@[q.1 as int]@).is_relevant)
}

/// What a horizontal move returns: the nearest valid word strictly beyond
/// the selection in the direction of travel, or the selection unchanged when
/// no valid word lies that way.
pub open spec fn horizontal_move_spec(
    g: Seq<Vec<Word>>,
    cache: CardStateCache,
    skip: bool,
    sel: (usize, usize),
    forward: bool,
    r: (usize, usize),
) -> bool {
    &&& sel_in_bounds(g, r)
    &&& (r == sel || (dir_before(sel, r, forward) && word_valid(g, cache, skip, r)))
    &&& (r == sel ==> forall|q: (usize, usize)|
        sel_in_bounds(g, q) && dir_before(sel, q, forward) ==> !(#[trigger] word_valid(g, cache, skip, q)))
    &&& (r != sel ==> forall|q: (usize, usize)|
        sel_in_bounds(g, q) && dir_before(sel, q, forward) && dir_before(q, r, forward)
            ==> !(#[trigger] word_valid(g, cache, skip, q)))
}

/// Whether the word at `q` is a valid stop for the cursor.
fn is_valid_stop(
    words: &Vec<Vec<Word>>,
    cache: &CardStateCache,
    skip_irrelevant: bool,
    q: (usize, usize),
) -> (r: bool)
    requires
        cache.wf(),
        sel_in_bounds(words@, q),
    ensures
        r == word_valid(words@, *cache, skip_irrelevant, q),
{
    let word = &words[q.0][q.1];
    if word.definition.is_none() {
        return false;
    }
    if skip_irrelevant {
        cache.card_state(word).is_relevant
    } else {
        true
    }
}

/// Step the selection to the next valid word in reading order; on paragraph
/// overflow continue at the next paragraph's first word; leave the selection
/// unchanged when nothing valid follows.
fn move_forward(
    words: &Vec<Vec<Word>>,
    cache: &CardStateCache,
    sel: (usize, usize),
    skip_irrelevant: bool,
) -> (r: (usize, usize))
    requires
        cache.wf(),
        grid_wf(words@),
        sel_in_bounds(words@, sel),
    ensures
        horizontal_move_spec(words@, *cache, skip_irrelevant, sel, true, r),
{
    let ghost g = words@;
    let mut p = sel.0;
    let mut w = sel.1;
    loop
        invariant
            g == words@,
            cache.wf(),
            grid_wf(g),
            sel_in_bounds(g, sel),
            sel_in_bounds(g, (p, w)),
            (p, w) == sel || pos_before(sel, (p, w)),
            forall|q: (usize, usize)|
                sel_in_bounds(g, q) && pos_before(sel, q) && (pos_before(q, (p, w)) || q == (p, w))
                    ==> !(#[trigger] word_valid(g, *cache, skip_irrelevant, q)),
        decreases g.len() - p, g[p as int]@.len() - w,
    {
        let ghost prev = (p, w);
        proof {
            assert(w < g[p as int]@.len());
        }
        if w < words[p].len() - 1 {
            w = w + 1;
        } else if p < words.len() - 1 {
            p = p + 1;
            w = 0;
        } else {
            proof {
                assert forall|q: (usize, usize)|
                    sel_in_bounds(g, q) && pos_before(sel, q) implies !(#[trigger] word_valid(g, *cache, skip_irrelevant, q)) by {
                    assert(q.0 <= p);
                    assert(q.0 == p ==> q.1 <= w);
                    assert(pos_before(q, prev) || q == prev);
                }
            }
            return sel;
        }
        proof {
            assert(pos_before(prev, (p, w)));
            assert forall|q: (usize, usize)|
                sel_in_bounds(g, q) && pos_before(sel, q) && pos_before(q, (p, w)) implies (
            pos_before(q, prev) || q == prev) by {}
        }
        if is_valid_stop(words, cache, skip_irrelevant, (p, w)) {
            proof {
                assert((p, w) != sel);
            }
            return (p, w);
        }
    }
}

/// Step the selection to the previous valid word in reading order; on
/// paragraph underflow continue at the previous paragraph's last word; leave
/// the selection unchanged when nothing valid precedes.
fn move_backward(
    words: &Vec<Vec<Word>>,
    cache: &CardStateCache,
    sel: (usize, usize),
    skip_irrelevant: bool,
) -> (r: (usize, usize))
    requires
        cache.wf(),
        grid_wf(words@),
        sel_in_bounds(words@, sel),
    ensures
        horizontal_move_spec(words@, *cache, skip_irrelevant, sel, false, r),
{
    let ghost g = words@;
    let mut p = sel.0;
    let mut w = sel.1;
    loop
        invariant
            g == words@,
            cache.wf(),
            grid_wf(g),
            sel_in_bounds(g, sel),
            sel_in_bounds(g, (p, w)),
            (p, w) == sel || pos_before((p, w), sel),
            forall|q: (usize, usize)|
                sel_in_bounds(g, q) && pos_before(q, sel) && (pos_before((p, w), q) || q == (p, w))
                    ==> !(#[trigger] word_valid(g, *cache, skip_irrelevant, q)),
        decreases p, w,
    {
        let ghost prev = (p, w);
        if w > 0 {
            w = w - 1;
        } else if p > 0 {
            p = p - 1;
            w = words[p].len() - 1;
        } else {
            proof {
                assert forall|q: (usize, usize)|
                    sel_in_bounds(g, q) && pos_before(q, sel) implies !(#[trigger] word_valid(g, *cache, skip_irrelevant, q)) by {
                    assert(pos_before(prev, q) || q == prev);
                }
            }
            return sel;
        }
        proof {
            assert(pos_before((p, w), prev));
            assert forall|q: (usize, usize)|
                sel_in_bounds(g, q) && pos_before(q, sel) && pos_before((p, w), q) implies (
            pos_before(prev, q) || q == prev) by {
                if q.0 == p {
                    assert(q.1 < g[p as int]@.len());
                }
            }
        }
        if is_valid_stop(words, cache, skip_irrelevant, (p, w)) {
            proof {
                assert((p, w) != sel);
            }
            return (p, w);
        }
    }
}

/// Horizontal move: step the word index by `delta` (+1 or -1), crossing into
/// the next or previous paragraph on overflow, until a valid word is found;
/// at the document's ends the selection stays where it was — there is no
/// wraparound.
pub fn move_horizontal(
    words: &Vec<Vec<Word>>,
    cache: &CardStateCache,
    sel: (usize, usize),
    delta: i32,
    skip_irrelevant: bool,
) -> (r: (usize, usize))
    requires
        cache.wf(),
        grid_wf(words@),
        sel_in_bounds(words@, sel),
        delta == 1 || delta == -1,
    ensures
        horizontal_move_spec(words@, *cache, skip_irrelevant, sel, delta == 1, r),
{
    if delta == 1 {
        move_forward(words, cache, sel, skip_irrelevant)
    } else {
        move_backward(words, cache, sel, skip_irrelevant)
    }
}

/// Whether a rectangle entry is laid out for position `(p, w)`.
pub open spec fn rect_hit(e: (usize, usize, Rect), p: usize, w: usize) -> bool {
    e.0 == p && e.1 == w
}

/// First index among the layout entries for position `(p, w)`, if any.
pub open spec fn rect_match(rs: Seq<(usize, usize, Rect)>, p: usize, w: usize) -> Option<int>
    decreases rs.len(),
{
    if rs.len() == 0 {
        None
    } else if rect_hit(rs[0], p, w) {
        Some(0)
    } else {
        match rect_match(rs.drop_first(), p, w) {
            Some(j) => Some(j + 1),
            None => None,
        }
    }
}

/// The rectangle laid out for position `(p, w)`, if any.
pub open spec fn rect_lookup(rs: Seq<(usize, usize, Rect)>, p: usize, w: usize) -> Option<Rect> {
    match rect_match(rs, p, w) {
        Some(j) => Some(rs[j].2),
        None => None,
    }
}

/// `rect_match` returns the index of a hit that nothing precedes.
proof fn lemma_rect_match_at(rs: Seq<(usize, usize, Rect)>, p: usize, w: usize, j: int)
    requires
        0 <= j < rs.len(),
        rect_hit(rs[j], p, w),
        forall|l: int| 0 <= l < j ==> !rect_hit(#[trigger] rs[l], p, w),
    ensures
        rect_match(rs, p, w) == Some(j),
    decreases j,
{
    if j > 0 {
        assert(forall|l: int| 1 <= l < rs.len() ==> #[trigger] rs[l] == rs.drop_first()[l - 1]);
        lemma_rect_match_at(rs.drop_first(), p, w, j - 1);
    }
}

/// With no hit anywhere, `rect_match` returns `None`.
proof fn lemma_rect_match_none(rs: Seq<(usize, usize, Rect)>, p: usize, w: usize)
    requires
        forall|l: int| 0 <= l < rs.len() ==> !rect_hit(#[trigger] rs[l], p, w),
    ensures
        rect_match(rs, p, w) is None,
    decreases rs.len(),
{
    if rs.len() > 0 {
        assert(forall|l: int| 1 <= l < rs.len() ==> #[trigger] rs[l] == rs.drop_first()[l - 1]);
        lemma_rect_match_none(rs.drop_first(), p, w);
    }
}

/// A layout entry is a candidate for a vertical move when its position lies
/// in the grid, its word has a definition, and its rectangle's bottom edge
/// is strictly above (moving up) or strictly below (moving down) the current
/// rectangle's bottom edge.
pub open spec fn v_candidate(
    g: Seq<Vec<Word>>,
    rs: Seq<(usize, usize, Rect)>,
    cur: Rect,
    up: bool,
    k: int,
) -> bool {
    &&& 0 <= k < rs.len()
    &&& sel_in_bounds(g, (rs[k].0, rs[k].1))
    &&& g[rs[k].0 as int]@[rs[k].1 as int]@.definition is Some
    &&& if up {
        rs[k].2.bottom < cur.bottom
    } else {
        rs[k].2.bottom > cur.bottom
    }
}

/// What a vertical move returns: among the candidates, the position of the
/// one whose rectangle's center is closest (in Euclidean distance) to the
/// current rectangle's center — ties going to the earliest entry in the
/// layout's order — or the selection unchanged when no candidate exists.
pub open spec fn vertical_move_spec(
    g: Seq<Vec<Word>>,
    rs: Seq<(usize, usize, Rect)>,
    cur: Rect,
    up: bool,
    sel: (usize, usize),
    r: (usize, usize),
) -> bool {
    if exists|k: int| v_candidate(g, rs, cur, up, k) {
        exists|k: int|
            {
                &&& #[trigger] v_candidate(g, rs, cur, up, k)
                &&& r == (rs[k].0, rs[k].1)
                &&& forall|j: int|
                    #[trigger] v_candidate(g, rs, cur, up, j) ==> dist2(rs[k].2, cur) <= dist2(
                        rs[j].2,
                        cur,
                    )
                &&& forall|j: int|
                    #[trigger] v_candidate(g, rs, cur, up, j) && dist2(rs[j].2, cur) == dist2(
                        rs[k].2,
                        cur,
                    ) ==> k <= j
            }
    } else {
        r == sel
    }
}

/// Squared center distance, scaled by two in each axis.
fn dist2_exec(a: &Rect, b: &Rect) -> (d: i128)
    ensures
        d == dist2(*a, *b),
{
    let dx: i64 = (a.left as i64 + a.right as i64) - (b.left as i64 + b.right as i64);
    let dy: i64 = (a.top as i64 + a.bottom as i64) - (b.top as i64 + b.bottom as i64);
    proof {
        assert(-0x2_0000_0000i64 <= dx <= 0x2_0000_0000i64);
        assert(-0x2_0000_0000i64 <= dy <= 0x2_0000_0000i64);
        assert(0 <= (dx as int) * (dx as int) <= 0x4_0000_0000_0000_0000) by (nonlinear_arith)
            requires
                -0x2_0000_0000 <= dx <= 0x2_0000_0000,
        ;
        assert(0 <= (dy as int) * (dy as int) <= 0x4_0000_0000_0000_0000) by (nonlinear_arith)
            requires
                -0x2_0000_0000 <= dy <= 0x2_0000_0000,
        ;
    }
    (dx as i128) * (dx as i128) + (dy as i128) * (dy as i128)
}

/// The rectangle laid out for the given position; `None` when the layout
/// holds no entry for it.
pub fn find_rect(rects: &Vec<(usize, usize, Rect)>, p: usize, w: usize) -> (r: Option<Rect>)
    ensures
        r == rect_lookup(rects@, p, w),
{
    let ghost rs = rects@;
    let mut j: usize = 0;
    while j < rects.len()
        invariant
            j <= rs.len(),
            rs == rects@,
            forall|l: int| 0 <= l < j ==> !rect_hit(#[trigger] rs[l], p, w),
        decreases rs.len() - j,
    {
        let e = rects[j];
        if e.0 == p && e.1 == w {
            proof {
                lemma_rect_match_at(rs, p, w, j as int);
            }
            return Some(e.2);
        }
        j += 1;
    }
    proof {
        lemma_rect_match_none(rs, p, w);
    }
    None
}

/// Vertical move: among the words with a definition whose rectangle's
/// bottom edge lies strictly above (direction -1) or below (direction +1)
/// the current selection's, select the one whose center is nearest the
/// current center; the selection stays where it was when no such word
/// exists.
pub fn move_vertical(
    words: &Vec<Vec<Word>>,
    rects: &Vec<(usize, usize, Rect)>,
    sel: (usize, usize),
    direction: i32,
) -> (r: (usize, usize))
    requires
        direction == 1 || direction == -1,
        rect_lookup(rects@, sel.0, sel.1) is Some,
    ensures
        vertical_move_spec(
            words@,
            rects@,
            rect_lookup(rects@, sel.0, sel.1)->0,
            direction == -1,
            sel,
            r,
        ),
{
    let ghost g = words@;
    let ghost rs = rects@;
    let up = direction == -1;
    let cur = match find_rect(rects, sel.0, sel.1) {
        Some(c) => c,
        None => {
            proof {
                assert(false);
            }
            return sel;
        },
    };

    let mut best: Option<(usize, usize)> = None;
    let mut best_d: i128 = 0;
    let ghost mut best_k: int = 0;

    let mut k: usize = 0;
    while k < rects.len()
        invariant
            k <= rs.len(),
            g == words@,
            rs == rects@,
            cur == rect_lookup(rects@, sel.0, sel.1)->0,
            match best {
                None => forall|j: int| 0 <= j < k ==> !(#[trigger] v_candidate(g, rs, cur, up, j)),
                Some(b) => {
                    &&& v_candidate(g, rs, cur, up, best_k)
                    &&& best_k < k
                    &&& b == (rs[best_k].0, rs[best_k].1)
                    &&& best_d == dist2(rs[best_k].2, cur)
                    &&& forall|j: int|
                        0 <= j < k && #[trigger] v_candidate(g, rs, cur, up, j) ==> best_d <= dist2(
                            rs[j].2,
                            cur,
                        )
                    &&& forall|j: int|
                        0 <= j < k && #[trigger] v_candidate(g, rs, cur, up, j) && dist2(
                            rs[j].2,
                            cur,
                        ) == best_d ==> best_k <= j
                },
            },
        decreases rs.len() - k,
    {
        let e = rects[k];
        let in_grid = e.0 < words.len() && e.1 < words[e.0].len();
        let is_candidate = in_grid && words[e.0][e.1].definition.is_some() && (if up {
            e.2.bottom < cur.bottom
        } else {
            e.2.bottom > cur.bottom
        });
        proof {
            assert(is_candidate == v_candidate(g, rs, cur, up, k as int));
        }
        if is_candidate {
            let d = dist2_exec(&e.2, &cur);
            match best {
                None => {
                    best = Some((e.0, e.1));
                    best_d = d;
                    proof {
                        best_k = k as int;
                    }
                },
                Some(_) => {
                    if d < best_d {
                        best = Some((e.0, e.1));
                        best_d = d;
                        proof {
                            best_k = k as int;
                        }
                    }
                },
            }
        }
        k += 1;
    }

    match best {
        None => {
            proof {
                if exists|j: int| v_candidate(g, rs, cur, up, j) {
                    let j = choose|j: int| v_candidate(g, rs, cur, up, j);
                    assert(!v_candidate(g, rs, cur, up, j));
                }
            }
            sel
        },
        Some(b) => b,
    }
}
/// Horizontal navigation boundedness: whatever a horizontal move returns is
/// itself a valid selection, so repeated moves never leave the grid; and
/// when no valid word lies in the direction of travel — in particular at the
/// last valid word, moving forward — the selection does not move.
pub proof fn lemma_horizontal_boundedness(
    g: Seq<Vec<Word>>,
    cache: CardStateCache,
    skip: bool,
    sel: (usize, usize),
    forward: bool,
    r: (usize, usize),
)
    requires
        horizontal_move_spec(g, cache, skip, sel, forward, r),
    ensures
        sel_in_bounds(g, r),
        (forall|q: (usize, usize)|
            sel_in_bounds(g, q) && dir_before(sel, q, forward) ==> !(#[trigger] word_valid(g, cache, skip, q))) ==> r == sel,
{
    if forall|q: (usize, usize)|
        sel_in_bounds(g, q) && dir_before(sel, q, forward) ==> !(#[trigger] word_valid(g, cache, skip, q)) {
        if r != sel {
            assert(word_valid(g, cache, skip, r));
            assert(false);
        }
    }
}

/// Relevance filter correctness: with skip-irrelevant active, a horizontal
/// move never lands on a word whose resolved card state is irrelevant or
/// missing — whenever any valid word lies in the direction of travel, the
/// move leaves the selection and stops on a word with a definition whose
/// state is relevant.
pub proof fn lemma_relevance_filter(
    g: Seq<Vec<Word>>,
    cache: CardStateCache,
    sel: (usize, usize),
    forward: bool,
    r: (usize, usize),
    witness: (usize, usize),
)
    requires
        horizontal_move_spec(g, cache, true, sel, forward, r),
        sel_in_bounds(g, witness),
        dir_before(sel, witness, forward),
        word_valid(g, cache, true, witness),
    ensures
        r != sel,
        g[r.0 as int]@[r.1 as int]@.definition is Some,
        cache.resolved_state(g[r.0 as int]@[r.1 as int]@).is_relevant,
{
    if r == sel {
        assert(!word_valid(g, cache, true, witness));
        assert(false);
    }
}

/// A directional navigation input.
#[derive(Debug, Clone, Copy, PartialEq, Eq, Structural)]
pub enum NavDirection {
    Left,
    Right,
    Up,
    Down,
}

/// Move the selection one navigation step: left and right step through the
/// reading order; up and down jump to the nearest rectangle in that
/// direction and, while skip-irrelevant is held, take one further
/// horizontal step in the same direction so the cursor does not rest on an
/// irrelevant word.
pub fn navigate(
    words: &Vec<Vec<Word>>,
    cache: &CardStateCache,
    rects: &Vec<(usize, usize, Rect)>,
    sel: (usize, usize),
    direction: NavDirection,
    skip_irrelevant: bool,
) -> (r: (usize, usize))
    requires
        cache.wf(),
        grid_wf(words@),
        sel_in_bounds(words@, sel),
        (direction matches NavDirection::Up || direction matches NavDirection::Down)
            ==> rect_lookup(rects@, sel.0, sel.1) is Some,
    ensures
        sel_in_bounds(words@, r),
        direction matches NavDirection::Left ==> horizontal_move_spec(
            words@,
            *cache,
            skip_irrelevant,
            sel,
            false,
            r,
        ),
        direction matches NavDirection::Right ==> horizontal_move_spec(
            words@,
            *cache,
            skip_irrelevant,
            sel,
            true,
            r,
        ),
        direction matches NavDirection::Up ==> exists|mid: (usize, usize)|
            #[trigger] vertical_move_spec(
                words@,
                rects@,
                rect_lookup(rects@, sel.0, sel.1)->0,
                true,
                sel,
                mid,
            ) && if skip_irrelevant {
                horizontal_move_spec(words@, *cache, true, mid, false, r)
            } else {
                r == mid
            },
        direction matches NavDirection::Down ==> exists|mid: (usize, usize)|
            #[trigger] vertical_move_spec(
                words@,
                rects@,
                rect_lookup(rects@, sel.0, sel.1)->0,
                false,
                sel,
                mid,
            ) && if skip_irrelevant {
                horizontal_move_spec(words@, *cache, true, mid, true, r)
            } else {
                r == mid
            },
{
    let ghost g = words@;
    let ghost rs = rects@;
    match direction {
        NavDirection::Left => move_horizontal(words, cache, sel, -1, skip_irrelevant),
        NavDirection::Right => move_horizontal(words, cache, sel, 1, skip_irrelevant),
        NavDirection::Up => {
            let mid = move_vertical(words, rects, sel, -1);
            proof {
                lemma_vertical_stays_in_bounds(g, rs, rect_lookup(rs, sel.0, sel.1)->0, true, sel, mid);
            }
            if skip_irrelevant {
                move_horizontal(words, cache, mid, -1, true)
            } else {
                mid
            }
        },
        NavDirection::Down => {
            let mid = move_vertical(words, rects, sel, 1);
            proof {
                lemma_vertical_stays_in_bounds(g, rs, rect_lookup(rs, sel.0, sel.1)->0, false, sel, mid);
            }
            if skip_irrelevant {
                move_horizontal(words, cache, mid, 1, true)
            } else {
                mid
            }
        },
    }
}

/// A vertical move lands in the grid whenever it started there: its target
/// is a candidate (whose position the candidate predicate bounds) or the
/// unchanged selection.
pub proof fn lemma_vertical_stays_in_bounds(
    g: Seq<Vec<Word>>,
    rs: Seq<(usize, usize, Rect)>,
    cur: Rect,
    up: bool,
    sel: (usize, usize),
    r: (usize, usize),
)
    requires
        sel_in_bounds(g, sel),
        vertical_move_spec(g, rs, cur, up, sel, r),
    ensures
        sel_in_bounds(g, r),
{
    if exists|k: int| v_candidate(g, rs, cur, up, k) {
        let k = choose|k: int|
            {
                &&& #[trigger] v_candidate(g, rs, cur, up, k)
                &&& r == (rs[k].0, rs[k].1)
                &&& forall|j: int|
                    #[trigger] v_candidate(g, rs, cur, up, j) ==> dist2(rs[k].2, cur) <= dist2(
                        rs[j].2,
                        cur,
                    )
                &&& forall|j: int|
                    #[trigger] v_candidate(g, rs, cur, up, j) && dist2(rs[j].2, cur) == dist2(
                        rs[k].2,
                        cur,
                    ) ==> k <= j
            };
        assert(sel_in_bounds(g, (rs[k].0, rs[k].1)));
    }
}

} // verus!
