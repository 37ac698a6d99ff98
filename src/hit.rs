//! Hit testing: resolving a point to the items under it, topmost first.
use vstd::prelude::*;
use std::sync::Arc;
use crate::clip::might_contain;
use crate::context::{StackingContext, apply_transform, inner};
use crate::paint::{z_order, z_sorted_children};
use crate::geometry::{Point2D, contains_point, min_x, min_y};
use crate::item::{BorderDisplayItem, DisplayItem, DisplayItemMetadata, base_of};

verus! {

/// The point lies strictly inside the hole of the border: its bounds shrunk by the border
/// widths on each side.
pub open spec fn in_border_interior(b: BorderDisplayItem, x: int, y: int) -> bool {
    let r = b.base.bounds;
    let w = b.border_widths;
    let ix = min_x(r) + w.left;
    let iy = min_y(r) + w.top;
    let iw = r.size.width - (w.left + w.right);
    let ih = r.size.height - (w.top + w.bottom);
    ix <= x < ix + iw && iy <= y < iy + ih
}

/// The item matches a point given in the coordinates of its stacking context.
pub open spec fn item_hit(item: DisplayItem, p: Point2D) -> bool {
    let b = base_of(item);
    &&& might_contain(b.clip, p.x as int, p.y as int)
    &&& contains_point(b.bounds, p.x as int, p.y as int)
    &&& b.metadata.pointing.is_some()
    &&& match item {
        DisplayItem::BorderClass(border) => !in_border_interior(*border, p.x as int, p.y as int),
        _ => true,
    }
}

/// The metadata of the matching items among `items[lo..hi)`, last item first.
pub open spec fn list_hits(items: Seq<DisplayItem>, lo: int, hi: int, p: Point2D) -> Seq<
    DisplayItemMetadata,
>
    decreases hi - lo,
{
    if hi <= lo {
        seq![]
    } else {
        list_hits(items, lo + 1, hi, p) + if item_hit(items[lo], p) {
            seq![base_of(items[lo]).metadata]
        } else {
            seq![]
        }
    }
}

/// The point in the local coordinates of a stacking context: moved by the negated origin of
/// its bounds, then mapped through its transform.
pub open spec fn local_point(sc: StackingContext, p: Point2D) -> Point2D {
    apply_transform(sc.transform, p.x - sc.bounds.origin.x, p.y - sc.bounds.origin.y)
}

/// The z-index puts the child among those painted after the content (`nonneg`) or before the
/// block backgrounds (`!nonneg`).
pub open spec fn z_matches(z: i32, nonneg: bool) -> bool {
    if nonneg {
        z >= 0
    } else {
        z < 0
    }
}

/// All matches in the stacking context for a point in its parent's coordinates, topmost first:
/// outlines, children with non-negative z-index, content, floats, block backgrounds, children
/// with negative z-index, root backgrounds; children in descending z-index order, ties last
/// listed first.
pub open spec fn hits(sc: StackingContext, p: Point2D) -> Seq<DisplayItemMetadata>
    decreases sc,
{
    let q = local_point(sc, p);
    let l = sc.display_list;
    let n = z_order(l.children@).len() as int;
    list_hits(l.outlines@, 0, l.outlines@.len() as int, q) + kid_hits(l.children@, z_order(l.children@), 0, n, q, true)
        + list_hits(l.content@, 0, l.content@.len() as int, q) + list_hits(
        l.floats@,
        0,
        l.floats@.len() as int,
        q,
    ) + list_hits(
        l.block_backgrounds_and_borders@,
        0,
        l.block_backgrounds_and_borders@.len() as int,
        q,
    ) + kid_hits(l.children@, z_order(l.children@), 0, n, q, false) + list_hits(
        l.background_and_borders@,
        0,
        l.background_and_borders@.len() as int,
        q,
    )
}

/// The child `k` exists and its z-index is on the given side of zero.
pub open spec fn in_side(kids: Seq<Arc<StackingContext>>, k: int, nonneg: bool) -> bool {
    0 <= k < kids.len() && z_matches(kids[k].z_index, nonneg)
}

/// The matches in the children `order[lo..hi)` whose z-index is on the given side of zero,
/// last of them first. With `order` the painting order of the children, this is topmost first.
pub open spec fn kid_hits(
    kids: Seq<Arc<StackingContext>>,
    order: Seq<usize>,
    lo: int,
    hi: int,
    p: Point2D,
    nonneg: bool,
) -> Seq<DisplayItemMetadata>
    decreases kids, hi - lo,
{
    if hi <= lo || lo < 0 || hi > order.len() {
        seq![]
    } else {
        kid_hits(kids, order, lo + 1, hi, p, nonneg) + if in_side(kids, order[lo] as int, nonneg) {
            hits(*kids[order[lo] as int], p)
        } else {
            seq![]
        }
    }
}

/// The first element alone, or nothing for an empty sequence.
pub open spec fn first_only<T>(s: Seq<T>) -> Seq<T> {
    if s.len() == 0 {
        s
    } else {
        seq![s[0]]
    }
}

/// What a hit test adds to its result: everything, or the topmost match alone.
pub open spec fn selected<T>(s: Seq<T>, topmost_only: bool) -> Seq<T> {
    if topmost_only {
        first_only(s)
    } else {
        s
    }
}

/// The matches of the first `k` of the seven groups that `hits` concatenates.
pub open spec fn hit_prefix(sc: StackingContext, q: Point2D, k: int) -> Seq<DisplayItemMetadata> {
    let l = sc.display_list;
    let n = z_order(l.children@).len() as int;
    let s0 = list_hits(l.outlines@, 0, l.outlines@.len() as int, q);
    let s1 = s0 + kid_hits(l.children@, z_order(l.children@), 0, n, q, true);
    let s2 = s1 + list_hits(l.content@, 0, l.content@.len() as int, q);
    let s3 = s2 + list_hits(l.floats@, 0, l.floats@.len() as int, q);
    let s4 = s3 + list_hits(
        l.block_backgrounds_and_borders@,
        0,
        l.block_backgrounds_and_borders@.len() as int,
        q,
    );
    let s5 = s4 + kid_hits(l.children@, z_order(l.children@), 0, n, q, false);
    let s6 = s5 + list_hits(
        l.background_and_borders@,
        0,
        l.background_and_borders@.len() as int,
        q,
    );
    if k <= 0 {
        seq![]
    } else if k == 1 {
        s0
    } else if k == 2 {
        s1
    } else if k == 3 {
        s2
    } else if k == 4 {
        s3
    } else if k == 5 {
        s4
    } else if k == 6 {
        s5
    } else {
        s6
    }
}

proof fn lemma_first_only_append<T>(s: Seq<T>, t: Seq<T>)
    ensures
        first_only(s + t) == (if s.len() > 0 {
            first_only(s)
        } else {
            first_only(t)
        }),
{
    if s.len() == 0 {
        assert(s + t =~= t);
    } else {
        assert((s + t)[0] == s[0]);
    }
}

proof fn lemma_list_hits_split(items: Seq<DisplayItem>, lo: int, mid: int, hi: int, p: Point2D)
    requires
        lo <= mid <= hi,
    ensures
        list_hits(items, lo, hi, p) == list_hits(items, mid, hi, p) + list_hits(items, lo, mid, p),
    decreases mid - lo,
{
    if lo < mid {
        lemma_list_hits_split(items, lo + 1, mid, hi, p);
        assert(list_hits(items, lo, hi, p) =~= list_hits(items, mid, hi, p) + list_hits(
            items,
            lo,
            mid,
            p,
        ));
    } else {
        assert(list_hits(items, mid, hi, p) + list_hits(items, lo, mid, p) =~= list_hits(
            items,
            lo,
            hi,
            p,
        ));
    }
}

proof fn lemma_kid_hits_split(
    kids: Seq<Arc<StackingContext>>,
    order: Seq<usize>,
    lo: int,
    mid: int,
    hi: int,
    p: Point2D,
    nonneg: bool,
)
    requires
        0 <= lo <= mid <= hi <= order.len(),
    ensures
        kid_hits(kids, order, lo, hi, p, nonneg) == kid_hits(kids, order, mid, hi, p, nonneg)
            + kid_hits(kids, order, lo, mid, p, nonneg),
    decreases mid - lo,
{
    if lo < mid {
        lemma_kid_hits_split(kids, order, lo + 1, mid, hi, p, nonneg);
        assert(kid_hits(kids, order, lo, hi, p, nonneg) =~= kid_hits(kids, order, mid, hi, p, nonneg)
            + kid_hits(kids, order, lo, mid, p, nonneg));
    } else {
        assert(kid_hits(kids, order, mid, hi, p, nonneg) + kid_hits(kids, order, lo, mid, p, nonneg)
            =~= kid_hits(kids, order, lo, hi, p, nonneg));
    }
}

/// Once the first `k` groups hold a match, the topmost match lies among them.
proof fn lemma_topmost_in_prefix(sc: StackingContext, q: Point2D, k: int)
    requires
        1 <= k <= 7,
        hit_prefix(sc, q, k).len() > 0,
    ensures
        first_only(hit_prefix(sc, q, 7)) == first_only(hit_prefix(sc, q, k)),
    decreases 7 - k,
{
    if k < 7 {
        let l = sc.display_list;
        let n = z_order(l.children@).len() as int;
        let next = if k == 1 {
            kid_hits(l.children@, z_order(l.children@), 0, n, q, true)
        } else if k == 2 {
            list_hits(l.content@, 0, l.content@.len() as int, q)
        } else if k == 3 {
            list_hits(l.floats@, 0, l.floats@.len() as int, q)
        } else if k == 4 {
            list_hits(
                l.block_backgrounds_and_borders@,
                0,
                l.block_backgrounds_and_borders@.len() as int,
                q,
            )
        } else if k == 5 {
            kid_hits(l.children@, z_order(l.children@), 0, n, q, false)
        } else {
            list_hits(l.background_and_borders@, 0, l.background_and_borders@.len() as int, q)
        };
        assert(hit_prefix(sc, q, k + 1) == hit_prefix(sc, q, k) + next);
        lemma_first_only_append(hit_prefix(sc, q, k), next);
        lemma_topmost_in_prefix(sc, q, k + 1);
    }
}

/// Whether the item matches the point.
fn item_matches(item: &DisplayItem, point: &Point2D) -> (r: bool)
    ensures
        r == item_hit(*item, *point),
{
    let base = item.base();
    if !base.clip.might_intersect_point(point) {
        return false;
    }
    if !base.bounds.contains_point(point) {
        return false;
    }
    if base.metadata.pointing.is_none() {
        return false;
    }
    match item {
        DisplayItem::BorderClass(border) => {
            let r = border.base.bounds;
            let w = border.border_widths;
            let ix = r.origin.x as i64 + w.left as i64;
            let iy = r.origin.y as i64 + w.top as i64;
            let iw = r.size.width as i64 - (w.left as i64 + w.right as i64);
            let ih = r.size.height as i64 - (w.top as i64 + w.bottom as i64);
            let px = point.x as i64;
            let py = point.y as i64;
            !(ix <= px && px < ix + iw && iy <= py && py < iy + ih)
        },
        _ => true,
    }
}

/// Adds the metadata of the matching items of `items` to `result`, last item first; with
/// `topmost_only`, stops at the first match.
fn hit_test_in_list(
    items: &Vec<DisplayItem>,
    point: &Point2D,
    result: &mut Vec<DisplayItemMetadata>,
    topmost_only: bool,
)
    requires
        topmost_only ==> old(result)@.len() == 0,
    ensures
        final(result)@ == old(result)@ + selected(
            list_hits(items@, 0, items@.len() as int, *point),
            topmost_only,
        ),
{
    let ghost start = result@;
    let mut i: usize = items.len();
    while i > 0
        invariant
            i <= items@.len(),
            start == old(result)@,
            topmost_only ==> start.len() == 0,
            topmost_only ==> result@.len() == 0,
            topmost_only ==> list_hits(items@, i as int, items@.len() as int, *point).len() == 0,
            !topmost_only ==> result@ == start + list_hits(
                items@,
                i as int,
                items@.len() as int,
                *point,
            ),
        decreases i,
    {
        let item = &items[i - 1];
        let hit = item_matches(item, point);
        proof {
            assert(list_hits(items@, i - 1, items@.len() as int, *point) == list_hits(
                items@,
                i as int,
                items@.len() as int,
                *point,
            ) + if item_hit(items@[i - 1], *point) {
                seq![base_of(items@[i - 1]).metadata]
            } else {
                seq![]
            });
        }
        if hit {
            result.push(item.base().metadata);
            if topmost_only {
                proof {
                    let tail = list_hits(items@, i - 1, items@.len() as int, *point);
                    lemma_list_hits_split(items@, 0, i - 1, items@.len() as int, *point);
                    lemma_first_only_append(tail, list_hits(items@, 0, i - 1, *point));
                    assert(tail =~= seq![base_of(items@[i - 1]).metadata]);
                    assert(result@ =~= start + first_only(tail));
                    let full = list_hits(items@, 0, items@.len() as int, *point);
                    assert(full == tail + list_hits(items@, 0, i - 1, *point));
                    assert(first_only(full) == first_only(tail));
                    assert(selected(full, topmost_only) == first_only(full));
                }
                return ;
            }
        }
        i = i - 1;
        proof {
            if !topmost_only {
                assert(result@ =~= start + list_hits(
                    items@,
                    i as int,
                    items@.len() as int,
                    *point,
                ));
            }
        }
    }
    proof {
        if topmost_only {
            assert(list_hits(items@, 0, items@.len() as int, *point).len() == 0);
            assert(result@ =~= start);
        }
    }
}

/// Where a hit test stands between two groups: with `topmost_only` nothing has matched yet;
/// otherwise the result holds the matches so far after what it held at the start.
pub open spec fn progress(
    start: Seq<DisplayItemMetadata>,
    result: Seq<DisplayItemMetadata>,
    acc: Seq<DisplayItemMetadata>,
    topmost_only: bool,
) -> bool {
    if topmost_only {
        result.len() == 0 && acc.len() == 0
    } else {
        result == start + acc
    }
}

proof fn lemma_advance(
    start: Seq<DisplayItemMetadata>,
    r0: Seq<DisplayItemMetadata>,
    r1: Seq<DisplayItemMetadata>,
    acc: Seq<DisplayItemMetadata>,
    seg: Seq<DisplayItemMetadata>,
    topmost_only: bool,
)
    requires
        progress(start, r0, acc, topmost_only),
        r1 == r0 + selected(seg, topmost_only),
        topmost_only ==> start.len() == 0,
    ensures
        (topmost_only && r1.len() > 0) ==> (acc + seg).len() > 0 && r1 == start + first_only(
            acc + seg,
        ),
        !(topmost_only && r1.len() > 0) ==> progress(start, r1, acc + seg, topmost_only),
{
    if topmost_only {
        assert(acc + seg =~= seg);
        assert(r0 + first_only(seg) =~= first_only(seg));
        assert(start + first_only(seg) =~= first_only(seg));
        if r1.len() == 0 {
            assert(seg.len() == 0);
        }
    } else {
        assert(start + acc + seg =~= start + (acc + seg));
    }
}

impl StackingContext {
    /// Appends to `result` the metadata of the items under `point`, topmost first, following
    /// the painting order backwards; items with no pointer events are never matched. With
    /// `topmost_only`, only the topmost match is appended, and `result` must then be empty.
    pub fn hit_test(
        &self,
        point: Point2D,
        result: &mut Vec<DisplayItemMetadata>,
        topmost_only: bool,
    )
        requires
            topmost_only ==> old(result)@.len() == 0,
        ensures
            final(result)@ == old(result)@ + selected(hits(*self, point), topmost_only),
        decreases *self, 1int,
    {
        let ghost start = result@;
        let lx = point.x as i64 - self.bounds.origin.x as i64;
        let ly = point.y as i64 - self.bounds.origin.y as i64;
        let q = self.transform.transform_point(lx, ly);
        let ghost sc = *self;
        proof {
            assert(q == local_point(sc, point));
            assert(hits(sc, point) == hit_prefix(sc, q, 7));
            assert(hit_prefix(sc, q, 0).len() == 0);
        }
        let l = &self.display_list;
        let order = z_sorted_children(&l.children);

        // Outlines.
        let ghost r0 = result@;
        hit_test_in_list(&l.outlines, &q, result, topmost_only);
        proof {
            assert(hit_prefix(sc, q, 1) == hit_prefix(sc, q, 0) + list_hits(l.outlines@, 0, l.outlines@.len() as int, q));
            lemma_advance(start, r0, result@, hit_prefix(sc, q, 0), list_hits(l.outlines@, 0, l.outlines@.len() as int, q), topmost_only);
        }
        if topmost_only && result.len() > 0 {
            proof { lemma_topmost_in_prefix(sc, q, 1); }
            return ;
        }

        // Children with non-negative z-index.
        let ghost r1 = result@;
        self.hit_test_children(&order, &q, result, topmost_only, true);
        proof {
            let seg = kid_hits(l.children@, order@, 0, order@.len() as int, q, true);
            assert(hit_prefix(sc, q, 2) == hit_prefix(sc, q, 1) + seg);
            lemma_advance(start, r1, result@, hit_prefix(sc, q, 1), seg, topmost_only);
        }
        if topmost_only && result.len() > 0 {
            proof { lemma_topmost_in_prefix(sc, q, 2); }
            return ;
        }

        // Content.
        let ghost r2 = result@;
        hit_test_in_list(&l.content, &q, result, topmost_only);
        proof {
            let seg = list_hits(l.content@, 0, l.content@.len() as int, q);
            assert(hit_prefix(sc, q, 3) == hit_prefix(sc, q, 2) + seg);
            lemma_advance(start, r2, result@, hit_prefix(sc, q, 2), seg, topmost_only);
        }
        if topmost_only && result.len() > 0 {
            proof { lemma_topmost_in_prefix(sc, q, 3); }
            return ;
        }

        // Floats.
        let ghost r3 = result@;
        hit_test_in_list(&l.floats, &q, result, topmost_only);
        proof {
            let seg = list_hits(l.floats@, 0, l.floats@.len() as int, q);
            assert(hit_prefix(sc, q, 4) == hit_prefix(sc, q, 3) + seg);
            lemma_advance(start, r3, result@, hit_prefix(sc, q, 3), seg, topmost_only);
        }
        if topmost_only && result.len() > 0 {
            proof { lemma_topmost_in_prefix(sc, q, 4); }
            return ;
        }

        // Block backgrounds and borders.
        let ghost r4 = result@;
        hit_test_in_list(&l.block_backgrounds_and_borders, &q, result, topmost_only);
        proof {
            let seg = list_hits(l.block_backgrounds_and_borders@, 0, l.block_backgrounds_and_borders@.len() as int, q);
            assert(hit_prefix(sc, q, 5) == hit_prefix(sc, q, 4) + seg);
            lemma_advance(start, r4, result@, hit_prefix(sc, q, 4), seg, topmost_only);
        }
        if topmost_only && result.len() > 0 {
            proof { lemma_topmost_in_prefix(sc, q, 5); }
            return ;
        }

        // Children with negative z-index.
        let ghost r5 = result@;
        self.hit_test_children(&order, &q, result, topmost_only, false);
        proof {
            let seg = kid_hits(l.children@, order@, 0, order@.len() as int, q, false);
            assert(hit_prefix(sc, q, 6) == hit_prefix(sc, q, 5) + seg);
            lemma_advance(start, r5, result@, hit_prefix(sc, q, 5), seg, topmost_only);
        }
        if topmost_only && result.len() > 0 {
            proof { lemma_topmost_in_prefix(sc, q, 6); }
            return ;
        }

        // Root backgrounds and borders.
        let ghost r6 = result@;
        hit_test_in_list(&l.background_and_borders, &q, result, topmost_only);
        proof {
            let seg = list_hits(l.background_and_borders@, 0, l.background_and_borders@.len() as int, q);
            assert(hit_prefix(sc, q, 7) == hit_prefix(sc, q, 6) + seg);
            lemma_advance(start, r6, result@, hit_prefix(sc, q, 6), seg, topmost_only);
            if topmost_only && result@.len() > 0 {
                lemma_topmost_in_prefix(sc, q, 7);
            }
        }
    }

    /// Hit tests the children listed in `order` whose z-index lies on the given side of zero,
    /// last of them first, with `point` in this context's local coordinates.
    fn hit_test_children(
        &self,
        order: &Vec<usize>,
        point: &Point2D,
        result: &mut Vec<DisplayItemMetadata>,
        topmost_only: bool,
        nonneg: bool,
    )
        requires
            topmost_only ==> old(result)@.len() == 0,
        ensures
            final(result)@ == old(result)@ + selected(
                kid_hits(
                    self.display_list.children@,
                    order@,
                    0,
                    order@.len() as int,
                    *point,
                    nonneg,
                ),
                topmost_only,
            ),
        decreases *self, 0int,
    {
        let ghost start = result@;
        let kids = &self.display_list.children;
        let ghost n = order@.len() as int;
        let ghost ord = order@;
        let mut i: usize = order.len();
        while i > 0
            invariant
                kids@ == self.display_list.children@,
                ord == order@,
                n == ord.len(),
                i <= n,
                start == old(result)@,
                topmost_only ==> start.len() == 0,
                topmost_only ==> result@.len() == 0,
                topmost_only ==> kid_hits(kids@, ord, i as int, n, *point, nonneg).len() == 0,
                !topmost_only ==> result@ == start + kid_hits(kids@, ord, i as int, n, *point, nonneg),
            decreases i,
        {
            let k = order[i - 1];
            proof {
                assert(kid_hits(kids@, ord, i - 1, n, *point, nonneg) == kid_hits(
                    kids@,
                    ord,
                    i as int,
                    n,
                    *point,
                    nonneg,
                ) + if in_side(kids@, k as int, nonneg) {
                    hits(*kids@[k as int], *point)
                } else {
                    seq![]
                });
            }
            let matches_side = k < kids.len() && (if nonneg { kids[k].z_index >= 0 } else { kids[k].z_index < 0 });
            if matches_side {
                let kid: &StackingContext = &kids[k];
                kid.hit_test(*point, result, topmost_only);
                if topmost_only && result.len() > 0 {
                    proof {
                        let tail = kid_hits(kids@, ord, i - 1, n, *point, nonneg);
                        assert(tail =~= hits(*kids@[k as int], *point));
                        lemma_kid_hits_split(kids@, ord, 0, i - 1, n, *point, nonneg);
                        lemma_first_only_append(tail, kid_hits(kids@, ord, 0, i - 1, *point, nonneg));
                        assert(result@ =~= start + first_only(tail));
                    }
                    return ;
                }
                proof {
                    if topmost_only {
                        assert(first_only(hits(*kids@[k as int], *point)).len() == 0);
                    } else {
                        assert(result@ =~= start + kid_hits(kids@, ord, i - 1, n, *point, nonneg));
                    }
                }
            } else {
                proof {
                    assert(kid_hits(kids@, ord, i - 1, n, *point, nonneg) =~= kid_hits(
                        kids@,
                        ord,
                        i as int,
                        n,
                        *point,
                        nonneg,
                    ));
                }
            }
            i = i - 1;
        }
        proof {
            if topmost_only {
                assert(result@ =~= start + first_only(kid_hits(kids@, ord, 0, n, *point, nonneg)));
            }
        }
    }
}

/// A point strictly inside the hole of a border never matches that border.
pub proof fn lemma_border_interior_never_hit(item: DisplayItem, p: Point2D)
    requires
        match item {
            DisplayItem::BorderClass(b) => in_border_interior(*b, p.x as int, p.y as int),
            _ => false,
        },
    ensures
        !item_hit(item, p),
{
}

/// An item whose `pointing` is `None` never matches any point.
pub proof fn lemma_no_pointer_events_never_hit(item: DisplayItem, p: Point2D)
    requires
        base_of(item).metadata.pointing.is_none(),
    ensures
        !item_hit(item, p),
{
}

/// Every metadata record that a hit test returns allows pointer events.
pub proof fn lemma_hits_allow_pointer_events(sc: StackingContext, p: Point2D)
    ensures
        forall|i: int|
            0 <= i < hits(sc, p).len() ==> (#[trigger] hits(sc, p)[i]).pointing.is_some(),
    decreases sc, 1int,
{
    let q = local_point(sc, p);
    let l = sc.display_list;
    let n = z_order(l.children@).len() as int;
    lemma_list_hits_pointing(l.outlines@, 0, l.outlines@.len() as int, q);
    lemma_kid_hits_pointing(l.children@, z_order(l.children@), 0, n, q, true);
    lemma_list_hits_pointing(l.content@, 0, l.content@.len() as int, q);
    lemma_list_hits_pointing(l.floats@, 0, l.floats@.len() as int, q);
    lemma_list_hits_pointing(l.block_backgrounds_and_borders@, 0, l.block_backgrounds_and_borders@.len() as int, q);
    lemma_kid_hits_pointing(l.children@, z_order(l.children@), 0, n, q, false);
    lemma_list_hits_pointing(l.background_and_borders@, 0, l.background_and_borders@.len() as int, q);
}

proof fn lemma_list_hits_pointing(items: Seq<DisplayItem>, lo: int, hi: int, p: Point2D)
    ensures
        forall|i: int|
            0 <= i < list_hits(items, lo, hi, p).len() ==> (#[trigger] list_hits(items, lo, hi, p)[i]).pointing.is_some(),
    decreases hi - lo,
{
    if hi > lo {
        lemma_list_hits_pointing(items, lo + 1, hi, p);
    }
}

proof fn lemma_kid_hits_pointing(
    kids: Seq<Arc<StackingContext>>,
    order: Seq<usize>,
    lo: int,
    hi: int,
    p: Point2D,
    nonneg: bool,
)
    ensures
        forall|i: int|
            0 <= i < kid_hits(kids, order, lo, hi, p, nonneg).len() ==> (#[trigger] kid_hits(kids, order, lo, hi, p, nonneg)[i]).pointing.is_some(),
    decreases kids, hi - lo,
{
    if !(hi <= lo || lo < 0 || hi > order.len()) {
        lemma_kid_hits_pointing(kids, order, lo + 1, hi, p, nonneg);
        if in_side(kids, order[lo] as int, nonneg) {
            lemma_hits_allow_pointer_events(inner(kids[order[lo] as int]), p);
        }
    }
}

/// The sequence backwards.
pub open spec fn reversed<T>(s: Seq<T>) -> Seq<T> {
    Seq::new(s.len(), |i: int| s[s.len() - 1 - i])
}

proof fn lemma_reversed_append<T>(a: Seq<T>, b: Seq<T>)
    ensures
        reversed(a + b) == reversed(b) + reversed(a),
{
    assert(reversed(a + b) =~= reversed(b) + reversed(a));
}

proof fn lemma_reversed_short<T>(a: Seq<T>)
    requires
        a.len() <= 1,
    ensures
        reversed(a) == a,
{
    assert(reversed(a) =~= a);
}

/// The matches among `items[lo..hi)` in painting order: first item first.
pub open spec fn list_hits_painted(items: Seq<DisplayItem>, lo: int, hi: int, p: Point2D) -> Seq<
    DisplayItemMetadata,
>
    decreases hi - lo,
{
    if hi <= lo {
        seq![]
    } else {
        (if item_hit(items[lo], p) {
            seq![base_of(items[lo]).metadata]
        } else {
            seq![]
        }) + list_hits_painted(items, lo + 1, hi, p)
    }
}

/// All matches of the stacking context in painting order: root backgrounds, children with
/// negative z-index, block backgrounds, floats, content, children with non-negative z-index,
/// outlines, with children taken in ascending z-index order, ties in list order, as the painting
/// passes take them.
pub open spec fn painted_hits(sc: StackingContext, p: Point2D) -> Seq<DisplayItemMetadata>
    decreases sc,
{
    let q = local_point(sc, p);
    let l = sc.display_list;
    let n = z_order(l.children@).len() as int;
    list_hits_painted(l.background_and_borders@, 0, l.background_and_borders@.len() as int, q)
        + kid_hits_painted(l.children@, z_order(l.children@), 0, n, q, false) + list_hits_painted(
        l.block_backgrounds_and_borders@,
        0,
        l.block_backgrounds_and_borders@.len() as int,
        q,
    ) + list_hits_painted(l.floats@, 0, l.floats@.len() as int, q) + list_hits_painted(
        l.content@,
        0,
        l.content@.len() as int,
        q,
    ) + kid_hits_painted(l.children@, z_order(l.children@), 0, n, q, true) + list_hits_painted(
        l.outlines@,
        0,
        l.outlines@.len() as int,
        q,
    )
}

/// The matches in the children `order[lo..hi)` of the given pass, first of them first.
pub open spec fn kid_hits_painted(
    kids: Seq<Arc<StackingContext>>,
    order: Seq<usize>,
    lo: int,
    hi: int,
    p: Point2D,
    nonneg: bool,
) -> Seq<DisplayItemMetadata>
    decreases kids, hi - lo,
{
    if hi <= lo || lo < 0 || hi > order.len() {
        seq![]
    } else {
        (if in_side(kids, order[lo] as int, nonneg) {
            painted_hits(*kids[order[lo] as int], p)
        } else {
            seq![]
        }) + kid_hits_painted(kids, order, lo + 1, hi, p, nonneg)
    }
}

proof fn lemma_list_reversed(items: Seq<DisplayItem>, lo: int, hi: int, p: Point2D)
    ensures
        list_hits(items, lo, hi, p) == reversed(list_hits_painted(items, lo, hi, p)),
    decreases hi - lo,
{
    if hi <= lo {
        assert(reversed(list_hits_painted(items, lo, hi, p)) =~= seq![]);
    } else {
        lemma_list_reversed(items, lo + 1, hi, p);
        let h = if item_hit(items[lo], p) {
            seq![base_of(items[lo]).metadata]
        } else {
            seq![]
        };
        lemma_reversed_append(h, list_hits_painted(items, lo + 1, hi, p));
        lemma_reversed_short(h);
    }
}

proof fn lemma_kids_reversed(
    kids: Seq<Arc<StackingContext>>,
    order: Seq<usize>,
    lo: int,
    hi: int,
    p: Point2D,
    nonneg: bool,
)
    ensures
        kid_hits(kids, order, lo, hi, p, nonneg) == reversed(
            kid_hits_painted(kids, order, lo, hi, p, nonneg),
        ),
    decreases kids, hi - lo,
{
    if hi <= lo || lo < 0 || hi > order.len() {
        assert(reversed(kid_hits_painted(kids, order, lo, hi, p, nonneg)) =~= seq![]);
    } else {
        lemma_kids_reversed(kids, order, lo + 1, hi, p, nonneg);
        let k = order[lo] as int;
        let h = if in_side(kids, k, nonneg) {
            painted_hits(inner(kids[k]), p)
        } else {
            seq![]
        };
        if in_side(kids, k, nonneg) {
            lemma_hit_order_reverses_paint_order(inner(kids[k]), p);
        } else {
            assert(reversed(h) =~= h);
        }
        lemma_reversed_append(h, kid_hits_painted(kids, order, lo + 1, hi, p, nonneg));
    }
}

/// Hit testing visits the matches in exactly the reverse of painting order, children taken in
/// the painting passes' stable z-index order, so with `topmost_only` it returns the last match
/// painted.
pub proof fn lemma_hit_order_reverses_paint_order(sc: StackingContext, p: Point2D)
    ensures
        hits(sc, p) == reversed(painted_hits(sc, p)),
    decreases sc, 1int,
{
    let q = local_point(sc, p);
    let l = sc.display_list;
    let n = z_order(l.children@).len() as int;
    let a0 = list_hits_painted(l.background_and_borders@, 0, l.background_and_borders@.len() as int, q);
    let a1 = kid_hits_painted(l.children@, z_order(l.children@), 0, n, q, false);
    let a2 = list_hits_painted(l.block_backgrounds_and_borders@, 0, l.block_backgrounds_and_borders@.len() as int, q);
    let a3 = list_hits_painted(l.floats@, 0, l.floats@.len() as int, q);
    let a4 = list_hits_painted(l.content@, 0, l.content@.len() as int, q);
    let a5 = kid_hits_painted(l.children@, z_order(l.children@), 0, n, q, true);
    let a6 = list_hits_painted(l.outlines@, 0, l.outlines@.len() as int, q);
    lemma_list_reversed(l.background_and_borders@, 0, l.background_and_borders@.len() as int, q);
    lemma_kids_reversed(l.children@, z_order(l.children@), 0, n, q, false);
    lemma_list_reversed(l.block_backgrounds_and_borders@, 0, l.block_backgrounds_and_borders@.len() as int, q);
    lemma_list_reversed(l.floats@, 0, l.floats@.len() as int, q);
    lemma_list_reversed(l.content@, 0, l.content@.len() as int, q);
    lemma_kids_reversed(l.children@, z_order(l.children@), 0, n, q, true);
    lemma_list_reversed(l.outlines@, 0, l.outlines@.len() as int, q);
    assert(painted_hits(sc, p) == a0 + a1 + a2 + a3 + a4 + a5 + a6);
    assert(reversed(a0 + a1 + a2 + a3 + a4 + a5 + a6) =~= reversed(a6) + reversed(a5) + reversed(
        a4,
    ) + reversed(a3) + reversed(a2) + reversed(a1) + reversed(a0));
}

/// A topmost-only hit test returns at most one record: the first of what a full hit test
/// returns, or nothing when that is empty.
pub proof fn lemma_topmost_is_first_of_all(sc: StackingContext, p: Point2D)
    ensures
        selected(hits(sc, p), true).len() <= 1,
        selected(hits(sc, p), true).len() == 0 <==> selected(hits(sc, p), false).len() == 0,
        selected(hits(sc, p), true).len() == 1 ==> selected(hits(sc, p), true)[0] == selected(
            hits(sc, p),
            false,
        )[0],
{
}

} // verus!
