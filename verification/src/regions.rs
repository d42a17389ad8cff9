//! Connected regions of a bilevel raster.

use vstd::prelude::*;

verus! {

/// Whether two pixels of a raster touch along an edge. Pixels are numbered row by
/// row from zero.
pub open spec fn touches(width: int, count: int, a: int, b: int) -> bool {
    &&& 0 <= a < count
    &&& 0 <= b < count
    &&& {
        ||| b == a + 1 && b % width != 0
        ||| a == b + 1 && a % width != 0
        ||| b == a + width
        ||| a == b + width
    }
}

/// Whether a path leads over set pixels from one pixel to another, each touching the next.
pub open spec fn is_path(mask: Seq<bool>, width: int, path: Seq<int>, a: int, b: int) -> bool {
    &&& path.len() > 0
    &&& path[0] == a
    &&& path.last() == b
    &&& forall|i: int| 0 <= i < path.len() ==> 0 <= #[trigger] path[i] < mask.len() && mask[path[i]]
    &&& forall|i: int|
        0 < i < path.len() ==> touches(width, mask.len() as int, path[i - 1], #[trigger] path[i])
}

/// Whether two pixels belong to one connected region of set pixels.
pub open spec fn linked(mask: Seq<bool>, width: int, a: int, b: int) -> bool {
    exists|path: Seq<int>| is_path(mask, width, path, a, b)
}

/// How many of the first `n` pixels have a property.
pub open spec fn count_where(n: nat, property: spec_fn(int) -> bool) -> nat
    decreases n,
{
    if n == 0 {
        0
    } else {
        count_where((n - 1) as nat, property) + if property(n - 1) {
            1nat
        } else {
            0nat
        }
    }
}

/// The number of pixels in the region of a pixel.
pub open spec fn region_area(mask: Seq<bool>, width: int, start: int) -> nat {
    count_where(mask.len(), |p: int| linked(mask, width, start, p))
}

/// Whether a pixel is the first of its region, row by row.
pub open spec fn is_region_start(mask: Seq<bool>, width: int, start: int) -> bool {
    &&& 0 <= start < mask.len()
    &&& mask[start]
    &&& forall|p: int| #[trigger] linked(mask, width, start, p) ==> start <= p
}

/// Whether a region is the largest; of regions of one size the last one counts.
pub open spec fn is_largest_region(mask: Seq<bool>, width: int, start: int) -> bool {
    &&& is_region_start(mask, width, start)
    &&& forall|other: int| #[trigger]
        is_region_start(mask, width, other) ==> {
            let area = region_area(mask, width, other);
            let best = region_area(mask, width, start);
            area < best || (area == best && other <= start)
        }
}

pub proof fn lemma_linked_self(mask: Seq<bool>, width: int, a: int)
    requires
        0 <= a < mask.len(),
        mask[a],
    ensures
        linked(mask, width, a, a),
{
    assert(is_path(mask, width, seq![a], a, a));
}

proof fn lemma_linked_step(mask: Seq<bool>, width: int, a: int, b: int, c: int)
    requires
        linked(mask, width, a, b),
        touches(width, mask.len() as int, b, c),
        mask[c],
    ensures
        linked(mask, width, a, c),
{
    let path = choose|path: Seq<int>| is_path(mask, width, path, a, b);
    assert(is_path(mask, width, path.push(c), a, c));
}

/// Whether a set of pixels has all set pixels that touch one of it.
spec fn is_closed(mask: Seq<bool>, width: int, inside: spec_fn(int) -> bool) -> bool {
    forall|p: int, q: int|
        inside(p) && #[trigger] touches(width, mask.len() as int, p, q) && mask[q] ==> inside(q)
}

proof fn lemma_path_stays(
    mask: Seq<bool>,
    width: int,
    inside: spec_fn(int) -> bool,
    path: Seq<int>,
    a: int,
    b: int,
)
    requires
        is_closed(mask, width, inside),
        is_path(mask, width, path, a, b),
        inside(a),
    ensures
        inside(b),
    decreases path.len(),
{
    if path.len() > 1 {
        let rest = path.drop_first();
        assert(touches(width, mask.len() as int, path[0], path[1]));
        assert(rest[0] == path[1]);
        assert(forall|i: int| 0 < i < rest.len() ==> #[trigger] rest[i] == path[i + 1]);
        assert forall|i: int| 0 < i < rest.len() implies touches(
            width,
            mask.len() as int,
            rest[i - 1],
            #[trigger] rest[i],
        ) by {
            assert(touches(width, mask.len() as int, path[i + 1 - 1], path[i + 1]));
        }
        assert(is_path(mask, width, rest, path[1], b));
        lemma_path_stays(mask, width, inside, rest, path[1], b);
    }
}

proof fn lemma_path_returns(
    mask: Seq<bool>,
    width: int,
    inside: spec_fn(int) -> bool,
    path: Seq<int>,
    a: int,
    b: int,
)
    requires
        is_closed(mask, width, inside),
        is_path(mask, width, path, a, b),
        inside(b),
    ensures
        inside(a),
    decreases path.len(),
{
    if path.len() > 1 {
        let n = path.len() as int;
        let rest = path.drop_last();
        assert(touches(width, mask.len() as int, path[n - 1 - 1], path[n - 1]));
        assert(touches(width, mask.len() as int, path[n - 1], path[n - 2]));
        assert forall|i: int| 0 < i < rest.len() implies touches(
            width,
            mask.len() as int,
            rest[i - 1],
            #[trigger] rest[i],
        ) by {
            assert(touches(width, mask.len() as int, path[i - 1], path[i]));
        }
        assert(is_path(mask, width, rest, a, path[n - 2]));
        lemma_path_returns(mask, width, inside, rest, a, path[n - 2]);
    }
}

proof fn lemma_closed_links(
    mask: Seq<bool>,
    width: int,
    inside: spec_fn(int) -> bool,
    a: int,
    b: int,
)
    requires
        is_closed(mask, width, inside),
        linked(mask, width, a, b),
    ensures
        inside(a) <==> inside(b),
{
    let path = choose|path: Seq<int>| is_path(mask, width, path, a, b);
    if inside(a) {
        lemma_path_stays(mask, width, inside, path, a, b);
    }
    if inside(b) {
        lemma_path_returns(mask, width, inside, path, a, b);
    }
}

pub proof fn lemma_count_same(n: nat, left: spec_fn(int) -> bool, right: spec_fn(int) -> bool)
    requires
        forall|p: int| 0 <= p < n ==> #[trigger] left(p) == right(p),
    ensures
        count_where(n, left) == count_where(n, right),
    decreases n,
{
    if n > 0 {
        lemma_count_same((n - 1) as nat, left, right);
        assert(left(n - 1) == right(n - 1));
    }
}

proof fn lemma_count_one_more(
    n: nat,
    before: spec_fn(int) -> bool,
    after: spec_fn(int) -> bool,
    at: int,
)
    requires
        0 <= at < n,
        !before(at),
        after(at),
        forall|p: int| 0 <= p < n && p != at ==> #[trigger] before(p) == after(p),
    ensures
        count_where(n, after) == count_where(n, before) + 1,
    decreases n,
{
    if at == n - 1 {
        lemma_count_same((n - 1) as nat, before, after);
    } else {
        lemma_count_one_more((n - 1) as nat, before, after, at);
        assert(before(n - 1) == after(n - 1));
    }
}

pub proof fn lemma_count_bound(n: nat, property: spec_fn(int) -> bool)
    ensures
        count_where(n, property) <= n,
    decreases n,
{
    if n > 0 {
        lemma_count_bound((n - 1) as nat, property);
    }
}

spec fn labelled(labels: Seq<u32>, label: u32) -> spec_fn(int) -> bool {
    |p: int| 0 <= p < labels.len() && labels[p] == label
}

/// Gives a pixel a label that it has not had, and counts it.
fn set_label(labels: &mut Vec<u32>, at: usize, label: u32, area: usize) -> (r: usize)
    requires
        at < old(labels).len(),
        old(labels)[at as int] == 0,
        label != 0,
        area == count_where(old(labels)@.len(), labelled(old(labels)@, label)),
    ensures
        final(labels)@ == old(labels)@.update(at as int, label),
        r == count_where(final(labels)@.len(), labelled(final(labels)@, label)),
        r == area + 1,
        count_where(final(labels)@.len(), labelled(final(labels)@, 0)) == count_where(
            old(labels)@.len(),
            labelled(old(labels)@, 0),
        ) - 1,
{
    let ghost before = labels@;
    labels.set(at, label);
    proof {
        let n = before.len();
        lemma_count_one_more(n, labelled(before, label), labelled(labels@, label), at as int);
        lemma_count_one_more(n, labelled(labels@, 0), labelled(before, 0), at as int);
        lemma_count_bound(n, labelled(labels@, label));
    }
    area + 1
}

/// Whether all set pixels that touch a pixel have the label.
spec fn is_surrounded(mask: Seq<bool>, width: int, labels: Seq<u32>, label: u32, p: int) -> bool {
    forall|q: int| #[trigger]
        touches(width, mask.len() as int, p, q) && mask[q] ==> labels[q] == label
}

/// Where the filling of a region starts from: the labels before, the new label and
/// the first pixel.
ghost struct Filling {
    mask: Seq<bool>,
    width: int,
    before: Seq<u32>,
    label: u32,
    start: int,
}

impl Filling {
    /// Earlier labels differ from the new one, and mark whole regions.
    spec fn wf(self) -> bool {
        &&& self.width > 0
        &&& self.label != 0
        &&& self.before.len() == self.mask.len()
        &&& 0 <= self.start < self.mask.len()
        &&& forall|p: int| 0 <= p < self.before.len() ==> #[trigger] self.before[p] != self.label
        &&& forall|p: int, q: int|
            #[trigger] touches(self.width, self.mask.len() as int, p, q) && self.mask[p]
                && self.mask[q] ==> (self.before[p] == 0 <==> self.before[q] == 0)
    }

    /// The labels have grown by pixels linked to the start. Each of them is
    /// surrounded by its like, or waits on the stack, or is `at`.
    spec fn holds(self, labels: Seq<u32>, stack: Seq<usize>, at: int) -> bool {
        &&& labels.len() == self.before.len()
        &&& forall|p: int|
            0 <= p < labels.len() ==> (#[trigger] labels[p] == self.before[p] || (labels[p]
                == self.label && self.before[p] == 0 && self.mask[p]))
        &&& forall|p: int|
            0 <= p < labels.len() && #[trigger] labels[p] == self.label ==> linked(
                self.mask,
                self.width,
                self.start,
                p,
            )
        &&& forall|i: int|
            0 <= i < stack.len() ==> (#[trigger] stack[i]) < labels.len() && labels[stack[i] as int]
                == self.label
        &&& forall|p: int|
            0 <= p < labels.len() && #[trigger] labels[p] == self.label ==> p == at
                || stack.contains(p as usize) || is_surrounded(
                self.mask,
                self.width,
                labels,
                self.label,
                p,
            )
    }
}

spec fn unlabelled(labels: Seq<u32>) -> nat {
    count_where(labels.len(), labelled(labels, 0))
}

/// Labels and pushes a pixel beside `at` that is set and has no label yet.
fn visit(
    mask: &Vec<bool>,
    labels: &mut Vec<u32>,
    stack: &mut Vec<usize>,
    at: usize,
    beside: usize,
    label: u32,
    area: usize,
    Ghost(filling): Ghost<Filling>,
) -> (r: usize)
    requires
        filling.wf(),
        filling.mask == mask@,
        filling.label == label,
        filling.holds(old(labels)@, old(stack)@, at as int),
        at < old(labels).len(),
        old(labels)[at as int] == label,
        touches(filling.width, mask.len() as int, at as int, beside as int),
        area == count_where(old(labels)@.len(), labelled(old(labels)@, label)),
    ensures
        filling.holds(final(labels)@, final(stack)@, at as int),
        final(labels)[at as int] == label,
        mask[beside as int] ==> final(labels)[beside as int] == label,
        forall|p: int|
            0 <= p < old(labels).len() && #[trigger] old(labels)[p] == label ==> final(labels)[p]
                == label,
        r == count_where(final(labels)@.len(), labelled(final(labels)@, label)),
        2 * unlabelled(final(labels)@) + final(stack).len() <= 2 * unlabelled(old(labels)@) + old(
            stack,
        ).len(),
{
    assert(filling.before[at as int] == 0);
    assert(mask[beside as int] ==> filling.before[beside as int] == 0);
    if mask[beside] && labels[beside] == 0 {
        let ghost old_labels = labels@;
        let ghost old_stack = stack@;
        proof {
            lemma_linked_step(
                mask@,
                filling.width,
                filling.start,
                at as int,
                beside as int,
            );
        }
        let grown: usize = set_label(labels, beside, label, area);
        stack.push(beside);
        proof {
            assert forall|p: int|
                0 <= p < labels.len() && #[trigger] labels@[p] == label implies p == at
                || stack@.contains(p as usize) || is_surrounded(
                mask@,
                filling.width,
                labels@,
                label,
                p,
            ) by {
                if p == beside {
                    assert(stack@[old_stack.len() as int] == beside);
                } else {
                    assert(old_labels[p] == label);
                    if old_stack.contains(p as usize) {
                        let i = choose|i: int| 0 <= i < old_stack.len() && old_stack[i] == p as usize;
                        assert(stack@[i] == p as usize);
                    } else if p != at {
                        assert(is_surrounded(mask@, filling.width, old_labels, label, p));
                    }
                }
            }
        }
        grown
    } else {
        area
    }
}

/// Visits the pixels that touch `at`.
fn expand(
    mask: &Vec<bool>,
    width: usize,
    labels: &mut Vec<u32>,
    stack: &mut Vec<usize>,
    at: usize,
    label: u32,
    area: usize,
    Ghost(filling): Ghost<Filling>,
) -> (r: usize)
    requires
        filling.wf(),
        filling.mask == mask@,
        filling.label == label,
        filling.width == width,
        filling.holds(old(labels)@, old(stack)@, at as int),
        at < old(labels).len(),
        old(labels)[at as int] == label,
        area == count_where(old(labels)@.len(), labelled(old(labels)@, label)),
    ensures
        filling.holds(final(labels)@, final(stack)@, -1),
        forall|p: int|
            0 <= p < old(labels).len() && #[trigger] old(labels)[p] == label ==> final(labels)[p]
                == label,
        r == count_where(final(labels)@.len(), labelled(final(labels)@, label)),
        2 * unlabelled(final(labels)@) + final(stack).len() <= 2 * unlabelled(old(labels)@) + old(
            stack,
        ).len(),
{
    let ghost w = width as int;
    let ghost n = mask@.len() as int;
    let mut area: usize = area;
    let x: usize = at % width;
    proof {
        vstd::arithmetic::div_mod::lemma_fundamental_div_mod(at as int, w);
        assert(at as int >= x as int) by {
            vstd::arithmetic::div_mod::lemma_mod_decreases(at as nat, width as nat);
        }
    }
    if x > 0 {
        area = visit(mask, labels, stack, at, at - 1, label, area, Ghost(filling));
    }
    if x < width - 1 && at < mask.len() - 1 {
        proof {
            lemma_next_column(at as int, w);
        }
        area = visit(mask, labels, stack, at, at + 1, label, area, Ghost(filling));
    }
    if at >= width {
        area = visit(mask, labels, stack, at, at - width, label, area, Ghost(filling));
    }
    if mask.len() - at > width {
        area = visit(mask, labels, stack, at, at + width, label, area, Ghost(filling));
    }
    proof {
        assert forall|q: int| #[trigger] touches(w, n, at as int, q) && mask@[q] implies labels@[q]
            == label by {
            lemma_neighbours(w, n, at as int, q);
        }
        assert(is_surrounded(mask@, w, labels@, label, at as int));
    }
    area
}

/// Labels the region of a pixel. Returns its area.
fn fill(mask: &Vec<bool>, width: usize, labels: &mut Vec<u32>, start: usize, label: u32) -> (r:
    usize)
    requires
        width > 0,
        mask.len() == old(labels).len(),
        start < mask.len(),
        mask[start as int],
        old(labels)[start as int] == 0,
        label != 0,
        forall|p: int| 0 <= p < old(labels).len() ==> #[trigger] old(labels)[p] != label,
        forall|p: int, q: int|
            #[trigger] touches(width as int, mask.len() as int, p, q) && mask[p] && mask[q] ==> (
            old(labels)[p] == 0 <==> old(labels)[q] == 0),
    ensures
        final(labels).len() == old(labels).len(),
        forall|p: int|
            0 <= p < final(labels).len() ==> (#[trigger] final(labels)[p] == label <==> linked(
                mask@,
                width as int,
                start as int,
                p,
            )),
        forall|p: int|
            0 <= p < final(labels).len() && final(labels)[p] != label ==> #[trigger] final(labels)[p]
                == old(labels)[p],
        forall|p: int|
            0 <= p < final(labels).len() && #[trigger] final(labels)[p] == label ==> mask[p],
        r == region_area(mask@, width as int, start as int),
{
    let ghost w = width as int;
    let ghost n = mask@.len() as int;
    let ghost filling = Filling { mask: mask@, width: w, before: labels@, label, start: start as int };
    let mut stack: Vec<usize> = Vec::new();
    proof {
        lemma_count_none(labels@, label);
        lemma_linked_self(mask@, w, start as int);
    }
    let mut area: usize = set_label(labels, start, label, 0);
    stack.push(start);
    assert(stack@[0] == start);
    assert(stack@.contains(start));
    while stack.len() > 0
        invariant
            filling.wf(),
            filling.mask == mask@,
            filling.label == label,
            filling.width == width,
            filling.start == start,
            labels.len() == mask.len(),
            labels[start as int] == label,
            filling.holds(labels@, stack@, -1),
            area == count_where(labels@.len(), labelled(labels@, label)),
        decreases 2 * unlabelled(labels@) + stack.len(),
    {
        let ghost old_stack = stack@;
        let at: usize = match stack.pop() {
            Some(at) => at,
            None => 0,
        };
        proof {
            assert(old_stack[old_stack.len() - 1] == at);
            assert forall|p: int|
                0 <= p < labels.len() && #[trigger] labels@[p] == label implies p == at
                || stack@.contains(p as usize) || is_surrounded(mask@, filling.width, labels@, label, p) by {
                if old_stack.contains(p as usize) && p != at {
                    let i = choose|i: int| 0 <= i < old_stack.len() && old_stack[i] == p as usize;
                    assert(stack@[i] == p as usize);
                }
            }
            assert forall|i: int| 0 <= i < stack.len() implies (#[trigger] stack@[i]) < labels.len()
                && labels@[stack@[i] as int] == label by {
                assert(old_stack[i] == stack@[i]);
            }
        }
        area = expand(mask, width, labels, &mut stack, at, label, area, Ghost(filling));
    }
    proof {
        let inside = labelled(labels@, label);
        assert(is_closed(mask@, w, inside)) by {
            assert forall|p: int, q: int|
                inside(p) && #[trigger] touches(w, n, p, q) && mask@[q] implies inside(q) by {
                assert(labels@[p] == label);
                assert(is_surrounded(mask@, w, labels@, label, p));
            }
        }
        assert forall|p: int| 0 <= p < n implies (#[trigger] labels@[p] == label <==> linked(
            mask@,
            w,
            start as int,
            p,
        )) by {
            if linked(mask@, w, start as int, p) {
                lemma_closed_links(mask@, w, inside, start as int, p);
            }
        }
        lemma_count_same(mask@.len(), inside, |p: int| linked(mask@, w, start as int, p));
    }
    area
}

proof fn lemma_count_none(labels: Seq<u32>, label: u32)
    requires
        forall|p: int| 0 <= p < labels.len() ==> labels[p] != label,
    ensures
        count_where(labels.len(), labelled(labels, label)) == 0,
{
    let none = |p: int| false;
    lemma_count_same(labels.len(), labelled(labels, label), none);
    lemma_count_false(labels.len());
}

proof fn lemma_count_false(n: nat)
    ensures
        count_where(n, |p: int| false) == 0,
    decreases n,
{
    if n > 0 {
        lemma_count_false((n - 1) as nat);
    }
}

proof fn lemma_next_column(at: int, width: int)
    requires
        width > 0,
        0 <= at,
        at % width < width - 1,
    ensures
        (at + 1) % width == at % width + 1,
{
    vstd::arithmetic::div_mod::lemma_fundamental_div_mod(at, width);
    let q = at / width;
    assert(at + 1 == q * width + (at % width + 1)) by (nonlinear_arith)
        requires
            at == width * q + at % width,
    ;
    vstd::arithmetic::div_mod::lemma_fundamental_div_mod_converse(
        at + 1,
        width,
        q,
        at % width + 1,
    );
}

/// The pixels that touch a pixel are at most four.
proof fn lemma_neighbours(width: int, count: int, at: int, q: int)
    requires
        width > 0,
        touches(width, count, at, q),
    ensures
        (q == at - 1 && at % width != 0) || (q == at + 1 && at % width < width - 1) || q == at
            - width || q == at + width,
{
    if q == at + 1 && q % width != 0 {
        if at % width == width - 1 {
            vstd::arithmetic::div_mod::lemma_fundamental_div_mod(at, width);
            let k = at / width;
            assert(at + 1 == (k + 1) * width + 0) by (nonlinear_arith)
                requires
                    at == width * k + (width - 1),
            ;
            vstd::arithmetic::div_mod::lemma_fundamental_div_mod_converse(
                at + 1,
                width,
                k + 1,
                0,
            );
        }
    }
}

proof fn lemma_linked_back(mask: Seq<bool>, width: int, a: int, b: int)
    requires
        linked(mask, width, a, b),
    ensures
        linked(mask, width, b, a),
{
    let path = choose|path: Seq<int>| is_path(mask, width, path, a, b);
    let n = path.len() as int;
    let back = Seq::new(path.len(), |i: int| path[n - 1 - i]);
    assert forall|i: int| 0 < i < back.len() implies touches(
        width,
        mask.len() as int,
        back[i - 1],
        #[trigger] back[i],
    ) by {
        assert(touches(width, mask.len() as int, path[n - i - 1], path[n - i]));
    }
    assert(is_path(mask, width, back, b, a));
}

proof fn lemma_linked_in_range(mask: Seq<bool>, width: int, a: int, b: int)
    requires
        linked(mask, width, a, b),
    ensures
        0 <= a < mask.len() && mask[a],
        0 <= b < mask.len() && mask[b],
{
    let path = choose|path: Seq<int>| is_path(mask, width, path, a, b);
    assert(path[0] == a);
    assert(path[path.len() - 1] == b);
}

/// The largest region of a raster: its first pixel, its area and which pixels are in it.
#[derive(Debug)]
pub struct Region {
    pub start: usize,
    pub area: usize,
    pub members: Vec<bool>,
}

impl Region {
    /// Whether this describes the region of its first pixel.
    pub open spec fn describes(self, mask: Seq<bool>, width: int) -> bool {
        &&& self.area == region_area(mask, width, self.start as int)
        &&& self.members.len() == mask.len()
        &&& forall|p: int|
            0 <= p < mask.len() ==> #[trigger] self.members[p] == linked(
                mask,
                width,
                self.start as int,
                p,
            )
    }
}

/// Whether labels mark whole regions of set pixels, for all pixels before `upto`.
spec fn marks_regions(mask: Seq<bool>, width: int, labels: Seq<u32>, next: u32, upto: int) -> bool {
    &&& labels.len() == mask.len()
    &&& forall|p: int| 0 <= p < labels.len() ==> (#[trigger] labels[p]) < next
    &&& forall|p: int| 0 <= p < labels.len() && !mask[p] ==> #[trigger] labels[p] == 0
    &&& forall|p: int| 0 <= p < upto && mask[p] ==> #[trigger] labels[p] != 0
    &&& forall|p: int, q: int|
        #[trigger] touches(width, mask.len() as int, p, q) && mask[p] && mask[q] ==> (labels[p] == 0
            <==> labels[q] == 0)
    &&& forall|p: int|
        0 <= p < labels.len() && #[trigger] labels[p] != 0 ==> exists|s: int|
            0 <= s < upto && #[trigger] linked(mask, width, s, p)
}

proof fn lemma_unlabelled_is_start(
    mask: Seq<bool>,
    width: int,
    labels: Seq<u32>,
    next: u32,
    at: int,
)
    requires
        marks_regions(mask, width, labels, next, at),
        0 <= at < mask.len(),
        mask[at],
        labels[at] == 0,
    ensures
        is_region_start(mask, width, at),
{
    let inside = |p: int| 0 <= p < labels.len() && labels[p] != 0;
    assert(is_closed(mask, width, inside)) by {
        assert forall|p: int, q: int|
            inside(p) && #[trigger] touches(width, mask.len() as int, p, q) && mask[q] implies inside(
            q,
        ) by {
            assert(labels[p] != 0);
            assert(mask[p]);
        }
    }
    assert forall|p: int| #[trigger] linked(mask, width, at, p) implies at <= p by {
        lemma_linked_in_range(mask, width, at, p);
        lemma_closed_links(mask, width, inside, at, p);
        if p < at {
            assert(labels[p] != 0);
        }
    }
}

proof fn lemma_labelled_is_no_start(
    mask: Seq<bool>,
    width: int,
    labels: Seq<u32>,
    next: u32,
    at: int,
)
    requires
        marks_regions(mask, width, labels, next, at),
        0 <= at < mask.len(),
        labels[at] != 0,
    ensures
        !is_region_start(mask, width, at),
{
    let s = choose|s: int| 0 <= s < at && #[trigger] linked(mask, width, s, at);
    lemma_linked_back(mask, width, s, at);
    assert(linked(mask, width, at, s));
}

proof fn lemma_filled_marks(
    mask: Seq<bool>,
    width: int,
    before: Seq<u32>,
    labels: Seq<u32>,
    label: u32,
    at: int,
)
    requires
        marks_regions(mask, width, before, label, at),
        label < u32::MAX,
        label > 0,
        0 <= at < mask.len(),
        mask[at],
        labels.len() == before.len(),
        forall|p: int|
            0 <= p < labels.len() ==> (#[trigger] labels[p] == label <==> linked(
                mask,
                width,
                at,
                p,
            )),
        forall|p: int|
            0 <= p < labels.len() && labels[p] != label ==> #[trigger] labels[p] == before[p],
        forall|p: int| 0 <= p < labels.len() && #[trigger] labels[p] == label ==> mask[p],
    ensures
        marks_regions(mask, width, labels, (label + 1) as u32, at + 1),
{
    lemma_linked_self(mask, width, at);
    assert forall|p: int, q: int|
        #[trigger] touches(width, mask.len() as int, p, q) && mask[p] && mask[q] implies (labels[p]
        == 0 <==> labels[q] == 0) by {
        assert(touches(width, mask.len() as int, q, p));
        assert(before[p] == 0 <==> before[q] == 0);
        if labels[p] == label {
            lemma_linked_step(mask, width, at, p, q);
            assert(labels[q] == label);
        }
        if labels[q] == label {
            lemma_linked_step(mask, width, at, q, p);
            assert(labels[p] == label);
        }
    }
    assert forall|p: int| 0 <= p < labels.len() && #[trigger] labels[p] != 0 implies exists|s: int|
        0 <= s < at + 1 && #[trigger] linked(mask, width, s, p) by {
        if labels[p] == label {
            assert(linked(mask, width, at, p));
        } else {
            assert(before[p] != 0);
            let s = choose|s: int| 0 <= s < at && #[trigger] linked(mask, width, s, p);
            assert(linked(mask, width, s, p));
        }
    }
}

fn zero_labels(count: usize) -> (r: Vec<u32>)
    ensures
        r.len() == count,
        forall|p: int| 0 <= p < count ==> #[trigger] r[p] == 0,
{
    let mut labels: Vec<u32> = Vec::new();
    let mut i: usize = 0;
    while i < count
        invariant
            i <= count,
            labels.len() == i,
            forall|p: int| 0 <= p < i ==> #[trigger] labels[p] == 0,
        decreases count - i,
    {
        labels.push(0);
        i = i + 1;
    }
    labels
}

fn members_of(labels: &Vec<u32>, label: u32) -> (r: Vec<bool>)
    ensures
        r.len() == labels.len(),
        forall|p: int| 0 <= p < labels.len() ==> #[trigger] r[p] == (labels[p] == label),
{
    let mut members: Vec<bool> = Vec::new();
    let mut i: usize = 0;
    while i < labels.len()
        invariant
            i <= labels.len(),
            members.len() == i,
            forall|p: int| 0 <= p < i ==> #[trigger] members[p] == (labels[p] == label),
        decreases labels.len() - i,
    {
        members.push(labels[i] == label);
        i = i + 1;
    }
    members
}

/// Finds the largest connected region of set pixels, if any pixel is set.
pub fn largest_region(mask: &Vec<bool>, width: usize) -> (r: Option<Region>)
    requires
        width > 0,
        mask.len() < u32::MAX,
    ensures
        r is None <==> forall|p: int| 0 <= p < mask.len() ==> !#[trigger] mask[p],
        r matches Some(region) ==> is_largest_region(mask@, width as int, region.start as int)
            && region.describes(mask@, width as int),
{
    let ghost w = width as int;
    let mut labels: Vec<u32> = zero_labels(mask.len());
    let mut next: u32 = 1;
    let mut best_label: u32 = 0;
    let mut best_start: usize = 0;
    let mut best_area: usize = 0;
    let mut at: usize = 0;
    while at < mask.len()
        invariant
            w == width,
            width > 0,
            at <= mask.len(),
            mask.len() < u32::MAX,
            1 <= next <= at + 1,
            best_label < next,
            marks_regions(mask@, w, labels@, next, at as int),
            best_label == 0 ==> forall|p: int| 0 <= p < at ==> !#[trigger] mask[p],
            best_label != 0 ==> {
                &&& best_start < at
                &&& is_region_start(mask@, w, best_start as int)
                &&& best_area == region_area(mask@, w, best_start as int)
                &&& forall|p: int|
                    0 <= p < labels.len() ==> (#[trigger] labels[p] == best_label <==> linked(
                        mask@,
                        w,
                        best_start as int,
                        p,
                    ))
                &&& forall|other: int|
                    other < at && #[trigger] is_region_start(mask@, w, other) ==> {
                        let area = region_area(mask@, w, other);
                        area < best_area || (area == best_area && other <= best_start)
                    }
            },
        decreases mask.len() - at,
    {
        if mask[at] && labels[at] == 0 {
            let ghost before = labels@;
            proof {
                lemma_unlabelled_is_start(mask@, w, before, next, at as int);
            }
            let area: usize = fill(mask, width, &mut labels, at, next);
            proof {
                lemma_filled_marks(mask@, w, before, labels@, next, at as int);
                lemma_linked_self(mask@, w, at as int);
            }
            if best_label == 0 || area >= best_area {
                proof {
                    assert forall|other: int|
                        other < at + 1 && #[trigger] is_region_start(mask@, w, other) implies {
                        let other_area = region_area(mask@, w, other);
                        other_area < area || (other_area == area && other <= at)
                    } by {
                        if best_label == 0 && other < at {
                            assert(mask[other]);
                        }
                    }
                }
                best_label = next;
                best_start = at;
                best_area = area;
            } else {
                proof {
                    assert forall|p: int| 0 <= p < labels.len() implies (#[trigger] labels@[p]
                        == best_label <==> linked(mask@, w, best_start as int, p)) by {
                        assert(before[p] == best_label <==> linked(
                            mask@,
                            w,
                            best_start as int,
                            p,
                        ));
                        if labels@[p] == next {
                            lemma_unlabelled_stays(mask@, w, before, next, at as int, p);
                        }
                    }
                }
            }
            next = next + 1;
        } else {
            proof {
                if mask[at as int] {
                    lemma_labelled_is_no_start(mask@, w, labels@, next, at as int);
                    assert(best_label != 0);
                } else {
                    assert(!is_region_start(mask@, w, at as int));
                }
                assert(marks_regions(mask@, w, labels@, next, at + 1)) by {
                    assert forall|p: int| 0 <= p < labels.len() && #[trigger] labels@[p] != 0 implies exists|
                        s: int,
                    |
                        0 <= s < at + 1 && #[trigger] linked(mask@, w, s, p) by {
                        let s = choose|s: int| 0 <= s < at && #[trigger] linked(mask@, w, s, p);
                        assert(linked(mask@, w, s, p));
                    }
                }
            }
        }
        at = at + 1;
    }
    if best_label == 0 {
        return None;
    }
    let members: Vec<bool> = members_of(&labels, best_label);
    assert(mask[best_start as int]);
    Some(Region { start: best_start, area: best_area, members })
}

/// A pixel of a region without label had no label.
proof fn lemma_unlabelled_stays(
    mask: Seq<bool>,
    width: int,
    before: Seq<u32>,
    next: u32,
    at: int,
    p: int,
)
    requires
        marks_regions(mask, width, before, next, at),
        0 <= at < mask.len(),
        before[at] == 0,
        linked(mask, width, at, p),
    ensures
        before[p] == 0,
{
    let inside = |q: int| 0 <= q < before.len() && before[q] != 0;
    assert(is_closed(mask, width, inside)) by {
        assert forall|a: int, b: int|
            inside(a) && #[trigger] touches(width, mask.len() as int, a, b) && mask[b] implies inside(
            b,
        ) by {
            assert(before[a] != 0);
            assert(mask[a]);
        }
    }
    lemma_linked_in_range(mask, width, at, p);
    lemma_closed_links(mask, width, inside, at, p);
}

} // verus!
