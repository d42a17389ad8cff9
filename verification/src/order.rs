//! Three-way comparison, the order of texts, and a stable merge sort.

use vstd::prelude::*;

verus! {

/// The outcome of comparing two values.
#[derive(Debug, Clone, Copy, PartialEq, Eq, Structural)]
pub enum Order {
    Less,
    Equal,
    Greater,
}

impl Order {
    pub open spec fn mirrored(self) -> Order {
        match self {
            Order::Less => Order::Greater,
            Order::Equal => Order::Equal,
            Order::Greater => Order::Less,
        }
    }

    /// This outcome, or the second one where this one is a tie.
    pub open spec fn chained(self, second: Order) -> Order {
        if self == Order::Equal {
            second
        } else {
            self
        }
    }

    pub fn mirror(self) -> (r: Order)
        ensures
            r == self.mirrored(),
    {
        match self {
            Order::Less => Order::Greater,
            Order::Equal => Order::Equal,
            Order::Greater => Order::Less,
        }
    }
}

pub open spec fn int_order(left: int, right: int) -> Order {
    if left < right {
        Order::Less
    } else if left == right {
        Order::Equal
    } else {
        Order::Greater
    }
}

/// The lexicographic order of two texts by the code points of their characters.
pub open spec fn text_order(left: Seq<char>, right: Seq<char>) -> Order
    decreases left.len(),
{
    if left.len() == 0 || right.len() == 0 {
        int_order(left.len() as int, right.len() as int)
    } else {
        int_order(left[0] as int, right[0] as int).chained(
            text_order(left.drop_first(), right.drop_first()),
        )
    }
}

pub fn compare_u64(left: u64, right: u64) -> (r: Order)
    ensures
        r == int_order(left as int, right as int),
{
    if left < right {
        Order::Less
    } else if left == right {
        Order::Equal
    } else {
        Order::Greater
    }
}

pub fn compare_usize(left: usize, right: usize) -> (r: Order)
    ensures
        r == int_order(left as int, right as int),
{
    if left < right {
        Order::Less
    } else if left == right {
        Order::Equal
    } else {
        Order::Greater
    }
}

/// Compares two texts given as their characters.
pub fn compare_chars(left: &[char], right: &[char]) -> (r: Order)
    ensures
        r == text_order(left@, right@),
{
    let mut i: usize = 0;
    proof {
        assert(left@.skip(0) =~= left@);
        assert(right@.skip(0) =~= right@);
    }
    while i < left.len() && i < right.len()
        invariant
            i <= left.len(),
            i <= right.len(),
            text_order(left@, right@) == text_order(left@.skip(i as int), right@.skip(i as int)),
        decreases left.len() - i,
    {
        let left_char: char = left[i];
        let right_char: char = right[i];
        assert(left@.skip(i as int).drop_first() =~= left@.skip(i + 1));
        assert(right@.skip(i as int).drop_first() =~= right@.skip(i + 1));
        if left_char < right_char {
            return Order::Less;
        }
        if left_char > right_char {
            return Order::Greater;
        }
        i = i + 1;
    }
    compare_usize(left.len(), right.len())
}

pub proof fn lemma_text_order_mirror(left: Seq<char>, right: Seq<char>)
    ensures
        text_order(right, left) == text_order(left, right).mirrored(),
    decreases left.len(),
{
    if left.len() > 0 && right.len() > 0 {
        lemma_text_order_mirror(left.drop_first(), right.drop_first());
    }
}

pub proof fn lemma_text_order_equal(left: Seq<char>, right: Seq<char>)
    ensures
        text_order(left, right) == Order::Equal <==> left == right,
    decreases left.len(),
{
    if left.len() > 0 && right.len() > 0 {
        lemma_text_order_equal(left.drop_first(), right.drop_first());
        if left[0] == right[0] && left.drop_first() == right.drop_first() {
            assert(left =~= seq![left[0]] + left.drop_first());
            assert(right =~= seq![right[0]] + right.drop_first());
        }
    } else if left.len() == right.len() {
        assert(left =~= right);
    }
}

pub proof fn lemma_text_order_transitive(a: Seq<char>, b: Seq<char>, c: Seq<char>)
    requires
        text_order(a, b) != Order::Greater,
        text_order(b, c) != Order::Greater,
    ensures
        text_order(a, c) != Order::Greater,
        text_order(a, c) == Order::Equal ==> text_order(a, b) == Order::Equal && text_order(b, c)
            == Order::Equal,
    decreases a.len(),
{
    if a.len() > 0 && b.len() > 0 && c.len() > 0 {
        if a[0] == b[0] && b[0] == c[0] {
            lemma_text_order_transitive(a.drop_first(), b.drop_first(), c.drop_first());
        }
    }
}

/// A total preorder on values.
pub trait Ranking<T>: Sized {
    spec fn order(&self, a: &T, b: &T) -> Order;

    proof fn order_mirror(&self, a: &T, b: &T)
        ensures
            self.order(b, a) == self.order(a, b).mirrored(),
    ;

    proof fn order_transitive(&self, a: &T, b: &T, c: &T)
        requires
            self.order(a, b) != Order::Greater,
            self.order(b, c) != Order::Greater,
        ensures
            self.order(a, c) != Order::Greater,
            self.order(a, c) == Order::Equal ==> self.order(a, b) == Order::Equal && self.order(b, c)
                == Order::Equal,
    ;

    fn compare(&self, a: &T, b: &T) -> (r: Order)
        ensures
            r == self.order(a, b),
    ;
}

/// Whether the outcomes of comparing a with b, b with c, and a with c can
/// stand together in a total preorder.
pub open spec fn consistent(ab: Order, bc: Order, ac: Order) -> bool {
    &&& ab != Order::Greater && bc != Order::Greater ==> ac != Order::Greater && (ac == Order::Equal
        ==> ab == Order::Equal && bc == Order::Equal)
    &&& ab != Order::Less && bc != Order::Less ==> ac != Order::Less && (ac == Order::Equal ==> ab
        == Order::Equal && bc == Order::Equal)
    &&& ab == Order::Equal ==> ac == bc
    &&& bc == Order::Equal ==> ac == ab
}

pub proof fn lemma_text_order_consistent(a: Seq<char>, b: Seq<char>, c: Seq<char>)
    ensures
        consistent(text_order(a, b), text_order(b, c), text_order(a, c)),
{
    lemma_text_order_mirror(a, b);
    lemma_text_order_mirror(b, c);
    lemma_text_order_mirror(a, c);
    lemma_text_order_equal(a, b);
    lemma_text_order_equal(b, c);
    if text_order(a, b) != Order::Greater && text_order(b, c) != Order::Greater {
        lemma_text_order_transitive(a, b, c);
    }
    if text_order(a, b) != Order::Less && text_order(b, c) != Order::Less {
        lemma_text_order_transitive(c, b, a);
    }
}

/// Whether item `i` comes before item `j` in a stable sort: it is smaller, or
/// it ties and stood earlier.
pub open spec fn sorts_before<T, R: Ranking<T>>(ranking: R, items: Seq<T>, i: int, j: int) -> bool {
    let order = ranking.order(&items[i], &items[j]);
    order == Order::Less || (order == Order::Equal && i < j)
}

/// The indices of `items` from `low` to `high`, each once, in stable sorted order.
pub open spec fn sorted_indices<T, R: Ranking<T>>(
    ranking: R,
    items: Seq<T>,
    low: int,
    high: int,
    indices: Seq<usize>,
) -> bool {
    &&& indices.len() == high - low
    &&& forall|k: int| 0 <= k < indices.len() ==> low <= #[trigger] indices[k] < high
    &&& forall|k: int, l: int|
        0 <= k < l < indices.len() ==> sorts_before(
            ranking,
            items,
            #[trigger] indices[k] as int,
            #[trigger] indices[l] as int,
        )
}

proof fn lemma_before_transitive<T, R: Ranking<T>>(ranking: R, items: Seq<T>, i: int, j: int, k: int)
    requires
        sorts_before(ranking, items, i, j),
        sorts_before(ranking, items, j, k),
    ensures
        sorts_before(ranking, items, i, k),
{
    ranking.order_transitive(&items[i], &items[j], &items[k]);
}

fn merge<T, R: Ranking<T>>(
    ranking: &R,
    items: &Vec<T>,
    left: &Vec<usize>,
    right: &Vec<usize>,
    Ghost(low): Ghost<int>,
    Ghost(middle): Ghost<int>,
    Ghost(high): Ghost<int>,
) -> (r: Vec<usize>)
    requires
        0 <= low <= middle <= high <= items.len(),
        sorted_indices(*ranking, items@, low, middle, left@),
        sorted_indices(*ranking, items@, middle, high, right@),
    ensures
        sorted_indices(*ranking, items@, low, high, r@),
{
    let mut result: Vec<usize> = Vec::new();
    let mut i: usize = 0;
    let mut j: usize = 0;
    while i < left.len() || j < right.len()
        invariant
            0 <= low <= middle <= high <= items.len(),
            sorted_indices(*ranking, items@, low, middle, left@),
            sorted_indices(*ranking, items@, middle, high, right@),
            i <= left.len(),
            j <= right.len(),
            result.len() == i + j,
            forall|k: int| 0 <= k < result.len() ==> low <= #[trigger] result[k] < high,
            forall|k: int, l: int|
                0 <= k < l < result.len() ==> sorts_before(
                    *ranking,
                    items@,
                    #[trigger] result[k] as int,
                    #[trigger] result[l] as int,
                ),
            forall|k: int, l: int|
                0 <= k < result.len() && i <= l < left.len() ==> sorts_before(
                    *ranking,
                    items@,
                    #[trigger] result[k] as int,
                    #[trigger] left[l] as int,
                ),
            forall|k: int, l: int|
                0 <= k < result.len() && j <= l < right.len() ==> sorts_before(
                    *ranking,
                    items@,
                    #[trigger] result[k] as int,
                    #[trigger] right[l] as int,
                ),
        decreases left.len() - i + right.len() - j,
    {
        let take_left: bool = if i >= left.len() {
            false
        } else if j >= right.len() {
            true
        } else {
            match ranking.compare(&items[left[i]], &items[right[j]]) {
                Order::Greater => false,
                _ => true,
            }
        };
        if take_left {
            let next: usize = left[i];
            proof {
                if j < right.len() {
                    assert(sorts_before(*ranking, items@, next as int, right[j as int] as int));
                }
                assert forall|l: int| j <= l < right.len() implies sorts_before(
                    *ranking,
                    items@,
                    next as int,
                    #[trigger] right[l] as int,
                ) by {
                    if l > j {
                        assert(sorts_before(*ranking, items@, right[j as int] as int, right[l] as int));
                        lemma_before_transitive(*ranking, items@, next as int, right[j as int] as int, right[l] as int);
                    }
                }
                assert forall|l: int| i < l < left.len() implies sorts_before(
                    *ranking,
                    items@,
                    next as int,
                    #[trigger] left[l] as int,
                ) by {
                    assert(sorts_before(*ranking, items@, left[i as int] as int, left[l] as int));
                }
            }
            result.push(next);
            i = i + 1;
        } else {
            let next: usize = right[j];
            proof {
                if i < left.len() {
                    ranking.order_mirror(&items[left[i as int] as int], &items[right[j as int] as int]);
                    assert(sorts_before(*ranking, items@, next as int, left[i as int] as int));
                }
                assert forall|l: int| i <= l < left.len() implies sorts_before(
                    *ranking,
                    items@,
                    next as int,
                    #[trigger] left[l] as int,
                ) by {
                    if l > i {
                        assert(sorts_before(*ranking, items@, left[i as int] as int, left[l] as int));
                        lemma_before_transitive(*ranking, items@, next as int, left[i as int] as int, left[l] as int);
                    }
                }
                assert forall|l: int| j < l < right.len() implies sorts_before(
                    *ranking,
                    items@,
                    next as int,
                    #[trigger] right[l] as int,
                ) by {
                    assert(sorts_before(*ranking, items@, right[j as int] as int, right[l] as int));
                }
            }
            result.push(next);
            j = j + 1;
        }
    }
    result
}

fn sort_range<T, R: Ranking<T>>(ranking: &R, items: &Vec<T>, low: usize, high: usize) -> (r: Vec<usize>)
    requires
        low <= high <= items.len(),
    ensures
        sorted_indices(*ranking, items@, low as int, high as int, r@),
    decreases high - low,
{
    if high - low == 0 {
        Vec::new()
    } else if high - low == 1 {
        let mut single: Vec<usize> = Vec::new();
        single.push(low);
        single
    } else {
        let middle: usize = low + (high - low) / 2;
        let left: Vec<usize> = sort_range(ranking, items, low, middle);
        let right: Vec<usize> = sort_range(ranking, items, middle, high);
        merge(ranking, items, &left, &right, Ghost(low as int), Ghost(middle as int), Ghost(high as int))
    }
}

/// Sorts stably in O(n log n) comparisons, giving the indices of the items in
/// their sorted order.
pub fn sort_stably<T, R: Ranking<T>>(ranking: &R, items: &Vec<T>) -> (r: Vec<usize>)
    ensures
        sorted_indices(*ranking, items@, 0, items.len() as int, r@),
{
    sort_range(ranking, items, 0, items.len())
}

} // verus!
