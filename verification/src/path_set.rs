//! A set of paths, listed in their order.

use vstd::prelude::*;
use crate::order::Order;
use crate::paths::{
    lemma_path_order_equal, lemma_path_order_mirror, lemma_path_order_transitive, path_models,
    path_order, DocPath, PathModel,
};

verus! {

/// Paths without repetition.
#[derive(Debug)]
pub struct PathSet {
    paths: Vec<DocPath>,
}

/// Whether paths stand in their order, each once.
pub open spec fn in_order(paths: Seq<PathModel>) -> bool {
    forall|i: int, j: int|
        0 <= i < j < paths.len() ==> path_order(#[trigger] paths[i], #[trigger] paths[j])
            == Order::Less
}

impl View for PathSet {
    type V = Set<PathModel>;

    closed spec fn view(&self) -> Set<PathModel> {
        path_models(self.paths@).to_set()
    }
}

impl PathSet {
    /// The paths in their order.
    pub closed spec fn listed(self) -> Seq<PathModel> {
        path_models(self.paths@)
    }

    pub open spec fn wf(self) -> bool {
        in_order(self.listed())
    }

    /// The listing holds what the set holds.
    pub proof fn lemma_listed(self)
        ensures
            self@ == self.listed().to_set(),
    {
    }

    pub fn new() -> (r: PathSet)
        ensures
            r.wf(),
            r@ == Set::<PathModel>::empty(),
            r.listed().len() == 0,
    {
        let set: PathSet = PathSet { paths: Vec::new() };
        assert(set@ =~= Set::<PathModel>::empty());
        set
    }

    pub fn len(&self) -> (r: usize)
        ensures
            r == self.listed().len(),
    {
        self.paths.len()
    }

    /// The paths in their order.
    pub fn list(&self) -> (r: Vec<DocPath>)
        ensures
            path_models(r@) == self.listed(),
    {
        let mut list: Vec<DocPath> = Vec::new();
        let mut i: usize = 0;
        while i < self.paths.len()
            invariant
                i <= self.paths.len(),
                list.len() == i,
                forall|k: int| 0 <= k < i ==> #[trigger] list[k]@ == self.paths[k]@,
            decreases self.paths.len() - i,
        {
            list.push(self.paths[i].copy());
            i = i + 1;
        }
        assert(path_models(list@) =~= self.listed());
        list
    }

    /// The first path.
    pub fn first(&self) -> (r: Option<DocPath>)
        ensures
            r is None <==> self.listed().len() == 0,
            r matches Some(path) ==> path@ == self.listed()[0],
    {
        if self.paths.len() == 0 {
            None
        } else {
            Some(self.paths[0].copy())
        }
    }

    /// Where a path stands or would stand.
    fn place_of(&self, path: &DocPath) -> (r: usize)
        requires
            self.wf(),
        ensures
            r <= self.listed().len(),
            forall|k: int|
                0 <= k < r ==> path_order(#[trigger] self.listed()[k], path@) == Order::Less,
            forall|k: int|
                r <= k < self.listed().len() ==> path_order(#[trigger] self.listed()[k], path@)
                    != Order::Less,
    {
        let ghost list = self.listed();
        let mut at: usize = 0;
        while at < self.paths.len()
            invariant
                at <= self.paths.len(),
                list == self.listed(),
                in_order(list),
                forall|k: int| 0 <= k < at ==> path_order(#[trigger] list[k], path@) == Order::Less,
            decreases self.paths.len() - at,
        {
            match self.paths[at].order(path) {
                Order::Less => {},
                _ => {
                    proof {
                        assert forall|k: int| at <= k < list.len() implies path_order(
                            #[trigger] list[k],
                            path@,
                        ) != Order::Less by {
                            if k > at {
                                assert(path_order(list[at as int], list[k]) == Order::Less);
                                lemma_not_less(list[at as int], list[k], path@);
                            }
                        }
                    }
                    return at;
                },
            }
            at = at + 1;
        }
        at
    }

    pub fn contains(&self, path: &DocPath) -> (r: bool)
        requires
            self.wf(),
        ensures
            r == self@.contains(path@),
    {
        let at: usize = self.place_of(path);
        let found: bool = at < self.paths.len() && self.paths[at].same(path);
        proof {
            lemma_membership(self.listed(), path@, at as int);
            assert(found ==> self.listed()[at as int] == path@);
        }
        found
    }

    /// Adds a path; whether it is new comes back.
    pub fn insert(&mut self, path: DocPath) -> (r: bool)
        requires
            old(self).wf(),
        ensures
            final(self).wf(),
            final(self)@ == old(self)@.insert(path@),
            r == !old(self)@.contains(path@),
    {
        let at: usize = self.place_of(&path);
        let ghost before = self.listed();
        proof {
            lemma_membership(before, path@, at as int);
        }
        if at < self.paths.len() && self.paths[at].same(&path) {
            assert(before[at as int] == path@);
            assert(self@ =~= self@.insert(path@));
            return false;
        }
        let ghost added = path@;
        self.paths.insert(at, path);
        let ghost after = self.listed();
        proof {
            assert(after =~= before.insert(at as int, added));
            assert forall|i: int, j: int| 0 <= i < j < after.len() implies path_order(
                #[trigger] after[i],
                #[trigger] after[j],
            ) == Order::Less by {
                let a = if i < at {
                    i
                } else {
                    i - 1
                };
                let b = if j < at {
                    j
                } else {
                    j - 1
                };
                if j == at {
                    assert(after[i] == before[i]);
                } else if i == at {
                    assert(after[j] == before[j - 1]);
                    lemma_greater(before[j - 1], added);
                } else {
                    assert(after[i] == before[a] && after[j] == before[b]);
                }
            }
            lemma_insert_set(before, at as int, added);
        }
        true
    }

    /// Takes a path out; whether it was there comes back.
    pub fn remove(&mut self, path: &DocPath) -> (r: bool)
        requires
            old(self).wf(),
        ensures
            final(self).wf(),
            final(self)@ == old(self)@.remove(path@),
            r == old(self)@.contains(path@),
    {
        let at: usize = self.place_of(path);
        let ghost before = self.listed();
        proof {
            lemma_membership(before, path@, at as int);
        }
        if at < self.paths.len() && self.paths[at].same(path) {
            assert(before[at as int] == path@);
            self.paths.remove(at);
            let ghost after = self.listed();
            proof {
                assert(after =~= before.remove(at as int));
                lemma_remove_set(before, at as int);
            }
            true
        } else {
            assert(self@ =~= self@.remove(path@));
            false
        }
    }

    pub fn clear(&mut self)
        ensures
            final(self).wf(),
            final(self)@ == Set::<PathModel>::empty(),
            final(self).listed().len() == 0,
    {
        self.paths.clear();
        assert(self@ =~= Set::<PathModel>::empty());
    }
}

proof fn lemma_not_less(a: PathModel, b: PathModel, path: PathModel)
    requires
        path_order(a, b) == Order::Less,
        path_order(a, path) != Order::Less,
    ensures
        path_order(b, path) != Order::Less,
{
    if path_order(b, path) == Order::Less {
        lemma_path_order_transitive(a, b, path);
        lemma_path_order_equal(a, path);
        if a == path {
            lemma_path_order_mirror(a, b);
        }
    }
}

proof fn lemma_greater(later: PathModel, path: PathModel)
    requires
        path_order(later, path) != Order::Less,
        later != path,
    ensures
        path_order(path, later) == Order::Less,
{
    lemma_path_order_equal(later, path);
    lemma_path_order_mirror(later, path);
}

/// A path is in an ordered list only at its own place.
proof fn lemma_membership(list: Seq<PathModel>, path: PathModel, at: int)
    requires
        in_order(list),
        0 <= at <= list.len(),
        forall|k: int| 0 <= k < at ==> path_order(#[trigger] list[k], path) == Order::Less,
        forall|k: int|
            at <= k < list.len() ==> path_order(#[trigger] list[k], path) != Order::Less,
    ensures
        list.to_set().contains(path) <==> at < list.len() && list[at] == path,
        at < list.len() && list[at] != path ==> forall|k: int|
            at <= k < list.len() ==> #[trigger] list[k] != path,
{
    lemma_path_order_equal(path, path);
    if at < list.len() && list[at] == path {
        assert(list.contains(path));
    }
    assert forall|k: int| 0 <= k < list.len() && #[trigger] list[k] == path implies k == at by {
        if k < at {
            assert(path_order(list[k], path) == Order::Less);
        } else if k > at {
            assert(path_order(list[at], list[k]) == Order::Less);
            assert(path_order(list[at], path) != Order::Less);
        }
    }
}

proof fn lemma_insert_set(list: Seq<PathModel>, at: int, path: PathModel)
    requires
        0 <= at <= list.len(),
    ensures
        list.insert(at, path).to_set() == list.to_set().insert(path),
{
    let more = list.insert(at, path);
    assert forall|p: PathModel| more.to_set().contains(p) <==> list.to_set().insert(path).contains(
        p,
    ) by {
        if more.contains(p) {
            let k = choose|k: int| 0 <= k < more.len() && more[k] == p;
            if k < at {
                assert(list[k] == p);
            } else if k > at {
                assert(list[k - 1] == p);
            }
        }
        if list.contains(p) {
            let k = choose|k: int| 0 <= k < list.len() && list[k] == p;
            if k < at {
                assert(more[k] == p);
            } else {
                assert(more[k + 1] == p);
            }
        }
        if p == path {
            assert(more[at] == p);
        }
    }
    assert(more.to_set() =~= list.to_set().insert(path));
}

proof fn lemma_distinct(list: Seq<PathModel>, i: int, j: int)
    requires
        in_order(list),
        0 <= i < list.len(),
        0 <= j < list.len(),
        list[i] == list[j],
    ensures
        i == j,
{
    lemma_path_order_equal(list[i], list[j]);
    if i < j {
        assert(path_order(list[i], list[j]) == Order::Less);
    } else if j < i {
        assert(path_order(list[j], list[i]) == Order::Less);
    }
}

proof fn lemma_remove_set(list: Seq<PathModel>, at: int)
    requires
        in_order(list),
        0 <= at < list.len(),
    ensures
        list.remove(at).to_set() == list.to_set().remove(list[at]),
        in_order(list.remove(at)),
{
    let rest = list.remove(at);
    let path = list[at];
    assert forall|p: PathModel| rest.to_set().contains(p) <==> list.to_set().remove(path).contains(
        p,
    ) by {
        if rest.contains(p) {
            let k = choose|k: int| 0 <= k < rest.len() && rest[k] == p;
            let from = if k < at {
                k
            } else {
                k + 1
            };
            assert(list[from] == p);
            if p == path {
                lemma_distinct(list, from, at);
            }
        }
        if list.contains(p) && p != path {
            let k = choose|k: int| 0 <= k < list.len() && list[k] == p;
            if k < at {
                assert(rest[k] == p);
            } else {
                assert(rest[k - 1] == p);
            }
        }
    }
    assert(rest.to_set() =~= list.to_set().remove(path));
    assert forall|i: int, j: int| 0 <= i < j < rest.len() implies path_order(
        #[trigger] rest[i],
        #[trigger] rest[j],
    ) == Order::Less by {
        let a = if i < at {
            i
        } else {
            i + 1
        };
        let b = if j < at {
            j
        } else {
            j + 1
        };
        assert(rest[i] == list[a] && rest[j] == list[b]);
    }
}

/// A set of paths is listed in one way only.
pub proof fn law_listing_is_determined(left: Seq<PathModel>, right: Seq<PathModel>)
    requires
        in_order(left),
        in_order(right),
        left.to_set() == right.to_set(),
    ensures
        left == right,
    decreases left.len(),
{
    if left.len() == 0 {
        if right.len() > 0 {
            assert(right.contains(right[0]));
            assert(left.to_set().contains(right[0]));
        }
        assert(left =~= right);
    } else {
        assert(left.contains(left[left.len() - 1]));
        assert(right.to_set().contains(left.last()));
        let j = choose|j: int| 0 <= j < right.len() && right[j] == left.last();
        assert(right.contains(right[right.len() - 1]));
        assert(left.to_set().contains(right.last()));
        let i = choose|i: int| 0 <= i < left.len() && left[i] == right.last();
        if j < right.len() - 1 {
            assert(path_order(right[j], right.last()) == Order::Less);
            lemma_path_order_mirror(right[j], right.last());
            lemma_path_order_equal(right[j], right.last());
            if i < left.len() - 1 {
                assert(path_order(left[i], left.last()) == Order::Less);
            }
        }
        assert(left.last() == right.last());
        lemma_remove_set(left, left.len() - 1);
        lemma_remove_set(right, right.len() - 1);
        assert(left.remove(left.len() - 1) =~= left.drop_last());
        assert(right.remove(right.len() - 1) =~= right.drop_last());
        law_listing_is_determined(left.drop_last(), right.drop_last());
        assert(left =~= left.drop_last().push(left.last()));
        assert(right =~= right.drop_last().push(right.last()));
    }
}

} // verus!
