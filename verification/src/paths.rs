//! Locations of files and folders as sequences of names.

use vstd::prelude::*;
use crate::order::{compare_chars, text_order, Order};
use crate::text::chars_of;

verus! {

/// What a path says: the anchor it starts from (empty for a relative path) and
/// the names that lead on from there.
#[verifier::ext_equal]
pub struct PathModel {
    pub anchor: Seq<char>,
    pub parts: Seq<Seq<char>>,
}

impl PathModel {
    /// The entry with the given name inside this folder.
    pub open spec fn join(self, name: Seq<char>) -> PathModel {
        PathModel { anchor: self.anchor, parts: self.parts.push(name) }
    }

    /// The folder that holds this entry.
    pub open spec fn parent(self) -> Option<PathModel> {
        if self.parts.len() == 0 {
            None
        } else {
            Some(PathModel { anchor: self.anchor, parts: self.parts.drop_last() })
        }
    }

    /// The name of this entry. A path that ends by going up names none.
    pub open spec fn file_name(self) -> Option<Seq<char>> {
        if self.parts.len() == 0 || self.parts.last() == ".."@ {
            None
        } else {
            Some(self.parts.last())
        }
    }

    /// Whether this path is `base` or lies below it.
    pub open spec fn is_under(self, base: PathModel) -> bool {
        &&& self.anchor == base.anchor
        &&& base.parts.len() <= self.parts.len()
        &&& self.parts.take(base.parts.len() as int) == base.parts
    }

    /// This path with the leading `from` replaced by `to`.
    pub open spec fn rebased(self, from: PathModel, to: PathModel) -> PathModel {
        PathModel {
            anchor: to.anchor,
            parts: to.parts + self.parts.skip(from.parts.len() as int),
        }
    }
}

/// The order of two lists of names, name by name.
pub open spec fn parts_order(left: Seq<Seq<char>>, right: Seq<Seq<char>>) -> Order
    decreases left.len(),
{
    if left.len() == 0 || right.len() == 0 {
        crate::order::int_order(left.len() as int, right.len() as int)
    } else {
        text_order(left[0], right[0]).chained(parts_order(left.drop_first(), right.drop_first()))
    }
}

/// The order of two paths: by anchor, then name by name.
pub open spec fn path_order(left: PathModel, right: PathModel) -> Order {
    text_order(left.anchor, right.anchor).chained(parts_order(left.parts, right.parts))
}

/// The location of a file or a folder.
#[derive(Debug)]
pub struct DocPath {
    pub anchor: String,
    pub parts: Vec<String>,
}

/// The characters of each text in a list.
pub open spec fn texts(list: Seq<String>) -> Seq<Seq<char>> {
    list.map_values(|text: String| text@)
}

pub proof fn lemma_texts_push(list: Seq<String>, text: String)
    ensures
        texts(list.push(text)) == texts(list).push(text@),
{
    assert(texts(list.push(text)) =~= texts(list).push(text@));
}

impl View for DocPath {
    type V = PathModel;

    open spec fn view(&self) -> PathModel {
        PathModel { anchor: self.anchor@, parts: texts(self.parts@) }
    }
}

/// A copy of a list of texts.
pub fn copy_texts(list: &Vec<String>) -> (r: Vec<String>)
    ensures
        texts(r@) == texts(list@),
{
    let mut result: Vec<String> = Vec::new();
    let mut i: usize = 0;
    while i < list.len()
        invariant
            i <= list.len(),
            texts(result@) == texts(list@).take(i as int),
        decreases list.len() - i,
    {
        let next: String = list[i].clone();
        proof {
            lemma_texts_push(result@, next);
        }
        result.push(next);
        i = i + 1;
        assert(texts(result@) =~= texts(list@).take(i as int));
    }
    assert(texts(list@).take(list.len() as int) =~= texts(list@));
    result
}

impl DocPath {
    pub fn new(anchor: &str, parts: Vec<String>) -> (r: DocPath)
        ensures
            r@ == (PathModel { anchor: anchor@, parts: texts(parts@) }),
    {
        DocPath { anchor: anchor.to_owned(), parts }
    }

    pub fn copy(&self) -> (r: DocPath)
        ensures
            r@ == self@,
    {
        DocPath { anchor: self.anchor.clone(), parts: copy_texts(&self.parts) }
    }

    pub fn join(&self, name: &str) -> (r: DocPath)
        ensures
            r@ == self@.join(name@),
    {
        let mut parts: Vec<String> = copy_texts(&self.parts);
        parts.push(name.to_owned());
        assert(texts(parts@) =~= texts(self.parts@).push(name@));
        DocPath { anchor: self.anchor.clone(), parts }
    }

    pub fn parent(&self) -> (r: Option<DocPath>)
        ensures
            r is Some == self@.parent() is Some,
            r matches Some(folder) ==> Some(folder@) == self@.parent(),
    {
        if self.parts.len() == 0 {
            None
        } else {
            let mut parts: Vec<String> = copy_texts(&self.parts);
            let ghost before = parts@;
            assert(texts(before).len() == before.len());
            parts.pop();
            assert(texts(parts@) =~= texts(before).drop_last());
            Some(DocPath { anchor: self.anchor.clone(), parts })
        }
    }

    pub fn file_name(&self) -> (r: Option<String>)
        ensures
            r is Some == self@.file_name() is Some,
            r matches Some(name) ==> Some(name@) == self@.file_name(),
    {
        if self.parts.len() == 0 {
            None
        } else {
            let name: String = self.parts[self.parts.len() - 1].clone();
            if name == "..".to_owned() {
                None
            } else {
                Some(name)
            }
        }
    }

    pub fn same(&self, other: &DocPath) -> (r: bool)
        ensures
            r == (self@ == other@),
    {
        if self.anchor != other.anchor || self.parts.len() != other.parts.len() {
            assert(self@.parts.len() == self.parts.len());
            assert(other@.parts.len() == other.parts.len());
            return false;
        }
        let mut i: usize = 0;
        while i < self.parts.len()
            invariant
                i <= self.parts.len(),
                self.parts.len() == other.parts.len(),
                forall|k: int| 0 <= k < i ==> #[trigger] self.parts[k]@ == other.parts[k]@,
            decreases self.parts.len() - i,
        {
            if self.parts[i] != other.parts[i] {
                assert(self@.parts[i as int] != other@.parts[i as int]);
                return false;
            }
            i = i + 1;
        }
        assert(self@.parts =~= other@.parts);
        true
    }

    /// The names below `base`, where this path is `base` or lies below it.
    pub fn strip_prefix(&self, base: &DocPath) -> (r: Option<Vec<String>>)
        ensures
            r is Some == self@.is_under(base@),
            r matches Some(rest) ==> texts(rest@) == self@.parts.skip(base@.parts.len() as int),
    {
        if self.anchor != base.anchor || base.parts.len() > self.parts.len() {
            return None;
        }
        let mut i: usize = 0;
        while i < base.parts.len()
            invariant
                i <= base.parts.len() <= self.parts.len(),
                forall|k: int| 0 <= k < i ==> #[trigger] self.parts[k]@ == base.parts[k]@,
            decreases base.parts.len() - i,
        {
            if self.parts[i] != base.parts[i] {
                assert(self@.parts.take(base@.parts.len() as int)[i as int] != base@.parts[i as int]);
                return None;
            }
            i = i + 1;
        }
        assert(self@.parts.take(base@.parts.len() as int) =~= base@.parts);
        let mut rest: Vec<String> = Vec::new();
        while i < self.parts.len()
            invariant
                base.parts.len() <= i <= self.parts.len(),
                texts(rest@) == self@.parts.subrange(base.parts.len() as int, i as int),
            decreases self.parts.len() - i,
        {
            let next: String = self.parts[i].clone();
            proof {
                lemma_texts_push(rest@, next);
            }
            rest.push(next);
            i = i + 1;
            assert(texts(rest@) =~= self@.parts.subrange(base.parts.len() as int, i as int));
        }
        assert(self@.parts.subrange(base.parts.len() as int, i as int) =~= self@.parts.skip(
            base@.parts.len() as int,
        ));
        Some(rest)
    }

    /// This path with the leading `from` replaced by `to`, where it starts so.
    pub fn rebase(&self, from: &DocPath, to: &DocPath) -> (r: Option<DocPath>)
        ensures
            r is Some == self@.is_under(from@),
            r matches Some(path) ==> path@ == self@.rebased(from@, to@),
    {
        match self.strip_prefix(from) {
            None => None,
            Some(rest) => {
                let mut parts: Vec<String> = copy_texts(&to.parts);
                let mut i: usize = 0;
                assert(texts(rest@).take(0) =~= Seq::<Seq<char>>::empty());
                assert(texts(parts@) =~= to@.parts + texts(rest@).take(0));
                while i < rest.len()
                    invariant
                        i <= rest.len(),
                        texts(parts@) == to@.parts + texts(rest@).take(i as int),
                    decreases rest.len() - i,
                {
                    let next: String = rest[i].clone();
                    proof {
                        lemma_texts_push(parts@, next);
                    }
                    parts.push(next);
                    i = i + 1;
                    assert(texts(parts@) =~= to@.parts + texts(rest@).take(i as int));
                }
                assert(texts(rest@).take(i as int) =~= texts(rest@));
                Some(DocPath { anchor: to.anchor.clone(), parts })
            },
        }
    }

    pub fn order(&self, other: &DocPath) -> (r: Order)
        ensures
            r == path_order(self@, other@),
    {
        let first: Order = compare_chars(&chars_of(&self.anchor), &chars_of(&other.anchor));
        match first {
            Order::Equal => {},
            _ => {
                return first;
            },
        }
        let ghost left = self@.parts;
        let ghost right = other@.parts;
        assert(left.skip(0) =~= left);
        assert(right.skip(0) =~= right);
        let mut i: usize = 0;
        while i < self.parts.len() && i < other.parts.len()
            invariant
                i <= self.parts.len(),
                i <= other.parts.len(),
                left == self@.parts,
                right == other@.parts,
                path_order(self@, other@) == parts_order(left, right),
                parts_order(left, right) == parts_order(left.skip(i as int), right.skip(i as int)),
            decreases self.parts.len() - i,
        {
            assert(left.skip(i as int).drop_first() =~= left.skip(i + 1));
            assert(right.skip(i as int).drop_first() =~= right.skip(i + 1));
            assert(left.skip(i as int)[0] == self.parts[i as int]@);
            assert(right.skip(i as int)[0] == other.parts[i as int]@);
            let next: Order = compare_chars(&chars_of(&self.parts[i]), &chars_of(&other.parts[i]));
            match next {
                Order::Equal => {},
                _ => {
                    return next;
                },
            }
            i = i + 1;
        }
        crate::order::compare_usize(self.parts.len(), other.parts.len())
    }
}

impl Clone for DocPath {
    fn clone(&self) -> (r: DocPath)
        ensures
            r@ == self@,
    {
        self.copy()
    }
}

impl PartialEq for DocPath {
    fn eq(&self, other: &DocPath) -> (r: bool) {
        self.same(other)
    }
}

impl vstd::std_specs::cmp::PartialEqSpecImpl for DocPath {
    open spec fn obeys_eq_spec() -> bool {
        true
    }

    open spec fn eq_spec(&self, other: &DocPath) -> bool {
        self@ == other@
    }
}

proof fn lemma_parts_order_mirror(left: Seq<Seq<char>>, right: Seq<Seq<char>>)
    ensures
        parts_order(right, left) == parts_order(left, right).mirrored(),
    decreases left.len(),
{
    if left.len() > 0 && right.len() > 0 {
        crate::order::lemma_text_order_mirror(left[0], right[0]);
        lemma_parts_order_mirror(left.drop_first(), right.drop_first());
    }
}

proof fn lemma_parts_order_transitive(a: Seq<Seq<char>>, b: Seq<Seq<char>>, c: Seq<Seq<char>>)
    requires
        parts_order(a, b) != Order::Greater,
        parts_order(b, c) != Order::Greater,
    ensures
        parts_order(a, c) != Order::Greater,
        parts_order(a, c) == Order::Equal ==> parts_order(a, b) == Order::Equal && parts_order(b, c)
            == Order::Equal,
    decreases a.len(),
{
    if a.len() > 0 && b.len() > 0 && c.len() > 0 {
        crate::order::lemma_text_order_transitive(a[0], b[0], c[0]);
        crate::order::lemma_text_order_equal(a[0], b[0]);
        crate::order::lemma_text_order_equal(b[0], c[0]);
        crate::order::lemma_text_order_equal(a[0], c[0]);
        if text_order(a[0], b[0]) == Order::Equal && text_order(b[0], c[0]) == Order::Equal {
            lemma_parts_order_transitive(a.drop_first(), b.drop_first(), c.drop_first());
        }
    }
}

/// Comparing two paths the other way round gives the mirrored outcome.
pub proof fn lemma_path_order_mirror(left: PathModel, right: PathModel)
    ensures
        path_order(right, left) == path_order(left, right).mirrored(),
{
    crate::order::lemma_text_order_mirror(left.anchor, right.anchor);
    lemma_parts_order_mirror(left.parts, right.parts);
}

/// The order of paths is transitive.
pub proof fn lemma_path_order_transitive(a: PathModel, b: PathModel, c: PathModel)
    requires
        path_order(a, b) != Order::Greater,
        path_order(b, c) != Order::Greater,
    ensures
        path_order(a, c) != Order::Greater,
        path_order(a, c) == Order::Equal ==> path_order(a, b) == Order::Equal && path_order(b, c)
            == Order::Equal,
{
    crate::order::lemma_text_order_transitive(a.anchor, b.anchor, c.anchor);
    crate::order::lemma_text_order_equal(a.anchor, b.anchor);
    crate::order::lemma_text_order_equal(b.anchor, c.anchor);
    crate::order::lemma_text_order_equal(a.anchor, c.anchor);
    if text_order(a.anchor, b.anchor) == Order::Equal && text_order(b.anchor, c.anchor)
        == Order::Equal {
        lemma_parts_order_transitive(a.parts, b.parts, c.parts);
    }
}

proof fn lemma_parts_order_equal(left: Seq<Seq<char>>, right: Seq<Seq<char>>)
    ensures
        parts_order(left, right) == Order::Equal <==> left == right,
    decreases left.len(),
{
    if left.len() == 0 || right.len() == 0 {
        if left.len() == right.len() {
            assert(left =~= right);
        }
    } else {
        crate::order::lemma_text_order_equal(left[0], right[0]);
        lemma_parts_order_equal(left.drop_first(), right.drop_first());
        if left[0] == right[0] && left.drop_first() == right.drop_first() {
            assert(left =~= seq![left[0]] + left.drop_first());
            assert(right =~= seq![right[0]] + right.drop_first());
        }
    }
}

/// Only equal paths rank equal.
pub proof fn lemma_path_order_equal(left: PathModel, right: PathModel)
    ensures
        path_order(left, right) == Order::Equal <==> left == right,
{
    crate::order::lemma_text_order_equal(left.anchor, right.anchor);
    lemma_parts_order_equal(left.parts, right.parts);
}

/// The places in a list of paths.
pub open spec fn path_models(paths: Seq<DocPath>) -> Seq<PathModel> {
    paths.map_values(|path: DocPath| path@)
}

/// A copy of a list of paths.
pub fn copy_paths(paths: &Vec<DocPath>) -> (r: Vec<DocPath>)
    ensures
        path_models(r@) == path_models(paths@),
{
    let mut copies: Vec<DocPath> = Vec::new();
    let mut i: usize = 0;
    while i < paths.len()
        invariant
            i <= paths.len(),
            copies.len() == i,
            forall|k: int| 0 <= k < i ==> #[trigger] copies[k]@ == paths[k]@,
        decreases paths.len() - i,
    {
        copies.push(paths[i].copy());
        i = i + 1;
    }
    assert(path_models(copies@) =~= path_models(paths@));
    copies
}

/// Whether two lists name the same places.
pub fn same_paths(left: &Vec<DocPath>, right: &Vec<DocPath>) -> (r: bool)
    ensures
        r == (path_models(left@) == path_models(right@)),
{
    if left.len() != right.len() {
        assert(path_models(left@).len() != path_models(right@).len());
        return false;
    }
    let mut i: usize = 0;
    while i < left.len()
        invariant
            i <= left.len(),
            left.len() == right.len(),
            forall|k: int| 0 <= k < i ==> #[trigger] left[k]@ == right[k]@,
        decreases left.len() - i,
    {
        if !left[i].same(&right[i]) {
            assert(path_models(left@)[i as int] != path_models(right@)[i as int]);
            return false;
        }
        i = i + 1;
    }
    assert(path_models(left@) =~= path_models(right@));
    true
}

} // verus!
