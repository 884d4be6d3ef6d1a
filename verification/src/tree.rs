//! A tree of values and a cursor that walks it. A position in the tree is the
//! list of child indices that leads to it from the root; every move gives a
//! walk result that holds the new cursor, or nothing when the move leaves the
//! tree, together with the last valid position.

use vstd::prelude::*;
use core::marker::PhantomData;

verus! {

/// Values that can be stored in tree nodes.
pub trait NodeValue {
    /// The type of value stored in the node.
    type Output: Clone;

    /// The value the node holds.
    spec fn held_value(&self) -> Self::Output;

    /// A copy of the node's value.
    fn clone_value(&self) -> (v: Self::Output)
        ensures
            cloned(self.held_value(), v),
    ;
}

/// A node value that wraps any cloneable value.
pub struct Node<T: Clone>(pub T);

impl<T: Clone> NodeValue for Node<T> {
    type Output = T;

    open spec fn held_value(&self) -> T {
        self.0
    }

    fn clone_value(&self) -> (v: T) {
        self.0.clone()
    }
}

/// A tree: a value and the subtrees below it, in order.
pub struct Tree<N: NodeValue> {
    pub value: N,
    pub children: Vec<Tree<N>>,
}

/// `p` leads from the root of `t` to one of its nodes.
pub open spec fn path_valid<N: NodeValue>(t: Tree<N>, p: Seq<usize>) -> bool
    decreases p.len(),
{
    p.len() == 0 || (p[0] < t.children@.len() && path_valid(t.children@[p[0] as int], p.drop_first()))
}

/// The subtree of `t` that `p` leads to.
pub open spec fn subtree<N: NodeValue>(t: Tree<N>, p: Seq<usize>) -> Tree<N>
    decreases p.len(),
{
    if p.len() > 0 && p[0] < t.children@.len() {
        subtree(t.children@[p[0] as int], p.drop_first())
    } else {
        t
    }
}

/// Number of generations of `t`: one for its root, plus those of its deepest child.
pub open spec fn height<N: NodeValue>(t: Tree<N>) -> nat
    decreases t, t.children@.len() + 1,
{
    1 + max_height(t, t.children@.len())
}

/// The most generations among the first `k` children of `t`.
pub open spec fn max_height<N: NodeValue>(t: Tree<N>, k: nat) -> nat
    decreases t, k,
{
    if k == 0 || k > t.children@.len() {
        0
    } else {
        proof {
            assert(decreases_to!(t => t.children));
            assert(decreases_to!(t.children => t.children@));
            assert(decreases_to!(t.children@ => t.children@[k - 1]));
        }
        let a = max_height(t, (k - 1) as nat);
        let b = height(t.children@[k - 1]);
        if a < b {
            b
        } else {
            a
        }
    }
}

/// Positions: lists of indices, one per dimension.
pub trait Coordinate {
    /// The indices, first dimension first.
    spec fn dims(&self) -> Seq<usize>;

    /// The index at dimension `n`.
    fn nth_dimension(&self, n: usize) -> (r: usize)
        requires
            n < self.dims().len(),
        ensures
            r == self.dims()[n as int],
    ;

    /// The index at the first dimension.
    fn first_dimension(&self) -> (r: usize)
        requires
            self.dims().len() > 0,
        ensures
            r == self.dims()[0],
    {
        self.nth_dimension(0)
    }

    /// The index at the last dimension.
    fn last_dimension(&self) -> (r: usize)
        requires
            self.dims().len() > 0,
        ensures
            r == self.dims().last(),
    {
        let last_dimension_is = self.dimension_count();
        self.nth_dimension(last_dimension_is - 1)
    }

    /// The number of dimensions.
    fn dimension_count(&self) -> (r: usize)
        ensures
            r == self.dims().len(),
    ;

    /// Sets the index at dimension `dim` to `value`.
    fn set_at(&mut self, dim: usize, value: usize)
        requires
            dim < old(self).dims().len(),
        ensures
            final(self).dims() == old(self).dims().update(dim as int, value),
    ;
}

/// A position in a tree: the child indices from the root.
pub struct TreePos {
    pub dims: Vec<usize>,
}

impl Coordinate for TreePos {
    open spec fn dims(&self) -> Seq<usize> {
        self.dims@
    }

    fn nth_dimension(&self, n: usize) -> (r: usize) {
        self.dims[n]
    }

    fn dimension_count(&self) -> (r: usize) {
        self.dims.len()
    }

    fn set_at(&mut self, dim: usize, value: usize) {
        self.dims.set(dim, value);
    }
}

fn copy_pos(p: &TreePos) -> (q: TreePos)
    ensures
        q.dims@ == p.dims@,
{
    let mut v: Vec<usize> = Vec::new();
    let mut i: usize = 0;
    while i < p.dims.len()
        invariant
            i <= p.dims@.len(),
            v@ == p.dims@.take(i as int),
        decreases p.dims@.len() - i,
    {
        v.push(p.dims[i]);
        assert(v@ =~= p.dims@.take(i + 1));
        i = i + 1;
    }
    assert(p.dims@.take(p.dims@.len() as int) =~= p.dims@);
    TreePos { dims: v }
}

/// The outcome of a move: the cursor after it, or nothing when the move failed,
/// and the last valid position.
pub struct WalkRslt<N: NodeValue, T, C: Coordinate> {
    pub marker: PhantomData<N>,
    pub tree: Option<T>,
    pub coord: C,
}

/// Outcomes of moves in a tree.
pub trait WalkTried: Sized {
    type N: NodeValue;
    type T;
    type C: Coordinate;

    /// The move succeeded.
    spec fn succeeded(&self) -> bool;

    /// The last valid position recorded by the outcome.
    spec fn valid_position(&self) -> Self::C;

    /// The cursor the outcome holds, if any.
    spec fn cursor(&self) -> Option<Self::T>;

    /// Whether the move succeeded.
    fn has_success(&self) -> (b: bool)
        ensures
            b == self.succeeded(),
    ;

    /// Whether the move failed: the opposite of `has_success`.
    fn has_failed(&self) -> (b: bool)
        ensures
            b == !self.succeeded(),
    {
        !self.has_success()
    }

    /// The last valid position.
    fn last_valid_coordinate(&self) -> (c: &Self::C)
        ensures
            *c == self.valid_position(),
    ;

    /// The cursor after the move, if it succeeded.
    fn current_tree(&self) -> (t: &Option<Self::T>)
        ensures
            t is Some <==> self.succeeded(),
            *t == self.cursor(),
    ;

    /// A successful outcome with cursor `tn` at `coord`.
    fn from(tn: Self::T, coord: Self::C) -> (w: Self)
        ensures
            w.succeeded(),
            w.cursor() == Some(tn),
            w.valid_position() == coord,
    ;
}

impl<N: NodeValue, T, C: Coordinate> WalkTried for WalkRslt<N, T, C> {
    type N = N;
    type T = T;
    type C = C;

    open spec fn succeeded(&self) -> bool {
        self.tree is Some
    }

    open spec fn valid_position(&self) -> C {
        self.coord
    }

    open spec fn cursor(&self) -> Option<T> {
        self.tree
    }

    fn has_success(&self) -> (b: bool) {
        self.tree.is_some()
    }

    fn last_valid_coordinate(&self) -> &C {
        &self.coord
    }

    fn current_tree(&self) -> (t: &Option<T>) {
        &self.tree
    }

    fn from(tn: T, coord: C) -> (w: Self) {
        WalkRslt { marker: PhantomData, tree: Some(tn), coord }
    }
}

/// A cursor in a tree: the tree, and the position of the current node.
pub struct Walker<'a, N: NodeValue> {
    pub tree: &'a Tree<N>,
    pub pos: TreePos,
}

/// The number of brothers of the node at `p` in `t`, itself included (the root
/// is its only brother).
pub open spec fn brothers_at<N: NodeValue>(t: Tree<N>, p: Seq<usize>) -> nat {
    if p.len() == 0 {
        1
    } else {
        subtree(t, p.drop_last()).children@.len()
    }
}

impl<'a, N: NodeValue> Walker<'a, N> {
    /// The cursor stands on a node of its tree.
    pub open spec fn placed(&self) -> bool {
        path_valid(*self.tree, self.pos.dims@)
    }

    /// The subtree under the cursor.
    pub open spec fn here(&self) -> Tree<N> {
        subtree(*self.tree, self.pos.dims@)
    }

    /// A cursor on the root of `tree`.
    pub fn new(tree: &'a Tree<N>) -> (w: Walker<'a, N>)
        ensures
            w.tree == tree,
            w.pos.dims@ == Seq::<usize>::empty(),
            w.placed(),
    {
        Walker { tree, pos: TreePos { dims: Vec::new() } }
    }

    /// A cursor on `tree` at position `p`.
    fn at(tree: &'a Tree<N>, p: TreePos) -> (w: Walker<'a, N>)
        ensures
            w.tree == tree,
            w.pos.dims@ == p.dims@,
    {
        Walker { tree, pos: p }
    }

    fn success(self) -> (r: WalkRslt<N, Walker<'a, N>, TreePos>)
        ensures
            r.tree matches Some(w) && w.tree == self.tree && w.pos.dims@ == self.pos.dims@,
            r.coord.dims@ == self.pos.dims@,
    {
        let coord = copy_pos(&self.pos);
        WalkRslt { marker: PhantomData, tree: Some(self), coord }
    }

    fn failure(&self) -> (r: WalkRslt<N, Walker<'a, N>, TreePos>)
        ensures
            r.tree is None,
            r.coord.dims@ == self.pos.dims@,
    {
        WalkRslt { marker: PhantomData, tree: None, coord: copy_pos(&self.pos) }
    }
}

proof fn lemma_path_prefix<N: NodeValue>(t: Tree<N>, p: Seq<usize>, k: int)
    requires
        path_valid(t, p),
        0 <= k <= p.len(),
    ensures
        path_valid(t, p.take(k)),
        path_valid(subtree(t, p.take(k)), p.skip(k)),
        subtree(subtree(t, p.take(k)), p.skip(k)) == subtree(t, p),
    decreases p.len(),
{
    if p.len() > 0 {
        if k > 0 {
            lemma_path_prefix(t.children@[p[0] as int], p.drop_first(), k - 1);
            assert(p.take(k).drop_first() =~= p.drop_first().take(k - 1));
            assert(p.skip(k) =~= p.drop_first().skip(k - 1));
        } else {
            assert(p.take(0) =~= Seq::<usize>::empty());
            assert(p.skip(0) =~= p);
        }
    } else {
        assert(p.take(k) =~= p);
        assert(p.skip(k) =~= p);
    }
}

/// Every child of a node is a node, with that child's subtree.
pub proof fn lemma_path_extend<N: NodeValue>(t: Tree<N>, p: Seq<usize>, c: usize)
    requires
        path_valid(t, p),
        c < subtree(t, p).children@.len(),
    ensures
        path_valid(t, p.push(c)),
        subtree(t, p.push(c)) == subtree(t, p).children@[c as int],
    decreases p.len(),
{
    let q = p.push(c);
    if p.len() > 0 {
        let child = t.children@[p[0] as int];
        assert(subtree(t, p) == subtree(child, p.drop_first()));
        lemma_path_extend(child, p.drop_first(), c);
        assert(q.drop_first() =~= p.drop_first().push(c));
        assert(q[0] == p[0]);
        assert(path_valid(child, q.drop_first()));
        assert(path_valid(t, q));
        assert(subtree(t, q) == subtree(child, q.drop_first()));
    } else {
        assert(q.drop_first() =~= Seq::<usize>::empty());
        assert(q[0] == c);
        let child = t.children@[c as int];
        assert(path_valid(child, q.drop_first()));
        assert(path_valid(t, q));
        assert(subtree(child, q.drop_first()) == child);
        assert(subtree(t, q) == subtree(child, q.drop_first()));
    }
}

/// Walking a tree: moving a cursor between its nodes and reading them.
pub trait TreeWalk<N: NodeValue>: Sized {
    /// The tree walked.
    spec fn walked(&self) -> Tree<N>;

    /// The position of the cursor.
    spec fn at(&self) -> Seq<usize>;

    /// The cursor stands on a node of the tree.
    spec fn on_node(&self) -> bool;

    /// The number of brothers of the current node, itself included.
    spec fn brother_total(&self) -> nat;

    /// The number of children of the current node.
    spec fn child_total(&self) -> nat;

    /// A cursor at the root.
    fn root(&self) -> (r: WalkRslt<N, Self, TreePos>)
        ensures
            r.tree matches Some(w) && w.walked() == self.walked() && w.at() == Seq::<
                usize,
            >::empty() && w.on_node(),
            r.coord.dims@ == Seq::<usize>::empty(),
    ;

    /// The cursor at the parent of the current node; fails at the root.
    fn parent(&self) -> (r: WalkRslt<N, Self, TreePos>)
        requires
            self.on_node(),
        ensures
            self.at().len() == 0 ==> r.tree is None && r.coord.dims@ == self.at(),
            self.at().len() > 0 ==> (r.tree matches Some(w) && w.walked() == self.walked() && w.at()
                == self.at().drop_last() && w.on_node() && r.coord.dims@ == w.at()),
    ;

    /// The cursor `n` generations up (`0` is the current node); fails, at the
    /// root, when there are fewer generations above.
    fn nth_ancestor(&self, n: usize) -> (r: WalkRslt<N, Self, TreePos>)
        requires
            self.on_node(),
        ensures
            n <= self.at().len() ==> (r.tree matches Some(w) && w.walked() == self.walked() && w.at()
                == self.at().take(self.at().len() - n) && w.on_node()),
            n > self.at().len() ==> r.tree is None && r.coord.dims@ == Seq::<usize>::empty(),
    {
        let mut res = self.as_walk_tried();
        let mut k: usize = 0;
        while k < n
            invariant
                k <= n,
                self.on_node(),
                k <= self.at().len() ==> (res.tree matches Some(w) && w.walked() == self.walked()
                    && w.at() == self.at().take(self.at().len() - k) && w.on_node()),
                k > self.at().len() ==> res.tree is None && res.coord.dims@ == Seq::<usize>::empty(),
            decreases n - k,
        {
            if res.tree.is_none() {
                return res;
            }
            let w = res.tree.unwrap();
            res = w.parent();
            proof {
                if k + 1 <= self.at().len() {
                    assert(self.at().take(self.at().len() - k).drop_last() =~= self.at().take(
                        self.at().len() - (k + 1),
                    ));
                } else {
                    assert(self.at().take(self.at().len() - k) =~= Seq::<usize>::empty());
                }
            }
            k = k + 1;
        }
        proof {
            if n == 0 {
                assert(self.at().take(self.at().len() as int) =~= self.at());
            }
        }
        res
    }

    /// The cursor at the `n`th brother of the current node, moving one brother
    /// at a time (the root is its own only brother); fails, at the current
    /// position, when there is no `n`th brother.
    fn nth_brother(&self, n: usize) -> (r: WalkRslt<N, Self, TreePos>)
        requires
            self.on_node(),
        ensures
            n < self.brother_total() && self.at().len() > 0 ==> (r.tree matches Some(w) && w.walked()
                == self.walked() && w.at() == self.at().update(self.at().len() - 1, n)
                && w.on_node()),
            n < self.brother_total() && self.at().len() == 0 ==> (r.tree matches Some(w)
                && w.walked() == self.walked() && w.at() == self.at() && w.on_node()),
            n >= self.brother_total() ==> r.tree is None && r.coord.dims@ == self.at(),
    {
        let count = self.brother_count();
        if n >= count {
            return WalkRslt { marker: PhantomData, tree: None, coord: self.get_pos() };
        }
        if !self.has_parent() {
            return self.as_walk_tried();
        }
        let ghost last = self.at().len() - 1;
        let mut cur = self.as_walk_tried().tree.unwrap();
        assert(cur.at() =~= self.at().update(last, self.at()[last]));
        while cur.get_pos().last_dimension() != n
            invariant
                self.on_node(),
                self.at().len() > 0,
                last == self.at().len() - 1,
                n < self.brother_total(),
                cur.walked() == self.walked(),
                cur.on_node(),
                cur.brother_total() == self.brother_total(),
                cur.at().len() == self.at().len(),
                cur.at() == self.at().update(last, cur.at()[last]),
            decreases (if cur.at()[last] < n {
                n - cur.at()[last]
            } else {
                cur.at()[last] - n
            }),
        {
            let j = cur.get_pos().last_dimension();
            if j < n {
                let next = cur.next_brother();
                cur = next.tree.unwrap();
                assert(cur.at() =~= self.at().update(last, cur.at()[last]));
            } else {
                let prev = cur.prev_brother();
                cur = prev.tree.unwrap();
                assert(cur.at() =~= self.at().update(last, cur.at()[last]));
            }
        }
        cur.as_walk_tried()
    }

    /// The cursor at the next brother; fails at the last brother and at the root.
    fn next_brother(&self) -> (r: WalkRslt<N, Self, TreePos>)
        requires
            self.on_node(),
        ensures
            self.at().len() > 0 && self.at().last() + 1 < self.brother_total() ==> (r.tree matches Some(
                w,
            ) && w.walked() == self.walked() && w.at() == self.at().update(
                self.at().len() - 1,
                (self.at().last() + 1) as usize,
            ) && w.on_node() && w.brother_total() == self.brother_total()),
            !(self.at().len() > 0 && self.at().last() + 1 < self.brother_total()) ==> r.tree is None
                && r.coord.dims@ == self.at(),
    ;

    /// The cursor at the previous brother; fails at the first brother and at the root.
    fn prev_brother(&self) -> (r: WalkRslt<N, Self, TreePos>)
        requires
            self.on_node(),
        ensures
            self.at().len() > 0 && self.at().last() > 0 ==> (r.tree matches Some(w) && w.walked()
                == self.walked() && w.at() == self.at().update(
                self.at().len() - 1,
                (self.at().last() - 1) as usize,
            ) && w.on_node() && w.brother_total() == self.brother_total()),
            !(self.at().len() > 0 && self.at().last() > 0) ==> r.tree is None && r.coord.dims@
                == self.at(),
    ;

    /// The cursor at the first brother (the root is its own first brother).
    fn first_brother(&self) -> (r: WalkRslt<N, Self, TreePos>)
        requires
            self.on_node(),
        ensures
            self.at().len() == 0 ==> (r.tree matches Some(w) && w.walked() == self.walked() && w.at()
                == self.at() && w.on_node()),
            self.at().len() > 0 ==> (r.tree matches Some(w) && w.walked() == self.walked() && w.at()
                == self.at().update(self.at().len() - 1, 0) && w.on_node()),
    ;

    /// The cursor at the last brother (the root is its own last brother).
    fn last_brother(&self) -> (r: WalkRslt<N, Self, TreePos>)
        requires
            self.on_node(),
        ensures
            self.at().len() == 0 ==> (r.tree matches Some(w) && w.walked() == self.walked() && w.at()
                == self.at() && w.on_node()),
            self.at().len() > 0 ==> (r.tree matches Some(w) && w.walked() == self.walked() && w.at()
                == self.at().update(self.at().len() - 1, (self.brother_total() - 1) as usize)
                && w.on_node()),
    ;

    /// The cursor at the `n`th child; fails when there are not that many children.
    fn nth_child(&self, n: usize) -> (r: WalkRslt<N, Self, TreePos>)
        requires
            self.on_node(),
        ensures
            r.tree is Some <==> n < self.child_total(),
            r.tree matches Some(w) ==> w.walked() == self.walked() && w.at() == self.at().push(n)
                && w.on_node(),
            r.tree is None ==> r.coord.dims@ == self.at(),
    ;

    /// The number of children of the current node.
    fn child_count(&self) -> (c: usize)
        requires
            self.on_node(),
        ensures
            c == self.child_total(),
    ;

    /// Whether the current node has children.
    fn has_child(&self) -> (b: bool)
        requires
            self.on_node(),
        ensures
            b == (self.child_total() > 0),
    ;

    /// Whether the current node has a parent (is not the root).
    fn has_parent(&self) -> (b: bool)
        ensures
            b == (self.at().len() > 0),
    ;

    /// The number of brothers of the current node, itself included.
    fn brother_count(&self) -> (c: usize)
        requires
            self.on_node(),
        ensures
            c == self.brother_total(),
    ;

    /// The position of the cursor.
    fn get_pos(&self) -> (p: TreePos)
        ensures
            p.dims@ == self.at(),
    ;

    /// A successful outcome at the current position.
    fn as_walk_tried(&self) -> (r: WalkRslt<N, Self, TreePos>)
        ensures
            r.tree matches Some(w) && w.walked() == self.walked() && w.at() == self.at() && (
            self.on_node() ==> w.on_node()) && w.brother_total() == self.brother_total(),
            r.coord.dims@ == self.at(),
    ;
}

fn node_at<'a, N: NodeValue>(t: &'a Tree<N>, p: &TreePos) -> (n: &'a Tree<N>)
    requires
        path_valid(*t, p.dims@),
    ensures
        *n == subtree(*t, p.dims@),
{
    let mut cur = t;
    let mut i: usize = 0;
    assert(p.dims@.skip(0) =~= p.dims@);
    while i < p.dims.len()
        invariant
            i <= p.dims@.len(),
            path_valid(*cur, p.dims@.skip(i as int)),
            subtree(*cur, p.dims@.skip(i as int)) == subtree(*t, p.dims@),
        decreases p.dims@.len() - i,
    {
        let ghost rest = p.dims@.skip(i as int);
        assert(rest.drop_first() =~= p.dims@.skip(i + 1));
        assert(rest[0] == p.dims@[i as int]);
        cur = &cur.children[p.dims[i]];
        i = i + 1;
    }
    assert(p.dims@.skip(p.dims@.len() as int) =~= Seq::<usize>::empty());
    cur
}

impl<'a, N: NodeValue> TreeWalk<N> for Walker<'a, N> {
    open spec fn walked(&self) -> Tree<N> {
        *self.tree
    }

    open spec fn at(&self) -> Seq<usize> {
        self.pos.dims@
    }

    open spec fn on_node(&self) -> bool {
        self.placed()
    }

    open spec fn brother_total(&self) -> nat {
        brothers_at(*self.tree, self.pos.dims@)
    }

    open spec fn child_total(&self) -> nat {
        subtree(*self.tree, self.pos.dims@).children@.len()
    }

    fn root(&self) -> (r: WalkRslt<N, Self, TreePos>) {
        Walker::new(self.tree).success()
    }

    fn parent(&self) -> (r: WalkRslt<N, Self, TreePos>) {
        let n = self.pos.dims.len();
        if n == 0 {
            return self.failure();
        }
        let mut p = copy_pos(&self.pos);
        p.dims.pop();
        proof {
            lemma_path_prefix(*self.tree, self.pos.dims@, n - 1);
            assert(self.pos.dims@.take(n - 1) =~= self.pos.dims@.drop_last());
        }
        Walker::at(self.tree, p).success()
    }

    fn next_brother(&self) -> (r: WalkRslt<N, Self, TreePos>) {
        let n = self.pos.dims.len();
        if n == 0 {
            return self.failure();
        }
        let last = self.pos.dims[n - 1];
        let count = self.brother_count();
        proof {
            let d = self.pos.dims@;
            lemma_path_prefix(*self.tree, d, n - 1);
            assert(d.take(n - 1) =~= d.drop_last());
            assert(d =~= d.drop_last().push(d.last()));
            lemma_path_parent_child(*self.tree, d.drop_last(), d.last());
        }
        if last + 1 >= count {
            return self.failure();
        }
        let mut p = copy_pos(&self.pos);
        p.dims.set(n - 1, last + 1);
        proof {
            let d = self.pos.dims@;
            lemma_path_prefix(*self.tree, d, n - 1);
            assert(d.take(n - 1) =~= d.drop_last());
            lemma_path_extend(*self.tree, d.drop_last(), (last + 1) as usize);
            assert(d.drop_last().push((last + 1) as usize) =~= p.dims@);
            assert(p.dims@.drop_last() =~= d.drop_last());
        }
        Walker::at(self.tree, p).success()
    }

    fn prev_brother(&self) -> (r: WalkRslt<N, Self, TreePos>) {
        let n = self.pos.dims.len();
        if n == 0 {
            return self.failure();
        }
        let last = self.pos.dims[n - 1];
        if last == 0 {
            return self.failure();
        }
        let mut p = copy_pos(&self.pos);
        p.dims.set(n - 1, last - 1);
        proof {
            let d = self.pos.dims@;
            lemma_path_prefix(*self.tree, d, n - 1);
            assert(d.take(n - 1) =~= d.drop_last());
            lemma_path_prefix(*self.tree, d, n as int);
            assert(d.take(n as int) =~= d);
            assert(d =~= d.drop_last().push(last));
            lemma_path_parent_child(*self.tree, d.drop_last(), last);
            lemma_path_extend(*self.tree, d.drop_last(), (last - 1) as usize);
            assert(d.drop_last().push((last - 1) as usize) =~= p.dims@);
            assert(p.dims@.drop_last() =~= d.drop_last());
        }
        Walker::at(self.tree, p).success()
    }

    fn first_brother(&self) -> (r: WalkRslt<N, Self, TreePos>) {
        let n = self.pos.dims.len();
        if n == 0 {
            return self.as_walk_tried();
        }
        let mut p = copy_pos(&self.pos);
        p.dims.set(n - 1, 0);
        proof {
            let d = self.pos.dims@;
            lemma_path_prefix(*self.tree, d, n - 1);
            assert(d.take(n - 1) =~= d.drop_last());
            assert(d =~= d.drop_last().push(d.last()));
            lemma_path_parent_child(*self.tree, d.drop_last(), d.last());
            lemma_path_extend(*self.tree, d.drop_last(), 0);
            assert(d.drop_last().push(0) =~= p.dims@);
        }
        Walker::at(self.tree, p).success()
    }

    fn last_brother(&self) -> (r: WalkRslt<N, Self, TreePos>) {
        let n = self.pos.dims.len();
        if n == 0 {
            return self.as_walk_tried();
        }
        let count = self.brother_count();
        let mut p = copy_pos(&self.pos);
        proof {
            let d = self.pos.dims@;
            lemma_path_prefix(*self.tree, d, n - 1);
            assert(d.take(n - 1) =~= d.drop_last());
            assert(d =~= d.drop_last().push(d.last()));
            lemma_path_parent_child(*self.tree, d.drop_last(), d.last());
        }
        p.dims.set(n - 1, count - 1);
        proof {
            let d = self.pos.dims@;
            lemma_path_extend(*self.tree, d.drop_last(), (count - 1) as usize);
            assert(d.drop_last().push((count - 1) as usize) =~= p.dims@);
        }
        Walker::at(self.tree, p).success()
    }

    fn nth_child(&self, n: usize) -> (r: WalkRslt<N, Self, TreePos>) {
        let node = node_at(self.tree, &self.pos);
        if n >= node.children.len() {
            return self.failure();
        }
        let mut p = copy_pos(&self.pos);
        p.dims.push(n);
        proof {
            lemma_path_extend(*self.tree, self.pos.dims@, n);
        }
        Walker::at(self.tree, p).success()
    }

    fn child_count(&self) -> (c: usize) {
        node_at(self.tree, &self.pos).children.len()
    }

    fn has_child(&self) -> (b: bool) {
        self.child_count() > 0
    }

    fn has_parent(&self) -> (b: bool) {
        self.pos.dims.len() > 0
    }

    fn brother_count(&self) -> (c: usize) {
        let n = self.pos.dims.len();
        if n == 0 {
            return 1;
        }
        let mut p = copy_pos(&self.pos);
        p.dims.pop();
        proof {
            lemma_path_prefix(*self.tree, self.pos.dims@, n - 1);
            assert(self.pos.dims@.take(n - 1) =~= self.pos.dims@.drop_last());
        }
        node_at(self.tree, &p).children.len()
    }

    fn get_pos(&self) -> (p: TreePos) {
        copy_pos(&self.pos)
    }

    fn as_walk_tried(&self) -> (r: WalkRslt<N, Self, TreePos>) {
        let w = Walker::at(self.tree, copy_pos(&self.pos));
        assert(w.pos.dims@ == self.pos.dims@ && w.tree == self.tree);
        assert(w.brother_total() == self.brother_total());
        w.success()
    }
}

/// The parent of a node is a node, and the node is one of its children: moving
/// to a child and then to the parent returns to where the walk started.
pub proof fn lemma_path_parent_child<N: NodeValue>(t: Tree<N>, p: Seq<usize>, c: usize)
    requires
        path_valid(t, p.push(c)),
    ensures
        path_valid(t, p),
        c < subtree(t, p).children@.len(),
        p.push(c).drop_last() == p,
    decreases p.len(),
{
    assert(p.push(c).drop_last() =~= p);
    if p.len() > 0 {
        assert(p.push(c).drop_first() =~= p.drop_first().push(c));
        lemma_path_parent_child(t.children@[p[0] as int], p.drop_first(), c);
    } else {
        assert(p.push(c) =~= seq![c]);
        assert(seq![c].drop_first() =~= Seq::<usize>::empty());
    }
}

/// Walks that also give views of the children and the brothers of a node.
pub trait TreeWindow<N: NodeValue>: TreeWalk<N> {
    /// A cursor on the first child; fails at a leaf.
    fn children(&self) -> (r: WalkRslt<N, Self, TreePos>)
        requires
            self.on_node(),
        ensures
            r.tree is Some <==> self.child_total() > 0,
            r.tree matches Some(w) ==> w.walked() == self.walked() && w.at() == self.at().push(0)
                && w.on_node(),
    ;

    /// A cursor on the first brother.
    fn brothers(&self) -> (r: WalkRslt<N, Self, TreePos>)
        requires
            self.on_node(),
        ensures
            r.tree matches Some(w) && w.walked() == self.walked() && w.on_node(),
            self.at().len() == 0 ==> (r.tree matches Some(w) && w.at() == self.at()),
            self.at().len() > 0 ==> (r.tree matches Some(w) && w.at() == self.at().update(
                self.at().len() - 1,
                0,
            )),
    ;
}

impl<'a, N: NodeValue> TreeWindow<N> for Walker<'a, N> {
    fn children(&self) -> (r: WalkRslt<N, Self, TreePos>) {
        self.nth_child(0)
    }

    fn brothers(&self) -> (r: WalkRslt<N, Self, TreePos>) {
        self.first_brother()
    }
}

impl<'a, N: NodeValue> Walker<'a, N> {
    /// The value of the current node.
    pub fn value(&self) -> (v: N::Output)
        requires
            self.placed(),
        ensures
            cloned(self.here().value.held_value(), v),
    {
        node_at(self.tree, &self.pos).value.clone_value()
    }

    /// The number of generations of the subtree under the cursor.
    pub fn generation_count(&self) -> (c: usize)
        requires
            self.placed(),
            height(self.here()) <= usize::MAX,
        ensures
            c == height(self.here()),
    {
        height_of(node_at(self.tree, &self.pos))
    }

    /// Moves the cursor to `coordinate` if it names a node of the tree; fails otherwise.
    pub fn set_pos(&self, coordinate: &TreePos) -> (r: WalkRslt<N, Walker<'a, N>, TreePos>)
        requires
            self.placed(),
        ensures
            path_valid(*self.tree, coordinate.dims@) ==> (r.tree matches Some(w) && w.tree
                == self.tree && w.pos.dims@ == coordinate.dims@),
            !path_valid(*self.tree, coordinate.dims@) ==> r.tree is None && r.coord.dims@
                == self.pos.dims@,
    {
        if valid_path(self.tree, coordinate) {
            Walker::at(self.tree, copy_pos(coordinate)).success()
        } else {
            self.failure()
        }
    }
}

fn valid_path<N: NodeValue>(t: &Tree<N>, p: &TreePos) -> (b: bool)
    ensures
        b == path_valid(*t, p.dims@),
{
    let mut cur = t;
    let mut i: usize = 0;
    assert(p.dims@.skip(0) =~= p.dims@);
    while i < p.dims.len()
        invariant
            i <= p.dims@.len(),
            path_valid(*t, p.dims@) == path_valid(*cur, p.dims@.skip(i as int)),
        decreases p.dims@.len() - i,
    {
        let ghost rest = p.dims@.skip(i as int);
        assert(rest.drop_first() =~= p.dims@.skip(i + 1));
        assert(rest[0] == p.dims@[i as int]);
        if p.dims[i] >= cur.children.len() {
            return false;
        }
        cur = &cur.children[p.dims[i]];
        i = i + 1;
    }
    assert(p.dims@.skip(p.dims@.len() as int) =~= Seq::<usize>::empty());
    true
}

fn height_of<N: NodeValue>(t: &Tree<N>) -> (h: usize)
    requires
        height(*t) <= usize::MAX,
    ensures
        h == height(*t),
    decreases *t,
{
    let mut best: usize = 0;
    let mut k: usize = 0;
    while k < t.children.len()
        invariant
            k <= t.children@.len(),
            best == max_height(*t, k as nat),
            height(*t) <= usize::MAX,
            height(*t) == 1 + max_height(*t, t.children@.len()),
        decreases t.children@.len() - k,
    {
        proof {
            lemma_max_height_mono(*t, (k + 1) as nat, t.children@.len());
            assert(height(t.children@[k as int]) <= max_height(*t, (k + 1) as nat));
        }
        assert(decreases_to!(*t => t.children@[k as int])) by {
            assert(decreases_to!(*t => t.children));
            assert(decreases_to!(t.children => t.children@));
            assert(decreases_to!(t.children@ => t.children@[k as int]));
        }
        let h = height_of(&t.children[k]);
        if best < h {
            best = h;
        }
        k = k + 1;
    }
    best + 1
}

proof fn lemma_max_height_mono<N: NodeValue>(t: Tree<N>, a: nat, b: nat)
    requires
        a <= b <= t.children@.len(),
    ensures
        max_height(t, a) <= max_height(t, b),
    decreases b,
{
    if a < b {
        lemma_max_height_mono(t, a, (b - 1) as nat);
    }
}

} // verus!
