//! Pane identifiers and the directions used by the pane layout engine.

pub mod header;
pub mod interaction;

use vstd::prelude::*;

verus! {

/// Unique identifier for a terminal pane.
#[derive(Debug, Clone, Copy, PartialEq, Eq, Hash, Structural)]
pub struct PaneId(pub u32);

/// Source of fresh pane identifiers: hands out 1, 2, 3, ... in order.
pub struct PaneIdGenerator {
    next: u32,
}

impl PaneIdGenerator {
    /// The value that the next call of `PaneId::next` hands out.
    pub closed spec fn next_value(&self) -> u32 {
        self.next
    }

    /// The value after `v` in the sequence of identifiers (wrapping after
    /// `u32::MAX`, as an atomic `fetch_add` does).
    pub open spec fn advanced(v: u32) -> u32 {
        if v == u32::MAX {
            0
        } else {
            (v + 1) as u32
        }
    }

    /// A generator whose first identifier is 1.
    pub fn new() -> (g: Self)
        ensures
            g.next_value() == 1,
    {
        PaneIdGenerator { next: 1 }
    }

    /// Restart the sequence at 1.
    pub fn reset_counter(&mut self)
        ensures
            final(self).next_value() == 1,
    {
        self.next = 1;
    }
}

impl PaneId {
    /// Generate a new pane id: the generator's current value, after which the
    /// generator moves on by one (wrapping after `u32::MAX`, as an atomic
    /// `fetch_add` does).
    pub fn next(generator: &mut PaneIdGenerator) -> (id: PaneId)
        ensures
            id.0 == old(generator).next_value(),
            final(generator).next_value() == PaneIdGenerator::advanced(old(generator).next_value()),
    {
        let id = generator.next;
        generator.next = if generator.next == u32::MAX {
            0
        } else {
            generator.next + 1
        };
        PaneId(id)
    }
}

/// Identifiers drawn one after the other from the same generator differ
/// and increase, as long as the counter has not reached `u32::MAX`: the
/// generator's value after a draw is above the identifier drawn.
pub proof fn lemma_pane_ids_increase(drawn: u32)
    requires
        drawn < u32::MAX,
    ensures
        drawn < PaneIdGenerator::advanced(drawn),
{
}

/// Direction of a split in the pane tree.
#[derive(Debug, Clone, Copy, PartialEq, Eq, Structural)]
pub enum SplitDirection {
    /// Horizontal split: panes stacked top/bottom.
    Horizontal,
    /// Vertical split: panes side by side left/right.
    Vertical,
}

/// Result of a remove_leaf operation.
#[derive(Debug, PartialEq, Eq, Structural)]
pub enum RemoveResult {
    /// The node itself was the target and should be replaced by its parent.
    RemovedSelf,
    /// The target was found and removed within this subtree.
    Removed,
    /// The target was not found in this subtree.
    NotFound,
}

/// Direction for focus navigation.
#[derive(Debug, Clone, Copy, PartialEq, Eq, Structural)]
pub enum FocusDirection {
    Up,
    Down,
    Left,
    Right,
}

/// Bit pattern of `0.5f32`, the ratio of a fresh split.
pub const HALF_RATIO_BITS: u32 = 0x3F00_0000;

/// A node in the binary pane tree.
#[derive(Debug)]
pub enum PaneNode {
    /// A leaf node containing a terminal pane.
    Leaf { id: PaneId },
    /// An internal split node with two children. `ratio_bits` is the
    /// IEEE-754 bit pattern (`f32::to_bits`) of the share of the first child.
    Split {
        direction: SplitDirection,
        ratio_bits: u32,
        first: Box<PaneNode>,
        second: Box<PaneNode>,
    },
}

// ── Sequence helpers for the leaf order ──────────────────────────────

/// `s` with `y` inserted right after the first occurrence of `x` (unchanged
/// when `x` does not occur).
pub open spec fn insert_after_first(s: Seq<u32>, x: u32, y: u32) -> Seq<u32>
    decreases s.len(),
{
    if s.len() == 0 {
        s
    } else if s[0] == x {
        seq![x, y] + s.drop_first()
    } else {
        seq![s[0]] + insert_after_first(s.drop_first(), x, y)
    }
}

/// `s` without the first occurrence of `x` (unchanged when `x` does not occur).
pub open spec fn remove_first(s: Seq<u32>, x: u32) -> Seq<u32>
    decreases s.len(),
{
    if s.len() == 0 {
        s
    } else if s[0] == x {
        s.drop_first()
    } else {
        seq![s[0]] + remove_first(s.drop_first(), x)
    }
}

proof fn lemma_insert_after_first_concat(a: Seq<u32>, b: Seq<u32>, x: u32, y: u32)
    ensures
        insert_after_first(a + b, x, y) == if a.contains(x) {
            insert_after_first(a, x, y) + b
        } else {
            a + insert_after_first(b, x, y)
        },
    decreases a.len(),
{
    if a.len() == 0 {
        assert(a + b =~= b);
    } else {
        assert((a + b).drop_first() =~= a.drop_first() + b);
        lemma_insert_after_first_concat(a.drop_first(), b, x, y);
        if a[0] == x {
            assert(a.contains(x));
            assert(insert_after_first(a + b, x, y) =~= insert_after_first(a, x, y) + b);
        } else {
            assert(a.contains(x) == a.drop_first().contains(x)) by {
                if a.contains(x) {
                    let k = choose|k: int| 0 <= k < a.len() && a[k] == x;
                    assert(a.drop_first()[k - 1] == x);
                }
                if a.drop_first().contains(x) {
                    let k = choose|k: int| 0 <= k < a.drop_first().len() && a.drop_first()[k] == x;
                    assert(a[k + 1] == x);
                }
            }
            if a.contains(x) {
                assert(insert_after_first(a + b, x, y) =~= insert_after_first(a, x, y) + b);
            } else {
                assert(insert_after_first(a + b, x, y) =~= a + insert_after_first(b, x, y));
            }
        }
    }
}

proof fn lemma_remove_first_concat(a: Seq<u32>, b: Seq<u32>, x: u32)
    ensures
        remove_first(a + b, x) == if a.contains(x) {
            remove_first(a, x) + b
        } else {
            a + remove_first(b, x)
        },
    decreases a.len(),
{
    if a.len() == 0 {
        assert(a + b =~= b);
    } else {
        assert((a + b).drop_first() =~= a.drop_first() + b);
        lemma_remove_first_concat(a.drop_first(), b, x);
        if a[0] == x {
            assert(a.contains(x));
            assert(remove_first(a + b, x) =~= remove_first(a, x) + b);
        } else {
            assert(a.contains(x) == a.drop_first().contains(x)) by {
                if a.contains(x) {
                    let k = choose|k: int| 0 <= k < a.len() && a[k] == x;
                    assert(a.drop_first()[k - 1] == x);
                }
                if a.drop_first().contains(x) {
                    let k = choose|k: int| 0 <= k < a.drop_first().len() && a.drop_first()[k] == x;
                    assert(a[k + 1] == x);
                }
            }
            if a.contains(x) {
                assert(remove_first(a + b, x) =~= remove_first(a, x) + b);
            } else {
                assert(remove_first(a + b, x) =~= a + remove_first(b, x));
            }
        }
    }
}

// ── Tree model ───────────────────────────────────────────────────────

impl PaneNode {
    /// The pane ids of the leaves, left to right.
    pub open spec fn leaves(self) -> Seq<u32>
        decreases self,
    {
        match self {
            PaneNode::Leaf { id } => seq![id.0],
            PaneNode::Split { first, second, .. } => first.leaves() + second.leaves(),
        }
    }

    /// Number of split nodes.
    pub open spec fn split_count(self) -> nat
        decreases self,
    {
        match self {
            PaneNode::Leaf { .. } => 0,
            PaneNode::Split { first, second, .. } => 1 + first.split_count() + second.split_count(),
        }
    }

    /// The tree after splitting the first leaf with id `target`: that leaf
    /// becomes an even split (ratio 0.5) of itself and a new leaf `new_id`.
    pub open spec fn split_spec(self, target: u32, new_id: u32, direction: SplitDirection) -> PaneNode
        decreases self,
    {
        match self {
            PaneNode::Leaf { id } => if id.0 == target {
                PaneNode::Split {
                    direction,
                    ratio_bits: HALF_RATIO_BITS,
                    first: Box::new(PaneNode::Leaf { id }),
                    second: Box::new(PaneNode::Leaf { id: PaneId(new_id) }),
                }
            } else {
                self
            },
            PaneNode::Split { direction: d, ratio_bits, first, second } => if first.leaves().contains(target) {
                PaneNode::Split { direction: d, ratio_bits, first: Box::new(first.split_spec(target, new_id, direction)), second }
            } else {
                PaneNode::Split { direction: d, ratio_bits, first, second: Box::new(second.split_spec(target, new_id, direction)) }
            },
        }
    }

    /// The tree after removing the first leaf with id `target`, and what
    /// happened: a split whose child is that leaf is replaced by its other
    /// child; a leaf that is the target reports `RemovedSelf` and stays.
    pub open spec fn remove_spec(self, target: u32) -> (PaneNode, RemoveResult)
        decreases self,
    {
        match self {
            PaneNode::Leaf { id } => if id.0 == target {
                (self, RemoveResult::RemovedSelf)
            } else {
                (self, RemoveResult::NotFound)
            },
            PaneNode::Split { direction, ratio_bits, first, second } => {
                let (f2, r1) = first.remove_spec(target);
                match r1 {
                    RemoveResult::RemovedSelf => (*second, RemoveResult::Removed),
                    RemoveResult::Removed => (PaneNode::Split { direction, ratio_bits, first: Box::new(f2), second }, RemoveResult::Removed),
                    RemoveResult::NotFound => {
                        let (s2, r2) = second.remove_spec(target);
                        match r2 {
                            RemoveResult::RemovedSelf => (*first, RemoveResult::Removed),
                            _ => (PaneNode::Split { direction, ratio_bits, first, second: Box::new(s2) }, r2),
                        }
                    },
                }
            },
        }
    }

    /// The tree with the ratio of the split at pre-order position `k` set to
    /// `bits` (unchanged when there is no such split).
    pub open spec fn set_ratio_spec(self, k: int, bits: u32) -> PaneNode
        decreases self,
    {
        match self {
            PaneNode::Leaf { .. } => self,
            PaneNode::Split { direction, ratio_bits, first, second } => if k == 0 {
                PaneNode::Split { direction, ratio_bits: bits, first, second }
            } else if k - 1 < first.split_count() {
                PaneNode::Split { direction, ratio_bits, first: Box::new(first.set_ratio_spec(k - 1, bits)), second }
            } else {
                PaneNode::Split { direction, ratio_bits, first, second: Box::new(second.set_ratio_spec(k - 1 - first.split_count(), bits)) }
            },
        }
    }
}

/// A tree always has at least one leaf.
pub proof fn lemma_leaves_nonempty(node: PaneNode)
    ensures
        node.leaves().len() >= 1,
    decreases node,
{
    match node {
        PaneNode::Leaf { .. } => {},
        PaneNode::Split { first, second, .. } => {
            lemma_leaves_nonempty(*first);
            lemma_leaves_nonempty(*second);
        },
    }
}

/// A tree is a single leaf exactly when it has one pane.
pub proof fn lemma_single_leaf(node: PaneNode)
    ensures
        node.leaves().len() >= 1,
        (node is Leaf) <==> node.leaves().len() == 1,
{
    lemma_leaves_nonempty(node);
    match node {
        PaneNode::Leaf { .. } => {},
        PaneNode::Split { first, second, .. } => {
            lemma_leaves_nonempty(*first);
            lemma_leaves_nonempty(*second);
        },
    }
}

/// Splitting inserts the new id right after the target in the leaf order.
pub proof fn lemma_split_leaves(node: PaneNode, target: u32, new_id: u32, direction: SplitDirection)
    ensures
        node.split_spec(target, new_id, direction).leaves() == insert_after_first(node.leaves(), target, new_id),
    decreases node,
{
    match node {
        PaneNode::Leaf { id } => {
            if id.0 == target {
                let l = PaneNode::Leaf { id };
                let r = PaneNode::Leaf { id: PaneId(new_id) };
                assert(l.leaves() =~= seq![target]);
                assert(r.leaves() =~= seq![new_id]);
                assert(node.split_spec(target, new_id, direction).leaves() =~= seq![target] + seq![new_id]);
                assert(seq![target] + seq![new_id] =~= seq![target, new_id]);
                assert(seq![id.0].drop_first() =~= Seq::<u32>::empty());
                assert(seq![target, new_id] + Seq::<u32>::empty() =~= seq![target, new_id]);
            } else {
                assert(seq![id.0].drop_first() =~= Seq::<u32>::empty());
                assert(insert_after_first(Seq::<u32>::empty(), target, new_id) =~= Seq::<u32>::empty());
                assert(insert_after_first(seq![id.0], target, new_id) =~= seq![id.0]);
            }
        },
        PaneNode::Split { first, second, .. } => {
            lemma_split_leaves(*first, target, new_id, direction);
            lemma_split_leaves(*second, target, new_id, direction);
            lemma_insert_after_first_concat(first.leaves(), second.leaves(), target, new_id);
        },
    }
}

/// Removal takes the first occurrence of the target out of the leaf order;
/// the result says whether the node itself was the target, whether the
/// target was found, or neither.
pub proof fn lemma_remove_leaves(node: PaneNode, target: u32)
    ensures
        node.remove_spec(target).1 == RemoveResult::NotFound <==> !node.leaves().contains(target),
        node.remove_spec(target).1 == RemoveResult::RemovedSelf <==> node == (PaneNode::Leaf { id: PaneId(target) }),
        node.remove_spec(target).1 == RemoveResult::Removed ==> node.remove_spec(target).0.leaves() == remove_first(node.leaves(), target),
        node.remove_spec(target).1 != RemoveResult::Removed ==> node.remove_spec(target).0 == node,
    decreases node,
{
    match node {
        PaneNode::Leaf { id } => {
            if id.0 != target {
                assert(!seq![id.0].contains(target)) by {
                    if seq![id.0].contains(target) {
                        let k = choose|k: int| 0 <= k < 1 && seq![id.0][k] == target;
                    }
                }
            } else {
                assert(seq![id.0][0] == target);
            }
        },
        PaneNode::Split { direction, ratio_bits, first, second } => {
            lemma_remove_leaves(*first, target);
            lemma_remove_leaves(*second, target);
            lemma_leaves_nonempty(*first);
            lemma_leaves_nonempty(*second);
            lemma_remove_first_concat(first.leaves(), second.leaves(), target);
            let fl = first.leaves();
            let sl = second.leaves();
            assert((fl + sl).contains(target) <==> fl.contains(target) || sl.contains(target)) by {
                if (fl + sl).contains(target) {
                    let k = choose|k: int| 0 <= k < (fl + sl).len() && (fl + sl)[k] == target;
                    if k < fl.len() {
                        assert(fl[k] == target);
                    } else {
                        assert(sl[k - fl.len()] == target);
                    }
                }
                if fl.contains(target) {
                    let k = choose|k: int| 0 <= k < fl.len() && fl[k] == target;
                    assert((fl + sl)[k] == target);
                }
                if sl.contains(target) {
                    let k = choose|k: int| 0 <= k < sl.len() && sl[k] == target;
                    assert((fl + sl)[k + fl.len()] == target);
                }
            }
            if first.remove_spec(target).1 == RemoveResult::RemovedSelf {
                assert(fl =~= seq![target]);
                assert(remove_first(seq![target], target) =~= Seq::<u32>::empty());
                assert(Seq::<u32>::empty() + sl =~= sl);
            } else if first.remove_spec(target).1 == RemoveResult::NotFound {
                if second.remove_spec(target).1 == RemoveResult::RemovedSelf {
                    assert(sl =~= seq![target]);
                    assert(remove_first(seq![target], target) =~= Seq::<u32>::empty());
                    assert(fl + Seq::<u32>::empty() =~= fl);
                }
            }
        },
    }
}


/// Setting the ratio of a split leaves the leaf order and the number of
/// splits as they were.
pub proof fn lemma_set_ratio_keeps_shape(node: PaneNode, k: int, bits: u32)
    ensures
        node.set_ratio_spec(k, bits).leaves() == node.leaves(),
        node.set_ratio_spec(k, bits).split_count() == node.split_count(),
        !(0 <= k < node.split_count()) ==> node.set_ratio_spec(k, bits) == node,
    decreases node,
{
    match node {
        PaneNode::Leaf { .. } => {},
        PaneNode::Split { first, second, .. } => {
            lemma_set_ratio_keeps_shape(*first, k - 1, bits);
            lemma_set_ratio_keeps_shape(*second, k - 1 - first.split_count(), bits);
        },
    }
}

/// The ids of a list of panes, in order.
pub open spec fn pane_id_values(ids: Seq<PaneId>) -> Seq<u32> {
    ids.map_values(|p: PaneId| p.0)
}

impl PaneNode {
    /// Create a new leaf node.
    pub fn leaf(id: PaneId) -> (node: Self)
        ensures
            node == (PaneNode::Leaf { id }),
    {
        PaneNode::Leaf { id }
    }

    /// Create a new split node; `ratio_bits` is the bit pattern of the share
    /// of the first child.
    pub fn split(direction: SplitDirection, ratio_bits: u32, first: PaneNode, second: PaneNode) -> (node: Self)
        ensures
            node == (PaneNode::Split { direction, ratio_bits, first: Box::new(first), second: Box::new(second) }),
    {
        PaneNode::Split { direction, ratio_bits, first: Box::new(first), second: Box::new(second) }
    }

    /// Check if this node is a leaf.
    pub fn is_leaf(&self) -> (b: bool)
        ensures
            b == (*self is Leaf),
    {
        match self {
            PaneNode::Leaf { .. } => true,
            PaneNode::Split { .. } => false,
        }
    }

    /// Get the pane ID if this is a leaf node.
    pub fn pane_id(&self) -> (r: Option<PaneId>)
        ensures
            r == (match *self {
                PaneNode::Leaf { id } => Some(id),
                PaneNode::Split { .. } => None::<PaneId>,
            }),
    {
        match self {
            PaneNode::Leaf { id } => Some(*id),
            PaneNode::Split { .. } => None,
        }
    }

    /// Count the number of leaf nodes in this subtree.
    pub fn leaf_count(&self) -> (n: usize)
        requires
            self.leaves().len() <= usize::MAX,
        ensures
            n == self.leaves().len(),
        decreases self,
    {
        match self {
            PaneNode::Leaf { .. } => 1,
            PaneNode::Split { first, second, .. } => {
                proof {
                    lemma_leaves_nonempty(**first);
                    lemma_leaves_nonempty(**second);
                }
                first.leaf_count() + second.leaf_count()
            },
        }
    }

    /// Collect all leaf PaneIds in this subtree, left to right.
    pub fn leaf_ids(&self) -> (ids: Vec<PaneId>)
        ensures
            pane_id_values(ids@) == self.leaves(),
        decreases self,
    {
        match self {
            PaneNode::Leaf { id } => {
                let ids = vec![*id];
                proof {
                    assert(pane_id_values(ids@) =~= seq![id.0]);
                }
                ids
            },
            PaneNode::Split { first, second, .. } => {
                let mut ids = first.leaf_ids();
                let mut rest = second.leaf_ids();
                let ghost a = ids@;
                let ghost b = rest@;
                ids.append(&mut rest);
                proof {
                    assert(pane_id_values(a + b) =~= pane_id_values(a) + pane_id_values(b));
                }
                ids
            },
        }
    }

    fn split_owned(node: PaneNode, target: PaneId, direction: SplitDirection, generator: &mut PaneIdGenerator) -> (res: (PaneNode, Option<PaneId>))
        ensures
            node.leaves().contains(target.0) ==> {
                &&& res.0 == node.split_spec(target.0, old(generator).next_value(), direction)
                &&& res.1 == Some(PaneId(old(generator).next_value()))
                &&& final(generator).next_value() == PaneIdGenerator::advanced(old(generator).next_value())
            },
            !node.leaves().contains(target.0) ==> {
                &&& res.0 == node
                &&& res.1 == None::<PaneId>
                &&& final(generator).next_value() == old(generator).next_value()
            },
        decreases node,
    {
        match node {
            PaneNode::Leaf { id } => {
                proof {
                    assert(node.leaves()[0] == id.0);
                    if node.leaves().contains(target.0) {
                        let k = choose|k: int| 0 <= k < node.leaves().len() && node.leaves()[k] == target.0;
                        assert(k == 0);
                    }
                }
                if id.0 == target.0 {
                    let new_id = PaneId::next(generator);
                    let kept = PaneNode::leaf(id);
                    let new_pane = PaneNode::leaf(new_id);
                    (PaneNode::split(direction, HALF_RATIO_BITS, kept, new_pane), Some(new_id))
                } else {
                    (PaneNode::Leaf { id }, None)
                }
            },
            PaneNode::Split { direction: d, ratio_bits, first, second } => {
                let ghost fl = first.leaves();
                let ghost sl = second.leaves();
                proof {
                    lemma_concat_contains(fl, sl, target.0);
                }
                let (f2, r1) = Self::split_owned(*first, target, direction, generator);
                match r1 {
                    Some(id) => {
                        (PaneNode::Split { direction: d, ratio_bits, first: Box::new(f2), second }, Some(id))
                    },
                    None => {
                        let (s2, r2) = Self::split_owned(*second, target, direction, generator);
                        (PaneNode::Split { direction: d, ratio_bits, first: Box::new(f2), second: Box::new(s2) }, r2)
                    },
                }
            },
        }
    }

    /// Find and split the first leaf with the given id: it becomes an even
    /// split of itself and a new pane whose id the generator hands out.
    /// Returns the new pane id if the leaf was found; otherwise nothing
    /// changes and no id is drawn.
    pub fn split_leaf(&mut self, target: PaneId, direction: SplitDirection, generator: &mut PaneIdGenerator) -> (r: Option<PaneId>)
        ensures
            old(self).leaves().contains(target.0) ==> {
                &&& *final(self) == old(self).split_spec(target.0, old(generator).next_value(), direction)
                &&& r == Some(PaneId(old(generator).next_value()))
                &&& final(generator).next_value() == PaneIdGenerator::advanced(old(generator).next_value())
            },
            !old(self).leaves().contains(target.0) ==> {
                &&& *final(self) == *old(self)
                &&& r == None::<PaneId>
                &&& final(generator).next_value() == old(generator).next_value()
            },
    {
        let mut node = PaneNode::Leaf { id: PaneId(0) };
        core::mem::swap(&mut node, self);
        let (n, r) = Self::split_owned(node, target, direction, generator);
        *self = n;
        r
    }

    fn remove_owned(node: PaneNode, target: PaneId) -> (res: (PaneNode, RemoveResult))
        ensures
            res == node.remove_spec(target.0),
        decreases node,
    {
        match node {
            PaneNode::Leaf { id } => {
                if id.0 == target.0 {
                    (PaneNode::Leaf { id }, RemoveResult::RemovedSelf)
                } else {
                    (PaneNode::Leaf { id }, RemoveResult::NotFound)
                }
            },
            PaneNode::Split { direction, ratio_bits, first, second } => {
                proof {
                    lemma_remove_leaves(*first, target.0);
                    lemma_remove_leaves(*second, target.0);
                }
                let (f2, r1) = Self::remove_owned(*first, target);
                match r1 {
                    RemoveResult::RemovedSelf => (*second, RemoveResult::Removed),
                    RemoveResult::Removed => (PaneNode::Split { direction, ratio_bits, first: Box::new(f2), second }, RemoveResult::Removed),
                    RemoveResult::NotFound => {
                        let (s2, r2) = Self::remove_owned(*second, target);
                        match r2 {
                            RemoveResult::RemovedSelf => (f2, RemoveResult::Removed),
                            RemoveResult::Removed => (PaneNode::Split { direction, ratio_bits, first: Box::new(f2), second: Box::new(s2) }, RemoveResult::Removed),
                            RemoveResult::NotFound => (PaneNode::Split { direction, ratio_bits, first: Box::new(f2), second: Box::new(s2) }, RemoveResult::NotFound),
                        }
                    },
                }
            },
        }
    }

    /// Remove the first leaf with the given id. A split one of whose children
    /// is that leaf is replaced by its other child; when this node itself is
    /// the target, it reports `RemovedSelf` and is left for its parent to
    /// replace.
    pub fn remove_leaf(&mut self, target: PaneId) -> (r: RemoveResult)
        ensures
            (*final(self), r) == old(self).remove_spec(target.0),
    {
        let mut node = PaneNode::Leaf { id: PaneId(0) };
        core::mem::swap(&mut node, self);
        let (n, r) = Self::remove_owned(node, target);
        *self = n;
        r
    }
}

/// `x` occurs in `a + b` exactly when it occurs in `a` or in `b`.
pub proof fn lemma_concat_contains(a: Seq<u32>, b: Seq<u32>, x: u32)
    ensures
        (a + b).contains(x) <==> a.contains(x) || b.contains(x),
{
    if (a + b).contains(x) {
        let k = choose|k: int| 0 <= k < (a + b).len() && (a + b)[k] == x;
        if k < a.len() {
            assert(a[k] == x);
        } else {
            assert(b[k - a.len()] == x);
        }
    }
    if a.contains(x) {
        let k = choose|k: int| 0 <= k < a.len() && a[k] == x;
        assert((a + b)[k] == x);
    }
    if b.contains(x) {
        let k = choose|k: int| 0 <= k < b.len() && b[k] == x;
        assert((a + b)[k + a.len()] == x);
    }
}


/// The zoom state after a toggle in a tree of `panes` panes: unchanged for
/// a single pane, else off when on, and on the focused pane when off.
pub open spec fn zoom_toggled(panes: nat, zoomed: Option<PaneId>, focus: PaneId) -> Option<PaneId> {
    if panes <= 1 {
        zoomed
    } else if zoomed is Some {
        None
    } else {
        Some(focus)
    }
}

/// Toggling zoom twice with the same focus: from "not zoomed" it comes back
/// to "not zoomed"; from zoomed (with more than one pane) it ends zoomed on
/// the focused pane.
pub proof fn lemma_zoom_toggle_twice(panes: nat, zoomed: Option<PaneId>, focus: PaneId)
    ensures
        zoomed is None ==> zoom_toggled(panes, zoom_toggled(panes, zoomed, focus), focus) == zoomed,
        panes > 1 && zoomed is Some ==> zoom_toggled(panes, zoom_toggled(panes, zoomed, focus), focus) == Some(focus),
{
}

/// The pane tree: manages the root node, focus, and zoom state.
pub struct PaneTree {
    root: PaneNode,
    focused: PaneId,
    zoomed: Option<PaneId>,
}

impl PaneTree {
    /// The tree of panes.
    pub closed spec fn node(&self) -> PaneNode {
        self.root
    }

    /// The focused pane.
    pub closed spec fn focus(&self) -> PaneId {
        self.focused
    }

    /// The zoomed pane, if any.
    pub closed spec fn zoomed_pane(&self) -> Option<PaneId> {
        self.zoomed
    }

    /// The focused pane, and the zoomed one if there is one, are panes of
    /// the tree.
    pub open spec fn wf(&self) -> bool {
        &&& self.node().leaves().contains(self.focus().0)
        &&& (self.zoomed_pane() matches Some(z) ==> self.node().leaves().contains(z.0))
    }

    /// Create a new PaneTree with a single root pane, whose id the generator
    /// hands out.
    pub fn new(generator: &mut PaneIdGenerator) -> (tree: Self)
        ensures
            tree.wf(),
            tree.node() == (PaneNode::Leaf { id: PaneId(old(generator).next_value()) }),
            tree.focus() == PaneId(old(generator).next_value()),
            tree.zoomed_pane() == None::<PaneId>,
            final(generator).next_value() == PaneIdGenerator::advanced(old(generator).next_value()),
    {
        let id = PaneId::next(generator);
        let tree = PaneTree { root: PaneNode::leaf(id), focused: id, zoomed: None };
        proof {
            assert(tree.node().leaves()[0] == id.0);
        }
        tree
    }

    /// Get the currently focused pane ID.
    pub fn focused_pane_id(&self) -> (id: PaneId)
        ensures
            id == self.focus(),
    {
        self.focused
    }

    /// Get all leaf pane IDs, left to right.
    pub fn pane_ids(&self) -> (ids: Vec<PaneId>)
        ensures
            pane_id_values(ids@) == self.node().leaves(),
    {
        self.root.leaf_ids()
    }

    /// Get the number of panes.
    pub fn pane_count(&self) -> (n: usize)
        requires
            self.node().leaves().len() <= usize::MAX,
        ensures
            n == self.node().leaves().len(),
    {
        self.root.leaf_count()
    }

    /// Split the focused pane in the given direction; the new pane takes
    /// the focus. Leaves zoom first. The focused pane is always in the
    /// tree, so the split always succeeds.
    pub fn split_focused(&mut self, direction: SplitDirection, generator: &mut PaneIdGenerator) -> (r: Option<PaneId>)
        requires
            old(self).wf(),
        ensures
            final(self).wf(),
            r == Some(PaneId(old(generator).next_value())),
            final(self).node() == old(self).node().split_spec(old(self).focus().0, old(generator).next_value(), direction),
            final(self).node().leaves() == insert_after_first(old(self).node().leaves(), old(self).focus().0, old(generator).next_value()),
            final(self).focus() == PaneId(old(generator).next_value()),
            final(self).zoomed_pane() == None::<PaneId>,
            final(generator).next_value() == PaneIdGenerator::advanced(old(generator).next_value()),
    {
        if self.zoomed.is_some() {
            self.zoomed = None;
        }
        let ghost new_value = generator.next_value();
        proof {
            lemma_split_leaves(self.root, self.focused.0, new_value, direction);
            lemma_insert_after_first_contains(self.root.leaves(), self.focused.0, new_value);
        }
        let new_id = match self.root.split_leaf(self.focused, direction, generator) {
            Some(id) => id,
            None => {
                return None;
            },
        };
        self.focused = new_id;
        Some(new_id)
    }

    /// Close the focused pane; the first pane left takes the focus. Returns
    /// None, changing nothing but the zoom, if this was the last pane.
    /// Leaves zoom first.
    pub fn close_focused(&mut self) -> (r: Option<PaneId>)
        requires
            old(self).wf(),
        ensures
            final(self).wf(),
            final(self).zoomed_pane() == None::<PaneId>,
            old(self).node().leaves().len() <= 1 ==> {
                &&& r == None::<PaneId>
                &&& final(self).node() == old(self).node()
                &&& final(self).focus() == old(self).focus()
            },
            old(self).node().leaves().len() > 1 ==> {
                &&& final(self).node() == old(self).node().remove_spec(old(self).focus().0).0
                &&& final(self).node().leaves() == remove_first(old(self).node().leaves(), old(self).focus().0)
                &&& final(self).focus().0 == final(self).node().leaves()[0]
                &&& r == Some(final(self).focus())
            },
    {
        if self.zoomed.is_some() {
            self.zoomed = None;
        }
        proof {
            lemma_leaves_nonempty(self.root);
            lemma_remove_leaves(self.root, self.focused.0);
        }
        if self.root.is_leaf() {
            proof {
                assert(self.root.leaves().len() == 1);
            }
            return None;
        }
        proof {
            lemma_single_leaf(self.root);
        }
        let target = self.focused;
        match self.root.remove_leaf(target) {
            RemoveResult::Removed => {
                let ids = self.pane_ids();
                proof {
                    lemma_leaves_nonempty(self.root);
                    assert(pane_id_values(ids@)[0] == ids@[0].0);
                }
                self.focused = ids[0];
                proof {
                    assert(self.root.leaves()[0] == self.focused.0);
                }
                Some(self.focused)
            },
            _ => None,
        }
    }

    /// Get the IDs of visible panes: all of them if not zoomed, just the
    /// zoomed one if zoomed.
    pub fn visible_panes(&self) -> (ids: Vec<PaneId>)
        ensures
            self.zoomed_pane() matches Some(z) ==> ids@ == seq![z],
            self.zoomed_pane() is None ==> pane_id_values(ids@) == self.node().leaves(),
    {
        match self.zoomed {
            Some(zoomed_id) => vec![zoomed_id],
            None => self.pane_ids(),
        }
    }

    /// Toggle zoom on the focused pane. No-op on a single pane.
    pub fn zoom_toggle(&mut self)
        requires
            old(self).wf(),
        ensures
            final(self).wf(),
            final(self).node() == old(self).node(),
            final(self).focus() == old(self).focus(),
            final(self).zoomed_pane() == zoom_toggled(old(self).node().leaves().len(), old(self).zoomed_pane(), old(self).focus()),
    {
        proof {
            lemma_single_leaf(self.root);
        }
        if self.root.is_leaf() {
            return;
        }
        if self.zoomed.is_some() {
            self.zoomed = None;
        } else {
            self.zoomed = Some(self.focused);
        }
    }

    /// Check if a pane is currently zoomed.
    pub fn is_zoomed(&self) -> (b: bool)
        ensures
            b == self.zoomed_pane() is Some,
    {
        self.zoomed.is_some()
    }

    /// Get a reference to the root PaneNode.
    pub fn root(&self) -> (r: &PaneNode)
        ensures
            *r == self.node(),
    {
        &self.root
    }

    /// Set focus to a specific pane ID. No-op if the pane doesn't exist.
    pub fn set_focus(&mut self, pane_id: PaneId)
        requires
            old(self).wf(),
        ensures
            final(self).wf(),
            final(self).node() == old(self).node(),
            final(self).zoomed_pane() == old(self).zoomed_pane(),
            final(self).focus() == (if old(self).node().leaves().contains(pane_id.0) {
                pane_id
            } else {
                old(self).focus()
            }),
    {
        let ids = self.root.leaf_ids();
        let mut i: usize = 0;
        let mut found = false;
        while i < ids.len()
            invariant
                i <= ids.len(),
                pane_id_values(ids@) == self.root.leaves(),
                found <==> exists|j: int| 0 <= j < i && ids@[j].0 == pane_id.0,
            decreases ids.len() - i,
        {
            if ids[i].0 == pane_id.0 {
                found = true;
            }
            i = i + 1;
        }
        proof {
            let l = self.root.leaves();
            if found {
                let j = choose|j: int| 0 <= j < i && ids@[j].0 == pane_id.0;
                assert(l[j] == pane_id.0);
            }
            if l.contains(pane_id.0) {
                let k = choose|k: int| 0 <= k < l.len() && l[k] == pane_id.0;
                assert(ids@[k].0 == pane_id.0);
            }
        }
        if found {
            self.focused = pane_id;
        }
    }

    /// Update the ratio (as `f32` bits) of the split node at the given
    /// pre-order index. Returns true if the split was found and updated.
    pub fn set_split_ratio_by_index(&mut self, split_index: usize, ratio_bits: u32) -> (found: bool)
        requires
            old(self).wf(),
        ensures
            final(self).wf(),
            found == (split_index < old(self).node().split_count()),
            final(self).node() == old(self).node().set_ratio_spec(split_index as int, ratio_bits),
            final(self).focus() == old(self).focus(),
            final(self).zoomed_pane() == old(self).zoomed_pane(),
    {
        let mut node = PaneNode::Leaf { id: PaneId(0) };
        core::mem::swap(&mut node, &mut self.root);
        let ghost before = node;
        let (n, found, _) = Self::set_ratio_recursive(node, split_index, ratio_bits, 0);
        proof {
            lemma_set_ratio_keeps_shape(before, split_index as int, ratio_bits);
        }
        self.root = n;
        found
    }

    fn set_ratio_recursive(node: PaneNode, target: usize, ratio_bits: u32, current: usize) -> (res: (PaneNode, bool, usize))
        requires
            current <= target,
        ensures
            res.0 == node.set_ratio_spec(target - current, ratio_bits),
            res.1 == (target - current < node.split_count()),
            !res.1 ==> res.2 == current + node.split_count(),
        decreases node,
    {
        match node {
            PaneNode::Leaf { id } => (PaneNode::Leaf { id }, false, current),
            PaneNode::Split { direction, ratio_bits: old_bits, first, second } => {
                if current == target {
                    return (PaneNode::Split { direction, ratio_bits, first, second }, true, current);
                }
                let current = current + 1;
                let (f2, found, current) = Self::set_ratio_recursive(*first, target, ratio_bits, current);
                if found {
                    return (PaneNode::Split { direction, ratio_bits: old_bits, first: Box::new(f2), second }, true, current);
                }
                proof {
                    lemma_set_ratio_keeps_shape(*first, target - (current - first.split_count()), ratio_bits);
                }
                let (s2, found, current) = Self::set_ratio_recursive(*second, target, ratio_bits, current);
                (PaneNode::Split { direction, ratio_bits: old_bits, first: Box::new(f2), second: Box::new(s2) }, found, current)
            },
        }
    }
}

/// Inserting `y` after an `x` that occurs adds exactly `y`: one more
/// element, and every element of the result is `y` or was there before.
pub proof fn lemma_insert_after_first_contains(s: Seq<u32>, x: u32, y: u32)
    requires
        s.contains(x),
    ensures
        insert_after_first(s, x, y).len() == s.len() + 1,
        insert_after_first(s, x, y).contains(y),
        forall|z: u32| #[trigger] insert_after_first(s, x, y).contains(z) <==> (s.contains(z) || z == y),
    decreases s.len(),
{
    if s[0] == x {
        let r = insert_after_first(s, x, y);
        assert(r =~= seq![x, y] + s.drop_first());
        assert(r[1] == y);
        assert forall|z: u32| #[trigger] r.contains(z) <==> (s.contains(z) || z == y) by {
            if r.contains(z) {
                let k = choose|k: int| 0 <= k < r.len() && r[k] == z;
                if k >= 2 {
                    assert(s[k - 1] == z);
                } else if k == 0 {
                    assert(s[0] == z);
                }
            }
            if s.contains(z) {
                let k = choose|k: int| 0 <= k < s.len() && s[k] == z;
                if k == 0 {
                    assert(r[0] == z);
                } else {
                    assert(r[k + 1] == z);
                }
            }
        }
    } else {
        let t = s.drop_first();
        assert(t.contains(x)) by {
            let k = choose|k: int| 0 <= k < s.len() && s[k] == x;
            assert(t[k - 1] == x);
        }
        lemma_insert_after_first_contains(t, x, y);
        let r = insert_after_first(s, x, y);
        let rt = insert_after_first(t, x, y);
        assert(r =~= seq![s[0]] + rt);
        assert(rt.contains(y));
        let ky = choose|k: int| 0 <= k < rt.len() && rt[k] == y;
        assert(r[ky + 1] == y);
        assert forall|z: u32| #[trigger] r.contains(z) <==> (s.contains(z) || z == y) by {
            if r.contains(z) {
                let k = choose|k: int| 0 <= k < r.len() && r[k] == z;
                if k == 0 {
                    assert(s[0] == z);
                } else {
                    assert(rt[k - 1] == z);
                    assert(rt.contains(z));
                    if t.contains(z) {
                        let j = choose|j: int| 0 <= j < t.len() && t[j] == z;
                        assert(s[j + 1] == z);
                    }
                }
            }
            if s.contains(z) {
                let k = choose|k: int| 0 <= k < s.len() && s[k] == z;
                if k == 0 {
                    assert(r[0] == z);
                } else {
                    assert(t[k - 1] == z);
                    assert(t.contains(z));
                    assert(rt.contains(z));
                    let j = choose|j: int| 0 <= j < rt.len() && rt[j] == z;
                    assert(r[j + 1] == z);
                }
            }
        }
    }
}

/// Splitting a pane and then removing the new pane gives back the tree
/// that was split, when the new id did not occur in it.
pub proof fn lemma_split_then_remove_restores(node: PaneNode, target: u32, new_id: u32, direction: SplitDirection)
    requires
        node.leaves().contains(target),
        !node.leaves().contains(new_id),
    ensures
        node.split_spec(target, new_id, direction).remove_spec(new_id) == (node, RemoveResult::Removed),
    decreases node,
{
    match node {
        PaneNode::Leaf { id } => {
            assert(node.leaves()[0] == id.0);
            if id.0 != target {
                let k = choose|k: int| 0 <= k < node.leaves().len() && node.leaves()[k] == target;
                assert(k == 0);
            }
            if id.0 == new_id {
                assert(node.leaves().contains(new_id));
            }
            let l = PaneNode::Leaf { id };
            let n = PaneNode::Leaf { id: PaneId(new_id) };
            assert(l.remove_spec(new_id) == (l, RemoveResult::NotFound));
            assert(n.remove_spec(new_id) == (n, RemoveResult::RemovedSelf));
        },
        PaneNode::Split { first, second, .. } => {
            lemma_concat_contains(first.leaves(), second.leaves(), target);
            lemma_concat_contains(first.leaves(), second.leaves(), new_id);
            if first.leaves().contains(target) {
                lemma_split_then_remove_restores(*first, target, new_id, direction);
            } else {
                lemma_remove_leaves(*first, new_id);
                lemma_split_then_remove_restores(*second, target, new_id, direction);
            }
        },
    }
}

/// Removing an element that occurs takes exactly that one out: one
/// element fewer, nothing new, and, in a list without repeats, everything
/// but `x` stays.
pub proof fn lemma_remove_first_contents(s: Seq<u32>, x: u32)
    requires
        s.contains(x),
    ensures
        remove_first(s, x).len() == s.len() - 1,
        forall|z: u32| #[trigger] remove_first(s, x).contains(z) ==> s.contains(z),
        s.no_duplicates() ==> remove_first(s, x).no_duplicates(),
        s.no_duplicates() ==> forall|z: u32| #[trigger] remove_first(s, x).contains(z) <==> (s.contains(z) && z != x),
    decreases s.len(),
{
    let t = s.drop_first();
    let r = remove_first(s, x);
    if s[0] == x {
        assert(r == t);
        assert forall|z: u32| #[trigger] r.contains(z) implies s.contains(z) by {
            let k = choose|k: int| 0 <= k < r.len() && r[k] == z;
            assert(s[k + 1] == z);
        }
        if s.no_duplicates() {
            assert forall|z: u32| #[trigger] r.contains(z) <==> (s.contains(z) && z != x) by {
                if r.contains(z) {
                    let k = choose|k: int| 0 <= k < r.len() && r[k] == z;
                    assert(s[k + 1] == z);
                }
                if s.contains(z) && z != x {
                    let k = choose|k: int| 0 <= k < s.len() && s[k] == z;
                    assert(r[k - 1] == z);
                }
            }
        }
    } else {
        assert(t.contains(x)) by {
            let k = choose|k: int| 0 <= k < s.len() && s[k] == x;
            assert(t[k - 1] == x);
        }
        lemma_remove_first_contents(t, x);
        let rt = remove_first(t, x);
        assert(r =~= seq![s[0]] + rt);
        assert forall|z: u32| #[trigger] r.contains(z) implies s.contains(z) by {
            let k = choose|k: int| 0 <= k < r.len() && r[k] == z;
            if k == 0 {
                assert(s[0] == z);
            } else {
                assert(rt[k - 1] == z);
                assert(rt.contains(z));
                let j = choose|j: int| 0 <= j < t.len() && t[j] == z;
                assert(s[j + 1] == z);
            }
        }
        if s.no_duplicates() {
            assert(t.no_duplicates());
            assert(!rt.contains(s[0])) by {
                if rt.contains(s[0]) {
                    let j = choose|j: int| 0 <= j < t.len() && t[j] == s[0];
                    assert(s[j + 1] == s[0]);
                }
            }
            assert forall|i: int, j: int| 0 <= i < j < r.len() implies r[i] != r[j] by {
                if i == 0 {
                    assert(rt[j - 1] == r[j]);
                    assert(rt.contains(r[j]));
                }
            }
            assert forall|z: u32| #[trigger] r.contains(z) <==> (s.contains(z) && z != x) by {
                if r.contains(z) {
                    let k = choose|k: int| 0 <= k < r.len() && r[k] == z;
                    if k == 0 {
                        assert(s[0] == z);
                    } else {
                        assert(rt[k - 1] == z);
                        assert(rt.contains(z));
                    }
                }
                if s.contains(z) && z != x {
                    let k = choose|k: int| 0 <= k < s.len() && s[k] == z;
                    if k == 0 {
                        assert(r[0] == z);
                    } else {
                        assert(t[k - 1] == z);
                        assert(t.contains(z));
                        assert(rt.contains(z));
                        let j = choose|j: int| 0 <= j < rt.len() && rt[j] == z;
                        assert(r[j + 1] == z);
                    }
                }
            }
        }
    }
}

/// Pane ids drawn from a generator that has not wrapped stay distinct:
/// when every id in the tree is below the generator's next value, the
/// tree after a split has no repeated id and every id is below the
/// generator's value after the draw.
pub proof fn lemma_fresh_ids_stay_distinct(leaves: Seq<u32>, target: u32, next: u32)
    requires
        leaves.no_duplicates(),
        leaves.contains(target),
        forall|i: int| 0 <= i < leaves.len() ==> leaves[i] < next,
        next < u32::MAX,
    ensures
        insert_after_first(leaves, target, next).no_duplicates(),
        forall|i: int| 0 <= i < insert_after_first(leaves, target, next).len()
            ==> insert_after_first(leaves, target, next)[i] < PaneIdGenerator::advanced(next),
{
    assert(!leaves.contains(next)) by {
        if leaves.contains(next) {
            let k = choose|k: int| 0 <= k < leaves.len() && leaves[k] == next;
        }
    }
    lemma_insert_after_first_distinct(leaves, target, next);
    lemma_insert_after_first_contains(leaves, target, next);
    let r = insert_after_first(leaves, target, next);
    assert forall|i: int| 0 <= i < r.len() implies r[i] < PaneIdGenerator::advanced(next) by {
        assert(r.contains(r[i]));
        if r[i] != next {
            assert(leaves.contains(r[i]));
            let k = choose|k: int| 0 <= k < leaves.len() && leaves[k] == r[i];
        }
    }
}

/// Inserting an element that does not occur keeps a list free of repeats.
pub proof fn lemma_insert_after_first_distinct(s: Seq<u32>, x: u32, y: u32)
    requires
        s.no_duplicates(),
        s.contains(x),
        !s.contains(y),
    ensures
        insert_after_first(s, x, y).no_duplicates(),
    decreases s.len(),
{
    let t = s.drop_first();
    let r = insert_after_first(s, x, y);
    assert(t.no_duplicates());
    assert(!t.contains(y)) by {
        if t.contains(y) {
            let k = choose|k: int| 0 <= k < t.len() && t[k] == y;
            assert(s[k + 1] == y);
        }
    }
    assert(!t.contains(s[0])) by {
        if t.contains(s[0]) {
            let k = choose|k: int| 0 <= k < t.len() && t[k] == s[0];
            assert(s[k + 1] == s[0]);
        }
    }
    assert(s[0] != y) by {
        assert(s.contains(s[0]));
    }
    if s[0] == x {
        assert(r =~= seq![x, y] + t);
        assert forall|i: int, j: int| 0 <= i < j < r.len() implies r[i] != r[j] by {
            if i <= 1 && j >= 2 {
                assert(t[j - 2] == r[j]);
                assert(t.contains(r[j]));
            }
        }
    } else {
        assert(t.contains(x)) by {
            let k = choose|k: int| 0 <= k < s.len() && s[k] == x;
            assert(t[k - 1] == x);
        }
        lemma_insert_after_first_distinct(t, x, y);
        lemma_insert_after_first_contains(t, x, y);
        let rt = insert_after_first(t, x, y);
        assert(r =~= seq![s[0]] + rt);
        assert(!rt.contains(s[0]));
        assert forall|i: int, j: int| 0 <= i < j < r.len() implies r[i] != r[j] by {
            if i == 0 {
                assert(rt[j - 1] == r[j]);
                assert(rt.contains(r[j]));
            }
        }
    }
}

} // verus!
