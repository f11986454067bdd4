//! The order in which the entries of a tree are visited: each directory before what it
//! holds, and what it holds in the order in which it is listed.

use vstd::prelude::*;

verus! {

/// A tree of entries: an entry and, where it is a directory, what it holds, in the
/// order in which it is listed.
pub struct Tree<T> {
    pub entry: T,
    pub children: Seq<Tree<T>>,
}

/// The entries of a tree in the order of the walk: the entry of the tree first, then
/// the entries of each of its children, child by child.
pub open spec fn preorder<T>(tree: Tree<T>) -> Seq<T>
    decreases tree, 0nat,
{
    seq![tree.entry] + preorder_from(tree.children, 0)
}

/// The entries of the trees from position `i` on, tree by tree.
pub open spec fn preorder_from<T>(trees: Seq<Tree<T>>, i: int) -> Seq<T>
    decreases trees, trees.len() - i,
{
    if i < 0 || i >= trees.len() {
        Seq::empty()
    } else {
        preorder(trees[i]) + preorder_from(trees, i + 1)
    }
}

/// `s` from its last item to its first.
pub open spec fn reversed<A>(s: Seq<A>) -> Seq<A> {
    Seq::new(s.len(), |i: int| s[s.len() - 1 - i])
}

/// The number of entries of a tree.
pub open spec fn size<T>(tree: Tree<T>) -> nat
    decreases tree, 0nat,
{
    1 + weight(tree.children, tree.children.len() as int)
}

/// The number of entries of the first `n` trees.
pub open spec fn weight<T>(trees: Seq<Tree<T>>, n: int) -> nat
    decreases trees, n,
{
    if n <= 0 || n > trees.len() {
        0
    } else {
        weight(trees, n - 1) + size(trees[n - 1])
    }
}

/// The entries that are still to be visited, the next one last. After an entry was
/// taken, what it holds is handed in, and is visited before anything else.
#[derive(Debug, PartialEq)]
pub struct Walk<T> {
    pub pending: Vec<T>,
}

impl<T> Walk<T> {
    /// The walk of the tree below `root`, of which nothing was visited yet.
    pub fn start(root: T) -> (walk: Walk<T>)
        ensures
            walk.pending@ == seq![root],
    {
        let mut pending: Vec<T> = Vec::new();
        pending.push(root);
        proof {
            assert(pending@ =~= seq![root]);
        }
        Walk { pending }
    }

    /// The entry to visit next; none where the walk is over.
    pub fn next(&mut self) -> (entry: Option<T>)
        ensures
            match entry {
                Some(e) => old(self).pending@.len() > 0 && e == old(self).pending@.last()
                    && final(self).pending@ == old(self).pending@.drop_last(),
                None => old(self).pending@.len() == 0 && final(self).pending@.len() == 0,
            },
    {
        self.pending.pop()
    }

    /// Takes in what the entry that was taken last holds, in the order in which it is
    /// listed: its first entry is visited next.
    pub fn listed(&mut self, children: Vec<T>)
        ensures
            final(self).pending@ == old(self).pending@ + reversed(children@),
    {
        let mut children = children;
        let ghost all = children@;
        proof {
            assert(self.pending@ + reversed(all.subrange(all.len() as int, all.len() as int))
                =~= self.pending@);
        }
        while children.len() > 0
            invariant
                children@ == all.subrange(0, children@.len() as int),
                children@.len() <= all.len(),
                self.pending@ == old(self).pending@ + reversed(
                    all.subrange(children@.len() as int, all.len() as int),
                ),
            decreases children@.len(),
        {
            let ghost n = children@.len() as int;
            let ghost before = self.pending@;
            let child = children.pop().unwrap();
            self.pending.push(child);
            proof {
                assert(child == all[n - 1]);
                assert(children@ =~= all.subrange(0, n - 1));
                assert(before.push(child) =~= old(self).pending@ + reversed(
                    all.subrange(n - 1, all.len() as int),
                ));
            }
        }
        proof {
            assert(all.subrange(0, all.len() as int) =~= all);
        }
    }
}

/// The entries in the order in which a walk visits them, `pending` being the trees that
/// are still to be visited, the next one last: the walk takes the entry of the last
/// tree, and goes on with its children, from last to first, in place of it.
pub open spec fn walked<T>(pending: Seq<Tree<T>>) -> Seq<T>
    decreases weight(pending, pending.len() as int),
{
    if pending.len() == 0 {
        Seq::empty()
    } else {
        let tree = pending.last();
        proof {
            lemma_step_weighs_less(pending);
        }
        seq![tree.entry] + walked(pending.drop_last() + reversed(tree.children))
    }
}

/// The first `n` trees of a list weigh what they weigh in any list that begins with
/// them.
pub proof fn lemma_weight_of_front<T>(longer: Seq<Tree<T>>, shorter: Seq<Tree<T>>, n: int)
    requires
        0 <= n <= shorter.len() <= longer.len(),
        forall|i: int| 0 <= i < shorter.len() ==> shorter[i] == longer[i],
    ensures
        weight(longer, n) == weight(shorter, n),
    decreases n,
{
    if n > 0 {
        lemma_weight_of_front(longer, shorter, n - 1);
    }
}

/// Two lists together weigh what they weigh apart.
pub proof fn lemma_weight_joined<T>(a: Seq<Tree<T>>, b: Seq<Tree<T>>, n: int)
    requires
        0 <= n <= b.len(),
    ensures
        weight(a + b, a.len() + n) == weight(a, a.len() as int) + weight(b, n),
    decreases n,
{
    if n > 0 {
        lemma_weight_joined(a, b, n - 1);
        assert((a + b)[a.len() + n - 1] == b[n - 1]);
    } else {
        lemma_weight_of_front(a + b, a, a.len() as int);
    }
}

/// A list weighs the same from last to first.
pub proof fn lemma_weight_reversed<T>(s: Seq<Tree<T>>)
    ensures
        weight(reversed(s), s.len() as int) == weight(s, s.len() as int),
    decreases s.len(),
{
    if s.len() > 0 {
        let front = s.drop_last();
        let one = seq![s.last()];
        lemma_weight_reversed(front);
        assert(reversed(s) =~= one + reversed(front));
        lemma_weight_joined(one, reversed(front), front.len() as int);
        assert(weight(one, 1) == size(s.last())) by {
            assert(weight(one, 0) == 0);
            assert(one[0] == s.last());
        }
        lemma_weight_of_front(s, front, front.len() as int);
    }
}

/// What is pending after a step of the walk weighs less than what was pending before.
pub proof fn lemma_step_weighs_less<T>(pending: Seq<Tree<T>>)
    requires
        pending.len() > 0,
    ensures
        weight(
            pending.drop_last() + reversed(pending.last().children),
            (pending.drop_last() + reversed(pending.last().children)).len() as int,
        ) < weight(pending, pending.len() as int),
{
    let front = pending.drop_last();
    let children = pending.last().children;
    let after = front + reversed(children);
    lemma_weight_joined(front, reversed(children), children.len() as int);
    lemma_weight_reversed(children);
    lemma_weight_of_front(pending, front, front.len() as int);
    assert(after.len() == front.len() + children.len());
    assert(weight(after, after.len() as int) == weight(front, front.len() as int) + weight(
        children,
        children.len() as int,
    ));
    assert(weight(pending, pending.len() as int) == weight(pending, pending.len() - 1) + size(
        pending[pending.len() - 1],
    ));
    assert(size(pending.last()) == 1 + weight(children, children.len() as int));
}

/// A walk visits the entries of each pending tree in the order of the walk, the last
/// tree first.
pub proof fn lemma_walked_tree<T>(pending: Seq<Tree<T>>, tree: Tree<T>)
    ensures
        walked(pending.push(tree)) == preorder(tree) + walked(pending),
    decreases tree, 0nat,
{
    let all = pending.push(tree);
    assert(all.last() == tree);
    assert(all.drop_last() =~= pending);
    lemma_walked_children(pending, tree.children, 0);
    assert(tree.children.subrange(0, tree.children.len() as int) =~= tree.children);
    assert(seq![tree.entry] + (preorder_from(tree.children, 0) + walked(pending)) =~= (seq![
        tree.entry,
    ] + preorder_from(tree.children, 0)) + walked(pending));
}

/// A walk visits the children from position `i` on, child by child, before what was
/// pending before them.
pub proof fn lemma_walked_children<T>(pending: Seq<Tree<T>>, children: Seq<Tree<T>>, i: int)
    requires
        0 <= i <= children.len(),
    ensures
        walked(pending + reversed(children.subrange(i, children.len() as int))) == preorder_from(
            children,
            i,
        ) + walked(pending),
    decreases children, children.len() - i,
{
    let rest = children.subrange(i, children.len() as int);
    if i < children.len() {
        let later = children.subrange(i + 1, children.len() as int);
        let below = pending + reversed(later);
        assert(pending + reversed(rest) =~= below.push(children[i]));
        lemma_walked_tree(below, children[i]);
        lemma_walked_children(pending, children, i + 1);
        assert(preorder(children[i]) + (preorder_from(children, i + 1) + walked(pending)) =~= (
        preorder(children[i]) + preorder_from(children, i + 1)) + walked(pending));
    } else {
        assert(pending + reversed(rest) =~= pending);
        assert(Seq::<T>::empty() + walked(pending) =~= walked(pending));
    }
}

/// The entries of the trees of a list.
pub open spec fn roots<T>(trees: Seq<Tree<T>>) -> Seq<T> {
    Seq::new(trees.len(), |i: int| trees[i].entry)
}

/// A `Walk` follows `walked`: where the entries that are pending are those of pending
/// trees, the entry that `next` takes is that of the last tree, and once `listed` took
/// in the entries of its children, the entries that are pending are those of the trees
/// that `walked` goes on with.
pub proof fn a_walk_follows_the_trees<T>(pending: Seq<Tree<T>>)
    requires
        pending.len() > 0,
    ensures
        roots(pending).last() == pending.last().entry,
        roots(pending.drop_last() + reversed(pending.last().children)) == roots(
            pending,
        ).drop_last() + reversed(roots(pending.last().children)),
{
    assert(roots(pending.drop_last() + reversed(pending.last().children)) =~= roots(
        pending,
    ).drop_last() + reversed(roots(pending.last().children)));
}

/// The walk of a tree visits its entries in pre-order: the root first, each directory
/// before what it holds, and what a directory holds in the order in which it is listed,
/// each entry once.
pub proof fn a_walk_visits_in_pre_order<T>(tree: Tree<T>)
    ensures
        walked(seq![tree]) == preorder(tree),
{
    lemma_walked_tree(Seq::<Tree<T>>::empty(), tree);
    assert(Seq::<Tree<T>>::empty().push(tree) =~= seq![tree]);
    assert(walked(Seq::<Tree<T>>::empty()) =~= Seq::<T>::empty());
    assert(preorder(tree) + Seq::<T>::empty() =~= preorder(tree));
}

} // verus!
