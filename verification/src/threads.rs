//! Reply structure of a conversation: the thread a message starts (every
//! reply below it, in the order a breadth-first walk meets them) and the
//! tree of replies below a message.
use vstd::prelude::*;

verus! {

/// The identity of a stored message and of the message it replies to.
pub struct ThreadEntry {
    pub id: u128,
    pub parent_id: Option<u128>,
}

/// Position of the first entry of `all[k..]` with identity `id`.
pub open spec fn first_with_id(all: Seq<ThreadEntry>, id: u128, k: int) -> Option<int>
    decreases all.len() - k,
{
    if k < 0 || k >= all.len() {
        None
    } else if all[k].id == id {
        Some(k)
    } else {
        first_with_id(all, id, k + 1)
    }
}

/// Identities of the entries of `all[..k]` that reply to `id`, in order.
pub open spec fn reply_ids(all: Seq<ThreadEntry>, id: u128, k: int) -> Seq<u128>
    decreases k,
{
    if k <= 0 || k > all.len() {
        seq![]
    } else if all[k - 1].parent_id == Some(id) {
        reply_ids(all, id, k - 1).push(all[k - 1].id)
    } else {
        reply_ids(all, id, k - 1)
    }
}

/// The positions a breadth-first walk emits within `fuel` steps when the
/// identities still to visit are queued in `stack`: it takes the first one,
/// emits the first entry with that identity (if any) and queues the
/// identities of its replies at the back.  `None` when `fuel` steps are not
/// enough.
pub open spec fn walk(all: Seq<ThreadEntry>, stack: Seq<u128>, fuel: nat) -> Option<Seq<int>>
    decreases fuel,
{
    if stack.len() == 0 {
        Some(seq![])
    } else if fuel == 0 {
        None
    } else {
        let c = stack.first();
        let rest = stack.drop_first();
        match first_with_id(all, c, 0) {
            None => walk(all, rest, (fuel - 1) as nat),
            Some(i) => match walk(all, rest + reply_ids(all, c, all.len() as int), (fuel - 1) as nat) {
                Some(r) => Some(seq![i] + r),
                None => None,
            },
        }
    }
}

/// The walk from `root` comes to an end (no reply chain below it loops).
pub open spec fn thread_ends(all: Seq<ThreadEntry>, root: u128) -> bool {
    exists|f: nat| #[trigger] walk(all, seq![root], f) is Some
}

/// The positions of the thread that `root` starts, in walk order.
pub open spec fn thread_of(all: Seq<ThreadEntry>, root: u128) -> Seq<int> {
    walk(all, seq![root], choose|f: nat| #[trigger] walk(all, seq![root], f) is Some).unwrap()
}

/// A reply tree: the position of a message and the trees of its replies.
pub struct MessageTreeNode {
    pub index: usize,
    pub children: Vec<MessageTreeNode>,
}

/// Whether `e` hangs directly under `parent`: under `None` are the
/// entries without a parent and those whose parent is not among `all`;
/// under `Some(x)` the replies to `x`.
pub open spec fn hangs_under(all: Seq<ThreadEntry>, e: ThreadEntry, parent: Option<u128>) -> bool {
    match parent {
        None => match e.parent_id {
            None => true,
            Some(p) => first_with_id(all, p, 0) is None,
        },
        Some(x) => e.parent_id == Some(x),
    }
}

/// Positions of the entries of `all[..k]` that hang under `parent`.
pub open spec fn child_positions(all: Seq<ThreadEntry>, parent: Option<u128>, k: int) -> Seq<int>
    decreases k,
{
    if k <= 0 || k > all.len() {
        seq![]
    } else if hangs_under(all, all[k - 1], parent) {
        child_positions(all, parent, k - 1).push(k - 1)
    } else {
        child_positions(all, parent, k - 1)
    }
}

/// Every chain of replies below `parent` has fewer than `depth` links.
pub open spec fn tree_ends(all: Seq<ThreadEntry>, parent: Option<u128>, depth: nat) -> bool
    decreases depth,
{
    if depth == 0 {
        forall|i: int| 0 <= i < all.len() ==> !hangs_under(all, #[trigger] all[i], parent)
    } else {
        forall|i: int|
            0 <= i < all.len() && hangs_under(all, #[trigger] all[i], parent) ==> tree_ends(
                all,
                Some(all[i].id),
                (depth - 1) as nat,
            )
    }
}

/// `nodes` are the trees below `parent`: one per entry whose parent is
/// `parent`, in order, each with the trees below that entry.
pub open spec fn is_forest(all: Seq<ThreadEntry>, parent: Option<u128>, nodes: Seq<MessageTreeNode>) -> bool
    decreases nodes,
{
    let kids = child_positions(all, parent, all.len() as int);
    &&& nodes.len() == kids.len()
    &&& forall|i: int|
        0 <= i < nodes.len() ==> (#[trigger] nodes[i]).index == kids[i] && is_forest(
            all,
            Some(all[kids[i]].id),
            nodes[i].children@,
        )
}

/// Positions as integers.
pub open spec fn positions(v: Seq<usize>) -> Seq<int> {
    v.map_values(|i: usize| i as int)
}

/// Position of the first entry with identity `id`.
fn find_entry(all: &[ThreadEntry], id: u128) -> (r: Option<usize>)
    ensures
        r is None <==> first_with_id(all@, id, 0) is None,
        r matches Some(i) ==> first_with_id(all@, id, 0) == Some(i as int),
{
    let mut j: usize = 0;
    while j < all.len()
        invariant
            j <= all@.len(),
            first_with_id(all@, id, 0) == first_with_id(all@, id, j as int),
        decreases all@.len() - j,
    {
        if all[j].id == id {
            return Some(j);
        }
        j = j + 1;
    }
    None
}

/// The messages of the thread that starts at `root`, breadth first: `root`
/// itself, then its replies in stored order, then theirs, and so on.
/// Their positions in `all` are returned; none when no entry is `root`.
pub fn collect_thread(all: &[ThreadEntry], root: u128) -> (r: Vec<usize>)
    requires
        thread_ends(all@, root),
    ensures
        positions(r@) == thread_of(all@, root),
{
    let ghost f0: nat = choose|f: nat| #[trigger] walk(all@, seq![root], f) is Some;
    let mut out: Vec<usize> = Vec::new();
    let mut stack: Vec<u128> = Vec::new();
    stack.push(root);
    let ghost mut fuel: nat = f0;
    proof {
        assert(stack@ =~= seq![root]);
        assert(positions(out@) =~= Seq::<int>::empty());
        assert(thread_of(all@, root) =~= positions(out@) + walk(all@, stack@, fuel).unwrap());
    }
    while stack.len() > 0
        invariant
            walk(all@, stack@, fuel) is Some,
            thread_of(all@, root) == positions(out@) + walk(all@, stack@, fuel).unwrap(),
        decreases fuel,
    {
        let ghost s0 = stack@;
        let ghost o0 = positions(out@);
        let c = stack.remove(0);
        proof {
            assert(c == s0.first());
            assert(stack@ =~= s0.drop_first());
        }
        match find_entry(all, c) {
            None => {
                proof {
                    fuel = (fuel - 1) as nat;
                }
            },
            Some(i) => {
                out.push(i);
                let ghost rest = stack@;
                let mut k: usize = 0;
                while k < all.len()
                    invariant
                        k <= all@.len(),
                        stack@ == rest + reply_ids(all@, c, k as int),
                    decreases all@.len() - k,
                {
                    let replies = match all[k].parent_id {
                        Some(p) => p == c,
                        None => false,
                    };
                    if replies {
                        stack.push(all[k].id);
                        proof {
                            assert(stack@ =~= rest + reply_ids(all@, c, k + 1));
                        }
                    } else {
                        proof {
                            assert(reply_ids(all@, c, k + 1) == reply_ids(all@, c, k as int));
                        }
                    }
                    k = k + 1;
                }
                proof {
                    assert(positions(out@) =~= o0 + seq![i as int]);
                    let w = walk(all@, stack@, (fuel - 1) as nat).unwrap();
                    assert(walk(all@, s0, fuel).unwrap() == seq![i as int] + w);
                    assert(o0 + (seq![i as int] + w) =~= positions(out@) + w);
                    fuel = (fuel - 1) as nat;
                }
            },
        }
    }
    proof {
        assert(positions(out@) + walk(all@, stack@, fuel).unwrap() =~= positions(out@));
    }
    out
}

/// The positions `p` put in front of what a walk emits, if it ends.
pub open spec fn prepend(p: Seq<int>, w: Option<Seq<int>>) -> Option<Seq<int>> {
    match w {
        Some(r) => Some(p + r),
        None => None,
    }
}

/// A walk that ends within `f1` steps emits the same positions when it is
/// given more steps.
proof fn lemma_walk_more_fuel(all: Seq<ThreadEntry>, stack: Seq<u128>, f1: nat, f2: nat)
    requires
        walk(all, stack, f1) is Some,
        f1 <= f2,
    ensures
        walk(all, stack, f2) == walk(all, stack, f1),
    decreases f1,
{
    if stack.len() > 0 {
        let c = stack.first();
        let rest = stack.drop_first();
        match first_with_id(all, c, 0) {
            None => lemma_walk_more_fuel(all, rest, (f1 - 1) as nat, (f2 - 1) as nat),
            Some(i) => lemma_walk_more_fuel(
                all,
                rest + reply_ids(all, c, all.len() as int),
                (f1 - 1) as nat,
                (f2 - 1) as nat,
            ),
        }
    }
}

/// The thread that starts at `root`, walked for at most `max_steps` steps
/// (one per identity taken from the queue): `None` when the walk has not
/// ended by then, as when replies loop back on themselves.
pub fn collect_thread_bounded(all: &[ThreadEntry], root: u128, max_steps: usize) -> (r: Option<
    Vec<usize>,
>)
    ensures
        r is Some <==> walk(all@, seq![root], max_steps as nat) is Some,
        r matches Some(v) ==> thread_ends(all@, root) && positions(v@) == thread_of(all@, root),
{
    let mut out: Vec<usize> = Vec::new();
    let mut queue: Vec<u128> = Vec::new();
    queue.push(root);
    let mut steps: usize = 0;
    proof {
        assert(queue@ =~= seq![root]);
        assert(positions(out@) =~= Seq::<int>::empty());
        if let Some(w) = walk(all@, seq![root], max_steps as nat) {
            assert(Seq::<int>::empty() + w =~= w);
        }
    }
    while queue.len() > 0 && steps < max_steps
        invariant
            steps <= max_steps,
            walk(all@, seq![root], max_steps as nat) == prepend(
                positions(out@),
                walk(all@, queue@, (max_steps - steps) as nat),
            ),
        decreases max_steps - steps,
    {
        let ghost s0 = queue@;
        let ghost o0 = positions(out@);
        let ghost fl: nat = (max_steps - steps) as nat;
        let c = queue.remove(0);
        proof {
            assert(c == s0.first());
            assert(queue@ =~= s0.drop_first());
        }
        match find_entry(all, c) {
            None => {},
            Some(i) => {
                out.push(i);
                let ghost rest = queue@;
                let mut k: usize = 0;
                while k < all.len()
                    invariant
                        k <= all@.len(),
                        queue@ == rest + reply_ids(all@, c, k as int),
                    decreases all@.len() - k,
                {
                    let replies = match all[k].parent_id {
                        Some(p) => p == c,
                        None => false,
                    };
                    if replies {
                        queue.push(all[k].id);
                        proof {
                            assert(queue@ =~= rest + reply_ids(all@, c, k + 1));
                        }
                    } else {
                        proof {
                            assert(reply_ids(all@, c, k + 1) == reply_ids(all@, c, k as int));
                        }
                    }
                    k = k + 1;
                }
                proof {
                    assert(positions(out@) =~= o0 + seq![i as int]);
                    if let Some(w) = walk(all@, queue@, (fl - 1) as nat) {
                        assert(walk(all@, s0, fl) == Some(seq![i as int] + w));
                        assert(o0 + (seq![i as int] + w) =~= positions(out@) + w);
                    }
                }
            },
        }
        steps = steps + 1;
    }
    if queue.len() == 0 {
        proof {
            assert(positions(out@) + Seq::<int>::empty() =~= positions(out@));
            assert(walk(all@, seq![root], max_steps as nat) is Some);
            let f = choose|f: nat| #[trigger] walk(all@, seq![root], f) is Some;
            if f <= max_steps {
                lemma_walk_more_fuel(all@, seq![root], f, max_steps as nat);
            } else {
                lemma_walk_more_fuel(all@, seq![root], max_steps as nat, f);
            }
        }
        Some(out)
    } else {
        None
    }
}

/// A thread is empty exactly when no entry has the root's identity, and
/// otherwise begins with the first entry that has it.
pub proof fn law_thread_starts_at_root(all: Seq<ThreadEntry>, root: u128)
    requires
        thread_ends(all, root),
    ensures
        (thread_of(all, root).len() == 0) == (first_with_id(all, root, 0) is None),
        first_with_id(all, root, 0) matches Some(i) ==> thread_of(all, root)[0] == i,
{
    let f = choose|f: nat| #[trigger] walk(all, seq![root], f) is Some;
    assert(walk(all, seq![root], f) is Some);
    assert(seq![root].drop_first() =~= Seq::<u128>::empty());
    assert(seq![root].first() == root);
    match first_with_id(all, root, 0) {
        None => {
            assert(walk(all, Seq::<u128>::empty(), (f - 1) as nat) == Some(Seq::<int>::empty()));
        },
        Some(i) => {
        },
    }
}

/// Whether entry `k` hangs directly under `parent`.
fn hangs_under_exec(all: &[ThreadEntry], k: usize, parent: Option<u128>) -> (r: bool)
    requires
        k < all@.len(),
    ensures
        r == hangs_under(all@, all@[k as int], parent),
{
    match parent {
        None => match all[k].parent_id {
            None => true,
            Some(p) => find_entry(all, p).is_none(),
        },
        Some(x) => match all[k].parent_id {
            Some(p) => p == x,
            None => false,
        },
    }
}

/// The trees below `parent`, given a bound on the chains below it.
fn build_forest(all: &[ThreadEntry], parent: Option<u128>, Ghost(depth): Ghost<nat>) -> (r: Vec<
    MessageTreeNode,
>)
    requires
        tree_ends(all@, parent, depth),
    ensures
        is_forest(all@, parent, r@),
    decreases depth,
{
    let mut r: Vec<MessageTreeNode> = Vec::new();
    let mut k: usize = 0;
    while k < all.len()
        invariant
            k <= all@.len(),
            tree_ends(all@, parent, depth),
            r@.len() == child_positions(all@, parent, k as int).len(),
            forall|i: int|
                0 <= i < r@.len() ==> (#[trigger] r@[i]).index == child_positions(
                    all@,
                    parent,
                    k as int,
                )[i] && is_forest(
                    all@,
                    Some(all@[child_positions(all@, parent, k as int)[i]].id),
                    r@[i].children@,
                ),
        decreases all@.len() - k,
    {
        let ghost before = child_positions(all@, parent, k as int);
        if hangs_under_exec(all, k, parent) {
            proof {
                if depth == 0 {
                    assert(!hangs_under(all@, all@[k as int], parent));
                }
                assert(tree_ends(all@, Some(all@[k as int].id), (depth - 1) as nat));
            }
            let children = build_forest(all, Some(all[k].id), Ghost((depth - 1) as nat));
            r.push(MessageTreeNode { index: k, children });
            proof {
                assert(child_positions(all@, parent, k + 1) == before.push(k as int));
            }
        } else {
            proof {
                assert(child_positions(all@, parent, k + 1) == before);
            }
        }
        k = k + 1;
    }
    r
}

/// The trees of replies below `parent`; with `None`, the roots are the
/// messages without a parent or with a parent outside `all`.  Each entry's
/// replies come in their stored order.
pub fn build_tree(all: &[ThreadEntry], parent: Option<u128>) -> (r: Vec<MessageTreeNode>)
    requires
        exists|d: nat| #[trigger] tree_ends(all@, parent, d),
    ensures
        is_forest(all@, parent, r@),
{
    let ghost d = choose|d: nat| #[trigger] tree_ends(all@, parent, d);
    build_forest(all, parent, Ghost(d))
}

/// Whether every chain of replies below `parent` has fewer than `depth`
/// links.
fn check_tree_ends(all: &[ThreadEntry], parent: Option<u128>, depth: usize) -> (r: bool)
    ensures
        r == tree_ends(all@, parent, depth as nat),
    decreases depth,
{
    let mut k: usize = 0;
    while k < all.len()
        invariant
            k <= all@.len(),
            depth == 0 ==> forall|i: int|
                0 <= i < k ==> !hangs_under(all@, #[trigger] all@[i], parent),
            depth > 0 ==> forall|i: int|
                0 <= i < k && hangs_under(all@, #[trigger] all@[i], parent) ==> tree_ends(
                    all@,
                    Some(all@[i].id),
                    (depth - 1) as nat,
                ),
        decreases all@.len() - k,
    {
        if hangs_under_exec(all, k, parent) {
            if depth == 0 {
                proof {
                    assert(hangs_under(all@, all@[k as int], parent));
                }
                return false;
            }
            if !check_tree_ends(all, Some(all[k].id), depth - 1) {
                proof {
                    assert(hangs_under(all@, all@[k as int], parent));
                }
                return false;
            }
        }
        k = k + 1;
    }
    true
}

/// The trees of replies below `parent`, as `build_tree` gives them, once
/// every chain of replies below `parent` is seen to have fewer than
/// `max_depth` links; `None` otherwise, as when replies loop back on
/// themselves.
pub fn build_tree_bounded(all: &[ThreadEntry], parent: Option<u128>, max_depth: usize) -> (r:
    Option<Vec<MessageTreeNode>>)
    ensures
        r is Some <==> tree_ends(all@, parent, max_depth as nat),
        r matches Some(v) ==> is_forest(all@, parent, v@),
{
    if check_tree_ends(all, parent, max_depth) {
        Some(build_tree(all, parent))
    } else {
        None
    }
}

} // verus!
