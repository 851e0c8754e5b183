//! The walk over a hive: every node once, each read in full.
//!
//! The walk keeps a stack of handles. A step takes the topmost handle of
//! which nothing is on record yet, writes down what the engine reported of
//! it, puts its children on the stack and reads the node. Whoever drives
//! the engine asks [`Hive::pending`] which node is next, fetches its record
//! and hands it to [`Hive::next`].
use vstd::prelude::*;
use crate::error::Error;
use crate::error::ErrorView;
use crate::error::hive_does_not_exist;
use crate::error::hivex_error;
pub use crate::node::Node;
pub use crate::node::NodeByValue;
use crate::node::NodeView;
pub use crate::value::Value;
pub use crate::value::ValueValue;
use crate::node::node_of;
use crate::sys::HiveHandle;
use crate::sys::HiveView;
use crate::sys::NodeHandle;
use crate::sys::NodeRecord;
use crate::sys::NodeRecordView;
use crate::sys::ValueHandle;
use crate::sys::ValueRecord;
use crate::sys::ValueRecordView;
use crate::sys::hive_root;
use crate::sys::node_children;

verus! {

/// Whether `b` is among the children that the engine listed for `a`.
pub open spec fn linked(h: HiveView, a: u64, b: u64) -> bool {
    node_children(h, a) matches Ok(list) && list.contains(b)
}

/// Whether `path` leads from the root along child links.
pub open spec fn is_path(h: HiveView, path: Seq<u64>) -> bool {
    &&& path.len() > 0
    &&& path[0] == h.root
    &&& forall|i: int| 0 <= i < path.len() - 1 ==> linked(h, #[trigger] path[i], path[i + 1])
}

/// Whether node `n` can be reached from the root along child links.
pub open spec fn reachable(h: HiveView, n: u64) -> bool {
    exists|path: Seq<u64>| #[trigger] is_path(h, path) && path.last() == n
}

/// The stack `waiting` without the handles on top of which something is on
/// record already.
pub open spec fn settled(h: HiveView, waiting: Seq<u64>) -> Seq<u64>
    decreases waiting.len(),
{
    if waiting.len() > 0 && h.nodes.contains_key(waiting.last()) {
        settled(h, waiting.drop_last())
    } else {
        waiting
    }
}

/// The node that the next step visits; none when the walk is over.
pub open spec fn next_unread(h: HiveView, waiting: Seq<u64>) -> Option<u64> {
    let rest = settled(h, waiting);
    if rest.len() == 0 {
        None
    } else {
        Some(rest.last())
    }
}

/// The node that comes next is one of the waiting, and nothing is on
/// record of it yet.
pub proof fn lemma_next_unread(h: HiveView, waiting: Seq<u64>)
    ensures
        next_unread(h, waiting) matches Some(n) ==> waiting.contains(n) && !h.nodes.contains_key(
            n,
        ),
{
    lemma_settled(h, waiting);
    let rest = settled(h, waiting);
    if rest.len() > 0 {
        assert(waiting[rest.len() - 1] == rest.last());
    }
}

/// The session after `record` was written down for node `n`.
pub open spec fn with_node(h: HiveView, n: u64, record: NodeRecordView) -> HiveView {
    HiveView { nodes: h.nodes.insert(n, record), ..h }
}

/// The children that a record puts on the stack: those it lists, and none
/// where the engine failed to list them. The failure itself is the answer
/// of the step, see [`visit_of`].
pub open spec fn listed_children(record: NodeRecordView) -> Seq<u64> {
    match record.children {
        Some(list) => list,
        None => Seq::empty(),
    }
}

/// What a step answers for node `n`: the engine's failure to list the
/// children of `n`, or else `n` read in full.
pub open spec fn visit_of(h: HiveView, n: u64) -> Result<NodeView, ErrorView> {
    match node_children(h, n) {
        Err(e) => Err(e),
        Ok(_) => node_of(h, n),
    }
}

/// What holds of a walk at every step: `visited` are the nodes on record,
/// each once; the root and every child of a visited node is visited or
/// waiting; and nothing is visited or waiting that cannot be reached.
spec fn walk_inv(h: HiveView, waiting: Seq<u64>, visited: Seq<u64>) -> bool {
    &&& h.root != 0
    &&& h.nodes.dom().finite()
    &&& visited.no_duplicates()
    &&& forall|n: u64| visited.contains(n) <==> #[trigger] h.nodes.contains_key(n)
    &&& visited.contains(h.root) || waiting.contains(h.root)
    &&& forall|a: u64, b: u64|
        visited.contains(a) && #[trigger] linked(h, a, b) ==> visited.contains(b)
            || waiting.contains(b)
    &&& forall|n: u64| #[trigger] waiting.contains(n) ==> reachable(h, n)
    &&& forall|n: u64| #[trigger] visited.contains(n) ==> reachable(h, n)
}

/// Whether session `g` holds all that session `h` holds of nodes, and the
/// same root.
spec fn extends(h: HiveView, g: HiveView) -> bool {
    &&& g.root == h.root
    &&& forall|k: u64|
        #[trigger] h.nodes.contains_key(k) ==> g.nodes.contains_key(k) && g.nodes[k] == h.nodes[k]
}

proof fn lemma_path_kept(h: HiveView, g: HiveView, path: Seq<u64>)
    requires
        is_path(h, path),
        extends(h, g),
    ensures
        is_path(g, path),
{
    assert forall|i: int| 0 <= i < path.len() - 1 implies linked(
        g,
        #[trigger] path[i],
        path[i + 1],
    ) by {
        assert(linked(h, path[i], path[i + 1]));
        assert(h.nodes.contains_key(path[i]));
    }
}

proof fn lemma_reachable_kept(h: HiveView, g: HiveView, n: u64)
    requires
        reachable(h, n),
        extends(h, g),
    ensures
        reachable(g, n),
{
    let path = choose|path: Seq<u64>| #[trigger] is_path(h, path) && path.last() == n;
    lemma_path_kept(h, g, path);
}

proof fn lemma_reachable_child(h: HiveView, a: u64, b: u64)
    requires
        reachable(h, a),
        linked(h, a, b),
    ensures
        reachable(h, b),
{
    let path = choose|path: Seq<u64>| #[trigger] is_path(h, path) && path.last() == a;
    let longer = path.push(b);
    assert forall|i: int| 0 <= i < longer.len() - 1 implies linked(
        h,
        #[trigger] longer[i],
        longer[i + 1],
    ) by {
        if i < path.len() - 1 {
            assert(linked(h, path[i], path[i + 1]));
        }
    }
    assert(is_path(h, longer));
    assert(longer.last() == b);
}

proof fn lemma_root_reachable(h: HiveView)
    ensures
        reachable(h, h.root),
{
    let path = seq![h.root];
    assert(is_path(h, path));
    assert(path.last() == h.root);
}

proof fn lemma_settled(h: HiveView, waiting: Seq<u64>)
    ensures
        settled(h, waiting).len() <= waiting.len(),
        settled(h, waiting) == waiting.subrange(0, settled(h, waiting).len() as int),
        forall|i: int|
            settled(h, waiting).len() <= i < waiting.len() ==> h.nodes.contains_key(
                #[trigger] waiting[i],
            ),
        settled(h, waiting).len() > 0 ==> !h.nodes.contains_key(settled(h, waiting).last()),
    decreases waiting.len(),
{
    if waiting.len() > 0 && h.nodes.contains_key(waiting.last()) {
        let shorter = waiting.drop_last();
        lemma_settled(h, shorter);
        let rest = settled(h, shorter);
        assert(rest =~= waiting.subrange(0, rest.len() as int));
        assert forall|i: int| rest.len() <= i < waiting.len() implies h.nodes.contains_key(
            #[trigger] waiting[i],
        ) by {
            if i < shorter.len() {
                assert(waiting[i] == shorter[i]);
            }
        }
    } else {
        assert(waiting =~= waiting.subrange(0, waiting.len() as int));
    }
}

/// Dropping waiting handles that are on record keeps the walk in order.
proof fn lemma_inv_settled(h: HiveView, waiting: Seq<u64>, visited: Seq<u64>)
    requires
        walk_inv(h, waiting, visited),
    ensures
        walk_inv(h, settled(h, waiting), visited),
{
    lemma_settled(h, waiting);
    let rest = settled(h, waiting);
    assert forall|n: u64| waiting.contains(n) implies rest.contains(n) || visited.contains(n) by {
        let i = choose|i: int| 0 <= i < waiting.len() && waiting[i] == n;
        if i < rest.len() {
            assert(rest[i] == n);
        } else {
            assert(h.nodes.contains_key(waiting[i]));
        }
    }
    assert forall|n: u64| #[trigger] rest.contains(n) implies reachable(h, n) by {
        let i = choose|i: int| 0 <= i < rest.len() && rest[i] == n;
        assert(waiting[i] == n);
        assert(waiting.contains(n));
    }
    assert forall|a: u64, b: u64| visited.contains(a) && #[trigger] linked(h, a, b) implies (
    visited.contains(b) || rest.contains(b)) by {
        assert(visited.contains(b) || waiting.contains(b));
    }
}

/// One step keeps the walk in order.
proof fn lemma_inv_step(h: HiveView, waiting: Seq<u64>, visited: Seq<u64>, record: NodeRecordView)
    requires
        walk_inv(h, waiting, visited),
        waiting.len() > 0,
        !h.nodes.contains_key(waiting.last()),
    ensures
        walk_inv(
            with_node(h, waiting.last(), record),
            waiting.drop_last() + listed_children(record),
            visited.push(waiting.last()),
        ),
{
    let n = waiting.last();
    let g = with_node(h, n, record);
    let below = waiting.drop_last();
    let kids = listed_children(record);
    let stack = below + kids;
    let seen = visited.push(n);
    assert(g.nodes.dom() =~= h.nodes.dom().insert(n));
    assert(!visited.contains(n));
    assert(seen.no_duplicates()) by {
        assert forall|i: int, j: int| 0 <= i < seen.len() && 0 <= j < seen.len() && i
            != j implies seen[i] != seen[j] by {
            if i < visited.len() && j < visited.len() {
            } else if i < visited.len() {
                assert(visited.contains(visited[i]));
            } else {
                assert(visited.contains(visited[j]));
            }
        }
    }
    assert forall|x: u64| seen.contains(x) <==> #[trigger] g.nodes.contains_key(x) by {
        if seen.contains(x) {
            let i = choose|i: int| 0 <= i < seen.len() && seen[i] == x;
            if i < visited.len() {
                assert(visited.contains(visited[i]));
            }
        }
        if g.nodes.contains_key(x) {
            if x == n {
                assert(seen[visited.len() as int] == n);
            } else {
                assert(visited.contains(x));
                let i = choose|i: int| 0 <= i < visited.len() && visited[i] == x;
                assert(seen[i] == x);
            }
        }
    }
    assert forall|x: u64| visited.contains(x) implies seen.contains(x) by {
        let i = choose|i: int| 0 <= i < visited.len() && visited[i] == x;
        assert(seen[i] == x);
    }
    assert(seen.contains(n)) by {
        assert(seen[visited.len() as int] == n);
    }
    assert forall|x: u64| waiting.contains(x) implies seen.contains(x) || stack.contains(x) by {
        let i = choose|i: int| 0 <= i < waiting.len() && waiting[i] == x;
        if i < below.len() {
            assert(stack[i] == x);
        }
    }
    assert forall|x: u64| kids.contains(x) implies stack.contains(x) by {
        let i = choose|i: int| 0 <= i < kids.len() && kids[i] == x;
        assert(stack[below.len() + i] == x);
    }
    assert(extends(h, g));
    assert forall|a: u64, b: u64| seen.contains(a) && #[trigger] linked(g, a, b) implies (
    seen.contains(b) || stack.contains(b)) by {
        if a == n {
            assert(kids.contains(b));
        } else {
            assert(g.nodes.contains_key(a));
            assert(h.nodes.contains_key(a));
            assert(linked(h, a, b));
            assert(visited.contains(a));
            assert(visited.contains(b) || waiting.contains(b));
        }
    }
    assert(reachable(h, n)) by {
        assert(waiting.contains(n));
    }
    lemma_reachable_kept(h, g, n);
    assert forall|x: u64| #[trigger] stack.contains(x) implies reachable(g, x) by {
        let i = choose|i: int| 0 <= i < stack.len() && stack[i] == x;
        if i < below.len() {
            assert(waiting[i] == x);
            assert(waiting.contains(x));
            lemma_reachable_kept(h, g, x);
        } else {
            assert(kids[i - below.len()] == x);
            assert(kids.contains(x));
            assert(linked(g, n, x));
            lemma_reachable_child(g, n, x);
        }
    }
    assert forall|x: u64| #[trigger] seen.contains(x) implies reachable(g, x) by {
        if x != n {
            assert(g.nodes.contains_key(x));
            assert(visited.contains(x));
            lemma_reachable_kept(h, g, x);
        }
    }
}

/// What is on record of values has no part in the walk.
proof fn lemma_inv_values(h: HiveView, g: HiveView, waiting: Seq<u64>, visited: Seq<u64>)
    requires
        walk_inv(h, waiting, visited),
        g.root == h.root,
        g.nodes == h.nodes,
    ensures
        walk_inv(g, waiting, visited),
{
    assert(extends(h, g));
    assert(extends(g, h));
    assert forall|a: u64, b: u64| visited.contains(a) && #[trigger] linked(g, a, b) implies (
    visited.contains(b) || waiting.contains(b)) by {
        assert(node_children(h, a) == node_children(g, a));
        assert(linked(h, a, b));
    }
    assert forall|n: u64| #[trigger] waiting.contains(n) implies reachable(g, n) by {
        lemma_reachable_kept(h, g, n);
    }
    assert forall|n: u64| #[trigger] visited.contains(n) implies reachable(g, n) by {
        lemma_reachable_kept(h, g, n);
    }
}

/// When nothing waits unread, every node on a path from the root is visited.
proof fn lemma_path_visited(
    h: HiveView,
    waiting: Seq<u64>,
    visited: Seq<u64>,
    path: Seq<u64>,
    i: int,
)
    requires
        walk_inv(h, waiting, visited),
        next_unread(h, waiting) is None,
        is_path(h, path),
        0 <= i < path.len(),
    ensures
        visited.contains(path[i]),
    decreases i,
{
    lemma_settled(h, waiting);
    assert forall|x: u64| waiting.contains(x) implies visited.contains(x) by {
        let k = choose|k: int| 0 <= k < waiting.len() && waiting[k] == x;
        assert(h.nodes.contains_key(waiting[k]));
    }
    if i > 0 {
        lemma_path_visited(h, waiting, visited, path, i - 1);
        assert(linked(h, path[i - 1], path[i]));
    }
}

/// The walk over one hive.
pub struct Hive {
    handle: HiveHandle,
    nodes: Vec<NodeHandle>,
    visited: Ghost<Seq<u64>>,
}

impl Hive {
    /// What the engine has reported in this walk.
    pub closed spec fn session(&self) -> HiveView {
        self.handle@
    }

    /// The handles that wait to be visited, the next on top, which is last.
    pub closed spec fn waiting(&self) -> Seq<u64> {
        self.nodes.deep_view()
    }

    /// The nodes visited so far, in the order of the visits.
    pub closed spec fn visited(&self) -> Seq<u64> {
        self.visited@
    }

    /// Whether the walk is in order; every walk that [`Hive::new`] made is,
    /// and stays so.
    pub closed spec fn wf(&self) -> bool {
        walk_inv(self.handle@, self.nodes.deep_view(), self.visited@)
    }
}

/// What [`Hive::new`] answers: for a path at which no file stands, that and
/// nothing else; for a file that the engine did not open, or of which it
/// gave no root, the engine's failure; else a walk that waits at the root.
pub open spec fn opening(path: Seq<char>, exists: bool, opened: Option<(u64, i64)>) -> Result<
    HiveView,
    ErrorView,
> {
    if !exists {
        Err(hive_does_not_exist(path))
    } else {
        match opened {
            None => Err(hivex_error("hivex_open"@)),
            Some((root, last_modified)) => if root == 0 {
                Err(hivex_error("hivex_root"@))
            } else {
                Ok(
                    HiveView {
                        root,
                        last_modified,
                        nodes: Map::<u64, NodeRecordView>::empty(),
                        values: Map::<u64, ValueRecordView>::empty(),
                    },
                )
            },
        }
    }
}

impl Hive {
    /// Starts the walk over the hive at `path`. `exists` says whether a
    /// file stands there; `opened` is what the engine gave when it opened
    /// the file, the root (`0` for none) and the hive's tick count, or
    /// `None` where it did not open it.
    pub fn new(path: &str, exists: bool, opened: Option<(u64, i64)>) -> (res: Result<Hive, Error>)
        ensures
            match opening(path@, exists, opened) {
                Ok(session) => res matches Ok(hive) && hive.wf() && hive.session() == session
                    && hive.waiting() == seq![session.root] && hive.visited() == Seq::<
                    u64,
                >::empty(),
                Err(e) => res matches Err(err) && err@ == e,
            },
    {
        if !exists {
            return Err(Error::hive_does_not_exist(path));
        }
        let (root, last_modified) = match opened {
            Some(session) => session,
            None => {
                return Err(Error::hivex_error("hivex_open"));
            },
        };
        let mut hive = Hive {
            handle: HiveHandle::new(root, last_modified),
            nodes: Vec::new(),
            visited: Ghost(Seq::empty()),
        };
        match Hive::recurse_nodes(&hive.handle, &mut hive.nodes) {
            Ok(()) => {},
            Err(e) => {
                return Err(e);
            },
        }
        proof {
            let h = hive.handle@;
            let waiting = hive.nodes.deep_view();
            assert(waiting =~= seq![h.root]);
            assert(waiting[0] == h.root);
            lemma_root_reachable(h);
            assert forall|a: u64, b: u64| !linked(h, a, b) by {}
        }
        Ok(hive)
    }

    /// Puts the root of the hive on the stack `nodes`; from there the
    /// steps of the walk reach every node.
    fn recurse_nodes(handle: &HiveHandle, nodes: &mut Vec<NodeHandle>) -> (res: Result<(), Error>)
        ensures
            match hive_root(handle@) {
                Ok(root) => res is Ok && final(nodes).deep_view() == old(nodes).deep_view().push(
                    root,
                ),
                Err(e) => res matches Err(err) && err@ == e && final(nodes).deep_view() == old(
                    nodes,
                ).deep_view(),
            },
    {
        match handle.root() {
            Ok(root) => {
                let ghost before = nodes.deep_view();
                nodes.push(root);
                assert(nodes.deep_view() =~= before.push(root@));
                Ok(())
            },
            Err(e) => Err(e),
        }
    }

    /// Puts the children of `node` on the stack `nodes`, in the engine's
    /// order, so that the last child is visited first.
    fn node_child_recurse(hive: &HiveHandle, node: &NodeHandle, nodes: &mut Vec<NodeHandle>) -> (res:
        Result<(), Error>)
        ensures
            match node_children(hive@, node@) {
                Ok(list) => res is Ok && final(nodes).deep_view() == old(nodes).deep_view() + list,
                Err(e) => res matches Err(err) && err@ == e && final(nodes).deep_view() == old(
                    nodes,
                ).deep_view(),
            },
    {
        let children = match node.children(hive) {
            Ok(children) => children,
            Err(e) => {
                return Err(e);
            },
        };
        let ghost before = nodes.deep_view();
        let ghost list = children.deep_view();
        let mut i: usize = 0;
        assert(list.subrange(0, 0) =~= Seq::<u64>::empty());
        assert(before + Seq::<u64>::empty() =~= before);
        while i < children.len()
            invariant
                i <= children.len(),
                list == children.deep_view(),
                nodes.deep_view() == before + list.subrange(0, i as int),
            decreases children.len() - i,
        {
            let ghost earlier = nodes.deep_view();
            nodes.push(children[i]);
            proof {
                assert(nodes.deep_view() =~= earlier.push(children[i as int]@));
                assert(list[i as int] == children[i as int]@);
                assert(earlier.push(list[i as int]) =~= before + list.subrange(0, i + 1));
            }
            i = i + 1;
        }
        assert(list.subrange(0, i as int) =~= list);
        Ok(())
    }

    /// What the engine has reported in this walk.
    pub fn handle(&self) -> (handle: &HiveHandle)
        ensures
            handle@ == self.session(),
    {
        &self.handle
    }

    /// Writes down what the engine reported of `value`. The walk itself is
    /// not touched.
    pub fn record_value(&mut self, value: &ValueHandle, record: ValueRecord)
        requires
            old(self).wf(),
        ensures
            final(self).wf(),
            final(self).session() == (HiveView {
                values: old(self).session().values.insert(value@, record@),
                ..old(self).session()
            }),
            final(self).waiting() == old(self).waiting(),
            final(self).visited() == old(self).visited(),
    {
        let ghost before = self.handle@;
        self.handle.record_value(value, record);
        proof {
            lemma_inv_values(before, self.handle@, self.nodes.deep_view(), self.visited@);
        }
    }

    /// The node that the next step visits, of which the engine is to be
    /// asked next; `None` when the walk is over.
    pub fn pending(&self) -> (res: Option<NodeHandle>)
        ensures
            match next_unread(self.session(), self.waiting()) {
                Some(n) => res matches Some(node) && node@ == n,
                None => res is None,
            },
            res matches Some(node) ==> !self.session().nodes.contains_key(node@),
    {
        let ghost waiting = self.nodes.deep_view();
        proof {
            lemma_next_unread(self.handle@, waiting);
        }
        let mut i: usize = self.nodes.len();
        assert(waiting.subrange(0, i as int) =~= waiting);
        while i > 0 && self.handle.has_node(&self.nodes[i - 1])
            invariant
                i <= self.nodes.len(),
                waiting == self.nodes.deep_view(),
                settled(self.handle@, waiting.subrange(0, i as int)) == settled(
                    self.handle@,
                    waiting,
                ),
            decreases i,
        {
            proof {
                let upto = waiting.subrange(0, i as int);
                assert(upto.last() == self.nodes[i - 1]@);
                assert(upto.drop_last() =~= waiting.subrange(0, i - 1));
            }
            i = i - 1;
        }
        proof {
            let upto = waiting.subrange(0, i as int);
            if i > 0 {
                assert(upto.last() == self.nodes[i - 1]@);
            }
            assert(settled(self.handle@, upto) == upto);
        }
        if i == 0 {
            None
        } else {
            Some(self.nodes[i - 1])
        }
    }

    /// Takes off the stack the handles on top of which something is on
    /// record already.
    fn skip_read(&mut self)
        requires
            old(self).wf(),
        ensures
            final(self).wf(),
            final(self).session() == old(self).session(),
            final(self).visited() == old(self).visited(),
            final(self).waiting() == settled(old(self).session(), old(self).waiting()),
    {
        let ghost first = self.nodes.deep_view();
        proof {
            lemma_inv_settled(self.handle@, first, self.visited@);
        }
        while self.nodes.len() > 0 && self.handle.has_node(&self.nodes[self.nodes.len() - 1])
            invariant
                self.handle == old(self).handle,
                self.visited == old(self).visited,
                settled(self.handle@, self.nodes.deep_view()) == settled(self.handle@, first),
            decreases self.nodes.len(),
        {
            let ghost earlier = self.nodes.deep_view();
            proof {
                assert(earlier.last() == self.nodes[self.nodes.len() - 1]@);
            }
            self.nodes.pop();
            proof {
                assert(self.nodes.deep_view() =~= earlier.drop_last());
            }
        }
        proof {
            let rest = self.nodes.deep_view();
            if rest.len() > 0 {
                assert(rest.last() == self.nodes[self.nodes.len() - 1]@);
            }
            assert(settled(self.handle@, rest) == rest);
        }
    }

    /// One step of the walk. `record` is what the engine reported of the
    /// node that [`Hive::pending`] names. The step writes it down and puts
    /// the node's children on the stack. Where the engine failed to list
    /// the children, that failure is the answer. Else the answer is the
    /// node read in full, or the error that reading it met. The walk goes
    /// on in each case. The node's values are read from what
    /// [`Hive::record_value`] wrote down before the step. `None` when the
    /// walk is over.
    pub fn next(&mut self, record: NodeRecord) -> (res: Option<Result<Node, Error>>)
        requires
            old(self).wf(),
        ensures
            final(self).wf(),
            match next_unread(old(self).session(), old(self).waiting()) {
                None => {
                    &&& res is None
                    &&& final(self).session() == old(self).session()
                    &&& final(self).visited() == old(self).visited()
                    &&& final(self).waiting() == Seq::<u64>::empty()
                },
                Some(n) => {
                    &&& final(self).session() == with_node(old(self).session(), n, record@)
                    &&& final(self).visited() == old(self).visited().push(n)
                    &&& final(self).waiting() == settled(
                        old(self).session(),
                        old(self).waiting(),
                    ).drop_last() + listed_children(record@)
                    &&& res matches Some(read)
                    &&& match visit_of(final(self).session(), n) {
                        Ok(view) => read matches Ok(node) && node@ == view,
                        Err(e) => read matches Err(err) && err@ == e,
                    }
                },
            },
    {
        self.skip_read();
        let ghost h = self.handle@;
        let ghost waiting = self.nodes.deep_view();
        let ghost visited = self.visited@;
        let node = match self.nodes.pop() {
            Some(node) => node,
            None => {
                assert(waiting =~= Seq::<u64>::empty());
                return None;
            },
        };
        proof {
            lemma_settled(old(self).session(), old(self).waiting());
            assert(waiting.last() == node@);
            assert(self.nodes.deep_view() =~= waiting.drop_last());
            lemma_inv_step(h, waiting, visited, record@);
        }
        self.handle.record_node(&node, record);
        proof {
            assert(self.handle@ == with_node(h, node@, record@));
            assert(self.handle@.nodes.contains_key(node@));
        }
        let listed = Hive::node_child_recurse(&self.handle, &node, &mut self.nodes);
        self.visited = Ghost(visited.push(node@));
        match listed {
            Ok(()) => Some(Node::from_handle(&self.handle, &node)),
            Err(e) => {
                proof {
                    assert(waiting.drop_last() + Seq::<u64>::empty() =~= waiting.drop_last());
                }
                Some(Err(e))
            },
        }
    }
}

/// A walk that is over has visited the root and every node that child
/// links reach from it, each exactly once, and no other: the visited nodes
/// hold no node twice, a node is among them if and only if it can be
/// reached, and they are as many as the nodes that can be reached.
pub proof fn lemma_walk_visits_reachable_once(hive: Hive)
    requires
        hive.wf(),
        next_unread(hive.session(), hive.waiting()) is None,
    ensures
        hive.visited().no_duplicates(),
        hive.visited().contains(hive.session().root),
        forall|n: u64| hive.visited().contains(n) <==> reachable(hive.session(), n),
        hive.visited().len() == Set::new(|n: u64| reachable(hive.session(), n)).len(),
{
    let h = hive.session();
    let waiting = hive.waiting();
    let visited = hive.visited();
    assert forall|n: u64| reachable(h, n) implies visited.contains(n) by {
        let path = choose|path: Seq<u64>| #[trigger] is_path(h, path) && path.last() == n;
        lemma_path_visited(h, waiting, visited, path, path.len() - 1);
    }
    lemma_root_reachable(h);
    assert(visited.to_set() =~= Set::new(|n: u64| reachable(h, n)));
    visited.unique_seq_to_set();
}

} // verus!
