//! Nodes: a name, the path from the root, the last modification, the values.
use vstd::prelude::*;
use vstd::string::StringExecFns;
use crate::error::Error;
use crate::error::ErrorView;
use crate::error::hivex_error;
use crate::sys::HiveHandle;
use crate::sys::HiveView;
use crate::sys::NodeHandle;
use crate::sys::node_name;
use crate::sys::node_parent;
use crate::sys::node_ticks;
use crate::sys::node_values;
use crate::timestamp::Timestamp;
use crate::timestamp::TimestampView;
use crate::timestamp::filetime_seconds;
use crate::timestamp::moment;
use crate::value::Value;
use crate::value::ValueView;
use crate::value::value_of;

verus! {

/// The names on the way from node `n` up to the node without a parent, `n`
/// first. The walk follows at most `fuel` parent links; a chain that is
/// longer fails as an error of the parent lookup. The first name that the
/// engine fails to give fails the whole walk.
pub open spec fn lineage(h: HiveView, n: u64, fuel: nat) -> Result<Seq<Seq<char>>, ErrorView>
    decreases fuel,
{
    match node_name(h, n) {
        Err(e) => Err(e),
        Ok(name) => match node_parent(h, n) {
            None => Ok(seq![name]),
            Some(p) => if fuel == 0 {
                Err(hivex_error("hivex_node_parent"@))
            } else {
                match lineage(h, p, (fuel - 1) as nat) {
                    Ok(rest) => Ok(seq![name] + rest),
                    Err(e) => Err(e),
                }
            },
        },
    }
}

/// The path made of names listed from the node upward: the names in
/// reverse, each behind a slash.
pub open spec fn join_reversed(names: Seq<Seq<char>>) -> Seq<char>
    decreases names.len(),
{
    if names.len() == 0 {
        Seq::empty()
    } else {
        join_reversed(names.drop_first()) + "/"@ + names[0]
    }
}

/// The number of parent links that a walk follows before it gives up: as
/// many as there are nodes on record, so that only a chain that runs in a
/// circle is cut off.
pub open spec fn walk_limit(h: HiveView) -> nat {
    h.nodes.dom().len()
}

/// The absolute path of node `n`.
pub open spec fn path_of(h: HiveView, n: u64) -> Result<Seq<char>, ErrorView> {
    match lineage(h, n, walk_limit(h)) {
        Ok(names) => Ok(join_reversed(names)),
        Err(e) => Err(e),
    }
}

/// The values with the handles `list`, in order; the first that fails to
/// decode fails them all.
pub open spec fn values_of(h: HiveView, list: Seq<u64>) -> Result<Seq<ValueView>, ErrorView>
    decreases list.len(),
{
    if list.len() == 0 {
        Ok(Seq::empty())
    } else {
        match values_of(h, list.drop_last()) {
            Err(e) => Err(e),
            Ok(values) => match value_of(h, list.last()) {
                Ok(value) => Ok(values.push(value)),
                Err(e) => Err(e),
            },
        }
    }
}

/// The mathematical value of a [`Node`].
pub struct NodeView {
    pub name: Seq<char>,
    pub path: Seq<char>,
    pub last_modified: TimestampView,
    pub values: Seq<ValueView>,
}

impl NodeView {
    /// Whether the path ends in a slash and the name.
    pub open spec fn path_ends_in_name(self) -> bool {
        exists|before: Seq<char>| self.path == #[trigger] (before + "/"@ + self.name)
    }
}

/// Node `n` in full: the name, then the path, then the time, then the
/// values. The first failure is the answer.
pub open spec fn node_of(h: HiveView, n: u64) -> Result<NodeView, ErrorView> {
    match node_name(h, n) {
        Err(e) => Err(e),
        Ok(name) => match path_of(h, n) {
            Err(e) => Err(e),
            Ok(path) => match node_values(h, n) {
                Err(e) => Err(e),
                Ok(list) => match values_of(h, list) {
                    Err(e) => Err(e),
                    Ok(values) => Ok(
                        NodeView {
                            name,
                            path,
                            last_modified: moment(filetime_seconds(node_ticks(h, n) as int)),
                            values,
                        },
                    ),
                },
            },
        },
    }
}

/// A node of the tree, read in full.
#[derive(Debug)]
pub struct Node {
    name: String,
    path: String,
    last_modified: Timestamp,
    values: Vec<Value>,
}

impl View for Node {
    type V = NodeView;

    closed spec fn view(&self) -> NodeView {
        NodeView {
            name: self.name@,
            path: self.path@,
            last_modified: self.last_modified@,
            values: self.values.deep_view(),
        }
    }
}

/// A node with one of its values.
#[derive(Debug)]
pub struct NodeByValue {
    name: String,
    path: String,
    last_modified: Timestamp,
    values: Value,
}

/// The mathematical value of a [`NodeByValue`].
pub struct NodeByValueView {
    pub name: Seq<char>,
    pub path: Seq<char>,
    pub last_modified: TimestampView,
    pub values: ValueView,
}

impl View for NodeByValue {
    type V = NodeByValueView;

    closed spec fn view(&self) -> NodeByValueView {
        NodeByValueView {
            name: self.name@,
            path: self.path@,
            last_modified: self.last_modified@,
            values: self.values@,
        }
    }
}

impl DeepView for NodeByValue {
    type V = NodeByValueView;

    open spec fn deep_view(&self) -> NodeByValueView {
        self@
    }
}

impl Node {
    /// Walks from `node` up to the node without a parent and adds the names
    /// met to `parts`, `node`'s own first.
    fn recurse_node_parents(hive: &HiveHandle, node: &NodeHandle, parts: &mut Vec<String>) -> (res:
        Result<(), Error>)
        ensures
            match lineage(hive@, node@, walk_limit(hive@)) {
                Ok(names) => res is Ok && final(parts).deep_view() == old(parts).deep_view()
                    + names,
                Err(e) => res matches Err(err) && err@ == e,
            },
    {
        let limit = hive.node_count();
        let ghost before = parts.deep_view();
        let ghost mut found: Seq<Seq<char>> = Seq::empty();
        let mut current = *node;
        let mut followed: usize = 0;
        loop
            invariant
                followed <= limit == walk_limit(hive@),
                before == old(parts).deep_view(),
                parts.deep_view() == before + found,
                match lineage(hive@, current@, (limit - followed) as nat) {
                    Ok(rest) => lineage(hive@, node@, limit as nat) == Ok::<
                        Seq<Seq<char>>,
                        ErrorView,
                    >(found + rest),
                    Err(e) => lineage(hive@, node@, limit as nat) == Err::<
                        Seq<Seq<char>>,
                        ErrorView,
                    >(e),
                },
            decreases limit - followed,
        {
            let name = match current.name(hive) {
                Ok(name) => name,
                Err(e) => {
                    return Err(e);
                },
            };
            let ghost text = name@;
            let ghost earlier = parts.deep_view();
            parts.push(name);
            proof {
                assert(parts.deep_view() =~= earlier.push(text));
                assert(earlier.push(text) =~= before + found.push(text));
            }
            match current.parent(hive) {
                None => {
                    proof {
                        assert(found + seq![text] =~= found.push(text));
                    }
                    return Ok(());
                },
                Some(parent) => {
                    if followed == limit {
                        return Err(Error::hivex_error("hivex_node_parent"));
                    }
                    proof {
                        match lineage(hive@, parent@, (limit - followed - 1) as nat) {
                            Ok(rest) => {
                                assert(found + (seq![text] + rest) =~= found.push(text) + rest);
                            },
                            Err(_) => {},
                        }
                        found = found.push(text);
                    }
                    current = parent;
                    followed = followed + 1;
                },
            }
        }
    }

    /// The absolute path of `node`: the names from the node without a
    /// parent down to `node`, each behind a slash.
    fn construct_path(hive: &HiveHandle, node: &NodeHandle) -> (res: Result<String, Error>)
        ensures
            match path_of(hive@, node@) {
                Ok(text) => res matches Ok(path) && path@ == text,
                Err(e) => res matches Err(err) && err@ == e,
            },
    {
        let mut path = String::new();
        let mut parts: Vec<String> = Vec::new();
        match Node::recurse_node_parents(hive, node, &mut parts) {
            Ok(()) => {},
            Err(e) => {
                return Err(e);
            },
        }
        let ghost names = parts.deep_view();
        assert(names =~= lineage(hive@, node@, walk_limit(hive@))->Ok_0);
        let mut i: usize = parts.len();
        assert(names.subrange(i as int, names.len() as int) =~= Seq::<Seq<char>>::empty());
        while i > 0
            invariant
                i <= parts.len(),
                names == parts.deep_view(),
                path@ == join_reversed(names.subrange(i as int, names.len() as int)),
            decreases i,
        {
            i = i - 1;
            proof {
                let tail = names.subrange(i as int, names.len() as int);
                assert(tail.drop_first() =~= names.subrange(i + 1, names.len() as int));
                assert(tail[0] == parts[i as int]@);
            }
            path.append("/");
            path.append(parts[i].as_str());
        }
        assert(names.subrange(0, names.len() as int) =~= names);
        Ok(path)
    }

    /// Reads `node` from the session.
    pub fn from_handle(hive: &HiveHandle, node: &NodeHandle) -> (res: Result<Node, Error>)
        ensures
            match node_of(hive@, node@) {
                Ok(view) => res matches Ok(n) && n@ == view,
                Err(e) => res matches Err(err) && err@ == e,
            },
            res matches Ok(n) ==> n@.path_ends_in_name(),
    {
        let name = match node.name(hive) {
            Ok(name) => name,
            Err(e) => {
                return Err(e);
            },
        };
        let path = match Node::construct_path(hive, node) {
            Ok(path) => path,
            Err(e) => {
                return Err(e);
            },
        };
        let last_modified = node.last_modified(hive);
        let handles = match node.values(hive) {
            Ok(handles) => handles,
            Err(e) => {
                return Err(e);
            },
        };
        let ghost list = handles.deep_view();
        let mut values: Vec<Value> = Vec::new();
        let mut i: usize = 0;
        assert(list.subrange(0, 0) =~= Seq::<u64>::empty());
        assert(values.deep_view() =~= Seq::<ValueView>::empty());
        while i < handles.len()
            invariant
                i <= handles.len(),
                list == handles.deep_view(),
                values_of(hive@, list.subrange(0, i as int)) == Ok::<Seq<ValueView>, ErrorView>(
                    values.deep_view(),
                ),
                node_name(hive@, node@) is Ok,
                path_of(hive@, node@) is Ok,
                node_values(hive@, node@) == Ok::<Seq<u64>, ErrorView>(list),
            decreases handles.len() - i,
        {
            let ghost upto = list.subrange(0, i + 1);
            proof {
                assert(upto.drop_last() =~= list.subrange(0, i as int));
                assert(upto.last() == handles[i as int]@);
            }
            match Value::from_handle(hive, &handles[i]) {
                Ok(value) => {
                    let ghost before = values.deep_view();
                    values.push(value);
                    proof {
                        assert(values.deep_view() =~= before.push(value@));
                    }
                },
                Err(e) => {
                    proof {
                        assert(values_of(hive@, upto) == Err::<Seq<ValueView>, ErrorView>(e@));
                        lemma_values_fail(hive@, list, i + 1);
                    }
                    return Err(e);
                },
            }
            i = i + 1;
        }
        assert(list.subrange(0, i as int) =~= list);
        let read = Node { name, path, last_modified, values };
        proof {
            let names = lineage(hive@, node@, walk_limit(hive@))->Ok_0;
            assert(read@.path == join_reversed(names.drop_first()) + "/"@ + read@.name);
        }
        Ok(read)
    }
}

/// A failure among the first `k` values is the failure of the whole list.
proof fn lemma_values_fail(h: HiveView, list: Seq<u64>, k: int)
    requires
        0 <= k <= list.len(),
        values_of(h, list.subrange(0, k)) is Err,
    ensures
        values_of(h, list) == values_of(h, list.subrange(0, k)),
    decreases list.len() - k,
{
    if k < list.len() {
        let next = list.subrange(0, k + 1);
        assert(next.drop_last() =~= list.subrange(0, k));
        lemma_values_fail(h, list, k + 1);
    } else {
        assert(list.subrange(0, k) =~= list);
    }
}

impl Node {
    /// The name of the node.
    pub fn name(&self) -> (name: &str)
        ensures
            name@ == self@.name,
    {
        self.name.as_str()
    }

    /// The absolute path of the node.
    pub fn path(&self) -> (path: &str)
        ensures
            path@ == self@.path,
    {
        self.path.as_str()
    }

    /// When the node was last modified.
    pub fn last_modified(&self) -> (t: &Timestamp)
        ensures
            t@ == self@.last_modified,
    {
        &self.last_modified
    }

    /// The values of the node, in the engine's order.
    pub fn values(&self) -> (values: &Vec<Value>)
        ensures
            values.deep_view() == self@.values,
    {
        &self.values
    }

    /// The node once for each of its values, in their order.
    pub fn get_nodes_by_value(&self) -> (nodes: Vec<NodeByValue>)
        ensures
            nodes.len() == self@.values.len(),
            forall|i: int|
                0 <= i < nodes.len() ==> (#[trigger] nodes[i])@ == (NodeByValueView {
                    name: self@.name,
                    path: self@.path,
                    last_modified: self@.last_modified,
                    values: self@.values[i],
                }),
    {
        let mut nodes: Vec<NodeByValue> = Vec::new();
        let mut i: usize = 0;
        while i < self.values.len()
            invariant
                i <= self.values.len(),
                nodes.len() == i,
                forall|j: int|
                    0 <= j < i ==> (#[trigger] nodes[j])@ == (NodeByValueView {
                        name: self@.name,
                        path: self@.path,
                        last_modified: self@.last_modified,
                        values: self@.values[j],
                    }),
            decreases self.values.len() - i,
        {
            nodes.push(
                NodeByValue {
                    name: self.name.clone(),
                    path: self.path.clone(),
                    last_modified: self.last_modified.clone(),
                    values: self.values[i].clone(),
                },
            );
            i = i + 1;
        }
        nodes
    }
}

impl NodeByValue {
    /// The name of the node.
    pub fn name(&self) -> (name: &str)
        ensures
            name@ == self@.name,
    {
        self.name.as_str()
    }

    /// The absolute path of the node.
    pub fn path(&self) -> (path: &str)
        ensures
            path@ == self@.path,
    {
        self.path.as_str()
    }

    /// When the node was last modified.
    pub fn last_modified(&self) -> (t: &Timestamp)
        ensures
            t@ == self@.last_modified,
    {
        &self.last_modified
    }

    /// The one value.
    pub fn value(&self) -> (value: &Value)
        ensures
            value@ == self@.values,
    {
        &self.values
    }
}

/// Every path ends in a slash and the name of its node.
pub proof fn lemma_path_ends_in_name(h: HiveView, n: u64)
    ensures
        path_of(h, n) matches Ok(path) ==> node_name(h, n) matches Ok(name) && exists|
            before: Seq<char>,
        | path == #[trigger] (before + "/"@ + name),
{
    match lineage(h, n, walk_limit(h)) {
        Ok(names) => {
            let name = node_name(h, n)->Ok_0;
            assert(names[0] == name);
            let before = join_reversed(names.drop_first());
            assert(join_reversed(names) == before + "/"@ + name);
        },
        Err(_) => {},
    }
}

/// A walk that succeeds with some fuel gives the same with more.
proof fn lemma_lineage_more_fuel(h: HiveView, n: u64, fuel: nat, more: nat)
    requires
        lineage(h, n, fuel) is Ok,
        fuel <= more,
    ensures
        lineage(h, n, more) == lineage(h, n, fuel),
    decreases fuel,
{
    if node_parent(h, n) is Some && fuel > 0 {
        lemma_lineage_more_fuel(
            h,
            node_parent(h, n)->0,
            (fuel - 1) as nat,
            (more - 1) as nat,
        );
    }
}

/// A walk that succeeds needs no more fuel than it found names, less one.
proof fn lemma_lineage_least_fuel(h: HiveView, n: u64, fuel: nat)
    requires
        lineage(h, n, fuel) is Ok,
    ensures
        lineage(h, n, fuel)->Ok_0.len() >= 1,
        lineage(h, n, (lineage(h, n, fuel)->Ok_0.len() - 1) as nat) == lineage(h, n, fuel),
    decreases fuel,
{
    if node_parent(h, n) is Some {
        let p = node_parent(h, n)->0;
        lemma_lineage_least_fuel(h, p, (fuel - 1) as nat);
    }
}

/// The nodes on the way up from `n`, as far as `fuel` reaches.
spec fn ancestry(h: HiveView, n: u64, fuel: nat) -> Seq<u64>
    decreases fuel,
{
    match node_parent(h, n) {
        None => seq![n],
        Some(p) => if fuel == 0 {
            seq![n]
        } else {
            seq![n] + ancestry(h, p, (fuel - 1) as nat)
        },
    }
}

/// On a walk that succeeds every node is on record, and the walk from the
/// node at place `i` finds the names from place `i` on.
proof fn lemma_ancestry(h: HiveView, n: u64, fuel: nat, i: int)
    requires
        lineage(h, n, fuel) is Ok,
        0 <= i < ancestry(h, n, fuel).len(),
    ensures
        ancestry(h, n, fuel).len() == lineage(h, n, fuel)->Ok_0.len(),
        h.nodes.contains_key(ancestry(h, n, fuel)[i]),
        i <= fuel,
        lineage(h, ancestry(h, n, fuel)[i], (fuel - i) as nat) is Ok,
        lineage(h, ancestry(h, n, fuel)[i], (fuel - i) as nat)->Ok_0.len() == lineage(
            h,
            n,
            fuel,
        )->Ok_0.len() - i,
    decreases fuel,
{
    if node_parent(h, n) is Some {
        let p = node_parent(h, n)->0;
        lemma_ancestry(h, p, (fuel - 1) as nat, 0);
        if i > 0 {
            lemma_ancestry(h, p, (fuel - 1) as nat, i - 1);
        }
    }
}

/// A walk that succeeds meets no node twice.
proof fn lemma_ancestry_distinct(h: HiveView, n: u64, fuel: nat)
    requires
        lineage(h, n, fuel) is Ok,
    ensures
        ancestry(h, n, fuel).no_duplicates(),
    decreases fuel,
{
    if node_parent(h, n) is Some {
        let p = node_parent(h, n)->0;
        let rest = ancestry(h, p, (fuel - 1) as nat);
        let all = ancestry(h, n, fuel);
        lemma_ancestry_distinct(h, p, (fuel - 1) as nat);
        assert forall|i: int, j: int| 0 <= i < all.len() && 0 <= j < all.len() && i
            != j implies all[i] != all[j] by {
            if i > 0 && j > 0 {
                assert(rest[i - 1] != rest[j - 1]);
            } else {
                // a node that came again further up would have two heights
                let k = if i == 0 {
                    j
                } else {
                    i
                };
                lemma_ancestry(h, n, fuel, k);
                if all[k] == n {
                    lemma_lineage_more_fuel(h, n, (fuel - k) as nat, fuel);
                }
            }
        }
    }
}

/// A walk that succeeds finds no more names than there are nodes on record.
proof fn lemma_lineage_bounded(h: HiveView, n: u64, fuel: nat)
    requires
        h.nodes.dom().finite(),
        lineage(h, n, fuel) is Ok,
    ensures
        lineage(h, n, fuel)->Ok_0.len() <= walk_limit(h),
{
    let met = ancestry(h, n, fuel);
    lemma_ancestry(h, n, fuel, 0);
    lemma_ancestry_distinct(h, n, fuel);
    assert forall|x: u64| met.to_set().contains(x) implies h.nodes.dom().contains(x) by {
        let i = choose|i: int| 0 <= i < met.len() && met[i] == x;
        lemma_ancestry(h, n, fuel, i);
    }
    met.unique_seq_to_set();
    vstd::set_lib::lemma_len_subset(met.to_set(), h.nodes.dom());
}

/// The path of a node without a parent is a slash and the node's name.
pub proof fn lemma_path_of_root(h: HiveView, n: u64)
    requires
        node_parent(h, n) is None,
    ensures
        path_of(h, n) == match node_name(h, n) {
            Ok(name) => Ok::<Seq<char>, ErrorView>("/"@ + name),
            Err(e) => Err(e),
        },
{
    reveal_with_fuel(join_reversed, 2);
    match node_name(h, n) {
        Ok(name) => {
            assert(seq![name].drop_first() =~= Seq::<Seq<char>>::empty());
            assert(join_reversed(seq![name]) =~= "/"@ + name);
        },
        Err(_) => {},
    }
}

/// The path of a node with a parent is the parent's path, a slash and the
/// node's name: where the parent of node `n` has a path and `n` a name, the
/// path of `n` is the one of the parent with `/` and the name of `n` behind
/// it.
pub proof fn lemma_path_of_child(h: HiveView, n: u64)
    requires
        h.nodes.dom().finite(),
        node_parent(h, n) is Some,
        node_name(h, n) is Ok,
        path_of(h, node_parent(h, n)->0) is Ok,
    ensures
        path_of(h, n) == Ok::<Seq<char>, ErrorView>(
            path_of(h, node_parent(h, n)->0)->Ok_0 + "/"@ + node_name(h, n)->Ok_0,
        ),
{
    let p = node_parent(h, n)->0;
    let name = node_name(h, n)->Ok_0;
    let fuel = walk_limit(h);
    let rest = lineage(h, p, fuel)->Ok_0;
    // the walk from `n` with one link more succeeds, so it fits the record
    assert(lineage(h, n, fuel + 1) == Ok::<Seq<Seq<char>>, ErrorView>(seq![name] + rest));
    lemma_lineage_bounded(h, n, fuel + 1);
    lemma_lineage_least_fuel(h, p, fuel);
    lemma_lineage_more_fuel(h, p, (rest.len() - 1) as nat, (fuel - 1) as nat);
    assert(lineage(h, n, fuel) == Ok::<Seq<Seq<char>>, ErrorView>(seq![name] + rest));
    assert((seq![name] + rest).drop_first() =~= rest);
}

/// No path without the parent's: where the parent of node `n` has no
/// path, `n` has none.
pub proof fn lemma_no_path_without_parent(h: HiveView, n: u64)
    requires
        node_parent(h, n) is Some,
        path_of(h, node_parent(h, n)->0) is Err,
    ensures
        path_of(h, n) is Err,
{
    let p = node_parent(h, n)->0;
    let fuel = walk_limit(h);
    if fuel > 0 && lineage(h, p, (fuel - 1) as nat) is Ok {
        lemma_lineage_more_fuel(h, p, (fuel - 1) as nat, fuel);
    }
}

} // verus!
