//! The settings tree: named branches that hold further nodes, and named values, each with a
//! weight that orders it and a description; and its flattening into settings keyed by their
//! dotted paths.
//!
//! A node's children are kept as pairs of a name and a node, in the order they were added;
//! adding under a name that is there already replaces that child, so no name occurs twice.
use vstd::prelude::*;
use crate::text::{append_str, string_of};

verus! {

/// A node of the settings tree; `V` is the type of the values.
#[derive(Debug)]
pub enum TreeNode<V> {
    Branch {
        changed: bool,
        weight: usize,
        children: Vec<(String, TreeNode<V>)>,
        description: String,
    },
    Value {
        changed: bool,
        is_not_default: bool,
        weight: usize,
        value: V,
        description: String,
        unit: Option<String>,
    },
}

/// A value of the tree as it is collected: its weight, value, description and unit.
#[derive(Debug)]
pub struct RawSetting<V> {
    pub weight: usize,
    pub value: V,
    pub description: String,
    pub unit: Option<String>,
}

/// The whole tree: its named top-level nodes.
#[derive(Debug)]
pub struct SettingTree<V> {
    root_children: Vec<(String, TreeNode<V>)>,
}

/// A collected value as it is meant: its dotted path, weight, value, description and unit.
pub struct LeafView<V> {
    pub path: Seq<char>,
    pub weight: usize,
    pub value: V,
    pub description: Seq<char>,
    pub unit: Option<Seq<char>>,
}

pub open spec fn opt_text(o: Option<String>) -> Option<Seq<char>> {
    match o {
        Some(s) => Some(s@),
        None => None,
    }
}

/// Whether a node was changed in the last edit.
pub open spec fn node_changed<V>(node: TreeNode<V>) -> bool {
    match node {
        TreeNode::Branch { changed, .. } => changed,
        TreeNode::Value { changed, .. } => changed,
    }
}

/// Whether collecting visits a node: every node, or only the changed ones.
pub open spec fn visits<V>(node: TreeNode<V>, only_changed: bool) -> bool {
    !only_changed || node_changed(node)
}

/// The path of child `key` under `path`.
pub open spec fn child_path(path: Seq<char>, key: Seq<char>) -> Seq<char> {
    path + seq!['.'] + key
}

/// The values found under `node`, which sits at `path`, in the order of the children.
pub open spec fn flatten_node<V>(path: Seq<char>, node: TreeNode<V>, only_changed: bool) -> Seq<
    LeafView<V>,
>
    decreases node, 0nat,
{
    match node {
        TreeNode::Value { weight, value, description, unit, .. } => seq![
            LeafView { path, weight, value, description: description@, unit: opt_text(unit) },
        ],
        TreeNode::Branch { children, .. } => flatten_children(
            path,
            children@,
            only_changed,
            children@.len(),
        ),
    }
}

/// The values found under the first `n` of `children`, which sit under `path`.
pub open spec fn flatten_children<V>(
    path: Seq<char>,
    children: Seq<(String, TreeNode<V>)>,
    only_changed: bool,
    n: nat,
) -> Seq<LeafView<V>>
    decreases children, n,
{
    if n == 0 || n > children.len() {
        seq![]
    } else {
        let (key, child) = children[n - 1];
        let before = flatten_children(path, children, only_changed, (n - 1) as nat);
        if visits(child, only_changed) {
            proof {
                assert(decreases_to!(children => children[n - 1]));
            }
            before + flatten_node(child_path(path, key@), child, only_changed)
        } else {
            before
        }
    }
}

/// The values of the tree under its top-level nodes, each top-level node at its own name.
pub open spec fn flatten_roots<V>(
    roots: Seq<(String, TreeNode<V>)>,
    only_changed: bool,
    n: nat,
) -> Seq<LeafView<V>>
    decreases n,
{
    if n == 0 || n > roots.len() {
        seq![]
    } else {
        let (key, node) = roots[n - 1];
        let before = flatten_roots(roots, only_changed, (n - 1) as nat);
        if visits(node, only_changed) {
            before + flatten_node(key@, node, only_changed)
        } else {
            before
        }
    }
}

/// A collected setting at a path, with its value a clone of the leaf's.
pub open spec fn collected_as<V: Clone>(r: (String, RawSetting<V>), leaf: LeafView<V>) -> bool {
    &&& r.0@ == leaf.path
    &&& r.1.weight == leaf.weight
    &&& cloned(leaf.value, r.1.value)
    &&& r.1.description@ == leaf.description
    &&& opt_text(r.1.unit) == leaf.unit
}

/// Whether `out` lists the settings `leaves`, in order.
pub open spec fn collected_all<V: Clone>(out: Seq<(String, RawSetting<V>)>, leaves: Seq<LeafView<V>>) -> bool {
    &&& out.len() == leaves.len()
    &&& forall|k: int| 0 <= k < out.len() ==> collected_as(#[trigger] out[k], leaves[k])
}

/// The index of the first child named `key`.
pub open spec fn first_named<V>(children: Seq<(String, TreeNode<V>)>, key: Seq<char>) -> Option<int>
    decreases children.len(),
{
    if children.len() == 0 {
        None
    } else if children[0].0@ == key {
        Some(0)
    } else {
        match first_named(children.drop_first(), key) {
            Some(i) => Some(i + 1),
            None => None,
        }
    }
}

/// Whether the children after adding `node` under `key` are `after`: the child of that
/// name replaced, or, where there is none, `node` added last under `key`.
pub open spec fn added_child<V>(
    before: Seq<(String, TreeNode<V>)>,
    key: Seq<char>,
    node: TreeNode<V>,
    after: Seq<(String, TreeNode<V>)>,
) -> bool {
    match first_named(before, key) {
        Some(i) => after == before.update(i, (before[i].0, node)),
        None => {
            &&& after.len() == before.len() + 1
            &&& after.drop_last() == before
            &&& after.last().0@ == key
            &&& after.last().1 == node
        },
    }
}

/// Whether no two children share a name.
pub open spec fn names_distinct<V>(children: Seq<(String, TreeNode<V>)>) -> bool {
    forall|i: int, j: int|
        0 <= i < j < children.len() ==> (#[trigger] children[i]).0@ != (#[trigger] children[j]).0@
}

proof fn lemma_first_named<V>(children: Seq<(String, TreeNode<V>)>, key: Seq<char>, i: int)
    requires
        0 <= i <= children.len(),
        forall|k: int| 0 <= k < i ==> (#[trigger] children[k]).0@ != key,
        i == children.len() || children[i].0@ == key,
    ensures
        first_named(children, key) == if i == children.len() {
            None::<int>
        } else {
            Some(i)
        },
    decreases i,
{
    if i > 0 {
        assert forall|k: int| 0 <= k < i - 1 implies (#[trigger] children.drop_first()[k]).0@
            != key by {
            assert(children.drop_first()[k] == children[k + 1]);
        }
        lemma_first_named(children.drop_first(), key, i - 1);
    }
}

/// Law: after adding a node under a name, the first child of that name is that node, and
/// the children of other names are those that were there.
pub proof fn law_added_child_found<V>(
    before: Seq<(String, TreeNode<V>)>,
    key: Seq<char>,
    node: TreeNode<V>,
    after: Seq<(String, TreeNode<V>)>,
)
    requires
        added_child(before, key, node, after),
    ensures
        first_named(after, key) matches Some(i) && after[i].1 == node,
        forall|j: int| 0 <= j < before.len() && before[j].0@ != key ==> #[trigger] after[j] == before[j],
{
    match first_named(before, key) {
        Some(i) => {
            lemma_first_named_some(before, key);
            assert forall|k: int| 0 <= k < i implies (#[trigger] after[k]).0@ != key by {
                assert(after[k] == before[k]);
            }
            lemma_first_named(after, key, i);
        },
        None => {
            lemma_first_named_none(before, key);
            assert forall|k: int| 0 <= k < before.len() implies (#[trigger] after[k]).0@ != key by {
                assert(after[k] == after.drop_last()[k]);
            }
            lemma_first_named(after, key, before.len() as int);
        },
    }
}

proof fn lemma_first_named_some<V>(children: Seq<(String, TreeNode<V>)>, key: Seq<char>)
    ensures
        first_named(children, key) matches Some(i) ==> 0 <= i < children.len() && children[i].0@
            == key && forall|k: int| 0 <= k < i ==> (#[trigger] children[k]).0@ != key,
    decreases children.len(),
{
    if children.len() > 0 && children[0].0@ != key {
        lemma_first_named_some(children.drop_first(), key);
        match first_named(children.drop_first(), key) {
            Some(i) => {
                assert forall|k: int| 0 <= k < i + 1 implies (#[trigger] children[k]).0@ != key by {
                    if k > 0 {
                        assert(children[k] == children.drop_first()[k - 1]);
                    }
                }
            },
            None => {},
        }
    }
}

proof fn lemma_first_named_none<V>(children: Seq<(String, TreeNode<V>)>, key: Seq<char>)
    ensures
        first_named(children, key) is None ==> forall|k: int|
            0 <= k < children.len() ==> (#[trigger] children[k]).0@ != key,
    decreases children.len(),
{
    if children.len() > 0 && children[0].0@ != key {
        lemma_first_named_none(children.drop_first(), key);
        if first_named(children, key) is None {
            assert forall|k: int| 0 <= k < children.len() implies (#[trigger] children[k]).0@
                != key by {
                if k > 0 {
                    assert(children[k] == children.drop_first()[k - 1]);
                }
            }
        }
    }
}

/// Adds `node` under `path` to `children`, replacing the child of that name.
fn add_child<V>(children: &mut Vec<(String, TreeNode<V>)>, path: &str, node: TreeNode<V>)
    ensures
        added_child(old(children)@, path@, node, final(children)@),
        names_distinct(old(children)@) ==> names_distinct(final(children)@),
{
    let key = crate::text::chars_of(path);
    let mut i: usize = 0;
    while i < children.len()
        invariant
            i <= children@.len(),
            children@ == old(children)@,
            key@ == path@,
            forall|k: int| 0 <= k < i ==> (#[trigger] children@[k]).0@ != path@,
        decreases children@.len() - i,
    {
        let name = crate::text::chars_of(children[i].0.as_str());
        if vec_eq(&name, &key) {
            proof {
                lemma_first_named(children@, path@, i as int);
            }
            let ghost before = children@;
            let (name, _) = children.remove(i);
            children.insert(i, (name, node));
            proof {
                assert(children@ =~= before.update(i as int, (before[i as int].0, node)));
                if names_distinct(before) {
                    assert forall|a: int, b: int|
                        0 <= a < b < children@.len() implies (#[trigger] children@[a]).0@
                        != (#[trigger] children@[b]).0@ by {
                        assert(children@[a].0 == before[a].0);
                        assert(children@[b].0 == before[b].0);
                    }
                }
            }
            return;
        }
        i = i + 1;
    }
    proof {
        lemma_first_named(children@, path@, i as int);
    }
    let ghost before = children@;
    children.push((string_of(&key), node));
    proof {
        assert(children@.drop_last() =~= before);
        if names_distinct(before) {
            assert forall|a: int, b: int|
                0 <= a < b < children@.len() implies (#[trigger] children@[a]).0@
                != (#[trigger] children@[b]).0@ by {
                if b == children@.len() - 1 {
                    assert(children@[a] == before[a]);
                } else {
                    assert(children@[a] == before[a]);
                    assert(children@[b] == before[b]);
                }
            }
        }
    }
}

/// Whether two character vectors are equal.
fn vec_eq(a: &Vec<char>, b: &Vec<char>) -> (r: bool)
    ensures
        r == (a@ == b@),
{
    if a.len() != b.len() {
        return false;
    }
    let mut i: usize = 0;
    while i < a.len()
        invariant
            i <= a@.len(),
            a@.len() == b@.len(),
            forall|k: int| 0 <= k < i ==> a@[k] == b@[k],
        decreases a@.len() - i,
    {
        if a[i] != b[i] {
            return false;
        }
        i = i + 1;
    }
    assert(a@ =~= b@);
    true
}

impl<V> TreeNode<V> {
    /// The weight that orders the node among its siblings.
    pub fn weight(&self) -> (r: usize)
        ensures
            r == match *self {
                TreeNode::Branch { weight, .. } => weight,
                TreeNode::Value { weight, .. } => weight,
            },
    {
        match self {
            TreeNode::Branch { weight, .. } => *weight,
            TreeNode::Value { weight, .. } => *weight,
        }
    }

    /// Adds `node` under `path` to the children of a branch, replacing the child of that
    /// name. A value node has no children.
    pub fn add(&mut self, path: &str, node: TreeNode<V>)
        requires
            *old(self) is Branch,
        ensures
            *final(self) is Branch,
            (*final(self))->Branch_changed == (*old(self))->Branch_changed,
            (*final(self))->Branch_weight == (*old(self))->Branch_weight,
            (*final(self))->Branch_description == (*old(self))->Branch_description,
            added_child(
                (*old(self))->Branch_children@,
                path@,
                node,
                (*final(self))->Branch_children@,
            ),
            names_distinct((*old(self))->Branch_children@) ==> names_distinct(
                (*final(self))->Branch_children@,
            ),
    {
        match self {
            TreeNode::Branch { children, .. } => {
                add_child(children, path, node);
            },
            TreeNode::Value { .. } => {},
        }
    }
}

impl<V: Clone> SettingTree<V> {
    pub closed spec fn roots(&self) -> Seq<(String, TreeNode<V>)> {
        self.root_children@
    }

    /// A tree without nodes.
    pub fn new() -> (r: Self)
        ensures
            r.roots() == Seq::<(String, TreeNode<V>)>::empty(),
            names_distinct(r.roots()),
    {
        SettingTree { root_children: Vec::new() }
    }

    /// A tree with the given top-level nodes, which are keyed by their names: no two share
    /// one.
    pub fn from_roots(root_children: Vec<(String, TreeNode<V>)>) -> (r: Self)
        requires
            names_distinct(root_children@),
        ensures
            r.roots() == root_children@,
            names_distinct(r.roots()),
    {
        SettingTree { root_children }
    }

    pub fn root_children(&self) -> (r: &Vec<(String, TreeNode<V>)>)
        ensures
            r@ == self.roots(),
    {
        &self.root_children
    }

    /// Adds `node` as the top-level node `path`, replacing the one of that name.
    pub fn add(&mut self, path: &str, node: TreeNode<V>)
        ensures
            added_child(old(self).roots(), path@, node, final(self).roots()),
            names_distinct(old(self).roots()) ==> names_distinct(final(self).roots()),
    {
        add_child(&mut self.root_children, path, node);
    }

    /// The settings of the tree, each value at its dotted path, in the order of the tree:
    /// all of them, or only those reached through changed nodes.
    pub fn collect_values(&self, only_changed: bool) -> (r: Vec<(String, RawSetting<V>)>)
        ensures
            collected_all(r@, flatten_roots(self.roots(), only_changed, self.roots().len())),
    {
        let mut out: Vec<(String, RawSetting<V>)> = Vec::new();
        let mut i: usize = 0;
        while i < self.root_children.len()
            invariant
                i <= self.root_children@.len(),
                collected_all(out@, flatten_roots(self.root_children@, only_changed, i as nat)),
            decreases self.root_children@.len() - i,
        {
            let (key, node) = &self.root_children[i];
            let ghost before = out@;
            if !only_changed || is_changed(node) {
                let path = crate::text::chars_of(key.as_str());
                collect_node(node, &path, only_changed, &mut out);
                proof {
                    assert(out@ =~= before + out@.skip(before.len() as int));
                    lemma_collected_concat(
                        before,
                        out@.skip(before.len() as int),
                        flatten_roots(self.root_children@, only_changed, i as nat),
                        flatten_node(key@, *node, only_changed),
                        out@,
                    );
                }
            }
            i = i + 1;
        }
        out
    }
}

fn is_changed<V>(node: &TreeNode<V>) -> (r: bool)
    ensures
        r == node_changed(*node),
{
    match node {
        TreeNode::Branch { changed, .. } => *changed,
        TreeNode::Value { changed, .. } => *changed,
    }
}

proof fn lemma_collected_concat<V: Clone>(
    a: Seq<(String, RawSetting<V>)>,
    b: Seq<(String, RawSetting<V>)>,
    la: Seq<LeafView<V>>,
    lb: Seq<LeafView<V>>,
    whole: Seq<(String, RawSetting<V>)>,
)
    requires
        collected_all(a, la),
        collected_all(b, lb),
        whole == a + b,
    ensures
        collected_all(whole, la + lb),
{
    assert forall|k: int| 0 <= k < whole.len() implies collected_as(
        #[trigger] whole[k],
        (la + lb)[k],
    ) by {
        if k < a.len() {
            assert(whole[k] == a[k]);
        } else {
            assert(whole[k] == b[k - a.len()]);
        }
    }
}

fn clone_unit(unit: &Option<String>) -> (r: Option<String>)
    ensures
        opt_text(r) == opt_text(*unit),
{
    match unit {
        Some(u) => Some(u.clone()),
        None => None,
    }
}

/// Appends the settings under `node`, which sits at `path`, to `out`.
fn collect_node<V: Clone>(
    node: &TreeNode<V>,
    path: &Vec<char>,
    only_changed: bool,
    out: &mut Vec<(String, RawSetting<V>)>,
)
    ensures
        final(out)@.len() >= old(out)@.len(),
        final(out)@.take(old(out)@.len() as int) == old(out)@,
        collected_all(
            final(out)@.skip(old(out)@.len() as int),
            flatten_node(path@, *node, only_changed),
        ),
    decreases node,
{
    let ghost start = out@;
    match node {
        TreeNode::Value { weight, value, description, unit, .. } => {
            let setting = RawSetting {
                weight: *weight,
                value: value.clone(),
                description: description.clone(),
                unit: clone_unit(unit),
            };
            out.push((string_of(path), setting));
            proof {
                assert(out@.take(start.len() as int) =~= start);
                assert(out@.skip(start.len() as int) =~= seq![out@.last()]);
            }
        },
        TreeNode::Branch { children, .. } => {
            let mut i: usize = 0;
            proof {
                assert(out@.take(start.len() as int) =~= start);
                assert(out@.skip(start.len() as int) =~= Seq::<(String, RawSetting<V>)>::empty());
            }
            while i < children.len()
                invariant
                    i <= children@.len(),
                    *node is Branch,
                    (*node)->Branch_children == *children,
                    out@.len() >= start.len(),
                    out@.take(start.len() as int) == start,
                    collected_all(
                        out@.skip(start.len() as int),
                        flatten_children(path@, children@, only_changed, i as nat),
                    ),
                decreases children@.len() - i,
            {
                let (key, child) = &children[i];
                let ghost before = out@;
                if !only_changed || is_changed(child) {
                    let mut full = string_of(path);
                    append_str(&mut full, ".");
                    append_str(&mut full, key.as_str());
                    let p = crate::text::chars_of(full.as_str());
                    proof {
                        reveal_strlit(".");
                        assert(p@ =~= child_path(path@, key@));
                        assert(decreases_to!(*node => *children));
                        assert(decreases_to!(*children => children@));
                        assert(decreases_to!(*node => children@));
                        assert(decreases_to!(children@ => children@[i as int]));
                        assert(decreases_to!(children@[i as int] => children@[i as int].1));
                        assert(decreases_to!(*node => children@[i as int].1));
                    }
                    collect_node(child, &p, only_changed, out);
                    proof {
                        assert(out@.skip(start.len() as int) =~= before.skip(start.len() as int)
                            + out@.skip(before.len() as int));
                        lemma_collected_concat(
                            before.skip(start.len() as int),
                            out@.skip(before.len() as int),
                            flatten_children(path@, children@, only_changed, i as nat),
                            flatten_node(child_path(path@, key@), *child, only_changed),
                            out@.skip(start.len() as int),
                        );
                        assert(out@.take(start.len() as int) =~= before.take(start.len() as int));
                    }
                }
                i = i + 1;
            }
        },
    }
}

} // verus!
