//! Two-phase construction of a command tree: a fluent, mutable builder that
//! keeps the structural links consistent as it grows, and a final validation
//! step that checks the name discipline and freezes the tree into a
//! [`Commander`].

use vstd::prelude::*;

use crate::commander::{Commander, Handler, NoopHandler};
use crate::model::{
    handlers_bounded, names_unique, names_usable, node_names_unique, node_names_usable, path_of,
    wf_links, wf_name, wf_names, wf_norm, wf_tree, ActionModel, NodeModel,
};
use crate::norm::{is_normalized, lemma_norm_idempotent, norm};
use crate::parser::{path_string, ws_char};
use crate::tree::{tree_view, Action, SubClass};

verus! {

/// The reason a built tree was refused when freezing it into a commander.
#[derive(Debug, PartialEq, Eq, Structural)]
pub enum BuildError {
    /// A class or action name is empty or holds whitespace, so no token
    /// could ever match it.
    InvalidName,
    /// Two sibling classes, two actions of one class, or a class and an
    /// action of one class share a name, so a token would be ambiguous.
    DuplicateName,
}

/// A fluent builder for a command tree. Start with [`Builder::default_config`],
/// add nested classes with `begin_class`/`end_class` and actions with
/// `add_action`, and freeze the result with `into_commander`.
pub struct Builder<H = NoopHandler> {
    /// The node arena being grown; node `0` is the root.
    pub nodes: Vec<SubClass>,
    /// The handler slots registered so far, one per action.
    pub handlers: Vec<H>,
    /// The arena index of the class that `begin_class` and `add_action`
    /// extend.
    pub current: usize,
}

impl<H: Handler> Builder<H> {
    /// The model of the tree built so far.
    pub open spec fn tree(&self) -> Seq<NodeModel> {
        tree_view(self.nodes@)
    }

    /// The structural invariant the builder maintains: links are consistent
    /// and acyclic, names are stored case-normalized, the cursor is a node,
    /// and every action's handler slot exists. The name discipline
    /// ([`wf_names`]) is only checked when the tree is frozen.
    pub open spec fn wf(&self) -> bool {
        &&& wf_links(self.tree())
        &&& wf_norm(self.tree())
        &&& (self.current as int) < self.tree().len()
        &&& handlers_bounded(self.tree(), self.handlers@.len() as int)
    }

    /// Starts a tree whose root class has the given name and no description.
    pub fn default_config(name: &str) -> (r: Builder<H>)
        ensures
            r.wf(),
            r.tree().len() == 1,
            r.tree()[0].name == norm(name@),
            r.tree()[0].classes.len() == 0,
            r.tree()[0].actions.len() == 0,
            r.current == 0,
            r.handlers@.len() == 0,
    {
        let mut nodes: Vec<SubClass> = Vec::new();
        nodes.push(SubClass::with_name(name, ""));
        let r = Builder { nodes, handlers: Vec::new(), current: 0 };
        proof {
            lemma_norm_idempotent(name@);
            assert(r.tree() =~= seq![r.nodes@[0]@]);
        }
        r
    }

    /// Adds a class named `name` under the current class and descends into
    /// it: further `begin_class` and `add_action` calls extend the new class
    /// until `end_class` ascends again.
    pub fn begin_class(self, name: &str, help_msg: &str) -> (r: Builder<H>)
        requires
            self.wf(),
        ensures
            r.wf(),
            r.handlers == self.handlers,
            r.current as int == self.tree().len(),
            r.tree() == self.tree().update(
                self.current as int,
                NodeModel {
                    classes: self.tree()[self.current as int].classes.push(
                        self.tree().len() as int,
                    ),
                    ..self.tree()[self.current as int]
                },
            ).push(
                NodeModel {
                    name: norm(name@),
                    help: help_msg@,
                    parent: self.current as int,
                    classes: Seq::empty(),
                    actions: Seq::empty(),
                },
            ),
    {
        let ghost t = self.tree();
        let mut b = self;
        let idx = b.nodes.len();
        let mut sc = SubClass::with_name(name, help_msg);
        sc.parent = b.current;
        b.nodes.push(sc);
        let cn = &mut b.nodes[b.current];
        cn.classes.push(idx);
        b.current = idx;
        proof {
            lemma_norm_idempotent(name@);
            let t2 = b.tree();
            let target = t.update(
                self.current as int,
                NodeModel {
                    classes: t[self.current as int].classes.push(t.len() as int),
                    ..t[self.current as int]
                },
            ).push(
                NodeModel {
                    name: norm(name@),
                    help: help_msg@,
                    parent: self.current as int,
                    classes: Seq::empty(),
                    actions: Seq::empty(),
                },
            );
            assert forall|i: int| 0 <= i < t2.len() implies t2[i] == target[i] by {
                assert(t2[i] == b.nodes@[i]@);
                if i == self.current as int {
                    assert(t2[i].classes =~= target[i].classes);
                    assert(t2[i] =~~= target[i]);
                } else if i < t.len() {
                    assert(b.nodes@[i] == self.nodes@[i]);
                } else {
                    assert(t2[i].classes =~= Seq::<int>::empty());
                    assert(t2[i].actions =~= Seq::<ActionModel>::empty());
                    assert(t2[i] =~~= target[i]);
                }
            }
            assert(t2 =~= target);
            let cur = self.current as int;
            let ni = t.len() as int;
            // structural invariant of the grown tree
            assert forall|i: int| 1 <= i < t2.len() implies 0 <= #[trigger] t2[i].parent < i by {
                if i < ni {
                    assert(t2[i].parent == t[i].parent);
                }
            }
            assert forall|i: int| 1 <= i < t2.len() implies t2[#[trigger] t2[i].parent].classes.contains(
                i,
            ) by {
                if i < ni {
                    let p = t[i].parent;
                    assert(t[p].classes.contains(i));
                    let k = choose|k: int| 0 <= k < t[p].classes.len() && t[p].classes[k] == i;
                    assert(t2[p].classes[k] == i);
                } else {
                    assert(t2[cur].classes[t[cur].classes.len() as int] == i);
                }
            }
            assert forall|i: int, k: int|
                0 <= i < t2.len() && 0 <= k < t2[i].classes.len() implies i
                < #[trigger] t2[i].classes[k] < t2.len() && t2[t2[i].classes[k]].parent == i by {
                if i == cur {
                    if k < t[cur].classes.len() {
                        assert(t2[i].classes[k] == t[cur].classes[k]);
                    } else {
                        assert(t2[i].classes[k] == ni);
                    }
                } else if i < ni {
                    assert(t2[i].classes == t[i].classes);
                }
            }
        }
        b
    }

    /// Ascends to the parent of the current class; at the root it stays.
    pub fn end_class(self) -> (r: Builder<H>)
        requires
            self.wf(),
        ensures
            r.wf(),
            r.tree() == self.tree(),
            r.handlers == self.handlers,
            r.current as int == self.tree()[self.current as int].parent,
    {
        let mut b = self;
        let parent = b.nodes[b.current].parent;
        proof {
            assert(b.tree()[b.current as int].parent == parent as int);
        }
        b.current = parent;
        b
    }

    /// Registers an action named `name` on the current class, owning the
    /// given handler.
    pub fn add_action(self, name: &str, help_msg: &str, handler: H) -> (r: Builder<H>)
        requires
            self.wf(),
        ensures
            r.wf(),
            r.current == self.current,
            r.handlers@.len() == self.handlers@.len() + 1,
            r.tree() == self.tree().update(
                self.current as int,
                NodeModel {
                    actions: self.tree()[self.current as int].actions.push(
                        ActionModel {
                            name: norm(name@),
                            help: help_msg@,
                            handler: self.handlers@.len() as int,
                        },
                    ),
                    ..self.tree()[self.current as int]
                },
            ),
    {
        let ghost t = self.tree();
        let mut b = self;
        let hid = b.handlers.len();
        b.handlers.push(handler);
        let act = Action {
            name: crate::norm::normalize(name),
            help: String::from_str(help_msg),
            handler: hid,
        };
        let cn = &mut b.nodes[b.current];
        cn.actions.push(act);
        proof {
            lemma_norm_idempotent(name@);
            let t2 = b.tree();
            let cur = self.current as int;
            let target = t.update(
                cur,
                NodeModel {
                    actions: t[cur].actions.push(
                        ActionModel {
                            name: norm(name@),
                            help: help_msg@,
                            handler: self.handlers@.len() as int,
                        },
                    ),
                    ..t[cur]
                },
            );
            assert forall|i: int| 0 <= i < t2.len() implies t2[i] == target[i] by {
                assert(t2[i] == b.nodes@[i]@);
                if i == cur {
                    assert(t2[i].actions =~= target[i].actions);
                    assert(t2[i] =~~= target[i]);
                } else {
                    assert(b.nodes@[i] == self.nodes@[i]);
                }
            }
            assert(t2 =~= target);
            assert forall|i: int| 1 <= i < t2.len() implies t2[#[trigger] t2[i].parent].classes.contains(
                i,
            ) by {
                let p = t[i].parent;
                assert(t[p].classes.contains(i));
                let k = choose|k: int| 0 <= k < t[p].classes.len() && t[p].classes[k] == i;
                assert(t2[p].classes[k] == i);
            }
            assert forall|i: int, k: int|
                0 <= i < t2.len() && 0 <= k < t2[i].actions.len() implies 0 <= (
            #[trigger] t2[i].actions[k].handler) < b.handlers@.len() by {
                if i == cur && k == t[cur].actions.len() {
                } else {
                    assert(t2[i].actions[k] == t[i].actions[k]);
                }
            }
        }
        b
    }

    /// Validates the name discipline and freezes the tree into a
    /// [`Commander`] positioned at the root. The tree is refused, exactly,
    /// when some name is unusable (`InvalidName`) or, all names being
    /// usable, when some name is ambiguous among its siblings
    /// (`DuplicateName`).
    pub fn into_commander(self) -> (r: Result<Commander<H>, BuildError>)
        requires
            self.wf(),
        ensures
            match r {
                Ok(c) => wf_names(self.tree()) && c.wf() && c.tree() == self.tree() && c.current
                    == 0 && c.handlers == self.handlers && c.path@ == path_of(self.tree(), 0),
                Err(e) => !wf_names(self.tree()) && (e is InvalidName <==> !names_usable(
                    self.tree(),
                )) && (e is DuplicateName <==> names_usable(self.tree()) && !names_unique(
                    self.tree(),
                )),
            },
    {
        if !check_usable(&self.nodes) {
            return Err(BuildError::InvalidName);
        }
        if !check_unique(&self.nodes) {
            return Err(BuildError::DuplicateName);
        }
        let path = path_string(&self.nodes, 0);
        Ok(Commander { nodes: self.nodes, handlers: self.handlers, current: 0, path })
    }
}

/// Is the stored (already normalized) name non-empty and free of whitespace?
fn name_usable(s: &str) -> (r: bool)
    requires
        norm(s@) == s@,
    ensures
        r == wf_name(s@),
{
    let n = s.unicode_len();
    if n == 0 {
        return false;
    }
    let mut i: usize = 0;
    while i < n
        invariant
            i <= n,
            n == s@.len(),
            forall|j: int| 0 <= j < i ==> !crate::model::is_ws(#[trigger] s@[j]),
        decreases n - i,
    {
        if ws_char(s.get_char(i)) {
            return false;
        }
        i = i + 1;
    }
    true
}

/// Checks that every name in the tree is usable.
pub(crate) fn check_usable(nodes: &Vec<SubClass>) -> (r: bool)
    requires
        wf_norm(tree_view(nodes@)),
        nodes@.len() >= 1,
    ensures
        r == names_usable(tree_view(nodes@)),
{
    let ghost t = tree_view(nodes@);
    let mut i: usize = 0;
    let n = nodes.len();
    while i < n
        invariant
            wf_norm(t),
            t == tree_view(nodes@),
            n == nodes@.len(),
            i <= n,
            forall|j: int| 0 <= j < i ==> node_names_usable(t, j),
        decreases n - i,
    {
        proof {
            assert(t[i as int].name == nodes@[i as int].name@);
            assert(norm(t[i as int].name) == t[i as int].name);
        }
        if !name_usable(nodes[i].name.as_str()) {
            assert(!wf_name(t[i as int].name));
            assert(!node_names_usable(t, i as int));
            return false;
        }
        let nac = nodes[i].actions.len();
        let mut k: usize = 0;
        while k < nac
            invariant
                wf_norm(t),
                t == tree_view(nodes@),
                i < nodes@.len(),
                nac == t[i as int].actions.len(),
                k <= nac,
                forall|j: int| 0 <= j < k ==> wf_name(#[trigger] t[i as int].actions[j].name),
            decreases nac - k,
        {
            proof {
                assert(t[i as int].actions[k as int] == nodes@[i as int].actions@[k as int]@);
                assert(norm(t[i as int].actions[k as int].name) == t[i as int].actions[k as int].name);
            }
            if !name_usable(nodes[i].actions[k].name.as_str()) {
                assert(!wf_name(t[i as int].actions[k as int].name));
                assert(!node_names_usable(t, i as int));
                return false;
            }
            k = k + 1;
        }
        assert(node_names_usable(t, i as int));
        i = i + 1;
    }
    true
}

/// Checks that names are unambiguous at every node.
pub(crate) fn check_unique(nodes: &Vec<SubClass>) -> (r: bool)
    requires
        wf_links(tree_view(nodes@)),
    ensures
        r == names_unique(tree_view(nodes@)),
{
    let ghost t = tree_view(nodes@);
    let mut i: usize = 0;
    let n = nodes.len();
    while i < n
        invariant
            wf_links(t),
            t == tree_view(nodes@),
            n == nodes@.len(),
            i <= n,
            forall|j: int| 0 <= j < i ==> node_names_unique(t, j),
        decreases n - i,
    {
        if !node_unique(nodes, i) {
            return false;
        }
        i = i + 1;
    }
    true
}

/// Checks that names are unambiguous at node `p`.
fn node_unique(nodes: &Vec<SubClass>, p: usize) -> (r: bool)
    requires
        wf_links(tree_view(nodes@)),
        p < nodes@.len(),
    ensures
        r == node_names_unique(tree_view(nodes@), p as int),
{
    let ghost t = tree_view(nodes@);
    let nch = nodes[p].classes.len();
    let nac = nodes[p].actions.len();
    let mut k2: usize = 0;
    while k2 < nch
        invariant
            wf_links(t),
            t == tree_view(nodes@),
            p < nodes@.len(),
            nch == t[p as int].classes.len(),
            nac == t[p as int].actions.len(),
            k2 <= nch,
            forall|a: int, b: int|
                0 <= a < b < k2 ==> t[t[p as int].classes[a]].name != t[t[p as int].classes[b]].name,
        decreases nch - k2,
    {
        let c2 = nodes[p].classes[k2];
        proof {
            assert(c2 as int == t[p as int].classes[k2 as int]);
            assert((p as int) < t[p as int].classes[k2 as int] < t.len());
        }
        let mut k1: usize = 0;
        while k1 < k2
            invariant
                wf_links(t),
                t == tree_view(nodes@),
                p < nodes@.len(),
                nch == t[p as int].classes.len(),
                k1 <= k2 < nch,
                c2 as int == t[p as int].classes[k2 as int],
                c2 < nodes@.len(),
                forall|a: int|
                    0 <= a < k1 ==> t[t[p as int].classes[a]].name != t[c2 as int].name,
            decreases k2 - k1,
        {
            let c1 = nodes[p].classes[k1];
            proof {
                assert(c1 as int == t[p as int].classes[k1 as int]);
                assert((p as int) < t[p as int].classes[k1 as int] < t.len());
            }
            if nodes[c1].name == nodes[c2].name {
                proof {
                    assert(t[t[p as int].classes[k1 as int]].name == t[t[p as int].classes[k2 as int]].name);
                    assert(!node_names_unique(t, p as int));
                }
                return false;
            }
            k1 = k1 + 1;
        }
        k2 = k2 + 1;
    }
    let mut k2: usize = 0;
    while k2 < nac
        invariant
            wf_links(t),
            t == tree_view(nodes@),
            p < nodes@.len(),
            nac == t[p as int].actions.len(),
            k2 <= nac,
            forall|a: int, b: int|
                0 <= a < b < k2 ==> t[p as int].actions[a].name != t[p as int].actions[b].name,
        decreases nac - k2,
    {
        let mut k1: usize = 0;
        while k1 < k2
            invariant
                wf_links(t),
                t == tree_view(nodes@),
                p < nodes@.len(),
                nac == t[p as int].actions.len(),
                k1 <= k2 < nac,
                forall|a: int|
                    0 <= a < k1 ==> t[p as int].actions[a].name != t[p as int].actions[k2 as int].name,
            decreases k2 - k1,
        {
            proof {
                assert(t[p as int].actions[k1 as int] == nodes@[p as int].actions@[k1 as int]@);
                assert(t[p as int].actions[k2 as int] == nodes@[p as int].actions@[k2 as int]@);
            }
            if nodes[p].actions[k1].name == nodes[p].actions[k2].name {
                proof {
                    assert(t[p as int].actions[k1 as int].name == t[p as int].actions[k2 as int].name);
                    assert(!node_names_unique(t, p as int));
                }
                return false;
            }
            k1 = k1 + 1;
        }
        k2 = k2 + 1;
    }
    let mut k1: usize = 0;
    while k1 < nch
        invariant
            wf_links(t),
            t == tree_view(nodes@),
            p < nodes@.len(),
            nch == t[p as int].classes.len(),
            nac == t[p as int].actions.len(),
            k1 <= nch,
            forall|a: int, b: int|
                0 <= a < k1 && 0 <= b < nac ==> t[#[trigger] t[p as int].classes[a]].name
                    != #[trigger] t[p as int].actions[b].name,
        decreases nch - k1,
    {
        let c1 = nodes[p].classes[k1];
        proof {
            assert(c1 as int == t[p as int].classes[k1 as int]);
            assert((p as int) < t[p as int].classes[k1 as int] < t.len());
        }
        let mut k2: usize = 0;
        while k2 < nac
            invariant
                wf_links(t),
                t == tree_view(nodes@),
                p < nodes@.len(),
                nac == t[p as int].actions.len(),
                k2 <= nac,
                c1 as int == t[p as int].classes[k1 as int],
                c1 < nodes@.len(),
                k1 < nch,
                nch == t[p as int].classes.len(),
                forall|b: int|
                    0 <= b < k2 ==> t[c1 as int].name != #[trigger] t[p as int].actions[b].name,
            decreases nac - k2,
        {
            proof {
                assert(t[p as int].actions[k2 as int] == nodes@[p as int].actions@[k2 as int]@);
            }
            if nodes[c1].name == nodes[p].actions[k2].name {
                proof {
                    assert(t[t[p as int].classes[k1 as int]].name == t[p as int].actions[k2 as int].name);
                    assert(!node_names_unique(t, p as int));
                }
                return false;
            }
            k2 = k2 + 1;
        }
        k1 = k1 + 1;
    }
    true
}

/// Checks the structural links of the node arena: node `0` is the root,
/// every other node's parent comes before it, and parent and child lists
/// agree.
pub(crate) fn check_links(nodes: &Vec<SubClass>) -> (r: bool)
    ensures
        r == wf_links(tree_view(nodes@)),
{
    let ghost t = tree_view(nodes@);
    let n = nodes.len();
    if n == 0 {
        return false;
    }
    if nodes[0].parent != 0 {
        proof {
            assert(t[0].parent != 0);
        }
        return false;
    }
    let mut i: usize = 1;
    while i < n
        invariant
            t == tree_view(nodes@),
            n == nodes@.len(),
            1 <= i <= n,
            forall|q: int| 1 <= q < i ==> 0 <= #[trigger] t[q].parent < q,
        decreases n - i,
    {
        if nodes[i].parent >= i {
            proof {
                assert(!(0 <= t[i as int].parent < i as int));
            }
            return false;
        }
        i = i + 1;
    }
    let mut i2: usize = 1;
    while i2 < n
        invariant
            t == tree_view(nodes@),
            n == nodes@.len(),
            1 <= i2 <= n,
            forall|q: int| 1 <= q < n ==> 0 <= #[trigger] t[q].parent < q,
            forall|q: int| 1 <= q < i2 ==> t[#[trigger] t[q].parent].classes.contains(q),
        decreases n - i2,
    {
        let p = nodes[i2].parent;
        proof {
            assert(p as int == t[i2 as int].parent);
        }
        let nch = nodes[p].classes.len();
        let mut k: usize = 0;
        let mut found = false;
        while k < nch
            invariant
                t == tree_view(nodes@),
                n == nodes@.len(),
                i2 < n,
                p < n,
                p as int == t[i2 as int].parent,
                nch == t[p as int].classes.len(),
                k <= nch,
                found ==> t[p as int].classes.contains(i2 as int),
                !found ==> forall|m: int| 0 <= m < k ==> t[p as int].classes[m] != i2 as int,
            decreases nch - k,
        {
            if nodes[p].classes[k] == i2 {
                proof {
                    assert(t[p as int].classes[k as int] == i2 as int);
                }
                found = true;
            }
            k = k + 1;
        }
        if !found {
            proof {
                assert(!t[p as int].classes.contains(i2 as int));
            }
            return false;
        }
        i2 = i2 + 1;
    }
    let mut i3: usize = 0;
    while i3 < n
        invariant
            t == tree_view(nodes@),
            n == nodes@.len(),
            i3 <= n,
            forall|q: int, k: int|
                0 <= q < i3 && 0 <= k < t[q].classes.len() ==> q < #[trigger] t[q].classes[k] < n
                    && t[t[q].classes[k]].parent == q,
        decreases n - i3,
    {
        let nch = nodes[i3].classes.len();
        let mut k: usize = 0;
        while k < nch
            invariant
                t == tree_view(nodes@),
                n == nodes@.len(),
                i3 < n,
                nch == t[i3 as int].classes.len(),
                k <= nch,
                forall|m: int|
                    0 <= m < k ==> (i3 as int) < #[trigger] t[i3 as int].classes[m] < n
                        && t[t[i3 as int].classes[m]].parent == i3 as int,
            decreases nch - k,
        {
            let c = nodes[i3].classes[k];
            proof {
                assert(c as int == t[i3 as int].classes[k as int]);
            }
            if c <= i3 || c >= n {
                return false;
            }
            if nodes[c].parent != i3 {
                proof {
                    assert(t[c as int].parent != i3 as int);
                }
                return false;
            }
            k = k + 1;
        }
        i3 = i3 + 1;
    }
    true
}

/// Checks that every stored name in the tree is case-normalized.
pub(crate) fn check_norm(nodes: &Vec<SubClass>) -> (r: bool)
    ensures
        r == wf_norm(tree_view(nodes@)),
{
    let ghost t = tree_view(nodes@);
    let n = nodes.len();
    let mut i: usize = 0;
    while i < n
        invariant
            t == tree_view(nodes@),
            n == nodes@.len(),
            i <= n,
            forall|q: int| 0 <= q < i ==> norm(#[trigger] t[q].name) == t[q].name,
            forall|q: int, k: int|
                0 <= q < i && 0 <= k < t[q].actions.len() ==> norm(
                    #[trigger] t[q].actions[k].name,
                ) == t[q].actions[k].name,
        decreases n - i,
    {
        proof {
            assert(t[i as int].name == nodes@[i as int].name@);
        }
        if !is_normalized(nodes[i].name.as_str()) {
            return false;
        }
        let nac = nodes[i].actions.len();
        let mut k: usize = 0;
        while k < nac
            invariant
                t == tree_view(nodes@),
                i < nodes@.len(),
                nac == t[i as int].actions.len(),
                k <= nac,
                forall|m: int|
                    0 <= m < k ==> norm(#[trigger] t[i as int].actions[m].name) == t[i as int].actions[m].name,
            decreases nac - k,
        {
            proof {
                assert(t[i as int].actions[k as int] == nodes@[i as int].actions@[k as int]@);
            }
            if !is_normalized(nodes[i].actions[k].name.as_str()) {
                proof {
                    assert(norm(t[i as int].actions[k as int].name) != t[i as int].actions[k as int].name);
                }
                return false;
            }
            k = k + 1;
        }
        i = i + 1;
    }
    true
}

/// Checks that every action names a handler slot below `hlen`.
pub(crate) fn check_handlers(nodes: &Vec<SubClass>, hlen: usize) -> (r: bool)
    ensures
        r == handlers_bounded(tree_view(nodes@), hlen as int),
{
    let ghost t = tree_view(nodes@);
    let n = nodes.len();
    let mut i: usize = 0;
    while i < n
        invariant
            t == tree_view(nodes@),
            n == nodes@.len(),
            i <= n,
            forall|q: int, k: int|
                0 <= q < i && 0 <= k < t[q].actions.len() ==> 0 <= (
                #[trigger] t[q].actions[k].handler) < hlen,
        decreases n - i,
    {
        let nac = nodes[i].actions.len();
        let mut k: usize = 0;
        while k < nac
            invariant
                t == tree_view(nodes@),
                i < nodes@.len(),
                nac == t[i as int].actions.len(),
                k <= nac,
                forall|m: int|
                    0 <= m < k ==> 0 <= (#[trigger] t[i as int].actions[m].handler) < hlen,
            decreases nac - k,
        {
            proof {
                assert(t[i as int].actions[k as int] == nodes@[i as int].actions@[k as int]@);
            }
            if nodes[i].actions[k].handler >= hlen {
                proof {
                    assert(!(0 <= t[i as int].actions[k as int].handler < hlen));
                }
                return false;
            }
            k = k + 1;
        }
        i = i + 1;
    }
    true
}

} // verus!
