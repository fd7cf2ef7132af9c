//! The executable command-tree data types.
//!
//! Nodes live in an arena (`Vec<SubClass>`) and refer to one another by
//! index; node `0` is the root. The tree is built once by the
//! [`crate::builder::Builder`] and is read-only afterwards; only the
//! [`crate::commander::Commander`]'s position mutates.

use vstd::prelude::*;

use crate::model::{ActionModel, NodeModel};
use crate::norm::{norm, normalize};

verus! {

/// A named, documented leaf command. The callable handler itself is owned by
/// the commander; the action holds the index of its handler slot.
#[derive(Debug)]
pub struct Action {
    /// Case-normalized action name.
    pub name: String,
    /// Free-text description.
    pub help: String,
    /// Index of the handler slot this action invokes.
    pub handler: usize,
}

impl View for Action {
    type V = ActionModel;

    open spec fn view(&self) -> ActionModel {
        ActionModel { name: self.name@, help: self.help@, handler: self.handler as int }
    }
}

impl Action {
    /// Makes a detached action bound to the first handler slot, storing the
    /// name lower-cased.
    pub fn blank_fn(name: &str, help_msg: &str) -> (r: Action)
        ensures
            r@.name == norm(name@),
            r@.help == help_msg@,
            r@.handler == 0,
    {
        Action { name: normalize(name), help: String::from_str(help_msg), handler: 0 }
    }

    /// Renders the action for inspection, naming it and its description.
    pub fn debug_string(&self) -> (r: String)
        ensures
            r@ == "Action { name: "@ + self@.name + ", help: "@ + self@.help + " }"@,
    {
        let mut r = String::from_str("Action { name: ");
        r.append(self.name.as_str());
        r.append(", help: ");
        r.append(self.help.as_str());
        r.append(" }");
        r
    }
}

/// Two actions are equal iff their names and descriptions match; handler
/// slots are not compared (handlers are not comparable).
impl PartialEq for Action {
    fn eq(&self, other: &Self) -> (r: bool) {
        self.name == other.name && self.help == other.help
    }
}

impl vstd::std_specs::cmp::PartialEqSpecImpl for Action {
    open spec fn obeys_eq_spec() -> bool {
        true
    }

    open spec fn eq_spec(&self, other: &Self) -> bool {
        self@.name == other@.name && self@.help == other@.help
    }
}

/// A named namespace in the command tree, holding child classes and actions.
pub struct SubClass {
    /// Case-normalized class name.
    pub name: String,
    /// Free-text description.
    pub help: String,
    /// Index of the parent node; the root is its own parent.
    pub parent: usize,
    /// Arena indices of the child class nodes.
    pub classes: Vec<usize>,
    /// The actions owned by this node.
    pub actions: Vec<Action>,
}

impl View for SubClass {
    type V = NodeModel;

    open spec fn view(&self) -> NodeModel {
        NodeModel {
            name: self.name@,
            help: self.help@,
            parent: self.parent as int,
            classes: self.classes@.map_values(|c: usize| c as int),
            actions: self.actions@.map_values(|a: Action| a@),
        }
    }
}

impl SubClass {
    /// Makes a detached class node with no children and no actions, storing
    /// the name lower-cased.
    pub fn with_name(name: &str, help_msg: &str) -> (r: SubClass)
        ensures
            r@.name == norm(name@),
            r@.help == help_msg@,
            r@.parent == 0,
            r@.classes == Seq::<int>::empty(),
            r@.actions == Seq::<ActionModel>::empty(),
    {
        let r = SubClass {
            name: normalize(name),
            help: String::from_str(help_msg),
            parent: 0,
            classes: Vec::new(),
            actions: Vec::new(),
        };
        proof {
            assert(r@.classes =~= Seq::<int>::empty());
            assert(r@.actions =~= Seq::<ActionModel>::empty());
        }
        r
    }
}

/// The model of a node arena.
pub open spec fn tree_view(nodes: Seq<SubClass>) -> Seq<NodeModel> {
    nodes.map_values(|n: SubClass| n@)
}

} // verus!
