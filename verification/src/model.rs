//! The mathematical model of the command tree and of line parsing.
//!
//! A tree is a sequence of nodes; node `0` is the root, and every other node
//! holds the index of its parent, which is always smaller than its own index
//! (so the tree is acyclic by construction). Children and actions are matched
//! against case-normalized tokens; the built-in keywords ascend one level
//! (`c`), reset to the root (`root`) and leave the enclosing read loop
//! (`exit`), and take precedence over class and action names.
//!
//! Policy choices fixed here (and documented on [`parse_from`]):
//! matching is exact (no prefix matching) and case-insensitive; ascending
//! from the root is an error; a line that fails mid-way commits nothing.

use vstd::prelude::*;

use crate::norm::{norm, norm_char};

verus! {

/// The model of an action: a named, documented leaf command bound to a
/// handler slot.
pub ghost struct ActionModel {
    /// Case-normalized action name.
    pub name: Seq<char>,
    /// Free-text description.
    pub help: Seq<char>,
    /// Index of the handler owned by the commander that this action invokes.
    pub handler: int,
}

/// The model of a class node: a named namespace with child classes and
/// actions.
pub ghost struct NodeModel {
    /// Case-normalized class name.
    pub name: Seq<char>,
    /// Free-text description.
    pub help: Seq<char>,
    /// Index of the parent node; the root is its own parent.
    pub parent: int,
    /// Indices of the child class nodes.
    pub classes: Seq<int>,
    /// The actions owned by this node.
    pub actions: Seq<ActionModel>,
}

/// Whitespace characters on which input lines are split into tokens.
pub open spec fn is_ws(c: char) -> bool {
    c == ' ' || c == '\t' || c == '\r' || c == '\n'
}

/// A usable name: non-empty, already case-normalized, and free of the
/// whitespace that tokenization splits on (a name holding whitespace could
/// never be matched by any token).
pub open spec fn wf_name(s: Seq<char>) -> bool {
    &&& s.len() > 0
    &&& norm(s) == s
    &&& forall|i: int| 0 <= i < s.len() ==> !is_ws(#[trigger] s[i])
}

/// Structural well-formedness: parent and child links are consistent and
/// acyclic (every parent index is smaller than the child's own index).
pub open spec fn wf_links(t: Seq<NodeModel>) -> bool {
    &&& t.len() >= 1
    &&& t[0].parent == 0
    &&& forall|i: int| 1 <= i < t.len() ==> 0 <= #[trigger] t[i].parent < i
    &&& forall|i: int| 1 <= i < t.len() ==> t[#[trigger] t[i].parent].classes.contains(i)
    &&& forall|i: int, k: int|
        0 <= i < t.len() && 0 <= k < t[i].classes.len() ==> i < #[trigger] t[i].classes[k]
            < t.len() && t[t[i].classes[k]].parent == i
}

/// All names in the tree are stored case-normalized.
pub open spec fn wf_norm(t: Seq<NodeModel>) -> bool {
    &&& forall|i: int| 0 <= i < t.len() ==> norm(#[trigger] t[i].name) == t[i].name
    &&& forall|i: int, k: int|
        0 <= i < t.len() && 0 <= k < t[i].actions.len() ==> norm(
            #[trigger] t[i].actions[k].name,
        ) == t[i].actions[k].name
}

/// Every name at node `i` (its own and its actions') is usable.
pub open spec fn node_names_usable(t: Seq<NodeModel>, i: int) -> bool {
    &&& wf_name(t[i].name)
    &&& forall|k: int| 0 <= k < t[i].actions.len() ==> wf_name(#[trigger] t[i].actions[k].name)
}

/// Every name in the tree is usable.
pub open spec fn names_usable(t: Seq<NodeModel>) -> bool {
    forall|i: int| 0 <= i < t.len() ==> node_names_usable(t, i)
}

/// Names are unambiguous at node `i`: sibling class names are distinct,
/// action names are distinct, and no action shares its name with a child
/// class (so a token resolves to at most one thing).
pub open spec fn node_names_unique(t: Seq<NodeModel>, i: int) -> bool {
    let n = t[i];
    &&& forall|k1: int, k2: int|
        0 <= k1 < k2 < n.classes.len() ==> t[n.classes[k1]].name != t[n.classes[k2]].name
    &&& forall|k1: int, k2: int|
        0 <= k1 < k2 < n.actions.len() ==> n.actions[k1].name != n.actions[k2].name
    &&& forall|k1: int, k2: int|
        0 <= k1 < n.classes.len() && 0 <= k2 < n.actions.len() ==> t[#[trigger] n.classes[k1]].name
            != #[trigger] n.actions[k2].name
}

/// Names are unambiguous at every node of the tree.
pub open spec fn names_unique(t: Seq<NodeModel>) -> bool {
    forall|i: int| 0 <= i < t.len() ==> node_names_unique(t, i)
}

/// Name discipline over the whole tree.
pub open spec fn wf_names(t: Seq<NodeModel>) -> bool {
    names_usable(t) && names_unique(t)
}

/// A well-formed command tree.
pub open spec fn wf_tree(t: Seq<NodeModel>) -> bool {
    wf_links(t) && wf_norm(t) && wf_names(t)
}

/// Every action's handler slot is an index below `hlen`, the number of
/// handler slots the commander owns.
pub open spec fn handlers_bounded(t: Seq<NodeModel>, hlen: int) -> bool {
    forall|i: int, k: int|
        0 <= i < t.len() && 0 <= k < t[i].actions.len() ==> 0 <= (
        #[trigger] t[i].actions[k].handler) < hlen
}

/// The dot-joined path of node `p`: the names of the ancestor chain from the
/// root down to `p`, separated by `'.'`.
pub open spec fn path_of(t: Seq<NodeModel>, p: int) -> Seq<char>
    decreases p,
{
    if p <= 0 || p >= t.len() || !(0 <= t[p].parent < p) {
        if t.len() > 0 {
            t[0].name
        } else {
            Seq::empty()
        }
    } else {
        path_of(t, t[p].parent) + seq!['.'] + t[p].name
    }
}

/// The keyword that ascends to the parent class.
pub open spec fn up_kw() -> Seq<char> {
    seq!['c']
}

/// The keyword that resets the position to the root class.
pub open spec fn root_kw() -> Seq<char> {
    seq!['r', 'o', 'o', 't']
}

/// The keyword that ends the enclosing read loop.
pub open spec fn exit_kw() -> Seq<char> {
    seq!['e', 'x', 'i', 't']
}

/// First child of `p` (searching `t[p].classes` from position `k`) whose name
/// is `nt`, if any.
pub open spec fn find_child_from(t: Seq<NodeModel>, ch: Seq<int>, nt: Seq<char>, k: int) -> Option<
    int,
>
    decreases ch.len() - k,
{
    if k < 0 || k >= ch.len() {
        None
    } else if t[ch[k]].name == nt {
        Some(ch[k])
    } else {
        find_child_from(t, ch, nt, k + 1)
    }
}

/// The child class of `p` named `nt`, if any.
pub open spec fn find_child(t: Seq<NodeModel>, p: int, nt: Seq<char>) -> Option<int> {
    find_child_from(t, t[p].classes, nt, 0)
}

/// First action (searching `acts` from position `k`) whose name is `nt`,
/// if any; the result is an index into `acts`.
pub open spec fn find_action_from(acts: Seq<ActionModel>, nt: Seq<char>, k: int) -> Option<int>
    decreases acts.len() - k,
{
    if k < 0 || k >= acts.len() {
        None
    } else if acts[k].name == nt {
        Some(k)
    } else {
        find_action_from(acts, nt, k + 1)
    }
}

/// The index of the action of node `p` named `nt`, if any.
pub open spec fn find_action(t: Seq<NodeModel>, p: int, nt: Seq<char>) -> Option<int> {
    find_action_from(t[p].actions, nt, 0)
}

/// The structured outcome of parsing one line against the tree.
pub ghost enum LineOut {
    /// Nothing happened: the line held no tokens.
    Continue,
    /// Every token navigated; the position is the parse's final node.
    Moved,
    /// An action was matched and invoked with the residual tokens.
    Invoked {
        /// The node owning the matched action.
        node: int,
        /// The index of the action within that node.
        action: int,
        /// The residual tokens handed to the handler.
        args: Seq<Seq<char>>,
    },
    /// A token matched no keyword, child class or action.
    Unrecognized,
    /// The ascend keyword was issued at the root.
    AscendAtRoot,
    /// The exit keyword was encountered.
    Exit,
}

/// The full result of parsing a line: the outcome, the final position (for
/// the error outcomes the navigator rolls back, so the position there is the
/// one reached before the failing token), and the feedback lines an echoing
/// parser writes to its sink.
pub ghost struct ParseOut {
    /// The structured outcome.
    pub out: LineOut,
    /// The node reached by the parse.
    pub pos: int,
    /// Human-readable feedback lines.
    pub notes: Seq<Seq<char>>,
}

/// Feedback line naming an unmatched token.
pub open spec fn note_unrecognized(tok: Seq<char>) -> Seq<char> {
    "unrecognized token: "@ + tok
}

/// Feedback line listing one child class.
pub open spec fn note_class(name: Seq<char>) -> Seq<char> {
    "class: "@ + name
}

/// Feedback line listing one action.
pub open spec fn note_action(name: Seq<char>) -> Seq<char> {
    "action: "@ + name
}

/// Feedback line for ascending at the root.
pub open spec fn note_ascend() -> Seq<char> {
    "cannot ascend above the root class"@
}

/// The feedback written for an unrecognized token: the token itself, then a
/// listing of the children and actions valid at the current node.
pub open spec fn unrec_notes(t: Seq<NodeModel>, p: int, tok: Seq<char>) -> Seq<Seq<char>> {
    seq![note_unrecognized(tok)] + t[p].classes.map_values(|c: int| note_class(t[c].name))
        + t[p].actions.map_values(|a: ActionModel| note_action(a.name))
}

/// Resolves the tokens `toks[j..]` against the tree from node `p`, one token
/// per step, in the order fixed by the dispatch policy: the ascend keyword,
/// the root keyword, the exit keyword, then child classes, then actions.
/// Keywords therefore shadow classes and actions of the same name.
pub open spec fn parse_from(t: Seq<NodeModel>, p: int, toks: Seq<Seq<char>>, j: int) -> ParseOut
    decreases toks.len() - j,
{
    if j < 0 || j >= toks.len() {
        ParseOut { out: LineOut::Moved, pos: p, notes: Seq::empty() }
    } else {
        let nt = norm(toks[j]);
        if nt == up_kw() {
            if p == 0 {
                ParseOut { out: LineOut::AscendAtRoot, pos: p, notes: seq![note_ascend()] }
            } else {
                parse_from(t, t[p].parent, toks, j + 1)
            }
        } else if nt == root_kw() {
            parse_from(t, 0, toks, j + 1)
        } else if nt == exit_kw() {
            ParseOut { out: LineOut::Exit, pos: p, notes: Seq::empty() }
        } else {
            match find_child(t, p, nt) {
                Some(c) => parse_from(t, c, toks, j + 1),
                None => match find_action(t, p, nt) {
                    Some(a) => ParseOut {
                        out: LineOut::Invoked { node: p, action: a, args: toks.skip(j + 1) },
                        pos: p,
                        notes: Seq::empty(),
                    },
                    None => ParseOut {
                        out: LineOut::Unrecognized,
                        pos: p,
                        notes: unrec_notes(t, p, toks[j]),
                    },
                },
            }
        }
    }
}

/// Parsing a whole line, given as its token sequence: a blank line yields
/// `Continue`; otherwise the tokens are resolved left to right from `p`.
pub open spec fn parse_line_spec(t: Seq<NodeModel>, p: int, toks: Seq<Seq<char>>) -> ParseOut {
    if toks.len() == 0 {
        ParseOut { out: LineOut::Continue, pos: p, notes: Seq::empty() }
    } else {
        parse_from(t, p, toks, 0)
    }
}

/// Tokenization of a line, written as the state machine the scanner runs:
/// `cur` is the token being accumulated and `acc` the tokens already found.
pub open spec fn tokens_from(
    s: Seq<char>,
    i: int,
    cur: Seq<char>,
    acc: Seq<Seq<char>>,
) -> Seq<Seq<char>>
    decreases s.len() - i,
{
    if i < 0 || i >= s.len() {
        if cur.len() == 0 {
            acc
        } else {
            acc.push(cur)
        }
    } else if is_ws(s[i]) {
        if cur.len() == 0 {
            tokens_from(s, i + 1, cur, acc)
        } else {
            tokens_from(s, i + 1, Seq::empty(), acc.push(cur))
        }
    } else {
        tokens_from(s, i + 1, cur.push(s[i]), acc)
    }
}

/// The whitespace-separated tokens of a line.
pub open spec fn tokens(s: Seq<char>) -> Seq<Seq<char>> {
    tokens_from(s, 0, Seq::empty(), Seq::empty())
}

/// The parts joined with the separator between consecutive ones.
pub open spec fn join_with(sep: char, parts: Seq<Seq<char>>) -> Seq<char>
    decreases parts.len(),
{
    if parts.len() == 0 {
        Seq::empty()
    } else if parts.len() == 1 {
        parts[0]
    } else {
        parts[0] + seq![sep] + join_with(sep, parts.drop_first())
    }
}

} // verus!
