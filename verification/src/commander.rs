//! The navigator over a built command tree: it holds the current position,
//! keeps the dot-joined path in sync with it, and parses input lines.

use vstd::prelude::*;

use crate::model::{
    find_child, handlers_bounded, note_action, note_ascend, note_class, note_unrecognized,
    parse_from, parse_line_spec, path_of, tokens, unrec_notes, wf_tree, LineOut, NodeModel,
};
use crate::norm::norm;
use crate::parser::{
    find_action_exec, find_child_exec, is_exit_kw, is_root_kw, is_up_kw, path_string, tokenize,
};
use crate::tree::{tree_view, SubClass};

verus! {

/// The callable part of an action. Handlers are owned by the commander, one
/// slot per registered action, and are invoked with the residual tokens of
/// the line that matched the action. Implement this for the state an action
/// should reach. The commander holds each handler behind a single owner and
/// invokes it through exclusive access, so a handler can never be entered
/// reentrantly.
pub trait Handler: Sized {
    /// The effect of one invocation: how the handler state after the call
    /// relates to the state before it and to the arguments received. An
    /// implementation describes its own behaviour here; `parse_line`'s
    /// contract then states that the invoked slot underwent exactly one
    /// call with exactly the residual tokens. The default allows no change;
    /// override it to expose the handler's behaviour to contracts. Verus
    /// holds implementations written in verified code to this description;
    /// an implementation outside it is trusted to match.
    open spec fn handle_ensures(pre: Self, post: Self, args: Seq<Seq<char>>) -> bool {
        post == pre
    }

    /// Invoked when a line resolves to the action owning this handler slot;
    /// `args` are the residual tokens of the line.
    fn handle(&mut self, args: &Vec<String>)
        ensures
            Self::handle_ensures(*old(self), *final(self), args.deep_view()),
    ;
}

/// A handler that ignores its arguments and does nothing.
pub struct NoopHandler;

impl Handler for NoopHandler {
    fn handle(&mut self, _args: &Vec<String>) {
    }
}

/// A handler that records every argument list it receives, oldest first.
/// Its contract pins each invocation exactly: one list, equal to the
/// residual tokens, is appended per call.
pub struct RecordingHandler {
    /// The argument lists received so far.
    pub calls: Vec<Vec<String>>,
}

impl RecordingHandler {
    /// A recorder with no calls yet.
    pub fn new() -> (r: RecordingHandler)
        ensures
            r.calls.deep_view() == Seq::<Seq<Seq<char>>>::empty(),
    {
        let r = RecordingHandler { calls: Vec::new() };
        proof {
            assert(r.calls.deep_view() =~= Seq::<Seq<Seq<char>>>::empty());
        }
        r
    }
}

impl Handler for RecordingHandler {
    open spec fn handle_ensures(pre: Self, post: Self, args: Seq<Seq<char>>) -> bool {
        post.calls.deep_view() == pre.calls.deep_view().push(args)
    }

    fn handle(&mut self, args: &Vec<String>) {
        let ghost pre = self.calls.deep_view();
        let copy = clone_tokens(args);
        self.calls.push(copy);
        proof {
            assert(self.calls.deep_view() =~= pre.push(args.deep_view()));
        }
    }
}

/// Copies a token list, element for element.
fn clone_tokens(v: &Vec<String>) -> (r: Vec<String>)
    ensures
        r.deep_view() == v.deep_view(),
{
    let mut r: Vec<String> = Vec::new();
    let mut i: usize = 0;
    proof {
        assert(r.deep_view() =~= v.deep_view().subrange(0, 0));
    }
    while i < v.len()
        invariant
            i <= v@.len(),
            r.deep_view() == v.deep_view().subrange(0, i as int),
        decreases v@.len() - i,
    {
        let ghost prev = r.deep_view();
        r.push(v[i].clone());
        proof {
            assert(v.deep_view()[i as int] == v@[i as int]@);
            assert(r.deep_view() =~= prev.push(v@[i as int]@));
            assert(r.deep_view() =~= v.deep_view().subrange(0, i + 1));
        }
        i = i + 1;
    }
    proof {
        assert(v.deep_view().subrange(0, v@.len() as int) =~= v.deep_view());
    }
    r
}

/// The reason a line failed to parse. Failed lines commit nothing: the
/// commander's position and path are left as they were before the line.
#[derive(Debug, PartialEq, Eq, Structural)]
pub enum ParseError {
    /// A token matched no keyword, child class or action of the current
    /// class.
    UnrecognizedToken,
    /// The ascend keyword was issued while already at the root class.
    AttemptToAscendPastRoot,
}

/// The structured outcome of parsing one line.
#[derive(Debug, PartialEq)]
pub enum LineResult {
    /// Nothing happened: the line held no tokens.
    Continue,
    /// Every token navigated; the payload is the new dot-joined path.
    Moved(String),
    /// An action was matched and its handler invoked.
    ActionDone,
    /// The line failed; the position is unchanged.
    Error(ParseError),
    /// The exit keyword was encountered; the enclosing read loop should
    /// stop.
    Exit,
}

/// A constructed command tree together with the current position in it.
///
/// Use `parse_line` to feed it one input line at a time; `path` reports the
/// position as a dot-joined string. To construct one, see
/// [`crate::builder::Builder`].
pub struct Commander<H = NoopHandler> {
    /// The node arena; node `0` is the root.
    pub nodes: Vec<SubClass>,
    /// The handler slots, indexed by the actions' `handler` fields.
    pub handlers: Vec<H>,
    /// The arena index of the current class.
    pub current: usize,
    /// The dot-joined path of the current class, kept in sync with
    /// `current`.
    pub path: String,
}

impl<H: Handler> Commander<H> {
    /// The model of the held tree.
    pub open spec fn tree(&self) -> Seq<NodeModel> {
        tree_view(self.nodes@)
    }

    /// Well-formedness: the tree is well formed, the position is a node of
    /// it, the path is the dot-joined ancestor chain of the position, and
    /// every action's handler slot exists.
    pub open spec fn wf(&self) -> bool {
        &&& wf_tree(self.tree())
        &&& (self.current as int) < self.tree().len()
        &&& self.path@ == path_of(self.tree(), self.current as int)
        &&& handlers_bounded(self.tree(), self.handlers@.len() as int)
    }

    /// The commander's navigation state (position, path, handlers) is the
    /// same in `pre` and `post`; failing lines leave it so.
    pub open spec fn unchanged_nav(pre: Self, post: Self) -> bool {
        post.current == pre.current && post.path == pre.path && post.handlers == pre.handlers
    }

    /// Decides [`Commander::wf`] at run time. `into_commander` establishes
    /// well-formedness and `parse_line` preserves it, but the fields are
    /// public; a caller outside verified code that has altered them can test
    /// here whether the invariant still holds before parsing further lines.
    pub fn is_wf(&self) -> (r: bool)
        ensures
            r == self.wf(),
    {
        if !crate::builder::check_links(&self.nodes) {
            return false;
        }
        if !crate::builder::check_norm(&self.nodes) {
            return false;
        }
        if !crate::builder::check_usable(&self.nodes) {
            return false;
        }
        if !crate::builder::check_unique(&self.nodes) {
            return false;
        }
        if !crate::builder::check_handlers(&self.nodes, self.handlers.len()) {
            return false;
        }
        if self.current >= self.nodes.len() {
            return false;
        }
        let p = path_string(&self.nodes, self.current);
        let ok = p == self.path;
        ok
    }

    /// Return the path of the current class, separated by `.`.
    pub fn path(&self) -> (r: &str)
        ensures
            r@ == self.path@,
            self.wf() ==> r@ == path_of(self.tree(), self.current as int),
    {
        self.path.as_str()
    }

    /// Parse a line of text against the tree, from the current position.
    ///
    /// The line is split on whitespace and the tokens are resolved left to
    /// right, case-insensitively: the ascend, root and exit keywords first,
    /// then child classes (descending), then actions (invoking the action's
    /// handler with the residual tokens). A blank line yields `Continue`; a
    /// line consumed purely by navigation yields `Moved` with the new path;
    /// a failing line yields `Error` and commits nothing, while `Exit` and
    /// `ActionDone` keep the navigation that preceded them. When `echo` is
    /// set, human-readable feedback for the failing cases is appended to
    /// `sink`; `echo` never changes the result or the new position, only
    /// whether feedback is written.
    pub fn parse_line(&mut self, line: &str, echo: bool, sink: &mut Vec<String>) -> (r: LineResult)
        requires
            old(self).wf(),
        ensures
            final(self).wf(),
            final(self).nodes == old(self).nodes,
            final(self).handlers@.len() == old(self).handlers@.len(),
            ({
                let t = old(self).tree();
                let po = parse_line_spec(t, old(self).current as int, tokens(line@));
                &&& (match po.out {
                    LineOut::Continue => r is Continue && Self::unchanged_nav(
                        *old(self),
                        *final(self),
                    ),
                    LineOut::Moved => (r matches LineResult::Moved(s) && s@ == path_of(t, po.pos))
                        && final(self).current as int == po.pos && final(self).handlers
                        == old(self).handlers,
                    LineOut::Invoked { node, action, args } => r is ActionDone
                        && final(self).current as int == po.pos && H::handle_ensures(
                        old(self).handlers@[t[node].actions[action].handler],
                        final(self).handlers@[t[node].actions[action].handler],
                        args,
                    ) && (forall|i: int|
                        0 <= i < old(self).handlers@.len() && i != t[node].actions[action].handler
                            ==> final(self).handlers@[i] == old(self).handlers@[i]),
                    LineOut::Unrecognized => (r matches LineResult::Error(e)
                        && e is UnrecognizedToken) && Self::unchanged_nav(
                        *old(self),
                        *final(self),
                    ),
                    LineOut::AscendAtRoot => (r matches LineResult::Error(e)
                        && e is AttemptToAscendPastRoot) && Self::unchanged_nav(
                        *old(self),
                        *final(self),
                    ),
                    LineOut::Exit => r is Exit && final(self).current as int == po.pos
                        && final(self).handlers == old(self).handlers,
                })
                &&& (echo ==> final(sink).deep_view() == old(sink).deep_view() + po.notes)
                &&& (!echo ==> *final(sink) == *old(sink))
            }),
    {
        let toks = tokenize(line);
        let ghost t = self.tree();
        let ghost tseq = toks.deep_view();
        if toks.len() == 0 {
            proof {
                assert(tokens(line@).len() == 0);
            }
            return LineResult::Continue;
        }
        let mut cur: usize = self.current;
        let mut j: usize = 0;
        while j < toks.len()
            invariant
                old(self).wf(),
                *self == *old(self),
                *sink == *old(sink),
                t == old(self).tree(),
                wf_tree(t),
                tseq == toks.deep_view(),
                tseq == tokens(line@),
                tseq.len() == toks@.len(),
                tseq.len() > 0,
                j <= toks@.len(),
                cur < t.len(),
                parse_from(t, old(self).current as int, tseq, 0) == parse_from(
                    t,
                    cur as int,
                    tseq,
                    j as int,
                ),
            decreases toks@.len() - j,
        {
            let ghost pre = parse_from(t, cur as int, tseq, j as int);
            let tok = &toks[j];
            proof {
                assert(tseq[j as int] == toks@[j as int]@);
            }
            if is_up_kw(tok.as_str()) {
                if cur == 0 {
                    if echo {
                        let note = String::from_str("cannot ascend above the root class");
                        proof {
                            assert(note@ == note_ascend());
                        }
                        let ghost presink = sink.deep_view();
                        sink.push(note);
                        proof {
                            assert(sink.deep_view() =~= presink.push(note_ascend()));
                            assert(sink.deep_view() =~= old(sink).deep_view() + pre.notes);
                        }
                    }
                    return LineResult::Error(ParseError::AttemptToAscendPastRoot);
                }
                let parent = self.nodes[cur].parent;
                proof {
                    assert(t[cur as int].parent == parent as int);
                }
                cur = parent;
                j = j + 1;
            } else if is_root_kw(tok.as_str()) {
                cur = 0;
                j = j + 1;
            } else if is_exit_kw(tok.as_str()) {
                self.current = cur;
                let p = path_string(&self.nodes, cur);
                self.path = p;
                proof {
                    assert(old(sink).deep_view() + pre.notes =~= sink.deep_view());
                }
                return LineResult::Exit;
            } else if let Some(c) = find_child_exec(&self.nodes, cur, tok.as_str()) {
                proof {
                    assert(find_child(t, cur as int, norm(tseq[j as int])) == Some(c as int));
                }
                cur = c;
                j = j + 1;
            } else if let Some(a) = find_action_exec(&self.nodes, cur, tok.as_str()) {
                self.current = cur;
                let p = path_string(&self.nodes, cur);
                self.path = p;
                let mut args: Vec<String> = Vec::new();
                let mut m: usize = j + 1;
                proof {
                    assert(args.deep_view() =~= tseq.subrange(j + 1, j + 1));
                }
                while m < toks.len()
                    invariant
                        tseq == toks.deep_view(),
                        tseq.len() == toks@.len(),
                        j < m <= toks@.len(),
                        args.deep_view() == tseq.subrange(j + 1, m as int),
                    decreases toks@.len() - m,
                {
                    let ghost preargs = args.deep_view();
                    args.push(toks[m].clone());
                    proof {
                        assert(toks@[m as int]@ == tseq[m as int]);
                        assert(args.deep_view() =~= preargs.push(tseq[m as int]));
                        assert(args.deep_view() =~= tseq.subrange(j + 1, m + 1));
                    }
                    m = m + 1;
                }
                proof {
                    assert(args.deep_view() =~= tseq.skip(j + 1));
                }
                let k = self.nodes[cur].actions[a].handler;
                proof {
                    assert(t[cur as int].actions[a as int]
                        == self.nodes@[cur as int].actions@[a as int]@);
                    assert(k as int == t[cur as int].actions[a as int].handler);
                    assert(0 <= t[cur as int].actions[a as int].handler < old(
                        self,
                    ).handlers@.len());
                    assert(self.handlers@ == old(self).handlers@);
                }
                let h = &mut self.handlers[k];
                h.handle(&args);
                proof {
                    assert(H::handle_ensures(
                        old(self).handlers@[k as int],
                        self.handlers@[k as int],
                        args.deep_view(),
                    ));
                    assert(old(sink).deep_view() + pre.notes =~= sink.deep_view());
                }
                return LineResult::ActionDone;
            } else {
                if echo {
                    write_unrec_notes(&self.nodes, cur, tok.as_str(), sink);
                    proof {
                        assert(old(sink).deep_view() + pre.notes =~= sink.deep_view());
                    }
                }
                return LineResult::Error(ParseError::UnrecognizedToken);
            }
        }
        self.current = cur;
        let p = path_string(&self.nodes, cur);
        self.path = p;
        proof {
            assert(old(sink).deep_view() + Seq::<Seq<char>>::empty() =~= sink.deep_view());
        }
        LineResult::Moved(self.path.clone())
    }
}

/// Appends the feedback for an unrecognized token to the sink: the token
/// itself, then a listing of the children and actions valid at node `p`.
fn write_unrec_notes(nodes: &Vec<SubClass>, p: usize, tok: &str, sink: &mut Vec<String>)
    requires
        crate::model::wf_tree(tree_view(nodes@)),
        p < nodes@.len(),
    ensures
        final(sink).deep_view() == old(sink).deep_view() + unrec_notes(
            tree_view(nodes@),
            p as int,
            tok@,
        ),
{
    let ghost t = tree_view(nodes@);
    let ghost base = old(sink).deep_view();
    let mut first = String::from_str("unrecognized token: ");
    first.append(tok);
    proof {
        assert(first@ == note_unrecognized(tok@));
    }
    sink.push(first);
    proof {
        assert(sink.deep_view() =~= base.push(note_unrecognized(tok@)));
    }
    let ghost head = base.push(note_unrecognized(tok@));
    let nch = nodes[p].classes.len();
    let mut k: usize = 0;
    while k < nch
        invariant
            wf_tree(t),
            t == tree_view(nodes@),
            p < nodes@.len(),
            nch == t[p as int].classes.len(),
            k <= nch,
            sink.deep_view() == head + t[p as int].classes.subrange(0, k as int).map_values(
                |c: int| note_class(t[c].name),
            ),
        decreases nch - k,
    {
        let c = nodes[p].classes[k];
        proof {
            assert(c as int == t[p as int].classes[k as int]);
        }
        let mut l = String::from_str("class: ");
        l.append(nodes[c].name.as_str());
        proof {
            assert(l@ == note_class(t[c as int].name));
        }
        let ghost presink = sink.deep_view();
        sink.push(l);
        proof {
            assert(sink.deep_view() =~= presink.push(note_class(t[c as int].name)));
            assert(sink.deep_view() =~= head + t[p as int].classes.subrange(0, k + 1).map_values(
                |ci: int| note_class(t[ci].name),
            ));
        }
        k = k + 1;
    }
    let ghost mid = head + t[p as int].classes.map_values(|c: int| note_class(t[c].name));
    proof {
        assert(t[p as int].classes.subrange(0, nch as int) =~= t[p as int].classes);
        assert(sink.deep_view() =~= mid);
    }
    let nac = nodes[p].actions.len();
    let mut k2: usize = 0;
    while k2 < nac
        invariant
            wf_tree(t),
            t == tree_view(nodes@),
            p < nodes@.len(),
            nac == t[p as int].actions.len(),
            k2 <= nac,
            sink.deep_view() == mid + t[p as int].actions.subrange(0, k2 as int).map_values(
                |a: crate::model::ActionModel| note_action(a.name),
            ),
        decreases nac - k2,
    {
        proof {
            assert(t[p as int].actions[k2 as int] == nodes@[p as int].actions@[k2 as int]@);
        }
        let mut l = String::from_str("action: ");
        l.append(nodes[p].actions[k2].name.as_str());
        proof {
            assert(l@ == note_action(t[p as int].actions[k2 as int].name));
        }
        let ghost presink = sink.deep_view();
        sink.push(l);
        proof {
            assert(sink.deep_view() =~= presink.push(
                note_action(t[p as int].actions[k2 as int].name),
            ));
            assert(sink.deep_view() =~= mid + t[p as int].actions.subrange(0, k2 + 1).map_values(
                |a: crate::model::ActionModel| note_action(a.name),
            ));
        }
        k2 = k2 + 1;
    }
    proof {
        assert(t[p as int].actions.subrange(0, nac as int) =~= t[p as int].actions);
        assert(sink.deep_view() =~= base + unrec_notes(t, p as int, tok@));
    }
}

} // verus!
