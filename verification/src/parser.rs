//! The executable half of line parsing: scanning a line into tokens,
//! matching tokens against keywords, classes and actions, and rendering the
//! dot-joined path of a node.

use vstd::prelude::*;

use crate::model::{
    exit_kw, find_action, find_action_from, find_child, find_child_from, is_ws, path_of, root_kw,
    tokens, tokens_from, up_kw, wf_tree,
};
use crate::norm::{eq_norm, norm, push_char};
use crate::tree::{tree_view, SubClass};

verus! {

/// Executable test for the whitespace that tokenization splits on.
pub(crate) fn ws_char(c: char) -> (r: bool)
    ensures
        r == is_ws(c),
{
    c == ' ' || c == '\t' || c == '\r' || c == '\n'
}

/// Splits a line into its whitespace-separated tokens.
pub fn tokenize(line: &str) -> (toks: Vec<String>)
    ensures
        toks.deep_view() == tokens(line@),
{
    let n = line.unicode_len();
    let mut toks: Vec<String> = Vec::new();
    let mut cur = String::new();
    let mut i: usize = 0;
    proof {
        assert(toks.deep_view() =~= Seq::<Seq<char>>::empty());
    }
    while i < n
        invariant
            i <= n,
            n == line@.len(),
            tokens(line@) == tokens_from(line@, i as int, cur@, toks.deep_view()),
        decreases n - i,
    {
        let c = line.get_char(i);
        let ghost pre_toks = toks.deep_view();
        let ghost pre_cur = cur@;
        if ws_char(c) {
            if cur.as_str().unicode_len() > 0 {
                toks.push(cur);
                cur = String::new();
                proof {
                    assert(toks.deep_view() =~= pre_toks.push(pre_cur));
                }
            }
        } else {
            push_char(&mut cur, c);
        }
        i = i + 1;
    }
    if cur.as_str().unicode_len() > 0 {
        let ghost pre_toks = toks.deep_view();
        let ghost pre_cur = cur@;
        toks.push(cur);
        proof {
            assert(toks.deep_view() =~= pre_toks.push(pre_cur));
        }
    }
    toks
}

/// Does the token name the ascend keyword (up to case)?
pub fn is_up_kw(tok: &str) -> (r: bool)
    ensures
        r == (norm(tok@) == up_kw()),
{
    let r = eq_norm(tok, "c");
    proof {
        reveal_strlit("c");
        assert("c"@ =~= up_kw());
        assert(norm("c"@) =~= up_kw());
    }
    r
}

/// Does the token name the root keyword (up to case)?
pub fn is_root_kw(tok: &str) -> (r: bool)
    ensures
        r == (norm(tok@) == root_kw()),
{
    let r = eq_norm(tok, "root");
    proof {
        reveal_strlit("root");
        assert("root"@ =~= root_kw());
        assert(norm("root"@) =~= root_kw());
    }
    r
}

/// Does the token name the exit keyword (up to case)?
pub fn is_exit_kw(tok: &str) -> (r: bool)
    ensures
        r == (norm(tok@) == exit_kw()),
{
    let r = eq_norm(tok, "exit");
    proof {
        reveal_strlit("exit");
        assert("exit"@ =~= exit_kw());
        assert(norm("exit"@) =~= exit_kw());
    }
    r
}

/// Looks the token up (case-insensitively) among the child classes of node
/// `p`, returning the arena index of the matching child.
pub fn find_child_exec(nodes: &Vec<SubClass>, p: usize, tok: &str) -> (r: Option<usize>)
    requires
        wf_tree(tree_view(nodes@)),
        p < nodes@.len(),
    ensures
        match r {
            Some(c) => find_child(tree_view(nodes@), p as int, norm(tok@)) == Some(c as int) && p
                < c < nodes@.len(),
            None => find_child(tree_view(nodes@), p as int, norm(tok@)) is None,
        },
{
    let ghost t = tree_view(nodes@);
    let ghost nt = norm(tok@);
    let mut k: usize = 0;
    let nch = nodes[p].classes.len();
    while k < nch
        invariant
            wf_tree(t),
            t == tree_view(nodes@),
            p < nodes@.len(),
            nch == t[p as int].classes.len(),
            k <= nch,
            nt == norm(tok@),
            find_child(t, p as int, nt) == find_child_from(t, t[p as int].classes, nt, k as int),
        decreases nch - k,
    {
        let c = nodes[p].classes[k];
        assert(c as int == t[p as int].classes[k as int]);
        assert(norm(t[c as int].name) == t[c as int].name);
        if eq_norm(tok, nodes[c].name.as_str()) {
            return Some(c);
        }
        k = k + 1;
    }
    None
}

/// Looks the token up (case-insensitively) among the actions of node `p`,
/// returning the index of the matching action within that node.
pub fn find_action_exec(nodes: &Vec<SubClass>, p: usize, tok: &str) -> (r: Option<usize>)
    requires
        wf_tree(tree_view(nodes@)),
        p < nodes@.len(),
    ensures
        match r {
            Some(a) => find_action(tree_view(nodes@), p as int, norm(tok@)) == Some(a as int) && a
                < nodes@[p as int].actions@.len(),
            None => find_action(tree_view(nodes@), p as int, norm(tok@)) is None,
        },
{
    let ghost t = tree_view(nodes@);
    let ghost nt = norm(tok@);
    let mut k: usize = 0;
    let nac = nodes[p].actions.len();
    while k < nac
        invariant
            wf_tree(t),
            t == tree_view(nodes@),
            p < nodes@.len(),
            nac == t[p as int].actions.len(),
            k <= nac,
            nt == norm(tok@),
            find_action(t, p as int, nt) == find_action_from(t[p as int].actions, nt, k as int),
        decreases nac - k,
    {
        assert(t[p as int].actions[k as int] == nodes@[p as int].actions@[k as int]@);
        assert(norm(t[p as int].actions[k as int].name) == t[p as int].actions[k as int].name);
        if eq_norm(tok, nodes[p].actions[k].name.as_str()) {
            return Some(k);
        }
        k = k + 1;
    }
    None
}

/// Renders the dot-joined path of node `p`: the names of the ancestor chain
/// from the root down to `p`, separated by `'.'`.
pub fn path_string(nodes: &Vec<SubClass>, p: usize) -> (r: String)
    requires
        wf_tree(tree_view(nodes@)),
        p < nodes@.len(),
    ensures
        r@ == path_of(tree_view(nodes@), p as int),
{
    let ghost t = tree_view(nodes@);
    let mut chain: Vec<usize> = Vec::new();
    let mut c = p;
    chain.push(p);
    while c != 0
        invariant
            wf_tree(t),
            t == tree_view(nodes@),
            p < nodes@.len(),
            chain@.len() >= 1,
            chain@[0] == p,
            c < nodes@.len(),
            chain@[chain@.len() - 1] == c,
            forall|i: int| 0 <= i < chain@.len() ==> #[trigger] chain@[i] < nodes@.len(),
            forall|i: int| 0 <= i < chain@.len() - 1 ==> chain@[i] != 0,
            forall|i: int|
                0 <= i < chain@.len() - 1 ==> t[#[trigger] chain@[i] as int].parent == chain@[i
                    + 1] as int,
        decreases c,
    {
        let parent = nodes[c].parent;
        assert(t[c as int].parent == parent as int);
        assert(parent < c);
        chain.push(parent);
        c = parent;
    }
    let mut r = String::new();
    let mut i: usize = chain.len();
    proof {
        reveal_strlit(".");
    }
    while i > 0
        invariant
            wf_tree(t),
            t == tree_view(nodes@),
            chain@.len() >= 1,
            i <= chain@.len(),
            chain@[chain@.len() - 1] == 0,
            forall|j: int| 0 <= j < chain@.len() ==> #[trigger] chain@[j] < nodes@.len(),
            forall|j: int| 0 <= j < chain@.len() - 1 ==> chain@[j] != 0,
            forall|j: int|
                0 <= j < chain@.len() - 1 ==> t[#[trigger] chain@[j] as int].parent == chain@[j
                    + 1] as int,
            i == chain@.len() ==> r@ == Seq::<char>::empty(),
            i < chain@.len() ==> r@ == path_of(t, chain@[i as int] as int),
        decreases i,
    {
        i = i - 1;
        let node_idx = chain[i];
        proof {
            reveal_strlit(".");
            assert("."@ =~= seq!['.']);
            assert(t[node_idx as int].name == nodes@[node_idx as int].name@);
        }
        if i + 1 == chain.len() {
            assert(node_idx == 0);
            r.append(nodes[node_idx].name.as_str());
            assert(r@ =~= path_of(t, 0));
        } else {
            assert(node_idx != 0);
            assert(t[node_idx as int].parent == chain@[i + 1] as int);
            assert(0 <= t[node_idx as int].parent < node_idx as int);
            r.append(".");
            r.append(nodes[node_idx].name.as_str());
            assert(r@ =~= path_of(t, chain@[i + 1] as int) + seq!['.'] + t[node_idx as int].name);
        }
    }
    assert(r@ == path_of(t, chain@[0] as int));
    r
}

} // verus!
