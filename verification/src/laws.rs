//! The general laws of line parsing, stated over the model and proved once
//! and for all: case-insensitivity, the navigation keywords, unrecognized
//! tokens, and descending along any chain of classes built into the tree.

use vstd::prelude::*;

use crate::model::{
    exit_kw, find_action, find_child, find_child_from, is_ws, join_with, node_names_usable,
    parse_from, parse_line_spec, path_of, root_kw, tokens, tokens_from, up_kw, wf_name, wf_tree,
    LineOut, NodeModel, ParseOut,
};
use crate::norm::norm;

verus! {

/// The three keywords are pairwise distinct.
proof fn lemma_kw_distinct()
    ensures
        up_kw() != root_kw(),
        up_kw() != exit_kw(),
        root_kw() != exit_kw(),
{
    assert(up_kw().len() == 1);
    assert(root_kw().len() == 4);
    assert(exit_kw().len() == 4);
    assert(root_kw()[0] != exit_kw()[0]);
}

/// Parsing is case-insensitive: two one-token lines whose tokens normalize
/// to the same word yield the same outcome and the same position, from any
/// position of any tree. (With [`crate::norm::lemma_norm_idempotent`], this
/// covers a token against its own normalized spelling as well.)
pub proof fn law_case_insensitive(t: Seq<NodeModel>, p: int, a: Seq<char>, b: Seq<char>)
    requires
        wf_tree(t),
        0 <= p < t.len(),
        norm(a) == norm(b),
    ensures
        parse_line_spec(t, p, seq![a]).out == parse_line_spec(t, p, seq![b]).out,
        parse_line_spec(t, p, seq![a]).pos == parse_line_spec(t, p, seq![b]).pos,
{
    let ta = seq![a];
    let tb = seq![b];
    assert(ta[0] == a && tb[0] == b);
    assert(ta.skip(1) =~= tb.skip(1));
    let n = norm(a);
    if n == up_kw() && p != 0 {
        assert(parse_from(t, t[p].parent, ta, 1) == ParseOut {
            out: LineOut::Moved,
            pos: t[p].parent,
            notes: Seq::<Seq<char>>::empty(),
        });
        assert(parse_from(t, t[p].parent, tb, 1) == ParseOut {
            out: LineOut::Moved,
            pos: t[p].parent,
            notes: Seq::<Seq<char>>::empty(),
        });
    } else if n != up_kw() && n == root_kw() {
        assert(parse_from(t, 0, ta, 1) == ParseOut {
            out: LineOut::Moved,
            pos: 0,
            notes: Seq::<Seq<char>>::empty(),
        });
        assert(parse_from(t, 0, tb, 1) == ParseOut {
            out: LineOut::Moved,
            pos: 0,
            notes: Seq::<Seq<char>>::empty(),
        });
    } else if n != up_kw() && n != root_kw() && n != exit_kw() {
        match find_child(t, p, n) {
            Some(c) => {
                assert(parse_from(t, c, ta, 1) == ParseOut {
                    out: LineOut::Moved,
                    pos: c,
                    notes: Seq::<Seq<char>>::empty(),
                });
                assert(parse_from(t, c, tb, 1) == ParseOut {
                    out: LineOut::Moved,
                    pos: c,
                    notes: Seq::<Seq<char>>::empty(),
                });
            },
            None => {},
        }
    }
}

/// Ascending: from any non-root position, a line holding just the ascend
/// keyword moves to the structural parent, whose path is the current path
/// shorn of its last segment.
pub proof fn law_ascend(t: Seq<NodeModel>, p: int, tok: Seq<char>)
    requires
        wf_tree(t),
        0 < p < t.len(),
        norm(tok) == up_kw(),
    ensures
        parse_line_spec(t, p, seq![tok]).out is Moved,
        parse_line_spec(t, p, seq![tok]).pos == t[p].parent,
        path_of(t, p) == path_of(t, t[p].parent) + seq!['.'] + t[p].name,
{
    lemma_kw_distinct();
    let toks = seq![tok];
    assert(toks[0] == tok);
    assert(parse_from(t, t[p].parent, toks, 1) == ParseOut {
        out: LineOut::Moved,
        pos: t[p].parent,
        notes: Seq::<Seq<char>>::empty(),
    });
}

/// Ascending at the root is refused: the position stays and the line yields
/// the dedicated error.
pub proof fn law_ascend_at_root(t: Seq<NodeModel>, tok: Seq<char>)
    requires
        wf_tree(t),
        norm(tok) == up_kw(),
    ensures
        parse_line_spec(t, 0, seq![tok]).out is AscendAtRoot,
        parse_line_spec(t, 0, seq![tok]).pos == 0,
{
    assert(seq![tok][0] == tok);
}

/// Root reset: from any position, a line holding just the root keyword
/// moves to the root, whose path is the root's name alone.
pub proof fn law_root_reset(t: Seq<NodeModel>, p: int, tok: Seq<char>)
    requires
        wf_tree(t),
        0 <= p < t.len(),
        norm(tok) == root_kw(),
    ensures
        parse_line_spec(t, p, seq![tok]).out is Moved,
        parse_line_spec(t, p, seq![tok]).pos == 0,
        path_of(t, 0) == t[0].name,
{
    lemma_kw_distinct();
    let toks = seq![tok];
    assert(toks[0] == tok);
    assert(parse_from(t, 0, toks, 1) == ParseOut {
        out: LineOut::Moved,
        pos: 0,
        notes: Seq::<Seq<char>>::empty(),
    });
}

/// Exit: a line whose first token is the exit keyword yields `Exit` from any
/// position, whatever the remaining tokens hold.
pub proof fn law_exit(t: Seq<NodeModel>, p: int, toks: Seq<Seq<char>>)
    requires
        wf_tree(t),
        0 <= p < t.len(),
        toks.len() > 0,
        norm(toks[0]) == exit_kw(),
    ensures
        parse_line_spec(t, p, toks).out is Exit,
        parse_line_spec(t, p, toks).pos == p,
{
    lemma_kw_distinct();
}

/// Unrecognized token: a one-token line whose token is no keyword and names
/// neither a child class nor an action of the current node yields the
/// unrecognized-token error, and the parse stays at the current node (the
/// navigator additionally rolls its state back on every error).
pub proof fn law_unrecognized(t: Seq<NodeModel>, p: int, tok: Seq<char>)
    requires
        wf_tree(t),
        0 <= p < t.len(),
        norm(tok) != up_kw(),
        norm(tok) != root_kw(),
        norm(tok) != exit_kw(),
        find_child(t, p, norm(tok)) is None,
        find_action(t, p, norm(tok)) is None,
    ensures
        parse_line_spec(t, p, seq![tok]).out is Unrecognized,
        parse_line_spec(t, p, seq![tok]).pos == p,
{
    assert(seq![tok][0] == tok);
}

/// In a well-formed tree, looking a child's own name up at its parent finds
/// exactly that child: sibling names are unique, so the first match is it.
pub proof fn lemma_find_child_unique(t: Seq<NodeModel>, p: int, c: int)
    requires
        wf_tree(t),
        0 <= p < t.len(),
        t[p].classes.contains(c),
    ensures
        find_child(t, p, t[c].name) == Some(c),
{
    let j = choose|j: int| 0 <= j < t[p].classes.len() && t[p].classes[j] == c;
    lemma_find_child_from_unique(t, p, c, j, 0);
}

/// Helper for [`lemma_find_child_unique`]: the search from any position at
/// or before the child's slot finds the child.
proof fn lemma_find_child_from_unique(t: Seq<NodeModel>, p: int, c: int, j: int, k: int)
    requires
        wf_tree(t),
        0 <= p < t.len(),
        0 <= k <= j < t[p].classes.len(),
        t[p].classes[j] == c,
    ensures
        find_child_from(t, t[p].classes, t[c].name, k) == Some(c),
    decreases j - k,
{
    let ch = t[p].classes;
    if ch[k] == c {
        assert(find_child_from(t, ch, t[c].name, k) == Some(ch[k]));
    } else {
        assert(k < j);
        assert(crate::model::node_names_unique(t, p));
        assert(t[ch[k]].name != t[ch[j]].name);
        lemma_find_child_from_unique(t, p, c, j, k + 1);
    }
}

/// Whether `ns` is a chain of classes built into the tree, descending from
/// `p`, spelled out (up to case) by the tokens `toks[j..]`: each entry is a
/// child of the one before it (of `p` for the first), each token normalizes
/// to the matching entry's name, and no entry is named like a navigation
/// keyword (a keyword would shadow the class).
pub open spec fn chain_matches(
    t: Seq<NodeModel>,
    p: int,
    ns: Seq<int>,
    toks: Seq<Seq<char>>,
    j: int,
) -> bool
    decreases ns.len(),
{
    if ns.len() == 0 {
        true
    } else {
        &&& t[p].classes.contains(ns[0])
        &&& 0 <= j < toks.len()
        &&& norm(toks[j]) == t[ns[0]].name
        &&& t[ns[0]].name != up_kw()
        &&& t[ns[0]].name != root_kw()
        &&& t[ns[0]].name != exit_kw()
        &&& chain_matches(t, ns[0], ns.drop_first(), toks, j + 1)
    }
}

/// The last node of a chain, or the start for an empty chain.
pub open spec fn chain_end(p: int, ns: Seq<int>) -> int {
    if ns.len() == 0 {
        p
    } else {
        ns[ns.len() - 1]
    }
}

/// Descending along a built chain: a line whose tokens spell, in order and
/// up to case, the names of a chain of classes descending from the current
/// position navigates exactly to the chain's end. With `p` the root, this is
/// the nested-class-path law: the resulting path is the dot-joined
/// `root.c1.….cn`.
pub proof fn law_descend_chain(t: Seq<NodeModel>, p: int, ns: Seq<int>, toks: Seq<Seq<char>>)
    requires
        wf_tree(t),
        0 <= p < t.len(),
        toks.len() == ns.len() > 0,
        chain_matches(t, p, ns, toks, 0),
    ensures
        parse_line_spec(t, p, toks).out is Moved,
        parse_line_spec(t, p, toks).pos == chain_end(p, ns),
{
    law_descend_chain_from(t, p, ns, toks, 0);
}

/// Helper for [`law_descend_chain`], descending over `toks[j..]`.
proof fn law_descend_chain_from(
    t: Seq<NodeModel>,
    p: int,
    ns: Seq<int>,
    toks: Seq<Seq<char>>,
    j: int,
)
    requires
        wf_tree(t),
        0 <= p < t.len(),
        0 <= j <= toks.len(),
        ns.len() == toks.len() - j,
        chain_matches(t, p, ns, toks, j),
    ensures
        parse_from(t, p, toks, j) == (ParseOut {
            out: LineOut::Moved,
            pos: chain_end(p, ns),
            notes: Seq::<Seq<char>>::empty(),
        }),
    decreases ns.len(),
{
    if ns.len() == 0 {
        assert(j >= toks.len());
    } else {
        let c = ns[0];
        assert(t[p].classes.contains(c));
        let w = choose|w: int| 0 <= w < t[p].classes.len() && t[p].classes[w] == c;
        assert(0 <= c < t.len() && t[c].parent == p);
        lemma_find_child_unique(t, p, c);
        let rest = ns.drop_first();
        law_descend_chain_from(t, c, rest, toks, j + 1);
        if rest.len() == 0 {
            assert(chain_end(p, ns) == c);
        } else {
            assert(chain_end(c, rest) == rest[rest.len() - 1] == ns[ns.len() - 1]);
        }
    }
}

/// Whether `ns` is a chain of classes built into the tree, descending from
/// `p`: each entry is a child of the one before it (of `p` for the first).
pub open spec fn chain_from(t: Seq<NodeModel>, p: int, ns: Seq<int>) -> bool
    decreases ns.len(),
{
    if ns.len() == 0 {
        true
    } else {
        t[p].classes.contains(ns[0]) && chain_from(t, ns[0], ns.drop_first())
    }
}

/// The names of the chain's classes, in order.
pub open spec fn names_of(t: Seq<NodeModel>, ns: Seq<int>) -> Seq<Seq<char>> {
    ns.map_values(|c: int| t[c].name)
}

/// Every entry of a chain is a node of the tree.
proof fn lemma_chain_valid(t: Seq<NodeModel>, p: int, ns: Seq<int>)
    requires
        wf_tree(t),
        0 <= p < t.len(),
        chain_from(t, p, ns),
    ensures
        forall|i: int| 0 <= i < ns.len() ==> 0 <= #[trigger] ns[i] < t.len(),
    decreases ns.len(),
{
    if ns.len() > 0 {
        let c = ns[0];
        let w = choose|w: int| 0 <= w < t[p].classes.len() && t[p].classes[w] == c;
        assert(0 <= c < t.len());
        let rest = ns.drop_first();
        lemma_chain_valid(t, c, rest);
        assert forall|i: int| 0 <= i < ns.len() implies 0 <= #[trigger] ns[i] < t.len() by {
            if i > 0 {
                assert(rest[i - 1] == ns[i]);
            }
        }
    }
}

/// A chain whose tokens are the chain's own stored names matches it: the
/// names are already normalized, so each token resolves to its class.
proof fn lemma_chain_matches(
    t: Seq<NodeModel>,
    p: int,
    ns: Seq<int>,
    toks: Seq<Seq<char>>,
    j: int,
)
    requires
        wf_tree(t),
        0 <= p < t.len(),
        chain_from(t, p, ns),
        0 <= j,
        j + ns.len() <= toks.len(),
        forall|i: int| 0 <= i < ns.len() ==> toks[j + i] == t[#[trigger] ns[i]].name,
        forall|i: int|
            0 <= i < ns.len() ==> t[#[trigger] ns[i]].name != up_kw() && t[ns[i]].name != root_kw()
                && t[ns[i]].name != exit_kw(),
    ensures
        chain_matches(t, p, ns, toks, j),
    decreases ns.len(),
{
    if ns.len() > 0 {
        let c = ns[0];
        let w = choose|w: int| 0 <= w < t[p].classes.len() && t[p].classes[w] == c;
        assert(0 <= c < t.len());
        assert(norm(t[c].name) == t[c].name);
        assert(toks[j + 0] == t[c].name);
        let rest = ns.drop_first();
        assert forall|i: int| 0 <= i < rest.len() implies toks[j + 1 + i]
            == t[#[trigger] rest[i]].name && t[rest[i]].name != up_kw() && t[rest[i]].name
            != root_kw() && t[rest[i]].name != exit_kw() by {
            assert(rest[i] == ns[i + 1]);
            assert(toks[j + (i + 1)] == t[ns[i + 1]].name);
        }
        lemma_chain_matches(t, c, rest, toks, j + 1);
    }
}

/// Scanning a non-empty run of word characters advances the scanner over
/// it, extending the token being accumulated.
proof fn lemma_tokens_word(s: Seq<char>, i: int, cur: Seq<char>, acc: Seq<Seq<char>>, w: Seq<char>)
    requires
        0 <= i,
        i + w.len() <= s.len(),
        forall|m: int| 0 <= m < w.len() ==> s[i + m] == #[trigger] w[m],
        forall|m: int| 0 <= m < w.len() ==> !is_ws(#[trigger] w[m]),
    ensures
        tokens_from(s, i, cur, acc) == tokens_from(s, i + w.len(), cur + w, acc),
    decreases w.len(),
{
    if w.len() == 0 {
        assert(cur + w =~= cur);
    } else {
        assert(s[i] == w[0]);
        assert(!is_ws(s[i]));
        let w2 = w.drop_first();
        assert forall|m: int| 0 <= m < w2.len() implies s[i + 1 + m] == #[trigger] w2[m] && !is_ws(
            w2[m],
        ) by {
            assert(w2[m] == w[m + 1]);
            assert(s[i + (m + 1)] == w[m + 1]);
        }
        lemma_tokens_word(s, i + 1, cur.push(w[0]), acc, w2);
        assert(cur.push(w[0]) + w2 =~= cur + w);
    }
}

/// Scanning the space-joined words from position `i` appends exactly those
/// words to the tokens already found, provided each word is non-empty and
/// free of whitespace.
proof fn lemma_tokens_join(s: Seq<char>, i: int, acc: Seq<Seq<char>>, parts: Seq<Seq<char>>)
    requires
        0 <= i <= s.len(),
        i + join_with(' ', parts).len() == s.len(),
        forall|m: int|
            0 <= m < join_with(' ', parts).len() ==> s[i + m] == join_with(' ', parts)[m],
        forall|q: int| 0 <= q < parts.len() ==> (#[trigger] parts[q]).len() > 0,
        forall|q: int, m: int|
            0 <= q < parts.len() && 0 <= m < parts[q].len() ==> !is_ws(#[trigger] parts[q][m]),
    ensures
        tokens_from(s, i, Seq::empty(), acc) == acc + parts,
    decreases parts.len(),
{
    let jw = join_with(' ', parts);
    if parts.len() == 0 {
        assert(i == s.len());
        assert(acc + parts =~= acc);
    } else {
        let w = parts[0];
        assert(w.len() > 0);
        if parts.len() == 1 {
            assert(jw == w);
            assert forall|m: int| 0 <= m < w.len() implies s[i + m] == #[trigger] w[m] && !is_ws(
                w[m],
            ) by {
                assert(s[i + m] == jw[m]);
                assert(!is_ws(parts[0][m]));
            }
            lemma_tokens_word(s, i, Seq::empty(), acc, w);
            assert(Seq::empty() + w =~= w);
            assert(tokens_from(s, i + w.len(), w, acc) == acc.push(w));
            assert(acc.push(w) =~= acc + parts);
        } else {
            let rest = parts.drop_first();
            assert(jw == w + seq![' '] + join_with(' ', rest));
            assert forall|m: int| 0 <= m < w.len() implies s[i + m] == #[trigger] w[m] && !is_ws(
                w[m],
            ) by {
                assert(jw[m] == w[m]);
                assert(s[i + m] == jw[m]);
                assert(!is_ws(parts[0][m]));
            }
            lemma_tokens_word(s, i, Seq::empty(), acc, w);
            assert(Seq::empty() + w =~= w);
            assert(jw[w.len() as int] == ' ');
            assert(s[i + w.len()] == ' ');
            assert(tokens_from(s, i + w.len(), w, acc) == tokens_from(
                s,
                i + w.len() + 1,
                Seq::empty(),
                acc.push(w),
            ));
            let i2 = i + w.len() + 1;
            assert(jw.len() == w.len() + 1 + join_with(' ', rest).len());
            assert forall|m: int| 0 <= m < join_with(' ', rest).len() implies s[i2 + m]
                == join_with(' ', rest)[m] by {
                assert(jw[w.len() + 1 + m] == join_with(' ', rest)[m]);
                assert(s[i + (w.len() + 1 + m)] == jw[w.len() + 1 + m]);
            }
            assert forall|q: int| 0 <= q < rest.len() implies (#[trigger] rest[q]).len() > 0 by {
                assert(rest[q] == parts[q + 1]);
            }
            assert forall|q: int, m: int|
                0 <= q < rest.len() && 0 <= m < rest[q].len() implies !is_ws(
                #[trigger] rest[q][m],
            ) by {
                assert(rest[q] == parts[q + 1]);
                assert(!is_ws(parts[q + 1][m]));
            }
            lemma_tokens_join(s, i2, acc.push(w), rest);
            assert(acc.push(w) + rest =~= acc + parts);
        }
    }
}

/// The path of a chain's end is the path of its start followed by the
/// chain's names, dot-joined.
proof fn lemma_path_joined(t: Seq<NodeModel>, p: int, ns: Seq<int>)
    requires
        wf_tree(t),
        0 <= p < t.len(),
        ns.len() > 0,
        chain_from(t, p, ns),
    ensures
        path_of(t, chain_end(p, ns)) == path_of(t, p) + seq!['.'] + join_with(
            '.',
            names_of(t, ns),
        ),
    decreases ns.len(),
{
    let c = ns[0];
    let w = choose|w: int| 0 <= w < t[p].classes.len() && t[p].classes[w] == c;
    assert(0 <= c < t.len() && t[c].parent == p && p < c);
    assert(path_of(t, c) == path_of(t, p) + seq!['.'] + t[c].name);
    let rest = ns.drop_first();
    if rest.len() == 0 {
        assert(chain_end(p, ns) == c);
        assert(names_of(t, ns) =~= seq![t[c].name]);
        assert(join_with('.', names_of(t, ns)) == t[c].name);
    } else {
        lemma_path_joined(t, c, rest);
        assert(chain_end(p, ns) == chain_end(c, rest));
        assert(names_of(t, ns)[0] == t[c].name);
        assert(names_of(t, ns).drop_first() =~= names_of(t, rest));
        assert(join_with('.', names_of(t, ns)) == t[c].name + seq!['.'] + join_with(
            '.',
            names_of(t, rest),
        ));
        assert((path_of(t, p) + seq!['.'] + t[c].name) + seq!['.'] + join_with(
            '.',
            names_of(t, rest),
        ) =~= path_of(t, p) + seq!['.'] + (t[c].name + seq!['.'] + join_with(
            '.',
            names_of(t, rest),
        )));
    }
}

/// The nested-class-path law: typing the names of any chain of classes
/// built into the tree, from the root, as one space-separated line yields
/// `Moved`, leaves the position at the chain's end, and the resulting path
/// is the root's name followed by the chain's names, dot-joined. A class
/// named like a navigation keyword is shadowed by the keyword and is
/// excluded here.
pub proof fn law_class_path_line(t: Seq<NodeModel>, ns: Seq<int>)
    requires
        wf_tree(t),
        ns.len() > 0,
        chain_from(t, 0, ns),
        forall|i: int|
            0 <= i < ns.len() ==> t[#[trigger] ns[i]].name != up_kw() && t[ns[i]].name != root_kw()
                && t[ns[i]].name != exit_kw(),
    ensures
        ({
            let line = join_with(' ', names_of(t, ns));
            let po = parse_line_spec(t, 0, tokens(line));
            &&& po.out is Moved
            &&& po.pos == chain_end(0, ns)
            &&& path_of(t, po.pos) == t[0].name + seq!['.'] + join_with('.', names_of(t, ns))
        }),
{
    let names = names_of(t, ns);
    let line = join_with(' ', names);
    lemma_chain_valid(t, 0, ns);
    assert forall|q: int| 0 <= q < names.len() implies (#[trigger] names[q]).len() > 0 by {
        assert(node_names_usable(t, ns[q]));
        assert(wf_name(t[ns[q]].name));
    }
    assert forall|q: int, m: int|
        0 <= q < names.len() && 0 <= m < names[q].len() implies !is_ws(#[trigger] names[q][m]) by {
        assert(node_names_usable(t, ns[q]));
        assert(wf_name(t[ns[q]].name));
    }
    assert forall|m: int| 0 <= m < join_with(' ', names).len() implies line[0 + m] == join_with(
        ' ',
        names,
    )[m] by {}
    lemma_tokens_join(line, 0, Seq::empty(), names);
    assert(Seq::<Seq<char>>::empty() + names =~= names);
    assert(tokens(line) == names);
    assert forall|i: int| 0 <= i < ns.len() implies names[0 + i] == t[#[trigger] ns[i]].name by {}
    lemma_chain_matches(t, 0, ns, names, 0);
    law_descend_chain(t, 0, ns, names);
    lemma_path_joined(t, 0, ns);
    assert(path_of(t, 0) == t[0].name);
}

} // verus!
