//! The parse result and its read-only traversal. A `Parsed` owns one
//! document, its parse tree and its syntax errors; a `Chunk` is a transient
//! view of one node bound to the document, and traversal yields the chunks
//! of a subtree depth-first, pre-order.
use vstd::prelude::*;

verus! {

use crate::engine::{Error, SNode, Token, token_view, tokens_view};
use crate::text::{chars_to_string, copy_range};

/// One document's parse: the document text, the root node, and the syntax
/// errors in order of emission.
pub struct Parsed {
    pub input: Vec<char>,
    pub token: Token,
    pub errors: Vec<Error>,
}

/// A read-only view of one node, bound to the document it was parsed from.
pub struct Chunk<'a> {
    pub input: &'a Vec<char>,
    pub token: &'a Token,
}

/// The nodes of the subtree rooted at `n`, depth-first, pre-order.
pub open spec fn preorder(n: SNode) -> Seq<SNode>
    decreases n,
{
    match n.children {
        Option::Some(cs) => seq![n] + preorder_seq(cs),
        Option::None => seq![n],
    }
}

pub open spec fn preorder_seq(cs: Seq<SNode>) -> Seq<SNode>
    decreases cs,
{
    if cs.len() == 0 {
        Seq::empty()
    } else {
        preorder(cs[0]) + preorder_seq(cs.drop_first())
    }
}

proof fn lemma_preorder_seq_push(cs: Seq<SNode>, x: SNode)
    ensures
        preorder_seq(cs.push(x)) == preorder_seq(cs) + preorder(x),
    decreases cs.len(),
{
    if cs.len() == 0 {
        assert(cs.push(x).drop_first() =~= Seq::<SNode>::empty());
        assert(cs.push(x)[0] == x);
        assert(preorder_seq(Seq::<SNode>::empty()) == Seq::<SNode>::empty());
        assert(preorder_seq(cs.push(x)) =~= preorder_seq(cs) + preorder(x));
    } else {
        assert(cs.push(x).drop_first() =~= cs.drop_first().push(x));
        lemma_preorder_seq_push(cs.drop_first(), x);
        assert(cs.push(x)[0] == cs[0]);
        assert(preorder_seq(cs.push(x)) =~= preorder_seq(cs) + preorder(x));
    }
}

pub proof fn lemma_tokens_view_index(ts: Seq<Token>, i: int)
    requires
        0 <= i < ts.len(),
    ensures
        tokens_view(ts).len() == ts.len(),
        tokens_view(ts)[i] == token_view(ts[i]),
    decreases ts.len(),
{
    lemma_tokens_view_len_local(ts);
    if i > 0 {
        lemma_tokens_view_index(ts.drop_first(), i - 1);
    }
}

proof fn lemma_tokens_view_len_local(ts: Seq<Token>)
    ensures
        tokens_view(ts).len() == ts.len(),
    decreases ts.len(),
{
    if ts.len() > 0 {
        lemma_tokens_view_len_local(ts.drop_first());
    }
}

/// The spans of every node of a well-formed tree, in pre-order, lie within
/// the document.
pub proof fn lemma_preorder_wf(n: SNode, len: nat)
    requires
        crate::engine::snode_wf(n, len),
    ensures
        forall|k: int|
            0 <= k < preorder(n).len() ==> (#[trigger] preorder(n)[k]).start <= preorder(n)[k].end
                <= len,
    decreases n,
{
    match n.children {
        Option::Some(cs) => {
            lemma_preorder_seq_wf(cs, len);
            assert forall|k: int| 0 <= k < preorder(n).len() implies (#[trigger] preorder(
                n,
            )[k]).start <= preorder(n)[k].end <= len by {
                if k > 0 {
                    assert(preorder(n)[k] == preorder_seq(cs)[k - 1]);
                }
            }
        },
        Option::None => {},
    }
}

proof fn lemma_preorder_seq_wf(cs: Seq<SNode>, len: nat)
    requires
        crate::engine::snodes_wf(cs, len),
    ensures
        forall|k: int|
            0 <= k < preorder_seq(cs).len() ==> (#[trigger] preorder_seq(cs)[k]).start
                <= preorder_seq(cs)[k].end <= len,
    decreases cs,
{
    if cs.len() > 0 {
        lemma_preorder_wf(cs[0], len);
        lemma_preorder_seq_wf(cs.drop_first(), len);
        assert forall|k: int| 0 <= k < preorder_seq(cs).len() implies (#[trigger] preorder_seq(
            cs,
        )[k]).start <= preorder_seq(cs)[k].end <= len by {
            if k < preorder(cs[0]).len() {
                assert(preorder_seq(cs)[k] == preorder(cs[0])[k]);
            } else {
                assert(preorder_seq(cs)[k] == preorder_seq(cs.drop_first())[k - preorder(
                    cs[0],
                ).len()]);
            }
        }
    }
}

/// Appends the pre-order chunks of the subtree at `token` to `out`: the
/// node itself first, then its children's subtrees in order.
#[verifier::loop_isolation(false)]
pub fn recursive_visit<'a>(input: &'a Vec<char>, token: &'a Token, out: &mut Vec<Chunk<'a>>)
    ensures
        final(out)@.len() == old(out)@.len() + preorder(token_view(*token)).len(),
        forall|k: int| 0 <= k < old(out)@.len() ==> final(out)@[k] == old(out)@[k],
        forall|k: int|
            old(out)@.len() <= k < final(out)@.len() ==> (#[trigger] final(out)@[k]).input == input
                && token_view(*final(out)@[k].token) == preorder(token_view(*token))[k - old(
                out,
            )@.len()],
    decreases *token,
{
    let ghost pre = preorder(token_view(*token));
    out.push(Chunk { input, token });
    match &token.children {
        Option::Some(cs) => {
            proof {
                lemma_tokens_view_len_local(cs@);
            }
            let mut i: usize = 0;
            while i < cs.len()
                invariant
                    i <= cs@.len(),
                    tokens_view(cs@).len() == cs@.len(),
                    out@.len() == old(out)@.len() + 1 + preorder_seq(
                        tokens_view(cs@).subrange(0, i as int),
                    ).len(),
                    pre == seq![token_view(*token)] + preorder_seq(tokens_view(cs@)),
                    forall|k: int| 0 <= k < old(out)@.len() ==> out@[k] == old(out)@[k],
                    out@[old(out)@.len() as int].input == input,
                    token_view(*out@[old(out)@.len() as int].token) == token_view(*token),
                    forall|k: int|
                        old(out)@.len() + 1 <= k < out@.len() ==> (#[trigger] out@[k]).input
                            == input && token_view(*out@[k].token) == preorder_seq(
                            tokens_view(cs@).subrange(0, i as int),
                        )[k - old(out)@.len() - 1],
                decreases cs@.len() - i,
            {
                proof {
                    lemma_tokens_view_index(cs@, i as int);
                }
                recursive_visit(input, &cs[i], out);
                i = i + 1;
                proof {
                    assert(tokens_view(cs@).subrange(0, i as int) =~= tokens_view(cs@).subrange(
                        0,
                        i - 1,
                    ).push(tokens_view(cs@)[i - 1]));
                    lemma_preorder_seq_push(
                        tokens_view(cs@).subrange(0, i - 1),
                        tokens_view(cs@)[i - 1],
                    );
                }
            }
            proof {
                assert(tokens_view(cs@).subrange(0, cs@.len() as int) =~= tokens_view(cs@));
            }
        },
        Option::None => {},
    }
}

impl<'a> Chunk<'a> {
    /// The owning node's rule name.
    pub fn rule(&self) -> (r: String)
        ensures
            r@ == self.token.rule@,
    {
        chars_to_string(&self.token.rule)
    }

    /// The node's span: `[start, end)` character offsets into the document.
    pub fn position(&self) -> (r: (usize, usize))
        ensures
            r.0 == self.token.start,
            r.1 == self.token.end,
    {
        (self.token.start, self.token.end)
    }

    /// The document slice the node covers.
    pub fn value(&self) -> (r: String)
        requires
            self.token.start <= self.token.end <= self.input@.len(),
        ensures
            r@ == self.input@.subrange(self.token.start as int, self.token.end as int),
    {
        let v = copy_range(self.input, self.token.start, self.token.end);
        chars_to_string(&v)
    }

    /// The node's children, absent for an atomic node.
    pub fn children(&self) -> (r: Option<&Vec<Token>>)
        ensures
            match r {
                Option::Some(cs) => self.token.children matches Option::Some(own) && cs@ == own@,
                Option::None => self.token.children is None,
            },
    {
        self.token.children.as_ref()
    }

    /// The chunks of this node's subtree, depth-first, pre-order.
    pub fn visit(&self) -> (r: Vec<Chunk<'a>>)
        ensures
            r@.len() == preorder(token_view(*self.token)).len(),
            forall|k: int|
                0 <= k < r@.len() ==> (#[trigger] r@[k]).input == self.input && token_view(
                    *r@[k].token,
                ) == preorder(token_view(*self.token))[k],
    {
        let mut out: Vec<Chunk<'a>> = Vec::new();
        recursive_visit(self.input, self.token, &mut out);
        out
    }
}

impl Parsed {
    /// Binds a document, its root node and its errors together.
    pub fn new(input: Vec<char>, token: Token, errors: Vec<Error>) -> (r: Parsed)
        ensures
            r.input == input,
            r.token == token,
            r.errors == errors,
    {
        Parsed { input, token, errors }
    }

    /// The chunks of the whole tree, depth-first, pre-order, starting at the
    /// root.
    pub fn visit(&self) -> (r: Vec<Chunk<'_>>)
        ensures
            r@.len() == preorder(token_view(self.token)).len(),
            forall|k: int|
                0 <= k < r@.len() ==> (#[trigger] r@[k]).input == &self.input && token_view(
                    *r@[k].token,
                ) == preorder(token_view(self.token))[k],
    {
        let mut out: Vec<Chunk<'_>> = Vec::new();
        recursive_visit(&self.input, &self.token, &mut out);
        out
    }
}

} // verus!
