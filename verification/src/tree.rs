//! The DSL parse tree: rules, nodes, their mathematical model, and the
//! structural facts the engine maintains — every node covers a byte span
//! of the input, the children of a node tile its span exactly, and the
//! leaves of a well-formed tree reconstruct the covered text.

use vstd::prelude::*;

verus! {

/// A named grammar production of the DSL; tags every node of a parse
/// tree and every entry of an error's expected set.
#[derive(Clone, Copy, PartialEq, Eq, Structural, Debug)]
pub enum Rule {
    SourceFile,
    ContractDef,
    FunctionDef,
    ParamList,
    Param,
    TypeName,
    RequireStmt,
    VarStmt,
    AssignStmt,
    Expression,
    CmpExpr,
    AddExpr,
    MulExpr,
    UnaryExpr,
    Primary,
    Number,
    StringLit,
    Identifier,
    Trivia,
    KwContract,
    KwFunction,
    KwRequire,
    KwTrue,
    KwFalse,
    LParen,
    RParen,
    LBrace,
    RBrace,
    Semi,
    Comma,
    AssignOp,
    BoolOp,
    CmpOp,
    AddOp,
    MulOp,
    UnaryOp,
    Eoi,
}

/// One matched occurrence of a rule: the rule, the byte span it covers,
/// and the nested occurrences inside it. A node without children is a
/// leaf and covers its span directly.
#[derive(Debug, PartialEq, Eq)]
pub struct Node {
    pub rule: Rule,
    pub start: usize,
    pub end: usize,
    pub children: Vec<Node>,
}

/// The mathematical shape of a node: the same data over `int` and `Seq`.
pub struct SpecNode {
    pub rule: Rule,
    pub start: int,
    pub end: int,
    pub children: Seq<SpecNode>,
}

/// The mathematical values of a sequence of nodes, in order.
pub open spec fn models_of(v: Seq<Node>) -> Seq<SpecNode>
    decreases v,
{
    if v.len() == 0 {
        Seq::<SpecNode>::empty()
    } else {
        models_of(v.drop_last()).push(v.last().model())
    }
}

impl Node {
    /// The mathematical value of this node.
    pub open spec fn model(self) -> SpecNode
        decreases self,
    {
        SpecNode {
            rule: self.rule,
            start: self.start as int,
            end: self.end as int,
            children: models_of(self.children@),
        }
    }
}

/// The children tile the span `[lo, hi)`: the first starts at `lo`, each
/// next one starts where the previous ended, the last ends at `hi`, and
/// each child is itself well formed against an input of length `len`.
pub open spec fn wf_children(cs: Seq<SpecNode>, len: int, lo: int, hi: int) -> bool
    decreases cs,
{
    if cs.len() == 0 {
        lo == hi
    } else {
        cs[0].start == lo && cs[0].wf(len) && wf_children(cs.drop_first(), len, cs[0].end, hi)
    }
}

impl SpecNode {
    /// Well-formedness against an input of `len` bytes: the span lies
    /// inside the input, and an inner node's children tile its span.
    pub open spec fn wf(self, len: int) -> bool
        decreases self,
    {
        0 <= self.start <= self.end <= len && (self.children.len() == 0 || wf_children(
            self.children,
            len,
            self.start,
            self.end,
        ))
    }
}

/// The text under a node's leaves, in order.
pub open spec fn leaf_text(n: SpecNode, s: Seq<u8>) -> Seq<u8>
    decreases n,
{
    if n.children.len() == 0 {
        s.subrange(n.start, n.end)
    } else {
        leaf_text_of(n.children, s)
    }
}

/// The concatenated leaf text of a sequence of nodes.
pub open spec fn leaf_text_of(cs: Seq<SpecNode>, s: Seq<u8>) -> Seq<u8>
    decreases cs,
{
    if cs.len() == 0 {
        Seq::<u8>::empty()
    } else {
        leaf_text(cs[0], s) + leaf_text_of(cs.drop_first(), s)
    }
}

/// The leaves of a well-formed node reconstruct exactly the text of the
/// span the node covers: nothing is dropped and nothing is duplicated.
pub proof fn lemma_leaf_text(n: SpecNode, s: Seq<u8>)
    requires
        n.wf(s.len() as int),
    ensures
        leaf_text(n, s) == s.subrange(n.start, n.end),
    decreases n,
{
    if n.children.len() == 0 {
    } else {
        lemma_leaf_text_of(n.children, s, n.start, n.end);
    }
}

pub proof fn lemma_leaf_text_of(cs: Seq<SpecNode>, s: Seq<u8>, lo: int, hi: int)
    requires
        wf_children(cs, s.len() as int, lo, hi),
        0 <= lo <= s.len(),
    ensures
        lo <= hi <= s.len(),
        leaf_text_of(cs, s) == s.subrange(lo, hi),
    decreases cs,
{
    if cs.len() == 0 {
        assert(leaf_text_of(cs, s) =~= s.subrange(lo, hi));
    } else {
        assert(cs[0].start == lo && cs[0].wf(s.len() as int));
        lemma_leaf_text(cs[0], s);
        lemma_leaf_text_of(cs.drop_first(), s, cs[0].end, hi);
        assert(s.subrange(lo, cs[0].end) + s.subrange(cs[0].end, hi) =~= s.subrange(lo, hi));
    }
}

/// Appending a well-formed node that starts where the tiling ended
/// extends the tiling to the new node's end.
pub proof fn lemma_wf_children_push(cs: Seq<SpecNode>, len: int, lo: int, hi: int, c: SpecNode)
    requires
        wf_children(cs, len, lo, hi),
        c.wf(len),
        c.start == hi,
    ensures
        wf_children(cs.push(c), len, lo, c.end),
    decreases cs,
{
    if cs.len() == 0 {
        assert(cs.push(c)[0] == c);
        assert(cs.push(c).drop_first() =~= Seq::<SpecNode>::empty());
        assert(wf_children(Seq::<SpecNode>::empty(), len, c.end, c.end));
    } else {
        lemma_wf_children_push(cs.drop_first(), len, cs[0].end, hi, c);
        assert(cs.push(c)[0] == cs[0]);
        assert(cs.push(c).drop_first() =~= cs.drop_first().push(c));
    }
}


/// Pushing onto a vector of nodes pushes the model.
pub proof fn lemma_models_of_push(v: Seq<Node>, n: Node)
    ensures
        models_of(v.push(n)) == models_of(v).push(n.model()),
{
    assert(v.push(n).drop_last() =~= v);
    assert(v.push(n).last() == n);
}

/// Concatenating sequences of nodes concatenates their models.
pub proof fn lemma_models_of_concat(a: Seq<Node>, b: Seq<Node>)
    ensures
        models_of(a + b) == models_of(a) + models_of(b),
    decreases b,
{
    if b.len() == 0 {
        assert(a + b =~= a);
        assert(models_of(a) + models_of(b) =~= models_of(a));
    } else {
        lemma_models_of_concat(a, b.drop_last());
        assert((a + b).drop_last() =~= a + b.drop_last());
        assert((a + b).last() == b.last());
        assert(models_of(a) + models_of(b) =~= (models_of(a) + models_of(b.drop_last())).push(
            b.last().model(),
        ));
    }
}

} // verus!
