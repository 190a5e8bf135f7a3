//! The syntax tree built by the parser and walked by the evaluator.

use vstd::prelude::*;

verus! {

/// One node of the syntax tree. Children order is significant: operands
/// are positional, and arity is checked at evaluation time, not parse time.
#[derive(Debug)]
pub enum ASTNode {
    /// A parenthesised form: the operator keyword and its operands.
    Operator(String, Vec<ASTNode>),
    /// A bare atom: a numeric literal, a boolean keyword or a variable name.
    Value(String),
    /// A quoted string literal, delimiters stripped.
    StringValue(String),
    /// The empty form `()`.
    NoOp,
}

/// The mathematical shape of a syntax tree node.
pub enum AstV {
    Op(Seq<char>, Seq<AstV>),
    Val(Seq<char>),
    Str(Seq<char>),
    NoOp,
}

/// The abstraction of an exec node, child by child.
pub open spec fn ast_view(n: ASTNode) -> AstV
    decreases n, 0nat,
{
    match n {
        ASTNode::Operator(op, children) => AstV::Op(op@, ast_view_seq(children@)),
        ASTNode::Value(s) => AstV::Val(s@),
        ASTNode::StringValue(s) => AstV::Str(s@),
        ASTNode::NoOp => AstV::NoOp,
    }
}

/// The abstraction of a sequence of exec nodes.
pub open spec fn ast_view_seq(s: Seq<ASTNode>) -> Seq<AstV>
    decreases s, 1nat,
{
    if s.len() == 0 {
        Seq::empty()
    } else {
        seq![ast_view(s[0])] + ast_view_seq(s.subrange(1, s.len() as int))
    }
}

/// `ast_view_seq` works element by element.
pub proof fn lemma_ast_view_seq(s: Seq<ASTNode>)
    ensures
        ast_view_seq(s).len() == s.len(),
        forall|i: int| 0 <= i < s.len() ==> ast_view_seq(s)[i] == ast_view(#[trigger] s[i]),
    decreases s.len(),
{
    if s.len() > 0 {
        lemma_ast_view_seq(s.subrange(1, s.len() as int));
        let rest = s.subrange(1, s.len() as int);
        assert forall|i: int| 0 <= i < s.len() implies ast_view_seq(s)[i] == ast_view(
            #[trigger] s[i],
        ) by {
            if i > 0 {
                assert(rest[i - 1] == s[i]);
                assert(ast_view_seq(s)[i] == ast_view_seq(rest)[i - 1]);
            }
        }
    }
}

impl View for ASTNode {
    type V = AstV;

    open spec fn view(&self) -> AstV {
        ast_view(*self)
    }
}

/// The size of a node: itself plus all nodes below it.
pub open spec fn ast_size(n: AstV) -> nat
    decreases n, 1nat, 0nat,
{
    match n {
        AstV::Op(_, children) => 1 + seq_size(children),
        _ => 1,
    }
}

/// The joint size of a sequence of nodes, counting one for each slot.
pub open spec fn seq_size(s: Seq<AstV>) -> nat
    decreases s, 0nat, s.len(),
{
    if s.len() == 0 {
        0
    } else {
        1 + ast_size(s[0]) + seq_size(s.subrange(1, s.len() as int))
    }
}

/// Every element weighs less than the whole sequence.
pub proof fn lemma_seq_size_index(s: Seq<AstV>, i: int)
    requires
        0 <= i < s.len(),
    ensures
        ast_size(s[i]) < seq_size(s),
    decreases i,
{
    let rest = s.subrange(1, s.len() as int);
    if i == 0 {
        assert(seq_size(s) == 1 + ast_size(s[0]) + seq_size(rest));
    } else {
        lemma_seq_size_index(rest, i - 1);
        assert(rest[i - 1] == s[i]);
    }
}

impl ASTNode {
    /// Deep copy; the copy has the same abstract shape.
    pub fn duplicate(&self) -> (r: ASTNode)
        ensures
            r@ == self@,
        decreases ast_size(self@),
    {
        match self {
            ASTNode::Operator(op, children) => {
                let mut out: Vec<ASTNode> = Vec::new();
                let mut i: usize = 0;
                let ghost target = ast_view_seq(children@);
                proof {
                    lemma_ast_view_seq(children@);
                }
                while i < children.len()
                    invariant
                        i <= children.len(),
                        target == ast_view_seq(children@),
                        target.len() == children@.len(),
                        forall|k: int|
                            0 <= k < children@.len() ==> target[k] == ast_view(
                                #[trigger] children@[k],
                            ),
                        self@ == AstV::Op(op@, target),
                        ast_size(self@) == 1 + seq_size(target),
                        out@.len() == i,
                        forall|k: int| 0 <= k < i ==> ast_view(#[trigger] out@[k]) == target[k],
                    decreases children.len() - i,
                {
                    proof {
                        lemma_seq_size_index(target, i as int);
                    }
                    let child = children[i].duplicate();
                    out.push(child);
                    i = i + 1;
                }
                let op2 = op.clone();
                let r = ASTNode::Operator(op2, out);
                proof {
                    lemma_ast_view_seq(out@);
                    assert forall|k: int| 0 <= k < out@.len() implies ast_view_seq(out@)[k]
                        == target[k] by {
                        assert(ast_view_seq(out@)[k] == ast_view(out@[k]));
                    }
                    assert(ast_view_seq(out@) =~= target);
                }
                r
            },
            ASTNode::Value(s) => ASTNode::Value(s.clone()),
            ASTNode::StringValue(s) => ASTNode::StringValue(s.clone()),
            ASTNode::NoOp => ASTNode::NoOp,
        }
    }
}

} // verus!
