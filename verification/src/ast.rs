use vstd::prelude::*;

verus! {

/// The operation carried by an abstract syntax tree node: one of the four
/// binary arithmetic operations, or an integer literal leaf.
#[derive(Clone, Copy, Debug, PartialEq, Eq, Structural)]
pub enum ASTNodeType {
    Add,
    Subtract,
    Multiply,
    Divide,
    IntLit(i64),
}

/// A node of the abstract syntax tree. A binary node owns both children;
/// a literal leaf owns none. Trees are built bottom-up and never mutated.
#[derive(Debug, PartialEq)]
pub struct ASTNode {
    pub op: ASTNodeType,
    pub left: Option<Box<ASTNode>>,
    pub right: Option<Box<ASTNode>>,
}

/// A literal leaf with value `v`.
pub open spec fn spec_leaf(v: i64) -> ASTNode {
    ASTNode { op: ASTNodeType::IntLit(v), left: None, right: None }
}

/// A binary node combining two subtrees.
pub open spec fn spec_bin(op: ASTNodeType, l: ASTNode, r: ASTNode) -> ASTNode {
    ASTNode { op, left: Some(Box::new(l)), right: Some(Box::new(r)) }
}

impl ASTNode {
    /// Well-formedness: a binary node has exactly two children, a literal
    /// leaf has none, recursively.
    pub open spec fn wf(self) -> bool
        decreases self,
    {
        match self.op {
            ASTNodeType::IntLit(_) => self.left is None && self.right is None,
            _ => match (self.left, self.right) {
                (Some(l), Some(r)) => (*l).wf() && (*r).wf(),
                _ => false,
            },
        }
    }

    /// Build a node from an operation and optional children.
    #[allow(non_snake_case)]
    pub fn mkASTNode(op: ASTNodeType, left: Option<Box<ASTNode>>, right: Option<Box<ASTNode>>) -> (n: Self)
        ensures
            n == (ASTNode { op, left, right }),
    {
        Self { op, left, right }
    }

    /// Build a childless leaf node.
    #[allow(non_snake_case)]
    pub fn mkAstLeaf(op: ASTNodeType) -> (n: Self)
        ensures
            n == (ASTNode { op, left: None, right: None }),
    {
        Self::mkASTNode(op, None, None)
    }

    /// Build a node with only a left child.
    #[allow(non_snake_case)]
    pub fn mkAstUnary(op: ASTNodeType, left: Box<ASTNode>) -> (n: Self)
        ensures
            n == (ASTNode { op, left: Some(left), right: None }),
    {
        Self::mkASTNode(op, Some(left), None)
    }
}

} // verus!
