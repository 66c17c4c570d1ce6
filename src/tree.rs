//! A parsed source file as an arena of nodes addressed by index.
//!
//! Nodes are stored breadth first: a node's parent comes before it, and its
//! children follow it as one contiguous run of indices.

use vstd::prelude::*;
use vstd::string::*;
use crate::model::Span;
use crate::text::{is_text_range, same_text};

verus! {

/// One node of a syntax tree.
#[derive(Debug, Clone)]
pub struct SyntaxNode {
    /// The grammar's name for the node (`binding`, `=`, ...).
    pub kind: String,
    /// The bytes of the source that the node covers.
    pub span: Span,
    /// The index of the enclosing node, if any.
    pub parent: Option<usize>,
    /// The role the node plays in its parent (`function`, `attrpath`, ...).
    pub field: Option<String>,
    /// The index of the first child.
    pub first_child: usize,
    /// The number of children.
    pub child_count: usize,
}

/// A [`SyntaxNode`] with its texts as character sequences.
pub struct NodeView {
    pub kind: Seq<char>,
    pub span: Span,
    pub parent: Option<usize>,
    pub field: Option<Seq<char>>,
    pub first_child: usize,
    pub child_count: usize,
}

impl SyntaxNode {
    pub open spec fn node_view(&self) -> NodeView {
        NodeView {
            kind: self.kind@,
            span: self.span,
            parent: self.parent,
            field: field_view(self.field),
            first_child: self.first_child,
            child_count: self.child_count,
        }
    }
}

/// A syntax tree; the node at index 0, if any, is the root.
#[derive(Debug, Clone)]
pub struct SyntaxTree {
    pub nodes: Vec<SyntaxNode>,
}

impl SyntaxTree {
    /// The views of the nodes, in order.
    pub open spec fn views(&self) -> Seq<NodeView> {
        self.nodes@.map_values(|n: SyntaxNode| n.node_view())
    }

    pub open spec fn len(&self) -> int {
        self.nodes@.len() as int
    }

    pub open spec fn node(&self, i: int) -> SyntaxNode {
        self.nodes@[i]
    }

    pub open spec fn kind(&self, i: int) -> Seq<char> {
        self.nodes@[i].kind@
    }

    pub open spec fn parent(&self, i: int) -> Option<int> {
        match self.nodes@[i].parent {
            Some(p) => Some(p as int),
            None => None,
        }
    }

    pub open spec fn child(&self, i: int, k: int) -> int {
        self.nodes@[i].first_child + k
    }

    /// `inner` lies within `outer`.
    pub open spec fn nested(outer: Span, inner: Span) -> bool {
        outer.start <= inner.start && inner.end <= outer.end
    }

    /// Node `i` is well formed in a tree over `src`.
    pub open spec fn node_wf(&self, src: Seq<u8>, i: int) -> bool {
        let n = self.nodes@[i];
        &&& is_text_range(src, n.span.start as int, n.span.end as int)
        &&& n.first_child > i
        &&& n.first_child + n.child_count <= self.len()
        &&& forall|k: int|
            0 <= k < n.child_count ==> #[trigger] self.parent(self.child(i, k)) == Some(i)
        &&& match n.parent {
            Some(p) => p < i && Self::nested(self.nodes@[p as int].span, n.span),
            None => true,
        }
    }

    /// Every node is well formed in a tree over `src`.
    pub open spec fn wf(&self, src: Seq<u8>) -> bool {
        forall|i: int| 0 <= i < self.len() ==> #[trigger] self.node_wf(src, i)
    }

    /// The first child of `n`, from its `k`-th on, that plays the role `name`.
    pub open spec fn first_field_from(&self, n: int, name: Seq<char>, k: int) -> Option<int>
        decreases self.nodes@[n].child_count - k,
        when 0 <= k
    {
        if k >= self.nodes@[n].child_count {
            None
        } else if field_view(self.nodes@[self.child(n, k)].field) == Some(name) {
            Some(self.child(n, k))
        } else {
            self.first_field_from(n, name, k + 1)
        }
    }

    /// The first child of `n` that plays the role `name`.
    pub open spec fn field_child(&self, n: int, name: Seq<char>) -> Option<int> {
        self.first_field_from(n, name, 0)
    }

    /// The last child of `n`, among its first `k`, that plays the role `name`.
    pub open spec fn last_field_before(&self, n: int, name: Seq<char>, k: int) -> Option<int>
        decreases k,
    {
        if k <= 0 {
            None
        } else if field_view(self.nodes@[self.child(n, k - 1)].field) == Some(name) {
            Some(self.child(n, k - 1))
        } else {
            self.last_field_before(n, name, k - 1)
        }
    }

    /// The last child of `n` that plays the role `name`.
    pub open spec fn last_field_child(&self, n: int, name: Seq<char>) -> Option<int> {
        self.last_field_before(n, name, self.nodes@[n].child_count as int)
    }
}

/// The view of an optional field name.
pub open spec fn field_view(f: Option<String>) -> Option<Seq<char>> {
    match f {
        Some(s) => Some(s@),
        None => None,
    }
}

fn has_field(node: &SyntaxNode, name: &str) -> (r: bool)
    ensures
        r == (field_view(node.field) == Some(name@)),
{
    match &node.field {
        Some(f) => same_text(f.as_str(), name),
        None => false,
    }
}

impl SyntaxTree {
    /// The first child of node `n` that plays the role `name`.
    pub fn field_child_exec(&self, n: usize, name: &str) -> (r: Option<usize>)
        requires
            n < self.len(),
            self.nodes@[n as int].first_child + self.nodes@[n as int].child_count <= self.len(),
        ensures
            match r {
                Some(c) => self.field_child(n as int, name@) == Some(c as int) && c < self.len(),
                None => self.field_child(n as int, name@) is None,
            },
    {
        let total = self.nodes.len();
        let node = &self.nodes[n];
        let mut k: usize = 0;
        while k < node.child_count
            invariant
                *node == self.nodes@[n as int],
                total == self.len(),
                node.first_child + node.child_count <= self.len(),
                0 <= k <= node.child_count,
                self.field_child(n as int, name@) == self.first_field_from(n as int, name@, k as int),
            decreases node.child_count - k,
        {
            let c = node.first_child + k;
            if has_field(&self.nodes[c], name) {
                assert(self.first_field_from(n as int, name@, k as int) == Some(c as int));
                return Some(c);
            }
            k = k + 1;
        }
        None
    }

    /// The last child of node `n` that plays the role `name`.
    pub fn last_field_child_exec(&self, n: usize, name: &str) -> (r: Option<usize>)
        requires
            n < self.len(),
            self.nodes@[n as int].first_child + self.nodes@[n as int].child_count <= self.len(),
        ensures
            match r {
                Some(c) => self.last_field_child(n as int, name@) == Some(c as int) && c < self.len(),
                None => self.last_field_child(n as int, name@) is None,
            },
    {
        let total = self.nodes.len();
        let node = &self.nodes[n];
        let mut k: usize = node.child_count;
        while k > 0
            invariant
                *node == self.nodes@[n as int],
                total == self.len(),
                node.first_child + node.child_count <= self.len(),
                0 <= k <= node.child_count,
                self.last_field_child(n as int, name@) == self.last_field_before(n as int, name@, k as int),
            decreases k,
        {
            let c = node.first_child + (k - 1);
            if has_field(&self.nodes[c], name) {
                return Some(c);
            }
            k = k - 1;
        }
        None
    }
}

} // verus!
