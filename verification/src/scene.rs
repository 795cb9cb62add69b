//! The scene of a document: a tree of nodes, read in document order.
//!
//! Document order is the order of a depth-first traversal that visits a node
//! before its children and the children from first to last.

use crate::annotation::{lemma_with_runs_concat, texts_of, with_runs, AnnotationMap};
use crate::path::Segment;
use vstd::prelude::*;

verus! {

/// What a node of the scene is.
#[derive(Clone, Debug, PartialEq, Eq)]
pub enum NodeKind {
    /// A shape outline: its segments in drawing order.
    Path(Vec<Segment>),
    /// A piece of text: its runs in reading order.
    Text(Vec<String>),
    /// Anything else: a group, an image.
    Other,
}

/// A node of the scene with the nodes below it.
#[derive(Debug, PartialEq, Eq)]
pub struct Node {
    pub kind: NodeKind,
    pub children: Vec<Node>,
}

/// The kinds of a node and of all nodes below it, in document order.
pub open spec fn document_order(node: Node) -> Seq<NodeKind>
    decreases node,
{
    seq![node.kind] + document_order_all(node.children@)
}

/// The kinds of the nodes and of all nodes below them, in document order.
pub open spec fn document_order_all(nodes: Seq<Node>) -> Seq<NodeKind>
    decreases nodes,
{
    if nodes.len() == 0 {
        Seq::empty()
    } else {
        document_order_all(nodes.drop_last()) + document_order(nodes.last())
    }
}

/// The segments of the first path among the nodes, if there is a path.
pub open spec fn first_path(kinds: Seq<NodeKind>) -> Option<Seq<Segment>>
    decreases kinds.len(),
{
    if kinds.len() == 0 {
        None
    } else {
        match kinds.first() {
            NodeKind::Path(segments) => Some(segments@),
            _ => first_path(kinds.drop_first()),
        }
    }
}

/// The text runs of one node.
pub open spec fn runs_of(kind: NodeKind) -> Seq<Seq<char>> {
    match kind {
        NodeKind::Text(runs) => texts_of(runs@),
        _ => Seq::empty(),
    }
}

/// The text runs of the nodes, in order.
pub open spec fn text_runs(kinds: Seq<NodeKind>) -> Seq<Seq<char>>
    decreases kinds.len(),
{
    if kinds.len() == 0 {
        Seq::empty()
    } else {
        text_runs(kinds.drop_last()) + runs_of(kinds.last())
    }
}

/// The first path of two stretches of nodes is the first path of the first
/// stretch, or, when that has none, the first path of the second.
pub proof fn lemma_first_path_concat(a: Seq<NodeKind>, b: Seq<NodeKind>)
    ensures
        first_path(a + b) == if first_path(a) is Some {
            first_path(a)
        } else {
            first_path(b)
        },
    decreases a.len(),
{
    if a.len() == 0 {
        assert(a + b =~= b);
    } else {
        assert((a + b).first() == a.first());
        assert((a + b).drop_first() =~= a.drop_first() + b);
        lemma_first_path_concat(a.drop_first(), b);
    }
}

/// The text runs of two stretches of nodes are those of the first stretch
/// followed by those of the second.
pub proof fn lemma_text_runs_concat(a: Seq<NodeKind>, b: Seq<NodeKind>)
    ensures
        text_runs(a + b) == text_runs(a) + text_runs(b),
    decreases b.len(),
{
    if b.len() == 0 {
        assert(a + b =~= a);
        assert(text_runs(a) + text_runs(b) =~= text_runs(a));
    } else {
        assert((a + b).drop_last() =~= a + b.drop_last());
        assert((a + b).last() == b.last());
        lemma_text_runs_concat(a, b.drop_last());
        assert(text_runs(a + b) =~= text_runs(a) + text_runs(b));
    }
}

/// The first path and the text runs of a single node.
pub proof fn lemma_single_node(kind: NodeKind)
    ensures
        first_path(seq![kind]) == match kind {
            NodeKind::Path(segments) => Some(segments@),
            _ => None::<Seq<Segment>>,
        },
        text_runs(seq![kind]) == runs_of(kind),
{
    let own = seq![kind];
    assert(own.first() == kind);
    assert(own.last() == kind);
    assert(own.drop_first() =~= Seq::<NodeKind>::empty());
    assert(own.drop_last() =~= Seq::<NodeKind>::empty());
    assert(first_path(own.drop_first()) is None);
    assert(text_runs(own.drop_last()) =~= Seq::<Seq<char>>::empty());
    assert(text_runs(own) =~= runs_of(kind));
}

impl Node {
    /// A node without children.
    pub fn leaf(kind: NodeKind) -> (r: Node)
        ensures
            r.kind == kind,
            r.children@.len() == 0,
    {
        Node { kind, children: Vec::new() }
    }

    /// A node with the given children.
    pub fn new(kind: NodeKind, children: Vec<Node>) -> (r: Node)
        ensures
            r.kind == kind,
            r.children == children,
    {
        Node { kind, children }
    }

    /// The segments of the first path in document order, if the scene holds a
    /// path.
    pub fn find_path(&self) -> (r: Option<&Vec<Segment>>)
        ensures
            match r {
                Some(segments) => first_path(document_order(*self)) == Some(segments@),
                None => first_path(document_order(*self)) is None,
            },
        decreases self,
    {
        let ghost own = seq![self.kind];
        proof {
            lemma_first_path_concat(own, document_order_all(self.children@));
            lemma_single_node(self.kind);
        }
        if let NodeKind::Path(segments) = &self.kind {
            return Some(segments);
        }
        let mut i: usize = 0;
        while i < self.children.len()
            invariant
                i <= self.children.len(),
                first_path(document_order(*self)) == first_path(
                    document_order_all(self.children@),
                ),
                first_path(document_order_all(self.children@.take(i as int))) is None,
            decreases self.children.len() - i,
        {
            let child = &self.children[i];
            proof {
                let before = self.children@.take(i as int);
                assert(self.children@.take(i + 1).drop_last() =~= before);
                assert(self.children@.take(i + 1).last() == *child);
                lemma_first_path_concat(document_order_all(before), document_order(*child));
            }
            let found = child.find_path();
            if found.is_some() {
                proof {
                    let done = self.children@.take(i + 1);
                    let rest = self.children@.skip(i + 1);
                    assert(self.children@ =~= done + rest);
                    lemma_document_order_all_concat(done, rest);
                    lemma_first_path_concat(document_order_all(done), document_order_all(rest));
                }
                return found;
            }
            i = i + 1;
        }
        assert(self.children@.take(i as int) =~= self.children@);
        None
    }

    /// Reads the text runs of the scene into the map, in document order.
    pub fn read_annotations(&self, map: &mut AnnotationMap)
        ensures
            final(map)@ == with_runs(old(map)@, text_runs(document_order(*self))),
        decreases self,
    {
        let ghost own = seq![self.kind];
        let ghost start = map@;
        proof {
            lemma_text_runs_concat(own, document_order_all(self.children@));
            lemma_with_runs_concat(
                start,
                text_runs(own),
                text_runs(document_order_all(self.children@)),
            );
            lemma_single_node(self.kind);
        }
        if let NodeKind::Text(runs) = &self.kind {
            map.read_runs(runs);
        }
        let ghost after_own = map@;
        assert(after_own == with_runs(start, text_runs(own)));
        let mut i: usize = 0;
        while i < self.children.len()
            invariant
                i <= self.children.len(),
                map@ == with_runs(
                    after_own,
                    text_runs(document_order_all(self.children@.take(i as int))),
                ),
            decreases self.children.len() - i,
        {
            let child = &self.children[i];
            proof {
                let before = self.children@.take(i as int);
                assert(self.children@.take(i + 1).drop_last() =~= before);
                assert(self.children@.take(i + 1).last() == *child);
                lemma_text_runs_concat(document_order_all(before), document_order(*child));
                lemma_with_runs_concat(
                    after_own,
                    text_runs(document_order_all(before)),
                    text_runs(document_order(*child)),
                );
            }
            child.read_annotations(map);
            i = i + 1;
        }
        assert(self.children@.take(i as int) =~= self.children@);
    }
}

/// The nodes of two stretches of trees, in document order, are those of the
/// first stretch followed by those of the second.
pub proof fn lemma_document_order_all_concat(a: Seq<Node>, b: Seq<Node>)
    ensures
        document_order_all(a + b) == document_order_all(a) + document_order_all(b),
    decreases b.len(),
{
    if b.len() == 0 {
        assert(a + b =~= a);
        assert(document_order_all(a) + document_order_all(b) =~= document_order_all(a));
    } else {
        assert((a + b).drop_last() =~= a + b.drop_last());
        assert((a + b).last() == b.last());
        lemma_document_order_all_concat(a, b.drop_last());
        assert(document_order_all(a + b) =~= document_order_all(a) + document_order_all(b));
    }
}

} // verus!
