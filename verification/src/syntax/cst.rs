//! Concrete syntax trees.

use crate::syntax::rule::{LifeRestartRule, Slot};
use std::ops::Range;
use vstd::prelude::*;

verus! {

/// The mathematical model of a concrete syntax tree: the rule that matched,
/// the slot the node fills in its parent, the byte range it covers, its text
/// where it is a token, and its tagged children in the order they matched.
pub ghost struct CstTree {
    pub rule: LifeRestartRule,
    pub slot: Slot,
    pub start: nat,
    pub end: nat,
    pub text: Seq<char>,
    pub children: Seq<CstTree>,
}

impl CstTree {
    /// The same tree, filling `slot` in its parent.
    pub open spec fn tagged(self, slot: Slot) -> Self {
        CstTree { slot, ..self }
    }

    /// The first child that fills `slot`, if there is one.
    pub open spec fn one(self, slot: Slot) -> Option<CstTree> {
        first(self.children, slot, 0)
    }

    /// The children that fill `slot`, in order.
    pub open spec fn all(self, slot: Slot) -> Seq<CstTree> {
        picks(self.children, slot, self.children.len() as int)
    }
}

/// The first tree of `kids` at or after index `from` that fills `slot`, if
/// there is one.
pub open spec fn first(kids: Seq<CstTree>, slot: Slot, from: int) -> Option<CstTree>
    decreases kids.len() - from,
{
    if from < 0 || from >= kids.len() {
        None
    } else if kids[from].slot == slot {
        Some(kids[from])
    } else {
        first(kids, slot, from + 1)
    }
}

/// The trees among the first `upto` of `kids` that fill `slot`, in order.
pub open spec fn picks(kids: Seq<CstTree>, slot: Slot, upto: int) -> Seq<CstTree>
    decreases upto,
{
    if upto <= 0 {
        Seq::empty()
    } else {
        let before = picks(kids, slot, upto - 1);
        if kids[upto - 1].slot == slot {
            before.push(kids[upto - 1])
        } else {
            before
        }
    }
}

/// The trees picked from a shorter prefix are the first of those picked from
/// a longer one.
pub proof fn lemma_picks_prefix(kids: Seq<CstTree>, slot: Slot, short: int, long: int)
    requires
        0 <= short <= long,
    ensures
        picks(kids, slot, short).len() <= picks(kids, slot, long).len(),
        forall|at: int|
            0 <= at < picks(kids, slot, short).len() ==> picks(kids, slot, short)[at] == picks(
                kids,
                slot,
                long,
            )[at],
    decreases long - short,
{
    if short < long {
        lemma_picks_prefix(kids, slot, short, long - 1);
    }
}

/// A node of a concrete syntax tree.
#[derive(Debug)]
pub struct CstNode {
    /// The grammar rule that matched.
    pub rule: LifeRestartRule,
    /// The slot this node fills in its parent.
    pub slot: Slot,
    /// The byte range the node covers.
    pub span: Range<usize>,
    /// The text of the node where it is a token, empty otherwise.
    pub text: String,
    /// The tagged children, in the order they matched.
    pub children: Vec<CstNode>,
}

impl CstNode {
    /// The model of the node: the same parts, with the models of its
    /// children.
    pub open spec fn model(&self) -> CstTree
        decreases self,
    {
        CstTree {
            rule: self.rule,
            slot: self.slot,
            start: self.span.start as nat,
            end: self.span.end as nat,
            text: self.text@,
            children: Seq::new(
                self.children@.len(),
                |at: int|
                    if 0 <= at < self.children@.len() {
                        self.children@[at].model()
                    } else {
                        arbitrary()
                    },
            ),
        }
    }
}

impl View for CstNode {
    type V = CstTree;

    open spec fn view(&self) -> CstTree {
        self.model()
    }
}

/// The models of a list of nodes.
pub open spec fn views(nodes: Seq<CstNode>) -> Seq<CstTree> {
    Seq::new(nodes.len(), |at: int| nodes[at]@)
}

/// The children of a node's model are the models of its children.
pub broadcast proof fn lemma_children(node: CstNode)
    ensures
        #[trigger] node@.children == views(node.children@),
{
    assert(node@.children =~= views(node.children@));
}

/// The models of a list with one more node.
pub broadcast proof fn lemma_views_push(nodes: Seq<CstNode>, node: CstNode)
    ensures
        #[trigger] views(nodes.push(node)) == views(nodes).push(node@),
{
    assert(views(nodes.push(node)) =~= views(nodes).push(node@));
}

/// The models of two lists, one after the other.
pub broadcast proof fn lemma_views_concat(head: Seq<CstNode>, tail: Seq<CstNode>)
    ensures
        #[trigger] views(head + tail) == views(head) + views(tail),
{
    assert(views(head + tail) =~= views(head) + views(tail));
}

/// The models of no nodes.
pub broadcast proof fn lemma_views_empty()
    ensures
        #[trigger] views(Seq::<CstNode>::empty()) == Seq::<CstTree>::empty(),
{
    assert(views(Seq::<CstNode>::empty()) =~= Seq::<CstTree>::empty());
}

pub broadcast group group_views {
    lemma_children,
    lemma_views_push,
    lemma_views_concat,
    lemma_views_empty,
}

/// A copy of a node, with the same model.
pub fn copy_node(node: &CstNode) -> (copy: CstNode)
    ensures
        copy@ == node@,
    decreases node,
{
    let mut children: Vec<CstNode> = Vec::new();
    let mut at: usize = 0;
    while at < node.children.len()
        invariant
            at <= node.children@.len(),
            children@.len() == at,
            forall|k: int| 0 <= k < at ==> (#[trigger] children@[k])@ == node.children@[k]@,
        decreases node.children@.len() - at,
    {
        children.push(copy_node(&node.children[at]));
        at = at + 1;
    }
    proof {
        lemma_children(*node);
        assert(views(children@) =~= views(node.children@));
    }
    CstNode::new(
        node.rule,
        node.slot,
        node.span.start,
        node.span.end,
        node.text.clone(),
        children,
    )
}

impl Clone for CstNode {
    /// A copy of the node, with the same model.
    fn clone(&self) -> (copy: Self)
        ensures
            copy@ == self@,
    {
        copy_node(self)
    }
}

impl CstNode {
    /// A node with the given parts.
    pub fn new(
        rule: LifeRestartRule,
        slot: Slot,
        start: usize,
        end: usize,
        text: String,
        children: Vec<CstNode>,
    ) -> (node: Self)
        ensures
            node@ == (CstTree {
                rule,
                slot,
                start: start as nat,
                end: end as nat,
                text: text@,
                children: views(children@),
            }),
    {
        let node = CstNode { rule, slot, span: Range { start, end }, text, children };
        proof {
            lemma_children(node);
        }
        node
    }

    /// The index of the first child that fills `slot`, if there is one.
    pub fn find_first(&self, slot: Slot) -> (found: Option<usize>)
        ensures
            match found {
                Some(at) => {
                    &&& at < self.children@.len()
                    &&& first(self@.children, slot, 0) == Some(self.children@[at as int]@)
                    &&& self.children@[at as int]@.slot == slot
                },
                None => first(self@.children, slot, 0) is None,
            },
    {
        broadcast use group_views;

        let mut at: usize = 0;
        while at < self.children.len()
            invariant
                at <= self.children@.len(),
                self@.children == views(self.children@),
                first(self@.children, slot, 0) == first(self@.children, slot, at as int),
            decreases self.children@.len() - at,
        {
            if self.children[at].slot == slot {
                return Some(at);
            }
            at = at + 1;
        }
        None
    }

    /// The same node, filling `slot` in its parent.
    pub fn tagged(self, slot: Slot) -> (node: Self)
        ensures
            node@ == self@.tagged(slot),
    {
        proof {
            lemma_children(self);
        }
        let node = CstNode {
            rule: self.rule,
            slot,
            span: self.span,
            text: self.text,
            children: self.children,
        };
        proof {
            lemma_children(node);
        }
        node
    }
}

} // verus!
