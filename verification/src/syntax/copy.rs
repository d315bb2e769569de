//! Copies of typed nodes. A copy says the same as the node it was made of.

use crate::syntax::nodes::{
    AtomicNode, BooleanNode, ColonNode, CommaNode, CommentNode, DescriptionStatementNode,
    EffectStatementNode, EnumerateStatementNode, EosNode, EscapedCharacterNode,
    EscapedUnicodeNode, EventGroupNode, EventItemNode, EventPropertyNode, EventStatementNode,
    ExpressionNode, HexNode, IdStatementNode, IdentifierNode, IfElseBlockNode,
    IfElseIfBlockNode, IfStatementNode, IfThenBlockNode, InfixNode, IntegerNode,
    KwDescriptionNode, KwEffectNode, KwElseIfNode, KwElseNode, KwEnumerateNode,
    KwEventGroupNode, KwEventNode, KwIdNode, KwIfNode, KwOptionsNode, KwPropertyNode,
    KwRequirementNode, KwTraitGroupNode, KwTraitNode, ListNode, OptionItemNode,
    OptionStatementNode, PrefixNode, PropertyItemNode, PropertyStatementNode,
    RequirementStatementNode, RootNode, StatementNode, StringItemNode, StringNode,
    StringNormalNode, StringRawNode, StringRawTextNode, SuffixNode, TermNode, TextAnyNode,
    TopStatementNode, TraitGroupNode, TraitItemNode, TraitPropertyNode, TraitStatementNode,
    WhiteSpaceNode,
};
use std::ops::Range;
use vstd::prelude::*;

verus! {

impl Clone for RootNode {
    /// A copy of the node, which says the same.
    fn clone(&self) -> (copy: Self)
        ensures
            self.alike(&copy),
    {
        let mut top_statement: Vec<TopStatementNode> = Vec::new();
        let mut at: usize = 0;
        while at < self.top_statement.len()
            invariant
                at <= self.top_statement@.len(),
                top_statement@.len() == at,
                forall|k: int| 0 <= k < at
                    ==> (#[trigger] self.top_statement@[k]).alike(&top_statement@[k]),
            decreases self.top_statement@.len() - at,
        {
            top_statement.push(self.top_statement[at].clone());
            at = at + 1;
        }
        RootNode { top_statement, span: Range { start: self.span.start, end: self.span.end } }
    }
}

impl Clone for TopStatementNode {
    /// A copy of the node, which says the same.
    fn clone(&self) -> (copy: Self)
        ensures
            self.alike(&copy),
    {
        match self {
            TopStatementNode::Eos(inner) => TopStatementNode::Eos(inner.clone()),
            TopStatementNode::EventGroup(inner) => TopStatementNode::EventGroup(inner.clone()),
            TopStatementNode::EventStatement(inner) => TopStatementNode::EventStatement(
                inner.clone()
            ),
            TopStatementNode::PropertyStatement(inner) => TopStatementNode::PropertyStatement(
                inner.clone()
            ),
            TopStatementNode::TraitGroup(inner) => TopStatementNode::TraitGroup(inner.clone()),
            TopStatementNode::TraitStatement(inner) => TopStatementNode::TraitStatement(
                inner.clone()
            ),
        }
    }
}

impl Clone for EosNode {
    /// A copy of the node, which says the same.
    fn clone(&self) -> (copy: Self)
        ensures
            self.alike(&copy),
    {
        EosNode { span: Range { start: self.span.start, end: self.span.end } }
    }
}

impl Clone for PropertyStatementNode {
    /// A copy of the node, which says the same.
    fn clone(&self) -> (copy: Self)
        ensures
            self.alike(&copy),
    {
        let identifier = self.identifier.clone();
        let mut property_item: Vec<PropertyItemNode> = Vec::new();
        let mut at: usize = 0;
        while at < self.property_item.len()
            invariant
                at <= self.property_item@.len(),
                property_item@.len() == at,
                forall|k: int| 0 <= k < at
                    ==> (#[trigger] self.property_item@[k]).alike(&property_item@[k]),
            decreases self.property_item@.len() - at,
        {
            property_item.push(self.property_item[at].clone());
            at = at + 1;
        }
        PropertyStatementNode {
            identifier,
            property_item,
            span: Range { start: self.span.start, end: self.span.end },
        }
    }
}

impl Clone for PropertyItemNode {
    /// A copy of the node, which says the same.
    fn clone(&self) -> (copy: Self)
        ensures
            self.alike(&copy),
    {
        match self {
            PropertyItemNode::DescriptionStatement(inner) => PropertyItemNode::DescriptionStatement(
                inner.clone()
            ),
            PropertyItemNode::EnumerateStatement(inner) => PropertyItemNode::EnumerateStatement(
                inner.clone()
            ),
            PropertyItemNode::Eos(inner) => PropertyItemNode::Eos(inner.clone()),
            PropertyItemNode::IdStatement(inner) => PropertyItemNode::IdStatement(inner.clone()),
            PropertyItemNode::OptionStatement(inner) => PropertyItemNode::OptionStatement(
                inner.clone()
            ),
            PropertyItemNode::RequirementStatement(inner) => PropertyItemNode::RequirementStatement(
                inner.clone()
            ),
        }
    }
}

impl Clone for EnumerateStatementNode {
    /// A copy of the node, which says the same.
    fn clone(&self) -> (copy: Self)
        ensures
            self.alike(&copy),
    {
        let mut variant: Vec<IdentifierNode> = Vec::new();
        let mut at: usize = 0;
        while at < self.variant.len()
            invariant
                at <= self.variant@.len(),
                variant@.len() == at,
                forall|k: int| 0 <= k < at ==> (#[trigger] self.variant@[k]).alike(&variant@[k]),
            decreases self.variant@.len() - at,
        {
            variant.push(self.variant[at].clone());
            at = at + 1;
        }
        EnumerateStatementNode {
            variant,
            span: Range { start: self.span.start, end: self.span.end },
        }
    }
}

impl Clone for OptionStatementNode {
    /// A copy of the node, which says the same.
    fn clone(&self) -> (copy: Self)
        ensures
            self.alike(&copy),
    {
        let mut option_item: Vec<OptionItemNode> = Vec::new();
        let mut at: usize = 0;
        while at < self.option_item.len()
            invariant
                at <= self.option_item@.len(),
                option_item@.len() == at,
                forall|k: int| 0 <= k < at
                    ==> (#[trigger] self.option_item@[k]).alike(&option_item@[k]),
            decreases self.option_item@.len() - at,
        {
            option_item.push(self.option_item[at].clone());
            at = at + 1;
        }
        OptionStatementNode {
            option_item,
            span: Range { start: self.span.start, end: self.span.end },
        }
    }
}

impl Clone for OptionItemNode {
    /// A copy of the node, which says the same.
    fn clone(&self) -> (copy: Self)
        ensures
            self.alike(&copy),
    {
        let variant = self.variant.clone();
        let weight = match &self.weight {
            Some(inner) => Some(inner.clone()),
            None => None,
        };
        OptionItemNode {
            variant,
            weight,
            span: Range { start: self.span.start, end: self.span.end },
        }
    }
}

impl Clone for TraitGroupNode {
    /// A copy of the node, which says the same.
    fn clone(&self) -> (copy: Self)
        ensures
            self.alike(&copy),
    {
        let identifier = self.identifier.clone();
        let mut trait_statement: Vec<TraitStatementNode> = Vec::new();
        let mut at: usize = 0;
        while at < self.trait_statement.len()
            invariant
                at <= self.trait_statement@.len(),
                trait_statement@.len() == at,
                forall|k: int| 0 <= k < at
                    ==> (#[trigger] self.trait_statement@[k]).alike(&trait_statement@[k]),
            decreases self.trait_statement@.len() - at,
        {
            trait_statement.push(self.trait_statement[at].clone());
            at = at + 1;
        }
        TraitGroupNode {
            identifier,
            trait_statement,
            span: Range { start: self.span.start, end: self.span.end },
        }
    }
}

impl Clone for TraitStatementNode {
    /// A copy of the node, which says the same.
    fn clone(&self) -> (copy: Self)
        ensures
            self.alike(&copy),
    {
        let identifier = self.identifier.clone();
        let mut trait_item: Vec<TraitItemNode> = Vec::new();
        let mut at: usize = 0;
        while at < self.trait_item.len()
            invariant
                at <= self.trait_item@.len(),
                trait_item@.len() == at,
                forall|k: int| 0 <= k < at
                    ==> (#[trigger] self.trait_item@[k]).alike(&trait_item@[k]),
            decreases self.trait_item@.len() - at,
        {
            trait_item.push(self.trait_item[at].clone());
            at = at + 1;
        }
        TraitStatementNode {
            identifier,
            trait_item,
            span: Range { start: self.span.start, end: self.span.end },
        }
    }
}

impl Clone for TraitItemNode {
    /// A copy of the node, which says the same.
    fn clone(&self) -> (copy: Self)
        ensures
            self.alike(&copy),
    {
        match self {
            TraitItemNode::DescriptionStatement(inner) => TraitItemNode::DescriptionStatement(
                inner.clone()
            ),
            TraitItemNode::EffectStatement(inner) => TraitItemNode::EffectStatement(inner.clone()),
            TraitItemNode::IdStatement(inner) => TraitItemNode::IdStatement(inner.clone()),
            TraitItemNode::RequirementStatement(inner) => TraitItemNode::RequirementStatement(
                inner.clone()
            ),
        }
    }
}

impl Clone for TraitPropertyNode {
    /// A copy of the node, which says the same.
    fn clone(&self) -> (copy: Self)
        ensures
            self.alike(&copy),
    {
        let atomic = copy_atomic(&self.atomic);
        let identifier = self.identifier.clone();
        TraitPropertyNode {
            atomic,
            identifier,
            span: Range { start: self.span.start, end: self.span.end },
        }
    }
}

impl Clone for RequirementStatementNode {
    /// A copy of the node, which says the same.
    fn clone(&self) -> (copy: Self)
        ensures
            self.alike(&copy),
    {
        let mut statement: Vec<StatementNode> = Vec::new();
        let mut at: usize = 0;
        while at < self.statement.len()
            invariant
                at <= self.statement@.len(),
                statement@.len() == at,
                forall|k: int| 0 <= k < at
                    ==> (#[trigger] self.statement@[k]).alike(&statement@[k]),
            decreases self.statement@.len() - at,
        {
            statement.push(copy_statement(&self.statement[at]));
            at = at + 1;
        }
        RequirementStatementNode {
            statement,
            span: Range { start: self.span.start, end: self.span.end },
        }
    }
}

impl Clone for EffectStatementNode {
    /// A copy of the node, which says the same.
    fn clone(&self) -> (copy: Self)
        ensures
            self.alike(&copy),
    {
        let mut statement: Vec<StatementNode> = Vec::new();
        let mut at: usize = 0;
        while at < self.statement.len()
            invariant
                at <= self.statement@.len(),
                statement@.len() == at,
                forall|k: int| 0 <= k < at
                    ==> (#[trigger] self.statement@[k]).alike(&statement@[k]),
            decreases self.statement@.len() - at,
        {
            statement.push(copy_statement(&self.statement[at]));
            at = at + 1;
        }
        EffectStatementNode {
            statement,
            span: Range { start: self.span.start, end: self.span.end },
        }
    }
}

impl Clone for EventGroupNode {
    /// A copy of the node, which says the same.
    fn clone(&self) -> (copy: Self)
        ensures
            self.alike(&copy),
    {
        let mut event_statement: Vec<EventStatementNode> = Vec::new();
        let mut at: usize = 0;
        while at < self.event_statement.len()
            invariant
                at <= self.event_statement@.len(),
                event_statement@.len() == at,
                forall|k: int| 0 <= k < at
                    ==> (#[trigger] self.event_statement@[k]).alike(&event_statement@[k]),
            decreases self.event_statement@.len() - at,
        {
            event_statement.push(self.event_statement[at].clone());
            at = at + 1;
        }
        let identifier = self.identifier.clone();
        EventGroupNode {
            event_statement,
            identifier,
            span: Range { start: self.span.start, end: self.span.end },
        }
    }
}

impl Clone for EventStatementNode {
    /// A copy of the node, which says the same.
    fn clone(&self) -> (copy: Self)
        ensures
            self.alike(&copy),
    {
        let mut event_item: Vec<EventItemNode> = Vec::new();
        let mut at: usize = 0;
        while at < self.event_item.len()
            invariant
                at <= self.event_item@.len(),
                event_item@.len() == at,
                forall|k: int| 0 <= k < at
                    ==> (#[trigger] self.event_item@[k]).alike(&event_item@[k]),
            decreases self.event_item@.len() - at,
        {
            event_item.push(self.event_item[at].clone());
            at = at + 1;
        }
        let identifier = self.identifier.clone();
        EventStatementNode {
            event_item,
            identifier,
            span: Range { start: self.span.start, end: self.span.end },
        }
    }
}

impl Clone for EventItemNode {
    /// A copy of the node, which says the same.
    fn clone(&self) -> (copy: Self)
        ensures
            self.alike(&copy),
    {
        match self {
            EventItemNode::DescriptionStatement(inner) => EventItemNode::DescriptionStatement(
                inner.clone()
            ),
            EventItemNode::IdStatement(inner) => EventItemNode::IdStatement(inner.clone()),
            EventItemNode::OptionStatement(inner) => EventItemNode::OptionStatement(inner.clone()),
            EventItemNode::RequirementStatement(inner) => EventItemNode::RequirementStatement(
                inner.clone()
            ),
        }
    }
}

impl Clone for EventPropertyNode {
    /// A copy of the node, which says the same.
    fn clone(&self) -> (copy: Self)
        ensures
            self.alike(&copy),
    {
        let identifier = self.identifier.clone();
        EventPropertyNode { identifier, span: Range { start: self.span.start, end: self.span.end } }
    }
}

impl Clone for IdStatementNode {
    /// A copy of the node, which says the same.
    fn clone(&self) -> (copy: Self)
        ensures
            self.alike(&copy),
    {
        let integer = self.integer.clone();
        IdStatementNode { integer, span: Range { start: self.span.start, end: self.span.end } }
    }
}

impl Clone for DescriptionStatementNode {
    /// A copy of the node, which says the same.
    fn clone(&self) -> (copy: Self)
        ensures
            self.alike(&copy),
    {
        let mut string: Vec<StringNode> = Vec::new();
        let mut at: usize = 0;
        while at < self.string.len()
            invariant
                at <= self.string@.len(),
                string@.len() == at,
                forall|k: int| 0 <= k < at ==> (#[trigger] self.string@[k]).alike(&string@[k]),
            decreases self.string@.len() - at,
        {
            string.push(self.string[at].clone());
            at = at + 1;
        }
        DescriptionStatementNode {
            string,
            span: Range { start: self.span.start, end: self.span.end },
        }
    }
}

/// A copy of a node of type `StatementNode`, which says the same.
pub fn copy_statement(node: &StatementNode) -> (copy: StatementNode)
    ensures
        node.alike(&copy),
    decreases node,
{
    match node {
        StatementNode::Eos(inner) => StatementNode::Eos(inner.clone()),
        StatementNode::Expression(inner) => StatementNode::Expression(inner.clone()),
        StatementNode::IfStatement(inner) => StatementNode::IfStatement(copy_if_statement(inner)),
    }
}

impl Clone for StatementNode {
    /// A copy of the node, which says the same.
    fn clone(&self) -> (copy: Self)
        ensures
            self.alike(&copy),
    {
        copy_statement(self)
    }
}

/// A copy of a node of type `IfStatementNode`, which says the same.
pub fn copy_if_statement(node: &IfStatementNode) -> (copy: IfStatementNode)
    ensures
        node.alike(&copy),
    decreases node,
{
    let if_else_block = match &node.if_else_block {
        Some(inner) => Some(copy_if_else_block(inner)),
        None => None,
    };
    let if_else_if_block = match &node.if_else_if_block {
        Some(inner) => Some(copy_if_else_if_block(inner)),
        None => None,
    };
    let if_then_block = copy_if_then_block(&node.if_then_block);
    IfStatementNode {
        if_else_block,
        if_else_if_block,
        if_then_block,
        span: Range { start: node.span.start, end: node.span.end },
    }
}

impl Clone for IfStatementNode {
    /// A copy of the node, which says the same.
    fn clone(&self) -> (copy: Self)
        ensures
            self.alike(&copy),
    {
        copy_if_statement(self)
    }
}

/// A copy of a node of type `IfThenBlockNode`, which says the same.
pub fn copy_if_then_block(node: &IfThenBlockNode) -> (copy: IfThenBlockNode)
    ensures
        node.alike(&copy),
    decreases node,
{
    let expression = node.expression.clone();
    let mut statement: Vec<StatementNode> = Vec::new();
    let mut at: usize = 0;
    while at < node.statement.len()
        invariant
            at <= node.statement@.len(),
            statement@.len() == at,
            forall|k: int| 0 <= k < at ==> (#[trigger] node.statement@[k]).alike(&statement@[k]),
        decreases node.statement@.len() - at,
    {
        statement.push(copy_statement(&node.statement[at]));
        at = at + 1;
    }
    IfThenBlockNode {
        expression,
        statement,
        span: Range { start: node.span.start, end: node.span.end },
    }
}

impl Clone for IfThenBlockNode {
    /// A copy of the node, which says the same.
    fn clone(&self) -> (copy: Self)
        ensures
            self.alike(&copy),
    {
        copy_if_then_block(self)
    }
}

/// A copy of a node of type `IfElseIfBlockNode`, which says the same.
pub fn copy_if_else_if_block(node: &IfElseIfBlockNode) -> (copy: IfElseIfBlockNode)
    ensures
        node.alike(&copy),
    decreases node,
{
    let expression = node.expression.clone();
    let mut statement: Vec<StatementNode> = Vec::new();
    let mut at: usize = 0;
    while at < node.statement.len()
        invariant
            at <= node.statement@.len(),
            statement@.len() == at,
            forall|k: int| 0 <= k < at ==> (#[trigger] node.statement@[k]).alike(&statement@[k]),
        decreases node.statement@.len() - at,
    {
        statement.push(copy_statement(&node.statement[at]));
        at = at + 1;
    }
    IfElseIfBlockNode {
        expression,
        statement,
        span: Range { start: node.span.start, end: node.span.end },
    }
}

impl Clone for IfElseIfBlockNode {
    /// A copy of the node, which says the same.
    fn clone(&self) -> (copy: Self)
        ensures
            self.alike(&copy),
    {
        copy_if_else_if_block(self)
    }
}

/// A copy of a node of type `IfElseBlockNode`, which says the same.
pub fn copy_if_else_block(node: &IfElseBlockNode) -> (copy: IfElseBlockNode)
    ensures
        node.alike(&copy),
    decreases node,
{
    let mut statement: Vec<StatementNode> = Vec::new();
    let mut at: usize = 0;
    while at < node.statement.len()
        invariant
            at <= node.statement@.len(),
            statement@.len() == at,
            forall|k: int| 0 <= k < at ==> (#[trigger] node.statement@[k]).alike(&statement@[k]),
        decreases node.statement@.len() - at,
    {
        statement.push(copy_statement(&node.statement[at]));
        at = at + 1;
    }
    IfElseBlockNode { statement, span: Range { start: node.span.start, end: node.span.end } }
}

impl Clone for IfElseBlockNode {
    /// A copy of the node, which says the same.
    fn clone(&self) -> (copy: Self)
        ensures
            self.alike(&copy),
    {
        copy_if_else_block(self)
    }
}

impl Clone for ExpressionNode {
    /// A copy of the node, which says the same.
    fn clone(&self) -> (copy: Self)
        ensures
            self.alike(&copy),
    {
        let mut infix: Vec<InfixNode> = Vec::new();
        let mut at: usize = 0;
        while at < self.infix.len()
            invariant
                at <= self.infix@.len(),
                infix@.len() == at,
                forall|k: int| 0 <= k < at ==> (#[trigger] self.infix@[k]).alike(&infix@[k]),
            decreases self.infix@.len() - at,
        {
            infix.push(self.infix[at].clone());
            at = at + 1;
        }
        let mut term: Vec<TermNode> = Vec::new();
        let mut at: usize = 0;
        while at < self.term.len()
            invariant
                at <= self.term@.len(),
                term@.len() == at,
                forall|k: int| 0 <= k < at ==> (#[trigger] self.term@[k]).alike(&term@[k]),
            decreases self.term@.len() - at,
        {
            term.push(self.term[at].clone());
            at = at + 1;
        }
        ExpressionNode { infix, term, span: Range { start: self.span.start, end: self.span.end } }
    }
}

impl Clone for TermNode {
    /// A copy of the node, which says the same.
    fn clone(&self) -> (copy: Self)
        ensures
            self.alike(&copy),
    {
        let atomic = copy_atomic(&self.atomic);
        let mut prefix: Vec<PrefixNode> = Vec::new();
        let mut at: usize = 0;
        while at < self.prefix.len()
            invariant
                at <= self.prefix@.len(),
                prefix@.len() == at,
                forall|k: int| 0 <= k < at ==> (#[trigger] self.prefix@[k]).alike(&prefix@[k]),
            decreases self.prefix@.len() - at,
        {
            prefix.push(self.prefix[at].clone());
            at = at + 1;
        }
        let mut suffix: Vec<SuffixNode> = Vec::new();
        let mut at: usize = 0;
        while at < self.suffix.len()
            invariant
                at <= self.suffix@.len(),
                suffix@.len() == at,
                forall|k: int| 0 <= k < at ==> (#[trigger] self.suffix@[k]).alike(&suffix@[k]),
            decreases self.suffix@.len() - at,
        {
            suffix.push(self.suffix[at].clone());
            at = at + 1;
        }
        TermNode {
            atomic,
            prefix,
            suffix,
            span: Range { start: self.span.start, end: self.span.end },
        }
    }
}

impl Clone for PrefixNode {
    /// A copy of the node, which says the same.
    fn clone(&self) -> (copy: Self)
        ensures
            self.alike(&copy),
    {
        match self {
            PrefixNode::Prefix0 => PrefixNode::Prefix0,
        }
    }
}

impl Clone for InfixNode {
    /// A copy of the node, which says the same.
    fn clone(&self) -> (copy: Self)
        ensures
            self.alike(&copy),
    {
        match self {
            InfixNode::Add => InfixNode::Add,
            InfixNode::AddAssign => InfixNode::AddAssign,
            InfixNode::And => InfixNode::And,
            InfixNode::EQ => InfixNode::EQ,
            InfixNode::GEQ => InfixNode::GEQ,
            InfixNode::GT => InfixNode::GT,
            InfixNode::Has => InfixNode::Has,
            InfixNode::LEQ => InfixNode::LEQ,
            InfixNode::LT => InfixNode::LT,
            InfixNode::NE => InfixNode::NE,
            InfixNode::Or => InfixNode::Or,
            InfixNode::Sub => InfixNode::Sub,
            InfixNode::SubAssign => InfixNode::SubAssign,
        }
    }
}

impl Clone for SuffixNode {
    /// A copy of the node, which says the same.
    fn clone(&self) -> (copy: Self)
        ensures
            self.alike(&copy),
    {
        match self {
            SuffixNode::Suffix0 => SuffixNode::Suffix0,
        }
    }
}

/// A copy of a node of type `AtomicNode`, which says the same.
pub fn copy_atomic(node: &AtomicNode) -> (copy: AtomicNode)
    ensures
        node.alike(&copy),
    decreases node,
{
    match node {
        AtomicNode::Boolean(inner) => AtomicNode::Boolean(inner.clone()),
        AtomicNode::Identifier(inner) => AtomicNode::Identifier(inner.clone()),
        AtomicNode::Integer(inner) => AtomicNode::Integer(inner.clone()),
        AtomicNode::List(inner) => AtomicNode::List(copy_list(inner)),
        AtomicNode::StringNormal(inner) => AtomicNode::StringNormal(inner.clone()),
        AtomicNode::StringRaw(inner) => AtomicNode::StringRaw(inner.clone()),
    }
}

impl Clone for AtomicNode {
    /// A copy of the node, which says the same.
    fn clone(&self) -> (copy: Self)
        ensures
            self.alike(&copy),
    {
        copy_atomic(self)
    }
}

/// A copy of a node of type `ListNode`, which says the same.
pub fn copy_list(node: &ListNode) -> (copy: ListNode)
    ensures
        node.alike(&copy),
    decreases node,
{
    let mut atomic: Vec<AtomicNode> = Vec::new();
    let mut at: usize = 0;
    while at < node.atomic.len()
        invariant
            at <= node.atomic@.len(),
            atomic@.len() == at,
            forall|k: int| 0 <= k < at ==> (#[trigger] node.atomic@[k]).alike(&atomic@[k]),
        decreases node.atomic@.len() - at,
    {
        atomic.push(copy_atomic(&node.atomic[at]));
        at = at + 1;
    }
    let mut comma: Vec<CommaNode> = Vec::new();
    let mut at: usize = 0;
    while at < node.comma.len()
        invariant
            at <= node.comma@.len(),
            comma@.len() == at,
            forall|k: int| 0 <= k < at ==> (#[trigger] node.comma@[k]).alike(&comma@[k]),
        decreases node.comma@.len() - at,
    {
        comma.push(node.comma[at].clone());
        at = at + 1;
    }
    ListNode { atomic, comma, span: Range { start: node.span.start, end: node.span.end } }
}

impl Clone for ListNode {
    /// A copy of the node, which says the same.
    fn clone(&self) -> (copy: Self)
        ensures
            self.alike(&copy),
    {
        copy_list(self)
    }
}

impl Clone for StringNode {
    /// A copy of the node, which says the same.
    fn clone(&self) -> (copy: Self)
        ensures
            self.alike(&copy),
    {
        match self {
            StringNode::StringNormal(inner) => StringNode::StringNormal(inner.clone()),
            StringNode::StringRaw(inner) => StringNode::StringRaw(inner.clone()),
        }
    }
}

impl Clone for StringRawNode {
    /// A copy of the node, which says the same.
    fn clone(&self) -> (copy: Self)
        ensures
            self.alike(&copy),
    {
        let string_raw_text = self.string_raw_text.clone();
        StringRawNode {
            string_raw_text,
            span: Range { start: self.span.start, end: self.span.end },
        }
    }
}

impl Clone for StringRawTextNode {
    /// A copy of the node, which says the same.
    fn clone(&self) -> (copy: Self)
        ensures
            self.alike(&copy),
    {
        StringRawTextNode {
            text: self.text.clone(),
            span: Range { start: self.span.start, end: self.span.end },
        }
    }
}

impl Clone for StringNormalNode {
    /// A copy of the node, which says the same.
    fn clone(&self) -> (copy: Self)
        ensures
            self.alike(&copy),
    {
        let mut string_item: Vec<StringItemNode> = Vec::new();
        let mut at: usize = 0;
        while at < self.string_item.len()
            invariant
                at <= self.string_item@.len(),
                string_item@.len() == at,
                forall|k: int| 0 <= k < at
                    ==> (#[trigger] self.string_item@[k]).alike(&string_item@[k]),
            decreases self.string_item@.len() - at,
        {
            string_item.push(self.string_item[at].clone());
            at = at + 1;
        }
        StringNormalNode { string_item, span: Range { start: self.span.start, end: self.span.end } }
    }
}

impl Clone for StringItemNode {
    /// A copy of the node, which says the same.
    fn clone(&self) -> (copy: Self)
        ensures
            self.alike(&copy),
    {
        match self {
            StringItemNode::EscapedCharacter(inner) => StringItemNode::EscapedCharacter(
                inner.clone()
            ),
            StringItemNode::EscapedUnicode(inner) => StringItemNode::EscapedUnicode(inner.clone()),
            StringItemNode::TextAny(inner) => StringItemNode::TextAny(inner.clone()),
        }
    }
}

impl Clone for EscapedUnicodeNode {
    /// A copy of the node, which says the same.
    fn clone(&self) -> (copy: Self)
        ensures
            self.alike(&copy),
    {
        let hex = self.hex.clone();
        EscapedUnicodeNode { hex, span: Range { start: self.span.start, end: self.span.end } }
    }
}

impl Clone for EscapedCharacterNode {
    /// A copy of the node, which says the same.
    fn clone(&self) -> (copy: Self)
        ensures
            self.alike(&copy),
    {
        EscapedCharacterNode {
            text: self.text.clone(),
            span: Range { start: self.span.start, end: self.span.end },
        }
    }
}

impl Clone for HexNode {
    /// A copy of the node, which says the same.
    fn clone(&self) -> (copy: Self)
        ensures
            self.alike(&copy),
    {
        HexNode {
            text: self.text.clone(),
            span: Range { start: self.span.start, end: self.span.end },
        }
    }
}

impl Clone for TextAnyNode {
    /// A copy of the node, which says the same.
    fn clone(&self) -> (copy: Self)
        ensures
            self.alike(&copy),
    {
        TextAnyNode {
            text: self.text.clone(),
            span: Range { start: self.span.start, end: self.span.end },
        }
    }
}

impl Clone for IdentifierNode {
    /// A copy of the node, which says the same.
    fn clone(&self) -> (copy: Self)
        ensures
            self.alike(&copy),
    {
        IdentifierNode {
            text: self.text.clone(),
            span: Range { start: self.span.start, end: self.span.end },
        }
    }
}

impl Clone for IntegerNode {
    /// A copy of the node, which says the same.
    fn clone(&self) -> (copy: Self)
        ensures
            self.alike(&copy),
    {
        IntegerNode {
            text: self.text.clone(),
            span: Range { start: self.span.start, end: self.span.end },
        }
    }
}

impl Clone for BooleanNode {
    /// A copy of the node, which says the same.
    fn clone(&self) -> (copy: Self)
        ensures
            self.alike(&copy),
    {
        match self {
            BooleanNode::False => BooleanNode::False,
            BooleanNode::True => BooleanNode::True,
        }
    }
}

impl Clone for CommaNode {
    /// A copy of the node, which says the same.
    fn clone(&self) -> (copy: Self)
        ensures
            self.alike(&copy),
    {
        CommaNode { span: Range { start: self.span.start, end: self.span.end } }
    }
}

impl Clone for ColonNode {
    /// A copy of the node, which says the same.
    fn clone(&self) -> (copy: Self)
        ensures
            self.alike(&copy),
    {
        ColonNode { span: Range { start: self.span.start, end: self.span.end } }
    }
}

impl Clone for KwPropertyNode {
    /// A copy of the node, which says the same.
    fn clone(&self) -> (copy: Self)
        ensures
            self.alike(&copy),
    {
        KwPropertyNode { span: Range { start: self.span.start, end: self.span.end } }
    }
}

impl Clone for KwTraitGroupNode {
    /// A copy of the node, which says the same.
    fn clone(&self) -> (copy: Self)
        ensures
            self.alike(&copy),
    {
        KwTraitGroupNode { span: Range { start: self.span.start, end: self.span.end } }
    }
}

impl Clone for KwTraitNode {
    /// A copy of the node, which says the same.
    fn clone(&self) -> (copy: Self)
        ensures
            self.alike(&copy),
    {
        KwTraitNode { span: Range { start: self.span.start, end: self.span.end } }
    }
}

impl Clone for KwEventGroupNode {
    /// A copy of the node, which says the same.
    fn clone(&self) -> (copy: Self)
        ensures
            self.alike(&copy),
    {
        KwEventGroupNode { span: Range { start: self.span.start, end: self.span.end } }
    }
}

impl Clone for KwEventNode {
    /// A copy of the node, which says the same.
    fn clone(&self) -> (copy: Self)
        ensures
            self.alike(&copy),
    {
        KwEventNode { span: Range { start: self.span.start, end: self.span.end } }
    }
}

impl Clone for KwIdNode {
    /// A copy of the node, which says the same.
    fn clone(&self) -> (copy: Self)
        ensures
            self.alike(&copy),
    {
        KwIdNode { span: Range { start: self.span.start, end: self.span.end } }
    }
}

impl Clone for KwDescriptionNode {
    /// A copy of the node, which says the same.
    fn clone(&self) -> (copy: Self)
        ensures
            self.alike(&copy),
    {
        KwDescriptionNode { span: Range { start: self.span.start, end: self.span.end } }
    }
}

impl Clone for KwRequirementNode {
    /// A copy of the node, which says the same.
    fn clone(&self) -> (copy: Self)
        ensures
            self.alike(&copy),
    {
        KwRequirementNode { span: Range { start: self.span.start, end: self.span.end } }
    }
}

impl Clone for KwEffectNode {
    /// A copy of the node, which says the same.
    fn clone(&self) -> (copy: Self)
        ensures
            self.alike(&copy),
    {
        KwEffectNode { span: Range { start: self.span.start, end: self.span.end } }
    }
}

impl Clone for KwEnumerateNode {
    /// A copy of the node, which says the same.
    fn clone(&self) -> (copy: Self)
        ensures
            self.alike(&copy),
    {
        KwEnumerateNode { span: Range { start: self.span.start, end: self.span.end } }
    }
}

impl Clone for KwOptionsNode {
    /// A copy of the node, which says the same.
    fn clone(&self) -> (copy: Self)
        ensures
            self.alike(&copy),
    {
        KwOptionsNode { span: Range { start: self.span.start, end: self.span.end } }
    }
}

impl Clone for KwIfNode {
    /// A copy of the node, which says the same.
    fn clone(&self) -> (copy: Self)
        ensures
            self.alike(&copy),
    {
        KwIfNode { span: Range { start: self.span.start, end: self.span.end } }
    }
}

impl Clone for KwElseIfNode {
    /// A copy of the node, which says the same.
    fn clone(&self) -> (copy: Self)
        ensures
            self.alike(&copy),
    {
        KwElseIfNode { span: Range { start: self.span.start, end: self.span.end } }
    }
}

impl Clone for KwElseNode {
    /// A copy of the node, which says the same.
    fn clone(&self) -> (copy: Self)
        ensures
            self.alike(&copy),
    {
        KwElseNode { span: Range { start: self.span.start, end: self.span.end } }
    }
}

impl Clone for WhiteSpaceNode {
    /// A copy of the node, which says the same.
    fn clone(&self) -> (copy: Self)
        ensures
            self.alike(&copy),
    {
        WhiteSpaceNode { span: Range { start: self.span.start, end: self.span.end } }
    }
}

impl Clone for CommentNode {
    /// A copy of the node, which says the same.
    fn clone(&self) -> (copy: Self)
        ensures
            self.alike(&copy),
    {
        CommentNode { span: Range { start: self.span.start, end: self.span.end } }
    }
}

} // verus!
