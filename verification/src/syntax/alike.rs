//! A tree has one typed form. Typed nodes hold strings and lists, of which
//! there can be many with the same content; two nodes say the same when
//! their contents agree, and two typed forms of one tree always do.

use crate::syntax::cst::CstTree;
use crate::syntax::nodes::{
    AtomicNode, BooleanNode, ColonNode, CommaNode, CommentNode, DescriptionStatementNode,
    EffectStatementNode, EnumerateStatementNode, EosNode, EscapedCharacterNode,
    EscapedUnicodeNode, EventGroupNode, EventItemNode, EventPropertyNode, EventStatementNode,
    ExpressionNode, HexNode, IdStatementNode, IdentifierNode, IfElseBlockNode,
    IfElseIfBlockNode, IfStatementNode, IfThenBlockNode, InfixNode, IntegerNode,
    KwDescriptionNode, KwEffectNode, KwElseIfNode, KwElseNode, KwEnumerateNode,
    KwEventGroupNode, KwEventNode, KwIdNode, KwIfNode, KwOptionsNode, KwPropertyNode,
    KwRequirementNode, KwTraitGroupNode, KwTraitNode, ListNode, OptionItemNode,
    OptionStatementNode, PrefixNode, PropertyItemNode, PropertyStatementNode,
    RequirementStatementNode, RootNode, StatementNode, StringItemNode, StringNode,
    StringNormalNode, StringRawNode, StringRawTextNode, SuffixNode, TermNode, TextAnyNode,
    TopStatementNode, TraitGroupNode, TraitItemNode, TraitPropertyNode, TraitStatementNode,
    WhiteSpaceNode,
};
use crate::syntax::rule::Slot;
use vstd::prelude::*;

verus! {

impl RootNode {
    /// True when the two nodes say the same: the same spans and texts, and parts
    /// that say the same.
    pub open spec fn alike(&self, other: &Self) -> bool {
        &&& self.span == other.span
        &&& self.top_statement@.len() == other.top_statement@.len()
        &&& forall|at: int|
        0 <= at < self.top_statement@.len()
            ==> (#[trigger] self.top_statement@[at]).alike(&other.top_statement@[at])
    }

    /// A tree has one typed form: two nodes that are typed forms of the same tree
    /// say the same.
    pub proof fn lemma_one_typed_form(mine: Self, theirs: Self, pair: CstTree)
        requires
            mine.models(pair),
            theirs.models(pair),
        ensures
            mine.alike(&theirs),
    {
        {
            let ours = mine.top_statement@;
            let others = theirs.top_statement@;
            let pairs = pair.all(Slot::TopStatement);
            assert forall|at: int| 0 <= at < ours.len() implies (#[trigger] ours[at]).alike(
                &others[at]
            ) by {
                assert(others[at].models(pairs[at]));
                TopStatementNode::lemma_one_typed_form(ours[at], others[at], pairs[at]);
            }
        }
    }
}

impl TopStatementNode {
    /// True when the two nodes say the same: the same alternative, with parts that
    /// say the same.
    pub open spec fn alike(&self, other: &Self) -> bool {
        match (*self, *other) {
            (Self::Eos(mine), Self::Eos(theirs)) => mine.alike(&theirs),
            (Self::EventGroup(mine), Self::EventGroup(theirs)) => mine.alike(&theirs),
            (Self::EventStatement(mine), Self::EventStatement(theirs)) => mine.alike(&theirs),
            (Self::PropertyStatement(mine), Self::PropertyStatement(theirs)) => mine.alike(&theirs),
            (Self::TraitGroup(mine), Self::TraitGroup(theirs)) => mine.alike(&theirs),
            (Self::TraitStatement(mine), Self::TraitStatement(theirs)) => mine.alike(&theirs),
            _ => false,
        }
    }

    /// A tree has one typed form: two nodes that are typed forms of the same tree
    /// say the same.
    pub proof fn lemma_one_typed_form(mine: Self, theirs: Self, pair: CstTree)
        requires
            mine.models(pair),
            theirs.models(pair),
        ensures
            mine.alike(&theirs),
    {
        match (mine, theirs) {
            (Self::Eos(a), Self::Eos(b)) => {
                EosNode::lemma_one_typed_form(a, b, pair.one(Slot::Eos)->0);
            },
            (Self::EventGroup(a), Self::EventGroup(b)) => {
                EventGroupNode::lemma_one_typed_form(a, b, pair.one(Slot::EventGroup)->0);
            },
            (Self::EventStatement(a), Self::EventStatement(b)) => {
                EventStatementNode::lemma_one_typed_form(a, b, pair.one(Slot::EventStatement)->0);
            },
            (Self::PropertyStatement(a), Self::PropertyStatement(b)) => {
                PropertyStatementNode::lemma_one_typed_form(
                    a,
                    b,
                    pair.one(Slot::PropertyStatement)->0,
                );
            },
            (Self::TraitGroup(a), Self::TraitGroup(b)) => {
                TraitGroupNode::lemma_one_typed_form(a, b, pair.one(Slot::TraitGroup)->0);
            },
            (Self::TraitStatement(a), Self::TraitStatement(b)) => {
                TraitStatementNode::lemma_one_typed_form(a, b, pair.one(Slot::TraitStatement)->0);
            },
            _ => {},
        }
    }
}

impl EosNode {
    /// True when the two nodes say the same: the same spans and texts, and parts
    /// that say the same.
    pub open spec fn alike(&self, other: &Self) -> bool {
        &&& self.span == other.span
    }

    /// A tree has one typed form: two nodes that are typed forms of the same tree
    /// say the same.
    pub proof fn lemma_one_typed_form(mine: Self, theirs: Self, pair: CstTree)
        requires
            mine.models(pair),
            theirs.models(pair),
        ensures
            mine.alike(&theirs),
    {
    }
}

impl PropertyStatementNode {
    /// True when the two nodes say the same: the same spans and texts, and parts
    /// that say the same.
    pub open spec fn alike(&self, other: &Self) -> bool {
        &&& self.span == other.span
        &&& self.identifier.alike(&other.identifier)
        &&& self.property_item@.len() == other.property_item@.len()
        &&& forall|at: int|
        0 <= at < self.property_item@.len()
            ==> (#[trigger] self.property_item@[at]).alike(&other.property_item@[at])
    }

    /// A tree has one typed form: two nodes that are typed forms of the same tree
    /// say the same.
    pub proof fn lemma_one_typed_form(mine: Self, theirs: Self, pair: CstTree)
        requires
            mine.models(pair),
            theirs.models(pair),
        ensures
            mine.alike(&theirs),
    {
        IdentifierNode::lemma_one_typed_form(
            mine.identifier,
            theirs.identifier,
            pair.one(Slot::Identifier)->0,
        );
        {
            let ours = mine.property_item@;
            let others = theirs.property_item@;
            let pairs = pair.all(Slot::PropertyItem);
            assert forall|at: int| 0 <= at < ours.len() implies (#[trigger] ours[at]).alike(
                &others[at]
            ) by {
                assert(others[at].models(pairs[at]));
                PropertyItemNode::lemma_one_typed_form(ours[at], others[at], pairs[at]);
            }
        }
    }
}

impl PropertyItemNode {
    /// True when the two nodes say the same: the same alternative, with parts that
    /// say the same.
    pub open spec fn alike(&self, other: &Self) -> bool {
        match (*self, *other) {
            (Self::DescriptionStatement(mine), Self::DescriptionStatement(theirs)) => mine.alike(
                &theirs
            ),
            (Self::EnumerateStatement(mine), Self::EnumerateStatement(theirs)) => mine.alike(
                &theirs
            ),
            (Self::Eos(mine), Self::Eos(theirs)) => mine.alike(&theirs),
            (Self::IdStatement(mine), Self::IdStatement(theirs)) => mine.alike(&theirs),
            (Self::OptionStatement(mine), Self::OptionStatement(theirs)) => mine.alike(&theirs),
            (Self::RequirementStatement(mine), Self::RequirementStatement(theirs)) => mine.alike(
                &theirs
            ),
            _ => false,
        }
    }

    /// A tree has one typed form: two nodes that are typed forms of the same tree
    /// say the same.
    pub proof fn lemma_one_typed_form(mine: Self, theirs: Self, pair: CstTree)
        requires
            mine.models(pair),
            theirs.models(pair),
        ensures
            mine.alike(&theirs),
    {
        match (mine, theirs) {
            (Self::DescriptionStatement(a), Self::DescriptionStatement(b)) => {
                DescriptionStatementNode::lemma_one_typed_form(
                    a,
                    b,
                    pair.one(Slot::DescriptionStatement)->0,
                );
            },
            (Self::EnumerateStatement(a), Self::EnumerateStatement(b)) => {
                EnumerateStatementNode::lemma_one_typed_form(
                    a,
                    b,
                    pair.one(Slot::EnumerateStatement)->0,
                );
            },
            (Self::Eos(a), Self::Eos(b)) => {
                EosNode::lemma_one_typed_form(a, b, pair.one(Slot::Eos)->0);
            },
            (Self::IdStatement(a), Self::IdStatement(b)) => {
                IdStatementNode::lemma_one_typed_form(a, b, pair.one(Slot::IdStatement)->0);
            },
            (Self::OptionStatement(a), Self::OptionStatement(b)) => {
                OptionStatementNode::lemma_one_typed_form(a, b, pair.one(Slot::OptionStatement)->0);
            },
            (Self::RequirementStatement(a), Self::RequirementStatement(b)) => {
                RequirementStatementNode::lemma_one_typed_form(
                    a,
                    b,
                    pair.one(Slot::RequirementStatement)->0,
                );
            },
            _ => {},
        }
    }
}

impl EnumerateStatementNode {
    /// True when the two nodes say the same: the same spans and texts, and parts
    /// that say the same.
    pub open spec fn alike(&self, other: &Self) -> bool {
        &&& self.span == other.span
        &&& self.variant@.len() == other.variant@.len()
        &&& forall|at: int|
        0 <= at < self.variant@.len() ==> (#[trigger] self.variant@[at]).alike(&other.variant@[at])
    }

    /// A tree has one typed form: two nodes that are typed forms of the same tree
    /// say the same.
    pub proof fn lemma_one_typed_form(mine: Self, theirs: Self, pair: CstTree)
        requires
            mine.models(pair),
            theirs.models(pair),
        ensures
            mine.alike(&theirs),
    {
        {
            let ours = mine.variant@;
            let others = theirs.variant@;
            let pairs = pair.all(Slot::Variant);
            assert forall|at: int| 0 <= at < ours.len() implies (#[trigger] ours[at]).alike(
                &others[at]
            ) by {
                assert(others[at].models(pairs[at]));
                IdentifierNode::lemma_one_typed_form(ours[at], others[at], pairs[at]);
            }
        }
    }
}

impl OptionStatementNode {
    /// True when the two nodes say the same: the same spans and texts, and parts
    /// that say the same.
    pub open spec fn alike(&self, other: &Self) -> bool {
        &&& self.span == other.span
        &&& self.option_item@.len() == other.option_item@.len()
        &&& forall|at: int|
        0 <= at < self.option_item@.len()
            ==> (#[trigger] self.option_item@[at]).alike(&other.option_item@[at])
    }

    /// A tree has one typed form: two nodes that are typed forms of the same tree
    /// say the same.
    pub proof fn lemma_one_typed_form(mine: Self, theirs: Self, pair: CstTree)
        requires
            mine.models(pair),
            theirs.models(pair),
        ensures
            mine.alike(&theirs),
    {
        {
            let ours = mine.option_item@;
            let others = theirs.option_item@;
            let pairs = pair.all(Slot::OptionItem);
            assert forall|at: int| 0 <= at < ours.len() implies (#[trigger] ours[at]).alike(
                &others[at]
            ) by {
                assert(others[at].models(pairs[at]));
                OptionItemNode::lemma_one_typed_form(ours[at], others[at], pairs[at]);
            }
        }
    }
}

impl OptionItemNode {
    /// True when the two nodes say the same: the same spans and texts, and parts
    /// that say the same.
    pub open spec fn alike(&self, other: &Self) -> bool {
        &&& self.span == other.span
        &&& self.variant.alike(&other.variant)
        &&& match (self.weight, other.weight) {
            (Some(mine), Some(theirs)) => mine.alike(&theirs),
            (None, None) => true,
            _ => false,
        }
    }

    /// A tree has one typed form: two nodes that are typed forms of the same tree
    /// say the same.
    pub proof fn lemma_one_typed_form(mine: Self, theirs: Self, pair: CstTree)
        requires
            mine.models(pair),
            theirs.models(pair),
        ensures
            mine.alike(&theirs),
    {
        IdentifierNode::lemma_one_typed_form(
            mine.variant,
            theirs.variant,
            pair.one(Slot::Variant)->0,
        );
        match (mine.weight, theirs.weight) {
            (Some(a), Some(b)) => {
                IntegerNode::lemma_one_typed_form(a, b, pair.one(Slot::Weight)->0);
            },
            _ => {},
        }
    }
}

impl TraitGroupNode {
    /// True when the two nodes say the same: the same spans and texts, and parts
    /// that say the same.
    pub open spec fn alike(&self, other: &Self) -> bool {
        &&& self.span == other.span
        &&& self.identifier.alike(&other.identifier)
        &&& self.trait_statement@.len() == other.trait_statement@.len()
        &&& forall|at: int|
        0 <= at < self.trait_statement@.len()
            ==> (#[trigger] self.trait_statement@[at]).alike(&other.trait_statement@[at])
    }

    /// A tree has one typed form: two nodes that are typed forms of the same tree
    /// say the same.
    pub proof fn lemma_one_typed_form(mine: Self, theirs: Self, pair: CstTree)
        requires
            mine.models(pair),
            theirs.models(pair),
        ensures
            mine.alike(&theirs),
    {
        IdentifierNode::lemma_one_typed_form(
            mine.identifier,
            theirs.identifier,
            pair.one(Slot::Identifier)->0,
        );
        {
            let ours = mine.trait_statement@;
            let others = theirs.trait_statement@;
            let pairs = pair.all(Slot::TraitStatement);
            assert forall|at: int| 0 <= at < ours.len() implies (#[trigger] ours[at]).alike(
                &others[at]
            ) by {
                assert(others[at].models(pairs[at]));
                TraitStatementNode::lemma_one_typed_form(ours[at], others[at], pairs[at]);
            }
        }
    }
}

impl TraitStatementNode {
    /// True when the two nodes say the same: the same spans and texts, and parts
    /// that say the same.
    pub open spec fn alike(&self, other: &Self) -> bool {
        &&& self.span == other.span
        &&& self.identifier.alike(&other.identifier)
        &&& self.trait_item@.len() == other.trait_item@.len()
        &&& forall|at: int|
        0 <= at < self.trait_item@.len()
            ==> (#[trigger] self.trait_item@[at]).alike(&other.trait_item@[at])
    }

    /// A tree has one typed form: two nodes that are typed forms of the same tree
    /// say the same.
    pub proof fn lemma_one_typed_form(mine: Self, theirs: Self, pair: CstTree)
        requires
            mine.models(pair),
            theirs.models(pair),
        ensures
            mine.alike(&theirs),
    {
        IdentifierNode::lemma_one_typed_form(
            mine.identifier,
            theirs.identifier,
            pair.one(Slot::Identifier)->0,
        );
        {
            let ours = mine.trait_item@;
            let others = theirs.trait_item@;
            let pairs = pair.all(Slot::TraitItem);
            assert forall|at: int| 0 <= at < ours.len() implies (#[trigger] ours[at]).alike(
                &others[at]
            ) by {
                assert(others[at].models(pairs[at]));
                TraitItemNode::lemma_one_typed_form(ours[at], others[at], pairs[at]);
            }
        }
    }
}

impl TraitItemNode {
    /// True when the two nodes say the same: the same alternative, with parts that
    /// say the same.
    pub open spec fn alike(&self, other: &Self) -> bool {
        match (*self, *other) {
            (Self::DescriptionStatement(mine), Self::DescriptionStatement(theirs)) => mine.alike(
                &theirs
            ),
            (Self::EffectStatement(mine), Self::EffectStatement(theirs)) => mine.alike(&theirs),
            (Self::IdStatement(mine), Self::IdStatement(theirs)) => mine.alike(&theirs),
            (Self::RequirementStatement(mine), Self::RequirementStatement(theirs)) => mine.alike(
                &theirs
            ),
            _ => false,
        }
    }

    /// A tree has one typed form: two nodes that are typed forms of the same tree
    /// say the same.
    pub proof fn lemma_one_typed_form(mine: Self, theirs: Self, pair: CstTree)
        requires
            mine.models(pair),
            theirs.models(pair),
        ensures
            mine.alike(&theirs),
    {
        match (mine, theirs) {
            (Self::DescriptionStatement(a), Self::DescriptionStatement(b)) => {
                DescriptionStatementNode::lemma_one_typed_form(
                    a,
                    b,
                    pair.one(Slot::DescriptionStatement)->0,
                );
            },
            (Self::EffectStatement(a), Self::EffectStatement(b)) => {
                EffectStatementNode::lemma_one_typed_form(a, b, pair.one(Slot::EffectStatement)->0);
            },
            (Self::IdStatement(a), Self::IdStatement(b)) => {
                IdStatementNode::lemma_one_typed_form(a, b, pair.one(Slot::IdStatement)->0);
            },
            (Self::RequirementStatement(a), Self::RequirementStatement(b)) => {
                RequirementStatementNode::lemma_one_typed_form(
                    a,
                    b,
                    pair.one(Slot::RequirementStatement)->0,
                );
            },
            _ => {},
        }
    }
}

impl TraitPropertyNode {
    /// True when the two nodes say the same: the same spans and texts, and parts
    /// that say the same.
    pub open spec fn alike(&self, other: &Self) -> bool {
        &&& self.span == other.span
        &&& self.atomic.alike(&other.atomic)
        &&& self.identifier.alike(&other.identifier)
    }

    /// A tree has one typed form: two nodes that are typed forms of the same tree
    /// say the same.
    pub proof fn lemma_one_typed_form(mine: Self, theirs: Self, pair: CstTree)
        requires
            mine.models(pair),
            theirs.models(pair),
        ensures
            mine.alike(&theirs),
    {
        AtomicNode::lemma_one_typed_form(mine.atomic, theirs.atomic, pair.one(Slot::Atomic)->0);
        IdentifierNode::lemma_one_typed_form(
            mine.identifier,
            theirs.identifier,
            pair.one(Slot::Identifier)->0,
        );
    }
}

impl RequirementStatementNode {
    /// True when the two nodes say the same: the same spans and texts, and parts
    /// that say the same.
    pub open spec fn alike(&self, other: &Self) -> bool {
        &&& self.span == other.span
        &&& self.statement@.len() == other.statement@.len()
        &&& forall|at: int|
        0 <= at < self.statement@.len()
            ==> (#[trigger] self.statement@[at]).alike(&other.statement@[at])
    }

    /// A tree has one typed form: two nodes that are typed forms of the same tree
    /// say the same.
    pub proof fn lemma_one_typed_form(mine: Self, theirs: Self, pair: CstTree)
        requires
            mine.models(pair),
            theirs.models(pair),
        ensures
            mine.alike(&theirs),
    {
        {
            let ours = mine.statement@;
            let others = theirs.statement@;
            let pairs = pair.all(Slot::Statement);
            assert forall|at: int| 0 <= at < ours.len() implies (#[trigger] ours[at]).alike(
                &others[at]
            ) by {
                assert(others[at].models(pairs[at]));
                StatementNode::lemma_one_typed_form(ours[at], others[at], pairs[at]);
            }
        }
    }
}

impl EffectStatementNode {
    /// True when the two nodes say the same: the same spans and texts, and parts
    /// that say the same.
    pub open spec fn alike(&self, other: &Self) -> bool {
        &&& self.span == other.span
        &&& self.statement@.len() == other.statement@.len()
        &&& forall|at: int|
        0 <= at < self.statement@.len()
            ==> (#[trigger] self.statement@[at]).alike(&other.statement@[at])
    }

    /// A tree has one typed form: two nodes that are typed forms of the same tree
    /// say the same.
    pub proof fn lemma_one_typed_form(mine: Self, theirs: Self, pair: CstTree)
        requires
            mine.models(pair),
            theirs.models(pair),
        ensures
            mine.alike(&theirs),
    {
        {
            let ours = mine.statement@;
            let others = theirs.statement@;
            let pairs = pair.all(Slot::Statement);
            assert forall|at: int| 0 <= at < ours.len() implies (#[trigger] ours[at]).alike(
                &others[at]
            ) by {
                assert(others[at].models(pairs[at]));
                StatementNode::lemma_one_typed_form(ours[at], others[at], pairs[at]);
            }
        }
    }
}

impl EventGroupNode {
    /// True when the two nodes say the same: the same spans and texts, and parts
    /// that say the same.
    pub open spec fn alike(&self, other: &Self) -> bool {
        &&& self.span == other.span
        &&& self.event_statement@.len() == other.event_statement@.len()
        &&& forall|at: int|
        0 <= at < self.event_statement@.len()
            ==> (#[trigger] self.event_statement@[at]).alike(&other.event_statement@[at])
        &&& self.identifier.alike(&other.identifier)
    }

    /// A tree has one typed form: two nodes that are typed forms of the same tree
    /// say the same.
    pub proof fn lemma_one_typed_form(mine: Self, theirs: Self, pair: CstTree)
        requires
            mine.models(pair),
            theirs.models(pair),
        ensures
            mine.alike(&theirs),
    {
        {
            let ours = mine.event_statement@;
            let others = theirs.event_statement@;
            let pairs = pair.all(Slot::EventStatement);
            assert forall|at: int| 0 <= at < ours.len() implies (#[trigger] ours[at]).alike(
                &others[at]
            ) by {
                assert(others[at].models(pairs[at]));
                EventStatementNode::lemma_one_typed_form(ours[at], others[at], pairs[at]);
            }
        }
        IdentifierNode::lemma_one_typed_form(
            mine.identifier,
            theirs.identifier,
            pair.one(Slot::Identifier)->0,
        );
    }
}

impl EventStatementNode {
    /// True when the two nodes say the same: the same spans and texts, and parts
    /// that say the same.
    pub open spec fn alike(&self, other: &Self) -> bool {
        &&& self.span == other.span
        &&& self.event_item@.len() == other.event_item@.len()
        &&& forall|at: int|
        0 <= at < self.event_item@.len()
            ==> (#[trigger] self.event_item@[at]).alike(&other.event_item@[at])
        &&& self.identifier.alike(&other.identifier)
    }

    /// A tree has one typed form: two nodes that are typed forms of the same tree
    /// say the same.
    pub proof fn lemma_one_typed_form(mine: Self, theirs: Self, pair: CstTree)
        requires
            mine.models(pair),
            theirs.models(pair),
        ensures
            mine.alike(&theirs),
    {
        {
            let ours = mine.event_item@;
            let others = theirs.event_item@;
            let pairs = pair.all(Slot::EventItem);
            assert forall|at: int| 0 <= at < ours.len() implies (#[trigger] ours[at]).alike(
                &others[at]
            ) by {
                assert(others[at].models(pairs[at]));
                EventItemNode::lemma_one_typed_form(ours[at], others[at], pairs[at]);
            }
        }
        IdentifierNode::lemma_one_typed_form(
            mine.identifier,
            theirs.identifier,
            pair.one(Slot::Identifier)->0,
        );
    }
}

impl EventItemNode {
    /// True when the two nodes say the same: the same alternative, with parts that
    /// say the same.
    pub open spec fn alike(&self, other: &Self) -> bool {
        match (*self, *other) {
            (Self::DescriptionStatement(mine), Self::DescriptionStatement(theirs)) => mine.alike(
                &theirs
            ),
            (Self::IdStatement(mine), Self::IdStatement(theirs)) => mine.alike(&theirs),
            (Self::OptionStatement(mine), Self::OptionStatement(theirs)) => mine.alike(&theirs),
            (Self::RequirementStatement(mine), Self::RequirementStatement(theirs)) => mine.alike(
                &theirs
            ),
            _ => false,
        }
    }

    /// A tree has one typed form: two nodes that are typed forms of the same tree
    /// say the same.
    pub proof fn lemma_one_typed_form(mine: Self, theirs: Self, pair: CstTree)
        requires
            mine.models(pair),
            theirs.models(pair),
        ensures
            mine.alike(&theirs),
    {
        match (mine, theirs) {
            (Self::DescriptionStatement(a), Self::DescriptionStatement(b)) => {
                DescriptionStatementNode::lemma_one_typed_form(
                    a,
                    b,
                    pair.one(Slot::DescriptionStatement)->0,
                );
            },
            (Self::IdStatement(a), Self::IdStatement(b)) => {
                IdStatementNode::lemma_one_typed_form(a, b, pair.one(Slot::IdStatement)->0);
            },
            (Self::OptionStatement(a), Self::OptionStatement(b)) => {
                OptionStatementNode::lemma_one_typed_form(a, b, pair.one(Slot::OptionStatement)->0);
            },
            (Self::RequirementStatement(a), Self::RequirementStatement(b)) => {
                RequirementStatementNode::lemma_one_typed_form(
                    a,
                    b,
                    pair.one(Slot::RequirementStatement)->0,
                );
            },
            _ => {},
        }
    }
}

impl EventPropertyNode {
    /// True when the two nodes say the same: the same spans and texts, and parts
    /// that say the same.
    pub open spec fn alike(&self, other: &Self) -> bool {
        &&& self.span == other.span
        &&& self.identifier.alike(&other.identifier)
    }

    /// A tree has one typed form: two nodes that are typed forms of the same tree
    /// say the same.
    pub proof fn lemma_one_typed_form(mine: Self, theirs: Self, pair: CstTree)
        requires
            mine.models(pair),
            theirs.models(pair),
        ensures
            mine.alike(&theirs),
    {
        IdentifierNode::lemma_one_typed_form(
            mine.identifier,
            theirs.identifier,
            pair.one(Slot::Identifier)->0,
        );
    }
}

impl IdStatementNode {
    /// True when the two nodes say the same: the same spans and texts, and parts
    /// that say the same.
    pub open spec fn alike(&self, other: &Self) -> bool {
        &&& self.span == other.span
        &&& self.integer.alike(&other.integer)
    }

    /// A tree has one typed form: two nodes that are typed forms of the same tree
    /// say the same.
    pub proof fn lemma_one_typed_form(mine: Self, theirs: Self, pair: CstTree)
        requires
            mine.models(pair),
            theirs.models(pair),
        ensures
            mine.alike(&theirs),
    {
        IntegerNode::lemma_one_typed_form(mine.integer, theirs.integer, pair.one(Slot::Integer)->0);
    }
}

impl DescriptionStatementNode {
    /// True when the two nodes say the same: the same spans and texts, and parts
    /// that say the same.
    pub open spec fn alike(&self, other: &Self) -> bool {
        &&& self.span == other.span
        &&& self.string@.len() == other.string@.len()
        &&& forall|at: int|
        0 <= at < self.string@.len() ==> (#[trigger] self.string@[at]).alike(&other.string@[at])
    }

    /// A tree has one typed form: two nodes that are typed forms of the same tree
    /// say the same.
    pub proof fn lemma_one_typed_form(mine: Self, theirs: Self, pair: CstTree)
        requires
            mine.models(pair),
            theirs.models(pair),
        ensures
            mine.alike(&theirs),
    {
        {
            let ours = mine.string@;
            let others = theirs.string@;
            let pairs = pair.all(Slot::String);
            assert forall|at: int| 0 <= at < ours.len() implies (#[trigger] ours[at]).alike(
                &others[at]
            ) by {
                assert(others[at].models(pairs[at]));
                StringNode::lemma_one_typed_form(ours[at], others[at], pairs[at]);
            }
        }
    }
}

impl StatementNode {
    /// True when the two nodes say the same: the same alternative, with parts that
    /// say the same.
    pub open spec fn alike(&self, other: &Self) -> bool
        decreases self,
    {
        match (*self, *other) {
            (Self::Eos(mine), Self::Eos(theirs)) => mine.alike(&theirs),
            (Self::Expression(mine), Self::Expression(theirs)) => mine.alike(&theirs),
            (Self::IfStatement(mine), Self::IfStatement(theirs)) => mine.alike(&theirs),
            _ => false,
        }
    }

    /// A tree has one typed form: two nodes that are typed forms of the same tree
    /// say the same.
    pub proof fn lemma_one_typed_form(mine: Self, theirs: Self, pair: CstTree)
        requires
            mine.models(pair),
            theirs.models(pair),
        ensures
            mine.alike(&theirs),
        decreases mine,
    {
        match (mine, theirs) {
            (Self::Eos(a), Self::Eos(b)) => {
                EosNode::lemma_one_typed_form(a, b, pair.one(Slot::Eos)->0);
            },
            (Self::Expression(a), Self::Expression(b)) => {
                ExpressionNode::lemma_one_typed_form(a, b, pair.one(Slot::Expression)->0);
            },
            (Self::IfStatement(a), Self::IfStatement(b)) => {
                IfStatementNode::lemma_one_typed_form(a, b, pair.one(Slot::IfStatement)->0);
            },
            _ => {},
        }
    }
}

impl IfStatementNode {
    /// True when the two nodes say the same: the same spans and texts, and parts
    /// that say the same.
    pub open spec fn alike(&self, other: &Self) -> bool
        decreases self,
    {
        &&& self.span == other.span
        &&& match (self.if_else_block, other.if_else_block) {
            (Some(mine), Some(theirs)) => mine.alike(&theirs),
            (None, None) => true,
            _ => false,
        }
        &&& match (self.if_else_if_block, other.if_else_if_block) {
            (Some(mine), Some(theirs)) => mine.alike(&theirs),
            (None, None) => true,
            _ => false,
        }
        &&& self.if_then_block.alike(&other.if_then_block)
    }

    /// A tree has one typed form: two nodes that are typed forms of the same tree
    /// say the same.
    pub proof fn lemma_one_typed_form(mine: Self, theirs: Self, pair: CstTree)
        requires
            mine.models(pair),
            theirs.models(pair),
        ensures
            mine.alike(&theirs),
        decreases mine,
    {
        match (mine.if_else_block, theirs.if_else_block) {
            (Some(a), Some(b)) => {
                IfElseBlockNode::lemma_one_typed_form(a, b, pair.one(Slot::IfElseBlock)->0);
            },
            _ => {},
        }
        match (mine.if_else_if_block, theirs.if_else_if_block) {
            (Some(a), Some(b)) => {
                IfElseIfBlockNode::lemma_one_typed_form(a, b, pair.one(Slot::IfElseIfBlock)->0);
            },
            _ => {},
        }
        IfThenBlockNode::lemma_one_typed_form(
            mine.if_then_block,
            theirs.if_then_block,
            pair.one(Slot::IfThenBlock)->0,
        );
    }
}

impl IfThenBlockNode {
    /// True when the two nodes say the same: the same spans and texts, and parts
    /// that say the same.
    pub open spec fn alike(&self, other: &Self) -> bool
        decreases self,
    {
        &&& self.span == other.span
        &&& self.expression.alike(&other.expression)
        &&& self.statement@.len() == other.statement@.len()
        &&& forall|at: int|
        0 <= at < self.statement@.len()
            ==> (#[trigger] self.statement@[at]).alike(&other.statement@[at])
    }

    /// A tree has one typed form: two nodes that are typed forms of the same tree
    /// say the same.
    pub proof fn lemma_one_typed_form(mine: Self, theirs: Self, pair: CstTree)
        requires
            mine.models(pair),
            theirs.models(pair),
        ensures
            mine.alike(&theirs),
        decreases mine,
    {
        ExpressionNode::lemma_one_typed_form(
            mine.expression,
            theirs.expression,
            pair.one(Slot::Expression)->0,
        );
        {
            let ours = mine.statement@;
            let others = theirs.statement@;
            let pairs = pair.all(Slot::Statement);
            assert forall|at: int| 0 <= at < ours.len() implies (#[trigger] ours[at]).alike(
                &others[at]
            ) by {
                assert(others[at].models(pairs[at]));
                StatementNode::lemma_one_typed_form(ours[at], others[at], pairs[at]);
            }
        }
    }
}

impl IfElseIfBlockNode {
    /// True when the two nodes say the same: the same spans and texts, and parts
    /// that say the same.
    pub open spec fn alike(&self, other: &Self) -> bool
        decreases self,
    {
        &&& self.span == other.span
        &&& self.expression.alike(&other.expression)
        &&& self.statement@.len() == other.statement@.len()
        &&& forall|at: int|
        0 <= at < self.statement@.len()
            ==> (#[trigger] self.statement@[at]).alike(&other.statement@[at])
    }

    /// A tree has one typed form: two nodes that are typed forms of the same tree
    /// say the same.
    pub proof fn lemma_one_typed_form(mine: Self, theirs: Self, pair: CstTree)
        requires
            mine.models(pair),
            theirs.models(pair),
        ensures
            mine.alike(&theirs),
        decreases mine,
    {
        ExpressionNode::lemma_one_typed_form(
            mine.expression,
            theirs.expression,
            pair.one(Slot::Expression)->0,
        );
        {
            let ours = mine.statement@;
            let others = theirs.statement@;
            let pairs = pair.all(Slot::Statement);
            assert forall|at: int| 0 <= at < ours.len() implies (#[trigger] ours[at]).alike(
                &others[at]
            ) by {
                assert(others[at].models(pairs[at]));
                StatementNode::lemma_one_typed_form(ours[at], others[at], pairs[at]);
            }
        }
    }
}

impl IfElseBlockNode {
    /// True when the two nodes say the same: the same spans and texts, and parts
    /// that say the same.
    pub open spec fn alike(&self, other: &Self) -> bool
        decreases self,
    {
        &&& self.span == other.span
        &&& self.statement@.len() == other.statement@.len()
        &&& forall|at: int|
        0 <= at < self.statement@.len()
            ==> (#[trigger] self.statement@[at]).alike(&other.statement@[at])
    }

    /// A tree has one typed form: two nodes that are typed forms of the same tree
    /// say the same.
    pub proof fn lemma_one_typed_form(mine: Self, theirs: Self, pair: CstTree)
        requires
            mine.models(pair),
            theirs.models(pair),
        ensures
            mine.alike(&theirs),
        decreases mine,
    {
        {
            let ours = mine.statement@;
            let others = theirs.statement@;
            let pairs = pair.all(Slot::Statement);
            assert forall|at: int| 0 <= at < ours.len() implies (#[trigger] ours[at]).alike(
                &others[at]
            ) by {
                assert(others[at].models(pairs[at]));
                StatementNode::lemma_one_typed_form(ours[at], others[at], pairs[at]);
            }
        }
    }
}

impl ExpressionNode {
    /// True when the two nodes say the same: the same spans and texts, and parts
    /// that say the same.
    pub open spec fn alike(&self, other: &Self) -> bool {
        &&& self.span == other.span
        &&& self.infix@.len() == other.infix@.len()
        &&& forall|at: int|
        0 <= at < self.infix@.len() ==> (#[trigger] self.infix@[at]).alike(&other.infix@[at])
        &&& self.term@.len() == other.term@.len()
        &&& forall|at: int|
        0 <= at < self.term@.len() ==> (#[trigger] self.term@[at]).alike(&other.term@[at])
    }

    /// A tree has one typed form: two nodes that are typed forms of the same tree
    /// say the same.
    pub proof fn lemma_one_typed_form(mine: Self, theirs: Self, pair: CstTree)
        requires
            mine.models(pair),
            theirs.models(pair),
        ensures
            mine.alike(&theirs),
    {
        {
            let ours = mine.infix@;
            let others = theirs.infix@;
            let pairs = pair.all(Slot::Infix);
            assert forall|at: int| 0 <= at < ours.len() implies (#[trigger] ours[at]).alike(
                &others[at]
            ) by {
                assert(others[at].models(pairs[at]));
                InfixNode::lemma_one_typed_form(ours[at], others[at], pairs[at]);
            }
        }
        {
            let ours = mine.term@;
            let others = theirs.term@;
            let pairs = pair.all(Slot::Term);
            assert forall|at: int| 0 <= at < ours.len() implies (#[trigger] ours[at]).alike(
                &others[at]
            ) by {
                assert(others[at].models(pairs[at]));
                TermNode::lemma_one_typed_form(ours[at], others[at], pairs[at]);
            }
        }
    }
}

impl TermNode {
    /// True when the two nodes say the same: the same spans and texts, and parts
    /// that say the same.
    pub open spec fn alike(&self, other: &Self) -> bool {
        &&& self.span == other.span
        &&& self.atomic.alike(&other.atomic)
        &&& self.prefix@.len() == other.prefix@.len()
        &&& forall|at: int|
        0 <= at < self.prefix@.len() ==> (#[trigger] self.prefix@[at]).alike(&other.prefix@[at])
        &&& self.suffix@.len() == other.suffix@.len()
        &&& forall|at: int|
        0 <= at < self.suffix@.len() ==> (#[trigger] self.suffix@[at]).alike(&other.suffix@[at])
    }

    /// A tree has one typed form: two nodes that are typed forms of the same tree
    /// say the same.
    pub proof fn lemma_one_typed_form(mine: Self, theirs: Self, pair: CstTree)
        requires
            mine.models(pair),
            theirs.models(pair),
        ensures
            mine.alike(&theirs),
    {
        AtomicNode::lemma_one_typed_form(mine.atomic, theirs.atomic, pair.one(Slot::Atomic)->0);
        {
            let ours = mine.prefix@;
            let others = theirs.prefix@;
            let pairs = pair.all(Slot::Prefix);
            assert forall|at: int| 0 <= at < ours.len() implies (#[trigger] ours[at]).alike(
                &others[at]
            ) by {
                assert(others[at].models(pairs[at]));
                PrefixNode::lemma_one_typed_form(ours[at], others[at], pairs[at]);
            }
        }
        {
            let ours = mine.suffix@;
            let others = theirs.suffix@;
            let pairs = pair.all(Slot::Suffix);
            assert forall|at: int| 0 <= at < ours.len() implies (#[trigger] ours[at]).alike(
                &others[at]
            ) by {
                assert(others[at].models(pairs[at]));
                SuffixNode::lemma_one_typed_form(ours[at], others[at], pairs[at]);
            }
        }
    }
}

impl PrefixNode {
    /// True when the two nodes are the same alternative.
    pub open spec fn alike(&self, other: &Self) -> bool {
        *self == *other
    }

    /// A tree has one typed form: two nodes that are typed forms of the same tree
    /// say the same.
    pub proof fn lemma_one_typed_form(mine: Self, theirs: Self, pair: CstTree)
        requires
            mine.models(pair),
            theirs.models(pair),
        ensures
            mine.alike(&theirs),
    {
    }
}

impl InfixNode {
    /// True when the two nodes are the same alternative.
    pub open spec fn alike(&self, other: &Self) -> bool {
        *self == *other
    }

    /// A tree has one typed form: two nodes that are typed forms of the same tree
    /// say the same.
    pub proof fn lemma_one_typed_form(mine: Self, theirs: Self, pair: CstTree)
        requires
            mine.models(pair),
            theirs.models(pair),
        ensures
            mine.alike(&theirs),
    {
    }
}

impl SuffixNode {
    /// True when the two nodes are the same alternative.
    pub open spec fn alike(&self, other: &Self) -> bool {
        *self == *other
    }

    /// A tree has one typed form: two nodes that are typed forms of the same tree
    /// say the same.
    pub proof fn lemma_one_typed_form(mine: Self, theirs: Self, pair: CstTree)
        requires
            mine.models(pair),
            theirs.models(pair),
        ensures
            mine.alike(&theirs),
    {
    }
}

impl AtomicNode {
    /// True when the two nodes say the same: the same alternative, with parts that
    /// say the same.
    pub open spec fn alike(&self, other: &Self) -> bool
        decreases self,
    {
        match (*self, *other) {
            (Self::Boolean(mine), Self::Boolean(theirs)) => mine.alike(&theirs),
            (Self::Identifier(mine), Self::Identifier(theirs)) => mine.alike(&theirs),
            (Self::Integer(mine), Self::Integer(theirs)) => mine.alike(&theirs),
            (Self::List(mine), Self::List(theirs)) => mine.alike(&theirs),
            (Self::StringNormal(mine), Self::StringNormal(theirs)) => mine.alike(&theirs),
            (Self::StringRaw(mine), Self::StringRaw(theirs)) => mine.alike(&theirs),
            _ => false,
        }
    }

    /// A tree has one typed form: two nodes that are typed forms of the same tree
    /// say the same.
    pub proof fn lemma_one_typed_form(mine: Self, theirs: Self, pair: CstTree)
        requires
            mine.models(pair),
            theirs.models(pair),
        ensures
            mine.alike(&theirs),
        decreases mine,
    {
        match (mine, theirs) {
            (Self::Boolean(a), Self::Boolean(b)) => {
                BooleanNode::lemma_one_typed_form(a, b, pair.one(Slot::Boolean)->0);
            },
            (Self::Identifier(a), Self::Identifier(b)) => {
                IdentifierNode::lemma_one_typed_form(a, b, pair.one(Slot::Identifier)->0);
            },
            (Self::Integer(a), Self::Integer(b)) => {
                IntegerNode::lemma_one_typed_form(a, b, pair.one(Slot::Integer)->0);
            },
            (Self::List(a), Self::List(b)) => {
                ListNode::lemma_one_typed_form(a, b, pair.one(Slot::List)->0);
            },
            (Self::StringNormal(a), Self::StringNormal(b)) => {
                StringNormalNode::lemma_one_typed_form(a, b, pair.one(Slot::StringNormal)->0);
            },
            (Self::StringRaw(a), Self::StringRaw(b)) => {
                StringRawNode::lemma_one_typed_form(a, b, pair.one(Slot::StringRaw)->0);
            },
            _ => {},
        }
    }
}

impl ListNode {
    /// True when the two nodes say the same: the same spans and texts, and parts
    /// that say the same.
    pub open spec fn alike(&self, other: &Self) -> bool
        decreases self,
    {
        &&& self.span == other.span
        &&& self.atomic@.len() == other.atomic@.len()
        &&& forall|at: int|
        0 <= at < self.atomic@.len() ==> (#[trigger] self.atomic@[at]).alike(&other.atomic@[at])
        &&& self.comma@.len() == other.comma@.len()
        &&& forall|at: int|
        0 <= at < self.comma@.len() ==> (#[trigger] self.comma@[at]).alike(&other.comma@[at])
    }

    /// A tree has one typed form: two nodes that are typed forms of the same tree
    /// say the same.
    pub proof fn lemma_one_typed_form(mine: Self, theirs: Self, pair: CstTree)
        requires
            mine.models(pair),
            theirs.models(pair),
        ensures
            mine.alike(&theirs),
        decreases mine,
    {
        {
            let ours = mine.atomic@;
            let others = theirs.atomic@;
            let pairs = pair.all(Slot::Atomic);
            assert forall|at: int| 0 <= at < ours.len() implies (#[trigger] ours[at]).alike(
                &others[at]
            ) by {
                assert(others[at].models(pairs[at]));
                AtomicNode::lemma_one_typed_form(ours[at], others[at], pairs[at]);
            }
        }
        {
            let ours = mine.comma@;
            let others = theirs.comma@;
            let pairs = pair.all(Slot::Comma);
            assert forall|at: int| 0 <= at < ours.len() implies (#[trigger] ours[at]).alike(
                &others[at]
            ) by {
                assert(others[at].models(pairs[at]));
                CommaNode::lemma_one_typed_form(ours[at], others[at], pairs[at]);
            }
        }
    }
}

impl StringNode {
    /// True when the two nodes say the same: the same alternative, with parts that
    /// say the same.
    pub open spec fn alike(&self, other: &Self) -> bool {
        match (*self, *other) {
            (Self::StringNormal(mine), Self::StringNormal(theirs)) => mine.alike(&theirs),
            (Self::StringRaw(mine), Self::StringRaw(theirs)) => mine.alike(&theirs),
            _ => false,
        }
    }

    /// A tree has one typed form: two nodes that are typed forms of the same tree
    /// say the same.
    pub proof fn lemma_one_typed_form(mine: Self, theirs: Self, pair: CstTree)
        requires
            mine.models(pair),
            theirs.models(pair),
        ensures
            mine.alike(&theirs),
    {
        match (mine, theirs) {
            (Self::StringNormal(a), Self::StringNormal(b)) => {
                StringNormalNode::lemma_one_typed_form(a, b, pair.one(Slot::StringNormal)->0);
            },
            (Self::StringRaw(a), Self::StringRaw(b)) => {
                StringRawNode::lemma_one_typed_form(a, b, pair.one(Slot::StringRaw)->0);
            },
            _ => {},
        }
    }
}

impl StringRawNode {
    /// True when the two nodes say the same: the same spans and texts, and parts
    /// that say the same.
    pub open spec fn alike(&self, other: &Self) -> bool {
        &&& self.span == other.span
        &&& self.string_raw_text.alike(&other.string_raw_text)
    }

    /// A tree has one typed form: two nodes that are typed forms of the same tree
    /// say the same.
    pub proof fn lemma_one_typed_form(mine: Self, theirs: Self, pair: CstTree)
        requires
            mine.models(pair),
            theirs.models(pair),
        ensures
            mine.alike(&theirs),
    {
        StringRawTextNode::lemma_one_typed_form(
            mine.string_raw_text,
            theirs.string_raw_text,
            pair.one(Slot::StringRawText)->0,
        );
    }
}

impl StringRawTextNode {
    /// True when the two nodes say the same: the same spans and texts, and parts
    /// that say the same.
    pub open spec fn alike(&self, other: &Self) -> bool {
        &&& self.span == other.span
        &&& self.text@ == other.text@
    }

    /// A tree has one typed form: two nodes that are typed forms of the same tree
    /// say the same.
    pub proof fn lemma_one_typed_form(mine: Self, theirs: Self, pair: CstTree)
        requires
            mine.models(pair),
            theirs.models(pair),
        ensures
            mine.alike(&theirs),
    {
    }
}

impl StringNormalNode {
    /// True when the two nodes say the same: the same spans and texts, and parts
    /// that say the same.
    pub open spec fn alike(&self, other: &Self) -> bool {
        &&& self.span == other.span
        &&& self.string_item@.len() == other.string_item@.len()
        &&& forall|at: int|
        0 <= at < self.string_item@.len()
            ==> (#[trigger] self.string_item@[at]).alike(&other.string_item@[at])
    }

    /// A tree has one typed form: two nodes that are typed forms of the same tree
    /// say the same.
    pub proof fn lemma_one_typed_form(mine: Self, theirs: Self, pair: CstTree)
        requires
            mine.models(pair),
            theirs.models(pair),
        ensures
            mine.alike(&theirs),
    {
        {
            let ours = mine.string_item@;
            let others = theirs.string_item@;
            let pairs = pair.all(Slot::StringItem);
            assert forall|at: int| 0 <= at < ours.len() implies (#[trigger] ours[at]).alike(
                &others[at]
            ) by {
                assert(others[at].models(pairs[at]));
                StringItemNode::lemma_one_typed_form(ours[at], others[at], pairs[at]);
            }
        }
    }
}

impl StringItemNode {
    /// True when the two nodes say the same: the same alternative, with parts that
    /// say the same.
    pub open spec fn alike(&self, other: &Self) -> bool {
        match (*self, *other) {
            (Self::EscapedCharacter(mine), Self::EscapedCharacter(theirs)) => mine.alike(&theirs),
            (Self::EscapedUnicode(mine), Self::EscapedUnicode(theirs)) => mine.alike(&theirs),
            (Self::TextAny(mine), Self::TextAny(theirs)) => mine.alike(&theirs),
            _ => false,
        }
    }

    /// A tree has one typed form: two nodes that are typed forms of the same tree
    /// say the same.
    pub proof fn lemma_one_typed_form(mine: Self, theirs: Self, pair: CstTree)
        requires
            mine.models(pair),
            theirs.models(pair),
        ensures
            mine.alike(&theirs),
    {
        match (mine, theirs) {
            (Self::EscapedCharacter(a), Self::EscapedCharacter(b)) => {
                EscapedCharacterNode::lemma_one_typed_form(
                    a,
                    b,
                    pair.one(Slot::EscapedCharacter)->0,
                );
            },
            (Self::EscapedUnicode(a), Self::EscapedUnicode(b)) => {
                EscapedUnicodeNode::lemma_one_typed_form(a, b, pair.one(Slot::EscapedUnicode)->0);
            },
            (Self::TextAny(a), Self::TextAny(b)) => {
                TextAnyNode::lemma_one_typed_form(a, b, pair.one(Slot::TextAny)->0);
            },
            _ => {},
        }
    }
}

impl EscapedUnicodeNode {
    /// True when the two nodes say the same: the same spans and texts, and parts
    /// that say the same.
    pub open spec fn alike(&self, other: &Self) -> bool {
        &&& self.span == other.span
        &&& self.hex.alike(&other.hex)
    }

    /// A tree has one typed form: two nodes that are typed forms of the same tree
    /// say the same.
    pub proof fn lemma_one_typed_form(mine: Self, theirs: Self, pair: CstTree)
        requires
            mine.models(pair),
            theirs.models(pair),
        ensures
            mine.alike(&theirs),
    {
        HexNode::lemma_one_typed_form(mine.hex, theirs.hex, pair.one(Slot::Hex)->0);
    }
}

impl EscapedCharacterNode {
    /// True when the two nodes say the same: the same spans and texts, and parts
    /// that say the same.
    pub open spec fn alike(&self, other: &Self) -> bool {
        &&& self.span == other.span
        &&& self.text@ == other.text@
    }

    /// A tree has one typed form: two nodes that are typed forms of the same tree
    /// say the same.
    pub proof fn lemma_one_typed_form(mine: Self, theirs: Self, pair: CstTree)
        requires
            mine.models(pair),
            theirs.models(pair),
        ensures
            mine.alike(&theirs),
    {
    }
}

impl HexNode {
    /// True when the two nodes say the same: the same spans and texts, and parts
    /// that say the same.
    pub open spec fn alike(&self, other: &Self) -> bool {
        &&& self.span == other.span
        &&& self.text@ == other.text@
    }

    /// A tree has one typed form: two nodes that are typed forms of the same tree
    /// say the same.
    pub proof fn lemma_one_typed_form(mine: Self, theirs: Self, pair: CstTree)
        requires
            mine.models(pair),
            theirs.models(pair),
        ensures
            mine.alike(&theirs),
    {
    }
}

impl TextAnyNode {
    /// True when the two nodes say the same: the same spans and texts, and parts
    /// that say the same.
    pub open spec fn alike(&self, other: &Self) -> bool {
        &&& self.span == other.span
        &&& self.text@ == other.text@
    }

    /// A tree has one typed form: two nodes that are typed forms of the same tree
    /// say the same.
    pub proof fn lemma_one_typed_form(mine: Self, theirs: Self, pair: CstTree)
        requires
            mine.models(pair),
            theirs.models(pair),
        ensures
            mine.alike(&theirs),
    {
    }
}

impl IdentifierNode {
    /// True when the two nodes say the same: the same spans and texts, and parts
    /// that say the same.
    pub open spec fn alike(&self, other: &Self) -> bool {
        &&& self.span == other.span
        &&& self.text@ == other.text@
    }

    /// A tree has one typed form: two nodes that are typed forms of the same tree
    /// say the same.
    pub proof fn lemma_one_typed_form(mine: Self, theirs: Self, pair: CstTree)
        requires
            mine.models(pair),
            theirs.models(pair),
        ensures
            mine.alike(&theirs),
    {
    }
}

impl IntegerNode {
    /// True when the two nodes say the same: the same spans and texts, and parts
    /// that say the same.
    pub open spec fn alike(&self, other: &Self) -> bool {
        &&& self.span == other.span
        &&& self.text@ == other.text@
    }

    /// A tree has one typed form: two nodes that are typed forms of the same tree
    /// say the same.
    pub proof fn lemma_one_typed_form(mine: Self, theirs: Self, pair: CstTree)
        requires
            mine.models(pair),
            theirs.models(pair),
        ensures
            mine.alike(&theirs),
    {
    }
}

impl BooleanNode {
    /// True when the two nodes are the same alternative.
    pub open spec fn alike(&self, other: &Self) -> bool {
        *self == *other
    }

    /// A tree has one typed form: two nodes that are typed forms of the same tree
    /// say the same.
    pub proof fn lemma_one_typed_form(mine: Self, theirs: Self, pair: CstTree)
        requires
            mine.models(pair),
            theirs.models(pair),
        ensures
            mine.alike(&theirs),
    {
    }
}

impl CommaNode {
    /// True when the two nodes say the same: the same spans and texts, and parts
    /// that say the same.
    pub open spec fn alike(&self, other: &Self) -> bool {
        &&& self.span == other.span
    }

    /// A tree has one typed form: two nodes that are typed forms of the same tree
    /// say the same.
    pub proof fn lemma_one_typed_form(mine: Self, theirs: Self, pair: CstTree)
        requires
            mine.models(pair),
            theirs.models(pair),
        ensures
            mine.alike(&theirs),
    {
    }
}

impl ColonNode {
    /// True when the two nodes say the same: the same spans and texts, and parts
    /// that say the same.
    pub open spec fn alike(&self, other: &Self) -> bool {
        &&& self.span == other.span
    }

    /// A tree has one typed form: two nodes that are typed forms of the same tree
    /// say the same.
    pub proof fn lemma_one_typed_form(mine: Self, theirs: Self, pair: CstTree)
        requires
            mine.models(pair),
            theirs.models(pair),
        ensures
            mine.alike(&theirs),
    {
    }
}

impl KwPropertyNode {
    /// True when the two nodes say the same: the same spans and texts, and parts
    /// that say the same.
    pub open spec fn alike(&self, other: &Self) -> bool {
        &&& self.span == other.span
    }

    /// A tree has one typed form: two nodes that are typed forms of the same tree
    /// say the same.
    pub proof fn lemma_one_typed_form(mine: Self, theirs: Self, pair: CstTree)
        requires
            mine.models(pair),
            theirs.models(pair),
        ensures
            mine.alike(&theirs),
    {
    }
}

impl KwTraitGroupNode {
    /// True when the two nodes say the same: the same spans and texts, and parts
    /// that say the same.
    pub open spec fn alike(&self, other: &Self) -> bool {
        &&& self.span == other.span
    }

    /// A tree has one typed form: two nodes that are typed forms of the same tree
    /// say the same.
    pub proof fn lemma_one_typed_form(mine: Self, theirs: Self, pair: CstTree)
        requires
            mine.models(pair),
            theirs.models(pair),
        ensures
            mine.alike(&theirs),
    {
    }
}

impl KwTraitNode {
    /// True when the two nodes say the same: the same spans and texts, and parts
    /// that say the same.
    pub open spec fn alike(&self, other: &Self) -> bool {
        &&& self.span == other.span
    }

    /// A tree has one typed form: two nodes that are typed forms of the same tree
    /// say the same.
    pub proof fn lemma_one_typed_form(mine: Self, theirs: Self, pair: CstTree)
        requires
            mine.models(pair),
            theirs.models(pair),
        ensures
            mine.alike(&theirs),
    {
    }
}

impl KwEventGroupNode {
    /// True when the two nodes say the same: the same spans and texts, and parts
    /// that say the same.
    pub open spec fn alike(&self, other: &Self) -> bool {
        &&& self.span == other.span
    }

    /// A tree has one typed form: two nodes that are typed forms of the same tree
    /// say the same.
    pub proof fn lemma_one_typed_form(mine: Self, theirs: Self, pair: CstTree)
        requires
            mine.models(pair),
            theirs.models(pair),
        ensures
            mine.alike(&theirs),
    {
    }
}

impl KwEventNode {
    /// True when the two nodes say the same: the same spans and texts, and parts
    /// that say the same.
    pub open spec fn alike(&self, other: &Self) -> bool {
        &&& self.span == other.span
    }

    /// A tree has one typed form: two nodes that are typed forms of the same tree
    /// say the same.
    pub proof fn lemma_one_typed_form(mine: Self, theirs: Self, pair: CstTree)
        requires
            mine.models(pair),
            theirs.models(pair),
        ensures
            mine.alike(&theirs),
    {
    }
}

impl KwIdNode {
    /// True when the two nodes say the same: the same spans and texts, and parts
    /// that say the same.
    pub open spec fn alike(&self, other: &Self) -> bool {
        &&& self.span == other.span
    }

    /// A tree has one typed form: two nodes that are typed forms of the same tree
    /// say the same.
    pub proof fn lemma_one_typed_form(mine: Self, theirs: Self, pair: CstTree)
        requires
            mine.models(pair),
            theirs.models(pair),
        ensures
            mine.alike(&theirs),
    {
    }
}

impl KwDescriptionNode {
    /// True when the two nodes say the same: the same spans and texts, and parts
    /// that say the same.
    pub open spec fn alike(&self, other: &Self) -> bool {
        &&& self.span == other.span
    }

    /// A tree has one typed form: two nodes that are typed forms of the same tree
    /// say the same.
    pub proof fn lemma_one_typed_form(mine: Self, theirs: Self, pair: CstTree)
        requires
            mine.models(pair),
            theirs.models(pair),
        ensures
            mine.alike(&theirs),
    {
    }
}

impl KwRequirementNode {
    /// True when the two nodes say the same: the same spans and texts, and parts
    /// that say the same.
    pub open spec fn alike(&self, other: &Self) -> bool {
        &&& self.span == other.span
    }

    /// A tree has one typed form: two nodes that are typed forms of the same tree
    /// say the same.
    pub proof fn lemma_one_typed_form(mine: Self, theirs: Self, pair: CstTree)
        requires
            mine.models(pair),
            theirs.models(pair),
        ensures
            mine.alike(&theirs),
    {
    }
}

impl KwEffectNode {
    /// True when the two nodes say the same: the same spans and texts, and parts
    /// that say the same.
    pub open spec fn alike(&self, other: &Self) -> bool {
        &&& self.span == other.span
    }

    /// A tree has one typed form: two nodes that are typed forms of the same tree
    /// say the same.
    pub proof fn lemma_one_typed_form(mine: Self, theirs: Self, pair: CstTree)
        requires
            mine.models(pair),
            theirs.models(pair),
        ensures
            mine.alike(&theirs),
    {
    }
}

impl KwEnumerateNode {
    /// True when the two nodes say the same: the same spans and texts, and parts
    /// that say the same.
    pub open spec fn alike(&self, other: &Self) -> bool {
        &&& self.span == other.span
    }

    /// A tree has one typed form: two nodes that are typed forms of the same tree
    /// say the same.
    pub proof fn lemma_one_typed_form(mine: Self, theirs: Self, pair: CstTree)
        requires
            mine.models(pair),
            theirs.models(pair),
        ensures
            mine.alike(&theirs),
    {
    }
}

impl KwOptionsNode {
    /// True when the two nodes say the same: the same spans and texts, and parts
    /// that say the same.
    pub open spec fn alike(&self, other: &Self) -> bool {
        &&& self.span == other.span
    }

    /// A tree has one typed form: two nodes that are typed forms of the same tree
    /// say the same.
    pub proof fn lemma_one_typed_form(mine: Self, theirs: Self, pair: CstTree)
        requires
            mine.models(pair),
            theirs.models(pair),
        ensures
            mine.alike(&theirs),
    {
    }
}

impl KwIfNode {
    /// True when the two nodes say the same: the same spans and texts, and parts
    /// that say the same.
    pub open spec fn alike(&self, other: &Self) -> bool {
        &&& self.span == other.span
    }

    /// A tree has one typed form: two nodes that are typed forms of the same tree
    /// say the same.
    pub proof fn lemma_one_typed_form(mine: Self, theirs: Self, pair: CstTree)
        requires
            mine.models(pair),
            theirs.models(pair),
        ensures
            mine.alike(&theirs),
    {
    }
}

impl KwElseIfNode {
    /// True when the two nodes say the same: the same spans and texts, and parts
    /// that say the same.
    pub open spec fn alike(&self, other: &Self) -> bool {
        &&& self.span == other.span
    }

    /// A tree has one typed form: two nodes that are typed forms of the same tree
    /// say the same.
    pub proof fn lemma_one_typed_form(mine: Self, theirs: Self, pair: CstTree)
        requires
            mine.models(pair),
            theirs.models(pair),
        ensures
            mine.alike(&theirs),
    {
    }
}

impl KwElseNode {
    /// True when the two nodes say the same: the same spans and texts, and parts
    /// that say the same.
    pub open spec fn alike(&self, other: &Self) -> bool {
        &&& self.span == other.span
    }

    /// A tree has one typed form: two nodes that are typed forms of the same tree
    /// say the same.
    pub proof fn lemma_one_typed_form(mine: Self, theirs: Self, pair: CstTree)
        requires
            mine.models(pair),
            theirs.models(pair),
        ensures
            mine.alike(&theirs),
    {
    }
}

impl WhiteSpaceNode {
    /// True when the two nodes say the same: the same spans and texts, and parts
    /// that say the same.
    pub open spec fn alike(&self, other: &Self) -> bool {
        &&& self.span == other.span
    }

    /// A tree has one typed form: two nodes that are typed forms of the same tree
    /// say the same.
    pub proof fn lemma_one_typed_form(mine: Self, theirs: Self, pair: CstTree)
        requires
            mine.models(pair),
            theirs.models(pair),
        ensures
            mine.alike(&theirs),
    {
    }
}

impl CommentNode {
    /// True when the two nodes say the same: the same spans and texts, and parts
    /// that say the same.
    pub open spec fn alike(&self, other: &Self) -> bool {
        &&& self.span == other.span
    }

    /// A tree has one typed form: two nodes that are typed forms of the same tree
    /// say the same.
    pub proof fn lemma_one_typed_form(mine: Self, theirs: Self, pair: CstTree)
        requires
            mine.models(pair),
            theirs.models(pair),
        ensures
            mine.alike(&theirs),
    {
    }
}

} // verus!
