//! Typed nodes that differ by spans only. Where two trees hold the same
//! rules, slots and texts in the same order and one has every span further
//! on than the other, their typed forms hold the same texts, alternatives
//! and lists: only the spans differ.

use crate::syntax::cst::{first, picks, CstTree};
use crate::syntax::lexical::trivia_len;
use crate::syntax::moved::{bytes_of, lemma_moved_children, moved_all};
use crate::syntax::moves::{is_blank, lemma_leading_trivia_parses_the_same};
use crate::syntax::nodes::{
    AtomicNode, BooleanNode, ColonNode, CommaNode, CommentNode, DescriptionStatementNode,
    EffectStatementNode, EnumerateStatementNode, EosNode, EscapedCharacterNode,
    EscapedUnicodeNode, EventGroupNode, EventItemNode, EventPropertyNode, EventStatementNode,
    ExpressionNode, HexNode, IdStatementNode, IdentifierNode, IfElseBlockNode,
    IfElseIfBlockNode, IfStatementNode, IfThenBlockNode, InfixNode, IntegerNode,
    KwDescriptionNode, KwEffectNode, KwElseIfNode, KwElseNode, KwEnumerateNode,
    KwEventGroupNode, KwEventNode, KwIdNode, KwIfNode, KwOptionsNode, KwPropertyNode,
    KwRequirementNode, KwTraitGroupNode, KwTraitNode, ListNode, OptionItemNode,
    OptionStatementNode, PrefixNode, PropertyItemNode, PropertyStatementNode,
    RequirementStatementNode, RootNode, StatementNode, StringItemNode, StringNode,
    StringNormalNode, StringRawNode, StringRawTextNode, SuffixNode, TermNode, TextAnyNode,
    TopStatementNode, TraitGroupNode, TraitItemNode, TraitPropertyNode, TraitStatementNode,
    WhiteSpaceNode,
};
use crate::syntax::parse_cst::spec_parse_cst;
use crate::syntax::rule::{LifeRestartRule, Slot};
use vstd::prelude::*;

verus! {

impl CstTree {
    /// True when this tree is `pair` with other spans: the same text, and
    /// the children of `pair` with every span moved on by `bytes`. The span
    /// of the tree itself may be any.
    pub open spec fn respans(self, pair: CstTree, bytes: nat) -> bool {
        &&& self.text == pair.text
        &&& self.children == moved_all(pair.children, bytes)
    }
}

/// A moved tree is the tree with other spans.
pub proof fn lemma_moved_respans(pair: CstTree, bytes: nat)
    ensures
        pair.moved(bytes).respans(pair, bytes),
{
    lemma_moved_children(pair, bytes);
}

/// Moving trees does not change which of them fills a slot first.
pub proof fn lemma_first_moved(kids: Seq<CstTree>, slot: Slot, from: int, bytes: nat)
    ensures
        first(moved_all(kids, bytes), slot, from) == match first(kids, slot, from) {
            Some(child) => Some(child.moved(bytes)),
            None => None,
        },
    decreases kids.len() - from,
{
    reveal(moved_all);
    if 0 <= from < kids.len() {
        lemma_moved_children(kids[from], bytes);
        if kids[from].slot != slot {
            lemma_first_moved(kids, slot, from + 1, bytes);
        }
    }
}

/// Moving trees does not change which of them fill a slot.
pub proof fn lemma_picks_moved(kids: Seq<CstTree>, slot: Slot, upto: int, bytes: nat)
    requires
        upto <= kids.len(),
    ensures
        picks(moved_all(kids, bytes), slot, upto) == moved_all(picks(kids, slot, upto), bytes),
    decreases upto,
{
    reveal(moved_all);
    if upto > 0 {
        lemma_picks_moved(kids, slot, upto - 1, bytes);
        lemma_moved_children(kids[upto - 1], bytes);
    }
    assert(picks(moved_all(kids, bytes), slot, upto) =~= moved_all(
        picks(kids, slot, upto),
        bytes,
    ));
}

/// In a tree with other spans the same child fills a slot first, with other
/// spans.
pub proof fn lemma_one_respans(pair: CstTree, other: CstTree, slot: Slot, bytes: nat)
    requires
        other.respans(pair, bytes),
    ensures
        other.one(slot) is Some <==> pair.one(slot) is Some,
        pair.one(slot) matches Some(child) ==> (other.one(slot)->0).respans(child, bytes),
{
    lemma_first_moved(pair.children, slot, 0, bytes);
    if pair.one(slot) is Some {
        lemma_moved_children(pair.one(slot)->0, bytes);
    }
}

/// In a tree with other spans the same children fill a slot, with other
/// spans.
pub proof fn lemma_all_respans(pair: CstTree, other: CstTree, slot: Slot, bytes: nat)
    requires
        other.respans(pair, bytes),
    ensures
        other.all(slot).len() == pair.all(slot).len(),
        forall|at: int|
            0 <= at < pair.all(slot).len() ==> (#[trigger] other.all(slot)[at]).respans(
                pair.all(slot)[at],
                bytes,
            ),
{
    reveal(moved_all);
    lemma_picks_moved(pair.children, slot, pair.children.len() as int, bytes);
    assert forall|at: int| 0 <= at < pair.all(slot).len() implies (#[trigger] other.all(
        slot,
    )[at]).respans(pair.all(slot)[at], bytes) by {
        lemma_moved_children(pair.all(slot)[at], bytes);
    }
}

impl RootNode {
    /// True when the two nodes say the same but for their spans: the same texts,
    /// and parts that say the same but for their spans.
    pub open spec fn akin(&self, other: &Self) -> bool {
        &&& self.top_statement@.len() == other.top_statement@.len()
        &&& forall|at: int|
        0 <= at < self.top_statement@.len()
            ==> (#[trigger] self.top_statement@[at]).akin(&other.top_statement@[at])
    }

    /// The typed forms of a tree and of the same tree with other spans say the same
    /// but for their spans.
    pub proof fn lemma_moved_form(
        mine: Self,
        theirs: Self,
        pair: CstTree,
        other: CstTree,
        bytes: nat,
    )
        requires
            mine.models(pair),
            theirs.models(other),
            other.respans(pair, bytes),
        ensures
            mine.akin(&theirs),
    {
        lemma_all_respans(pair, other, Slot::TopStatement, bytes);
        {
            let ours = mine.top_statement@;
            let others = theirs.top_statement@;
            let pairs = pair.all(Slot::TopStatement);
            let moved = other.all(Slot::TopStatement);
            assert forall|at: int| 0 <= at < ours.len() implies (#[trigger] ours[at]).akin(
                &others[at]
            ) by {
                assert(ours[at].models(pairs[at]));
                assert(others[at].models(moved[at]));
                assert(moved[at].respans(pairs[at], bytes));
                TopStatementNode::lemma_moved_form(
                    ours[at],
                    others[at],
                    pairs[at],
                    moved[at],
                    bytes,
                );
            }
        }
    }
}

impl TopStatementNode {
    /// True when the two nodes say the same but for their spans: the same
    /// alternative, with parts that say the same but for their spans.
    pub open spec fn akin(&self, other: &Self) -> bool {
        match (*self, *other) {
            (Self::Eos(mine), Self::Eos(theirs)) => mine.akin(&theirs),
            (Self::EventGroup(mine), Self::EventGroup(theirs)) => mine.akin(&theirs),
            (Self::EventStatement(mine), Self::EventStatement(theirs)) => mine.akin(&theirs),
            (Self::PropertyStatement(mine), Self::PropertyStatement(theirs)) => mine.akin(&theirs),
            (Self::TraitGroup(mine), Self::TraitGroup(theirs)) => mine.akin(&theirs),
            (Self::TraitStatement(mine), Self::TraitStatement(theirs)) => mine.akin(&theirs),
            _ => false,
        }
    }

    /// The typed forms of a tree and of the same tree with other spans say the same
    /// but for their spans.
    pub proof fn lemma_moved_form(
        mine: Self,
        theirs: Self,
        pair: CstTree,
        other: CstTree,
        bytes: nat,
    )
        requires
            mine.models(pair),
            theirs.models(other),
            other.respans(pair, bytes),
        ensures
            mine.akin(&theirs),
    {
        lemma_one_respans(pair, other, Slot::Eos, bytes);
        lemma_one_respans(pair, other, Slot::EventGroup, bytes);
        lemma_one_respans(pair, other, Slot::EventStatement, bytes);
        lemma_one_respans(pair, other, Slot::PropertyStatement, bytes);
        lemma_one_respans(pair, other, Slot::TraitGroup, bytes);
        lemma_one_respans(pair, other, Slot::TraitStatement, bytes);
        match (mine, theirs) {
            (Self::Eos(a), Self::Eos(b)) => {
                EosNode::lemma_moved_form(
                    a,
                    b,
                    pair.one(Slot::Eos)->0,
                    other.one(Slot::Eos)->0,
                    bytes,
                );
            },
            (Self::EventGroup(a), Self::EventGroup(b)) => {
                EventGroupNode::lemma_moved_form(
                    a,
                    b,
                    pair.one(Slot::EventGroup)->0,
                    other.one(Slot::EventGroup)->0,
                    bytes,
                );
            },
            (Self::EventStatement(a), Self::EventStatement(b)) => {
                EventStatementNode::lemma_moved_form(
                    a,
                    b,
                    pair.one(Slot::EventStatement)->0,
                    other.one(Slot::EventStatement)->0,
                    bytes,
                );
            },
            (Self::PropertyStatement(a), Self::PropertyStatement(b)) => {
                PropertyStatementNode::lemma_moved_form(
                    a,
                    b,
                    pair.one(Slot::PropertyStatement)->0,
                    other.one(Slot::PropertyStatement)->0,
                    bytes,
                );
            },
            (Self::TraitGroup(a), Self::TraitGroup(b)) => {
                TraitGroupNode::lemma_moved_form(
                    a,
                    b,
                    pair.one(Slot::TraitGroup)->0,
                    other.one(Slot::TraitGroup)->0,
                    bytes,
                );
            },
            (Self::TraitStatement(a), Self::TraitStatement(b)) => {
                TraitStatementNode::lemma_moved_form(
                    a,
                    b,
                    pair.one(Slot::TraitStatement)->0,
                    other.one(Slot::TraitStatement)->0,
                    bytes,
                );
            },
            _ => {},
        }
    }
}

impl EosNode {
    /// Two nodes of this type always say the same but for their spans.
    pub open spec fn akin(&self, other: &Self) -> bool {
        true
    }

    /// The typed forms of a tree and of the same tree with other spans say the same
    /// but for their spans.
    pub proof fn lemma_moved_form(
        mine: Self,
        theirs: Self,
        pair: CstTree,
        other: CstTree,
        bytes: nat,
    )
        requires
            mine.models(pair),
            theirs.models(other),
            other.respans(pair, bytes),
        ensures
            mine.akin(&theirs),
    {
    }
}

impl PropertyStatementNode {
    /// True when the two nodes say the same but for their spans: the same texts,
    /// and parts that say the same but for their spans.
    pub open spec fn akin(&self, other: &Self) -> bool {
        &&& self.identifier.akin(&other.identifier)
        &&& self.property_item@.len() == other.property_item@.len()
        &&& forall|at: int|
        0 <= at < self.property_item@.len()
            ==> (#[trigger] self.property_item@[at]).akin(&other.property_item@[at])
    }

    /// The typed forms of a tree and of the same tree with other spans say the same
    /// but for their spans.
    pub proof fn lemma_moved_form(
        mine: Self,
        theirs: Self,
        pair: CstTree,
        other: CstTree,
        bytes: nat,
    )
        requires
            mine.models(pair),
            theirs.models(other),
            other.respans(pair, bytes),
        ensures
            mine.akin(&theirs),
    {
        lemma_one_respans(pair, other, Slot::Identifier, bytes);
        IdentifierNode::lemma_moved_form(
            mine.identifier,
            theirs.identifier,
            pair.one(Slot::Identifier)->0,
            other.one(Slot::Identifier)->0,
            bytes,
        );
        lemma_all_respans(pair, other, Slot::PropertyItem, bytes);
        {
            let ours = mine.property_item@;
            let others = theirs.property_item@;
            let pairs = pair.all(Slot::PropertyItem);
            let moved = other.all(Slot::PropertyItem);
            assert forall|at: int| 0 <= at < ours.len() implies (#[trigger] ours[at]).akin(
                &others[at]
            ) by {
                assert(ours[at].models(pairs[at]));
                assert(others[at].models(moved[at]));
                assert(moved[at].respans(pairs[at], bytes));
                PropertyItemNode::lemma_moved_form(
                    ours[at],
                    others[at],
                    pairs[at],
                    moved[at],
                    bytes,
                );
            }
        }
    }
}

impl PropertyItemNode {
    /// True when the two nodes say the same but for their spans: the same
    /// alternative, with parts that say the same but for their spans.
    pub open spec fn akin(&self, other: &Self) -> bool {
        match (*self, *other) {
            (Self::DescriptionStatement(mine), Self::DescriptionStatement(theirs)) => mine.akin(
                &theirs
            ),
            (Self::EnumerateStatement(mine), Self::EnumerateStatement(theirs)) => mine.akin(
                &theirs
            ),
            (Self::Eos(mine), Self::Eos(theirs)) => mine.akin(&theirs),
            (Self::IdStatement(mine), Self::IdStatement(theirs)) => mine.akin(&theirs),
            (Self::OptionStatement(mine), Self::OptionStatement(theirs)) => mine.akin(&theirs),
            (Self::RequirementStatement(mine), Self::RequirementStatement(theirs)) => mine.akin(
                &theirs
            ),
            _ => false,
        }
    }

    /// The typed forms of a tree and of the same tree with other spans say the same
    /// but for their spans.
    pub proof fn lemma_moved_form(
        mine: Self,
        theirs: Self,
        pair: CstTree,
        other: CstTree,
        bytes: nat,
    )
        requires
            mine.models(pair),
            theirs.models(other),
            other.respans(pair, bytes),
        ensures
            mine.akin(&theirs),
    {
        lemma_one_respans(pair, other, Slot::DescriptionStatement, bytes);
        lemma_one_respans(pair, other, Slot::EnumerateStatement, bytes);
        lemma_one_respans(pair, other, Slot::Eos, bytes);
        lemma_one_respans(pair, other, Slot::IdStatement, bytes);
        lemma_one_respans(pair, other, Slot::OptionStatement, bytes);
        lemma_one_respans(pair, other, Slot::RequirementStatement, bytes);
        match (mine, theirs) {
            (Self::DescriptionStatement(a), Self::DescriptionStatement(b)) => {
                DescriptionStatementNode::lemma_moved_form(
                    a,
                    b,
                    pair.one(Slot::DescriptionStatement)->0,
                    other.one(Slot::DescriptionStatement)->0,
                    bytes,
                );
            },
            (Self::EnumerateStatement(a), Self::EnumerateStatement(b)) => {
                EnumerateStatementNode::lemma_moved_form(
                    a,
                    b,
                    pair.one(Slot::EnumerateStatement)->0,
                    other.one(Slot::EnumerateStatement)->0,
                    bytes,
                );
            },
            (Self::Eos(a), Self::Eos(b)) => {
                EosNode::lemma_moved_form(
                    a,
                    b,
                    pair.one(Slot::Eos)->0,
                    other.one(Slot::Eos)->0,
                    bytes,
                );
            },
            (Self::IdStatement(a), Self::IdStatement(b)) => {
                IdStatementNode::lemma_moved_form(
                    a,
                    b,
                    pair.one(Slot::IdStatement)->0,
                    other.one(Slot::IdStatement)->0,
                    bytes,
                );
            },
            (Self::OptionStatement(a), Self::OptionStatement(b)) => {
                OptionStatementNode::lemma_moved_form(
                    a,
                    b,
                    pair.one(Slot::OptionStatement)->0,
                    other.one(Slot::OptionStatement)->0,
                    bytes,
                );
            },
            (Self::RequirementStatement(a), Self::RequirementStatement(b)) => {
                RequirementStatementNode::lemma_moved_form(
                    a,
                    b,
                    pair.one(Slot::RequirementStatement)->0,
                    other.one(Slot::RequirementStatement)->0,
                    bytes,
                );
            },
            _ => {},
        }
    }
}

impl EnumerateStatementNode {
    /// True when the two nodes say the same but for their spans: the same texts,
    /// and parts that say the same but for their spans.
    pub open spec fn akin(&self, other: &Self) -> bool {
        &&& self.variant@.len() == other.variant@.len()
        &&& forall|at: int|
        0 <= at < self.variant@.len() ==> (#[trigger] self.variant@[at]).akin(&other.variant@[at])
    }

    /// The typed forms of a tree and of the same tree with other spans say the same
    /// but for their spans.
    pub proof fn lemma_moved_form(
        mine: Self,
        theirs: Self,
        pair: CstTree,
        other: CstTree,
        bytes: nat,
    )
        requires
            mine.models(pair),
            theirs.models(other),
            other.respans(pair, bytes),
        ensures
            mine.akin(&theirs),
    {
        lemma_all_respans(pair, other, Slot::Variant, bytes);
        {
            let ours = mine.variant@;
            let others = theirs.variant@;
            let pairs = pair.all(Slot::Variant);
            let moved = other.all(Slot::Variant);
            assert forall|at: int| 0 <= at < ours.len() implies (#[trigger] ours[at]).akin(
                &others[at]
            ) by {
                assert(ours[at].models(pairs[at]));
                assert(others[at].models(moved[at]));
                assert(moved[at].respans(pairs[at], bytes));
                IdentifierNode::lemma_moved_form(ours[at], others[at], pairs[at], moved[at], bytes);
            }
        }
    }
}

impl OptionStatementNode {
    /// True when the two nodes say the same but for their spans: the same texts,
    /// and parts that say the same but for their spans.
    pub open spec fn akin(&self, other: &Self) -> bool {
        &&& self.option_item@.len() == other.option_item@.len()
        &&& forall|at: int|
        0 <= at < self.option_item@.len()
            ==> (#[trigger] self.option_item@[at]).akin(&other.option_item@[at])
    }

    /// The typed forms of a tree and of the same tree with other spans say the same
    /// but for their spans.
    pub proof fn lemma_moved_form(
        mine: Self,
        theirs: Self,
        pair: CstTree,
        other: CstTree,
        bytes: nat,
    )
        requires
            mine.models(pair),
            theirs.models(other),
            other.respans(pair, bytes),
        ensures
            mine.akin(&theirs),
    {
        lemma_all_respans(pair, other, Slot::OptionItem, bytes);
        {
            let ours = mine.option_item@;
            let others = theirs.option_item@;
            let pairs = pair.all(Slot::OptionItem);
            let moved = other.all(Slot::OptionItem);
            assert forall|at: int| 0 <= at < ours.len() implies (#[trigger] ours[at]).akin(
                &others[at]
            ) by {
                assert(ours[at].models(pairs[at]));
                assert(others[at].models(moved[at]));
                assert(moved[at].respans(pairs[at], bytes));
                OptionItemNode::lemma_moved_form(ours[at], others[at], pairs[at], moved[at], bytes);
            }
        }
    }
}

impl OptionItemNode {
    /// True when the two nodes say the same but for their spans: the same texts,
    /// and parts that say the same but for their spans.
    pub open spec fn akin(&self, other: &Self) -> bool {
        &&& self.variant.akin(&other.variant)
        &&& match (self.weight, other.weight) {
            (Some(mine), Some(theirs)) => mine.akin(&theirs),
            (None, None) => true,
            _ => false,
        }
    }

    /// The typed forms of a tree and of the same tree with other spans say the same
    /// but for their spans.
    pub proof fn lemma_moved_form(
        mine: Self,
        theirs: Self,
        pair: CstTree,
        other: CstTree,
        bytes: nat,
    )
        requires
            mine.models(pair),
            theirs.models(other),
            other.respans(pair, bytes),
        ensures
            mine.akin(&theirs),
    {
        lemma_one_respans(pair, other, Slot::Variant, bytes);
        IdentifierNode::lemma_moved_form(
            mine.variant,
            theirs.variant,
            pair.one(Slot::Variant)->0,
            other.one(Slot::Variant)->0,
            bytes,
        );
        lemma_one_respans(pair, other, Slot::Weight, bytes);
        match (mine.weight, theirs.weight) {
            (Some(a), Some(b)) => {
                IntegerNode::lemma_moved_form(
                    a,
                    b,
                    pair.one(Slot::Weight)->0,
                    other.one(Slot::Weight)->0,
                    bytes,
                );
            },
            _ => {},
        }
    }
}

impl TraitGroupNode {
    /// True when the two nodes say the same but for their spans: the same texts,
    /// and parts that say the same but for their spans.
    pub open spec fn akin(&self, other: &Self) -> bool {
        &&& self.identifier.akin(&other.identifier)
        &&& self.trait_statement@.len() == other.trait_statement@.len()
        &&& forall|at: int|
        0 <= at < self.trait_statement@.len()
            ==> (#[trigger] self.trait_statement@[at]).akin(&other.trait_statement@[at])
    }

    /// The typed forms of a tree and of the same tree with other spans say the same
    /// but for their spans.
    pub proof fn lemma_moved_form(
        mine: Self,
        theirs: Self,
        pair: CstTree,
        other: CstTree,
        bytes: nat,
    )
        requires
            mine.models(pair),
            theirs.models(other),
            other.respans(pair, bytes),
        ensures
            mine.akin(&theirs),
    {
        lemma_one_respans(pair, other, Slot::Identifier, bytes);
        IdentifierNode::lemma_moved_form(
            mine.identifier,
            theirs.identifier,
            pair.one(Slot::Identifier)->0,
            other.one(Slot::Identifier)->0,
            bytes,
        );
        lemma_all_respans(pair, other, Slot::TraitStatement, bytes);
        {
            let ours = mine.trait_statement@;
            let others = theirs.trait_statement@;
            let pairs = pair.all(Slot::TraitStatement);
            let moved = other.all(Slot::TraitStatement);
            assert forall|at: int| 0 <= at < ours.len() implies (#[trigger] ours[at]).akin(
                &others[at]
            ) by {
                assert(ours[at].models(pairs[at]));
                assert(others[at].models(moved[at]));
                assert(moved[at].respans(pairs[at], bytes));
                TraitStatementNode::lemma_moved_form(
                    ours[at],
                    others[at],
                    pairs[at],
                    moved[at],
                    bytes,
                );
            }
        }
    }
}

impl TraitStatementNode {
    /// True when the two nodes say the same but for their spans: the same texts,
    /// and parts that say the same but for their spans.
    pub open spec fn akin(&self, other: &Self) -> bool {
        &&& self.identifier.akin(&other.identifier)
        &&& self.trait_item@.len() == other.trait_item@.len()
        &&& forall|at: int|
        0 <= at < self.trait_item@.len()
            ==> (#[trigger] self.trait_item@[at]).akin(&other.trait_item@[at])
    }

    /// The typed forms of a tree and of the same tree with other spans say the same
    /// but for their spans.
    pub proof fn lemma_moved_form(
        mine: Self,
        theirs: Self,
        pair: CstTree,
        other: CstTree,
        bytes: nat,
    )
        requires
            mine.models(pair),
            theirs.models(other),
            other.respans(pair, bytes),
        ensures
            mine.akin(&theirs),
    {
        lemma_one_respans(pair, other, Slot::Identifier, bytes);
        IdentifierNode::lemma_moved_form(
            mine.identifier,
            theirs.identifier,
            pair.one(Slot::Identifier)->0,
            other.one(Slot::Identifier)->0,
            bytes,
        );
        lemma_all_respans(pair, other, Slot::TraitItem, bytes);
        {
            let ours = mine.trait_item@;
            let others = theirs.trait_item@;
            let pairs = pair.all(Slot::TraitItem);
            let moved = other.all(Slot::TraitItem);
            assert forall|at: int| 0 <= at < ours.len() implies (#[trigger] ours[at]).akin(
                &others[at]
            ) by {
                assert(ours[at].models(pairs[at]));
                assert(others[at].models(moved[at]));
                assert(moved[at].respans(pairs[at], bytes));
                TraitItemNode::lemma_moved_form(ours[at], others[at], pairs[at], moved[at], bytes);
            }
        }
    }
}

impl TraitItemNode {
    /// True when the two nodes say the same but for their spans: the same
    /// alternative, with parts that say the same but for their spans.
    pub open spec fn akin(&self, other: &Self) -> bool {
        match (*self, *other) {
            (Self::DescriptionStatement(mine), Self::DescriptionStatement(theirs)) => mine.akin(
                &theirs
            ),
            (Self::EffectStatement(mine), Self::EffectStatement(theirs)) => mine.akin(&theirs),
            (Self::IdStatement(mine), Self::IdStatement(theirs)) => mine.akin(&theirs),
            (Self::RequirementStatement(mine), Self::RequirementStatement(theirs)) => mine.akin(
                &theirs
            ),
            _ => false,
        }
    }

    /// The typed forms of a tree and of the same tree with other spans say the same
    /// but for their spans.
    pub proof fn lemma_moved_form(
        mine: Self,
        theirs: Self,
        pair: CstTree,
        other: CstTree,
        bytes: nat,
    )
        requires
            mine.models(pair),
            theirs.models(other),
            other.respans(pair, bytes),
        ensures
            mine.akin(&theirs),
    {
        lemma_one_respans(pair, other, Slot::DescriptionStatement, bytes);
        lemma_one_respans(pair, other, Slot::EffectStatement, bytes);
        lemma_one_respans(pair, other, Slot::IdStatement, bytes);
        lemma_one_respans(pair, other, Slot::RequirementStatement, bytes);
        match (mine, theirs) {
            (Self::DescriptionStatement(a), Self::DescriptionStatement(b)) => {
                DescriptionStatementNode::lemma_moved_form(
                    a,
                    b,
                    pair.one(Slot::DescriptionStatement)->0,
                    other.one(Slot::DescriptionStatement)->0,
                    bytes,
                );
            },
            (Self::EffectStatement(a), Self::EffectStatement(b)) => {
                EffectStatementNode::lemma_moved_form(
                    a,
                    b,
                    pair.one(Slot::EffectStatement)->0,
                    other.one(Slot::EffectStatement)->0,
                    bytes,
                );
            },
            (Self::IdStatement(a), Self::IdStatement(b)) => {
                IdStatementNode::lemma_moved_form(
                    a,
                    b,
                    pair.one(Slot::IdStatement)->0,
                    other.one(Slot::IdStatement)->0,
                    bytes,
                );
            },
            (Self::RequirementStatement(a), Self::RequirementStatement(b)) => {
                RequirementStatementNode::lemma_moved_form(
                    a,
                    b,
                    pair.one(Slot::RequirementStatement)->0,
                    other.one(Slot::RequirementStatement)->0,
                    bytes,
                );
            },
            _ => {},
        }
    }
}

impl TraitPropertyNode {
    /// True when the two nodes say the same but for their spans: the same texts,
    /// and parts that say the same but for their spans.
    pub open spec fn akin(&self, other: &Self) -> bool {
        &&& self.atomic.akin(&other.atomic)
        &&& self.identifier.akin(&other.identifier)
    }

    /// The typed forms of a tree and of the same tree with other spans say the same
    /// but for their spans.
    pub proof fn lemma_moved_form(
        mine: Self,
        theirs: Self,
        pair: CstTree,
        other: CstTree,
        bytes: nat,
    )
        requires
            mine.models(pair),
            theirs.models(other),
            other.respans(pair, bytes),
        ensures
            mine.akin(&theirs),
    {
        lemma_one_respans(pair, other, Slot::Atomic, bytes);
        AtomicNode::lemma_moved_form(
            mine.atomic,
            theirs.atomic,
            pair.one(Slot::Atomic)->0,
            other.one(Slot::Atomic)->0,
            bytes,
        );
        lemma_one_respans(pair, other, Slot::Identifier, bytes);
        IdentifierNode::lemma_moved_form(
            mine.identifier,
            theirs.identifier,
            pair.one(Slot::Identifier)->0,
            other.one(Slot::Identifier)->0,
            bytes,
        );
    }
}

impl RequirementStatementNode {
    /// True when the two nodes say the same but for their spans: the same texts,
    /// and parts that say the same but for their spans.
    pub open spec fn akin(&self, other: &Self) -> bool {
        &&& self.statement@.len() == other.statement@.len()
        &&& forall|at: int|
        0 <= at < self.statement@.len()
            ==> (#[trigger] self.statement@[at]).akin(&other.statement@[at])
    }

    /// The typed forms of a tree and of the same tree with other spans say the same
    /// but for their spans.
    pub proof fn lemma_moved_form(
        mine: Self,
        theirs: Self,
        pair: CstTree,
        other: CstTree,
        bytes: nat,
    )
        requires
            mine.models(pair),
            theirs.models(other),
            other.respans(pair, bytes),
        ensures
            mine.akin(&theirs),
    {
        lemma_all_respans(pair, other, Slot::Statement, bytes);
        {
            let ours = mine.statement@;
            let others = theirs.statement@;
            let pairs = pair.all(Slot::Statement);
            let moved = other.all(Slot::Statement);
            assert forall|at: int| 0 <= at < ours.len() implies (#[trigger] ours[at]).akin(
                &others[at]
            ) by {
                assert(ours[at].models(pairs[at]));
                assert(others[at].models(moved[at]));
                assert(moved[at].respans(pairs[at], bytes));
                StatementNode::lemma_moved_form(ours[at], others[at], pairs[at], moved[at], bytes);
            }
        }
    }
}

impl EffectStatementNode {
    /// True when the two nodes say the same but for their spans: the same texts,
    /// and parts that say the same but for their spans.
    pub open spec fn akin(&self, other: &Self) -> bool {
        &&& self.statement@.len() == other.statement@.len()
        &&& forall|at: int|
        0 <= at < self.statement@.len()
            ==> (#[trigger] self.statement@[at]).akin(&other.statement@[at])
    }

    /// The typed forms of a tree and of the same tree with other spans say the same
    /// but for their spans.
    pub proof fn lemma_moved_form(
        mine: Self,
        theirs: Self,
        pair: CstTree,
        other: CstTree,
        bytes: nat,
    )
        requires
            mine.models(pair),
            theirs.models(other),
            other.respans(pair, bytes),
        ensures
            mine.akin(&theirs),
    {
        lemma_all_respans(pair, other, Slot::Statement, bytes);
        {
            let ours = mine.statement@;
            let others = theirs.statement@;
            let pairs = pair.all(Slot::Statement);
            let moved = other.all(Slot::Statement);
            assert forall|at: int| 0 <= at < ours.len() implies (#[trigger] ours[at]).akin(
                &others[at]
            ) by {
                assert(ours[at].models(pairs[at]));
                assert(others[at].models(moved[at]));
                assert(moved[at].respans(pairs[at], bytes));
                StatementNode::lemma_moved_form(ours[at], others[at], pairs[at], moved[at], bytes);
            }
        }
    }
}

impl EventGroupNode {
    /// True when the two nodes say the same but for their spans: the same texts,
    /// and parts that say the same but for their spans.
    pub open spec fn akin(&self, other: &Self) -> bool {
        &&& self.event_statement@.len() == other.event_statement@.len()
        &&& forall|at: int|
        0 <= at < self.event_statement@.len()
            ==> (#[trigger] self.event_statement@[at]).akin(&other.event_statement@[at])
        &&& self.identifier.akin(&other.identifier)
    }

    /// The typed forms of a tree and of the same tree with other spans say the same
    /// but for their spans.
    pub proof fn lemma_moved_form(
        mine: Self,
        theirs: Self,
        pair: CstTree,
        other: CstTree,
        bytes: nat,
    )
        requires
            mine.models(pair),
            theirs.models(other),
            other.respans(pair, bytes),
        ensures
            mine.akin(&theirs),
    {
        lemma_all_respans(pair, other, Slot::EventStatement, bytes);
        {
            let ours = mine.event_statement@;
            let others = theirs.event_statement@;
            let pairs = pair.all(Slot::EventStatement);
            let moved = other.all(Slot::EventStatement);
            assert forall|at: int| 0 <= at < ours.len() implies (#[trigger] ours[at]).akin(
                &others[at]
            ) by {
                assert(ours[at].models(pairs[at]));
                assert(others[at].models(moved[at]));
                assert(moved[at].respans(pairs[at], bytes));
                EventStatementNode::lemma_moved_form(
                    ours[at],
                    others[at],
                    pairs[at],
                    moved[at],
                    bytes,
                );
            }
        }
        lemma_one_respans(pair, other, Slot::Identifier, bytes);
        IdentifierNode::lemma_moved_form(
            mine.identifier,
            theirs.identifier,
            pair.one(Slot::Identifier)->0,
            other.one(Slot::Identifier)->0,
            bytes,
        );
    }
}

impl EventStatementNode {
    /// True when the two nodes say the same but for their spans: the same texts,
    /// and parts that say the same but for their spans.
    pub open spec fn akin(&self, other: &Self) -> bool {
        &&& self.event_item@.len() == other.event_item@.len()
        &&& forall|at: int|
        0 <= at < self.event_item@.len()
            ==> (#[trigger] self.event_item@[at]).akin(&other.event_item@[at])
        &&& self.identifier.akin(&other.identifier)
    }

    /// The typed forms of a tree and of the same tree with other spans say the same
    /// but for their spans.
    pub proof fn lemma_moved_form(
        mine: Self,
        theirs: Self,
        pair: CstTree,
        other: CstTree,
        bytes: nat,
    )
        requires
            mine.models(pair),
            theirs.models(other),
            other.respans(pair, bytes),
        ensures
            mine.akin(&theirs),
    {
        lemma_all_respans(pair, other, Slot::EventItem, bytes);
        {
            let ours = mine.event_item@;
            let others = theirs.event_item@;
            let pairs = pair.all(Slot::EventItem);
            let moved = other.all(Slot::EventItem);
            assert forall|at: int| 0 <= at < ours.len() implies (#[trigger] ours[at]).akin(
                &others[at]
            ) by {
                assert(ours[at].models(pairs[at]));
                assert(others[at].models(moved[at]));
                assert(moved[at].respans(pairs[at], bytes));
                EventItemNode::lemma_moved_form(ours[at], others[at], pairs[at], moved[at], bytes);
            }
        }
        lemma_one_respans(pair, other, Slot::Identifier, bytes);
        IdentifierNode::lemma_moved_form(
            mine.identifier,
            theirs.identifier,
            pair.one(Slot::Identifier)->0,
            other.one(Slot::Identifier)->0,
            bytes,
        );
    }
}

impl EventItemNode {
    /// True when the two nodes say the same but for their spans: the same
    /// alternative, with parts that say the same but for their spans.
    pub open spec fn akin(&self, other: &Self) -> bool {
        match (*self, *other) {
            (Self::DescriptionStatement(mine), Self::DescriptionStatement(theirs)) => mine.akin(
                &theirs
            ),
            (Self::IdStatement(mine), Self::IdStatement(theirs)) => mine.akin(&theirs),
            (Self::OptionStatement(mine), Self::OptionStatement(theirs)) => mine.akin(&theirs),
            (Self::RequirementStatement(mine), Self::RequirementStatement(theirs)) => mine.akin(
                &theirs
            ),
            _ => false,
        }
    }

    /// The typed forms of a tree and of the same tree with other spans say the same
    /// but for their spans.
    pub proof fn lemma_moved_form(
        mine: Self,
        theirs: Self,
        pair: CstTree,
        other: CstTree,
        bytes: nat,
    )
        requires
            mine.models(pair),
            theirs.models(other),
            other.respans(pair, bytes),
        ensures
            mine.akin(&theirs),
    {
        lemma_one_respans(pair, other, Slot::DescriptionStatement, bytes);
        lemma_one_respans(pair, other, Slot::IdStatement, bytes);
        lemma_one_respans(pair, other, Slot::OptionStatement, bytes);
        lemma_one_respans(pair, other, Slot::RequirementStatement, bytes);
        match (mine, theirs) {
            (Self::DescriptionStatement(a), Self::DescriptionStatement(b)) => {
                DescriptionStatementNode::lemma_moved_form(
                    a,
                    b,
                    pair.one(Slot::DescriptionStatement)->0,
                    other.one(Slot::DescriptionStatement)->0,
                    bytes,
                );
            },
            (Self::IdStatement(a), Self::IdStatement(b)) => {
                IdStatementNode::lemma_moved_form(
                    a,
                    b,
                    pair.one(Slot::IdStatement)->0,
                    other.one(Slot::IdStatement)->0,
                    bytes,
                );
            },
            (Self::OptionStatement(a), Self::OptionStatement(b)) => {
                OptionStatementNode::lemma_moved_form(
                    a,
                    b,
                    pair.one(Slot::OptionStatement)->0,
                    other.one(Slot::OptionStatement)->0,
                    bytes,
                );
            },
            (Self::RequirementStatement(a), Self::RequirementStatement(b)) => {
                RequirementStatementNode::lemma_moved_form(
                    a,
                    b,
                    pair.one(Slot::RequirementStatement)->0,
                    other.one(Slot::RequirementStatement)->0,
                    bytes,
                );
            },
            _ => {},
        }
    }
}

impl EventPropertyNode {
    /// True when the two nodes say the same but for their spans: the same texts,
    /// and parts that say the same but for their spans.
    pub open spec fn akin(&self, other: &Self) -> bool {
        &&& self.identifier.akin(&other.identifier)
    }

    /// The typed forms of a tree and of the same tree with other spans say the same
    /// but for their spans.
    pub proof fn lemma_moved_form(
        mine: Self,
        theirs: Self,
        pair: CstTree,
        other: CstTree,
        bytes: nat,
    )
        requires
            mine.models(pair),
            theirs.models(other),
            other.respans(pair, bytes),
        ensures
            mine.akin(&theirs),
    {
        lemma_one_respans(pair, other, Slot::Identifier, bytes);
        IdentifierNode::lemma_moved_form(
            mine.identifier,
            theirs.identifier,
            pair.one(Slot::Identifier)->0,
            other.one(Slot::Identifier)->0,
            bytes,
        );
    }
}

impl IdStatementNode {
    /// True when the two nodes say the same but for their spans: the same texts,
    /// and parts that say the same but for their spans.
    pub open spec fn akin(&self, other: &Self) -> bool {
        &&& self.integer.akin(&other.integer)
    }

    /// The typed forms of a tree and of the same tree with other spans say the same
    /// but for their spans.
    pub proof fn lemma_moved_form(
        mine: Self,
        theirs: Self,
        pair: CstTree,
        other: CstTree,
        bytes: nat,
    )
        requires
            mine.models(pair),
            theirs.models(other),
            other.respans(pair, bytes),
        ensures
            mine.akin(&theirs),
    {
        lemma_one_respans(pair, other, Slot::Integer, bytes);
        IntegerNode::lemma_moved_form(
            mine.integer,
            theirs.integer,
            pair.one(Slot::Integer)->0,
            other.one(Slot::Integer)->0,
            bytes,
        );
    }
}

impl DescriptionStatementNode {
    /// True when the two nodes say the same but for their spans: the same texts,
    /// and parts that say the same but for their spans.
    pub open spec fn akin(&self, other: &Self) -> bool {
        &&& self.string@.len() == other.string@.len()
        &&& forall|at: int|
        0 <= at < self.string@.len() ==> (#[trigger] self.string@[at]).akin(&other.string@[at])
    }

    /// The typed forms of a tree and of the same tree with other spans say the same
    /// but for their spans.
    pub proof fn lemma_moved_form(
        mine: Self,
        theirs: Self,
        pair: CstTree,
        other: CstTree,
        bytes: nat,
    )
        requires
            mine.models(pair),
            theirs.models(other),
            other.respans(pair, bytes),
        ensures
            mine.akin(&theirs),
    {
        lemma_all_respans(pair, other, Slot::String, bytes);
        {
            let ours = mine.string@;
            let others = theirs.string@;
            let pairs = pair.all(Slot::String);
            let moved = other.all(Slot::String);
            assert forall|at: int| 0 <= at < ours.len() implies (#[trigger] ours[at]).akin(
                &others[at]
            ) by {
                assert(ours[at].models(pairs[at]));
                assert(others[at].models(moved[at]));
                assert(moved[at].respans(pairs[at], bytes));
                StringNode::lemma_moved_form(ours[at], others[at], pairs[at], moved[at], bytes);
            }
        }
    }
}

impl StatementNode {
    /// True when the two nodes say the same but for their spans: the same
    /// alternative, with parts that say the same but for their spans.
    pub open spec fn akin(&self, other: &Self) -> bool
        decreases self,
    {
        match (*self, *other) {
            (Self::Eos(mine), Self::Eos(theirs)) => mine.akin(&theirs),
            (Self::Expression(mine), Self::Expression(theirs)) => mine.akin(&theirs),
            (Self::IfStatement(mine), Self::IfStatement(theirs)) => mine.akin(&theirs),
            _ => false,
        }
    }

    /// The typed forms of a tree and of the same tree with other spans say the same
    /// but for their spans.
    pub proof fn lemma_moved_form(
        mine: Self,
        theirs: Self,
        pair: CstTree,
        other: CstTree,
        bytes: nat,
    )
        requires
            mine.models(pair),
            theirs.models(other),
            other.respans(pair, bytes),
        ensures
            mine.akin(&theirs),
        decreases mine,
    {
        lemma_one_respans(pair, other, Slot::Eos, bytes);
        lemma_one_respans(pair, other, Slot::Expression, bytes);
        lemma_one_respans(pair, other, Slot::IfStatement, bytes);
        match (mine, theirs) {
            (Self::Eos(a), Self::Eos(b)) => {
                EosNode::lemma_moved_form(
                    a,
                    b,
                    pair.one(Slot::Eos)->0,
                    other.one(Slot::Eos)->0,
                    bytes,
                );
            },
            (Self::Expression(a), Self::Expression(b)) => {
                ExpressionNode::lemma_moved_form(
                    a,
                    b,
                    pair.one(Slot::Expression)->0,
                    other.one(Slot::Expression)->0,
                    bytes,
                );
            },
            (Self::IfStatement(a), Self::IfStatement(b)) => {
                IfStatementNode::lemma_moved_form(
                    a,
                    b,
                    pair.one(Slot::IfStatement)->0,
                    other.one(Slot::IfStatement)->0,
                    bytes,
                );
            },
            _ => {},
        }
    }
}

impl IfStatementNode {
    /// True when the two nodes say the same but for their spans: the same texts,
    /// and parts that say the same but for their spans.
    pub open spec fn akin(&self, other: &Self) -> bool
        decreases self,
    {
        &&& match (self.if_else_block, other.if_else_block) {
            (Some(mine), Some(theirs)) => mine.akin(&theirs),
            (None, None) => true,
            _ => false,
        }
        &&& match (self.if_else_if_block, other.if_else_if_block) {
            (Some(mine), Some(theirs)) => mine.akin(&theirs),
            (None, None) => true,
            _ => false,
        }
        &&& self.if_then_block.akin(&other.if_then_block)
    }

    /// The typed forms of a tree and of the same tree with other spans say the same
    /// but for their spans.
    pub proof fn lemma_moved_form(
        mine: Self,
        theirs: Self,
        pair: CstTree,
        other: CstTree,
        bytes: nat,
    )
        requires
            mine.models(pair),
            theirs.models(other),
            other.respans(pair, bytes),
        ensures
            mine.akin(&theirs),
        decreases mine,
    {
        lemma_one_respans(pair, other, Slot::IfElseBlock, bytes);
        match (mine.if_else_block, theirs.if_else_block) {
            (Some(a), Some(b)) => {
                IfElseBlockNode::lemma_moved_form(
                    a,
                    b,
                    pair.one(Slot::IfElseBlock)->0,
                    other.one(Slot::IfElseBlock)->0,
                    bytes,
                );
            },
            _ => {},
        }
        lemma_one_respans(pair, other, Slot::IfElseIfBlock, bytes);
        match (mine.if_else_if_block, theirs.if_else_if_block) {
            (Some(a), Some(b)) => {
                IfElseIfBlockNode::lemma_moved_form(
                    a,
                    b,
                    pair.one(Slot::IfElseIfBlock)->0,
                    other.one(Slot::IfElseIfBlock)->0,
                    bytes,
                );
            },
            _ => {},
        }
        lemma_one_respans(pair, other, Slot::IfThenBlock, bytes);
        IfThenBlockNode::lemma_moved_form(
            mine.if_then_block,
            theirs.if_then_block,
            pair.one(Slot::IfThenBlock)->0,
            other.one(Slot::IfThenBlock)->0,
            bytes,
        );
    }
}

impl IfThenBlockNode {
    /// True when the two nodes say the same but for their spans: the same texts,
    /// and parts that say the same but for their spans.
    pub open spec fn akin(&self, other: &Self) -> bool
        decreases self,
    {
        &&& self.expression.akin(&other.expression)
        &&& self.statement@.len() == other.statement@.len()
        &&& forall|at: int|
        0 <= at < self.statement@.len()
            ==> (#[trigger] self.statement@[at]).akin(&other.statement@[at])
    }

    /// The typed forms of a tree and of the same tree with other spans say the same
    /// but for their spans.
    pub proof fn lemma_moved_form(
        mine: Self,
        theirs: Self,
        pair: CstTree,
        other: CstTree,
        bytes: nat,
    )
        requires
            mine.models(pair),
            theirs.models(other),
            other.respans(pair, bytes),
        ensures
            mine.akin(&theirs),
        decreases mine,
    {
        lemma_one_respans(pair, other, Slot::Expression, bytes);
        ExpressionNode::lemma_moved_form(
            mine.expression,
            theirs.expression,
            pair.one(Slot::Expression)->0,
            other.one(Slot::Expression)->0,
            bytes,
        );
        lemma_all_respans(pair, other, Slot::Statement, bytes);
        {
            let ours = mine.statement@;
            let others = theirs.statement@;
            let pairs = pair.all(Slot::Statement);
            let moved = other.all(Slot::Statement);
            assert forall|at: int| 0 <= at < ours.len() implies (#[trigger] ours[at]).akin(
                &others[at]
            ) by {
                assert(ours[at].models(pairs[at]));
                assert(others[at].models(moved[at]));
                assert(moved[at].respans(pairs[at], bytes));
                StatementNode::lemma_moved_form(ours[at], others[at], pairs[at], moved[at], bytes);
            }
        }
    }
}

impl IfElseIfBlockNode {
    /// True when the two nodes say the same but for their spans: the same texts,
    /// and parts that say the same but for their spans.
    pub open spec fn akin(&self, other: &Self) -> bool
        decreases self,
    {
        &&& self.expression.akin(&other.expression)
        &&& self.statement@.len() == other.statement@.len()
        &&& forall|at: int|
        0 <= at < self.statement@.len()
            ==> (#[trigger] self.statement@[at]).akin(&other.statement@[at])
    }

    /// The typed forms of a tree and of the same tree with other spans say the same
    /// but for their spans.
    pub proof fn lemma_moved_form(
        mine: Self,
        theirs: Self,
        pair: CstTree,
        other: CstTree,
        bytes: nat,
    )
        requires
            mine.models(pair),
            theirs.models(other),
            other.respans(pair, bytes),
        ensures
            mine.akin(&theirs),
        decreases mine,
    {
        lemma_one_respans(pair, other, Slot::Expression, bytes);
        ExpressionNode::lemma_moved_form(
            mine.expression,
            theirs.expression,
            pair.one(Slot::Expression)->0,
            other.one(Slot::Expression)->0,
            bytes,
        );
        lemma_all_respans(pair, other, Slot::Statement, bytes);
        {
            let ours = mine.statement@;
            let others = theirs.statement@;
            let pairs = pair.all(Slot::Statement);
            let moved = other.all(Slot::Statement);
            assert forall|at: int| 0 <= at < ours.len() implies (#[trigger] ours[at]).akin(
                &others[at]
            ) by {
                assert(ours[at].models(pairs[at]));
                assert(others[at].models(moved[at]));
                assert(moved[at].respans(pairs[at], bytes));
                StatementNode::lemma_moved_form(ours[at], others[at], pairs[at], moved[at], bytes);
            }
        }
    }
}

impl IfElseBlockNode {
    /// True when the two nodes say the same but for their spans: the same texts,
    /// and parts that say the same but for their spans.
    pub open spec fn akin(&self, other: &Self) -> bool
        decreases self,
    {
        &&& self.statement@.len() == other.statement@.len()
        &&& forall|at: int|
        0 <= at < self.statement@.len()
            ==> (#[trigger] self.statement@[at]).akin(&other.statement@[at])
    }

    /// The typed forms of a tree and of the same tree with other spans say the same
    /// but for their spans.
    pub proof fn lemma_moved_form(
        mine: Self,
        theirs: Self,
        pair: CstTree,
        other: CstTree,
        bytes: nat,
    )
        requires
            mine.models(pair),
            theirs.models(other),
            other.respans(pair, bytes),
        ensures
            mine.akin(&theirs),
        decreases mine,
    {
        lemma_all_respans(pair, other, Slot::Statement, bytes);
        {
            let ours = mine.statement@;
            let others = theirs.statement@;
            let pairs = pair.all(Slot::Statement);
            let moved = other.all(Slot::Statement);
            assert forall|at: int| 0 <= at < ours.len() implies (#[trigger] ours[at]).akin(
                &others[at]
            ) by {
                assert(ours[at].models(pairs[at]));
                assert(others[at].models(moved[at]));
                assert(moved[at].respans(pairs[at], bytes));
                StatementNode::lemma_moved_form(ours[at], others[at], pairs[at], moved[at], bytes);
            }
        }
    }
}

impl ExpressionNode {
    /// True when the two nodes say the same but for their spans: the same texts,
    /// and parts that say the same but for their spans.
    pub open spec fn akin(&self, other: &Self) -> bool {
        &&& self.infix@.len() == other.infix@.len()
        &&& forall|at: int|
        0 <= at < self.infix@.len() ==> (#[trigger] self.infix@[at]).akin(&other.infix@[at])
        &&& self.term@.len() == other.term@.len()
        &&& forall|at: int|
        0 <= at < self.term@.len() ==> (#[trigger] self.term@[at]).akin(&other.term@[at])
    }

    /// The typed forms of a tree and of the same tree with other spans say the same
    /// but for their spans.
    pub proof fn lemma_moved_form(
        mine: Self,
        theirs: Self,
        pair: CstTree,
        other: CstTree,
        bytes: nat,
    )
        requires
            mine.models(pair),
            theirs.models(other),
            other.respans(pair, bytes),
        ensures
            mine.akin(&theirs),
    {
        lemma_all_respans(pair, other, Slot::Infix, bytes);
        {
            let ours = mine.infix@;
            let others = theirs.infix@;
            let pairs = pair.all(Slot::Infix);
            let moved = other.all(Slot::Infix);
            assert forall|at: int| 0 <= at < ours.len() implies (#[trigger] ours[at]).akin(
                &others[at]
            ) by {
                assert(ours[at].models(pairs[at]));
                assert(others[at].models(moved[at]));
                assert(moved[at].respans(pairs[at], bytes));
                InfixNode::lemma_moved_form(ours[at], others[at], pairs[at], moved[at], bytes);
            }
        }
        lemma_all_respans(pair, other, Slot::Term, bytes);
        {
            let ours = mine.term@;
            let others = theirs.term@;
            let pairs = pair.all(Slot::Term);
            let moved = other.all(Slot::Term);
            assert forall|at: int| 0 <= at < ours.len() implies (#[trigger] ours[at]).akin(
                &others[at]
            ) by {
                assert(ours[at].models(pairs[at]));
                assert(others[at].models(moved[at]));
                assert(moved[at].respans(pairs[at], bytes));
                TermNode::lemma_moved_form(ours[at], others[at], pairs[at], moved[at], bytes);
            }
        }
    }
}

impl TermNode {
    /// True when the two nodes say the same but for their spans: the same texts,
    /// and parts that say the same but for their spans.
    pub open spec fn akin(&self, other: &Self) -> bool {
        &&& self.atomic.akin(&other.atomic)
        &&& self.prefix@.len() == other.prefix@.len()
        &&& forall|at: int|
        0 <= at < self.prefix@.len() ==> (#[trigger] self.prefix@[at]).akin(&other.prefix@[at])
        &&& self.suffix@.len() == other.suffix@.len()
        &&& forall|at: int|
        0 <= at < self.suffix@.len() ==> (#[trigger] self.suffix@[at]).akin(&other.suffix@[at])
    }

    /// The typed forms of a tree and of the same tree with other spans say the same
    /// but for their spans.
    pub proof fn lemma_moved_form(
        mine: Self,
        theirs: Self,
        pair: CstTree,
        other: CstTree,
        bytes: nat,
    )
        requires
            mine.models(pair),
            theirs.models(other),
            other.respans(pair, bytes),
        ensures
            mine.akin(&theirs),
    {
        lemma_one_respans(pair, other, Slot::Atomic, bytes);
        AtomicNode::lemma_moved_form(
            mine.atomic,
            theirs.atomic,
            pair.one(Slot::Atomic)->0,
            other.one(Slot::Atomic)->0,
            bytes,
        );
        lemma_all_respans(pair, other, Slot::Prefix, bytes);
        {
            let ours = mine.prefix@;
            let others = theirs.prefix@;
            let pairs = pair.all(Slot::Prefix);
            let moved = other.all(Slot::Prefix);
            assert forall|at: int| 0 <= at < ours.len() implies (#[trigger] ours[at]).akin(
                &others[at]
            ) by {
                assert(ours[at].models(pairs[at]));
                assert(others[at].models(moved[at]));
                assert(moved[at].respans(pairs[at], bytes));
                PrefixNode::lemma_moved_form(ours[at], others[at], pairs[at], moved[at], bytes);
            }
        }
        lemma_all_respans(pair, other, Slot::Suffix, bytes);
        {
            let ours = mine.suffix@;
            let others = theirs.suffix@;
            let pairs = pair.all(Slot::Suffix);
            let moved = other.all(Slot::Suffix);
            assert forall|at: int| 0 <= at < ours.len() implies (#[trigger] ours[at]).akin(
                &others[at]
            ) by {
                assert(ours[at].models(pairs[at]));
                assert(others[at].models(moved[at]));
                assert(moved[at].respans(pairs[at], bytes));
                SuffixNode::lemma_moved_form(ours[at], others[at], pairs[at], moved[at], bytes);
            }
        }
    }
}

impl PrefixNode {
    /// True when the two nodes are the same alternative.
    pub open spec fn akin(&self, other: &Self) -> bool {
        *self == *other
    }

    /// The typed forms of a tree and of the same tree with other spans say the same
    /// but for their spans.
    pub proof fn lemma_moved_form(
        mine: Self,
        theirs: Self,
        pair: CstTree,
        other: CstTree,
        bytes: nat,
    )
        requires
            mine.models(pair),
            theirs.models(other),
            other.respans(pair, bytes),
        ensures
            mine.akin(&theirs),
    {
        lemma_one_respans(pair, other, Slot::Prefix0, bytes);
    }
}

impl InfixNode {
    /// True when the two nodes are the same alternative.
    pub open spec fn akin(&self, other: &Self) -> bool {
        *self == *other
    }

    /// The typed forms of a tree and of the same tree with other spans say the same
    /// but for their spans.
    pub proof fn lemma_moved_form(
        mine: Self,
        theirs: Self,
        pair: CstTree,
        other: CstTree,
        bytes: nat,
    )
        requires
            mine.models(pair),
            theirs.models(other),
            other.respans(pair, bytes),
        ensures
            mine.akin(&theirs),
    {
        lemma_one_respans(pair, other, Slot::Add, bytes);
        lemma_one_respans(pair, other, Slot::AddAssign, bytes);
        lemma_one_respans(pair, other, Slot::And, bytes);
        lemma_one_respans(pair, other, Slot::Eq, bytes);
        lemma_one_respans(pair, other, Slot::Geq, bytes);
        lemma_one_respans(pair, other, Slot::Gt, bytes);
        lemma_one_respans(pair, other, Slot::Has, bytes);
        lemma_one_respans(pair, other, Slot::Leq, bytes);
        lemma_one_respans(pair, other, Slot::Lt, bytes);
        lemma_one_respans(pair, other, Slot::Ne, bytes);
        lemma_one_respans(pair, other, Slot::Or, bytes);
        lemma_one_respans(pair, other, Slot::Sub, bytes);
        lemma_one_respans(pair, other, Slot::SubAssign, bytes);
    }
}

impl SuffixNode {
    /// True when the two nodes are the same alternative.
    pub open spec fn akin(&self, other: &Self) -> bool {
        *self == *other
    }

    /// The typed forms of a tree and of the same tree with other spans say the same
    /// but for their spans.
    pub proof fn lemma_moved_form(
        mine: Self,
        theirs: Self,
        pair: CstTree,
        other: CstTree,
        bytes: nat,
    )
        requires
            mine.models(pair),
            theirs.models(other),
            other.respans(pair, bytes),
        ensures
            mine.akin(&theirs),
    {
        lemma_one_respans(pair, other, Slot::Suffix0, bytes);
    }
}

impl AtomicNode {
    /// True when the two nodes say the same but for their spans: the same
    /// alternative, with parts that say the same but for their spans.
    pub open spec fn akin(&self, other: &Self) -> bool
        decreases self,
    {
        match (*self, *other) {
            (Self::Boolean(mine), Self::Boolean(theirs)) => mine.akin(&theirs),
            (Self::Identifier(mine), Self::Identifier(theirs)) => mine.akin(&theirs),
            (Self::Integer(mine), Self::Integer(theirs)) => mine.akin(&theirs),
            (Self::List(mine), Self::List(theirs)) => mine.akin(&theirs),
            (Self::StringNormal(mine), Self::StringNormal(theirs)) => mine.akin(&theirs),
            (Self::StringRaw(mine), Self::StringRaw(theirs)) => mine.akin(&theirs),
            _ => false,
        }
    }

    /// The typed forms of a tree and of the same tree with other spans say the same
    /// but for their spans.
    pub proof fn lemma_moved_form(
        mine: Self,
        theirs: Self,
        pair: CstTree,
        other: CstTree,
        bytes: nat,
    )
        requires
            mine.models(pair),
            theirs.models(other),
            other.respans(pair, bytes),
        ensures
            mine.akin(&theirs),
        decreases mine,
    {
        lemma_one_respans(pair, other, Slot::Boolean, bytes);
        lemma_one_respans(pair, other, Slot::Identifier, bytes);
        lemma_one_respans(pair, other, Slot::Integer, bytes);
        lemma_one_respans(pair, other, Slot::List, bytes);
        lemma_one_respans(pair, other, Slot::StringNormal, bytes);
        lemma_one_respans(pair, other, Slot::StringRaw, bytes);
        match (mine, theirs) {
            (Self::Boolean(a), Self::Boolean(b)) => {
                BooleanNode::lemma_moved_form(
                    a,
                    b,
                    pair.one(Slot::Boolean)->0,
                    other.one(Slot::Boolean)->0,
                    bytes,
                );
            },
            (Self::Identifier(a), Self::Identifier(b)) => {
                IdentifierNode::lemma_moved_form(
                    a,
                    b,
                    pair.one(Slot::Identifier)->0,
                    other.one(Slot::Identifier)->0,
                    bytes,
                );
            },
            (Self::Integer(a), Self::Integer(b)) => {
                IntegerNode::lemma_moved_form(
                    a,
                    b,
                    pair.one(Slot::Integer)->0,
                    other.one(Slot::Integer)->0,
                    bytes,
                );
            },
            (Self::List(a), Self::List(b)) => {
                ListNode::lemma_moved_form(
                    a,
                    b,
                    pair.one(Slot::List)->0,
                    other.one(Slot::List)->0,
                    bytes,
                );
            },
            (Self::StringNormal(a), Self::StringNormal(b)) => {
                StringNormalNode::lemma_moved_form(
                    a,
                    b,
                    pair.one(Slot::StringNormal)->0,
                    other.one(Slot::StringNormal)->0,
                    bytes,
                );
            },
            (Self::StringRaw(a), Self::StringRaw(b)) => {
                StringRawNode::lemma_moved_form(
                    a,
                    b,
                    pair.one(Slot::StringRaw)->0,
                    other.one(Slot::StringRaw)->0,
                    bytes,
                );
            },
            _ => {},
        }
    }
}

impl ListNode {
    /// True when the two nodes say the same but for their spans: the same texts,
    /// and parts that say the same but for their spans.
    pub open spec fn akin(&self, other: &Self) -> bool
        decreases self,
    {
        &&& self.atomic@.len() == other.atomic@.len()
        &&& forall|at: int|
        0 <= at < self.atomic@.len() ==> (#[trigger] self.atomic@[at]).akin(&other.atomic@[at])
        &&& self.comma@.len() == other.comma@.len()
        &&& forall|at: int|
        0 <= at < self.comma@.len() ==> (#[trigger] self.comma@[at]).akin(&other.comma@[at])
    }

    /// The typed forms of a tree and of the same tree with other spans say the same
    /// but for their spans.
    pub proof fn lemma_moved_form(
        mine: Self,
        theirs: Self,
        pair: CstTree,
        other: CstTree,
        bytes: nat,
    )
        requires
            mine.models(pair),
            theirs.models(other),
            other.respans(pair, bytes),
        ensures
            mine.akin(&theirs),
        decreases mine,
    {
        lemma_all_respans(pair, other, Slot::Atomic, bytes);
        {
            let ours = mine.atomic@;
            let others = theirs.atomic@;
            let pairs = pair.all(Slot::Atomic);
            let moved = other.all(Slot::Atomic);
            assert forall|at: int| 0 <= at < ours.len() implies (#[trigger] ours[at]).akin(
                &others[at]
            ) by {
                assert(ours[at].models(pairs[at]));
                assert(others[at].models(moved[at]));
                assert(moved[at].respans(pairs[at], bytes));
                AtomicNode::lemma_moved_form(ours[at], others[at], pairs[at], moved[at], bytes);
            }
        }
        lemma_all_respans(pair, other, Slot::Comma, bytes);
        {
            let ours = mine.comma@;
            let others = theirs.comma@;
            let pairs = pair.all(Slot::Comma);
            let moved = other.all(Slot::Comma);
            assert forall|at: int| 0 <= at < ours.len() implies (#[trigger] ours[at]).akin(
                &others[at]
            ) by {
                assert(ours[at].models(pairs[at]));
                assert(others[at].models(moved[at]));
                assert(moved[at].respans(pairs[at], bytes));
                CommaNode::lemma_moved_form(ours[at], others[at], pairs[at], moved[at], bytes);
            }
        }
    }
}

impl StringNode {
    /// True when the two nodes say the same but for their spans: the same
    /// alternative, with parts that say the same but for their spans.
    pub open spec fn akin(&self, other: &Self) -> bool {
        match (*self, *other) {
            (Self::StringNormal(mine), Self::StringNormal(theirs)) => mine.akin(&theirs),
            (Self::StringRaw(mine), Self::StringRaw(theirs)) => mine.akin(&theirs),
            _ => false,
        }
    }

    /// The typed forms of a tree and of the same tree with other spans say the same
    /// but for their spans.
    pub proof fn lemma_moved_form(
        mine: Self,
        theirs: Self,
        pair: CstTree,
        other: CstTree,
        bytes: nat,
    )
        requires
            mine.models(pair),
            theirs.models(other),
            other.respans(pair, bytes),
        ensures
            mine.akin(&theirs),
    {
        lemma_one_respans(pair, other, Slot::StringNormal, bytes);
        lemma_one_respans(pair, other, Slot::StringRaw, bytes);
        match (mine, theirs) {
            (Self::StringNormal(a), Self::StringNormal(b)) => {
                StringNormalNode::lemma_moved_form(
                    a,
                    b,
                    pair.one(Slot::StringNormal)->0,
                    other.one(Slot::StringNormal)->0,
                    bytes,
                );
            },
            (Self::StringRaw(a), Self::StringRaw(b)) => {
                StringRawNode::lemma_moved_form(
                    a,
                    b,
                    pair.one(Slot::StringRaw)->0,
                    other.one(Slot::StringRaw)->0,
                    bytes,
                );
            },
            _ => {},
        }
    }
}

impl StringRawNode {
    /// True when the two nodes say the same but for their spans: the same texts,
    /// and parts that say the same but for their spans.
    pub open spec fn akin(&self, other: &Self) -> bool {
        &&& self.string_raw_text.akin(&other.string_raw_text)
    }

    /// The typed forms of a tree and of the same tree with other spans say the same
    /// but for their spans.
    pub proof fn lemma_moved_form(
        mine: Self,
        theirs: Self,
        pair: CstTree,
        other: CstTree,
        bytes: nat,
    )
        requires
            mine.models(pair),
            theirs.models(other),
            other.respans(pair, bytes),
        ensures
            mine.akin(&theirs),
    {
        lemma_one_respans(pair, other, Slot::StringRawText, bytes);
        StringRawTextNode::lemma_moved_form(
            mine.string_raw_text,
            theirs.string_raw_text,
            pair.one(Slot::StringRawText)->0,
            other.one(Slot::StringRawText)->0,
            bytes,
        );
    }
}

impl StringRawTextNode {
    /// True when the two nodes say the same but for their spans: the same texts,
    /// and parts that say the same but for their spans.
    pub open spec fn akin(&self, other: &Self) -> bool {
        &&& self.text@ == other.text@
    }

    /// The typed forms of a tree and of the same tree with other spans say the same
    /// but for their spans.
    pub proof fn lemma_moved_form(
        mine: Self,
        theirs: Self,
        pair: CstTree,
        other: CstTree,
        bytes: nat,
    )
        requires
            mine.models(pair),
            theirs.models(other),
            other.respans(pair, bytes),
        ensures
            mine.akin(&theirs),
    {
    }
}

impl StringNormalNode {
    /// True when the two nodes say the same but for their spans: the same texts,
    /// and parts that say the same but for their spans.
    pub open spec fn akin(&self, other: &Self) -> bool {
        &&& self.string_item@.len() == other.string_item@.len()
        &&& forall|at: int|
        0 <= at < self.string_item@.len()
            ==> (#[trigger] self.string_item@[at]).akin(&other.string_item@[at])
    }

    /// The typed forms of a tree and of the same tree with other spans say the same
    /// but for their spans.
    pub proof fn lemma_moved_form(
        mine: Self,
        theirs: Self,
        pair: CstTree,
        other: CstTree,
        bytes: nat,
    )
        requires
            mine.models(pair),
            theirs.models(other),
            other.respans(pair, bytes),
        ensures
            mine.akin(&theirs),
    {
        lemma_all_respans(pair, other, Slot::StringItem, bytes);
        {
            let ours = mine.string_item@;
            let others = theirs.string_item@;
            let pairs = pair.all(Slot::StringItem);
            let moved = other.all(Slot::StringItem);
            assert forall|at: int| 0 <= at < ours.len() implies (#[trigger] ours[at]).akin(
                &others[at]
            ) by {
                assert(ours[at].models(pairs[at]));
                assert(others[at].models(moved[at]));
                assert(moved[at].respans(pairs[at], bytes));
                StringItemNode::lemma_moved_form(ours[at], others[at], pairs[at], moved[at], bytes);
            }
        }
    }
}

impl StringItemNode {
    /// True when the two nodes say the same but for their spans: the same
    /// alternative, with parts that say the same but for their spans.
    pub open spec fn akin(&self, other: &Self) -> bool {
        match (*self, *other) {
            (Self::EscapedCharacter(mine), Self::EscapedCharacter(theirs)) => mine.akin(&theirs),
            (Self::EscapedUnicode(mine), Self::EscapedUnicode(theirs)) => mine.akin(&theirs),
            (Self::TextAny(mine), Self::TextAny(theirs)) => mine.akin(&theirs),
            _ => false,
        }
    }

    /// The typed forms of a tree and of the same tree with other spans say the same
    /// but for their spans.
    pub proof fn lemma_moved_form(
        mine: Self,
        theirs: Self,
        pair: CstTree,
        other: CstTree,
        bytes: nat,
    )
        requires
            mine.models(pair),
            theirs.models(other),
            other.respans(pair, bytes),
        ensures
            mine.akin(&theirs),
    {
        lemma_one_respans(pair, other, Slot::EscapedCharacter, bytes);
        lemma_one_respans(pair, other, Slot::EscapedUnicode, bytes);
        lemma_one_respans(pair, other, Slot::TextAny, bytes);
        match (mine, theirs) {
            (Self::EscapedCharacter(a), Self::EscapedCharacter(b)) => {
                EscapedCharacterNode::lemma_moved_form(
                    a,
                    b,
                    pair.one(Slot::EscapedCharacter)->0,
                    other.one(Slot::EscapedCharacter)->0,
                    bytes,
                );
            },
            (Self::EscapedUnicode(a), Self::EscapedUnicode(b)) => {
                EscapedUnicodeNode::lemma_moved_form(
                    a,
                    b,
                    pair.one(Slot::EscapedUnicode)->0,
                    other.one(Slot::EscapedUnicode)->0,
                    bytes,
                );
            },
            (Self::TextAny(a), Self::TextAny(b)) => {
                TextAnyNode::lemma_moved_form(
                    a,
                    b,
                    pair.one(Slot::TextAny)->0,
                    other.one(Slot::TextAny)->0,
                    bytes,
                );
            },
            _ => {},
        }
    }
}

impl EscapedUnicodeNode {
    /// True when the two nodes say the same but for their spans: the same texts,
    /// and parts that say the same but for their spans.
    pub open spec fn akin(&self, other: &Self) -> bool {
        &&& self.hex.akin(&other.hex)
    }

    /// The typed forms of a tree and of the same tree with other spans say the same
    /// but for their spans.
    pub proof fn lemma_moved_form(
        mine: Self,
        theirs: Self,
        pair: CstTree,
        other: CstTree,
        bytes: nat,
    )
        requires
            mine.models(pair),
            theirs.models(other),
            other.respans(pair, bytes),
        ensures
            mine.akin(&theirs),
    {
        lemma_one_respans(pair, other, Slot::Hex, bytes);
        HexNode::lemma_moved_form(
            mine.hex,
            theirs.hex,
            pair.one(Slot::Hex)->0,
            other.one(Slot::Hex)->0,
            bytes,
        );
    }
}

impl EscapedCharacterNode {
    /// True when the two nodes say the same but for their spans: the same texts,
    /// and parts that say the same but for their spans.
    pub open spec fn akin(&self, other: &Self) -> bool {
        &&& self.text@ == other.text@
    }

    /// The typed forms of a tree and of the same tree with other spans say the same
    /// but for their spans.
    pub proof fn lemma_moved_form(
        mine: Self,
        theirs: Self,
        pair: CstTree,
        other: CstTree,
        bytes: nat,
    )
        requires
            mine.models(pair),
            theirs.models(other),
            other.respans(pair, bytes),
        ensures
            mine.akin(&theirs),
    {
    }
}

impl HexNode {
    /// True when the two nodes say the same but for their spans: the same texts,
    /// and parts that say the same but for their spans.
    pub open spec fn akin(&self, other: &Self) -> bool {
        &&& self.text@ == other.text@
    }

    /// The typed forms of a tree and of the same tree with other spans say the same
    /// but for their spans.
    pub proof fn lemma_moved_form(
        mine: Self,
        theirs: Self,
        pair: CstTree,
        other: CstTree,
        bytes: nat,
    )
        requires
            mine.models(pair),
            theirs.models(other),
            other.respans(pair, bytes),
        ensures
            mine.akin(&theirs),
    {
    }
}

impl TextAnyNode {
    /// True when the two nodes say the same but for their spans: the same texts,
    /// and parts that say the same but for their spans.
    pub open spec fn akin(&self, other: &Self) -> bool {
        &&& self.text@ == other.text@
    }

    /// The typed forms of a tree and of the same tree with other spans say the same
    /// but for their spans.
    pub proof fn lemma_moved_form(
        mine: Self,
        theirs: Self,
        pair: CstTree,
        other: CstTree,
        bytes: nat,
    )
        requires
            mine.models(pair),
            theirs.models(other),
            other.respans(pair, bytes),
        ensures
            mine.akin(&theirs),
    {
    }
}

impl IdentifierNode {
    /// True when the two nodes say the same but for their spans: the same texts,
    /// and parts that say the same but for their spans.
    pub open spec fn akin(&self, other: &Self) -> bool {
        &&& self.text@ == other.text@
    }

    /// The typed forms of a tree and of the same tree with other spans say the same
    /// but for their spans.
    pub proof fn lemma_moved_form(
        mine: Self,
        theirs: Self,
        pair: CstTree,
        other: CstTree,
        bytes: nat,
    )
        requires
            mine.models(pair),
            theirs.models(other),
            other.respans(pair, bytes),
        ensures
            mine.akin(&theirs),
    {
    }
}

impl IntegerNode {
    /// True when the two nodes say the same but for their spans: the same texts,
    /// and parts that say the same but for their spans.
    pub open spec fn akin(&self, other: &Self) -> bool {
        &&& self.text@ == other.text@
    }

    /// The typed forms of a tree and of the same tree with other spans say the same
    /// but for their spans.
    pub proof fn lemma_moved_form(
        mine: Self,
        theirs: Self,
        pair: CstTree,
        other: CstTree,
        bytes: nat,
    )
        requires
            mine.models(pair),
            theirs.models(other),
            other.respans(pair, bytes),
        ensures
            mine.akin(&theirs),
    {
    }
}

impl BooleanNode {
    /// True when the two nodes are the same alternative.
    pub open spec fn akin(&self, other: &Self) -> bool {
        *self == *other
    }

    /// The typed forms of a tree and of the same tree with other spans say the same
    /// but for their spans.
    pub proof fn lemma_moved_form(
        mine: Self,
        theirs: Self,
        pair: CstTree,
        other: CstTree,
        bytes: nat,
    )
        requires
            mine.models(pair),
            theirs.models(other),
            other.respans(pair, bytes),
        ensures
            mine.akin(&theirs),
    {
        lemma_one_respans(pair, other, Slot::False, bytes);
        lemma_one_respans(pair, other, Slot::True, bytes);
    }
}

impl CommaNode {
    /// Two nodes of this type always say the same but for their spans.
    pub open spec fn akin(&self, other: &Self) -> bool {
        true
    }

    /// The typed forms of a tree and of the same tree with other spans say the same
    /// but for their spans.
    pub proof fn lemma_moved_form(
        mine: Self,
        theirs: Self,
        pair: CstTree,
        other: CstTree,
        bytes: nat,
    )
        requires
            mine.models(pair),
            theirs.models(other),
            other.respans(pair, bytes),
        ensures
            mine.akin(&theirs),
    {
    }
}

impl ColonNode {
    /// Two nodes of this type always say the same but for their spans.
    pub open spec fn akin(&self, other: &Self) -> bool {
        true
    }

    /// The typed forms of a tree and of the same tree with other spans say the same
    /// but for their spans.
    pub proof fn lemma_moved_form(
        mine: Self,
        theirs: Self,
        pair: CstTree,
        other: CstTree,
        bytes: nat,
    )
        requires
            mine.models(pair),
            theirs.models(other),
            other.respans(pair, bytes),
        ensures
            mine.akin(&theirs),
    {
    }
}

impl KwPropertyNode {
    /// Two nodes of this type always say the same but for their spans.
    pub open spec fn akin(&self, other: &Self) -> bool {
        true
    }

    /// The typed forms of a tree and of the same tree with other spans say the same
    /// but for their spans.
    pub proof fn lemma_moved_form(
        mine: Self,
        theirs: Self,
        pair: CstTree,
        other: CstTree,
        bytes: nat,
    )
        requires
            mine.models(pair),
            theirs.models(other),
            other.respans(pair, bytes),
        ensures
            mine.akin(&theirs),
    {
    }
}

impl KwTraitGroupNode {
    /// Two nodes of this type always say the same but for their spans.
    pub open spec fn akin(&self, other: &Self) -> bool {
        true
    }

    /// The typed forms of a tree and of the same tree with other spans say the same
    /// but for their spans.
    pub proof fn lemma_moved_form(
        mine: Self,
        theirs: Self,
        pair: CstTree,
        other: CstTree,
        bytes: nat,
    )
        requires
            mine.models(pair),
            theirs.models(other),
            other.respans(pair, bytes),
        ensures
            mine.akin(&theirs),
    {
    }
}

impl KwTraitNode {
    /// Two nodes of this type always say the same but for their spans.
    pub open spec fn akin(&self, other: &Self) -> bool {
        true
    }

    /// The typed forms of a tree and of the same tree with other spans say the same
    /// but for their spans.
    pub proof fn lemma_moved_form(
        mine: Self,
        theirs: Self,
        pair: CstTree,
        other: CstTree,
        bytes: nat,
    )
        requires
            mine.models(pair),
            theirs.models(other),
            other.respans(pair, bytes),
        ensures
            mine.akin(&theirs),
    {
    }
}

impl KwEventGroupNode {
    /// Two nodes of this type always say the same but for their spans.
    pub open spec fn akin(&self, other: &Self) -> bool {
        true
    }

    /// The typed forms of a tree and of the same tree with other spans say the same
    /// but for their spans.
    pub proof fn lemma_moved_form(
        mine: Self,
        theirs: Self,
        pair: CstTree,
        other: CstTree,
        bytes: nat,
    )
        requires
            mine.models(pair),
            theirs.models(other),
            other.respans(pair, bytes),
        ensures
            mine.akin(&theirs),
    {
    }
}

impl KwEventNode {
    /// Two nodes of this type always say the same but for their spans.
    pub open spec fn akin(&self, other: &Self) -> bool {
        true
    }

    /// The typed forms of a tree and of the same tree with other spans say the same
    /// but for their spans.
    pub proof fn lemma_moved_form(
        mine: Self,
        theirs: Self,
        pair: CstTree,
        other: CstTree,
        bytes: nat,
    )
        requires
            mine.models(pair),
            theirs.models(other),
            other.respans(pair, bytes),
        ensures
            mine.akin(&theirs),
    {
    }
}

impl KwIdNode {
    /// Two nodes of this type always say the same but for their spans.
    pub open spec fn akin(&self, other: &Self) -> bool {
        true
    }

    /// The typed forms of a tree and of the same tree with other spans say the same
    /// but for their spans.
    pub proof fn lemma_moved_form(
        mine: Self,
        theirs: Self,
        pair: CstTree,
        other: CstTree,
        bytes: nat,
    )
        requires
            mine.models(pair),
            theirs.models(other),
            other.respans(pair, bytes),
        ensures
            mine.akin(&theirs),
    {
    }
}

impl KwDescriptionNode {
    /// Two nodes of this type always say the same but for their spans.
    pub open spec fn akin(&self, other: &Self) -> bool {
        true
    }

    /// The typed forms of a tree and of the same tree with other spans say the same
    /// but for their spans.
    pub proof fn lemma_moved_form(
        mine: Self,
        theirs: Self,
        pair: CstTree,
        other: CstTree,
        bytes: nat,
    )
        requires
            mine.models(pair),
            theirs.models(other),
            other.respans(pair, bytes),
        ensures
            mine.akin(&theirs),
    {
    }
}

impl KwRequirementNode {
    /// Two nodes of this type always say the same but for their spans.
    pub open spec fn akin(&self, other: &Self) -> bool {
        true
    }

    /// The typed forms of a tree and of the same tree with other spans say the same
    /// but for their spans.
    pub proof fn lemma_moved_form(
        mine: Self,
        theirs: Self,
        pair: CstTree,
        other: CstTree,
        bytes: nat,
    )
        requires
            mine.models(pair),
            theirs.models(other),
            other.respans(pair, bytes),
        ensures
            mine.akin(&theirs),
    {
    }
}

impl KwEffectNode {
    /// Two nodes of this type always say the same but for their spans.
    pub open spec fn akin(&self, other: &Self) -> bool {
        true
    }

    /// The typed forms of a tree and of the same tree with other spans say the same
    /// but for their spans.
    pub proof fn lemma_moved_form(
        mine: Self,
        theirs: Self,
        pair: CstTree,
        other: CstTree,
        bytes: nat,
    )
        requires
            mine.models(pair),
            theirs.models(other),
            other.respans(pair, bytes),
        ensures
            mine.akin(&theirs),
    {
    }
}

impl KwEnumerateNode {
    /// Two nodes of this type always say the same but for their spans.
    pub open spec fn akin(&self, other: &Self) -> bool {
        true
    }

    /// The typed forms of a tree and of the same tree with other spans say the same
    /// but for their spans.
    pub proof fn lemma_moved_form(
        mine: Self,
        theirs: Self,
        pair: CstTree,
        other: CstTree,
        bytes: nat,
    )
        requires
            mine.models(pair),
            theirs.models(other),
            other.respans(pair, bytes),
        ensures
            mine.akin(&theirs),
    {
    }
}

impl KwOptionsNode {
    /// Two nodes of this type always say the same but for their spans.
    pub open spec fn akin(&self, other: &Self) -> bool {
        true
    }

    /// The typed forms of a tree and of the same tree with other spans say the same
    /// but for their spans.
    pub proof fn lemma_moved_form(
        mine: Self,
        theirs: Self,
        pair: CstTree,
        other: CstTree,
        bytes: nat,
    )
        requires
            mine.models(pair),
            theirs.models(other),
            other.respans(pair, bytes),
        ensures
            mine.akin(&theirs),
    {
    }
}

impl KwIfNode {
    /// Two nodes of this type always say the same but for their spans.
    pub open spec fn akin(&self, other: &Self) -> bool {
        true
    }

    /// The typed forms of a tree and of the same tree with other spans say the same
    /// but for their spans.
    pub proof fn lemma_moved_form(
        mine: Self,
        theirs: Self,
        pair: CstTree,
        other: CstTree,
        bytes: nat,
    )
        requires
            mine.models(pair),
            theirs.models(other),
            other.respans(pair, bytes),
        ensures
            mine.akin(&theirs),
    {
    }
}

impl KwElseIfNode {
    /// Two nodes of this type always say the same but for their spans.
    pub open spec fn akin(&self, other: &Self) -> bool {
        true
    }

    /// The typed forms of a tree and of the same tree with other spans say the same
    /// but for their spans.
    pub proof fn lemma_moved_form(
        mine: Self,
        theirs: Self,
        pair: CstTree,
        other: CstTree,
        bytes: nat,
    )
        requires
            mine.models(pair),
            theirs.models(other),
            other.respans(pair, bytes),
        ensures
            mine.akin(&theirs),
    {
    }
}

impl KwElseNode {
    /// Two nodes of this type always say the same but for their spans.
    pub open spec fn akin(&self, other: &Self) -> bool {
        true
    }

    /// The typed forms of a tree and of the same tree with other spans say the same
    /// but for their spans.
    pub proof fn lemma_moved_form(
        mine: Self,
        theirs: Self,
        pair: CstTree,
        other: CstTree,
        bytes: nat,
    )
        requires
            mine.models(pair),
            theirs.models(other),
            other.respans(pair, bytes),
        ensures
            mine.akin(&theirs),
    {
    }
}

impl WhiteSpaceNode {
    /// Two nodes of this type always say the same but for their spans.
    pub open spec fn akin(&self, other: &Self) -> bool {
        true
    }

    /// The typed forms of a tree and of the same tree with other spans say the same
    /// but for their spans.
    pub proof fn lemma_moved_form(
        mine: Self,
        theirs: Self,
        pair: CstTree,
        other: CstTree,
        bytes: nat,
    )
        requires
            mine.models(pair),
            theirs.models(other),
            other.respans(pair, bytes),
        ensures
            mine.akin(&theirs),
    {
    }
}

impl CommentNode {
    /// Two nodes of this type always say the same but for their spans.
    pub open spec fn akin(&self, other: &Self) -> bool {
        true
    }

    /// The typed forms of a tree and of the same tree with other spans say the same
    /// but for their spans.
    pub proof fn lemma_moved_form(
        mine: Self,
        theirs: Self,
        pair: CstTree,
        other: CstTree,
        bytes: nat,
    )
        requires
            mine.models(pair),
            theirs.models(other),
            other.respans(pair, bytes),
        ensures
            mine.akin(&theirs),
    {
    }
}

/// Trivia before a whole source changes only spans in its typed form, where
/// the gap is skipped together with the trivia at the start of the source,
/// as white space is: the typed form of the source behind the gap and that
/// of the source alone say the same but for their spans.
pub proof fn lemma_leading_trivia_changes_only_typed_spans(
    gap: Seq<char>,
    text: Seq<char>,
    alone: RootNode,
    behind: RootNode,
)
    requires
        is_blank(gap) || trivia_len(gap + text, 0) == gap.len() + trivia_len(text, 0),
        spec_parse_cst(text, LifeRestartRule::Root) matches Ok(tree) && alone.models(tree),
        spec_parse_cst(gap + text, LifeRestartRule::Root) matches Ok(tree) && behind.models(tree),
    ensures
        alone.akin(&behind),
{
    lemma_leading_trivia_parses_the_same(gap, text);
    let tree = spec_parse_cst(text, LifeRestartRule::Root)->Ok_0;
    let longer = spec_parse_cst(gap + text, LifeRestartRule::Root)->Ok_0;
    lemma_moved_children(tree, bytes_of(gap));
    RootNode::lemma_moved_form(alone, behind, tree, longer, bytes_of(gap));
}

} // verus!
