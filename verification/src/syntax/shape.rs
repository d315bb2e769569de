//! The shape that a concrete syntax tree has to have for its typed form to
//! exist.

use crate::syntax::cst::{first, CstTree};
use crate::syntax::cursor::{Cursor, Outcome};
use crate::syntax::rule::{LifeRestartRule, Slot};
use vstd::prelude::*;

verus! {

/// The rule as which the typed form of a node of `rule` reads a child that
/// fills `slot`, if it reads the child at all.
pub open spec fn child_rule(rule: LifeRestartRule, slot: Slot) -> Option<LifeRestartRule> {
    match (rule, slot) {
        (LifeRestartRule::Root, Slot::TopStatement) => Some(LifeRestartRule::TopStatement),
        (LifeRestartRule::TopStatement, Slot::Eos) => Some(LifeRestartRule::EOS),
        (LifeRestartRule::TopStatement, Slot::EventGroup) => Some(LifeRestartRule::EventGroup),
        (LifeRestartRule::TopStatement, Slot::EventStatement) => Some(
            LifeRestartRule::EventStatement
        ),
        (LifeRestartRule::TopStatement, Slot::PropertyStatement) => Some(
            LifeRestartRule::PropertyStatement
        ),
        (LifeRestartRule::TopStatement, Slot::TraitGroup) => Some(LifeRestartRule::TraitGroup),
        (LifeRestartRule::TopStatement, Slot::TraitStatement) => Some(
            LifeRestartRule::TraitStatement
        ),
        (LifeRestartRule::PropertyStatement, Slot::Identifier) => Some(LifeRestartRule::Identifier),
        (LifeRestartRule::PropertyStatement, Slot::PropertyItem) => Some(
            LifeRestartRule::PropertyItem
        ),
        (LifeRestartRule::PropertyItem, Slot::DescriptionStatement) => Some(
            LifeRestartRule::DescriptionStatement
        ),
        (LifeRestartRule::PropertyItem, Slot::EnumerateStatement) => Some(
            LifeRestartRule::EnumerateStatement
        ),
        (LifeRestartRule::PropertyItem, Slot::Eos) => Some(LifeRestartRule::EOS),
        (LifeRestartRule::PropertyItem, Slot::IdStatement) => Some(LifeRestartRule::IdStatement),
        (LifeRestartRule::PropertyItem, Slot::OptionStatement) => Some(
            LifeRestartRule::OptionStatement
        ),
        (LifeRestartRule::PropertyItem, Slot::RequirementStatement) => Some(
            LifeRestartRule::RequirementStatement
        ),
        (LifeRestartRule::EnumerateStatement, Slot::Variant) => Some(LifeRestartRule::Identifier),
        (LifeRestartRule::OptionStatement, Slot::OptionItem) => Some(LifeRestartRule::OptionItem),
        (LifeRestartRule::OptionItem, Slot::Variant) => Some(LifeRestartRule::Identifier),
        (LifeRestartRule::OptionItem, Slot::Weight) => Some(LifeRestartRule::Integer),
        (LifeRestartRule::TraitGroup, Slot::Identifier) => Some(LifeRestartRule::Identifier),
        (LifeRestartRule::TraitGroup, Slot::TraitStatement) => Some(
            LifeRestartRule::TraitStatement
        ),
        (LifeRestartRule::TraitStatement, Slot::Identifier) => Some(LifeRestartRule::Identifier),
        (LifeRestartRule::TraitStatement, Slot::TraitItem) => Some(LifeRestartRule::TraitItem),
        (LifeRestartRule::TraitItem, Slot::DescriptionStatement) => Some(
            LifeRestartRule::DescriptionStatement
        ),
        (LifeRestartRule::TraitItem, Slot::EffectStatement) => Some(
            LifeRestartRule::EffectStatement
        ),
        (LifeRestartRule::TraitItem, Slot::IdStatement) => Some(LifeRestartRule::IdStatement),
        (LifeRestartRule::TraitItem, Slot::RequirementStatement) => Some(
            LifeRestartRule::RequirementStatement
        ),
        (LifeRestartRule::TraitProperty, Slot::Atomic) => Some(LifeRestartRule::Atomic),
        (LifeRestartRule::TraitProperty, Slot::Identifier) => Some(LifeRestartRule::Identifier),
        (LifeRestartRule::RequirementStatement, Slot::Statement) => Some(
            LifeRestartRule::Statement
        ),
        (LifeRestartRule::EffectStatement, Slot::Statement) => Some(LifeRestartRule::Statement),
        (LifeRestartRule::EventGroup, Slot::EventStatement) => Some(
            LifeRestartRule::EventStatement
        ),
        (LifeRestartRule::EventGroup, Slot::Identifier) => Some(LifeRestartRule::Identifier),
        (LifeRestartRule::EventStatement, Slot::EventItem) => Some(LifeRestartRule::EventItem),
        (LifeRestartRule::EventStatement, Slot::Identifier) => Some(LifeRestartRule::Identifier),
        (LifeRestartRule::EventItem, Slot::DescriptionStatement) => Some(
            LifeRestartRule::DescriptionStatement
        ),
        (LifeRestartRule::EventItem, Slot::IdStatement) => Some(LifeRestartRule::IdStatement),
        (LifeRestartRule::EventItem, Slot::OptionStatement) => Some(
            LifeRestartRule::OptionStatement
        ),
        (LifeRestartRule::EventItem, Slot::RequirementStatement) => Some(
            LifeRestartRule::RequirementStatement
        ),
        (LifeRestartRule::EventProperty, Slot::Identifier) => Some(LifeRestartRule::Identifier),
        (LifeRestartRule::IdStatement, Slot::Integer) => Some(LifeRestartRule::Integer),
        (LifeRestartRule::DescriptionStatement, Slot::String) => Some(LifeRestartRule::String),
        (LifeRestartRule::Statement, Slot::Eos) => Some(LifeRestartRule::EOS),
        (LifeRestartRule::Statement, Slot::Expression) => Some(LifeRestartRule::Expression),
        (LifeRestartRule::Statement, Slot::IfStatement) => Some(LifeRestartRule::IfStatement),
        (LifeRestartRule::IfStatement, Slot::IfElseBlock) => Some(LifeRestartRule::IfElseBlock),
        (LifeRestartRule::IfStatement, Slot::IfElseIfBlock) => Some(LifeRestartRule::IfElseIfBlock),
        (LifeRestartRule::IfStatement, Slot::IfThenBlock) => Some(LifeRestartRule::IfThenBlock),
        (LifeRestartRule::IfThenBlock, Slot::Expression) => Some(LifeRestartRule::Expression),
        (LifeRestartRule::IfThenBlock, Slot::Statement) => Some(LifeRestartRule::Statement),
        (LifeRestartRule::IfElseIfBlock, Slot::Expression) => Some(LifeRestartRule::Expression),
        (LifeRestartRule::IfElseIfBlock, Slot::Statement) => Some(LifeRestartRule::Statement),
        (LifeRestartRule::IfElseBlock, Slot::Statement) => Some(LifeRestartRule::Statement),
        (LifeRestartRule::Expression, Slot::Infix) => Some(LifeRestartRule::Infix),
        (LifeRestartRule::Expression, Slot::Term) => Some(LifeRestartRule::Term),
        (LifeRestartRule::Term, Slot::Atomic) => Some(LifeRestartRule::Atomic),
        (LifeRestartRule::Term, Slot::Prefix) => Some(LifeRestartRule::Prefix),
        (LifeRestartRule::Term, Slot::Suffix) => Some(LifeRestartRule::Suffix),
        (LifeRestartRule::Atomic, Slot::Boolean) => Some(LifeRestartRule::Boolean),
        (LifeRestartRule::Atomic, Slot::Identifier) => Some(LifeRestartRule::Identifier),
        (LifeRestartRule::Atomic, Slot::Integer) => Some(LifeRestartRule::Integer),
        (LifeRestartRule::Atomic, Slot::List) => Some(LifeRestartRule::List),
        (LifeRestartRule::Atomic, Slot::StringNormal) => Some(LifeRestartRule::StringNormal),
        (LifeRestartRule::Atomic, Slot::StringRaw) => Some(LifeRestartRule::StringRaw),
        (LifeRestartRule::List, Slot::Atomic) => Some(LifeRestartRule::Atomic),
        (LifeRestartRule::List, Slot::Comma) => Some(LifeRestartRule::COMMA),
        (LifeRestartRule::String, Slot::StringNormal) => Some(LifeRestartRule::StringNormal),
        (LifeRestartRule::String, Slot::StringRaw) => Some(LifeRestartRule::StringRaw),
        (LifeRestartRule::StringRaw, Slot::StringRawText) => Some(LifeRestartRule::StringRawText),
        (LifeRestartRule::StringNormal, Slot::StringItem) => Some(LifeRestartRule::StringItem),
        (LifeRestartRule::StringItem, Slot::EscapedCharacter) => Some(
            LifeRestartRule::EscapedCharacter
        ),
        (LifeRestartRule::StringItem, Slot::EscapedUnicode) => Some(
            LifeRestartRule::EscapedUnicode
        ),
        (LifeRestartRule::StringItem, Slot::TextAny) => Some(LifeRestartRule::TextAny),
        (LifeRestartRule::EscapedUnicode, Slot::Hex) => Some(LifeRestartRule::HEX),
        _ => None,
    }
}

/// True when the children `kids` of a node of `rule` fill the slots that its
/// typed form cannot do without: every slot of a sequence that has to be
/// filled, and the slot of one alternative of a choice at least.
pub open spec fn filled(kids: Seq<CstTree>, rule: LifeRestartRule) -> bool {
    match rule {
        LifeRestartRule::TopStatement => first(kids, Slot::Eos, 0) is Some
            || first(kids, Slot::EventGroup, 0) is Some
            || first(kids, Slot::EventStatement, 0) is Some
            || first(kids, Slot::PropertyStatement, 0) is Some
            || first(kids, Slot::TraitGroup, 0) is Some
            || first(kids, Slot::TraitStatement, 0) is Some,
        LifeRestartRule::PropertyStatement => first(kids, Slot::Identifier, 0) is Some,
        LifeRestartRule::PropertyItem => first(kids, Slot::DescriptionStatement, 0) is Some
            || first(kids, Slot::EnumerateStatement, 0) is Some
            || first(kids, Slot::Eos, 0) is Some
            || first(kids, Slot::IdStatement, 0) is Some
            || first(kids, Slot::OptionStatement, 0) is Some
            || first(kids, Slot::RequirementStatement, 0) is Some,
        LifeRestartRule::OptionItem => first(kids, Slot::Variant, 0) is Some,
        LifeRestartRule::TraitGroup => first(kids, Slot::Identifier, 0) is Some,
        LifeRestartRule::TraitStatement => first(kids, Slot::Identifier, 0) is Some,
        LifeRestartRule::TraitItem => first(kids, Slot::DescriptionStatement, 0) is Some
            || first(kids, Slot::EffectStatement, 0) is Some
            || first(kids, Slot::IdStatement, 0) is Some
            || first(kids, Slot::RequirementStatement, 0) is Some,
        LifeRestartRule::TraitProperty => first(kids, Slot::Atomic, 0) is Some
            && first(kids, Slot::Identifier, 0) is Some,
        LifeRestartRule::EventGroup => first(kids, Slot::Identifier, 0) is Some,
        LifeRestartRule::EventStatement => first(kids, Slot::Identifier, 0) is Some,
        LifeRestartRule::EventItem => first(kids, Slot::DescriptionStatement, 0) is Some
            || first(kids, Slot::IdStatement, 0) is Some
            || first(kids, Slot::OptionStatement, 0) is Some
            || first(kids, Slot::RequirementStatement, 0) is Some,
        LifeRestartRule::EventProperty => first(kids, Slot::Identifier, 0) is Some,
        LifeRestartRule::IdStatement => first(kids, Slot::Integer, 0) is Some,
        LifeRestartRule::Statement => first(kids, Slot::Eos, 0) is Some
            || first(kids, Slot::Expression, 0) is Some
            || first(kids, Slot::IfStatement, 0) is Some,
        LifeRestartRule::IfStatement => first(kids, Slot::IfThenBlock, 0) is Some,
        LifeRestartRule::IfThenBlock => first(kids, Slot::Expression, 0) is Some,
        LifeRestartRule::IfElseIfBlock => first(kids, Slot::Expression, 0) is Some,
        LifeRestartRule::Term => first(kids, Slot::Atomic, 0) is Some,
        LifeRestartRule::Prefix => first(kids, Slot::Prefix0, 0) is Some,
        LifeRestartRule::Infix => first(kids, Slot::Add, 0) is Some
            || first(kids, Slot::AddAssign, 0) is Some
            || first(kids, Slot::And, 0) is Some
            || first(kids, Slot::Eq, 0) is Some
            || first(kids, Slot::Geq, 0) is Some
            || first(kids, Slot::Gt, 0) is Some
            || first(kids, Slot::Has, 0) is Some
            || first(kids, Slot::Leq, 0) is Some
            || first(kids, Slot::Lt, 0) is Some
            || first(kids, Slot::Ne, 0) is Some
            || first(kids, Slot::Or, 0) is Some
            || first(kids, Slot::Sub, 0) is Some
            || first(kids, Slot::SubAssign, 0) is Some,
        LifeRestartRule::Suffix => first(kids, Slot::Suffix0, 0) is Some,
        LifeRestartRule::Atomic => first(kids, Slot::Boolean, 0) is Some
            || first(kids, Slot::Identifier, 0) is Some
            || first(kids, Slot::Integer, 0) is Some
            || first(kids, Slot::List, 0) is Some
            || first(kids, Slot::StringNormal, 0) is Some
            || first(kids, Slot::StringRaw, 0) is Some,
        LifeRestartRule::String => first(kids, Slot::StringNormal, 0) is Some
            || first(kids, Slot::StringRaw, 0) is Some,
        LifeRestartRule::StringRaw => first(kids, Slot::StringRawText, 0) is Some,
        LifeRestartRule::StringItem => first(kids, Slot::EscapedCharacter, 0) is Some
            || first(kids, Slot::EscapedUnicode, 0) is Some
            || first(kids, Slot::TextAny, 0) is Some,
        LifeRestartRule::EscapedUnicode => first(kids, Slot::Hex, 0) is Some,
        LifeRestartRule::Boolean => first(kids, Slot::False, 0) is Some
            || first(kids, Slot::True, 0) is Some,
        _ => true,
    }
}



/// True when the tree `tree` has the shape of a node of `rule`: it fills
/// the slots that the typed form cannot do without, and every child that
/// the typed form reads has the shape of the rule it is read as.
pub open spec fn fits(tree: CstTree, rule: LifeRestartRule) -> bool
    decreases tree,
{
    &&& filled(tree.children, rule)
    &&& forall|at: int|
        0 <= at < tree.children.len() ==> match child_rule(
            rule,
            (#[trigger] tree.children[at]).slot,
        ) {
            Some(child) => fits(tree.children[at], child),
            None => true,
        }
}

/// True when the tree `child`, as a child of a node of `rule`, has the shape
/// of the rule it is read as, or is not read.
pub open spec fn fits_in(child: CstTree, rule: LifeRestartRule) -> bool {
    match child_rule(rule, child.slot) {
        Some(read_as) => fits(child, read_as),
        None => true,
    }
}

/// True when every tree of `kids`, as a child of a node of `rule`, has the
/// shape of the rule it is read as, or is not read.
pub open spec fn all_fit(kids: Seq<CstTree>, rule: LifeRestartRule) -> bool {
    forall|at: int| 0 <= at < kids.len() ==> fits_in(#[trigger] kids[at], rule)
}

/// A tree has the shape of a rule when it fills the slots that have to be
/// filled and all its children fit.
pub proof fn lemma_fits(tree: CstTree, rule: LifeRestartRule)
    ensures
        fits(tree, rule) <==> filled(tree.children, rule) && all_fit(tree.children, rule),
{
    if filled(tree.children, rule) && all_fit(tree.children, rule) {
        assert forall|at: int| 0 <= at < tree.children.len() implies match child_rule(
            rule,
            (#[trigger] tree.children[at]).slot,
        ) {
            Some(child) => fits(tree.children[at], child),
            None => true,
        } by {
            assert(fits_in(tree.children[at], rule));
        }
    }
    if fits(tree, rule) {
        assert forall|at: int| 0 <= at < tree.children.len() implies fits_in(
            #[trigger] tree.children[at],
            rule,
        ) by {
        }
    }
}

/// The shape of a tree does not depend on the slot it fills.
pub proof fn lemma_fits_tagged(tree: CstTree, slot: Slot, rule: LifeRestartRule)
    ensures
        fits(tree.tagged(slot), rule) == fits(tree, rule),
{
    lemma_fits(tree, rule);
    lemma_fits(tree.tagged(slot), rule);
}

/// A slot that is filled stays filled when more children follow.
pub proof fn lemma_first_stays(kids: Seq<CstTree>, more: Seq<CstTree>, slot: Slot, from: int)
    requires
        first(kids, slot, from) is Some,
    ensures
        first(kids + more, slot, from) == first(kids, slot, from),
    decreases kids.len() - from,
{
    if 0 <= from < kids.len() && kids[from].slot != slot {
        lemma_first_stays(kids, more, slot, from + 1);
    }
}

/// A slot is filled by a child at or after `from` where there is one.
pub proof fn lemma_first_found(kids: Seq<CstTree>, slot: Slot, from: int, at: int)
    requires
        0 <= from <= at < kids.len(),
        kids[at].slot == slot,
    ensures
        first(kids, slot, from) is Some,
    decreases at - from,
{
    if kids[from].slot != slot {
        lemma_first_found(kids, slot, from + 1, at);
    }
}

/// The first child that fills a slot is one of the children and fills the
/// slot.
pub proof fn lemma_first_is_child(kids: Seq<CstTree>, slot: Slot, from: int) -> (at: int)
    requires
        first(kids, slot, from) is Some,
    ensures
        from <= at < kids.len(),
        0 <= at,
        kids[at] == first(kids, slot, from)->0,
        kids[at].slot == slot,
    decreases kids.len() - from,
{
    if kids[from].slot == slot {
        from
    } else {
        lemma_first_is_child(kids, slot, from + 1)
    }
}

/// True when every slot that `before` fills is filled by `after` too.
pub open spec fn keeps(before: Seq<CstTree>, after: Seq<CstTree>) -> bool {
    forall|slot: Slot|
        first(before, slot, 0) is Some ==> (#[trigger] first(after, slot, 0)) is Some
}

/// Attaching a node that has the shape it is read as keeps the children
/// fit, keeps every slot filled that was, and fills the slot of the node.
pub proof fn lemma_attach_fits(c: Cursor, found: Outcome, slot: Slot, rule: LifeRestartRule)
    requires
        all_fit(c.kids, rule),
        found.tree matches Some(tree) ==> match child_rule(rule, slot) {
            Some(read_as) => fits(tree, read_as),
            None => true,
        },
    ensures
        all_fit(c.attach(found, slot).kids, rule),
        keeps(c.kids, c.attach(found, slot).kids),
        c.ok && found.tree is Some ==> first(c.attach(found, slot).kids, slot, 0) is Some,
{
    let after = c.attach(found, slot).kids;
    if c.ok && found.tree is Some {
        let tree = found.tree->0;
        match child_rule(rule, slot) {
            Some(read_as) => {
                lemma_fits_tagged(tree, slot, read_as);
            },
            None => {},
        }
        assert(after =~= c.kids + seq![tree.tagged(slot)]);
        lemma_first_found(after, slot, 0, after.len() - 1);
        assert forall|other: Slot| first(c.kids, other, 0) is Some implies (#[trigger] first(
            after,
            other,
            0,
        )) is Some by {
            lemma_first_stays(c.kids, seq![tree.tagged(slot)], other, 0);
        }
        assert forall|at: int| 0 <= at < after.len() implies fits_in(
            #[trigger] after[at],
            rule,
        ) by {
            if at < c.kids.len() {
                assert(fits_in(c.kids[at], rule));
            }
        }
    }
}

/// Children that fit, after children that fit, all fit; and every slot
/// that either list fills is filled by both together.
pub proof fn lemma_concat_fits(head: Seq<CstTree>, tail: Seq<CstTree>, rule: LifeRestartRule)
    requires
        all_fit(head, rule),
        all_fit(tail, rule),
    ensures
        all_fit(head + tail, rule),
        keeps(head, head + tail),
        keeps(tail, head + tail),
{
    let both = head + tail;
    assert forall|at: int| 0 <= at < both.len() implies fits_in(#[trigger] both[at], rule) by {
        if at < head.len() {
            assert(fits_in(head[at], rule));
        } else {
            assert(fits_in(tail[at - head.len()], rule));
        }
    }
    assert forall|slot: Slot| first(head, slot, 0) is Some implies (#[trigger] first(
        both,
        slot,
        0,
    )) is Some by {
        lemma_first_stays(head, tail, slot, 0);
    }
    assert forall|slot: Slot| first(tail, slot, 0) is Some implies (#[trigger] first(
        both,
        slot,
        0,
    )) is Some by {
        let at = lemma_first_is_child(tail, slot, 0);
        lemma_first_found(both, slot, 0, head.len() + at);
    }
}

} // verus!
