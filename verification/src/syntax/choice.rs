//! Ordered choice is decided by order alone: for every rule that is a
//! choice, the first alternative that matches wins.

use crate::syntax::cst::CstTree;
use crate::syntax::cursor::{Cursor, Outcome};
use crate::syntax::lexical::{spec_escaped_character, spec_identifier, spec_integer, spec_text_any};
use crate::syntax::parse_cst::{
    spec_atomic, spec_boolean, spec_description_plain, spec_description_round,
    spec_description_statement, spec_effect_statement, spec_enumerate_statement,
    spec_escaped_unicode, spec_event_group, spec_event_item, spec_event_statement,
    spec_expression, spec_id_statement, spec_if_statement, spec_infix, spec_list,
    spec_option_statement, spec_prefix, spec_property_item, spec_property_statement,
    spec_requirement_statement, spec_statement, spec_string, spec_string_item,
    spec_string_normal, spec_string_raw, spec_suffix, spec_top_statement, spec_trait_group,
    spec_trait_item, spec_trait_statement,
};
use crate::syntax::rule::{LifeRestartRule, Slot};
use crate::syntax::words::{
    spec_eos, spec_mark_add, spec_mark_add_assign, spec_mark_and, spec_mark_eq, spec_mark_false,
    spec_mark_geq, spec_mark_gt, spec_mark_has, spec_mark_leq, spec_mark_lt, spec_mark_ne,
    spec_mark_or, spec_mark_prefix_0, spec_mark_sub, spec_mark_sub_assign, spec_mark_suffix_0,
    spec_mark_true,
};
use vstd::prelude::*;

verus! {

/// True when none of the alternatives before the one at index `upto`
/// matches.
pub open spec fn earlier_fail(alternatives: Seq<Cursor>, upto: int) -> bool {
    forall|at: int| 0 <= at < upto ==> !(#[trigger] alternatives[at]).ok
}

/// True when `found`, the result of the rule `rule`, is a node that holds
/// what the alternative `alternative` matched and ends where it ended.
pub open spec fn chosen(found: Outcome, rule: LifeRestartRule, alternative: Cursor) -> bool {
    &&& found.end == alternative.pos
    &&& found.tree matches Some(tree)
    &&& tree.rule == rule
    &&& tree.children == alternative.kids
}

/// True when `found`, the result of the rule `rule`, is what an ordered
/// choice between `alternatives` gives: the first of them that matches is
/// chosen, and where none matches the rule fails.
pub open spec fn first_wins(
    found: Outcome,
    rule: LifeRestartRule,
    alternatives: Seq<Cursor>,
) -> bool {
    &&& forall|k: int|
        0 <= k < alternatives.len() && alternatives[k].ok && earlier_fail(alternatives, k)
            ==> chosen(found, rule, #[trigger] alternatives[k])
    &&& (forall|k: int| 0 <= k < alternatives.len() ==> !(#[trigger] alternatives[k]).ok)
        ==> found.tree is None
}

/// Ordered choice in the rule `TopStatement`: of its alternatives, tried in the
/// order of the grammar, the first that matches wins, whatever the alternatives
/// after it would match.
pub proof fn lemma_top_statement_first_wins(text: Seq<char>, at: int)
    requires
        0 <= at <= text.len(),
    ensures
        first_wins(
            spec_top_statement(text, at),
            LifeRestartRule::TopStatement,
            seq![
                Cursor::start(at).attach(
                    spec_property_statement(text, at),
                    Slot::PropertyStatement,
                ),
                Cursor::start(at).attach(spec_trait_group(text, at), Slot::TraitGroup),
                Cursor::start(at).attach(spec_trait_statement(text, at), Slot::TraitStatement),
                Cursor::start(at).attach(spec_event_group(text, at), Slot::EventGroup),
                Cursor::start(at).attach(spec_event_statement(text, at), Slot::EventStatement),
                Cursor::start(at).attach(spec_eos(text, at), Slot::Eos),
            ],
        ),
{
    reveal(spec_top_statement);
    let alternatives = seq![
        Cursor::start(at).attach(spec_property_statement(text, at), Slot::PropertyStatement),
        Cursor::start(at).attach(spec_trait_group(text, at), Slot::TraitGroup),
        Cursor::start(at).attach(spec_trait_statement(text, at), Slot::TraitStatement),
        Cursor::start(at).attach(spec_event_group(text, at), Slot::EventGroup),
        Cursor::start(at).attach(spec_event_statement(text, at), Slot::EventStatement),
        Cursor::start(at).attach(spec_eos(text, at), Slot::Eos),
    ];
    let found = spec_top_statement(text, at);
    assert forall|k: int| 0 <= k < alternatives.len()
        && alternatives[k].ok
        && earlier_fail(alternatives, k) implies chosen(
            found,
            LifeRestartRule::TopStatement,
            #[trigger] alternatives[k],
        ) by {
        if k == 0 {
            assert(Seq::<CstTree>::empty() + alternatives[0].kids =~= alternatives[0].kids);
        } else if k == 1 {
            assert(!alternatives[0].ok);
            assert(Seq::<CstTree>::empty() + alternatives[1].kids =~= alternatives[1].kids);
        } else if k == 2 {
            assert(!alternatives[0].ok);
            assert(!alternatives[1].ok);
            assert(Seq::<CstTree>::empty() + alternatives[2].kids =~= alternatives[2].kids);
        } else if k == 3 {
            assert(!alternatives[0].ok);
            assert(!alternatives[1].ok);
            assert(!alternatives[2].ok);
            assert(Seq::<CstTree>::empty() + alternatives[3].kids =~= alternatives[3].kids);
        } else if k == 4 {
            assert(!alternatives[0].ok);
            assert(!alternatives[1].ok);
            assert(!alternatives[2].ok);
            assert(!alternatives[3].ok);
            assert(Seq::<CstTree>::empty() + alternatives[4].kids =~= alternatives[4].kids);
        } else if k == 5 {
            assert(!alternatives[0].ok);
            assert(!alternatives[1].ok);
            assert(!alternatives[2].ok);
            assert(!alternatives[3].ok);
            assert(!alternatives[4].ok);
            assert(Seq::<CstTree>::empty() + alternatives[5].kids =~= alternatives[5].kids);
        }
    }
    if forall|k: int| 0 <= k < alternatives.len() ==> !(#[trigger] alternatives[k]).ok {
        assert(!alternatives[0].ok);
        assert(!alternatives[1].ok);
        assert(!alternatives[2].ok);
        assert(!alternatives[3].ok);
        assert(!alternatives[4].ok);
        assert(!alternatives[5].ok);
    }
}

/// Ordered choice in the rule `PropertyItem`: of its alternatives, tried in the
/// order of the grammar, the first that matches wins, whatever the alternatives
/// after it would match.
pub proof fn lemma_property_item_first_wins(text: Seq<char>, at: int)
    requires
        0 <= at <= text.len(),
    ensures
        first_wins(
            spec_property_item(text, at),
            LifeRestartRule::PropertyItem,
            seq![
                Cursor::start(at).attach(spec_id_statement(text, at), Slot::IdStatement),
                Cursor::start(at).attach(
                    spec_description_statement(text, at),
                    Slot::DescriptionStatement,
                ),
                Cursor::start(at).attach(
                    spec_requirement_statement(text, at),
                    Slot::RequirementStatement,
                ),
                Cursor::start(at).attach(
                    spec_enumerate_statement(text, at),
                    Slot::EnumerateStatement,
                ),
                Cursor::start(at).attach(spec_option_statement(text, at), Slot::OptionStatement),
                Cursor::start(at).attach(spec_eos(text, at), Slot::Eos),
            ],
        ),
{
    reveal(spec_property_item);
    let alternatives = seq![
        Cursor::start(at).attach(spec_id_statement(text, at), Slot::IdStatement),
        Cursor::start(at).attach(spec_description_statement(text, at), Slot::DescriptionStatement),
        Cursor::start(at).attach(spec_requirement_statement(text, at), Slot::RequirementStatement),
        Cursor::start(at).attach(spec_enumerate_statement(text, at), Slot::EnumerateStatement),
        Cursor::start(at).attach(spec_option_statement(text, at), Slot::OptionStatement),
        Cursor::start(at).attach(spec_eos(text, at), Slot::Eos),
    ];
    let found = spec_property_item(text, at);
    assert forall|k: int| 0 <= k < alternatives.len()
        && alternatives[k].ok
        && earlier_fail(alternatives, k) implies chosen(
            found,
            LifeRestartRule::PropertyItem,
            #[trigger] alternatives[k],
        ) by {
        if k == 0 {
            assert(Seq::<CstTree>::empty() + alternatives[0].kids =~= alternatives[0].kids);
        } else if k == 1 {
            assert(!alternatives[0].ok);
            assert(Seq::<CstTree>::empty() + alternatives[1].kids =~= alternatives[1].kids);
        } else if k == 2 {
            assert(!alternatives[0].ok);
            assert(!alternatives[1].ok);
            assert(Seq::<CstTree>::empty() + alternatives[2].kids =~= alternatives[2].kids);
        } else if k == 3 {
            assert(!alternatives[0].ok);
            assert(!alternatives[1].ok);
            assert(!alternatives[2].ok);
            assert(Seq::<CstTree>::empty() + alternatives[3].kids =~= alternatives[3].kids);
        } else if k == 4 {
            assert(!alternatives[0].ok);
            assert(!alternatives[1].ok);
            assert(!alternatives[2].ok);
            assert(!alternatives[3].ok);
            assert(Seq::<CstTree>::empty() + alternatives[4].kids =~= alternatives[4].kids);
        } else if k == 5 {
            assert(!alternatives[0].ok);
            assert(!alternatives[1].ok);
            assert(!alternatives[2].ok);
            assert(!alternatives[3].ok);
            assert(!alternatives[4].ok);
            assert(Seq::<CstTree>::empty() + alternatives[5].kids =~= alternatives[5].kids);
        }
    }
    if forall|k: int| 0 <= k < alternatives.len() ==> !(#[trigger] alternatives[k]).ok {
        assert(!alternatives[0].ok);
        assert(!alternatives[1].ok);
        assert(!alternatives[2].ok);
        assert(!alternatives[3].ok);
        assert(!alternatives[4].ok);
        assert(!alternatives[5].ok);
    }
}

/// Ordered choice in the rule `TraitItem`: of its alternatives, tried in the
/// order of the grammar, the first that matches wins, whatever the alternatives
/// after it would match.
pub proof fn lemma_trait_item_first_wins(text: Seq<char>, at: int)
    requires
        0 <= at <= text.len(),
    ensures
        first_wins(
            spec_trait_item(text, at),
            LifeRestartRule::TraitItem,
            seq![
                Cursor::start(at).attach(spec_id_statement(text, at), Slot::IdStatement),
                Cursor::start(at).attach(
                    spec_description_statement(text, at),
                    Slot::DescriptionStatement,
                ),
                Cursor::start(at).attach(
                    spec_requirement_statement(text, at),
                    Slot::RequirementStatement,
                ),
                Cursor::start(at).attach(spec_effect_statement(text, at), Slot::EffectStatement),
            ],
        ),
{
    reveal(spec_trait_item);
    let alternatives = seq![
        Cursor::start(at).attach(spec_id_statement(text, at), Slot::IdStatement),
        Cursor::start(at).attach(spec_description_statement(text, at), Slot::DescriptionStatement),
        Cursor::start(at).attach(spec_requirement_statement(text, at), Slot::RequirementStatement),
        Cursor::start(at).attach(spec_effect_statement(text, at), Slot::EffectStatement),
    ];
    let found = spec_trait_item(text, at);
    assert forall|k: int| 0 <= k < alternatives.len()
        && alternatives[k].ok
        && earlier_fail(alternatives, k) implies chosen(
            found,
            LifeRestartRule::TraitItem,
            #[trigger] alternatives[k],
        ) by {
        if k == 0 {
            assert(Seq::<CstTree>::empty() + alternatives[0].kids =~= alternatives[0].kids);
        } else if k == 1 {
            assert(!alternatives[0].ok);
            assert(Seq::<CstTree>::empty() + alternatives[1].kids =~= alternatives[1].kids);
        } else if k == 2 {
            assert(!alternatives[0].ok);
            assert(!alternatives[1].ok);
            assert(Seq::<CstTree>::empty() + alternatives[2].kids =~= alternatives[2].kids);
        } else if k == 3 {
            assert(!alternatives[0].ok);
            assert(!alternatives[1].ok);
            assert(!alternatives[2].ok);
            assert(Seq::<CstTree>::empty() + alternatives[3].kids =~= alternatives[3].kids);
        }
    }
    if forall|k: int| 0 <= k < alternatives.len() ==> !(#[trigger] alternatives[k]).ok {
        assert(!alternatives[0].ok);
        assert(!alternatives[1].ok);
        assert(!alternatives[2].ok);
        assert(!alternatives[3].ok);
    }
}

/// Ordered choice in the rule `EventItem`: of its alternatives, tried in the
/// order of the grammar, the first that matches wins, whatever the alternatives
/// after it would match.
pub proof fn lemma_event_item_first_wins(text: Seq<char>, at: int)
    requires
        0 <= at <= text.len(),
    ensures
        first_wins(
            spec_event_item(text, at),
            LifeRestartRule::EventItem,
            seq![
                Cursor::start(at).attach(spec_id_statement(text, at), Slot::IdStatement),
                Cursor::start(at).attach(
                    spec_description_statement(text, at),
                    Slot::DescriptionStatement,
                ),
                Cursor::start(at).attach(
                    spec_requirement_statement(text, at),
                    Slot::RequirementStatement,
                ),
                Cursor::start(at).attach(spec_option_statement(text, at), Slot::OptionStatement),
            ],
        ),
{
    reveal(spec_event_item);
    let alternatives = seq![
        Cursor::start(at).attach(spec_id_statement(text, at), Slot::IdStatement),
        Cursor::start(at).attach(spec_description_statement(text, at), Slot::DescriptionStatement),
        Cursor::start(at).attach(spec_requirement_statement(text, at), Slot::RequirementStatement),
        Cursor::start(at).attach(spec_option_statement(text, at), Slot::OptionStatement),
    ];
    let found = spec_event_item(text, at);
    assert forall|k: int| 0 <= k < alternatives.len()
        && alternatives[k].ok
        && earlier_fail(alternatives, k) implies chosen(
            found,
            LifeRestartRule::EventItem,
            #[trigger] alternatives[k],
        ) by {
        if k == 0 {
            assert(Seq::<CstTree>::empty() + alternatives[0].kids =~= alternatives[0].kids);
        } else if k == 1 {
            assert(!alternatives[0].ok);
            assert(Seq::<CstTree>::empty() + alternatives[1].kids =~= alternatives[1].kids);
        } else if k == 2 {
            assert(!alternatives[0].ok);
            assert(!alternatives[1].ok);
            assert(Seq::<CstTree>::empty() + alternatives[2].kids =~= alternatives[2].kids);
        } else if k == 3 {
            assert(!alternatives[0].ok);
            assert(!alternatives[1].ok);
            assert(!alternatives[2].ok);
            assert(Seq::<CstTree>::empty() + alternatives[3].kids =~= alternatives[3].kids);
        }
    }
    if forall|k: int| 0 <= k < alternatives.len() ==> !(#[trigger] alternatives[k]).ok {
        assert(!alternatives[0].ok);
        assert(!alternatives[1].ok);
        assert(!alternatives[2].ok);
        assert(!alternatives[3].ok);
    }
}

/// Ordered choice in the rule `DescriptionStatement`: of its alternatives,
/// tried in the order of the grammar, the first that matches wins, whatever the
/// alternatives after it would match.
pub proof fn lemma_description_statement_first_wins(text: Seq<char>, at: int)
    requires
        0 <= at <= text.len(),
    ensures
        first_wins(
            spec_description_statement(text, at),
            LifeRestartRule::DescriptionStatement,
            seq![
                spec_description_plain(text, at),
                spec_description_round(text, at),
            ],
        ),
{
    reveal(spec_description_statement);
    let alternatives = seq![
        spec_description_plain(text, at),
        spec_description_round(text, at),
    ];
    let found = spec_description_statement(text, at);
    assert forall|k: int| 0 <= k < alternatives.len()
        && alternatives[k].ok
        && earlier_fail(alternatives, k) implies chosen(
            found,
            LifeRestartRule::DescriptionStatement,
            #[trigger] alternatives[k],
        ) by {
        if k == 0 {
            assert(Seq::<CstTree>::empty() + alternatives[0].kids =~= alternatives[0].kids);
        } else if k == 1 {
            assert(!alternatives[0].ok);
            assert(Seq::<CstTree>::empty() + alternatives[1].kids =~= alternatives[1].kids);
        }
    }
    if forall|k: int| 0 <= k < alternatives.len() ==> !(#[trigger] alternatives[k]).ok {
        assert(!alternatives[0].ok);
        assert(!alternatives[1].ok);
    }
}

/// Ordered choice in the rule `Statement`: of its alternatives, tried in the
/// order of the grammar, the first that matches wins, whatever the alternatives
/// after it would match.
pub proof fn lemma_statement_first_wins(text: Seq<char>, at: int)
    requires
        0 <= at <= text.len(),
    ensures
        first_wins(
            spec_statement(text, at),
            LifeRestartRule::Statement,
            seq![
                Cursor::start(at).attach(spec_if_statement(text, at), Slot::IfStatement),
                Cursor::start(at).attach(spec_expression(text, at), Slot::Expression),
                Cursor::start(at).attach(spec_eos(text, at), Slot::Eos),
            ],
        ),
{
    let alternatives = seq![
        Cursor::start(at).attach(spec_if_statement(text, at), Slot::IfStatement),
        Cursor::start(at).attach(spec_expression(text, at), Slot::Expression),
        Cursor::start(at).attach(spec_eos(text, at), Slot::Eos),
    ];
    let found = spec_statement(text, at);
    assert forall|k: int| 0 <= k < alternatives.len()
        && alternatives[k].ok
        && earlier_fail(alternatives, k) implies chosen(
            found,
            LifeRestartRule::Statement,
            #[trigger] alternatives[k],
        ) by {
        if k == 0 {
            assert(Seq::<CstTree>::empty() + alternatives[0].kids =~= alternatives[0].kids);
        } else if k == 1 {
            assert(!alternatives[0].ok);
            assert(Seq::<CstTree>::empty() + alternatives[1].kids =~= alternatives[1].kids);
        } else if k == 2 {
            assert(!alternatives[0].ok);
            assert(!alternatives[1].ok);
            assert(Seq::<CstTree>::empty() + alternatives[2].kids =~= alternatives[2].kids);
        }
    }
    if forall|k: int| 0 <= k < alternatives.len() ==> !(#[trigger] alternatives[k]).ok {
        assert(!alternatives[0].ok);
        assert(!alternatives[1].ok);
        assert(!alternatives[2].ok);
    }
}

/// Ordered choice in the rule `Prefix`: of its alternatives, tried in the order
/// of the grammar, the first that matches wins, whatever the alternatives after
/// it would match.
pub proof fn lemma_prefix_first_wins(text: Seq<char>, at: int)
    requires
        0 <= at <= text.len(),
    ensures
        first_wins(
            spec_prefix(text, at),
            LifeRestartRule::Prefix,
            seq![
                Cursor::start(at).attach(spec_mark_prefix_0(text, at), Slot::Prefix0),
            ],
        ),
{
    reveal(spec_prefix);
    let alternatives = seq![
        Cursor::start(at).attach(spec_mark_prefix_0(text, at), Slot::Prefix0),
    ];
    let found = spec_prefix(text, at);
    assert forall|k: int| 0 <= k < alternatives.len()
        && alternatives[k].ok
        && earlier_fail(alternatives, k) implies chosen(
            found,
            LifeRestartRule::Prefix,
            #[trigger] alternatives[k],
        ) by {
        if k == 0 {
            assert(Seq::<CstTree>::empty() + alternatives[0].kids =~= alternatives[0].kids);
        }
    }
    if forall|k: int| 0 <= k < alternatives.len() ==> !(#[trigger] alternatives[k]).ok {
        assert(!alternatives[0].ok);
    }
}

/// Ordered choice in the rule `Infix`: of its alternatives, tried in the order
/// of the grammar, the first that matches wins, whatever the alternatives after
/// it would match.
pub proof fn lemma_infix_first_wins(text: Seq<char>, at: int)
    requires
        0 <= at <= text.len(),
    ensures
        first_wins(
            spec_infix(text, at),
            LifeRestartRule::Infix,
            seq![
                Cursor::start(at).attach(spec_mark_geq(text, at), Slot::Geq),
                Cursor::start(at).attach(spec_mark_leq(text, at), Slot::Leq),
                Cursor::start(at).attach(spec_mark_ne(text, at), Slot::Ne),
                Cursor::start(at).attach(spec_mark_eq(text, at), Slot::Eq),
                Cursor::start(at).attach(spec_mark_gt(text, at), Slot::Gt),
                Cursor::start(at).attach(spec_mark_lt(text, at), Slot::Lt),
                Cursor::start(at).attach(spec_mark_and(text, at), Slot::And),
                Cursor::start(at).attach(spec_mark_or(text, at), Slot::Or),
                Cursor::start(at).attach(spec_mark_has(text, at), Slot::Has),
                Cursor::start(at).attach(spec_mark_add_assign(text, at), Slot::AddAssign),
                Cursor::start(at).attach(spec_mark_sub_assign(text, at), Slot::SubAssign),
                Cursor::start(at).attach(spec_mark_add(text, at), Slot::Add),
                Cursor::start(at).attach(spec_mark_sub(text, at), Slot::Sub),
            ],
        ),
{
    reveal(spec_infix);
    let alternatives = seq![
        Cursor::start(at).attach(spec_mark_geq(text, at), Slot::Geq),
        Cursor::start(at).attach(spec_mark_leq(text, at), Slot::Leq),
        Cursor::start(at).attach(spec_mark_ne(text, at), Slot::Ne),
        Cursor::start(at).attach(spec_mark_eq(text, at), Slot::Eq),
        Cursor::start(at).attach(spec_mark_gt(text, at), Slot::Gt),
        Cursor::start(at).attach(spec_mark_lt(text, at), Slot::Lt),
        Cursor::start(at).attach(spec_mark_and(text, at), Slot::And),
        Cursor::start(at).attach(spec_mark_or(text, at), Slot::Or),
        Cursor::start(at).attach(spec_mark_has(text, at), Slot::Has),
        Cursor::start(at).attach(spec_mark_add_assign(text, at), Slot::AddAssign),
        Cursor::start(at).attach(spec_mark_sub_assign(text, at), Slot::SubAssign),
        Cursor::start(at).attach(spec_mark_add(text, at), Slot::Add),
        Cursor::start(at).attach(spec_mark_sub(text, at), Slot::Sub),
    ];
    let found = spec_infix(text, at);
    assert forall|k: int| 0 <= k < alternatives.len()
        && alternatives[k].ok
        && earlier_fail(alternatives, k) implies chosen(
            found,
            LifeRestartRule::Infix,
            #[trigger] alternatives[k],
        ) by {
        if k == 0 {
            assert(Seq::<CstTree>::empty() + alternatives[0].kids =~= alternatives[0].kids);
        } else if k == 1 {
            assert(!alternatives[0].ok);
            assert(Seq::<CstTree>::empty() + alternatives[1].kids =~= alternatives[1].kids);
        } else if k == 2 {
            assert(!alternatives[0].ok);
            assert(!alternatives[1].ok);
            assert(Seq::<CstTree>::empty() + alternatives[2].kids =~= alternatives[2].kids);
        } else if k == 3 {
            assert(!alternatives[0].ok);
            assert(!alternatives[1].ok);
            assert(!alternatives[2].ok);
            assert(Seq::<CstTree>::empty() + alternatives[3].kids =~= alternatives[3].kids);
        } else if k == 4 {
            assert(!alternatives[0].ok);
            assert(!alternatives[1].ok);
            assert(!alternatives[2].ok);
            assert(!alternatives[3].ok);
            assert(Seq::<CstTree>::empty() + alternatives[4].kids =~= alternatives[4].kids);
        } else if k == 5 {
            assert(!alternatives[0].ok);
            assert(!alternatives[1].ok);
            assert(!alternatives[2].ok);
            assert(!alternatives[3].ok);
            assert(!alternatives[4].ok);
            assert(Seq::<CstTree>::empty() + alternatives[5].kids =~= alternatives[5].kids);
        } else if k == 6 {
            assert(!alternatives[0].ok);
            assert(!alternatives[1].ok);
            assert(!alternatives[2].ok);
            assert(!alternatives[3].ok);
            assert(!alternatives[4].ok);
            assert(!alternatives[5].ok);
            assert(Seq::<CstTree>::empty() + alternatives[6].kids =~= alternatives[6].kids);
        } else if k == 7 {
            assert(!alternatives[0].ok);
            assert(!alternatives[1].ok);
            assert(!alternatives[2].ok);
            assert(!alternatives[3].ok);
            assert(!alternatives[4].ok);
            assert(!alternatives[5].ok);
            assert(!alternatives[6].ok);
            assert(Seq::<CstTree>::empty() + alternatives[7].kids =~= alternatives[7].kids);
        } else if k == 8 {
            assert(!alternatives[0].ok);
            assert(!alternatives[1].ok);
            assert(!alternatives[2].ok);
            assert(!alternatives[3].ok);
            assert(!alternatives[4].ok);
            assert(!alternatives[5].ok);
            assert(!alternatives[6].ok);
            assert(!alternatives[7].ok);
            assert(Seq::<CstTree>::empty() + alternatives[8].kids =~= alternatives[8].kids);
        } else if k == 9 {
            assert(!alternatives[0].ok);
            assert(!alternatives[1].ok);
            assert(!alternatives[2].ok);
            assert(!alternatives[3].ok);
            assert(!alternatives[4].ok);
            assert(!alternatives[5].ok);
            assert(!alternatives[6].ok);
            assert(!alternatives[7].ok);
            assert(!alternatives[8].ok);
            assert(Seq::<CstTree>::empty() + alternatives[9].kids =~= alternatives[9].kids);
        } else if k == 10 {
            assert(!alternatives[0].ok);
            assert(!alternatives[1].ok);
            assert(!alternatives[2].ok);
            assert(!alternatives[3].ok);
            assert(!alternatives[4].ok);
            assert(!alternatives[5].ok);
            assert(!alternatives[6].ok);
            assert(!alternatives[7].ok);
            assert(!alternatives[8].ok);
            assert(!alternatives[9].ok);
            assert(Seq::<CstTree>::empty() + alternatives[10].kids =~= alternatives[10].kids);
        } else if k == 11 {
            assert(!alternatives[0].ok);
            assert(!alternatives[1].ok);
            assert(!alternatives[2].ok);
            assert(!alternatives[3].ok);
            assert(!alternatives[4].ok);
            assert(!alternatives[5].ok);
            assert(!alternatives[6].ok);
            assert(!alternatives[7].ok);
            assert(!alternatives[8].ok);
            assert(!alternatives[9].ok);
            assert(!alternatives[10].ok);
            assert(Seq::<CstTree>::empty() + alternatives[11].kids =~= alternatives[11].kids);
        } else if k == 12 {
            assert(!alternatives[0].ok);
            assert(!alternatives[1].ok);
            assert(!alternatives[2].ok);
            assert(!alternatives[3].ok);
            assert(!alternatives[4].ok);
            assert(!alternatives[5].ok);
            assert(!alternatives[6].ok);
            assert(!alternatives[7].ok);
            assert(!alternatives[8].ok);
            assert(!alternatives[9].ok);
            assert(!alternatives[10].ok);
            assert(!alternatives[11].ok);
            assert(Seq::<CstTree>::empty() + alternatives[12].kids =~= alternatives[12].kids);
        }
    }
    if forall|k: int| 0 <= k < alternatives.len() ==> !(#[trigger] alternatives[k]).ok {
        assert(!alternatives[0].ok);
        assert(!alternatives[1].ok);
        assert(!alternatives[2].ok);
        assert(!alternatives[3].ok);
        assert(!alternatives[4].ok);
        assert(!alternatives[5].ok);
        assert(!alternatives[6].ok);
        assert(!alternatives[7].ok);
        assert(!alternatives[8].ok);
        assert(!alternatives[9].ok);
        assert(!alternatives[10].ok);
        assert(!alternatives[11].ok);
        assert(!alternatives[12].ok);
    }
}

/// Ordered choice in the rule `Suffix`: of its alternatives, tried in the order
/// of the grammar, the first that matches wins, whatever the alternatives after
/// it would match.
pub proof fn lemma_suffix_first_wins(text: Seq<char>, at: int)
    requires
        0 <= at <= text.len(),
    ensures
        first_wins(
            spec_suffix(text, at),
            LifeRestartRule::Suffix,
            seq![
                Cursor::start(at).attach(spec_mark_suffix_0(text, at), Slot::Suffix0),
            ],
        ),
{
    reveal(spec_suffix);
    let alternatives = seq![
        Cursor::start(at).attach(spec_mark_suffix_0(text, at), Slot::Suffix0),
    ];
    let found = spec_suffix(text, at);
    assert forall|k: int| 0 <= k < alternatives.len()
        && alternatives[k].ok
        && earlier_fail(alternatives, k) implies chosen(
            found,
            LifeRestartRule::Suffix,
            #[trigger] alternatives[k],
        ) by {
        if k == 0 {
            assert(Seq::<CstTree>::empty() + alternatives[0].kids =~= alternatives[0].kids);
        }
    }
    if forall|k: int| 0 <= k < alternatives.len() ==> !(#[trigger] alternatives[k]).ok {
        assert(!alternatives[0].ok);
    }
}

/// Ordered choice in the rule `Atomic`: of its alternatives, tried in the order
/// of the grammar, the first that matches wins, whatever the alternatives after
/// it would match.
pub proof fn lemma_atomic_first_wins(text: Seq<char>, at: int)
    requires
        0 <= at <= text.len(),
    ensures
        first_wins(
            spec_atomic(text, at),
            LifeRestartRule::Atomic,
            seq![
                Cursor::start(at).attach(spec_boolean(text, at), Slot::Boolean),
                Cursor::start(at).attach(spec_identifier(text, at), Slot::Identifier),
                Cursor::start(at).attach(spec_integer(text, at), Slot::Integer),
                Cursor::start(at).attach(spec_list(text, at), Slot::List),
                Cursor::start(at).attach(spec_string_raw(text, at), Slot::StringRaw),
                Cursor::start(at).attach(spec_string_normal(text, at), Slot::StringNormal),
            ],
        ),
{
    let alternatives = seq![
        Cursor::start(at).attach(spec_boolean(text, at), Slot::Boolean),
        Cursor::start(at).attach(spec_identifier(text, at), Slot::Identifier),
        Cursor::start(at).attach(spec_integer(text, at), Slot::Integer),
        Cursor::start(at).attach(spec_list(text, at), Slot::List),
        Cursor::start(at).attach(spec_string_raw(text, at), Slot::StringRaw),
        Cursor::start(at).attach(spec_string_normal(text, at), Slot::StringNormal),
    ];
    let found = spec_atomic(text, at);
    assert forall|k: int| 0 <= k < alternatives.len()
        && alternatives[k].ok
        && earlier_fail(alternatives, k) implies chosen(
            found,
            LifeRestartRule::Atomic,
            #[trigger] alternatives[k],
        ) by {
        if k == 0 {
            assert(Seq::<CstTree>::empty() + alternatives[0].kids =~= alternatives[0].kids);
        } else if k == 1 {
            assert(!alternatives[0].ok);
            assert(Seq::<CstTree>::empty() + alternatives[1].kids =~= alternatives[1].kids);
        } else if k == 2 {
            assert(!alternatives[0].ok);
            assert(!alternatives[1].ok);
            assert(Seq::<CstTree>::empty() + alternatives[2].kids =~= alternatives[2].kids);
        } else if k == 3 {
            assert(!alternatives[0].ok);
            assert(!alternatives[1].ok);
            assert(!alternatives[2].ok);
            assert(Seq::<CstTree>::empty() + alternatives[3].kids =~= alternatives[3].kids);
        } else if k == 4 {
            assert(!alternatives[0].ok);
            assert(!alternatives[1].ok);
            assert(!alternatives[2].ok);
            assert(!alternatives[3].ok);
            assert(Seq::<CstTree>::empty() + alternatives[4].kids =~= alternatives[4].kids);
        } else if k == 5 {
            assert(!alternatives[0].ok);
            assert(!alternatives[1].ok);
            assert(!alternatives[2].ok);
            assert(!alternatives[3].ok);
            assert(!alternatives[4].ok);
            assert(Seq::<CstTree>::empty() + alternatives[5].kids =~= alternatives[5].kids);
        }
    }
    if forall|k: int| 0 <= k < alternatives.len() ==> !(#[trigger] alternatives[k]).ok {
        assert(!alternatives[0].ok);
        assert(!alternatives[1].ok);
        assert(!alternatives[2].ok);
        assert(!alternatives[3].ok);
        assert(!alternatives[4].ok);
        assert(!alternatives[5].ok);
    }
}

/// Ordered choice in the rule `String`: of its alternatives, tried in the order
/// of the grammar, the first that matches wins, whatever the alternatives after
/// it would match.
pub proof fn lemma_string_first_wins(text: Seq<char>, at: int)
    requires
        0 <= at <= text.len(),
    ensures
        first_wins(
            spec_string(text, at),
            LifeRestartRule::String,
            seq![
                Cursor::start(at).attach(spec_string_raw(text, at), Slot::StringRaw),
                Cursor::start(at).attach(spec_string_normal(text, at), Slot::StringNormal),
            ],
        ),
{
    reveal(spec_string);
    let alternatives = seq![
        Cursor::start(at).attach(spec_string_raw(text, at), Slot::StringRaw),
        Cursor::start(at).attach(spec_string_normal(text, at), Slot::StringNormal),
    ];
    let found = spec_string(text, at);
    assert forall|k: int| 0 <= k < alternatives.len()
        && alternatives[k].ok
        && earlier_fail(alternatives, k) implies chosen(
            found,
            LifeRestartRule::String,
            #[trigger] alternatives[k],
        ) by {
        if k == 0 {
            assert(Seq::<CstTree>::empty() + alternatives[0].kids =~= alternatives[0].kids);
        } else if k == 1 {
            assert(!alternatives[0].ok);
            assert(Seq::<CstTree>::empty() + alternatives[1].kids =~= alternatives[1].kids);
        }
    }
    if forall|k: int| 0 <= k < alternatives.len() ==> !(#[trigger] alternatives[k]).ok {
        assert(!alternatives[0].ok);
        assert(!alternatives[1].ok);
    }
}

/// Ordered choice in the rule `StringItem`: of its alternatives, tried in the
/// order of the grammar, the first that matches wins, whatever the alternatives
/// after it would match.
pub proof fn lemma_string_item_first_wins(text: Seq<char>, at: int)
    requires
        0 <= at <= text.len(),
    ensures
        first_wins(
            spec_string_item(text, at),
            LifeRestartRule::StringItem,
            seq![
                Cursor::start(at).attach(spec_escaped_unicode(text, at), Slot::EscapedUnicode),
                Cursor::start(at).attach(spec_escaped_character(text, at), Slot::EscapedCharacter),
                Cursor::start(at).attach(spec_text_any(text, at), Slot::TextAny),
            ],
        ),
{
    reveal(spec_string_item);
    let alternatives = seq![
        Cursor::start(at).attach(spec_escaped_unicode(text, at), Slot::EscapedUnicode),
        Cursor::start(at).attach(spec_escaped_character(text, at), Slot::EscapedCharacter),
        Cursor::start(at).attach(spec_text_any(text, at), Slot::TextAny),
    ];
    let found = spec_string_item(text, at);
    assert forall|k: int| 0 <= k < alternatives.len()
        && alternatives[k].ok
        && earlier_fail(alternatives, k) implies chosen(
            found,
            LifeRestartRule::StringItem,
            #[trigger] alternatives[k],
        ) by {
        if k == 0 {
            assert(Seq::<CstTree>::empty() + alternatives[0].kids =~= alternatives[0].kids);
        } else if k == 1 {
            assert(!alternatives[0].ok);
            assert(Seq::<CstTree>::empty() + alternatives[1].kids =~= alternatives[1].kids);
        } else if k == 2 {
            assert(!alternatives[0].ok);
            assert(!alternatives[1].ok);
            assert(Seq::<CstTree>::empty() + alternatives[2].kids =~= alternatives[2].kids);
        }
    }
    if forall|k: int| 0 <= k < alternatives.len() ==> !(#[trigger] alternatives[k]).ok {
        assert(!alternatives[0].ok);
        assert(!alternatives[1].ok);
        assert(!alternatives[2].ok);
    }
}

/// Ordered choice in the rule `Boolean`: of its alternatives, tried in the
/// order of the grammar, the first that matches wins, whatever the alternatives
/// after it would match.
pub proof fn lemma_boolean_first_wins(text: Seq<char>, at: int)
    requires
        0 <= at <= text.len(),
    ensures
        first_wins(
            spec_boolean(text, at),
            LifeRestartRule::Boolean,
            seq![
                Cursor::start(at).attach(spec_mark_true(text, at), Slot::True),
                Cursor::start(at).attach(spec_mark_false(text, at), Slot::False),
            ],
        ),
{
    reveal(spec_boolean);
    let alternatives = seq![
        Cursor::start(at).attach(spec_mark_true(text, at), Slot::True),
        Cursor::start(at).attach(spec_mark_false(text, at), Slot::False),
    ];
    let found = spec_boolean(text, at);
    assert forall|k: int| 0 <= k < alternatives.len()
        && alternatives[k].ok
        && earlier_fail(alternatives, k) implies chosen(
            found,
            LifeRestartRule::Boolean,
            #[trigger] alternatives[k],
        ) by {
        if k == 0 {
            assert(Seq::<CstTree>::empty() + alternatives[0].kids =~= alternatives[0].kids);
        } else if k == 1 {
            assert(!alternatives[0].ok);
            assert(Seq::<CstTree>::empty() + alternatives[1].kids =~= alternatives[1].kids);
        }
    }
    if forall|k: int| 0 <= k < alternatives.len() ==> !(#[trigger] alternatives[k]).ok {
        assert(!alternatives[0].ok);
        assert(!alternatives[1].ok);
    }
}

} // verus!
