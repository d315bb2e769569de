//! What the grammar matches can always be typed: every tree that a rule
//! builds has the shape that the typed form of the rule asks for.

use crate::syntax::cursor::{Cursor, Outcome};
use crate::syntax::lexical::{
    lemma_lexical_leaf, spec_escaped_character, spec_hex, spec_identifier, spec_integer,
    spec_string_raw_text, spec_text_any,
};
use crate::syntax::parse_cst::{
    spec_rule,
    spec_atomic, spec_boolean, spec_description_comma, spec_description_last_comma,
    spec_description_more, spec_description_plain, spec_description_rest,
    spec_description_round, spec_description_statement, spec_description_strings,
    spec_effect_statement, spec_effect_statement_item, spec_effect_statement_items,
    spec_enumerate_statement, spec_enumerate_statement_comma, spec_enumerate_statement_item,
    spec_enumerate_statement_items, spec_escaped_unicode, spec_event_group,
    spec_event_group_item, spec_event_group_items, spec_event_item, spec_event_property,
    spec_event_property_block, spec_event_property_braced, spec_event_property_entries,
    spec_event_property_entry, spec_event_property_suffix, spec_event_statement,
    spec_event_statement_item, spec_event_statement_items, spec_expression,
    spec_expression_more, spec_expression_rest, spec_id_statement, spec_if_else_block,
    spec_if_else_block_item, spec_if_else_block_items, spec_if_else_if_block,
    spec_if_else_if_block_item, spec_if_else_if_block_items, spec_if_statement,
    spec_if_statement_else, spec_if_statement_else_if, spec_if_then_block,
    spec_if_then_block_item, spec_if_then_block_items, spec_infix, spec_list, spec_list_comma,
    spec_list_item, spec_list_items, spec_option_item, spec_option_item_weight,
    spec_option_statement, spec_option_statement_comma, spec_option_statement_item,
    spec_option_statement_items, spec_prefix, spec_property_item, spec_property_statement,
    spec_property_statement_item, spec_property_statement_items, spec_requirement_statement,
    spec_requirement_statement_item, spec_requirement_statement_items, spec_root,
    spec_root_item, spec_root_items, spec_statement, spec_string, spec_string_item,
    spec_string_normal, spec_string_normal_item, spec_string_normal_items, spec_string_raw,
    spec_suffix, spec_term, spec_term_prefix, spec_term_prefixes, spec_term_suffix,
    spec_term_suffixes, spec_top_statement, spec_trait_group, spec_trait_group_item,
    spec_trait_group_items, spec_trait_item, spec_trait_property, spec_trait_statement,
    spec_trait_statement_item, spec_trait_statement_items,
};
use crate::syntax::rule::{LifeRestartRule, Slot};
use crate::syntax::shape::{all_fit, fits, keeps, lemma_attach_fits, lemma_concat_fits, lemma_fits};
use crate::syntax::words::{
    lemma_colon_leaf, lemma_comma_leaf, lemma_eos_leaf, lemma_kw_description_leaf,
    lemma_kw_effect_leaf, lemma_kw_else_if_leaf, lemma_kw_else_leaf, lemma_kw_enumerate_leaf,
    lemma_kw_event_group_leaf, lemma_kw_event_leaf, lemma_kw_id_leaf, lemma_kw_if_leaf,
    lemma_kw_options_leaf, lemma_kw_property_leaf, lemma_kw_requirement_leaf,
    lemma_kw_trait_group_leaf, lemma_kw_trait_leaf, spec_colon, spec_comma, spec_eos,
    spec_kw_description, spec_kw_effect, spec_kw_else, spec_kw_else_if, spec_kw_enumerate,
    spec_kw_event, spec_kw_event_group, spec_kw_id, spec_kw_if, spec_kw_options,
    spec_kw_property, spec_kw_requirement, spec_kw_trait, spec_kw_trait_group, spec_mark_add,
    spec_mark_add_assign, spec_mark_and, spec_mark_eq, spec_mark_false, spec_mark_geq,
    spec_mark_gt, spec_mark_has, spec_mark_leq, spec_mark_lt, spec_mark_ne, spec_mark_or,
    spec_mark_prefix_0, spec_mark_sub, spec_mark_sub_assign, spec_mark_suffix_0, spec_mark_true,
};
use vstd::prelude::*;

verus! {

/// Trying `~ TopStatement#top_statement` collects only children that fit a node
/// of `Root`.
pub proof fn lemma_root_item_fit(text: Seq<char>, at: int)
    ensures
        all_fit(spec_root_item(text, at).kids, LifeRestartRule::Root),
{
    reveal(spec_root_item);
    let c = Cursor::start(at);
    let c = c.trivia(text);
    lemma_top_statement_fits(text, c.pos);
    let found = spec_top_statement(text, c.pos);
    lemma_attach_fits(c, found, Slot::TopStatement, LifeRestartRule::Root);
    let c = c.attach(found, Slot::TopStatement);
}

/// Matching `(~ TopStatement#top_statement)*` adds only children that fit a
/// node of `Root`, and takes none away.
#[verifier::rlimit(30)]
pub proof fn lemma_root_items_fit(text: Seq<char>, from: Cursor)
    requires
        all_fit(from.kids, LifeRestartRule::Root),
    ensures
        all_fit(spec_root_items(text, from).kids, LifeRestartRule::Root),
        keeps(from.kids, spec_root_items(text, from).kids),
    decreases text.len() - from.pos,
{
    if from.ok {
        lemma_root_item_fit(text, from.pos);
        let step = spec_root_item(text, from.pos);
        if step.ok && from.pos < step.pos <= text.len() {
            lemma_concat_fits(from.kids, step.kids, LifeRestartRule::Root);
            lemma_root_items_fit(text, from.join(step));
        }
    }
}

/// What the rule `Root` matches has the shape of a node of `Root`.
#[verifier::rlimit(30)]
pub proof fn lemma_root_fits(text: Seq<char>, at: int)
    ensures
        spec_root(text, at).tree matches Some(tree) ==> fits(tree, LifeRestartRule::Root),
{
    reveal(spec_root);
    let c = Cursor::start(at);
    lemma_root_items_fit(text, c);
    let c = spec_root_items(text, c);
    let c = c.trivia(text);
    let c = c.end_of_input(text);
    match c.finish(text, LifeRestartRule::Root, at).tree {
        Some(tree) => {
            lemma_fits(tree, LifeRestartRule::Root);
        },
        None => {},
    }
}

/// What the rule `TopStatement` matches has the shape of a node of
/// `TopStatement`.
pub proof fn lemma_top_statement_fits(text: Seq<char>, at: int)
    ensures
        spec_top_statement(text, at).tree matches Some(tree)
            ==> fits(tree, LifeRestartRule::TopStatement),
{
    reveal(spec_top_statement);
    let c = Cursor::start(at);
    lemma_property_statement_fits(text, c.pos);
    let found = spec_property_statement(text, c.pos);
    lemma_attach_fits(
        Cursor::start(c.pos),
        found,
        Slot::PropertyStatement,
        LifeRestartRule::TopStatement,
    );
    lemma_concat_fits(
        c.kids,
        Cursor::start(c.pos).attach(found, Slot::PropertyStatement).kids,
        LifeRestartRule::TopStatement,
    );
    lemma_trait_group_fits(text, c.pos);
    let found = spec_trait_group(text, c.pos);
    lemma_attach_fits(Cursor::start(c.pos), found, Slot::TraitGroup, LifeRestartRule::TopStatement);
    lemma_concat_fits(
        c.kids,
        Cursor::start(c.pos).attach(found, Slot::TraitGroup).kids,
        LifeRestartRule::TopStatement,
    );
    lemma_trait_statement_fits(text, c.pos);
    let found = spec_trait_statement(text, c.pos);
    lemma_attach_fits(
        Cursor::start(c.pos),
        found,
        Slot::TraitStatement,
        LifeRestartRule::TopStatement,
    );
    lemma_concat_fits(
        c.kids,
        Cursor::start(c.pos).attach(found, Slot::TraitStatement).kids,
        LifeRestartRule::TopStatement,
    );
    lemma_event_group_fits(text, c.pos);
    let found = spec_event_group(text, c.pos);
    lemma_attach_fits(Cursor::start(c.pos), found, Slot::EventGroup, LifeRestartRule::TopStatement);
    lemma_concat_fits(
        c.kids,
        Cursor::start(c.pos).attach(found, Slot::EventGroup).kids,
        LifeRestartRule::TopStatement,
    );
    lemma_event_statement_fits(text, c.pos);
    let found = spec_event_statement(text, c.pos);
    lemma_attach_fits(
        Cursor::start(c.pos),
        found,
        Slot::EventStatement,
        LifeRestartRule::TopStatement,
    );
    lemma_concat_fits(
        c.kids,
        Cursor::start(c.pos).attach(found, Slot::EventStatement).kids,
        LifeRestartRule::TopStatement,
    );
    lemma_eos_leaf(text, c.pos);
    let found = spec_eos(text, c.pos);
    lemma_attach_fits(Cursor::start(c.pos), found, Slot::Eos, LifeRestartRule::TopStatement);
    lemma_concat_fits(
        c.kids,
        Cursor::start(c.pos).attach(found, Slot::Eos).kids,
        LifeRestartRule::TopStatement,
    );
    let c = if !c.ok {
        c
    } else {
        let alt = Cursor::start(c.pos).attach(
            spec_property_statement(text, c.pos),
            Slot::PropertyStatement,
        );
        if alt.ok {
            c.join(alt)
        } else {
            let c = c.note(alt.far);
            let alt = Cursor::start(c.pos).attach(spec_trait_group(text, c.pos), Slot::TraitGroup);
            if alt.ok {
                c.join(alt)
            } else {
                let c = c.note(alt.far);
                let alt = Cursor::start(c.pos).attach(
                    spec_trait_statement(text, c.pos),
                    Slot::TraitStatement,
                );
                if alt.ok {
                    c.join(alt)
                } else {
                    let c = c.note(alt.far);
                    let alt = Cursor::start(c.pos).attach(
                        spec_event_group(text, c.pos),
                        Slot::EventGroup,
                    );
                    if alt.ok {
                        c.join(alt)
                    } else {
                        let c = c.note(alt.far);
                        let alt = Cursor::start(c.pos).attach(
                            spec_event_statement(text, c.pos),
                            Slot::EventStatement,
                        );
                        if alt.ok {
                            c.join(alt)
                        } else {
                            let c = c.note(alt.far);
                            let alt = Cursor::start(c.pos).attach(spec_eos(text, c.pos), Slot::Eos);
                            if alt.ok {
                                c.join(alt)
                            } else {
                                c.note(alt.far).halt()
                            }
                        }
                    }
                }
            }
        }
    };
    match c.finish(text, LifeRestartRule::TopStatement, at).tree {
        Some(tree) => {
            lemma_fits(tree, LifeRestartRule::TopStatement);
        },
        None => {},
    }
}

/// Trying `~ PropertyItem#property_item` collects only children that fit a node
/// of `PropertyStatement`.
pub proof fn lemma_property_statement_item_fit(text: Seq<char>, at: int)
    ensures
        all_fit(spec_property_statement_item(text, at).kids, LifeRestartRule::PropertyStatement),
{
    reveal(spec_property_statement_item);
    let c = Cursor::start(at);
    let c = c.trivia(text);
    lemma_property_item_fits(text, c.pos);
    let found = spec_property_item(text, c.pos);
    lemma_attach_fits(c, found, Slot::PropertyItem, LifeRestartRule::PropertyStatement);
    let c = c.attach(found, Slot::PropertyItem);
}

/// Matching `(~ PropertyItem#property_item)*` adds only children that fit a
/// node of `PropertyStatement`, and takes none away.
#[verifier::rlimit(30)]
pub proof fn lemma_property_statement_items_fit(text: Seq<char>, from: Cursor)
    requires
        all_fit(from.kids, LifeRestartRule::PropertyStatement),
    ensures
        all_fit(spec_property_statement_items(text, from).kids, LifeRestartRule::PropertyStatement),
        keeps(from.kids, spec_property_statement_items(text, from).kids),
    decreases text.len() - from.pos,
{
    if from.ok {
        lemma_property_statement_item_fit(text, from.pos);
        let step = spec_property_statement_item(text, from.pos);
        if step.ok && from.pos < step.pos <= text.len() {
            lemma_concat_fits(from.kids, step.kids, LifeRestartRule::PropertyStatement);
            lemma_property_statement_items_fit(text, from.join(step));
        }
    }
}

/// What the rule `PropertyStatement` matches has the shape of a node of
/// `PropertyStatement`.
#[verifier::rlimit(30)]
pub proof fn lemma_property_statement_fits(text: Seq<char>, at: int)
    ensures
        spec_property_statement(text, at).tree matches Some(tree)
            ==> fits(tree, LifeRestartRule::PropertyStatement),
{
    reveal(spec_property_statement);
    let c = Cursor::start(at);
    lemma_kw_property_leaf(text, c.pos);
    let found = spec_kw_property(text, c.pos);
    let c = c.pass(found);
    let c = c.trivia(text);
    lemma_lexical_leaf(text, c.pos);
    let found = spec_identifier(text, c.pos);
    lemma_attach_fits(c, found, Slot::Identifier, LifeRestartRule::PropertyStatement);
    let c = c.attach(found, Slot::Identifier);
    let c = c.trivia(text);
    let c = c.word(text, "{"@);
    lemma_property_statement_items_fit(text, c);
    let c = spec_property_statement_items(text, c);
    let c = c.trivia(text);
    let c = c.word(text, "}"@);
    match c.finish(text, LifeRestartRule::PropertyStatement, at).tree {
        Some(tree) => {
            lemma_fits(tree, LifeRestartRule::PropertyStatement);
        },
        None => {},
    }
}

/// What the rule `PropertyItem` matches has the shape of a node of
/// `PropertyItem`.
pub proof fn lemma_property_item_fits(text: Seq<char>, at: int)
    ensures
        spec_property_item(text, at).tree matches Some(tree)
            ==> fits(tree, LifeRestartRule::PropertyItem),
{
    reveal(spec_property_item);
    let c = Cursor::start(at);
    lemma_id_statement_fits(text, c.pos);
    let found = spec_id_statement(text, c.pos);
    lemma_attach_fits(
        Cursor::start(c.pos),
        found,
        Slot::IdStatement,
        LifeRestartRule::PropertyItem,
    );
    lemma_concat_fits(
        c.kids,
        Cursor::start(c.pos).attach(found, Slot::IdStatement).kids,
        LifeRestartRule::PropertyItem,
    );
    lemma_description_statement_fits(text, c.pos);
    let found = spec_description_statement(text, c.pos);
    lemma_attach_fits(
        Cursor::start(c.pos),
        found,
        Slot::DescriptionStatement,
        LifeRestartRule::PropertyItem,
    );
    lemma_concat_fits(
        c.kids,
        Cursor::start(c.pos).attach(found, Slot::DescriptionStatement).kids,
        LifeRestartRule::PropertyItem,
    );
    lemma_requirement_statement_fits(text, c.pos);
    let found = spec_requirement_statement(text, c.pos);
    lemma_attach_fits(
        Cursor::start(c.pos),
        found,
        Slot::RequirementStatement,
        LifeRestartRule::PropertyItem,
    );
    lemma_concat_fits(
        c.kids,
        Cursor::start(c.pos).attach(found, Slot::RequirementStatement).kids,
        LifeRestartRule::PropertyItem,
    );
    lemma_enumerate_statement_fits(text, c.pos);
    let found = spec_enumerate_statement(text, c.pos);
    lemma_attach_fits(
        Cursor::start(c.pos),
        found,
        Slot::EnumerateStatement,
        LifeRestartRule::PropertyItem,
    );
    lemma_concat_fits(
        c.kids,
        Cursor::start(c.pos).attach(found, Slot::EnumerateStatement).kids,
        LifeRestartRule::PropertyItem,
    );
    lemma_option_statement_fits(text, c.pos);
    let found = spec_option_statement(text, c.pos);
    lemma_attach_fits(
        Cursor::start(c.pos),
        found,
        Slot::OptionStatement,
        LifeRestartRule::PropertyItem,
    );
    lemma_concat_fits(
        c.kids,
        Cursor::start(c.pos).attach(found, Slot::OptionStatement).kids,
        LifeRestartRule::PropertyItem,
    );
    lemma_eos_leaf(text, c.pos);
    let found = spec_eos(text, c.pos);
    lemma_attach_fits(Cursor::start(c.pos), found, Slot::Eos, LifeRestartRule::PropertyItem);
    lemma_concat_fits(
        c.kids,
        Cursor::start(c.pos).attach(found, Slot::Eos).kids,
        LifeRestartRule::PropertyItem,
    );
    let c = if !c.ok {
        c
    } else {
        let alt = Cursor::start(c.pos).attach(spec_id_statement(text, c.pos), Slot::IdStatement);
        if alt.ok {
            c.join(alt)
        } else {
            let c = c.note(alt.far);
            let alt = Cursor::start(c.pos).attach(
                spec_description_statement(text, c.pos),
                Slot::DescriptionStatement,
            );
            if alt.ok {
                c.join(alt)
            } else {
                let c = c.note(alt.far);
                let alt = Cursor::start(c.pos).attach(
                    spec_requirement_statement(text, c.pos),
                    Slot::RequirementStatement,
                );
                if alt.ok {
                    c.join(alt)
                } else {
                    let c = c.note(alt.far);
                    let alt = Cursor::start(c.pos).attach(
                        spec_enumerate_statement(text, c.pos),
                        Slot::EnumerateStatement,
                    );
                    if alt.ok {
                        c.join(alt)
                    } else {
                        let c = c.note(alt.far);
                        let alt = Cursor::start(c.pos).attach(
                            spec_option_statement(text, c.pos),
                            Slot::OptionStatement,
                        );
                        if alt.ok {
                            c.join(alt)
                        } else {
                            let c = c.note(alt.far);
                            let alt = Cursor::start(c.pos).attach(spec_eos(text, c.pos), Slot::Eos);
                            if alt.ok {
                                c.join(alt)
                            } else {
                                c.note(alt.far).halt()
                            }
                        }
                    }
                }
            }
        }
    };
    match c.finish(text, LifeRestartRule::PropertyItem, at).tree {
        Some(tree) => {
            lemma_fits(tree, LifeRestartRule::PropertyItem);
        },
        None => {},
    }
}

/// Trying `~ COMMA` collects only children that fit a node of
/// `EnumerateStatement`.
pub proof fn lemma_enumerate_statement_comma_fit(text: Seq<char>, at: int)
    ensures
        all_fit(spec_enumerate_statement_comma(text, at).kids, LifeRestartRule::EnumerateStatement),
{
    reveal(spec_enumerate_statement_comma);
    let c = Cursor::start(at);
    let c = c.trivia(text);
    lemma_comma_leaf(text, c.pos);
    let found = spec_comma(text, c.pos);
    let c = c.pass(found);
}

/// Trying `~ Identifier#variant (~ COMMA)?` collects only children that fit a
/// node of `EnumerateStatement`.
pub proof fn lemma_enumerate_statement_item_fit(text: Seq<char>, at: int)
    ensures
        all_fit(spec_enumerate_statement_item(text, at).kids, LifeRestartRule::EnumerateStatement),
{
    reveal(spec_enumerate_statement_item);
    let c = Cursor::start(at);
    let c = c.trivia(text);
    lemma_lexical_leaf(text, c.pos);
    let found = spec_identifier(text, c.pos);
    lemma_attach_fits(c, found, Slot::Variant, LifeRestartRule::EnumerateStatement);
    let c = c.attach(found, Slot::Variant);
    lemma_enumerate_statement_comma_fit(text, c.pos);
    let group = spec_enumerate_statement_comma(text, c.pos);
    lemma_concat_fits(c.kids, group.kids, LifeRestartRule::EnumerateStatement);
    let c = c.option(group);
}

/// Matching `(~ Identifier#variant (~ COMMA)?)*` adds only children that fit a
/// node of `EnumerateStatement`, and takes none away.
#[verifier::rlimit(30)]
pub proof fn lemma_enumerate_statement_items_fit(text: Seq<char>, from: Cursor)
    requires
        all_fit(from.kids, LifeRestartRule::EnumerateStatement),
    ensures
        all_fit(
            spec_enumerate_statement_items(text, from).kids,
            LifeRestartRule::EnumerateStatement,
        ),
        keeps(from.kids, spec_enumerate_statement_items(text, from).kids),
    decreases text.len() - from.pos,
{
    if from.ok {
        lemma_enumerate_statement_item_fit(text, from.pos);
        let step = spec_enumerate_statement_item(text, from.pos);
        if step.ok && from.pos < step.pos <= text.len() {
            lemma_concat_fits(from.kids, step.kids, LifeRestartRule::EnumerateStatement);
            lemma_enumerate_statement_items_fit(text, from.join(step));
        }
    }
}

/// What the rule `EnumerateStatement` matches has the shape of a node of
/// `EnumerateStatement`.
#[verifier::rlimit(30)]
pub proof fn lemma_enumerate_statement_fits(text: Seq<char>, at: int)
    ensures
        spec_enumerate_statement(text, at).tree matches Some(tree)
            ==> fits(tree, LifeRestartRule::EnumerateStatement),
{
    reveal(spec_enumerate_statement);
    let c = Cursor::start(at);
    lemma_kw_enumerate_leaf(text, c.pos);
    let found = spec_kw_enumerate(text, c.pos);
    let c = c.pass(found);
    let c = c.trivia(text);
    let c = c.word(text, "{"@);
    lemma_enumerate_statement_items_fit(text, c);
    let c = spec_enumerate_statement_items(text, c);
    let c = c.trivia(text);
    let c = c.word(text, "}"@);
    match c.finish(text, LifeRestartRule::EnumerateStatement, at).tree {
        Some(tree) => {
            lemma_fits(tree, LifeRestartRule::EnumerateStatement);
        },
        None => {},
    }
}

/// Trying `~ COMMA` collects only children that fit a node of
/// `OptionStatement`.
pub proof fn lemma_option_statement_comma_fit(text: Seq<char>, at: int)
    ensures
        all_fit(spec_option_statement_comma(text, at).kids, LifeRestartRule::OptionStatement),
{
    reveal(spec_option_statement_comma);
    let c = Cursor::start(at);
    let c = c.trivia(text);
    lemma_comma_leaf(text, c.pos);
    let found = spec_comma(text, c.pos);
    let c = c.pass(found);
}

/// Trying `~ OptionItem#option_item (~ COMMA)?` collects only children that fit
/// a node of `OptionStatement`.
pub proof fn lemma_option_statement_item_fit(text: Seq<char>, at: int)
    ensures
        all_fit(spec_option_statement_item(text, at).kids, LifeRestartRule::OptionStatement),
{
    reveal(spec_option_statement_item);
    let c = Cursor::start(at);
    let c = c.trivia(text);
    lemma_option_item_fits(text, c.pos);
    let found = spec_option_item(text, c.pos);
    lemma_attach_fits(c, found, Slot::OptionItem, LifeRestartRule::OptionStatement);
    let c = c.attach(found, Slot::OptionItem);
    lemma_option_statement_comma_fit(text, c.pos);
    let group = spec_option_statement_comma(text, c.pos);
    lemma_concat_fits(c.kids, group.kids, LifeRestartRule::OptionStatement);
    let c = c.option(group);
}

/// Matching `(~ OptionItem#option_item (~ COMMA)?)*` adds only children that
/// fit a node of `OptionStatement`, and takes none away.
#[verifier::rlimit(30)]
pub proof fn lemma_option_statement_items_fit(text: Seq<char>, from: Cursor)
    requires
        all_fit(from.kids, LifeRestartRule::OptionStatement),
    ensures
        all_fit(spec_option_statement_items(text, from).kids, LifeRestartRule::OptionStatement),
        keeps(from.kids, spec_option_statement_items(text, from).kids),
    decreases text.len() - from.pos,
{
    if from.ok {
        lemma_option_statement_item_fit(text, from.pos);
        let step = spec_option_statement_item(text, from.pos);
        if step.ok && from.pos < step.pos <= text.len() {
            lemma_concat_fits(from.kids, step.kids, LifeRestartRule::OptionStatement);
            lemma_option_statement_items_fit(text, from.join(step));
        }
    }
}

/// What the rule `OptionStatement` matches has the shape of a node of
/// `OptionStatement`.
#[verifier::rlimit(30)]
pub proof fn lemma_option_statement_fits(text: Seq<char>, at: int)
    ensures
        spec_option_statement(text, at).tree matches Some(tree)
            ==> fits(tree, LifeRestartRule::OptionStatement),
{
    reveal(spec_option_statement);
    let c = Cursor::start(at);
    lemma_kw_options_leaf(text, c.pos);
    let found = spec_kw_options(text, c.pos);
    let c = c.pass(found);
    let c = c.trivia(text);
    let c = c.word(text, "["@);
    lemma_option_statement_items_fit(text, c);
    let c = spec_option_statement_items(text, c);
    let c = c.trivia(text);
    let c = c.word(text, "]"@);
    match c.finish(text, LifeRestartRule::OptionStatement, at).tree {
        Some(tree) => {
            lemma_fits(tree, LifeRestartRule::OptionStatement);
        },
        None => {},
    }
}

/// Trying `~ COLON ~ Integer#weight` collects only children that fit a node of
/// `OptionItem`.
pub proof fn lemma_option_item_weight_fit(text: Seq<char>, at: int)
    ensures
        all_fit(spec_option_item_weight(text, at).kids, LifeRestartRule::OptionItem),
{
    reveal(spec_option_item_weight);
    let c = Cursor::start(at);
    let c = c.trivia(text);
    lemma_colon_leaf(text, c.pos);
    let found = spec_colon(text, c.pos);
    let c = c.pass(found);
    let c = c.trivia(text);
    lemma_lexical_leaf(text, c.pos);
    let found = spec_integer(text, c.pos);
    lemma_attach_fits(c, found, Slot::Weight, LifeRestartRule::OptionItem);
    let c = c.attach(found, Slot::Weight);
}

/// What the rule `OptionItem` matches has the shape of a node of `OptionItem`.
pub proof fn lemma_option_item_fits(text: Seq<char>, at: int)
    ensures
        spec_option_item(text, at).tree matches Some(tree)
            ==> fits(tree, LifeRestartRule::OptionItem),
{
    reveal(spec_option_item);
    let c = Cursor::start(at);
    lemma_lexical_leaf(text, c.pos);
    let found = spec_identifier(text, c.pos);
    lemma_attach_fits(c, found, Slot::Variant, LifeRestartRule::OptionItem);
    let c = c.attach(found, Slot::Variant);
    lemma_option_item_weight_fit(text, c.pos);
    let group = spec_option_item_weight(text, c.pos);
    lemma_concat_fits(c.kids, group.kids, LifeRestartRule::OptionItem);
    let c = c.option(group);
    match c.finish(text, LifeRestartRule::OptionItem, at).tree {
        Some(tree) => {
            lemma_fits(tree, LifeRestartRule::OptionItem);
        },
        None => {},
    }
}

/// Trying `~ TraitStatement#trait_statement` collects only children that fit a
/// node of `TraitGroup`.
pub proof fn lemma_trait_group_item_fit(text: Seq<char>, at: int)
    ensures
        all_fit(spec_trait_group_item(text, at).kids, LifeRestartRule::TraitGroup),
{
    reveal(spec_trait_group_item);
    let c = Cursor::start(at);
    let c = c.trivia(text);
    lemma_trait_statement_fits(text, c.pos);
    let found = spec_trait_statement(text, c.pos);
    lemma_attach_fits(c, found, Slot::TraitStatement, LifeRestartRule::TraitGroup);
    let c = c.attach(found, Slot::TraitStatement);
}

/// Matching `(~ TraitStatement#trait_statement)*` adds only children that fit a
/// node of `TraitGroup`, and takes none away.
#[verifier::rlimit(30)]
pub proof fn lemma_trait_group_items_fit(text: Seq<char>, from: Cursor)
    requires
        all_fit(from.kids, LifeRestartRule::TraitGroup),
    ensures
        all_fit(spec_trait_group_items(text, from).kids, LifeRestartRule::TraitGroup),
        keeps(from.kids, spec_trait_group_items(text, from).kids),
    decreases text.len() - from.pos,
{
    if from.ok {
        lemma_trait_group_item_fit(text, from.pos);
        let step = spec_trait_group_item(text, from.pos);
        if step.ok && from.pos < step.pos <= text.len() {
            lemma_concat_fits(from.kids, step.kids, LifeRestartRule::TraitGroup);
            lemma_trait_group_items_fit(text, from.join(step));
        }
    }
}

/// What the rule `TraitGroup` matches has the shape of a node of `TraitGroup`.
#[verifier::rlimit(30)]
pub proof fn lemma_trait_group_fits(text: Seq<char>, at: int)
    ensures
        spec_trait_group(text, at).tree matches Some(tree)
            ==> fits(tree, LifeRestartRule::TraitGroup),
{
    reveal(spec_trait_group);
    let c = Cursor::start(at);
    lemma_kw_trait_group_leaf(text, c.pos);
    let found = spec_kw_trait_group(text, c.pos);
    let c = c.pass(found);
    let c = c.trivia(text);
    lemma_lexical_leaf(text, c.pos);
    let found = spec_identifier(text, c.pos);
    lemma_attach_fits(c, found, Slot::Identifier, LifeRestartRule::TraitGroup);
    let c = c.attach(found, Slot::Identifier);
    let c = c.trivia(text);
    let c = c.word(text, "{"@);
    lemma_trait_group_items_fit(text, c);
    let c = spec_trait_group_items(text, c);
    let c = c.trivia(text);
    let c = c.word(text, "}"@);
    match c.finish(text, LifeRestartRule::TraitGroup, at).tree {
        Some(tree) => {
            lemma_fits(tree, LifeRestartRule::TraitGroup);
        },
        None => {},
    }
}

/// Trying `~ TraitItem#trait_item` collects only children that fit a node of
/// `TraitStatement`.
pub proof fn lemma_trait_statement_item_fit(text: Seq<char>, at: int)
    ensures
        all_fit(spec_trait_statement_item(text, at).kids, LifeRestartRule::TraitStatement),
{
    reveal(spec_trait_statement_item);
    let c = Cursor::start(at);
    let c = c.trivia(text);
    lemma_trait_item_fits(text, c.pos);
    let found = spec_trait_item(text, c.pos);
    lemma_attach_fits(c, found, Slot::TraitItem, LifeRestartRule::TraitStatement);
    let c = c.attach(found, Slot::TraitItem);
}

/// Matching `(~ TraitItem#trait_item)*` adds only children that fit a node of
/// `TraitStatement`, and takes none away.
#[verifier::rlimit(30)]
pub proof fn lemma_trait_statement_items_fit(text: Seq<char>, from: Cursor)
    requires
        all_fit(from.kids, LifeRestartRule::TraitStatement),
    ensures
        all_fit(spec_trait_statement_items(text, from).kids, LifeRestartRule::TraitStatement),
        keeps(from.kids, spec_trait_statement_items(text, from).kids),
    decreases text.len() - from.pos,
{
    if from.ok {
        lemma_trait_statement_item_fit(text, from.pos);
        let step = spec_trait_statement_item(text, from.pos);
        if step.ok && from.pos < step.pos <= text.len() {
            lemma_concat_fits(from.kids, step.kids, LifeRestartRule::TraitStatement);
            lemma_trait_statement_items_fit(text, from.join(step));
        }
    }
}

/// What the rule `TraitStatement` matches has the shape of a node of
/// `TraitStatement`.
#[verifier::rlimit(30)]
pub proof fn lemma_trait_statement_fits(text: Seq<char>, at: int)
    ensures
        spec_trait_statement(text, at).tree matches Some(tree)
            ==> fits(tree, LifeRestartRule::TraitStatement),
{
    reveal(spec_trait_statement);
    let c = Cursor::start(at);
    lemma_kw_trait_leaf(text, c.pos);
    let found = spec_kw_trait(text, c.pos);
    let c = c.pass(found);
    let c = c.trivia(text);
    lemma_lexical_leaf(text, c.pos);
    let found = spec_identifier(text, c.pos);
    lemma_attach_fits(c, found, Slot::Identifier, LifeRestartRule::TraitStatement);
    let c = c.attach(found, Slot::Identifier);
    let c = c.trivia(text);
    let c = c.word(text, "{"@);
    lemma_trait_statement_items_fit(text, c);
    let c = spec_trait_statement_items(text, c);
    let c = c.trivia(text);
    let c = c.word(text, "}"@);
    match c.finish(text, LifeRestartRule::TraitStatement, at).tree {
        Some(tree) => {
            lemma_fits(tree, LifeRestartRule::TraitStatement);
        },
        None => {},
    }
}

/// What the rule `TraitItem` matches has the shape of a node of `TraitItem`.
pub proof fn lemma_trait_item_fits(text: Seq<char>, at: int)
    ensures
        spec_trait_item(text, at).tree matches Some(tree)
            ==> fits(tree, LifeRestartRule::TraitItem),
{
    reveal(spec_trait_item);
    let c = Cursor::start(at);
    lemma_id_statement_fits(text, c.pos);
    let found = spec_id_statement(text, c.pos);
    lemma_attach_fits(Cursor::start(c.pos), found, Slot::IdStatement, LifeRestartRule::TraitItem);
    lemma_concat_fits(
        c.kids,
        Cursor::start(c.pos).attach(found, Slot::IdStatement).kids,
        LifeRestartRule::TraitItem,
    );
    lemma_description_statement_fits(text, c.pos);
    let found = spec_description_statement(text, c.pos);
    lemma_attach_fits(
        Cursor::start(c.pos),
        found,
        Slot::DescriptionStatement,
        LifeRestartRule::TraitItem,
    );
    lemma_concat_fits(
        c.kids,
        Cursor::start(c.pos).attach(found, Slot::DescriptionStatement).kids,
        LifeRestartRule::TraitItem,
    );
    lemma_requirement_statement_fits(text, c.pos);
    let found = spec_requirement_statement(text, c.pos);
    lemma_attach_fits(
        Cursor::start(c.pos),
        found,
        Slot::RequirementStatement,
        LifeRestartRule::TraitItem,
    );
    lemma_concat_fits(
        c.kids,
        Cursor::start(c.pos).attach(found, Slot::RequirementStatement).kids,
        LifeRestartRule::TraitItem,
    );
    lemma_effect_statement_fits(text, c.pos);
    let found = spec_effect_statement(text, c.pos);
    lemma_attach_fits(
        Cursor::start(c.pos),
        found,
        Slot::EffectStatement,
        LifeRestartRule::TraitItem,
    );
    lemma_concat_fits(
        c.kids,
        Cursor::start(c.pos).attach(found, Slot::EffectStatement).kids,
        LifeRestartRule::TraitItem,
    );
    let c = if !c.ok {
        c
    } else {
        let alt = Cursor::start(c.pos).attach(spec_id_statement(text, c.pos), Slot::IdStatement);
        if alt.ok {
            c.join(alt)
        } else {
            let c = c.note(alt.far);
            let alt = Cursor::start(c.pos).attach(
                spec_description_statement(text, c.pos),
                Slot::DescriptionStatement,
            );
            if alt.ok {
                c.join(alt)
            } else {
                let c = c.note(alt.far);
                let alt = Cursor::start(c.pos).attach(
                    spec_requirement_statement(text, c.pos),
                    Slot::RequirementStatement,
                );
                if alt.ok {
                    c.join(alt)
                } else {
                    let c = c.note(alt.far);
                    let alt = Cursor::start(c.pos).attach(
                        spec_effect_statement(text, c.pos),
                        Slot::EffectStatement,
                    );
                    if alt.ok {
                        c.join(alt)
                    } else {
                        c.note(alt.far).halt()
                    }
                }
            }
        }
    };
    match c.finish(text, LifeRestartRule::TraitItem, at).tree {
        Some(tree) => {
            lemma_fits(tree, LifeRestartRule::TraitItem);
        },
        None => {},
    }
}

/// What the rule `TraitProperty` matches has the shape of a node of
/// `TraitProperty`.
#[verifier::rlimit(30)]
pub proof fn lemma_trait_property_fits(text: Seq<char>, at: int)
    ensures
        spec_trait_property(text, at).tree matches Some(tree)
            ==> fits(tree, LifeRestartRule::TraitProperty),
{
    reveal(spec_trait_property);
    let c = Cursor::start(at);
    lemma_lexical_leaf(text, c.pos);
    let found = spec_identifier(text, c.pos);
    lemma_attach_fits(c, found, Slot::Identifier, LifeRestartRule::TraitProperty);
    let c = c.attach(found, Slot::Identifier);
    let c = c.trivia(text);
    lemma_colon_leaf(text, c.pos);
    let found = spec_colon(text, c.pos);
    let c = c.pass(found);
    let c = c.trivia(text);
    lemma_atomic_fits(text, c.pos);
    let found = spec_atomic(text, c.pos);
    lemma_attach_fits(c, found, Slot::Atomic, LifeRestartRule::TraitProperty);
    let c = c.attach(found, Slot::Atomic);
    match c.finish(text, LifeRestartRule::TraitProperty, at).tree {
        Some(tree) => {
            lemma_fits(tree, LifeRestartRule::TraitProperty);
        },
        None => {},
    }
}

/// Trying `~ Statement#statement` collects only children that fit a node of
/// `RequirementStatement`.
#[verifier::rlimit(30)]
pub proof fn lemma_requirement_statement_item_fit(text: Seq<char>, at: int)
    ensures
        all_fit(
            spec_requirement_statement_item(text, at).kids,
            LifeRestartRule::RequirementStatement,
        ),
{
    reveal(spec_requirement_statement_item);
    let c = Cursor::start(at);
    let c = c.trivia(text);
    lemma_statement_fits(text, c.pos);
    let found = spec_statement(text, c.pos);
    lemma_attach_fits(c, found, Slot::Statement, LifeRestartRule::RequirementStatement);
    let c = c.attach(found, Slot::Statement);
}

/// Matching `(~ Statement#statement)*` adds only children that fit a node of
/// `RequirementStatement`, and takes none away.
#[verifier::rlimit(30)]
pub proof fn lemma_requirement_statement_items_fit(text: Seq<char>, from: Cursor)
    requires
        all_fit(from.kids, LifeRestartRule::RequirementStatement),
    ensures
        all_fit(
            spec_requirement_statement_items(text, from).kids,
            LifeRestartRule::RequirementStatement,
        ),
        keeps(from.kids, spec_requirement_statement_items(text, from).kids),
    decreases text.len() - from.pos,
{
    if from.ok {
        lemma_requirement_statement_item_fit(text, from.pos);
        let step = spec_requirement_statement_item(text, from.pos);
        if step.ok && from.pos < step.pos <= text.len() {
            lemma_concat_fits(from.kids, step.kids, LifeRestartRule::RequirementStatement);
            lemma_requirement_statement_items_fit(text, from.join(step));
        }
    }
}

/// What the rule `RequirementStatement` matches has the shape of a node of
/// `RequirementStatement`.
#[verifier::rlimit(30)]
pub proof fn lemma_requirement_statement_fits(text: Seq<char>, at: int)
    ensures
        spec_requirement_statement(text, at).tree matches Some(tree)
            ==> fits(tree, LifeRestartRule::RequirementStatement),
{
    reveal(spec_requirement_statement);
    let c = Cursor::start(at);
    lemma_kw_requirement_leaf(text, c.pos);
    let found = spec_kw_requirement(text, c.pos);
    let c = c.pass(found);
    let c = c.trivia(text);
    let c = c.word(text, "{"@);
    lemma_requirement_statement_items_fit(text, c);
    let c = spec_requirement_statement_items(text, c);
    let c = c.trivia(text);
    let c = c.word(text, "}"@);
    match c.finish(text, LifeRestartRule::RequirementStatement, at).tree {
        Some(tree) => {
            lemma_fits(tree, LifeRestartRule::RequirementStatement);
        },
        None => {},
    }
}

/// Trying `~ Statement#statement` collects only children that fit a node of
/// `EffectStatement`.
#[verifier::rlimit(30)]
pub proof fn lemma_effect_statement_item_fit(text: Seq<char>, at: int)
    ensures
        all_fit(spec_effect_statement_item(text, at).kids, LifeRestartRule::EffectStatement),
{
    reveal(spec_effect_statement_item);
    let c = Cursor::start(at);
    let c = c.trivia(text);
    lemma_statement_fits(text, c.pos);
    let found = spec_statement(text, c.pos);
    lemma_attach_fits(c, found, Slot::Statement, LifeRestartRule::EffectStatement);
    let c = c.attach(found, Slot::Statement);
}

/// Matching `(~ Statement#statement)*` adds only children that fit a node of
/// `EffectStatement`, and takes none away.
#[verifier::rlimit(30)]
pub proof fn lemma_effect_statement_items_fit(text: Seq<char>, from: Cursor)
    requires
        all_fit(from.kids, LifeRestartRule::EffectStatement),
    ensures
        all_fit(spec_effect_statement_items(text, from).kids, LifeRestartRule::EffectStatement),
        keeps(from.kids, spec_effect_statement_items(text, from).kids),
    decreases text.len() - from.pos,
{
    if from.ok {
        lemma_effect_statement_item_fit(text, from.pos);
        let step = spec_effect_statement_item(text, from.pos);
        if step.ok && from.pos < step.pos <= text.len() {
            lemma_concat_fits(from.kids, step.kids, LifeRestartRule::EffectStatement);
            lemma_effect_statement_items_fit(text, from.join(step));
        }
    }
}

/// What the rule `EffectStatement` matches has the shape of a node of
/// `EffectStatement`.
#[verifier::rlimit(30)]
pub proof fn lemma_effect_statement_fits(text: Seq<char>, at: int)
    ensures
        spec_effect_statement(text, at).tree matches Some(tree)
            ==> fits(tree, LifeRestartRule::EffectStatement),
{
    reveal(spec_effect_statement);
    let c = Cursor::start(at);
    lemma_kw_effect_leaf(text, c.pos);
    let found = spec_kw_effect(text, c.pos);
    let c = c.pass(found);
    let c = c.trivia(text);
    let c = c.word(text, "{"@);
    lemma_effect_statement_items_fit(text, c);
    let c = spec_effect_statement_items(text, c);
    let c = c.trivia(text);
    let c = c.word(text, "}"@);
    match c.finish(text, LifeRestartRule::EffectStatement, at).tree {
        Some(tree) => {
            lemma_fits(tree, LifeRestartRule::EffectStatement);
        },
        None => {},
    }
}

/// Trying `~ EventStatement#event_statement` collects only children that fit a
/// node of `EventGroup`.
pub proof fn lemma_event_group_item_fit(text: Seq<char>, at: int)
    ensures
        all_fit(spec_event_group_item(text, at).kids, LifeRestartRule::EventGroup),
{
    reveal(spec_event_group_item);
    let c = Cursor::start(at);
    let c = c.trivia(text);
    lemma_event_statement_fits(text, c.pos);
    let found = spec_event_statement(text, c.pos);
    lemma_attach_fits(c, found, Slot::EventStatement, LifeRestartRule::EventGroup);
    let c = c.attach(found, Slot::EventStatement);
}

/// Matching `(~ EventStatement#event_statement)*` adds only children that fit a
/// node of `EventGroup`, and takes none away.
#[verifier::rlimit(30)]
pub proof fn lemma_event_group_items_fit(text: Seq<char>, from: Cursor)
    requires
        all_fit(from.kids, LifeRestartRule::EventGroup),
    ensures
        all_fit(spec_event_group_items(text, from).kids, LifeRestartRule::EventGroup),
        keeps(from.kids, spec_event_group_items(text, from).kids),
    decreases text.len() - from.pos,
{
    if from.ok {
        lemma_event_group_item_fit(text, from.pos);
        let step = spec_event_group_item(text, from.pos);
        if step.ok && from.pos < step.pos <= text.len() {
            lemma_concat_fits(from.kids, step.kids, LifeRestartRule::EventGroup);
            lemma_event_group_items_fit(text, from.join(step));
        }
    }
}

/// What the rule `EventGroup` matches has the shape of a node of `EventGroup`.
#[verifier::rlimit(30)]
pub proof fn lemma_event_group_fits(text: Seq<char>, at: int)
    ensures
        spec_event_group(text, at).tree matches Some(tree)
            ==> fits(tree, LifeRestartRule::EventGroup),
{
    reveal(spec_event_group);
    let c = Cursor::start(at);
    lemma_kw_event_group_leaf(text, c.pos);
    let found = spec_kw_event_group(text, c.pos);
    let c = c.pass(found);
    let c = c.trivia(text);
    lemma_lexical_leaf(text, c.pos);
    let found = spec_identifier(text, c.pos);
    lemma_attach_fits(c, found, Slot::Identifier, LifeRestartRule::EventGroup);
    let c = c.attach(found, Slot::Identifier);
    let c = c.trivia(text);
    let c = c.word(text, "{"@);
    lemma_event_group_items_fit(text, c);
    let c = spec_event_group_items(text, c);
    let c = c.trivia(text);
    let c = c.word(text, "}"@);
    match c.finish(text, LifeRestartRule::EventGroup, at).tree {
        Some(tree) => {
            lemma_fits(tree, LifeRestartRule::EventGroup);
        },
        None => {},
    }
}

/// Trying `~ EventItem#event_item` collects only children that fit a node of
/// `EventStatement`.
pub proof fn lemma_event_statement_item_fit(text: Seq<char>, at: int)
    ensures
        all_fit(spec_event_statement_item(text, at).kids, LifeRestartRule::EventStatement),
{
    reveal(spec_event_statement_item);
    let c = Cursor::start(at);
    let c = c.trivia(text);
    lemma_event_item_fits(text, c.pos);
    let found = spec_event_item(text, c.pos);
    lemma_attach_fits(c, found, Slot::EventItem, LifeRestartRule::EventStatement);
    let c = c.attach(found, Slot::EventItem);
}

/// Matching `(~ EventItem#event_item)*` adds only children that fit a node of
/// `EventStatement`, and takes none away.
#[verifier::rlimit(30)]
pub proof fn lemma_event_statement_items_fit(text: Seq<char>, from: Cursor)
    requires
        all_fit(from.kids, LifeRestartRule::EventStatement),
    ensures
        all_fit(spec_event_statement_items(text, from).kids, LifeRestartRule::EventStatement),
        keeps(from.kids, spec_event_statement_items(text, from).kids),
    decreases text.len() - from.pos,
{
    if from.ok {
        lemma_event_statement_item_fit(text, from.pos);
        let step = spec_event_statement_item(text, from.pos);
        if step.ok && from.pos < step.pos <= text.len() {
            lemma_concat_fits(from.kids, step.kids, LifeRestartRule::EventStatement);
            lemma_event_statement_items_fit(text, from.join(step));
        }
    }
}

/// What the rule `EventStatement` matches has the shape of a node of
/// `EventStatement`.
#[verifier::rlimit(30)]
pub proof fn lemma_event_statement_fits(text: Seq<char>, at: int)
    ensures
        spec_event_statement(text, at).tree matches Some(tree)
            ==> fits(tree, LifeRestartRule::EventStatement),
{
    reveal(spec_event_statement);
    let c = Cursor::start(at);
    lemma_kw_event_leaf(text, c.pos);
    let found = spec_kw_event(text, c.pos);
    let c = c.pass(found);
    let c = c.trivia(text);
    lemma_lexical_leaf(text, c.pos);
    let found = spec_identifier(text, c.pos);
    lemma_attach_fits(c, found, Slot::Identifier, LifeRestartRule::EventStatement);
    let c = c.attach(found, Slot::Identifier);
    let c = c.trivia(text);
    let c = c.word(text, "{"@);
    lemma_event_statement_items_fit(text, c);
    let c = spec_event_statement_items(text, c);
    let c = c.trivia(text);
    let c = c.word(text, "}"@);
    match c.finish(text, LifeRestartRule::EventStatement, at).tree {
        Some(tree) => {
            lemma_fits(tree, LifeRestartRule::EventStatement);
        },
        None => {},
    }
}

/// What the rule `EventItem` matches has the shape of a node of `EventItem`.
pub proof fn lemma_event_item_fits(text: Seq<char>, at: int)
    ensures
        spec_event_item(text, at).tree matches Some(tree)
            ==> fits(tree, LifeRestartRule::EventItem),
{
    reveal(spec_event_item);
    let c = Cursor::start(at);
    lemma_id_statement_fits(text, c.pos);
    let found = spec_id_statement(text, c.pos);
    lemma_attach_fits(Cursor::start(c.pos), found, Slot::IdStatement, LifeRestartRule::EventItem);
    lemma_concat_fits(
        c.kids,
        Cursor::start(c.pos).attach(found, Slot::IdStatement).kids,
        LifeRestartRule::EventItem,
    );
    lemma_description_statement_fits(text, c.pos);
    let found = spec_description_statement(text, c.pos);
    lemma_attach_fits(
        Cursor::start(c.pos),
        found,
        Slot::DescriptionStatement,
        LifeRestartRule::EventItem,
    );
    lemma_concat_fits(
        c.kids,
        Cursor::start(c.pos).attach(found, Slot::DescriptionStatement).kids,
        LifeRestartRule::EventItem,
    );
    lemma_requirement_statement_fits(text, c.pos);
    let found = spec_requirement_statement(text, c.pos);
    lemma_attach_fits(
        Cursor::start(c.pos),
        found,
        Slot::RequirementStatement,
        LifeRestartRule::EventItem,
    );
    lemma_concat_fits(
        c.kids,
        Cursor::start(c.pos).attach(found, Slot::RequirementStatement).kids,
        LifeRestartRule::EventItem,
    );
    lemma_option_statement_fits(text, c.pos);
    let found = spec_option_statement(text, c.pos);
    lemma_attach_fits(
        Cursor::start(c.pos),
        found,
        Slot::OptionStatement,
        LifeRestartRule::EventItem,
    );
    lemma_concat_fits(
        c.kids,
        Cursor::start(c.pos).attach(found, Slot::OptionStatement).kids,
        LifeRestartRule::EventItem,
    );
    let c = if !c.ok {
        c
    } else {
        let alt = Cursor::start(c.pos).attach(spec_id_statement(text, c.pos), Slot::IdStatement);
        if alt.ok {
            c.join(alt)
        } else {
            let c = c.note(alt.far);
            let alt = Cursor::start(c.pos).attach(
                spec_description_statement(text, c.pos),
                Slot::DescriptionStatement,
            );
            if alt.ok {
                c.join(alt)
            } else {
                let c = c.note(alt.far);
                let alt = Cursor::start(c.pos).attach(
                    spec_requirement_statement(text, c.pos),
                    Slot::RequirementStatement,
                );
                if alt.ok {
                    c.join(alt)
                } else {
                    let c = c.note(alt.far);
                    let alt = Cursor::start(c.pos).attach(
                        spec_option_statement(text, c.pos),
                        Slot::OptionStatement,
                    );
                    if alt.ok {
                        c.join(alt)
                    } else {
                        c.note(alt.far).halt()
                    }
                }
            }
        }
    };
    match c.finish(text, LifeRestartRule::EventItem, at).tree {
        Some(tree) => {
            lemma_fits(tree, LifeRestartRule::EventItem);
        },
        None => {},
    }
}

/// Trying `~ EventProperty` collects only children that fit a node of
/// `EventProperty`.
#[verifier::rlimit(30)]
pub proof fn lemma_event_property_entry_fit(text: Seq<char>, at: int)
    ensures
        all_fit(spec_event_property_entry(text, at).kids, LifeRestartRule::EventProperty),
    decreases text.len() - at, 1nat,
{
    let c = Cursor::start(at);
    let c = c.trivia(text);
    if at <= c.pos && c.pos <= text.len() {
        lemma_event_property_fits(text, c.pos);
    }
    let found = if at <= c.pos && c.pos <= text.len() {
        spec_event_property(text, c.pos)
    } else {
        Outcome::none(c.pos)
    };
    let c = c.pass(found);
}

/// Matching `(~ EventProperty)*` adds only children that fit a node of
/// `EventProperty`, and takes none away.
#[verifier::rlimit(30)]
pub proof fn lemma_event_property_entries_fit(text: Seq<char>, from: Cursor)
    requires
        all_fit(from.kids, LifeRestartRule::EventProperty),
    ensures
        all_fit(spec_event_property_entries(text, from).kids, LifeRestartRule::EventProperty),
        keeps(from.kids, spec_event_property_entries(text, from).kids),
    decreases text.len() - from.pos, 2nat,
{
    if from.ok {
        if from.pos <= text.len() {
            lemma_event_property_entry_fit(text, from.pos);
        }
        let step = if from.pos <= text.len() {
            spec_event_property_entry(text, from.pos)
        } else {
            Cursor::none(from.pos)
        };
        if step.ok && from.pos < step.pos <= text.len() {
            lemma_concat_fits(from.kids, step.kids, LifeRestartRule::EventProperty);
            lemma_event_property_entries_fit(text, from.join(step));
        }
    }
}

/// Trying a block of nested event properties between braces collects only
/// children that fit a node of `EventProperty`.
#[verifier::rlimit(30)]
pub proof fn lemma_event_property_block_fit(text: Seq<char>, at: int)
    ensures
        all_fit(spec_event_property_block(text, at).kids, LifeRestartRule::EventProperty),
    decreases text.len() - at, 0nat,
{
    let c = Cursor::start(at);
    let c = c.word(text, "{"@);
    if at < c.pos && c.pos <= text.len() {
        lemma_event_property_entries_fit(text, c);
    }
    let c = if at < c.pos && c.pos <= text.len() {
        spec_event_property_entries(text, c)
    } else {
        c.halt()
    };
    let c = c.trivia(text);
    let c = c.word(text, "}"@);
}

/// Trying a block of nested event properties inside a second pair of braces
/// collects only children that fit a node of `EventProperty`.
#[verifier::rlimit(30)]
pub proof fn lemma_event_property_braced_fit(text: Seq<char>, at: int)
    ensures
        all_fit(spec_event_property_braced(text, at).kids, LifeRestartRule::EventProperty),
    decreases text.len() - at, 0nat,
{
    let c = Cursor::start(at);
    let c = c.word(text, "{"@);
    let c = c.trivia(text);
    if at < c.pos && c.pos <= text.len() {
        lemma_event_property_block_fit(text, c.pos);
    }
    let group = if at < c.pos && c.pos <= text.len() {
        spec_event_property_block(text, c.pos)
    } else {
        Cursor::none(c.pos)
    };
    lemma_concat_fits(c.kids, group.kids, LifeRestartRule::EventProperty);
    let c = c.chain(group);
    let c = c.trivia(text);
    let c = c.word(text, "}"@);
}

/// Trying the suffix of an event property: a bare closing bracket, a block
/// inside a second pair of braces, or a bare block, tried in this order
/// collects only children that fit a node of `EventProperty`.
#[verifier::rlimit(30)]
pub proof fn lemma_event_property_suffix_fit(text: Seq<char>, at: int)
    ensures
        all_fit(spec_event_property_suffix(text, at).kids, LifeRestartRule::EventProperty),
    decreases text.len() - at, 1nat,
{
    let c = Cursor::start(at);
    assert(c.kids + Cursor::start(c.pos).word(text, "]"@).kids =~= c.kids);
    if at <= c.pos && c.pos <= text.len() {
        lemma_event_property_braced_fit(text, c.pos);
    }
    let group = if at <= c.pos && c.pos <= text.len() {
        spec_event_property_braced(text, c.pos)
    } else {
        Cursor::none(c.pos)
    };
    lemma_concat_fits(c.kids, group.kids, LifeRestartRule::EventProperty);
    if at <= c.pos && c.pos <= text.len() {
        lemma_event_property_block_fit(text, c.pos);
    }
    let group = if at <= c.pos && c.pos <= text.len() {
        spec_event_property_block(text, c.pos)
    } else {
        Cursor::none(c.pos)
    };
    lemma_concat_fits(c.kids, group.kids, LifeRestartRule::EventProperty);
    let c = if !c.ok {
        c
    } else {
        let alt = Cursor::start(c.pos).word(text, "]"@);
        if alt.ok {
            c.join(alt)
        } else {
            let c = c.note(alt.far);
            let group = if at <= c.pos && c.pos <= text.len() {
                spec_event_property_braced(text, c.pos)
            } else {
                Cursor::none(c.pos)
            };
            let alt = group;
            if alt.ok {
                c.join(alt)
            } else {
                let c = c.note(alt.far);
                let group = if at <= c.pos && c.pos <= text.len() {
                    spec_event_property_block(text, c.pos)
                } else {
                    Cursor::none(c.pos)
                };
                let alt = group;
                if alt.ok {
                    c.join(alt)
                } else {
                    c.note(alt.far).halt()
                }
            }
        }
    };
}

/// What the rule `EventProperty` matches has the shape of a node of
/// `EventProperty`.
#[verifier::rlimit(30)]
pub proof fn lemma_event_property_fits(text: Seq<char>, at: int)
    ensures
        spec_event_property(text, at).tree matches Some(tree)
            ==> fits(tree, LifeRestartRule::EventProperty),
    decreases text.len() - at, 0nat,
{
    let c = Cursor::start(at);
    lemma_lexical_leaf(text, c.pos);
    let found = spec_identifier(text, c.pos);
    lemma_attach_fits(c, found, Slot::Identifier, LifeRestartRule::EventProperty);
    let c = c.attach(found, Slot::Identifier);
    let c = c.trivia(text);
    assert(c.kids + Cursor::start(c.pos).word(text, ":"@).kids =~= c.kids);
    assert(c.kids + Cursor::start(c.pos).word(text, "["@).kids =~= c.kids);
    let c = if !c.ok {
        c
    } else {
        let alt = Cursor::start(c.pos).word(text, ":"@);
        if alt.ok {
            c.join(alt)
        } else {
            let c = c.note(alt.far);
            let alt = Cursor::start(c.pos).word(text, "["@);
            if alt.ok {
                c.join(alt)
            } else {
                c.note(alt.far).halt()
            }
        }
    };
    let c = c.trivia(text);
    lemma_expression_fits(text, c.pos);
    let found = spec_expression(text, c.pos);
    let c = c.pass(found);
    let c = c.trivia(text);
    if at < c.pos && c.pos <= text.len() {
        lemma_event_property_suffix_fit(text, c.pos);
    }
    let group = if at < c.pos && c.pos <= text.len() {
        spec_event_property_suffix(text, c.pos)
    } else {
        Cursor::none(c.pos)
    };
    lemma_concat_fits(c.kids, group.kids, LifeRestartRule::EventProperty);
    let c = c.option(group);
    match c.finish(text, LifeRestartRule::EventProperty, at).tree {
        Some(tree) => {
            lemma_fits(tree, LifeRestartRule::EventProperty);
        },
        None => {},
    }
}

/// What the rule `IdStatement` matches has the shape of a node of
/// `IdStatement`.
pub proof fn lemma_id_statement_fits(text: Seq<char>, at: int)
    ensures
        spec_id_statement(text, at).tree matches Some(tree)
            ==> fits(tree, LifeRestartRule::IdStatement),
{
    reveal(spec_id_statement);
    let c = Cursor::start(at);
    lemma_kw_id_leaf(text, c.pos);
    let found = spec_kw_id(text, c.pos);
    let c = c.pass(found);
    let c = c.trivia(text);
    lemma_lexical_leaf(text, c.pos);
    let found = spec_integer(text, c.pos);
    lemma_attach_fits(c, found, Slot::Integer, LifeRestartRule::IdStatement);
    let c = c.attach(found, Slot::Integer);
    match c.finish(text, LifeRestartRule::IdStatement, at).tree {
        Some(tree) => {
            lemma_fits(tree, LifeRestartRule::IdStatement);
        },
        None => {},
    }
}

/// Trying `COMMA ~` collects only children that fit a node of
/// `DescriptionStatement`.
pub proof fn lemma_description_comma_fit(text: Seq<char>, at: int)
    ensures
        all_fit(spec_description_comma(text, at).kids, LifeRestartRule::DescriptionStatement),
{
    reveal(spec_description_comma);
    let c = Cursor::start(at);
    lemma_comma_leaf(text, c.pos);
    let found = spec_comma(text, c.pos);
    let c = c.pass(found);
    let c = c.trivia(text);
}

/// Trying `~ (COMMA ~)? String#string` collects only children that fit a node
/// of `DescriptionStatement`.
pub proof fn lemma_description_more_fit(text: Seq<char>, at: int)
    ensures
        all_fit(spec_description_more(text, at).kids, LifeRestartRule::DescriptionStatement),
{
    reveal(spec_description_more);
    let c = Cursor::start(at);
    let c = c.trivia(text);
    lemma_description_comma_fit(text, c.pos);
    let group = spec_description_comma(text, c.pos);
    lemma_concat_fits(c.kids, group.kids, LifeRestartRule::DescriptionStatement);
    let c = c.option(group);
    lemma_string_fits(text, c.pos);
    let found = spec_string(text, c.pos);
    lemma_attach_fits(c, found, Slot::String, LifeRestartRule::DescriptionStatement);
    let c = c.attach(found, Slot::String);
}

/// Matching `(~ (COMMA ~)? String#string)*` adds only children that fit a node
/// of `DescriptionStatement`, and takes none away.
#[verifier::rlimit(30)]
pub proof fn lemma_description_rest_fit(text: Seq<char>, from: Cursor)
    requires
        all_fit(from.kids, LifeRestartRule::DescriptionStatement),
    ensures
        all_fit(spec_description_rest(text, from).kids, LifeRestartRule::DescriptionStatement),
        keeps(from.kids, spec_description_rest(text, from).kids),
    decreases text.len() - from.pos,
{
    if from.ok {
        lemma_description_more_fit(text, from.pos);
        let step = spec_description_more(text, from.pos);
        if step.ok && from.pos < step.pos <= text.len() {
            lemma_concat_fits(from.kids, step.kids, LifeRestartRule::DescriptionStatement);
            lemma_description_rest_fit(text, from.join(step));
        }
    }
}

/// Trying `~ COMMA` collects only children that fit a node of
/// `DescriptionStatement`.
pub proof fn lemma_description_last_comma_fit(text: Seq<char>, at: int)
    ensures
        all_fit(spec_description_last_comma(text, at).kids, LifeRestartRule::DescriptionStatement),
{
    reveal(spec_description_last_comma);
    let c = Cursor::start(at);
    let c = c.trivia(text);
    lemma_comma_leaf(text, c.pos);
    let found = spec_comma(text, c.pos);
    let c = c.pass(found);
}

/// Trying one or more strings, with or without commas between them and after
/// the last collects only children that fit a node of `DescriptionStatement`.
#[verifier::rlimit(30)]
pub proof fn lemma_description_strings_fit(text: Seq<char>, at: int)
    ensures
        all_fit(spec_description_strings(text, at).kids, LifeRestartRule::DescriptionStatement),
{
    reveal(spec_description_strings);
    let c = Cursor::start(at);
    lemma_string_fits(text, c.pos);
    let found = spec_string(text, c.pos);
    lemma_attach_fits(c, found, Slot::String, LifeRestartRule::DescriptionStatement);
    let c = c.attach(found, Slot::String);
    lemma_description_rest_fit(text, c);
    let c = spec_description_rest(text, c);
    lemma_description_last_comma_fit(text, c.pos);
    let group = spec_description_last_comma(text, c.pos);
    lemma_concat_fits(c.kids, group.kids, LifeRestartRule::DescriptionStatement);
    let c = c.option(group);
}

/// Trying the keyword form of a description: the keyword and its strings
/// collects only children that fit a node of `DescriptionStatement`.
pub proof fn lemma_description_plain_fit(text: Seq<char>, at: int)
    ensures
        all_fit(spec_description_plain(text, at).kids, LifeRestartRule::DescriptionStatement),
{
    reveal(spec_description_plain);
    let c = Cursor::start(at);
    lemma_kw_description_leaf(text, c.pos);
    let found = spec_kw_description(text, c.pos);
    let c = c.pass(found);
    let c = c.trivia(text);
    lemma_description_strings_fit(text, c.pos);
    let group = spec_description_strings(text, c.pos);
    lemma_concat_fits(c.kids, group.kids, LifeRestartRule::DescriptionStatement);
    let c = c.chain(group);
}

/// Trying the parenthesized form of a description: strings between round
/// brackets, or nothing between them collects only children that fit a node of
/// `DescriptionStatement`.
pub proof fn lemma_description_round_fit(text: Seq<char>, at: int)
    ensures
        all_fit(spec_description_round(text, at).kids, LifeRestartRule::DescriptionStatement),
{
    reveal(spec_description_round);
    let c = Cursor::start(at);
    let c = c.word(text, "("@);
    let c = c.trivia(text);
    lemma_description_strings_fit(text, c.pos);
    let group = spec_description_strings(text, c.pos);
    lemma_concat_fits(c.kids, group.kids, LifeRestartRule::DescriptionStatement);
    let c = c.option(group);
    let c = c.trivia(text);
    let c = c.word(text, ")"@);
}

/// What the rule `DescriptionStatement` matches has the shape of a node of
/// `DescriptionStatement`.
pub proof fn lemma_description_statement_fits(text: Seq<char>, at: int)
    ensures
        spec_description_statement(text, at).tree matches Some(tree)
            ==> fits(tree, LifeRestartRule::DescriptionStatement),
{
    reveal(spec_description_statement);
    let c = Cursor::start(at);
    lemma_description_plain_fit(text, c.pos);
    let group = spec_description_plain(text, c.pos);
    lemma_concat_fits(c.kids, group.kids, LifeRestartRule::DescriptionStatement);
    lemma_description_round_fit(text, c.pos);
    let group = spec_description_round(text, c.pos);
    lemma_concat_fits(c.kids, group.kids, LifeRestartRule::DescriptionStatement);
    let c = if !c.ok {
        c
    } else {
        let alt = spec_description_plain(text, c.pos);
        if alt.ok {
            c.join(alt)
        } else {
            let c = c.note(alt.far);
            let alt = spec_description_round(text, c.pos);
            if alt.ok {
                c.join(alt)
            } else {
                c.note(alt.far).halt()
            }
        }
    };
    match c.finish(text, LifeRestartRule::DescriptionStatement, at).tree {
        Some(tree) => {
            lemma_fits(tree, LifeRestartRule::DescriptionStatement);
        },
        None => {},
    }
}

/// What the rule `Statement` matches has the shape of a node of `Statement`.
#[verifier::rlimit(30)]
pub proof fn lemma_statement_fits(text: Seq<char>, at: int)
    ensures
        spec_statement(text, at).tree matches Some(tree) ==> fits(tree, LifeRestartRule::Statement),
    decreases text.len() - at, 2nat,
{
    let c = Cursor::start(at);
    if at <= c.pos && c.pos <= text.len() {
        lemma_if_statement_fits(text, c.pos);
    }
    let found = if at <= c.pos && c.pos <= text.len() {
        spec_if_statement(text, c.pos)
    } else {
        Outcome::none(c.pos)
    };
    lemma_attach_fits(Cursor::start(c.pos), found, Slot::IfStatement, LifeRestartRule::Statement);
    lemma_concat_fits(
        c.kids,
        Cursor::start(c.pos).attach(found, Slot::IfStatement).kids,
        LifeRestartRule::Statement,
    );
    lemma_expression_fits(text, c.pos);
    let found = spec_expression(text, c.pos);
    lemma_attach_fits(Cursor::start(c.pos), found, Slot::Expression, LifeRestartRule::Statement);
    lemma_concat_fits(
        c.kids,
        Cursor::start(c.pos).attach(found, Slot::Expression).kids,
        LifeRestartRule::Statement,
    );
    lemma_eos_leaf(text, c.pos);
    let found = spec_eos(text, c.pos);
    lemma_attach_fits(Cursor::start(c.pos), found, Slot::Eos, LifeRestartRule::Statement);
    lemma_concat_fits(
        c.kids,
        Cursor::start(c.pos).attach(found, Slot::Eos).kids,
        LifeRestartRule::Statement,
    );
    let c = if !c.ok {
        c
    } else {
        let found = if at <= c.pos && c.pos <= text.len() {
            spec_if_statement(text, c.pos)
        } else {
            Outcome::none(c.pos)
        };
        let alt = Cursor::start(c.pos).attach(found, Slot::IfStatement);
        if alt.ok {
            c.join(alt)
        } else {
            let c = c.note(alt.far);
            let alt = Cursor::start(c.pos).attach(spec_expression(text, c.pos), Slot::Expression);
            if alt.ok {
                c.join(alt)
            } else {
                let c = c.note(alt.far);
                let alt = Cursor::start(c.pos).attach(spec_eos(text, c.pos), Slot::Eos);
                if alt.ok {
                    c.join(alt)
                } else {
                    c.note(alt.far).halt()
                }
            }
        }
    };
    match c.finish(text, LifeRestartRule::Statement, at).tree {
        Some(tree) => {
            lemma_fits(tree, LifeRestartRule::Statement);
        },
        None => {},
    }
}

/// Trying `~ IfElseIfBlock#if_else_if_block` collects only children that fit a
/// node of `IfStatement`.
#[verifier::rlimit(30)]
pub proof fn lemma_if_statement_else_if_fit(text: Seq<char>, at: int)
    ensures
        all_fit(spec_if_statement_else_if(text, at).kids, LifeRestartRule::IfStatement),
    decreases text.len() - at, 1nat,
{
    let c = Cursor::start(at);
    let c = c.trivia(text);
    if at <= c.pos && c.pos <= text.len() {
        lemma_if_else_if_block_fits(text, c.pos);
    }
    let found = if at <= c.pos && c.pos <= text.len() {
        spec_if_else_if_block(text, c.pos)
    } else {
        Outcome::none(c.pos)
    };
    lemma_attach_fits(c, found, Slot::IfElseIfBlock, LifeRestartRule::IfStatement);
    let c = c.attach(found, Slot::IfElseIfBlock);
}

/// Trying `~ IfElseBlock#if_else_block` collects only children that fit a node
/// of `IfStatement`.
#[verifier::rlimit(30)]
pub proof fn lemma_if_statement_else_fit(text: Seq<char>, at: int)
    ensures
        all_fit(spec_if_statement_else(text, at).kids, LifeRestartRule::IfStatement),
    decreases text.len() - at, 1nat,
{
    let c = Cursor::start(at);
    let c = c.trivia(text);
    if at <= c.pos && c.pos <= text.len() {
        lemma_if_else_block_fits(text, c.pos);
    }
    let found = if at <= c.pos && c.pos <= text.len() {
        spec_if_else_block(text, c.pos)
    } else {
        Outcome::none(c.pos)
    };
    lemma_attach_fits(c, found, Slot::IfElseBlock, LifeRestartRule::IfStatement);
    let c = c.attach(found, Slot::IfElseBlock);
}

/// What the rule `IfStatement` matches has the shape of a node of
/// `IfStatement`.
#[verifier::rlimit(100)]
pub proof fn lemma_if_statement_fits(text: Seq<char>, at: int)
    ensures
        spec_if_statement(text, at).tree matches Some(tree)
            ==> fits(tree, LifeRestartRule::IfStatement),
    decreases text.len() - at, 1nat,
{
    let c = Cursor::start(at);
    if at <= c.pos && c.pos <= text.len() {
        lemma_if_then_block_fits(text, c.pos);
    }
    let found = if at <= c.pos && c.pos <= text.len() {
        spec_if_then_block(text, c.pos)
    } else {
        Outcome::none(c.pos)
    };
    lemma_attach_fits(c, found, Slot::IfThenBlock, LifeRestartRule::IfStatement);
    let c = c.attach(found, Slot::IfThenBlock);
    if at < c.pos && c.pos <= text.len() {
        lemma_if_statement_else_if_fit(text, c.pos);
    }
    let group = if at < c.pos && c.pos <= text.len() {
        spec_if_statement_else_if(text, c.pos)
    } else {
        Cursor::none(c.pos)
    };
    lemma_concat_fits(c.kids, group.kids, LifeRestartRule::IfStatement);
    let c = c.option(group);
    if at < c.pos && c.pos <= text.len() {
        lemma_if_statement_else_fit(text, c.pos);
    }
    let group = if at < c.pos && c.pos <= text.len() {
        spec_if_statement_else(text, c.pos)
    } else {
        Cursor::none(c.pos)
    };
    lemma_concat_fits(c.kids, group.kids, LifeRestartRule::IfStatement);
    let c = c.option(group);
    match c.finish(text, LifeRestartRule::IfStatement, at).tree {
        Some(tree) => {
            lemma_fits(tree, LifeRestartRule::IfStatement);
        },
        None => {},
    }
}

/// Trying `~ Statement#statement` collects only children that fit a node of
/// `IfThenBlock`.
#[verifier::rlimit(30)]
pub proof fn lemma_if_then_block_item_fit(text: Seq<char>, at: int)
    ensures
        all_fit(spec_if_then_block_item(text, at).kids, LifeRestartRule::IfThenBlock),
    decreases text.len() - at, 3nat,
{
    let c = Cursor::start(at);
    let c = c.trivia(text);
    if at <= c.pos && c.pos <= text.len() {
        lemma_statement_fits(text, c.pos);
    }
    let found = if at <= c.pos && c.pos <= text.len() {
        spec_statement(text, c.pos)
    } else {
        Outcome::none(c.pos)
    };
    lemma_attach_fits(c, found, Slot::Statement, LifeRestartRule::IfThenBlock);
    let c = c.attach(found, Slot::Statement);
}

/// Matching `(~ Statement#statement)*` adds only children that fit a node of
/// `IfThenBlock`, and takes none away.
#[verifier::rlimit(30)]
pub proof fn lemma_if_then_block_items_fit(text: Seq<char>, from: Cursor)
    requires
        all_fit(from.kids, LifeRestartRule::IfThenBlock),
    ensures
        all_fit(spec_if_then_block_items(text, from).kids, LifeRestartRule::IfThenBlock),
        keeps(from.kids, spec_if_then_block_items(text, from).kids),
    decreases text.len() - from.pos, 4nat,
{
    if from.ok {
        if from.pos <= text.len() {
            lemma_if_then_block_item_fit(text, from.pos);
        }
        let step = if from.pos <= text.len() {
            spec_if_then_block_item(text, from.pos)
        } else {
            Cursor::none(from.pos)
        };
        if step.ok && from.pos < step.pos <= text.len() {
            lemma_concat_fits(from.kids, step.kids, LifeRestartRule::IfThenBlock);
            lemma_if_then_block_items_fit(text, from.join(step));
        }
    }
}

/// What the rule `IfThenBlock` matches has the shape of a node of
/// `IfThenBlock`.
#[verifier::rlimit(30)]
pub proof fn lemma_if_then_block_fits(text: Seq<char>, at: int)
    ensures
        spec_if_then_block(text, at).tree matches Some(tree)
            ==> fits(tree, LifeRestartRule::IfThenBlock),
    decreases text.len() - at, 0nat,
{
    let c = Cursor::start(at);
    lemma_kw_if_leaf(text, c.pos);
    let found = spec_kw_if(text, c.pos);
    let c = c.pass(found);
    let c = c.trivia(text);
    lemma_expression_fits(text, c.pos);
    let found = spec_expression(text, c.pos);
    lemma_attach_fits(c, found, Slot::Expression, LifeRestartRule::IfThenBlock);
    let c = c.attach(found, Slot::Expression);
    let c = c.trivia(text);
    let c = c.word(text, "{"@);
    if at < c.pos && c.pos <= text.len() {
        lemma_if_then_block_items_fit(text, c);
    }
    let c = if at < c.pos && c.pos <= text.len() {
        spec_if_then_block_items(text, c)
    } else {
        c.halt()
    };
    let c = c.trivia(text);
    let c = c.word(text, "}"@);
    match c.finish(text, LifeRestartRule::IfThenBlock, at).tree {
        Some(tree) => {
            lemma_fits(tree, LifeRestartRule::IfThenBlock);
        },
        None => {},
    }
}

/// Trying `~ Statement#statement` collects only children that fit a node of
/// `IfElseIfBlock`.
#[verifier::rlimit(30)]
pub proof fn lemma_if_else_if_block_item_fit(text: Seq<char>, at: int)
    ensures
        all_fit(spec_if_else_if_block_item(text, at).kids, LifeRestartRule::IfElseIfBlock),
    decreases text.len() - at, 3nat,
{
    let c = Cursor::start(at);
    let c = c.trivia(text);
    if at <= c.pos && c.pos <= text.len() {
        lemma_statement_fits(text, c.pos);
    }
    let found = if at <= c.pos && c.pos <= text.len() {
        spec_statement(text, c.pos)
    } else {
        Outcome::none(c.pos)
    };
    lemma_attach_fits(c, found, Slot::Statement, LifeRestartRule::IfElseIfBlock);
    let c = c.attach(found, Slot::Statement);
}

/// Matching `(~ Statement#statement)*` adds only children that fit a node of
/// `IfElseIfBlock`, and takes none away.
#[verifier::rlimit(30)]
pub proof fn lemma_if_else_if_block_items_fit(text: Seq<char>, from: Cursor)
    requires
        all_fit(from.kids, LifeRestartRule::IfElseIfBlock),
    ensures
        all_fit(spec_if_else_if_block_items(text, from).kids, LifeRestartRule::IfElseIfBlock),
        keeps(from.kids, spec_if_else_if_block_items(text, from).kids),
    decreases text.len() - from.pos, 4nat,
{
    if from.ok {
        if from.pos <= text.len() {
            lemma_if_else_if_block_item_fit(text, from.pos);
        }
        let step = if from.pos <= text.len() {
            spec_if_else_if_block_item(text, from.pos)
        } else {
            Cursor::none(from.pos)
        };
        if step.ok && from.pos < step.pos <= text.len() {
            lemma_concat_fits(from.kids, step.kids, LifeRestartRule::IfElseIfBlock);
            lemma_if_else_if_block_items_fit(text, from.join(step));
        }
    }
}

/// What the rule `IfElseIfBlock` matches has the shape of a node of
/// `IfElseIfBlock`.
#[verifier::rlimit(30)]
pub proof fn lemma_if_else_if_block_fits(text: Seq<char>, at: int)
    ensures
        spec_if_else_if_block(text, at).tree matches Some(tree)
            ==> fits(tree, LifeRestartRule::IfElseIfBlock),
    decreases text.len() - at, 0nat,
{
    let c = Cursor::start(at);
    lemma_kw_else_if_leaf(text, c.pos);
    let found = spec_kw_else_if(text, c.pos);
    let c = c.pass(found);
    let c = c.trivia(text);
    lemma_expression_fits(text, c.pos);
    let found = spec_expression(text, c.pos);
    lemma_attach_fits(c, found, Slot::Expression, LifeRestartRule::IfElseIfBlock);
    let c = c.attach(found, Slot::Expression);
    let c = c.trivia(text);
    let c = c.word(text, "{"@);
    if at < c.pos && c.pos <= text.len() {
        lemma_if_else_if_block_items_fit(text, c);
    }
    let c = if at < c.pos && c.pos <= text.len() {
        spec_if_else_if_block_items(text, c)
    } else {
        c.halt()
    };
    let c = c.trivia(text);
    let c = c.word(text, "}"@);
    match c.finish(text, LifeRestartRule::IfElseIfBlock, at).tree {
        Some(tree) => {
            lemma_fits(tree, LifeRestartRule::IfElseIfBlock);
        },
        None => {},
    }
}

/// Trying `~ Statement#statement` collects only children that fit a node of
/// `IfElseBlock`.
#[verifier::rlimit(30)]
pub proof fn lemma_if_else_block_item_fit(text: Seq<char>, at: int)
    ensures
        all_fit(spec_if_else_block_item(text, at).kids, LifeRestartRule::IfElseBlock),
    decreases text.len() - at, 3nat,
{
    let c = Cursor::start(at);
    let c = c.trivia(text);
    if at <= c.pos && c.pos <= text.len() {
        lemma_statement_fits(text, c.pos);
    }
    let found = if at <= c.pos && c.pos <= text.len() {
        spec_statement(text, c.pos)
    } else {
        Outcome::none(c.pos)
    };
    lemma_attach_fits(c, found, Slot::Statement, LifeRestartRule::IfElseBlock);
    let c = c.attach(found, Slot::Statement);
}

/// Matching `(~ Statement#statement)*` adds only children that fit a node of
/// `IfElseBlock`, and takes none away.
#[verifier::rlimit(30)]
pub proof fn lemma_if_else_block_items_fit(text: Seq<char>, from: Cursor)
    requires
        all_fit(from.kids, LifeRestartRule::IfElseBlock),
    ensures
        all_fit(spec_if_else_block_items(text, from).kids, LifeRestartRule::IfElseBlock),
        keeps(from.kids, spec_if_else_block_items(text, from).kids),
    decreases text.len() - from.pos, 4nat,
{
    if from.ok {
        if from.pos <= text.len() {
            lemma_if_else_block_item_fit(text, from.pos);
        }
        let step = if from.pos <= text.len() {
            spec_if_else_block_item(text, from.pos)
        } else {
            Cursor::none(from.pos)
        };
        if step.ok && from.pos < step.pos <= text.len() {
            lemma_concat_fits(from.kids, step.kids, LifeRestartRule::IfElseBlock);
            lemma_if_else_block_items_fit(text, from.join(step));
        }
    }
}

/// What the rule `IfElseBlock` matches has the shape of a node of
/// `IfElseBlock`.
#[verifier::rlimit(30)]
pub proof fn lemma_if_else_block_fits(text: Seq<char>, at: int)
    ensures
        spec_if_else_block(text, at).tree matches Some(tree)
            ==> fits(tree, LifeRestartRule::IfElseBlock),
    decreases text.len() - at, 0nat,
{
    let c = Cursor::start(at);
    lemma_kw_else_leaf(text, c.pos);
    let found = spec_kw_else(text, c.pos);
    let c = c.pass(found);
    let c = c.trivia(text);
    let c = c.word(text, "{"@);
    if at < c.pos && c.pos <= text.len() {
        lemma_if_else_block_items_fit(text, c);
    }
    let c = if at < c.pos && c.pos <= text.len() {
        spec_if_else_block_items(text, c)
    } else {
        c.halt()
    };
    let c = c.trivia(text);
    let c = c.word(text, "}"@);
    match c.finish(text, LifeRestartRule::IfElseBlock, at).tree {
        Some(tree) => {
            lemma_fits(tree, LifeRestartRule::IfElseBlock);
        },
        None => {},
    }
}

/// Trying `~ Infix#infix ~ Term#term` collects only children that fit a node of
/// `Expression`.
pub proof fn lemma_expression_more_fit(text: Seq<char>, at: int)
    ensures
        all_fit(spec_expression_more(text, at).kids, LifeRestartRule::Expression),
{
    reveal(spec_expression_more);
    let c = Cursor::start(at);
    let c = c.trivia(text);
    lemma_infix_fits(text, c.pos);
    let found = spec_infix(text, c.pos);
    lemma_attach_fits(c, found, Slot::Infix, LifeRestartRule::Expression);
    let c = c.attach(found, Slot::Infix);
    let c = c.trivia(text);
    lemma_term_fits(text, c.pos);
    let found = spec_term(text, c.pos);
    lemma_attach_fits(c, found, Slot::Term, LifeRestartRule::Expression);
    let c = c.attach(found, Slot::Term);
}

/// Matching `(~ Infix#infix ~ Term#term)*` adds only children that fit a node
/// of `Expression`, and takes none away.
#[verifier::rlimit(30)]
pub proof fn lemma_expression_rest_fit(text: Seq<char>, from: Cursor)
    requires
        all_fit(from.kids, LifeRestartRule::Expression),
    ensures
        all_fit(spec_expression_rest(text, from).kids, LifeRestartRule::Expression),
        keeps(from.kids, spec_expression_rest(text, from).kids),
    decreases text.len() - from.pos,
{
    if from.ok {
        lemma_expression_more_fit(text, from.pos);
        let step = spec_expression_more(text, from.pos);
        if step.ok && from.pos < step.pos <= text.len() {
            lemma_concat_fits(from.kids, step.kids, LifeRestartRule::Expression);
            lemma_expression_rest_fit(text, from.join(step));
        }
    }
}

/// What the rule `Expression` matches has the shape of a node of `Expression`.
#[verifier::rlimit(30)]
pub proof fn lemma_expression_fits(text: Seq<char>, at: int)
    ensures
        spec_expression(text, at).tree matches Some(tree)
            ==> fits(tree, LifeRestartRule::Expression),
{
    reveal(spec_expression);
    let c = Cursor::start(at);
    lemma_term_fits(text, c.pos);
    let found = spec_term(text, c.pos);
    lemma_attach_fits(c, found, Slot::Term, LifeRestartRule::Expression);
    let c = c.attach(found, Slot::Term);
    lemma_expression_rest_fit(text, c);
    let c = spec_expression_rest(text, c);
    match c.finish(text, LifeRestartRule::Expression, at).tree {
        Some(tree) => {
            lemma_fits(tree, LifeRestartRule::Expression);
        },
        None => {},
    }
}

/// Trying `Prefix#prefix ~` collects only children that fit a node of `Term`.
pub proof fn lemma_term_prefix_fit(text: Seq<char>, at: int)
    ensures
        all_fit(spec_term_prefix(text, at).kids, LifeRestartRule::Term),
{
    reveal(spec_term_prefix);
    let c = Cursor::start(at);
    lemma_prefix_fits(text, c.pos);
    let found = spec_prefix(text, c.pos);
    lemma_attach_fits(c, found, Slot::Prefix, LifeRestartRule::Term);
    let c = c.attach(found, Slot::Prefix);
    let c = c.trivia(text);
}

/// Matching `(Prefix#prefix ~)*` adds only children that fit a node of `Term`,
/// and takes none away.
#[verifier::rlimit(30)]
pub proof fn lemma_term_prefixes_fit(text: Seq<char>, from: Cursor)
    requires
        all_fit(from.kids, LifeRestartRule::Term),
    ensures
        all_fit(spec_term_prefixes(text, from).kids, LifeRestartRule::Term),
        keeps(from.kids, spec_term_prefixes(text, from).kids),
    decreases text.len() - from.pos,
{
    if from.ok {
        lemma_term_prefix_fit(text, from.pos);
        let step = spec_term_prefix(text, from.pos);
        if step.ok && from.pos < step.pos <= text.len() {
            lemma_concat_fits(from.kids, step.kids, LifeRestartRule::Term);
            lemma_term_prefixes_fit(text, from.join(step));
        }
    }
}

/// Trying `~ Suffix#suffix` collects only children that fit a node of `Term`.
pub proof fn lemma_term_suffix_fit(text: Seq<char>, at: int)
    ensures
        all_fit(spec_term_suffix(text, at).kids, LifeRestartRule::Term),
{
    reveal(spec_term_suffix);
    let c = Cursor::start(at);
    let c = c.trivia(text);
    lemma_suffix_fits(text, c.pos);
    let found = spec_suffix(text, c.pos);
    lemma_attach_fits(c, found, Slot::Suffix, LifeRestartRule::Term);
    let c = c.attach(found, Slot::Suffix);
}

/// Matching `(~ Suffix#suffix)*` adds only children that fit a node of `Term`,
/// and takes none away.
#[verifier::rlimit(30)]
pub proof fn lemma_term_suffixes_fit(text: Seq<char>, from: Cursor)
    requires
        all_fit(from.kids, LifeRestartRule::Term),
    ensures
        all_fit(spec_term_suffixes(text, from).kids, LifeRestartRule::Term),
        keeps(from.kids, spec_term_suffixes(text, from).kids),
    decreases text.len() - from.pos,
{
    if from.ok {
        lemma_term_suffix_fit(text, from.pos);
        let step = spec_term_suffix(text, from.pos);
        if step.ok && from.pos < step.pos <= text.len() {
            lemma_concat_fits(from.kids, step.kids, LifeRestartRule::Term);
            lemma_term_suffixes_fit(text, from.join(step));
        }
    }
}

/// What the rule `Term` matches has the shape of a node of `Term`.
#[verifier::rlimit(30)]
pub proof fn lemma_term_fits(text: Seq<char>, at: int)
    ensures
        spec_term(text, at).tree matches Some(tree) ==> fits(tree, LifeRestartRule::Term),
{
    reveal(spec_term);
    let c = Cursor::start(at);
    lemma_term_prefixes_fit(text, c);
    let c = spec_term_prefixes(text, c);
    lemma_atomic_fits(text, c.pos);
    let found = spec_atomic(text, c.pos);
    lemma_attach_fits(c, found, Slot::Atomic, LifeRestartRule::Term);
    let c = c.attach(found, Slot::Atomic);
    lemma_term_suffixes_fit(text, c);
    let c = spec_term_suffixes(text, c);
    match c.finish(text, LifeRestartRule::Term, at).tree {
        Some(tree) => {
            lemma_fits(tree, LifeRestartRule::Term);
        },
        None => {},
    }
}

/// What the rule `Prefix` matches has the shape of a node of `Prefix`.
pub proof fn lemma_prefix_fits(text: Seq<char>, at: int)
    ensures
        spec_prefix(text, at).tree matches Some(tree) ==> fits(tree, LifeRestartRule::Prefix),
{
    reveal(spec_prefix);
    let c = Cursor::start(at);
    let found = spec_mark_prefix_0(text, c.pos);
    lemma_attach_fits(Cursor::start(c.pos), found, Slot::Prefix0, LifeRestartRule::Prefix);
    lemma_concat_fits(
        c.kids,
        Cursor::start(c.pos).attach(found, Slot::Prefix0).kids,
        LifeRestartRule::Prefix,
    );
    let c = if !c.ok {
        c
    } else {
        let alt = Cursor::start(c.pos).attach(spec_mark_prefix_0(text, c.pos), Slot::Prefix0);
        if alt.ok {
            c.join(alt)
        } else {
            c.note(alt.far).halt()
        }
    };
    match c.finish(text, LifeRestartRule::Prefix, at).tree {
        Some(tree) => {
            lemma_fits(tree, LifeRestartRule::Prefix);
        },
        None => {},
    }
}

/// What the rule `Infix` matches has the shape of a node of `Infix`.
pub proof fn lemma_infix_fits(text: Seq<char>, at: int)
    ensures
        spec_infix(text, at).tree matches Some(tree) ==> fits(tree, LifeRestartRule::Infix),
{
    reveal(spec_infix);
    let c = Cursor::start(at);
    let found = spec_mark_geq(text, c.pos);
    lemma_attach_fits(Cursor::start(c.pos), found, Slot::Geq, LifeRestartRule::Infix);
    lemma_concat_fits(
        c.kids,
        Cursor::start(c.pos).attach(found, Slot::Geq).kids,
        LifeRestartRule::Infix,
    );
    let found = spec_mark_leq(text, c.pos);
    lemma_attach_fits(Cursor::start(c.pos), found, Slot::Leq, LifeRestartRule::Infix);
    lemma_concat_fits(
        c.kids,
        Cursor::start(c.pos).attach(found, Slot::Leq).kids,
        LifeRestartRule::Infix,
    );
    let found = spec_mark_ne(text, c.pos);
    lemma_attach_fits(Cursor::start(c.pos), found, Slot::Ne, LifeRestartRule::Infix);
    lemma_concat_fits(
        c.kids,
        Cursor::start(c.pos).attach(found, Slot::Ne).kids,
        LifeRestartRule::Infix,
    );
    let found = spec_mark_eq(text, c.pos);
    lemma_attach_fits(Cursor::start(c.pos), found, Slot::Eq, LifeRestartRule::Infix);
    lemma_concat_fits(
        c.kids,
        Cursor::start(c.pos).attach(found, Slot::Eq).kids,
        LifeRestartRule::Infix,
    );
    let found = spec_mark_gt(text, c.pos);
    lemma_attach_fits(Cursor::start(c.pos), found, Slot::Gt, LifeRestartRule::Infix);
    lemma_concat_fits(
        c.kids,
        Cursor::start(c.pos).attach(found, Slot::Gt).kids,
        LifeRestartRule::Infix,
    );
    let found = spec_mark_lt(text, c.pos);
    lemma_attach_fits(Cursor::start(c.pos), found, Slot::Lt, LifeRestartRule::Infix);
    lemma_concat_fits(
        c.kids,
        Cursor::start(c.pos).attach(found, Slot::Lt).kids,
        LifeRestartRule::Infix,
    );
    let found = spec_mark_and(text, c.pos);
    lemma_attach_fits(Cursor::start(c.pos), found, Slot::And, LifeRestartRule::Infix);
    lemma_concat_fits(
        c.kids,
        Cursor::start(c.pos).attach(found, Slot::And).kids,
        LifeRestartRule::Infix,
    );
    let found = spec_mark_or(text, c.pos);
    lemma_attach_fits(Cursor::start(c.pos), found, Slot::Or, LifeRestartRule::Infix);
    lemma_concat_fits(
        c.kids,
        Cursor::start(c.pos).attach(found, Slot::Or).kids,
        LifeRestartRule::Infix,
    );
    let found = spec_mark_has(text, c.pos);
    lemma_attach_fits(Cursor::start(c.pos), found, Slot::Has, LifeRestartRule::Infix);
    lemma_concat_fits(
        c.kids,
        Cursor::start(c.pos).attach(found, Slot::Has).kids,
        LifeRestartRule::Infix,
    );
    let found = spec_mark_add_assign(text, c.pos);
    lemma_attach_fits(Cursor::start(c.pos), found, Slot::AddAssign, LifeRestartRule::Infix);
    lemma_concat_fits(
        c.kids,
        Cursor::start(c.pos).attach(found, Slot::AddAssign).kids,
        LifeRestartRule::Infix,
    );
    let found = spec_mark_sub_assign(text, c.pos);
    lemma_attach_fits(Cursor::start(c.pos), found, Slot::SubAssign, LifeRestartRule::Infix);
    lemma_concat_fits(
        c.kids,
        Cursor::start(c.pos).attach(found, Slot::SubAssign).kids,
        LifeRestartRule::Infix,
    );
    let found = spec_mark_add(text, c.pos);
    lemma_attach_fits(Cursor::start(c.pos), found, Slot::Add, LifeRestartRule::Infix);
    lemma_concat_fits(
        c.kids,
        Cursor::start(c.pos).attach(found, Slot::Add).kids,
        LifeRestartRule::Infix,
    );
    let found = spec_mark_sub(text, c.pos);
    lemma_attach_fits(Cursor::start(c.pos), found, Slot::Sub, LifeRestartRule::Infix);
    lemma_concat_fits(
        c.kids,
        Cursor::start(c.pos).attach(found, Slot::Sub).kids,
        LifeRestartRule::Infix,
    );
    let c = if !c.ok {
        c
    } else {
        let alt = Cursor::start(c.pos).attach(spec_mark_geq(text, c.pos), Slot::Geq);
        if alt.ok {
            c.join(alt)
        } else {
            let c = c.note(alt.far);
            let alt = Cursor::start(c.pos).attach(spec_mark_leq(text, c.pos), Slot::Leq);
            if alt.ok {
                c.join(alt)
            } else {
                let c = c.note(alt.far);
                let alt = Cursor::start(c.pos).attach(spec_mark_ne(text, c.pos), Slot::Ne);
                if alt.ok {
                    c.join(alt)
                } else {
                    let c = c.note(alt.far);
                    let alt = Cursor::start(c.pos).attach(spec_mark_eq(text, c.pos), Slot::Eq);
                    if alt.ok {
                        c.join(alt)
                    } else {
                        let c = c.note(alt.far);
                        let alt = Cursor::start(c.pos).attach(spec_mark_gt(text, c.pos), Slot::Gt);
                        if alt.ok {
                            c.join(alt)
                        } else {
                            let c = c.note(alt.far);
                            let alt = Cursor::start(c.pos).attach(
                                spec_mark_lt(text, c.pos),
                                Slot::Lt,
                            );
                            if alt.ok {
                                c.join(alt)
                            } else {
                                let c = c.note(alt.far);
                                let alt = Cursor::start(c.pos).attach(
                                    spec_mark_and(text, c.pos),
                                    Slot::And,
                                );
                                if alt.ok {
                                    c.join(alt)
                                } else {
                                    let c = c.note(alt.far);
                                    let alt = Cursor::start(c.pos).attach(
                                        spec_mark_or(text, c.pos),
                                        Slot::Or,
                                    );
                                    if alt.ok {
                                        c.join(alt)
                                    } else {
                                        let c = c.note(alt.far);
                                        let alt = Cursor::start(c.pos).attach(
                                            spec_mark_has(text, c.pos),
                                            Slot::Has,
                                        );
                                        if alt.ok {
                                            c.join(alt)
                                        } else {
                                            let c = c.note(alt.far);
                                            let alt = Cursor::start(c.pos).attach(
                                                spec_mark_add_assign(text, c.pos),
                                                Slot::AddAssign,
                                            );
                                            if alt.ok {
                                                c.join(alt)
                                            } else {
                                                let c = c.note(alt.far);
                                                let alt = Cursor::start(c.pos).attach(
                                                    spec_mark_sub_assign(text, c.pos),
                                                    Slot::SubAssign,
                                                );
                                                if alt.ok {
                                                    c.join(alt)
                                                } else {
                                                    let c = c.note(alt.far);
                                                    let alt = Cursor::start(c.pos).attach(
                                                        spec_mark_add(text, c.pos),
                                                        Slot::Add,
                                                    );
                                                    if alt.ok {
                                                        c.join(alt)
                                                    } else {
                                                        let c = c.note(alt.far);
                                                        let alt = Cursor::start(c.pos).attach(
                                                            spec_mark_sub(text, c.pos),
                                                            Slot::Sub,
                                                        );
                                                        if alt.ok {
                                                            c.join(alt)
                                                        } else {
                                                            c.note(alt.far).halt()
                                                        }
                                                    }
                                                }
                                            }
                                        }
                                    }
                                }
                            }
                        }
                    }
                }
            }
        }
    };
    match c.finish(text, LifeRestartRule::Infix, at).tree {
        Some(tree) => {
            lemma_fits(tree, LifeRestartRule::Infix);
        },
        None => {},
    }
}

/// What the rule `Suffix` matches has the shape of a node of `Suffix`.
pub proof fn lemma_suffix_fits(text: Seq<char>, at: int)
    ensures
        spec_suffix(text, at).tree matches Some(tree) ==> fits(tree, LifeRestartRule::Suffix),
{
    reveal(spec_suffix);
    let c = Cursor::start(at);
    let found = spec_mark_suffix_0(text, c.pos);
    lemma_attach_fits(Cursor::start(c.pos), found, Slot::Suffix0, LifeRestartRule::Suffix);
    lemma_concat_fits(
        c.kids,
        Cursor::start(c.pos).attach(found, Slot::Suffix0).kids,
        LifeRestartRule::Suffix,
    );
    let c = if !c.ok {
        c
    } else {
        let alt = Cursor::start(c.pos).attach(spec_mark_suffix_0(text, c.pos), Slot::Suffix0);
        if alt.ok {
            c.join(alt)
        } else {
            c.note(alt.far).halt()
        }
    };
    match c.finish(text, LifeRestartRule::Suffix, at).tree {
        Some(tree) => {
            lemma_fits(tree, LifeRestartRule::Suffix);
        },
        None => {},
    }
}

/// What the rule `Atomic` matches has the shape of a node of `Atomic`.
#[verifier::rlimit(30)]
pub proof fn lemma_atomic_fits(text: Seq<char>, at: int)
    ensures
        spec_atomic(text, at).tree matches Some(tree) ==> fits(tree, LifeRestartRule::Atomic),
    decreases text.len() - at, 1nat,
{
    let c = Cursor::start(at);
    lemma_boolean_fits(text, c.pos);
    let found = spec_boolean(text, c.pos);
    lemma_attach_fits(Cursor::start(c.pos), found, Slot::Boolean, LifeRestartRule::Atomic);
    lemma_concat_fits(
        c.kids,
        Cursor::start(c.pos).attach(found, Slot::Boolean).kids,
        LifeRestartRule::Atomic,
    );
    lemma_lexical_leaf(text, c.pos);
    let found = spec_identifier(text, c.pos);
    lemma_attach_fits(Cursor::start(c.pos), found, Slot::Identifier, LifeRestartRule::Atomic);
    lemma_concat_fits(
        c.kids,
        Cursor::start(c.pos).attach(found, Slot::Identifier).kids,
        LifeRestartRule::Atomic,
    );
    lemma_lexical_leaf(text, c.pos);
    let found = spec_integer(text, c.pos);
    lemma_attach_fits(Cursor::start(c.pos), found, Slot::Integer, LifeRestartRule::Atomic);
    lemma_concat_fits(
        c.kids,
        Cursor::start(c.pos).attach(found, Slot::Integer).kids,
        LifeRestartRule::Atomic,
    );
    if at <= c.pos && c.pos <= text.len() {
        lemma_list_fits(text, c.pos);
    }
    let found = if at <= c.pos && c.pos <= text.len() {
        spec_list(text, c.pos)
    } else {
        Outcome::none(c.pos)
    };
    lemma_attach_fits(Cursor::start(c.pos), found, Slot::List, LifeRestartRule::Atomic);
    lemma_concat_fits(
        c.kids,
        Cursor::start(c.pos).attach(found, Slot::List).kids,
        LifeRestartRule::Atomic,
    );
    lemma_string_raw_fits(text, c.pos);
    let found = spec_string_raw(text, c.pos);
    lemma_attach_fits(Cursor::start(c.pos), found, Slot::StringRaw, LifeRestartRule::Atomic);
    lemma_concat_fits(
        c.kids,
        Cursor::start(c.pos).attach(found, Slot::StringRaw).kids,
        LifeRestartRule::Atomic,
    );
    lemma_string_normal_fits(text, c.pos);
    let found = spec_string_normal(text, c.pos);
    lemma_attach_fits(Cursor::start(c.pos), found, Slot::StringNormal, LifeRestartRule::Atomic);
    lemma_concat_fits(
        c.kids,
        Cursor::start(c.pos).attach(found, Slot::StringNormal).kids,
        LifeRestartRule::Atomic,
    );
    let c = if !c.ok {
        c
    } else {
        let alt = Cursor::start(c.pos).attach(spec_boolean(text, c.pos), Slot::Boolean);
        if alt.ok {
            c.join(alt)
        } else {
            let c = c.note(alt.far);
            let alt = Cursor::start(c.pos).attach(spec_identifier(text, c.pos), Slot::Identifier);
            if alt.ok {
                c.join(alt)
            } else {
                let c = c.note(alt.far);
                let alt = Cursor::start(c.pos).attach(spec_integer(text, c.pos), Slot::Integer);
                if alt.ok {
                    c.join(alt)
                } else {
                    let c = c.note(alt.far);
                    let found = if at <= c.pos && c.pos <= text.len() {
                        spec_list(text, c.pos)
                    } else {
                        Outcome::none(c.pos)
                    };
                    let alt = Cursor::start(c.pos).attach(found, Slot::List);
                    if alt.ok {
                        c.join(alt)
                    } else {
                        let c = c.note(alt.far);
                        let alt = Cursor::start(c.pos).attach(
                            spec_string_raw(text, c.pos),
                            Slot::StringRaw,
                        );
                        if alt.ok {
                            c.join(alt)
                        } else {
                            let c = c.note(alt.far);
                            let alt = Cursor::start(c.pos).attach(
                                spec_string_normal(text, c.pos),
                                Slot::StringNormal,
                            );
                            if alt.ok {
                                c.join(alt)
                            } else {
                                c.note(alt.far).halt()
                            }
                        }
                    }
                }
            }
        }
    };
    match c.finish(text, LifeRestartRule::Atomic, at).tree {
        Some(tree) => {
            lemma_fits(tree, LifeRestartRule::Atomic);
        },
        None => {},
    }
}

/// Trying `~ COMMA#comma` collects only children that fit a node of `List`.
pub proof fn lemma_list_comma_fit(text: Seq<char>, at: int)
    ensures
        all_fit(spec_list_comma(text, at).kids, LifeRestartRule::List),
{
    reveal(spec_list_comma);
    let c = Cursor::start(at);
    let c = c.trivia(text);
    lemma_comma_leaf(text, c.pos);
    let found = spec_comma(text, c.pos);
    lemma_attach_fits(c, found, Slot::Comma, LifeRestartRule::List);
    let c = c.attach(found, Slot::Comma);
}

/// Trying `~ Atomic#atomic (~ COMMA#comma)?` collects only children that fit a
/// node of `List`.
#[verifier::rlimit(30)]
pub proof fn lemma_list_item_fit(text: Seq<char>, at: int)
    ensures
        all_fit(spec_list_item(text, at).kids, LifeRestartRule::List),
    decreases text.len() - at, 2nat,
{
    let c = Cursor::start(at);
    let c = c.trivia(text);
    if at <= c.pos && c.pos <= text.len() {
        lemma_atomic_fits(text, c.pos);
    }
    let found = if at <= c.pos && c.pos <= text.len() {
        spec_atomic(text, c.pos)
    } else {
        Outcome::none(c.pos)
    };
    lemma_attach_fits(c, found, Slot::Atomic, LifeRestartRule::List);
    let c = c.attach(found, Slot::Atomic);
    lemma_list_comma_fit(text, c.pos);
    let group = spec_list_comma(text, c.pos);
    lemma_concat_fits(c.kids, group.kids, LifeRestartRule::List);
    let c = c.option(group);
}

/// Matching `(~ Atomic#atomic (~ COMMA#comma)?)*` adds only children that fit a
/// node of `List`, and takes none away.
#[verifier::rlimit(30)]
pub proof fn lemma_list_items_fit(text: Seq<char>, from: Cursor)
    requires
        all_fit(from.kids, LifeRestartRule::List),
    ensures
        all_fit(spec_list_items(text, from).kids, LifeRestartRule::List),
        keeps(from.kids, spec_list_items(text, from).kids),
    decreases text.len() - from.pos, 3nat,
{
    if from.ok {
        if from.pos <= text.len() {
            lemma_list_item_fit(text, from.pos);
        }
        let step = if from.pos <= text.len() {
            spec_list_item(text, from.pos)
        } else {
            Cursor::none(from.pos)
        };
        if step.ok && from.pos < step.pos <= text.len() {
            lemma_concat_fits(from.kids, step.kids, LifeRestartRule::List);
            lemma_list_items_fit(text, from.join(step));
        }
    }
}

/// What the rule `List` matches has the shape of a node of `List`.
#[verifier::rlimit(30)]
pub proof fn lemma_list_fits(text: Seq<char>, at: int)
    ensures
        spec_list(text, at).tree matches Some(tree) ==> fits(tree, LifeRestartRule::List),
    decreases text.len() - at, 0nat,
{
    let c = Cursor::start(at);
    let c = c.word(text, "["@);
    if at < c.pos && c.pos <= text.len() {
        lemma_list_items_fit(text, c);
    }
    let c = if at < c.pos && c.pos <= text.len() {
        spec_list_items(text, c)
    } else {
        c.halt()
    };
    let c = c.trivia(text);
    let c = c.word(text, "]"@);
    match c.finish(text, LifeRestartRule::List, at).tree {
        Some(tree) => {
            lemma_fits(tree, LifeRestartRule::List);
        },
        None => {},
    }
}

/// What the rule `String` matches has the shape of a node of `String`.
pub proof fn lemma_string_fits(text: Seq<char>, at: int)
    ensures
        spec_string(text, at).tree matches Some(tree) ==> fits(tree, LifeRestartRule::String),
{
    reveal(spec_string);
    let c = Cursor::start(at);
    lemma_string_raw_fits(text, c.pos);
    let found = spec_string_raw(text, c.pos);
    lemma_attach_fits(Cursor::start(c.pos), found, Slot::StringRaw, LifeRestartRule::String);
    lemma_concat_fits(
        c.kids,
        Cursor::start(c.pos).attach(found, Slot::StringRaw).kids,
        LifeRestartRule::String,
    );
    lemma_string_normal_fits(text, c.pos);
    let found = spec_string_normal(text, c.pos);
    lemma_attach_fits(Cursor::start(c.pos), found, Slot::StringNormal, LifeRestartRule::String);
    lemma_concat_fits(
        c.kids,
        Cursor::start(c.pos).attach(found, Slot::StringNormal).kids,
        LifeRestartRule::String,
    );
    let c = if !c.ok {
        c
    } else {
        let alt = Cursor::start(c.pos).attach(spec_string_raw(text, c.pos), Slot::StringRaw);
        if alt.ok {
            c.join(alt)
        } else {
            let c = c.note(alt.far);
            let alt = Cursor::start(c.pos).attach(
                spec_string_normal(text, c.pos),
                Slot::StringNormal,
            );
            if alt.ok {
                c.join(alt)
            } else {
                c.note(alt.far).halt()
            }
        }
    };
    match c.finish(text, LifeRestartRule::String, at).tree {
        Some(tree) => {
            lemma_fits(tree, LifeRestartRule::String);
        },
        None => {},
    }
}

/// What the rule `StringRaw` matches has the shape of a node of `StringRaw`.
pub proof fn lemma_string_raw_fits(text: Seq<char>, at: int)
    ensures
        spec_string_raw(text, at).tree matches Some(tree)
            ==> fits(tree, LifeRestartRule::StringRaw),
{
    reveal(spec_string_raw);
    let c = Cursor::start(at);
    let c = c.word(text, "'"@);
    lemma_lexical_leaf(text, c.pos);
    let found = spec_string_raw_text(text, c.pos);
    lemma_attach_fits(c, found, Slot::StringRawText, LifeRestartRule::StringRaw);
    let c = c.attach(found, Slot::StringRawText);
    let c = c.word(text, "'"@);
    match c.finish(text, LifeRestartRule::StringRaw, at).tree {
        Some(tree) => {
            lemma_fits(tree, LifeRestartRule::StringRaw);
        },
        None => {},
    }
}

/// Trying `StringItem#string_item` collects only children that fit a node of
/// `StringNormal`.
pub proof fn lemma_string_normal_item_fit(text: Seq<char>, at: int)
    ensures
        all_fit(spec_string_normal_item(text, at).kids, LifeRestartRule::StringNormal),
{
    reveal(spec_string_normal_item);
    let c = Cursor::start(at);
    lemma_string_item_fits(text, c.pos);
    let found = spec_string_item(text, c.pos);
    lemma_attach_fits(c, found, Slot::StringItem, LifeRestartRule::StringNormal);
    let c = c.attach(found, Slot::StringItem);
}

/// Matching `(StringItem#string_item)*` adds only children that fit a node of
/// `StringNormal`, and takes none away.
#[verifier::rlimit(30)]
pub proof fn lemma_string_normal_items_fit(text: Seq<char>, from: Cursor)
    requires
        all_fit(from.kids, LifeRestartRule::StringNormal),
    ensures
        all_fit(spec_string_normal_items(text, from).kids, LifeRestartRule::StringNormal),
        keeps(from.kids, spec_string_normal_items(text, from).kids),
    decreases text.len() - from.pos,
{
    if from.ok {
        lemma_string_normal_item_fit(text, from.pos);
        let step = spec_string_normal_item(text, from.pos);
        if step.ok && from.pos < step.pos <= text.len() {
            lemma_concat_fits(from.kids, step.kids, LifeRestartRule::StringNormal);
            lemma_string_normal_items_fit(text, from.join(step));
        }
    }
}

/// What the rule `StringNormal` matches has the shape of a node of
/// `StringNormal`.
#[verifier::rlimit(30)]
pub proof fn lemma_string_normal_fits(text: Seq<char>, at: int)
    ensures
        spec_string_normal(text, at).tree matches Some(tree)
            ==> fits(tree, LifeRestartRule::StringNormal),
{
    reveal(spec_string_normal);
    let c = Cursor::start(at);
    let c = c.word(text, "\""@);
    lemma_string_normal_items_fit(text, c);
    let c = spec_string_normal_items(text, c);
    let c = c.word(text, "\""@);
    match c.finish(text, LifeRestartRule::StringNormal, at).tree {
        Some(tree) => {
            lemma_fits(tree, LifeRestartRule::StringNormal);
        },
        None => {},
    }
}

/// What the rule `StringItem` matches has the shape of a node of `StringItem`.
pub proof fn lemma_string_item_fits(text: Seq<char>, at: int)
    ensures
        spec_string_item(text, at).tree matches Some(tree)
            ==> fits(tree, LifeRestartRule::StringItem),
{
    reveal(spec_string_item);
    let c = Cursor::start(at);
    lemma_escaped_unicode_fits(text, c.pos);
    let found = spec_escaped_unicode(text, c.pos);
    lemma_attach_fits(
        Cursor::start(c.pos),
        found,
        Slot::EscapedUnicode,
        LifeRestartRule::StringItem,
    );
    lemma_concat_fits(
        c.kids,
        Cursor::start(c.pos).attach(found, Slot::EscapedUnicode).kids,
        LifeRestartRule::StringItem,
    );
    lemma_lexical_leaf(text, c.pos);
    let found = spec_escaped_character(text, c.pos);
    lemma_attach_fits(
        Cursor::start(c.pos),
        found,
        Slot::EscapedCharacter,
        LifeRestartRule::StringItem,
    );
    lemma_concat_fits(
        c.kids,
        Cursor::start(c.pos).attach(found, Slot::EscapedCharacter).kids,
        LifeRestartRule::StringItem,
    );
    lemma_lexical_leaf(text, c.pos);
    let found = spec_text_any(text, c.pos);
    lemma_attach_fits(Cursor::start(c.pos), found, Slot::TextAny, LifeRestartRule::StringItem);
    lemma_concat_fits(
        c.kids,
        Cursor::start(c.pos).attach(found, Slot::TextAny).kids,
        LifeRestartRule::StringItem,
    );
    let c = if !c.ok {
        c
    } else {
        let alt = Cursor::start(c.pos).attach(
            spec_escaped_unicode(text, c.pos),
            Slot::EscapedUnicode,
        );
        if alt.ok {
            c.join(alt)
        } else {
            let c = c.note(alt.far);
            let alt = Cursor::start(c.pos).attach(
                spec_escaped_character(text, c.pos),
                Slot::EscapedCharacter,
            );
            if alt.ok {
                c.join(alt)
            } else {
                let c = c.note(alt.far);
                let alt = Cursor::start(c.pos).attach(spec_text_any(text, c.pos), Slot::TextAny);
                if alt.ok {
                    c.join(alt)
                } else {
                    c.note(alt.far).halt()
                }
            }
        }
    };
    match c.finish(text, LifeRestartRule::StringItem, at).tree {
        Some(tree) => {
            lemma_fits(tree, LifeRestartRule::StringItem);
        },
        None => {},
    }
}

/// What the rule `EscapedUnicode` matches has the shape of a node of
/// `EscapedUnicode`.
pub proof fn lemma_escaped_unicode_fits(text: Seq<char>, at: int)
    ensures
        spec_escaped_unicode(text, at).tree matches Some(tree)
            ==> fits(tree, LifeRestartRule::EscapedUnicode),
{
    reveal(spec_escaped_unicode);
    let c = Cursor::start(at);
    let c = c.word(text, "\\u{"@);
    lemma_lexical_leaf(text, c.pos);
    let found = spec_hex(text, c.pos);
    lemma_attach_fits(c, found, Slot::Hex, LifeRestartRule::EscapedUnicode);
    let c = c.attach(found, Slot::Hex);
    let c = c.word(text, "}"@);
    match c.finish(text, LifeRestartRule::EscapedUnicode, at).tree {
        Some(tree) => {
            lemma_fits(tree, LifeRestartRule::EscapedUnicode);
        },
        None => {},
    }
}

/// What the rule `Boolean` matches has the shape of a node of `Boolean`.
pub proof fn lemma_boolean_fits(text: Seq<char>, at: int)
    ensures
        spec_boolean(text, at).tree matches Some(tree) ==> fits(tree, LifeRestartRule::Boolean),
{
    reveal(spec_boolean);
    let c = Cursor::start(at);
    let found = spec_mark_true(text, c.pos);
    lemma_attach_fits(Cursor::start(c.pos), found, Slot::True, LifeRestartRule::Boolean);
    lemma_concat_fits(
        c.kids,
        Cursor::start(c.pos).attach(found, Slot::True).kids,
        LifeRestartRule::Boolean,
    );
    let found = spec_mark_false(text, c.pos);
    lemma_attach_fits(Cursor::start(c.pos), found, Slot::False, LifeRestartRule::Boolean);
    lemma_concat_fits(
        c.kids,
        Cursor::start(c.pos).attach(found, Slot::False).kids,
        LifeRestartRule::Boolean,
    );
    let c = if !c.ok {
        c
    } else {
        let alt = Cursor::start(c.pos).attach(spec_mark_true(text, c.pos), Slot::True);
        if alt.ok {
            c.join(alt)
        } else {
            let c = c.note(alt.far);
            let alt = Cursor::start(c.pos).attach(spec_mark_false(text, c.pos), Slot::False);
            if alt.ok {
                c.join(alt)
            } else {
                c.note(alt.far).halt()
            }
        }
    };
    match c.finish(text, LifeRestartRule::Boolean, at).tree {
        Some(tree) => {
            lemma_fits(tree, LifeRestartRule::Boolean);
        },
        None => {},
    }
}

/// Whatever a rule of the grammar matches has the shape of a node of that
/// rule, so that its typed form exists.
pub proof fn lemma_rule_fits(text: Seq<char>, rule: LifeRestartRule, at: int)
    ensures
        spec_rule(text, rule, at).tree matches Some(tree) ==> fits(tree, rule),
{
    lemma_lexical_leaf(text, at);
    match rule {
        LifeRestartRule::Root => {
            lemma_root_fits(text, at);
        },
        LifeRestartRule::TopStatement => {
            lemma_top_statement_fits(text, at);
        },
        LifeRestartRule::PropertyStatement => {
            lemma_property_statement_fits(text, at);
        },
        LifeRestartRule::PropertyItem => {
            lemma_property_item_fits(text, at);
        },
        LifeRestartRule::EnumerateStatement => {
            lemma_enumerate_statement_fits(text, at);
        },
        LifeRestartRule::OptionStatement => {
            lemma_option_statement_fits(text, at);
        },
        LifeRestartRule::OptionItem => {
            lemma_option_item_fits(text, at);
        },
        LifeRestartRule::TraitGroup => {
            lemma_trait_group_fits(text, at);
        },
        LifeRestartRule::TraitStatement => {
            lemma_trait_statement_fits(text, at);
        },
        LifeRestartRule::TraitItem => {
            lemma_trait_item_fits(text, at);
        },
        LifeRestartRule::TraitProperty => {
            lemma_trait_property_fits(text, at);
        },
        LifeRestartRule::RequirementStatement => {
            lemma_requirement_statement_fits(text, at);
        },
        LifeRestartRule::EffectStatement => {
            lemma_effect_statement_fits(text, at);
        },
        LifeRestartRule::EventGroup => {
            lemma_event_group_fits(text, at);
        },
        LifeRestartRule::EventStatement => {
            lemma_event_statement_fits(text, at);
        },
        LifeRestartRule::EventItem => {
            lemma_event_item_fits(text, at);
        },
        LifeRestartRule::EventProperty => {
            lemma_event_property_fits(text, at);
        },
        LifeRestartRule::IdStatement => {
            lemma_id_statement_fits(text, at);
        },
        LifeRestartRule::DescriptionStatement => {
            lemma_description_statement_fits(text, at);
        },
        LifeRestartRule::Statement => {
            lemma_statement_fits(text, at);
        },
        LifeRestartRule::IfStatement => {
            lemma_if_statement_fits(text, at);
        },
        LifeRestartRule::IfThenBlock => {
            lemma_if_then_block_fits(text, at);
        },
        LifeRestartRule::IfElseIfBlock => {
            lemma_if_else_if_block_fits(text, at);
        },
        LifeRestartRule::IfElseBlock => {
            lemma_if_else_block_fits(text, at);
        },
        LifeRestartRule::Expression => {
            lemma_expression_fits(text, at);
        },
        LifeRestartRule::Term => {
            lemma_term_fits(text, at);
        },
        LifeRestartRule::Prefix => {
            lemma_prefix_fits(text, at);
        },
        LifeRestartRule::Infix => {
            lemma_infix_fits(text, at);
        },
        LifeRestartRule::Suffix => {
            lemma_suffix_fits(text, at);
        },
        LifeRestartRule::Atomic => {
            lemma_atomic_fits(text, at);
        },
        LifeRestartRule::List => {
            lemma_list_fits(text, at);
        },
        LifeRestartRule::String => {
            lemma_string_fits(text, at);
        },
        LifeRestartRule::StringRaw => {
            lemma_string_raw_fits(text, at);
        },
        LifeRestartRule::StringNormal => {
            lemma_string_normal_fits(text, at);
        },
        LifeRestartRule::StringItem => {
            lemma_string_item_fits(text, at);
        },
        LifeRestartRule::EscapedUnicode => {
            lemma_escaped_unicode_fits(text, at);
        },
        LifeRestartRule::Boolean => {
            lemma_boolean_fits(text, at);
        },
        LifeRestartRule::EOS => {
            lemma_eos_leaf(text, at);
        },
        LifeRestartRule::COMMA => {
            lemma_comma_leaf(text, at);
        },
        LifeRestartRule::COLON => {
            lemma_colon_leaf(text, at);
        },
        LifeRestartRule::KW_PROPERTY => {
            lemma_kw_property_leaf(text, at);
        },
        LifeRestartRule::KW_TRAIT_GROUP => {
            lemma_kw_trait_group_leaf(text, at);
        },
        LifeRestartRule::KW_TRAIT => {
            lemma_kw_trait_leaf(text, at);
        },
        LifeRestartRule::KW_EVENT_GROUP => {
            lemma_kw_event_group_leaf(text, at);
        },
        LifeRestartRule::KW_EVENT => {
            lemma_kw_event_leaf(text, at);
        },
        LifeRestartRule::KW_ID => {
            lemma_kw_id_leaf(text, at);
        },
        LifeRestartRule::KW_DESCRIPTION => {
            lemma_kw_description_leaf(text, at);
        },
        LifeRestartRule::KW_REQUIREMENT => {
            lemma_kw_requirement_leaf(text, at);
        },
        LifeRestartRule::KW_EFFECT => {
            lemma_kw_effect_leaf(text, at);
        },
        LifeRestartRule::KW_ENUMERATE => {
            lemma_kw_enumerate_leaf(text, at);
        },
        LifeRestartRule::KW_OPTIONS => {
            lemma_kw_options_leaf(text, at);
        },
        LifeRestartRule::KW_IF => {
            lemma_kw_if_leaf(text, at);
        },
        LifeRestartRule::KW_ELSE_IF => {
            lemma_kw_else_if_leaf(text, at);
        },
        LifeRestartRule::KW_ELSE => {
            lemma_kw_else_leaf(text, at);
        },
        _ => {},
    }
    match spec_rule(text, rule, at).tree {
        Some(tree) => {
            lemma_fits(tree, rule);
        },
        None => {},
    }
}

} // verus!
