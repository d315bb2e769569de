//! What the grammar matches does not depend on the text before the match:
//! every rule, tried further on in a longer text, matches the same, with
//! every position moved by the characters and every span by the bytes of
//! what was put before.

use crate::syntax::chars::white_space;
use crate::syntax::cst::CstTree;
use crate::syntax::cursor::{Cursor, Outcome};
use crate::syntax::lexical::{
    lemma_run, run, spec_escaped_character, spec_hex, spec_identifier, spec_integer,
    spec_string_raw_text, spec_text_any, trivia_len, trivia_piece_len, CharClass,
};
use crate::syntax::moved::{
    bytes_of, lemma_attach_moves, lemma_end_moves, lemma_finish_moves, lemma_join_moves,
    lemma_lexical_moves, lemma_moved_is_tree, lemma_offset_moves, lemma_plain_steps_move,
    lemma_run_moves, lemma_skip_moves, lemma_starts_with_moves, lemma_token_moves,
    lemma_trivia_moves, lemma_trivia_piece_moves, lemma_word_moves, moved_all,
};
use crate::syntax::parse_cst::{
    spec_rule,
    spec_atomic, spec_boolean, spec_description_comma, spec_description_last_comma,
    spec_description_more, spec_description_plain, spec_description_rest,
    spec_description_round, spec_description_statement, spec_description_strings,
    spec_effect_statement, spec_effect_statement_item, spec_effect_statement_items,
    spec_enumerate_statement, spec_enumerate_statement_comma, spec_enumerate_statement_item,
    spec_enumerate_statement_items, spec_escaped_unicode, spec_event_group,
    spec_event_group_item, spec_event_group_items, spec_event_item, spec_event_property,
    spec_event_property_block, spec_event_property_braced, spec_event_property_entries,
    spec_event_property_entry, spec_event_property_suffix, spec_event_statement,
    spec_event_statement_item, spec_event_statement_items, spec_expression,
    spec_expression_more, spec_expression_rest, spec_id_statement, spec_if_else_block,
    spec_if_else_block_item, spec_if_else_block_items, spec_if_else_if_block,
    spec_if_else_if_block_item, spec_if_else_if_block_items, spec_if_statement,
    spec_if_statement_else, spec_if_statement_else_if, spec_if_then_block,
    spec_if_then_block_item, spec_if_then_block_items, spec_infix, spec_list, spec_list_comma,
    spec_list_item, spec_list_items, spec_option_item, spec_option_item_weight,
    spec_option_statement, spec_option_statement_comma, spec_option_statement_item,
    spec_option_statement_items, spec_parse_cst, spec_prefix, spec_property_item, spec_property_statement,
    spec_property_statement_item, spec_property_statement_items, spec_requirement_statement,
    spec_requirement_statement_item, spec_requirement_statement_items, spec_root,
    spec_root_item, spec_root_items, spec_statement, spec_string, spec_string_item,
    spec_string_normal, spec_string_normal_item, spec_string_normal_items, spec_string_raw,
    spec_suffix, spec_term, spec_term_prefix, spec_term_prefixes, spec_term_suffix,
    spec_term_suffixes, spec_top_statement, spec_trait_group, spec_trait_group_item,
    spec_trait_group_items, spec_trait_item, spec_trait_property, spec_trait_statement,
    spec_trait_statement_item, spec_trait_statement_items,
};
use crate::syntax::rule::{LifeRestartRule, Slot};
use crate::syntax::words::{
    colon_len, comma_len, eos_len, kw_description_len, kw_effect_len, kw_else_if_len,
    kw_else_len, kw_enumerate_len, kw_event_group_len, kw_event_len, kw_id_len, kw_if_len,
    kw_options_len, kw_property_len, kw_requirement_len, kw_trait_group_len, kw_trait_len,
    mark_add_assign_len, mark_add_len, mark_and_len, mark_eq_len, mark_false_len, mark_geq_len,
    mark_gt_len, mark_has_len, mark_leq_len, mark_lt_len, mark_ne_len, mark_or_len,
    mark_prefix_0_len, mark_sub_assign_len, mark_sub_len, mark_suffix_0_len, mark_true_len,
    spec_colon, spec_comma, spec_eos, spec_kw_description, spec_kw_effect, spec_kw_else,
    spec_kw_else_if, spec_kw_enumerate, spec_kw_event, spec_kw_event_group, spec_kw_id,
    spec_kw_if, spec_kw_options, spec_kw_property, spec_kw_requirement, spec_kw_trait,
    spec_kw_trait_group, spec_mark_add, spec_mark_add_assign, spec_mark_and, spec_mark_eq,
    spec_mark_false, spec_mark_geq, spec_mark_gt, spec_mark_has, spec_mark_leq, spec_mark_lt,
    spec_mark_ne, spec_mark_or, spec_mark_prefix_0, spec_mark_sub, spec_mark_sub_assign,
    spec_mark_suffix_0, spec_mark_true,
};
use vstd::prelude::*;

verus! {

/// What the rule `EOS` matches does not depend on the text before it: further
/// on in a longer text, it matches the same, moved.
pub proof fn lemma_eos_moves(before: Seq<char>, text: Seq<char>, at: int)
    requires
        0 <= at <= text.len(),
    ensures
        spec_eos(before + text, before.len() + at)
            == spec_eos(text, at).moved(before.len(), bytes_of(before)),
        spec_eos(text, at).within(text, at),
        spec_eos(text, at).tree is Some ==> spec_eos(text, at).end > at,
{
    reveal(spec_eos);
    lemma_starts_with_moves(before, text, at, ";"@);
    lemma_token_moves(before, text, LifeRestartRule::EOS, at, eos_len(text, at));
}

/// What the rule `COMMA` matches does not depend on the text before it: further
/// on in a longer text, it matches the same, moved.
pub proof fn lemma_comma_moves(before: Seq<char>, text: Seq<char>, at: int)
    requires
        0 <= at <= text.len(),
    ensures
        spec_comma(before + text, before.len() + at)
            == spec_comma(text, at).moved(before.len(), bytes_of(before)),
        spec_comma(text, at).within(text, at),
        spec_comma(text, at).tree is Some ==> spec_comma(text, at).end > at,
{
    reveal(spec_comma);
    lemma_starts_with_moves(before, text, at, ","@);
    lemma_token_moves(before, text, LifeRestartRule::COMMA, at, comma_len(text, at));
}

/// What the rule `COLON` matches does not depend on the text before it: further
/// on in a longer text, it matches the same, moved.
pub proof fn lemma_colon_moves(before: Seq<char>, text: Seq<char>, at: int)
    requires
        0 <= at <= text.len(),
    ensures
        spec_colon(before + text, before.len() + at)
            == spec_colon(text, at).moved(before.len(), bytes_of(before)),
        spec_colon(text, at).within(text, at),
        spec_colon(text, at).tree is Some ==> spec_colon(text, at).end > at,
{
    reveal(spec_colon);
    lemma_starts_with_moves(before, text, at, ":"@);
    lemma_token_moves(before, text, LifeRestartRule::COLON, at, colon_len(text, at));
}

/// What the rule `KW_PROPERTY` matches does not depend on the text before it:
/// further on in a longer text, it matches the same, moved.
pub proof fn lemma_kw_property_moves(before: Seq<char>, text: Seq<char>, at: int)
    requires
        0 <= at <= text.len(),
    ensures
        spec_kw_property(before + text, before.len() + at)
            == spec_kw_property(text, at).moved(before.len(), bytes_of(before)),
        spec_kw_property(text, at).within(text, at),
        spec_kw_property(text, at).tree is Some ==> spec_kw_property(text, at).end > at,
{
    reveal(spec_kw_property);
    lemma_starts_with_moves(before, text, at, "属性"@);
    lemma_starts_with_moves(before, text, at, "property"@);
    lemma_token_moves(before, text, LifeRestartRule::KW_PROPERTY, at, kw_property_len(text, at));
}

/// What the rule `KW_TRAIT_GROUP` matches does not depend on the text before
/// it: further on in a longer text, it matches the same, moved.
pub proof fn lemma_kw_trait_group_moves(before: Seq<char>, text: Seq<char>, at: int)
    requires
        0 <= at <= text.len(),
    ensures
        spec_kw_trait_group(before + text, before.len() + at)
            == spec_kw_trait_group(text, at).moved(before.len(), bytes_of(before)),
        spec_kw_trait_group(text, at).within(text, at),
        spec_kw_trait_group(text, at).tree is Some ==> spec_kw_trait_group(text, at).end > at,
{
    reveal(spec_kw_trait_group);
    lemma_starts_with_moves(before, text, at, "特质组"@);
    lemma_starts_with_moves(before, text, at, "特征组"@);
    lemma_starts_with_moves(before, text, at, "天赋组"@);
    lemma_starts_with_moves(before, text, at, "trait-group"@);
    lemma_starts_with_moves(before, text, at, "talent-group"@);
    lemma_starts_with_moves(before, text, at, "traits"@);
    lemma_starts_with_moves(before, text, at, "talents"@);
    lemma_token_moves(
        before,
        text,
        LifeRestartRule::KW_TRAIT_GROUP,
        at,
        kw_trait_group_len(text, at),
    );
}

/// What the rule `KW_TRAIT` matches does not depend on the text before it:
/// further on in a longer text, it matches the same, moved.
pub proof fn lemma_kw_trait_moves(before: Seq<char>, text: Seq<char>, at: int)
    requires
        0 <= at <= text.len(),
    ensures
        spec_kw_trait(before + text, before.len() + at)
            == spec_kw_trait(text, at).moved(before.len(), bytes_of(before)),
        spec_kw_trait(text, at).within(text, at),
        spec_kw_trait(text, at).tree is Some ==> spec_kw_trait(text, at).end > at,
{
    reveal(spec_kw_trait);
    lemma_starts_with_moves(before, text, at, "特质"@);
    lemma_starts_with_moves(before, text, at, "特征"@);
    lemma_starts_with_moves(before, text, at, "天赋"@);
    lemma_starts_with_moves(before, text, at, "trait"@);
    lemma_starts_with_moves(before, text, at, "talent"@);
    lemma_token_moves(before, text, LifeRestartRule::KW_TRAIT, at, kw_trait_len(text, at));
}

/// What the rule `KW_EVENT_GROUP` matches does not depend on the text before
/// it: further on in a longer text, it matches the same, moved.
pub proof fn lemma_kw_event_group_moves(before: Seq<char>, text: Seq<char>, at: int)
    requires
        0 <= at <= text.len(),
    ensures
        spec_kw_event_group(before + text, before.len() + at)
            == spec_kw_event_group(text, at).moved(before.len(), bytes_of(before)),
        spec_kw_event_group(text, at).within(text, at),
        spec_kw_event_group(text, at).tree is Some ==> spec_kw_event_group(text, at).end > at,
{
    reveal(spec_kw_event_group);
    lemma_starts_with_moves(before, text, at, "事件组"@);
    lemma_starts_with_moves(before, text, at, "event-group"@);
    lemma_starts_with_moves(before, text, at, "events"@);
    lemma_token_moves(
        before,
        text,
        LifeRestartRule::KW_EVENT_GROUP,
        at,
        kw_event_group_len(text, at),
    );
}

/// What the rule `KW_EVENT` matches does not depend on the text before it:
/// further on in a longer text, it matches the same, moved.
pub proof fn lemma_kw_event_moves(before: Seq<char>, text: Seq<char>, at: int)
    requires
        0 <= at <= text.len(),
    ensures
        spec_kw_event(before + text, before.len() + at)
            == spec_kw_event(text, at).moved(before.len(), bytes_of(before)),
        spec_kw_event(text, at).within(text, at),
        spec_kw_event(text, at).tree is Some ==> spec_kw_event(text, at).end > at,
{
    reveal(spec_kw_event);
    lemma_starts_with_moves(before, text, at, "事件"@);
    lemma_starts_with_moves(before, text, at, "event"@);
    lemma_token_moves(before, text, LifeRestartRule::KW_EVENT, at, kw_event_len(text, at));
}

/// What the rule `KW_ID` matches does not depend on the text before it: further
/// on in a longer text, it matches the same, moved.
pub proof fn lemma_kw_id_moves(before: Seq<char>, text: Seq<char>, at: int)
    requires
        0 <= at <= text.len(),
    ensures
        spec_kw_id(before + text, before.len() + at)
            == spec_kw_id(text, at).moved(before.len(), bytes_of(before)),
        spec_kw_id(text, at).within(text, at),
        spec_kw_id(text, at).tree is Some ==> spec_kw_id(text, at).end > at,
{
    reveal(spec_kw_id);
    lemma_starts_with_moves(before, text, at, "编号"@);
    lemma_starts_with_moves(before, text, at, "id"@);
    lemma_starts_with_moves(before, text, at, "ID"@);
    lemma_starts_with_moves(before, text, at, "Id"@);
    lemma_starts_with_moves(before, text, at, "iD"@);
    lemma_token_moves(before, text, LifeRestartRule::KW_ID, at, kw_id_len(text, at));
}

/// What the rule `KW_DESCRIPTION` matches does not depend on the text before
/// it: further on in a longer text, it matches the same, moved.
pub proof fn lemma_kw_description_moves(before: Seq<char>, text: Seq<char>, at: int)
    requires
        0 <= at <= text.len(),
    ensures
        spec_kw_description(before + text, before.len() + at)
            == spec_kw_description(text, at).moved(before.len(), bytes_of(before)),
        spec_kw_description(text, at).within(text, at),
        spec_kw_description(text, at).tree is Some ==> spec_kw_description(text, at).end > at,
{
    reveal(spec_kw_description);
    lemma_starts_with_moves(before, text, at, "动态文本"@);
    lemma_starts_with_moves(before, text, at, "动态描述"@);
    lemma_starts_with_moves(before, text, at, "文本"@);
    lemma_starts_with_moves(before, text, at, "描述"@);
    lemma_starts_with_moves(before, text, at, "description"@);
    lemma_starts_with_moves(before, text, at, "details"@);
    lemma_starts_with_moves(before, text, at, "detail"@);
    lemma_token_moves(
        before,
        text,
        LifeRestartRule::KW_DESCRIPTION,
        at,
        kw_description_len(text, at),
    );
}

/// What the rule `KW_REQUIREMENT` matches does not depend on the text before
/// it: further on in a longer text, it matches the same, moved.
pub proof fn lemma_kw_requirement_moves(before: Seq<char>, text: Seq<char>, at: int)
    requires
        0 <= at <= text.len(),
    ensures
        spec_kw_requirement(before + text, before.len() + at)
            == spec_kw_requirement(text, at).moved(before.len(), bytes_of(before)),
        spec_kw_requirement(text, at).within(text, at),
        spec_kw_requirement(text, at).tree is Some ==> spec_kw_requirement(text, at).end > at,
{
    reveal(spec_kw_requirement);
    lemma_starts_with_moves(before, text, at, "出现要求"@);
    lemma_starts_with_moves(before, text, at, "要求"@);
    lemma_starts_with_moves(before, text, at, "requires"@);
    lemma_token_moves(
        before,
        text,
        LifeRestartRule::KW_REQUIREMENT,
        at,
        kw_requirement_len(text, at),
    );
}

/// What the rule `KW_EFFECT` matches does not depend on the text before it:
/// further on in a longer text, it matches the same, moved.
pub proof fn lemma_kw_effect_moves(before: Seq<char>, text: Seq<char>, at: int)
    requires
        0 <= at <= text.len(),
    ensures
        spec_kw_effect(before + text, before.len() + at)
            == spec_kw_effect(text, at).moved(before.len(), bytes_of(before)),
        spec_kw_effect(text, at).within(text, at),
        spec_kw_effect(text, at).tree is Some ==> spec_kw_effect(text, at).end > at,
{
    reveal(spec_kw_effect);
    lemma_starts_with_moves(before, text, at, "效果"@);
    lemma_starts_with_moves(before, text, at, "effects"@);
    lemma_starts_with_moves(before, text, at, "effect"@);
    lemma_token_moves(before, text, LifeRestartRule::KW_EFFECT, at, kw_effect_len(text, at));
}

/// What the rule `KW_ENUMERATE` matches does not depend on the text before it:
/// further on in a longer text, it matches the same, moved.
pub proof fn lemma_kw_enumerate_moves(before: Seq<char>, text: Seq<char>, at: int)
    requires
        0 <= at <= text.len(),
    ensures
        spec_kw_enumerate(before + text, before.len() + at)
            == spec_kw_enumerate(text, at).moved(before.len(), bytes_of(before)),
        spec_kw_enumerate(text, at).within(text, at),
        spec_kw_enumerate(text, at).tree is Some ==> spec_kw_enumerate(text, at).end > at,
{
    reveal(spec_kw_enumerate);
    lemma_starts_with_moves(before, text, at, "枚举"@);
    lemma_starts_with_moves(before, text, at, "enumerate"@);
    lemma_starts_with_moves(before, text, at, "enum"@);
    lemma_token_moves(before, text, LifeRestartRule::KW_ENUMERATE, at, kw_enumerate_len(text, at));
}

/// What the rule `KW_OPTIONS` matches does not depend on the text before it:
/// further on in a longer text, it matches the same, moved.
pub proof fn lemma_kw_options_moves(before: Seq<char>, text: Seq<char>, at: int)
    requires
        0 <= at <= text.len(),
    ensures
        spec_kw_options(before + text, before.len() + at)
            == spec_kw_options(text, at).moved(before.len(), bytes_of(before)),
        spec_kw_options(text, at).within(text, at),
        spec_kw_options(text, at).tree is Some ==> spec_kw_options(text, at).end > at,
{
    reveal(spec_kw_options);
    lemma_starts_with_moves(before, text, at, "选项"@);
    lemma_starts_with_moves(before, text, at, "options"@);
    lemma_starts_with_moves(before, text, at, "option"@);
    lemma_token_moves(before, text, LifeRestartRule::KW_OPTIONS, at, kw_options_len(text, at));
}

/// What the rule `KW_IF` matches does not depend on the text before it: further
/// on in a longer text, it matches the same, moved.
pub proof fn lemma_kw_if_moves(before: Seq<char>, text: Seq<char>, at: int)
    requires
        0 <= at <= text.len(),
    ensures
        spec_kw_if(before + text, before.len() + at)
            == spec_kw_if(text, at).moved(before.len(), bytes_of(before)),
        spec_kw_if(text, at).within(text, at),
        spec_kw_if(text, at).tree is Some ==> spec_kw_if(text, at).end > at,
{
    reveal(spec_kw_if);
    lemma_starts_with_moves(before, text, at, "如果"@);
    lemma_starts_with_moves(before, text, at, "if"@);
    lemma_token_moves(before, text, LifeRestartRule::KW_IF, at, kw_if_len(text, at));
}

/// What the rule `KW_ELSE_IF` matches does not depend on the text before it:
/// further on in a longer text, it matches the same, moved.
pub proof fn lemma_kw_else_if_moves(before: Seq<char>, text: Seq<char>, at: int)
    requires
        0 <= at <= text.len(),
    ensures
        spec_kw_else_if(before + text, before.len() + at)
            == spec_kw_else_if(text, at).moved(before.len(), bytes_of(before)),
        spec_kw_else_if(text, at).within(text, at),
        spec_kw_else_if(text, at).tree is Some ==> spec_kw_else_if(text, at).end > at,
{
    reveal(spec_kw_else_if);
    lemma_starts_with_moves(before, text, at, "否则如果"@);
    lemma_starts_with_moves(before, text, at, "else-if"@);
    lemma_starts_with_moves(before, text, at, "elseif"@);
    lemma_starts_with_moves(before, text, at, "elif"@);
    lemma_token_moves(before, text, LifeRestartRule::KW_ELSE_IF, at, kw_else_if_len(text, at));
}

/// What the rule `KW_ELSE` matches does not depend on the text before it:
/// further on in a longer text, it matches the same, moved.
pub proof fn lemma_kw_else_moves(before: Seq<char>, text: Seq<char>, at: int)
    requires
        0 <= at <= text.len(),
    ensures
        spec_kw_else(before + text, before.len() + at)
            == spec_kw_else(text, at).moved(before.len(), bytes_of(before)),
        spec_kw_else(text, at).within(text, at),
        spec_kw_else(text, at).tree is Some ==> spec_kw_else(text, at).end > at,
{
    reveal(spec_kw_else);
    lemma_starts_with_moves(before, text, at, "否则"@);
    lemma_starts_with_moves(before, text, at, "else"@);
    lemma_token_moves(before, text, LifeRestartRule::KW_ELSE, at, kw_else_len(text, at));
}

/// What the mark `prefix_0` matches does not depend on the text before it:
/// further on in a longer text, it matches the same, moved.
pub proof fn lemma_mark_prefix_0_moves(before: Seq<char>, text: Seq<char>, at: int)
    requires
        0 <= at <= text.len(),
    ensures
        spec_mark_prefix_0(before + text, before.len() + at)
            == spec_mark_prefix_0(text, at).moved(before.len(), bytes_of(before)),
        spec_mark_prefix_0(text, at).within(text, at),
        spec_mark_prefix_0(text, at).tree is Some ==> spec_mark_prefix_0(text, at).end > at,
{
    reveal(spec_mark_prefix_0);
    lemma_starts_with_moves(before, text, at, "不是"@);
    lemma_starts_with_moves(before, text, at, "非"@);
    lemma_starts_with_moves(before, text, at, "!"@);
    lemma_token_moves(before, text, LifeRestartRule::HiddenText, at, mark_prefix_0_len(text, at));
}

/// What the mark `suffix_0` matches does not depend on the text before it:
/// further on in a longer text, it matches the same, moved.
pub proof fn lemma_mark_suffix_0_moves(before: Seq<char>, text: Seq<char>, at: int)
    requires
        0 <= at <= text.len(),
    ensures
        spec_mark_suffix_0(before + text, before.len() + at)
            == spec_mark_suffix_0(text, at).moved(before.len(), bytes_of(before)),
        spec_mark_suffix_0(text, at).within(text, at),
        spec_mark_suffix_0(text, at).tree is Some ==> spec_mark_suffix_0(text, at).end > at,
{
    reveal(spec_mark_suffix_0);
    lemma_starts_with_moves(before, text, at, "%"@);
    lemma_token_moves(before, text, LifeRestartRule::HiddenText, at, mark_suffix_0_len(text, at));
}

/// What the mark `geq` matches does not depend on the text before it: further
/// on in a longer text, it matches the same, moved.
pub proof fn lemma_mark_geq_moves(before: Seq<char>, text: Seq<char>, at: int)
    requires
        0 <= at <= text.len(),
    ensures
        spec_mark_geq(before + text, before.len() + at)
            == spec_mark_geq(text, at).moved(before.len(), bytes_of(before)),
        spec_mark_geq(text, at).within(text, at),
        spec_mark_geq(text, at).tree is Some ==> spec_mark_geq(text, at).end > at,
{
    reveal(spec_mark_geq);
    lemma_starts_with_moves(before, text, at, "大于等于"@);
    lemma_starts_with_moves(before, text, at, ">="@);
    lemma_token_moves(before, text, LifeRestartRule::HiddenText, at, mark_geq_len(text, at));
}

/// What the mark `leq` matches does not depend on the text before it: further
/// on in a longer text, it matches the same, moved.
pub proof fn lemma_mark_leq_moves(before: Seq<char>, text: Seq<char>, at: int)
    requires
        0 <= at <= text.len(),
    ensures
        spec_mark_leq(before + text, before.len() + at)
            == spec_mark_leq(text, at).moved(before.len(), bytes_of(before)),
        spec_mark_leq(text, at).within(text, at),
        spec_mark_leq(text, at).tree is Some ==> spec_mark_leq(text, at).end > at,
{
    reveal(spec_mark_leq);
    lemma_starts_with_moves(before, text, at, "小于等于"@);
    lemma_starts_with_moves(before, text, at, "<="@);
    lemma_token_moves(before, text, LifeRestartRule::HiddenText, at, mark_leq_len(text, at));
}

/// What the mark `ne` matches does not depend on the text before it: further on
/// in a longer text, it matches the same, moved.
pub proof fn lemma_mark_ne_moves(before: Seq<char>, text: Seq<char>, at: int)
    requires
        0 <= at <= text.len(),
    ensures
        spec_mark_ne(before + text, before.len() + at)
            == spec_mark_ne(text, at).moved(before.len(), bytes_of(before)),
        spec_mark_ne(text, at).within(text, at),
        spec_mark_ne(text, at).tree is Some ==> spec_mark_ne(text, at).end > at,
{
    reveal(spec_mark_ne);
    lemma_starts_with_moves(before, text, at, "不等于"@);
    lemma_starts_with_moves(before, text, at, "!="@);
    lemma_token_moves(before, text, LifeRestartRule::HiddenText, at, mark_ne_len(text, at));
}

/// What the mark `eq` matches does not depend on the text before it: further on
/// in a longer text, it matches the same, moved.
pub proof fn lemma_mark_eq_moves(before: Seq<char>, text: Seq<char>, at: int)
    requires
        0 <= at <= text.len(),
    ensures
        spec_mark_eq(before + text, before.len() + at)
            == spec_mark_eq(text, at).moved(before.len(), bytes_of(before)),
        spec_mark_eq(text, at).within(text, at),
        spec_mark_eq(text, at).tree is Some ==> spec_mark_eq(text, at).end > at,
{
    reveal(spec_mark_eq);
    lemma_starts_with_moves(before, text, at, "等于"@);
    lemma_starts_with_moves(before, text, at, "为"@);
    lemma_starts_with_moves(before, text, at, "=="@);
    lemma_token_moves(before, text, LifeRestartRule::HiddenText, at, mark_eq_len(text, at));
}

/// What the mark `gt` matches does not depend on the text before it: further on
/// in a longer text, it matches the same, moved.
pub proof fn lemma_mark_gt_moves(before: Seq<char>, text: Seq<char>, at: int)
    requires
        0 <= at <= text.len(),
    ensures
        spec_mark_gt(before + text, before.len() + at)
            == spec_mark_gt(text, at).moved(before.len(), bytes_of(before)),
        spec_mark_gt(text, at).within(text, at),
        spec_mark_gt(text, at).tree is Some ==> spec_mark_gt(text, at).end > at,
{
    reveal(spec_mark_gt);
    lemma_starts_with_moves(before, text, at, "大于"@);
    lemma_starts_with_moves(before, text, at, ">"@);
    lemma_token_moves(before, text, LifeRestartRule::HiddenText, at, mark_gt_len(text, at));
}

/// What the mark `lt` matches does not depend on the text before it: further on
/// in a longer text, it matches the same, moved.
pub proof fn lemma_mark_lt_moves(before: Seq<char>, text: Seq<char>, at: int)
    requires
        0 <= at <= text.len(),
    ensures
        spec_mark_lt(before + text, before.len() + at)
            == spec_mark_lt(text, at).moved(before.len(), bytes_of(before)),
        spec_mark_lt(text, at).within(text, at),
        spec_mark_lt(text, at).tree is Some ==> spec_mark_lt(text, at).end > at,
{
    reveal(spec_mark_lt);
    lemma_starts_with_moves(before, text, at, "小于"@);
    lemma_starts_with_moves(before, text, at, "<"@);
    lemma_token_moves(before, text, LifeRestartRule::HiddenText, at, mark_lt_len(text, at));
}

/// What the mark `and` matches does not depend on the text before it: further
/// on in a longer text, it matches the same, moved.
pub proof fn lemma_mark_and_moves(before: Seq<char>, text: Seq<char>, at: int)
    requires
        0 <= at <= text.len(),
    ensures
        spec_mark_and(before + text, before.len() + at)
            == spec_mark_and(text, at).moved(before.len(), bytes_of(before)),
        spec_mark_and(text, at).within(text, at),
        spec_mark_and(text, at).tree is Some ==> spec_mark_and(text, at).end > at,
{
    reveal(spec_mark_and);
    lemma_starts_with_moves(before, text, at, "&&"@);
    lemma_starts_with_moves(before, text, at, "且"@);
    lemma_token_moves(before, text, LifeRestartRule::HiddenText, at, mark_and_len(text, at));
}

/// What the mark `or` matches does not depend on the text before it: further on
/// in a longer text, it matches the same, moved.
pub proof fn lemma_mark_or_moves(before: Seq<char>, text: Seq<char>, at: int)
    requires
        0 <= at <= text.len(),
    ensures
        spec_mark_or(before + text, before.len() + at)
            == spec_mark_or(text, at).moved(before.len(), bytes_of(before)),
        spec_mark_or(text, at).within(text, at),
        spec_mark_or(text, at).tree is Some ==> spec_mark_or(text, at).end > at,
{
    reveal(spec_mark_or);
    lemma_starts_with_moves(before, text, at, "||"@);
    lemma_starts_with_moves(before, text, at, "或"@);
    lemma_token_moves(before, text, LifeRestartRule::HiddenText, at, mark_or_len(text, at));
}

/// What the mark `has` matches does not depend on the text before it: further
/// on in a longer text, it matches the same, moved.
pub proof fn lemma_mark_has_moves(before: Seq<char>, text: Seq<char>, at: int)
    requires
        0 <= at <= text.len(),
    ensures
        spec_mark_has(before + text, before.len() + at)
            == spec_mark_has(text, at).moved(before.len(), bytes_of(before)),
        spec_mark_has(text, at).within(text, at),
        spec_mark_has(text, at).tree is Some ==> spec_mark_has(text, at).end > at,
{
    reveal(spec_mark_has);
    lemma_starts_with_moves(before, text, at, "拥有"@);
    lemma_starts_with_moves(before, text, at, "有"@);
    lemma_starts_with_moves(before, text, at, "has"@);
    lemma_token_moves(before, text, LifeRestartRule::HiddenText, at, mark_has_len(text, at));
}

/// What the mark `add_assign` matches does not depend on the text before it:
/// further on in a longer text, it matches the same, moved.
pub proof fn lemma_mark_add_assign_moves(before: Seq<char>, text: Seq<char>, at: int)
    requires
        0 <= at <= text.len(),
    ensures
        spec_mark_add_assign(before + text, before.len() + at)
            == spec_mark_add_assign(text, at).moved(before.len(), bytes_of(before)),
        spec_mark_add_assign(text, at).within(text, at),
        spec_mark_add_assign(text, at).tree is Some ==> spec_mark_add_assign(text, at).end > at,
{
    reveal(spec_mark_add_assign);
    lemma_starts_with_moves(before, text, at, "+="@);
    lemma_token_moves(before, text, LifeRestartRule::HiddenText, at, mark_add_assign_len(text, at));
}

/// What the mark `sub_assign` matches does not depend on the text before it:
/// further on in a longer text, it matches the same, moved.
pub proof fn lemma_mark_sub_assign_moves(before: Seq<char>, text: Seq<char>, at: int)
    requires
        0 <= at <= text.len(),
    ensures
        spec_mark_sub_assign(before + text, before.len() + at)
            == spec_mark_sub_assign(text, at).moved(before.len(), bytes_of(before)),
        spec_mark_sub_assign(text, at).within(text, at),
        spec_mark_sub_assign(text, at).tree is Some ==> spec_mark_sub_assign(text, at).end > at,
{
    reveal(spec_mark_sub_assign);
    lemma_starts_with_moves(before, text, at, "-="@);
    lemma_token_moves(before, text, LifeRestartRule::HiddenText, at, mark_sub_assign_len(text, at));
}

/// What the mark `add` matches does not depend on the text before it: further
/// on in a longer text, it matches the same, moved.
pub proof fn lemma_mark_add_moves(before: Seq<char>, text: Seq<char>, at: int)
    requires
        0 <= at <= text.len(),
    ensures
        spec_mark_add(before + text, before.len() + at)
            == spec_mark_add(text, at).moved(before.len(), bytes_of(before)),
        spec_mark_add(text, at).within(text, at),
        spec_mark_add(text, at).tree is Some ==> spec_mark_add(text, at).end > at,
{
    reveal(spec_mark_add);
    lemma_starts_with_moves(before, text, at, "+"@);
    lemma_token_moves(before, text, LifeRestartRule::HiddenText, at, mark_add_len(text, at));
}

/// What the mark `sub` matches does not depend on the text before it: further
/// on in a longer text, it matches the same, moved.
pub proof fn lemma_mark_sub_moves(before: Seq<char>, text: Seq<char>, at: int)
    requires
        0 <= at <= text.len(),
    ensures
        spec_mark_sub(before + text, before.len() + at)
            == spec_mark_sub(text, at).moved(before.len(), bytes_of(before)),
        spec_mark_sub(text, at).within(text, at),
        spec_mark_sub(text, at).tree is Some ==> spec_mark_sub(text, at).end > at,
{
    reveal(spec_mark_sub);
    lemma_starts_with_moves(before, text, at, "-"@);
    lemma_token_moves(before, text, LifeRestartRule::HiddenText, at, mark_sub_len(text, at));
}

/// What the mark `true` matches does not depend on the text before it: further
/// on in a longer text, it matches the same, moved.
pub proof fn lemma_mark_true_moves(before: Seq<char>, text: Seq<char>, at: int)
    requires
        0 <= at <= text.len(),
    ensures
        spec_mark_true(before + text, before.len() + at)
            == spec_mark_true(text, at).moved(before.len(), bytes_of(before)),
        spec_mark_true(text, at).within(text, at),
        spec_mark_true(text, at).tree is Some ==> spec_mark_true(text, at).end > at,
{
    reveal(spec_mark_true);
    lemma_starts_with_moves(before, text, at, "真"@);
    lemma_starts_with_moves(before, text, at, "true"@);
    lemma_token_moves(before, text, LifeRestartRule::HiddenText, at, mark_true_len(text, at));
}

/// What the mark `false` matches does not depend on the text before it: further
/// on in a longer text, it matches the same, moved.
pub proof fn lemma_mark_false_moves(before: Seq<char>, text: Seq<char>, at: int)
    requires
        0 <= at <= text.len(),
    ensures
        spec_mark_false(before + text, before.len() + at)
            == spec_mark_false(text, at).moved(before.len(), bytes_of(before)),
        spec_mark_false(text, at).within(text, at),
        spec_mark_false(text, at).tree is Some ==> spec_mark_false(text, at).end > at,
{
    reveal(spec_mark_false);
    lemma_starts_with_moves(before, text, at, "假"@);
    lemma_starts_with_moves(before, text, at, "false"@);
    lemma_token_moves(before, text, LifeRestartRule::HiddenText, at, mark_false_len(text, at));
}

/// What `~ TopStatement#top_statement` matches does not depend on the text
/// before it.
pub proof fn lemma_root_item_moves(before: Seq<char>, text: Seq<char>, at: int)
    requires
        0 <= at <= text.len(),
    ensures
        spec_root_item(before + text, before.len() + at)
            == spec_root_item(text, at).moved(before.len(), bytes_of(before)),
        spec_root_item(text, at).within(text, at),
        spec_root_item(text, at).ok ==> spec_root_item(text, at).pos > at,
{
    reveal(spec_root_item);
    let longer = before + text;
    let there = before.len() + at;
    let c = Cursor::start(at);
    let d = Cursor::start(there);
    lemma_plain_steps_move(before, c, 0);
    assert(d == c.moved(before.len(), bytes_of(before)));
    lemma_skip_moves(before, text, c);
    let c = c.trivia(text);
    let d = d.trivia(longer);
    assert(d == c.moved(before.len(), bytes_of(before)));
    lemma_top_statement_moves(before, text, c.pos);
    let found = spec_top_statement(text, c.pos);
    let found_there = spec_top_statement(longer, d.pos);
    assert(c.ok ==> found_there == found.moved(before.len(), bytes_of(before)));
    lemma_attach_moves(before, c, found, Slot::TopStatement);
    let d = d.attach(found_there, Slot::TopStatement);
    let c = c.attach(found, Slot::TopStatement);
    assert(d == c.moved(before.len(), bytes_of(before)));
}

/// What `(~ TopStatement#top_statement)*` matches does not depend on the text
/// before it.
#[verifier::rlimit(50)]
pub proof fn lemma_root_items_moves(before: Seq<char>, text: Seq<char>, from: Cursor)
    requires
        0 <= from.pos <= text.len(),
        from.far <= text.len(),
    ensures
        spec_root_items(before + text, from.moved(before.len(), bytes_of(before)))
            == spec_root_items(text, from).moved(before.len(), bytes_of(before)),
        from.pos <= spec_root_items(text, from).pos <= text.len(),
        from.far <= spec_root_items(text, from).far <= text.len(),
        spec_root_items(text, from).ok == from.ok,
    decreases text.len() - from.pos,
{
    if from.ok {
        lemma_root_item_moves(before, text, from.pos);
        let step = spec_root_item(text, from.pos);
        lemma_plain_steps_move(before, from, step.far);
        if step.ok && from.pos < step.pos <= text.len() {
            lemma_join_moves(before, from, step);
            lemma_root_items_moves(before, text, from.join(step));
        }
    }
}

/// What the rule `Root` matches does not depend on the text before it: further
/// on in a longer text, it matches the same, moved.
#[verifier::rlimit(50)]
pub proof fn lemma_root_moves(before: Seq<char>, text: Seq<char>, at: int)
    requires
        0 <= at <= text.len(),
    ensures
        spec_root(before + text, before.len() + at)
            == spec_root(text, at).moved(before.len(), bytes_of(before)),
        spec_root(text, at).within(text, at),
{
    reveal(spec_root);
    let longer = before + text;
    let there = before.len() + at;
    let c = Cursor::start(at);
    let d = Cursor::start(there);
    lemma_plain_steps_move(before, c, 0);
    assert(d == c.moved(before.len(), bytes_of(before)));
    if c.ok {
        lemma_root_items_moves(before, text, c);
    } else {
        reveal(spec_root_items);
    }
    let c = spec_root_items(text, c);
    let d = spec_root_items(longer, d);
    assert(d == c.moved(before.len(), bytes_of(before)));
    lemma_skip_moves(before, text, c);
    let c = c.trivia(text);
    let d = d.trivia(longer);
    assert(d == c.moved(before.len(), bytes_of(before)));
    lemma_end_moves(before, text, c);
    let c = c.end_of_input(text);
    let d = d.end_of_input(longer);
    assert(d == c.moved(before.len(), bytes_of(before)));
    lemma_finish_moves(before, text, c, LifeRestartRule::Root, at);
}

/// What the rule `TopStatement` matches does not depend on the text before it:
/// further on in a longer text, it matches the same, moved.
pub proof fn lemma_top_statement_moves(before: Seq<char>, text: Seq<char>, at: int)
    requires
        0 <= at <= text.len(),
    ensures
        spec_top_statement(before + text, before.len() + at)
            == spec_top_statement(text, at).moved(before.len(), bytes_of(before)),
        spec_top_statement(text, at).within(text, at),
        spec_top_statement(text, at).tree is Some ==> spec_top_statement(text, at).end > at,
{
    reveal(spec_top_statement);
    let longer = before + text;
    let there = before.len() + at;
    let c = Cursor::start(at);
    let d = Cursor::start(there);
    lemma_plain_steps_move(before, c, 0);
    assert(d == c.moved(before.len(), bytes_of(before)));
    let after = {
        let first = c;
        lemma_property_statement_moves(before, text, first.pos);
        let found = spec_property_statement(text, first.pos);
        lemma_attach_moves(before, Cursor::start(first.pos), found, Slot::PropertyStatement);
        let alt = Cursor::start(first.pos).attach(found, Slot::PropertyStatement);
        lemma_join_moves(before, c, alt);
        lemma_plain_steps_move(before, c, alt.far);
        let c = c.note(alt.far);
        lemma_trait_group_moves(before, text, first.pos);
        let found = spec_trait_group(text, first.pos);
        lemma_attach_moves(before, Cursor::start(first.pos), found, Slot::TraitGroup);
        let alt = Cursor::start(first.pos).attach(found, Slot::TraitGroup);
        lemma_join_moves(before, c, alt);
        lemma_plain_steps_move(before, c, alt.far);
        let c = c.note(alt.far);
        lemma_trait_statement_moves(before, text, first.pos);
        let found = spec_trait_statement(text, first.pos);
        lemma_attach_moves(before, Cursor::start(first.pos), found, Slot::TraitStatement);
        let alt = Cursor::start(first.pos).attach(found, Slot::TraitStatement);
        lemma_join_moves(before, c, alt);
        lemma_plain_steps_move(before, c, alt.far);
        let c = c.note(alt.far);
        lemma_event_group_moves(before, text, first.pos);
        let found = spec_event_group(text, first.pos);
        lemma_attach_moves(before, Cursor::start(first.pos), found, Slot::EventGroup);
        let alt = Cursor::start(first.pos).attach(found, Slot::EventGroup);
        lemma_join_moves(before, c, alt);
        lemma_plain_steps_move(before, c, alt.far);
        let c = c.note(alt.far);
        lemma_event_statement_moves(before, text, first.pos);
        let found = spec_event_statement(text, first.pos);
        lemma_attach_moves(before, Cursor::start(first.pos), found, Slot::EventStatement);
        let alt = Cursor::start(first.pos).attach(found, Slot::EventStatement);
        lemma_join_moves(before, c, alt);
        lemma_plain_steps_move(before, c, alt.far);
        let c = c.note(alt.far);
        lemma_eos_moves(before, text, first.pos);
        let found = spec_eos(text, first.pos);
        lemma_attach_moves(before, Cursor::start(first.pos), found, Slot::Eos);
        let alt = Cursor::start(first.pos).attach(found, Slot::Eos);
        lemma_join_moves(before, c, alt);
        lemma_plain_steps_move(before, c, alt.far);
        let c = c.note(alt.far);
        c
    };
    lemma_plain_steps_move(before, after, 0);
    let c = if !c.ok {
        c
    } else {
        let alt = Cursor::start(c.pos).attach(
            spec_property_statement(text, c.pos),
            Slot::PropertyStatement,
        );
        if alt.ok {
            c.join(alt)
        } else {
            let c = c.note(alt.far);
            let alt = Cursor::start(c.pos).attach(spec_trait_group(text, c.pos), Slot::TraitGroup);
            if alt.ok {
                c.join(alt)
            } else {
                let c = c.note(alt.far);
                let alt = Cursor::start(c.pos).attach(
                    spec_trait_statement(text, c.pos),
                    Slot::TraitStatement,
                );
                if alt.ok {
                    c.join(alt)
                } else {
                    let c = c.note(alt.far);
                    let alt = Cursor::start(c.pos).attach(
                        spec_event_group(text, c.pos),
                        Slot::EventGroup,
                    );
                    if alt.ok {
                        c.join(alt)
                    } else {
                        let c = c.note(alt.far);
                        let alt = Cursor::start(c.pos).attach(
                            spec_event_statement(text, c.pos),
                            Slot::EventStatement,
                        );
                        if alt.ok {
                            c.join(alt)
                        } else {
                            let c = c.note(alt.far);
                            let alt = Cursor::start(c.pos).attach(spec_eos(text, c.pos), Slot::Eos);
                            if alt.ok {
                                c.join(alt)
                            } else {
                                c.note(alt.far).halt()
                            }
                        }
                    }
                }
            }
        }
    };
    let d = if !d.ok {
        d
    } else {
        let alt = Cursor::start(d.pos).attach(
            spec_property_statement(longer, d.pos),
            Slot::PropertyStatement,
        );
        if alt.ok {
            d.join(alt)
        } else {
            let d = d.note(alt.far);
            let alt = Cursor::start(d.pos).attach(
                spec_trait_group(longer, d.pos),
                Slot::TraitGroup,
            );
            if alt.ok {
                d.join(alt)
            } else {
                let d = d.note(alt.far);
                let alt = Cursor::start(d.pos).attach(
                    spec_trait_statement(longer, d.pos),
                    Slot::TraitStatement,
                );
                if alt.ok {
                    d.join(alt)
                } else {
                    let d = d.note(alt.far);
                    let alt = Cursor::start(d.pos).attach(
                        spec_event_group(longer, d.pos),
                        Slot::EventGroup,
                    );
                    if alt.ok {
                        d.join(alt)
                    } else {
                        let d = d.note(alt.far);
                        let alt = Cursor::start(d.pos).attach(
                            spec_event_statement(longer, d.pos),
                            Slot::EventStatement,
                        );
                        if alt.ok {
                            d.join(alt)
                        } else {
                            let d = d.note(alt.far);
                            let alt = Cursor::start(d.pos).attach(
                                spec_eos(longer, d.pos),
                                Slot::Eos,
                            );
                            if alt.ok {
                                d.join(alt)
                            } else {
                                d.note(alt.far).halt()
                            }
                        }
                    }
                }
            }
        }
    };
    assert(d == c.moved(before.len(), bytes_of(before)));
    lemma_finish_moves(before, text, c, LifeRestartRule::TopStatement, at);
}

/// What `~ PropertyItem#property_item` matches does not depend on the text
/// before it.
pub proof fn lemma_property_statement_item_moves(before: Seq<char>, text: Seq<char>, at: int)
    requires
        0 <= at <= text.len(),
    ensures
        spec_property_statement_item(before + text, before.len() + at)
            == spec_property_statement_item(text, at).moved(before.len(), bytes_of(before)),
        spec_property_statement_item(text, at).within(text, at),
        spec_property_statement_item(text, at).ok
            ==> spec_property_statement_item(text, at).pos > at,
{
    reveal(spec_property_statement_item);
    let longer = before + text;
    let there = before.len() + at;
    let c = Cursor::start(at);
    let d = Cursor::start(there);
    lemma_plain_steps_move(before, c, 0);
    assert(d == c.moved(before.len(), bytes_of(before)));
    lemma_skip_moves(before, text, c);
    let c = c.trivia(text);
    let d = d.trivia(longer);
    assert(d == c.moved(before.len(), bytes_of(before)));
    lemma_property_item_moves(before, text, c.pos);
    let found = spec_property_item(text, c.pos);
    let found_there = spec_property_item(longer, d.pos);
    assert(c.ok ==> found_there == found.moved(before.len(), bytes_of(before)));
    lemma_attach_moves(before, c, found, Slot::PropertyItem);
    let d = d.attach(found_there, Slot::PropertyItem);
    let c = c.attach(found, Slot::PropertyItem);
    assert(d == c.moved(before.len(), bytes_of(before)));
}

/// What `(~ PropertyItem#property_item)*` matches does not depend on the text
/// before it.
#[verifier::rlimit(50)]
pub proof fn lemma_property_statement_items_moves(before: Seq<char>, text: Seq<char>, from: Cursor)
    requires
        0 <= from.pos <= text.len(),
        from.far <= text.len(),
    ensures
        spec_property_statement_items(before + text, from.moved(before.len(), bytes_of(before)))
            == spec_property_statement_items(text, from).moved(before.len(), bytes_of(before)),
        from.pos <= spec_property_statement_items(text, from).pos <= text.len(),
        from.far <= spec_property_statement_items(text, from).far <= text.len(),
        spec_property_statement_items(text, from).ok == from.ok,
    decreases text.len() - from.pos,
{
    if from.ok {
        lemma_property_statement_item_moves(before, text, from.pos);
        let step = spec_property_statement_item(text, from.pos);
        lemma_plain_steps_move(before, from, step.far);
        if step.ok && from.pos < step.pos <= text.len() {
            lemma_join_moves(before, from, step);
            lemma_property_statement_items_moves(before, text, from.join(step));
        }
    }
}

/// What the rule `PropertyStatement` matches does not depend on the text before
/// it: further on in a longer text, it matches the same, moved.
#[verifier::rlimit(50)]
pub proof fn lemma_property_statement_moves(before: Seq<char>, text: Seq<char>, at: int)
    requires
        0 <= at <= text.len(),
    ensures
        spec_property_statement(before + text, before.len() + at)
            == spec_property_statement(text, at).moved(before.len(), bytes_of(before)),
        spec_property_statement(text, at).within(text, at),
        spec_property_statement(text, at).tree is Some
            ==> spec_property_statement(text, at).end > at,
{
    reveal(spec_property_statement);
    let longer = before + text;
    let there = before.len() + at;
    let c = Cursor::start(at);
    let d = Cursor::start(there);
    lemma_plain_steps_move(before, c, 0);
    assert(d == c.moved(before.len(), bytes_of(before)));
    lemma_kw_property_moves(before, text, c.pos);
    let found = spec_kw_property(text, c.pos);
    let found_there = spec_kw_property(longer, d.pos);
    assert(c.ok ==> found_there == found.moved(before.len(), bytes_of(before)));
    lemma_attach_moves(before, c, found, Slot::Root);
    let d = d.pass(found_there);
    let c = c.pass(found);
    assert(d == c.moved(before.len(), bytes_of(before)));
    lemma_skip_moves(before, text, c);
    let c = c.trivia(text);
    let d = d.trivia(longer);
    assert(d == c.moved(before.len(), bytes_of(before)));
    lemma_lexical_moves(before, text, c.pos);
    let found = spec_identifier(text, c.pos);
    let found_there = spec_identifier(longer, d.pos);
    assert(c.ok ==> found_there == found.moved(before.len(), bytes_of(before)));
    lemma_attach_moves(before, c, found, Slot::Identifier);
    let d = d.attach(found_there, Slot::Identifier);
    let c = c.attach(found, Slot::Identifier);
    assert(d == c.moved(before.len(), bytes_of(before)));
    lemma_skip_moves(before, text, c);
    let c = c.trivia(text);
    let d = d.trivia(longer);
    assert(d == c.moved(before.len(), bytes_of(before)));
    lemma_word_moves(before, text, c, "{"@);
    let c = c.word(text, "{"@);
    let d = d.word(longer, "{"@);
    assert(d == c.moved(before.len(), bytes_of(before)));
    if c.ok {
        lemma_property_statement_items_moves(before, text, c);
    } else {
        reveal(spec_property_statement_items);
    }
    let c = spec_property_statement_items(text, c);
    let d = spec_property_statement_items(longer, d);
    assert(d == c.moved(before.len(), bytes_of(before)));
    lemma_skip_moves(before, text, c);
    let c = c.trivia(text);
    let d = d.trivia(longer);
    assert(d == c.moved(before.len(), bytes_of(before)));
    lemma_word_moves(before, text, c, "}"@);
    let c = c.word(text, "}"@);
    let d = d.word(longer, "}"@);
    assert(d == c.moved(before.len(), bytes_of(before)));
    lemma_finish_moves(before, text, c, LifeRestartRule::PropertyStatement, at);
}

/// What the rule `PropertyItem` matches does not depend on the text before it:
/// further on in a longer text, it matches the same, moved.
pub proof fn lemma_property_item_moves(before: Seq<char>, text: Seq<char>, at: int)
    requires
        0 <= at <= text.len(),
    ensures
        spec_property_item(before + text, before.len() + at)
            == spec_property_item(text, at).moved(before.len(), bytes_of(before)),
        spec_property_item(text, at).within(text, at),
        spec_property_item(text, at).tree is Some ==> spec_property_item(text, at).end > at,
{
    reveal(spec_property_item);
    let longer = before + text;
    let there = before.len() + at;
    let c = Cursor::start(at);
    let d = Cursor::start(there);
    lemma_plain_steps_move(before, c, 0);
    assert(d == c.moved(before.len(), bytes_of(before)));
    let after = {
        let first = c;
        lemma_id_statement_moves(before, text, first.pos);
        let found = spec_id_statement(text, first.pos);
        lemma_attach_moves(before, Cursor::start(first.pos), found, Slot::IdStatement);
        let alt = Cursor::start(first.pos).attach(found, Slot::IdStatement);
        lemma_join_moves(before, c, alt);
        lemma_plain_steps_move(before, c, alt.far);
        let c = c.note(alt.far);
        lemma_description_statement_moves(before, text, first.pos);
        let found = spec_description_statement(text, first.pos);
        lemma_attach_moves(before, Cursor::start(first.pos), found, Slot::DescriptionStatement);
        let alt = Cursor::start(first.pos).attach(found, Slot::DescriptionStatement);
        lemma_join_moves(before, c, alt);
        lemma_plain_steps_move(before, c, alt.far);
        let c = c.note(alt.far);
        lemma_requirement_statement_moves(before, text, first.pos);
        let found = spec_requirement_statement(text, first.pos);
        lemma_attach_moves(before, Cursor::start(first.pos), found, Slot::RequirementStatement);
        let alt = Cursor::start(first.pos).attach(found, Slot::RequirementStatement);
        lemma_join_moves(before, c, alt);
        lemma_plain_steps_move(before, c, alt.far);
        let c = c.note(alt.far);
        lemma_enumerate_statement_moves(before, text, first.pos);
        let found = spec_enumerate_statement(text, first.pos);
        lemma_attach_moves(before, Cursor::start(first.pos), found, Slot::EnumerateStatement);
        let alt = Cursor::start(first.pos).attach(found, Slot::EnumerateStatement);
        lemma_join_moves(before, c, alt);
        lemma_plain_steps_move(before, c, alt.far);
        let c = c.note(alt.far);
        lemma_option_statement_moves(before, text, first.pos);
        let found = spec_option_statement(text, first.pos);
        lemma_attach_moves(before, Cursor::start(first.pos), found, Slot::OptionStatement);
        let alt = Cursor::start(first.pos).attach(found, Slot::OptionStatement);
        lemma_join_moves(before, c, alt);
        lemma_plain_steps_move(before, c, alt.far);
        let c = c.note(alt.far);
        lemma_eos_moves(before, text, first.pos);
        let found = spec_eos(text, first.pos);
        lemma_attach_moves(before, Cursor::start(first.pos), found, Slot::Eos);
        let alt = Cursor::start(first.pos).attach(found, Slot::Eos);
        lemma_join_moves(before, c, alt);
        lemma_plain_steps_move(before, c, alt.far);
        let c = c.note(alt.far);
        c
    };
    lemma_plain_steps_move(before, after, 0);
    let c = if !c.ok {
        c
    } else {
        let alt = Cursor::start(c.pos).attach(spec_id_statement(text, c.pos), Slot::IdStatement);
        if alt.ok {
            c.join(alt)
        } else {
            let c = c.note(alt.far);
            let alt = Cursor::start(c.pos).attach(
                spec_description_statement(text, c.pos),
                Slot::DescriptionStatement,
            );
            if alt.ok {
                c.join(alt)
            } else {
                let c = c.note(alt.far);
                let alt = Cursor::start(c.pos).attach(
                    spec_requirement_statement(text, c.pos),
                    Slot::RequirementStatement,
                );
                if alt.ok {
                    c.join(alt)
                } else {
                    let c = c.note(alt.far);
                    let alt = Cursor::start(c.pos).attach(
                        spec_enumerate_statement(text, c.pos),
                        Slot::EnumerateStatement,
                    );
                    if alt.ok {
                        c.join(alt)
                    } else {
                        let c = c.note(alt.far);
                        let alt = Cursor::start(c.pos).attach(
                            spec_option_statement(text, c.pos),
                            Slot::OptionStatement,
                        );
                        if alt.ok {
                            c.join(alt)
                        } else {
                            let c = c.note(alt.far);
                            let alt = Cursor::start(c.pos).attach(spec_eos(text, c.pos), Slot::Eos);
                            if alt.ok {
                                c.join(alt)
                            } else {
                                c.note(alt.far).halt()
                            }
                        }
                    }
                }
            }
        }
    };
    let d = if !d.ok {
        d
    } else {
        let alt = Cursor::start(d.pos).attach(spec_id_statement(longer, d.pos), Slot::IdStatement);
        if alt.ok {
            d.join(alt)
        } else {
            let d = d.note(alt.far);
            let alt = Cursor::start(d.pos).attach(
                spec_description_statement(longer, d.pos),
                Slot::DescriptionStatement,
            );
            if alt.ok {
                d.join(alt)
            } else {
                let d = d.note(alt.far);
                let alt = Cursor::start(d.pos).attach(
                    spec_requirement_statement(longer, d.pos),
                    Slot::RequirementStatement,
                );
                if alt.ok {
                    d.join(alt)
                } else {
                    let d = d.note(alt.far);
                    let alt = Cursor::start(d.pos).attach(
                        spec_enumerate_statement(longer, d.pos),
                        Slot::EnumerateStatement,
                    );
                    if alt.ok {
                        d.join(alt)
                    } else {
                        let d = d.note(alt.far);
                        let alt = Cursor::start(d.pos).attach(
                            spec_option_statement(longer, d.pos),
                            Slot::OptionStatement,
                        );
                        if alt.ok {
                            d.join(alt)
                        } else {
                            let d = d.note(alt.far);
                            let alt = Cursor::start(d.pos).attach(
                                spec_eos(longer, d.pos),
                                Slot::Eos,
                            );
                            if alt.ok {
                                d.join(alt)
                            } else {
                                d.note(alt.far).halt()
                            }
                        }
                    }
                }
            }
        }
    };
    assert(d == c.moved(before.len(), bytes_of(before)));
    lemma_finish_moves(before, text, c, LifeRestartRule::PropertyItem, at);
}

/// What `~ COMMA` matches does not depend on the text before it.
pub proof fn lemma_enumerate_statement_comma_moves(before: Seq<char>, text: Seq<char>, at: int)
    requires
        0 <= at <= text.len(),
    ensures
        spec_enumerate_statement_comma(before + text, before.len() + at)
            == spec_enumerate_statement_comma(text, at).moved(before.len(), bytes_of(before)),
        spec_enumerate_statement_comma(text, at).within(text, at),
        spec_enumerate_statement_comma(text, at).ok
            ==> spec_enumerate_statement_comma(text, at).pos > at,
{
    reveal(spec_enumerate_statement_comma);
    let longer = before + text;
    let there = before.len() + at;
    let c = Cursor::start(at);
    let d = Cursor::start(there);
    lemma_plain_steps_move(before, c, 0);
    assert(d == c.moved(before.len(), bytes_of(before)));
    lemma_skip_moves(before, text, c);
    let c = c.trivia(text);
    let d = d.trivia(longer);
    assert(d == c.moved(before.len(), bytes_of(before)));
    lemma_comma_moves(before, text, c.pos);
    let found = spec_comma(text, c.pos);
    let found_there = spec_comma(longer, d.pos);
    assert(c.ok ==> found_there == found.moved(before.len(), bytes_of(before)));
    lemma_attach_moves(before, c, found, Slot::Root);
    let d = d.pass(found_there);
    let c = c.pass(found);
    assert(d == c.moved(before.len(), bytes_of(before)));
}

/// What `~ Identifier#variant (~ COMMA)?` matches does not depend on the text
/// before it.
pub proof fn lemma_enumerate_statement_item_moves(before: Seq<char>, text: Seq<char>, at: int)
    requires
        0 <= at <= text.len(),
    ensures
        spec_enumerate_statement_item(before + text, before.len() + at)
            == spec_enumerate_statement_item(text, at).moved(before.len(), bytes_of(before)),
        spec_enumerate_statement_item(text, at).within(text, at),
        spec_enumerate_statement_item(text, at).ok
            ==> spec_enumerate_statement_item(text, at).pos > at,
{
    reveal(spec_enumerate_statement_item);
    let longer = before + text;
    let there = before.len() + at;
    let c = Cursor::start(at);
    let d = Cursor::start(there);
    lemma_plain_steps_move(before, c, 0);
    assert(d == c.moved(before.len(), bytes_of(before)));
    lemma_skip_moves(before, text, c);
    let c = c.trivia(text);
    let d = d.trivia(longer);
    assert(d == c.moved(before.len(), bytes_of(before)));
    lemma_lexical_moves(before, text, c.pos);
    let found = spec_identifier(text, c.pos);
    let found_there = spec_identifier(longer, d.pos);
    assert(c.ok ==> found_there == found.moved(before.len(), bytes_of(before)));
    lemma_attach_moves(before, c, found, Slot::Variant);
    let d = d.attach(found_there, Slot::Variant);
    let c = c.attach(found, Slot::Variant);
    assert(d == c.moved(before.len(), bytes_of(before)));
    lemma_enumerate_statement_comma_moves(before, text, c.pos);
    let group = spec_enumerate_statement_comma(text, c.pos);
    let group_there = spec_enumerate_statement_comma(longer, d.pos);
    assert(c.ok ==> group_there == group.moved(before.len(), bytes_of(before)));
    lemma_join_moves(before, c, group);
    let d = d.option(group_there);
    let c = c.option(group);
    assert(d == c.moved(before.len(), bytes_of(before)));
}

/// What `(~ Identifier#variant (~ COMMA)?)*` matches does not depend on the
/// text before it.
#[verifier::rlimit(50)]
pub proof fn lemma_enumerate_statement_items_moves(before: Seq<char>, text: Seq<char>, from: Cursor)
    requires
        0 <= from.pos <= text.len(),
        from.far <= text.len(),
    ensures
        spec_enumerate_statement_items(before + text, from.moved(before.len(), bytes_of(before)))
            == spec_enumerate_statement_items(text, from).moved(before.len(), bytes_of(before)),
        from.pos <= spec_enumerate_statement_items(text, from).pos <= text.len(),
        from.far <= spec_enumerate_statement_items(text, from).far <= text.len(),
        spec_enumerate_statement_items(text, from).ok == from.ok,
    decreases text.len() - from.pos,
{
    if from.ok {
        lemma_enumerate_statement_item_moves(before, text, from.pos);
        let step = spec_enumerate_statement_item(text, from.pos);
        lemma_plain_steps_move(before, from, step.far);
        if step.ok && from.pos < step.pos <= text.len() {
            lemma_join_moves(before, from, step);
            lemma_enumerate_statement_items_moves(before, text, from.join(step));
        }
    }
}

/// What the rule `EnumerateStatement` matches does not depend on the text
/// before it: further on in a longer text, it matches the same, moved.
#[verifier::rlimit(50)]
pub proof fn lemma_enumerate_statement_moves(before: Seq<char>, text: Seq<char>, at: int)
    requires
        0 <= at <= text.len(),
    ensures
        spec_enumerate_statement(before + text, before.len() + at)
            == spec_enumerate_statement(text, at).moved(before.len(), bytes_of(before)),
        spec_enumerate_statement(text, at).within(text, at),
        spec_enumerate_statement(text, at).tree is Some
            ==> spec_enumerate_statement(text, at).end > at,
{
    reveal(spec_enumerate_statement);
    let longer = before + text;
    let there = before.len() + at;
    let c = Cursor::start(at);
    let d = Cursor::start(there);
    lemma_plain_steps_move(before, c, 0);
    assert(d == c.moved(before.len(), bytes_of(before)));
    lemma_kw_enumerate_moves(before, text, c.pos);
    let found = spec_kw_enumerate(text, c.pos);
    let found_there = spec_kw_enumerate(longer, d.pos);
    assert(c.ok ==> found_there == found.moved(before.len(), bytes_of(before)));
    lemma_attach_moves(before, c, found, Slot::Root);
    let d = d.pass(found_there);
    let c = c.pass(found);
    assert(d == c.moved(before.len(), bytes_of(before)));
    lemma_skip_moves(before, text, c);
    let c = c.trivia(text);
    let d = d.trivia(longer);
    assert(d == c.moved(before.len(), bytes_of(before)));
    lemma_word_moves(before, text, c, "{"@);
    let c = c.word(text, "{"@);
    let d = d.word(longer, "{"@);
    assert(d == c.moved(before.len(), bytes_of(before)));
    if c.ok {
        lemma_enumerate_statement_items_moves(before, text, c);
    } else {
        reveal(spec_enumerate_statement_items);
    }
    let c = spec_enumerate_statement_items(text, c);
    let d = spec_enumerate_statement_items(longer, d);
    assert(d == c.moved(before.len(), bytes_of(before)));
    lemma_skip_moves(before, text, c);
    let c = c.trivia(text);
    let d = d.trivia(longer);
    assert(d == c.moved(before.len(), bytes_of(before)));
    lemma_word_moves(before, text, c, "}"@);
    let c = c.word(text, "}"@);
    let d = d.word(longer, "}"@);
    assert(d == c.moved(before.len(), bytes_of(before)));
    lemma_finish_moves(before, text, c, LifeRestartRule::EnumerateStatement, at);
}

/// What `~ COMMA` matches does not depend on the text before it.
pub proof fn lemma_option_statement_comma_moves(before: Seq<char>, text: Seq<char>, at: int)
    requires
        0 <= at <= text.len(),
    ensures
        spec_option_statement_comma(before + text, before.len() + at)
            == spec_option_statement_comma(text, at).moved(before.len(), bytes_of(before)),
        spec_option_statement_comma(text, at).within(text, at),
        spec_option_statement_comma(text, at).ok ==> spec_option_statement_comma(text, at).pos > at,
{
    reveal(spec_option_statement_comma);
    let longer = before + text;
    let there = before.len() + at;
    let c = Cursor::start(at);
    let d = Cursor::start(there);
    lemma_plain_steps_move(before, c, 0);
    assert(d == c.moved(before.len(), bytes_of(before)));
    lemma_skip_moves(before, text, c);
    let c = c.trivia(text);
    let d = d.trivia(longer);
    assert(d == c.moved(before.len(), bytes_of(before)));
    lemma_comma_moves(before, text, c.pos);
    let found = spec_comma(text, c.pos);
    let found_there = spec_comma(longer, d.pos);
    assert(c.ok ==> found_there == found.moved(before.len(), bytes_of(before)));
    lemma_attach_moves(before, c, found, Slot::Root);
    let d = d.pass(found_there);
    let c = c.pass(found);
    assert(d == c.moved(before.len(), bytes_of(before)));
}

/// What `~ OptionItem#option_item (~ COMMA)?` matches does not depend on the
/// text before it.
pub proof fn lemma_option_statement_item_moves(before: Seq<char>, text: Seq<char>, at: int)
    requires
        0 <= at <= text.len(),
    ensures
        spec_option_statement_item(before + text, before.len() + at)
            == spec_option_statement_item(text, at).moved(before.len(), bytes_of(before)),
        spec_option_statement_item(text, at).within(text, at),
        spec_option_statement_item(text, at).ok ==> spec_option_statement_item(text, at).pos > at,
{
    reveal(spec_option_statement_item);
    let longer = before + text;
    let there = before.len() + at;
    let c = Cursor::start(at);
    let d = Cursor::start(there);
    lemma_plain_steps_move(before, c, 0);
    assert(d == c.moved(before.len(), bytes_of(before)));
    lemma_skip_moves(before, text, c);
    let c = c.trivia(text);
    let d = d.trivia(longer);
    assert(d == c.moved(before.len(), bytes_of(before)));
    lemma_option_item_moves(before, text, c.pos);
    let found = spec_option_item(text, c.pos);
    let found_there = spec_option_item(longer, d.pos);
    assert(c.ok ==> found_there == found.moved(before.len(), bytes_of(before)));
    lemma_attach_moves(before, c, found, Slot::OptionItem);
    let d = d.attach(found_there, Slot::OptionItem);
    let c = c.attach(found, Slot::OptionItem);
    assert(d == c.moved(before.len(), bytes_of(before)));
    lemma_option_statement_comma_moves(before, text, c.pos);
    let group = spec_option_statement_comma(text, c.pos);
    let group_there = spec_option_statement_comma(longer, d.pos);
    assert(c.ok ==> group_there == group.moved(before.len(), bytes_of(before)));
    lemma_join_moves(before, c, group);
    let d = d.option(group_there);
    let c = c.option(group);
    assert(d == c.moved(before.len(), bytes_of(before)));
}

/// What `(~ OptionItem#option_item (~ COMMA)?)*` matches does not depend on the
/// text before it.
#[verifier::rlimit(50)]
pub proof fn lemma_option_statement_items_moves(before: Seq<char>, text: Seq<char>, from: Cursor)
    requires
        0 <= from.pos <= text.len(),
        from.far <= text.len(),
    ensures
        spec_option_statement_items(before + text, from.moved(before.len(), bytes_of(before)))
            == spec_option_statement_items(text, from).moved(before.len(), bytes_of(before)),
        from.pos <= spec_option_statement_items(text, from).pos <= text.len(),
        from.far <= spec_option_statement_items(text, from).far <= text.len(),
        spec_option_statement_items(text, from).ok == from.ok,
    decreases text.len() - from.pos,
{
    if from.ok {
        lemma_option_statement_item_moves(before, text, from.pos);
        let step = spec_option_statement_item(text, from.pos);
        lemma_plain_steps_move(before, from, step.far);
        if step.ok && from.pos < step.pos <= text.len() {
            lemma_join_moves(before, from, step);
            lemma_option_statement_items_moves(before, text, from.join(step));
        }
    }
}

/// What the rule `OptionStatement` matches does not depend on the text before
/// it: further on in a longer text, it matches the same, moved.
#[verifier::rlimit(50)]
pub proof fn lemma_option_statement_moves(before: Seq<char>, text: Seq<char>, at: int)
    requires
        0 <= at <= text.len(),
    ensures
        spec_option_statement(before + text, before.len() + at)
            == spec_option_statement(text, at).moved(before.len(), bytes_of(before)),
        spec_option_statement(text, at).within(text, at),
        spec_option_statement(text, at).tree is Some ==> spec_option_statement(text, at).end > at,
{
    reveal(spec_option_statement);
    let longer = before + text;
    let there = before.len() + at;
    let c = Cursor::start(at);
    let d = Cursor::start(there);
    lemma_plain_steps_move(before, c, 0);
    assert(d == c.moved(before.len(), bytes_of(before)));
    lemma_kw_options_moves(before, text, c.pos);
    let found = spec_kw_options(text, c.pos);
    let found_there = spec_kw_options(longer, d.pos);
    assert(c.ok ==> found_there == found.moved(before.len(), bytes_of(before)));
    lemma_attach_moves(before, c, found, Slot::Root);
    let d = d.pass(found_there);
    let c = c.pass(found);
    assert(d == c.moved(before.len(), bytes_of(before)));
    lemma_skip_moves(before, text, c);
    let c = c.trivia(text);
    let d = d.trivia(longer);
    assert(d == c.moved(before.len(), bytes_of(before)));
    lemma_word_moves(before, text, c, "["@);
    let c = c.word(text, "["@);
    let d = d.word(longer, "["@);
    assert(d == c.moved(before.len(), bytes_of(before)));
    if c.ok {
        lemma_option_statement_items_moves(before, text, c);
    } else {
        reveal(spec_option_statement_items);
    }
    let c = spec_option_statement_items(text, c);
    let d = spec_option_statement_items(longer, d);
    assert(d == c.moved(before.len(), bytes_of(before)));
    lemma_skip_moves(before, text, c);
    let c = c.trivia(text);
    let d = d.trivia(longer);
    assert(d == c.moved(before.len(), bytes_of(before)));
    lemma_word_moves(before, text, c, "]"@);
    let c = c.word(text, "]"@);
    let d = d.word(longer, "]"@);
    assert(d == c.moved(before.len(), bytes_of(before)));
    lemma_finish_moves(before, text, c, LifeRestartRule::OptionStatement, at);
}

/// What `~ COLON ~ Integer#weight` matches does not depend on the text before
/// it.
pub proof fn lemma_option_item_weight_moves(before: Seq<char>, text: Seq<char>, at: int)
    requires
        0 <= at <= text.len(),
    ensures
        spec_option_item_weight(before + text, before.len() + at)
            == spec_option_item_weight(text, at).moved(before.len(), bytes_of(before)),
        spec_option_item_weight(text, at).within(text, at),
        spec_option_item_weight(text, at).ok ==> spec_option_item_weight(text, at).pos > at,
{
    reveal(spec_option_item_weight);
    let longer = before + text;
    let there = before.len() + at;
    let c = Cursor::start(at);
    let d = Cursor::start(there);
    lemma_plain_steps_move(before, c, 0);
    assert(d == c.moved(before.len(), bytes_of(before)));
    lemma_skip_moves(before, text, c);
    let c = c.trivia(text);
    let d = d.trivia(longer);
    assert(d == c.moved(before.len(), bytes_of(before)));
    lemma_colon_moves(before, text, c.pos);
    let found = spec_colon(text, c.pos);
    let found_there = spec_colon(longer, d.pos);
    assert(c.ok ==> found_there == found.moved(before.len(), bytes_of(before)));
    lemma_attach_moves(before, c, found, Slot::Root);
    let d = d.pass(found_there);
    let c = c.pass(found);
    assert(d == c.moved(before.len(), bytes_of(before)));
    lemma_skip_moves(before, text, c);
    let c = c.trivia(text);
    let d = d.trivia(longer);
    assert(d == c.moved(before.len(), bytes_of(before)));
    lemma_lexical_moves(before, text, c.pos);
    let found = spec_integer(text, c.pos);
    let found_there = spec_integer(longer, d.pos);
    assert(c.ok ==> found_there == found.moved(before.len(), bytes_of(before)));
    lemma_attach_moves(before, c, found, Slot::Weight);
    let d = d.attach(found_there, Slot::Weight);
    let c = c.attach(found, Slot::Weight);
    assert(d == c.moved(before.len(), bytes_of(before)));
}

/// What the rule `OptionItem` matches does not depend on the text before it:
/// further on in a longer text, it matches the same, moved.
pub proof fn lemma_option_item_moves(before: Seq<char>, text: Seq<char>, at: int)
    requires
        0 <= at <= text.len(),
    ensures
        spec_option_item(before + text, before.len() + at)
            == spec_option_item(text, at).moved(before.len(), bytes_of(before)),
        spec_option_item(text, at).within(text, at),
        spec_option_item(text, at).tree is Some ==> spec_option_item(text, at).end > at,
{
    reveal(spec_option_item);
    let longer = before + text;
    let there = before.len() + at;
    let c = Cursor::start(at);
    let d = Cursor::start(there);
    lemma_plain_steps_move(before, c, 0);
    assert(d == c.moved(before.len(), bytes_of(before)));
    lemma_lexical_moves(before, text, c.pos);
    let found = spec_identifier(text, c.pos);
    let found_there = spec_identifier(longer, d.pos);
    assert(c.ok ==> found_there == found.moved(before.len(), bytes_of(before)));
    lemma_attach_moves(before, c, found, Slot::Variant);
    let d = d.attach(found_there, Slot::Variant);
    let c = c.attach(found, Slot::Variant);
    assert(d == c.moved(before.len(), bytes_of(before)));
    lemma_option_item_weight_moves(before, text, c.pos);
    let group = spec_option_item_weight(text, c.pos);
    let group_there = spec_option_item_weight(longer, d.pos);
    assert(c.ok ==> group_there == group.moved(before.len(), bytes_of(before)));
    lemma_join_moves(before, c, group);
    let d = d.option(group_there);
    let c = c.option(group);
    assert(d == c.moved(before.len(), bytes_of(before)));
    lemma_finish_moves(before, text, c, LifeRestartRule::OptionItem, at);
}

/// What `~ TraitStatement#trait_statement` matches does not depend on the text
/// before it.
pub proof fn lemma_trait_group_item_moves(before: Seq<char>, text: Seq<char>, at: int)
    requires
        0 <= at <= text.len(),
    ensures
        spec_trait_group_item(before + text, before.len() + at)
            == spec_trait_group_item(text, at).moved(before.len(), bytes_of(before)),
        spec_trait_group_item(text, at).within(text, at),
        spec_trait_group_item(text, at).ok ==> spec_trait_group_item(text, at).pos > at,
{
    reveal(spec_trait_group_item);
    let longer = before + text;
    let there = before.len() + at;
    let c = Cursor::start(at);
    let d = Cursor::start(there);
    lemma_plain_steps_move(before, c, 0);
    assert(d == c.moved(before.len(), bytes_of(before)));
    lemma_skip_moves(before, text, c);
    let c = c.trivia(text);
    let d = d.trivia(longer);
    assert(d == c.moved(before.len(), bytes_of(before)));
    lemma_trait_statement_moves(before, text, c.pos);
    let found = spec_trait_statement(text, c.pos);
    let found_there = spec_trait_statement(longer, d.pos);
    assert(c.ok ==> found_there == found.moved(before.len(), bytes_of(before)));
    lemma_attach_moves(before, c, found, Slot::TraitStatement);
    let d = d.attach(found_there, Slot::TraitStatement);
    let c = c.attach(found, Slot::TraitStatement);
    assert(d == c.moved(before.len(), bytes_of(before)));
}

/// What `(~ TraitStatement#trait_statement)*` matches does not depend on the
/// text before it.
#[verifier::rlimit(50)]
pub proof fn lemma_trait_group_items_moves(before: Seq<char>, text: Seq<char>, from: Cursor)
    requires
        0 <= from.pos <= text.len(),
        from.far <= text.len(),
    ensures
        spec_trait_group_items(before + text, from.moved(before.len(), bytes_of(before)))
            == spec_trait_group_items(text, from).moved(before.len(), bytes_of(before)),
        from.pos <= spec_trait_group_items(text, from).pos <= text.len(),
        from.far <= spec_trait_group_items(text, from).far <= text.len(),
        spec_trait_group_items(text, from).ok == from.ok,
    decreases text.len() - from.pos,
{
    if from.ok {
        lemma_trait_group_item_moves(before, text, from.pos);
        let step = spec_trait_group_item(text, from.pos);
        lemma_plain_steps_move(before, from, step.far);
        if step.ok && from.pos < step.pos <= text.len() {
            lemma_join_moves(before, from, step);
            lemma_trait_group_items_moves(before, text, from.join(step));
        }
    }
}

/// What the rule `TraitGroup` matches does not depend on the text before it:
/// further on in a longer text, it matches the same, moved.
#[verifier::rlimit(50)]
pub proof fn lemma_trait_group_moves(before: Seq<char>, text: Seq<char>, at: int)
    requires
        0 <= at <= text.len(),
    ensures
        spec_trait_group(before + text, before.len() + at)
            == spec_trait_group(text, at).moved(before.len(), bytes_of(before)),
        spec_trait_group(text, at).within(text, at),
        spec_trait_group(text, at).tree is Some ==> spec_trait_group(text, at).end > at,
{
    reveal(spec_trait_group);
    let longer = before + text;
    let there = before.len() + at;
    let c = Cursor::start(at);
    let d = Cursor::start(there);
    lemma_plain_steps_move(before, c, 0);
    assert(d == c.moved(before.len(), bytes_of(before)));
    lemma_kw_trait_group_moves(before, text, c.pos);
    let found = spec_kw_trait_group(text, c.pos);
    let found_there = spec_kw_trait_group(longer, d.pos);
    assert(c.ok ==> found_there == found.moved(before.len(), bytes_of(before)));
    lemma_attach_moves(before, c, found, Slot::Root);
    let d = d.pass(found_there);
    let c = c.pass(found);
    assert(d == c.moved(before.len(), bytes_of(before)));
    lemma_skip_moves(before, text, c);
    let c = c.trivia(text);
    let d = d.trivia(longer);
    assert(d == c.moved(before.len(), bytes_of(before)));
    lemma_lexical_moves(before, text, c.pos);
    let found = spec_identifier(text, c.pos);
    let found_there = spec_identifier(longer, d.pos);
    assert(c.ok ==> found_there == found.moved(before.len(), bytes_of(before)));
    lemma_attach_moves(before, c, found, Slot::Identifier);
    let d = d.attach(found_there, Slot::Identifier);
    let c = c.attach(found, Slot::Identifier);
    assert(d == c.moved(before.len(), bytes_of(before)));
    lemma_skip_moves(before, text, c);
    let c = c.trivia(text);
    let d = d.trivia(longer);
    assert(d == c.moved(before.len(), bytes_of(before)));
    lemma_word_moves(before, text, c, "{"@);
    let c = c.word(text, "{"@);
    let d = d.word(longer, "{"@);
    assert(d == c.moved(before.len(), bytes_of(before)));
    if c.ok {
        lemma_trait_group_items_moves(before, text, c);
    } else {
        reveal(spec_trait_group_items);
    }
    let c = spec_trait_group_items(text, c);
    let d = spec_trait_group_items(longer, d);
    assert(d == c.moved(before.len(), bytes_of(before)));
    lemma_skip_moves(before, text, c);
    let c = c.trivia(text);
    let d = d.trivia(longer);
    assert(d == c.moved(before.len(), bytes_of(before)));
    lemma_word_moves(before, text, c, "}"@);
    let c = c.word(text, "}"@);
    let d = d.word(longer, "}"@);
    assert(d == c.moved(before.len(), bytes_of(before)));
    lemma_finish_moves(before, text, c, LifeRestartRule::TraitGroup, at);
}

/// What `~ TraitItem#trait_item` matches does not depend on the text before it.
pub proof fn lemma_trait_statement_item_moves(before: Seq<char>, text: Seq<char>, at: int)
    requires
        0 <= at <= text.len(),
    ensures
        spec_trait_statement_item(before + text, before.len() + at)
            == spec_trait_statement_item(text, at).moved(before.len(), bytes_of(before)),
        spec_trait_statement_item(text, at).within(text, at),
        spec_trait_statement_item(text, at).ok ==> spec_trait_statement_item(text, at).pos > at,
{
    reveal(spec_trait_statement_item);
    let longer = before + text;
    let there = before.len() + at;
    let c = Cursor::start(at);
    let d = Cursor::start(there);
    lemma_plain_steps_move(before, c, 0);
    assert(d == c.moved(before.len(), bytes_of(before)));
    lemma_skip_moves(before, text, c);
    let c = c.trivia(text);
    let d = d.trivia(longer);
    assert(d == c.moved(before.len(), bytes_of(before)));
    lemma_trait_item_moves(before, text, c.pos);
    let found = spec_trait_item(text, c.pos);
    let found_there = spec_trait_item(longer, d.pos);
    assert(c.ok ==> found_there == found.moved(before.len(), bytes_of(before)));
    lemma_attach_moves(before, c, found, Slot::TraitItem);
    let d = d.attach(found_there, Slot::TraitItem);
    let c = c.attach(found, Slot::TraitItem);
    assert(d == c.moved(before.len(), bytes_of(before)));
}

/// What `(~ TraitItem#trait_item)*` matches does not depend on the text before
/// it.
#[verifier::rlimit(50)]
pub proof fn lemma_trait_statement_items_moves(before: Seq<char>, text: Seq<char>, from: Cursor)
    requires
        0 <= from.pos <= text.len(),
        from.far <= text.len(),
    ensures
        spec_trait_statement_items(before + text, from.moved(before.len(), bytes_of(before)))
            == spec_trait_statement_items(text, from).moved(before.len(), bytes_of(before)),
        from.pos <= spec_trait_statement_items(text, from).pos <= text.len(),
        from.far <= spec_trait_statement_items(text, from).far <= text.len(),
        spec_trait_statement_items(text, from).ok == from.ok,
    decreases text.len() - from.pos,
{
    if from.ok {
        lemma_trait_statement_item_moves(before, text, from.pos);
        let step = spec_trait_statement_item(text, from.pos);
        lemma_plain_steps_move(before, from, step.far);
        if step.ok && from.pos < step.pos <= text.len() {
            lemma_join_moves(before, from, step);
            lemma_trait_statement_items_moves(before, text, from.join(step));
        }
    }
}

/// What the rule `TraitStatement` matches does not depend on the text before
/// it: further on in a longer text, it matches the same, moved.
#[verifier::rlimit(50)]
pub proof fn lemma_trait_statement_moves(before: Seq<char>, text: Seq<char>, at: int)
    requires
        0 <= at <= text.len(),
    ensures
        spec_trait_statement(before + text, before.len() + at)
            == spec_trait_statement(text, at).moved(before.len(), bytes_of(before)),
        spec_trait_statement(text, at).within(text, at),
        spec_trait_statement(text, at).tree is Some ==> spec_trait_statement(text, at).end > at,
{
    reveal(spec_trait_statement);
    let longer = before + text;
    let there = before.len() + at;
    let c = Cursor::start(at);
    let d = Cursor::start(there);
    lemma_plain_steps_move(before, c, 0);
    assert(d == c.moved(before.len(), bytes_of(before)));
    lemma_kw_trait_moves(before, text, c.pos);
    let found = spec_kw_trait(text, c.pos);
    let found_there = spec_kw_trait(longer, d.pos);
    assert(c.ok ==> found_there == found.moved(before.len(), bytes_of(before)));
    lemma_attach_moves(before, c, found, Slot::Root);
    let d = d.pass(found_there);
    let c = c.pass(found);
    assert(d == c.moved(before.len(), bytes_of(before)));
    lemma_skip_moves(before, text, c);
    let c = c.trivia(text);
    let d = d.trivia(longer);
    assert(d == c.moved(before.len(), bytes_of(before)));
    lemma_lexical_moves(before, text, c.pos);
    let found = spec_identifier(text, c.pos);
    let found_there = spec_identifier(longer, d.pos);
    assert(c.ok ==> found_there == found.moved(before.len(), bytes_of(before)));
    lemma_attach_moves(before, c, found, Slot::Identifier);
    let d = d.attach(found_there, Slot::Identifier);
    let c = c.attach(found, Slot::Identifier);
    assert(d == c.moved(before.len(), bytes_of(before)));
    lemma_skip_moves(before, text, c);
    let c = c.trivia(text);
    let d = d.trivia(longer);
    assert(d == c.moved(before.len(), bytes_of(before)));
    lemma_word_moves(before, text, c, "{"@);
    let c = c.word(text, "{"@);
    let d = d.word(longer, "{"@);
    assert(d == c.moved(before.len(), bytes_of(before)));
    if c.ok {
        lemma_trait_statement_items_moves(before, text, c);
    } else {
        reveal(spec_trait_statement_items);
    }
    let c = spec_trait_statement_items(text, c);
    let d = spec_trait_statement_items(longer, d);
    assert(d == c.moved(before.len(), bytes_of(before)));
    lemma_skip_moves(before, text, c);
    let c = c.trivia(text);
    let d = d.trivia(longer);
    assert(d == c.moved(before.len(), bytes_of(before)));
    lemma_word_moves(before, text, c, "}"@);
    let c = c.word(text, "}"@);
    let d = d.word(longer, "}"@);
    assert(d == c.moved(before.len(), bytes_of(before)));
    lemma_finish_moves(before, text, c, LifeRestartRule::TraitStatement, at);
}

/// What the rule `TraitItem` matches does not depend on the text before it:
/// further on in a longer text, it matches the same, moved.
pub proof fn lemma_trait_item_moves(before: Seq<char>, text: Seq<char>, at: int)
    requires
        0 <= at <= text.len(),
    ensures
        spec_trait_item(before + text, before.len() + at)
            == spec_trait_item(text, at).moved(before.len(), bytes_of(before)),
        spec_trait_item(text, at).within(text, at),
        spec_trait_item(text, at).tree is Some ==> spec_trait_item(text, at).end > at,
{
    reveal(spec_trait_item);
    let longer = before + text;
    let there = before.len() + at;
    let c = Cursor::start(at);
    let d = Cursor::start(there);
    lemma_plain_steps_move(before, c, 0);
    assert(d == c.moved(before.len(), bytes_of(before)));
    let after = {
        let first = c;
        lemma_id_statement_moves(before, text, first.pos);
        let found = spec_id_statement(text, first.pos);
        lemma_attach_moves(before, Cursor::start(first.pos), found, Slot::IdStatement);
        let alt = Cursor::start(first.pos).attach(found, Slot::IdStatement);
        lemma_join_moves(before, c, alt);
        lemma_plain_steps_move(before, c, alt.far);
        let c = c.note(alt.far);
        lemma_description_statement_moves(before, text, first.pos);
        let found = spec_description_statement(text, first.pos);
        lemma_attach_moves(before, Cursor::start(first.pos), found, Slot::DescriptionStatement);
        let alt = Cursor::start(first.pos).attach(found, Slot::DescriptionStatement);
        lemma_join_moves(before, c, alt);
        lemma_plain_steps_move(before, c, alt.far);
        let c = c.note(alt.far);
        lemma_requirement_statement_moves(before, text, first.pos);
        let found = spec_requirement_statement(text, first.pos);
        lemma_attach_moves(before, Cursor::start(first.pos), found, Slot::RequirementStatement);
        let alt = Cursor::start(first.pos).attach(found, Slot::RequirementStatement);
        lemma_join_moves(before, c, alt);
        lemma_plain_steps_move(before, c, alt.far);
        let c = c.note(alt.far);
        lemma_effect_statement_moves(before, text, first.pos);
        let found = spec_effect_statement(text, first.pos);
        lemma_attach_moves(before, Cursor::start(first.pos), found, Slot::EffectStatement);
        let alt = Cursor::start(first.pos).attach(found, Slot::EffectStatement);
        lemma_join_moves(before, c, alt);
        lemma_plain_steps_move(before, c, alt.far);
        let c = c.note(alt.far);
        c
    };
    lemma_plain_steps_move(before, after, 0);
    let c = if !c.ok {
        c
    } else {
        let alt = Cursor::start(c.pos).attach(spec_id_statement(text, c.pos), Slot::IdStatement);
        if alt.ok {
            c.join(alt)
        } else {
            let c = c.note(alt.far);
            let alt = Cursor::start(c.pos).attach(
                spec_description_statement(text, c.pos),
                Slot::DescriptionStatement,
            );
            if alt.ok {
                c.join(alt)
            } else {
                let c = c.note(alt.far);
                let alt = Cursor::start(c.pos).attach(
                    spec_requirement_statement(text, c.pos),
                    Slot::RequirementStatement,
                );
                if alt.ok {
                    c.join(alt)
                } else {
                    let c = c.note(alt.far);
                    let alt = Cursor::start(c.pos).attach(
                        spec_effect_statement(text, c.pos),
                        Slot::EffectStatement,
                    );
                    if alt.ok {
                        c.join(alt)
                    } else {
                        c.note(alt.far).halt()
                    }
                }
            }
        }
    };
    let d = if !d.ok {
        d
    } else {
        let alt = Cursor::start(d.pos).attach(spec_id_statement(longer, d.pos), Slot::IdStatement);
        if alt.ok {
            d.join(alt)
        } else {
            let d = d.note(alt.far);
            let alt = Cursor::start(d.pos).attach(
                spec_description_statement(longer, d.pos),
                Slot::DescriptionStatement,
            );
            if alt.ok {
                d.join(alt)
            } else {
                let d = d.note(alt.far);
                let alt = Cursor::start(d.pos).attach(
                    spec_requirement_statement(longer, d.pos),
                    Slot::RequirementStatement,
                );
                if alt.ok {
                    d.join(alt)
                } else {
                    let d = d.note(alt.far);
                    let alt = Cursor::start(d.pos).attach(
                        spec_effect_statement(longer, d.pos),
                        Slot::EffectStatement,
                    );
                    if alt.ok {
                        d.join(alt)
                    } else {
                        d.note(alt.far).halt()
                    }
                }
            }
        }
    };
    assert(d == c.moved(before.len(), bytes_of(before)));
    lemma_finish_moves(before, text, c, LifeRestartRule::TraitItem, at);
}

/// What the rule `TraitProperty` matches does not depend on the text before it:
/// further on in a longer text, it matches the same, moved.
#[verifier::rlimit(50)]
pub proof fn lemma_trait_property_moves(before: Seq<char>, text: Seq<char>, at: int)
    requires
        0 <= at <= text.len(),
    ensures
        spec_trait_property(before + text, before.len() + at)
            == spec_trait_property(text, at).moved(before.len(), bytes_of(before)),
        spec_trait_property(text, at).within(text, at),
        spec_trait_property(text, at).tree is Some ==> spec_trait_property(text, at).end > at,
{
    reveal(spec_trait_property);
    let longer = before + text;
    let there = before.len() + at;
    let c = Cursor::start(at);
    let d = Cursor::start(there);
    lemma_plain_steps_move(before, c, 0);
    assert(d == c.moved(before.len(), bytes_of(before)));
    lemma_lexical_moves(before, text, c.pos);
    let found = spec_identifier(text, c.pos);
    let found_there = spec_identifier(longer, d.pos);
    assert(c.ok ==> found_there == found.moved(before.len(), bytes_of(before)));
    lemma_attach_moves(before, c, found, Slot::Identifier);
    let d = d.attach(found_there, Slot::Identifier);
    let c = c.attach(found, Slot::Identifier);
    assert(d == c.moved(before.len(), bytes_of(before)));
    lemma_skip_moves(before, text, c);
    let c = c.trivia(text);
    let d = d.trivia(longer);
    assert(d == c.moved(before.len(), bytes_of(before)));
    lemma_colon_moves(before, text, c.pos);
    let found = spec_colon(text, c.pos);
    let found_there = spec_colon(longer, d.pos);
    assert(c.ok ==> found_there == found.moved(before.len(), bytes_of(before)));
    lemma_attach_moves(before, c, found, Slot::Root);
    let d = d.pass(found_there);
    let c = c.pass(found);
    assert(d == c.moved(before.len(), bytes_of(before)));
    lemma_skip_moves(before, text, c);
    let c = c.trivia(text);
    let d = d.trivia(longer);
    assert(d == c.moved(before.len(), bytes_of(before)));
    lemma_atomic_moves(before, text, c.pos);
    let found = spec_atomic(text, c.pos);
    let found_there = spec_atomic(longer, d.pos);
    assert(c.ok ==> found_there == found.moved(before.len(), bytes_of(before)));
    lemma_attach_moves(before, c, found, Slot::Atomic);
    let d = d.attach(found_there, Slot::Atomic);
    let c = c.attach(found, Slot::Atomic);
    assert(d == c.moved(before.len(), bytes_of(before)));
    lemma_finish_moves(before, text, c, LifeRestartRule::TraitProperty, at);
}

/// What `~ Statement#statement` matches does not depend on the text before it.
#[verifier::rlimit(50)]
pub proof fn lemma_requirement_statement_item_moves(before: Seq<char>, text: Seq<char>, at: int)
    requires
        0 <= at <= text.len(),
    ensures
        spec_requirement_statement_item(before + text, before.len() + at)
            == spec_requirement_statement_item(text, at).moved(before.len(), bytes_of(before)),
        spec_requirement_statement_item(text, at).within(text, at),
        spec_requirement_statement_item(text, at).ok
            ==> spec_requirement_statement_item(text, at).pos > at,
{
    reveal(spec_requirement_statement_item);
    let longer = before + text;
    let there = before.len() + at;
    let c = Cursor::start(at);
    let d = Cursor::start(there);
    lemma_plain_steps_move(before, c, 0);
    assert(d == c.moved(before.len(), bytes_of(before)));
    lemma_skip_moves(before, text, c);
    let c = c.trivia(text);
    let d = d.trivia(longer);
    assert(d == c.moved(before.len(), bytes_of(before)));
    lemma_statement_moves(before, text, c.pos);
    let found = spec_statement(text, c.pos);
    let found_there = spec_statement(longer, d.pos);
    assert(c.ok ==> found_there == found.moved(before.len(), bytes_of(before)));
    lemma_attach_moves(before, c, found, Slot::Statement);
    let d = d.attach(found_there, Slot::Statement);
    let c = c.attach(found, Slot::Statement);
    assert(d == c.moved(before.len(), bytes_of(before)));
}

/// What `(~ Statement#statement)*` matches does not depend on the text before
/// it.
#[verifier::rlimit(50)]
pub proof fn lemma_requirement_statement_items_moves(
    before: Seq<char>,
    text: Seq<char>,
    from: Cursor,
)
    requires
        0 <= from.pos <= text.len(),
        from.far <= text.len(),
    ensures
        spec_requirement_statement_items(before + text, from.moved(before.len(), bytes_of(before)))
            == spec_requirement_statement_items(text, from).moved(before.len(), bytes_of(before)),
        from.pos <= spec_requirement_statement_items(text, from).pos <= text.len(),
        from.far <= spec_requirement_statement_items(text, from).far <= text.len(),
        spec_requirement_statement_items(text, from).ok == from.ok,
    decreases text.len() - from.pos,
{
    if from.ok {
        lemma_requirement_statement_item_moves(before, text, from.pos);
        let step = spec_requirement_statement_item(text, from.pos);
        lemma_plain_steps_move(before, from, step.far);
        if step.ok && from.pos < step.pos <= text.len() {
            lemma_join_moves(before, from, step);
            lemma_requirement_statement_items_moves(before, text, from.join(step));
        }
    }
}

/// What the rule `RequirementStatement` matches does not depend on the text
/// before it: further on in a longer text, it matches the same, moved.
#[verifier::rlimit(50)]
pub proof fn lemma_requirement_statement_moves(before: Seq<char>, text: Seq<char>, at: int)
    requires
        0 <= at <= text.len(),
    ensures
        spec_requirement_statement(before + text, before.len() + at)
            == spec_requirement_statement(text, at).moved(before.len(), bytes_of(before)),
        spec_requirement_statement(text, at).within(text, at),
        spec_requirement_statement(text, at).tree is Some
            ==> spec_requirement_statement(text, at).end > at,
{
    reveal(spec_requirement_statement);
    let longer = before + text;
    let there = before.len() + at;
    let c = Cursor::start(at);
    let d = Cursor::start(there);
    lemma_plain_steps_move(before, c, 0);
    assert(d == c.moved(before.len(), bytes_of(before)));
    lemma_kw_requirement_moves(before, text, c.pos);
    let found = spec_kw_requirement(text, c.pos);
    let found_there = spec_kw_requirement(longer, d.pos);
    assert(c.ok ==> found_there == found.moved(before.len(), bytes_of(before)));
    lemma_attach_moves(before, c, found, Slot::Root);
    let d = d.pass(found_there);
    let c = c.pass(found);
    assert(d == c.moved(before.len(), bytes_of(before)));
    lemma_skip_moves(before, text, c);
    let c = c.trivia(text);
    let d = d.trivia(longer);
    assert(d == c.moved(before.len(), bytes_of(before)));
    lemma_word_moves(before, text, c, "{"@);
    let c = c.word(text, "{"@);
    let d = d.word(longer, "{"@);
    assert(d == c.moved(before.len(), bytes_of(before)));
    if c.ok {
        lemma_requirement_statement_items_moves(before, text, c);
    } else {
        reveal(spec_requirement_statement_items);
    }
    let c = spec_requirement_statement_items(text, c);
    let d = spec_requirement_statement_items(longer, d);
    assert(d == c.moved(before.len(), bytes_of(before)));
    lemma_skip_moves(before, text, c);
    let c = c.trivia(text);
    let d = d.trivia(longer);
    assert(d == c.moved(before.len(), bytes_of(before)));
    lemma_word_moves(before, text, c, "}"@);
    let c = c.word(text, "}"@);
    let d = d.word(longer, "}"@);
    assert(d == c.moved(before.len(), bytes_of(before)));
    lemma_finish_moves(before, text, c, LifeRestartRule::RequirementStatement, at);
}

/// What `~ Statement#statement` matches does not depend on the text before it.
#[verifier::rlimit(50)]
pub proof fn lemma_effect_statement_item_moves(before: Seq<char>, text: Seq<char>, at: int)
    requires
        0 <= at <= text.len(),
    ensures
        spec_effect_statement_item(before + text, before.len() + at)
            == spec_effect_statement_item(text, at).moved(before.len(), bytes_of(before)),
        spec_effect_statement_item(text, at).within(text, at),
        spec_effect_statement_item(text, at).ok ==> spec_effect_statement_item(text, at).pos > at,
{
    reveal(spec_effect_statement_item);
    let longer = before + text;
    let there = before.len() + at;
    let c = Cursor::start(at);
    let d = Cursor::start(there);
    lemma_plain_steps_move(before, c, 0);
    assert(d == c.moved(before.len(), bytes_of(before)));
    lemma_skip_moves(before, text, c);
    let c = c.trivia(text);
    let d = d.trivia(longer);
    assert(d == c.moved(before.len(), bytes_of(before)));
    lemma_statement_moves(before, text, c.pos);
    let found = spec_statement(text, c.pos);
    let found_there = spec_statement(longer, d.pos);
    assert(c.ok ==> found_there == found.moved(before.len(), bytes_of(before)));
    lemma_attach_moves(before, c, found, Slot::Statement);
    let d = d.attach(found_there, Slot::Statement);
    let c = c.attach(found, Slot::Statement);
    assert(d == c.moved(before.len(), bytes_of(before)));
}

/// What `(~ Statement#statement)*` matches does not depend on the text before
/// it.
#[verifier::rlimit(50)]
pub proof fn lemma_effect_statement_items_moves(before: Seq<char>, text: Seq<char>, from: Cursor)
    requires
        0 <= from.pos <= text.len(),
        from.far <= text.len(),
    ensures
        spec_effect_statement_items(before + text, from.moved(before.len(), bytes_of(before)))
            == spec_effect_statement_items(text, from).moved(before.len(), bytes_of(before)),
        from.pos <= spec_effect_statement_items(text, from).pos <= text.len(),
        from.far <= spec_effect_statement_items(text, from).far <= text.len(),
        spec_effect_statement_items(text, from).ok == from.ok,
    decreases text.len() - from.pos,
{
    if from.ok {
        lemma_effect_statement_item_moves(before, text, from.pos);
        let step = spec_effect_statement_item(text, from.pos);
        lemma_plain_steps_move(before, from, step.far);
        if step.ok && from.pos < step.pos <= text.len() {
            lemma_join_moves(before, from, step);
            lemma_effect_statement_items_moves(before, text, from.join(step));
        }
    }
}

/// What the rule `EffectStatement` matches does not depend on the text before
/// it: further on in a longer text, it matches the same, moved.
#[verifier::rlimit(50)]
pub proof fn lemma_effect_statement_moves(before: Seq<char>, text: Seq<char>, at: int)
    requires
        0 <= at <= text.len(),
    ensures
        spec_effect_statement(before + text, before.len() + at)
            == spec_effect_statement(text, at).moved(before.len(), bytes_of(before)),
        spec_effect_statement(text, at).within(text, at),
        spec_effect_statement(text, at).tree is Some ==> spec_effect_statement(text, at).end > at,
{
    reveal(spec_effect_statement);
    let longer = before + text;
    let there = before.len() + at;
    let c = Cursor::start(at);
    let d = Cursor::start(there);
    lemma_plain_steps_move(before, c, 0);
    assert(d == c.moved(before.len(), bytes_of(before)));
    lemma_kw_effect_moves(before, text, c.pos);
    let found = spec_kw_effect(text, c.pos);
    let found_there = spec_kw_effect(longer, d.pos);
    assert(c.ok ==> found_there == found.moved(before.len(), bytes_of(before)));
    lemma_attach_moves(before, c, found, Slot::Root);
    let d = d.pass(found_there);
    let c = c.pass(found);
    assert(d == c.moved(before.len(), bytes_of(before)));
    lemma_skip_moves(before, text, c);
    let c = c.trivia(text);
    let d = d.trivia(longer);
    assert(d == c.moved(before.len(), bytes_of(before)));
    lemma_word_moves(before, text, c, "{"@);
    let c = c.word(text, "{"@);
    let d = d.word(longer, "{"@);
    assert(d == c.moved(before.len(), bytes_of(before)));
    if c.ok {
        lemma_effect_statement_items_moves(before, text, c);
    } else {
        reveal(spec_effect_statement_items);
    }
    let c = spec_effect_statement_items(text, c);
    let d = spec_effect_statement_items(longer, d);
    assert(d == c.moved(before.len(), bytes_of(before)));
    lemma_skip_moves(before, text, c);
    let c = c.trivia(text);
    let d = d.trivia(longer);
    assert(d == c.moved(before.len(), bytes_of(before)));
    lemma_word_moves(before, text, c, "}"@);
    let c = c.word(text, "}"@);
    let d = d.word(longer, "}"@);
    assert(d == c.moved(before.len(), bytes_of(before)));
    lemma_finish_moves(before, text, c, LifeRestartRule::EffectStatement, at);
}

/// What `~ EventStatement#event_statement` matches does not depend on the text
/// before it.
pub proof fn lemma_event_group_item_moves(before: Seq<char>, text: Seq<char>, at: int)
    requires
        0 <= at <= text.len(),
    ensures
        spec_event_group_item(before + text, before.len() + at)
            == spec_event_group_item(text, at).moved(before.len(), bytes_of(before)),
        spec_event_group_item(text, at).within(text, at),
        spec_event_group_item(text, at).ok ==> spec_event_group_item(text, at).pos > at,
{
    reveal(spec_event_group_item);
    let longer = before + text;
    let there = before.len() + at;
    let c = Cursor::start(at);
    let d = Cursor::start(there);
    lemma_plain_steps_move(before, c, 0);
    assert(d == c.moved(before.len(), bytes_of(before)));
    lemma_skip_moves(before, text, c);
    let c = c.trivia(text);
    let d = d.trivia(longer);
    assert(d == c.moved(before.len(), bytes_of(before)));
    lemma_event_statement_moves(before, text, c.pos);
    let found = spec_event_statement(text, c.pos);
    let found_there = spec_event_statement(longer, d.pos);
    assert(c.ok ==> found_there == found.moved(before.len(), bytes_of(before)));
    lemma_attach_moves(before, c, found, Slot::EventStatement);
    let d = d.attach(found_there, Slot::EventStatement);
    let c = c.attach(found, Slot::EventStatement);
    assert(d == c.moved(before.len(), bytes_of(before)));
}

/// What `(~ EventStatement#event_statement)*` matches does not depend on the
/// text before it.
#[verifier::rlimit(50)]
pub proof fn lemma_event_group_items_moves(before: Seq<char>, text: Seq<char>, from: Cursor)
    requires
        0 <= from.pos <= text.len(),
        from.far <= text.len(),
    ensures
        spec_event_group_items(before + text, from.moved(before.len(), bytes_of(before)))
            == spec_event_group_items(text, from).moved(before.len(), bytes_of(before)),
        from.pos <= spec_event_group_items(text, from).pos <= text.len(),
        from.far <= spec_event_group_items(text, from).far <= text.len(),
        spec_event_group_items(text, from).ok == from.ok,
    decreases text.len() - from.pos,
{
    if from.ok {
        lemma_event_group_item_moves(before, text, from.pos);
        let step = spec_event_group_item(text, from.pos);
        lemma_plain_steps_move(before, from, step.far);
        if step.ok && from.pos < step.pos <= text.len() {
            lemma_join_moves(before, from, step);
            lemma_event_group_items_moves(before, text, from.join(step));
        }
    }
}

/// What the rule `EventGroup` matches does not depend on the text before it:
/// further on in a longer text, it matches the same, moved.
#[verifier::rlimit(50)]
pub proof fn lemma_event_group_moves(before: Seq<char>, text: Seq<char>, at: int)
    requires
        0 <= at <= text.len(),
    ensures
        spec_event_group(before + text, before.len() + at)
            == spec_event_group(text, at).moved(before.len(), bytes_of(before)),
        spec_event_group(text, at).within(text, at),
        spec_event_group(text, at).tree is Some ==> spec_event_group(text, at).end > at,
{
    reveal(spec_event_group);
    let longer = before + text;
    let there = before.len() + at;
    let c = Cursor::start(at);
    let d = Cursor::start(there);
    lemma_plain_steps_move(before, c, 0);
    assert(d == c.moved(before.len(), bytes_of(before)));
    lemma_kw_event_group_moves(before, text, c.pos);
    let found = spec_kw_event_group(text, c.pos);
    let found_there = spec_kw_event_group(longer, d.pos);
    assert(c.ok ==> found_there == found.moved(before.len(), bytes_of(before)));
    lemma_attach_moves(before, c, found, Slot::Root);
    let d = d.pass(found_there);
    let c = c.pass(found);
    assert(d == c.moved(before.len(), bytes_of(before)));
    lemma_skip_moves(before, text, c);
    let c = c.trivia(text);
    let d = d.trivia(longer);
    assert(d == c.moved(before.len(), bytes_of(before)));
    lemma_lexical_moves(before, text, c.pos);
    let found = spec_identifier(text, c.pos);
    let found_there = spec_identifier(longer, d.pos);
    assert(c.ok ==> found_there == found.moved(before.len(), bytes_of(before)));
    lemma_attach_moves(before, c, found, Slot::Identifier);
    let d = d.attach(found_there, Slot::Identifier);
    let c = c.attach(found, Slot::Identifier);
    assert(d == c.moved(before.len(), bytes_of(before)));
    lemma_skip_moves(before, text, c);
    let c = c.trivia(text);
    let d = d.trivia(longer);
    assert(d == c.moved(before.len(), bytes_of(before)));
    lemma_word_moves(before, text, c, "{"@);
    let c = c.word(text, "{"@);
    let d = d.word(longer, "{"@);
    assert(d == c.moved(before.len(), bytes_of(before)));
    if c.ok {
        lemma_event_group_items_moves(before, text, c);
    } else {
        reveal(spec_event_group_items);
    }
    let c = spec_event_group_items(text, c);
    let d = spec_event_group_items(longer, d);
    assert(d == c.moved(before.len(), bytes_of(before)));
    lemma_skip_moves(before, text, c);
    let c = c.trivia(text);
    let d = d.trivia(longer);
    assert(d == c.moved(before.len(), bytes_of(before)));
    lemma_word_moves(before, text, c, "}"@);
    let c = c.word(text, "}"@);
    let d = d.word(longer, "}"@);
    assert(d == c.moved(before.len(), bytes_of(before)));
    lemma_finish_moves(before, text, c, LifeRestartRule::EventGroup, at);
}

/// What `~ EventItem#event_item` matches does not depend on the text before it.
pub proof fn lemma_event_statement_item_moves(before: Seq<char>, text: Seq<char>, at: int)
    requires
        0 <= at <= text.len(),
    ensures
        spec_event_statement_item(before + text, before.len() + at)
            == spec_event_statement_item(text, at).moved(before.len(), bytes_of(before)),
        spec_event_statement_item(text, at).within(text, at),
        spec_event_statement_item(text, at).ok ==> spec_event_statement_item(text, at).pos > at,
{
    reveal(spec_event_statement_item);
    let longer = before + text;
    let there = before.len() + at;
    let c = Cursor::start(at);
    let d = Cursor::start(there);
    lemma_plain_steps_move(before, c, 0);
    assert(d == c.moved(before.len(), bytes_of(before)));
    lemma_skip_moves(before, text, c);
    let c = c.trivia(text);
    let d = d.trivia(longer);
    assert(d == c.moved(before.len(), bytes_of(before)));
    lemma_event_item_moves(before, text, c.pos);
    let found = spec_event_item(text, c.pos);
    let found_there = spec_event_item(longer, d.pos);
    assert(c.ok ==> found_there == found.moved(before.len(), bytes_of(before)));
    lemma_attach_moves(before, c, found, Slot::EventItem);
    let d = d.attach(found_there, Slot::EventItem);
    let c = c.attach(found, Slot::EventItem);
    assert(d == c.moved(before.len(), bytes_of(before)));
}

/// What `(~ EventItem#event_item)*` matches does not depend on the text before
/// it.
#[verifier::rlimit(50)]
pub proof fn lemma_event_statement_items_moves(before: Seq<char>, text: Seq<char>, from: Cursor)
    requires
        0 <= from.pos <= text.len(),
        from.far <= text.len(),
    ensures
        spec_event_statement_items(before + text, from.moved(before.len(), bytes_of(before)))
            == spec_event_statement_items(text, from).moved(before.len(), bytes_of(before)),
        from.pos <= spec_event_statement_items(text, from).pos <= text.len(),
        from.far <= spec_event_statement_items(text, from).far <= text.len(),
        spec_event_statement_items(text, from).ok == from.ok,
    decreases text.len() - from.pos,
{
    if from.ok {
        lemma_event_statement_item_moves(before, text, from.pos);
        let step = spec_event_statement_item(text, from.pos);
        lemma_plain_steps_move(before, from, step.far);
        if step.ok && from.pos < step.pos <= text.len() {
            lemma_join_moves(before, from, step);
            lemma_event_statement_items_moves(before, text, from.join(step));
        }
    }
}

/// What the rule `EventStatement` matches does not depend on the text before
/// it: further on in a longer text, it matches the same, moved.
#[verifier::rlimit(50)]
pub proof fn lemma_event_statement_moves(before: Seq<char>, text: Seq<char>, at: int)
    requires
        0 <= at <= text.len(),
    ensures
        spec_event_statement(before + text, before.len() + at)
            == spec_event_statement(text, at).moved(before.len(), bytes_of(before)),
        spec_event_statement(text, at).within(text, at),
        spec_event_statement(text, at).tree is Some ==> spec_event_statement(text, at).end > at,
{
    reveal(spec_event_statement);
    let longer = before + text;
    let there = before.len() + at;
    let c = Cursor::start(at);
    let d = Cursor::start(there);
    lemma_plain_steps_move(before, c, 0);
    assert(d == c.moved(before.len(), bytes_of(before)));
    lemma_kw_event_moves(before, text, c.pos);
    let found = spec_kw_event(text, c.pos);
    let found_there = spec_kw_event(longer, d.pos);
    assert(c.ok ==> found_there == found.moved(before.len(), bytes_of(before)));
    lemma_attach_moves(before, c, found, Slot::Root);
    let d = d.pass(found_there);
    let c = c.pass(found);
    assert(d == c.moved(before.len(), bytes_of(before)));
    lemma_skip_moves(before, text, c);
    let c = c.trivia(text);
    let d = d.trivia(longer);
    assert(d == c.moved(before.len(), bytes_of(before)));
    lemma_lexical_moves(before, text, c.pos);
    let found = spec_identifier(text, c.pos);
    let found_there = spec_identifier(longer, d.pos);
    assert(c.ok ==> found_there == found.moved(before.len(), bytes_of(before)));
    lemma_attach_moves(before, c, found, Slot::Identifier);
    let d = d.attach(found_there, Slot::Identifier);
    let c = c.attach(found, Slot::Identifier);
    assert(d == c.moved(before.len(), bytes_of(before)));
    lemma_skip_moves(before, text, c);
    let c = c.trivia(text);
    let d = d.trivia(longer);
    assert(d == c.moved(before.len(), bytes_of(before)));
    lemma_word_moves(before, text, c, "{"@);
    let c = c.word(text, "{"@);
    let d = d.word(longer, "{"@);
    assert(d == c.moved(before.len(), bytes_of(before)));
    if c.ok {
        lemma_event_statement_items_moves(before, text, c);
    } else {
        reveal(spec_event_statement_items);
    }
    let c = spec_event_statement_items(text, c);
    let d = spec_event_statement_items(longer, d);
    assert(d == c.moved(before.len(), bytes_of(before)));
    lemma_skip_moves(before, text, c);
    let c = c.trivia(text);
    let d = d.trivia(longer);
    assert(d == c.moved(before.len(), bytes_of(before)));
    lemma_word_moves(before, text, c, "}"@);
    let c = c.word(text, "}"@);
    let d = d.word(longer, "}"@);
    assert(d == c.moved(before.len(), bytes_of(before)));
    lemma_finish_moves(before, text, c, LifeRestartRule::EventStatement, at);
}

/// What the rule `EventItem` matches does not depend on the text before it:
/// further on in a longer text, it matches the same, moved.
pub proof fn lemma_event_item_moves(before: Seq<char>, text: Seq<char>, at: int)
    requires
        0 <= at <= text.len(),
    ensures
        spec_event_item(before + text, before.len() + at)
            == spec_event_item(text, at).moved(before.len(), bytes_of(before)),
        spec_event_item(text, at).within(text, at),
        spec_event_item(text, at).tree is Some ==> spec_event_item(text, at).end > at,
{
    reveal(spec_event_item);
    let longer = before + text;
    let there = before.len() + at;
    let c = Cursor::start(at);
    let d = Cursor::start(there);
    lemma_plain_steps_move(before, c, 0);
    assert(d == c.moved(before.len(), bytes_of(before)));
    let after = {
        let first = c;
        lemma_id_statement_moves(before, text, first.pos);
        let found = spec_id_statement(text, first.pos);
        lemma_attach_moves(before, Cursor::start(first.pos), found, Slot::IdStatement);
        let alt = Cursor::start(first.pos).attach(found, Slot::IdStatement);
        lemma_join_moves(before, c, alt);
        lemma_plain_steps_move(before, c, alt.far);
        let c = c.note(alt.far);
        lemma_description_statement_moves(before, text, first.pos);
        let found = spec_description_statement(text, first.pos);
        lemma_attach_moves(before, Cursor::start(first.pos), found, Slot::DescriptionStatement);
        let alt = Cursor::start(first.pos).attach(found, Slot::DescriptionStatement);
        lemma_join_moves(before, c, alt);
        lemma_plain_steps_move(before, c, alt.far);
        let c = c.note(alt.far);
        lemma_requirement_statement_moves(before, text, first.pos);
        let found = spec_requirement_statement(text, first.pos);
        lemma_attach_moves(before, Cursor::start(first.pos), found, Slot::RequirementStatement);
        let alt = Cursor::start(first.pos).attach(found, Slot::RequirementStatement);
        lemma_join_moves(before, c, alt);
        lemma_plain_steps_move(before, c, alt.far);
        let c = c.note(alt.far);
        lemma_option_statement_moves(before, text, first.pos);
        let found = spec_option_statement(text, first.pos);
        lemma_attach_moves(before, Cursor::start(first.pos), found, Slot::OptionStatement);
        let alt = Cursor::start(first.pos).attach(found, Slot::OptionStatement);
        lemma_join_moves(before, c, alt);
        lemma_plain_steps_move(before, c, alt.far);
        let c = c.note(alt.far);
        c
    };
    lemma_plain_steps_move(before, after, 0);
    let c = if !c.ok {
        c
    } else {
        let alt = Cursor::start(c.pos).attach(spec_id_statement(text, c.pos), Slot::IdStatement);
        if alt.ok {
            c.join(alt)
        } else {
            let c = c.note(alt.far);
            let alt = Cursor::start(c.pos).attach(
                spec_description_statement(text, c.pos),
                Slot::DescriptionStatement,
            );
            if alt.ok {
                c.join(alt)
            } else {
                let c = c.note(alt.far);
                let alt = Cursor::start(c.pos).attach(
                    spec_requirement_statement(text, c.pos),
                    Slot::RequirementStatement,
                );
                if alt.ok {
                    c.join(alt)
                } else {
                    let c = c.note(alt.far);
                    let alt = Cursor::start(c.pos).attach(
                        spec_option_statement(text, c.pos),
                        Slot::OptionStatement,
                    );
                    if alt.ok {
                        c.join(alt)
                    } else {
                        c.note(alt.far).halt()
                    }
                }
            }
        }
    };
    let d = if !d.ok {
        d
    } else {
        let alt = Cursor::start(d.pos).attach(spec_id_statement(longer, d.pos), Slot::IdStatement);
        if alt.ok {
            d.join(alt)
        } else {
            let d = d.note(alt.far);
            let alt = Cursor::start(d.pos).attach(
                spec_description_statement(longer, d.pos),
                Slot::DescriptionStatement,
            );
            if alt.ok {
                d.join(alt)
            } else {
                let d = d.note(alt.far);
                let alt = Cursor::start(d.pos).attach(
                    spec_requirement_statement(longer, d.pos),
                    Slot::RequirementStatement,
                );
                if alt.ok {
                    d.join(alt)
                } else {
                    let d = d.note(alt.far);
                    let alt = Cursor::start(d.pos).attach(
                        spec_option_statement(longer, d.pos),
                        Slot::OptionStatement,
                    );
                    if alt.ok {
                        d.join(alt)
                    } else {
                        d.note(alt.far).halt()
                    }
                }
            }
        }
    };
    assert(d == c.moved(before.len(), bytes_of(before)));
    lemma_finish_moves(before, text, c, LifeRestartRule::EventItem, at);
}

/// What `~ EventProperty` matches does not depend on the text before it.
#[verifier::rlimit(50)]
pub proof fn lemma_event_property_entry_moves(before: Seq<char>, text: Seq<char>, at: int)
    requires
        0 <= at <= text.len(),
    ensures
        spec_event_property_entry(before + text, before.len() + at)
            == spec_event_property_entry(text, at).moved(before.len(), bytes_of(before)),
        spec_event_property_entry(text, at).within(text, at),
        spec_event_property_entry(text, at).ok ==> spec_event_property_entry(text, at).pos > at,
    decreases text.len() - at, 1nat,
{
    let longer = before + text;
    let there = before.len() + at;
    let c = Cursor::start(at);
    let d = Cursor::start(there);
    lemma_plain_steps_move(before, c, 0);
    assert(d == c.moved(before.len(), bytes_of(before)));
    lemma_skip_moves(before, text, c);
    let c = c.trivia(text);
    let d = d.trivia(longer);
    assert(d == c.moved(before.len(), bytes_of(before)));
    if at <= c.pos && c.pos <= text.len() {
        lemma_event_property_moves(before, text, c.pos);
    }
    let found = if at <= c.pos && c.pos <= text.len() {
        spec_event_property(text, c.pos)
    } else {
        Outcome::none(c.pos)
    };
    let found_there = if there <= d.pos && d.pos <= longer.len() {
        spec_event_property(longer, d.pos)
    } else {
        Outcome::none(d.pos)
    };
    assert(c.ok ==> found_there == found.moved(before.len(), bytes_of(before)));
    lemma_attach_moves(before, c, found, Slot::Root);
    let d = d.pass(found_there);
    let c = c.pass(found);
    assert(d == c.moved(before.len(), bytes_of(before)));
}

/// What `(~ EventProperty)*` matches does not depend on the text before it.
#[verifier::rlimit(50)]
pub proof fn lemma_event_property_entries_moves(before: Seq<char>, text: Seq<char>, from: Cursor)
    requires
        0 <= from.pos <= text.len(),
        from.far <= text.len(),
    ensures
        spec_event_property_entries(before + text, from.moved(before.len(), bytes_of(before)))
            == spec_event_property_entries(text, from).moved(before.len(), bytes_of(before)),
        from.pos <= spec_event_property_entries(text, from).pos <= text.len(),
        from.far <= spec_event_property_entries(text, from).far <= text.len(),
        spec_event_property_entries(text, from).ok == from.ok,
    decreases text.len() - from.pos, 2nat,
{
    if from.ok {
        lemma_event_property_entry_moves(before, text, from.pos);
        let step = if from.pos <= text.len() {
            spec_event_property_entry(text, from.pos)
        } else {
            Cursor::none(from.pos)
        };
        lemma_plain_steps_move(before, from, step.far);
        if step.ok && from.pos < step.pos <= text.len() {
            lemma_join_moves(before, from, step);
            lemma_event_property_entries_moves(before, text, from.join(step));
        }
    }
}

/// What a block of nested event properties between braces matches does not
/// depend on the text before it.
#[verifier::rlimit(50)]
pub proof fn lemma_event_property_block_moves(before: Seq<char>, text: Seq<char>, at: int)
    requires
        0 <= at <= text.len(),
    ensures
        spec_event_property_block(before + text, before.len() + at)
            == spec_event_property_block(text, at).moved(before.len(), bytes_of(before)),
        spec_event_property_block(text, at).within(text, at),
        spec_event_property_block(text, at).ok ==> spec_event_property_block(text, at).pos > at,
    decreases text.len() - at, 0nat,
{
    let longer = before + text;
    let there = before.len() + at;
    let c = Cursor::start(at);
    let d = Cursor::start(there);
    lemma_plain_steps_move(before, c, 0);
    assert(d == c.moved(before.len(), bytes_of(before)));
    lemma_word_moves(before, text, c, "{"@);
    let c = c.word(text, "{"@);
    let d = d.word(longer, "{"@);
    assert(d == c.moved(before.len(), bytes_of(before)));
    if c.ok && at < c.pos && c.pos <= text.len() {
        lemma_event_property_entries_moves(before, text, c);
    }
    lemma_plain_steps_move(before, c, 0);
    let c = if at < c.pos && c.pos <= text.len() {
        spec_event_property_entries(text, c)
    } else {
        c.halt()
    };
    let d = if there < d.pos && d.pos <= longer.len() {
        spec_event_property_entries(longer, d)
    } else {
        d.halt()
    };
    assert(d == c.moved(before.len(), bytes_of(before)));
    lemma_skip_moves(before, text, c);
    let c = c.trivia(text);
    let d = d.trivia(longer);
    assert(d == c.moved(before.len(), bytes_of(before)));
    lemma_word_moves(before, text, c, "}"@);
    let c = c.word(text, "}"@);
    let d = d.word(longer, "}"@);
    assert(d == c.moved(before.len(), bytes_of(before)));
}

/// What a block of nested event properties inside a second pair of braces
/// matches does not depend on the text before it.
#[verifier::rlimit(50)]
pub proof fn lemma_event_property_braced_moves(before: Seq<char>, text: Seq<char>, at: int)
    requires
        0 <= at <= text.len(),
    ensures
        spec_event_property_braced(before + text, before.len() + at)
            == spec_event_property_braced(text, at).moved(before.len(), bytes_of(before)),
        spec_event_property_braced(text, at).within(text, at),
        spec_event_property_braced(text, at).ok ==> spec_event_property_braced(text, at).pos > at,
    decreases text.len() - at, 0nat,
{
    let longer = before + text;
    let there = before.len() + at;
    let c = Cursor::start(at);
    let d = Cursor::start(there);
    lemma_plain_steps_move(before, c, 0);
    assert(d == c.moved(before.len(), bytes_of(before)));
    lemma_word_moves(before, text, c, "{"@);
    let c = c.word(text, "{"@);
    let d = d.word(longer, "{"@);
    assert(d == c.moved(before.len(), bytes_of(before)));
    lemma_skip_moves(before, text, c);
    let c = c.trivia(text);
    let d = d.trivia(longer);
    assert(d == c.moved(before.len(), bytes_of(before)));
    if at < c.pos && c.pos <= text.len() {
        lemma_event_property_block_moves(before, text, c.pos);
    }
    let group = if at < c.pos && c.pos <= text.len() {
        spec_event_property_block(text, c.pos)
    } else {
        Cursor::none(c.pos)
    };
    let group_there = if there < d.pos && d.pos <= longer.len() {
        spec_event_property_block(longer, d.pos)
    } else {
        Cursor::none(d.pos)
    };
    assert(c.ok ==> group_there == group.moved(before.len(), bytes_of(before)));
    lemma_join_moves(before, c, group);
    let d = d.chain(group_there);
    let c = c.chain(group);
    assert(d == c.moved(before.len(), bytes_of(before)));
    lemma_skip_moves(before, text, c);
    let c = c.trivia(text);
    let d = d.trivia(longer);
    assert(d == c.moved(before.len(), bytes_of(before)));
    lemma_word_moves(before, text, c, "}"@);
    let c = c.word(text, "}"@);
    let d = d.word(longer, "}"@);
    assert(d == c.moved(before.len(), bytes_of(before)));
}

/// What the suffix of an event property: a bare closing bracket, a block inside
/// a second pair of braces, or a bare block, tried in this order matches does
/// not depend on the text before it.
#[verifier::rlimit(50)]
pub proof fn lemma_event_property_suffix_moves(before: Seq<char>, text: Seq<char>, at: int)
    requires
        0 <= at <= text.len(),
    ensures
        spec_event_property_suffix(before + text, before.len() + at)
            == spec_event_property_suffix(text, at).moved(before.len(), bytes_of(before)),
        spec_event_property_suffix(text, at).within(text, at),
        spec_event_property_suffix(text, at).ok ==> spec_event_property_suffix(text, at).pos > at,
    decreases text.len() - at, 1nat,
{
    let longer = before + text;
    let there = before.len() + at;
    let c = Cursor::start(at);
    let d = Cursor::start(there);
    lemma_plain_steps_move(before, c, 0);
    assert(d == c.moved(before.len(), bytes_of(before)));
    let after = {
        let first = c;
        lemma_word_moves(before, text, Cursor::start(first.pos), "]"@);
        let alt = Cursor::start(first.pos).word(text, "]"@);
        lemma_join_moves(before, c, alt);
        lemma_plain_steps_move(before, c, alt.far);
        let c = c.note(alt.far);
        if at <= first.pos && first.pos <= text.len() {
            lemma_event_property_braced_moves(before, text, first.pos);
        }
        let alt = if at <= first.pos && first.pos <= text.len() {
            spec_event_property_braced(text, first.pos)
        } else {
            Cursor::none(first.pos)
        };
        lemma_join_moves(before, c, alt);
        lemma_plain_steps_move(before, c, alt.far);
        let c = c.note(alt.far);
        if at <= first.pos && first.pos <= text.len() {
            lemma_event_property_block_moves(before, text, first.pos);
        }
        let alt = if at <= first.pos && first.pos <= text.len() {
            spec_event_property_block(text, first.pos)
        } else {
            Cursor::none(first.pos)
        };
        lemma_join_moves(before, c, alt);
        lemma_plain_steps_move(before, c, alt.far);
        let c = c.note(alt.far);
        c
    };
    lemma_plain_steps_move(before, after, 0);
    let c = if !c.ok {
        c
    } else {
        let alt = Cursor::start(c.pos).word(text, "]"@);
        if alt.ok {
            c.join(alt)
        } else {
            let c = c.note(alt.far);
            let group = if at <= c.pos && c.pos <= text.len() {
                spec_event_property_braced(text, c.pos)
            } else {
                Cursor::none(c.pos)
            };
            let alt = group;
            if alt.ok {
                c.join(alt)
            } else {
                let c = c.note(alt.far);
                let group = if at <= c.pos && c.pos <= text.len() {
                    spec_event_property_block(text, c.pos)
                } else {
                    Cursor::none(c.pos)
                };
                let alt = group;
                if alt.ok {
                    c.join(alt)
                } else {
                    c.note(alt.far).halt()
                }
            }
        }
    };
    let d = if !d.ok {
        d
    } else {
        let alt = Cursor::start(d.pos).word(longer, "]"@);
        if alt.ok {
            d.join(alt)
        } else {
            let d = d.note(alt.far);
            let group = if there <= d.pos && d.pos <= longer.len() {
                spec_event_property_braced(longer, d.pos)
            } else {
                Cursor::none(d.pos)
            };
            let alt = group;
            if alt.ok {
                d.join(alt)
            } else {
                let d = d.note(alt.far);
                let group = if there <= d.pos && d.pos <= longer.len() {
                    spec_event_property_block(longer, d.pos)
                } else {
                    Cursor::none(d.pos)
                };
                let alt = group;
                if alt.ok {
                    d.join(alt)
                } else {
                    d.note(alt.far).halt()
                }
            }
        }
    };
    assert(d == c.moved(before.len(), bytes_of(before)));
}

/// What the rule `EventProperty` matches does not depend on the text before it:
/// further on in a longer text, it matches the same, moved.
#[verifier::rlimit(100)]
pub proof fn lemma_event_property_moves(before: Seq<char>, text: Seq<char>, at: int)
    requires
        0 <= at <= text.len(),
    ensures
        spec_event_property(before + text, before.len() + at)
            == spec_event_property(text, at).moved(before.len(), bytes_of(before)),
        spec_event_property(text, at).within(text, at),
        spec_event_property(text, at).tree is Some ==> spec_event_property(text, at).end > at,
    decreases text.len() - at, 0nat,
{
    let longer = before + text;
    let there = before.len() + at;
    let c = Cursor::start(at);
    let d = Cursor::start(there);
    lemma_plain_steps_move(before, c, 0);
    assert(d == c.moved(before.len(), bytes_of(before)));
    lemma_lexical_moves(before, text, c.pos);
    let found = spec_identifier(text, c.pos);
    let found_there = spec_identifier(longer, d.pos);
    assert(c.ok ==> found_there == found.moved(before.len(), bytes_of(before)));
    lemma_attach_moves(before, c, found, Slot::Identifier);
    let d = d.attach(found_there, Slot::Identifier);
    let c = c.attach(found, Slot::Identifier);
    assert(d == c.moved(before.len(), bytes_of(before)));
    lemma_skip_moves(before, text, c);
    let c = c.trivia(text);
    let d = d.trivia(longer);
    assert(d == c.moved(before.len(), bytes_of(before)));
    let after = {
        let first = c;
        lemma_word_moves(before, text, Cursor::start(first.pos), ":"@);
        let alt = Cursor::start(first.pos).word(text, ":"@);
        lemma_join_moves(before, c, alt);
        lemma_plain_steps_move(before, c, alt.far);
        let c = c.note(alt.far);
        lemma_word_moves(before, text, Cursor::start(first.pos), "["@);
        let alt = Cursor::start(first.pos).word(text, "["@);
        lemma_join_moves(before, c, alt);
        lemma_plain_steps_move(before, c, alt.far);
        let c = c.note(alt.far);
        c
    };
    lemma_plain_steps_move(before, after, 0);
    let c = if !c.ok {
        c
    } else {
        let alt = Cursor::start(c.pos).word(text, ":"@);
        if alt.ok {
            c.join(alt)
        } else {
            let c = c.note(alt.far);
            let alt = Cursor::start(c.pos).word(text, "["@);
            if alt.ok {
                c.join(alt)
            } else {
                c.note(alt.far).halt()
            }
        }
    };
    let d = if !d.ok {
        d
    } else {
        let alt = Cursor::start(d.pos).word(longer, ":"@);
        if alt.ok {
            d.join(alt)
        } else {
            let d = d.note(alt.far);
            let alt = Cursor::start(d.pos).word(longer, "["@);
            if alt.ok {
                d.join(alt)
            } else {
                d.note(alt.far).halt()
            }
        }
    };
    assert(d == c.moved(before.len(), bytes_of(before)));
    lemma_skip_moves(before, text, c);
    let c = c.trivia(text);
    let d = d.trivia(longer);
    assert(d == c.moved(before.len(), bytes_of(before)));
    lemma_expression_moves(before, text, c.pos);
    let found = spec_expression(text, c.pos);
    let found_there = spec_expression(longer, d.pos);
    assert(c.ok ==> found_there == found.moved(before.len(), bytes_of(before)));
    lemma_attach_moves(before, c, found, Slot::Root);
    let d = d.pass(found_there);
    let c = c.pass(found);
    assert(d == c.moved(before.len(), bytes_of(before)));
    lemma_skip_moves(before, text, c);
    let c = c.trivia(text);
    let d = d.trivia(longer);
    assert(d == c.moved(before.len(), bytes_of(before)));
    if at < c.pos && c.pos <= text.len() {
        lemma_event_property_suffix_moves(before, text, c.pos);
    }
    let group = if at < c.pos && c.pos <= text.len() {
        spec_event_property_suffix(text, c.pos)
    } else {
        Cursor::none(c.pos)
    };
    let group_there = if there < d.pos && d.pos <= longer.len() {
        spec_event_property_suffix(longer, d.pos)
    } else {
        Cursor::none(d.pos)
    };
    assert(c.ok ==> group_there == group.moved(before.len(), bytes_of(before)));
    lemma_join_moves(before, c, group);
    let d = d.option(group_there);
    let c = c.option(group);
    assert(d == c.moved(before.len(), bytes_of(before)));
    lemma_finish_moves(before, text, c, LifeRestartRule::EventProperty, at);
}

/// What the rule `IdStatement` matches does not depend on the text before it:
/// further on in a longer text, it matches the same, moved.
pub proof fn lemma_id_statement_moves(before: Seq<char>, text: Seq<char>, at: int)
    requires
        0 <= at <= text.len(),
    ensures
        spec_id_statement(before + text, before.len() + at)
            == spec_id_statement(text, at).moved(before.len(), bytes_of(before)),
        spec_id_statement(text, at).within(text, at),
        spec_id_statement(text, at).tree is Some ==> spec_id_statement(text, at).end > at,
{
    reveal(spec_id_statement);
    let longer = before + text;
    let there = before.len() + at;
    let c = Cursor::start(at);
    let d = Cursor::start(there);
    lemma_plain_steps_move(before, c, 0);
    assert(d == c.moved(before.len(), bytes_of(before)));
    lemma_kw_id_moves(before, text, c.pos);
    let found = spec_kw_id(text, c.pos);
    let found_there = spec_kw_id(longer, d.pos);
    assert(c.ok ==> found_there == found.moved(before.len(), bytes_of(before)));
    lemma_attach_moves(before, c, found, Slot::Root);
    let d = d.pass(found_there);
    let c = c.pass(found);
    assert(d == c.moved(before.len(), bytes_of(before)));
    lemma_skip_moves(before, text, c);
    let c = c.trivia(text);
    let d = d.trivia(longer);
    assert(d == c.moved(before.len(), bytes_of(before)));
    lemma_lexical_moves(before, text, c.pos);
    let found = spec_integer(text, c.pos);
    let found_there = spec_integer(longer, d.pos);
    assert(c.ok ==> found_there == found.moved(before.len(), bytes_of(before)));
    lemma_attach_moves(before, c, found, Slot::Integer);
    let d = d.attach(found_there, Slot::Integer);
    let c = c.attach(found, Slot::Integer);
    assert(d == c.moved(before.len(), bytes_of(before)));
    lemma_finish_moves(before, text, c, LifeRestartRule::IdStatement, at);
}

/// What `COMMA ~` matches does not depend on the text before it.
pub proof fn lemma_description_comma_moves(before: Seq<char>, text: Seq<char>, at: int)
    requires
        0 <= at <= text.len(),
    ensures
        spec_description_comma(before + text, before.len() + at)
            == spec_description_comma(text, at).moved(before.len(), bytes_of(before)),
        spec_description_comma(text, at).within(text, at),
        spec_description_comma(text, at).ok ==> spec_description_comma(text, at).pos > at,
{
    reveal(spec_description_comma);
    let longer = before + text;
    let there = before.len() + at;
    let c = Cursor::start(at);
    let d = Cursor::start(there);
    lemma_plain_steps_move(before, c, 0);
    assert(d == c.moved(before.len(), bytes_of(before)));
    lemma_comma_moves(before, text, c.pos);
    let found = spec_comma(text, c.pos);
    let found_there = spec_comma(longer, d.pos);
    assert(c.ok ==> found_there == found.moved(before.len(), bytes_of(before)));
    lemma_attach_moves(before, c, found, Slot::Root);
    let d = d.pass(found_there);
    let c = c.pass(found);
    assert(d == c.moved(before.len(), bytes_of(before)));
    lemma_skip_moves(before, text, c);
    let c = c.trivia(text);
    let d = d.trivia(longer);
    assert(d == c.moved(before.len(), bytes_of(before)));
}

/// What `~ (COMMA ~)? String#string` matches does not depend on the text before
/// it.
pub proof fn lemma_description_more_moves(before: Seq<char>, text: Seq<char>, at: int)
    requires
        0 <= at <= text.len(),
    ensures
        spec_description_more(before + text, before.len() + at)
            == spec_description_more(text, at).moved(before.len(), bytes_of(before)),
        spec_description_more(text, at).within(text, at),
        spec_description_more(text, at).ok ==> spec_description_more(text, at).pos > at,
{
    reveal(spec_description_more);
    let longer = before + text;
    let there = before.len() + at;
    let c = Cursor::start(at);
    let d = Cursor::start(there);
    lemma_plain_steps_move(before, c, 0);
    assert(d == c.moved(before.len(), bytes_of(before)));
    lemma_skip_moves(before, text, c);
    let c = c.trivia(text);
    let d = d.trivia(longer);
    assert(d == c.moved(before.len(), bytes_of(before)));
    lemma_description_comma_moves(before, text, c.pos);
    let group = spec_description_comma(text, c.pos);
    let group_there = spec_description_comma(longer, d.pos);
    assert(c.ok ==> group_there == group.moved(before.len(), bytes_of(before)));
    lemma_join_moves(before, c, group);
    let d = d.option(group_there);
    let c = c.option(group);
    assert(d == c.moved(before.len(), bytes_of(before)));
    lemma_string_moves(before, text, c.pos);
    let found = spec_string(text, c.pos);
    let found_there = spec_string(longer, d.pos);
    assert(c.ok ==> found_there == found.moved(before.len(), bytes_of(before)));
    lemma_attach_moves(before, c, found, Slot::String);
    let d = d.attach(found_there, Slot::String);
    let c = c.attach(found, Slot::String);
    assert(d == c.moved(before.len(), bytes_of(before)));
}

/// What `(~ (COMMA ~)? String#string)*` matches does not depend on the text
/// before it.
#[verifier::rlimit(50)]
pub proof fn lemma_description_rest_moves(before: Seq<char>, text: Seq<char>, from: Cursor)
    requires
        0 <= from.pos <= text.len(),
        from.far <= text.len(),
    ensures
        spec_description_rest(before + text, from.moved(before.len(), bytes_of(before)))
            == spec_description_rest(text, from).moved(before.len(), bytes_of(before)),
        from.pos <= spec_description_rest(text, from).pos <= text.len(),
        from.far <= spec_description_rest(text, from).far <= text.len(),
        spec_description_rest(text, from).ok == from.ok,
    decreases text.len() - from.pos,
{
    if from.ok {
        lemma_description_more_moves(before, text, from.pos);
        let step = spec_description_more(text, from.pos);
        lemma_plain_steps_move(before, from, step.far);
        if step.ok && from.pos < step.pos <= text.len() {
            lemma_join_moves(before, from, step);
            lemma_description_rest_moves(before, text, from.join(step));
        }
    }
}

/// What `~ COMMA` matches does not depend on the text before it.
pub proof fn lemma_description_last_comma_moves(before: Seq<char>, text: Seq<char>, at: int)
    requires
        0 <= at <= text.len(),
    ensures
        spec_description_last_comma(before + text, before.len() + at)
            == spec_description_last_comma(text, at).moved(before.len(), bytes_of(before)),
        spec_description_last_comma(text, at).within(text, at),
        spec_description_last_comma(text, at).ok ==> spec_description_last_comma(text, at).pos > at,
{
    reveal(spec_description_last_comma);
    let longer = before + text;
    let there = before.len() + at;
    let c = Cursor::start(at);
    let d = Cursor::start(there);
    lemma_plain_steps_move(before, c, 0);
    assert(d == c.moved(before.len(), bytes_of(before)));
    lemma_skip_moves(before, text, c);
    let c = c.trivia(text);
    let d = d.trivia(longer);
    assert(d == c.moved(before.len(), bytes_of(before)));
    lemma_comma_moves(before, text, c.pos);
    let found = spec_comma(text, c.pos);
    let found_there = spec_comma(longer, d.pos);
    assert(c.ok ==> found_there == found.moved(before.len(), bytes_of(before)));
    lemma_attach_moves(before, c, found, Slot::Root);
    let d = d.pass(found_there);
    let c = c.pass(found);
    assert(d == c.moved(before.len(), bytes_of(before)));
}

/// What one or more strings, with or without commas between them and after the
/// last matches does not depend on the text before it.
#[verifier::rlimit(50)]
pub proof fn lemma_description_strings_moves(before: Seq<char>, text: Seq<char>, at: int)
    requires
        0 <= at <= text.len(),
    ensures
        spec_description_strings(before + text, before.len() + at)
            == spec_description_strings(text, at).moved(before.len(), bytes_of(before)),
        spec_description_strings(text, at).within(text, at),
        spec_description_strings(text, at).ok ==> spec_description_strings(text, at).pos > at,
{
    reveal(spec_description_strings);
    let longer = before + text;
    let there = before.len() + at;
    let c = Cursor::start(at);
    let d = Cursor::start(there);
    lemma_plain_steps_move(before, c, 0);
    assert(d == c.moved(before.len(), bytes_of(before)));
    lemma_string_moves(before, text, c.pos);
    let found = spec_string(text, c.pos);
    let found_there = spec_string(longer, d.pos);
    assert(c.ok ==> found_there == found.moved(before.len(), bytes_of(before)));
    lemma_attach_moves(before, c, found, Slot::String);
    let d = d.attach(found_there, Slot::String);
    let c = c.attach(found, Slot::String);
    assert(d == c.moved(before.len(), bytes_of(before)));
    if c.ok {
        lemma_description_rest_moves(before, text, c);
    } else {
        reveal(spec_description_rest);
    }
    let c = spec_description_rest(text, c);
    let d = spec_description_rest(longer, d);
    assert(d == c.moved(before.len(), bytes_of(before)));
    lemma_description_last_comma_moves(before, text, c.pos);
    let group = spec_description_last_comma(text, c.pos);
    let group_there = spec_description_last_comma(longer, d.pos);
    assert(c.ok ==> group_there == group.moved(before.len(), bytes_of(before)));
    lemma_join_moves(before, c, group);
    let d = d.option(group_there);
    let c = c.option(group);
    assert(d == c.moved(before.len(), bytes_of(before)));
}

/// What the keyword form of a description: the keyword and its strings matches
/// does not depend on the text before it.
pub proof fn lemma_description_plain_moves(before: Seq<char>, text: Seq<char>, at: int)
    requires
        0 <= at <= text.len(),
    ensures
        spec_description_plain(before + text, before.len() + at)
            == spec_description_plain(text, at).moved(before.len(), bytes_of(before)),
        spec_description_plain(text, at).within(text, at),
        spec_description_plain(text, at).ok ==> spec_description_plain(text, at).pos > at,
{
    reveal(spec_description_plain);
    let longer = before + text;
    let there = before.len() + at;
    let c = Cursor::start(at);
    let d = Cursor::start(there);
    lemma_plain_steps_move(before, c, 0);
    assert(d == c.moved(before.len(), bytes_of(before)));
    lemma_kw_description_moves(before, text, c.pos);
    let found = spec_kw_description(text, c.pos);
    let found_there = spec_kw_description(longer, d.pos);
    assert(c.ok ==> found_there == found.moved(before.len(), bytes_of(before)));
    lemma_attach_moves(before, c, found, Slot::Root);
    let d = d.pass(found_there);
    let c = c.pass(found);
    assert(d == c.moved(before.len(), bytes_of(before)));
    lemma_skip_moves(before, text, c);
    let c = c.trivia(text);
    let d = d.trivia(longer);
    assert(d == c.moved(before.len(), bytes_of(before)));
    lemma_description_strings_moves(before, text, c.pos);
    let group = spec_description_strings(text, c.pos);
    let group_there = spec_description_strings(longer, d.pos);
    assert(c.ok ==> group_there == group.moved(before.len(), bytes_of(before)));
    lemma_join_moves(before, c, group);
    let d = d.chain(group_there);
    let c = c.chain(group);
    assert(d == c.moved(before.len(), bytes_of(before)));
}

/// What the parenthesized form of a description: strings between round
/// brackets, or nothing between them matches does not depend on the text before
/// it.
pub proof fn lemma_description_round_moves(before: Seq<char>, text: Seq<char>, at: int)
    requires
        0 <= at <= text.len(),
    ensures
        spec_description_round(before + text, before.len() + at)
            == spec_description_round(text, at).moved(before.len(), bytes_of(before)),
        spec_description_round(text, at).within(text, at),
        spec_description_round(text, at).ok ==> spec_description_round(text, at).pos > at,
{
    reveal(spec_description_round);
    let longer = before + text;
    let there = before.len() + at;
    let c = Cursor::start(at);
    let d = Cursor::start(there);
    lemma_plain_steps_move(before, c, 0);
    assert(d == c.moved(before.len(), bytes_of(before)));
    lemma_word_moves(before, text, c, "("@);
    let c = c.word(text, "("@);
    let d = d.word(longer, "("@);
    assert(d == c.moved(before.len(), bytes_of(before)));
    lemma_skip_moves(before, text, c);
    let c = c.trivia(text);
    let d = d.trivia(longer);
    assert(d == c.moved(before.len(), bytes_of(before)));
    lemma_description_strings_moves(before, text, c.pos);
    let group = spec_description_strings(text, c.pos);
    let group_there = spec_description_strings(longer, d.pos);
    assert(c.ok ==> group_there == group.moved(before.len(), bytes_of(before)));
    lemma_join_moves(before, c, group);
    let d = d.option(group_there);
    let c = c.option(group);
    assert(d == c.moved(before.len(), bytes_of(before)));
    lemma_skip_moves(before, text, c);
    let c = c.trivia(text);
    let d = d.trivia(longer);
    assert(d == c.moved(before.len(), bytes_of(before)));
    lemma_word_moves(before, text, c, ")"@);
    let c = c.word(text, ")"@);
    let d = d.word(longer, ")"@);
    assert(d == c.moved(before.len(), bytes_of(before)));
}

/// What the rule `DescriptionStatement` matches does not depend on the text
/// before it: further on in a longer text, it matches the same, moved.
pub proof fn lemma_description_statement_moves(before: Seq<char>, text: Seq<char>, at: int)
    requires
        0 <= at <= text.len(),
    ensures
        spec_description_statement(before + text, before.len() + at)
            == spec_description_statement(text, at).moved(before.len(), bytes_of(before)),
        spec_description_statement(text, at).within(text, at),
        spec_description_statement(text, at).tree is Some
            ==> spec_description_statement(text, at).end > at,
{
    reveal(spec_description_statement);
    let longer = before + text;
    let there = before.len() + at;
    let c = Cursor::start(at);
    let d = Cursor::start(there);
    lemma_plain_steps_move(before, c, 0);
    assert(d == c.moved(before.len(), bytes_of(before)));
    let after = {
        let first = c;
        lemma_description_plain_moves(before, text, first.pos);
        let alt = spec_description_plain(text, first.pos);
        lemma_join_moves(before, c, alt);
        lemma_plain_steps_move(before, c, alt.far);
        let c = c.note(alt.far);
        lemma_description_round_moves(before, text, first.pos);
        let alt = spec_description_round(text, first.pos);
        lemma_join_moves(before, c, alt);
        lemma_plain_steps_move(before, c, alt.far);
        let c = c.note(alt.far);
        c
    };
    lemma_plain_steps_move(before, after, 0);
    let c = if !c.ok {
        c
    } else {
        let alt = spec_description_plain(text, c.pos);
        if alt.ok {
            c.join(alt)
        } else {
            let c = c.note(alt.far);
            let alt = spec_description_round(text, c.pos);
            if alt.ok {
                c.join(alt)
            } else {
                c.note(alt.far).halt()
            }
        }
    };
    let d = if !d.ok {
        d
    } else {
        let alt = spec_description_plain(longer, d.pos);
        if alt.ok {
            d.join(alt)
        } else {
            let d = d.note(alt.far);
            let alt = spec_description_round(longer, d.pos);
            if alt.ok {
                d.join(alt)
            } else {
                d.note(alt.far).halt()
            }
        }
    };
    assert(d == c.moved(before.len(), bytes_of(before)));
    lemma_finish_moves(before, text, c, LifeRestartRule::DescriptionStatement, at);
}

/// What the rule `Statement` matches does not depend on the text before it:
/// further on in a longer text, it matches the same, moved.
#[verifier::rlimit(50)]
pub proof fn lemma_statement_moves(before: Seq<char>, text: Seq<char>, at: int)
    requires
        0 <= at <= text.len(),
    ensures
        spec_statement(before + text, before.len() + at)
            == spec_statement(text, at).moved(before.len(), bytes_of(before)),
        spec_statement(text, at).within(text, at),
        spec_statement(text, at).tree is Some ==> spec_statement(text, at).end > at,
    decreases text.len() - at, 2nat,
{
    let longer = before + text;
    let there = before.len() + at;
    let c = Cursor::start(at);
    let d = Cursor::start(there);
    lemma_plain_steps_move(before, c, 0);
    assert(d == c.moved(before.len(), bytes_of(before)));
    let after = {
        let first = c;
        if at <= first.pos && first.pos <= text.len() {
            lemma_if_statement_moves(before, text, first.pos);
        }
        let found = if at <= first.pos && first.pos <= text.len() {
            spec_if_statement(text, first.pos)
        } else {
            Outcome::none(first.pos)
        };
        lemma_attach_moves(before, Cursor::start(first.pos), found, Slot::IfStatement);
        let alt = Cursor::start(first.pos).attach(found, Slot::IfStatement);
        lemma_join_moves(before, c, alt);
        lemma_plain_steps_move(before, c, alt.far);
        let c = c.note(alt.far);
        lemma_expression_moves(before, text, first.pos);
        let found = spec_expression(text, first.pos);
        lemma_attach_moves(before, Cursor::start(first.pos), found, Slot::Expression);
        let alt = Cursor::start(first.pos).attach(found, Slot::Expression);
        lemma_join_moves(before, c, alt);
        lemma_plain_steps_move(before, c, alt.far);
        let c = c.note(alt.far);
        lemma_eos_moves(before, text, first.pos);
        let found = spec_eos(text, first.pos);
        lemma_attach_moves(before, Cursor::start(first.pos), found, Slot::Eos);
        let alt = Cursor::start(first.pos).attach(found, Slot::Eos);
        lemma_join_moves(before, c, alt);
        lemma_plain_steps_move(before, c, alt.far);
        let c = c.note(alt.far);
        c
    };
    lemma_plain_steps_move(before, after, 0);
    let c = if !c.ok {
        c
    } else {
        let found = if at <= c.pos && c.pos <= text.len() {
            spec_if_statement(text, c.pos)
        } else {
            Outcome::none(c.pos)
        };
        let alt = Cursor::start(c.pos).attach(found, Slot::IfStatement);
        if alt.ok {
            c.join(alt)
        } else {
            let c = c.note(alt.far);
            let alt = Cursor::start(c.pos).attach(spec_expression(text, c.pos), Slot::Expression);
            if alt.ok {
                c.join(alt)
            } else {
                let c = c.note(alt.far);
                let alt = Cursor::start(c.pos).attach(spec_eos(text, c.pos), Slot::Eos);
                if alt.ok {
                    c.join(alt)
                } else {
                    c.note(alt.far).halt()
                }
            }
        }
    };
    let d = if !d.ok {
        d
    } else {
        let found = if there <= d.pos && d.pos <= longer.len() {
            spec_if_statement(longer, d.pos)
        } else {
            Outcome::none(d.pos)
        };
        let alt = Cursor::start(d.pos).attach(found, Slot::IfStatement);
        if alt.ok {
            d.join(alt)
        } else {
            let d = d.note(alt.far);
            let alt = Cursor::start(d.pos).attach(spec_expression(longer, d.pos), Slot::Expression);
            if alt.ok {
                d.join(alt)
            } else {
                let d = d.note(alt.far);
                let alt = Cursor::start(d.pos).attach(spec_eos(longer, d.pos), Slot::Eos);
                if alt.ok {
                    d.join(alt)
                } else {
                    d.note(alt.far).halt()
                }
            }
        }
    };
    assert(d == c.moved(before.len(), bytes_of(before)));
    lemma_finish_moves(before, text, c, LifeRestartRule::Statement, at);
}

/// What `~ IfElseIfBlock#if_else_if_block` matches does not depend on the text
/// before it.
#[verifier::rlimit(50)]
pub proof fn lemma_if_statement_else_if_moves(before: Seq<char>, text: Seq<char>, at: int)
    requires
        0 <= at <= text.len(),
    ensures
        spec_if_statement_else_if(before + text, before.len() + at)
            == spec_if_statement_else_if(text, at).moved(before.len(), bytes_of(before)),
        spec_if_statement_else_if(text, at).within(text, at),
        spec_if_statement_else_if(text, at).ok ==> spec_if_statement_else_if(text, at).pos > at,
    decreases text.len() - at, 1nat,
{
    let longer = before + text;
    let there = before.len() + at;
    let c = Cursor::start(at);
    let d = Cursor::start(there);
    lemma_plain_steps_move(before, c, 0);
    assert(d == c.moved(before.len(), bytes_of(before)));
    lemma_skip_moves(before, text, c);
    let c = c.trivia(text);
    let d = d.trivia(longer);
    assert(d == c.moved(before.len(), bytes_of(before)));
    if at <= c.pos && c.pos <= text.len() {
        lemma_if_else_if_block_moves(before, text, c.pos);
    }
    let found = if at <= c.pos && c.pos <= text.len() {
        spec_if_else_if_block(text, c.pos)
    } else {
        Outcome::none(c.pos)
    };
    let found_there = if there <= d.pos && d.pos <= longer.len() {
        spec_if_else_if_block(longer, d.pos)
    } else {
        Outcome::none(d.pos)
    };
    assert(c.ok ==> found_there == found.moved(before.len(), bytes_of(before)));
    lemma_attach_moves(before, c, found, Slot::IfElseIfBlock);
    let d = d.attach(found_there, Slot::IfElseIfBlock);
    let c = c.attach(found, Slot::IfElseIfBlock);
    assert(d == c.moved(before.len(), bytes_of(before)));
}

/// What `~ IfElseBlock#if_else_block` matches does not depend on the text
/// before it.
#[verifier::rlimit(50)]
pub proof fn lemma_if_statement_else_moves(before: Seq<char>, text: Seq<char>, at: int)
    requires
        0 <= at <= text.len(),
    ensures
        spec_if_statement_else(before + text, before.len() + at)
            == spec_if_statement_else(text, at).moved(before.len(), bytes_of(before)),
        spec_if_statement_else(text, at).within(text, at),
        spec_if_statement_else(text, at).ok ==> spec_if_statement_else(text, at).pos > at,
    decreases text.len() - at, 1nat,
{
    let longer = before + text;
    let there = before.len() + at;
    let c = Cursor::start(at);
    let d = Cursor::start(there);
    lemma_plain_steps_move(before, c, 0);
    assert(d == c.moved(before.len(), bytes_of(before)));
    lemma_skip_moves(before, text, c);
    let c = c.trivia(text);
    let d = d.trivia(longer);
    assert(d == c.moved(before.len(), bytes_of(before)));
    if at <= c.pos && c.pos <= text.len() {
        lemma_if_else_block_moves(before, text, c.pos);
    }
    let found = if at <= c.pos && c.pos <= text.len() {
        spec_if_else_block(text, c.pos)
    } else {
        Outcome::none(c.pos)
    };
    let found_there = if there <= d.pos && d.pos <= longer.len() {
        spec_if_else_block(longer, d.pos)
    } else {
        Outcome::none(d.pos)
    };
    assert(c.ok ==> found_there == found.moved(before.len(), bytes_of(before)));
    lemma_attach_moves(before, c, found, Slot::IfElseBlock);
    let d = d.attach(found_there, Slot::IfElseBlock);
    let c = c.attach(found, Slot::IfElseBlock);
    assert(d == c.moved(before.len(), bytes_of(before)));
}

/// What the rule `IfStatement` matches does not depend on the text before it:
/// further on in a longer text, it matches the same, moved.
#[verifier::rlimit(100)]
pub proof fn lemma_if_statement_moves(before: Seq<char>, text: Seq<char>, at: int)
    requires
        0 <= at <= text.len(),
    ensures
        spec_if_statement(before + text, before.len() + at)
            == spec_if_statement(text, at).moved(before.len(), bytes_of(before)),
        spec_if_statement(text, at).within(text, at),
        spec_if_statement(text, at).tree is Some ==> spec_if_statement(text, at).end > at,
    decreases text.len() - at, 1nat,
{
    let longer = before + text;
    let there = before.len() + at;
    let c = Cursor::start(at);
    let d = Cursor::start(there);
    lemma_plain_steps_move(before, c, 0);
    assert(d == c.moved(before.len(), bytes_of(before)));
    if at <= c.pos && c.pos <= text.len() {
        lemma_if_then_block_moves(before, text, c.pos);
    }
    let found = if at <= c.pos && c.pos <= text.len() {
        spec_if_then_block(text, c.pos)
    } else {
        Outcome::none(c.pos)
    };
    let found_there = if there <= d.pos && d.pos <= longer.len() {
        spec_if_then_block(longer, d.pos)
    } else {
        Outcome::none(d.pos)
    };
    assert(c.ok ==> found_there == found.moved(before.len(), bytes_of(before)));
    lemma_attach_moves(before, c, found, Slot::IfThenBlock);
    let d = d.attach(found_there, Slot::IfThenBlock);
    let c = c.attach(found, Slot::IfThenBlock);
    assert(d == c.moved(before.len(), bytes_of(before)));
    if at < c.pos && c.pos <= text.len() {
        lemma_if_statement_else_if_moves(before, text, c.pos);
    }
    let group = if at < c.pos && c.pos <= text.len() {
        spec_if_statement_else_if(text, c.pos)
    } else {
        Cursor::none(c.pos)
    };
    let group_there = if there < d.pos && d.pos <= longer.len() {
        spec_if_statement_else_if(longer, d.pos)
    } else {
        Cursor::none(d.pos)
    };
    assert(c.ok ==> group_there == group.moved(before.len(), bytes_of(before)));
    lemma_join_moves(before, c, group);
    let d = d.option(group_there);
    let c = c.option(group);
    assert(d == c.moved(before.len(), bytes_of(before)));
    if at < c.pos && c.pos <= text.len() {
        lemma_if_statement_else_moves(before, text, c.pos);
    }
    let group = if at < c.pos && c.pos <= text.len() {
        spec_if_statement_else(text, c.pos)
    } else {
        Cursor::none(c.pos)
    };
    let group_there = if there < d.pos && d.pos <= longer.len() {
        spec_if_statement_else(longer, d.pos)
    } else {
        Cursor::none(d.pos)
    };
    assert(c.ok ==> group_there == group.moved(before.len(), bytes_of(before)));
    lemma_join_moves(before, c, group);
    let d = d.option(group_there);
    let c = c.option(group);
    assert(d == c.moved(before.len(), bytes_of(before)));
    lemma_finish_moves(before, text, c, LifeRestartRule::IfStatement, at);
}

/// What `~ Statement#statement` matches does not depend on the text before it.
#[verifier::rlimit(50)]
pub proof fn lemma_if_then_block_item_moves(before: Seq<char>, text: Seq<char>, at: int)
    requires
        0 <= at <= text.len(),
    ensures
        spec_if_then_block_item(before + text, before.len() + at)
            == spec_if_then_block_item(text, at).moved(before.len(), bytes_of(before)),
        spec_if_then_block_item(text, at).within(text, at),
        spec_if_then_block_item(text, at).ok ==> spec_if_then_block_item(text, at).pos > at,
    decreases text.len() - at, 3nat,
{
    let longer = before + text;
    let there = before.len() + at;
    let c = Cursor::start(at);
    let d = Cursor::start(there);
    lemma_plain_steps_move(before, c, 0);
    assert(d == c.moved(before.len(), bytes_of(before)));
    lemma_skip_moves(before, text, c);
    let c = c.trivia(text);
    let d = d.trivia(longer);
    assert(d == c.moved(before.len(), bytes_of(before)));
    if at <= c.pos && c.pos <= text.len() {
        lemma_statement_moves(before, text, c.pos);
    }
    let found = if at <= c.pos && c.pos <= text.len() {
        spec_statement(text, c.pos)
    } else {
        Outcome::none(c.pos)
    };
    let found_there = if there <= d.pos && d.pos <= longer.len() {
        spec_statement(longer, d.pos)
    } else {
        Outcome::none(d.pos)
    };
    assert(c.ok ==> found_there == found.moved(before.len(), bytes_of(before)));
    lemma_attach_moves(before, c, found, Slot::Statement);
    let d = d.attach(found_there, Slot::Statement);
    let c = c.attach(found, Slot::Statement);
    assert(d == c.moved(before.len(), bytes_of(before)));
}

/// What `(~ Statement#statement)*` matches does not depend on the text before
/// it.
#[verifier::rlimit(50)]
pub proof fn lemma_if_then_block_items_moves(before: Seq<char>, text: Seq<char>, from: Cursor)
    requires
        0 <= from.pos <= text.len(),
        from.far <= text.len(),
    ensures
        spec_if_then_block_items(before + text, from.moved(before.len(), bytes_of(before)))
            == spec_if_then_block_items(text, from).moved(before.len(), bytes_of(before)),
        from.pos <= spec_if_then_block_items(text, from).pos <= text.len(),
        from.far <= spec_if_then_block_items(text, from).far <= text.len(),
        spec_if_then_block_items(text, from).ok == from.ok,
    decreases text.len() - from.pos, 4nat,
{
    if from.ok {
        lemma_if_then_block_item_moves(before, text, from.pos);
        let step = if from.pos <= text.len() {
            spec_if_then_block_item(text, from.pos)
        } else {
            Cursor::none(from.pos)
        };
        lemma_plain_steps_move(before, from, step.far);
        if step.ok && from.pos < step.pos <= text.len() {
            lemma_join_moves(before, from, step);
            lemma_if_then_block_items_moves(before, text, from.join(step));
        }
    }
}

/// What the rule `IfThenBlock` matches does not depend on the text before it:
/// further on in a longer text, it matches the same, moved.
#[verifier::rlimit(50)]
pub proof fn lemma_if_then_block_moves(before: Seq<char>, text: Seq<char>, at: int)
    requires
        0 <= at <= text.len(),
    ensures
        spec_if_then_block(before + text, before.len() + at)
            == spec_if_then_block(text, at).moved(before.len(), bytes_of(before)),
        spec_if_then_block(text, at).within(text, at),
        spec_if_then_block(text, at).tree is Some ==> spec_if_then_block(text, at).end > at,
    decreases text.len() - at, 0nat,
{
    let longer = before + text;
    let there = before.len() + at;
    let c = Cursor::start(at);
    let d = Cursor::start(there);
    lemma_plain_steps_move(before, c, 0);
    assert(d == c.moved(before.len(), bytes_of(before)));
    lemma_kw_if_moves(before, text, c.pos);
    let found = spec_kw_if(text, c.pos);
    let found_there = spec_kw_if(longer, d.pos);
    assert(c.ok ==> found_there == found.moved(before.len(), bytes_of(before)));
    lemma_attach_moves(before, c, found, Slot::Root);
    let d = d.pass(found_there);
    let c = c.pass(found);
    assert(d == c.moved(before.len(), bytes_of(before)));
    lemma_skip_moves(before, text, c);
    let c = c.trivia(text);
    let d = d.trivia(longer);
    assert(d == c.moved(before.len(), bytes_of(before)));
    lemma_expression_moves(before, text, c.pos);
    let found = spec_expression(text, c.pos);
    let found_there = spec_expression(longer, d.pos);
    assert(c.ok ==> found_there == found.moved(before.len(), bytes_of(before)));
    lemma_attach_moves(before, c, found, Slot::Expression);
    let d = d.attach(found_there, Slot::Expression);
    let c = c.attach(found, Slot::Expression);
    assert(d == c.moved(before.len(), bytes_of(before)));
    lemma_skip_moves(before, text, c);
    let c = c.trivia(text);
    let d = d.trivia(longer);
    assert(d == c.moved(before.len(), bytes_of(before)));
    lemma_word_moves(before, text, c, "{"@);
    let c = c.word(text, "{"@);
    let d = d.word(longer, "{"@);
    assert(d == c.moved(before.len(), bytes_of(before)));
    if c.ok && at < c.pos && c.pos <= text.len() {
        lemma_if_then_block_items_moves(before, text, c);
    }
    lemma_plain_steps_move(before, c, 0);
    let c = if at < c.pos && c.pos <= text.len() {
        spec_if_then_block_items(text, c)
    } else {
        c.halt()
    };
    let d = if there < d.pos && d.pos <= longer.len() {
        spec_if_then_block_items(longer, d)
    } else {
        d.halt()
    };
    assert(d == c.moved(before.len(), bytes_of(before)));
    lemma_skip_moves(before, text, c);
    let c = c.trivia(text);
    let d = d.trivia(longer);
    assert(d == c.moved(before.len(), bytes_of(before)));
    lemma_word_moves(before, text, c, "}"@);
    let c = c.word(text, "}"@);
    let d = d.word(longer, "}"@);
    assert(d == c.moved(before.len(), bytes_of(before)));
    lemma_finish_moves(before, text, c, LifeRestartRule::IfThenBlock, at);
}

/// What `~ Statement#statement` matches does not depend on the text before it.
#[verifier::rlimit(50)]
pub proof fn lemma_if_else_if_block_item_moves(before: Seq<char>, text: Seq<char>, at: int)
    requires
        0 <= at <= text.len(),
    ensures
        spec_if_else_if_block_item(before + text, before.len() + at)
            == spec_if_else_if_block_item(text, at).moved(before.len(), bytes_of(before)),
        spec_if_else_if_block_item(text, at).within(text, at),
        spec_if_else_if_block_item(text, at).ok ==> spec_if_else_if_block_item(text, at).pos > at,
    decreases text.len() - at, 3nat,
{
    let longer = before + text;
    let there = before.len() + at;
    let c = Cursor::start(at);
    let d = Cursor::start(there);
    lemma_plain_steps_move(before, c, 0);
    assert(d == c.moved(before.len(), bytes_of(before)));
    lemma_skip_moves(before, text, c);
    let c = c.trivia(text);
    let d = d.trivia(longer);
    assert(d == c.moved(before.len(), bytes_of(before)));
    if at <= c.pos && c.pos <= text.len() {
        lemma_statement_moves(before, text, c.pos);
    }
    let found = if at <= c.pos && c.pos <= text.len() {
        spec_statement(text, c.pos)
    } else {
        Outcome::none(c.pos)
    };
    let found_there = if there <= d.pos && d.pos <= longer.len() {
        spec_statement(longer, d.pos)
    } else {
        Outcome::none(d.pos)
    };
    assert(c.ok ==> found_there == found.moved(before.len(), bytes_of(before)));
    lemma_attach_moves(before, c, found, Slot::Statement);
    let d = d.attach(found_there, Slot::Statement);
    let c = c.attach(found, Slot::Statement);
    assert(d == c.moved(before.len(), bytes_of(before)));
}

/// What `(~ Statement#statement)*` matches does not depend on the text before
/// it.
#[verifier::rlimit(50)]
pub proof fn lemma_if_else_if_block_items_moves(before: Seq<char>, text: Seq<char>, from: Cursor)
    requires
        0 <= from.pos <= text.len(),
        from.far <= text.len(),
    ensures
        spec_if_else_if_block_items(before + text, from.moved(before.len(), bytes_of(before)))
            == spec_if_else_if_block_items(text, from).moved(before.len(), bytes_of(before)),
        from.pos <= spec_if_else_if_block_items(text, from).pos <= text.len(),
        from.far <= spec_if_else_if_block_items(text, from).far <= text.len(),
        spec_if_else_if_block_items(text, from).ok == from.ok,
    decreases text.len() - from.pos, 4nat,
{
    if from.ok {
        lemma_if_else_if_block_item_moves(before, text, from.pos);
        let step = if from.pos <= text.len() {
            spec_if_else_if_block_item(text, from.pos)
        } else {
            Cursor::none(from.pos)
        };
        lemma_plain_steps_move(before, from, step.far);
        if step.ok && from.pos < step.pos <= text.len() {
            lemma_join_moves(before, from, step);
            lemma_if_else_if_block_items_moves(before, text, from.join(step));
        }
    }
}

/// What the rule `IfElseIfBlock` matches does not depend on the text before it:
/// further on in a longer text, it matches the same, moved.
#[verifier::rlimit(50)]
pub proof fn lemma_if_else_if_block_moves(before: Seq<char>, text: Seq<char>, at: int)
    requires
        0 <= at <= text.len(),
    ensures
        spec_if_else_if_block(before + text, before.len() + at)
            == spec_if_else_if_block(text, at).moved(before.len(), bytes_of(before)),
        spec_if_else_if_block(text, at).within(text, at),
        spec_if_else_if_block(text, at).tree is Some ==> spec_if_else_if_block(text, at).end > at,
    decreases text.len() - at, 0nat,
{
    let longer = before + text;
    let there = before.len() + at;
    let c = Cursor::start(at);
    let d = Cursor::start(there);
    lemma_plain_steps_move(before, c, 0);
    assert(d == c.moved(before.len(), bytes_of(before)));
    lemma_kw_else_if_moves(before, text, c.pos);
    let found = spec_kw_else_if(text, c.pos);
    let found_there = spec_kw_else_if(longer, d.pos);
    assert(c.ok ==> found_there == found.moved(before.len(), bytes_of(before)));
    lemma_attach_moves(before, c, found, Slot::Root);
    let d = d.pass(found_there);
    let c = c.pass(found);
    assert(d == c.moved(before.len(), bytes_of(before)));
    lemma_skip_moves(before, text, c);
    let c = c.trivia(text);
    let d = d.trivia(longer);
    assert(d == c.moved(before.len(), bytes_of(before)));
    lemma_expression_moves(before, text, c.pos);
    let found = spec_expression(text, c.pos);
    let found_there = spec_expression(longer, d.pos);
    assert(c.ok ==> found_there == found.moved(before.len(), bytes_of(before)));
    lemma_attach_moves(before, c, found, Slot::Expression);
    let d = d.attach(found_there, Slot::Expression);
    let c = c.attach(found, Slot::Expression);
    assert(d == c.moved(before.len(), bytes_of(before)));
    lemma_skip_moves(before, text, c);
    let c = c.trivia(text);
    let d = d.trivia(longer);
    assert(d == c.moved(before.len(), bytes_of(before)));
    lemma_word_moves(before, text, c, "{"@);
    let c = c.word(text, "{"@);
    let d = d.word(longer, "{"@);
    assert(d == c.moved(before.len(), bytes_of(before)));
    if c.ok && at < c.pos && c.pos <= text.len() {
        lemma_if_else_if_block_items_moves(before, text, c);
    }
    lemma_plain_steps_move(before, c, 0);
    let c = if at < c.pos && c.pos <= text.len() {
        spec_if_else_if_block_items(text, c)
    } else {
        c.halt()
    };
    let d = if there < d.pos && d.pos <= longer.len() {
        spec_if_else_if_block_items(longer, d)
    } else {
        d.halt()
    };
    assert(d == c.moved(before.len(), bytes_of(before)));
    lemma_skip_moves(before, text, c);
    let c = c.trivia(text);
    let d = d.trivia(longer);
    assert(d == c.moved(before.len(), bytes_of(before)));
    lemma_word_moves(before, text, c, "}"@);
    let c = c.word(text, "}"@);
    let d = d.word(longer, "}"@);
    assert(d == c.moved(before.len(), bytes_of(before)));
    lemma_finish_moves(before, text, c, LifeRestartRule::IfElseIfBlock, at);
}

/// What `~ Statement#statement` matches does not depend on the text before it.
#[verifier::rlimit(50)]
pub proof fn lemma_if_else_block_item_moves(before: Seq<char>, text: Seq<char>, at: int)
    requires
        0 <= at <= text.len(),
    ensures
        spec_if_else_block_item(before + text, before.len() + at)
            == spec_if_else_block_item(text, at).moved(before.len(), bytes_of(before)),
        spec_if_else_block_item(text, at).within(text, at),
        spec_if_else_block_item(text, at).ok ==> spec_if_else_block_item(text, at).pos > at,
    decreases text.len() - at, 3nat,
{
    let longer = before + text;
    let there = before.len() + at;
    let c = Cursor::start(at);
    let d = Cursor::start(there);
    lemma_plain_steps_move(before, c, 0);
    assert(d == c.moved(before.len(), bytes_of(before)));
    lemma_skip_moves(before, text, c);
    let c = c.trivia(text);
    let d = d.trivia(longer);
    assert(d == c.moved(before.len(), bytes_of(before)));
    if at <= c.pos && c.pos <= text.len() {
        lemma_statement_moves(before, text, c.pos);
    }
    let found = if at <= c.pos && c.pos <= text.len() {
        spec_statement(text, c.pos)
    } else {
        Outcome::none(c.pos)
    };
    let found_there = if there <= d.pos && d.pos <= longer.len() {
        spec_statement(longer, d.pos)
    } else {
        Outcome::none(d.pos)
    };
    assert(c.ok ==> found_there == found.moved(before.len(), bytes_of(before)));
    lemma_attach_moves(before, c, found, Slot::Statement);
    let d = d.attach(found_there, Slot::Statement);
    let c = c.attach(found, Slot::Statement);
    assert(d == c.moved(before.len(), bytes_of(before)));
}

/// What `(~ Statement#statement)*` matches does not depend on the text before
/// it.
#[verifier::rlimit(50)]
pub proof fn lemma_if_else_block_items_moves(before: Seq<char>, text: Seq<char>, from: Cursor)
    requires
        0 <= from.pos <= text.len(),
        from.far <= text.len(),
    ensures
        spec_if_else_block_items(before + text, from.moved(before.len(), bytes_of(before)))
            == spec_if_else_block_items(text, from).moved(before.len(), bytes_of(before)),
        from.pos <= spec_if_else_block_items(text, from).pos <= text.len(),
        from.far <= spec_if_else_block_items(text, from).far <= text.len(),
        spec_if_else_block_items(text, from).ok == from.ok,
    decreases text.len() - from.pos, 4nat,
{
    if from.ok {
        lemma_if_else_block_item_moves(before, text, from.pos);
        let step = if from.pos <= text.len() {
            spec_if_else_block_item(text, from.pos)
        } else {
            Cursor::none(from.pos)
        };
        lemma_plain_steps_move(before, from, step.far);
        if step.ok && from.pos < step.pos <= text.len() {
            lemma_join_moves(before, from, step);
            lemma_if_else_block_items_moves(before, text, from.join(step));
        }
    }
}

/// What the rule `IfElseBlock` matches does not depend on the text before it:
/// further on in a longer text, it matches the same, moved.
#[verifier::rlimit(50)]
pub proof fn lemma_if_else_block_moves(before: Seq<char>, text: Seq<char>, at: int)
    requires
        0 <= at <= text.len(),
    ensures
        spec_if_else_block(before + text, before.len() + at)
            == spec_if_else_block(text, at).moved(before.len(), bytes_of(before)),
        spec_if_else_block(text, at).within(text, at),
        spec_if_else_block(text, at).tree is Some ==> spec_if_else_block(text, at).end > at,
    decreases text.len() - at, 0nat,
{
    let longer = before + text;
    let there = before.len() + at;
    let c = Cursor::start(at);
    let d = Cursor::start(there);
    lemma_plain_steps_move(before, c, 0);
    assert(d == c.moved(before.len(), bytes_of(before)));
    lemma_kw_else_moves(before, text, c.pos);
    let found = spec_kw_else(text, c.pos);
    let found_there = spec_kw_else(longer, d.pos);
    assert(c.ok ==> found_there == found.moved(before.len(), bytes_of(before)));
    lemma_attach_moves(before, c, found, Slot::Root);
    let d = d.pass(found_there);
    let c = c.pass(found);
    assert(d == c.moved(before.len(), bytes_of(before)));
    lemma_skip_moves(before, text, c);
    let c = c.trivia(text);
    let d = d.trivia(longer);
    assert(d == c.moved(before.len(), bytes_of(before)));
    lemma_word_moves(before, text, c, "{"@);
    let c = c.word(text, "{"@);
    let d = d.word(longer, "{"@);
    assert(d == c.moved(before.len(), bytes_of(before)));
    if c.ok && at < c.pos && c.pos <= text.len() {
        lemma_if_else_block_items_moves(before, text, c);
    }
    lemma_plain_steps_move(before, c, 0);
    let c = if at < c.pos && c.pos <= text.len() {
        spec_if_else_block_items(text, c)
    } else {
        c.halt()
    };
    let d = if there < d.pos && d.pos <= longer.len() {
        spec_if_else_block_items(longer, d)
    } else {
        d.halt()
    };
    assert(d == c.moved(before.len(), bytes_of(before)));
    lemma_skip_moves(before, text, c);
    let c = c.trivia(text);
    let d = d.trivia(longer);
    assert(d == c.moved(before.len(), bytes_of(before)));
    lemma_word_moves(before, text, c, "}"@);
    let c = c.word(text, "}"@);
    let d = d.word(longer, "}"@);
    assert(d == c.moved(before.len(), bytes_of(before)));
    lemma_finish_moves(before, text, c, LifeRestartRule::IfElseBlock, at);
}

/// What `~ Infix#infix ~ Term#term` matches does not depend on the text before
/// it.
pub proof fn lemma_expression_more_moves(before: Seq<char>, text: Seq<char>, at: int)
    requires
        0 <= at <= text.len(),
    ensures
        spec_expression_more(before + text, before.len() + at)
            == spec_expression_more(text, at).moved(before.len(), bytes_of(before)),
        spec_expression_more(text, at).within(text, at),
        spec_expression_more(text, at).ok ==> spec_expression_more(text, at).pos > at,
{
    reveal(spec_expression_more);
    let longer = before + text;
    let there = before.len() + at;
    let c = Cursor::start(at);
    let d = Cursor::start(there);
    lemma_plain_steps_move(before, c, 0);
    assert(d == c.moved(before.len(), bytes_of(before)));
    lemma_skip_moves(before, text, c);
    let c = c.trivia(text);
    let d = d.trivia(longer);
    assert(d == c.moved(before.len(), bytes_of(before)));
    lemma_infix_moves(before, text, c.pos);
    let found = spec_infix(text, c.pos);
    let found_there = spec_infix(longer, d.pos);
    assert(c.ok ==> found_there == found.moved(before.len(), bytes_of(before)));
    lemma_attach_moves(before, c, found, Slot::Infix);
    let d = d.attach(found_there, Slot::Infix);
    let c = c.attach(found, Slot::Infix);
    assert(d == c.moved(before.len(), bytes_of(before)));
    lemma_skip_moves(before, text, c);
    let c = c.trivia(text);
    let d = d.trivia(longer);
    assert(d == c.moved(before.len(), bytes_of(before)));
    lemma_term_moves(before, text, c.pos);
    let found = spec_term(text, c.pos);
    let found_there = spec_term(longer, d.pos);
    assert(c.ok ==> found_there == found.moved(before.len(), bytes_of(before)));
    lemma_attach_moves(before, c, found, Slot::Term);
    let d = d.attach(found_there, Slot::Term);
    let c = c.attach(found, Slot::Term);
    assert(d == c.moved(before.len(), bytes_of(before)));
}

/// What `(~ Infix#infix ~ Term#term)*` matches does not depend on the text
/// before it.
#[verifier::rlimit(50)]
pub proof fn lemma_expression_rest_moves(before: Seq<char>, text: Seq<char>, from: Cursor)
    requires
        0 <= from.pos <= text.len(),
        from.far <= text.len(),
    ensures
        spec_expression_rest(before + text, from.moved(before.len(), bytes_of(before)))
            == spec_expression_rest(text, from).moved(before.len(), bytes_of(before)),
        from.pos <= spec_expression_rest(text, from).pos <= text.len(),
        from.far <= spec_expression_rest(text, from).far <= text.len(),
        spec_expression_rest(text, from).ok == from.ok,
    decreases text.len() - from.pos,
{
    if from.ok {
        lemma_expression_more_moves(before, text, from.pos);
        let step = spec_expression_more(text, from.pos);
        lemma_plain_steps_move(before, from, step.far);
        if step.ok && from.pos < step.pos <= text.len() {
            lemma_join_moves(before, from, step);
            lemma_expression_rest_moves(before, text, from.join(step));
        }
    }
}

/// What the rule `Expression` matches does not depend on the text before it:
/// further on in a longer text, it matches the same, moved.
#[verifier::rlimit(50)]
pub proof fn lemma_expression_moves(before: Seq<char>, text: Seq<char>, at: int)
    requires
        0 <= at <= text.len(),
    ensures
        spec_expression(before + text, before.len() + at)
            == spec_expression(text, at).moved(before.len(), bytes_of(before)),
        spec_expression(text, at).within(text, at),
        spec_expression(text, at).tree is Some ==> spec_expression(text, at).end > at,
{
    reveal(spec_expression);
    let longer = before + text;
    let there = before.len() + at;
    let c = Cursor::start(at);
    let d = Cursor::start(there);
    lemma_plain_steps_move(before, c, 0);
    assert(d == c.moved(before.len(), bytes_of(before)));
    lemma_term_moves(before, text, c.pos);
    let found = spec_term(text, c.pos);
    let found_there = spec_term(longer, d.pos);
    assert(c.ok ==> found_there == found.moved(before.len(), bytes_of(before)));
    lemma_attach_moves(before, c, found, Slot::Term);
    let d = d.attach(found_there, Slot::Term);
    let c = c.attach(found, Slot::Term);
    assert(d == c.moved(before.len(), bytes_of(before)));
    if c.ok {
        lemma_expression_rest_moves(before, text, c);
    } else {
        reveal(spec_expression_rest);
    }
    let c = spec_expression_rest(text, c);
    let d = spec_expression_rest(longer, d);
    assert(d == c.moved(before.len(), bytes_of(before)));
    lemma_finish_moves(before, text, c, LifeRestartRule::Expression, at);
}

/// What `Prefix#prefix ~` matches does not depend on the text before it.
pub proof fn lemma_term_prefix_moves(before: Seq<char>, text: Seq<char>, at: int)
    requires
        0 <= at <= text.len(),
    ensures
        spec_term_prefix(before + text, before.len() + at)
            == spec_term_prefix(text, at).moved(before.len(), bytes_of(before)),
        spec_term_prefix(text, at).within(text, at),
        spec_term_prefix(text, at).ok ==> spec_term_prefix(text, at).pos > at,
{
    reveal(spec_term_prefix);
    let longer = before + text;
    let there = before.len() + at;
    let c = Cursor::start(at);
    let d = Cursor::start(there);
    lemma_plain_steps_move(before, c, 0);
    assert(d == c.moved(before.len(), bytes_of(before)));
    lemma_prefix_moves(before, text, c.pos);
    let found = spec_prefix(text, c.pos);
    let found_there = spec_prefix(longer, d.pos);
    assert(c.ok ==> found_there == found.moved(before.len(), bytes_of(before)));
    lemma_attach_moves(before, c, found, Slot::Prefix);
    let d = d.attach(found_there, Slot::Prefix);
    let c = c.attach(found, Slot::Prefix);
    assert(d == c.moved(before.len(), bytes_of(before)));
    lemma_skip_moves(before, text, c);
    let c = c.trivia(text);
    let d = d.trivia(longer);
    assert(d == c.moved(before.len(), bytes_of(before)));
}

/// What `(Prefix#prefix ~)*` matches does not depend on the text before it.
#[verifier::rlimit(50)]
pub proof fn lemma_term_prefixes_moves(before: Seq<char>, text: Seq<char>, from: Cursor)
    requires
        0 <= from.pos <= text.len(),
        from.far <= text.len(),
    ensures
        spec_term_prefixes(before + text, from.moved(before.len(), bytes_of(before)))
            == spec_term_prefixes(text, from).moved(before.len(), bytes_of(before)),
        from.pos <= spec_term_prefixes(text, from).pos <= text.len(),
        from.far <= spec_term_prefixes(text, from).far <= text.len(),
        spec_term_prefixes(text, from).ok == from.ok,
    decreases text.len() - from.pos,
{
    if from.ok {
        lemma_term_prefix_moves(before, text, from.pos);
        let step = spec_term_prefix(text, from.pos);
        lemma_plain_steps_move(before, from, step.far);
        if step.ok && from.pos < step.pos <= text.len() {
            lemma_join_moves(before, from, step);
            lemma_term_prefixes_moves(before, text, from.join(step));
        }
    }
}

/// What `~ Suffix#suffix` matches does not depend on the text before it.
pub proof fn lemma_term_suffix_moves(before: Seq<char>, text: Seq<char>, at: int)
    requires
        0 <= at <= text.len(),
    ensures
        spec_term_suffix(before + text, before.len() + at)
            == spec_term_suffix(text, at).moved(before.len(), bytes_of(before)),
        spec_term_suffix(text, at).within(text, at),
        spec_term_suffix(text, at).ok ==> spec_term_suffix(text, at).pos > at,
{
    reveal(spec_term_suffix);
    let longer = before + text;
    let there = before.len() + at;
    let c = Cursor::start(at);
    let d = Cursor::start(there);
    lemma_plain_steps_move(before, c, 0);
    assert(d == c.moved(before.len(), bytes_of(before)));
    lemma_skip_moves(before, text, c);
    let c = c.trivia(text);
    let d = d.trivia(longer);
    assert(d == c.moved(before.len(), bytes_of(before)));
    lemma_suffix_moves(before, text, c.pos);
    let found = spec_suffix(text, c.pos);
    let found_there = spec_suffix(longer, d.pos);
    assert(c.ok ==> found_there == found.moved(before.len(), bytes_of(before)));
    lemma_attach_moves(before, c, found, Slot::Suffix);
    let d = d.attach(found_there, Slot::Suffix);
    let c = c.attach(found, Slot::Suffix);
    assert(d == c.moved(before.len(), bytes_of(before)));
}

/// What `(~ Suffix#suffix)*` matches does not depend on the text before it.
#[verifier::rlimit(50)]
pub proof fn lemma_term_suffixes_moves(before: Seq<char>, text: Seq<char>, from: Cursor)
    requires
        0 <= from.pos <= text.len(),
        from.far <= text.len(),
    ensures
        spec_term_suffixes(before + text, from.moved(before.len(), bytes_of(before)))
            == spec_term_suffixes(text, from).moved(before.len(), bytes_of(before)),
        from.pos <= spec_term_suffixes(text, from).pos <= text.len(),
        from.far <= spec_term_suffixes(text, from).far <= text.len(),
        spec_term_suffixes(text, from).ok == from.ok,
    decreases text.len() - from.pos,
{
    if from.ok {
        lemma_term_suffix_moves(before, text, from.pos);
        let step = spec_term_suffix(text, from.pos);
        lemma_plain_steps_move(before, from, step.far);
        if step.ok && from.pos < step.pos <= text.len() {
            lemma_join_moves(before, from, step);
            lemma_term_suffixes_moves(before, text, from.join(step));
        }
    }
}

/// What the rule `Term` matches does not depend on the text before it: further
/// on in a longer text, it matches the same, moved.
#[verifier::rlimit(50)]
pub proof fn lemma_term_moves(before: Seq<char>, text: Seq<char>, at: int)
    requires
        0 <= at <= text.len(),
    ensures
        spec_term(before + text, before.len() + at)
            == spec_term(text, at).moved(before.len(), bytes_of(before)),
        spec_term(text, at).within(text, at),
        spec_term(text, at).tree is Some ==> spec_term(text, at).end > at,
{
    reveal(spec_term);
    let longer = before + text;
    let there = before.len() + at;
    let c = Cursor::start(at);
    let d = Cursor::start(there);
    lemma_plain_steps_move(before, c, 0);
    assert(d == c.moved(before.len(), bytes_of(before)));
    if c.ok {
        lemma_term_prefixes_moves(before, text, c);
    } else {
        reveal(spec_term_prefixes);
    }
    let c = spec_term_prefixes(text, c);
    let d = spec_term_prefixes(longer, d);
    assert(d == c.moved(before.len(), bytes_of(before)));
    lemma_atomic_moves(before, text, c.pos);
    let found = spec_atomic(text, c.pos);
    let found_there = spec_atomic(longer, d.pos);
    assert(c.ok ==> found_there == found.moved(before.len(), bytes_of(before)));
    lemma_attach_moves(before, c, found, Slot::Atomic);
    let d = d.attach(found_there, Slot::Atomic);
    let c = c.attach(found, Slot::Atomic);
    assert(d == c.moved(before.len(), bytes_of(before)));
    if c.ok {
        lemma_term_suffixes_moves(before, text, c);
    } else {
        reveal(spec_term_suffixes);
    }
    let c = spec_term_suffixes(text, c);
    let d = spec_term_suffixes(longer, d);
    assert(d == c.moved(before.len(), bytes_of(before)));
    lemma_finish_moves(before, text, c, LifeRestartRule::Term, at);
}

/// What the rule `Prefix` matches does not depend on the text before it:
/// further on in a longer text, it matches the same, moved.
pub proof fn lemma_prefix_moves(before: Seq<char>, text: Seq<char>, at: int)
    requires
        0 <= at <= text.len(),
    ensures
        spec_prefix(before + text, before.len() + at)
            == spec_prefix(text, at).moved(before.len(), bytes_of(before)),
        spec_prefix(text, at).within(text, at),
        spec_prefix(text, at).tree is Some ==> spec_prefix(text, at).end > at,
{
    reveal(spec_prefix);
    let longer = before + text;
    let there = before.len() + at;
    let c = Cursor::start(at);
    let d = Cursor::start(there);
    lemma_plain_steps_move(before, c, 0);
    assert(d == c.moved(before.len(), bytes_of(before)));
    let after = {
        let first = c;
        lemma_mark_prefix_0_moves(before, text, first.pos);
        let found = spec_mark_prefix_0(text, first.pos);
        lemma_attach_moves(before, Cursor::start(first.pos), found, Slot::Prefix0);
        let alt = Cursor::start(first.pos).attach(found, Slot::Prefix0);
        lemma_join_moves(before, c, alt);
        lemma_plain_steps_move(before, c, alt.far);
        let c = c.note(alt.far);
        c
    };
    lemma_plain_steps_move(before, after, 0);
    let c = if !c.ok {
        c
    } else {
        let alt = Cursor::start(c.pos).attach(spec_mark_prefix_0(text, c.pos), Slot::Prefix0);
        if alt.ok {
            c.join(alt)
        } else {
            c.note(alt.far).halt()
        }
    };
    let d = if !d.ok {
        d
    } else {
        let alt = Cursor::start(d.pos).attach(spec_mark_prefix_0(longer, d.pos), Slot::Prefix0);
        if alt.ok {
            d.join(alt)
        } else {
            d.note(alt.far).halt()
        }
    };
    assert(d == c.moved(before.len(), bytes_of(before)));
    lemma_finish_moves(before, text, c, LifeRestartRule::Prefix, at);
}

/// What the rule `Infix` matches does not depend on the text before it: further
/// on in a longer text, it matches the same, moved.
#[verifier::rlimit(100)]
pub proof fn lemma_infix_moves(before: Seq<char>, text: Seq<char>, at: int)
    requires
        0 <= at <= text.len(),
    ensures
        spec_infix(before + text, before.len() + at)
            == spec_infix(text, at).moved(before.len(), bytes_of(before)),
        spec_infix(text, at).within(text, at),
        spec_infix(text, at).tree is Some ==> spec_infix(text, at).end > at,
{
    reveal(spec_infix);
    let longer = before + text;
    let there = before.len() + at;
    let c = Cursor::start(at);
    let d = Cursor::start(there);
    lemma_plain_steps_move(before, c, 0);
    assert(d == c.moved(before.len(), bytes_of(before)));
    let after = {
        let first = c;
        lemma_mark_geq_moves(before, text, first.pos);
        let found = spec_mark_geq(text, first.pos);
        lemma_attach_moves(before, Cursor::start(first.pos), found, Slot::Geq);
        let alt = Cursor::start(first.pos).attach(found, Slot::Geq);
        lemma_join_moves(before, c, alt);
        lemma_plain_steps_move(before, c, alt.far);
        let c = c.note(alt.far);
        lemma_mark_leq_moves(before, text, first.pos);
        let found = spec_mark_leq(text, first.pos);
        lemma_attach_moves(before, Cursor::start(first.pos), found, Slot::Leq);
        let alt = Cursor::start(first.pos).attach(found, Slot::Leq);
        lemma_join_moves(before, c, alt);
        lemma_plain_steps_move(before, c, alt.far);
        let c = c.note(alt.far);
        lemma_mark_ne_moves(before, text, first.pos);
        let found = spec_mark_ne(text, first.pos);
        lemma_attach_moves(before, Cursor::start(first.pos), found, Slot::Ne);
        let alt = Cursor::start(first.pos).attach(found, Slot::Ne);
        lemma_join_moves(before, c, alt);
        lemma_plain_steps_move(before, c, alt.far);
        let c = c.note(alt.far);
        lemma_mark_eq_moves(before, text, first.pos);
        let found = spec_mark_eq(text, first.pos);
        lemma_attach_moves(before, Cursor::start(first.pos), found, Slot::Eq);
        let alt = Cursor::start(first.pos).attach(found, Slot::Eq);
        lemma_join_moves(before, c, alt);
        lemma_plain_steps_move(before, c, alt.far);
        let c = c.note(alt.far);
        lemma_mark_gt_moves(before, text, first.pos);
        let found = spec_mark_gt(text, first.pos);
        lemma_attach_moves(before, Cursor::start(first.pos), found, Slot::Gt);
        let alt = Cursor::start(first.pos).attach(found, Slot::Gt);
        lemma_join_moves(before, c, alt);
        lemma_plain_steps_move(before, c, alt.far);
        let c = c.note(alt.far);
        lemma_mark_lt_moves(before, text, first.pos);
        let found = spec_mark_lt(text, first.pos);
        lemma_attach_moves(before, Cursor::start(first.pos), found, Slot::Lt);
        let alt = Cursor::start(first.pos).attach(found, Slot::Lt);
        lemma_join_moves(before, c, alt);
        lemma_plain_steps_move(before, c, alt.far);
        let c = c.note(alt.far);
        lemma_mark_and_moves(before, text, first.pos);
        let found = spec_mark_and(text, first.pos);
        lemma_attach_moves(before, Cursor::start(first.pos), found, Slot::And);
        let alt = Cursor::start(first.pos).attach(found, Slot::And);
        lemma_join_moves(before, c, alt);
        lemma_plain_steps_move(before, c, alt.far);
        let c = c.note(alt.far);
        lemma_mark_or_moves(before, text, first.pos);
        let found = spec_mark_or(text, first.pos);
        lemma_attach_moves(before, Cursor::start(first.pos), found, Slot::Or);
        let alt = Cursor::start(first.pos).attach(found, Slot::Or);
        lemma_join_moves(before, c, alt);
        lemma_plain_steps_move(before, c, alt.far);
        let c = c.note(alt.far);
        lemma_mark_has_moves(before, text, first.pos);
        let found = spec_mark_has(text, first.pos);
        lemma_attach_moves(before, Cursor::start(first.pos), found, Slot::Has);
        let alt = Cursor::start(first.pos).attach(found, Slot::Has);
        lemma_join_moves(before, c, alt);
        lemma_plain_steps_move(before, c, alt.far);
        let c = c.note(alt.far);
        lemma_mark_add_assign_moves(before, text, first.pos);
        let found = spec_mark_add_assign(text, first.pos);
        lemma_attach_moves(before, Cursor::start(first.pos), found, Slot::AddAssign);
        let alt = Cursor::start(first.pos).attach(found, Slot::AddAssign);
        lemma_join_moves(before, c, alt);
        lemma_plain_steps_move(before, c, alt.far);
        let c = c.note(alt.far);
        lemma_mark_sub_assign_moves(before, text, first.pos);
        let found = spec_mark_sub_assign(text, first.pos);
        lemma_attach_moves(before, Cursor::start(first.pos), found, Slot::SubAssign);
        let alt = Cursor::start(first.pos).attach(found, Slot::SubAssign);
        lemma_join_moves(before, c, alt);
        lemma_plain_steps_move(before, c, alt.far);
        let c = c.note(alt.far);
        lemma_mark_add_moves(before, text, first.pos);
        let found = spec_mark_add(text, first.pos);
        lemma_attach_moves(before, Cursor::start(first.pos), found, Slot::Add);
        let alt = Cursor::start(first.pos).attach(found, Slot::Add);
        lemma_join_moves(before, c, alt);
        lemma_plain_steps_move(before, c, alt.far);
        let c = c.note(alt.far);
        lemma_mark_sub_moves(before, text, first.pos);
        let found = spec_mark_sub(text, first.pos);
        lemma_attach_moves(before, Cursor::start(first.pos), found, Slot::Sub);
        let alt = Cursor::start(first.pos).attach(found, Slot::Sub);
        lemma_join_moves(before, c, alt);
        lemma_plain_steps_move(before, c, alt.far);
        let c = c.note(alt.far);
        c
    };
    lemma_plain_steps_move(before, after, 0);
    let c = if !c.ok {
        c
    } else {
        let alt = Cursor::start(c.pos).attach(spec_mark_geq(text, c.pos), Slot::Geq);
        if alt.ok {
            c.join(alt)
        } else {
            let c = c.note(alt.far);
            let alt = Cursor::start(c.pos).attach(spec_mark_leq(text, c.pos), Slot::Leq);
            if alt.ok {
                c.join(alt)
            } else {
                let c = c.note(alt.far);
                let alt = Cursor::start(c.pos).attach(spec_mark_ne(text, c.pos), Slot::Ne);
                if alt.ok {
                    c.join(alt)
                } else {
                    let c = c.note(alt.far);
                    let alt = Cursor::start(c.pos).attach(spec_mark_eq(text, c.pos), Slot::Eq);
                    if alt.ok {
                        c.join(alt)
                    } else {
                        let c = c.note(alt.far);
                        let alt = Cursor::start(c.pos).attach(spec_mark_gt(text, c.pos), Slot::Gt);
                        if alt.ok {
                            c.join(alt)
                        } else {
                            let c = c.note(alt.far);
                            let alt = Cursor::start(c.pos).attach(
                                spec_mark_lt(text, c.pos),
                                Slot::Lt,
                            );
                            if alt.ok {
                                c.join(alt)
                            } else {
                                let c = c.note(alt.far);
                                let alt = Cursor::start(c.pos).attach(
                                    spec_mark_and(text, c.pos),
                                    Slot::And,
                                );
                                if alt.ok {
                                    c.join(alt)
                                } else {
                                    let c = c.note(alt.far);
                                    let alt = Cursor::start(c.pos).attach(
                                        spec_mark_or(text, c.pos),
                                        Slot::Or,
                                    );
                                    if alt.ok {
                                        c.join(alt)
                                    } else {
                                        let c = c.note(alt.far);
                                        let alt = Cursor::start(c.pos).attach(
                                            spec_mark_has(text, c.pos),
                                            Slot::Has,
                                        );
                                        if alt.ok {
                                            c.join(alt)
                                        } else {
                                            let c = c.note(alt.far);
                                            let alt = Cursor::start(c.pos).attach(
                                                spec_mark_add_assign(text, c.pos),
                                                Slot::AddAssign,
                                            );
                                            if alt.ok {
                                                c.join(alt)
                                            } else {
                                                let c = c.note(alt.far);
                                                let alt = Cursor::start(c.pos).attach(
                                                    spec_mark_sub_assign(text, c.pos),
                                                    Slot::SubAssign,
                                                );
                                                if alt.ok {
                                                    c.join(alt)
                                                } else {
                                                    let c = c.note(alt.far);
                                                    let alt = Cursor::start(c.pos).attach(
                                                        spec_mark_add(text, c.pos),
                                                        Slot::Add,
                                                    );
                                                    if alt.ok {
                                                        c.join(alt)
                                                    } else {
                                                        let c = c.note(alt.far);
                                                        let alt = Cursor::start(c.pos).attach(
                                                            spec_mark_sub(text, c.pos),
                                                            Slot::Sub,
                                                        );
                                                        if alt.ok {
                                                            c.join(alt)
                                                        } else {
                                                            c.note(alt.far).halt()
                                                        }
                                                    }
                                                }
                                            }
                                        }
                                    }
                                }
                            }
                        }
                    }
                }
            }
        }
    };
    let d = if !d.ok {
        d
    } else {
        let alt = Cursor::start(d.pos).attach(spec_mark_geq(longer, d.pos), Slot::Geq);
        if alt.ok {
            d.join(alt)
        } else {
            let d = d.note(alt.far);
            let alt = Cursor::start(d.pos).attach(spec_mark_leq(longer, d.pos), Slot::Leq);
            if alt.ok {
                d.join(alt)
            } else {
                let d = d.note(alt.far);
                let alt = Cursor::start(d.pos).attach(spec_mark_ne(longer, d.pos), Slot::Ne);
                if alt.ok {
                    d.join(alt)
                } else {
                    let d = d.note(alt.far);
                    let alt = Cursor::start(d.pos).attach(spec_mark_eq(longer, d.pos), Slot::Eq);
                    if alt.ok {
                        d.join(alt)
                    } else {
                        let d = d.note(alt.far);
                        let alt = Cursor::start(d.pos).attach(
                            spec_mark_gt(longer, d.pos),
                            Slot::Gt,
                        );
                        if alt.ok {
                            d.join(alt)
                        } else {
                            let d = d.note(alt.far);
                            let alt = Cursor::start(d.pos).attach(
                                spec_mark_lt(longer, d.pos),
                                Slot::Lt,
                            );
                            if alt.ok {
                                d.join(alt)
                            } else {
                                let d = d.note(alt.far);
                                let alt = Cursor::start(d.pos).attach(
                                    spec_mark_and(longer, d.pos),
                                    Slot::And,
                                );
                                if alt.ok {
                                    d.join(alt)
                                } else {
                                    let d = d.note(alt.far);
                                    let alt = Cursor::start(d.pos).attach(
                                        spec_mark_or(longer, d.pos),
                                        Slot::Or,
                                    );
                                    if alt.ok {
                                        d.join(alt)
                                    } else {
                                        let d = d.note(alt.far);
                                        let alt = Cursor::start(d.pos).attach(
                                            spec_mark_has(longer, d.pos),
                                            Slot::Has,
                                        );
                                        if alt.ok {
                                            d.join(alt)
                                        } else {
                                            let d = d.note(alt.far);
                                            let alt = Cursor::start(d.pos).attach(
                                                spec_mark_add_assign(longer, d.pos),
                                                Slot::AddAssign,
                                            );
                                            if alt.ok {
                                                d.join(alt)
                                            } else {
                                                let d = d.note(alt.far);
                                                let alt = Cursor::start(d.pos).attach(
                                                    spec_mark_sub_assign(longer, d.pos),
                                                    Slot::SubAssign,
                                                );
                                                if alt.ok {
                                                    d.join(alt)
                                                } else {
                                                    let d = d.note(alt.far);
                                                    let alt = Cursor::start(d.pos).attach(
                                                        spec_mark_add(longer, d.pos),
                                                        Slot::Add,
                                                    );
                                                    if alt.ok {
                                                        d.join(alt)
                                                    } else {
                                                        let d = d.note(alt.far);
                                                        let alt = Cursor::start(d.pos).attach(
                                                            spec_mark_sub(longer, d.pos),
                                                            Slot::Sub,
                                                        );
                                                        if alt.ok {
                                                            d.join(alt)
                                                        } else {
                                                            d.note(alt.far).halt()
                                                        }
                                                    }
                                                }
                                            }
                                        }
                                    }
                                }
                            }
                        }
                    }
                }
            }
        }
    };
    assert(d == c.moved(before.len(), bytes_of(before)));
    lemma_finish_moves(before, text, c, LifeRestartRule::Infix, at);
}

/// What the rule `Suffix` matches does not depend on the text before it:
/// further on in a longer text, it matches the same, moved.
pub proof fn lemma_suffix_moves(before: Seq<char>, text: Seq<char>, at: int)
    requires
        0 <= at <= text.len(),
    ensures
        spec_suffix(before + text, before.len() + at)
            == spec_suffix(text, at).moved(before.len(), bytes_of(before)),
        spec_suffix(text, at).within(text, at),
        spec_suffix(text, at).tree is Some ==> spec_suffix(text, at).end > at,
{
    reveal(spec_suffix);
    let longer = before + text;
    let there = before.len() + at;
    let c = Cursor::start(at);
    let d = Cursor::start(there);
    lemma_plain_steps_move(before, c, 0);
    assert(d == c.moved(before.len(), bytes_of(before)));
    let after = {
        let first = c;
        lemma_mark_suffix_0_moves(before, text, first.pos);
        let found = spec_mark_suffix_0(text, first.pos);
        lemma_attach_moves(before, Cursor::start(first.pos), found, Slot::Suffix0);
        let alt = Cursor::start(first.pos).attach(found, Slot::Suffix0);
        lemma_join_moves(before, c, alt);
        lemma_plain_steps_move(before, c, alt.far);
        let c = c.note(alt.far);
        c
    };
    lemma_plain_steps_move(before, after, 0);
    let c = if !c.ok {
        c
    } else {
        let alt = Cursor::start(c.pos).attach(spec_mark_suffix_0(text, c.pos), Slot::Suffix0);
        if alt.ok {
            c.join(alt)
        } else {
            c.note(alt.far).halt()
        }
    };
    let d = if !d.ok {
        d
    } else {
        let alt = Cursor::start(d.pos).attach(spec_mark_suffix_0(longer, d.pos), Slot::Suffix0);
        if alt.ok {
            d.join(alt)
        } else {
            d.note(alt.far).halt()
        }
    };
    assert(d == c.moved(before.len(), bytes_of(before)));
    lemma_finish_moves(before, text, c, LifeRestartRule::Suffix, at);
}

/// What the rule `Atomic` matches does not depend on the text before it:
/// further on in a longer text, it matches the same, moved.
#[verifier::rlimit(50)]
pub proof fn lemma_atomic_moves(before: Seq<char>, text: Seq<char>, at: int)
    requires
        0 <= at <= text.len(),
    ensures
        spec_atomic(before + text, before.len() + at)
            == spec_atomic(text, at).moved(before.len(), bytes_of(before)),
        spec_atomic(text, at).within(text, at),
        spec_atomic(text, at).tree is Some ==> spec_atomic(text, at).end > at,
    decreases text.len() - at, 1nat,
{
    let longer = before + text;
    let there = before.len() + at;
    let c = Cursor::start(at);
    let d = Cursor::start(there);
    lemma_plain_steps_move(before, c, 0);
    assert(d == c.moved(before.len(), bytes_of(before)));
    let after = {
        let first = c;
        lemma_boolean_moves(before, text, first.pos);
        let found = spec_boolean(text, first.pos);
        lemma_attach_moves(before, Cursor::start(first.pos), found, Slot::Boolean);
        let alt = Cursor::start(first.pos).attach(found, Slot::Boolean);
        lemma_join_moves(before, c, alt);
        lemma_plain_steps_move(before, c, alt.far);
        let c = c.note(alt.far);
        lemma_lexical_moves(before, text, first.pos);
        let found = spec_identifier(text, first.pos);
        lemma_attach_moves(before, Cursor::start(first.pos), found, Slot::Identifier);
        let alt = Cursor::start(first.pos).attach(found, Slot::Identifier);
        lemma_join_moves(before, c, alt);
        lemma_plain_steps_move(before, c, alt.far);
        let c = c.note(alt.far);
        lemma_lexical_moves(before, text, first.pos);
        let found = spec_integer(text, first.pos);
        lemma_attach_moves(before, Cursor::start(first.pos), found, Slot::Integer);
        let alt = Cursor::start(first.pos).attach(found, Slot::Integer);
        lemma_join_moves(before, c, alt);
        lemma_plain_steps_move(before, c, alt.far);
        let c = c.note(alt.far);
        if at <= first.pos && first.pos <= text.len() {
            lemma_list_moves(before, text, first.pos);
        }
        let found = if at <= first.pos && first.pos <= text.len() {
            spec_list(text, first.pos)
        } else {
            Outcome::none(first.pos)
        };
        lemma_attach_moves(before, Cursor::start(first.pos), found, Slot::List);
        let alt = Cursor::start(first.pos).attach(found, Slot::List);
        lemma_join_moves(before, c, alt);
        lemma_plain_steps_move(before, c, alt.far);
        let c = c.note(alt.far);
        lemma_string_raw_moves(before, text, first.pos);
        let found = spec_string_raw(text, first.pos);
        lemma_attach_moves(before, Cursor::start(first.pos), found, Slot::StringRaw);
        let alt = Cursor::start(first.pos).attach(found, Slot::StringRaw);
        lemma_join_moves(before, c, alt);
        lemma_plain_steps_move(before, c, alt.far);
        let c = c.note(alt.far);
        lemma_string_normal_moves(before, text, first.pos);
        let found = spec_string_normal(text, first.pos);
        lemma_attach_moves(before, Cursor::start(first.pos), found, Slot::StringNormal);
        let alt = Cursor::start(first.pos).attach(found, Slot::StringNormal);
        lemma_join_moves(before, c, alt);
        lemma_plain_steps_move(before, c, alt.far);
        let c = c.note(alt.far);
        c
    };
    lemma_plain_steps_move(before, after, 0);
    let c = if !c.ok {
        c
    } else {
        let alt = Cursor::start(c.pos).attach(spec_boolean(text, c.pos), Slot::Boolean);
        if alt.ok {
            c.join(alt)
        } else {
            let c = c.note(alt.far);
            let alt = Cursor::start(c.pos).attach(spec_identifier(text, c.pos), Slot::Identifier);
            if alt.ok {
                c.join(alt)
            } else {
                let c = c.note(alt.far);
                let alt = Cursor::start(c.pos).attach(spec_integer(text, c.pos), Slot::Integer);
                if alt.ok {
                    c.join(alt)
                } else {
                    let c = c.note(alt.far);
                    let found = if at <= c.pos && c.pos <= text.len() {
                        spec_list(text, c.pos)
                    } else {
                        Outcome::none(c.pos)
                    };
                    let alt = Cursor::start(c.pos).attach(found, Slot::List);
                    if alt.ok {
                        c.join(alt)
                    } else {
                        let c = c.note(alt.far);
                        let alt = Cursor::start(c.pos).attach(
                            spec_string_raw(text, c.pos),
                            Slot::StringRaw,
                        );
                        if alt.ok {
                            c.join(alt)
                        } else {
                            let c = c.note(alt.far);
                            let alt = Cursor::start(c.pos).attach(
                                spec_string_normal(text, c.pos),
                                Slot::StringNormal,
                            );
                            if alt.ok {
                                c.join(alt)
                            } else {
                                c.note(alt.far).halt()
                            }
                        }
                    }
                }
            }
        }
    };
    let d = if !d.ok {
        d
    } else {
        let alt = Cursor::start(d.pos).attach(spec_boolean(longer, d.pos), Slot::Boolean);
        if alt.ok {
            d.join(alt)
        } else {
            let d = d.note(alt.far);
            let alt = Cursor::start(d.pos).attach(spec_identifier(longer, d.pos), Slot::Identifier);
            if alt.ok {
                d.join(alt)
            } else {
                let d = d.note(alt.far);
                let alt = Cursor::start(d.pos).attach(spec_integer(longer, d.pos), Slot::Integer);
                if alt.ok {
                    d.join(alt)
                } else {
                    let d = d.note(alt.far);
                    let found = if there <= d.pos && d.pos <= longer.len() {
                        spec_list(longer, d.pos)
                    } else {
                        Outcome::none(d.pos)
                    };
                    let alt = Cursor::start(d.pos).attach(found, Slot::List);
                    if alt.ok {
                        d.join(alt)
                    } else {
                        let d = d.note(alt.far);
                        let alt = Cursor::start(d.pos).attach(
                            spec_string_raw(longer, d.pos),
                            Slot::StringRaw,
                        );
                        if alt.ok {
                            d.join(alt)
                        } else {
                            let d = d.note(alt.far);
                            let alt = Cursor::start(d.pos).attach(
                                spec_string_normal(longer, d.pos),
                                Slot::StringNormal,
                            );
                            if alt.ok {
                                d.join(alt)
                            } else {
                                d.note(alt.far).halt()
                            }
                        }
                    }
                }
            }
        }
    };
    assert(d == c.moved(before.len(), bytes_of(before)));
    lemma_finish_moves(before, text, c, LifeRestartRule::Atomic, at);
}

/// What `~ COMMA#comma` matches does not depend on the text before it.
pub proof fn lemma_list_comma_moves(before: Seq<char>, text: Seq<char>, at: int)
    requires
        0 <= at <= text.len(),
    ensures
        spec_list_comma(before + text, before.len() + at)
            == spec_list_comma(text, at).moved(before.len(), bytes_of(before)),
        spec_list_comma(text, at).within(text, at),
        spec_list_comma(text, at).ok ==> spec_list_comma(text, at).pos > at,
{
    reveal(spec_list_comma);
    let longer = before + text;
    let there = before.len() + at;
    let c = Cursor::start(at);
    let d = Cursor::start(there);
    lemma_plain_steps_move(before, c, 0);
    assert(d == c.moved(before.len(), bytes_of(before)));
    lemma_skip_moves(before, text, c);
    let c = c.trivia(text);
    let d = d.trivia(longer);
    assert(d == c.moved(before.len(), bytes_of(before)));
    lemma_comma_moves(before, text, c.pos);
    let found = spec_comma(text, c.pos);
    let found_there = spec_comma(longer, d.pos);
    assert(c.ok ==> found_there == found.moved(before.len(), bytes_of(before)));
    lemma_attach_moves(before, c, found, Slot::Comma);
    let d = d.attach(found_there, Slot::Comma);
    let c = c.attach(found, Slot::Comma);
    assert(d == c.moved(before.len(), bytes_of(before)));
}

/// What `~ Atomic#atomic (~ COMMA#comma)?` matches does not depend on the text
/// before it.
#[verifier::rlimit(50)]
pub proof fn lemma_list_item_moves(before: Seq<char>, text: Seq<char>, at: int)
    requires
        0 <= at <= text.len(),
    ensures
        spec_list_item(before + text, before.len() + at)
            == spec_list_item(text, at).moved(before.len(), bytes_of(before)),
        spec_list_item(text, at).within(text, at),
        spec_list_item(text, at).ok ==> spec_list_item(text, at).pos > at,
    decreases text.len() - at, 2nat,
{
    let longer = before + text;
    let there = before.len() + at;
    let c = Cursor::start(at);
    let d = Cursor::start(there);
    lemma_plain_steps_move(before, c, 0);
    assert(d == c.moved(before.len(), bytes_of(before)));
    lemma_skip_moves(before, text, c);
    let c = c.trivia(text);
    let d = d.trivia(longer);
    assert(d == c.moved(before.len(), bytes_of(before)));
    if at <= c.pos && c.pos <= text.len() {
        lemma_atomic_moves(before, text, c.pos);
    }
    let found = if at <= c.pos && c.pos <= text.len() {
        spec_atomic(text, c.pos)
    } else {
        Outcome::none(c.pos)
    };
    let found_there = if there <= d.pos && d.pos <= longer.len() {
        spec_atomic(longer, d.pos)
    } else {
        Outcome::none(d.pos)
    };
    assert(c.ok ==> found_there == found.moved(before.len(), bytes_of(before)));
    lemma_attach_moves(before, c, found, Slot::Atomic);
    let d = d.attach(found_there, Slot::Atomic);
    let c = c.attach(found, Slot::Atomic);
    assert(d == c.moved(before.len(), bytes_of(before)));
    lemma_list_comma_moves(before, text, c.pos);
    let group = spec_list_comma(text, c.pos);
    let group_there = spec_list_comma(longer, d.pos);
    assert(c.ok ==> group_there == group.moved(before.len(), bytes_of(before)));
    lemma_join_moves(before, c, group);
    let d = d.option(group_there);
    let c = c.option(group);
    assert(d == c.moved(before.len(), bytes_of(before)));
}

/// What `(~ Atomic#atomic (~ COMMA#comma)?)*` matches does not depend on the
/// text before it.
#[verifier::rlimit(50)]
pub proof fn lemma_list_items_moves(before: Seq<char>, text: Seq<char>, from: Cursor)
    requires
        0 <= from.pos <= text.len(),
        from.far <= text.len(),
    ensures
        spec_list_items(before + text, from.moved(before.len(), bytes_of(before)))
            == spec_list_items(text, from).moved(before.len(), bytes_of(before)),
        from.pos <= spec_list_items(text, from).pos <= text.len(),
        from.far <= spec_list_items(text, from).far <= text.len(),
        spec_list_items(text, from).ok == from.ok,
    decreases text.len() - from.pos, 3nat,
{
    if from.ok {
        lemma_list_item_moves(before, text, from.pos);
        let step = if from.pos <= text.len() {
            spec_list_item(text, from.pos)
        } else {
            Cursor::none(from.pos)
        };
        lemma_plain_steps_move(before, from, step.far);
        if step.ok && from.pos < step.pos <= text.len() {
            lemma_join_moves(before, from, step);
            lemma_list_items_moves(before, text, from.join(step));
        }
    }
}

/// What the rule `List` matches does not depend on the text before it: further
/// on in a longer text, it matches the same, moved.
#[verifier::rlimit(50)]
pub proof fn lemma_list_moves(before: Seq<char>, text: Seq<char>, at: int)
    requires
        0 <= at <= text.len(),
    ensures
        spec_list(before + text, before.len() + at)
            == spec_list(text, at).moved(before.len(), bytes_of(before)),
        spec_list(text, at).within(text, at),
        spec_list(text, at).tree is Some ==> spec_list(text, at).end > at,
    decreases text.len() - at, 0nat,
{
    let longer = before + text;
    let there = before.len() + at;
    let c = Cursor::start(at);
    let d = Cursor::start(there);
    lemma_plain_steps_move(before, c, 0);
    assert(d == c.moved(before.len(), bytes_of(before)));
    lemma_word_moves(before, text, c, "["@);
    let c = c.word(text, "["@);
    let d = d.word(longer, "["@);
    assert(d == c.moved(before.len(), bytes_of(before)));
    if c.ok && at < c.pos && c.pos <= text.len() {
        lemma_list_items_moves(before, text, c);
    }
    lemma_plain_steps_move(before, c, 0);
    let c = if at < c.pos && c.pos <= text.len() {
        spec_list_items(text, c)
    } else {
        c.halt()
    };
    let d = if there < d.pos && d.pos <= longer.len() {
        spec_list_items(longer, d)
    } else {
        d.halt()
    };
    assert(d == c.moved(before.len(), bytes_of(before)));
    lemma_skip_moves(before, text, c);
    let c = c.trivia(text);
    let d = d.trivia(longer);
    assert(d == c.moved(before.len(), bytes_of(before)));
    lemma_word_moves(before, text, c, "]"@);
    let c = c.word(text, "]"@);
    let d = d.word(longer, "]"@);
    assert(d == c.moved(before.len(), bytes_of(before)));
    lemma_finish_moves(before, text, c, LifeRestartRule::List, at);
}

/// What the rule `String` matches does not depend on the text before it:
/// further on in a longer text, it matches the same, moved.
pub proof fn lemma_string_moves(before: Seq<char>, text: Seq<char>, at: int)
    requires
        0 <= at <= text.len(),
    ensures
        spec_string(before + text, before.len() + at)
            == spec_string(text, at).moved(before.len(), bytes_of(before)),
        spec_string(text, at).within(text, at),
        spec_string(text, at).tree is Some ==> spec_string(text, at).end > at,
{
    reveal(spec_string);
    let longer = before + text;
    let there = before.len() + at;
    let c = Cursor::start(at);
    let d = Cursor::start(there);
    lemma_plain_steps_move(before, c, 0);
    assert(d == c.moved(before.len(), bytes_of(before)));
    let after = {
        let first = c;
        lemma_string_raw_moves(before, text, first.pos);
        let found = spec_string_raw(text, first.pos);
        lemma_attach_moves(before, Cursor::start(first.pos), found, Slot::StringRaw);
        let alt = Cursor::start(first.pos).attach(found, Slot::StringRaw);
        lemma_join_moves(before, c, alt);
        lemma_plain_steps_move(before, c, alt.far);
        let c = c.note(alt.far);
        lemma_string_normal_moves(before, text, first.pos);
        let found = spec_string_normal(text, first.pos);
        lemma_attach_moves(before, Cursor::start(first.pos), found, Slot::StringNormal);
        let alt = Cursor::start(first.pos).attach(found, Slot::StringNormal);
        lemma_join_moves(before, c, alt);
        lemma_plain_steps_move(before, c, alt.far);
        let c = c.note(alt.far);
        c
    };
    lemma_plain_steps_move(before, after, 0);
    let c = if !c.ok {
        c
    } else {
        let alt = Cursor::start(c.pos).attach(spec_string_raw(text, c.pos), Slot::StringRaw);
        if alt.ok {
            c.join(alt)
        } else {
            let c = c.note(alt.far);
            let alt = Cursor::start(c.pos).attach(
                spec_string_normal(text, c.pos),
                Slot::StringNormal,
            );
            if alt.ok {
                c.join(alt)
            } else {
                c.note(alt.far).halt()
            }
        }
    };
    let d = if !d.ok {
        d
    } else {
        let alt = Cursor::start(d.pos).attach(spec_string_raw(longer, d.pos), Slot::StringRaw);
        if alt.ok {
            d.join(alt)
        } else {
            let d = d.note(alt.far);
            let alt = Cursor::start(d.pos).attach(
                spec_string_normal(longer, d.pos),
                Slot::StringNormal,
            );
            if alt.ok {
                d.join(alt)
            } else {
                d.note(alt.far).halt()
            }
        }
    };
    assert(d == c.moved(before.len(), bytes_of(before)));
    lemma_finish_moves(before, text, c, LifeRestartRule::String, at);
}

/// What the rule `StringRaw` matches does not depend on the text before it:
/// further on in a longer text, it matches the same, moved.
pub proof fn lemma_string_raw_moves(before: Seq<char>, text: Seq<char>, at: int)
    requires
        0 <= at <= text.len(),
    ensures
        spec_string_raw(before + text, before.len() + at)
            == spec_string_raw(text, at).moved(before.len(), bytes_of(before)),
        spec_string_raw(text, at).within(text, at),
        spec_string_raw(text, at).tree is Some ==> spec_string_raw(text, at).end > at,
{
    reveal(spec_string_raw);
    let longer = before + text;
    let there = before.len() + at;
    let c = Cursor::start(at);
    let d = Cursor::start(there);
    lemma_plain_steps_move(before, c, 0);
    assert(d == c.moved(before.len(), bytes_of(before)));
    lemma_word_moves(before, text, c, "'"@);
    let c = c.word(text, "'"@);
    let d = d.word(longer, "'"@);
    assert(d == c.moved(before.len(), bytes_of(before)));
    lemma_lexical_moves(before, text, c.pos);
    let found = spec_string_raw_text(text, c.pos);
    let found_there = spec_string_raw_text(longer, d.pos);
    assert(c.ok ==> found_there == found.moved(before.len(), bytes_of(before)));
    lemma_attach_moves(before, c, found, Slot::StringRawText);
    let d = d.attach(found_there, Slot::StringRawText);
    let c = c.attach(found, Slot::StringRawText);
    assert(d == c.moved(before.len(), bytes_of(before)));
    lemma_word_moves(before, text, c, "'"@);
    let c = c.word(text, "'"@);
    let d = d.word(longer, "'"@);
    assert(d == c.moved(before.len(), bytes_of(before)));
    lemma_finish_moves(before, text, c, LifeRestartRule::StringRaw, at);
}

/// What `StringItem#string_item` matches does not depend on the text before it.
pub proof fn lemma_string_normal_item_moves(before: Seq<char>, text: Seq<char>, at: int)
    requires
        0 <= at <= text.len(),
    ensures
        spec_string_normal_item(before + text, before.len() + at)
            == spec_string_normal_item(text, at).moved(before.len(), bytes_of(before)),
        spec_string_normal_item(text, at).within(text, at),
        spec_string_normal_item(text, at).ok ==> spec_string_normal_item(text, at).pos > at,
{
    reveal(spec_string_normal_item);
    let longer = before + text;
    let there = before.len() + at;
    let c = Cursor::start(at);
    let d = Cursor::start(there);
    lemma_plain_steps_move(before, c, 0);
    assert(d == c.moved(before.len(), bytes_of(before)));
    lemma_string_item_moves(before, text, c.pos);
    let found = spec_string_item(text, c.pos);
    let found_there = spec_string_item(longer, d.pos);
    assert(c.ok ==> found_there == found.moved(before.len(), bytes_of(before)));
    lemma_attach_moves(before, c, found, Slot::StringItem);
    let d = d.attach(found_there, Slot::StringItem);
    let c = c.attach(found, Slot::StringItem);
    assert(d == c.moved(before.len(), bytes_of(before)));
}

/// What `(StringItem#string_item)*` matches does not depend on the text before
/// it.
#[verifier::rlimit(50)]
pub proof fn lemma_string_normal_items_moves(before: Seq<char>, text: Seq<char>, from: Cursor)
    requires
        0 <= from.pos <= text.len(),
        from.far <= text.len(),
    ensures
        spec_string_normal_items(before + text, from.moved(before.len(), bytes_of(before)))
            == spec_string_normal_items(text, from).moved(before.len(), bytes_of(before)),
        from.pos <= spec_string_normal_items(text, from).pos <= text.len(),
        from.far <= spec_string_normal_items(text, from).far <= text.len(),
        spec_string_normal_items(text, from).ok == from.ok,
    decreases text.len() - from.pos,
{
    if from.ok {
        lemma_string_normal_item_moves(before, text, from.pos);
        let step = spec_string_normal_item(text, from.pos);
        lemma_plain_steps_move(before, from, step.far);
        if step.ok && from.pos < step.pos <= text.len() {
            lemma_join_moves(before, from, step);
            lemma_string_normal_items_moves(before, text, from.join(step));
        }
    }
}

/// What the rule `StringNormal` matches does not depend on the text before it:
/// further on in a longer text, it matches the same, moved.
#[verifier::rlimit(50)]
pub proof fn lemma_string_normal_moves(before: Seq<char>, text: Seq<char>, at: int)
    requires
        0 <= at <= text.len(),
    ensures
        spec_string_normal(before + text, before.len() + at)
            == spec_string_normal(text, at).moved(before.len(), bytes_of(before)),
        spec_string_normal(text, at).within(text, at),
        spec_string_normal(text, at).tree is Some ==> spec_string_normal(text, at).end > at,
{
    reveal(spec_string_normal);
    let longer = before + text;
    let there = before.len() + at;
    let c = Cursor::start(at);
    let d = Cursor::start(there);
    lemma_plain_steps_move(before, c, 0);
    assert(d == c.moved(before.len(), bytes_of(before)));
    lemma_word_moves(before, text, c, "\""@);
    let c = c.word(text, "\""@);
    let d = d.word(longer, "\""@);
    assert(d == c.moved(before.len(), bytes_of(before)));
    if c.ok {
        lemma_string_normal_items_moves(before, text, c);
    } else {
        reveal(spec_string_normal_items);
    }
    let c = spec_string_normal_items(text, c);
    let d = spec_string_normal_items(longer, d);
    assert(d == c.moved(before.len(), bytes_of(before)));
    lemma_word_moves(before, text, c, "\""@);
    let c = c.word(text, "\""@);
    let d = d.word(longer, "\""@);
    assert(d == c.moved(before.len(), bytes_of(before)));
    lemma_finish_moves(before, text, c, LifeRestartRule::StringNormal, at);
}

/// What the rule `StringItem` matches does not depend on the text before it:
/// further on in a longer text, it matches the same, moved.
pub proof fn lemma_string_item_moves(before: Seq<char>, text: Seq<char>, at: int)
    requires
        0 <= at <= text.len(),
    ensures
        spec_string_item(before + text, before.len() + at)
            == spec_string_item(text, at).moved(before.len(), bytes_of(before)),
        spec_string_item(text, at).within(text, at),
        spec_string_item(text, at).tree is Some ==> spec_string_item(text, at).end > at,
{
    reveal(spec_string_item);
    let longer = before + text;
    let there = before.len() + at;
    let c = Cursor::start(at);
    let d = Cursor::start(there);
    lemma_plain_steps_move(before, c, 0);
    assert(d == c.moved(before.len(), bytes_of(before)));
    let after = {
        let first = c;
        lemma_escaped_unicode_moves(before, text, first.pos);
        let found = spec_escaped_unicode(text, first.pos);
        lemma_attach_moves(before, Cursor::start(first.pos), found, Slot::EscapedUnicode);
        let alt = Cursor::start(first.pos).attach(found, Slot::EscapedUnicode);
        lemma_join_moves(before, c, alt);
        lemma_plain_steps_move(before, c, alt.far);
        let c = c.note(alt.far);
        lemma_lexical_moves(before, text, first.pos);
        let found = spec_escaped_character(text, first.pos);
        lemma_attach_moves(before, Cursor::start(first.pos), found, Slot::EscapedCharacter);
        let alt = Cursor::start(first.pos).attach(found, Slot::EscapedCharacter);
        lemma_join_moves(before, c, alt);
        lemma_plain_steps_move(before, c, alt.far);
        let c = c.note(alt.far);
        lemma_lexical_moves(before, text, first.pos);
        let found = spec_text_any(text, first.pos);
        lemma_attach_moves(before, Cursor::start(first.pos), found, Slot::TextAny);
        let alt = Cursor::start(first.pos).attach(found, Slot::TextAny);
        lemma_join_moves(before, c, alt);
        lemma_plain_steps_move(before, c, alt.far);
        let c = c.note(alt.far);
        c
    };
    lemma_plain_steps_move(before, after, 0);
    let c = if !c.ok {
        c
    } else {
        let alt = Cursor::start(c.pos).attach(
            spec_escaped_unicode(text, c.pos),
            Slot::EscapedUnicode,
        );
        if alt.ok {
            c.join(alt)
        } else {
            let c = c.note(alt.far);
            let alt = Cursor::start(c.pos).attach(
                spec_escaped_character(text, c.pos),
                Slot::EscapedCharacter,
            );
            if alt.ok {
                c.join(alt)
            } else {
                let c = c.note(alt.far);
                let alt = Cursor::start(c.pos).attach(spec_text_any(text, c.pos), Slot::TextAny);
                if alt.ok {
                    c.join(alt)
                } else {
                    c.note(alt.far).halt()
                }
            }
        }
    };
    let d = if !d.ok {
        d
    } else {
        let alt = Cursor::start(d.pos).attach(
            spec_escaped_unicode(longer, d.pos),
            Slot::EscapedUnicode,
        );
        if alt.ok {
            d.join(alt)
        } else {
            let d = d.note(alt.far);
            let alt = Cursor::start(d.pos).attach(
                spec_escaped_character(longer, d.pos),
                Slot::EscapedCharacter,
            );
            if alt.ok {
                d.join(alt)
            } else {
                let d = d.note(alt.far);
                let alt = Cursor::start(d.pos).attach(spec_text_any(longer, d.pos), Slot::TextAny);
                if alt.ok {
                    d.join(alt)
                } else {
                    d.note(alt.far).halt()
                }
            }
        }
    };
    assert(d == c.moved(before.len(), bytes_of(before)));
    lemma_finish_moves(before, text, c, LifeRestartRule::StringItem, at);
}

/// What the rule `EscapedUnicode` matches does not depend on the text before
/// it: further on in a longer text, it matches the same, moved.
pub proof fn lemma_escaped_unicode_moves(before: Seq<char>, text: Seq<char>, at: int)
    requires
        0 <= at <= text.len(),
    ensures
        spec_escaped_unicode(before + text, before.len() + at)
            == spec_escaped_unicode(text, at).moved(before.len(), bytes_of(before)),
        spec_escaped_unicode(text, at).within(text, at),
        spec_escaped_unicode(text, at).tree is Some ==> spec_escaped_unicode(text, at).end > at,
{
    reveal(spec_escaped_unicode);
    let longer = before + text;
    let there = before.len() + at;
    let c = Cursor::start(at);
    let d = Cursor::start(there);
    lemma_plain_steps_move(before, c, 0);
    assert(d == c.moved(before.len(), bytes_of(before)));
    lemma_word_moves(before, text, c, "\\u{"@);
    let c = c.word(text, "\\u{"@);
    let d = d.word(longer, "\\u{"@);
    assert(d == c.moved(before.len(), bytes_of(before)));
    lemma_lexical_moves(before, text, c.pos);
    let found = spec_hex(text, c.pos);
    let found_there = spec_hex(longer, d.pos);
    assert(c.ok ==> found_there == found.moved(before.len(), bytes_of(before)));
    lemma_attach_moves(before, c, found, Slot::Hex);
    let d = d.attach(found_there, Slot::Hex);
    let c = c.attach(found, Slot::Hex);
    assert(d == c.moved(before.len(), bytes_of(before)));
    lemma_word_moves(before, text, c, "}"@);
    let c = c.word(text, "}"@);
    let d = d.word(longer, "}"@);
    assert(d == c.moved(before.len(), bytes_of(before)));
    lemma_finish_moves(before, text, c, LifeRestartRule::EscapedUnicode, at);
}

/// What the rule `Boolean` matches does not depend on the text before it:
/// further on in a longer text, it matches the same, moved.
pub proof fn lemma_boolean_moves(before: Seq<char>, text: Seq<char>, at: int)
    requires
        0 <= at <= text.len(),
    ensures
        spec_boolean(before + text, before.len() + at)
            == spec_boolean(text, at).moved(before.len(), bytes_of(before)),
        spec_boolean(text, at).within(text, at),
        spec_boolean(text, at).tree is Some ==> spec_boolean(text, at).end > at,
{
    reveal(spec_boolean);
    let longer = before + text;
    let there = before.len() + at;
    let c = Cursor::start(at);
    let d = Cursor::start(there);
    lemma_plain_steps_move(before, c, 0);
    assert(d == c.moved(before.len(), bytes_of(before)));
    let after = {
        let first = c;
        lemma_mark_true_moves(before, text, first.pos);
        let found = spec_mark_true(text, first.pos);
        lemma_attach_moves(before, Cursor::start(first.pos), found, Slot::True);
        let alt = Cursor::start(first.pos).attach(found, Slot::True);
        lemma_join_moves(before, c, alt);
        lemma_plain_steps_move(before, c, alt.far);
        let c = c.note(alt.far);
        lemma_mark_false_moves(before, text, first.pos);
        let found = spec_mark_false(text, first.pos);
        lemma_attach_moves(before, Cursor::start(first.pos), found, Slot::False);
        let alt = Cursor::start(first.pos).attach(found, Slot::False);
        lemma_join_moves(before, c, alt);
        lemma_plain_steps_move(before, c, alt.far);
        let c = c.note(alt.far);
        c
    };
    lemma_plain_steps_move(before, after, 0);
    let c = if !c.ok {
        c
    } else {
        let alt = Cursor::start(c.pos).attach(spec_mark_true(text, c.pos), Slot::True);
        if alt.ok {
            c.join(alt)
        } else {
            let c = c.note(alt.far);
            let alt = Cursor::start(c.pos).attach(spec_mark_false(text, c.pos), Slot::False);
            if alt.ok {
                c.join(alt)
            } else {
                c.note(alt.far).halt()
            }
        }
    };
    let d = if !d.ok {
        d
    } else {
        let alt = Cursor::start(d.pos).attach(spec_mark_true(longer, d.pos), Slot::True);
        if alt.ok {
            d.join(alt)
        } else {
            let d = d.note(alt.far);
            let alt = Cursor::start(d.pos).attach(spec_mark_false(longer, d.pos), Slot::False);
            if alt.ok {
                d.join(alt)
            } else {
                d.note(alt.far).halt()
            }
        }
    };
    assert(d == c.moved(before.len(), bytes_of(before)));
    lemma_finish_moves(before, text, c, LifeRestartRule::Boolean, at);
}

/// What a rule of the grammar matches does not depend on the text before
/// it: tried further on in a longer text, the rule matches the same, with
/// every position moved by the characters and every span by the bytes of
/// what was put before.
#[verifier::rlimit(100)]
pub proof fn lemma_rule_moves(before: Seq<char>, text: Seq<char>, rule: LifeRestartRule, at: int)
    requires
        0 <= at <= text.len(),
    ensures
        spec_rule(before + text, rule, before.len() + at)
            == spec_rule(text, rule, at).moved(before.len(), bytes_of(before)),
        spec_rule(text, rule, at).within(text, at),
{
    match rule {
        LifeRestartRule::Root => {
            lemma_root_moves(before, text, at);
        },
        LifeRestartRule::TopStatement => {
            lemma_top_statement_moves(before, text, at);
        },
        LifeRestartRule::EOS => {
            lemma_eos_moves(before, text, at);
        },
        LifeRestartRule::PropertyStatement => {
            lemma_property_statement_moves(before, text, at);
        },
        LifeRestartRule::PropertyItem => {
            lemma_property_item_moves(before, text, at);
        },
        LifeRestartRule::EnumerateStatement => {
            lemma_enumerate_statement_moves(before, text, at);
        },
        LifeRestartRule::OptionStatement => {
            lemma_option_statement_moves(before, text, at);
        },
        LifeRestartRule::OptionItem => {
            lemma_option_item_moves(before, text, at);
        },
        LifeRestartRule::TraitGroup => {
            lemma_trait_group_moves(before, text, at);
        },
        LifeRestartRule::TraitStatement => {
            lemma_trait_statement_moves(before, text, at);
        },
        LifeRestartRule::TraitItem => {
            lemma_trait_item_moves(before, text, at);
        },
        LifeRestartRule::TraitProperty => {
            lemma_trait_property_moves(before, text, at);
        },
        LifeRestartRule::RequirementStatement => {
            lemma_requirement_statement_moves(before, text, at);
        },
        LifeRestartRule::EffectStatement => {
            lemma_effect_statement_moves(before, text, at);
        },
        LifeRestartRule::EventGroup => {
            lemma_event_group_moves(before, text, at);
        },
        LifeRestartRule::EventStatement => {
            lemma_event_statement_moves(before, text, at);
        },
        LifeRestartRule::EventItem => {
            lemma_event_item_moves(before, text, at);
        },
        LifeRestartRule::EventProperty => {
            lemma_event_property_moves(before, text, at);
        },
        LifeRestartRule::IdStatement => {
            lemma_id_statement_moves(before, text, at);
        },
        LifeRestartRule::DescriptionStatement => {
            lemma_description_statement_moves(before, text, at);
        },
        LifeRestartRule::Statement => {
            lemma_statement_moves(before, text, at);
        },
        LifeRestartRule::IfStatement => {
            lemma_if_statement_moves(before, text, at);
        },
        LifeRestartRule::IfThenBlock => {
            lemma_if_then_block_moves(before, text, at);
        },
        LifeRestartRule::IfElseIfBlock => {
            lemma_if_else_if_block_moves(before, text, at);
        },
        LifeRestartRule::IfElseBlock => {
            lemma_if_else_block_moves(before, text, at);
        },
        LifeRestartRule::Expression => {
            lemma_expression_moves(before, text, at);
        },
        LifeRestartRule::Term => {
            lemma_term_moves(before, text, at);
        },
        LifeRestartRule::Prefix => {
            lemma_prefix_moves(before, text, at);
        },
        LifeRestartRule::Infix => {
            lemma_infix_moves(before, text, at);
        },
        LifeRestartRule::Suffix => {
            lemma_suffix_moves(before, text, at);
        },
        LifeRestartRule::Atomic => {
            lemma_atomic_moves(before, text, at);
        },
        LifeRestartRule::List => {
            lemma_list_moves(before, text, at);
        },
        LifeRestartRule::String => {
            lemma_string_moves(before, text, at);
        },
        LifeRestartRule::StringRaw => {
            lemma_string_raw_moves(before, text, at);
        },
        LifeRestartRule::StringRawText => {
            lemma_lexical_moves(before, text, at);
        },
        LifeRestartRule::StringNormal => {
            lemma_string_normal_moves(before, text, at);
        },
        LifeRestartRule::StringItem => {
            lemma_string_item_moves(before, text, at);
        },
        LifeRestartRule::EscapedUnicode => {
            lemma_escaped_unicode_moves(before, text, at);
        },
        LifeRestartRule::EscapedCharacter => {
            lemma_lexical_moves(before, text, at);
        },
        LifeRestartRule::HEX => {
            lemma_lexical_moves(before, text, at);
        },
        LifeRestartRule::TextAny => {
            lemma_lexical_moves(before, text, at);
        },
        LifeRestartRule::Identifier => {
            lemma_lexical_moves(before, text, at);
        },
        LifeRestartRule::Integer => {
            lemma_lexical_moves(before, text, at);
        },
        LifeRestartRule::Boolean => {
            lemma_boolean_moves(before, text, at);
        },
        LifeRestartRule::COMMA => {
            lemma_comma_moves(before, text, at);
        },
        LifeRestartRule::COLON => {
            lemma_colon_moves(before, text, at);
        },
        LifeRestartRule::KW_PROPERTY => {
            lemma_kw_property_moves(before, text, at);
        },
        LifeRestartRule::KW_TRAIT_GROUP => {
            lemma_kw_trait_group_moves(before, text, at);
        },
        LifeRestartRule::KW_TRAIT => {
            lemma_kw_trait_moves(before, text, at);
        },
        LifeRestartRule::KW_EVENT_GROUP => {
            lemma_kw_event_group_moves(before, text, at);
        },
        LifeRestartRule::KW_EVENT => {
            lemma_kw_event_moves(before, text, at);
        },
        LifeRestartRule::KW_ID => {
            lemma_kw_id_moves(before, text, at);
        },
        LifeRestartRule::KW_DESCRIPTION => {
            lemma_kw_description_moves(before, text, at);
        },
        LifeRestartRule::KW_REQUIREMENT => {
            lemma_kw_requirement_moves(before, text, at);
        },
        LifeRestartRule::KW_EFFECT => {
            lemma_kw_effect_moves(before, text, at);
        },
        LifeRestartRule::KW_ENUMERATE => {
            lemma_kw_enumerate_moves(before, text, at);
        },
        LifeRestartRule::KW_OPTIONS => {
            lemma_kw_options_moves(before, text, at);
        },
        LifeRestartRule::KW_IF => {
            lemma_kw_if_moves(before, text, at);
        },
        LifeRestartRule::KW_ELSE_IF => {
            lemma_kw_else_if_moves(before, text, at);
        },
        LifeRestartRule::KW_ELSE => {
            lemma_kw_else_moves(before, text, at);
        },
        LifeRestartRule::WhiteSpace => {
            lemma_lexical_moves(before, text, at);
        },
        LifeRestartRule::Comment => {
            lemma_lexical_moves(before, text, at);
        },
        LifeRestartRule::HiddenText => {},
    }
}

/// True when every character of `gap` is white space.
pub open spec fn is_blank(gap: Seq<char>) -> bool {
    forall|at: int| 0 <= at < gap.len() ==> white_space(#[trigger] gap[at])
}

/// A run of white space grows by the white space that is put before it.
pub proof fn lemma_blank_run_grows(gap: Seq<char>, text: Seq<char>, at: int)
    requires
        is_blank(gap),
        0 <= at <= gap.len(),
    ensures
        run(gap + text, at, CharClass::Blank) == gap.len() - at + run(text, 0, CharClass::Blank),
    decreases gap.len() - at,
{
    if at < gap.len() {
        assert((gap + text)[at] == gap[at]);
        lemma_blank_run_grows(gap, text, at + 1);
    } else {
        lemma_run_moves(gap, text, 0, CharClass::Blank);
    }
}

/// White space before a text is skipped with the trivia at the start of the
/// text.
pub proof fn lemma_blank_is_skipped(gap: Seq<char>, text: Seq<char>)
    requires
        is_blank(gap),
    ensures
        trivia_len(gap + text, 0) == gap.len() + trivia_len(text, 0),
        trivia_len(text, 0) <= text.len(),
{
    reveal(trivia_len);
    let longer = gap + text;
    lemma_trivia_moves(gap, text, 0);
    if gap.len() > 0 {
        lemma_blank_run_grows(gap, text, 0);
        lemma_run(text, 0, CharClass::Blank);
        let found = run(text, 0, CharClass::Blank);
        lemma_trivia_moves(gap, text, found as int);
        lemma_trivia_piece_moves(gap, text, 0);
        assert(trivia_piece_len(longer, 0) == Some(gap.len() + found));
    } else {
        assert(gap + text =~= text);
    }
}

/// True when `longer`, the result of a rule in a text with `gap` put
/// before it, differs from `alone`, the result in the text alone, by spans
/// only. The rule matches or fails in both; its node starts at the start of
/// the longer text and is otherwise the node of the text alone, moved by
/// the gap, with the same rules, slots and texts in the same order; and the
/// farthest failure moves with it.
pub open spec fn only_spans_differ(longer: Outcome, alone: Outcome, gap: Seq<char>) -> bool {
    &&& longer.tree is Some <==> alone.tree is Some
    &&& longer.far == alone.far + gap.len()
    &&& alone.tree matches Some(tree) ==> {
        &&& longer.end == alone.end + gap.len()
        &&& longer.tree == Some(CstTree { start: 0, ..tree.moved(bytes_of(gap)) })
    }
}

/// Trivia before a whole source changes only spans, where the gap is
/// skipped together with the trivia at the start of the source.
pub proof fn lemma_leading_trivia_changes_only_spans(gap: Seq<char>, text: Seq<char>)
    requires
        trivia_len(gap + text, 0) == gap.len() + trivia_len(text, 0),
    ensures
        only_spans_differ(spec_root(gap + text, 0), spec_root(text, 0), gap),
{
    reveal(spec_root);
    reveal(spec_root_item);
    let longer = gap + text;
    let chars = gap.len();
    let bytes = bytes_of(gap);
    lemma_trivia_moves(gap, text, 0);
    let skipped = trivia_len(text, 0) as int;
    lemma_top_statement_moves(gap, text, skipped);
    let c = Cursor::start(0);
    lemma_plain_steps_move(gap, c, 0);
    // the first statement
    let found = spec_top_statement(text, skipped);
    lemma_attach_moves(gap, c.trivia(text), found, Slot::TopStatement);
    let step = spec_root_item(text, 0);
    let step_there = spec_root_item(longer, 0);
    assert(step_there == step.moved(chars, bytes));
    // the statements after it
    let (after, after_there) = if step.ok && 0 < step.pos <= text.len() {
        lemma_join_moves(gap, c, step);
        assert(c.join(step_there) == c.join(step).moved(chars, bytes));
        lemma_root_items_moves(gap, text, c.join(step));
        (spec_root_items(text, c.join(step)), spec_root_items(longer, c.join(step_there)))
    } else {
        (c.note(step.far), c.note(step_there.far))
    };
    assert(after == spec_root_items(text, c));
    assert(after_there == spec_root_items(longer, c));
    assert(after_there.kids == moved_all(after.kids, bytes));
    assert(after_there.far == after.far + chars);
    assert(after_there.ok == after.ok);
    // the trivia at the end and the end of the text
    if step.ok && 0 < step.pos <= text.len() {
        assert(after_there == after.moved(chars, bytes));
        lemma_skip_moves(gap, text, after);
    } else {
        assert(after.trivia(text).pos == skipped);
        assert(after_there.trivia(longer).pos == skipped + chars);
    }
    let last = after.trivia(text);
    let last_there = after_there.trivia(longer);
    assert(last_there == last.moved(chars, bytes));
    lemma_end_moves(gap, text, last);
    let end = last.end_of_input(text);
    let end_there = last_there.end_of_input(longer);
    assert(end_there == end.moved(chars, bytes));
    if end.ok {
        lemma_offset_moves(gap, text, end.pos);
        lemma_offset_moves(gap, text, 0);
        assert(longer.take(0) =~= Seq::<char>::empty());
        assert(text.take(0) =~= Seq::<char>::empty());
        let tree = end.finish(text, LifeRestartRule::Root, 0).tree->0;
        lemma_moved_is_tree(tree, bytes);
    }
}

/// White space before a whole source changes only spans.
pub proof fn lemma_leading_blank_changes_only_spans(gap: Seq<char>, text: Seq<char>)
    requires
        is_blank(gap),
    ensures
        only_spans_differ(spec_root(gap + text, 0), spec_root(text, 0), gap),
{
    lemma_blank_is_skipped(gap, text);
    lemma_leading_trivia_changes_only_spans(gap, text);
}

/// Trivia before a whole source changes only spans in what parsing gives,
/// where the gap is skipped together with the trivia at the start of the
/// source, as white space is. The source is accepted behind the gap exactly
/// when it is accepted alone. Where it is, the tree starts at the start of
/// the longer text and is otherwise the tree of the source alone with every
/// span moved by the bytes of the gap: the same rules, slots and texts in
/// the same order. Where it is not, the place of the failure moves by the
/// bytes of the gap.
pub proof fn lemma_leading_trivia_parses_the_same(gap: Seq<char>, text: Seq<char>)
    requires
        is_blank(gap) || trivia_len(gap + text, 0) == gap.len() + trivia_len(text, 0),
    ensures
        match spec_parse_cst(text, LifeRestartRule::Root) {
            Ok(alone) => spec_parse_cst(gap + text, LifeRestartRule::Root) == Ok::<CstTree, nat>(
                CstTree { start: 0, ..alone.moved(bytes_of(gap)) },
            ),
            Err(at) => spec_parse_cst(gap + text, LifeRestartRule::Root) == Err::<CstTree, nat>(
                at + bytes_of(gap),
            ),
        },
{
    if is_blank(gap) {
        lemma_blank_is_skipped(gap, text);
    }
    lemma_leading_trivia_changes_only_spans(gap, text);
    lemma_root_moves(gap, text, 0);
    let alone = spec_root(text, 0);
    assert(spec_rule(text, LifeRestartRule::Root, 0) == alone);
    assert(spec_rule(gap + text, LifeRestartRule::Root, 0) == spec_root(gap + text, 0));
    lemma_offset_moves(gap, text, alone.far);
}

} // verus!
