//! The keywords, the punctuation and the operator marks of the language, each
//! a small fixed set of literal alternatives in two languages. The first
//! alternative that stands at the cursor wins.

use crate::syntax::cursor::{no_token, starts_with, token, word_token, Match, Outcome};
use crate::syntax::rule::LifeRestartRule;
use crate::syntax::source::Source;
use vstd::prelude::*;

verus! {

/// The length of the rule `EOS` at index `at`: `;`, where it stands there.
pub open spec fn eos_len(text: Seq<char>, at: int) -> Option<nat> {
    if starts_with(text, at, ";"@) {
        Some(";"@.len())
    } else {
        None
    }
}

/// The result of the rule `EOS` at index `at`.
#[verifier::opaque]
pub open spec fn spec_eos(text: Seq<char>, at: int) -> Outcome {
    token(text, LifeRestartRule::EOS, at, eos_len(text, at))
}

/// The rule `EOS` builds a node without children.
pub proof fn lemma_eos_leaf(text: Seq<char>, at: int)
    ensures
        spec_eos(text, at).tree matches Some(tree) ==> tree.children.len() == 0,
{
    reveal(spec_eos);
}

/// Match the rule `EOS` at index `at`.
pub fn parse_eos(source: &Source, at: usize) -> (found: Match)
    requires
        at <= source@.len(),
    ensures
        found@ == spec_eos(source@, at as int),
        found@.within(source@, at as int),
        found@.tree is Some ==> found@.end > at,
{
    proof {
        reveal(spec_eos);
    }
    match word_token(source, LifeRestartRule::EOS, at, ";") {
        Some(found) => {
            return found;
        },
        None => {},
    }
    no_token(source, LifeRestartRule::EOS, at)
}

/// The length of the rule `COMMA` at index `at`: `,`, where it stands there.
pub open spec fn comma_len(text: Seq<char>, at: int) -> Option<nat> {
    if starts_with(text, at, ","@) {
        Some(","@.len())
    } else {
        None
    }
}

/// The result of the rule `COMMA` at index `at`.
#[verifier::opaque]
pub open spec fn spec_comma(text: Seq<char>, at: int) -> Outcome {
    token(text, LifeRestartRule::COMMA, at, comma_len(text, at))
}

/// The rule `COMMA` builds a node without children.
pub proof fn lemma_comma_leaf(text: Seq<char>, at: int)
    ensures
        spec_comma(text, at).tree matches Some(tree) ==> tree.children.len() == 0,
{
    reveal(spec_comma);
}

/// Match the rule `COMMA` at index `at`.
pub fn parse_comma(source: &Source, at: usize) -> (found: Match)
    requires
        at <= source@.len(),
    ensures
        found@ == spec_comma(source@, at as int),
        found@.within(source@, at as int),
        found@.tree is Some ==> found@.end > at,
{
    proof {
        reveal(spec_comma);
    }
    match word_token(source, LifeRestartRule::COMMA, at, ",") {
        Some(found) => {
            return found;
        },
        None => {},
    }
    no_token(source, LifeRestartRule::COMMA, at)
}

/// The length of the rule `COLON` at index `at`: `:`, where it stands there.
pub open spec fn colon_len(text: Seq<char>, at: int) -> Option<nat> {
    if starts_with(text, at, ":"@) {
        Some(":"@.len())
    } else {
        None
    }
}

/// The result of the rule `COLON` at index `at`.
#[verifier::opaque]
pub open spec fn spec_colon(text: Seq<char>, at: int) -> Outcome {
    token(text, LifeRestartRule::COLON, at, colon_len(text, at))
}

/// The rule `COLON` builds a node without children.
pub proof fn lemma_colon_leaf(text: Seq<char>, at: int)
    ensures
        spec_colon(text, at).tree matches Some(tree) ==> tree.children.len() == 0,
{
    reveal(spec_colon);
}

/// Match the rule `COLON` at index `at`.
pub fn parse_colon(source: &Source, at: usize) -> (found: Match)
    requires
        at <= source@.len(),
    ensures
        found@ == spec_colon(source@, at as int),
        found@.within(source@, at as int),
        found@.tree is Some ==> found@.end > at,
{
    proof {
        reveal(spec_colon);
    }
    match word_token(source, LifeRestartRule::COLON, at, ":") {
        Some(found) => {
            return found;
        },
        None => {},
    }
    no_token(source, LifeRestartRule::COLON, at)
}

/// The length of the rule `KW_PROPERTY` at index `at`: the first of `属性`,
/// `property` that stands there.
pub open spec fn kw_property_len(text: Seq<char>, at: int) -> Option<nat> {
    if starts_with(text, at, "属性"@) {
        Some("属性"@.len())
    } else if starts_with(text, at, "property"@) {
        Some("property"@.len())
    } else {
        None
    }
}

/// The result of the rule `KW_PROPERTY` at index `at`.
#[verifier::opaque]
pub open spec fn spec_kw_property(text: Seq<char>, at: int) -> Outcome {
    token(text, LifeRestartRule::KW_PROPERTY, at, kw_property_len(text, at))
}

/// The rule `KW_PROPERTY` builds a node without children.
pub proof fn lemma_kw_property_leaf(text: Seq<char>, at: int)
    ensures
        spec_kw_property(text, at).tree matches Some(tree) ==> tree.children.len() == 0,
{
    reveal(spec_kw_property);
}

/// Match the rule `KW_PROPERTY` at index `at`.
pub fn parse_kw_property(source: &Source, at: usize) -> (found: Match)
    requires
        at <= source@.len(),
    ensures
        found@ == spec_kw_property(source@, at as int),
        found@.within(source@, at as int),
        found@.tree is Some ==> found@.end > at,
{
    proof {
        reveal(spec_kw_property);
    }
    match word_token(source, LifeRestartRule::KW_PROPERTY, at, "属性") {
        Some(found) => {
            return found;
        },
        None => {},
    }
    match word_token(source, LifeRestartRule::KW_PROPERTY, at, "property") {
        Some(found) => {
            return found;
        },
        None => {},
    }
    no_token(source, LifeRestartRule::KW_PROPERTY, at)
}

/// The length of the rule `KW_TRAIT_GROUP` at index `at`: the first of `特质组`,
/// `特征组`, `天赋组`, `trait-group`, `talent-group`, `traits`, `talents` that stands
/// there.
pub open spec fn kw_trait_group_len(text: Seq<char>, at: int) -> Option<nat> {
    if starts_with(text, at, "特质组"@) {
        Some("特质组"@.len())
    } else if starts_with(text, at, "特征组"@) {
        Some("特征组"@.len())
    } else if starts_with(text, at, "天赋组"@) {
        Some("天赋组"@.len())
    } else if starts_with(text, at, "trait-group"@) {
        Some("trait-group"@.len())
    } else if starts_with(text, at, "talent-group"@) {
        Some("talent-group"@.len())
    } else if starts_with(text, at, "traits"@) {
        Some("traits"@.len())
    } else if starts_with(text, at, "talents"@) {
        Some("talents"@.len())
    } else {
        None
    }
}

/// The result of the rule `KW_TRAIT_GROUP` at index `at`.
#[verifier::opaque]
pub open spec fn spec_kw_trait_group(text: Seq<char>, at: int) -> Outcome {
    token(text, LifeRestartRule::KW_TRAIT_GROUP, at, kw_trait_group_len(text, at))
}

/// The rule `KW_TRAIT_GROUP` builds a node without children.
pub proof fn lemma_kw_trait_group_leaf(text: Seq<char>, at: int)
    ensures
        spec_kw_trait_group(text, at).tree matches Some(tree) ==> tree.children.len() == 0,
{
    reveal(spec_kw_trait_group);
}

/// Match the rule `KW_TRAIT_GROUP` at index `at`.
pub fn parse_kw_trait_group(source: &Source, at: usize) -> (found: Match)
    requires
        at <= source@.len(),
    ensures
        found@ == spec_kw_trait_group(source@, at as int),
        found@.within(source@, at as int),
        found@.tree is Some ==> found@.end > at,
{
    proof {
        reveal(spec_kw_trait_group);
    }
    match word_token(source, LifeRestartRule::KW_TRAIT_GROUP, at, "特质组") {
        Some(found) => {
            return found;
        },
        None => {},
    }
    match word_token(source, LifeRestartRule::KW_TRAIT_GROUP, at, "特征组") {
        Some(found) => {
            return found;
        },
        None => {},
    }
    match word_token(source, LifeRestartRule::KW_TRAIT_GROUP, at, "天赋组") {
        Some(found) => {
            return found;
        },
        None => {},
    }
    match word_token(source, LifeRestartRule::KW_TRAIT_GROUP, at, "trait-group") {
        Some(found) => {
            return found;
        },
        None => {},
    }
    match word_token(source, LifeRestartRule::KW_TRAIT_GROUP, at, "talent-group") {
        Some(found) => {
            return found;
        },
        None => {},
    }
    match word_token(source, LifeRestartRule::KW_TRAIT_GROUP, at, "traits") {
        Some(found) => {
            return found;
        },
        None => {},
    }
    match word_token(source, LifeRestartRule::KW_TRAIT_GROUP, at, "talents") {
        Some(found) => {
            return found;
        },
        None => {},
    }
    no_token(source, LifeRestartRule::KW_TRAIT_GROUP, at)
}

/// The length of the rule `KW_TRAIT` at index `at`: the first of `特质`, `特征`,
/// `天赋`, `trait`, `talent` that stands there.
pub open spec fn kw_trait_len(text: Seq<char>, at: int) -> Option<nat> {
    if starts_with(text, at, "特质"@) {
        Some("特质"@.len())
    } else if starts_with(text, at, "特征"@) {
        Some("特征"@.len())
    } else if starts_with(text, at, "天赋"@) {
        Some("天赋"@.len())
    } else if starts_with(text, at, "trait"@) {
        Some("trait"@.len())
    } else if starts_with(text, at, "talent"@) {
        Some("talent"@.len())
    } else {
        None
    }
}

/// The result of the rule `KW_TRAIT` at index `at`.
#[verifier::opaque]
pub open spec fn spec_kw_trait(text: Seq<char>, at: int) -> Outcome {
    token(text, LifeRestartRule::KW_TRAIT, at, kw_trait_len(text, at))
}

/// The rule `KW_TRAIT` builds a node without children.
pub proof fn lemma_kw_trait_leaf(text: Seq<char>, at: int)
    ensures
        spec_kw_trait(text, at).tree matches Some(tree) ==> tree.children.len() == 0,
{
    reveal(spec_kw_trait);
}

/// Match the rule `KW_TRAIT` at index `at`.
pub fn parse_kw_trait(source: &Source, at: usize) -> (found: Match)
    requires
        at <= source@.len(),
    ensures
        found@ == spec_kw_trait(source@, at as int),
        found@.within(source@, at as int),
        found@.tree is Some ==> found@.end > at,
{
    proof {
        reveal(spec_kw_trait);
    }
    match word_token(source, LifeRestartRule::KW_TRAIT, at, "特质") {
        Some(found) => {
            return found;
        },
        None => {},
    }
    match word_token(source, LifeRestartRule::KW_TRAIT, at, "特征") {
        Some(found) => {
            return found;
        },
        None => {},
    }
    match word_token(source, LifeRestartRule::KW_TRAIT, at, "天赋") {
        Some(found) => {
            return found;
        },
        None => {},
    }
    match word_token(source, LifeRestartRule::KW_TRAIT, at, "trait") {
        Some(found) => {
            return found;
        },
        None => {},
    }
    match word_token(source, LifeRestartRule::KW_TRAIT, at, "talent") {
        Some(found) => {
            return found;
        },
        None => {},
    }
    no_token(source, LifeRestartRule::KW_TRAIT, at)
}

/// The length of the rule `KW_EVENT_GROUP` at index `at`: the first of `事件组`,
/// `event-group`, `events` that stands there.
pub open spec fn kw_event_group_len(text: Seq<char>, at: int) -> Option<nat> {
    if starts_with(text, at, "事件组"@) {
        Some("事件组"@.len())
    } else if starts_with(text, at, "event-group"@) {
        Some("event-group"@.len())
    } else if starts_with(text, at, "events"@) {
        Some("events"@.len())
    } else {
        None
    }
}

/// The result of the rule `KW_EVENT_GROUP` at index `at`.
#[verifier::opaque]
pub open spec fn spec_kw_event_group(text: Seq<char>, at: int) -> Outcome {
    token(text, LifeRestartRule::KW_EVENT_GROUP, at, kw_event_group_len(text, at))
}

/// The rule `KW_EVENT_GROUP` builds a node without children.
pub proof fn lemma_kw_event_group_leaf(text: Seq<char>, at: int)
    ensures
        spec_kw_event_group(text, at).tree matches Some(tree) ==> tree.children.len() == 0,
{
    reveal(spec_kw_event_group);
}

/// Match the rule `KW_EVENT_GROUP` at index `at`.
pub fn parse_kw_event_group(source: &Source, at: usize) -> (found: Match)
    requires
        at <= source@.len(),
    ensures
        found@ == spec_kw_event_group(source@, at as int),
        found@.within(source@, at as int),
        found@.tree is Some ==> found@.end > at,
{
    proof {
        reveal(spec_kw_event_group);
    }
    match word_token(source, LifeRestartRule::KW_EVENT_GROUP, at, "事件组") {
        Some(found) => {
            return found;
        },
        None => {},
    }
    match word_token(source, LifeRestartRule::KW_EVENT_GROUP, at, "event-group") {
        Some(found) => {
            return found;
        },
        None => {},
    }
    match word_token(source, LifeRestartRule::KW_EVENT_GROUP, at, "events") {
        Some(found) => {
            return found;
        },
        None => {},
    }
    no_token(source, LifeRestartRule::KW_EVENT_GROUP, at)
}

/// The length of the rule `KW_EVENT` at index `at`: the first of `事件`, `event`
/// that stands there.
pub open spec fn kw_event_len(text: Seq<char>, at: int) -> Option<nat> {
    if starts_with(text, at, "事件"@) {
        Some("事件"@.len())
    } else if starts_with(text, at, "event"@) {
        Some("event"@.len())
    } else {
        None
    }
}

/// The result of the rule `KW_EVENT` at index `at`.
#[verifier::opaque]
pub open spec fn spec_kw_event(text: Seq<char>, at: int) -> Outcome {
    token(text, LifeRestartRule::KW_EVENT, at, kw_event_len(text, at))
}

/// The rule `KW_EVENT` builds a node without children.
pub proof fn lemma_kw_event_leaf(text: Seq<char>, at: int)
    ensures
        spec_kw_event(text, at).tree matches Some(tree) ==> tree.children.len() == 0,
{
    reveal(spec_kw_event);
}

/// Match the rule `KW_EVENT` at index `at`.
pub fn parse_kw_event(source: &Source, at: usize) -> (found: Match)
    requires
        at <= source@.len(),
    ensures
        found@ == spec_kw_event(source@, at as int),
        found@.within(source@, at as int),
        found@.tree is Some ==> found@.end > at,
{
    proof {
        reveal(spec_kw_event);
    }
    match word_token(source, LifeRestartRule::KW_EVENT, at, "事件") {
        Some(found) => {
            return found;
        },
        None => {},
    }
    match word_token(source, LifeRestartRule::KW_EVENT, at, "event") {
        Some(found) => {
            return found;
        },
        None => {},
    }
    no_token(source, LifeRestartRule::KW_EVENT, at)
}

/// The length of the rule `KW_ID` at index `at`: the first of `编号`, `id`, `ID`,
/// `Id`, `iD` that stands there.
pub open spec fn kw_id_len(text: Seq<char>, at: int) -> Option<nat> {
    if starts_with(text, at, "编号"@) {
        Some("编号"@.len())
    } else if starts_with(text, at, "id"@) {
        Some("id"@.len())
    } else if starts_with(text, at, "ID"@) {
        Some("ID"@.len())
    } else if starts_with(text, at, "Id"@) {
        Some("Id"@.len())
    } else if starts_with(text, at, "iD"@) {
        Some("iD"@.len())
    } else {
        None
    }
}

/// The result of the rule `KW_ID` at index `at`.
#[verifier::opaque]
pub open spec fn spec_kw_id(text: Seq<char>, at: int) -> Outcome {
    token(text, LifeRestartRule::KW_ID, at, kw_id_len(text, at))
}

/// The rule `KW_ID` builds a node without children.
pub proof fn lemma_kw_id_leaf(text: Seq<char>, at: int)
    ensures
        spec_kw_id(text, at).tree matches Some(tree) ==> tree.children.len() == 0,
{
    reveal(spec_kw_id);
}

/// Match the rule `KW_ID` at index `at`.
pub fn parse_kw_id(source: &Source, at: usize) -> (found: Match)
    requires
        at <= source@.len(),
    ensures
        found@ == spec_kw_id(source@, at as int),
        found@.within(source@, at as int),
        found@.tree is Some ==> found@.end > at,
{
    proof {
        reveal(spec_kw_id);
    }
    match word_token(source, LifeRestartRule::KW_ID, at, "编号") {
        Some(found) => {
            return found;
        },
        None => {},
    }
    match word_token(source, LifeRestartRule::KW_ID, at, "id") {
        Some(found) => {
            return found;
        },
        None => {},
    }
    match word_token(source, LifeRestartRule::KW_ID, at, "ID") {
        Some(found) => {
            return found;
        },
        None => {},
    }
    match word_token(source, LifeRestartRule::KW_ID, at, "Id") {
        Some(found) => {
            return found;
        },
        None => {},
    }
    match word_token(source, LifeRestartRule::KW_ID, at, "iD") {
        Some(found) => {
            return found;
        },
        None => {},
    }
    no_token(source, LifeRestartRule::KW_ID, at)
}

/// The length of the rule `KW_DESCRIPTION` at index `at`: the first of `动态文本`,
/// `动态描述`, `文本`, `描述`, `description`, `details`, `detail` that stands there.
pub open spec fn kw_description_len(text: Seq<char>, at: int) -> Option<nat> {
    if starts_with(text, at, "动态文本"@) {
        Some("动态文本"@.len())
    } else if starts_with(text, at, "动态描述"@) {
        Some("动态描述"@.len())
    } else if starts_with(text, at, "文本"@) {
        Some("文本"@.len())
    } else if starts_with(text, at, "描述"@) {
        Some("描述"@.len())
    } else if starts_with(text, at, "description"@) {
        Some("description"@.len())
    } else if starts_with(text, at, "details"@) {
        Some("details"@.len())
    } else if starts_with(text, at, "detail"@) {
        Some("detail"@.len())
    } else {
        None
    }
}

/// The result of the rule `KW_DESCRIPTION` at index `at`.
#[verifier::opaque]
pub open spec fn spec_kw_description(text: Seq<char>, at: int) -> Outcome {
    token(text, LifeRestartRule::KW_DESCRIPTION, at, kw_description_len(text, at))
}

/// The rule `KW_DESCRIPTION` builds a node without children.
pub proof fn lemma_kw_description_leaf(text: Seq<char>, at: int)
    ensures
        spec_kw_description(text, at).tree matches Some(tree) ==> tree.children.len() == 0,
{
    reveal(spec_kw_description);
}

/// Match the rule `KW_DESCRIPTION` at index `at`.
pub fn parse_kw_description(source: &Source, at: usize) -> (found: Match)
    requires
        at <= source@.len(),
    ensures
        found@ == spec_kw_description(source@, at as int),
        found@.within(source@, at as int),
        found@.tree is Some ==> found@.end > at,
{
    proof {
        reveal(spec_kw_description);
    }
    match word_token(source, LifeRestartRule::KW_DESCRIPTION, at, "动态文本") {
        Some(found) => {
            return found;
        },
        None => {},
    }
    match word_token(source, LifeRestartRule::KW_DESCRIPTION, at, "动态描述") {
        Some(found) => {
            return found;
        },
        None => {},
    }
    match word_token(source, LifeRestartRule::KW_DESCRIPTION, at, "文本") {
        Some(found) => {
            return found;
        },
        None => {},
    }
    match word_token(source, LifeRestartRule::KW_DESCRIPTION, at, "描述") {
        Some(found) => {
            return found;
        },
        None => {},
    }
    match word_token(source, LifeRestartRule::KW_DESCRIPTION, at, "description") {
        Some(found) => {
            return found;
        },
        None => {},
    }
    match word_token(source, LifeRestartRule::KW_DESCRIPTION, at, "details") {
        Some(found) => {
            return found;
        },
        None => {},
    }
    match word_token(source, LifeRestartRule::KW_DESCRIPTION, at, "detail") {
        Some(found) => {
            return found;
        },
        None => {},
    }
    no_token(source, LifeRestartRule::KW_DESCRIPTION, at)
}

/// The length of the rule `KW_REQUIREMENT` at index `at`: the first of `出现要求`,
/// `要求`, `requires` that stands there.
pub open spec fn kw_requirement_len(text: Seq<char>, at: int) -> Option<nat> {
    if starts_with(text, at, "出现要求"@) {
        Some("出现要求"@.len())
    } else if starts_with(text, at, "要求"@) {
        Some("要求"@.len())
    } else if starts_with(text, at, "requires"@) {
        Some("requires"@.len())
    } else {
        None
    }
}

/// The result of the rule `KW_REQUIREMENT` at index `at`.
#[verifier::opaque]
pub open spec fn spec_kw_requirement(text: Seq<char>, at: int) -> Outcome {
    token(text, LifeRestartRule::KW_REQUIREMENT, at, kw_requirement_len(text, at))
}

/// The rule `KW_REQUIREMENT` builds a node without children.
pub proof fn lemma_kw_requirement_leaf(text: Seq<char>, at: int)
    ensures
        spec_kw_requirement(text, at).tree matches Some(tree) ==> tree.children.len() == 0,
{
    reveal(spec_kw_requirement);
}

/// Match the rule `KW_REQUIREMENT` at index `at`.
pub fn parse_kw_requirement(source: &Source, at: usize) -> (found: Match)
    requires
        at <= source@.len(),
    ensures
        found@ == spec_kw_requirement(source@, at as int),
        found@.within(source@, at as int),
        found@.tree is Some ==> found@.end > at,
{
    proof {
        reveal(spec_kw_requirement);
    }
    match word_token(source, LifeRestartRule::KW_REQUIREMENT, at, "出现要求") {
        Some(found) => {
            return found;
        },
        None => {},
    }
    match word_token(source, LifeRestartRule::KW_REQUIREMENT, at, "要求") {
        Some(found) => {
            return found;
        },
        None => {},
    }
    match word_token(source, LifeRestartRule::KW_REQUIREMENT, at, "requires") {
        Some(found) => {
            return found;
        },
        None => {},
    }
    no_token(source, LifeRestartRule::KW_REQUIREMENT, at)
}

/// The length of the rule `KW_EFFECT` at index `at`: the first of `效果`,
/// `effects`, `effect` that stands there.
pub open spec fn kw_effect_len(text: Seq<char>, at: int) -> Option<nat> {
    if starts_with(text, at, "效果"@) {
        Some("效果"@.len())
    } else if starts_with(text, at, "effects"@) {
        Some("effects"@.len())
    } else if starts_with(text, at, "effect"@) {
        Some("effect"@.len())
    } else {
        None
    }
}

/// The result of the rule `KW_EFFECT` at index `at`.
#[verifier::opaque]
pub open spec fn spec_kw_effect(text: Seq<char>, at: int) -> Outcome {
    token(text, LifeRestartRule::KW_EFFECT, at, kw_effect_len(text, at))
}

/// The rule `KW_EFFECT` builds a node without children.
pub proof fn lemma_kw_effect_leaf(text: Seq<char>, at: int)
    ensures
        spec_kw_effect(text, at).tree matches Some(tree) ==> tree.children.len() == 0,
{
    reveal(spec_kw_effect);
}

/// Match the rule `KW_EFFECT` at index `at`.
pub fn parse_kw_effect(source: &Source, at: usize) -> (found: Match)
    requires
        at <= source@.len(),
    ensures
        found@ == spec_kw_effect(source@, at as int),
        found@.within(source@, at as int),
        found@.tree is Some ==> found@.end > at,
{
    proof {
        reveal(spec_kw_effect);
    }
    match word_token(source, LifeRestartRule::KW_EFFECT, at, "效果") {
        Some(found) => {
            return found;
        },
        None => {},
    }
    match word_token(source, LifeRestartRule::KW_EFFECT, at, "effects") {
        Some(found) => {
            return found;
        },
        None => {},
    }
    match word_token(source, LifeRestartRule::KW_EFFECT, at, "effect") {
        Some(found) => {
            return found;
        },
        None => {},
    }
    no_token(source, LifeRestartRule::KW_EFFECT, at)
}

/// The length of the rule `KW_ENUMERATE` at index `at`: the first of `枚举`,
/// `enumerate`, `enum` that stands there.
pub open spec fn kw_enumerate_len(text: Seq<char>, at: int) -> Option<nat> {
    if starts_with(text, at, "枚举"@) {
        Some("枚举"@.len())
    } else if starts_with(text, at, "enumerate"@) {
        Some("enumerate"@.len())
    } else if starts_with(text, at, "enum"@) {
        Some("enum"@.len())
    } else {
        None
    }
}

/// The result of the rule `KW_ENUMERATE` at index `at`.
#[verifier::opaque]
pub open spec fn spec_kw_enumerate(text: Seq<char>, at: int) -> Outcome {
    token(text, LifeRestartRule::KW_ENUMERATE, at, kw_enumerate_len(text, at))
}

/// The rule `KW_ENUMERATE` builds a node without children.
pub proof fn lemma_kw_enumerate_leaf(text: Seq<char>, at: int)
    ensures
        spec_kw_enumerate(text, at).tree matches Some(tree) ==> tree.children.len() == 0,
{
    reveal(spec_kw_enumerate);
}

/// Match the rule `KW_ENUMERATE` at index `at`.
pub fn parse_kw_enumerate(source: &Source, at: usize) -> (found: Match)
    requires
        at <= source@.len(),
    ensures
        found@ == spec_kw_enumerate(source@, at as int),
        found@.within(source@, at as int),
        found@.tree is Some ==> found@.end > at,
{
    proof {
        reveal(spec_kw_enumerate);
    }
    match word_token(source, LifeRestartRule::KW_ENUMERATE, at, "枚举") {
        Some(found) => {
            return found;
        },
        None => {},
    }
    match word_token(source, LifeRestartRule::KW_ENUMERATE, at, "enumerate") {
        Some(found) => {
            return found;
        },
        None => {},
    }
    match word_token(source, LifeRestartRule::KW_ENUMERATE, at, "enum") {
        Some(found) => {
            return found;
        },
        None => {},
    }
    no_token(source, LifeRestartRule::KW_ENUMERATE, at)
}

/// The length of the rule `KW_OPTIONS` at index `at`: the first of `选项`,
/// `options`, `option` that stands there.
pub open spec fn kw_options_len(text: Seq<char>, at: int) -> Option<nat> {
    if starts_with(text, at, "选项"@) {
        Some("选项"@.len())
    } else if starts_with(text, at, "options"@) {
        Some("options"@.len())
    } else if starts_with(text, at, "option"@) {
        Some("option"@.len())
    } else {
        None
    }
}

/// The result of the rule `KW_OPTIONS` at index `at`.
#[verifier::opaque]
pub open spec fn spec_kw_options(text: Seq<char>, at: int) -> Outcome {
    token(text, LifeRestartRule::KW_OPTIONS, at, kw_options_len(text, at))
}

/// The rule `KW_OPTIONS` builds a node without children.
pub proof fn lemma_kw_options_leaf(text: Seq<char>, at: int)
    ensures
        spec_kw_options(text, at).tree matches Some(tree) ==> tree.children.len() == 0,
{
    reveal(spec_kw_options);
}

/// Match the rule `KW_OPTIONS` at index `at`.
pub fn parse_kw_options(source: &Source, at: usize) -> (found: Match)
    requires
        at <= source@.len(),
    ensures
        found@ == spec_kw_options(source@, at as int),
        found@.within(source@, at as int),
        found@.tree is Some ==> found@.end > at,
{
    proof {
        reveal(spec_kw_options);
    }
    match word_token(source, LifeRestartRule::KW_OPTIONS, at, "选项") {
        Some(found) => {
            return found;
        },
        None => {},
    }
    match word_token(source, LifeRestartRule::KW_OPTIONS, at, "options") {
        Some(found) => {
            return found;
        },
        None => {},
    }
    match word_token(source, LifeRestartRule::KW_OPTIONS, at, "option") {
        Some(found) => {
            return found;
        },
        None => {},
    }
    no_token(source, LifeRestartRule::KW_OPTIONS, at)
}

/// The length of the rule `KW_IF` at index `at`: the first of `如果`, `if` that
/// stands there.
pub open spec fn kw_if_len(text: Seq<char>, at: int) -> Option<nat> {
    if starts_with(text, at, "如果"@) {
        Some("如果"@.len())
    } else if starts_with(text, at, "if"@) {
        Some("if"@.len())
    } else {
        None
    }
}

/// The result of the rule `KW_IF` at index `at`.
#[verifier::opaque]
pub open spec fn spec_kw_if(text: Seq<char>, at: int) -> Outcome {
    token(text, LifeRestartRule::KW_IF, at, kw_if_len(text, at))
}

/// The rule `KW_IF` builds a node without children.
pub proof fn lemma_kw_if_leaf(text: Seq<char>, at: int)
    ensures
        spec_kw_if(text, at).tree matches Some(tree) ==> tree.children.len() == 0,
{
    reveal(spec_kw_if);
}

/// Match the rule `KW_IF` at index `at`.
pub fn parse_kw_if(source: &Source, at: usize) -> (found: Match)
    requires
        at <= source@.len(),
    ensures
        found@ == spec_kw_if(source@, at as int),
        found@.within(source@, at as int),
        found@.tree is Some ==> found@.end > at,
{
    proof {
        reveal(spec_kw_if);
    }
    match word_token(source, LifeRestartRule::KW_IF, at, "如果") {
        Some(found) => {
            return found;
        },
        None => {},
    }
    match word_token(source, LifeRestartRule::KW_IF, at, "if") {
        Some(found) => {
            return found;
        },
        None => {},
    }
    no_token(source, LifeRestartRule::KW_IF, at)
}

/// The length of the rule `KW_ELSE_IF` at index `at`: the first of `否则如果`,
/// `else-if`, `elseif`, `elif` that stands there.
pub open spec fn kw_else_if_len(text: Seq<char>, at: int) -> Option<nat> {
    if starts_with(text, at, "否则如果"@) {
        Some("否则如果"@.len())
    } else if starts_with(text, at, "else-if"@) {
        Some("else-if"@.len())
    } else if starts_with(text, at, "elseif"@) {
        Some("elseif"@.len())
    } else if starts_with(text, at, "elif"@) {
        Some("elif"@.len())
    } else {
        None
    }
}

/// The result of the rule `KW_ELSE_IF` at index `at`.
#[verifier::opaque]
pub open spec fn spec_kw_else_if(text: Seq<char>, at: int) -> Outcome {
    token(text, LifeRestartRule::KW_ELSE_IF, at, kw_else_if_len(text, at))
}

/// The rule `KW_ELSE_IF` builds a node without children.
pub proof fn lemma_kw_else_if_leaf(text: Seq<char>, at: int)
    ensures
        spec_kw_else_if(text, at).tree matches Some(tree) ==> tree.children.len() == 0,
{
    reveal(spec_kw_else_if);
}

/// Match the rule `KW_ELSE_IF` at index `at`.
pub fn parse_kw_else_if(source: &Source, at: usize) -> (found: Match)
    requires
        at <= source@.len(),
    ensures
        found@ == spec_kw_else_if(source@, at as int),
        found@.within(source@, at as int),
        found@.tree is Some ==> found@.end > at,
{
    proof {
        reveal(spec_kw_else_if);
    }
    match word_token(source, LifeRestartRule::KW_ELSE_IF, at, "否则如果") {
        Some(found) => {
            return found;
        },
        None => {},
    }
    match word_token(source, LifeRestartRule::KW_ELSE_IF, at, "else-if") {
        Some(found) => {
            return found;
        },
        None => {},
    }
    match word_token(source, LifeRestartRule::KW_ELSE_IF, at, "elseif") {
        Some(found) => {
            return found;
        },
        None => {},
    }
    match word_token(source, LifeRestartRule::KW_ELSE_IF, at, "elif") {
        Some(found) => {
            return found;
        },
        None => {},
    }
    no_token(source, LifeRestartRule::KW_ELSE_IF, at)
}

/// The length of the rule `KW_ELSE` at index `at`: the first of `否则`, `else`
/// that stands there.
pub open spec fn kw_else_len(text: Seq<char>, at: int) -> Option<nat> {
    if starts_with(text, at, "否则"@) {
        Some("否则"@.len())
    } else if starts_with(text, at, "else"@) {
        Some("else"@.len())
    } else {
        None
    }
}

/// The result of the rule `KW_ELSE` at index `at`.
#[verifier::opaque]
pub open spec fn spec_kw_else(text: Seq<char>, at: int) -> Outcome {
    token(text, LifeRestartRule::KW_ELSE, at, kw_else_len(text, at))
}

/// The rule `KW_ELSE` builds a node without children.
pub proof fn lemma_kw_else_leaf(text: Seq<char>, at: int)
    ensures
        spec_kw_else(text, at).tree matches Some(tree) ==> tree.children.len() == 0,
{
    reveal(spec_kw_else);
}

/// Match the rule `KW_ELSE` at index `at`.
pub fn parse_kw_else(source: &Source, at: usize) -> (found: Match)
    requires
        at <= source@.len(),
    ensures
        found@ == spec_kw_else(source@, at as int),
        found@.within(source@, at as int),
        found@.tree is Some ==> found@.end > at,
{
    proof {
        reveal(spec_kw_else);
    }
    match word_token(source, LifeRestartRule::KW_ELSE, at, "否则") {
        Some(found) => {
            return found;
        },
        None => {},
    }
    match word_token(source, LifeRestartRule::KW_ELSE, at, "else") {
        Some(found) => {
            return found;
        },
        None => {},
    }
    no_token(source, LifeRestartRule::KW_ELSE, at)
}

/// The length of the mark `prefix_0` at index `at`: the first of `不是`, `非`, `!`
/// that stands there.
pub open spec fn mark_prefix_0_len(text: Seq<char>, at: int) -> Option<nat> {
    if starts_with(text, at, "不是"@) {
        Some("不是"@.len())
    } else if starts_with(text, at, "非"@) {
        Some("非"@.len())
    } else if starts_with(text, at, "!"@) {
        Some("!"@.len())
    } else {
        None
    }
}

/// The result of the mark `prefix_0` at index `at`: a node of unnamed text.
#[verifier::opaque]
pub open spec fn spec_mark_prefix_0(text: Seq<char>, at: int) -> Outcome {
    token(text, LifeRestartRule::HiddenText, at, mark_prefix_0_len(text, at))
}

/// Match the mark `prefix_0` at index `at`.
pub fn parse_mark_prefix_0(source: &Source, at: usize) -> (found: Match)
    requires
        at <= source@.len(),
    ensures
        found@ == spec_mark_prefix_0(source@, at as int),
        found@.within(source@, at as int),
        found@.tree is Some ==> found@.end > at,
{
    proof {
        reveal(spec_mark_prefix_0);
    }
    match word_token(source, LifeRestartRule::HiddenText, at, "不是") {
        Some(found) => {
            return found;
        },
        None => {},
    }
    match word_token(source, LifeRestartRule::HiddenText, at, "非") {
        Some(found) => {
            return found;
        },
        None => {},
    }
    match word_token(source, LifeRestartRule::HiddenText, at, "!") {
        Some(found) => {
            return found;
        },
        None => {},
    }
    no_token(source, LifeRestartRule::HiddenText, at)
}

/// The length of the mark `suffix_0` at index `at`: `%`, where it stands there.
pub open spec fn mark_suffix_0_len(text: Seq<char>, at: int) -> Option<nat> {
    if starts_with(text, at, "%"@) {
        Some("%"@.len())
    } else {
        None
    }
}

/// The result of the mark `suffix_0` at index `at`: a node of unnamed text.
#[verifier::opaque]
pub open spec fn spec_mark_suffix_0(text: Seq<char>, at: int) -> Outcome {
    token(text, LifeRestartRule::HiddenText, at, mark_suffix_0_len(text, at))
}

/// Match the mark `suffix_0` at index `at`.
pub fn parse_mark_suffix_0(source: &Source, at: usize) -> (found: Match)
    requires
        at <= source@.len(),
    ensures
        found@ == spec_mark_suffix_0(source@, at as int),
        found@.within(source@, at as int),
        found@.tree is Some ==> found@.end > at,
{
    proof {
        reveal(spec_mark_suffix_0);
    }
    match word_token(source, LifeRestartRule::HiddenText, at, "%") {
        Some(found) => {
            return found;
        },
        None => {},
    }
    no_token(source, LifeRestartRule::HiddenText, at)
}

/// The length of the mark `geq` at index `at`: the first of `大于等于`, `>=` that
/// stands there.
pub open spec fn mark_geq_len(text: Seq<char>, at: int) -> Option<nat> {
    if starts_with(text, at, "大于等于"@) {
        Some("大于等于"@.len())
    } else if starts_with(text, at, ">="@) {
        Some(">="@.len())
    } else {
        None
    }
}

/// The result of the mark `geq` at index `at`: a node of unnamed text.
#[verifier::opaque]
pub open spec fn spec_mark_geq(text: Seq<char>, at: int) -> Outcome {
    token(text, LifeRestartRule::HiddenText, at, mark_geq_len(text, at))
}

/// Match the mark `geq` at index `at`.
pub fn parse_mark_geq(source: &Source, at: usize) -> (found: Match)
    requires
        at <= source@.len(),
    ensures
        found@ == spec_mark_geq(source@, at as int),
        found@.within(source@, at as int),
        found@.tree is Some ==> found@.end > at,
{
    proof {
        reveal(spec_mark_geq);
    }
    match word_token(source, LifeRestartRule::HiddenText, at, "大于等于") {
        Some(found) => {
            return found;
        },
        None => {},
    }
    match word_token(source, LifeRestartRule::HiddenText, at, ">=") {
        Some(found) => {
            return found;
        },
        None => {},
    }
    no_token(source, LifeRestartRule::HiddenText, at)
}

/// The length of the mark `leq` at index `at`: the first of `小于等于`, `<=` that
/// stands there.
pub open spec fn mark_leq_len(text: Seq<char>, at: int) -> Option<nat> {
    if starts_with(text, at, "小于等于"@) {
        Some("小于等于"@.len())
    } else if starts_with(text, at, "<="@) {
        Some("<="@.len())
    } else {
        None
    }
}

/// The result of the mark `leq` at index `at`: a node of unnamed text.
#[verifier::opaque]
pub open spec fn spec_mark_leq(text: Seq<char>, at: int) -> Outcome {
    token(text, LifeRestartRule::HiddenText, at, mark_leq_len(text, at))
}

/// Match the mark `leq` at index `at`.
pub fn parse_mark_leq(source: &Source, at: usize) -> (found: Match)
    requires
        at <= source@.len(),
    ensures
        found@ == spec_mark_leq(source@, at as int),
        found@.within(source@, at as int),
        found@.tree is Some ==> found@.end > at,
{
    proof {
        reveal(spec_mark_leq);
    }
    match word_token(source, LifeRestartRule::HiddenText, at, "小于等于") {
        Some(found) => {
            return found;
        },
        None => {},
    }
    match word_token(source, LifeRestartRule::HiddenText, at, "<=") {
        Some(found) => {
            return found;
        },
        None => {},
    }
    no_token(source, LifeRestartRule::HiddenText, at)
}

/// The length of the mark `ne` at index `at`: the first of `不等于`, `!=` that
/// stands there.
pub open spec fn mark_ne_len(text: Seq<char>, at: int) -> Option<nat> {
    if starts_with(text, at, "不等于"@) {
        Some("不等于"@.len())
    } else if starts_with(text, at, "!="@) {
        Some("!="@.len())
    } else {
        None
    }
}

/// The result of the mark `ne` at index `at`: a node of unnamed text.
#[verifier::opaque]
pub open spec fn spec_mark_ne(text: Seq<char>, at: int) -> Outcome {
    token(text, LifeRestartRule::HiddenText, at, mark_ne_len(text, at))
}

/// Match the mark `ne` at index `at`.
pub fn parse_mark_ne(source: &Source, at: usize) -> (found: Match)
    requires
        at <= source@.len(),
    ensures
        found@ == spec_mark_ne(source@, at as int),
        found@.within(source@, at as int),
        found@.tree is Some ==> found@.end > at,
{
    proof {
        reveal(spec_mark_ne);
    }
    match word_token(source, LifeRestartRule::HiddenText, at, "不等于") {
        Some(found) => {
            return found;
        },
        None => {},
    }
    match word_token(source, LifeRestartRule::HiddenText, at, "!=") {
        Some(found) => {
            return found;
        },
        None => {},
    }
    no_token(source, LifeRestartRule::HiddenText, at)
}

/// The length of the mark `eq` at index `at`: the first of `等于`, `为`, `==` that
/// stands there.
pub open spec fn mark_eq_len(text: Seq<char>, at: int) -> Option<nat> {
    if starts_with(text, at, "等于"@) {
        Some("等于"@.len())
    } else if starts_with(text, at, "为"@) {
        Some("为"@.len())
    } else if starts_with(text, at, "=="@) {
        Some("=="@.len())
    } else {
        None
    }
}

/// The result of the mark `eq` at index `at`: a node of unnamed text.
#[verifier::opaque]
pub open spec fn spec_mark_eq(text: Seq<char>, at: int) -> Outcome {
    token(text, LifeRestartRule::HiddenText, at, mark_eq_len(text, at))
}

/// Match the mark `eq` at index `at`.
pub fn parse_mark_eq(source: &Source, at: usize) -> (found: Match)
    requires
        at <= source@.len(),
    ensures
        found@ == spec_mark_eq(source@, at as int),
        found@.within(source@, at as int),
        found@.tree is Some ==> found@.end > at,
{
    proof {
        reveal(spec_mark_eq);
    }
    match word_token(source, LifeRestartRule::HiddenText, at, "等于") {
        Some(found) => {
            return found;
        },
        None => {},
    }
    match word_token(source, LifeRestartRule::HiddenText, at, "为") {
        Some(found) => {
            return found;
        },
        None => {},
    }
    match word_token(source, LifeRestartRule::HiddenText, at, "==") {
        Some(found) => {
            return found;
        },
        None => {},
    }
    no_token(source, LifeRestartRule::HiddenText, at)
}

/// The length of the mark `gt` at index `at`: the first of `大于`, `>` that
/// stands there.
pub open spec fn mark_gt_len(text: Seq<char>, at: int) -> Option<nat> {
    if starts_with(text, at, "大于"@) {
        Some("大于"@.len())
    } else if starts_with(text, at, ">"@) {
        Some(">"@.len())
    } else {
        None
    }
}

/// The result of the mark `gt` at index `at`: a node of unnamed text.
#[verifier::opaque]
pub open spec fn spec_mark_gt(text: Seq<char>, at: int) -> Outcome {
    token(text, LifeRestartRule::HiddenText, at, mark_gt_len(text, at))
}

/// Match the mark `gt` at index `at`.
pub fn parse_mark_gt(source: &Source, at: usize) -> (found: Match)
    requires
        at <= source@.len(),
    ensures
        found@ == spec_mark_gt(source@, at as int),
        found@.within(source@, at as int),
        found@.tree is Some ==> found@.end > at,
{
    proof {
        reveal(spec_mark_gt);
    }
    match word_token(source, LifeRestartRule::HiddenText, at, "大于") {
        Some(found) => {
            return found;
        },
        None => {},
    }
    match word_token(source, LifeRestartRule::HiddenText, at, ">") {
        Some(found) => {
            return found;
        },
        None => {},
    }
    no_token(source, LifeRestartRule::HiddenText, at)
}

/// The length of the mark `lt` at index `at`: the first of `小于`, `<` that
/// stands there.
pub open spec fn mark_lt_len(text: Seq<char>, at: int) -> Option<nat> {
    if starts_with(text, at, "小于"@) {
        Some("小于"@.len())
    } else if starts_with(text, at, "<"@) {
        Some("<"@.len())
    } else {
        None
    }
}

/// The result of the mark `lt` at index `at`: a node of unnamed text.
#[verifier::opaque]
pub open spec fn spec_mark_lt(text: Seq<char>, at: int) -> Outcome {
    token(text, LifeRestartRule::HiddenText, at, mark_lt_len(text, at))
}

/// Match the mark `lt` at index `at`.
pub fn parse_mark_lt(source: &Source, at: usize) -> (found: Match)
    requires
        at <= source@.len(),
    ensures
        found@ == spec_mark_lt(source@, at as int),
        found@.within(source@, at as int),
        found@.tree is Some ==> found@.end > at,
{
    proof {
        reveal(spec_mark_lt);
    }
    match word_token(source, LifeRestartRule::HiddenText, at, "小于") {
        Some(found) => {
            return found;
        },
        None => {},
    }
    match word_token(source, LifeRestartRule::HiddenText, at, "<") {
        Some(found) => {
            return found;
        },
        None => {},
    }
    no_token(source, LifeRestartRule::HiddenText, at)
}

/// The length of the mark `and` at index `at`: the first of `&&`, `且` that
/// stands there.
pub open spec fn mark_and_len(text: Seq<char>, at: int) -> Option<nat> {
    if starts_with(text, at, "&&"@) {
        Some("&&"@.len())
    } else if starts_with(text, at, "且"@) {
        Some("且"@.len())
    } else {
        None
    }
}

/// The result of the mark `and` at index `at`: a node of unnamed text.
#[verifier::opaque]
pub open spec fn spec_mark_and(text: Seq<char>, at: int) -> Outcome {
    token(text, LifeRestartRule::HiddenText, at, mark_and_len(text, at))
}

/// Match the mark `and` at index `at`.
pub fn parse_mark_and(source: &Source, at: usize) -> (found: Match)
    requires
        at <= source@.len(),
    ensures
        found@ == spec_mark_and(source@, at as int),
        found@.within(source@, at as int),
        found@.tree is Some ==> found@.end > at,
{
    proof {
        reveal(spec_mark_and);
    }
    match word_token(source, LifeRestartRule::HiddenText, at, "&&") {
        Some(found) => {
            return found;
        },
        None => {},
    }
    match word_token(source, LifeRestartRule::HiddenText, at, "且") {
        Some(found) => {
            return found;
        },
        None => {},
    }
    no_token(source, LifeRestartRule::HiddenText, at)
}

/// The length of the mark `or` at index `at`: the first of `||`, `或` that
/// stands there.
pub open spec fn mark_or_len(text: Seq<char>, at: int) -> Option<nat> {
    if starts_with(text, at, "||"@) {
        Some("||"@.len())
    } else if starts_with(text, at, "或"@) {
        Some("或"@.len())
    } else {
        None
    }
}

/// The result of the mark `or` at index `at`: a node of unnamed text.
#[verifier::opaque]
pub open spec fn spec_mark_or(text: Seq<char>, at: int) -> Outcome {
    token(text, LifeRestartRule::HiddenText, at, mark_or_len(text, at))
}

/// Match the mark `or` at index `at`.
pub fn parse_mark_or(source: &Source, at: usize) -> (found: Match)
    requires
        at <= source@.len(),
    ensures
        found@ == spec_mark_or(source@, at as int),
        found@.within(source@, at as int),
        found@.tree is Some ==> found@.end > at,
{
    proof {
        reveal(spec_mark_or);
    }
    match word_token(source, LifeRestartRule::HiddenText, at, "||") {
        Some(found) => {
            return found;
        },
        None => {},
    }
    match word_token(source, LifeRestartRule::HiddenText, at, "或") {
        Some(found) => {
            return found;
        },
        None => {},
    }
    no_token(source, LifeRestartRule::HiddenText, at)
}

/// The length of the mark `has` at index `at`: the first of `拥有`, `有`, `has`
/// that stands there.
pub open spec fn mark_has_len(text: Seq<char>, at: int) -> Option<nat> {
    if starts_with(text, at, "拥有"@) {
        Some("拥有"@.len())
    } else if starts_with(text, at, "有"@) {
        Some("有"@.len())
    } else if starts_with(text, at, "has"@) {
        Some("has"@.len())
    } else {
        None
    }
}

/// The result of the mark `has` at index `at`: a node of unnamed text.
#[verifier::opaque]
pub open spec fn spec_mark_has(text: Seq<char>, at: int) -> Outcome {
    token(text, LifeRestartRule::HiddenText, at, mark_has_len(text, at))
}

/// Match the mark `has` at index `at`.
pub fn parse_mark_has(source: &Source, at: usize) -> (found: Match)
    requires
        at <= source@.len(),
    ensures
        found@ == spec_mark_has(source@, at as int),
        found@.within(source@, at as int),
        found@.tree is Some ==> found@.end > at,
{
    proof {
        reveal(spec_mark_has);
    }
    match word_token(source, LifeRestartRule::HiddenText, at, "拥有") {
        Some(found) => {
            return found;
        },
        None => {},
    }
    match word_token(source, LifeRestartRule::HiddenText, at, "有") {
        Some(found) => {
            return found;
        },
        None => {},
    }
    match word_token(source, LifeRestartRule::HiddenText, at, "has") {
        Some(found) => {
            return found;
        },
        None => {},
    }
    no_token(source, LifeRestartRule::HiddenText, at)
}

/// The length of the mark `add_assign` at index `at`: `+=`, where it stands
/// there.
pub open spec fn mark_add_assign_len(text: Seq<char>, at: int) -> Option<nat> {
    if starts_with(text, at, "+="@) {
        Some("+="@.len())
    } else {
        None
    }
}

/// The result of the mark `add_assign` at index `at`: a node of unnamed text.
#[verifier::opaque]
pub open spec fn spec_mark_add_assign(text: Seq<char>, at: int) -> Outcome {
    token(text, LifeRestartRule::HiddenText, at, mark_add_assign_len(text, at))
}

/// Match the mark `add_assign` at index `at`.
pub fn parse_mark_add_assign(source: &Source, at: usize) -> (found: Match)
    requires
        at <= source@.len(),
    ensures
        found@ == spec_mark_add_assign(source@, at as int),
        found@.within(source@, at as int),
        found@.tree is Some ==> found@.end > at,
{
    proof {
        reveal(spec_mark_add_assign);
    }
    match word_token(source, LifeRestartRule::HiddenText, at, "+=") {
        Some(found) => {
            return found;
        },
        None => {},
    }
    no_token(source, LifeRestartRule::HiddenText, at)
}

/// The length of the mark `sub_assign` at index `at`: `-=`, where it stands
/// there.
pub open spec fn mark_sub_assign_len(text: Seq<char>, at: int) -> Option<nat> {
    if starts_with(text, at, "-="@) {
        Some("-="@.len())
    } else {
        None
    }
}

/// The result of the mark `sub_assign` at index `at`: a node of unnamed text.
#[verifier::opaque]
pub open spec fn spec_mark_sub_assign(text: Seq<char>, at: int) -> Outcome {
    token(text, LifeRestartRule::HiddenText, at, mark_sub_assign_len(text, at))
}

/// Match the mark `sub_assign` at index `at`.
pub fn parse_mark_sub_assign(source: &Source, at: usize) -> (found: Match)
    requires
        at <= source@.len(),
    ensures
        found@ == spec_mark_sub_assign(source@, at as int),
        found@.within(source@, at as int),
        found@.tree is Some ==> found@.end > at,
{
    proof {
        reveal(spec_mark_sub_assign);
    }
    match word_token(source, LifeRestartRule::HiddenText, at, "-=") {
        Some(found) => {
            return found;
        },
        None => {},
    }
    no_token(source, LifeRestartRule::HiddenText, at)
}

/// The length of the mark `add` at index `at`: `+`, where it stands there.
pub open spec fn mark_add_len(text: Seq<char>, at: int) -> Option<nat> {
    if starts_with(text, at, "+"@) {
        Some("+"@.len())
    } else {
        None
    }
}

/// The result of the mark `add` at index `at`: a node of unnamed text.
#[verifier::opaque]
pub open spec fn spec_mark_add(text: Seq<char>, at: int) -> Outcome {
    token(text, LifeRestartRule::HiddenText, at, mark_add_len(text, at))
}

/// Match the mark `add` at index `at`.
pub fn parse_mark_add(source: &Source, at: usize) -> (found: Match)
    requires
        at <= source@.len(),
    ensures
        found@ == spec_mark_add(source@, at as int),
        found@.within(source@, at as int),
        found@.tree is Some ==> found@.end > at,
{
    proof {
        reveal(spec_mark_add);
    }
    match word_token(source, LifeRestartRule::HiddenText, at, "+") {
        Some(found) => {
            return found;
        },
        None => {},
    }
    no_token(source, LifeRestartRule::HiddenText, at)
}

/// The length of the mark `sub` at index `at`: `-`, where it stands there.
pub open spec fn mark_sub_len(text: Seq<char>, at: int) -> Option<nat> {
    if starts_with(text, at, "-"@) {
        Some("-"@.len())
    } else {
        None
    }
}

/// The result of the mark `sub` at index `at`: a node of unnamed text.
#[verifier::opaque]
pub open spec fn spec_mark_sub(text: Seq<char>, at: int) -> Outcome {
    token(text, LifeRestartRule::HiddenText, at, mark_sub_len(text, at))
}

/// Match the mark `sub` at index `at`.
pub fn parse_mark_sub(source: &Source, at: usize) -> (found: Match)
    requires
        at <= source@.len(),
    ensures
        found@ == spec_mark_sub(source@, at as int),
        found@.within(source@, at as int),
        found@.tree is Some ==> found@.end > at,
{
    proof {
        reveal(spec_mark_sub);
    }
    match word_token(source, LifeRestartRule::HiddenText, at, "-") {
        Some(found) => {
            return found;
        },
        None => {},
    }
    no_token(source, LifeRestartRule::HiddenText, at)
}

/// The length of the mark `true` at index `at`: the first of `真`, `true` that
/// stands there.
pub open spec fn mark_true_len(text: Seq<char>, at: int) -> Option<nat> {
    if starts_with(text, at, "真"@) {
        Some("真"@.len())
    } else if starts_with(text, at, "true"@) {
        Some("true"@.len())
    } else {
        None
    }
}

/// The result of the mark `true` at index `at`: a node of unnamed text.
#[verifier::opaque]
pub open spec fn spec_mark_true(text: Seq<char>, at: int) -> Outcome {
    token(text, LifeRestartRule::HiddenText, at, mark_true_len(text, at))
}

/// Match the mark `true` at index `at`.
pub fn parse_mark_true(source: &Source, at: usize) -> (found: Match)
    requires
        at <= source@.len(),
    ensures
        found@ == spec_mark_true(source@, at as int),
        found@.within(source@, at as int),
        found@.tree is Some ==> found@.end > at,
{
    proof {
        reveal(spec_mark_true);
    }
    match word_token(source, LifeRestartRule::HiddenText, at, "真") {
        Some(found) => {
            return found;
        },
        None => {},
    }
    match word_token(source, LifeRestartRule::HiddenText, at, "true") {
        Some(found) => {
            return found;
        },
        None => {},
    }
    no_token(source, LifeRestartRule::HiddenText, at)
}

/// The length of the mark `false` at index `at`: the first of `假`, `false` that
/// stands there.
pub open spec fn mark_false_len(text: Seq<char>, at: int) -> Option<nat> {
    if starts_with(text, at, "假"@) {
        Some("假"@.len())
    } else if starts_with(text, at, "false"@) {
        Some("false"@.len())
    } else {
        None
    }
}

/// The result of the mark `false` at index `at`: a node of unnamed text.
#[verifier::opaque]
pub open spec fn spec_mark_false(text: Seq<char>, at: int) -> Outcome {
    token(text, LifeRestartRule::HiddenText, at, mark_false_len(text, at))
}

/// Match the mark `false` at index `at`.
pub fn parse_mark_false(source: &Source, at: usize) -> (found: Match)
    requires
        at <= source@.len(),
    ensures
        found@ == spec_mark_false(source@, at as int),
        found@.within(source@, at as int),
        found@.tree is Some ==> found@.end > at,
{
    proof {
        reveal(spec_mark_false);
    }
    match word_token(source, LifeRestartRule::HiddenText, at, "假") {
        Some(found) => {
            return found;
        },
        None => {},
    }
    match word_token(source, LifeRestartRule::HiddenText, at, "false") {
        Some(found) => {
            return found;
        },
        None => {},
    }
    no_token(source, LifeRestartRule::HiddenText, at)
}

} // verus!
