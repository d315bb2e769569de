//! The grammar. Every rule is a function from a position in the text to the
//! node it builds there, written as the steps of the rule in order: `~`
//! skips trivia, `#slot` attaches a node to a slot of the rule, `/` is
//! ordered choice and the first alternative that matches wins. A step that
//! fails fails the rule, which then ends where it started.
//!
//! Every rule comes twice: as a `spec_` function, which says what the rule
//! matches, and as a `parse_` function, which computes it. Rules that call
//! each other in a cycle terminate because every way round the cycle passes
//! a token: their measure is the text that is left, then a rank. In the
//! `spec_` functions, a call within a cycle is guarded by the bounds that
//! make the measure decrease; the `parse_` functions prove that the guard
//! holds wherever the call is reached.

use crate::errors::LifeError;
use crate::syntax::cst::{CstNode, CstTree};
use crate::syntax::cursor::{Cursor, Match, Outcome, State};
use crate::syntax::lexical::{
    parse_comment, parse_escaped_character, parse_hex, parse_identifier, parse_integer,
    parse_string_raw_text, parse_text_any, parse_white_space, spec_comment,
    spec_escaped_character, spec_hex, spec_identifier, spec_integer, spec_string_raw_text,
    spec_text_any, spec_white_space,
};
use crate::syntax::rule::{LifeRestartRule, Slot};
use crate::syntax::source::{byte_offset, Source};
use crate::syntax::words::{
    parse_colon, parse_comma, parse_eos, parse_kw_description, parse_kw_effect, parse_kw_else,
    parse_kw_else_if, parse_kw_enumerate, parse_kw_event, parse_kw_event_group, parse_kw_id,
    parse_kw_if, parse_kw_options, parse_kw_property, parse_kw_requirement, parse_kw_trait,
    parse_kw_trait_group, parse_mark_add, parse_mark_add_assign, parse_mark_and, parse_mark_eq,
    parse_mark_false, parse_mark_geq, parse_mark_gt, parse_mark_has, parse_mark_leq,
    parse_mark_lt, parse_mark_ne, parse_mark_or, parse_mark_prefix_0, parse_mark_sub,
    parse_mark_sub_assign, parse_mark_suffix_0, parse_mark_true, spec_colon, spec_comma,
    spec_eos, spec_kw_description, spec_kw_effect, spec_kw_else, spec_kw_else_if,
    spec_kw_enumerate, spec_kw_event, spec_kw_event_group, spec_kw_id, spec_kw_if,
    spec_kw_options, spec_kw_property, spec_kw_requirement, spec_kw_trait, spec_kw_trait_group,
    spec_mark_add, spec_mark_add_assign, spec_mark_and, spec_mark_eq, spec_mark_false,
    spec_mark_geq, spec_mark_gt, spec_mark_has, spec_mark_leq, spec_mark_lt, spec_mark_ne,
    spec_mark_or, spec_mark_prefix_0, spec_mark_sub, spec_mark_sub_assign, spec_mark_suffix_0,
    spec_mark_true,
};
use vstd::prelude::*;

verus! {

/// The cursor after `~ TopStatement#top_statement` was tried at index `at`.
#[verifier::opaque]
pub open spec fn spec_root_item(text: Seq<char>, at: int) -> Cursor {
    let c = Cursor::start(at);
    let c = c.trivia(text);
    let c = c.attach(spec_top_statement(text, c.pos), Slot::TopStatement);
    c
}

/// Try `~ TopStatement#top_statement` at index `at`.
pub fn match_root_item(source: &Source, at: usize) -> (group: State)
    requires
        at <= source@.len(),
    ensures
        group@ == spec_root_item(source@, at as int),
        group@.within(source@, at as int),
        group@.ok ==> group@.pos > at,
{
    proof {
        reveal(spec_root_item);
    }
    let mut c = State::start(at);
    c.trivia(source);
    if c.ok {
        let found = parse_top_statement(source, c.pos);
        c.attach(found, Slot::TopStatement);
    }
    c
}

/// The cursor after `(~ TopStatement#top_statement)*` was matched from the
/// cursor `from` on: the group as often as it matches and moves the cursor.
pub open spec fn spec_root_items(text: Seq<char>, from: Cursor) -> Cursor
    decreases text.len() - from.pos,
{
    if !from.ok {
        from
    } else {
        let step = spec_root_item(text, from.pos);
        if step.ok && from.pos < step.pos <= text.len() {
            spec_root_items(text, from.join(step))
        } else {
            from.note(step.far)
        }
    }
}

/// Match `(~ TopStatement#top_statement)*` from the cursor `from` on.
#[verifier::rlimit(30)]
pub fn match_root_items(source: &Source, from: State) -> (done: State)
    requires
        from@.pos <= source@.len(),
        from@.far <= source@.len(),
    ensures
        done@ == spec_root_items(source@, from@),
        done@.ok == from@.ok,
        from@.pos <= done@.pos <= source@.len(),
        from@.far <= done@.far <= source@.len(),
{
    let mut c = from;
    if !c.ok {
        return c;
    }
    loop
        invariant
            c.ok,
            from@.pos <= c@.pos <= source@.len(),
            from@.far <= c@.far <= source@.len(),
            spec_root_items(source@, from@) == spec_root_items(source@, c@),
        decreases source@.len() - c@.pos,
    {
        let step = match_root_item(source, c.pos);
        if step.ok && step.pos > c.pos {
            c.join(step);
        } else {
            c.note(step.far);
            return c;
        }
    }
}

/// The result of the rule `Root` at index `at`.
///
/// ```text
/// Root <- (~ TopStatement#top_statement)* ~ EOI
/// ```
#[verifier::opaque]
pub open spec fn spec_root(text: Seq<char>, at: int) -> Outcome {
    let c = Cursor::start(at);
    let c = spec_root_items(text, c);
    let c = c.trivia(text);
    let c = c.end_of_input(text);
    c.finish(text, LifeRestartRule::Root, at)
}

/// Match the rule `Root` at index `at`.
#[verifier::rlimit(30)]
pub fn parse_root(source: &Source, at: usize) -> (found: Match)
    requires
        at <= source@.len(),
    ensures
        found@ == spec_root(source@, at as int),
        found@.within(source@, at as int),
{
    proof {
        reveal(spec_root);
    }
    let mut c = State::start(at);
    if c.ok {
        c = match_root_items(source, c);
    }
    c.trivia(source);
    c.end_of_input(source);
    c.finish(source, LifeRestartRule::Root, at)
}

/// The result of the rule `TopStatement` at index `at`.
///
/// ```text
/// TopStatement <- PropertyStatement#property_statement /
///     TraitGroup#trait_group / TraitStatement#trait_statement /
///     EventGroup#event_group / EventStatement#event_statement / EOS#eos
/// ```
#[verifier::opaque]
pub open spec fn spec_top_statement(text: Seq<char>, at: int) -> Outcome {
    let c = Cursor::start(at);
    let c = if !c.ok {
        c
    } else {
        let alt = Cursor::start(c.pos).attach(
            spec_property_statement(text, c.pos),
            Slot::PropertyStatement,
        );
        if alt.ok {
            c.join(alt)
        } else {
            let c = c.note(alt.far);
            let alt = Cursor::start(c.pos).attach(spec_trait_group(text, c.pos), Slot::TraitGroup);
            if alt.ok {
                c.join(alt)
            } else {
                let c = c.note(alt.far);
                let alt = Cursor::start(c.pos).attach(
                    spec_trait_statement(text, c.pos),
                    Slot::TraitStatement,
                );
                if alt.ok {
                    c.join(alt)
                } else {
                    let c = c.note(alt.far);
                    let alt = Cursor::start(c.pos).attach(
                        spec_event_group(text, c.pos),
                        Slot::EventGroup,
                    );
                    if alt.ok {
                        c.join(alt)
                    } else {
                        let c = c.note(alt.far);
                        let alt = Cursor::start(c.pos).attach(
                            spec_event_statement(text, c.pos),
                            Slot::EventStatement,
                        );
                        if alt.ok {
                            c.join(alt)
                        } else {
                            let c = c.note(alt.far);
                            let alt = Cursor::start(c.pos).attach(spec_eos(text, c.pos), Slot::Eos);
                            if alt.ok {
                                c.join(alt)
                            } else {
                                c.note(alt.far).halt()
                            }
                        }
                    }
                }
            }
        }
    };
    c.finish(text, LifeRestartRule::TopStatement, at)
}

/// Match the rule `TopStatement` at index `at`.
pub fn parse_top_statement(source: &Source, at: usize) -> (found: Match)
    requires
        at <= source@.len(),
    ensures
        found@ == spec_top_statement(source@, at as int),
        found@.within(source@, at as int),
        found@.tree is Some ==> found@.end > at,
{
    proof {
        reveal(spec_top_statement);
    }
    let mut c = State::start(at);
    if c.ok {
        let alt = State::attached(
            parse_property_statement(source, c.pos),
            Slot::PropertyStatement,
            c.pos,
        );
        if alt.ok {
            c.join(alt);
        } else {
            c.note(alt.far);
            let alt = State::attached(parse_trait_group(source, c.pos), Slot::TraitGroup, c.pos);
            if alt.ok {
                c.join(alt);
            } else {
                c.note(alt.far);
                let alt = State::attached(
                    parse_trait_statement(source, c.pos),
                    Slot::TraitStatement,
                    c.pos,
                );
                if alt.ok {
                    c.join(alt);
                } else {
                    c.note(alt.far);
                    let alt = State::attached(
                        parse_event_group(source, c.pos),
                        Slot::EventGroup,
                        c.pos,
                    );
                    if alt.ok {
                        c.join(alt);
                    } else {
                        c.note(alt.far);
                        let alt = State::attached(
                            parse_event_statement(source, c.pos),
                            Slot::EventStatement,
                            c.pos,
                        );
                        if alt.ok {
                            c.join(alt);
                        } else {
                            c.note(alt.far);
                            let alt = State::attached(parse_eos(source, c.pos), Slot::Eos, c.pos);
                            if alt.ok {
                                c.join(alt);
                            } else {
                                c.note(alt.far);
                                c.halt();
                            }
                        }
                    }
                }
            }
        }
    }
    c.finish(source, LifeRestartRule::TopStatement, at)
}

/// The cursor after `~ PropertyItem#property_item` was tried at index `at`.
#[verifier::opaque]
pub open spec fn spec_property_statement_item(text: Seq<char>, at: int) -> Cursor {
    let c = Cursor::start(at);
    let c = c.trivia(text);
    let c = c.attach(spec_property_item(text, c.pos), Slot::PropertyItem);
    c
}

/// Try `~ PropertyItem#property_item` at index `at`.
pub fn match_property_statement_item(source: &Source, at: usize) -> (group: State)
    requires
        at <= source@.len(),
    ensures
        group@ == spec_property_statement_item(source@, at as int),
        group@.within(source@, at as int),
        group@.ok ==> group@.pos > at,
{
    proof {
        reveal(spec_property_statement_item);
    }
    let mut c = State::start(at);
    c.trivia(source);
    if c.ok {
        let found = parse_property_item(source, c.pos);
        c.attach(found, Slot::PropertyItem);
    }
    c
}

/// The cursor after `(~ PropertyItem#property_item)*` was matched from the
/// cursor `from` on: the group as often as it matches and moves the cursor.
pub open spec fn spec_property_statement_items(text: Seq<char>, from: Cursor) -> Cursor
    decreases text.len() - from.pos,
{
    if !from.ok {
        from
    } else {
        let step = spec_property_statement_item(text, from.pos);
        if step.ok && from.pos < step.pos <= text.len() {
            spec_property_statement_items(text, from.join(step))
        } else {
            from.note(step.far)
        }
    }
}

/// Match `(~ PropertyItem#property_item)*` from the cursor `from` on.
#[verifier::rlimit(30)]
pub fn match_property_statement_items(source: &Source, from: State) -> (done: State)
    requires
        from@.pos <= source@.len(),
        from@.far <= source@.len(),
    ensures
        done@ == spec_property_statement_items(source@, from@),
        done@.ok == from@.ok,
        from@.pos <= done@.pos <= source@.len(),
        from@.far <= done@.far <= source@.len(),
{
    let mut c = from;
    if !c.ok {
        return c;
    }
    loop
        invariant
            c.ok,
            from@.pos <= c@.pos <= source@.len(),
            from@.far <= c@.far <= source@.len(),
            spec_property_statement_items(source@, from@)
                == spec_property_statement_items(source@, c@),
        decreases source@.len() - c@.pos,
    {
        let step = match_property_statement_item(source, c.pos);
        if step.ok && step.pos > c.pos {
            c.join(step);
        } else {
            c.note(step.far);
            return c;
        }
    }
}

/// The result of the rule `PropertyStatement` at index `at`.
///
/// ```text
/// PropertyStatement <- KW_PROPERTY ~ Identifier#identifier ~ '{' (~
///     PropertyItem#property_item)* ~ '}'
/// ```
#[verifier::opaque]
pub open spec fn spec_property_statement(text: Seq<char>, at: int) -> Outcome {
    let c = Cursor::start(at);
    let c = c.pass(spec_kw_property(text, c.pos));
    let c = c.trivia(text);
    let c = c.attach(spec_identifier(text, c.pos), Slot::Identifier);
    let c = c.trivia(text);
    let c = c.word(text, "{"@);
    let c = spec_property_statement_items(text, c);
    let c = c.trivia(text);
    let c = c.word(text, "}"@);
    c.finish(text, LifeRestartRule::PropertyStatement, at)
}

/// Match the rule `PropertyStatement` at index `at`.
#[verifier::rlimit(30)]
pub fn parse_property_statement(source: &Source, at: usize) -> (found: Match)
    requires
        at <= source@.len(),
    ensures
        found@ == spec_property_statement(source@, at as int),
        found@.within(source@, at as int),
        found@.tree is Some ==> found@.end > at,
{
    proof {
        reveal(spec_property_statement);
    }
    let mut c = State::start(at);
    if c.ok {
        let found = parse_kw_property(source, c.pos);
        c.pass(found);
    }
    c.trivia(source);
    if c.ok {
        let found = parse_identifier(source, c.pos);
        c.attach(found, Slot::Identifier);
    }
    c.trivia(source);
    c.word(source, "{");
    if c.ok {
        c = match_property_statement_items(source, c);
    }
    c.trivia(source);
    c.word(source, "}");
    c.finish(source, LifeRestartRule::PropertyStatement, at)
}

/// The result of the rule `PropertyItem` at index `at`.
///
/// ```text
/// PropertyItem <- IdStatement#id_statement /
///     DescriptionStatement#description_statement /
///     RequirementStatement#requirement_statement /
///     EnumerateStatement#enumerate_statement /
///     OptionStatement#option_statement / EOS#eos
/// ```
#[verifier::opaque]
pub open spec fn spec_property_item(text: Seq<char>, at: int) -> Outcome {
    let c = Cursor::start(at);
    let c = if !c.ok {
        c
    } else {
        let alt = Cursor::start(c.pos).attach(spec_id_statement(text, c.pos), Slot::IdStatement);
        if alt.ok {
            c.join(alt)
        } else {
            let c = c.note(alt.far);
            let alt = Cursor::start(c.pos).attach(
                spec_description_statement(text, c.pos),
                Slot::DescriptionStatement,
            );
            if alt.ok {
                c.join(alt)
            } else {
                let c = c.note(alt.far);
                let alt = Cursor::start(c.pos).attach(
                    spec_requirement_statement(text, c.pos),
                    Slot::RequirementStatement,
                );
                if alt.ok {
                    c.join(alt)
                } else {
                    let c = c.note(alt.far);
                    let alt = Cursor::start(c.pos).attach(
                        spec_enumerate_statement(text, c.pos),
                        Slot::EnumerateStatement,
                    );
                    if alt.ok {
                        c.join(alt)
                    } else {
                        let c = c.note(alt.far);
                        let alt = Cursor::start(c.pos).attach(
                            spec_option_statement(text, c.pos),
                            Slot::OptionStatement,
                        );
                        if alt.ok {
                            c.join(alt)
                        } else {
                            let c = c.note(alt.far);
                            let alt = Cursor::start(c.pos).attach(spec_eos(text, c.pos), Slot::Eos);
                            if alt.ok {
                                c.join(alt)
                            } else {
                                c.note(alt.far).halt()
                            }
                        }
                    }
                }
            }
        }
    };
    c.finish(text, LifeRestartRule::PropertyItem, at)
}

/// Match the rule `PropertyItem` at index `at`.
pub fn parse_property_item(source: &Source, at: usize) -> (found: Match)
    requires
        at <= source@.len(),
    ensures
        found@ == spec_property_item(source@, at as int),
        found@.within(source@, at as int),
        found@.tree is Some ==> found@.end > at,
{
    proof {
        reveal(spec_property_item);
    }
    let mut c = State::start(at);
    if c.ok {
        let alt = State::attached(parse_id_statement(source, c.pos), Slot::IdStatement, c.pos);
        if alt.ok {
            c.join(alt);
        } else {
            c.note(alt.far);
            let alt = State::attached(
                parse_description_statement(source, c.pos),
                Slot::DescriptionStatement,
                c.pos,
            );
            if alt.ok {
                c.join(alt);
            } else {
                c.note(alt.far);
                let alt = State::attached(
                    parse_requirement_statement(source, c.pos),
                    Slot::RequirementStatement,
                    c.pos,
                );
                if alt.ok {
                    c.join(alt);
                } else {
                    c.note(alt.far);
                    let alt = State::attached(
                        parse_enumerate_statement(source, c.pos),
                        Slot::EnumerateStatement,
                        c.pos,
                    );
                    if alt.ok {
                        c.join(alt);
                    } else {
                        c.note(alt.far);
                        let alt = State::attached(
                            parse_option_statement(source, c.pos),
                            Slot::OptionStatement,
                            c.pos,
                        );
                        if alt.ok {
                            c.join(alt);
                        } else {
                            c.note(alt.far);
                            let alt = State::attached(parse_eos(source, c.pos), Slot::Eos, c.pos);
                            if alt.ok {
                                c.join(alt);
                            } else {
                                c.note(alt.far);
                                c.halt();
                            }
                        }
                    }
                }
            }
        }
    }
    c.finish(source, LifeRestartRule::PropertyItem, at)
}

/// The cursor after `~ COMMA` was tried at index `at`.
#[verifier::opaque]
pub open spec fn spec_enumerate_statement_comma(text: Seq<char>, at: int) -> Cursor {
    let c = Cursor::start(at);
    let c = c.trivia(text);
    let c = c.pass(spec_comma(text, c.pos));
    c
}

/// Try `~ COMMA` at index `at`.
pub fn match_enumerate_statement_comma(source: &Source, at: usize) -> (group: State)
    requires
        at <= source@.len(),
    ensures
        group@ == spec_enumerate_statement_comma(source@, at as int),
        group@.within(source@, at as int),
        group@.ok ==> group@.pos > at,
{
    proof {
        reveal(spec_enumerate_statement_comma);
    }
    let mut c = State::start(at);
    c.trivia(source);
    if c.ok {
        let found = parse_comma(source, c.pos);
        c.pass(found);
    }
    c
}

/// The cursor after `~ Identifier#variant (~ COMMA)?` was tried at index `at`.
#[verifier::opaque]
pub open spec fn spec_enumerate_statement_item(text: Seq<char>, at: int) -> Cursor {
    let c = Cursor::start(at);
    let c = c.trivia(text);
    let c = c.attach(spec_identifier(text, c.pos), Slot::Variant);
    let c = c.option(spec_enumerate_statement_comma(text, c.pos));
    c
}

/// Try `~ Identifier#variant (~ COMMA)?` at index `at`.
pub fn match_enumerate_statement_item(source: &Source, at: usize) -> (group: State)
    requires
        at <= source@.len(),
    ensures
        group@ == spec_enumerate_statement_item(source@, at as int),
        group@.within(source@, at as int),
        group@.ok ==> group@.pos > at,
{
    proof {
        reveal(spec_enumerate_statement_item);
    }
    let mut c = State::start(at);
    c.trivia(source);
    if c.ok {
        let found = parse_identifier(source, c.pos);
        c.attach(found, Slot::Variant);
    }
    if c.ok {
        let group = match_enumerate_statement_comma(source, c.pos);
        c.option(group);
    }
    c
}

/// The cursor after `(~ Identifier#variant (~ COMMA)?)*` was matched from the
/// cursor `from` on: the group as often as it matches and moves the cursor.
pub open spec fn spec_enumerate_statement_items(text: Seq<char>, from: Cursor) -> Cursor
    decreases text.len() - from.pos,
{
    if !from.ok {
        from
    } else {
        let step = spec_enumerate_statement_item(text, from.pos);
        if step.ok && from.pos < step.pos <= text.len() {
            spec_enumerate_statement_items(text, from.join(step))
        } else {
            from.note(step.far)
        }
    }
}

/// Match `(~ Identifier#variant (~ COMMA)?)*` from the cursor `from` on.
#[verifier::rlimit(30)]
pub fn match_enumerate_statement_items(source: &Source, from: State) -> (done: State)
    requires
        from@.pos <= source@.len(),
        from@.far <= source@.len(),
    ensures
        done@ == spec_enumerate_statement_items(source@, from@),
        done@.ok == from@.ok,
        from@.pos <= done@.pos <= source@.len(),
        from@.far <= done@.far <= source@.len(),
{
    let mut c = from;
    if !c.ok {
        return c;
    }
    loop
        invariant
            c.ok,
            from@.pos <= c@.pos <= source@.len(),
            from@.far <= c@.far <= source@.len(),
            spec_enumerate_statement_items(source@, from@)
                == spec_enumerate_statement_items(source@, c@),
        decreases source@.len() - c@.pos,
    {
        let step = match_enumerate_statement_item(source, c.pos);
        if step.ok && step.pos > c.pos {
            c.join(step);
        } else {
            c.note(step.far);
            return c;
        }
    }
}

/// The result of the rule `EnumerateStatement` at index `at`.
///
/// ```text
/// EnumerateStatement <- KW_ENUMERATE ~ '{' (~ Identifier#variant (~
///     COMMA)?)* ~ '}'
/// ```
#[verifier::opaque]
pub open spec fn spec_enumerate_statement(text: Seq<char>, at: int) -> Outcome {
    let c = Cursor::start(at);
    let c = c.pass(spec_kw_enumerate(text, c.pos));
    let c = c.trivia(text);
    let c = c.word(text, "{"@);
    let c = spec_enumerate_statement_items(text, c);
    let c = c.trivia(text);
    let c = c.word(text, "}"@);
    c.finish(text, LifeRestartRule::EnumerateStatement, at)
}

/// Match the rule `EnumerateStatement` at index `at`.
#[verifier::rlimit(30)]
pub fn parse_enumerate_statement(source: &Source, at: usize) -> (found: Match)
    requires
        at <= source@.len(),
    ensures
        found@ == spec_enumerate_statement(source@, at as int),
        found@.within(source@, at as int),
        found@.tree is Some ==> found@.end > at,
{
    proof {
        reveal(spec_enumerate_statement);
    }
    let mut c = State::start(at);
    if c.ok {
        let found = parse_kw_enumerate(source, c.pos);
        c.pass(found);
    }
    c.trivia(source);
    c.word(source, "{");
    if c.ok {
        c = match_enumerate_statement_items(source, c);
    }
    c.trivia(source);
    c.word(source, "}");
    c.finish(source, LifeRestartRule::EnumerateStatement, at)
}

/// The cursor after `~ COMMA` was tried at index `at`.
#[verifier::opaque]
pub open spec fn spec_option_statement_comma(text: Seq<char>, at: int) -> Cursor {
    let c = Cursor::start(at);
    let c = c.trivia(text);
    let c = c.pass(spec_comma(text, c.pos));
    c
}

/// Try `~ COMMA` at index `at`.
pub fn match_option_statement_comma(source: &Source, at: usize) -> (group: State)
    requires
        at <= source@.len(),
    ensures
        group@ == spec_option_statement_comma(source@, at as int),
        group@.within(source@, at as int),
        group@.ok ==> group@.pos > at,
{
    proof {
        reveal(spec_option_statement_comma);
    }
    let mut c = State::start(at);
    c.trivia(source);
    if c.ok {
        let found = parse_comma(source, c.pos);
        c.pass(found);
    }
    c
}

/// The cursor after `~ OptionItem#option_item (~ COMMA)?` was tried at index
/// `at`.
#[verifier::opaque]
pub open spec fn spec_option_statement_item(text: Seq<char>, at: int) -> Cursor {
    let c = Cursor::start(at);
    let c = c.trivia(text);
    let c = c.attach(spec_option_item(text, c.pos), Slot::OptionItem);
    let c = c.option(spec_option_statement_comma(text, c.pos));
    c
}

/// Try `~ OptionItem#option_item (~ COMMA)?` at index `at`.
pub fn match_option_statement_item(source: &Source, at: usize) -> (group: State)
    requires
        at <= source@.len(),
    ensures
        group@ == spec_option_statement_item(source@, at as int),
        group@.within(source@, at as int),
        group@.ok ==> group@.pos > at,
{
    proof {
        reveal(spec_option_statement_item);
    }
    let mut c = State::start(at);
    c.trivia(source);
    if c.ok {
        let found = parse_option_item(source, c.pos);
        c.attach(found, Slot::OptionItem);
    }
    if c.ok {
        let group = match_option_statement_comma(source, c.pos);
        c.option(group);
    }
    c
}

/// The cursor after `(~ OptionItem#option_item (~ COMMA)?)*` was matched from
/// the cursor `from` on: the group as often as it matches and moves the cursor.
pub open spec fn spec_option_statement_items(text: Seq<char>, from: Cursor) -> Cursor
    decreases text.len() - from.pos,
{
    if !from.ok {
        from
    } else {
        let step = spec_option_statement_item(text, from.pos);
        if step.ok && from.pos < step.pos <= text.len() {
            spec_option_statement_items(text, from.join(step))
        } else {
            from.note(step.far)
        }
    }
}

/// Match `(~ OptionItem#option_item (~ COMMA)?)*` from the cursor `from` on.
#[verifier::rlimit(30)]
pub fn match_option_statement_items(source: &Source, from: State) -> (done: State)
    requires
        from@.pos <= source@.len(),
        from@.far <= source@.len(),
    ensures
        done@ == spec_option_statement_items(source@, from@),
        done@.ok == from@.ok,
        from@.pos <= done@.pos <= source@.len(),
        from@.far <= done@.far <= source@.len(),
{
    let mut c = from;
    if !c.ok {
        return c;
    }
    loop
        invariant
            c.ok,
            from@.pos <= c@.pos <= source@.len(),
            from@.far <= c@.far <= source@.len(),
            spec_option_statement_items(source@, from@) == spec_option_statement_items(source@, c@),
        decreases source@.len() - c@.pos,
    {
        let step = match_option_statement_item(source, c.pos);
        if step.ok && step.pos > c.pos {
            c.join(step);
        } else {
            c.note(step.far);
            return c;
        }
    }
}

/// The result of the rule `OptionStatement` at index `at`.
///
/// ```text
/// OptionStatement <- KW_OPTIONS ~ '[' (~ OptionItem#option_item (~
///     COMMA)?)* ~ ']'
/// ```
#[verifier::opaque]
pub open spec fn spec_option_statement(text: Seq<char>, at: int) -> Outcome {
    let c = Cursor::start(at);
    let c = c.pass(spec_kw_options(text, c.pos));
    let c = c.trivia(text);
    let c = c.word(text, "["@);
    let c = spec_option_statement_items(text, c);
    let c = c.trivia(text);
    let c = c.word(text, "]"@);
    c.finish(text, LifeRestartRule::OptionStatement, at)
}

/// Match the rule `OptionStatement` at index `at`.
#[verifier::rlimit(30)]
pub fn parse_option_statement(source: &Source, at: usize) -> (found: Match)
    requires
        at <= source@.len(),
    ensures
        found@ == spec_option_statement(source@, at as int),
        found@.within(source@, at as int),
        found@.tree is Some ==> found@.end > at,
{
    proof {
        reveal(spec_option_statement);
    }
    let mut c = State::start(at);
    if c.ok {
        let found = parse_kw_options(source, c.pos);
        c.pass(found);
    }
    c.trivia(source);
    c.word(source, "[");
    if c.ok {
        c = match_option_statement_items(source, c);
    }
    c.trivia(source);
    c.word(source, "]");
    c.finish(source, LifeRestartRule::OptionStatement, at)
}

/// The cursor after `~ COLON ~ Integer#weight` was tried at index `at`.
#[verifier::opaque]
pub open spec fn spec_option_item_weight(text: Seq<char>, at: int) -> Cursor {
    let c = Cursor::start(at);
    let c = c.trivia(text);
    let c = c.pass(spec_colon(text, c.pos));
    let c = c.trivia(text);
    let c = c.attach(spec_integer(text, c.pos), Slot::Weight);
    c
}

/// Try `~ COLON ~ Integer#weight` at index `at`.
pub fn match_option_item_weight(source: &Source, at: usize) -> (group: State)
    requires
        at <= source@.len(),
    ensures
        group@ == spec_option_item_weight(source@, at as int),
        group@.within(source@, at as int),
        group@.ok ==> group@.pos > at,
{
    proof {
        reveal(spec_option_item_weight);
    }
    let mut c = State::start(at);
    c.trivia(source);
    if c.ok {
        let found = parse_colon(source, c.pos);
        c.pass(found);
    }
    c.trivia(source);
    if c.ok {
        let found = parse_integer(source, c.pos);
        c.attach(found, Slot::Weight);
    }
    c
}

/// The result of the rule `OptionItem` at index `at`.
///
/// ```text
/// OptionItem <- Identifier#variant (~ COLON ~ Integer#weight)?
/// ```
#[verifier::opaque]
pub open spec fn spec_option_item(text: Seq<char>, at: int) -> Outcome {
    let c = Cursor::start(at);
    let c = c.attach(spec_identifier(text, c.pos), Slot::Variant);
    let c = c.option(spec_option_item_weight(text, c.pos));
    c.finish(text, LifeRestartRule::OptionItem, at)
}

/// Match the rule `OptionItem` at index `at`.
pub fn parse_option_item(source: &Source, at: usize) -> (found: Match)
    requires
        at <= source@.len(),
    ensures
        found@ == spec_option_item(source@, at as int),
        found@.within(source@, at as int),
        found@.tree is Some ==> found@.end > at,
{
    proof {
        reveal(spec_option_item);
    }
    let mut c = State::start(at);
    if c.ok {
        let found = parse_identifier(source, c.pos);
        c.attach(found, Slot::Variant);
    }
    if c.ok {
        let group = match_option_item_weight(source, c.pos);
        c.option(group);
    }
    c.finish(source, LifeRestartRule::OptionItem, at)
}

/// The cursor after `~ TraitStatement#trait_statement` was tried at index `at`.
#[verifier::opaque]
pub open spec fn spec_trait_group_item(text: Seq<char>, at: int) -> Cursor {
    let c = Cursor::start(at);
    let c = c.trivia(text);
    let c = c.attach(spec_trait_statement(text, c.pos), Slot::TraitStatement);
    c
}

/// Try `~ TraitStatement#trait_statement` at index `at`.
pub fn match_trait_group_item(source: &Source, at: usize) -> (group: State)
    requires
        at <= source@.len(),
    ensures
        group@ == spec_trait_group_item(source@, at as int),
        group@.within(source@, at as int),
        group@.ok ==> group@.pos > at,
{
    proof {
        reveal(spec_trait_group_item);
    }
    let mut c = State::start(at);
    c.trivia(source);
    if c.ok {
        let found = parse_trait_statement(source, c.pos);
        c.attach(found, Slot::TraitStatement);
    }
    c
}

/// The cursor after `(~ TraitStatement#trait_statement)*` was matched from the
/// cursor `from` on: the group as often as it matches and moves the cursor.
pub open spec fn spec_trait_group_items(text: Seq<char>, from: Cursor) -> Cursor
    decreases text.len() - from.pos,
{
    if !from.ok {
        from
    } else {
        let step = spec_trait_group_item(text, from.pos);
        if step.ok && from.pos < step.pos <= text.len() {
            spec_trait_group_items(text, from.join(step))
        } else {
            from.note(step.far)
        }
    }
}

/// Match `(~ TraitStatement#trait_statement)*` from the cursor `from` on.
#[verifier::rlimit(30)]
pub fn match_trait_group_items(source: &Source, from: State) -> (done: State)
    requires
        from@.pos <= source@.len(),
        from@.far <= source@.len(),
    ensures
        done@ == spec_trait_group_items(source@, from@),
        done@.ok == from@.ok,
        from@.pos <= done@.pos <= source@.len(),
        from@.far <= done@.far <= source@.len(),
{
    let mut c = from;
    if !c.ok {
        return c;
    }
    loop
        invariant
            c.ok,
            from@.pos <= c@.pos <= source@.len(),
            from@.far <= c@.far <= source@.len(),
            spec_trait_group_items(source@, from@) == spec_trait_group_items(source@, c@),
        decreases source@.len() - c@.pos,
    {
        let step = match_trait_group_item(source, c.pos);
        if step.ok && step.pos > c.pos {
            c.join(step);
        } else {
            c.note(step.far);
            return c;
        }
    }
}

/// The result of the rule `TraitGroup` at index `at`.
///
/// ```text
/// TraitGroup <- KW_TRAIT_GROUP ~ Identifier#identifier ~ '{' (~
///     TraitStatement#trait_statement)* ~ '}'
/// ```
#[verifier::opaque]
pub open spec fn spec_trait_group(text: Seq<char>, at: int) -> Outcome {
    let c = Cursor::start(at);
    let c = c.pass(spec_kw_trait_group(text, c.pos));
    let c = c.trivia(text);
    let c = c.attach(spec_identifier(text, c.pos), Slot::Identifier);
    let c = c.trivia(text);
    let c = c.word(text, "{"@);
    let c = spec_trait_group_items(text, c);
    let c = c.trivia(text);
    let c = c.word(text, "}"@);
    c.finish(text, LifeRestartRule::TraitGroup, at)
}

/// Match the rule `TraitGroup` at index `at`.
#[verifier::rlimit(30)]
pub fn parse_trait_group(source: &Source, at: usize) -> (found: Match)
    requires
        at <= source@.len(),
    ensures
        found@ == spec_trait_group(source@, at as int),
        found@.within(source@, at as int),
        found@.tree is Some ==> found@.end > at,
{
    proof {
        reveal(spec_trait_group);
    }
    let mut c = State::start(at);
    if c.ok {
        let found = parse_kw_trait_group(source, c.pos);
        c.pass(found);
    }
    c.trivia(source);
    if c.ok {
        let found = parse_identifier(source, c.pos);
        c.attach(found, Slot::Identifier);
    }
    c.trivia(source);
    c.word(source, "{");
    if c.ok {
        c = match_trait_group_items(source, c);
    }
    c.trivia(source);
    c.word(source, "}");
    c.finish(source, LifeRestartRule::TraitGroup, at)
}

/// The cursor after `~ TraitItem#trait_item` was tried at index `at`.
#[verifier::opaque]
pub open spec fn spec_trait_statement_item(text: Seq<char>, at: int) -> Cursor {
    let c = Cursor::start(at);
    let c = c.trivia(text);
    let c = c.attach(spec_trait_item(text, c.pos), Slot::TraitItem);
    c
}

/// Try `~ TraitItem#trait_item` at index `at`.
pub fn match_trait_statement_item(source: &Source, at: usize) -> (group: State)
    requires
        at <= source@.len(),
    ensures
        group@ == spec_trait_statement_item(source@, at as int),
        group@.within(source@, at as int),
        group@.ok ==> group@.pos > at,
{
    proof {
        reveal(spec_trait_statement_item);
    }
    let mut c = State::start(at);
    c.trivia(source);
    if c.ok {
        let found = parse_trait_item(source, c.pos);
        c.attach(found, Slot::TraitItem);
    }
    c
}

/// The cursor after `(~ TraitItem#trait_item)*` was matched from the cursor
/// `from` on: the group as often as it matches and moves the cursor.
pub open spec fn spec_trait_statement_items(text: Seq<char>, from: Cursor) -> Cursor
    decreases text.len() - from.pos,
{
    if !from.ok {
        from
    } else {
        let step = spec_trait_statement_item(text, from.pos);
        if step.ok && from.pos < step.pos <= text.len() {
            spec_trait_statement_items(text, from.join(step))
        } else {
            from.note(step.far)
        }
    }
}

/// Match `(~ TraitItem#trait_item)*` from the cursor `from` on.
#[verifier::rlimit(30)]
pub fn match_trait_statement_items(source: &Source, from: State) -> (done: State)
    requires
        from@.pos <= source@.len(),
        from@.far <= source@.len(),
    ensures
        done@ == spec_trait_statement_items(source@, from@),
        done@.ok == from@.ok,
        from@.pos <= done@.pos <= source@.len(),
        from@.far <= done@.far <= source@.len(),
{
    let mut c = from;
    if !c.ok {
        return c;
    }
    loop
        invariant
            c.ok,
            from@.pos <= c@.pos <= source@.len(),
            from@.far <= c@.far <= source@.len(),
            spec_trait_statement_items(source@, from@) == spec_trait_statement_items(source@, c@),
        decreases source@.len() - c@.pos,
    {
        let step = match_trait_statement_item(source, c.pos);
        if step.ok && step.pos > c.pos {
            c.join(step);
        } else {
            c.note(step.far);
            return c;
        }
    }
}

/// The result of the rule `TraitStatement` at index `at`.
///
/// ```text
/// TraitStatement <- KW_TRAIT ~ Identifier#identifier ~ '{' (~
///     TraitItem#trait_item)* ~ '}'
/// ```
#[verifier::opaque]
pub open spec fn spec_trait_statement(text: Seq<char>, at: int) -> Outcome {
    let c = Cursor::start(at);
    let c = c.pass(spec_kw_trait(text, c.pos));
    let c = c.trivia(text);
    let c = c.attach(spec_identifier(text, c.pos), Slot::Identifier);
    let c = c.trivia(text);
    let c = c.word(text, "{"@);
    let c = spec_trait_statement_items(text, c);
    let c = c.trivia(text);
    let c = c.word(text, "}"@);
    c.finish(text, LifeRestartRule::TraitStatement, at)
}

/// Match the rule `TraitStatement` at index `at`.
#[verifier::rlimit(30)]
pub fn parse_trait_statement(source: &Source, at: usize) -> (found: Match)
    requires
        at <= source@.len(),
    ensures
        found@ == spec_trait_statement(source@, at as int),
        found@.within(source@, at as int),
        found@.tree is Some ==> found@.end > at,
{
    proof {
        reveal(spec_trait_statement);
    }
    let mut c = State::start(at);
    if c.ok {
        let found = parse_kw_trait(source, c.pos);
        c.pass(found);
    }
    c.trivia(source);
    if c.ok {
        let found = parse_identifier(source, c.pos);
        c.attach(found, Slot::Identifier);
    }
    c.trivia(source);
    c.word(source, "{");
    if c.ok {
        c = match_trait_statement_items(source, c);
    }
    c.trivia(source);
    c.word(source, "}");
    c.finish(source, LifeRestartRule::TraitStatement, at)
}

/// The result of the rule `TraitItem` at index `at`.
///
/// ```text
/// TraitItem <- IdStatement#id_statement /
///     DescriptionStatement#description_statement /
///     RequirementStatement#requirement_statement /
///     EffectStatement#effect_statement
/// ```
#[verifier::opaque]
pub open spec fn spec_trait_item(text: Seq<char>, at: int) -> Outcome {
    let c = Cursor::start(at);
    let c = if !c.ok {
        c
    } else {
        let alt = Cursor::start(c.pos).attach(spec_id_statement(text, c.pos), Slot::IdStatement);
        if alt.ok {
            c.join(alt)
        } else {
            let c = c.note(alt.far);
            let alt = Cursor::start(c.pos).attach(
                spec_description_statement(text, c.pos),
                Slot::DescriptionStatement,
            );
            if alt.ok {
                c.join(alt)
            } else {
                let c = c.note(alt.far);
                let alt = Cursor::start(c.pos).attach(
                    spec_requirement_statement(text, c.pos),
                    Slot::RequirementStatement,
                );
                if alt.ok {
                    c.join(alt)
                } else {
                    let c = c.note(alt.far);
                    let alt = Cursor::start(c.pos).attach(
                        spec_effect_statement(text, c.pos),
                        Slot::EffectStatement,
                    );
                    if alt.ok {
                        c.join(alt)
                    } else {
                        c.note(alt.far).halt()
                    }
                }
            }
        }
    };
    c.finish(text, LifeRestartRule::TraitItem, at)
}

/// Match the rule `TraitItem` at index `at`.
pub fn parse_trait_item(source: &Source, at: usize) -> (found: Match)
    requires
        at <= source@.len(),
    ensures
        found@ == spec_trait_item(source@, at as int),
        found@.within(source@, at as int),
        found@.tree is Some ==> found@.end > at,
{
    proof {
        reveal(spec_trait_item);
    }
    let mut c = State::start(at);
    if c.ok {
        let alt = State::attached(parse_id_statement(source, c.pos), Slot::IdStatement, c.pos);
        if alt.ok {
            c.join(alt);
        } else {
            c.note(alt.far);
            let alt = State::attached(
                parse_description_statement(source, c.pos),
                Slot::DescriptionStatement,
                c.pos,
            );
            if alt.ok {
                c.join(alt);
            } else {
                c.note(alt.far);
                let alt = State::attached(
                    parse_requirement_statement(source, c.pos),
                    Slot::RequirementStatement,
                    c.pos,
                );
                if alt.ok {
                    c.join(alt);
                } else {
                    c.note(alt.far);
                    let alt = State::attached(
                        parse_effect_statement(source, c.pos),
                        Slot::EffectStatement,
                        c.pos,
                    );
                    if alt.ok {
                        c.join(alt);
                    } else {
                        c.note(alt.far);
                        c.halt();
                    }
                }
            }
        }
    }
    c.finish(source, LifeRestartRule::TraitItem, at)
}

/// The result of the rule `TraitProperty` at index `at`.
///
/// ```text
/// TraitProperty <- Identifier#identifier ~ COLON ~ Atomic#atomic
/// ```
#[verifier::opaque]
pub open spec fn spec_trait_property(text: Seq<char>, at: int) -> Outcome {
    let c = Cursor::start(at);
    let c = c.attach(spec_identifier(text, c.pos), Slot::Identifier);
    let c = c.trivia(text);
    let c = c.pass(spec_colon(text, c.pos));
    let c = c.trivia(text);
    let c = c.attach(spec_atomic(text, c.pos), Slot::Atomic);
    c.finish(text, LifeRestartRule::TraitProperty, at)
}

/// Match the rule `TraitProperty` at index `at`.
#[verifier::rlimit(30)]
pub fn parse_trait_property(source: &Source, at: usize) -> (found: Match)
    requires
        at <= source@.len(),
    ensures
        found@ == spec_trait_property(source@, at as int),
        found@.within(source@, at as int),
        found@.tree is Some ==> found@.end > at,
{
    proof {
        reveal(spec_trait_property);
    }
    let mut c = State::start(at);
    if c.ok {
        let found = parse_identifier(source, c.pos);
        c.attach(found, Slot::Identifier);
    }
    c.trivia(source);
    if c.ok {
        let found = parse_colon(source, c.pos);
        c.pass(found);
    }
    c.trivia(source);
    if c.ok {
        let found = parse_atomic(source, c.pos);
        c.attach(found, Slot::Atomic);
    }
    c.finish(source, LifeRestartRule::TraitProperty, at)
}

/// The cursor after `~ Statement#statement` was tried at index `at`.
#[verifier::opaque]
pub open spec fn spec_requirement_statement_item(text: Seq<char>, at: int) -> Cursor {
    let c = Cursor::start(at);
    let c = c.trivia(text);
    let c = c.attach(spec_statement(text, c.pos), Slot::Statement);
    c
}

/// Try `~ Statement#statement` at index `at`.
#[verifier::rlimit(30)]
pub fn match_requirement_statement_item(source: &Source, at: usize) -> (group: State)
    requires
        at <= source@.len(),
    ensures
        group@ == spec_requirement_statement_item(source@, at as int),
        group@.within(source@, at as int),
        group@.ok ==> group@.pos > at,
{
    proof {
        reveal(spec_requirement_statement_item);
    }
    let mut c = State::start(at);
    c.trivia(source);
    if c.ok {
        let found = parse_statement(source, c.pos);
        c.attach(found, Slot::Statement);
    }
    c
}

/// The cursor after `(~ Statement#statement)*` was matched from the cursor
/// `from` on: the group as often as it matches and moves the cursor.
pub open spec fn spec_requirement_statement_items(text: Seq<char>, from: Cursor) -> Cursor
    decreases text.len() - from.pos,
{
    if !from.ok {
        from
    } else {
        let step = spec_requirement_statement_item(text, from.pos);
        if step.ok && from.pos < step.pos <= text.len() {
            spec_requirement_statement_items(text, from.join(step))
        } else {
            from.note(step.far)
        }
    }
}

/// Match `(~ Statement#statement)*` from the cursor `from` on.
#[verifier::rlimit(30)]
pub fn match_requirement_statement_items(source: &Source, from: State) -> (done: State)
    requires
        from@.pos <= source@.len(),
        from@.far <= source@.len(),
    ensures
        done@ == spec_requirement_statement_items(source@, from@),
        done@.ok == from@.ok,
        from@.pos <= done@.pos <= source@.len(),
        from@.far <= done@.far <= source@.len(),
{
    let mut c = from;
    if !c.ok {
        return c;
    }
    loop
        invariant
            c.ok,
            from@.pos <= c@.pos <= source@.len(),
            from@.far <= c@.far <= source@.len(),
            spec_requirement_statement_items(source@, from@)
                == spec_requirement_statement_items(source@, c@),
        decreases source@.len() - c@.pos,
    {
        let step = match_requirement_statement_item(source, c.pos);
        if step.ok && step.pos > c.pos {
            c.join(step);
        } else {
            c.note(step.far);
            return c;
        }
    }
}

/// The result of the rule `RequirementStatement` at index `at`.
///
/// ```text
/// RequirementStatement <- KW_REQUIREMENT ~ '{' (~ Statement#statement)*
///     ~ '}'
/// ```
#[verifier::opaque]
pub open spec fn spec_requirement_statement(text: Seq<char>, at: int) -> Outcome {
    let c = Cursor::start(at);
    let c = c.pass(spec_kw_requirement(text, c.pos));
    let c = c.trivia(text);
    let c = c.word(text, "{"@);
    let c = spec_requirement_statement_items(text, c);
    let c = c.trivia(text);
    let c = c.word(text, "}"@);
    c.finish(text, LifeRestartRule::RequirementStatement, at)
}

/// Match the rule `RequirementStatement` at index `at`.
#[verifier::rlimit(30)]
pub fn parse_requirement_statement(source: &Source, at: usize) -> (found: Match)
    requires
        at <= source@.len(),
    ensures
        found@ == spec_requirement_statement(source@, at as int),
        found@.within(source@, at as int),
        found@.tree is Some ==> found@.end > at,
{
    proof {
        reveal(spec_requirement_statement);
    }
    let mut c = State::start(at);
    if c.ok {
        let found = parse_kw_requirement(source, c.pos);
        c.pass(found);
    }
    c.trivia(source);
    c.word(source, "{");
    if c.ok {
        c = match_requirement_statement_items(source, c);
    }
    c.trivia(source);
    c.word(source, "}");
    c.finish(source, LifeRestartRule::RequirementStatement, at)
}

/// The cursor after `~ Statement#statement` was tried at index `at`.
#[verifier::opaque]
pub open spec fn spec_effect_statement_item(text: Seq<char>, at: int) -> Cursor {
    let c = Cursor::start(at);
    let c = c.trivia(text);
    let c = c.attach(spec_statement(text, c.pos), Slot::Statement);
    c
}

/// Try `~ Statement#statement` at index `at`.
#[verifier::rlimit(30)]
pub fn match_effect_statement_item(source: &Source, at: usize) -> (group: State)
    requires
        at <= source@.len(),
    ensures
        group@ == spec_effect_statement_item(source@, at as int),
        group@.within(source@, at as int),
        group@.ok ==> group@.pos > at,
{
    proof {
        reveal(spec_effect_statement_item);
    }
    let mut c = State::start(at);
    c.trivia(source);
    if c.ok {
        let found = parse_statement(source, c.pos);
        c.attach(found, Slot::Statement);
    }
    c
}

/// The cursor after `(~ Statement#statement)*` was matched from the cursor
/// `from` on: the group as often as it matches and moves the cursor.
pub open spec fn spec_effect_statement_items(text: Seq<char>, from: Cursor) -> Cursor
    decreases text.len() - from.pos,
{
    if !from.ok {
        from
    } else {
        let step = spec_effect_statement_item(text, from.pos);
        if step.ok && from.pos < step.pos <= text.len() {
            spec_effect_statement_items(text, from.join(step))
        } else {
            from.note(step.far)
        }
    }
}

/// Match `(~ Statement#statement)*` from the cursor `from` on.
#[verifier::rlimit(30)]
pub fn match_effect_statement_items(source: &Source, from: State) -> (done: State)
    requires
        from@.pos <= source@.len(),
        from@.far <= source@.len(),
    ensures
        done@ == spec_effect_statement_items(source@, from@),
        done@.ok == from@.ok,
        from@.pos <= done@.pos <= source@.len(),
        from@.far <= done@.far <= source@.len(),
{
    let mut c = from;
    if !c.ok {
        return c;
    }
    loop
        invariant
            c.ok,
            from@.pos <= c@.pos <= source@.len(),
            from@.far <= c@.far <= source@.len(),
            spec_effect_statement_items(source@, from@) == spec_effect_statement_items(source@, c@),
        decreases source@.len() - c@.pos,
    {
        let step = match_effect_statement_item(source, c.pos);
        if step.ok && step.pos > c.pos {
            c.join(step);
        } else {
            c.note(step.far);
            return c;
        }
    }
}

/// The result of the rule `EffectStatement` at index `at`.
///
/// ```text
/// EffectStatement <- KW_EFFECT ~ '{' (~ Statement#statement)* ~ '}'
/// ```
#[verifier::opaque]
pub open spec fn spec_effect_statement(text: Seq<char>, at: int) -> Outcome {
    let c = Cursor::start(at);
    let c = c.pass(spec_kw_effect(text, c.pos));
    let c = c.trivia(text);
    let c = c.word(text, "{"@);
    let c = spec_effect_statement_items(text, c);
    let c = c.trivia(text);
    let c = c.word(text, "}"@);
    c.finish(text, LifeRestartRule::EffectStatement, at)
}

/// Match the rule `EffectStatement` at index `at`.
#[verifier::rlimit(30)]
pub fn parse_effect_statement(source: &Source, at: usize) -> (found: Match)
    requires
        at <= source@.len(),
    ensures
        found@ == spec_effect_statement(source@, at as int),
        found@.within(source@, at as int),
        found@.tree is Some ==> found@.end > at,
{
    proof {
        reveal(spec_effect_statement);
    }
    let mut c = State::start(at);
    if c.ok {
        let found = parse_kw_effect(source, c.pos);
        c.pass(found);
    }
    c.trivia(source);
    c.word(source, "{");
    if c.ok {
        c = match_effect_statement_items(source, c);
    }
    c.trivia(source);
    c.word(source, "}");
    c.finish(source, LifeRestartRule::EffectStatement, at)
}

/// The cursor after `~ EventStatement#event_statement` was tried at index `at`.
#[verifier::opaque]
pub open spec fn spec_event_group_item(text: Seq<char>, at: int) -> Cursor {
    let c = Cursor::start(at);
    let c = c.trivia(text);
    let c = c.attach(spec_event_statement(text, c.pos), Slot::EventStatement);
    c
}

/// Try `~ EventStatement#event_statement` at index `at`.
pub fn match_event_group_item(source: &Source, at: usize) -> (group: State)
    requires
        at <= source@.len(),
    ensures
        group@ == spec_event_group_item(source@, at as int),
        group@.within(source@, at as int),
        group@.ok ==> group@.pos > at,
{
    proof {
        reveal(spec_event_group_item);
    }
    let mut c = State::start(at);
    c.trivia(source);
    if c.ok {
        let found = parse_event_statement(source, c.pos);
        c.attach(found, Slot::EventStatement);
    }
    c
}

/// The cursor after `(~ EventStatement#event_statement)*` was matched from the
/// cursor `from` on: the group as often as it matches and moves the cursor.
pub open spec fn spec_event_group_items(text: Seq<char>, from: Cursor) -> Cursor
    decreases text.len() - from.pos,
{
    if !from.ok {
        from
    } else {
        let step = spec_event_group_item(text, from.pos);
        if step.ok && from.pos < step.pos <= text.len() {
            spec_event_group_items(text, from.join(step))
        } else {
            from.note(step.far)
        }
    }
}

/// Match `(~ EventStatement#event_statement)*` from the cursor `from` on.
#[verifier::rlimit(30)]
pub fn match_event_group_items(source: &Source, from: State) -> (done: State)
    requires
        from@.pos <= source@.len(),
        from@.far <= source@.len(),
    ensures
        done@ == spec_event_group_items(source@, from@),
        done@.ok == from@.ok,
        from@.pos <= done@.pos <= source@.len(),
        from@.far <= done@.far <= source@.len(),
{
    let mut c = from;
    if !c.ok {
        return c;
    }
    loop
        invariant
            c.ok,
            from@.pos <= c@.pos <= source@.len(),
            from@.far <= c@.far <= source@.len(),
            spec_event_group_items(source@, from@) == spec_event_group_items(source@, c@),
        decreases source@.len() - c@.pos,
    {
        let step = match_event_group_item(source, c.pos);
        if step.ok && step.pos > c.pos {
            c.join(step);
        } else {
            c.note(step.far);
            return c;
        }
    }
}

/// The result of the rule `EventGroup` at index `at`.
///
/// ```text
/// EventGroup <- KW_EVENT_GROUP ~ Identifier#identifier ~ '{' (~
///     EventStatement#event_statement)* ~ '}'
/// ```
#[verifier::opaque]
pub open spec fn spec_event_group(text: Seq<char>, at: int) -> Outcome {
    let c = Cursor::start(at);
    let c = c.pass(spec_kw_event_group(text, c.pos));
    let c = c.trivia(text);
    let c = c.attach(spec_identifier(text, c.pos), Slot::Identifier);
    let c = c.trivia(text);
    let c = c.word(text, "{"@);
    let c = spec_event_group_items(text, c);
    let c = c.trivia(text);
    let c = c.word(text, "}"@);
    c.finish(text, LifeRestartRule::EventGroup, at)
}

/// Match the rule `EventGroup` at index `at`.
#[verifier::rlimit(30)]
pub fn parse_event_group(source: &Source, at: usize) -> (found: Match)
    requires
        at <= source@.len(),
    ensures
        found@ == spec_event_group(source@, at as int),
        found@.within(source@, at as int),
        found@.tree is Some ==> found@.end > at,
{
    proof {
        reveal(spec_event_group);
    }
    let mut c = State::start(at);
    if c.ok {
        let found = parse_kw_event_group(source, c.pos);
        c.pass(found);
    }
    c.trivia(source);
    if c.ok {
        let found = parse_identifier(source, c.pos);
        c.attach(found, Slot::Identifier);
    }
    c.trivia(source);
    c.word(source, "{");
    if c.ok {
        c = match_event_group_items(source, c);
    }
    c.trivia(source);
    c.word(source, "}");
    c.finish(source, LifeRestartRule::EventGroup, at)
}

/// The cursor after `~ EventItem#event_item` was tried at index `at`.
#[verifier::opaque]
pub open spec fn spec_event_statement_item(text: Seq<char>, at: int) -> Cursor {
    let c = Cursor::start(at);
    let c = c.trivia(text);
    let c = c.attach(spec_event_item(text, c.pos), Slot::EventItem);
    c
}

/// Try `~ EventItem#event_item` at index `at`.
pub fn match_event_statement_item(source: &Source, at: usize) -> (group: State)
    requires
        at <= source@.len(),
    ensures
        group@ == spec_event_statement_item(source@, at as int),
        group@.within(source@, at as int),
        group@.ok ==> group@.pos > at,
{
    proof {
        reveal(spec_event_statement_item);
    }
    let mut c = State::start(at);
    c.trivia(source);
    if c.ok {
        let found = parse_event_item(source, c.pos);
        c.attach(found, Slot::EventItem);
    }
    c
}

/// The cursor after `(~ EventItem#event_item)*` was matched from the cursor
/// `from` on: the group as often as it matches and moves the cursor.
pub open spec fn spec_event_statement_items(text: Seq<char>, from: Cursor) -> Cursor
    decreases text.len() - from.pos,
{
    if !from.ok {
        from
    } else {
        let step = spec_event_statement_item(text, from.pos);
        if step.ok && from.pos < step.pos <= text.len() {
            spec_event_statement_items(text, from.join(step))
        } else {
            from.note(step.far)
        }
    }
}

/// Match `(~ EventItem#event_item)*` from the cursor `from` on.
#[verifier::rlimit(30)]
pub fn match_event_statement_items(source: &Source, from: State) -> (done: State)
    requires
        from@.pos <= source@.len(),
        from@.far <= source@.len(),
    ensures
        done@ == spec_event_statement_items(source@, from@),
        done@.ok == from@.ok,
        from@.pos <= done@.pos <= source@.len(),
        from@.far <= done@.far <= source@.len(),
{
    let mut c = from;
    if !c.ok {
        return c;
    }
    loop
        invariant
            c.ok,
            from@.pos <= c@.pos <= source@.len(),
            from@.far <= c@.far <= source@.len(),
            spec_event_statement_items(source@, from@) == spec_event_statement_items(source@, c@),
        decreases source@.len() - c@.pos,
    {
        let step = match_event_statement_item(source, c.pos);
        if step.ok && step.pos > c.pos {
            c.join(step);
        } else {
            c.note(step.far);
            return c;
        }
    }
}

/// The result of the rule `EventStatement` at index `at`.
///
/// ```text
/// EventStatement <- KW_EVENT ~ Identifier#identifier ~ '{' (~
///     EventItem#event_item)* ~ '}'
/// ```
#[verifier::opaque]
pub open spec fn spec_event_statement(text: Seq<char>, at: int) -> Outcome {
    let c = Cursor::start(at);
    let c = c.pass(spec_kw_event(text, c.pos));
    let c = c.trivia(text);
    let c = c.attach(spec_identifier(text, c.pos), Slot::Identifier);
    let c = c.trivia(text);
    let c = c.word(text, "{"@);
    let c = spec_event_statement_items(text, c);
    let c = c.trivia(text);
    let c = c.word(text, "}"@);
    c.finish(text, LifeRestartRule::EventStatement, at)
}

/// Match the rule `EventStatement` at index `at`.
#[verifier::rlimit(30)]
pub fn parse_event_statement(source: &Source, at: usize) -> (found: Match)
    requires
        at <= source@.len(),
    ensures
        found@ == spec_event_statement(source@, at as int),
        found@.within(source@, at as int),
        found@.tree is Some ==> found@.end > at,
{
    proof {
        reveal(spec_event_statement);
    }
    let mut c = State::start(at);
    if c.ok {
        let found = parse_kw_event(source, c.pos);
        c.pass(found);
    }
    c.trivia(source);
    if c.ok {
        let found = parse_identifier(source, c.pos);
        c.attach(found, Slot::Identifier);
    }
    c.trivia(source);
    c.word(source, "{");
    if c.ok {
        c = match_event_statement_items(source, c);
    }
    c.trivia(source);
    c.word(source, "}");
    c.finish(source, LifeRestartRule::EventStatement, at)
}

/// The result of the rule `EventItem` at index `at`.
///
/// ```text
/// EventItem <- IdStatement#id_statement /
///     DescriptionStatement#description_statement /
///     RequirementStatement#requirement_statement /
///     OptionStatement#option_statement
/// ```
#[verifier::opaque]
pub open spec fn spec_event_item(text: Seq<char>, at: int) -> Outcome {
    let c = Cursor::start(at);
    let c = if !c.ok {
        c
    } else {
        let alt = Cursor::start(c.pos).attach(spec_id_statement(text, c.pos), Slot::IdStatement);
        if alt.ok {
            c.join(alt)
        } else {
            let c = c.note(alt.far);
            let alt = Cursor::start(c.pos).attach(
                spec_description_statement(text, c.pos),
                Slot::DescriptionStatement,
            );
            if alt.ok {
                c.join(alt)
            } else {
                let c = c.note(alt.far);
                let alt = Cursor::start(c.pos).attach(
                    spec_requirement_statement(text, c.pos),
                    Slot::RequirementStatement,
                );
                if alt.ok {
                    c.join(alt)
                } else {
                    let c = c.note(alt.far);
                    let alt = Cursor::start(c.pos).attach(
                        spec_option_statement(text, c.pos),
                        Slot::OptionStatement,
                    );
                    if alt.ok {
                        c.join(alt)
                    } else {
                        c.note(alt.far).halt()
                    }
                }
            }
        }
    };
    c.finish(text, LifeRestartRule::EventItem, at)
}

/// Match the rule `EventItem` at index `at`.
pub fn parse_event_item(source: &Source, at: usize) -> (found: Match)
    requires
        at <= source@.len(),
    ensures
        found@ == spec_event_item(source@, at as int),
        found@.within(source@, at as int),
        found@.tree is Some ==> found@.end > at,
{
    proof {
        reveal(spec_event_item);
    }
    let mut c = State::start(at);
    if c.ok {
        let alt = State::attached(parse_id_statement(source, c.pos), Slot::IdStatement, c.pos);
        if alt.ok {
            c.join(alt);
        } else {
            c.note(alt.far);
            let alt = State::attached(
                parse_description_statement(source, c.pos),
                Slot::DescriptionStatement,
                c.pos,
            );
            if alt.ok {
                c.join(alt);
            } else {
                c.note(alt.far);
                let alt = State::attached(
                    parse_requirement_statement(source, c.pos),
                    Slot::RequirementStatement,
                    c.pos,
                );
                if alt.ok {
                    c.join(alt);
                } else {
                    c.note(alt.far);
                    let alt = State::attached(
                        parse_option_statement(source, c.pos),
                        Slot::OptionStatement,
                        c.pos,
                    );
                    if alt.ok {
                        c.join(alt);
                    } else {
                        c.note(alt.far);
                        c.halt();
                    }
                }
            }
        }
    }
    c.finish(source, LifeRestartRule::EventItem, at)
}

/// The cursor after `~ EventProperty` was tried at index `at`.
pub open spec fn spec_event_property_entry(text: Seq<char>, at: int) -> Cursor
    decreases text.len() - at, 1nat,
{
    let c = Cursor::start(at);
    let c = c.trivia(text);
    let found = if at <= c.pos && c.pos <= text.len() {
        spec_event_property(text, c.pos)
    } else {
        Outcome::none(c.pos)
    };
    let c = c.pass(found);
    c
}

/// Try `~ EventProperty` at index `at`.
#[verifier::rlimit(30)]
pub fn match_event_property_entry(source: &Source, at: usize) -> (group: State)
    requires
        at <= source@.len(),
    ensures
        group@ == spec_event_property_entry(source@, at as int),
        group@.within(source@, at as int),
        group@.ok ==> group@.pos > at,
    decreases source@.len() - at, 1nat,
{
    let mut c = State::start(at);
    c.trivia(source);
    if c.ok {
        let found = parse_event_property(source, c.pos);
        c.pass(found);
    }
    c
}

/// The cursor after `(~ EventProperty)*` was matched from the cursor `from` on:
/// the group as often as it matches and moves the cursor.
pub open spec fn spec_event_property_entries(text: Seq<char>, from: Cursor) -> Cursor
    decreases text.len() - from.pos, 2nat,
{
    if !from.ok {
        from
    } else {
        let step = if from.pos <= text.len() {
            spec_event_property_entry(text, from.pos)
        } else {
            Cursor::none(from.pos)
        };
        if step.ok && from.pos < step.pos <= text.len() {
            spec_event_property_entries(text, from.join(step))
        } else {
            from.note(step.far)
        }
    }
}

/// Match `(~ EventProperty)*` from the cursor `from` on.
#[verifier::rlimit(30)]
pub fn match_event_property_entries(source: &Source, from: State) -> (done: State)
    requires
        from@.pos <= source@.len(),
        from@.far <= source@.len(),
    ensures
        done@ == spec_event_property_entries(source@, from@),
        done@.ok == from@.ok,
        from@.pos <= done@.pos <= source@.len(),
        from@.far <= done@.far <= source@.len(),
    decreases source@.len() - from@.pos, 2nat,
{
    let mut c = from;
    if !c.ok {
        return c;
    }
    loop
        invariant
            c.ok,
            from@.pos <= c@.pos <= source@.len(),
            from@.far <= c@.far <= source@.len(),
            spec_event_property_entries(source@, from@) == spec_event_property_entries(source@, c@),
        decreases source@.len() - c@.pos,
    {
        let step = match_event_property_entry(source, c.pos);
        if step.ok && step.pos > c.pos {
            c.join(step);
        } else {
            c.note(step.far);
            return c;
        }
    }
}

/// The cursor after a block of nested event properties between braces was tried
/// at index `at`.
pub open spec fn spec_event_property_block(text: Seq<char>, at: int) -> Cursor
    decreases text.len() - at, 0nat,
{
    let c = Cursor::start(at);
    let c = c.word(text, "{"@);
    let c = if at < c.pos && c.pos <= text.len() {
        spec_event_property_entries(text, c)
    } else {
        c.halt()
    };
    let c = c.trivia(text);
    let c = c.word(text, "}"@);
    c
}

/// Try a block of nested event properties between braces at index `at`.
#[verifier::rlimit(30)]
pub fn match_event_property_block(source: &Source, at: usize) -> (group: State)
    requires
        at <= source@.len(),
    ensures
        group@ == spec_event_property_block(source@, at as int),
        group@.within(source@, at as int),
        group@.ok ==> group@.pos > at,
    decreases source@.len() - at, 0nat,
{
    let mut c = State::start(at);
    c.word(source, "{");
    if c.ok {
        c = match_event_property_entries(source, c);
    }
    c.trivia(source);
    c.word(source, "}");
    c
}

/// The cursor after a block of nested event properties inside a second pair of
/// braces was tried at index `at`.
pub open spec fn spec_event_property_braced(text: Seq<char>, at: int) -> Cursor
    decreases text.len() - at, 0nat,
{
    let c = Cursor::start(at);
    let c = c.word(text, "{"@);
    let c = c.trivia(text);
    let group = if at < c.pos && c.pos <= text.len() {
        spec_event_property_block(text, c.pos)
    } else {
        Cursor::none(c.pos)
    };
    let c = c.chain(group);
    let c = c.trivia(text);
    let c = c.word(text, "}"@);
    c
}

/// Try a block of nested event properties inside a second pair of braces at
/// index `at`.
#[verifier::rlimit(30)]
pub fn match_event_property_braced(source: &Source, at: usize) -> (group: State)
    requires
        at <= source@.len(),
    ensures
        group@ == spec_event_property_braced(source@, at as int),
        group@.within(source@, at as int),
        group@.ok ==> group@.pos > at,
    decreases source@.len() - at, 0nat,
{
    let mut c = State::start(at);
    c.word(source, "{");
    c.trivia(source);
    if c.ok {
        let group = match_event_property_block(source, c.pos);
        c.chain(group);
    }
    c.trivia(source);
    c.word(source, "}");
    c
}

/// The cursor after the suffix of an event property: a bare closing bracket, a
/// block inside a second pair of braces, or a bare block, tried in this order
/// was tried at index `at`.
pub open spec fn spec_event_property_suffix(text: Seq<char>, at: int) -> Cursor
    decreases text.len() - at, 1nat,
{
    let c = Cursor::start(at);
    let c = if !c.ok {
        c
    } else {
        let alt = Cursor::start(c.pos).word(text, "]"@);
        if alt.ok {
            c.join(alt)
        } else {
            let c = c.note(alt.far);
            let group = if at <= c.pos && c.pos <= text.len() {
                spec_event_property_braced(text, c.pos)
            } else {
                Cursor::none(c.pos)
            };
            let alt = group;
            if alt.ok {
                c.join(alt)
            } else {
                let c = c.note(alt.far);
                let group = if at <= c.pos && c.pos <= text.len() {
                    spec_event_property_block(text, c.pos)
                } else {
                    Cursor::none(c.pos)
                };
                let alt = group;
                if alt.ok {
                    c.join(alt)
                } else {
                    c.note(alt.far).halt()
                }
            }
        }
    };
    c
}

/// Try the suffix of an event property: a bare closing bracket, a block inside
/// a second pair of braces, or a bare block, tried in this order at index `at`.
#[verifier::rlimit(30)]
pub fn match_event_property_suffix(source: &Source, at: usize) -> (group: State)
    requires
        at <= source@.len(),
    ensures
        group@ == spec_event_property_suffix(source@, at as int),
        group@.within(source@, at as int),
        group@.ok ==> group@.pos > at,
    decreases source@.len() - at, 1nat,
{
    let mut c = State::start(at);
    if c.ok {
        let alt = State::worded(source, c.pos, "]");
        if alt.ok {
            c.join(alt);
        } else {
            c.note(alt.far);
            let alt = match_event_property_braced(source, c.pos);
            if alt.ok {
                c.join(alt);
            } else {
                c.note(alt.far);
                let alt = match_event_property_block(source, c.pos);
                if alt.ok {
                    c.join(alt);
                } else {
                    c.note(alt.far);
                    c.halt();
                }
            }
        }
    }
    c
}

/// The result of the rule `EventProperty` at index `at`.
///
/// ```text
/// EventProperty <- Identifier#identifier ~ (':' / '[') ~ Expression ~
///     (']' / ('{' ~ ('{' (~ EventProperty)* ~ '}') ~ '}') / ('{' (~
///     EventProperty)* ~ '}'))?
/// ```
pub open spec fn spec_event_property(text: Seq<char>, at: int) -> Outcome
    decreases text.len() - at, 0nat,
{
    let c = Cursor::start(at);
    let c = c.attach(spec_identifier(text, c.pos), Slot::Identifier);
    let c = c.trivia(text);
    let c = if !c.ok {
        c
    } else {
        let alt = Cursor::start(c.pos).word(text, ":"@);
        if alt.ok {
            c.join(alt)
        } else {
            let c = c.note(alt.far);
            let alt = Cursor::start(c.pos).word(text, "["@);
            if alt.ok {
                c.join(alt)
            } else {
                c.note(alt.far).halt()
            }
        }
    };
    let c = c.trivia(text);
    let c = c.pass(spec_expression(text, c.pos));
    let c = c.trivia(text);
    let group = if at < c.pos && c.pos <= text.len() {
        spec_event_property_suffix(text, c.pos)
    } else {
        Cursor::none(c.pos)
    };
    let c = c.option(group);
    c.finish(text, LifeRestartRule::EventProperty, at)
}

/// Match the rule `EventProperty` at index `at`.
#[verifier::rlimit(30)]
pub fn parse_event_property(source: &Source, at: usize) -> (found: Match)
    requires
        at <= source@.len(),
    ensures
        found@ == spec_event_property(source@, at as int),
        found@.within(source@, at as int),
        found@.tree is Some ==> found@.end > at,
    decreases source@.len() - at, 0nat,
{
    let mut c = State::start(at);
    if c.ok {
        let found = parse_identifier(source, c.pos);
        c.attach(found, Slot::Identifier);
    }
    c.trivia(source);
    if c.ok {
        let alt = State::worded(source, c.pos, ":");
        if alt.ok {
            c.join(alt);
        } else {
            c.note(alt.far);
            let alt = State::worded(source, c.pos, "[");
            if alt.ok {
                c.join(alt);
            } else {
                c.note(alt.far);
                c.halt();
            }
        }
    }
    c.trivia(source);
    if c.ok {
        let found = parse_expression(source, c.pos);
        c.pass(found);
    }
    c.trivia(source);
    if c.ok {
        let group = match_event_property_suffix(source, c.pos);
        c.option(group);
    }
    c.finish(source, LifeRestartRule::EventProperty, at)
}

/// The result of the rule `IdStatement` at index `at`.
///
/// ```text
/// IdStatement <- KW_ID ~ Integer#integer
/// ```
#[verifier::opaque]
pub open spec fn spec_id_statement(text: Seq<char>, at: int) -> Outcome {
    let c = Cursor::start(at);
    let c = c.pass(spec_kw_id(text, c.pos));
    let c = c.trivia(text);
    let c = c.attach(spec_integer(text, c.pos), Slot::Integer);
    c.finish(text, LifeRestartRule::IdStatement, at)
}

/// Match the rule `IdStatement` at index `at`.
pub fn parse_id_statement(source: &Source, at: usize) -> (found: Match)
    requires
        at <= source@.len(),
    ensures
        found@ == spec_id_statement(source@, at as int),
        found@.within(source@, at as int),
        found@.tree is Some ==> found@.end > at,
{
    proof {
        reveal(spec_id_statement);
    }
    let mut c = State::start(at);
    if c.ok {
        let found = parse_kw_id(source, c.pos);
        c.pass(found);
    }
    c.trivia(source);
    if c.ok {
        let found = parse_integer(source, c.pos);
        c.attach(found, Slot::Integer);
    }
    c.finish(source, LifeRestartRule::IdStatement, at)
}

/// The cursor after `COMMA ~` was tried at index `at`.
#[verifier::opaque]
pub open spec fn spec_description_comma(text: Seq<char>, at: int) -> Cursor {
    let c = Cursor::start(at);
    let c = c.pass(spec_comma(text, c.pos));
    let c = c.trivia(text);
    c
}

/// Try `COMMA ~` at index `at`.
pub fn match_description_comma(source: &Source, at: usize) -> (group: State)
    requires
        at <= source@.len(),
    ensures
        group@ == spec_description_comma(source@, at as int),
        group@.within(source@, at as int),
        group@.ok ==> group@.pos > at,
{
    proof {
        reveal(spec_description_comma);
    }
    let mut c = State::start(at);
    if c.ok {
        let found = parse_comma(source, c.pos);
        c.pass(found);
    }
    c.trivia(source);
    c
}

/// The cursor after `~ (COMMA ~)? String#string` was tried at index `at`.
#[verifier::opaque]
pub open spec fn spec_description_more(text: Seq<char>, at: int) -> Cursor {
    let c = Cursor::start(at);
    let c = c.trivia(text);
    let c = c.option(spec_description_comma(text, c.pos));
    let c = c.attach(spec_string(text, c.pos), Slot::String);
    c
}

/// Try `~ (COMMA ~)? String#string` at index `at`.
pub fn match_description_more(source: &Source, at: usize) -> (group: State)
    requires
        at <= source@.len(),
    ensures
        group@ == spec_description_more(source@, at as int),
        group@.within(source@, at as int),
        group@.ok ==> group@.pos > at,
{
    proof {
        reveal(spec_description_more);
    }
    let mut c = State::start(at);
    c.trivia(source);
    if c.ok {
        let group = match_description_comma(source, c.pos);
        c.option(group);
    }
    if c.ok {
        let found = parse_string(source, c.pos);
        c.attach(found, Slot::String);
    }
    c
}

/// The cursor after `(~ (COMMA ~)? String#string)*` was matched from the cursor
/// `from` on: the group as often as it matches and moves the cursor.
pub open spec fn spec_description_rest(text: Seq<char>, from: Cursor) -> Cursor
    decreases text.len() - from.pos,
{
    if !from.ok {
        from
    } else {
        let step = spec_description_more(text, from.pos);
        if step.ok && from.pos < step.pos <= text.len() {
            spec_description_rest(text, from.join(step))
        } else {
            from.note(step.far)
        }
    }
}

/// Match `(~ (COMMA ~)? String#string)*` from the cursor `from` on.
#[verifier::rlimit(30)]
pub fn match_description_rest(source: &Source, from: State) -> (done: State)
    requires
        from@.pos <= source@.len(),
        from@.far <= source@.len(),
    ensures
        done@ == spec_description_rest(source@, from@),
        done@.ok == from@.ok,
        from@.pos <= done@.pos <= source@.len(),
        from@.far <= done@.far <= source@.len(),
{
    let mut c = from;
    if !c.ok {
        return c;
    }
    loop
        invariant
            c.ok,
            from@.pos <= c@.pos <= source@.len(),
            from@.far <= c@.far <= source@.len(),
            spec_description_rest(source@, from@) == spec_description_rest(source@, c@),
        decreases source@.len() - c@.pos,
    {
        let step = match_description_more(source, c.pos);
        if step.ok && step.pos > c.pos {
            c.join(step);
        } else {
            c.note(step.far);
            return c;
        }
    }
}

/// The cursor after `~ COMMA` was tried at index `at`.
#[verifier::opaque]
pub open spec fn spec_description_last_comma(text: Seq<char>, at: int) -> Cursor {
    let c = Cursor::start(at);
    let c = c.trivia(text);
    let c = c.pass(spec_comma(text, c.pos));
    c
}

/// Try `~ COMMA` at index `at`.
pub fn match_description_last_comma(source: &Source, at: usize) -> (group: State)
    requires
        at <= source@.len(),
    ensures
        group@ == spec_description_last_comma(source@, at as int),
        group@.within(source@, at as int),
        group@.ok ==> group@.pos > at,
{
    proof {
        reveal(spec_description_last_comma);
    }
    let mut c = State::start(at);
    c.trivia(source);
    if c.ok {
        let found = parse_comma(source, c.pos);
        c.pass(found);
    }
    c
}

/// The cursor after one or more strings, with or without commas between them
/// and after the last was tried at index `at`.
#[verifier::opaque]
pub open spec fn spec_description_strings(text: Seq<char>, at: int) -> Cursor {
    let c = Cursor::start(at);
    let c = c.attach(spec_string(text, c.pos), Slot::String);
    let c = spec_description_rest(text, c);
    let c = c.option(spec_description_last_comma(text, c.pos));
    c
}

/// Try one or more strings, with or without commas between them and after the
/// last at index `at`.
#[verifier::rlimit(30)]
pub fn match_description_strings(source: &Source, at: usize) -> (group: State)
    requires
        at <= source@.len(),
    ensures
        group@ == spec_description_strings(source@, at as int),
        group@.within(source@, at as int),
        group@.ok ==> group@.pos > at,
{
    proof {
        reveal(spec_description_strings);
    }
    let mut c = State::start(at);
    if c.ok {
        let found = parse_string(source, c.pos);
        c.attach(found, Slot::String);
    }
    if c.ok {
        c = match_description_rest(source, c);
    }
    if c.ok {
        let group = match_description_last_comma(source, c.pos);
        c.option(group);
    }
    c
}

/// The cursor after the keyword form of a description: the keyword and its
/// strings was tried at index `at`.
#[verifier::opaque]
pub open spec fn spec_description_plain(text: Seq<char>, at: int) -> Cursor {
    let c = Cursor::start(at);
    let c = c.pass(spec_kw_description(text, c.pos));
    let c = c.trivia(text);
    let c = c.chain(spec_description_strings(text, c.pos));
    c
}

/// Try the keyword form of a description: the keyword and its strings at index
/// `at`.
pub fn match_description_plain(source: &Source, at: usize) -> (group: State)
    requires
        at <= source@.len(),
    ensures
        group@ == spec_description_plain(source@, at as int),
        group@.within(source@, at as int),
        group@.ok ==> group@.pos > at,
{
    proof {
        reveal(spec_description_plain);
    }
    let mut c = State::start(at);
    if c.ok {
        let found = parse_kw_description(source, c.pos);
        c.pass(found);
    }
    c.trivia(source);
    if c.ok {
        let group = match_description_strings(source, c.pos);
        c.chain(group);
    }
    c
}

/// The cursor after the parenthesized form of a description: strings between
/// round brackets, or nothing between them was tried at index `at`.
#[verifier::opaque]
pub open spec fn spec_description_round(text: Seq<char>, at: int) -> Cursor {
    let c = Cursor::start(at);
    let c = c.word(text, "("@);
    let c = c.trivia(text);
    let c = c.option(spec_description_strings(text, c.pos));
    let c = c.trivia(text);
    let c = c.word(text, ")"@);
    c
}

/// Try the parenthesized form of a description: strings between round brackets,
/// or nothing between them at index `at`.
pub fn match_description_round(source: &Source, at: usize) -> (group: State)
    requires
        at <= source@.len(),
    ensures
        group@ == spec_description_round(source@, at as int),
        group@.within(source@, at as int),
        group@.ok ==> group@.pos > at,
{
    proof {
        reveal(spec_description_round);
    }
    let mut c = State::start(at);
    c.word(source, "(");
    c.trivia(source);
    if c.ok {
        let group = match_description_strings(source, c.pos);
        c.option(group);
    }
    c.trivia(source);
    c.word(source, ")");
    c
}

/// The result of the rule `DescriptionStatement` at index `at`.
///
/// ```text
/// DescriptionStatement <- (KW_DESCRIPTION ~ (String#string (~ (COMMA ~)?
///     String#string)* (~ COMMA)?)) / ('(' ~ (String#string (~ (COMMA ~)?
///     String#string)* (~ COMMA)?)? ~ ')')
/// ```
#[verifier::opaque]
pub open spec fn spec_description_statement(text: Seq<char>, at: int) -> Outcome {
    let c = Cursor::start(at);
    let c = if !c.ok {
        c
    } else {
        let alt = spec_description_plain(text, c.pos);
        if alt.ok {
            c.join(alt)
        } else {
            let c = c.note(alt.far);
            let alt = spec_description_round(text, c.pos);
            if alt.ok {
                c.join(alt)
            } else {
                c.note(alt.far).halt()
            }
        }
    };
    c.finish(text, LifeRestartRule::DescriptionStatement, at)
}

/// Match the rule `DescriptionStatement` at index `at`.
pub fn parse_description_statement(source: &Source, at: usize) -> (found: Match)
    requires
        at <= source@.len(),
    ensures
        found@ == spec_description_statement(source@, at as int),
        found@.within(source@, at as int),
        found@.tree is Some ==> found@.end > at,
{
    proof {
        reveal(spec_description_statement);
    }
    let mut c = State::start(at);
    if c.ok {
        let alt = match_description_plain(source, c.pos);
        if alt.ok {
            c.join(alt);
        } else {
            c.note(alt.far);
            let alt = match_description_round(source, c.pos);
            if alt.ok {
                c.join(alt);
            } else {
                c.note(alt.far);
                c.halt();
            }
        }
    }
    c.finish(source, LifeRestartRule::DescriptionStatement, at)
}

/// The result of the rule `Statement` at index `at`.
///
/// ```text
/// Statement <- IfStatement#if_statement / Expression#expression /
///     EOS#eos
/// ```
pub open spec fn spec_statement(text: Seq<char>, at: int) -> Outcome
    decreases text.len() - at, 2nat,
{
    let c = Cursor::start(at);
    let c = if !c.ok {
        c
    } else {
        let found = if at <= c.pos && c.pos <= text.len() {
            spec_if_statement(text, c.pos)
        } else {
            Outcome::none(c.pos)
        };
        let alt = Cursor::start(c.pos).attach(found, Slot::IfStatement);
        if alt.ok {
            c.join(alt)
        } else {
            let c = c.note(alt.far);
            let alt = Cursor::start(c.pos).attach(spec_expression(text, c.pos), Slot::Expression);
            if alt.ok {
                c.join(alt)
            } else {
                let c = c.note(alt.far);
                let alt = Cursor::start(c.pos).attach(spec_eos(text, c.pos), Slot::Eos);
                if alt.ok {
                    c.join(alt)
                } else {
                    c.note(alt.far).halt()
                }
            }
        }
    };
    c.finish(text, LifeRestartRule::Statement, at)
}

/// Match the rule `Statement` at index `at`.
#[verifier::rlimit(30)]
pub fn parse_statement(source: &Source, at: usize) -> (found: Match)
    requires
        at <= source@.len(),
    ensures
        found@ == spec_statement(source@, at as int),
        found@.within(source@, at as int),
        found@.tree is Some ==> found@.end > at,
    decreases source@.len() - at, 2nat,
{
    let mut c = State::start(at);
    if c.ok {
        let alt = State::attached(parse_if_statement(source, c.pos), Slot::IfStatement, c.pos);
        if alt.ok {
            c.join(alt);
        } else {
            c.note(alt.far);
            let alt = State::attached(parse_expression(source, c.pos), Slot::Expression, c.pos);
            if alt.ok {
                c.join(alt);
            } else {
                c.note(alt.far);
                let alt = State::attached(parse_eos(source, c.pos), Slot::Eos, c.pos);
                if alt.ok {
                    c.join(alt);
                } else {
                    c.note(alt.far);
                    c.halt();
                }
            }
        }
    }
    c.finish(source, LifeRestartRule::Statement, at)
}

/// The cursor after `~ IfElseIfBlock#if_else_if_block` was tried at index `at`.
pub open spec fn spec_if_statement_else_if(text: Seq<char>, at: int) -> Cursor
    decreases text.len() - at, 1nat,
{
    let c = Cursor::start(at);
    let c = c.trivia(text);
    let found = if at <= c.pos && c.pos <= text.len() {
        spec_if_else_if_block(text, c.pos)
    } else {
        Outcome::none(c.pos)
    };
    let c = c.attach(found, Slot::IfElseIfBlock);
    c
}

/// Try `~ IfElseIfBlock#if_else_if_block` at index `at`.
#[verifier::rlimit(30)]
pub fn match_if_statement_else_if(source: &Source, at: usize) -> (group: State)
    requires
        at <= source@.len(),
    ensures
        group@ == spec_if_statement_else_if(source@, at as int),
        group@.within(source@, at as int),
        group@.ok ==> group@.pos > at,
    decreases source@.len() - at, 1nat,
{
    let mut c = State::start(at);
    c.trivia(source);
    if c.ok {
        let found = parse_if_else_if_block(source, c.pos);
        c.attach(found, Slot::IfElseIfBlock);
    }
    c
}

/// The cursor after `~ IfElseBlock#if_else_block` was tried at index `at`.
pub open spec fn spec_if_statement_else(text: Seq<char>, at: int) -> Cursor
    decreases text.len() - at, 1nat,
{
    let c = Cursor::start(at);
    let c = c.trivia(text);
    let found = if at <= c.pos && c.pos <= text.len() {
        spec_if_else_block(text, c.pos)
    } else {
        Outcome::none(c.pos)
    };
    let c = c.attach(found, Slot::IfElseBlock);
    c
}

/// Try `~ IfElseBlock#if_else_block` at index `at`.
#[verifier::rlimit(30)]
pub fn match_if_statement_else(source: &Source, at: usize) -> (group: State)
    requires
        at <= source@.len(),
    ensures
        group@ == spec_if_statement_else(source@, at as int),
        group@.within(source@, at as int),
        group@.ok ==> group@.pos > at,
    decreases source@.len() - at, 1nat,
{
    let mut c = State::start(at);
    c.trivia(source);
    if c.ok {
        let found = parse_if_else_block(source, c.pos);
        c.attach(found, Slot::IfElseBlock);
    }
    c
}

/// The result of the rule `IfStatement` at index `at`.
///
/// ```text
/// IfStatement <- IfThenBlock#if_then_block (~
///     IfElseIfBlock#if_else_if_block)? (~ IfElseBlock#if_else_block)?
/// ```
pub open spec fn spec_if_statement(text: Seq<char>, at: int) -> Outcome
    decreases text.len() - at, 1nat,
{
    let c = Cursor::start(at);
    let found = if at <= c.pos && c.pos <= text.len() {
        spec_if_then_block(text, c.pos)
    } else {
        Outcome::none(c.pos)
    };
    let c = c.attach(found, Slot::IfThenBlock);
    let group = if at < c.pos && c.pos <= text.len() {
        spec_if_statement_else_if(text, c.pos)
    } else {
        Cursor::none(c.pos)
    };
    let c = c.option(group);
    let group = if at < c.pos && c.pos <= text.len() {
        spec_if_statement_else(text, c.pos)
    } else {
        Cursor::none(c.pos)
    };
    let c = c.option(group);
    c.finish(text, LifeRestartRule::IfStatement, at)
}

/// Match the rule `IfStatement` at index `at`.
#[verifier::rlimit(30)]
pub fn parse_if_statement(source: &Source, at: usize) -> (found: Match)
    requires
        at <= source@.len(),
    ensures
        found@ == spec_if_statement(source@, at as int),
        found@.within(source@, at as int),
        found@.tree is Some ==> found@.end > at,
    decreases source@.len() - at, 1nat,
{
    let mut c = State::start(at);
    if c.ok {
        let found = parse_if_then_block(source, c.pos);
        c.attach(found, Slot::IfThenBlock);
    }
    if c.ok {
        let group = match_if_statement_else_if(source, c.pos);
        c.option(group);
    }
    if c.ok {
        let group = match_if_statement_else(source, c.pos);
        c.option(group);
    }
    c.finish(source, LifeRestartRule::IfStatement, at)
}

/// The cursor after `~ Statement#statement` was tried at index `at`.
pub open spec fn spec_if_then_block_item(text: Seq<char>, at: int) -> Cursor
    decreases text.len() - at, 3nat,
{
    let c = Cursor::start(at);
    let c = c.trivia(text);
    let found = if at <= c.pos && c.pos <= text.len() {
        spec_statement(text, c.pos)
    } else {
        Outcome::none(c.pos)
    };
    let c = c.attach(found, Slot::Statement);
    c
}

/// Try `~ Statement#statement` at index `at`.
#[verifier::rlimit(30)]
pub fn match_if_then_block_item(source: &Source, at: usize) -> (group: State)
    requires
        at <= source@.len(),
    ensures
        group@ == spec_if_then_block_item(source@, at as int),
        group@.within(source@, at as int),
        group@.ok ==> group@.pos > at,
    decreases source@.len() - at, 3nat,
{
    let mut c = State::start(at);
    c.trivia(source);
    if c.ok {
        let found = parse_statement(source, c.pos);
        c.attach(found, Slot::Statement);
    }
    c
}

/// The cursor after `(~ Statement#statement)*` was matched from the cursor
/// `from` on: the group as often as it matches and moves the cursor.
pub open spec fn spec_if_then_block_items(text: Seq<char>, from: Cursor) -> Cursor
    decreases text.len() - from.pos, 4nat,
{
    if !from.ok {
        from
    } else {
        let step = if from.pos <= text.len() {
            spec_if_then_block_item(text, from.pos)
        } else {
            Cursor::none(from.pos)
        };
        if step.ok && from.pos < step.pos <= text.len() {
            spec_if_then_block_items(text, from.join(step))
        } else {
            from.note(step.far)
        }
    }
}

/// Match `(~ Statement#statement)*` from the cursor `from` on.
#[verifier::rlimit(30)]
pub fn match_if_then_block_items(source: &Source, from: State) -> (done: State)
    requires
        from@.pos <= source@.len(),
        from@.far <= source@.len(),
    ensures
        done@ == spec_if_then_block_items(source@, from@),
        done@.ok == from@.ok,
        from@.pos <= done@.pos <= source@.len(),
        from@.far <= done@.far <= source@.len(),
    decreases source@.len() - from@.pos, 4nat,
{
    let mut c = from;
    if !c.ok {
        return c;
    }
    loop
        invariant
            c.ok,
            from@.pos <= c@.pos <= source@.len(),
            from@.far <= c@.far <= source@.len(),
            spec_if_then_block_items(source@, from@) == spec_if_then_block_items(source@, c@),
        decreases source@.len() - c@.pos,
    {
        let step = match_if_then_block_item(source, c.pos);
        if step.ok && step.pos > c.pos {
            c.join(step);
        } else {
            c.note(step.far);
            return c;
        }
    }
}

/// The result of the rule `IfThenBlock` at index `at`.
///
/// ```text
/// IfThenBlock <- KW_IF ~ Expression#expression ~ '{' (~
///     Statement#statement)* ~ '}'
/// ```
pub open spec fn spec_if_then_block(text: Seq<char>, at: int) -> Outcome
    decreases text.len() - at, 0nat,
{
    let c = Cursor::start(at);
    let c = c.pass(spec_kw_if(text, c.pos));
    let c = c.trivia(text);
    let c = c.attach(spec_expression(text, c.pos), Slot::Expression);
    let c = c.trivia(text);
    let c = c.word(text, "{"@);
    let c = if at < c.pos && c.pos <= text.len() {
        spec_if_then_block_items(text, c)
    } else {
        c.halt()
    };
    let c = c.trivia(text);
    let c = c.word(text, "}"@);
    c.finish(text, LifeRestartRule::IfThenBlock, at)
}

/// Match the rule `IfThenBlock` at index `at`.
#[verifier::rlimit(30)]
pub fn parse_if_then_block(source: &Source, at: usize) -> (found: Match)
    requires
        at <= source@.len(),
    ensures
        found@ == spec_if_then_block(source@, at as int),
        found@.within(source@, at as int),
        found@.tree is Some ==> found@.end > at,
    decreases source@.len() - at, 0nat,
{
    let mut c = State::start(at);
    if c.ok {
        let found = parse_kw_if(source, c.pos);
        c.pass(found);
    }
    c.trivia(source);
    if c.ok {
        let found = parse_expression(source, c.pos);
        c.attach(found, Slot::Expression);
    }
    c.trivia(source);
    c.word(source, "{");
    if c.ok {
        c = match_if_then_block_items(source, c);
    }
    c.trivia(source);
    c.word(source, "}");
    c.finish(source, LifeRestartRule::IfThenBlock, at)
}

/// The cursor after `~ Statement#statement` was tried at index `at`.
pub open spec fn spec_if_else_if_block_item(text: Seq<char>, at: int) -> Cursor
    decreases text.len() - at, 3nat,
{
    let c = Cursor::start(at);
    let c = c.trivia(text);
    let found = if at <= c.pos && c.pos <= text.len() {
        spec_statement(text, c.pos)
    } else {
        Outcome::none(c.pos)
    };
    let c = c.attach(found, Slot::Statement);
    c
}

/// Try `~ Statement#statement` at index `at`.
#[verifier::rlimit(30)]
pub fn match_if_else_if_block_item(source: &Source, at: usize) -> (group: State)
    requires
        at <= source@.len(),
    ensures
        group@ == spec_if_else_if_block_item(source@, at as int),
        group@.within(source@, at as int),
        group@.ok ==> group@.pos > at,
    decreases source@.len() - at, 3nat,
{
    let mut c = State::start(at);
    c.trivia(source);
    if c.ok {
        let found = parse_statement(source, c.pos);
        c.attach(found, Slot::Statement);
    }
    c
}

/// The cursor after `(~ Statement#statement)*` was matched from the cursor
/// `from` on: the group as often as it matches and moves the cursor.
pub open spec fn spec_if_else_if_block_items(text: Seq<char>, from: Cursor) -> Cursor
    decreases text.len() - from.pos, 4nat,
{
    if !from.ok {
        from
    } else {
        let step = if from.pos <= text.len() {
            spec_if_else_if_block_item(text, from.pos)
        } else {
            Cursor::none(from.pos)
        };
        if step.ok && from.pos < step.pos <= text.len() {
            spec_if_else_if_block_items(text, from.join(step))
        } else {
            from.note(step.far)
        }
    }
}

/// Match `(~ Statement#statement)*` from the cursor `from` on.
#[verifier::rlimit(30)]
pub fn match_if_else_if_block_items(source: &Source, from: State) -> (done: State)
    requires
        from@.pos <= source@.len(),
        from@.far <= source@.len(),
    ensures
        done@ == spec_if_else_if_block_items(source@, from@),
        done@.ok == from@.ok,
        from@.pos <= done@.pos <= source@.len(),
        from@.far <= done@.far <= source@.len(),
    decreases source@.len() - from@.pos, 4nat,
{
    let mut c = from;
    if !c.ok {
        return c;
    }
    loop
        invariant
            c.ok,
            from@.pos <= c@.pos <= source@.len(),
            from@.far <= c@.far <= source@.len(),
            spec_if_else_if_block_items(source@, from@) == spec_if_else_if_block_items(source@, c@),
        decreases source@.len() - c@.pos,
    {
        let step = match_if_else_if_block_item(source, c.pos);
        if step.ok && step.pos > c.pos {
            c.join(step);
        } else {
            c.note(step.far);
            return c;
        }
    }
}

/// The result of the rule `IfElseIfBlock` at index `at`.
///
/// ```text
/// IfElseIfBlock <- KW_ELSE_IF ~ Expression#expression ~ '{' (~
///     Statement#statement)* ~ '}'
/// ```
pub open spec fn spec_if_else_if_block(text: Seq<char>, at: int) -> Outcome
    decreases text.len() - at, 0nat,
{
    let c = Cursor::start(at);
    let c = c.pass(spec_kw_else_if(text, c.pos));
    let c = c.trivia(text);
    let c = c.attach(spec_expression(text, c.pos), Slot::Expression);
    let c = c.trivia(text);
    let c = c.word(text, "{"@);
    let c = if at < c.pos && c.pos <= text.len() {
        spec_if_else_if_block_items(text, c)
    } else {
        c.halt()
    };
    let c = c.trivia(text);
    let c = c.word(text, "}"@);
    c.finish(text, LifeRestartRule::IfElseIfBlock, at)
}

/// Match the rule `IfElseIfBlock` at index `at`.
#[verifier::rlimit(30)]
pub fn parse_if_else_if_block(source: &Source, at: usize) -> (found: Match)
    requires
        at <= source@.len(),
    ensures
        found@ == spec_if_else_if_block(source@, at as int),
        found@.within(source@, at as int),
        found@.tree is Some ==> found@.end > at,
    decreases source@.len() - at, 0nat,
{
    let mut c = State::start(at);
    if c.ok {
        let found = parse_kw_else_if(source, c.pos);
        c.pass(found);
    }
    c.trivia(source);
    if c.ok {
        let found = parse_expression(source, c.pos);
        c.attach(found, Slot::Expression);
    }
    c.trivia(source);
    c.word(source, "{");
    if c.ok {
        c = match_if_else_if_block_items(source, c);
    }
    c.trivia(source);
    c.word(source, "}");
    c.finish(source, LifeRestartRule::IfElseIfBlock, at)
}

/// The cursor after `~ Statement#statement` was tried at index `at`.
pub open spec fn spec_if_else_block_item(text: Seq<char>, at: int) -> Cursor
    decreases text.len() - at, 3nat,
{
    let c = Cursor::start(at);
    let c = c.trivia(text);
    let found = if at <= c.pos && c.pos <= text.len() {
        spec_statement(text, c.pos)
    } else {
        Outcome::none(c.pos)
    };
    let c = c.attach(found, Slot::Statement);
    c
}

/// Try `~ Statement#statement` at index `at`.
#[verifier::rlimit(30)]
pub fn match_if_else_block_item(source: &Source, at: usize) -> (group: State)
    requires
        at <= source@.len(),
    ensures
        group@ == spec_if_else_block_item(source@, at as int),
        group@.within(source@, at as int),
        group@.ok ==> group@.pos > at,
    decreases source@.len() - at, 3nat,
{
    let mut c = State::start(at);
    c.trivia(source);
    if c.ok {
        let found = parse_statement(source, c.pos);
        c.attach(found, Slot::Statement);
    }
    c
}

/// The cursor after `(~ Statement#statement)*` was matched from the cursor
/// `from` on: the group as often as it matches and moves the cursor.
pub open spec fn spec_if_else_block_items(text: Seq<char>, from: Cursor) -> Cursor
    decreases text.len() - from.pos, 4nat,
{
    if !from.ok {
        from
    } else {
        let step = if from.pos <= text.len() {
            spec_if_else_block_item(text, from.pos)
        } else {
            Cursor::none(from.pos)
        };
        if step.ok && from.pos < step.pos <= text.len() {
            spec_if_else_block_items(text, from.join(step))
        } else {
            from.note(step.far)
        }
    }
}

/// Match `(~ Statement#statement)*` from the cursor `from` on.
#[verifier::rlimit(30)]
pub fn match_if_else_block_items(source: &Source, from: State) -> (done: State)
    requires
        from@.pos <= source@.len(),
        from@.far <= source@.len(),
    ensures
        done@ == spec_if_else_block_items(source@, from@),
        done@.ok == from@.ok,
        from@.pos <= done@.pos <= source@.len(),
        from@.far <= done@.far <= source@.len(),
    decreases source@.len() - from@.pos, 4nat,
{
    let mut c = from;
    if !c.ok {
        return c;
    }
    loop
        invariant
            c.ok,
            from@.pos <= c@.pos <= source@.len(),
            from@.far <= c@.far <= source@.len(),
            spec_if_else_block_items(source@, from@) == spec_if_else_block_items(source@, c@),
        decreases source@.len() - c@.pos,
    {
        let step = match_if_else_block_item(source, c.pos);
        if step.ok && step.pos > c.pos {
            c.join(step);
        } else {
            c.note(step.far);
            return c;
        }
    }
}

/// The result of the rule `IfElseBlock` at index `at`.
///
/// ```text
/// IfElseBlock <- KW_ELSE ~ '{' (~ Statement#statement)* ~ '}'
/// ```
pub open spec fn spec_if_else_block(text: Seq<char>, at: int) -> Outcome
    decreases text.len() - at, 0nat,
{
    let c = Cursor::start(at);
    let c = c.pass(spec_kw_else(text, c.pos));
    let c = c.trivia(text);
    let c = c.word(text, "{"@);
    let c = if at < c.pos && c.pos <= text.len() {
        spec_if_else_block_items(text, c)
    } else {
        c.halt()
    };
    let c = c.trivia(text);
    let c = c.word(text, "}"@);
    c.finish(text, LifeRestartRule::IfElseBlock, at)
}

/// Match the rule `IfElseBlock` at index `at`.
#[verifier::rlimit(30)]
pub fn parse_if_else_block(source: &Source, at: usize) -> (found: Match)
    requires
        at <= source@.len(),
    ensures
        found@ == spec_if_else_block(source@, at as int),
        found@.within(source@, at as int),
        found@.tree is Some ==> found@.end > at,
    decreases source@.len() - at, 0nat,
{
    let mut c = State::start(at);
    if c.ok {
        let found = parse_kw_else(source, c.pos);
        c.pass(found);
    }
    c.trivia(source);
    c.word(source, "{");
    if c.ok {
        c = match_if_else_block_items(source, c);
    }
    c.trivia(source);
    c.word(source, "}");
    c.finish(source, LifeRestartRule::IfElseBlock, at)
}

/// The cursor after `~ Infix#infix ~ Term#term` was tried at index `at`.
#[verifier::opaque]
pub open spec fn spec_expression_more(text: Seq<char>, at: int) -> Cursor {
    let c = Cursor::start(at);
    let c = c.trivia(text);
    let c = c.attach(spec_infix(text, c.pos), Slot::Infix);
    let c = c.trivia(text);
    let c = c.attach(spec_term(text, c.pos), Slot::Term);
    c
}

/// Try `~ Infix#infix ~ Term#term` at index `at`.
pub fn match_expression_more(source: &Source, at: usize) -> (group: State)
    requires
        at <= source@.len(),
    ensures
        group@ == spec_expression_more(source@, at as int),
        group@.within(source@, at as int),
        group@.ok ==> group@.pos > at,
{
    proof {
        reveal(spec_expression_more);
    }
    let mut c = State::start(at);
    c.trivia(source);
    if c.ok {
        let found = parse_infix(source, c.pos);
        c.attach(found, Slot::Infix);
    }
    c.trivia(source);
    if c.ok {
        let found = parse_term(source, c.pos);
        c.attach(found, Slot::Term);
    }
    c
}

/// The cursor after `(~ Infix#infix ~ Term#term)*` was matched from the cursor
/// `from` on: the group as often as it matches and moves the cursor.
pub open spec fn spec_expression_rest(text: Seq<char>, from: Cursor) -> Cursor
    decreases text.len() - from.pos,
{
    if !from.ok {
        from
    } else {
        let step = spec_expression_more(text, from.pos);
        if step.ok && from.pos < step.pos <= text.len() {
            spec_expression_rest(text, from.join(step))
        } else {
            from.note(step.far)
        }
    }
}

/// Match `(~ Infix#infix ~ Term#term)*` from the cursor `from` on.
#[verifier::rlimit(30)]
pub fn match_expression_rest(source: &Source, from: State) -> (done: State)
    requires
        from@.pos <= source@.len(),
        from@.far <= source@.len(),
    ensures
        done@ == spec_expression_rest(source@, from@),
        done@.ok == from@.ok,
        from@.pos <= done@.pos <= source@.len(),
        from@.far <= done@.far <= source@.len(),
{
    let mut c = from;
    if !c.ok {
        return c;
    }
    loop
        invariant
            c.ok,
            from@.pos <= c@.pos <= source@.len(),
            from@.far <= c@.far <= source@.len(),
            spec_expression_rest(source@, from@) == spec_expression_rest(source@, c@),
        decreases source@.len() - c@.pos,
    {
        let step = match_expression_more(source, c.pos);
        if step.ok && step.pos > c.pos {
            c.join(step);
        } else {
            c.note(step.far);
            return c;
        }
    }
}

/// The result of the rule `Expression` at index `at`.
///
/// ```text
/// Expression <- Term#term (~ Infix#infix ~ Term#term)*
/// ```
#[verifier::opaque]
pub open spec fn spec_expression(text: Seq<char>, at: int) -> Outcome {
    let c = Cursor::start(at);
    let c = c.attach(spec_term(text, c.pos), Slot::Term);
    let c = spec_expression_rest(text, c);
    c.finish(text, LifeRestartRule::Expression, at)
}

/// Match the rule `Expression` at index `at`.
#[verifier::rlimit(30)]
pub fn parse_expression(source: &Source, at: usize) -> (found: Match)
    requires
        at <= source@.len(),
    ensures
        found@ == spec_expression(source@, at as int),
        found@.within(source@, at as int),
        found@.tree is Some ==> found@.end > at,
{
    proof {
        reveal(spec_expression);
    }
    let mut c = State::start(at);
    if c.ok {
        let found = parse_term(source, c.pos);
        c.attach(found, Slot::Term);
    }
    if c.ok {
        c = match_expression_rest(source, c);
    }
    c.finish(source, LifeRestartRule::Expression, at)
}

/// The cursor after `Prefix#prefix ~` was tried at index `at`.
#[verifier::opaque]
pub open spec fn spec_term_prefix(text: Seq<char>, at: int) -> Cursor {
    let c = Cursor::start(at);
    let c = c.attach(spec_prefix(text, c.pos), Slot::Prefix);
    let c = c.trivia(text);
    c
}

/// Try `Prefix#prefix ~` at index `at`.
pub fn match_term_prefix(source: &Source, at: usize) -> (group: State)
    requires
        at <= source@.len(),
    ensures
        group@ == spec_term_prefix(source@, at as int),
        group@.within(source@, at as int),
        group@.ok ==> group@.pos > at,
{
    proof {
        reveal(spec_term_prefix);
    }
    let mut c = State::start(at);
    if c.ok {
        let found = parse_prefix(source, c.pos);
        c.attach(found, Slot::Prefix);
    }
    c.trivia(source);
    c
}

/// The cursor after `(Prefix#prefix ~)*` was matched from the cursor `from` on:
/// the group as often as it matches and moves the cursor.
pub open spec fn spec_term_prefixes(text: Seq<char>, from: Cursor) -> Cursor
    decreases text.len() - from.pos,
{
    if !from.ok {
        from
    } else {
        let step = spec_term_prefix(text, from.pos);
        if step.ok && from.pos < step.pos <= text.len() {
            spec_term_prefixes(text, from.join(step))
        } else {
            from.note(step.far)
        }
    }
}

/// Match `(Prefix#prefix ~)*` from the cursor `from` on.
#[verifier::rlimit(30)]
pub fn match_term_prefixes(source: &Source, from: State) -> (done: State)
    requires
        from@.pos <= source@.len(),
        from@.far <= source@.len(),
    ensures
        done@ == spec_term_prefixes(source@, from@),
        done@.ok == from@.ok,
        from@.pos <= done@.pos <= source@.len(),
        from@.far <= done@.far <= source@.len(),
{
    let mut c = from;
    if !c.ok {
        return c;
    }
    loop
        invariant
            c.ok,
            from@.pos <= c@.pos <= source@.len(),
            from@.far <= c@.far <= source@.len(),
            spec_term_prefixes(source@, from@) == spec_term_prefixes(source@, c@),
        decreases source@.len() - c@.pos,
    {
        let step = match_term_prefix(source, c.pos);
        if step.ok && step.pos > c.pos {
            c.join(step);
        } else {
            c.note(step.far);
            return c;
        }
    }
}

/// The cursor after `~ Suffix#suffix` was tried at index `at`.
#[verifier::opaque]
pub open spec fn spec_term_suffix(text: Seq<char>, at: int) -> Cursor {
    let c = Cursor::start(at);
    let c = c.trivia(text);
    let c = c.attach(spec_suffix(text, c.pos), Slot::Suffix);
    c
}

/// Try `~ Suffix#suffix` at index `at`.
pub fn match_term_suffix(source: &Source, at: usize) -> (group: State)
    requires
        at <= source@.len(),
    ensures
        group@ == spec_term_suffix(source@, at as int),
        group@.within(source@, at as int),
        group@.ok ==> group@.pos > at,
{
    proof {
        reveal(spec_term_suffix);
    }
    let mut c = State::start(at);
    c.trivia(source);
    if c.ok {
        let found = parse_suffix(source, c.pos);
        c.attach(found, Slot::Suffix);
    }
    c
}

/// The cursor after `(~ Suffix#suffix)*` was matched from the cursor `from` on:
/// the group as often as it matches and moves the cursor.
pub open spec fn spec_term_suffixes(text: Seq<char>, from: Cursor) -> Cursor
    decreases text.len() - from.pos,
{
    if !from.ok {
        from
    } else {
        let step = spec_term_suffix(text, from.pos);
        if step.ok && from.pos < step.pos <= text.len() {
            spec_term_suffixes(text, from.join(step))
        } else {
            from.note(step.far)
        }
    }
}

/// Match `(~ Suffix#suffix)*` from the cursor `from` on.
#[verifier::rlimit(30)]
pub fn match_term_suffixes(source: &Source, from: State) -> (done: State)
    requires
        from@.pos <= source@.len(),
        from@.far <= source@.len(),
    ensures
        done@ == spec_term_suffixes(source@, from@),
        done@.ok == from@.ok,
        from@.pos <= done@.pos <= source@.len(),
        from@.far <= done@.far <= source@.len(),
{
    let mut c = from;
    if !c.ok {
        return c;
    }
    loop
        invariant
            c.ok,
            from@.pos <= c@.pos <= source@.len(),
            from@.far <= c@.far <= source@.len(),
            spec_term_suffixes(source@, from@) == spec_term_suffixes(source@, c@),
        decreases source@.len() - c@.pos,
    {
        let step = match_term_suffix(source, c.pos);
        if step.ok && step.pos > c.pos {
            c.join(step);
        } else {
            c.note(step.far);
            return c;
        }
    }
}

/// The result of the rule `Term` at index `at`.
///
/// ```text
/// Term <- (Prefix#prefix ~)* Atomic#atomic (~ Suffix#suffix)*
/// ```
#[verifier::opaque]
pub open spec fn spec_term(text: Seq<char>, at: int) -> Outcome {
    let c = Cursor::start(at);
    let c = spec_term_prefixes(text, c);
    let c = c.attach(spec_atomic(text, c.pos), Slot::Atomic);
    let c = spec_term_suffixes(text, c);
    c.finish(text, LifeRestartRule::Term, at)
}

/// Match the rule `Term` at index `at`.
#[verifier::rlimit(30)]
pub fn parse_term(source: &Source, at: usize) -> (found: Match)
    requires
        at <= source@.len(),
    ensures
        found@ == spec_term(source@, at as int),
        found@.within(source@, at as int),
        found@.tree is Some ==> found@.end > at,
{
    proof {
        reveal(spec_term);
    }
    let mut c = State::start(at);
    if c.ok {
        c = match_term_prefixes(source, c);
    }
    if c.ok {
        let found = parse_atomic(source, c.pos);
        c.attach(found, Slot::Atomic);
    }
    if c.ok {
        c = match_term_suffixes(source, c);
    }
    c.finish(source, LifeRestartRule::Term, at)
}

/// The result of the rule `Prefix` at index `at`.
///
/// ```text
/// Prefix <- ('不是' / '非' / '!')#prefix0
/// ```
#[verifier::opaque]
pub open spec fn spec_prefix(text: Seq<char>, at: int) -> Outcome {
    let c = Cursor::start(at);
    let c = if !c.ok {
        c
    } else {
        let alt = Cursor::start(c.pos).attach(spec_mark_prefix_0(text, c.pos), Slot::Prefix0);
        if alt.ok {
            c.join(alt)
        } else {
            c.note(alt.far).halt()
        }
    };
    c.finish(text, LifeRestartRule::Prefix, at)
}

/// Match the rule `Prefix` at index `at`.
pub fn parse_prefix(source: &Source, at: usize) -> (found: Match)
    requires
        at <= source@.len(),
    ensures
        found@ == spec_prefix(source@, at as int),
        found@.within(source@, at as int),
        found@.tree is Some ==> found@.end > at,
{
    proof {
        reveal(spec_prefix);
    }
    let mut c = State::start(at);
    if c.ok {
        let alt = State::attached(parse_mark_prefix_0(source, c.pos), Slot::Prefix0, c.pos);
        if alt.ok {
            c.join(alt);
        } else {
            c.note(alt.far);
            c.halt();
        }
    }
    c.finish(source, LifeRestartRule::Prefix, at)
}

/// The result of the rule `Infix` at index `at`.
///
/// ```text
/// Infix <- ('大于等于' / '>=')#geq / ('小于等于' / '<=')#leq / ('不等于' / '!=')#ne
///     / ('等于' / '为' / '==')#eq / ('大于' / '>')#gt / ('小于' / '<')#lt /
///     ('&&' / '且')#and / ('||' / '或')#or / ('拥有' / '有' / 'has')#has /
///     ('+=')#add_assign / ('-=')#sub_assign / ('+')#add / ('-')#sub
/// ```
#[verifier::opaque]
pub open spec fn spec_infix(text: Seq<char>, at: int) -> Outcome {
    let c = Cursor::start(at);
    let c = if !c.ok {
        c
    } else {
        let alt = Cursor::start(c.pos).attach(spec_mark_geq(text, c.pos), Slot::Geq);
        if alt.ok {
            c.join(alt)
        } else {
            let c = c.note(alt.far);
            let alt = Cursor::start(c.pos).attach(spec_mark_leq(text, c.pos), Slot::Leq);
            if alt.ok {
                c.join(alt)
            } else {
                let c = c.note(alt.far);
                let alt = Cursor::start(c.pos).attach(spec_mark_ne(text, c.pos), Slot::Ne);
                if alt.ok {
                    c.join(alt)
                } else {
                    let c = c.note(alt.far);
                    let alt = Cursor::start(c.pos).attach(spec_mark_eq(text, c.pos), Slot::Eq);
                    if alt.ok {
                        c.join(alt)
                    } else {
                        let c = c.note(alt.far);
                        let alt = Cursor::start(c.pos).attach(spec_mark_gt(text, c.pos), Slot::Gt);
                        if alt.ok {
                            c.join(alt)
                        } else {
                            let c = c.note(alt.far);
                            let alt = Cursor::start(c.pos).attach(
                                spec_mark_lt(text, c.pos),
                                Slot::Lt,
                            );
                            if alt.ok {
                                c.join(alt)
                            } else {
                                let c = c.note(alt.far);
                                let alt = Cursor::start(c.pos).attach(
                                    spec_mark_and(text, c.pos),
                                    Slot::And,
                                );
                                if alt.ok {
                                    c.join(alt)
                                } else {
                                    let c = c.note(alt.far);
                                    let alt = Cursor::start(c.pos).attach(
                                        spec_mark_or(text, c.pos),
                                        Slot::Or,
                                    );
                                    if alt.ok {
                                        c.join(alt)
                                    } else {
                                        let c = c.note(alt.far);
                                        let alt = Cursor::start(c.pos).attach(
                                            spec_mark_has(text, c.pos),
                                            Slot::Has,
                                        );
                                        if alt.ok {
                                            c.join(alt)
                                        } else {
                                            let c = c.note(alt.far);
                                            let alt = Cursor::start(c.pos).attach(
                                                spec_mark_add_assign(text, c.pos),
                                                Slot::AddAssign,
                                            );
                                            if alt.ok {
                                                c.join(alt)
                                            } else {
                                                let c = c.note(alt.far);
                                                let alt = Cursor::start(c.pos).attach(
                                                    spec_mark_sub_assign(text, c.pos),
                                                    Slot::SubAssign,
                                                );
                                                if alt.ok {
                                                    c.join(alt)
                                                } else {
                                                    let c = c.note(alt.far);
                                                    let alt = Cursor::start(c.pos).attach(
                                                        spec_mark_add(text, c.pos),
                                                        Slot::Add,
                                                    );
                                                    if alt.ok {
                                                        c.join(alt)
                                                    } else {
                                                        let c = c.note(alt.far);
                                                        let alt = Cursor::start(c.pos).attach(
                                                            spec_mark_sub(text, c.pos),
                                                            Slot::Sub,
                                                        );
                                                        if alt.ok {
                                                            c.join(alt)
                                                        } else {
                                                            c.note(alt.far).halt()
                                                        }
                                                    }
                                                }
                                            }
                                        }
                                    }
                                }
                            }
                        }
                    }
                }
            }
        }
    };
    c.finish(text, LifeRestartRule::Infix, at)
}

/// Match the rule `Infix` at index `at`.
#[verifier::rlimit(100)]
pub fn parse_infix(source: &Source, at: usize) -> (found: Match)
    requires
        at <= source@.len(),
    ensures
        found@ == spec_infix(source@, at as int),
        found@.within(source@, at as int),
        found@.tree is Some ==> found@.end > at,
{
    proof {
        reveal(spec_infix);
    }
    let mut c = State::start(at);
    if c.ok {
        let alt = State::attached(parse_mark_geq(source, c.pos), Slot::Geq, c.pos);
        if alt.ok {
            c.join(alt);
        } else {
            c.note(alt.far);
            let alt = State::attached(parse_mark_leq(source, c.pos), Slot::Leq, c.pos);
            if alt.ok {
                c.join(alt);
            } else {
                c.note(alt.far);
                let alt = State::attached(parse_mark_ne(source, c.pos), Slot::Ne, c.pos);
                if alt.ok {
                    c.join(alt);
                } else {
                    c.note(alt.far);
                    let alt = State::attached(parse_mark_eq(source, c.pos), Slot::Eq, c.pos);
                    if alt.ok {
                        c.join(alt);
                    } else {
                        c.note(alt.far);
                        let alt = State::attached(parse_mark_gt(source, c.pos), Slot::Gt, c.pos);
                        if alt.ok {
                            c.join(alt);
                        } else {
                            c.note(alt.far);
                            let alt = State::attached(
                                parse_mark_lt(source, c.pos),
                                Slot::Lt,
                                c.pos,
                            );
                            if alt.ok {
                                c.join(alt);
                            } else {
                                c.note(alt.far);
                                let alt = State::attached(
                                    parse_mark_and(source, c.pos),
                                    Slot::And,
                                    c.pos,
                                );
                                if alt.ok {
                                    c.join(alt);
                                } else {
                                    c.note(alt.far);
                                    let alt = State::attached(
                                        parse_mark_or(source, c.pos),
                                        Slot::Or,
                                        c.pos,
                                    );
                                    if alt.ok {
                                        c.join(alt);
                                    } else {
                                        c.note(alt.far);
                                        let alt = State::attached(
                                            parse_mark_has(source, c.pos),
                                            Slot::Has,
                                            c.pos,
                                        );
                                        if alt.ok {
                                            c.join(alt);
                                        } else {
                                            c.note(alt.far);
                                            let alt = State::attached(
                                                parse_mark_add_assign(source, c.pos),
                                                Slot::AddAssign,
                                                c.pos,
                                            );
                                            if alt.ok {
                                                c.join(alt);
                                            } else {
                                                c.note(alt.far);
                                                let alt = State::attached(
                                                    parse_mark_sub_assign(source, c.pos),
                                                    Slot::SubAssign,
                                                    c.pos,
                                                );
                                                if alt.ok {
                                                    c.join(alt);
                                                } else {
                                                    c.note(alt.far);
                                                    let alt = State::attached(
                                                        parse_mark_add(source, c.pos),
                                                        Slot::Add,
                                                        c.pos,
                                                    );
                                                    if alt.ok {
                                                        c.join(alt);
                                                    } else {
                                                        c.note(alt.far);
                                                        let alt = State::attached(
                                                            parse_mark_sub(source, c.pos),
                                                            Slot::Sub,
                                                            c.pos,
                                                        );
                                                        if alt.ok {
                                                            c.join(alt);
                                                        } else {
                                                            c.note(alt.far);
                                                            c.halt();
                                                        }
                                                    }
                                                }
                                            }
                                        }
                                    }
                                }
                            }
                        }
                    }
                }
            }
        }
    }
    c.finish(source, LifeRestartRule::Infix, at)
}

/// The result of the rule `Suffix` at index `at`.
///
/// ```text
/// Suffix <- ('%')#suffix0
/// ```
#[verifier::opaque]
pub open spec fn spec_suffix(text: Seq<char>, at: int) -> Outcome {
    let c = Cursor::start(at);
    let c = if !c.ok {
        c
    } else {
        let alt = Cursor::start(c.pos).attach(spec_mark_suffix_0(text, c.pos), Slot::Suffix0);
        if alt.ok {
            c.join(alt)
        } else {
            c.note(alt.far).halt()
        }
    };
    c.finish(text, LifeRestartRule::Suffix, at)
}

/// Match the rule `Suffix` at index `at`.
pub fn parse_suffix(source: &Source, at: usize) -> (found: Match)
    requires
        at <= source@.len(),
    ensures
        found@ == spec_suffix(source@, at as int),
        found@.within(source@, at as int),
        found@.tree is Some ==> found@.end > at,
{
    proof {
        reveal(spec_suffix);
    }
    let mut c = State::start(at);
    if c.ok {
        let alt = State::attached(parse_mark_suffix_0(source, c.pos), Slot::Suffix0, c.pos);
        if alt.ok {
            c.join(alt);
        } else {
            c.note(alt.far);
            c.halt();
        }
    }
    c.finish(source, LifeRestartRule::Suffix, at)
}

/// The result of the rule `Atomic` at index `at`.
///
/// ```text
/// Atomic <- Boolean#boolean / Identifier#identifier / Integer#integer /
///     List#list / StringRaw#string_raw / StringNormal#string_normal
/// ```
pub open spec fn spec_atomic(text: Seq<char>, at: int) -> Outcome
    decreases text.len() - at, 1nat,
{
    let c = Cursor::start(at);
    let c = if !c.ok {
        c
    } else {
        let alt = Cursor::start(c.pos).attach(spec_boolean(text, c.pos), Slot::Boolean);
        if alt.ok {
            c.join(alt)
        } else {
            let c = c.note(alt.far);
            let alt = Cursor::start(c.pos).attach(spec_identifier(text, c.pos), Slot::Identifier);
            if alt.ok {
                c.join(alt)
            } else {
                let c = c.note(alt.far);
                let alt = Cursor::start(c.pos).attach(spec_integer(text, c.pos), Slot::Integer);
                if alt.ok {
                    c.join(alt)
                } else {
                    let c = c.note(alt.far);
                    let found = if at <= c.pos && c.pos <= text.len() {
                        spec_list(text, c.pos)
                    } else {
                        Outcome::none(c.pos)
                    };
                    let alt = Cursor::start(c.pos).attach(found, Slot::List);
                    if alt.ok {
                        c.join(alt)
                    } else {
                        let c = c.note(alt.far);
                        let alt = Cursor::start(c.pos).attach(
                            spec_string_raw(text, c.pos),
                            Slot::StringRaw,
                        );
                        if alt.ok {
                            c.join(alt)
                        } else {
                            let c = c.note(alt.far);
                            let alt = Cursor::start(c.pos).attach(
                                spec_string_normal(text, c.pos),
                                Slot::StringNormal,
                            );
                            if alt.ok {
                                c.join(alt)
                            } else {
                                c.note(alt.far).halt()
                            }
                        }
                    }
                }
            }
        }
    };
    c.finish(text, LifeRestartRule::Atomic, at)
}

/// Match the rule `Atomic` at index `at`.
#[verifier::rlimit(30)]
pub fn parse_atomic(source: &Source, at: usize) -> (found: Match)
    requires
        at <= source@.len(),
    ensures
        found@ == spec_atomic(source@, at as int),
        found@.within(source@, at as int),
        found@.tree is Some ==> found@.end > at,
    decreases source@.len() - at, 1nat,
{
    let mut c = State::start(at);
    if c.ok {
        let alt = State::attached(parse_boolean(source, c.pos), Slot::Boolean, c.pos);
        if alt.ok {
            c.join(alt);
        } else {
            c.note(alt.far);
            let alt = State::attached(parse_identifier(source, c.pos), Slot::Identifier, c.pos);
            if alt.ok {
                c.join(alt);
            } else {
                c.note(alt.far);
                let alt = State::attached(parse_integer(source, c.pos), Slot::Integer, c.pos);
                if alt.ok {
                    c.join(alt);
                } else {
                    c.note(alt.far);
                    let alt = State::attached(parse_list(source, c.pos), Slot::List, c.pos);
                    if alt.ok {
                        c.join(alt);
                    } else {
                        c.note(alt.far);
                        let alt = State::attached(
                            parse_string_raw(source, c.pos),
                            Slot::StringRaw,
                            c.pos,
                        );
                        if alt.ok {
                            c.join(alt);
                        } else {
                            c.note(alt.far);
                            let alt = State::attached(
                                parse_string_normal(source, c.pos),
                                Slot::StringNormal,
                                c.pos,
                            );
                            if alt.ok {
                                c.join(alt);
                            } else {
                                c.note(alt.far);
                                c.halt();
                            }
                        }
                    }
                }
            }
        }
    }
    c.finish(source, LifeRestartRule::Atomic, at)
}

/// The cursor after `~ COMMA#comma` was tried at index `at`.
#[verifier::opaque]
pub open spec fn spec_list_comma(text: Seq<char>, at: int) -> Cursor {
    let c = Cursor::start(at);
    let c = c.trivia(text);
    let c = c.attach(spec_comma(text, c.pos), Slot::Comma);
    c
}

/// Try `~ COMMA#comma` at index `at`.
pub fn match_list_comma(source: &Source, at: usize) -> (group: State)
    requires
        at <= source@.len(),
    ensures
        group@ == spec_list_comma(source@, at as int),
        group@.within(source@, at as int),
        group@.ok ==> group@.pos > at,
{
    proof {
        reveal(spec_list_comma);
    }
    let mut c = State::start(at);
    c.trivia(source);
    if c.ok {
        let found = parse_comma(source, c.pos);
        c.attach(found, Slot::Comma);
    }
    c
}

/// The cursor after `~ Atomic#atomic (~ COMMA#comma)?` was tried at index `at`.
pub open spec fn spec_list_item(text: Seq<char>, at: int) -> Cursor
    decreases text.len() - at, 2nat,
{
    let c = Cursor::start(at);
    let c = c.trivia(text);
    let found = if at <= c.pos && c.pos <= text.len() {
        spec_atomic(text, c.pos)
    } else {
        Outcome::none(c.pos)
    };
    let c = c.attach(found, Slot::Atomic);
    let c = c.option(spec_list_comma(text, c.pos));
    c
}

/// Try `~ Atomic#atomic (~ COMMA#comma)?` at index `at`.
#[verifier::rlimit(30)]
pub fn match_list_item(source: &Source, at: usize) -> (group: State)
    requires
        at <= source@.len(),
    ensures
        group@ == spec_list_item(source@, at as int),
        group@.within(source@, at as int),
        group@.ok ==> group@.pos > at,
    decreases source@.len() - at, 2nat,
{
    let mut c = State::start(at);
    c.trivia(source);
    if c.ok {
        let found = parse_atomic(source, c.pos);
        c.attach(found, Slot::Atomic);
    }
    if c.ok {
        let group = match_list_comma(source, c.pos);
        c.option(group);
    }
    c
}

/// The cursor after `(~ Atomic#atomic (~ COMMA#comma)?)*` was matched from the
/// cursor `from` on: the group as often as it matches and moves the cursor.
pub open spec fn spec_list_items(text: Seq<char>, from: Cursor) -> Cursor
    decreases text.len() - from.pos, 3nat,
{
    if !from.ok {
        from
    } else {
        let step = if from.pos <= text.len() {
            spec_list_item(text, from.pos)
        } else {
            Cursor::none(from.pos)
        };
        if step.ok && from.pos < step.pos <= text.len() {
            spec_list_items(text, from.join(step))
        } else {
            from.note(step.far)
        }
    }
}

/// Match `(~ Atomic#atomic (~ COMMA#comma)?)*` from the cursor `from` on.
#[verifier::rlimit(30)]
pub fn match_list_items(source: &Source, from: State) -> (done: State)
    requires
        from@.pos <= source@.len(),
        from@.far <= source@.len(),
    ensures
        done@ == spec_list_items(source@, from@),
        done@.ok == from@.ok,
        from@.pos <= done@.pos <= source@.len(),
        from@.far <= done@.far <= source@.len(),
    decreases source@.len() - from@.pos, 3nat,
{
    let mut c = from;
    if !c.ok {
        return c;
    }
    loop
        invariant
            c.ok,
            from@.pos <= c@.pos <= source@.len(),
            from@.far <= c@.far <= source@.len(),
            spec_list_items(source@, from@) == spec_list_items(source@, c@),
        decreases source@.len() - c@.pos,
    {
        let step = match_list_item(source, c.pos);
        if step.ok && step.pos > c.pos {
            c.join(step);
        } else {
            c.note(step.far);
            return c;
        }
    }
}

/// The result of the rule `List` at index `at`.
///
/// ```text
/// List <- '[' (~ Atomic#atomic (~ COMMA#comma)?)* ~ ']'
/// ```
pub open spec fn spec_list(text: Seq<char>, at: int) -> Outcome
    decreases text.len() - at, 0nat,
{
    let c = Cursor::start(at);
    let c = c.word(text, "["@);
    let c = if at < c.pos && c.pos <= text.len() {
        spec_list_items(text, c)
    } else {
        c.halt()
    };
    let c = c.trivia(text);
    let c = c.word(text, "]"@);
    c.finish(text, LifeRestartRule::List, at)
}

/// Match the rule `List` at index `at`.
#[verifier::rlimit(30)]
pub fn parse_list(source: &Source, at: usize) -> (found: Match)
    requires
        at <= source@.len(),
    ensures
        found@ == spec_list(source@, at as int),
        found@.within(source@, at as int),
        found@.tree is Some ==> found@.end > at,
    decreases source@.len() - at, 0nat,
{
    let mut c = State::start(at);
    c.word(source, "[");
    if c.ok {
        c = match_list_items(source, c);
    }
    c.trivia(source);
    c.word(source, "]");
    c.finish(source, LifeRestartRule::List, at)
}

/// The result of the rule `String` at index `at`.
///
/// ```text
/// String <- StringRaw#string_raw / StringNormal#string_normal
/// ```
#[verifier::opaque]
pub open spec fn spec_string(text: Seq<char>, at: int) -> Outcome {
    let c = Cursor::start(at);
    let c = if !c.ok {
        c
    } else {
        let alt = Cursor::start(c.pos).attach(spec_string_raw(text, c.pos), Slot::StringRaw);
        if alt.ok {
            c.join(alt)
        } else {
            let c = c.note(alt.far);
            let alt = Cursor::start(c.pos).attach(
                spec_string_normal(text, c.pos),
                Slot::StringNormal,
            );
            if alt.ok {
                c.join(alt)
            } else {
                c.note(alt.far).halt()
            }
        }
    };
    c.finish(text, LifeRestartRule::String, at)
}

/// Match the rule `String` at index `at`.
pub fn parse_string(source: &Source, at: usize) -> (found: Match)
    requires
        at <= source@.len(),
    ensures
        found@ == spec_string(source@, at as int),
        found@.within(source@, at as int),
        found@.tree is Some ==> found@.end > at,
{
    proof {
        reveal(spec_string);
    }
    let mut c = State::start(at);
    if c.ok {
        let alt = State::attached(parse_string_raw(source, c.pos), Slot::StringRaw, c.pos);
        if alt.ok {
            c.join(alt);
        } else {
            c.note(alt.far);
            let alt = State::attached(
                parse_string_normal(source, c.pos),
                Slot::StringNormal,
                c.pos,
            );
            if alt.ok {
                c.join(alt);
            } else {
                c.note(alt.far);
                c.halt();
            }
        }
    }
    c.finish(source, LifeRestartRule::String, at)
}

/// The result of the rule `StringRaw` at index `at`.
///
/// ```text
/// StringRaw <- "'" StringRawText#string_raw_text "'"
/// ```
#[verifier::opaque]
pub open spec fn spec_string_raw(text: Seq<char>, at: int) -> Outcome {
    let c = Cursor::start(at);
    let c = c.word(text, "'"@);
    let c = c.attach(spec_string_raw_text(text, c.pos), Slot::StringRawText);
    let c = c.word(text, "'"@);
    c.finish(text, LifeRestartRule::StringRaw, at)
}

/// Match the rule `StringRaw` at index `at`.
pub fn parse_string_raw(source: &Source, at: usize) -> (found: Match)
    requires
        at <= source@.len(),
    ensures
        found@ == spec_string_raw(source@, at as int),
        found@.within(source@, at as int),
        found@.tree is Some ==> found@.end > at,
{
    proof {
        reveal(spec_string_raw);
    }
    let mut c = State::start(at);
    c.word(source, "'");
    if c.ok {
        let found = parse_string_raw_text(source, c.pos);
        c.attach(found, Slot::StringRawText);
    }
    c.word(source, "'");
    c.finish(source, LifeRestartRule::StringRaw, at)
}

/// The cursor after `StringItem#string_item` was tried at index `at`.
#[verifier::opaque]
pub open spec fn spec_string_normal_item(text: Seq<char>, at: int) -> Cursor {
    let c = Cursor::start(at);
    let c = c.attach(spec_string_item(text, c.pos), Slot::StringItem);
    c
}

/// Try `StringItem#string_item` at index `at`.
pub fn match_string_normal_item(source: &Source, at: usize) -> (group: State)
    requires
        at <= source@.len(),
    ensures
        group@ == spec_string_normal_item(source@, at as int),
        group@.within(source@, at as int),
        group@.ok ==> group@.pos > at,
{
    proof {
        reveal(spec_string_normal_item);
    }
    let mut c = State::start(at);
    if c.ok {
        let found = parse_string_item(source, c.pos);
        c.attach(found, Slot::StringItem);
    }
    c
}

/// The cursor after `(StringItem#string_item)*` was matched from the cursor
/// `from` on: the group as often as it matches and moves the cursor.
pub open spec fn spec_string_normal_items(text: Seq<char>, from: Cursor) -> Cursor
    decreases text.len() - from.pos,
{
    if !from.ok {
        from
    } else {
        let step = spec_string_normal_item(text, from.pos);
        if step.ok && from.pos < step.pos <= text.len() {
            spec_string_normal_items(text, from.join(step))
        } else {
            from.note(step.far)
        }
    }
}

/// Match `(StringItem#string_item)*` from the cursor `from` on.
#[verifier::rlimit(30)]
pub fn match_string_normal_items(source: &Source, from: State) -> (done: State)
    requires
        from@.pos <= source@.len(),
        from@.far <= source@.len(),
    ensures
        done@ == spec_string_normal_items(source@, from@),
        done@.ok == from@.ok,
        from@.pos <= done@.pos <= source@.len(),
        from@.far <= done@.far <= source@.len(),
{
    let mut c = from;
    if !c.ok {
        return c;
    }
    loop
        invariant
            c.ok,
            from@.pos <= c@.pos <= source@.len(),
            from@.far <= c@.far <= source@.len(),
            spec_string_normal_items(source@, from@) == spec_string_normal_items(source@, c@),
        decreases source@.len() - c@.pos,
    {
        let step = match_string_normal_item(source, c.pos);
        if step.ok && step.pos > c.pos {
            c.join(step);
        } else {
            c.note(step.far);
            return c;
        }
    }
}

/// The result of the rule `StringNormal` at index `at`.
///
/// ```text
/// StringNormal <- '"' (StringItem#string_item)* '"'
/// ```
#[verifier::opaque]
pub open spec fn spec_string_normal(text: Seq<char>, at: int) -> Outcome {
    let c = Cursor::start(at);
    let c = c.word(text, "\""@);
    let c = spec_string_normal_items(text, c);
    let c = c.word(text, "\""@);
    c.finish(text, LifeRestartRule::StringNormal, at)
}

/// Match the rule `StringNormal` at index `at`.
#[verifier::rlimit(30)]
pub fn parse_string_normal(source: &Source, at: usize) -> (found: Match)
    requires
        at <= source@.len(),
    ensures
        found@ == spec_string_normal(source@, at as int),
        found@.within(source@, at as int),
        found@.tree is Some ==> found@.end > at,
{
    proof {
        reveal(spec_string_normal);
    }
    let mut c = State::start(at);
    c.word(source, "\"");
    if c.ok {
        c = match_string_normal_items(source, c);
    }
    c.word(source, "\"");
    c.finish(source, LifeRestartRule::StringNormal, at)
}

/// The result of the rule `StringItem` at index `at`.
///
/// ```text
/// StringItem <- EscapedUnicode#escaped_unicode /
///     EscapedCharacter#escaped_character / TextAny#text_any
/// ```
#[verifier::opaque]
pub open spec fn spec_string_item(text: Seq<char>, at: int) -> Outcome {
    let c = Cursor::start(at);
    let c = if !c.ok {
        c
    } else {
        let alt = Cursor::start(c.pos).attach(
            spec_escaped_unicode(text, c.pos),
            Slot::EscapedUnicode,
        );
        if alt.ok {
            c.join(alt)
        } else {
            let c = c.note(alt.far);
            let alt = Cursor::start(c.pos).attach(
                spec_escaped_character(text, c.pos),
                Slot::EscapedCharacter,
            );
            if alt.ok {
                c.join(alt)
            } else {
                let c = c.note(alt.far);
                let alt = Cursor::start(c.pos).attach(spec_text_any(text, c.pos), Slot::TextAny);
                if alt.ok {
                    c.join(alt)
                } else {
                    c.note(alt.far).halt()
                }
            }
        }
    };
    c.finish(text, LifeRestartRule::StringItem, at)
}

/// Match the rule `StringItem` at index `at`.
pub fn parse_string_item(source: &Source, at: usize) -> (found: Match)
    requires
        at <= source@.len(),
    ensures
        found@ == spec_string_item(source@, at as int),
        found@.within(source@, at as int),
        found@.tree is Some ==> found@.end > at,
{
    proof {
        reveal(spec_string_item);
    }
    let mut c = State::start(at);
    if c.ok {
        let alt = State::attached(
            parse_escaped_unicode(source, c.pos),
            Slot::EscapedUnicode,
            c.pos,
        );
        if alt.ok {
            c.join(alt);
        } else {
            c.note(alt.far);
            let alt = State::attached(
                parse_escaped_character(source, c.pos),
                Slot::EscapedCharacter,
                c.pos,
            );
            if alt.ok {
                c.join(alt);
            } else {
                c.note(alt.far);
                let alt = State::attached(parse_text_any(source, c.pos), Slot::TextAny, c.pos);
                if alt.ok {
                    c.join(alt);
                } else {
                    c.note(alt.far);
                    c.halt();
                }
            }
        }
    }
    c.finish(source, LifeRestartRule::StringItem, at)
}

/// The result of the rule `EscapedUnicode` at index `at`.
///
/// ```text
/// EscapedUnicode <- '\u{' HEX#hex '}'
/// ```
#[verifier::opaque]
pub open spec fn spec_escaped_unicode(text: Seq<char>, at: int) -> Outcome {
    let c = Cursor::start(at);
    let c = c.word(text, "\\u{"@);
    let c = c.attach(spec_hex(text, c.pos), Slot::Hex);
    let c = c.word(text, "}"@);
    c.finish(text, LifeRestartRule::EscapedUnicode, at)
}

/// Match the rule `EscapedUnicode` at index `at`.
pub fn parse_escaped_unicode(source: &Source, at: usize) -> (found: Match)
    requires
        at <= source@.len(),
    ensures
        found@ == spec_escaped_unicode(source@, at as int),
        found@.within(source@, at as int),
        found@.tree is Some ==> found@.end > at,
{
    proof {
        reveal(spec_escaped_unicode);
    }
    let mut c = State::start(at);
    c.word(source, "\\u{");
    if c.ok {
        let found = parse_hex(source, c.pos);
        c.attach(found, Slot::Hex);
    }
    c.word(source, "}");
    c.finish(source, LifeRestartRule::EscapedUnicode, at)
}

/// The result of the rule `Boolean` at index `at`.
///
/// ```text
/// Boolean <- ('真' / 'true')#true / ('假' / 'false')#false
/// ```
#[verifier::opaque]
pub open spec fn spec_boolean(text: Seq<char>, at: int) -> Outcome {
    let c = Cursor::start(at);
    let c = if !c.ok {
        c
    } else {
        let alt = Cursor::start(c.pos).attach(spec_mark_true(text, c.pos), Slot::True);
        if alt.ok {
            c.join(alt)
        } else {
            let c = c.note(alt.far);
            let alt = Cursor::start(c.pos).attach(spec_mark_false(text, c.pos), Slot::False);
            if alt.ok {
                c.join(alt)
            } else {
                c.note(alt.far).halt()
            }
        }
    };
    c.finish(text, LifeRestartRule::Boolean, at)
}

/// Match the rule `Boolean` at index `at`.
pub fn parse_boolean(source: &Source, at: usize) -> (found: Match)
    requires
        at <= source@.len(),
    ensures
        found@ == spec_boolean(source@, at as int),
        found@.within(source@, at as int),
        found@.tree is Some ==> found@.end > at,
{
    proof {
        reveal(spec_boolean);
    }
    let mut c = State::start(at);
    if c.ok {
        let alt = State::attached(parse_mark_true(source, c.pos), Slot::True, c.pos);
        if alt.ok {
            c.join(alt);
        } else {
            c.note(alt.far);
            let alt = State::attached(parse_mark_false(source, c.pos), Slot::False, c.pos);
            if alt.ok {
                c.join(alt);
            } else {
                c.note(alt.far);
                c.halt();
            }
        }
    }
    c.finish(source, LifeRestartRule::Boolean, at)
}

/// The result of the rule `rule` at index `at`. Unnamed text is no rule of the
/// grammar and never matches.
pub open spec fn spec_rule(text: Seq<char>, rule: LifeRestartRule, at: int) -> Outcome {
    match rule {
        LifeRestartRule::Root => spec_root(text, at),
        LifeRestartRule::TopStatement => spec_top_statement(text, at),
        LifeRestartRule::EOS => spec_eos(text, at),
        LifeRestartRule::PropertyStatement => spec_property_statement(text, at),
        LifeRestartRule::PropertyItem => spec_property_item(text, at),
        LifeRestartRule::EnumerateStatement => spec_enumerate_statement(text, at),
        LifeRestartRule::OptionStatement => spec_option_statement(text, at),
        LifeRestartRule::OptionItem => spec_option_item(text, at),
        LifeRestartRule::TraitGroup => spec_trait_group(text, at),
        LifeRestartRule::TraitStatement => spec_trait_statement(text, at),
        LifeRestartRule::TraitItem => spec_trait_item(text, at),
        LifeRestartRule::TraitProperty => spec_trait_property(text, at),
        LifeRestartRule::RequirementStatement => spec_requirement_statement(text, at),
        LifeRestartRule::EffectStatement => spec_effect_statement(text, at),
        LifeRestartRule::EventGroup => spec_event_group(text, at),
        LifeRestartRule::EventStatement => spec_event_statement(text, at),
        LifeRestartRule::EventItem => spec_event_item(text, at),
        LifeRestartRule::EventProperty => spec_event_property(text, at),
        LifeRestartRule::IdStatement => spec_id_statement(text, at),
        LifeRestartRule::DescriptionStatement => spec_description_statement(text, at),
        LifeRestartRule::Statement => spec_statement(text, at),
        LifeRestartRule::IfStatement => spec_if_statement(text, at),
        LifeRestartRule::IfThenBlock => spec_if_then_block(text, at),
        LifeRestartRule::IfElseIfBlock => spec_if_else_if_block(text, at),
        LifeRestartRule::IfElseBlock => spec_if_else_block(text, at),
        LifeRestartRule::Expression => spec_expression(text, at),
        LifeRestartRule::Term => spec_term(text, at),
        LifeRestartRule::Prefix => spec_prefix(text, at),
        LifeRestartRule::Infix => spec_infix(text, at),
        LifeRestartRule::Suffix => spec_suffix(text, at),
        LifeRestartRule::Atomic => spec_atomic(text, at),
        LifeRestartRule::List => spec_list(text, at),
        LifeRestartRule::String => spec_string(text, at),
        LifeRestartRule::StringRaw => spec_string_raw(text, at),
        LifeRestartRule::StringRawText => spec_string_raw_text(text, at),
        LifeRestartRule::StringNormal => spec_string_normal(text, at),
        LifeRestartRule::StringItem => spec_string_item(text, at),
        LifeRestartRule::EscapedUnicode => spec_escaped_unicode(text, at),
        LifeRestartRule::EscapedCharacter => spec_escaped_character(text, at),
        LifeRestartRule::HEX => spec_hex(text, at),
        LifeRestartRule::TextAny => spec_text_any(text, at),
        LifeRestartRule::Identifier => spec_identifier(text, at),
        LifeRestartRule::Integer => spec_integer(text, at),
        LifeRestartRule::Boolean => spec_boolean(text, at),
        LifeRestartRule::COMMA => spec_comma(text, at),
        LifeRestartRule::COLON => spec_colon(text, at),
        LifeRestartRule::KW_PROPERTY => spec_kw_property(text, at),
        LifeRestartRule::KW_TRAIT_GROUP => spec_kw_trait_group(text, at),
        LifeRestartRule::KW_TRAIT => spec_kw_trait(text, at),
        LifeRestartRule::KW_EVENT_GROUP => spec_kw_event_group(text, at),
        LifeRestartRule::KW_EVENT => spec_kw_event(text, at),
        LifeRestartRule::KW_ID => spec_kw_id(text, at),
        LifeRestartRule::KW_DESCRIPTION => spec_kw_description(text, at),
        LifeRestartRule::KW_REQUIREMENT => spec_kw_requirement(text, at),
        LifeRestartRule::KW_EFFECT => spec_kw_effect(text, at),
        LifeRestartRule::KW_ENUMERATE => spec_kw_enumerate(text, at),
        LifeRestartRule::KW_OPTIONS => spec_kw_options(text, at),
        LifeRestartRule::KW_IF => spec_kw_if(text, at),
        LifeRestartRule::KW_ELSE_IF => spec_kw_else_if(text, at),
        LifeRestartRule::KW_ELSE => spec_kw_else(text, at),
        LifeRestartRule::WhiteSpace => spec_white_space(text, at),
        LifeRestartRule::Comment => spec_comment(text, at),
        LifeRestartRule::HiddenText => Outcome::none(at),
    }
}

/// Match the rule `rule` at index `at`.
pub fn parse_rule(source: &Source, rule: LifeRestartRule, at: usize) -> (found: Match)
    requires
        at <= source@.len(),
    ensures
        found@ == spec_rule(source@, rule, at as int),
        found@.within(source@, at as int),
{
    match rule {
        LifeRestartRule::Root => parse_root(source, at),
        LifeRestartRule::TopStatement => parse_top_statement(source, at),
        LifeRestartRule::EOS => parse_eos(source, at),
        LifeRestartRule::PropertyStatement => parse_property_statement(source, at),
        LifeRestartRule::PropertyItem => parse_property_item(source, at),
        LifeRestartRule::EnumerateStatement => parse_enumerate_statement(source, at),
        LifeRestartRule::OptionStatement => parse_option_statement(source, at),
        LifeRestartRule::OptionItem => parse_option_item(source, at),
        LifeRestartRule::TraitGroup => parse_trait_group(source, at),
        LifeRestartRule::TraitStatement => parse_trait_statement(source, at),
        LifeRestartRule::TraitItem => parse_trait_item(source, at),
        LifeRestartRule::TraitProperty => parse_trait_property(source, at),
        LifeRestartRule::RequirementStatement => parse_requirement_statement(source, at),
        LifeRestartRule::EffectStatement => parse_effect_statement(source, at),
        LifeRestartRule::EventGroup => parse_event_group(source, at),
        LifeRestartRule::EventStatement => parse_event_statement(source, at),
        LifeRestartRule::EventItem => parse_event_item(source, at),
        LifeRestartRule::EventProperty => parse_event_property(source, at),
        LifeRestartRule::IdStatement => parse_id_statement(source, at),
        LifeRestartRule::DescriptionStatement => parse_description_statement(source, at),
        LifeRestartRule::Statement => parse_statement(source, at),
        LifeRestartRule::IfStatement => parse_if_statement(source, at),
        LifeRestartRule::IfThenBlock => parse_if_then_block(source, at),
        LifeRestartRule::IfElseIfBlock => parse_if_else_if_block(source, at),
        LifeRestartRule::IfElseBlock => parse_if_else_block(source, at),
        LifeRestartRule::Expression => parse_expression(source, at),
        LifeRestartRule::Term => parse_term(source, at),
        LifeRestartRule::Prefix => parse_prefix(source, at),
        LifeRestartRule::Infix => parse_infix(source, at),
        LifeRestartRule::Suffix => parse_suffix(source, at),
        LifeRestartRule::Atomic => parse_atomic(source, at),
        LifeRestartRule::List => parse_list(source, at),
        LifeRestartRule::String => parse_string(source, at),
        LifeRestartRule::StringRaw => parse_string_raw(source, at),
        LifeRestartRule::StringRawText => parse_string_raw_text(source, at),
        LifeRestartRule::StringNormal => parse_string_normal(source, at),
        LifeRestartRule::StringItem => parse_string_item(source, at),
        LifeRestartRule::EscapedUnicode => parse_escaped_unicode(source, at),
        LifeRestartRule::EscapedCharacter => parse_escaped_character(source, at),
        LifeRestartRule::HEX => parse_hex(source, at),
        LifeRestartRule::TextAny => parse_text_any(source, at),
        LifeRestartRule::Identifier => parse_identifier(source, at),
        LifeRestartRule::Integer => parse_integer(source, at),
        LifeRestartRule::Boolean => parse_boolean(source, at),
        LifeRestartRule::COMMA => parse_comma(source, at),
        LifeRestartRule::COLON => parse_colon(source, at),
        LifeRestartRule::KW_PROPERTY => parse_kw_property(source, at),
        LifeRestartRule::KW_TRAIT_GROUP => parse_kw_trait_group(source, at),
        LifeRestartRule::KW_TRAIT => parse_kw_trait(source, at),
        LifeRestartRule::KW_EVENT_GROUP => parse_kw_event_group(source, at),
        LifeRestartRule::KW_EVENT => parse_kw_event(source, at),
        LifeRestartRule::KW_ID => parse_kw_id(source, at),
        LifeRestartRule::KW_DESCRIPTION => parse_kw_description(source, at),
        LifeRestartRule::KW_REQUIREMENT => parse_kw_requirement(source, at),
        LifeRestartRule::KW_EFFECT => parse_kw_effect(source, at),
        LifeRestartRule::KW_ENUMERATE => parse_kw_enumerate(source, at),
        LifeRestartRule::KW_OPTIONS => parse_kw_options(source, at),
        LifeRestartRule::KW_IF => parse_kw_if(source, at),
        LifeRestartRule::KW_ELSE_IF => parse_kw_else_if(source, at),
        LifeRestartRule::KW_ELSE => parse_kw_else(source, at),
        LifeRestartRule::WhiteSpace => parse_white_space(source, at),
        LifeRestartRule::Comment => parse_comment(source, at),
        LifeRestartRule::HiddenText => Match { node: None, end: at, far: at },
    }
}

/// The parser of the language.
#[derive(Copy, Clone, Debug, Default, PartialEq, Eq, PartialOrd, Ord, Hash)]
pub struct LifeRestartParser {}

impl LifeRestartParser {
    /// Parse `input` from the rule `rule`, as [`parse_cst`] does.
    pub fn parse_cst(input: &str, rule: LifeRestartRule) -> (res: Result<CstNode, LifeError>)
        ensures
            match spec_parse_cst(input@, rule) {
                Ok(tree) => res matches Ok(node) && node@ == tree,
                Err(at) => res matches Err(error)
                    && error.is_syntax(expected(rule), at as int, at as int),
            },
    {
        parse_cst(input, rule)
    }
}

/// The message of a syntax error: what was expected where the match failed.
pub open spec fn expected(rule: LifeRestartRule) -> Seq<char> {
    "expected "@ + rule.spec_name()
}

/// What parsing `text` from the rule `rule` gives: the tree of the rule
/// matched at the start of the text, or the byte offset of the farthest
/// place at which a match was tried and failed.
pub open spec fn spec_parse_cst(text: Seq<char>, rule: LifeRestartRule) -> Result<CstTree, nat> {
    let outcome = spec_rule(text, rule, 0);
    match outcome.tree {
        Some(tree) => Ok(tree),
        None => Err(byte_offset(text, outcome.far)),
    }
}

/// Parse `input` from the rule `rule`. The rule has to match at the start of
/// the text. The root rule has to match all of it; any other rule may leave
/// the rest of the text unread. A failure is a syntax error with no file,
/// whose span is empty and stands at the farthest place at which a match was
/// tried and failed.
pub fn parse_cst(input: &str, rule: LifeRestartRule) -> (res: Result<CstNode, LifeError>)
    ensures
        match spec_parse_cst(input@, rule) {
            Ok(tree) => res matches Ok(node) && node@ == tree,
            Err(at) => res matches Err(error)
                && error.is_syntax(expected(rule), at as int, at as int),
        },
{
    let source = Source::new(input);
    let found = parse_rule(&source, rule, 0);
    match found.node {
        Some(node) => Ok(node),
        None => {
            let at = source.offset(found.far);
            let message = String::from_str("expected ").concat(rule.name());
            Err(LifeError::syntax(message.as_str(), at, at))
        },
    }
}

} // verus!
