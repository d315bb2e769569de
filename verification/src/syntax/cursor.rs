//! The cursor that is threaded through the steps of a grammar rule, and the
//! result of a rule.

use crate::syntax::cst::{group_views, views, CstNode, CstTree};
use crate::syntax::rule::{LifeRestartRule, Slot};
use crate::syntax::source::{byte_offset, Source};
use vstd::prelude::*;
use vstd::string::StrSliceExecFns;

verus! {

broadcast use group_views;

/// The later of two positions.
pub open spec fn later(a: int, b: int) -> int {
    if a >= b {
        a
    } else {
        b
    }
}

/// True when `word` is not empty and stands in `text` at index `at`.
pub open spec fn starts_with(text: Seq<char>, at: int, word: Seq<char>) -> bool {
    &&& 0 <= at
    &&& word.len() > 0
    &&& at + word.len() <= text.len()
    &&& text.subrange(at, at + word.len()) == word
}

/// The result of a grammar rule tried at one position: the tree it built and
/// where it ended, or no tree; and the farthest position at which a match
/// was tried and failed along the way, or the position of the rule itself
/// where nothing failed.
pub ghost struct Outcome {
    pub tree: Option<CstTree>,
    pub end: int,
    pub far: int,
}

impl Outcome {
    /// The result of a rule that was not tried at index `at`.
    pub open spec fn none(at: int) -> Outcome {
        Outcome { tree: None, end: at, far: at }
    }

    /// A successful result ends between its start and the end of the text; a
    /// failed one ends where it started.
    pub open spec fn within(self, text: Seq<char>, start: int) -> bool {
        &&& start <= self.end <= text.len()
        &&& self.far <= text.len()
        &&& start <= self.far
        &&& self.tree is None ==> self.end == start
    }
}

/// The state of a sequence of steps: whether all of them matched so far,
/// the position reached, the farthest failure seen, and the tagged children
/// collected.
pub ghost struct Cursor {
    pub ok: bool,
    pub pos: int,
    pub far: int,
    pub kids: Seq<CstTree>,
}

impl Cursor {
    /// The cursor before the first step.
    pub open spec fn start(pos: int) -> Cursor {
        Cursor { ok: true, pos, far: pos, kids: Seq::empty() }
    }

    /// The cursor of a group that was not tried at `pos`.
    pub open spec fn none(pos: int) -> Cursor {
        Cursor { ok: false, pos, far: pos, kids: Seq::empty() }
    }

    /// The cursor stays between `start` and the end of the text.
    pub open spec fn within(self, text: Seq<char>, start: int) -> bool {
        &&& start <= self.pos <= text.len()
        &&& start <= self.far <= text.len()
    }

    /// The cursor after a failure at position `far` was seen.
    pub open spec fn note(self, far: int) -> Cursor {
        Cursor { far: later(self.far, far), ..self }
    }

    /// The cursor after a step failed.
    pub open spec fn halt(self) -> Cursor {
        Cursor { ok: false, ..self }
    }

    /// The cursor after the literal `word` was asked for: past the word where
    /// it stands at the cursor, failed at the cursor otherwise.
    pub open spec fn word(self, text: Seq<char>, word: Seq<char>) -> Cursor {
        if !self.ok {
            self
        } else if starts_with(text, self.pos, word) {
            Cursor { pos: self.pos + word.len(), ..self }
        } else {
            self.note(self.pos).halt()
        }
    }

    /// The cursor after the end of the text was asked for.
    pub open spec fn end_of_input(self, text: Seq<char>) -> Cursor {
        if !self.ok || self.pos == text.len() {
            self
        } else {
            self.halt()
        }
    }

    /// The cursor after a rule was tried and its node attached to `slot`.
    pub open spec fn attach(self, outcome: Outcome, slot: Slot) -> Cursor {
        if !self.ok {
            self
        } else {
            match outcome.tree {
                Some(tree) => Cursor {
                    pos: outcome.end,
                    kids: self.kids.push(tree.tagged(slot)),
                    ..self.note(outcome.far)
                },
                None => self.note(outcome.far).halt(),
            }
        }
    }

    /// The cursor after a rule was tried and its node dropped.
    pub open spec fn pass(self, outcome: Outcome) -> Cursor {
        if !self.ok {
            self
        } else if outcome.tree is Some {
            Cursor { pos: outcome.end, ..self.note(outcome.far) }
        } else {
            self.note(outcome.far).halt()
        }
    }

    /// The cursor after a group of steps that started at this cursor's
    /// position matched: at the end of the group, with its children added.
    pub open spec fn join(self, group: Cursor) -> Cursor {
        Cursor { pos: group.pos, kids: self.kids + group.kids, ..self.note(group.far) }
    }

    /// The cursor after a group of steps was tried that has to match: joined
    /// with the group where it matched, failed otherwise.
    pub open spec fn chain(self, group: Cursor) -> Cursor {
        if !self.ok {
            self
        } else if group.ok {
            self.join(group)
        } else {
            self.note(group.far).halt()
        }
    }

    /// The cursor after an optional group of steps was tried: joined with the
    /// group where it matched, unmoved otherwise.
    pub open spec fn option(self, group: Cursor) -> Cursor {
        if !self.ok {
            self
        } else if group.ok {
            self.join(group)
        } else {
            self.note(group.far)
        }
    }

    /// The result of the rule `rule` whose steps started at `start` and left
    /// this cursor: a node over the text in between where all steps matched,
    /// a failure at `start` otherwise.
    pub open spec fn finish(self, text: Seq<char>, rule: LifeRestartRule, start: int) -> Outcome {
        if self.ok {
            Outcome {
                tree: Some(
                    CstTree {
                        rule,
                        slot: Slot::Root,
                        start: byte_offset(text, start),
                        end: byte_offset(text, self.pos),
                        text: Seq::empty(),
                        children: self.kids,
                    },
                ),
                end: self.pos,
                far: self.far,
            }
        } else {
            Outcome { tree: None, end: start, far: later(self.far, start) }
        }
    }
}

/// The result of a token of `length` characters at `start`, or of its
/// failure: a node without children that carries the text it covers.
pub open spec fn token(
    text: Seq<char>,
    rule: LifeRestartRule,
    start: int,
    length: Option<nat>,
) -> Outcome {
    match length {
        Some(length) => Outcome {
            tree: Some(
                CstTree {
                    rule,
                    slot: Slot::Root,
                    start: byte_offset(text, start),
                    end: byte_offset(text, start + length),
                    text: text.subrange(start, start + length),
                    children: Seq::empty(),
                },
            ),
            end: start + length,
            far: start,
        },
        None => Outcome { tree: None, end: start, far: start },
    }
}

/// The result of a grammar rule tried at one position.
pub struct Match {
    /// The node that was built, if the rule matched.
    pub node: Option<CstNode>,
    /// The index of the character after the match.
    pub end: usize,
    /// The farthest index at which a match was tried and failed.
    pub far: usize,
}

impl View for Match {
    type V = Outcome;

    open spec fn view(&self) -> Outcome {
        Outcome {
            tree: match self.node {
                Some(node) => Some(node@),
                None => None,
            },
            end: self.end as int,
            far: self.far as int,
        }
    }
}

/// The state of a sequence of steps.
pub struct State {
    /// Whether every step matched so far.
    pub ok: bool,
    /// The index of the next character.
    pub pos: usize,
    /// The farthest index at which a match was tried and failed.
    pub far: usize,
    /// The tagged children collected so far.
    pub kids: Vec<CstNode>,
}

impl View for State {
    type V = Cursor;

    open spec fn view(&self) -> Cursor {
        Cursor { ok: self.ok, pos: self.pos as int, far: self.far as int, kids: views(self.kids@) }
    }
}

/// True when `word` stands in the source at index `at`.
pub fn word_at(source: &Source, at: usize, word: &str) -> (found: bool)
    requires
        at <= source@.len(),
    ensures
        found == starts_with(source@, at as int, word@),
{
    let length = word.unicode_len();
    let total = source.len();
    if length == 0 || length > total - at {
        return false;
    }
    let mut done: usize = 0;
    while done < length
        invariant
            done <= length == word@.len(),
            at + length <= total == source@.len(),
            source@.subrange(at as int, at + done) == word@.take(done as int),
        decreases length - done,
    {
        if source.get(at + done) != word.get_char(done) {
            proof {
                assert(source@.subrange(at as int, at + length)[done as int] != word@[done as int]);
            }
            return false;
        }
        done = done + 1;
        proof {
            assert(source@.subrange(at as int, at + done) =~= source@.subrange(
                at as int,
                at + done - 1,
            ).push(source@[at + done - 1]));
            assert(word@.take(done as int) =~= word@.take(done - 1).push(word@[done - 1]));
        }
    }
    proof {
        assert(word@.take(length as int) =~= word@);
    }
    true
}

/// The result of a token that covers the characters from `start` up to
/// `end`.
pub fn token_at(source: &Source, rule: LifeRestartRule, start: usize, end: usize) -> (found: Match)
    requires
        start <= end <= source@.len(),
    ensures
        found@ == token(source@, rule, start as int, Some((end - start) as nat)),
        found@.within(source@, start as int),
{
    let node = CstNode::new(
        rule,
        Slot::Root,
        source.offset(start),
        source.offset(end),
        source.slice(start, end),
        Vec::new(),
    );
    Match { node: Some(node), end, far: start }
}

/// The result of a token that is the literal `word`, if the word stands at
/// `start`.
pub fn word_token(source: &Source, rule: LifeRestartRule, start: usize, word: &str) -> (found:
    Option<Match>)
    requires
        start <= source@.len(),
    ensures
        match found {
            Some(found) => {
                &&& starts_with(source@, start as int, word@)
                &&& found@ == token(source@, rule, start as int, Some(word@.len()))
                &&& found@.within(source@, start as int)
                &&& found@.end > start
            },
            None => !starts_with(source@, start as int, word@),
        },
{
    if word_at(source, start, word) {
        let total = source.len();
        Some(token_at(source, rule, start, start + word.unicode_len()))
    } else {
        None
    }
}

/// The result of a token that did not match at `start`.
pub fn no_token(source: &Source, rule: LifeRestartRule, start: usize) -> (found: Match)
    requires
        start <= source@.len(),
    ensures
        found@ == token(source@, rule, start as int, None),
        found@.within(source@, start as int),
{
    Match { node: None, end: start, far: start }
}

impl State {
    /// The state before the first step.
    pub fn start(pos: usize) -> (state: Self)
        ensures
            state@ == Cursor::start(pos as int),
    {
        State { ok: true, pos, far: pos, kids: Vec::new() }
    }

    /// The state of a group that is one rule, tried at `at`, whose node fills
    /// `slot`.
    pub fn attached(found: Match, slot: Slot, at: usize) -> (state: Self)
        ensures
            state@ == Cursor::start(at as int).attach(found@, slot),
    {
        let mut state = State::start(at);
        state.attach(found, slot);
        state
    }

    /// The state of a group that is one literal word, tried at `at`.
    pub fn worded(source: &Source, at: usize, word: &str) -> (state: Self)
        requires
            at <= source@.len(),
        ensures
            state@ == Cursor::start(at as int).word(source@, word@),
            state@.pos <= source@.len(),
    {
        let mut state = State::start(at);
        state.word(source, word);
        state
    }

    /// Record that a match was tried and failed at index `far`.
    pub fn note(&mut self, far: usize)
        ensures
            final(self)@ == old(self)@.note(far as int),
    {
        if far > self.far {
            self.far = far;
        }
    }

    /// Record that a step failed.
    pub fn halt(&mut self)
        ensures
            final(self)@ == old(self)@.halt(),
    {
        self.ok = false;
    }

    /// Ask for the literal `word` at the cursor.
    pub fn word(&mut self, source: &Source, word: &str)
        requires
            old(self)@.pos <= source@.len(),
        ensures
            final(self)@ == old(self)@.word(source@, word@),
            final(self)@.pos <= source@.len(),
    {
        if self.ok {
            if word_at(source, self.pos, word) {
                let total = source.len();
                self.pos = self.pos + word.unicode_len();
            } else {
                self.note(self.pos);
                self.halt();
            }
        }
    }

    /// Ask for the end of the text at the cursor.
    pub fn end_of_input(&mut self, source: &Source)
        ensures
            final(self)@ == old(self)@.end_of_input(source@),
    {
        if self.ok && self.pos != source.len() {
            self.halt();
        }
    }

    /// Take the result of a rule that was tried at the cursor and attach its
    /// node to `slot`.
    pub fn attach(&mut self, found: Match, slot: Slot)
        ensures
            final(self)@ == old(self)@.attach(found@, slot),
    {
        if self.ok {
            self.note(found.far);
            match found.node {
                Some(node) => {
                    self.pos = found.end;
                    self.kids.push(node.tagged(slot));
                },
                None => {
                    self.halt();
                },
            }
        }
    }

    /// Take the result of a rule that was tried at the cursor and drop its
    /// node.
    pub fn pass(&mut self, found: Match)
        ensures
            final(self)@ == old(self)@.pass(found@),
    {
        if self.ok {
            self.note(found.far);
            if found.node.is_some() {
                self.pos = found.end;
            } else {
                self.halt();
            }
        }
    }

    /// Take over a group of steps that matched from the cursor on.
    pub fn join(&mut self, group: State)
        ensures
            final(self)@ == old(self)@.join(group@),
    {
        let mut group = group;
        self.note(group.far);
        self.pos = group.pos;
        self.kids.append(&mut group.kids);
    }

    /// Take the result of a group of steps that was tried from the cursor on
    /// and has to match.
    pub fn chain(&mut self, group: State)
        ensures
            final(self)@ == old(self)@.chain(group@),
    {
        if self.ok {
            if group.ok {
                self.join(group);
            } else {
                self.note(group.far);
                self.halt();
            }
        }
    }

    /// Take the result of an optional group of steps that was tried from the
    /// cursor on.
    pub fn option(&mut self, group: State)
        ensures
            final(self)@ == old(self)@.option(group@),
    {
        if self.ok {
            if group.ok {
                self.join(group);
            } else {
                self.note(group.far);
            }
        }
    }

    /// Close the rule `rule` whose steps started at `start`.
    pub fn finish(self, source: &Source, rule: LifeRestartRule, start: usize) -> (found: Match)
        requires
            start <= self@.pos <= source@.len(),
        ensures
            found@ == self@.finish(source@, rule, start as int),
    {
        if self.ok {
            let node = CstNode::new(
                rule,
                Slot::Root,
                source.offset(start),
                source.offset(self.pos),
                String::new(),
                self.kids,
            );
            Match { node: Some(node), end: self.pos, far: self.far }
        } else {
            let far = if self.far > start {
                self.far
            } else {
                start
            };
            Match { node: None, end: start, far }
        }
    }
}

} // verus!
