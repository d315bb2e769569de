//! From concrete syntax trees to typed nodes. The typed form follows the
//! structure of the tree one for one: a slot that has to be filled is read
//! from the first child that fills it, an optional slot likewise where there
//! is such a child, and a list slot from all the children that fill it, in
//! order.

use crate::errors::LifeError;
use crate::syntax::cst::{group_views, lemma_picks_prefix, picks, views, CstNode, CstTree};
use crate::syntax::nodes::{
    AtomicNode, BooleanNode, ColonNode, CommaNode, CommentNode, DescriptionStatementNode,
    EffectStatementNode, EnumerateStatementNode, EosNode, EscapedCharacterNode,
    EscapedUnicodeNode, EventGroupNode, EventItemNode, EventPropertyNode, EventStatementNode,
    ExpressionNode, HexNode, IdStatementNode, IdentifierNode, IfElseBlockNode,
    IfElseIfBlockNode, IfStatementNode, IfThenBlockNode, InfixNode, IntegerNode,
    KwDescriptionNode, KwEffectNode, KwElseIfNode, KwElseNode, KwEnumerateNode,
    KwEventGroupNode, KwEventNode, KwIdNode, KwIfNode, KwOptionsNode, KwPropertyNode,
    KwRequirementNode, KwTraitGroupNode, KwTraitNode, ListNode, OptionItemNode,
    OptionStatementNode, PrefixNode, PropertyItemNode, PropertyStatementNode,
    RequirementStatementNode, RootNode, StatementNode, StringItemNode, StringNode,
    StringNormalNode, StringRawNode, StringRawTextNode, SuffixNode, TermNode, TextAnyNode,
    TopStatementNode, TraitGroupNode, TraitItemNode, TraitPropertyNode, TraitStatementNode,
    WhiteSpaceNode,
};
use crate::syntax::parse_cst::{expected, parse_cst, spec_parse_cst};
use crate::syntax::rule::{LifeRestartRule, Slot};
use crate::syntax::shape::{fits, fits_in, lemma_first_is_child, lemma_fits};
use crate::syntax::sound::lemma_rule_fits;
use std::ops::Range;
use vstd::prelude::*;
use vstd::string::StringExecFns;

verus! {

/// The message of the error for a tree that cannot be a node of the rule
/// `rule`.
pub open spec fn invalid_node(rule: LifeRestartRule) -> Seq<char> {
    "invalid node "@ + rule.spec_name()
}

/// The error for the tree `pair`, which cannot be a node of the rule `rule`:
/// a syntax error with no file and the span of the tree.
pub fn refuse(rule: LifeRestartRule, pair: &CstNode) -> (error: LifeError)
    ensures
        error.is_syntax(invalid_node(rule), pair@.start as int, pair@.end as int),
        error.is_syntax_error(),
{
    let message = String::from_str("invalid node ").concat(rule.name());
    LifeError::syntax(message.as_str(), pair.span.start, pair.span.end)
}

impl RootNode {
    /// True when this node is the typed form of the tree `pair`: it has the span of
    /// the tree, and every field holds the typed form of what fills its slot.
    pub open spec fn models(&self, pair: CstTree) -> bool {
        &&& self.span.start == pair.start
        &&& self.span.end == pair.end
        &&& self.top_statement@.len() == pair.all(Slot::TopStatement).len()
        &&& forall|at: int|
        0 <= at < self.top_statement@.len() ==> (#[trigger] self.top_statement@[at]).models(
            pair.all(Slot::TopStatement)[at],
        )
    }

    /// Build the node from a tree of the rule `Root`. The tree is refused with a
    /// syntax error where no node is its typed form; where that is the fault of the
    /// tree itself, the error names this rule and has the span of the tree.
    pub fn from_pair(pair: &CstNode) -> (res: Result<Self, LifeError>)
        ensures
            res matches Ok(node) ==> node.models(pair@),
            res is Err ==> forall|node: Self| !node.models(pair@),
            res matches Err(error) ==> error.is_syntax_error(),
            fits(pair@, LifeRestartRule::Root) ==> res is Ok,
    {
        broadcast use group_views;

        let top_statement = match TopStatementNode::take_all(pair, Slot::TopStatement) {
            Ok(list) => list,
            Err(error) => {
                proof {
                    assert forall|node: Self| !node.models(pair@) by {
                        if node.models(pair@) {
                            assert(
                                TopStatementNode::models_all(
                                    node.top_statement@,
                                    pair@.all(Slot::TopStatement),
                                )
                            );
                        }
                    }
                    if fits(pair@, LifeRestartRule::Root) {
                        lemma_fits(pair@, LifeRestartRule::Root);
                        assert forall|at: int| 0 <= at < pair@.children.len()
                            && (#[trigger] pair@.children[at]).slot
                                == Slot::TopStatement implies fits(
                                    pair@.children[at],
                                    LifeRestartRule::TopStatement,
                                ) by {
                            assert(fits_in(pair@.children[at], LifeRestartRule::Root));
                        }
                    }
                }
                return Err(error);
            },
        };
        Ok(RootNode { top_statement, span: Range { start: pair.span.start, end: pair.span.end } })
    }

    /// Parse `input` from the rule `Root` and build the node from the tree. The
    /// text is refused exactly where the rule does not match at its start, with the
    /// error of the parser: what the rule matches always has a typed form.
    pub fn from_text(input: &str) -> (res: Result<Self, LifeError>)
        ensures
            match spec_parse_cst(input@, LifeRestartRule::Root) {
                Ok(tree) => res matches Ok(node) && node.models(tree),
                Err(at) => res matches Err(error) && error.is_syntax(
                    expected(LifeRestartRule::Root),
                    at as int,
                    at as int,
                ),
            },
    {
        proof {
            lemma_rule_fits(input@, LifeRestartRule::Root, 0);
        }
        match parse_cst(input, LifeRestartRule::Root) {
            Ok(pair) => Self::from_pair(&pair),
            Err(error) => Err(error),
        }
    }

    /// The byte range of the node, where it has one.
    pub open spec fn spec_get_range(&self) -> Option<Range<usize>> {
        Some(self.span)
    }

    /// The byte range of the node, where it has one.
    pub fn get_range(&self) -> (range: Option<Range<usize>>)
        ensures
            range == self.spec_get_range(),
    {
        Some(Range { start: self.span.start, end: self.span.end })
    }
}

impl std::str::FromStr for RootNode {
    type Err = LifeError;

    /// Parse `input` as this node: the result of `from_text`.
    fn from_str(input: &str) -> (res: Result<Self, LifeError>)
        ensures
            match spec_parse_cst(input@, LifeRestartRule::Root) {
                Ok(tree) => res matches Ok(node) && node.models(tree),
                Err(at) => res matches Err(error) && error.is_syntax(
                    expected(LifeRestartRule::Root),
                    at as int,
                    at as int,
                ),
            },
    {
        Self::from_text(input)
    }
}

impl TopStatementNode {
    /// True when this node is the typed form of the tree `pair`: it is the first
    /// alternative, in the order of the declaration, whose slot is filled.
    pub open spec fn models(&self, pair: CstTree) -> bool {
        match self {
            Self::Eos(node) => {
                &&& pair.one(Slot::Eos) matches Some(child) && node.models(child)
            },
            Self::EventGroup(node) => {
                &&& pair.one(Slot::Eos) is None
                &&& pair.one(Slot::EventGroup) matches Some(child) && node.models(child)
            },
            Self::EventStatement(node) => {
                &&& pair.one(Slot::Eos) is None
                &&& pair.one(Slot::EventGroup) is None
                &&& pair.one(Slot::EventStatement) matches Some(child) && node.models(child)
            },
            Self::PropertyStatement(node) => {
                &&& pair.one(Slot::Eos) is None
                &&& pair.one(Slot::EventGroup) is None
                &&& pair.one(Slot::EventStatement) is None
                &&& pair.one(Slot::PropertyStatement) matches Some(child) && node.models(child)
            },
            Self::TraitGroup(node) => {
                &&& pair.one(Slot::Eos) is None
                &&& pair.one(Slot::EventGroup) is None
                &&& pair.one(Slot::EventStatement) is None
                &&& pair.one(Slot::PropertyStatement) is None
                &&& pair.one(Slot::TraitGroup) matches Some(child) && node.models(child)
            },
            Self::TraitStatement(node) => {
                &&& pair.one(Slot::Eos) is None
                &&& pair.one(Slot::EventGroup) is None
                &&& pair.one(Slot::EventStatement) is None
                &&& pair.one(Slot::PropertyStatement) is None
                &&& pair.one(Slot::TraitGroup) is None
                &&& pair.one(Slot::TraitStatement) matches Some(child) && node.models(child)
            },
        }
    }

    /// True when the tree `pair` itself cannot be a node of this type: the slot of
    /// no alternative is filled.
    pub open spec fn lacks(pair: CstTree) -> bool {
        pair.one(Slot::Eos) is None
            && pair.one(Slot::EventGroup) is None
            && pair.one(Slot::EventStatement) is None
            && pair.one(Slot::PropertyStatement) is None
            && pair.one(Slot::TraitGroup) is None
            && pair.one(Slot::TraitStatement) is None
    }

    /// Build the node from a tree of the rule `TopStatement`. The tree is refused
    /// with a syntax error where no node is its typed form; where that is the fault
    /// of the tree itself, the error names this rule and has the span of the tree.
    pub fn from_pair(pair: &CstNode) -> (res: Result<Self, LifeError>)
        ensures
            res matches Ok(node) ==> node.models(pair@),
            res is Err ==> forall|node: Self| !node.models(pair@),
            res matches Err(error) ==> error.is_syntax_error(),
            Self::lacks(pair@) ==> {
                &&& res matches Err(error)
                &&& error.is_syntax(
                    invalid_node(LifeRestartRule::TopStatement),
                    pair@.start as int,
                    pair@.end as int,
                )
            },
            fits(pair@, LifeRestartRule::TopStatement) ==> res is Ok,
    {
        broadcast use group_views;

        match pair.find_first(Slot::Eos) {
            Some(at) => {
                match EosNode::from_pair(&pair.children[at]) {
                    Ok(node) => {
                        return Ok(Self::Eos(node));
                    },
                    Err(error) => {
                        proof {
                            assert forall|node: Self| !node.models(pair@) by {
                                if node.models(pair@) {
                                    match node {
                                        Self::Eos(inner) => {
                                            assert(inner.models(pair.children@[at as int]@));
                                        },
                                        _ => {},
                                    }
                                }
                            }
                            if fits(pair@, LifeRestartRule::TopStatement) {
                                lemma_fits(pair@, LifeRestartRule::TopStatement);
                                assert(
                                    fits_in(
                                        pair@.children[at as int],
                                        LifeRestartRule::TopStatement,
                                    )
                                );
                            }
                        }
                        return Err(error);
                    },
                }
            },
            None => {},
        }
        match pair.find_first(Slot::EventGroup) {
            Some(at) => {
                match EventGroupNode::from_pair(&pair.children[at]) {
                    Ok(node) => {
                        return Ok(Self::EventGroup(node));
                    },
                    Err(error) => {
                        proof {
                            assert forall|node: Self| !node.models(pair@) by {
                                if node.models(pair@) {
                                    match node {
                                        Self::EventGroup(inner) => {
                                            assert(inner.models(pair.children@[at as int]@));
                                        },
                                        _ => {},
                                    }
                                }
                            }
                            if fits(pair@, LifeRestartRule::TopStatement) {
                                lemma_fits(pair@, LifeRestartRule::TopStatement);
                                assert(
                                    fits_in(
                                        pair@.children[at as int],
                                        LifeRestartRule::TopStatement,
                                    )
                                );
                            }
                        }
                        return Err(error);
                    },
                }
            },
            None => {},
        }
        match pair.find_first(Slot::EventStatement) {
            Some(at) => {
                match EventStatementNode::from_pair(&pair.children[at]) {
                    Ok(node) => {
                        return Ok(Self::EventStatement(node));
                    },
                    Err(error) => {
                        proof {
                            assert forall|node: Self| !node.models(pair@) by {
                                if node.models(pair@) {
                                    match node {
                                        Self::EventStatement(inner) => {
                                            assert(inner.models(pair.children@[at as int]@));
                                        },
                                        _ => {},
                                    }
                                }
                            }
                            if fits(pair@, LifeRestartRule::TopStatement) {
                                lemma_fits(pair@, LifeRestartRule::TopStatement);
                                assert(
                                    fits_in(
                                        pair@.children[at as int],
                                        LifeRestartRule::TopStatement,
                                    )
                                );
                            }
                        }
                        return Err(error);
                    },
                }
            },
            None => {},
        }
        match pair.find_first(Slot::PropertyStatement) {
            Some(at) => {
                match PropertyStatementNode::from_pair(&pair.children[at]) {
                    Ok(node) => {
                        return Ok(Self::PropertyStatement(node));
                    },
                    Err(error) => {
                        proof {
                            assert forall|node: Self| !node.models(pair@) by {
                                if node.models(pair@) {
                                    match node {
                                        Self::PropertyStatement(inner) => {
                                            assert(inner.models(pair.children@[at as int]@));
                                        },
                                        _ => {},
                                    }
                                }
                            }
                            if fits(pair@, LifeRestartRule::TopStatement) {
                                lemma_fits(pair@, LifeRestartRule::TopStatement);
                                assert(
                                    fits_in(
                                        pair@.children[at as int],
                                        LifeRestartRule::TopStatement,
                                    )
                                );
                            }
                        }
                        return Err(error);
                    },
                }
            },
            None => {},
        }
        match pair.find_first(Slot::TraitGroup) {
            Some(at) => {
                match TraitGroupNode::from_pair(&pair.children[at]) {
                    Ok(node) => {
                        return Ok(Self::TraitGroup(node));
                    },
                    Err(error) => {
                        proof {
                            assert forall|node: Self| !node.models(pair@) by {
                                if node.models(pair@) {
                                    match node {
                                        Self::TraitGroup(inner) => {
                                            assert(inner.models(pair.children@[at as int]@));
                                        },
                                        _ => {},
                                    }
                                }
                            }
                            if fits(pair@, LifeRestartRule::TopStatement) {
                                lemma_fits(pair@, LifeRestartRule::TopStatement);
                                assert(
                                    fits_in(
                                        pair@.children[at as int],
                                        LifeRestartRule::TopStatement,
                                    )
                                );
                            }
                        }
                        return Err(error);
                    },
                }
            },
            None => {},
        }
        match pair.find_first(Slot::TraitStatement) {
            Some(at) => {
                match TraitStatementNode::from_pair(&pair.children[at]) {
                    Ok(node) => {
                        return Ok(Self::TraitStatement(node));
                    },
                    Err(error) => {
                        proof {
                            assert forall|node: Self| !node.models(pair@) by {
                                if node.models(pair@) {
                                    match node {
                                        Self::TraitStatement(inner) => {
                                            assert(inner.models(pair.children@[at as int]@));
                                        },
                                        _ => {},
                                    }
                                }
                            }
                            if fits(pair@, LifeRestartRule::TopStatement) {
                                lemma_fits(pair@, LifeRestartRule::TopStatement);
                                assert(
                                    fits_in(
                                        pair@.children[at as int],
                                        LifeRestartRule::TopStatement,
                                    )
                                );
                            }
                        }
                        return Err(error);
                    },
                }
            },
            None => {},
        }
        Err(refuse(LifeRestartRule::TopStatement, pair))
    }

    /// True when the nodes of `list` are the typed forms of the trees of `pairs`,
    /// one for one.
    pub open spec fn models_all(list: Seq<Self>, pairs: Seq<CstTree>) -> bool {
        &&& list.len() == pairs.len()
        &&& forall|at: int| 0 <= at < list.len() ==> (#[trigger] list[at]).models(pairs[at])
    }

    /// Build the nodes from the children of `pair` that fill `slot`, in order.
    pub fn take_all(pair: &CstNode, slot: Slot) -> (res: Result<Vec<Self>, LifeError>)
        ensures
            res matches Ok(list) ==> Self::models_all(list@, pair@.all(slot)),
            res is Err ==> forall|list: Seq<Self>| !Self::models_all(list, pair@.all(slot)),
            res matches Err(error) ==> error.is_syntax_error(),
            (
                forall|at: int| 0 <= at < pair@.children.len()
                    && (#[trigger] pair@.children[at]).slot == slot
                    ==> fits(pair@.children[at], LifeRestartRule::TopStatement)
            )
                ==> res is Ok,
    {
        broadcast use group_views;

        let mut list: Vec<Self> = Vec::new();
        let mut at: usize = 0;
        while at < pair.children.len()
            invariant
                at <= pair.children@.len(),
                pair@.children == views(pair.children@),
                Self::models_all(list@, picks(pair@.children, slot, at as int)),
            decreases pair.children@.len() - at,
        {
            if pair.children[at].slot == slot {
                match Self::from_pair(&pair.children[at]) {
                    Ok(node) => {
                        list.push(node);
                    },
                    Err(error) => {
                        proof {
                            lemma_picks_prefix(
                                pair@.children,
                                slot,
                                at + 1,
                                pair@.children.len() as int,
                            );
                            let pairs = pair@.all(slot);
                            let bad = picks(pair@.children, slot, at as int).len() as int;
                            assert(pairs[bad] == pair.children@[at as int]@);
                            assert(pair@.children[at as int] == pair.children@[at as int]@);
                            assert forall|list: Seq<Self>| !Self::models_all(list, pairs) by {
                                if Self::models_all(list, pairs) {
                                    assert(list[bad].models(pairs[bad]));
                                }
                            }
                        }
                        return Err(error);
                    },
                }
            }
            at = at + 1;
        }
        Ok(list)
    }

    /// Parse `input` from the rule `TopStatement` and build the node from the tree.
    /// The text is refused exactly where the rule does not match at its start, with
    /// the error of the parser: what the rule matches always has a typed form.
    pub fn from_text(input: &str) -> (res: Result<Self, LifeError>)
        ensures
            match spec_parse_cst(input@, LifeRestartRule::TopStatement) {
                Ok(tree) => res matches Ok(node) && node.models(tree),
                Err(at) => res matches Err(error) && error.is_syntax(
                    expected(LifeRestartRule::TopStatement),
                    at as int,
                    at as int,
                ),
            },
    {
        proof {
            lemma_rule_fits(input@, LifeRestartRule::TopStatement, 0);
        }
        match parse_cst(input, LifeRestartRule::TopStatement) {
            Ok(pair) => Self::from_pair(&pair),
            Err(error) => Err(error),
        }
    }

    /// The byte range of the node, where it has one.
    pub open spec fn spec_get_range(&self) -> Option<Range<usize>> {
        match self {
            Self::Eos(node) => node.spec_get_range(),
            Self::EventGroup(node) => node.spec_get_range(),
            Self::EventStatement(node) => node.spec_get_range(),
            Self::PropertyStatement(node) => node.spec_get_range(),
            Self::TraitGroup(node) => node.spec_get_range(),
            Self::TraitStatement(node) => node.spec_get_range(),
        }
    }

    /// The byte range of the node, where it has one.
    pub fn get_range(&self) -> (range: Option<Range<usize>>)
        ensures
            range == self.spec_get_range(),
    {
        match self {
            Self::Eos(node) => node.get_range(),
            Self::EventGroup(node) => node.get_range(),
            Self::EventStatement(node) => node.get_range(),
            Self::PropertyStatement(node) => node.get_range(),
            Self::TraitGroup(node) => node.get_range(),
            Self::TraitStatement(node) => node.get_range(),
        }
    }
}

impl std::str::FromStr for TopStatementNode {
    type Err = LifeError;

    /// Parse `input` as this node: the result of `from_text`.
    fn from_str(input: &str) -> (res: Result<Self, LifeError>)
        ensures
            match spec_parse_cst(input@, LifeRestartRule::TopStatement) {
                Ok(tree) => res matches Ok(node) && node.models(tree),
                Err(at) => res matches Err(error) && error.is_syntax(
                    expected(LifeRestartRule::TopStatement),
                    at as int,
                    at as int,
                ),
            },
    {
        Self::from_text(input)
    }
}

impl EosNode {
    /// True when this node is the typed form of the tree `pair`: it has the span of
    /// the tree, and every field holds the typed form of what fills its slot.
    pub open spec fn models(&self, pair: CstTree) -> bool {
        &&& self.span.start == pair.start
        &&& self.span.end == pair.end
    }

    /// Build the node from a tree of the rule `EOS`. The tree is refused with a
    /// syntax error where no node is its typed form; where that is the fault of the
    /// tree itself, the error names this rule and has the span of the tree.
    pub fn from_pair(pair: &CstNode) -> (res: Result<Self, LifeError>)
        ensures
            res matches Ok(node) ==> node.models(pair@),
            res is Err ==> forall|node: Self| !node.models(pair@),
            res matches Err(error) ==> error.is_syntax_error(),
            fits(pair@, LifeRestartRule::EOS) ==> res is Ok,
    {
        broadcast use group_views;

        Ok(EosNode { span: Range { start: pair.span.start, end: pair.span.end } })
    }

    /// Parse `input` from the rule `EOS` and build the node from the tree. The text
    /// is refused exactly where the rule does not match at its start, with the
    /// error of the parser: what the rule matches always has a typed form.
    pub fn from_text(input: &str) -> (res: Result<Self, LifeError>)
        ensures
            match spec_parse_cst(input@, LifeRestartRule::EOS) {
                Ok(tree) => res matches Ok(node) && node.models(tree),
                Err(at) => res matches Err(error) && error.is_syntax(
                    expected(LifeRestartRule::EOS),
                    at as int,
                    at as int,
                ),
            },
    {
        proof {
            lemma_rule_fits(input@, LifeRestartRule::EOS, 0);
        }
        match parse_cst(input, LifeRestartRule::EOS) {
            Ok(pair) => Self::from_pair(&pair),
            Err(error) => Err(error),
        }
    }

    /// The byte range of the node, where it has one.
    pub open spec fn spec_get_range(&self) -> Option<Range<usize>> {
        Some(self.span)
    }

    /// The byte range of the node, where it has one.
    pub fn get_range(&self) -> (range: Option<Range<usize>>)
        ensures
            range == self.spec_get_range(),
    {
        Some(Range { start: self.span.start, end: self.span.end })
    }
}

impl std::str::FromStr for EosNode {
    type Err = LifeError;

    /// Parse `input` as this node: the result of `from_text`.
    fn from_str(input: &str) -> (res: Result<Self, LifeError>)
        ensures
            match spec_parse_cst(input@, LifeRestartRule::EOS) {
                Ok(tree) => res matches Ok(node) && node.models(tree),
                Err(at) => res matches Err(error) && error.is_syntax(
                    expected(LifeRestartRule::EOS),
                    at as int,
                    at as int,
                ),
            },
    {
        Self::from_text(input)
    }
}

impl PropertyStatementNode {
    /// True when this node is the typed form of the tree `pair`: it has the span of
    /// the tree, and every field holds the typed form of what fills its slot.
    pub open spec fn models(&self, pair: CstTree) -> bool {
        &&& self.span.start == pair.start
        &&& self.span.end == pair.end
        &&& pair.one(Slot::Identifier) matches Some(child) && self.identifier.models(child)
        &&& self.property_item@.len() == pair.all(Slot::PropertyItem).len()
        &&& forall|at: int|
        0 <= at < self.property_item@.len() ==> (#[trigger] self.property_item@[at]).models(
            pair.all(Slot::PropertyItem)[at],
        )
    }

    /// True when the tree `pair` itself cannot be a node of this type: a slot that
    /// has to be filled is empty.
    pub open spec fn lacks(pair: CstTree) -> bool {
        pair.one(Slot::Identifier) is None
    }

    /// Build the node from a tree of the rule `PropertyStatement`. The tree is
    /// refused with a syntax error where no node is its typed form; where that is
    /// the fault of the tree itself, the error names this rule and has the span of
    /// the tree.
    pub fn from_pair(pair: &CstNode) -> (res: Result<Self, LifeError>)
        ensures
            res matches Ok(node) ==> node.models(pair@),
            res is Err ==> forall|node: Self| !node.models(pair@),
            res matches Err(error) ==> error.is_syntax_error(),
            Self::lacks(pair@) ==> {
                &&& res matches Err(error)
                &&& error.is_syntax(
                    invalid_node(LifeRestartRule::PropertyStatement),
                    pair@.start as int,
                    pair@.end as int,
                )
            },
            fits(pair@, LifeRestartRule::PropertyStatement) ==> res is Ok,
    {
        broadcast use group_views;

        let identifier_at = match pair.find_first(Slot::Identifier) {
            Some(at) => at,
            None => {
                return Err(refuse(LifeRestartRule::PropertyStatement, pair));
            },
        };
        let identifier = match IdentifierNode::from_pair(&pair.children[identifier_at]) {
            Ok(node) => node,
            Err(error) => {
                proof {
                    assert forall|node: Self| !node.models(pair@) by {
                        if node.models(pair@) {
                            assert(node.identifier.models(pair.children@[identifier_at as int]@));
                        }
                    }
                    if fits(pair@, LifeRestartRule::PropertyStatement) {
                        lemma_fits(pair@, LifeRestartRule::PropertyStatement);
                        assert(
                            fits_in(
                                pair@.children[identifier_at as int],
                                LifeRestartRule::PropertyStatement,
                            )
                        );
                    }
                }
                return Err(error);
            },
        };
        let property_item = match PropertyItemNode::take_all(pair, Slot::PropertyItem) {
            Ok(list) => list,
            Err(error) => {
                proof {
                    assert forall|node: Self| !node.models(pair@) by {
                        if node.models(pair@) {
                            assert(
                                PropertyItemNode::models_all(
                                    node.property_item@,
                                    pair@.all(Slot::PropertyItem),
                                )
                            );
                        }
                    }
                    if fits(pair@, LifeRestartRule::PropertyStatement) {
                        lemma_fits(pair@, LifeRestartRule::PropertyStatement);
                        assert forall|at: int| 0 <= at < pair@.children.len()
                            && (#[trigger] pair@.children[at]).slot
                                == Slot::PropertyItem implies fits(
                                    pair@.children[at],
                                    LifeRestartRule::PropertyItem,
                                ) by {
                            assert(fits_in(pair@.children[at], LifeRestartRule::PropertyStatement));
                        }
                    }
                }
                return Err(error);
            },
        };
        Ok(
            PropertyStatementNode {
                identifier,
                property_item,
                span: Range { start: pair.span.start, end: pair.span.end },
            }
        )
    }

    /// Parse `input` from the rule `PropertyStatement` and build the node from the
    /// tree. The text is refused exactly where the rule does not match at its
    /// start, with the error of the parser: what the rule matches always has a
    /// typed form.
    pub fn from_text(input: &str) -> (res: Result<Self, LifeError>)
        ensures
            match spec_parse_cst(input@, LifeRestartRule::PropertyStatement) {
                Ok(tree) => res matches Ok(node) && node.models(tree),
                Err(at) => res matches Err(error) && error.is_syntax(
                    expected(LifeRestartRule::PropertyStatement),
                    at as int,
                    at as int,
                ),
            },
    {
        proof {
            lemma_rule_fits(input@, LifeRestartRule::PropertyStatement, 0);
        }
        match parse_cst(input, LifeRestartRule::PropertyStatement) {
            Ok(pair) => Self::from_pair(&pair),
            Err(error) => Err(error),
        }
    }

    /// The byte range of the node, where it has one.
    pub open spec fn spec_get_range(&self) -> Option<Range<usize>> {
        Some(self.span)
    }

    /// The byte range of the node, where it has one.
    pub fn get_range(&self) -> (range: Option<Range<usize>>)
        ensures
            range == self.spec_get_range(),
    {
        Some(Range { start: self.span.start, end: self.span.end })
    }
}

impl std::str::FromStr for PropertyStatementNode {
    type Err = LifeError;

    /// Parse `input` as this node: the result of `from_text`.
    fn from_str(input: &str) -> (res: Result<Self, LifeError>)
        ensures
            match spec_parse_cst(input@, LifeRestartRule::PropertyStatement) {
                Ok(tree) => res matches Ok(node) && node.models(tree),
                Err(at) => res matches Err(error) && error.is_syntax(
                    expected(LifeRestartRule::PropertyStatement),
                    at as int,
                    at as int,
                ),
            },
    {
        Self::from_text(input)
    }
}

impl PropertyItemNode {
    /// True when this node is the typed form of the tree `pair`: it is the first
    /// alternative, in the order of the declaration, whose slot is filled.
    pub open spec fn models(&self, pair: CstTree) -> bool {
        match self {
            Self::DescriptionStatement(node) => {
                &&& pair.one(Slot::DescriptionStatement) matches Some(child) && node.models(child)
            },
            Self::EnumerateStatement(node) => {
                &&& pair.one(Slot::DescriptionStatement) is None
                &&& pair.one(Slot::EnumerateStatement) matches Some(child) && node.models(child)
            },
            Self::Eos(node) => {
                &&& pair.one(Slot::DescriptionStatement) is None
                &&& pair.one(Slot::EnumerateStatement) is None
                &&& pair.one(Slot::Eos) matches Some(child) && node.models(child)
            },
            Self::IdStatement(node) => {
                &&& pair.one(Slot::DescriptionStatement) is None
                &&& pair.one(Slot::EnumerateStatement) is None
                &&& pair.one(Slot::Eos) is None
                &&& pair.one(Slot::IdStatement) matches Some(child) && node.models(child)
            },
            Self::OptionStatement(node) => {
                &&& pair.one(Slot::DescriptionStatement) is None
                &&& pair.one(Slot::EnumerateStatement) is None
                &&& pair.one(Slot::Eos) is None
                &&& pair.one(Slot::IdStatement) is None
                &&& pair.one(Slot::OptionStatement) matches Some(child) && node.models(child)
            },
            Self::RequirementStatement(node) => {
                &&& pair.one(Slot::DescriptionStatement) is None
                &&& pair.one(Slot::EnumerateStatement) is None
                &&& pair.one(Slot::Eos) is None
                &&& pair.one(Slot::IdStatement) is None
                &&& pair.one(Slot::OptionStatement) is None
                &&& pair.one(Slot::RequirementStatement) matches Some(child) && node.models(child)
            },
        }
    }

    /// True when the tree `pair` itself cannot be a node of this type: the slot of
    /// no alternative is filled.
    pub open spec fn lacks(pair: CstTree) -> bool {
        pair.one(Slot::DescriptionStatement) is None
            && pair.one(Slot::EnumerateStatement) is None
            && pair.one(Slot::Eos) is None
            && pair.one(Slot::IdStatement) is None
            && pair.one(Slot::OptionStatement) is None
            && pair.one(Slot::RequirementStatement) is None
    }

    /// Build the node from a tree of the rule `PropertyItem`. The tree is refused
    /// with a syntax error where no node is its typed form; where that is the fault
    /// of the tree itself, the error names this rule and has the span of the tree.
    pub fn from_pair(pair: &CstNode) -> (res: Result<Self, LifeError>)
        ensures
            res matches Ok(node) ==> node.models(pair@),
            res is Err ==> forall|node: Self| !node.models(pair@),
            res matches Err(error) ==> error.is_syntax_error(),
            Self::lacks(pair@) ==> {
                &&& res matches Err(error)
                &&& error.is_syntax(
                    invalid_node(LifeRestartRule::PropertyItem),
                    pair@.start as int,
                    pair@.end as int,
                )
            },
            fits(pair@, LifeRestartRule::PropertyItem) ==> res is Ok,
    {
        broadcast use group_views;

        match pair.find_first(Slot::DescriptionStatement) {
            Some(at) => {
                match DescriptionStatementNode::from_pair(&pair.children[at]) {
                    Ok(node) => {
                        return Ok(Self::DescriptionStatement(node));
                    },
                    Err(error) => {
                        proof {
                            assert forall|node: Self| !node.models(pair@) by {
                                if node.models(pair@) {
                                    match node {
                                        Self::DescriptionStatement(inner) => {
                                            assert(inner.models(pair.children@[at as int]@));
                                        },
                                        _ => {},
                                    }
                                }
                            }
                            if fits(pair@, LifeRestartRule::PropertyItem) {
                                lemma_fits(pair@, LifeRestartRule::PropertyItem);
                                assert(
                                    fits_in(
                                        pair@.children[at as int],
                                        LifeRestartRule::PropertyItem,
                                    )
                                );
                            }
                        }
                        return Err(error);
                    },
                }
            },
            None => {},
        }
        match pair.find_first(Slot::EnumerateStatement) {
            Some(at) => {
                match EnumerateStatementNode::from_pair(&pair.children[at]) {
                    Ok(node) => {
                        return Ok(Self::EnumerateStatement(node));
                    },
                    Err(error) => {
                        proof {
                            assert forall|node: Self| !node.models(pair@) by {
                                if node.models(pair@) {
                                    match node {
                                        Self::EnumerateStatement(inner) => {
                                            assert(inner.models(pair.children@[at as int]@));
                                        },
                                        _ => {},
                                    }
                                }
                            }
                            if fits(pair@, LifeRestartRule::PropertyItem) {
                                lemma_fits(pair@, LifeRestartRule::PropertyItem);
                                assert(
                                    fits_in(
                                        pair@.children[at as int],
                                        LifeRestartRule::PropertyItem,
                                    )
                                );
                            }
                        }
                        return Err(error);
                    },
                }
            },
            None => {},
        }
        match pair.find_first(Slot::Eos) {
            Some(at) => {
                match EosNode::from_pair(&pair.children[at]) {
                    Ok(node) => {
                        return Ok(Self::Eos(node));
                    },
                    Err(error) => {
                        proof {
                            assert forall|node: Self| !node.models(pair@) by {
                                if node.models(pair@) {
                                    match node {
                                        Self::Eos(inner) => {
                                            assert(inner.models(pair.children@[at as int]@));
                                        },
                                        _ => {},
                                    }
                                }
                            }
                            if fits(pair@, LifeRestartRule::PropertyItem) {
                                lemma_fits(pair@, LifeRestartRule::PropertyItem);
                                assert(
                                    fits_in(
                                        pair@.children[at as int],
                                        LifeRestartRule::PropertyItem,
                                    )
                                );
                            }
                        }
                        return Err(error);
                    },
                }
            },
            None => {},
        }
        match pair.find_first(Slot::IdStatement) {
            Some(at) => {
                match IdStatementNode::from_pair(&pair.children[at]) {
                    Ok(node) => {
                        return Ok(Self::IdStatement(node));
                    },
                    Err(error) => {
                        proof {
                            assert forall|node: Self| !node.models(pair@) by {
                                if node.models(pair@) {
                                    match node {
                                        Self::IdStatement(inner) => {
                                            assert(inner.models(pair.children@[at as int]@));
                                        },
                                        _ => {},
                                    }
                                }
                            }
                            if fits(pair@, LifeRestartRule::PropertyItem) {
                                lemma_fits(pair@, LifeRestartRule::PropertyItem);
                                assert(
                                    fits_in(
                                        pair@.children[at as int],
                                        LifeRestartRule::PropertyItem,
                                    )
                                );
                            }
                        }
                        return Err(error);
                    },
                }
            },
            None => {},
        }
        match pair.find_first(Slot::OptionStatement) {
            Some(at) => {
                match OptionStatementNode::from_pair(&pair.children[at]) {
                    Ok(node) => {
                        return Ok(Self::OptionStatement(node));
                    },
                    Err(error) => {
                        proof {
                            assert forall|node: Self| !node.models(pair@) by {
                                if node.models(pair@) {
                                    match node {
                                        Self::OptionStatement(inner) => {
                                            assert(inner.models(pair.children@[at as int]@));
                                        },
                                        _ => {},
                                    }
                                }
                            }
                            if fits(pair@, LifeRestartRule::PropertyItem) {
                                lemma_fits(pair@, LifeRestartRule::PropertyItem);
                                assert(
                                    fits_in(
                                        pair@.children[at as int],
                                        LifeRestartRule::PropertyItem,
                                    )
                                );
                            }
                        }
                        return Err(error);
                    },
                }
            },
            None => {},
        }
        match pair.find_first(Slot::RequirementStatement) {
            Some(at) => {
                match RequirementStatementNode::from_pair(&pair.children[at]) {
                    Ok(node) => {
                        return Ok(Self::RequirementStatement(node));
                    },
                    Err(error) => {
                        proof {
                            assert forall|node: Self| !node.models(pair@) by {
                                if node.models(pair@) {
                                    match node {
                                        Self::RequirementStatement(inner) => {
                                            assert(inner.models(pair.children@[at as int]@));
                                        },
                                        _ => {},
                                    }
                                }
                            }
                            if fits(pair@, LifeRestartRule::PropertyItem) {
                                lemma_fits(pair@, LifeRestartRule::PropertyItem);
                                assert(
                                    fits_in(
                                        pair@.children[at as int],
                                        LifeRestartRule::PropertyItem,
                                    )
                                );
                            }
                        }
                        return Err(error);
                    },
                }
            },
            None => {},
        }
        Err(refuse(LifeRestartRule::PropertyItem, pair))
    }

    /// True when the nodes of `list` are the typed forms of the trees of `pairs`,
    /// one for one.
    pub open spec fn models_all(list: Seq<Self>, pairs: Seq<CstTree>) -> bool {
        &&& list.len() == pairs.len()
        &&& forall|at: int| 0 <= at < list.len() ==> (#[trigger] list[at]).models(pairs[at])
    }

    /// Build the nodes from the children of `pair` that fill `slot`, in order.
    pub fn take_all(pair: &CstNode, slot: Slot) -> (res: Result<Vec<Self>, LifeError>)
        ensures
            res matches Ok(list) ==> Self::models_all(list@, pair@.all(slot)),
            res is Err ==> forall|list: Seq<Self>| !Self::models_all(list, pair@.all(slot)),
            res matches Err(error) ==> error.is_syntax_error(),
            (
                forall|at: int| 0 <= at < pair@.children.len()
                    && (#[trigger] pair@.children[at]).slot == slot
                    ==> fits(pair@.children[at], LifeRestartRule::PropertyItem)
            )
                ==> res is Ok,
    {
        broadcast use group_views;

        let mut list: Vec<Self> = Vec::new();
        let mut at: usize = 0;
        while at < pair.children.len()
            invariant
                at <= pair.children@.len(),
                pair@.children == views(pair.children@),
                Self::models_all(list@, picks(pair@.children, slot, at as int)),
            decreases pair.children@.len() - at,
        {
            if pair.children[at].slot == slot {
                match Self::from_pair(&pair.children[at]) {
                    Ok(node) => {
                        list.push(node);
                    },
                    Err(error) => {
                        proof {
                            lemma_picks_prefix(
                                pair@.children,
                                slot,
                                at + 1,
                                pair@.children.len() as int,
                            );
                            let pairs = pair@.all(slot);
                            let bad = picks(pair@.children, slot, at as int).len() as int;
                            assert(pairs[bad] == pair.children@[at as int]@);
                            assert(pair@.children[at as int] == pair.children@[at as int]@);
                            assert forall|list: Seq<Self>| !Self::models_all(list, pairs) by {
                                if Self::models_all(list, pairs) {
                                    assert(list[bad].models(pairs[bad]));
                                }
                            }
                        }
                        return Err(error);
                    },
                }
            }
            at = at + 1;
        }
        Ok(list)
    }

    /// Parse `input` from the rule `PropertyItem` and build the node from the tree.
    /// The text is refused exactly where the rule does not match at its start, with
    /// the error of the parser: what the rule matches always has a typed form.
    pub fn from_text(input: &str) -> (res: Result<Self, LifeError>)
        ensures
            match spec_parse_cst(input@, LifeRestartRule::PropertyItem) {
                Ok(tree) => res matches Ok(node) && node.models(tree),
                Err(at) => res matches Err(error) && error.is_syntax(
                    expected(LifeRestartRule::PropertyItem),
                    at as int,
                    at as int,
                ),
            },
    {
        proof {
            lemma_rule_fits(input@, LifeRestartRule::PropertyItem, 0);
        }
        match parse_cst(input, LifeRestartRule::PropertyItem) {
            Ok(pair) => Self::from_pair(&pair),
            Err(error) => Err(error),
        }
    }

    /// The byte range of the node, where it has one.
    pub open spec fn spec_get_range(&self) -> Option<Range<usize>> {
        match self {
            Self::DescriptionStatement(node) => node.spec_get_range(),
            Self::EnumerateStatement(node) => node.spec_get_range(),
            Self::Eos(node) => node.spec_get_range(),
            Self::IdStatement(node) => node.spec_get_range(),
            Self::OptionStatement(node) => node.spec_get_range(),
            Self::RequirementStatement(node) => node.spec_get_range(),
        }
    }

    /// The byte range of the node, where it has one.
    pub fn get_range(&self) -> (range: Option<Range<usize>>)
        ensures
            range == self.spec_get_range(),
    {
        match self {
            Self::DescriptionStatement(node) => node.get_range(),
            Self::EnumerateStatement(node) => node.get_range(),
            Self::Eos(node) => node.get_range(),
            Self::IdStatement(node) => node.get_range(),
            Self::OptionStatement(node) => node.get_range(),
            Self::RequirementStatement(node) => node.get_range(),
        }
    }
}

impl std::str::FromStr for PropertyItemNode {
    type Err = LifeError;

    /// Parse `input` as this node: the result of `from_text`.
    fn from_str(input: &str) -> (res: Result<Self, LifeError>)
        ensures
            match spec_parse_cst(input@, LifeRestartRule::PropertyItem) {
                Ok(tree) => res matches Ok(node) && node.models(tree),
                Err(at) => res matches Err(error) && error.is_syntax(
                    expected(LifeRestartRule::PropertyItem),
                    at as int,
                    at as int,
                ),
            },
    {
        Self::from_text(input)
    }
}

impl EnumerateStatementNode {
    /// True when this node is the typed form of the tree `pair`: it has the span of
    /// the tree, and every field holds the typed form of what fills its slot.
    pub open spec fn models(&self, pair: CstTree) -> bool {
        &&& self.span.start == pair.start
        &&& self.span.end == pair.end
        &&& self.variant@.len() == pair.all(Slot::Variant).len()
        &&& forall|at: int|
        0 <= at < self.variant@.len() ==> (#[trigger] self.variant@[at]).models(
            pair.all(Slot::Variant)[at],
        )
    }

    /// Build the node from a tree of the rule `EnumerateStatement`. The tree is
    /// refused with a syntax error where no node is its typed form; where that is
    /// the fault of the tree itself, the error names this rule and has the span of
    /// the tree.
    pub fn from_pair(pair: &CstNode) -> (res: Result<Self, LifeError>)
        ensures
            res matches Ok(node) ==> node.models(pair@),
            res is Err ==> forall|node: Self| !node.models(pair@),
            res matches Err(error) ==> error.is_syntax_error(),
            fits(pair@, LifeRestartRule::EnumerateStatement) ==> res is Ok,
    {
        broadcast use group_views;

        let variant = match IdentifierNode::take_all(pair, Slot::Variant) {
            Ok(list) => list,
            Err(error) => {
                proof {
                    assert forall|node: Self| !node.models(pair@) by {
                        if node.models(pair@) {
                            assert(
                                IdentifierNode::models_all(node.variant@, pair@.all(Slot::Variant))
                            );
                        }
                    }
                    if fits(pair@, LifeRestartRule::EnumerateStatement) {
                        lemma_fits(pair@, LifeRestartRule::EnumerateStatement);
                        assert forall|at: int| 0 <= at < pair@.children.len()
                            && (#[trigger] pair@.children[at]).slot
                                == Slot::Variant implies fits(
                                    pair@.children[at],
                                    LifeRestartRule::Identifier,
                                ) by {
                            assert(
                                fits_in(pair@.children[at], LifeRestartRule::EnumerateStatement)
                            );
                        }
                    }
                }
                return Err(error);
            },
        };
        Ok(
            EnumerateStatementNode {
                variant,
                span: Range { start: pair.span.start, end: pair.span.end },
            }
        )
    }

    /// Parse `input` from the rule `EnumerateStatement` and build the node from the
    /// tree. The text is refused exactly where the rule does not match at its
    /// start, with the error of the parser: what the rule matches always has a
    /// typed form.
    pub fn from_text(input: &str) -> (res: Result<Self, LifeError>)
        ensures
            match spec_parse_cst(input@, LifeRestartRule::EnumerateStatement) {
                Ok(tree) => res matches Ok(node) && node.models(tree),
                Err(at) => res matches Err(error) && error.is_syntax(
                    expected(LifeRestartRule::EnumerateStatement),
                    at as int,
                    at as int,
                ),
            },
    {
        proof {
            lemma_rule_fits(input@, LifeRestartRule::EnumerateStatement, 0);
        }
        match parse_cst(input, LifeRestartRule::EnumerateStatement) {
            Ok(pair) => Self::from_pair(&pair),
            Err(error) => Err(error),
        }
    }

    /// The byte range of the node, where it has one.
    pub open spec fn spec_get_range(&self) -> Option<Range<usize>> {
        Some(self.span)
    }

    /// The byte range of the node, where it has one.
    pub fn get_range(&self) -> (range: Option<Range<usize>>)
        ensures
            range == self.spec_get_range(),
    {
        Some(Range { start: self.span.start, end: self.span.end })
    }
}

impl std::str::FromStr for EnumerateStatementNode {
    type Err = LifeError;

    /// Parse `input` as this node: the result of `from_text`.
    fn from_str(input: &str) -> (res: Result<Self, LifeError>)
        ensures
            match spec_parse_cst(input@, LifeRestartRule::EnumerateStatement) {
                Ok(tree) => res matches Ok(node) && node.models(tree),
                Err(at) => res matches Err(error) && error.is_syntax(
                    expected(LifeRestartRule::EnumerateStatement),
                    at as int,
                    at as int,
                ),
            },
    {
        Self::from_text(input)
    }
}

impl OptionStatementNode {
    /// True when this node is the typed form of the tree `pair`: it has the span of
    /// the tree, and every field holds the typed form of what fills its slot.
    pub open spec fn models(&self, pair: CstTree) -> bool {
        &&& self.span.start == pair.start
        &&& self.span.end == pair.end
        &&& self.option_item@.len() == pair.all(Slot::OptionItem).len()
        &&& forall|at: int|
        0 <= at < self.option_item@.len() ==> (#[trigger] self.option_item@[at]).models(
            pair.all(Slot::OptionItem)[at],
        )
    }

    /// Build the node from a tree of the rule `OptionStatement`. The tree is
    /// refused with a syntax error where no node is its typed form; where that is
    /// the fault of the tree itself, the error names this rule and has the span of
    /// the tree.
    pub fn from_pair(pair: &CstNode) -> (res: Result<Self, LifeError>)
        ensures
            res matches Ok(node) ==> node.models(pair@),
            res is Err ==> forall|node: Self| !node.models(pair@),
            res matches Err(error) ==> error.is_syntax_error(),
            fits(pair@, LifeRestartRule::OptionStatement) ==> res is Ok,
    {
        broadcast use group_views;

        let option_item = match OptionItemNode::take_all(pair, Slot::OptionItem) {
            Ok(list) => list,
            Err(error) => {
                proof {
                    assert forall|node: Self| !node.models(pair@) by {
                        if node.models(pair@) {
                            assert(
                                OptionItemNode::models_all(
                                    node.option_item@,
                                    pair@.all(Slot::OptionItem),
                                )
                            );
                        }
                    }
                    if fits(pair@, LifeRestartRule::OptionStatement) {
                        lemma_fits(pair@, LifeRestartRule::OptionStatement);
                        assert forall|at: int| 0 <= at < pair@.children.len()
                            && (#[trigger] pair@.children[at]).slot
                                == Slot::OptionItem implies fits(
                                    pair@.children[at],
                                    LifeRestartRule::OptionItem,
                                ) by {
                            assert(fits_in(pair@.children[at], LifeRestartRule::OptionStatement));
                        }
                    }
                }
                return Err(error);
            },
        };
        Ok(
            OptionStatementNode {
                option_item,
                span: Range { start: pair.span.start, end: pair.span.end },
            }
        )
    }

    /// Parse `input` from the rule `OptionStatement` and build the node from the
    /// tree. The text is refused exactly where the rule does not match at its
    /// start, with the error of the parser: what the rule matches always has a
    /// typed form.
    pub fn from_text(input: &str) -> (res: Result<Self, LifeError>)
        ensures
            match spec_parse_cst(input@, LifeRestartRule::OptionStatement) {
                Ok(tree) => res matches Ok(node) && node.models(tree),
                Err(at) => res matches Err(error) && error.is_syntax(
                    expected(LifeRestartRule::OptionStatement),
                    at as int,
                    at as int,
                ),
            },
    {
        proof {
            lemma_rule_fits(input@, LifeRestartRule::OptionStatement, 0);
        }
        match parse_cst(input, LifeRestartRule::OptionStatement) {
            Ok(pair) => Self::from_pair(&pair),
            Err(error) => Err(error),
        }
    }

    /// The byte range of the node, where it has one.
    pub open spec fn spec_get_range(&self) -> Option<Range<usize>> {
        Some(self.span)
    }

    /// The byte range of the node, where it has one.
    pub fn get_range(&self) -> (range: Option<Range<usize>>)
        ensures
            range == self.spec_get_range(),
    {
        Some(Range { start: self.span.start, end: self.span.end })
    }
}

impl std::str::FromStr for OptionStatementNode {
    type Err = LifeError;

    /// Parse `input` as this node: the result of `from_text`.
    fn from_str(input: &str) -> (res: Result<Self, LifeError>)
        ensures
            match spec_parse_cst(input@, LifeRestartRule::OptionStatement) {
                Ok(tree) => res matches Ok(node) && node.models(tree),
                Err(at) => res matches Err(error) && error.is_syntax(
                    expected(LifeRestartRule::OptionStatement),
                    at as int,
                    at as int,
                ),
            },
    {
        Self::from_text(input)
    }
}

impl OptionItemNode {
    /// True when this node is the typed form of the tree `pair`: it has the span of
    /// the tree, and every field holds the typed form of what fills its slot.
    pub open spec fn models(&self, pair: CstTree) -> bool {
        &&& self.span.start == pair.start
        &&& self.span.end == pair.end
        &&& pair.one(Slot::Variant) matches Some(child) && self.variant.models(child)
        &&& match self.weight {
            Some(node) => pair.one(Slot::Weight) matches Some(child) && node.models(child),
            None => pair.one(Slot::Weight) is None,
        }
    }

    /// True when the tree `pair` itself cannot be a node of this type: a slot that
    /// has to be filled is empty.
    pub open spec fn lacks(pair: CstTree) -> bool {
        pair.one(Slot::Variant) is None
    }

    /// Build the node from a tree of the rule `OptionItem`. The tree is refused
    /// with a syntax error where no node is its typed form; where that is the fault
    /// of the tree itself, the error names this rule and has the span of the tree.
    pub fn from_pair(pair: &CstNode) -> (res: Result<Self, LifeError>)
        ensures
            res matches Ok(node) ==> node.models(pair@),
            res is Err ==> forall|node: Self| !node.models(pair@),
            res matches Err(error) ==> error.is_syntax_error(),
            Self::lacks(pair@) ==> {
                &&& res matches Err(error)
                &&& error.is_syntax(
                    invalid_node(LifeRestartRule::OptionItem),
                    pair@.start as int,
                    pair@.end as int,
                )
            },
            fits(pair@, LifeRestartRule::OptionItem) ==> res is Ok,
    {
        broadcast use group_views;

        let variant_at = match pair.find_first(Slot::Variant) {
            Some(at) => at,
            None => {
                return Err(refuse(LifeRestartRule::OptionItem, pair));
            },
        };
        let variant = match IdentifierNode::from_pair(&pair.children[variant_at]) {
            Ok(node) => node,
            Err(error) => {
                proof {
                    assert forall|node: Self| !node.models(pair@) by {
                        if node.models(pair@) {
                            assert(node.variant.models(pair.children@[variant_at as int]@));
                        }
                    }
                    if fits(pair@, LifeRestartRule::OptionItem) {
                        lemma_fits(pair@, LifeRestartRule::OptionItem);
                        assert(
                            fits_in(pair@.children[variant_at as int], LifeRestartRule::OptionItem)
                        );
                    }
                }
                return Err(error);
            },
        };
        let weight = match IntegerNode::take_one(pair, Slot::Weight) {
            Ok(node) => node,
            Err(error) => {
                proof {
                    let child = pair@.one(Slot::Weight)->0;
                    assert forall|node: Self| !node.models(pair@) by {
                        if node.models(pair@) {
                            match node.weight {
                                Some(inner) => {
                                    assert(inner.models(child));
                                },
                                None => {},
                            }
                        }
                    }
                    if fits(pair@, LifeRestartRule::OptionItem) {
                        lemma_fits(pair@, LifeRestartRule::OptionItem);
                        let at = lemma_first_is_child(pair@.children, Slot::Weight, 0);
                        assert(fits_in(pair@.children[at], LifeRestartRule::OptionItem));
                    }
                }
                return Err(error);
            },
        };
        Ok(
            OptionItemNode {
                variant,
                weight,
                span: Range { start: pair.span.start, end: pair.span.end },
            }
        )
    }

    /// True when the nodes of `list` are the typed forms of the trees of `pairs`,
    /// one for one.
    pub open spec fn models_all(list: Seq<Self>, pairs: Seq<CstTree>) -> bool {
        &&& list.len() == pairs.len()
        &&& forall|at: int| 0 <= at < list.len() ==> (#[trigger] list[at]).models(pairs[at])
    }

    /// Build the nodes from the children of `pair` that fill `slot`, in order.
    pub fn take_all(pair: &CstNode, slot: Slot) -> (res: Result<Vec<Self>, LifeError>)
        ensures
            res matches Ok(list) ==> Self::models_all(list@, pair@.all(slot)),
            res is Err ==> forall|list: Seq<Self>| !Self::models_all(list, pair@.all(slot)),
            res matches Err(error) ==> error.is_syntax_error(),
            (
                forall|at: int| 0 <= at < pair@.children.len()
                    && (#[trigger] pair@.children[at]).slot == slot
                    ==> fits(pair@.children[at], LifeRestartRule::OptionItem)
            )
                ==> res is Ok,
    {
        broadcast use group_views;

        let mut list: Vec<Self> = Vec::new();
        let mut at: usize = 0;
        while at < pair.children.len()
            invariant
                at <= pair.children@.len(),
                pair@.children == views(pair.children@),
                Self::models_all(list@, picks(pair@.children, slot, at as int)),
            decreases pair.children@.len() - at,
        {
            if pair.children[at].slot == slot {
                match Self::from_pair(&pair.children[at]) {
                    Ok(node) => {
                        list.push(node);
                    },
                    Err(error) => {
                        proof {
                            lemma_picks_prefix(
                                pair@.children,
                                slot,
                                at + 1,
                                pair@.children.len() as int,
                            );
                            let pairs = pair@.all(slot);
                            let bad = picks(pair@.children, slot, at as int).len() as int;
                            assert(pairs[bad] == pair.children@[at as int]@);
                            assert(pair@.children[at as int] == pair.children@[at as int]@);
                            assert forall|list: Seq<Self>| !Self::models_all(list, pairs) by {
                                if Self::models_all(list, pairs) {
                                    assert(list[bad].models(pairs[bad]));
                                }
                            }
                        }
                        return Err(error);
                    },
                }
            }
            at = at + 1;
        }
        Ok(list)
    }

    /// Parse `input` from the rule `OptionItem` and build the node from the tree.
    /// The text is refused exactly where the rule does not match at its start, with
    /// the error of the parser: what the rule matches always has a typed form.
    pub fn from_text(input: &str) -> (res: Result<Self, LifeError>)
        ensures
            match spec_parse_cst(input@, LifeRestartRule::OptionItem) {
                Ok(tree) => res matches Ok(node) && node.models(tree),
                Err(at) => res matches Err(error) && error.is_syntax(
                    expected(LifeRestartRule::OptionItem),
                    at as int,
                    at as int,
                ),
            },
    {
        proof {
            lemma_rule_fits(input@, LifeRestartRule::OptionItem, 0);
        }
        match parse_cst(input, LifeRestartRule::OptionItem) {
            Ok(pair) => Self::from_pair(&pair),
            Err(error) => Err(error),
        }
    }

    /// The byte range of the node, where it has one.
    pub open spec fn spec_get_range(&self) -> Option<Range<usize>> {
        Some(self.span)
    }

    /// The byte range of the node, where it has one.
    pub fn get_range(&self) -> (range: Option<Range<usize>>)
        ensures
            range == self.spec_get_range(),
    {
        Some(Range { start: self.span.start, end: self.span.end })
    }
}

impl std::str::FromStr for OptionItemNode {
    type Err = LifeError;

    /// Parse `input` as this node: the result of `from_text`.
    fn from_str(input: &str) -> (res: Result<Self, LifeError>)
        ensures
            match spec_parse_cst(input@, LifeRestartRule::OptionItem) {
                Ok(tree) => res matches Ok(node) && node.models(tree),
                Err(at) => res matches Err(error) && error.is_syntax(
                    expected(LifeRestartRule::OptionItem),
                    at as int,
                    at as int,
                ),
            },
    {
        Self::from_text(input)
    }
}

impl TraitGroupNode {
    /// True when this node is the typed form of the tree `pair`: it has the span of
    /// the tree, and every field holds the typed form of what fills its slot.
    pub open spec fn models(&self, pair: CstTree) -> bool {
        &&& self.span.start == pair.start
        &&& self.span.end == pair.end
        &&& pair.one(Slot::Identifier) matches Some(child) && self.identifier.models(child)
        &&& self.trait_statement@.len() == pair.all(Slot::TraitStatement).len()
        &&& forall|at: int|
        0 <= at < self.trait_statement@.len() ==> (#[trigger] self.trait_statement@[at]).models(
            pair.all(Slot::TraitStatement)[at],
        )
    }

    /// True when the tree `pair` itself cannot be a node of this type: a slot that
    /// has to be filled is empty.
    pub open spec fn lacks(pair: CstTree) -> bool {
        pair.one(Slot::Identifier) is None
    }

    /// Build the node from a tree of the rule `TraitGroup`. The tree is refused
    /// with a syntax error where no node is its typed form; where that is the fault
    /// of the tree itself, the error names this rule and has the span of the tree.
    pub fn from_pair(pair: &CstNode) -> (res: Result<Self, LifeError>)
        ensures
            res matches Ok(node) ==> node.models(pair@),
            res is Err ==> forall|node: Self| !node.models(pair@),
            res matches Err(error) ==> error.is_syntax_error(),
            Self::lacks(pair@) ==> {
                &&& res matches Err(error)
                &&& error.is_syntax(
                    invalid_node(LifeRestartRule::TraitGroup),
                    pair@.start as int,
                    pair@.end as int,
                )
            },
            fits(pair@, LifeRestartRule::TraitGroup) ==> res is Ok,
    {
        broadcast use group_views;

        let identifier_at = match pair.find_first(Slot::Identifier) {
            Some(at) => at,
            None => {
                return Err(refuse(LifeRestartRule::TraitGroup, pair));
            },
        };
        let identifier = match IdentifierNode::from_pair(&pair.children[identifier_at]) {
            Ok(node) => node,
            Err(error) => {
                proof {
                    assert forall|node: Self| !node.models(pair@) by {
                        if node.models(pair@) {
                            assert(node.identifier.models(pair.children@[identifier_at as int]@));
                        }
                    }
                    if fits(pair@, LifeRestartRule::TraitGroup) {
                        lemma_fits(pair@, LifeRestartRule::TraitGroup);
                        assert(
                            fits_in(
                                pair@.children[identifier_at as int],
                                LifeRestartRule::TraitGroup,
                            )
                        );
                    }
                }
                return Err(error);
            },
        };
        let trait_statement = match TraitStatementNode::take_all(pair, Slot::TraitStatement) {
            Ok(list) => list,
            Err(error) => {
                proof {
                    assert forall|node: Self| !node.models(pair@) by {
                        if node.models(pair@) {
                            assert(
                                TraitStatementNode::models_all(
                                    node.trait_statement@,
                                    pair@.all(Slot::TraitStatement),
                                )
                            );
                        }
                    }
                    if fits(pair@, LifeRestartRule::TraitGroup) {
                        lemma_fits(pair@, LifeRestartRule::TraitGroup);
                        assert forall|at: int| 0 <= at < pair@.children.len()
                            && (#[trigger] pair@.children[at]).slot
                                == Slot::TraitStatement implies fits(
                                    pair@.children[at],
                                    LifeRestartRule::TraitStatement,
                                ) by {
                            assert(fits_in(pair@.children[at], LifeRestartRule::TraitGroup));
                        }
                    }
                }
                return Err(error);
            },
        };
        Ok(
            TraitGroupNode {
                identifier,
                trait_statement,
                span: Range { start: pair.span.start, end: pair.span.end },
            }
        )
    }

    /// Parse `input` from the rule `TraitGroup` and build the node from the tree.
    /// The text is refused exactly where the rule does not match at its start, with
    /// the error of the parser: what the rule matches always has a typed form.
    pub fn from_text(input: &str) -> (res: Result<Self, LifeError>)
        ensures
            match spec_parse_cst(input@, LifeRestartRule::TraitGroup) {
                Ok(tree) => res matches Ok(node) && node.models(tree),
                Err(at) => res matches Err(error) && error.is_syntax(
                    expected(LifeRestartRule::TraitGroup),
                    at as int,
                    at as int,
                ),
            },
    {
        proof {
            lemma_rule_fits(input@, LifeRestartRule::TraitGroup, 0);
        }
        match parse_cst(input, LifeRestartRule::TraitGroup) {
            Ok(pair) => Self::from_pair(&pair),
            Err(error) => Err(error),
        }
    }

    /// The byte range of the node, where it has one.
    pub open spec fn spec_get_range(&self) -> Option<Range<usize>> {
        Some(self.span)
    }

    /// The byte range of the node, where it has one.
    pub fn get_range(&self) -> (range: Option<Range<usize>>)
        ensures
            range == self.spec_get_range(),
    {
        Some(Range { start: self.span.start, end: self.span.end })
    }
}

impl std::str::FromStr for TraitGroupNode {
    type Err = LifeError;

    /// Parse `input` as this node: the result of `from_text`.
    fn from_str(input: &str) -> (res: Result<Self, LifeError>)
        ensures
            match spec_parse_cst(input@, LifeRestartRule::TraitGroup) {
                Ok(tree) => res matches Ok(node) && node.models(tree),
                Err(at) => res matches Err(error) && error.is_syntax(
                    expected(LifeRestartRule::TraitGroup),
                    at as int,
                    at as int,
                ),
            },
    {
        Self::from_text(input)
    }
}

impl TraitStatementNode {
    /// True when this node is the typed form of the tree `pair`: it has the span of
    /// the tree, and every field holds the typed form of what fills its slot.
    pub open spec fn models(&self, pair: CstTree) -> bool {
        &&& self.span.start == pair.start
        &&& self.span.end == pair.end
        &&& pair.one(Slot::Identifier) matches Some(child) && self.identifier.models(child)
        &&& self.trait_item@.len() == pair.all(Slot::TraitItem).len()
        &&& forall|at: int|
        0 <= at < self.trait_item@.len() ==> (#[trigger] self.trait_item@[at]).models(
            pair.all(Slot::TraitItem)[at],
        )
    }

    /// True when the tree `pair` itself cannot be a node of this type: a slot that
    /// has to be filled is empty.
    pub open spec fn lacks(pair: CstTree) -> bool {
        pair.one(Slot::Identifier) is None
    }

    /// Build the node from a tree of the rule `TraitStatement`. The tree is refused
    /// with a syntax error where no node is its typed form; where that is the fault
    /// of the tree itself, the error names this rule and has the span of the tree.
    pub fn from_pair(pair: &CstNode) -> (res: Result<Self, LifeError>)
        ensures
            res matches Ok(node) ==> node.models(pair@),
            res is Err ==> forall|node: Self| !node.models(pair@),
            res matches Err(error) ==> error.is_syntax_error(),
            Self::lacks(pair@) ==> {
                &&& res matches Err(error)
                &&& error.is_syntax(
                    invalid_node(LifeRestartRule::TraitStatement),
                    pair@.start as int,
                    pair@.end as int,
                )
            },
            fits(pair@, LifeRestartRule::TraitStatement) ==> res is Ok,
    {
        broadcast use group_views;

        let identifier_at = match pair.find_first(Slot::Identifier) {
            Some(at) => at,
            None => {
                return Err(refuse(LifeRestartRule::TraitStatement, pair));
            },
        };
        let identifier = match IdentifierNode::from_pair(&pair.children[identifier_at]) {
            Ok(node) => node,
            Err(error) => {
                proof {
                    assert forall|node: Self| !node.models(pair@) by {
                        if node.models(pair@) {
                            assert(node.identifier.models(pair.children@[identifier_at as int]@));
                        }
                    }
                    if fits(pair@, LifeRestartRule::TraitStatement) {
                        lemma_fits(pair@, LifeRestartRule::TraitStatement);
                        assert(
                            fits_in(
                                pair@.children[identifier_at as int],
                                LifeRestartRule::TraitStatement,
                            )
                        );
                    }
                }
                return Err(error);
            },
        };
        let trait_item = match TraitItemNode::take_all(pair, Slot::TraitItem) {
            Ok(list) => list,
            Err(error) => {
                proof {
                    assert forall|node: Self| !node.models(pair@) by {
                        if node.models(pair@) {
                            assert(
                                TraitItemNode::models_all(
                                    node.trait_item@,
                                    pair@.all(Slot::TraitItem),
                                )
                            );
                        }
                    }
                    if fits(pair@, LifeRestartRule::TraitStatement) {
                        lemma_fits(pair@, LifeRestartRule::TraitStatement);
                        assert forall|at: int| 0 <= at < pair@.children.len()
                            && (#[trigger] pair@.children[at]).slot
                                == Slot::TraitItem implies fits(
                                    pair@.children[at],
                                    LifeRestartRule::TraitItem,
                                ) by {
                            assert(fits_in(pair@.children[at], LifeRestartRule::TraitStatement));
                        }
                    }
                }
                return Err(error);
            },
        };
        Ok(
            TraitStatementNode {
                identifier,
                trait_item,
                span: Range { start: pair.span.start, end: pair.span.end },
            }
        )
    }

    /// True when the nodes of `list` are the typed forms of the trees of `pairs`,
    /// one for one.
    pub open spec fn models_all(list: Seq<Self>, pairs: Seq<CstTree>) -> bool {
        &&& list.len() == pairs.len()
        &&& forall|at: int| 0 <= at < list.len() ==> (#[trigger] list[at]).models(pairs[at])
    }

    /// Build the nodes from the children of `pair` that fill `slot`, in order.
    pub fn take_all(pair: &CstNode, slot: Slot) -> (res: Result<Vec<Self>, LifeError>)
        ensures
            res matches Ok(list) ==> Self::models_all(list@, pair@.all(slot)),
            res is Err ==> forall|list: Seq<Self>| !Self::models_all(list, pair@.all(slot)),
            res matches Err(error) ==> error.is_syntax_error(),
            (
                forall|at: int| 0 <= at < pair@.children.len()
                    && (#[trigger] pair@.children[at]).slot == slot
                    ==> fits(pair@.children[at], LifeRestartRule::TraitStatement)
            )
                ==> res is Ok,
    {
        broadcast use group_views;

        let mut list: Vec<Self> = Vec::new();
        let mut at: usize = 0;
        while at < pair.children.len()
            invariant
                at <= pair.children@.len(),
                pair@.children == views(pair.children@),
                Self::models_all(list@, picks(pair@.children, slot, at as int)),
            decreases pair.children@.len() - at,
        {
            if pair.children[at].slot == slot {
                match Self::from_pair(&pair.children[at]) {
                    Ok(node) => {
                        list.push(node);
                    },
                    Err(error) => {
                        proof {
                            lemma_picks_prefix(
                                pair@.children,
                                slot,
                                at + 1,
                                pair@.children.len() as int,
                            );
                            let pairs = pair@.all(slot);
                            let bad = picks(pair@.children, slot, at as int).len() as int;
                            assert(pairs[bad] == pair.children@[at as int]@);
                            assert(pair@.children[at as int] == pair.children@[at as int]@);
                            assert forall|list: Seq<Self>| !Self::models_all(list, pairs) by {
                                if Self::models_all(list, pairs) {
                                    assert(list[bad].models(pairs[bad]));
                                }
                            }
                        }
                        return Err(error);
                    },
                }
            }
            at = at + 1;
        }
        Ok(list)
    }

    /// Parse `input` from the rule `TraitStatement` and build the node from the
    /// tree. The text is refused exactly where the rule does not match at its
    /// start, with the error of the parser: what the rule matches always has a
    /// typed form.
    pub fn from_text(input: &str) -> (res: Result<Self, LifeError>)
        ensures
            match spec_parse_cst(input@, LifeRestartRule::TraitStatement) {
                Ok(tree) => res matches Ok(node) && node.models(tree),
                Err(at) => res matches Err(error) && error.is_syntax(
                    expected(LifeRestartRule::TraitStatement),
                    at as int,
                    at as int,
                ),
            },
    {
        proof {
            lemma_rule_fits(input@, LifeRestartRule::TraitStatement, 0);
        }
        match parse_cst(input, LifeRestartRule::TraitStatement) {
            Ok(pair) => Self::from_pair(&pair),
            Err(error) => Err(error),
        }
    }

    /// The byte range of the node, where it has one.
    pub open spec fn spec_get_range(&self) -> Option<Range<usize>> {
        Some(self.span)
    }

    /// The byte range of the node, where it has one.
    pub fn get_range(&self) -> (range: Option<Range<usize>>)
        ensures
            range == self.spec_get_range(),
    {
        Some(Range { start: self.span.start, end: self.span.end })
    }
}

impl std::str::FromStr for TraitStatementNode {
    type Err = LifeError;

    /// Parse `input` as this node: the result of `from_text`.
    fn from_str(input: &str) -> (res: Result<Self, LifeError>)
        ensures
            match spec_parse_cst(input@, LifeRestartRule::TraitStatement) {
                Ok(tree) => res matches Ok(node) && node.models(tree),
                Err(at) => res matches Err(error) && error.is_syntax(
                    expected(LifeRestartRule::TraitStatement),
                    at as int,
                    at as int,
                ),
            },
    {
        Self::from_text(input)
    }
}

impl TraitItemNode {
    /// True when this node is the typed form of the tree `pair`: it is the first
    /// alternative, in the order of the declaration, whose slot is filled.
    pub open spec fn models(&self, pair: CstTree) -> bool {
        match self {
            Self::DescriptionStatement(node) => {
                &&& pair.one(Slot::DescriptionStatement) matches Some(child) && node.models(child)
            },
            Self::EffectStatement(node) => {
                &&& pair.one(Slot::DescriptionStatement) is None
                &&& pair.one(Slot::EffectStatement) matches Some(child) && node.models(child)
            },
            Self::IdStatement(node) => {
                &&& pair.one(Slot::DescriptionStatement) is None
                &&& pair.one(Slot::EffectStatement) is None
                &&& pair.one(Slot::IdStatement) matches Some(child) && node.models(child)
            },
            Self::RequirementStatement(node) => {
                &&& pair.one(Slot::DescriptionStatement) is None
                &&& pair.one(Slot::EffectStatement) is None
                &&& pair.one(Slot::IdStatement) is None
                &&& pair.one(Slot::RequirementStatement) matches Some(child) && node.models(child)
            },
        }
    }

    /// True when the tree `pair` itself cannot be a node of this type: the slot of
    /// no alternative is filled.
    pub open spec fn lacks(pair: CstTree) -> bool {
        pair.one(Slot::DescriptionStatement) is None
            && pair.one(Slot::EffectStatement) is None
            && pair.one(Slot::IdStatement) is None
            && pair.one(Slot::RequirementStatement) is None
    }

    /// Build the node from a tree of the rule `TraitItem`. The tree is refused with
    /// a syntax error where no node is its typed form; where that is the fault of
    /// the tree itself, the error names this rule and has the span of the tree.
    pub fn from_pair(pair: &CstNode) -> (res: Result<Self, LifeError>)
        ensures
            res matches Ok(node) ==> node.models(pair@),
            res is Err ==> forall|node: Self| !node.models(pair@),
            res matches Err(error) ==> error.is_syntax_error(),
            Self::lacks(pair@) ==> {
                &&& res matches Err(error)
                &&& error.is_syntax(
                    invalid_node(LifeRestartRule::TraitItem),
                    pair@.start as int,
                    pair@.end as int,
                )
            },
            fits(pair@, LifeRestartRule::TraitItem) ==> res is Ok,
    {
        broadcast use group_views;

        match pair.find_first(Slot::DescriptionStatement) {
            Some(at) => {
                match DescriptionStatementNode::from_pair(&pair.children[at]) {
                    Ok(node) => {
                        return Ok(Self::DescriptionStatement(node));
                    },
                    Err(error) => {
                        proof {
                            assert forall|node: Self| !node.models(pair@) by {
                                if node.models(pair@) {
                                    match node {
                                        Self::DescriptionStatement(inner) => {
                                            assert(inner.models(pair.children@[at as int]@));
                                        },
                                        _ => {},
                                    }
                                }
                            }
                            if fits(pair@, LifeRestartRule::TraitItem) {
                                lemma_fits(pair@, LifeRestartRule::TraitItem);
                                assert(
                                    fits_in(pair@.children[at as int], LifeRestartRule::TraitItem)
                                );
                            }
                        }
                        return Err(error);
                    },
                }
            },
            None => {},
        }
        match pair.find_first(Slot::EffectStatement) {
            Some(at) => {
                match EffectStatementNode::from_pair(&pair.children[at]) {
                    Ok(node) => {
                        return Ok(Self::EffectStatement(node));
                    },
                    Err(error) => {
                        proof {
                            assert forall|node: Self| !node.models(pair@) by {
                                if node.models(pair@) {
                                    match node {
                                        Self::EffectStatement(inner) => {
                                            assert(inner.models(pair.children@[at as int]@));
                                        },
                                        _ => {},
                                    }
                                }
                            }
                            if fits(pair@, LifeRestartRule::TraitItem) {
                                lemma_fits(pair@, LifeRestartRule::TraitItem);
                                assert(
                                    fits_in(pair@.children[at as int], LifeRestartRule::TraitItem)
                                );
                            }
                        }
                        return Err(error);
                    },
                }
            },
            None => {},
        }
        match pair.find_first(Slot::IdStatement) {
            Some(at) => {
                match IdStatementNode::from_pair(&pair.children[at]) {
                    Ok(node) => {
                        return Ok(Self::IdStatement(node));
                    },
                    Err(error) => {
                        proof {
                            assert forall|node: Self| !node.models(pair@) by {
                                if node.models(pair@) {
                                    match node {
                                        Self::IdStatement(inner) => {
                                            assert(inner.models(pair.children@[at as int]@));
                                        },
                                        _ => {},
                                    }
                                }
                            }
                            if fits(pair@, LifeRestartRule::TraitItem) {
                                lemma_fits(pair@, LifeRestartRule::TraitItem);
                                assert(
                                    fits_in(pair@.children[at as int], LifeRestartRule::TraitItem)
                                );
                            }
                        }
                        return Err(error);
                    },
                }
            },
            None => {},
        }
        match pair.find_first(Slot::RequirementStatement) {
            Some(at) => {
                match RequirementStatementNode::from_pair(&pair.children[at]) {
                    Ok(node) => {
                        return Ok(Self::RequirementStatement(node));
                    },
                    Err(error) => {
                        proof {
                            assert forall|node: Self| !node.models(pair@) by {
                                if node.models(pair@) {
                                    match node {
                                        Self::RequirementStatement(inner) => {
                                            assert(inner.models(pair.children@[at as int]@));
                                        },
                                        _ => {},
                                    }
                                }
                            }
                            if fits(pair@, LifeRestartRule::TraitItem) {
                                lemma_fits(pair@, LifeRestartRule::TraitItem);
                                assert(
                                    fits_in(pair@.children[at as int], LifeRestartRule::TraitItem)
                                );
                            }
                        }
                        return Err(error);
                    },
                }
            },
            None => {},
        }
        Err(refuse(LifeRestartRule::TraitItem, pair))
    }

    /// True when the nodes of `list` are the typed forms of the trees of `pairs`,
    /// one for one.
    pub open spec fn models_all(list: Seq<Self>, pairs: Seq<CstTree>) -> bool {
        &&& list.len() == pairs.len()
        &&& forall|at: int| 0 <= at < list.len() ==> (#[trigger] list[at]).models(pairs[at])
    }

    /// Build the nodes from the children of `pair` that fill `slot`, in order.
    pub fn take_all(pair: &CstNode, slot: Slot) -> (res: Result<Vec<Self>, LifeError>)
        ensures
            res matches Ok(list) ==> Self::models_all(list@, pair@.all(slot)),
            res is Err ==> forall|list: Seq<Self>| !Self::models_all(list, pair@.all(slot)),
            res matches Err(error) ==> error.is_syntax_error(),
            (
                forall|at: int| 0 <= at < pair@.children.len()
                    && (#[trigger] pair@.children[at]).slot == slot
                    ==> fits(pair@.children[at], LifeRestartRule::TraitItem)
            )
                ==> res is Ok,
    {
        broadcast use group_views;

        let mut list: Vec<Self> = Vec::new();
        let mut at: usize = 0;
        while at < pair.children.len()
            invariant
                at <= pair.children@.len(),
                pair@.children == views(pair.children@),
                Self::models_all(list@, picks(pair@.children, slot, at as int)),
            decreases pair.children@.len() - at,
        {
            if pair.children[at].slot == slot {
                match Self::from_pair(&pair.children[at]) {
                    Ok(node) => {
                        list.push(node);
                    },
                    Err(error) => {
                        proof {
                            lemma_picks_prefix(
                                pair@.children,
                                slot,
                                at + 1,
                                pair@.children.len() as int,
                            );
                            let pairs = pair@.all(slot);
                            let bad = picks(pair@.children, slot, at as int).len() as int;
                            assert(pairs[bad] == pair.children@[at as int]@);
                            assert(pair@.children[at as int] == pair.children@[at as int]@);
                            assert forall|list: Seq<Self>| !Self::models_all(list, pairs) by {
                                if Self::models_all(list, pairs) {
                                    assert(list[bad].models(pairs[bad]));
                                }
                            }
                        }
                        return Err(error);
                    },
                }
            }
            at = at + 1;
        }
        Ok(list)
    }

    /// Parse `input` from the rule `TraitItem` and build the node from the tree.
    /// The text is refused exactly where the rule does not match at its start, with
    /// the error of the parser: what the rule matches always has a typed form.
    pub fn from_text(input: &str) -> (res: Result<Self, LifeError>)
        ensures
            match spec_parse_cst(input@, LifeRestartRule::TraitItem) {
                Ok(tree) => res matches Ok(node) && node.models(tree),
                Err(at) => res matches Err(error) && error.is_syntax(
                    expected(LifeRestartRule::TraitItem),
                    at as int,
                    at as int,
                ),
            },
    {
        proof {
            lemma_rule_fits(input@, LifeRestartRule::TraitItem, 0);
        }
        match parse_cst(input, LifeRestartRule::TraitItem) {
            Ok(pair) => Self::from_pair(&pair),
            Err(error) => Err(error),
        }
    }

    /// The byte range of the node, where it has one.
    pub open spec fn spec_get_range(&self) -> Option<Range<usize>> {
        match self {
            Self::DescriptionStatement(node) => node.spec_get_range(),
            Self::EffectStatement(node) => node.spec_get_range(),
            Self::IdStatement(node) => node.spec_get_range(),
            Self::RequirementStatement(node) => node.spec_get_range(),
        }
    }

    /// The byte range of the node, where it has one.
    pub fn get_range(&self) -> (range: Option<Range<usize>>)
        ensures
            range == self.spec_get_range(),
    {
        match self {
            Self::DescriptionStatement(node) => node.get_range(),
            Self::EffectStatement(node) => node.get_range(),
            Self::IdStatement(node) => node.get_range(),
            Self::RequirementStatement(node) => node.get_range(),
        }
    }
}

impl std::str::FromStr for TraitItemNode {
    type Err = LifeError;

    /// Parse `input` as this node: the result of `from_text`.
    fn from_str(input: &str) -> (res: Result<Self, LifeError>)
        ensures
            match spec_parse_cst(input@, LifeRestartRule::TraitItem) {
                Ok(tree) => res matches Ok(node) && node.models(tree),
                Err(at) => res matches Err(error) && error.is_syntax(
                    expected(LifeRestartRule::TraitItem),
                    at as int,
                    at as int,
                ),
            },
    {
        Self::from_text(input)
    }
}

impl TraitPropertyNode {
    /// True when this node is the typed form of the tree `pair`: it has the span of
    /// the tree, and every field holds the typed form of what fills its slot.
    pub open spec fn models(&self, pair: CstTree) -> bool {
        &&& self.span.start == pair.start
        &&& self.span.end == pair.end
        &&& pair.one(Slot::Atomic) matches Some(child) && self.atomic.models(child)
        &&& pair.one(Slot::Identifier) matches Some(child) && self.identifier.models(child)
    }

    /// True when the tree `pair` itself cannot be a node of this type: a slot that
    /// has to be filled is empty.
    pub open spec fn lacks(pair: CstTree) -> bool {
        pair.one(Slot::Atomic) is None || pair.one(Slot::Identifier) is None
    }

    /// Build the node from a tree of the rule `TraitProperty`. The tree is refused
    /// with a syntax error where no node is its typed form; where that is the fault
    /// of the tree itself, the error names this rule and has the span of the tree.
    pub fn from_pair(pair: &CstNode) -> (res: Result<Self, LifeError>)
        ensures
            res matches Ok(node) ==> node.models(pair@),
            res is Err ==> forall|node: Self| !node.models(pair@),
            res matches Err(error) ==> error.is_syntax_error(),
            Self::lacks(pair@) ==> {
                &&& res matches Err(error)
                &&& error.is_syntax(
                    invalid_node(LifeRestartRule::TraitProperty),
                    pair@.start as int,
                    pair@.end as int,
                )
            },
            fits(pair@, LifeRestartRule::TraitProperty) ==> res is Ok,
    {
        broadcast use group_views;

        let atomic_at = match pair.find_first(Slot::Atomic) {
            Some(at) => at,
            None => {
                return Err(refuse(LifeRestartRule::TraitProperty, pair));
            },
        };
        let identifier_at = match pair.find_first(Slot::Identifier) {
            Some(at) => at,
            None => {
                return Err(refuse(LifeRestartRule::TraitProperty, pair));
            },
        };
        let atomic = match AtomicNode::from_pair(&pair.children[atomic_at]) {
            Ok(node) => node,
            Err(error) => {
                proof {
                    assert forall|node: Self| !node.models(pair@) by {
                        if node.models(pair@) {
                            assert(node.atomic.models(pair.children@[atomic_at as int]@));
                        }
                    }
                    if fits(pair@, LifeRestartRule::TraitProperty) {
                        lemma_fits(pair@, LifeRestartRule::TraitProperty);
                        assert(
                            fits_in(
                                pair@.children[atomic_at as int],
                                LifeRestartRule::TraitProperty,
                            )
                        );
                    }
                }
                return Err(error);
            },
        };
        let identifier = match IdentifierNode::from_pair(&pair.children[identifier_at]) {
            Ok(node) => node,
            Err(error) => {
                proof {
                    assert forall|node: Self| !node.models(pair@) by {
                        if node.models(pair@) {
                            assert(node.identifier.models(pair.children@[identifier_at as int]@));
                        }
                    }
                    if fits(pair@, LifeRestartRule::TraitProperty) {
                        lemma_fits(pair@, LifeRestartRule::TraitProperty);
                        assert(
                            fits_in(
                                pair@.children[identifier_at as int],
                                LifeRestartRule::TraitProperty,
                            )
                        );
                    }
                }
                return Err(error);
            },
        };
        Ok(
            TraitPropertyNode {
                atomic,
                identifier,
                span: Range { start: pair.span.start, end: pair.span.end },
            }
        )
    }

    /// Parse `input` from the rule `TraitProperty` and build the node from the
    /// tree. The text is refused exactly where the rule does not match at its
    /// start, with the error of the parser: what the rule matches always has a
    /// typed form.
    pub fn from_text(input: &str) -> (res: Result<Self, LifeError>)
        ensures
            match spec_parse_cst(input@, LifeRestartRule::TraitProperty) {
                Ok(tree) => res matches Ok(node) && node.models(tree),
                Err(at) => res matches Err(error) && error.is_syntax(
                    expected(LifeRestartRule::TraitProperty),
                    at as int,
                    at as int,
                ),
            },
    {
        proof {
            lemma_rule_fits(input@, LifeRestartRule::TraitProperty, 0);
        }
        match parse_cst(input, LifeRestartRule::TraitProperty) {
            Ok(pair) => Self::from_pair(&pair),
            Err(error) => Err(error),
        }
    }

    /// The byte range of the node, where it has one.
    pub open spec fn spec_get_range(&self) -> Option<Range<usize>> {
        Some(self.span)
    }

    /// The byte range of the node, where it has one.
    pub fn get_range(&self) -> (range: Option<Range<usize>>)
        ensures
            range == self.spec_get_range(),
    {
        Some(Range { start: self.span.start, end: self.span.end })
    }
}

impl std::str::FromStr for TraitPropertyNode {
    type Err = LifeError;

    /// Parse `input` as this node: the result of `from_text`.
    fn from_str(input: &str) -> (res: Result<Self, LifeError>)
        ensures
            match spec_parse_cst(input@, LifeRestartRule::TraitProperty) {
                Ok(tree) => res matches Ok(node) && node.models(tree),
                Err(at) => res matches Err(error) && error.is_syntax(
                    expected(LifeRestartRule::TraitProperty),
                    at as int,
                    at as int,
                ),
            },
    {
        Self::from_text(input)
    }
}

impl RequirementStatementNode {
    /// True when this node is the typed form of the tree `pair`: it has the span of
    /// the tree, and every field holds the typed form of what fills its slot.
    pub open spec fn models(&self, pair: CstTree) -> bool {
        &&& self.span.start == pair.start
        &&& self.span.end == pair.end
        &&& self.statement@.len() == pair.all(Slot::Statement).len()
        &&& forall|at: int|
        0 <= at < self.statement@.len() ==> (#[trigger] self.statement@[at]).models(
            pair.all(Slot::Statement)[at],
        )
    }

    /// Build the node from a tree of the rule `RequirementStatement`. The tree is
    /// refused with a syntax error where no node is its typed form; where that is
    /// the fault of the tree itself, the error names this rule and has the span of
    /// the tree.
    pub fn from_pair(pair: &CstNode) -> (res: Result<Self, LifeError>)
        ensures
            res matches Ok(node) ==> node.models(pair@),
            res is Err ==> forall|node: Self| !node.models(pair@),
            res matches Err(error) ==> error.is_syntax_error(),
            fits(pair@, LifeRestartRule::RequirementStatement) ==> res is Ok,
    {
        broadcast use group_views;

        let statement = match StatementNode::take_all(pair, Slot::Statement) {
            Ok(list) => list,
            Err(error) => {
                proof {
                    assert forall|node: Self| !node.models(pair@) by {
                        if node.models(pair@) {
                            assert(
                                StatementNode::models_all(
                                    node.statement@,
                                    pair@.all(Slot::Statement),
                                )
                            );
                        }
                    }
                    if fits(pair@, LifeRestartRule::RequirementStatement) {
                        lemma_fits(pair@, LifeRestartRule::RequirementStatement);
                        assert forall|at: int| 0 <= at < pair@.children.len()
                            && (#[trigger] pair@.children[at]).slot
                                == Slot::Statement implies fits(
                                    pair@.children[at],
                                    LifeRestartRule::Statement,
                                ) by {
                            assert(
                                fits_in(pair@.children[at], LifeRestartRule::RequirementStatement)
                            );
                        }
                    }
                }
                return Err(error);
            },
        };
        Ok(
            RequirementStatementNode {
                statement,
                span: Range { start: pair.span.start, end: pair.span.end },
            }
        )
    }

    /// Parse `input` from the rule `RequirementStatement` and build the node from
    /// the tree. The text is refused exactly where the rule does not match at its
    /// start, with the error of the parser: what the rule matches always has a
    /// typed form.
    pub fn from_text(input: &str) -> (res: Result<Self, LifeError>)
        ensures
            match spec_parse_cst(input@, LifeRestartRule::RequirementStatement) {
                Ok(tree) => res matches Ok(node) && node.models(tree),
                Err(at) => res matches Err(error) && error.is_syntax(
                    expected(LifeRestartRule::RequirementStatement),
                    at as int,
                    at as int,
                ),
            },
    {
        proof {
            lemma_rule_fits(input@, LifeRestartRule::RequirementStatement, 0);
        }
        match parse_cst(input, LifeRestartRule::RequirementStatement) {
            Ok(pair) => Self::from_pair(&pair),
            Err(error) => Err(error),
        }
    }

    /// The byte range of the node, where it has one.
    pub open spec fn spec_get_range(&self) -> Option<Range<usize>> {
        Some(self.span)
    }

    /// The byte range of the node, where it has one.
    pub fn get_range(&self) -> (range: Option<Range<usize>>)
        ensures
            range == self.spec_get_range(),
    {
        Some(Range { start: self.span.start, end: self.span.end })
    }
}

impl std::str::FromStr for RequirementStatementNode {
    type Err = LifeError;

    /// Parse `input` as this node: the result of `from_text`.
    fn from_str(input: &str) -> (res: Result<Self, LifeError>)
        ensures
            match spec_parse_cst(input@, LifeRestartRule::RequirementStatement) {
                Ok(tree) => res matches Ok(node) && node.models(tree),
                Err(at) => res matches Err(error) && error.is_syntax(
                    expected(LifeRestartRule::RequirementStatement),
                    at as int,
                    at as int,
                ),
            },
    {
        Self::from_text(input)
    }
}

impl EffectStatementNode {
    /// True when this node is the typed form of the tree `pair`: it has the span of
    /// the tree, and every field holds the typed form of what fills its slot.
    pub open spec fn models(&self, pair: CstTree) -> bool {
        &&& self.span.start == pair.start
        &&& self.span.end == pair.end
        &&& self.statement@.len() == pair.all(Slot::Statement).len()
        &&& forall|at: int|
        0 <= at < self.statement@.len() ==> (#[trigger] self.statement@[at]).models(
            pair.all(Slot::Statement)[at],
        )
    }

    /// Build the node from a tree of the rule `EffectStatement`. The tree is
    /// refused with a syntax error where no node is its typed form; where that is
    /// the fault of the tree itself, the error names this rule and has the span of
    /// the tree.
    pub fn from_pair(pair: &CstNode) -> (res: Result<Self, LifeError>)
        ensures
            res matches Ok(node) ==> node.models(pair@),
            res is Err ==> forall|node: Self| !node.models(pair@),
            res matches Err(error) ==> error.is_syntax_error(),
            fits(pair@, LifeRestartRule::EffectStatement) ==> res is Ok,
    {
        broadcast use group_views;

        let statement = match StatementNode::take_all(pair, Slot::Statement) {
            Ok(list) => list,
            Err(error) => {
                proof {
                    assert forall|node: Self| !node.models(pair@) by {
                        if node.models(pair@) {
                            assert(
                                StatementNode::models_all(
                                    node.statement@,
                                    pair@.all(Slot::Statement),
                                )
                            );
                        }
                    }
                    if fits(pair@, LifeRestartRule::EffectStatement) {
                        lemma_fits(pair@, LifeRestartRule::EffectStatement);
                        assert forall|at: int| 0 <= at < pair@.children.len()
                            && (#[trigger] pair@.children[at]).slot
                                == Slot::Statement implies fits(
                                    pair@.children[at],
                                    LifeRestartRule::Statement,
                                ) by {
                            assert(fits_in(pair@.children[at], LifeRestartRule::EffectStatement));
                        }
                    }
                }
                return Err(error);
            },
        };
        Ok(
            EffectStatementNode {
                statement,
                span: Range { start: pair.span.start, end: pair.span.end },
            }
        )
    }

    /// Parse `input` from the rule `EffectStatement` and build the node from the
    /// tree. The text is refused exactly where the rule does not match at its
    /// start, with the error of the parser: what the rule matches always has a
    /// typed form.
    pub fn from_text(input: &str) -> (res: Result<Self, LifeError>)
        ensures
            match spec_parse_cst(input@, LifeRestartRule::EffectStatement) {
                Ok(tree) => res matches Ok(node) && node.models(tree),
                Err(at) => res matches Err(error) && error.is_syntax(
                    expected(LifeRestartRule::EffectStatement),
                    at as int,
                    at as int,
                ),
            },
    {
        proof {
            lemma_rule_fits(input@, LifeRestartRule::EffectStatement, 0);
        }
        match parse_cst(input, LifeRestartRule::EffectStatement) {
            Ok(pair) => Self::from_pair(&pair),
            Err(error) => Err(error),
        }
    }

    /// The byte range of the node, where it has one.
    pub open spec fn spec_get_range(&self) -> Option<Range<usize>> {
        Some(self.span)
    }

    /// The byte range of the node, where it has one.
    pub fn get_range(&self) -> (range: Option<Range<usize>>)
        ensures
            range == self.spec_get_range(),
    {
        Some(Range { start: self.span.start, end: self.span.end })
    }
}

impl std::str::FromStr for EffectStatementNode {
    type Err = LifeError;

    /// Parse `input` as this node: the result of `from_text`.
    fn from_str(input: &str) -> (res: Result<Self, LifeError>)
        ensures
            match spec_parse_cst(input@, LifeRestartRule::EffectStatement) {
                Ok(tree) => res matches Ok(node) && node.models(tree),
                Err(at) => res matches Err(error) && error.is_syntax(
                    expected(LifeRestartRule::EffectStatement),
                    at as int,
                    at as int,
                ),
            },
    {
        Self::from_text(input)
    }
}

impl EventGroupNode {
    /// True when this node is the typed form of the tree `pair`: it has the span of
    /// the tree, and every field holds the typed form of what fills its slot.
    pub open spec fn models(&self, pair: CstTree) -> bool {
        &&& self.span.start == pair.start
        &&& self.span.end == pair.end
        &&& self.event_statement@.len() == pair.all(Slot::EventStatement).len()
        &&& forall|at: int|
        0 <= at < self.event_statement@.len() ==> (#[trigger] self.event_statement@[at]).models(
            pair.all(Slot::EventStatement)[at],
        )
        &&& pair.one(Slot::Identifier) matches Some(child) && self.identifier.models(child)
    }

    /// True when the tree `pair` itself cannot be a node of this type: a slot that
    /// has to be filled is empty.
    pub open spec fn lacks(pair: CstTree) -> bool {
        pair.one(Slot::Identifier) is None
    }

    /// Build the node from a tree of the rule `EventGroup`. The tree is refused
    /// with a syntax error where no node is its typed form; where that is the fault
    /// of the tree itself, the error names this rule and has the span of the tree.
    pub fn from_pair(pair: &CstNode) -> (res: Result<Self, LifeError>)
        ensures
            res matches Ok(node) ==> node.models(pair@),
            res is Err ==> forall|node: Self| !node.models(pair@),
            res matches Err(error) ==> error.is_syntax_error(),
            Self::lacks(pair@) ==> {
                &&& res matches Err(error)
                &&& error.is_syntax(
                    invalid_node(LifeRestartRule::EventGroup),
                    pair@.start as int,
                    pair@.end as int,
                )
            },
            fits(pair@, LifeRestartRule::EventGroup) ==> res is Ok,
    {
        broadcast use group_views;

        let identifier_at = match pair.find_first(Slot::Identifier) {
            Some(at) => at,
            None => {
                return Err(refuse(LifeRestartRule::EventGroup, pair));
            },
        };
        let event_statement = match EventStatementNode::take_all(pair, Slot::EventStatement) {
            Ok(list) => list,
            Err(error) => {
                proof {
                    assert forall|node: Self| !node.models(pair@) by {
                        if node.models(pair@) {
                            assert(
                                EventStatementNode::models_all(
                                    node.event_statement@,
                                    pair@.all(Slot::EventStatement),
                                )
                            );
                        }
                    }
                    if fits(pair@, LifeRestartRule::EventGroup) {
                        lemma_fits(pair@, LifeRestartRule::EventGroup);
                        assert forall|at: int| 0 <= at < pair@.children.len()
                            && (#[trigger] pair@.children[at]).slot
                                == Slot::EventStatement implies fits(
                                    pair@.children[at],
                                    LifeRestartRule::EventStatement,
                                ) by {
                            assert(fits_in(pair@.children[at], LifeRestartRule::EventGroup));
                        }
                    }
                }
                return Err(error);
            },
        };
        let identifier = match IdentifierNode::from_pair(&pair.children[identifier_at]) {
            Ok(node) => node,
            Err(error) => {
                proof {
                    assert forall|node: Self| !node.models(pair@) by {
                        if node.models(pair@) {
                            assert(node.identifier.models(pair.children@[identifier_at as int]@));
                        }
                    }
                    if fits(pair@, LifeRestartRule::EventGroup) {
                        lemma_fits(pair@, LifeRestartRule::EventGroup);
                        assert(
                            fits_in(
                                pair@.children[identifier_at as int],
                                LifeRestartRule::EventGroup,
                            )
                        );
                    }
                }
                return Err(error);
            },
        };
        Ok(
            EventGroupNode {
                event_statement,
                identifier,
                span: Range { start: pair.span.start, end: pair.span.end },
            }
        )
    }

    /// Parse `input` from the rule `EventGroup` and build the node from the tree.
    /// The text is refused exactly where the rule does not match at its start, with
    /// the error of the parser: what the rule matches always has a typed form.
    pub fn from_text(input: &str) -> (res: Result<Self, LifeError>)
        ensures
            match spec_parse_cst(input@, LifeRestartRule::EventGroup) {
                Ok(tree) => res matches Ok(node) && node.models(tree),
                Err(at) => res matches Err(error) && error.is_syntax(
                    expected(LifeRestartRule::EventGroup),
                    at as int,
                    at as int,
                ),
            },
    {
        proof {
            lemma_rule_fits(input@, LifeRestartRule::EventGroup, 0);
        }
        match parse_cst(input, LifeRestartRule::EventGroup) {
            Ok(pair) => Self::from_pair(&pair),
            Err(error) => Err(error),
        }
    }

    /// The byte range of the node, where it has one.
    pub open spec fn spec_get_range(&self) -> Option<Range<usize>> {
        Some(self.span)
    }

    /// The byte range of the node, where it has one.
    pub fn get_range(&self) -> (range: Option<Range<usize>>)
        ensures
            range == self.spec_get_range(),
    {
        Some(Range { start: self.span.start, end: self.span.end })
    }
}

impl std::str::FromStr for EventGroupNode {
    type Err = LifeError;

    /// Parse `input` as this node: the result of `from_text`.
    fn from_str(input: &str) -> (res: Result<Self, LifeError>)
        ensures
            match spec_parse_cst(input@, LifeRestartRule::EventGroup) {
                Ok(tree) => res matches Ok(node) && node.models(tree),
                Err(at) => res matches Err(error) && error.is_syntax(
                    expected(LifeRestartRule::EventGroup),
                    at as int,
                    at as int,
                ),
            },
    {
        Self::from_text(input)
    }
}

impl EventStatementNode {
    /// True when this node is the typed form of the tree `pair`: it has the span of
    /// the tree, and every field holds the typed form of what fills its slot.
    pub open spec fn models(&self, pair: CstTree) -> bool {
        &&& self.span.start == pair.start
        &&& self.span.end == pair.end
        &&& self.event_item@.len() == pair.all(Slot::EventItem).len()
        &&& forall|at: int|
        0 <= at < self.event_item@.len() ==> (#[trigger] self.event_item@[at]).models(
            pair.all(Slot::EventItem)[at],
        )
        &&& pair.one(Slot::Identifier) matches Some(child) && self.identifier.models(child)
    }

    /// True when the tree `pair` itself cannot be a node of this type: a slot that
    /// has to be filled is empty.
    pub open spec fn lacks(pair: CstTree) -> bool {
        pair.one(Slot::Identifier) is None
    }

    /// Build the node from a tree of the rule `EventStatement`. The tree is refused
    /// with a syntax error where no node is its typed form; where that is the fault
    /// of the tree itself, the error names this rule and has the span of the tree.
    pub fn from_pair(pair: &CstNode) -> (res: Result<Self, LifeError>)
        ensures
            res matches Ok(node) ==> node.models(pair@),
            res is Err ==> forall|node: Self| !node.models(pair@),
            res matches Err(error) ==> error.is_syntax_error(),
            Self::lacks(pair@) ==> {
                &&& res matches Err(error)
                &&& error.is_syntax(
                    invalid_node(LifeRestartRule::EventStatement),
                    pair@.start as int,
                    pair@.end as int,
                )
            },
            fits(pair@, LifeRestartRule::EventStatement) ==> res is Ok,
    {
        broadcast use group_views;

        let identifier_at = match pair.find_first(Slot::Identifier) {
            Some(at) => at,
            None => {
                return Err(refuse(LifeRestartRule::EventStatement, pair));
            },
        };
        let event_item = match EventItemNode::take_all(pair, Slot::EventItem) {
            Ok(list) => list,
            Err(error) => {
                proof {
                    assert forall|node: Self| !node.models(pair@) by {
                        if node.models(pair@) {
                            assert(
                                EventItemNode::models_all(
                                    node.event_item@,
                                    pair@.all(Slot::EventItem),
                                )
                            );
                        }
                    }
                    if fits(pair@, LifeRestartRule::EventStatement) {
                        lemma_fits(pair@, LifeRestartRule::EventStatement);
                        assert forall|at: int| 0 <= at < pair@.children.len()
                            && (#[trigger] pair@.children[at]).slot
                                == Slot::EventItem implies fits(
                                    pair@.children[at],
                                    LifeRestartRule::EventItem,
                                ) by {
                            assert(fits_in(pair@.children[at], LifeRestartRule::EventStatement));
                        }
                    }
                }
                return Err(error);
            },
        };
        let identifier = match IdentifierNode::from_pair(&pair.children[identifier_at]) {
            Ok(node) => node,
            Err(error) => {
                proof {
                    assert forall|node: Self| !node.models(pair@) by {
                        if node.models(pair@) {
                            assert(node.identifier.models(pair.children@[identifier_at as int]@));
                        }
                    }
                    if fits(pair@, LifeRestartRule::EventStatement) {
                        lemma_fits(pair@, LifeRestartRule::EventStatement);
                        assert(
                            fits_in(
                                pair@.children[identifier_at as int],
                                LifeRestartRule::EventStatement,
                            )
                        );
                    }
                }
                return Err(error);
            },
        };
        Ok(
            EventStatementNode {
                event_item,
                identifier,
                span: Range { start: pair.span.start, end: pair.span.end },
            }
        )
    }

    /// True when the nodes of `list` are the typed forms of the trees of `pairs`,
    /// one for one.
    pub open spec fn models_all(list: Seq<Self>, pairs: Seq<CstTree>) -> bool {
        &&& list.len() == pairs.len()
        &&& forall|at: int| 0 <= at < list.len() ==> (#[trigger] list[at]).models(pairs[at])
    }

    /// Build the nodes from the children of `pair` that fill `slot`, in order.
    pub fn take_all(pair: &CstNode, slot: Slot) -> (res: Result<Vec<Self>, LifeError>)
        ensures
            res matches Ok(list) ==> Self::models_all(list@, pair@.all(slot)),
            res is Err ==> forall|list: Seq<Self>| !Self::models_all(list, pair@.all(slot)),
            res matches Err(error) ==> error.is_syntax_error(),
            (
                forall|at: int| 0 <= at < pair@.children.len()
                    && (#[trigger] pair@.children[at]).slot == slot
                    ==> fits(pair@.children[at], LifeRestartRule::EventStatement)
            )
                ==> res is Ok,
    {
        broadcast use group_views;

        let mut list: Vec<Self> = Vec::new();
        let mut at: usize = 0;
        while at < pair.children.len()
            invariant
                at <= pair.children@.len(),
                pair@.children == views(pair.children@),
                Self::models_all(list@, picks(pair@.children, slot, at as int)),
            decreases pair.children@.len() - at,
        {
            if pair.children[at].slot == slot {
                match Self::from_pair(&pair.children[at]) {
                    Ok(node) => {
                        list.push(node);
                    },
                    Err(error) => {
                        proof {
                            lemma_picks_prefix(
                                pair@.children,
                                slot,
                                at + 1,
                                pair@.children.len() as int,
                            );
                            let pairs = pair@.all(slot);
                            let bad = picks(pair@.children, slot, at as int).len() as int;
                            assert(pairs[bad] == pair.children@[at as int]@);
                            assert(pair@.children[at as int] == pair.children@[at as int]@);
                            assert forall|list: Seq<Self>| !Self::models_all(list, pairs) by {
                                if Self::models_all(list, pairs) {
                                    assert(list[bad].models(pairs[bad]));
                                }
                            }
                        }
                        return Err(error);
                    },
                }
            }
            at = at + 1;
        }
        Ok(list)
    }

    /// Parse `input` from the rule `EventStatement` and build the node from the
    /// tree. The text is refused exactly where the rule does not match at its
    /// start, with the error of the parser: what the rule matches always has a
    /// typed form.
    pub fn from_text(input: &str) -> (res: Result<Self, LifeError>)
        ensures
            match spec_parse_cst(input@, LifeRestartRule::EventStatement) {
                Ok(tree) => res matches Ok(node) && node.models(tree),
                Err(at) => res matches Err(error) && error.is_syntax(
                    expected(LifeRestartRule::EventStatement),
                    at as int,
                    at as int,
                ),
            },
    {
        proof {
            lemma_rule_fits(input@, LifeRestartRule::EventStatement, 0);
        }
        match parse_cst(input, LifeRestartRule::EventStatement) {
            Ok(pair) => Self::from_pair(&pair),
            Err(error) => Err(error),
        }
    }

    /// The byte range of the node, where it has one.
    pub open spec fn spec_get_range(&self) -> Option<Range<usize>> {
        Some(self.span)
    }

    /// The byte range of the node, where it has one.
    pub fn get_range(&self) -> (range: Option<Range<usize>>)
        ensures
            range == self.spec_get_range(),
    {
        Some(Range { start: self.span.start, end: self.span.end })
    }
}

impl std::str::FromStr for EventStatementNode {
    type Err = LifeError;

    /// Parse `input` as this node: the result of `from_text`.
    fn from_str(input: &str) -> (res: Result<Self, LifeError>)
        ensures
            match spec_parse_cst(input@, LifeRestartRule::EventStatement) {
                Ok(tree) => res matches Ok(node) && node.models(tree),
                Err(at) => res matches Err(error) && error.is_syntax(
                    expected(LifeRestartRule::EventStatement),
                    at as int,
                    at as int,
                ),
            },
    {
        Self::from_text(input)
    }
}

impl EventItemNode {
    /// True when this node is the typed form of the tree `pair`: it is the first
    /// alternative, in the order of the declaration, whose slot is filled.
    pub open spec fn models(&self, pair: CstTree) -> bool {
        match self {
            Self::DescriptionStatement(node) => {
                &&& pair.one(Slot::DescriptionStatement) matches Some(child) && node.models(child)
            },
            Self::IdStatement(node) => {
                &&& pair.one(Slot::DescriptionStatement) is None
                &&& pair.one(Slot::IdStatement) matches Some(child) && node.models(child)
            },
            Self::OptionStatement(node) => {
                &&& pair.one(Slot::DescriptionStatement) is None
                &&& pair.one(Slot::IdStatement) is None
                &&& pair.one(Slot::OptionStatement) matches Some(child) && node.models(child)
            },
            Self::RequirementStatement(node) => {
                &&& pair.one(Slot::DescriptionStatement) is None
                &&& pair.one(Slot::IdStatement) is None
                &&& pair.one(Slot::OptionStatement) is None
                &&& pair.one(Slot::RequirementStatement) matches Some(child) && node.models(child)
            },
        }
    }

    /// True when the tree `pair` itself cannot be a node of this type: the slot of
    /// no alternative is filled.
    pub open spec fn lacks(pair: CstTree) -> bool {
        pair.one(Slot::DescriptionStatement) is None
            && pair.one(Slot::IdStatement) is None
            && pair.one(Slot::OptionStatement) is None
            && pair.one(Slot::RequirementStatement) is None
    }

    /// Build the node from a tree of the rule `EventItem`. The tree is refused with
    /// a syntax error where no node is its typed form; where that is the fault of
    /// the tree itself, the error names this rule and has the span of the tree.
    pub fn from_pair(pair: &CstNode) -> (res: Result<Self, LifeError>)
        ensures
            res matches Ok(node) ==> node.models(pair@),
            res is Err ==> forall|node: Self| !node.models(pair@),
            res matches Err(error) ==> error.is_syntax_error(),
            Self::lacks(pair@) ==> {
                &&& res matches Err(error)
                &&& error.is_syntax(
                    invalid_node(LifeRestartRule::EventItem),
                    pair@.start as int,
                    pair@.end as int,
                )
            },
            fits(pair@, LifeRestartRule::EventItem) ==> res is Ok,
    {
        broadcast use group_views;

        match pair.find_first(Slot::DescriptionStatement) {
            Some(at) => {
                match DescriptionStatementNode::from_pair(&pair.children[at]) {
                    Ok(node) => {
                        return Ok(Self::DescriptionStatement(node));
                    },
                    Err(error) => {
                        proof {
                            assert forall|node: Self| !node.models(pair@) by {
                                if node.models(pair@) {
                                    match node {
                                        Self::DescriptionStatement(inner) => {
                                            assert(inner.models(pair.children@[at as int]@));
                                        },
                                        _ => {},
                                    }
                                }
                            }
                            if fits(pair@, LifeRestartRule::EventItem) {
                                lemma_fits(pair@, LifeRestartRule::EventItem);
                                assert(
                                    fits_in(pair@.children[at as int], LifeRestartRule::EventItem)
                                );
                            }
                        }
                        return Err(error);
                    },
                }
            },
            None => {},
        }
        match pair.find_first(Slot::IdStatement) {
            Some(at) => {
                match IdStatementNode::from_pair(&pair.children[at]) {
                    Ok(node) => {
                        return Ok(Self::IdStatement(node));
                    },
                    Err(error) => {
                        proof {
                            assert forall|node: Self| !node.models(pair@) by {
                                if node.models(pair@) {
                                    match node {
                                        Self::IdStatement(inner) => {
                                            assert(inner.models(pair.children@[at as int]@));
                                        },
                                        _ => {},
                                    }
                                }
                            }
                            if fits(pair@, LifeRestartRule::EventItem) {
                                lemma_fits(pair@, LifeRestartRule::EventItem);
                                assert(
                                    fits_in(pair@.children[at as int], LifeRestartRule::EventItem)
                                );
                            }
                        }
                        return Err(error);
                    },
                }
            },
            None => {},
        }
        match pair.find_first(Slot::OptionStatement) {
            Some(at) => {
                match OptionStatementNode::from_pair(&pair.children[at]) {
                    Ok(node) => {
                        return Ok(Self::OptionStatement(node));
                    },
                    Err(error) => {
                        proof {
                            assert forall|node: Self| !node.models(pair@) by {
                                if node.models(pair@) {
                                    match node {
                                        Self::OptionStatement(inner) => {
                                            assert(inner.models(pair.children@[at as int]@));
                                        },
                                        _ => {},
                                    }
                                }
                            }
                            if fits(pair@, LifeRestartRule::EventItem) {
                                lemma_fits(pair@, LifeRestartRule::EventItem);
                                assert(
                                    fits_in(pair@.children[at as int], LifeRestartRule::EventItem)
                                );
                            }
                        }
                        return Err(error);
                    },
                }
            },
            None => {},
        }
        match pair.find_first(Slot::RequirementStatement) {
            Some(at) => {
                match RequirementStatementNode::from_pair(&pair.children[at]) {
                    Ok(node) => {
                        return Ok(Self::RequirementStatement(node));
                    },
                    Err(error) => {
                        proof {
                            assert forall|node: Self| !node.models(pair@) by {
                                if node.models(pair@) {
                                    match node {
                                        Self::RequirementStatement(inner) => {
                                            assert(inner.models(pair.children@[at as int]@));
                                        },
                                        _ => {},
                                    }
                                }
                            }
                            if fits(pair@, LifeRestartRule::EventItem) {
                                lemma_fits(pair@, LifeRestartRule::EventItem);
                                assert(
                                    fits_in(pair@.children[at as int], LifeRestartRule::EventItem)
                                );
                            }
                        }
                        return Err(error);
                    },
                }
            },
            None => {},
        }
        Err(refuse(LifeRestartRule::EventItem, pair))
    }

    /// True when the nodes of `list` are the typed forms of the trees of `pairs`,
    /// one for one.
    pub open spec fn models_all(list: Seq<Self>, pairs: Seq<CstTree>) -> bool {
        &&& list.len() == pairs.len()
        &&& forall|at: int| 0 <= at < list.len() ==> (#[trigger] list[at]).models(pairs[at])
    }

    /// Build the nodes from the children of `pair` that fill `slot`, in order.
    pub fn take_all(pair: &CstNode, slot: Slot) -> (res: Result<Vec<Self>, LifeError>)
        ensures
            res matches Ok(list) ==> Self::models_all(list@, pair@.all(slot)),
            res is Err ==> forall|list: Seq<Self>| !Self::models_all(list, pair@.all(slot)),
            res matches Err(error) ==> error.is_syntax_error(),
            (
                forall|at: int| 0 <= at < pair@.children.len()
                    && (#[trigger] pair@.children[at]).slot == slot
                    ==> fits(pair@.children[at], LifeRestartRule::EventItem)
            )
                ==> res is Ok,
    {
        broadcast use group_views;

        let mut list: Vec<Self> = Vec::new();
        let mut at: usize = 0;
        while at < pair.children.len()
            invariant
                at <= pair.children@.len(),
                pair@.children == views(pair.children@),
                Self::models_all(list@, picks(pair@.children, slot, at as int)),
            decreases pair.children@.len() - at,
        {
            if pair.children[at].slot == slot {
                match Self::from_pair(&pair.children[at]) {
                    Ok(node) => {
                        list.push(node);
                    },
                    Err(error) => {
                        proof {
                            lemma_picks_prefix(
                                pair@.children,
                                slot,
                                at + 1,
                                pair@.children.len() as int,
                            );
                            let pairs = pair@.all(slot);
                            let bad = picks(pair@.children, slot, at as int).len() as int;
                            assert(pairs[bad] == pair.children@[at as int]@);
                            assert(pair@.children[at as int] == pair.children@[at as int]@);
                            assert forall|list: Seq<Self>| !Self::models_all(list, pairs) by {
                                if Self::models_all(list, pairs) {
                                    assert(list[bad].models(pairs[bad]));
                                }
                            }
                        }
                        return Err(error);
                    },
                }
            }
            at = at + 1;
        }
        Ok(list)
    }

    /// Parse `input` from the rule `EventItem` and build the node from the tree.
    /// The text is refused exactly where the rule does not match at its start, with
    /// the error of the parser: what the rule matches always has a typed form.
    pub fn from_text(input: &str) -> (res: Result<Self, LifeError>)
        ensures
            match spec_parse_cst(input@, LifeRestartRule::EventItem) {
                Ok(tree) => res matches Ok(node) && node.models(tree),
                Err(at) => res matches Err(error) && error.is_syntax(
                    expected(LifeRestartRule::EventItem),
                    at as int,
                    at as int,
                ),
            },
    {
        proof {
            lemma_rule_fits(input@, LifeRestartRule::EventItem, 0);
        }
        match parse_cst(input, LifeRestartRule::EventItem) {
            Ok(pair) => Self::from_pair(&pair),
            Err(error) => Err(error),
        }
    }

    /// The byte range of the node, where it has one.
    pub open spec fn spec_get_range(&self) -> Option<Range<usize>> {
        match self {
            Self::DescriptionStatement(node) => node.spec_get_range(),
            Self::IdStatement(node) => node.spec_get_range(),
            Self::OptionStatement(node) => node.spec_get_range(),
            Self::RequirementStatement(node) => node.spec_get_range(),
        }
    }

    /// The byte range of the node, where it has one.
    pub fn get_range(&self) -> (range: Option<Range<usize>>)
        ensures
            range == self.spec_get_range(),
    {
        match self {
            Self::DescriptionStatement(node) => node.get_range(),
            Self::IdStatement(node) => node.get_range(),
            Self::OptionStatement(node) => node.get_range(),
            Self::RequirementStatement(node) => node.get_range(),
        }
    }
}

impl std::str::FromStr for EventItemNode {
    type Err = LifeError;

    /// Parse `input` as this node: the result of `from_text`.
    fn from_str(input: &str) -> (res: Result<Self, LifeError>)
        ensures
            match spec_parse_cst(input@, LifeRestartRule::EventItem) {
                Ok(tree) => res matches Ok(node) && node.models(tree),
                Err(at) => res matches Err(error) && error.is_syntax(
                    expected(LifeRestartRule::EventItem),
                    at as int,
                    at as int,
                ),
            },
    {
        Self::from_text(input)
    }
}

impl EventPropertyNode {
    /// True when this node is the typed form of the tree `pair`: it has the span of
    /// the tree, and every field holds the typed form of what fills its slot.
    pub open spec fn models(&self, pair: CstTree) -> bool {
        &&& self.span.start == pair.start
        &&& self.span.end == pair.end
        &&& pair.one(Slot::Identifier) matches Some(child) && self.identifier.models(child)
    }

    /// True when the tree `pair` itself cannot be a node of this type: a slot that
    /// has to be filled is empty.
    pub open spec fn lacks(pair: CstTree) -> bool {
        pair.one(Slot::Identifier) is None
    }

    /// Build the node from a tree of the rule `EventProperty`. The tree is refused
    /// with a syntax error where no node is its typed form; where that is the fault
    /// of the tree itself, the error names this rule and has the span of the tree.
    pub fn from_pair(pair: &CstNode) -> (res: Result<Self, LifeError>)
        ensures
            res matches Ok(node) ==> node.models(pair@),
            res is Err ==> forall|node: Self| !node.models(pair@),
            res matches Err(error) ==> error.is_syntax_error(),
            Self::lacks(pair@) ==> {
                &&& res matches Err(error)
                &&& error.is_syntax(
                    invalid_node(LifeRestartRule::EventProperty),
                    pair@.start as int,
                    pair@.end as int,
                )
            },
            fits(pair@, LifeRestartRule::EventProperty) ==> res is Ok,
    {
        broadcast use group_views;

        let identifier_at = match pair.find_first(Slot::Identifier) {
            Some(at) => at,
            None => {
                return Err(refuse(LifeRestartRule::EventProperty, pair));
            },
        };
        let identifier = match IdentifierNode::from_pair(&pair.children[identifier_at]) {
            Ok(node) => node,
            Err(error) => {
                proof {
                    assert forall|node: Self| !node.models(pair@) by {
                        if node.models(pair@) {
                            assert(node.identifier.models(pair.children@[identifier_at as int]@));
                        }
                    }
                    if fits(pair@, LifeRestartRule::EventProperty) {
                        lemma_fits(pair@, LifeRestartRule::EventProperty);
                        assert(
                            fits_in(
                                pair@.children[identifier_at as int],
                                LifeRestartRule::EventProperty,
                            )
                        );
                    }
                }
                return Err(error);
            },
        };
        Ok(
            EventPropertyNode {
                identifier,
                span: Range { start: pair.span.start, end: pair.span.end },
            }
        )
    }

    /// Parse `input` from the rule `EventProperty` and build the node from the
    /// tree. The text is refused exactly where the rule does not match at its
    /// start, with the error of the parser: what the rule matches always has a
    /// typed form.
    pub fn from_text(input: &str) -> (res: Result<Self, LifeError>)
        ensures
            match spec_parse_cst(input@, LifeRestartRule::EventProperty) {
                Ok(tree) => res matches Ok(node) && node.models(tree),
                Err(at) => res matches Err(error) && error.is_syntax(
                    expected(LifeRestartRule::EventProperty),
                    at as int,
                    at as int,
                ),
            },
    {
        proof {
            lemma_rule_fits(input@, LifeRestartRule::EventProperty, 0);
        }
        match parse_cst(input, LifeRestartRule::EventProperty) {
            Ok(pair) => Self::from_pair(&pair),
            Err(error) => Err(error),
        }
    }

    /// The byte range of the node, where it has one.
    pub open spec fn spec_get_range(&self) -> Option<Range<usize>> {
        Some(self.span)
    }

    /// The byte range of the node, where it has one.
    pub fn get_range(&self) -> (range: Option<Range<usize>>)
        ensures
            range == self.spec_get_range(),
    {
        Some(Range { start: self.span.start, end: self.span.end })
    }
}

impl std::str::FromStr for EventPropertyNode {
    type Err = LifeError;

    /// Parse `input` as this node: the result of `from_text`.
    fn from_str(input: &str) -> (res: Result<Self, LifeError>)
        ensures
            match spec_parse_cst(input@, LifeRestartRule::EventProperty) {
                Ok(tree) => res matches Ok(node) && node.models(tree),
                Err(at) => res matches Err(error) && error.is_syntax(
                    expected(LifeRestartRule::EventProperty),
                    at as int,
                    at as int,
                ),
            },
    {
        Self::from_text(input)
    }
}

impl IdStatementNode {
    /// True when this node is the typed form of the tree `pair`: it has the span of
    /// the tree, and every field holds the typed form of what fills its slot.
    pub open spec fn models(&self, pair: CstTree) -> bool {
        &&& self.span.start == pair.start
        &&& self.span.end == pair.end
        &&& pair.one(Slot::Integer) matches Some(child) && self.integer.models(child)
    }

    /// True when the tree `pair` itself cannot be a node of this type: a slot that
    /// has to be filled is empty.
    pub open spec fn lacks(pair: CstTree) -> bool {
        pair.one(Slot::Integer) is None
    }

    /// Build the node from a tree of the rule `IdStatement`. The tree is refused
    /// with a syntax error where no node is its typed form; where that is the fault
    /// of the tree itself, the error names this rule and has the span of the tree.
    pub fn from_pair(pair: &CstNode) -> (res: Result<Self, LifeError>)
        ensures
            res matches Ok(node) ==> node.models(pair@),
            res is Err ==> forall|node: Self| !node.models(pair@),
            res matches Err(error) ==> error.is_syntax_error(),
            Self::lacks(pair@) ==> {
                &&& res matches Err(error)
                &&& error.is_syntax(
                    invalid_node(LifeRestartRule::IdStatement),
                    pair@.start as int,
                    pair@.end as int,
                )
            },
            fits(pair@, LifeRestartRule::IdStatement) ==> res is Ok,
    {
        broadcast use group_views;

        let integer_at = match pair.find_first(Slot::Integer) {
            Some(at) => at,
            None => {
                return Err(refuse(LifeRestartRule::IdStatement, pair));
            },
        };
        let integer = match IntegerNode::from_pair(&pair.children[integer_at]) {
            Ok(node) => node,
            Err(error) => {
                proof {
                    assert forall|node: Self| !node.models(pair@) by {
                        if node.models(pair@) {
                            assert(node.integer.models(pair.children@[integer_at as int]@));
                        }
                    }
                    if fits(pair@, LifeRestartRule::IdStatement) {
                        lemma_fits(pair@, LifeRestartRule::IdStatement);
                        assert(
                            fits_in(pair@.children[integer_at as int], LifeRestartRule::IdStatement)
                        );
                    }
                }
                return Err(error);
            },
        };
        Ok(IdStatementNode { integer, span: Range { start: pair.span.start, end: pair.span.end } })
    }

    /// Parse `input` from the rule `IdStatement` and build the node from the tree.
    /// The text is refused exactly where the rule does not match at its start, with
    /// the error of the parser: what the rule matches always has a typed form.
    pub fn from_text(input: &str) -> (res: Result<Self, LifeError>)
        ensures
            match spec_parse_cst(input@, LifeRestartRule::IdStatement) {
                Ok(tree) => res matches Ok(node) && node.models(tree),
                Err(at) => res matches Err(error) && error.is_syntax(
                    expected(LifeRestartRule::IdStatement),
                    at as int,
                    at as int,
                ),
            },
    {
        proof {
            lemma_rule_fits(input@, LifeRestartRule::IdStatement, 0);
        }
        match parse_cst(input, LifeRestartRule::IdStatement) {
            Ok(pair) => Self::from_pair(&pair),
            Err(error) => Err(error),
        }
    }

    /// The byte range of the node, where it has one.
    pub open spec fn spec_get_range(&self) -> Option<Range<usize>> {
        Some(self.span)
    }

    /// The byte range of the node, where it has one.
    pub fn get_range(&self) -> (range: Option<Range<usize>>)
        ensures
            range == self.spec_get_range(),
    {
        Some(Range { start: self.span.start, end: self.span.end })
    }
}

impl std::str::FromStr for IdStatementNode {
    type Err = LifeError;

    /// Parse `input` as this node: the result of `from_text`.
    fn from_str(input: &str) -> (res: Result<Self, LifeError>)
        ensures
            match spec_parse_cst(input@, LifeRestartRule::IdStatement) {
                Ok(tree) => res matches Ok(node) && node.models(tree),
                Err(at) => res matches Err(error) && error.is_syntax(
                    expected(LifeRestartRule::IdStatement),
                    at as int,
                    at as int,
                ),
            },
    {
        Self::from_text(input)
    }
}

impl DescriptionStatementNode {
    /// True when this node is the typed form of the tree `pair`: it has the span of
    /// the tree, and every field holds the typed form of what fills its slot.
    pub open spec fn models(&self, pair: CstTree) -> bool {
        &&& self.span.start == pair.start
        &&& self.span.end == pair.end
        &&& self.string@.len() == pair.all(Slot::String).len()
        &&& forall|at: int|
        0 <= at < self.string@.len() ==> (#[trigger] self.string@[at]).models(
            pair.all(Slot::String)[at],
        )
    }

    /// Build the node from a tree of the rule `DescriptionStatement`. The tree is
    /// refused with a syntax error where no node is its typed form; where that is
    /// the fault of the tree itself, the error names this rule and has the span of
    /// the tree.
    pub fn from_pair(pair: &CstNode) -> (res: Result<Self, LifeError>)
        ensures
            res matches Ok(node) ==> node.models(pair@),
            res is Err ==> forall|node: Self| !node.models(pair@),
            res matches Err(error) ==> error.is_syntax_error(),
            fits(pair@, LifeRestartRule::DescriptionStatement) ==> res is Ok,
    {
        broadcast use group_views;

        let string = match StringNode::take_all(pair, Slot::String) {
            Ok(list) => list,
            Err(error) => {
                proof {
                    assert forall|node: Self| !node.models(pair@) by {
                        if node.models(pair@) {
                            assert(StringNode::models_all(node.string@, pair@.all(Slot::String)));
                        }
                    }
                    if fits(pair@, LifeRestartRule::DescriptionStatement) {
                        lemma_fits(pair@, LifeRestartRule::DescriptionStatement);
                        assert forall|at: int| 0 <= at < pair@.children.len()
                            && (#[trigger] pair@.children[at]).slot
                                == Slot::String implies fits(
                                    pair@.children[at],
                                    LifeRestartRule::String,
                                ) by {
                            assert(
                                fits_in(pair@.children[at], LifeRestartRule::DescriptionStatement)
                            );
                        }
                    }
                }
                return Err(error);
            },
        };
        Ok(
            DescriptionStatementNode {
                string,
                span: Range { start: pair.span.start, end: pair.span.end },
            }
        )
    }

    /// Parse `input` from the rule `DescriptionStatement` and build the node from
    /// the tree. The text is refused exactly where the rule does not match at its
    /// start, with the error of the parser: what the rule matches always has a
    /// typed form.
    pub fn from_text(input: &str) -> (res: Result<Self, LifeError>)
        ensures
            match spec_parse_cst(input@, LifeRestartRule::DescriptionStatement) {
                Ok(tree) => res matches Ok(node) && node.models(tree),
                Err(at) => res matches Err(error) && error.is_syntax(
                    expected(LifeRestartRule::DescriptionStatement),
                    at as int,
                    at as int,
                ),
            },
    {
        proof {
            lemma_rule_fits(input@, LifeRestartRule::DescriptionStatement, 0);
        }
        match parse_cst(input, LifeRestartRule::DescriptionStatement) {
            Ok(pair) => Self::from_pair(&pair),
            Err(error) => Err(error),
        }
    }

    /// The byte range of the node, where it has one.
    pub open spec fn spec_get_range(&self) -> Option<Range<usize>> {
        Some(self.span)
    }

    /// The byte range of the node, where it has one.
    pub fn get_range(&self) -> (range: Option<Range<usize>>)
        ensures
            range == self.spec_get_range(),
    {
        Some(Range { start: self.span.start, end: self.span.end })
    }
}

impl std::str::FromStr for DescriptionStatementNode {
    type Err = LifeError;

    /// Parse `input` as this node: the result of `from_text`.
    fn from_str(input: &str) -> (res: Result<Self, LifeError>)
        ensures
            match spec_parse_cst(input@, LifeRestartRule::DescriptionStatement) {
                Ok(tree) => res matches Ok(node) && node.models(tree),
                Err(at) => res matches Err(error) && error.is_syntax(
                    expected(LifeRestartRule::DescriptionStatement),
                    at as int,
                    at as int,
                ),
            },
    {
        Self::from_text(input)
    }
}

impl StatementNode {
    /// True when this node is the typed form of the tree `pair`: it is the first
    /// alternative, in the order of the declaration, whose slot is filled.
    pub open spec fn models(&self, pair: CstTree) -> bool
        decreases self,
    {
        match self {
            Self::Eos(node) => {
                &&& pair.one(Slot::Eos) matches Some(child) && node.models(child)
            },
            Self::Expression(node) => {
                &&& pair.one(Slot::Eos) is None
                &&& pair.one(Slot::Expression) matches Some(child) && node.models(child)
            },
            Self::IfStatement(node) => {
                &&& pair.one(Slot::Eos) is None
                &&& pair.one(Slot::Expression) is None
                &&& pair.one(Slot::IfStatement) matches Some(child) && node.models(child)
            },
        }
    }

    /// True when the tree `pair` itself cannot be a node of this type: the slot of
    /// no alternative is filled.
    pub open spec fn lacks(pair: CstTree) -> bool {
        pair.one(Slot::Eos) is None
            && pair.one(Slot::Expression) is None
            && pair.one(Slot::IfStatement) is None
    }

    /// Build the node from a tree of the rule `Statement`. The tree is refused with
    /// a syntax error where no node is its typed form; where that is the fault of
    /// the tree itself, the error names this rule and has the span of the tree.
    pub fn from_pair(pair: &CstNode) -> (res: Result<Self, LifeError>)
        ensures
            res matches Ok(node) ==> node.models(pair@),
            res is Err ==> forall|node: Self| !node.models(pair@),
            res matches Err(error) ==> error.is_syntax_error(),
            Self::lacks(pair@) ==> {
                &&& res matches Err(error)
                &&& error.is_syntax(
                    invalid_node(LifeRestartRule::Statement),
                    pair@.start as int,
                    pair@.end as int,
                )
            },
            fits(pair@, LifeRestartRule::Statement) ==> res is Ok,
        decreases pair, 1nat,
    {
        broadcast use group_views;

        match pair.find_first(Slot::Eos) {
            Some(at) => {
                match EosNode::from_pair(&pair.children[at]) {
                    Ok(node) => {
                        return Ok(Self::Eos(node));
                    },
                    Err(error) => {
                        proof {
                            assert forall|node: Self| !node.models(pair@) by {
                                if node.models(pair@) {
                                    match node {
                                        Self::Eos(inner) => {
                                            assert(inner.models(pair.children@[at as int]@));
                                        },
                                        _ => {},
                                    }
                                }
                            }
                            if fits(pair@, LifeRestartRule::Statement) {
                                lemma_fits(pair@, LifeRestartRule::Statement);
                                assert(
                                    fits_in(pair@.children[at as int], LifeRestartRule::Statement)
                                );
                            }
                        }
                        return Err(error);
                    },
                }
            },
            None => {},
        }
        match pair.find_first(Slot::Expression) {
            Some(at) => {
                match ExpressionNode::from_pair(&pair.children[at]) {
                    Ok(node) => {
                        return Ok(Self::Expression(node));
                    },
                    Err(error) => {
                        proof {
                            assert forall|node: Self| !node.models(pair@) by {
                                if node.models(pair@) {
                                    match node {
                                        Self::Expression(inner) => {
                                            assert(inner.models(pair.children@[at as int]@));
                                        },
                                        _ => {},
                                    }
                                }
                            }
                            if fits(pair@, LifeRestartRule::Statement) {
                                lemma_fits(pair@, LifeRestartRule::Statement);
                                assert(
                                    fits_in(pair@.children[at as int], LifeRestartRule::Statement)
                                );
                            }
                        }
                        return Err(error);
                    },
                }
            },
            None => {},
        }
        match pair.find_first(Slot::IfStatement) {
            Some(at) => {
                match IfStatementNode::from_pair(&pair.children[at]) {
                    Ok(node) => {
                        return Ok(Self::IfStatement(node));
                    },
                    Err(error) => {
                        proof {
                            assert forall|node: Self| !node.models(pair@) by {
                                if node.models(pair@) {
                                    match node {
                                        Self::IfStatement(inner) => {
                                            assert(inner.models(pair.children@[at as int]@));
                                        },
                                        _ => {},
                                    }
                                }
                            }
                            if fits(pair@, LifeRestartRule::Statement) {
                                lemma_fits(pair@, LifeRestartRule::Statement);
                                assert(
                                    fits_in(pair@.children[at as int], LifeRestartRule::Statement)
                                );
                            }
                        }
                        return Err(error);
                    },
                }
            },
            None => {},
        }
        Err(refuse(LifeRestartRule::Statement, pair))
    }

    /// True when the nodes of `list` are the typed forms of the trees of `pairs`,
    /// one for one.
    pub open spec fn models_all(list: Seq<Self>, pairs: Seq<CstTree>) -> bool {
        &&& list.len() == pairs.len()
        &&& forall|at: int| 0 <= at < list.len() ==> (#[trigger] list[at]).models(pairs[at])
    }

    /// Build the nodes from the children of `pair` that fill `slot`, in order.
    pub fn take_all(pair: &CstNode, slot: Slot) -> (res: Result<Vec<Self>, LifeError>)
        ensures
            res matches Ok(list) ==> Self::models_all(list@, pair@.all(slot)),
            res is Err ==> forall|list: Seq<Self>| !Self::models_all(list, pair@.all(slot)),
            res matches Err(error) ==> error.is_syntax_error(),
            (
                forall|at: int| 0 <= at < pair@.children.len()
                    && (#[trigger] pair@.children[at]).slot == slot
                    ==> fits(pair@.children[at], LifeRestartRule::Statement)
            )
                ==> res is Ok,
        decreases pair, 0nat,
    {
        broadcast use group_views;

        let mut list: Vec<Self> = Vec::new();
        let mut at: usize = 0;
        while at < pair.children.len()
            invariant
                at <= pair.children@.len(),
                pair@.children == views(pair.children@),
                Self::models_all(list@, picks(pair@.children, slot, at as int)),
            decreases pair.children@.len() - at,
        {
            if pair.children[at].slot == slot {
                match Self::from_pair(&pair.children[at]) {
                    Ok(node) => {
                        list.push(node);
                    },
                    Err(error) => {
                        proof {
                            lemma_picks_prefix(
                                pair@.children,
                                slot,
                                at + 1,
                                pair@.children.len() as int,
                            );
                            let pairs = pair@.all(slot);
                            let bad = picks(pair@.children, slot, at as int).len() as int;
                            assert(pairs[bad] == pair.children@[at as int]@);
                            assert(pair@.children[at as int] == pair.children@[at as int]@);
                            assert forall|list: Seq<Self>| !Self::models_all(list, pairs) by {
                                if Self::models_all(list, pairs) {
                                    assert(list[bad].models(pairs[bad]));
                                }
                            }
                        }
                        return Err(error);
                    },
                }
            }
            at = at + 1;
        }
        Ok(list)
    }

    /// Parse `input` from the rule `Statement` and build the node from the tree.
    /// The text is refused exactly where the rule does not match at its start, with
    /// the error of the parser: what the rule matches always has a typed form.
    pub fn from_text(input: &str) -> (res: Result<Self, LifeError>)
        ensures
            match spec_parse_cst(input@, LifeRestartRule::Statement) {
                Ok(tree) => res matches Ok(node) && node.models(tree),
                Err(at) => res matches Err(error) && error.is_syntax(
                    expected(LifeRestartRule::Statement),
                    at as int,
                    at as int,
                ),
            },
    {
        proof {
            lemma_rule_fits(input@, LifeRestartRule::Statement, 0);
        }
        match parse_cst(input, LifeRestartRule::Statement) {
            Ok(pair) => Self::from_pair(&pair),
            Err(error) => Err(error),
        }
    }

    /// The byte range of the node, where it has one.
    pub open spec fn spec_get_range(&self) -> Option<Range<usize>> {
        match self {
            Self::Eos(node) => node.spec_get_range(),
            Self::Expression(node) => node.spec_get_range(),
            Self::IfStatement(node) => node.spec_get_range(),
        }
    }

    /// The byte range of the node, where it has one.
    pub fn get_range(&self) -> (range: Option<Range<usize>>)
        ensures
            range == self.spec_get_range(),
    {
        match self {
            Self::Eos(node) => node.get_range(),
            Self::Expression(node) => node.get_range(),
            Self::IfStatement(node) => node.get_range(),
        }
    }
}

impl std::str::FromStr for StatementNode {
    type Err = LifeError;

    /// Parse `input` as this node: the result of `from_text`.
    fn from_str(input: &str) -> (res: Result<Self, LifeError>)
        ensures
            match spec_parse_cst(input@, LifeRestartRule::Statement) {
                Ok(tree) => res matches Ok(node) && node.models(tree),
                Err(at) => res matches Err(error) && error.is_syntax(
                    expected(LifeRestartRule::Statement),
                    at as int,
                    at as int,
                ),
            },
    {
        Self::from_text(input)
    }
}

impl IfStatementNode {
    /// True when this node is the typed form of the tree `pair`: it has the span of
    /// the tree, and every field holds the typed form of what fills its slot.
    pub open spec fn models(&self, pair: CstTree) -> bool
        decreases self,
    {
        &&& self.span.start == pair.start
        &&& self.span.end == pair.end
        &&& match self.if_else_block {
            Some(node) => pair.one(Slot::IfElseBlock) matches Some(child) && node.models(child),
            None => pair.one(Slot::IfElseBlock) is None,
        }
        &&& match self.if_else_if_block {
            Some(node) => pair.one(Slot::IfElseIfBlock) matches Some(child) && node.models(child),
            None => pair.one(Slot::IfElseIfBlock) is None,
        }
        &&& pair.one(Slot::IfThenBlock) matches Some(child) && self.if_then_block.models(child)
    }

    /// True when the tree `pair` itself cannot be a node of this type: a slot that
    /// has to be filled is empty.
    pub open spec fn lacks(pair: CstTree) -> bool {
        pair.one(Slot::IfThenBlock) is None
    }

    /// Build the node from a tree of the rule `IfStatement`. The tree is refused
    /// with a syntax error where no node is its typed form; where that is the fault
    /// of the tree itself, the error names this rule and has the span of the tree.
    pub fn from_pair(pair: &CstNode) -> (res: Result<Self, LifeError>)
        ensures
            res matches Ok(node) ==> node.models(pair@),
            res is Err ==> forall|node: Self| !node.models(pair@),
            res matches Err(error) ==> error.is_syntax_error(),
            Self::lacks(pair@) ==> {
                &&& res matches Err(error)
                &&& error.is_syntax(
                    invalid_node(LifeRestartRule::IfStatement),
                    pair@.start as int,
                    pair@.end as int,
                )
            },
            fits(pair@, LifeRestartRule::IfStatement) ==> res is Ok,
        decreases pair, 1nat,
    {
        broadcast use group_views;

        let if_then_block_at = match pair.find_first(Slot::IfThenBlock) {
            Some(at) => at,
            None => {
                return Err(refuse(LifeRestartRule::IfStatement, pair));
            },
        };
        let if_else_block = match IfElseBlockNode::take_one(pair, Slot::IfElseBlock) {
            Ok(node) => node,
            Err(error) => {
                proof {
                    let child = pair@.one(Slot::IfElseBlock)->0;
                    assert forall|node: Self| !node.models(pair@) by {
                        if node.models(pair@) {
                            match node.if_else_block {
                                Some(inner) => {
                                    assert(inner.models(child));
                                },
                                None => {},
                            }
                        }
                    }
                    if fits(pair@, LifeRestartRule::IfStatement) {
                        lemma_fits(pair@, LifeRestartRule::IfStatement);
                        let at = lemma_first_is_child(pair@.children, Slot::IfElseBlock, 0);
                        assert(fits_in(pair@.children[at], LifeRestartRule::IfStatement));
                    }
                }
                return Err(error);
            },
        };
        let if_else_if_block = match IfElseIfBlockNode::take_one(pair, Slot::IfElseIfBlock) {
            Ok(node) => node,
            Err(error) => {
                proof {
                    let child = pair@.one(Slot::IfElseIfBlock)->0;
                    assert forall|node: Self| !node.models(pair@) by {
                        if node.models(pair@) {
                            match node.if_else_if_block {
                                Some(inner) => {
                                    assert(inner.models(child));
                                },
                                None => {},
                            }
                        }
                    }
                    if fits(pair@, LifeRestartRule::IfStatement) {
                        lemma_fits(pair@, LifeRestartRule::IfStatement);
                        let at = lemma_first_is_child(pair@.children, Slot::IfElseIfBlock, 0);
                        assert(fits_in(pair@.children[at], LifeRestartRule::IfStatement));
                    }
                }
                return Err(error);
            },
        };
        let if_then_block = match IfThenBlockNode::from_pair(&pair.children[if_then_block_at]) {
            Ok(node) => node,
            Err(error) => {
                proof {
                    assert forall|node: Self| !node.models(pair@) by {
                        if node.models(pair@) {
                            assert(
                                node.if_then_block.models(pair.children@[if_then_block_at as int]@)
                            );
                        }
                    }
                    if fits(pair@, LifeRestartRule::IfStatement) {
                        lemma_fits(pair@, LifeRestartRule::IfStatement);
                        assert(
                            fits_in(
                                pair@.children[if_then_block_at as int],
                                LifeRestartRule::IfStatement,
                            )
                        );
                    }
                }
                return Err(error);
            },
        };
        Ok(
            IfStatementNode {
                if_else_block,
                if_else_if_block,
                if_then_block,
                span: Range { start: pair.span.start, end: pair.span.end },
            }
        )
    }

    /// Parse `input` from the rule `IfStatement` and build the node from the tree.
    /// The text is refused exactly where the rule does not match at its start, with
    /// the error of the parser: what the rule matches always has a typed form.
    pub fn from_text(input: &str) -> (res: Result<Self, LifeError>)
        ensures
            match spec_parse_cst(input@, LifeRestartRule::IfStatement) {
                Ok(tree) => res matches Ok(node) && node.models(tree),
                Err(at) => res matches Err(error) && error.is_syntax(
                    expected(LifeRestartRule::IfStatement),
                    at as int,
                    at as int,
                ),
            },
    {
        proof {
            lemma_rule_fits(input@, LifeRestartRule::IfStatement, 0);
        }
        match parse_cst(input, LifeRestartRule::IfStatement) {
            Ok(pair) => Self::from_pair(&pair),
            Err(error) => Err(error),
        }
    }

    /// The byte range of the node, where it has one.
    pub open spec fn spec_get_range(&self) -> Option<Range<usize>> {
        Some(self.span)
    }

    /// The byte range of the node, where it has one.
    pub fn get_range(&self) -> (range: Option<Range<usize>>)
        ensures
            range == self.spec_get_range(),
    {
        Some(Range { start: self.span.start, end: self.span.end })
    }
}

impl std::str::FromStr for IfStatementNode {
    type Err = LifeError;

    /// Parse `input` as this node: the result of `from_text`.
    fn from_str(input: &str) -> (res: Result<Self, LifeError>)
        ensures
            match spec_parse_cst(input@, LifeRestartRule::IfStatement) {
                Ok(tree) => res matches Ok(node) && node.models(tree),
                Err(at) => res matches Err(error) && error.is_syntax(
                    expected(LifeRestartRule::IfStatement),
                    at as int,
                    at as int,
                ),
            },
    {
        Self::from_text(input)
    }
}

impl IfThenBlockNode {
    /// True when this node is the typed form of the tree `pair`: it has the span of
    /// the tree, and every field holds the typed form of what fills its slot.
    pub open spec fn models(&self, pair: CstTree) -> bool
        decreases self,
    {
        &&& self.span.start == pair.start
        &&& self.span.end == pair.end
        &&& pair.one(Slot::Expression) matches Some(child) && self.expression.models(child)
        &&& self.statement@.len() == pair.all(Slot::Statement).len()
        &&& forall|at: int|
        0 <= at < self.statement@.len() ==> (#[trigger] self.statement@[at]).models(
            pair.all(Slot::Statement)[at],
        )
    }

    /// True when the tree `pair` itself cannot be a node of this type: a slot that
    /// has to be filled is empty.
    pub open spec fn lacks(pair: CstTree) -> bool {
        pair.one(Slot::Expression) is None
    }

    /// Build the node from a tree of the rule `IfThenBlock`. The tree is refused
    /// with a syntax error where no node is its typed form; where that is the fault
    /// of the tree itself, the error names this rule and has the span of the tree.
    pub fn from_pair(pair: &CstNode) -> (res: Result<Self, LifeError>)
        ensures
            res matches Ok(node) ==> node.models(pair@),
            res is Err ==> forall|node: Self| !node.models(pair@),
            res matches Err(error) ==> error.is_syntax_error(),
            Self::lacks(pair@) ==> {
                &&& res matches Err(error)
                &&& error.is_syntax(
                    invalid_node(LifeRestartRule::IfThenBlock),
                    pair@.start as int,
                    pair@.end as int,
                )
            },
            fits(pair@, LifeRestartRule::IfThenBlock) ==> res is Ok,
        decreases pair, 1nat,
    {
        broadcast use group_views;

        let expression_at = match pair.find_first(Slot::Expression) {
            Some(at) => at,
            None => {
                return Err(refuse(LifeRestartRule::IfThenBlock, pair));
            },
        };
        let expression = match ExpressionNode::from_pair(&pair.children[expression_at]) {
            Ok(node) => node,
            Err(error) => {
                proof {
                    assert forall|node: Self| !node.models(pair@) by {
                        if node.models(pair@) {
                            assert(node.expression.models(pair.children@[expression_at as int]@));
                        }
                    }
                    if fits(pair@, LifeRestartRule::IfThenBlock) {
                        lemma_fits(pair@, LifeRestartRule::IfThenBlock);
                        assert(
                            fits_in(
                                pair@.children[expression_at as int],
                                LifeRestartRule::IfThenBlock,
                            )
                        );
                    }
                }
                return Err(error);
            },
        };
        let statement = match StatementNode::take_all(pair, Slot::Statement) {
            Ok(list) => list,
            Err(error) => {
                proof {
                    assert forall|node: Self| !node.models(pair@) by {
                        if node.models(pair@) {
                            assert(
                                StatementNode::models_all(
                                    node.statement@,
                                    pair@.all(Slot::Statement),
                                )
                            );
                        }
                    }
                    if fits(pair@, LifeRestartRule::IfThenBlock) {
                        lemma_fits(pair@, LifeRestartRule::IfThenBlock);
                        assert forall|at: int| 0 <= at < pair@.children.len()
                            && (#[trigger] pair@.children[at]).slot
                                == Slot::Statement implies fits(
                                    pair@.children[at],
                                    LifeRestartRule::Statement,
                                ) by {
                            assert(fits_in(pair@.children[at], LifeRestartRule::IfThenBlock));
                        }
                    }
                }
                return Err(error);
            },
        };
        Ok(
            IfThenBlockNode {
                expression,
                statement,
                span: Range { start: pair.span.start, end: pair.span.end },
            }
        )
    }

    /// Build the node from the first child of `pair` that fills `slot`, if there is
    /// one.
    pub fn take_one(pair: &CstNode, slot: Slot) -> (res: Result<Option<Self>, LifeError>)
        ensures
            match pair@.one(slot) {
                Some(child) => {
                    &&& res matches Ok(found) ==> found matches Some(node) && node.models(child)
                    &&& res is Err ==> forall|node: Self| !node.models(child)
                },
                None => res matches Ok(found) && found is None,
            },
            res matches Err(error) ==> error.is_syntax_error(),
            (pair@.one(slot) matches Some(child) ==> fits(child, LifeRestartRule::IfThenBlock))
                ==> res is Ok,
        decreases pair, 0nat,
    {
        broadcast use group_views;

        match pair.find_first(slot) {
            Some(at) => match Self::from_pair(&pair.children[at]) {
                Ok(node) => Ok(Some(node)),
                Err(error) => Err(error),
            },
            None => Ok(None),
        }
    }

    /// Parse `input` from the rule `IfThenBlock` and build the node from the tree.
    /// The text is refused exactly where the rule does not match at its start, with
    /// the error of the parser: what the rule matches always has a typed form.
    pub fn from_text(input: &str) -> (res: Result<Self, LifeError>)
        ensures
            match spec_parse_cst(input@, LifeRestartRule::IfThenBlock) {
                Ok(tree) => res matches Ok(node) && node.models(tree),
                Err(at) => res matches Err(error) && error.is_syntax(
                    expected(LifeRestartRule::IfThenBlock),
                    at as int,
                    at as int,
                ),
            },
    {
        proof {
            lemma_rule_fits(input@, LifeRestartRule::IfThenBlock, 0);
        }
        match parse_cst(input, LifeRestartRule::IfThenBlock) {
            Ok(pair) => Self::from_pair(&pair),
            Err(error) => Err(error),
        }
    }

    /// The byte range of the node, where it has one.
    pub open spec fn spec_get_range(&self) -> Option<Range<usize>> {
        Some(self.span)
    }

    /// The byte range of the node, where it has one.
    pub fn get_range(&self) -> (range: Option<Range<usize>>)
        ensures
            range == self.spec_get_range(),
    {
        Some(Range { start: self.span.start, end: self.span.end })
    }
}

impl std::str::FromStr for IfThenBlockNode {
    type Err = LifeError;

    /// Parse `input` as this node: the result of `from_text`.
    fn from_str(input: &str) -> (res: Result<Self, LifeError>)
        ensures
            match spec_parse_cst(input@, LifeRestartRule::IfThenBlock) {
                Ok(tree) => res matches Ok(node) && node.models(tree),
                Err(at) => res matches Err(error) && error.is_syntax(
                    expected(LifeRestartRule::IfThenBlock),
                    at as int,
                    at as int,
                ),
            },
    {
        Self::from_text(input)
    }
}

impl IfElseIfBlockNode {
    /// True when this node is the typed form of the tree `pair`: it has the span of
    /// the tree, and every field holds the typed form of what fills its slot.
    pub open spec fn models(&self, pair: CstTree) -> bool
        decreases self,
    {
        &&& self.span.start == pair.start
        &&& self.span.end == pair.end
        &&& pair.one(Slot::Expression) matches Some(child) && self.expression.models(child)
        &&& self.statement@.len() == pair.all(Slot::Statement).len()
        &&& forall|at: int|
        0 <= at < self.statement@.len() ==> (#[trigger] self.statement@[at]).models(
            pair.all(Slot::Statement)[at],
        )
    }

    /// True when the tree `pair` itself cannot be a node of this type: a slot that
    /// has to be filled is empty.
    pub open spec fn lacks(pair: CstTree) -> bool {
        pair.one(Slot::Expression) is None
    }

    /// Build the node from a tree of the rule `IfElseIfBlock`. The tree is refused
    /// with a syntax error where no node is its typed form; where that is the fault
    /// of the tree itself, the error names this rule and has the span of the tree.
    pub fn from_pair(pair: &CstNode) -> (res: Result<Self, LifeError>)
        ensures
            res matches Ok(node) ==> node.models(pair@),
            res is Err ==> forall|node: Self| !node.models(pair@),
            res matches Err(error) ==> error.is_syntax_error(),
            Self::lacks(pair@) ==> {
                &&& res matches Err(error)
                &&& error.is_syntax(
                    invalid_node(LifeRestartRule::IfElseIfBlock),
                    pair@.start as int,
                    pair@.end as int,
                )
            },
            fits(pair@, LifeRestartRule::IfElseIfBlock) ==> res is Ok,
        decreases pair, 1nat,
    {
        broadcast use group_views;

        let expression_at = match pair.find_first(Slot::Expression) {
            Some(at) => at,
            None => {
                return Err(refuse(LifeRestartRule::IfElseIfBlock, pair));
            },
        };
        let expression = match ExpressionNode::from_pair(&pair.children[expression_at]) {
            Ok(node) => node,
            Err(error) => {
                proof {
                    assert forall|node: Self| !node.models(pair@) by {
                        if node.models(pair@) {
                            assert(node.expression.models(pair.children@[expression_at as int]@));
                        }
                    }
                    if fits(pair@, LifeRestartRule::IfElseIfBlock) {
                        lemma_fits(pair@, LifeRestartRule::IfElseIfBlock);
                        assert(
                            fits_in(
                                pair@.children[expression_at as int],
                                LifeRestartRule::IfElseIfBlock,
                            )
                        );
                    }
                }
                return Err(error);
            },
        };
        let statement = match StatementNode::take_all(pair, Slot::Statement) {
            Ok(list) => list,
            Err(error) => {
                proof {
                    assert forall|node: Self| !node.models(pair@) by {
                        if node.models(pair@) {
                            assert(
                                StatementNode::models_all(
                                    node.statement@,
                                    pair@.all(Slot::Statement),
                                )
                            );
                        }
                    }
                    if fits(pair@, LifeRestartRule::IfElseIfBlock) {
                        lemma_fits(pair@, LifeRestartRule::IfElseIfBlock);
                        assert forall|at: int| 0 <= at < pair@.children.len()
                            && (#[trigger] pair@.children[at]).slot
                                == Slot::Statement implies fits(
                                    pair@.children[at],
                                    LifeRestartRule::Statement,
                                ) by {
                            assert(fits_in(pair@.children[at], LifeRestartRule::IfElseIfBlock));
                        }
                    }
                }
                return Err(error);
            },
        };
        Ok(
            IfElseIfBlockNode {
                expression,
                statement,
                span: Range { start: pair.span.start, end: pair.span.end },
            }
        )
    }

    /// Build the node from the first child of `pair` that fills `slot`, if there is
    /// one.
    pub fn take_one(pair: &CstNode, slot: Slot) -> (res: Result<Option<Self>, LifeError>)
        ensures
            match pair@.one(slot) {
                Some(child) => {
                    &&& res matches Ok(found) ==> found matches Some(node) && node.models(child)
                    &&& res is Err ==> forall|node: Self| !node.models(child)
                },
                None => res matches Ok(found) && found is None,
            },
            res matches Err(error) ==> error.is_syntax_error(),
            (pair@.one(slot) matches Some(child) ==> fits(child, LifeRestartRule::IfElseIfBlock))
                ==> res is Ok,
        decreases pair, 0nat,
    {
        broadcast use group_views;

        match pair.find_first(slot) {
            Some(at) => match Self::from_pair(&pair.children[at]) {
                Ok(node) => Ok(Some(node)),
                Err(error) => Err(error),
            },
            None => Ok(None),
        }
    }

    /// Parse `input` from the rule `IfElseIfBlock` and build the node from the
    /// tree. The text is refused exactly where the rule does not match at its
    /// start, with the error of the parser: what the rule matches always has a
    /// typed form.
    pub fn from_text(input: &str) -> (res: Result<Self, LifeError>)
        ensures
            match spec_parse_cst(input@, LifeRestartRule::IfElseIfBlock) {
                Ok(tree) => res matches Ok(node) && node.models(tree),
                Err(at) => res matches Err(error) && error.is_syntax(
                    expected(LifeRestartRule::IfElseIfBlock),
                    at as int,
                    at as int,
                ),
            },
    {
        proof {
            lemma_rule_fits(input@, LifeRestartRule::IfElseIfBlock, 0);
        }
        match parse_cst(input, LifeRestartRule::IfElseIfBlock) {
            Ok(pair) => Self::from_pair(&pair),
            Err(error) => Err(error),
        }
    }

    /// The byte range of the node, where it has one.
    pub open spec fn spec_get_range(&self) -> Option<Range<usize>> {
        Some(self.span)
    }

    /// The byte range of the node, where it has one.
    pub fn get_range(&self) -> (range: Option<Range<usize>>)
        ensures
            range == self.spec_get_range(),
    {
        Some(Range { start: self.span.start, end: self.span.end })
    }
}

impl std::str::FromStr for IfElseIfBlockNode {
    type Err = LifeError;

    /// Parse `input` as this node: the result of `from_text`.
    fn from_str(input: &str) -> (res: Result<Self, LifeError>)
        ensures
            match spec_parse_cst(input@, LifeRestartRule::IfElseIfBlock) {
                Ok(tree) => res matches Ok(node) && node.models(tree),
                Err(at) => res matches Err(error) && error.is_syntax(
                    expected(LifeRestartRule::IfElseIfBlock),
                    at as int,
                    at as int,
                ),
            },
    {
        Self::from_text(input)
    }
}

impl IfElseBlockNode {
    /// True when this node is the typed form of the tree `pair`: it has the span of
    /// the tree, and every field holds the typed form of what fills its slot.
    pub open spec fn models(&self, pair: CstTree) -> bool
        decreases self,
    {
        &&& self.span.start == pair.start
        &&& self.span.end == pair.end
        &&& self.statement@.len() == pair.all(Slot::Statement).len()
        &&& forall|at: int|
        0 <= at < self.statement@.len() ==> (#[trigger] self.statement@[at]).models(
            pair.all(Slot::Statement)[at],
        )
    }

    /// Build the node from a tree of the rule `IfElseBlock`. The tree is refused
    /// with a syntax error where no node is its typed form; where that is the fault
    /// of the tree itself, the error names this rule and has the span of the tree.
    pub fn from_pair(pair: &CstNode) -> (res: Result<Self, LifeError>)
        ensures
            res matches Ok(node) ==> node.models(pair@),
            res is Err ==> forall|node: Self| !node.models(pair@),
            res matches Err(error) ==> error.is_syntax_error(),
            fits(pair@, LifeRestartRule::IfElseBlock) ==> res is Ok,
        decreases pair, 1nat,
    {
        broadcast use group_views;

        let statement = match StatementNode::take_all(pair, Slot::Statement) {
            Ok(list) => list,
            Err(error) => {
                proof {
                    assert forall|node: Self| !node.models(pair@) by {
                        if node.models(pair@) {
                            assert(
                                StatementNode::models_all(
                                    node.statement@,
                                    pair@.all(Slot::Statement),
                                )
                            );
                        }
                    }
                    if fits(pair@, LifeRestartRule::IfElseBlock) {
                        lemma_fits(pair@, LifeRestartRule::IfElseBlock);
                        assert forall|at: int| 0 <= at < pair@.children.len()
                            && (#[trigger] pair@.children[at]).slot
                                == Slot::Statement implies fits(
                                    pair@.children[at],
                                    LifeRestartRule::Statement,
                                ) by {
                            assert(fits_in(pair@.children[at], LifeRestartRule::IfElseBlock));
                        }
                    }
                }
                return Err(error);
            },
        };
        Ok(
            IfElseBlockNode {
                statement,
                span: Range { start: pair.span.start, end: pair.span.end },
            }
        )
    }

    /// Build the node from the first child of `pair` that fills `slot`, if there is
    /// one.
    pub fn take_one(pair: &CstNode, slot: Slot) -> (res: Result<Option<Self>, LifeError>)
        ensures
            match pair@.one(slot) {
                Some(child) => {
                    &&& res matches Ok(found) ==> found matches Some(node) && node.models(child)
                    &&& res is Err ==> forall|node: Self| !node.models(child)
                },
                None => res matches Ok(found) && found is None,
            },
            res matches Err(error) ==> error.is_syntax_error(),
            (pair@.one(slot) matches Some(child) ==> fits(child, LifeRestartRule::IfElseBlock))
                ==> res is Ok,
        decreases pair, 0nat,
    {
        broadcast use group_views;

        match pair.find_first(slot) {
            Some(at) => match Self::from_pair(&pair.children[at]) {
                Ok(node) => Ok(Some(node)),
                Err(error) => Err(error),
            },
            None => Ok(None),
        }
    }

    /// Parse `input` from the rule `IfElseBlock` and build the node from the tree.
    /// The text is refused exactly where the rule does not match at its start, with
    /// the error of the parser: what the rule matches always has a typed form.
    pub fn from_text(input: &str) -> (res: Result<Self, LifeError>)
        ensures
            match spec_parse_cst(input@, LifeRestartRule::IfElseBlock) {
                Ok(tree) => res matches Ok(node) && node.models(tree),
                Err(at) => res matches Err(error) && error.is_syntax(
                    expected(LifeRestartRule::IfElseBlock),
                    at as int,
                    at as int,
                ),
            },
    {
        proof {
            lemma_rule_fits(input@, LifeRestartRule::IfElseBlock, 0);
        }
        match parse_cst(input, LifeRestartRule::IfElseBlock) {
            Ok(pair) => Self::from_pair(&pair),
            Err(error) => Err(error),
        }
    }

    /// The byte range of the node, where it has one.
    pub open spec fn spec_get_range(&self) -> Option<Range<usize>> {
        Some(self.span)
    }

    /// The byte range of the node, where it has one.
    pub fn get_range(&self) -> (range: Option<Range<usize>>)
        ensures
            range == self.spec_get_range(),
    {
        Some(Range { start: self.span.start, end: self.span.end })
    }
}

impl std::str::FromStr for IfElseBlockNode {
    type Err = LifeError;

    /// Parse `input` as this node: the result of `from_text`.
    fn from_str(input: &str) -> (res: Result<Self, LifeError>)
        ensures
            match spec_parse_cst(input@, LifeRestartRule::IfElseBlock) {
                Ok(tree) => res matches Ok(node) && node.models(tree),
                Err(at) => res matches Err(error) && error.is_syntax(
                    expected(LifeRestartRule::IfElseBlock),
                    at as int,
                    at as int,
                ),
            },
    {
        Self::from_text(input)
    }
}

impl ExpressionNode {
    /// True when this node is the typed form of the tree `pair`: it has the span of
    /// the tree, and every field holds the typed form of what fills its slot.
    pub open spec fn models(&self, pair: CstTree) -> bool {
        &&& self.span.start == pair.start
        &&& self.span.end == pair.end
        &&& self.infix@.len() == pair.all(Slot::Infix).len()
        &&& forall|at: int|
        0 <= at < self.infix@.len() ==> (#[trigger] self.infix@[at]).models(
            pair.all(Slot::Infix)[at],
        )
        &&& self.term@.len() == pair.all(Slot::Term).len()
        &&& forall|at: int|
        0 <= at < self.term@.len() ==> (#[trigger] self.term@[at]).models(
            pair.all(Slot::Term)[at],
        )
    }

    /// Build the node from a tree of the rule `Expression`. The tree is refused
    /// with a syntax error where no node is its typed form; where that is the fault
    /// of the tree itself, the error names this rule and has the span of the tree.
    pub fn from_pair(pair: &CstNode) -> (res: Result<Self, LifeError>)
        ensures
            res matches Ok(node) ==> node.models(pair@),
            res is Err ==> forall|node: Self| !node.models(pair@),
            res matches Err(error) ==> error.is_syntax_error(),
            fits(pair@, LifeRestartRule::Expression) ==> res is Ok,
    {
        broadcast use group_views;

        let infix = match InfixNode::take_all(pair, Slot::Infix) {
            Ok(list) => list,
            Err(error) => {
                proof {
                    assert forall|node: Self| !node.models(pair@) by {
                        if node.models(pair@) {
                            assert(InfixNode::models_all(node.infix@, pair@.all(Slot::Infix)));
                        }
                    }
                    if fits(pair@, LifeRestartRule::Expression) {
                        lemma_fits(pair@, LifeRestartRule::Expression);
                        assert forall|at: int| 0 <= at < pair@.children.len()
                            && (#[trigger] pair@.children[at]).slot
                                == Slot::Infix implies fits(
                                    pair@.children[at],
                                    LifeRestartRule::Infix,
                                ) by {
                            assert(fits_in(pair@.children[at], LifeRestartRule::Expression));
                        }
                    }
                }
                return Err(error);
            },
        };
        let term = match TermNode::take_all(pair, Slot::Term) {
            Ok(list) => list,
            Err(error) => {
                proof {
                    assert forall|node: Self| !node.models(pair@) by {
                        if node.models(pair@) {
                            assert(TermNode::models_all(node.term@, pair@.all(Slot::Term)));
                        }
                    }
                    if fits(pair@, LifeRestartRule::Expression) {
                        lemma_fits(pair@, LifeRestartRule::Expression);
                        assert forall|at: int| 0 <= at < pair@.children.len()
                            && (#[trigger] pair@.children[at]).slot
                                == Slot::Term implies fits(
                                    pair@.children[at],
                                    LifeRestartRule::Term,
                                ) by {
                            assert(fits_in(pair@.children[at], LifeRestartRule::Expression));
                        }
                    }
                }
                return Err(error);
            },
        };
        Ok(
            ExpressionNode {
                infix,
                term,
                span: Range { start: pair.span.start, end: pair.span.end },
            }
        )
    }

    /// Build the node from the first child of `pair` that fills `slot`, if there is
    /// one.
    pub fn take_one(pair: &CstNode, slot: Slot) -> (res: Result<Option<Self>, LifeError>)
        ensures
            match pair@.one(slot) {
                Some(child) => {
                    &&& res matches Ok(found) ==> found matches Some(node) && node.models(child)
                    &&& res is Err ==> forall|node: Self| !node.models(child)
                },
                None => res matches Ok(found) && found is None,
            },
            res matches Err(error) ==> error.is_syntax_error(),
            (pair@.one(slot) matches Some(child) ==> fits(child, LifeRestartRule::Expression))
                ==> res is Ok,
    {
        broadcast use group_views;

        match pair.find_first(slot) {
            Some(at) => match Self::from_pair(&pair.children[at]) {
                Ok(node) => Ok(Some(node)),
                Err(error) => Err(error),
            },
            None => Ok(None),
        }
    }

    /// Parse `input` from the rule `Expression` and build the node from the tree.
    /// The text is refused exactly where the rule does not match at its start, with
    /// the error of the parser: what the rule matches always has a typed form.
    pub fn from_text(input: &str) -> (res: Result<Self, LifeError>)
        ensures
            match spec_parse_cst(input@, LifeRestartRule::Expression) {
                Ok(tree) => res matches Ok(node) && node.models(tree),
                Err(at) => res matches Err(error) && error.is_syntax(
                    expected(LifeRestartRule::Expression),
                    at as int,
                    at as int,
                ),
            },
    {
        proof {
            lemma_rule_fits(input@, LifeRestartRule::Expression, 0);
        }
        match parse_cst(input, LifeRestartRule::Expression) {
            Ok(pair) => Self::from_pair(&pair),
            Err(error) => Err(error),
        }
    }

    /// The byte range of the node, where it has one.
    pub open spec fn spec_get_range(&self) -> Option<Range<usize>> {
        Some(self.span)
    }

    /// The byte range of the node, where it has one.
    pub fn get_range(&self) -> (range: Option<Range<usize>>)
        ensures
            range == self.spec_get_range(),
    {
        Some(Range { start: self.span.start, end: self.span.end })
    }
}

impl std::str::FromStr for ExpressionNode {
    type Err = LifeError;

    /// Parse `input` as this node: the result of `from_text`.
    fn from_str(input: &str) -> (res: Result<Self, LifeError>)
        ensures
            match spec_parse_cst(input@, LifeRestartRule::Expression) {
                Ok(tree) => res matches Ok(node) && node.models(tree),
                Err(at) => res matches Err(error) && error.is_syntax(
                    expected(LifeRestartRule::Expression),
                    at as int,
                    at as int,
                ),
            },
    {
        Self::from_text(input)
    }
}

impl TermNode {
    /// True when this node is the typed form of the tree `pair`: it has the span of
    /// the tree, and every field holds the typed form of what fills its slot.
    pub open spec fn models(&self, pair: CstTree) -> bool {
        &&& self.span.start == pair.start
        &&& self.span.end == pair.end
        &&& pair.one(Slot::Atomic) matches Some(child) && self.atomic.models(child)
        &&& self.prefix@.len() == pair.all(Slot::Prefix).len()
        &&& forall|at: int|
        0 <= at < self.prefix@.len() ==> (#[trigger] self.prefix@[at]).models(
            pair.all(Slot::Prefix)[at],
        )
        &&& self.suffix@.len() == pair.all(Slot::Suffix).len()
        &&& forall|at: int|
        0 <= at < self.suffix@.len() ==> (#[trigger] self.suffix@[at]).models(
            pair.all(Slot::Suffix)[at],
        )
    }

    /// True when the tree `pair` itself cannot be a node of this type: a slot that
    /// has to be filled is empty.
    pub open spec fn lacks(pair: CstTree) -> bool {
        pair.one(Slot::Atomic) is None
    }

    /// Build the node from a tree of the rule `Term`. The tree is refused with a
    /// syntax error where no node is its typed form; where that is the fault of the
    /// tree itself, the error names this rule and has the span of the tree.
    pub fn from_pair(pair: &CstNode) -> (res: Result<Self, LifeError>)
        ensures
            res matches Ok(node) ==> node.models(pair@),
            res is Err ==> forall|node: Self| !node.models(pair@),
            res matches Err(error) ==> error.is_syntax_error(),
            Self::lacks(pair@) ==> {
                &&& res matches Err(error)
                &&& error.is_syntax(
                    invalid_node(LifeRestartRule::Term),
                    pair@.start as int,
                    pair@.end as int,
                )
            },
            fits(pair@, LifeRestartRule::Term) ==> res is Ok,
    {
        broadcast use group_views;

        let atomic_at = match pair.find_first(Slot::Atomic) {
            Some(at) => at,
            None => {
                return Err(refuse(LifeRestartRule::Term, pair));
            },
        };
        let atomic = match AtomicNode::from_pair(&pair.children[atomic_at]) {
            Ok(node) => node,
            Err(error) => {
                proof {
                    assert forall|node: Self| !node.models(pair@) by {
                        if node.models(pair@) {
                            assert(node.atomic.models(pair.children@[atomic_at as int]@));
                        }
                    }
                    if fits(pair@, LifeRestartRule::Term) {
                        lemma_fits(pair@, LifeRestartRule::Term);
                        assert(fits_in(pair@.children[atomic_at as int], LifeRestartRule::Term));
                    }
                }
                return Err(error);
            },
        };
        let prefix = match PrefixNode::take_all(pair, Slot::Prefix) {
            Ok(list) => list,
            Err(error) => {
                proof {
                    assert forall|node: Self| !node.models(pair@) by {
                        if node.models(pair@) {
                            assert(PrefixNode::models_all(node.prefix@, pair@.all(Slot::Prefix)));
                        }
                    }
                    if fits(pair@, LifeRestartRule::Term) {
                        lemma_fits(pair@, LifeRestartRule::Term);
                        assert forall|at: int| 0 <= at < pair@.children.len()
                            && (#[trigger] pair@.children[at]).slot
                                == Slot::Prefix implies fits(
                                    pair@.children[at],
                                    LifeRestartRule::Prefix,
                                ) by {
                            assert(fits_in(pair@.children[at], LifeRestartRule::Term));
                        }
                    }
                }
                return Err(error);
            },
        };
        let suffix = match SuffixNode::take_all(pair, Slot::Suffix) {
            Ok(list) => list,
            Err(error) => {
                proof {
                    assert forall|node: Self| !node.models(pair@) by {
                        if node.models(pair@) {
                            assert(SuffixNode::models_all(node.suffix@, pair@.all(Slot::Suffix)));
                        }
                    }
                    if fits(pair@, LifeRestartRule::Term) {
                        lemma_fits(pair@, LifeRestartRule::Term);
                        assert forall|at: int| 0 <= at < pair@.children.len()
                            && (#[trigger] pair@.children[at]).slot
                                == Slot::Suffix implies fits(
                                    pair@.children[at],
                                    LifeRestartRule::Suffix,
                                ) by {
                            assert(fits_in(pair@.children[at], LifeRestartRule::Term));
                        }
                    }
                }
                return Err(error);
            },
        };
        Ok(
            TermNode {
                atomic,
                prefix,
                suffix,
                span: Range { start: pair.span.start, end: pair.span.end },
            }
        )
    }

    /// True when the nodes of `list` are the typed forms of the trees of `pairs`,
    /// one for one.
    pub open spec fn models_all(list: Seq<Self>, pairs: Seq<CstTree>) -> bool {
        &&& list.len() == pairs.len()
        &&& forall|at: int| 0 <= at < list.len() ==> (#[trigger] list[at]).models(pairs[at])
    }

    /// Build the nodes from the children of `pair` that fill `slot`, in order.
    pub fn take_all(pair: &CstNode, slot: Slot) -> (res: Result<Vec<Self>, LifeError>)
        ensures
            res matches Ok(list) ==> Self::models_all(list@, pair@.all(slot)),
            res is Err ==> forall|list: Seq<Self>| !Self::models_all(list, pair@.all(slot)),
            res matches Err(error) ==> error.is_syntax_error(),
            (
                forall|at: int| 0 <= at < pair@.children.len()
                    && (#[trigger] pair@.children[at]).slot == slot
                    ==> fits(pair@.children[at], LifeRestartRule::Term)
            )
                ==> res is Ok,
    {
        broadcast use group_views;

        let mut list: Vec<Self> = Vec::new();
        let mut at: usize = 0;
        while at < pair.children.len()
            invariant
                at <= pair.children@.len(),
                pair@.children == views(pair.children@),
                Self::models_all(list@, picks(pair@.children, slot, at as int)),
            decreases pair.children@.len() - at,
        {
            if pair.children[at].slot == slot {
                match Self::from_pair(&pair.children[at]) {
                    Ok(node) => {
                        list.push(node);
                    },
                    Err(error) => {
                        proof {
                            lemma_picks_prefix(
                                pair@.children,
                                slot,
                                at + 1,
                                pair@.children.len() as int,
                            );
                            let pairs = pair@.all(slot);
                            let bad = picks(pair@.children, slot, at as int).len() as int;
                            assert(pairs[bad] == pair.children@[at as int]@);
                            assert(pair@.children[at as int] == pair.children@[at as int]@);
                            assert forall|list: Seq<Self>| !Self::models_all(list, pairs) by {
                                if Self::models_all(list, pairs) {
                                    assert(list[bad].models(pairs[bad]));
                                }
                            }
                        }
                        return Err(error);
                    },
                }
            }
            at = at + 1;
        }
        Ok(list)
    }

    /// Parse `input` from the rule `Term` and build the node from the tree. The
    /// text is refused exactly where the rule does not match at its start, with the
    /// error of the parser: what the rule matches always has a typed form.
    pub fn from_text(input: &str) -> (res: Result<Self, LifeError>)
        ensures
            match spec_parse_cst(input@, LifeRestartRule::Term) {
                Ok(tree) => res matches Ok(node) && node.models(tree),
                Err(at) => res matches Err(error) && error.is_syntax(
                    expected(LifeRestartRule::Term),
                    at as int,
                    at as int,
                ),
            },
    {
        proof {
            lemma_rule_fits(input@, LifeRestartRule::Term, 0);
        }
        match parse_cst(input, LifeRestartRule::Term) {
            Ok(pair) => Self::from_pair(&pair),
            Err(error) => Err(error),
        }
    }

    /// The byte range of the node, where it has one.
    pub open spec fn spec_get_range(&self) -> Option<Range<usize>> {
        Some(self.span)
    }

    /// The byte range of the node, where it has one.
    pub fn get_range(&self) -> (range: Option<Range<usize>>)
        ensures
            range == self.spec_get_range(),
    {
        Some(Range { start: self.span.start, end: self.span.end })
    }
}

impl std::str::FromStr for TermNode {
    type Err = LifeError;

    /// Parse `input` as this node: the result of `from_text`.
    fn from_str(input: &str) -> (res: Result<Self, LifeError>)
        ensures
            match spec_parse_cst(input@, LifeRestartRule::Term) {
                Ok(tree) => res matches Ok(node) && node.models(tree),
                Err(at) => res matches Err(error) && error.is_syntax(
                    expected(LifeRestartRule::Term),
                    at as int,
                    at as int,
                ),
            },
    {
        Self::from_text(input)
    }
}

impl PrefixNode {
    /// True when this node is the typed form of the tree `pair`: it is the first
    /// alternative, in the order of the declaration, whose slot is filled.
    pub open spec fn models(&self, pair: CstTree) -> bool {
        match self {
            Self::Prefix0 => {
                &&& pair.one(Slot::Prefix0) is Some
            },
        }
    }

    /// True when the tree `pair` itself cannot be a node of this type: the slot of
    /// no alternative is filled.
    pub open spec fn lacks(pair: CstTree) -> bool {
        pair.one(Slot::Prefix0) is None
    }

    /// Build the node from a tree of the rule `Prefix`. The tree is refused with a
    /// syntax error where no node is its typed form; where that is the fault of the
    /// tree itself, the error names this rule and has the span of the tree.
    pub fn from_pair(pair: &CstNode) -> (res: Result<Self, LifeError>)
        ensures
            res matches Ok(node) ==> node.models(pair@),
            res is Err ==> forall|node: Self| !node.models(pair@),
            res matches Err(error) ==> error.is_syntax_error(),
            Self::lacks(pair@) ==> {
                &&& res matches Err(error)
                &&& error.is_syntax(
                    invalid_node(LifeRestartRule::Prefix),
                    pair@.start as int,
                    pair@.end as int,
                )
            },
            fits(pair@, LifeRestartRule::Prefix) ==> res is Ok,
    {
        broadcast use group_views;

        if pair.find_first(Slot::Prefix0).is_some() {
            return Ok(Self::Prefix0);
        }
        Err(refuse(LifeRestartRule::Prefix, pair))
    }

    /// True when the nodes of `list` are the typed forms of the trees of `pairs`,
    /// one for one.
    pub open spec fn models_all(list: Seq<Self>, pairs: Seq<CstTree>) -> bool {
        &&& list.len() == pairs.len()
        &&& forall|at: int| 0 <= at < list.len() ==> (#[trigger] list[at]).models(pairs[at])
    }

    /// Build the nodes from the children of `pair` that fill `slot`, in order.
    pub fn take_all(pair: &CstNode, slot: Slot) -> (res: Result<Vec<Self>, LifeError>)
        ensures
            res matches Ok(list) ==> Self::models_all(list@, pair@.all(slot)),
            res is Err ==> forall|list: Seq<Self>| !Self::models_all(list, pair@.all(slot)),
            res matches Err(error) ==> error.is_syntax_error(),
            (
                forall|at: int| 0 <= at < pair@.children.len()
                    && (#[trigger] pair@.children[at]).slot == slot
                    ==> fits(pair@.children[at], LifeRestartRule::Prefix)
            )
                ==> res is Ok,
    {
        broadcast use group_views;

        let mut list: Vec<Self> = Vec::new();
        let mut at: usize = 0;
        while at < pair.children.len()
            invariant
                at <= pair.children@.len(),
                pair@.children == views(pair.children@),
                Self::models_all(list@, picks(pair@.children, slot, at as int)),
            decreases pair.children@.len() - at,
        {
            if pair.children[at].slot == slot {
                match Self::from_pair(&pair.children[at]) {
                    Ok(node) => {
                        list.push(node);
                    },
                    Err(error) => {
                        proof {
                            lemma_picks_prefix(
                                pair@.children,
                                slot,
                                at + 1,
                                pair@.children.len() as int,
                            );
                            let pairs = pair@.all(slot);
                            let bad = picks(pair@.children, slot, at as int).len() as int;
                            assert(pairs[bad] == pair.children@[at as int]@);
                            assert(pair@.children[at as int] == pair.children@[at as int]@);
                            assert forall|list: Seq<Self>| !Self::models_all(list, pairs) by {
                                if Self::models_all(list, pairs) {
                                    assert(list[bad].models(pairs[bad]));
                                }
                            }
                        }
                        return Err(error);
                    },
                }
            }
            at = at + 1;
        }
        Ok(list)
    }

    /// Parse `input` from the rule `Prefix` and build the node from the tree. The
    /// text is refused exactly where the rule does not match at its start, with the
    /// error of the parser: what the rule matches always has a typed form.
    pub fn from_text(input: &str) -> (res: Result<Self, LifeError>)
        ensures
            match spec_parse_cst(input@, LifeRestartRule::Prefix) {
                Ok(tree) => res matches Ok(node) && node.models(tree),
                Err(at) => res matches Err(error) && error.is_syntax(
                    expected(LifeRestartRule::Prefix),
                    at as int,
                    at as int,
                ),
            },
    {
        proof {
            lemma_rule_fits(input@, LifeRestartRule::Prefix, 0);
        }
        match parse_cst(input, LifeRestartRule::Prefix) {
            Ok(pair) => Self::from_pair(&pair),
            Err(error) => Err(error),
        }
    }

    /// The byte range of the node, where it has one.
    pub open spec fn spec_get_range(&self) -> Option<Range<usize>> {
        None
    }

    /// The byte range of the node, where it has one.
    pub fn get_range(&self) -> (range: Option<Range<usize>>)
        ensures
            range == self.spec_get_range(),
    {
        None
    }
}

impl std::str::FromStr for PrefixNode {
    type Err = LifeError;

    /// Parse `input` as this node: the result of `from_text`.
    fn from_str(input: &str) -> (res: Result<Self, LifeError>)
        ensures
            match spec_parse_cst(input@, LifeRestartRule::Prefix) {
                Ok(tree) => res matches Ok(node) && node.models(tree),
                Err(at) => res matches Err(error) && error.is_syntax(
                    expected(LifeRestartRule::Prefix),
                    at as int,
                    at as int,
                ),
            },
    {
        Self::from_text(input)
    }
}

impl InfixNode {
    /// True when this node is the typed form of the tree `pair`: it is the first
    /// alternative, in the order of the declaration, whose slot is filled.
    pub open spec fn models(&self, pair: CstTree) -> bool {
        match self {
            Self::Add => {
                &&& pair.one(Slot::Add) is Some
            },
            Self::AddAssign => {
                &&& pair.one(Slot::Add) is None
                &&& pair.one(Slot::AddAssign) is Some
            },
            Self::And => {
                &&& pair.one(Slot::Add) is None
                &&& pair.one(Slot::AddAssign) is None
                &&& pair.one(Slot::And) is Some
            },
            Self::EQ => {
                &&& pair.one(Slot::Add) is None
                &&& pair.one(Slot::AddAssign) is None
                &&& pair.one(Slot::And) is None
                &&& pair.one(Slot::Eq) is Some
            },
            Self::GEQ => {
                &&& pair.one(Slot::Add) is None
                &&& pair.one(Slot::AddAssign) is None
                &&& pair.one(Slot::And) is None
                &&& pair.one(Slot::Eq) is None
                &&& pair.one(Slot::Geq) is Some
            },
            Self::GT => {
                &&& pair.one(Slot::Add) is None
                &&& pair.one(Slot::AddAssign) is None
                &&& pair.one(Slot::And) is None
                &&& pair.one(Slot::Eq) is None
                &&& pair.one(Slot::Geq) is None
                &&& pair.one(Slot::Gt) is Some
            },
            Self::Has => {
                &&& pair.one(Slot::Add) is None
                &&& pair.one(Slot::AddAssign) is None
                &&& pair.one(Slot::And) is None
                &&& pair.one(Slot::Eq) is None
                &&& pair.one(Slot::Geq) is None
                &&& pair.one(Slot::Gt) is None
                &&& pair.one(Slot::Has) is Some
            },
            Self::LEQ => {
                &&& pair.one(Slot::Add) is None
                &&& pair.one(Slot::AddAssign) is None
                &&& pair.one(Slot::And) is None
                &&& pair.one(Slot::Eq) is None
                &&& pair.one(Slot::Geq) is None
                &&& pair.one(Slot::Gt) is None
                &&& pair.one(Slot::Has) is None
                &&& pair.one(Slot::Leq) is Some
            },
            Self::LT => {
                &&& pair.one(Slot::Add) is None
                &&& pair.one(Slot::AddAssign) is None
                &&& pair.one(Slot::And) is None
                &&& pair.one(Slot::Eq) is None
                &&& pair.one(Slot::Geq) is None
                &&& pair.one(Slot::Gt) is None
                &&& pair.one(Slot::Has) is None
                &&& pair.one(Slot::Leq) is None
                &&& pair.one(Slot::Lt) is Some
            },
            Self::NE => {
                &&& pair.one(Slot::Add) is None
                &&& pair.one(Slot::AddAssign) is None
                &&& pair.one(Slot::And) is None
                &&& pair.one(Slot::Eq) is None
                &&& pair.one(Slot::Geq) is None
                &&& pair.one(Slot::Gt) is None
                &&& pair.one(Slot::Has) is None
                &&& pair.one(Slot::Leq) is None
                &&& pair.one(Slot::Lt) is None
                &&& pair.one(Slot::Ne) is Some
            },
            Self::Or => {
                &&& pair.one(Slot::Add) is None
                &&& pair.one(Slot::AddAssign) is None
                &&& pair.one(Slot::And) is None
                &&& pair.one(Slot::Eq) is None
                &&& pair.one(Slot::Geq) is None
                &&& pair.one(Slot::Gt) is None
                &&& pair.one(Slot::Has) is None
                &&& pair.one(Slot::Leq) is None
                &&& pair.one(Slot::Lt) is None
                &&& pair.one(Slot::Ne) is None
                &&& pair.one(Slot::Or) is Some
            },
            Self::Sub => {
                &&& pair.one(Slot::Add) is None
                &&& pair.one(Slot::AddAssign) is None
                &&& pair.one(Slot::And) is None
                &&& pair.one(Slot::Eq) is None
                &&& pair.one(Slot::Geq) is None
                &&& pair.one(Slot::Gt) is None
                &&& pair.one(Slot::Has) is None
                &&& pair.one(Slot::Leq) is None
                &&& pair.one(Slot::Lt) is None
                &&& pair.one(Slot::Ne) is None
                &&& pair.one(Slot::Or) is None
                &&& pair.one(Slot::Sub) is Some
            },
            Self::SubAssign => {
                &&& pair.one(Slot::Add) is None
                &&& pair.one(Slot::AddAssign) is None
                &&& pair.one(Slot::And) is None
                &&& pair.one(Slot::Eq) is None
                &&& pair.one(Slot::Geq) is None
                &&& pair.one(Slot::Gt) is None
                &&& pair.one(Slot::Has) is None
                &&& pair.one(Slot::Leq) is None
                &&& pair.one(Slot::Lt) is None
                &&& pair.one(Slot::Ne) is None
                &&& pair.one(Slot::Or) is None
                &&& pair.one(Slot::Sub) is None
                &&& pair.one(Slot::SubAssign) is Some
            },
        }
    }

    /// True when the tree `pair` itself cannot be a node of this type: the slot of
    /// no alternative is filled.
    pub open spec fn lacks(pair: CstTree) -> bool {
        pair.one(Slot::Add) is None
            && pair.one(Slot::AddAssign) is None
            && pair.one(Slot::And) is None
            && pair.one(Slot::Eq) is None
            && pair.one(Slot::Geq) is None
            && pair.one(Slot::Gt) is None
            && pair.one(Slot::Has) is None
            && pair.one(Slot::Leq) is None
            && pair.one(Slot::Lt) is None
            && pair.one(Slot::Ne) is None
            && pair.one(Slot::Or) is None
            && pair.one(Slot::Sub) is None
            && pair.one(Slot::SubAssign) is None
    }

    /// Build the node from a tree of the rule `Infix`. The tree is refused with a
    /// syntax error where no node is its typed form; where that is the fault of the
    /// tree itself, the error names this rule and has the span of the tree.
    pub fn from_pair(pair: &CstNode) -> (res: Result<Self, LifeError>)
        ensures
            res matches Ok(node) ==> node.models(pair@),
            res is Err ==> forall|node: Self| !node.models(pair@),
            res matches Err(error) ==> error.is_syntax_error(),
            Self::lacks(pair@) ==> {
                &&& res matches Err(error)
                &&& error.is_syntax(
                    invalid_node(LifeRestartRule::Infix),
                    pair@.start as int,
                    pair@.end as int,
                )
            },
            fits(pair@, LifeRestartRule::Infix) ==> res is Ok,
    {
        broadcast use group_views;

        if pair.find_first(Slot::Add).is_some() {
            return Ok(Self::Add);
        }
        if pair.find_first(Slot::AddAssign).is_some() {
            return Ok(Self::AddAssign);
        }
        if pair.find_first(Slot::And).is_some() {
            return Ok(Self::And);
        }
        if pair.find_first(Slot::Eq).is_some() {
            return Ok(Self::EQ);
        }
        if pair.find_first(Slot::Geq).is_some() {
            return Ok(Self::GEQ);
        }
        if pair.find_first(Slot::Gt).is_some() {
            return Ok(Self::GT);
        }
        if pair.find_first(Slot::Has).is_some() {
            return Ok(Self::Has);
        }
        if pair.find_first(Slot::Leq).is_some() {
            return Ok(Self::LEQ);
        }
        if pair.find_first(Slot::Lt).is_some() {
            return Ok(Self::LT);
        }
        if pair.find_first(Slot::Ne).is_some() {
            return Ok(Self::NE);
        }
        if pair.find_first(Slot::Or).is_some() {
            return Ok(Self::Or);
        }
        if pair.find_first(Slot::Sub).is_some() {
            return Ok(Self::Sub);
        }
        if pair.find_first(Slot::SubAssign).is_some() {
            return Ok(Self::SubAssign);
        }
        Err(refuse(LifeRestartRule::Infix, pair))
    }

    /// True when the nodes of `list` are the typed forms of the trees of `pairs`,
    /// one for one.
    pub open spec fn models_all(list: Seq<Self>, pairs: Seq<CstTree>) -> bool {
        &&& list.len() == pairs.len()
        &&& forall|at: int| 0 <= at < list.len() ==> (#[trigger] list[at]).models(pairs[at])
    }

    /// Build the nodes from the children of `pair` that fill `slot`, in order.
    pub fn take_all(pair: &CstNode, slot: Slot) -> (res: Result<Vec<Self>, LifeError>)
        ensures
            res matches Ok(list) ==> Self::models_all(list@, pair@.all(slot)),
            res is Err ==> forall|list: Seq<Self>| !Self::models_all(list, pair@.all(slot)),
            res matches Err(error) ==> error.is_syntax_error(),
            (
                forall|at: int| 0 <= at < pair@.children.len()
                    && (#[trigger] pair@.children[at]).slot == slot
                    ==> fits(pair@.children[at], LifeRestartRule::Infix)
            )
                ==> res is Ok,
    {
        broadcast use group_views;

        let mut list: Vec<Self> = Vec::new();
        let mut at: usize = 0;
        while at < pair.children.len()
            invariant
                at <= pair.children@.len(),
                pair@.children == views(pair.children@),
                Self::models_all(list@, picks(pair@.children, slot, at as int)),
            decreases pair.children@.len() - at,
        {
            if pair.children[at].slot == slot {
                match Self::from_pair(&pair.children[at]) {
                    Ok(node) => {
                        list.push(node);
                    },
                    Err(error) => {
                        proof {
                            lemma_picks_prefix(
                                pair@.children,
                                slot,
                                at + 1,
                                pair@.children.len() as int,
                            );
                            let pairs = pair@.all(slot);
                            let bad = picks(pair@.children, slot, at as int).len() as int;
                            assert(pairs[bad] == pair.children@[at as int]@);
                            assert(pair@.children[at as int] == pair.children@[at as int]@);
                            assert forall|list: Seq<Self>| !Self::models_all(list, pairs) by {
                                if Self::models_all(list, pairs) {
                                    assert(list[bad].models(pairs[bad]));
                                }
                            }
                        }
                        return Err(error);
                    },
                }
            }
            at = at + 1;
        }
        Ok(list)
    }

    /// Parse `input` from the rule `Infix` and build the node from the tree. The
    /// text is refused exactly where the rule does not match at its start, with the
    /// error of the parser: what the rule matches always has a typed form.
    pub fn from_text(input: &str) -> (res: Result<Self, LifeError>)
        ensures
            match spec_parse_cst(input@, LifeRestartRule::Infix) {
                Ok(tree) => res matches Ok(node) && node.models(tree),
                Err(at) => res matches Err(error) && error.is_syntax(
                    expected(LifeRestartRule::Infix),
                    at as int,
                    at as int,
                ),
            },
    {
        proof {
            lemma_rule_fits(input@, LifeRestartRule::Infix, 0);
        }
        match parse_cst(input, LifeRestartRule::Infix) {
            Ok(pair) => Self::from_pair(&pair),
            Err(error) => Err(error),
        }
    }

    /// The byte range of the node, where it has one.
    pub open spec fn spec_get_range(&self) -> Option<Range<usize>> {
        None
    }

    /// The byte range of the node, where it has one.
    pub fn get_range(&self) -> (range: Option<Range<usize>>)
        ensures
            range == self.spec_get_range(),
    {
        None
    }
}

impl std::str::FromStr for InfixNode {
    type Err = LifeError;

    /// Parse `input` as this node: the result of `from_text`.
    fn from_str(input: &str) -> (res: Result<Self, LifeError>)
        ensures
            match spec_parse_cst(input@, LifeRestartRule::Infix) {
                Ok(tree) => res matches Ok(node) && node.models(tree),
                Err(at) => res matches Err(error) && error.is_syntax(
                    expected(LifeRestartRule::Infix),
                    at as int,
                    at as int,
                ),
            },
    {
        Self::from_text(input)
    }
}

impl SuffixNode {
    /// True when this node is the typed form of the tree `pair`: it is the first
    /// alternative, in the order of the declaration, whose slot is filled.
    pub open spec fn models(&self, pair: CstTree) -> bool {
        match self {
            Self::Suffix0 => {
                &&& pair.one(Slot::Suffix0) is Some
            },
        }
    }

    /// True when the tree `pair` itself cannot be a node of this type: the slot of
    /// no alternative is filled.
    pub open spec fn lacks(pair: CstTree) -> bool {
        pair.one(Slot::Suffix0) is None
    }

    /// Build the node from a tree of the rule `Suffix`. The tree is refused with a
    /// syntax error where no node is its typed form; where that is the fault of the
    /// tree itself, the error names this rule and has the span of the tree.
    pub fn from_pair(pair: &CstNode) -> (res: Result<Self, LifeError>)
        ensures
            res matches Ok(node) ==> node.models(pair@),
            res is Err ==> forall|node: Self| !node.models(pair@),
            res matches Err(error) ==> error.is_syntax_error(),
            Self::lacks(pair@) ==> {
                &&& res matches Err(error)
                &&& error.is_syntax(
                    invalid_node(LifeRestartRule::Suffix),
                    pair@.start as int,
                    pair@.end as int,
                )
            },
            fits(pair@, LifeRestartRule::Suffix) ==> res is Ok,
    {
        broadcast use group_views;

        if pair.find_first(Slot::Suffix0).is_some() {
            return Ok(Self::Suffix0);
        }
        Err(refuse(LifeRestartRule::Suffix, pair))
    }

    /// True when the nodes of `list` are the typed forms of the trees of `pairs`,
    /// one for one.
    pub open spec fn models_all(list: Seq<Self>, pairs: Seq<CstTree>) -> bool {
        &&& list.len() == pairs.len()
        &&& forall|at: int| 0 <= at < list.len() ==> (#[trigger] list[at]).models(pairs[at])
    }

    /// Build the nodes from the children of `pair` that fill `slot`, in order.
    pub fn take_all(pair: &CstNode, slot: Slot) -> (res: Result<Vec<Self>, LifeError>)
        ensures
            res matches Ok(list) ==> Self::models_all(list@, pair@.all(slot)),
            res is Err ==> forall|list: Seq<Self>| !Self::models_all(list, pair@.all(slot)),
            res matches Err(error) ==> error.is_syntax_error(),
            (
                forall|at: int| 0 <= at < pair@.children.len()
                    && (#[trigger] pair@.children[at]).slot == slot
                    ==> fits(pair@.children[at], LifeRestartRule::Suffix)
            )
                ==> res is Ok,
    {
        broadcast use group_views;

        let mut list: Vec<Self> = Vec::new();
        let mut at: usize = 0;
        while at < pair.children.len()
            invariant
                at <= pair.children@.len(),
                pair@.children == views(pair.children@),
                Self::models_all(list@, picks(pair@.children, slot, at as int)),
            decreases pair.children@.len() - at,
        {
            if pair.children[at].slot == slot {
                match Self::from_pair(&pair.children[at]) {
                    Ok(node) => {
                        list.push(node);
                    },
                    Err(error) => {
                        proof {
                            lemma_picks_prefix(
                                pair@.children,
                                slot,
                                at + 1,
                                pair@.children.len() as int,
                            );
                            let pairs = pair@.all(slot);
                            let bad = picks(pair@.children, slot, at as int).len() as int;
                            assert(pairs[bad] == pair.children@[at as int]@);
                            assert(pair@.children[at as int] == pair.children@[at as int]@);
                            assert forall|list: Seq<Self>| !Self::models_all(list, pairs) by {
                                if Self::models_all(list, pairs) {
                                    assert(list[bad].models(pairs[bad]));
                                }
                            }
                        }
                        return Err(error);
                    },
                }
            }
            at = at + 1;
        }
        Ok(list)
    }

    /// Parse `input` from the rule `Suffix` and build the node from the tree. The
    /// text is refused exactly where the rule does not match at its start, with the
    /// error of the parser: what the rule matches always has a typed form.
    pub fn from_text(input: &str) -> (res: Result<Self, LifeError>)
        ensures
            match spec_parse_cst(input@, LifeRestartRule::Suffix) {
                Ok(tree) => res matches Ok(node) && node.models(tree),
                Err(at) => res matches Err(error) && error.is_syntax(
                    expected(LifeRestartRule::Suffix),
                    at as int,
                    at as int,
                ),
            },
    {
        proof {
            lemma_rule_fits(input@, LifeRestartRule::Suffix, 0);
        }
        match parse_cst(input, LifeRestartRule::Suffix) {
            Ok(pair) => Self::from_pair(&pair),
            Err(error) => Err(error),
        }
    }

    /// The byte range of the node, where it has one.
    pub open spec fn spec_get_range(&self) -> Option<Range<usize>> {
        None
    }

    /// The byte range of the node, where it has one.
    pub fn get_range(&self) -> (range: Option<Range<usize>>)
        ensures
            range == self.spec_get_range(),
    {
        None
    }
}

impl std::str::FromStr for SuffixNode {
    type Err = LifeError;

    /// Parse `input` as this node: the result of `from_text`.
    fn from_str(input: &str) -> (res: Result<Self, LifeError>)
        ensures
            match spec_parse_cst(input@, LifeRestartRule::Suffix) {
                Ok(tree) => res matches Ok(node) && node.models(tree),
                Err(at) => res matches Err(error) && error.is_syntax(
                    expected(LifeRestartRule::Suffix),
                    at as int,
                    at as int,
                ),
            },
    {
        Self::from_text(input)
    }
}

impl AtomicNode {
    /// True when this node is the typed form of the tree `pair`: it is the first
    /// alternative, in the order of the declaration, whose slot is filled.
    pub open spec fn models(&self, pair: CstTree) -> bool
        decreases self,
    {
        match self {
            Self::Boolean(node) => {
                &&& pair.one(Slot::Boolean) matches Some(child) && node.models(child)
            },
            Self::Identifier(node) => {
                &&& pair.one(Slot::Boolean) is None
                &&& pair.one(Slot::Identifier) matches Some(child) && node.models(child)
            },
            Self::Integer(node) => {
                &&& pair.one(Slot::Boolean) is None
                &&& pair.one(Slot::Identifier) is None
                &&& pair.one(Slot::Integer) matches Some(child) && node.models(child)
            },
            Self::List(node) => {
                &&& pair.one(Slot::Boolean) is None
                &&& pair.one(Slot::Identifier) is None
                &&& pair.one(Slot::Integer) is None
                &&& pair.one(Slot::List) matches Some(child) && node.models(child)
            },
            Self::StringNormal(node) => {
                &&& pair.one(Slot::Boolean) is None
                &&& pair.one(Slot::Identifier) is None
                &&& pair.one(Slot::Integer) is None
                &&& pair.one(Slot::List) is None
                &&& pair.one(Slot::StringNormal) matches Some(child) && node.models(child)
            },
            Self::StringRaw(node) => {
                &&& pair.one(Slot::Boolean) is None
                &&& pair.one(Slot::Identifier) is None
                &&& pair.one(Slot::Integer) is None
                &&& pair.one(Slot::List) is None
                &&& pair.one(Slot::StringNormal) is None
                &&& pair.one(Slot::StringRaw) matches Some(child) && node.models(child)
            },
        }
    }

    /// True when the tree `pair` itself cannot be a node of this type: the slot of
    /// no alternative is filled.
    pub open spec fn lacks(pair: CstTree) -> bool {
        pair.one(Slot::Boolean) is None
            && pair.one(Slot::Identifier) is None
            && pair.one(Slot::Integer) is None
            && pair.one(Slot::List) is None
            && pair.one(Slot::StringNormal) is None
            && pair.one(Slot::StringRaw) is None
    }

    /// Build the node from a tree of the rule `Atomic`. The tree is refused with a
    /// syntax error where no node is its typed form; where that is the fault of the
    /// tree itself, the error names this rule and has the span of the tree.
    pub fn from_pair(pair: &CstNode) -> (res: Result<Self, LifeError>)
        ensures
            res matches Ok(node) ==> node.models(pair@),
            res is Err ==> forall|node: Self| !node.models(pair@),
            res matches Err(error) ==> error.is_syntax_error(),
            Self::lacks(pair@) ==> {
                &&& res matches Err(error)
                &&& error.is_syntax(
                    invalid_node(LifeRestartRule::Atomic),
                    pair@.start as int,
                    pair@.end as int,
                )
            },
            fits(pair@, LifeRestartRule::Atomic) ==> res is Ok,
        decreases pair, 1nat,
    {
        broadcast use group_views;

        match pair.find_first(Slot::Boolean) {
            Some(at) => {
                match BooleanNode::from_pair(&pair.children[at]) {
                    Ok(node) => {
                        return Ok(Self::Boolean(node));
                    },
                    Err(error) => {
                        proof {
                            assert forall|node: Self| !node.models(pair@) by {
                                if node.models(pair@) {
                                    match node {
                                        Self::Boolean(inner) => {
                                            assert(inner.models(pair.children@[at as int]@));
                                        },
                                        _ => {},
                                    }
                                }
                            }
                            if fits(pair@, LifeRestartRule::Atomic) {
                                lemma_fits(pair@, LifeRestartRule::Atomic);
                                assert(fits_in(pair@.children[at as int], LifeRestartRule::Atomic));
                            }
                        }
                        return Err(error);
                    },
                }
            },
            None => {},
        }
        match pair.find_first(Slot::Identifier) {
            Some(at) => {
                match IdentifierNode::from_pair(&pair.children[at]) {
                    Ok(node) => {
                        return Ok(Self::Identifier(node));
                    },
                    Err(error) => {
                        proof {
                            assert forall|node: Self| !node.models(pair@) by {
                                if node.models(pair@) {
                                    match node {
                                        Self::Identifier(inner) => {
                                            assert(inner.models(pair.children@[at as int]@));
                                        },
                                        _ => {},
                                    }
                                }
                            }
                            if fits(pair@, LifeRestartRule::Atomic) {
                                lemma_fits(pair@, LifeRestartRule::Atomic);
                                assert(fits_in(pair@.children[at as int], LifeRestartRule::Atomic));
                            }
                        }
                        return Err(error);
                    },
                }
            },
            None => {},
        }
        match pair.find_first(Slot::Integer) {
            Some(at) => {
                match IntegerNode::from_pair(&pair.children[at]) {
                    Ok(node) => {
                        return Ok(Self::Integer(node));
                    },
                    Err(error) => {
                        proof {
                            assert forall|node: Self| !node.models(pair@) by {
                                if node.models(pair@) {
                                    match node {
                                        Self::Integer(inner) => {
                                            assert(inner.models(pair.children@[at as int]@));
                                        },
                                        _ => {},
                                    }
                                }
                            }
                            if fits(pair@, LifeRestartRule::Atomic) {
                                lemma_fits(pair@, LifeRestartRule::Atomic);
                                assert(fits_in(pair@.children[at as int], LifeRestartRule::Atomic));
                            }
                        }
                        return Err(error);
                    },
                }
            },
            None => {},
        }
        match pair.find_first(Slot::List) {
            Some(at) => {
                match ListNode::from_pair(&pair.children[at]) {
                    Ok(node) => {
                        return Ok(Self::List(node));
                    },
                    Err(error) => {
                        proof {
                            assert forall|node: Self| !node.models(pair@) by {
                                if node.models(pair@) {
                                    match node {
                                        Self::List(inner) => {
                                            assert(inner.models(pair.children@[at as int]@));
                                        },
                                        _ => {},
                                    }
                                }
                            }
                            if fits(pair@, LifeRestartRule::Atomic) {
                                lemma_fits(pair@, LifeRestartRule::Atomic);
                                assert(fits_in(pair@.children[at as int], LifeRestartRule::Atomic));
                            }
                        }
                        return Err(error);
                    },
                }
            },
            None => {},
        }
        match pair.find_first(Slot::StringNormal) {
            Some(at) => {
                match StringNormalNode::from_pair(&pair.children[at]) {
                    Ok(node) => {
                        return Ok(Self::StringNormal(node));
                    },
                    Err(error) => {
                        proof {
                            assert forall|node: Self| !node.models(pair@) by {
                                if node.models(pair@) {
                                    match node {
                                        Self::StringNormal(inner) => {
                                            assert(inner.models(pair.children@[at as int]@));
                                        },
                                        _ => {},
                                    }
                                }
                            }
                            if fits(pair@, LifeRestartRule::Atomic) {
                                lemma_fits(pair@, LifeRestartRule::Atomic);
                                assert(fits_in(pair@.children[at as int], LifeRestartRule::Atomic));
                            }
                        }
                        return Err(error);
                    },
                }
            },
            None => {},
        }
        match pair.find_first(Slot::StringRaw) {
            Some(at) => {
                match StringRawNode::from_pair(&pair.children[at]) {
                    Ok(node) => {
                        return Ok(Self::StringRaw(node));
                    },
                    Err(error) => {
                        proof {
                            assert forall|node: Self| !node.models(pair@) by {
                                if node.models(pair@) {
                                    match node {
                                        Self::StringRaw(inner) => {
                                            assert(inner.models(pair.children@[at as int]@));
                                        },
                                        _ => {},
                                    }
                                }
                            }
                            if fits(pair@, LifeRestartRule::Atomic) {
                                lemma_fits(pair@, LifeRestartRule::Atomic);
                                assert(fits_in(pair@.children[at as int], LifeRestartRule::Atomic));
                            }
                        }
                        return Err(error);
                    },
                }
            },
            None => {},
        }
        Err(refuse(LifeRestartRule::Atomic, pair))
    }

    /// Build the node from the first child of `pair` that fills `slot`, if there is
    /// one.
    pub fn take_one(pair: &CstNode, slot: Slot) -> (res: Result<Option<Self>, LifeError>)
        ensures
            match pair@.one(slot) {
                Some(child) => {
                    &&& res matches Ok(found) ==> found matches Some(node) && node.models(child)
                    &&& res is Err ==> forall|node: Self| !node.models(child)
                },
                None => res matches Ok(found) && found is None,
            },
            res matches Err(error) ==> error.is_syntax_error(),
            (pair@.one(slot) matches Some(child) ==> fits(child, LifeRestartRule::Atomic))
                ==> res is Ok,
        decreases pair, 0nat,
    {
        broadcast use group_views;

        match pair.find_first(slot) {
            Some(at) => match Self::from_pair(&pair.children[at]) {
                Ok(node) => Ok(Some(node)),
                Err(error) => Err(error),
            },
            None => Ok(None),
        }
    }

    /// True when the nodes of `list` are the typed forms of the trees of `pairs`,
    /// one for one.
    pub open spec fn models_all(list: Seq<Self>, pairs: Seq<CstTree>) -> bool {
        &&& list.len() == pairs.len()
        &&& forall|at: int| 0 <= at < list.len() ==> (#[trigger] list[at]).models(pairs[at])
    }

    /// Build the nodes from the children of `pair` that fill `slot`, in order.
    pub fn take_all(pair: &CstNode, slot: Slot) -> (res: Result<Vec<Self>, LifeError>)
        ensures
            res matches Ok(list) ==> Self::models_all(list@, pair@.all(slot)),
            res is Err ==> forall|list: Seq<Self>| !Self::models_all(list, pair@.all(slot)),
            res matches Err(error) ==> error.is_syntax_error(),
            (
                forall|at: int| 0 <= at < pair@.children.len()
                    && (#[trigger] pair@.children[at]).slot == slot
                    ==> fits(pair@.children[at], LifeRestartRule::Atomic)
            )
                ==> res is Ok,
        decreases pair, 0nat,
    {
        broadcast use group_views;

        let mut list: Vec<Self> = Vec::new();
        let mut at: usize = 0;
        while at < pair.children.len()
            invariant
                at <= pair.children@.len(),
                pair@.children == views(pair.children@),
                Self::models_all(list@, picks(pair@.children, slot, at as int)),
            decreases pair.children@.len() - at,
        {
            if pair.children[at].slot == slot {
                match Self::from_pair(&pair.children[at]) {
                    Ok(node) => {
                        list.push(node);
                    },
                    Err(error) => {
                        proof {
                            lemma_picks_prefix(
                                pair@.children,
                                slot,
                                at + 1,
                                pair@.children.len() as int,
                            );
                            let pairs = pair@.all(slot);
                            let bad = picks(pair@.children, slot, at as int).len() as int;
                            assert(pairs[bad] == pair.children@[at as int]@);
                            assert(pair@.children[at as int] == pair.children@[at as int]@);
                            assert forall|list: Seq<Self>| !Self::models_all(list, pairs) by {
                                if Self::models_all(list, pairs) {
                                    assert(list[bad].models(pairs[bad]));
                                }
                            }
                        }
                        return Err(error);
                    },
                }
            }
            at = at + 1;
        }
        Ok(list)
    }

    /// Parse `input` from the rule `Atomic` and build the node from the tree. The
    /// text is refused exactly where the rule does not match at its start, with the
    /// error of the parser: what the rule matches always has a typed form.
    pub fn from_text(input: &str) -> (res: Result<Self, LifeError>)
        ensures
            match spec_parse_cst(input@, LifeRestartRule::Atomic) {
                Ok(tree) => res matches Ok(node) && node.models(tree),
                Err(at) => res matches Err(error) && error.is_syntax(
                    expected(LifeRestartRule::Atomic),
                    at as int,
                    at as int,
                ),
            },
    {
        proof {
            lemma_rule_fits(input@, LifeRestartRule::Atomic, 0);
        }
        match parse_cst(input, LifeRestartRule::Atomic) {
            Ok(pair) => Self::from_pair(&pair),
            Err(error) => Err(error),
        }
    }

    /// The byte range of the node, where it has one.
    pub open spec fn spec_get_range(&self) -> Option<Range<usize>> {
        match self {
            Self::Boolean(node) => node.spec_get_range(),
            Self::Identifier(node) => node.spec_get_range(),
            Self::Integer(node) => node.spec_get_range(),
            Self::List(node) => node.spec_get_range(),
            Self::StringNormal(node) => node.spec_get_range(),
            Self::StringRaw(node) => node.spec_get_range(),
        }
    }

    /// The byte range of the node, where it has one.
    pub fn get_range(&self) -> (range: Option<Range<usize>>)
        ensures
            range == self.spec_get_range(),
    {
        match self {
            Self::Boolean(node) => node.get_range(),
            Self::Identifier(node) => node.get_range(),
            Self::Integer(node) => node.get_range(),
            Self::List(node) => node.get_range(),
            Self::StringNormal(node) => node.get_range(),
            Self::StringRaw(node) => node.get_range(),
        }
    }
}

impl std::str::FromStr for AtomicNode {
    type Err = LifeError;

    /// Parse `input` as this node: the result of `from_text`.
    fn from_str(input: &str) -> (res: Result<Self, LifeError>)
        ensures
            match spec_parse_cst(input@, LifeRestartRule::Atomic) {
                Ok(tree) => res matches Ok(node) && node.models(tree),
                Err(at) => res matches Err(error) && error.is_syntax(
                    expected(LifeRestartRule::Atomic),
                    at as int,
                    at as int,
                ),
            },
    {
        Self::from_text(input)
    }
}

impl ListNode {
    /// True when this node is the typed form of the tree `pair`: it has the span of
    /// the tree, and every field holds the typed form of what fills its slot.
    pub open spec fn models(&self, pair: CstTree) -> bool
        decreases self,
    {
        &&& self.span.start == pair.start
        &&& self.span.end == pair.end
        &&& self.atomic@.len() == pair.all(Slot::Atomic).len()
        &&& forall|at: int|
        0 <= at < self.atomic@.len() ==> (#[trigger] self.atomic@[at]).models(
            pair.all(Slot::Atomic)[at],
        )
        &&& self.comma@.len() == pair.all(Slot::Comma).len()
        &&& forall|at: int|
        0 <= at < self.comma@.len() ==> (#[trigger] self.comma@[at]).models(
            pair.all(Slot::Comma)[at],
        )
    }

    /// Build the node from a tree of the rule `List`. The tree is refused with a
    /// syntax error where no node is its typed form; where that is the fault of the
    /// tree itself, the error names this rule and has the span of the tree.
    pub fn from_pair(pair: &CstNode) -> (res: Result<Self, LifeError>)
        ensures
            res matches Ok(node) ==> node.models(pair@),
            res is Err ==> forall|node: Self| !node.models(pair@),
            res matches Err(error) ==> error.is_syntax_error(),
            fits(pair@, LifeRestartRule::List) ==> res is Ok,
        decreases pair, 1nat,
    {
        broadcast use group_views;

        let atomic = match AtomicNode::take_all(pair, Slot::Atomic) {
            Ok(list) => list,
            Err(error) => {
                proof {
                    assert forall|node: Self| !node.models(pair@) by {
                        if node.models(pair@) {
                            assert(AtomicNode::models_all(node.atomic@, pair@.all(Slot::Atomic)));
                        }
                    }
                    if fits(pair@, LifeRestartRule::List) {
                        lemma_fits(pair@, LifeRestartRule::List);
                        assert forall|at: int| 0 <= at < pair@.children.len()
                            && (#[trigger] pair@.children[at]).slot
                                == Slot::Atomic implies fits(
                                    pair@.children[at],
                                    LifeRestartRule::Atomic,
                                ) by {
                            assert(fits_in(pair@.children[at], LifeRestartRule::List));
                        }
                    }
                }
                return Err(error);
            },
        };
        let comma = match CommaNode::take_all(pair, Slot::Comma) {
            Ok(list) => list,
            Err(error) => {
                proof {
                    assert forall|node: Self| !node.models(pair@) by {
                        if node.models(pair@) {
                            assert(CommaNode::models_all(node.comma@, pair@.all(Slot::Comma)));
                        }
                    }
                    if fits(pair@, LifeRestartRule::List) {
                        lemma_fits(pair@, LifeRestartRule::List);
                        assert forall|at: int| 0 <= at < pair@.children.len()
                            && (#[trigger] pair@.children[at]).slot
                                == Slot::Comma implies fits(
                                    pair@.children[at],
                                    LifeRestartRule::COMMA,
                                ) by {
                            assert(fits_in(pair@.children[at], LifeRestartRule::List));
                        }
                    }
                }
                return Err(error);
            },
        };
        Ok(ListNode { atomic, comma, span: Range { start: pair.span.start, end: pair.span.end } })
    }

    /// Parse `input` from the rule `List` and build the node from the tree. The
    /// text is refused exactly where the rule does not match at its start, with the
    /// error of the parser: what the rule matches always has a typed form.
    pub fn from_text(input: &str) -> (res: Result<Self, LifeError>)
        ensures
            match spec_parse_cst(input@, LifeRestartRule::List) {
                Ok(tree) => res matches Ok(node) && node.models(tree),
                Err(at) => res matches Err(error) && error.is_syntax(
                    expected(LifeRestartRule::List),
                    at as int,
                    at as int,
                ),
            },
    {
        proof {
            lemma_rule_fits(input@, LifeRestartRule::List, 0);
        }
        match parse_cst(input, LifeRestartRule::List) {
            Ok(pair) => Self::from_pair(&pair),
            Err(error) => Err(error),
        }
    }

    /// The byte range of the node, where it has one.
    pub open spec fn spec_get_range(&self) -> Option<Range<usize>> {
        Some(self.span)
    }

    /// The byte range of the node, where it has one.
    pub fn get_range(&self) -> (range: Option<Range<usize>>)
        ensures
            range == self.spec_get_range(),
    {
        Some(Range { start: self.span.start, end: self.span.end })
    }
}

impl std::str::FromStr for ListNode {
    type Err = LifeError;

    /// Parse `input` as this node: the result of `from_text`.
    fn from_str(input: &str) -> (res: Result<Self, LifeError>)
        ensures
            match spec_parse_cst(input@, LifeRestartRule::List) {
                Ok(tree) => res matches Ok(node) && node.models(tree),
                Err(at) => res matches Err(error) && error.is_syntax(
                    expected(LifeRestartRule::List),
                    at as int,
                    at as int,
                ),
            },
    {
        Self::from_text(input)
    }
}

impl StringNode {
    /// True when this node is the typed form of the tree `pair`: it is the first
    /// alternative, in the order of the declaration, whose slot is filled.
    pub open spec fn models(&self, pair: CstTree) -> bool {
        match self {
            Self::StringNormal(node) => {
                &&& pair.one(Slot::StringNormal) matches Some(child) && node.models(child)
            },
            Self::StringRaw(node) => {
                &&& pair.one(Slot::StringNormal) is None
                &&& pair.one(Slot::StringRaw) matches Some(child) && node.models(child)
            },
        }
    }

    /// True when the tree `pair` itself cannot be a node of this type: the slot of
    /// no alternative is filled.
    pub open spec fn lacks(pair: CstTree) -> bool {
        pair.one(Slot::StringNormal) is None && pair.one(Slot::StringRaw) is None
    }

    /// Build the node from a tree of the rule `String`. The tree is refused with a
    /// syntax error where no node is its typed form; where that is the fault of the
    /// tree itself, the error names this rule and has the span of the tree.
    pub fn from_pair(pair: &CstNode) -> (res: Result<Self, LifeError>)
        ensures
            res matches Ok(node) ==> node.models(pair@),
            res is Err ==> forall|node: Self| !node.models(pair@),
            res matches Err(error) ==> error.is_syntax_error(),
            Self::lacks(pair@) ==> {
                &&& res matches Err(error)
                &&& error.is_syntax(
                    invalid_node(LifeRestartRule::String),
                    pair@.start as int,
                    pair@.end as int,
                )
            },
            fits(pair@, LifeRestartRule::String) ==> res is Ok,
    {
        broadcast use group_views;

        match pair.find_first(Slot::StringNormal) {
            Some(at) => {
                match StringNormalNode::from_pair(&pair.children[at]) {
                    Ok(node) => {
                        return Ok(Self::StringNormal(node));
                    },
                    Err(error) => {
                        proof {
                            assert forall|node: Self| !node.models(pair@) by {
                                if node.models(pair@) {
                                    match node {
                                        Self::StringNormal(inner) => {
                                            assert(inner.models(pair.children@[at as int]@));
                                        },
                                        _ => {},
                                    }
                                }
                            }
                            if fits(pair@, LifeRestartRule::String) {
                                lemma_fits(pair@, LifeRestartRule::String);
                                assert(fits_in(pair@.children[at as int], LifeRestartRule::String));
                            }
                        }
                        return Err(error);
                    },
                }
            },
            None => {},
        }
        match pair.find_first(Slot::StringRaw) {
            Some(at) => {
                match StringRawNode::from_pair(&pair.children[at]) {
                    Ok(node) => {
                        return Ok(Self::StringRaw(node));
                    },
                    Err(error) => {
                        proof {
                            assert forall|node: Self| !node.models(pair@) by {
                                if node.models(pair@) {
                                    match node {
                                        Self::StringRaw(inner) => {
                                            assert(inner.models(pair.children@[at as int]@));
                                        },
                                        _ => {},
                                    }
                                }
                            }
                            if fits(pair@, LifeRestartRule::String) {
                                lemma_fits(pair@, LifeRestartRule::String);
                                assert(fits_in(pair@.children[at as int], LifeRestartRule::String));
                            }
                        }
                        return Err(error);
                    },
                }
            },
            None => {},
        }
        Err(refuse(LifeRestartRule::String, pair))
    }

    /// True when the nodes of `list` are the typed forms of the trees of `pairs`,
    /// one for one.
    pub open spec fn models_all(list: Seq<Self>, pairs: Seq<CstTree>) -> bool {
        &&& list.len() == pairs.len()
        &&& forall|at: int| 0 <= at < list.len() ==> (#[trigger] list[at]).models(pairs[at])
    }

    /// Build the nodes from the children of `pair` that fill `slot`, in order.
    pub fn take_all(pair: &CstNode, slot: Slot) -> (res: Result<Vec<Self>, LifeError>)
        ensures
            res matches Ok(list) ==> Self::models_all(list@, pair@.all(slot)),
            res is Err ==> forall|list: Seq<Self>| !Self::models_all(list, pair@.all(slot)),
            res matches Err(error) ==> error.is_syntax_error(),
            (
                forall|at: int| 0 <= at < pair@.children.len()
                    && (#[trigger] pair@.children[at]).slot == slot
                    ==> fits(pair@.children[at], LifeRestartRule::String)
            )
                ==> res is Ok,
    {
        broadcast use group_views;

        let mut list: Vec<Self> = Vec::new();
        let mut at: usize = 0;
        while at < pair.children.len()
            invariant
                at <= pair.children@.len(),
                pair@.children == views(pair.children@),
                Self::models_all(list@, picks(pair@.children, slot, at as int)),
            decreases pair.children@.len() - at,
        {
            if pair.children[at].slot == slot {
                match Self::from_pair(&pair.children[at]) {
                    Ok(node) => {
                        list.push(node);
                    },
                    Err(error) => {
                        proof {
                            lemma_picks_prefix(
                                pair@.children,
                                slot,
                                at + 1,
                                pair@.children.len() as int,
                            );
                            let pairs = pair@.all(slot);
                            let bad = picks(pair@.children, slot, at as int).len() as int;
                            assert(pairs[bad] == pair.children@[at as int]@);
                            assert(pair@.children[at as int] == pair.children@[at as int]@);
                            assert forall|list: Seq<Self>| !Self::models_all(list, pairs) by {
                                if Self::models_all(list, pairs) {
                                    assert(list[bad].models(pairs[bad]));
                                }
                            }
                        }
                        return Err(error);
                    },
                }
            }
            at = at + 1;
        }
        Ok(list)
    }

    /// Parse `input` from the rule `String` and build the node from the tree. The
    /// text is refused exactly where the rule does not match at its start, with the
    /// error of the parser: what the rule matches always has a typed form.
    pub fn from_text(input: &str) -> (res: Result<Self, LifeError>)
        ensures
            match spec_parse_cst(input@, LifeRestartRule::String) {
                Ok(tree) => res matches Ok(node) && node.models(tree),
                Err(at) => res matches Err(error) && error.is_syntax(
                    expected(LifeRestartRule::String),
                    at as int,
                    at as int,
                ),
            },
    {
        proof {
            lemma_rule_fits(input@, LifeRestartRule::String, 0);
        }
        match parse_cst(input, LifeRestartRule::String) {
            Ok(pair) => Self::from_pair(&pair),
            Err(error) => Err(error),
        }
    }

    /// The byte range of the node, where it has one.
    pub open spec fn spec_get_range(&self) -> Option<Range<usize>> {
        match self {
            Self::StringNormal(node) => node.spec_get_range(),
            Self::StringRaw(node) => node.spec_get_range(),
        }
    }

    /// The byte range of the node, where it has one.
    pub fn get_range(&self) -> (range: Option<Range<usize>>)
        ensures
            range == self.spec_get_range(),
    {
        match self {
            Self::StringNormal(node) => node.get_range(),
            Self::StringRaw(node) => node.get_range(),
        }
    }
}

impl std::str::FromStr for StringNode {
    type Err = LifeError;

    /// Parse `input` as this node: the result of `from_text`.
    fn from_str(input: &str) -> (res: Result<Self, LifeError>)
        ensures
            match spec_parse_cst(input@, LifeRestartRule::String) {
                Ok(tree) => res matches Ok(node) && node.models(tree),
                Err(at) => res matches Err(error) && error.is_syntax(
                    expected(LifeRestartRule::String),
                    at as int,
                    at as int,
                ),
            },
    {
        Self::from_text(input)
    }
}

impl StringRawNode {
    /// True when this node is the typed form of the tree `pair`: it has the span of
    /// the tree, and every field holds the typed form of what fills its slot.
    pub open spec fn models(&self, pair: CstTree) -> bool {
        &&& self.span.start == pair.start
        &&& self.span.end == pair.end
        &&& pair.one(Slot::StringRawText) matches Some(child) && self.string_raw_text.models(child)
    }

    /// True when the tree `pair` itself cannot be a node of this type: a slot that
    /// has to be filled is empty.
    pub open spec fn lacks(pair: CstTree) -> bool {
        pair.one(Slot::StringRawText) is None
    }

    /// Build the node from a tree of the rule `StringRaw`. The tree is refused with
    /// a syntax error where no node is its typed form; where that is the fault of
    /// the tree itself, the error names this rule and has the span of the tree.
    pub fn from_pair(pair: &CstNode) -> (res: Result<Self, LifeError>)
        ensures
            res matches Ok(node) ==> node.models(pair@),
            res is Err ==> forall|node: Self| !node.models(pair@),
            res matches Err(error) ==> error.is_syntax_error(),
            Self::lacks(pair@) ==> {
                &&& res matches Err(error)
                &&& error.is_syntax(
                    invalid_node(LifeRestartRule::StringRaw),
                    pair@.start as int,
                    pair@.end as int,
                )
            },
            fits(pair@, LifeRestartRule::StringRaw) ==> res is Ok,
    {
        broadcast use group_views;

        let string_raw_text_at = match pair.find_first(Slot::StringRawText) {
            Some(at) => at,
            None => {
                return Err(refuse(LifeRestartRule::StringRaw, pair));
            },
        };
        let string_raw_text = match StringRawTextNode::from_pair(
            &pair.children[string_raw_text_at]
        ) {
            Ok(node) => node,
            Err(error) => {
                proof {
                    assert forall|node: Self| !node.models(pair@) by {
                        if node.models(pair@) {
                            assert(
                                node.string_raw_text.models(
                                    pair.children@[string_raw_text_at as int]@
                                )
                            );
                        }
                    }
                    if fits(pair@, LifeRestartRule::StringRaw) {
                        lemma_fits(pair@, LifeRestartRule::StringRaw);
                        assert(
                            fits_in(
                                pair@.children[string_raw_text_at as int],
                                LifeRestartRule::StringRaw,
                            )
                        );
                    }
                }
                return Err(error);
            },
        };
        Ok(
            StringRawNode {
                string_raw_text,
                span: Range { start: pair.span.start, end: pair.span.end },
            }
        )
    }

    /// Parse `input` from the rule `StringRaw` and build the node from the tree.
    /// The text is refused exactly where the rule does not match at its start, with
    /// the error of the parser: what the rule matches always has a typed form.
    pub fn from_text(input: &str) -> (res: Result<Self, LifeError>)
        ensures
            match spec_parse_cst(input@, LifeRestartRule::StringRaw) {
                Ok(tree) => res matches Ok(node) && node.models(tree),
                Err(at) => res matches Err(error) && error.is_syntax(
                    expected(LifeRestartRule::StringRaw),
                    at as int,
                    at as int,
                ),
            },
    {
        proof {
            lemma_rule_fits(input@, LifeRestartRule::StringRaw, 0);
        }
        match parse_cst(input, LifeRestartRule::StringRaw) {
            Ok(pair) => Self::from_pair(&pair),
            Err(error) => Err(error),
        }
    }

    /// The byte range of the node, where it has one.
    pub open spec fn spec_get_range(&self) -> Option<Range<usize>> {
        Some(self.span)
    }

    /// The byte range of the node, where it has one.
    pub fn get_range(&self) -> (range: Option<Range<usize>>)
        ensures
            range == self.spec_get_range(),
    {
        Some(Range { start: self.span.start, end: self.span.end })
    }
}

impl std::str::FromStr for StringRawNode {
    type Err = LifeError;

    /// Parse `input` as this node: the result of `from_text`.
    fn from_str(input: &str) -> (res: Result<Self, LifeError>)
        ensures
            match spec_parse_cst(input@, LifeRestartRule::StringRaw) {
                Ok(tree) => res matches Ok(node) && node.models(tree),
                Err(at) => res matches Err(error) && error.is_syntax(
                    expected(LifeRestartRule::StringRaw),
                    at as int,
                    at as int,
                ),
            },
    {
        Self::from_text(input)
    }
}

impl StringRawTextNode {
    /// True when this node is the typed form of the tree `pair`: it has the span of
    /// the tree, and every field holds the typed form of what fills its slot.
    pub open spec fn models(&self, pair: CstTree) -> bool {
        &&& self.span.start == pair.start
        &&& self.span.end == pair.end
        &&& self.text@ == pair.text
    }

    /// Build the node from a tree of the rule `StringRawText`. The tree is refused
    /// with a syntax error where no node is its typed form; where that is the fault
    /// of the tree itself, the error names this rule and has the span of the tree.
    pub fn from_pair(pair: &CstNode) -> (res: Result<Self, LifeError>)
        ensures
            res matches Ok(node) ==> node.models(pair@),
            res is Err ==> forall|node: Self| !node.models(pair@),
            res matches Err(error) ==> error.is_syntax_error(),
            fits(pair@, LifeRestartRule::StringRawText) ==> res is Ok,
    {
        broadcast use group_views;

        Ok(
            StringRawTextNode {
                text: pair.text.clone(),
                span: Range { start: pair.span.start, end: pair.span.end },
            }
        )
    }

    /// Build the node from the first child of `pair` that fills `slot`, if there is
    /// one.
    pub fn take_one(pair: &CstNode, slot: Slot) -> (res: Result<Option<Self>, LifeError>)
        ensures
            match pair@.one(slot) {
                Some(child) => {
                    &&& res matches Ok(found) ==> found matches Some(node) && node.models(child)
                    &&& res is Err ==> forall|node: Self| !node.models(child)
                },
                None => res matches Ok(found) && found is None,
            },
            res matches Err(error) ==> error.is_syntax_error(),
            (pair@.one(slot) matches Some(child) ==> fits(child, LifeRestartRule::StringRawText))
                ==> res is Ok,
    {
        broadcast use group_views;

        match pair.find_first(slot) {
            Some(at) => match Self::from_pair(&pair.children[at]) {
                Ok(node) => Ok(Some(node)),
                Err(error) => Err(error),
            },
            None => Ok(None),
        }
    }

    /// Parse `input` from the rule `StringRawText` and build the node from the
    /// tree. The text is refused exactly where the rule does not match at its
    /// start, with the error of the parser: what the rule matches always has a
    /// typed form.
    pub fn from_text(input: &str) -> (res: Result<Self, LifeError>)
        ensures
            match spec_parse_cst(input@, LifeRestartRule::StringRawText) {
                Ok(tree) => res matches Ok(node) && node.models(tree),
                Err(at) => res matches Err(error) && error.is_syntax(
                    expected(LifeRestartRule::StringRawText),
                    at as int,
                    at as int,
                ),
            },
    {
        proof {
            lemma_rule_fits(input@, LifeRestartRule::StringRawText, 0);
        }
        match parse_cst(input, LifeRestartRule::StringRawText) {
            Ok(pair) => Self::from_pair(&pair),
            Err(error) => Err(error),
        }
    }

    /// The byte range of the node, where it has one.
    pub open spec fn spec_get_range(&self) -> Option<Range<usize>> {
        Some(self.span)
    }

    /// The byte range of the node, where it has one.
    pub fn get_range(&self) -> (range: Option<Range<usize>>)
        ensures
            range == self.spec_get_range(),
    {
        Some(Range { start: self.span.start, end: self.span.end })
    }
}

impl std::str::FromStr for StringRawTextNode {
    type Err = LifeError;

    /// Parse `input` as this node: the result of `from_text`.
    fn from_str(input: &str) -> (res: Result<Self, LifeError>)
        ensures
            match spec_parse_cst(input@, LifeRestartRule::StringRawText) {
                Ok(tree) => res matches Ok(node) && node.models(tree),
                Err(at) => res matches Err(error) && error.is_syntax(
                    expected(LifeRestartRule::StringRawText),
                    at as int,
                    at as int,
                ),
            },
    {
        Self::from_text(input)
    }
}

impl StringNormalNode {
    /// True when this node is the typed form of the tree `pair`: it has the span of
    /// the tree, and every field holds the typed form of what fills its slot.
    pub open spec fn models(&self, pair: CstTree) -> bool {
        &&& self.span.start == pair.start
        &&& self.span.end == pair.end
        &&& self.string_item@.len() == pair.all(Slot::StringItem).len()
        &&& forall|at: int|
        0 <= at < self.string_item@.len() ==> (#[trigger] self.string_item@[at]).models(
            pair.all(Slot::StringItem)[at],
        )
    }

    /// Build the node from a tree of the rule `StringNormal`. The tree is refused
    /// with a syntax error where no node is its typed form; where that is the fault
    /// of the tree itself, the error names this rule and has the span of the tree.
    pub fn from_pair(pair: &CstNode) -> (res: Result<Self, LifeError>)
        ensures
            res matches Ok(node) ==> node.models(pair@),
            res is Err ==> forall|node: Self| !node.models(pair@),
            res matches Err(error) ==> error.is_syntax_error(),
            fits(pair@, LifeRestartRule::StringNormal) ==> res is Ok,
    {
        broadcast use group_views;

        let string_item = match StringItemNode::take_all(pair, Slot::StringItem) {
            Ok(list) => list,
            Err(error) => {
                proof {
                    assert forall|node: Self| !node.models(pair@) by {
                        if node.models(pair@) {
                            assert(
                                StringItemNode::models_all(
                                    node.string_item@,
                                    pair@.all(Slot::StringItem),
                                )
                            );
                        }
                    }
                    if fits(pair@, LifeRestartRule::StringNormal) {
                        lemma_fits(pair@, LifeRestartRule::StringNormal);
                        assert forall|at: int| 0 <= at < pair@.children.len()
                            && (#[trigger] pair@.children[at]).slot
                                == Slot::StringItem implies fits(
                                    pair@.children[at],
                                    LifeRestartRule::StringItem,
                                ) by {
                            assert(fits_in(pair@.children[at], LifeRestartRule::StringNormal));
                        }
                    }
                }
                return Err(error);
            },
        };
        Ok(
            StringNormalNode {
                string_item,
                span: Range { start: pair.span.start, end: pair.span.end },
            }
        )
    }

    /// Parse `input` from the rule `StringNormal` and build the node from the tree.
    /// The text is refused exactly where the rule does not match at its start, with
    /// the error of the parser: what the rule matches always has a typed form.
    pub fn from_text(input: &str) -> (res: Result<Self, LifeError>)
        ensures
            match spec_parse_cst(input@, LifeRestartRule::StringNormal) {
                Ok(tree) => res matches Ok(node) && node.models(tree),
                Err(at) => res matches Err(error) && error.is_syntax(
                    expected(LifeRestartRule::StringNormal),
                    at as int,
                    at as int,
                ),
            },
    {
        proof {
            lemma_rule_fits(input@, LifeRestartRule::StringNormal, 0);
        }
        match parse_cst(input, LifeRestartRule::StringNormal) {
            Ok(pair) => Self::from_pair(&pair),
            Err(error) => Err(error),
        }
    }

    /// The byte range of the node, where it has one.
    pub open spec fn spec_get_range(&self) -> Option<Range<usize>> {
        Some(self.span)
    }

    /// The byte range of the node, where it has one.
    pub fn get_range(&self) -> (range: Option<Range<usize>>)
        ensures
            range == self.spec_get_range(),
    {
        Some(Range { start: self.span.start, end: self.span.end })
    }
}

impl std::str::FromStr for StringNormalNode {
    type Err = LifeError;

    /// Parse `input` as this node: the result of `from_text`.
    fn from_str(input: &str) -> (res: Result<Self, LifeError>)
        ensures
            match spec_parse_cst(input@, LifeRestartRule::StringNormal) {
                Ok(tree) => res matches Ok(node) && node.models(tree),
                Err(at) => res matches Err(error) && error.is_syntax(
                    expected(LifeRestartRule::StringNormal),
                    at as int,
                    at as int,
                ),
            },
    {
        Self::from_text(input)
    }
}

impl StringItemNode {
    /// True when this node is the typed form of the tree `pair`: it is the first
    /// alternative, in the order of the declaration, whose slot is filled.
    pub open spec fn models(&self, pair: CstTree) -> bool {
        match self {
            Self::EscapedCharacter(node) => {
                &&& pair.one(Slot::EscapedCharacter) matches Some(child) && node.models(child)
            },
            Self::EscapedUnicode(node) => {
                &&& pair.one(Slot::EscapedCharacter) is None
                &&& pair.one(Slot::EscapedUnicode) matches Some(child) && node.models(child)
            },
            Self::TextAny(node) => {
                &&& pair.one(Slot::EscapedCharacter) is None
                &&& pair.one(Slot::EscapedUnicode) is None
                &&& pair.one(Slot::TextAny) matches Some(child) && node.models(child)
            },
        }
    }

    /// True when the tree `pair` itself cannot be a node of this type: the slot of
    /// no alternative is filled.
    pub open spec fn lacks(pair: CstTree) -> bool {
        pair.one(Slot::EscapedCharacter) is None
            && pair.one(Slot::EscapedUnicode) is None
            && pair.one(Slot::TextAny) is None
    }

    /// Build the node from a tree of the rule `StringItem`. The tree is refused
    /// with a syntax error where no node is its typed form; where that is the fault
    /// of the tree itself, the error names this rule and has the span of the tree.
    pub fn from_pair(pair: &CstNode) -> (res: Result<Self, LifeError>)
        ensures
            res matches Ok(node) ==> node.models(pair@),
            res is Err ==> forall|node: Self| !node.models(pair@),
            res matches Err(error) ==> error.is_syntax_error(),
            Self::lacks(pair@) ==> {
                &&& res matches Err(error)
                &&& error.is_syntax(
                    invalid_node(LifeRestartRule::StringItem),
                    pair@.start as int,
                    pair@.end as int,
                )
            },
            fits(pair@, LifeRestartRule::StringItem) ==> res is Ok,
    {
        broadcast use group_views;

        match pair.find_first(Slot::EscapedCharacter) {
            Some(at) => {
                match EscapedCharacterNode::from_pair(&pair.children[at]) {
                    Ok(node) => {
                        return Ok(Self::EscapedCharacter(node));
                    },
                    Err(error) => {
                        proof {
                            assert forall|node: Self| !node.models(pair@) by {
                                if node.models(pair@) {
                                    match node {
                                        Self::EscapedCharacter(inner) => {
                                            assert(inner.models(pair.children@[at as int]@));
                                        },
                                        _ => {},
                                    }
                                }
                            }
                            if fits(pair@, LifeRestartRule::StringItem) {
                                lemma_fits(pair@, LifeRestartRule::StringItem);
                                assert(
                                    fits_in(pair@.children[at as int], LifeRestartRule::StringItem)
                                );
                            }
                        }
                        return Err(error);
                    },
                }
            },
            None => {},
        }
        match pair.find_first(Slot::EscapedUnicode) {
            Some(at) => {
                match EscapedUnicodeNode::from_pair(&pair.children[at]) {
                    Ok(node) => {
                        return Ok(Self::EscapedUnicode(node));
                    },
                    Err(error) => {
                        proof {
                            assert forall|node: Self| !node.models(pair@) by {
                                if node.models(pair@) {
                                    match node {
                                        Self::EscapedUnicode(inner) => {
                                            assert(inner.models(pair.children@[at as int]@));
                                        },
                                        _ => {},
                                    }
                                }
                            }
                            if fits(pair@, LifeRestartRule::StringItem) {
                                lemma_fits(pair@, LifeRestartRule::StringItem);
                                assert(
                                    fits_in(pair@.children[at as int], LifeRestartRule::StringItem)
                                );
                            }
                        }
                        return Err(error);
                    },
                }
            },
            None => {},
        }
        match pair.find_first(Slot::TextAny) {
            Some(at) => {
                match TextAnyNode::from_pair(&pair.children[at]) {
                    Ok(node) => {
                        return Ok(Self::TextAny(node));
                    },
                    Err(error) => {
                        proof {
                            assert forall|node: Self| !node.models(pair@) by {
                                if node.models(pair@) {
                                    match node {
                                        Self::TextAny(inner) => {
                                            assert(inner.models(pair.children@[at as int]@));
                                        },
                                        _ => {},
                                    }
                                }
                            }
                            if fits(pair@, LifeRestartRule::StringItem) {
                                lemma_fits(pair@, LifeRestartRule::StringItem);
                                assert(
                                    fits_in(pair@.children[at as int], LifeRestartRule::StringItem)
                                );
                            }
                        }
                        return Err(error);
                    },
                }
            },
            None => {},
        }
        Err(refuse(LifeRestartRule::StringItem, pair))
    }

    /// True when the nodes of `list` are the typed forms of the trees of `pairs`,
    /// one for one.
    pub open spec fn models_all(list: Seq<Self>, pairs: Seq<CstTree>) -> bool {
        &&& list.len() == pairs.len()
        &&& forall|at: int| 0 <= at < list.len() ==> (#[trigger] list[at]).models(pairs[at])
    }

    /// Build the nodes from the children of `pair` that fill `slot`, in order.
    pub fn take_all(pair: &CstNode, slot: Slot) -> (res: Result<Vec<Self>, LifeError>)
        ensures
            res matches Ok(list) ==> Self::models_all(list@, pair@.all(slot)),
            res is Err ==> forall|list: Seq<Self>| !Self::models_all(list, pair@.all(slot)),
            res matches Err(error) ==> error.is_syntax_error(),
            (
                forall|at: int| 0 <= at < pair@.children.len()
                    && (#[trigger] pair@.children[at]).slot == slot
                    ==> fits(pair@.children[at], LifeRestartRule::StringItem)
            )
                ==> res is Ok,
    {
        broadcast use group_views;

        let mut list: Vec<Self> = Vec::new();
        let mut at: usize = 0;
        while at < pair.children.len()
            invariant
                at <= pair.children@.len(),
                pair@.children == views(pair.children@),
                Self::models_all(list@, picks(pair@.children, slot, at as int)),
            decreases pair.children@.len() - at,
        {
            if pair.children[at].slot == slot {
                match Self::from_pair(&pair.children[at]) {
                    Ok(node) => {
                        list.push(node);
                    },
                    Err(error) => {
                        proof {
                            lemma_picks_prefix(
                                pair@.children,
                                slot,
                                at + 1,
                                pair@.children.len() as int,
                            );
                            let pairs = pair@.all(slot);
                            let bad = picks(pair@.children, slot, at as int).len() as int;
                            assert(pairs[bad] == pair.children@[at as int]@);
                            assert(pair@.children[at as int] == pair.children@[at as int]@);
                            assert forall|list: Seq<Self>| !Self::models_all(list, pairs) by {
                                if Self::models_all(list, pairs) {
                                    assert(list[bad].models(pairs[bad]));
                                }
                            }
                        }
                        return Err(error);
                    },
                }
            }
            at = at + 1;
        }
        Ok(list)
    }

    /// Parse `input` from the rule `StringItem` and build the node from the tree.
    /// The text is refused exactly where the rule does not match at its start, with
    /// the error of the parser: what the rule matches always has a typed form.
    pub fn from_text(input: &str) -> (res: Result<Self, LifeError>)
        ensures
            match spec_parse_cst(input@, LifeRestartRule::StringItem) {
                Ok(tree) => res matches Ok(node) && node.models(tree),
                Err(at) => res matches Err(error) && error.is_syntax(
                    expected(LifeRestartRule::StringItem),
                    at as int,
                    at as int,
                ),
            },
    {
        proof {
            lemma_rule_fits(input@, LifeRestartRule::StringItem, 0);
        }
        match parse_cst(input, LifeRestartRule::StringItem) {
            Ok(pair) => Self::from_pair(&pair),
            Err(error) => Err(error),
        }
    }

    /// The byte range of the node, where it has one.
    pub open spec fn spec_get_range(&self) -> Option<Range<usize>> {
        match self {
            Self::EscapedCharacter(node) => node.spec_get_range(),
            Self::EscapedUnicode(node) => node.spec_get_range(),
            Self::TextAny(node) => node.spec_get_range(),
        }
    }

    /// The byte range of the node, where it has one.
    pub fn get_range(&self) -> (range: Option<Range<usize>>)
        ensures
            range == self.spec_get_range(),
    {
        match self {
            Self::EscapedCharacter(node) => node.get_range(),
            Self::EscapedUnicode(node) => node.get_range(),
            Self::TextAny(node) => node.get_range(),
        }
    }
}

impl std::str::FromStr for StringItemNode {
    type Err = LifeError;

    /// Parse `input` as this node: the result of `from_text`.
    fn from_str(input: &str) -> (res: Result<Self, LifeError>)
        ensures
            match spec_parse_cst(input@, LifeRestartRule::StringItem) {
                Ok(tree) => res matches Ok(node) && node.models(tree),
                Err(at) => res matches Err(error) && error.is_syntax(
                    expected(LifeRestartRule::StringItem),
                    at as int,
                    at as int,
                ),
            },
    {
        Self::from_text(input)
    }
}

impl EscapedUnicodeNode {
    /// True when this node is the typed form of the tree `pair`: it has the span of
    /// the tree, and every field holds the typed form of what fills its slot.
    pub open spec fn models(&self, pair: CstTree) -> bool {
        &&& self.span.start == pair.start
        &&& self.span.end == pair.end
        &&& pair.one(Slot::Hex) matches Some(child) && self.hex.models(child)
    }

    /// True when the tree `pair` itself cannot be a node of this type: a slot that
    /// has to be filled is empty.
    pub open spec fn lacks(pair: CstTree) -> bool {
        pair.one(Slot::Hex) is None
    }

    /// Build the node from a tree of the rule `EscapedUnicode`. The tree is refused
    /// with a syntax error where no node is its typed form; where that is the fault
    /// of the tree itself, the error names this rule and has the span of the tree.
    pub fn from_pair(pair: &CstNode) -> (res: Result<Self, LifeError>)
        ensures
            res matches Ok(node) ==> node.models(pair@),
            res is Err ==> forall|node: Self| !node.models(pair@),
            res matches Err(error) ==> error.is_syntax_error(),
            Self::lacks(pair@) ==> {
                &&& res matches Err(error)
                &&& error.is_syntax(
                    invalid_node(LifeRestartRule::EscapedUnicode),
                    pair@.start as int,
                    pair@.end as int,
                )
            },
            fits(pair@, LifeRestartRule::EscapedUnicode) ==> res is Ok,
    {
        broadcast use group_views;

        let hex_at = match pair.find_first(Slot::Hex) {
            Some(at) => at,
            None => {
                return Err(refuse(LifeRestartRule::EscapedUnicode, pair));
            },
        };
        let hex = match HexNode::from_pair(&pair.children[hex_at]) {
            Ok(node) => node,
            Err(error) => {
                proof {
                    assert forall|node: Self| !node.models(pair@) by {
                        if node.models(pair@) {
                            assert(node.hex.models(pair.children@[hex_at as int]@));
                        }
                    }
                    if fits(pair@, LifeRestartRule::EscapedUnicode) {
                        lemma_fits(pair@, LifeRestartRule::EscapedUnicode);
                        assert(
                            fits_in(pair@.children[hex_at as int], LifeRestartRule::EscapedUnicode)
                        );
                    }
                }
                return Err(error);
            },
        };
        Ok(EscapedUnicodeNode { hex, span: Range { start: pair.span.start, end: pair.span.end } })
    }

    /// Parse `input` from the rule `EscapedUnicode` and build the node from the
    /// tree. The text is refused exactly where the rule does not match at its
    /// start, with the error of the parser: what the rule matches always has a
    /// typed form.
    pub fn from_text(input: &str) -> (res: Result<Self, LifeError>)
        ensures
            match spec_parse_cst(input@, LifeRestartRule::EscapedUnicode) {
                Ok(tree) => res matches Ok(node) && node.models(tree),
                Err(at) => res matches Err(error) && error.is_syntax(
                    expected(LifeRestartRule::EscapedUnicode),
                    at as int,
                    at as int,
                ),
            },
    {
        proof {
            lemma_rule_fits(input@, LifeRestartRule::EscapedUnicode, 0);
        }
        match parse_cst(input, LifeRestartRule::EscapedUnicode) {
            Ok(pair) => Self::from_pair(&pair),
            Err(error) => Err(error),
        }
    }

    /// The byte range of the node, where it has one.
    pub open spec fn spec_get_range(&self) -> Option<Range<usize>> {
        Some(self.span)
    }

    /// The byte range of the node, where it has one.
    pub fn get_range(&self) -> (range: Option<Range<usize>>)
        ensures
            range == self.spec_get_range(),
    {
        Some(Range { start: self.span.start, end: self.span.end })
    }
}

impl std::str::FromStr for EscapedUnicodeNode {
    type Err = LifeError;

    /// Parse `input` as this node: the result of `from_text`.
    fn from_str(input: &str) -> (res: Result<Self, LifeError>)
        ensures
            match spec_parse_cst(input@, LifeRestartRule::EscapedUnicode) {
                Ok(tree) => res matches Ok(node) && node.models(tree),
                Err(at) => res matches Err(error) && error.is_syntax(
                    expected(LifeRestartRule::EscapedUnicode),
                    at as int,
                    at as int,
                ),
            },
    {
        Self::from_text(input)
    }
}

impl EscapedCharacterNode {
    /// True when this node is the typed form of the tree `pair`: it has the span of
    /// the tree, and every field holds the typed form of what fills its slot.
    pub open spec fn models(&self, pair: CstTree) -> bool {
        &&& self.span.start == pair.start
        &&& self.span.end == pair.end
        &&& self.text@ == pair.text
    }

    /// Build the node from a tree of the rule `EscapedCharacter`. The tree is
    /// refused with a syntax error where no node is its typed form; where that is
    /// the fault of the tree itself, the error names this rule and has the span of
    /// the tree.
    pub fn from_pair(pair: &CstNode) -> (res: Result<Self, LifeError>)
        ensures
            res matches Ok(node) ==> node.models(pair@),
            res is Err ==> forall|node: Self| !node.models(pair@),
            res matches Err(error) ==> error.is_syntax_error(),
            fits(pair@, LifeRestartRule::EscapedCharacter) ==> res is Ok,
    {
        broadcast use group_views;

        Ok(
            EscapedCharacterNode {
                text: pair.text.clone(),
                span: Range { start: pair.span.start, end: pair.span.end },
            }
        )
    }

    /// Parse `input` from the rule `EscapedCharacter` and build the node from the
    /// tree. The text is refused exactly where the rule does not match at its
    /// start, with the error of the parser: what the rule matches always has a
    /// typed form.
    pub fn from_text(input: &str) -> (res: Result<Self, LifeError>)
        ensures
            match spec_parse_cst(input@, LifeRestartRule::EscapedCharacter) {
                Ok(tree) => res matches Ok(node) && node.models(tree),
                Err(at) => res matches Err(error) && error.is_syntax(
                    expected(LifeRestartRule::EscapedCharacter),
                    at as int,
                    at as int,
                ),
            },
    {
        proof {
            lemma_rule_fits(input@, LifeRestartRule::EscapedCharacter, 0);
        }
        match parse_cst(input, LifeRestartRule::EscapedCharacter) {
            Ok(pair) => Self::from_pair(&pair),
            Err(error) => Err(error),
        }
    }

    /// The byte range of the node, where it has one.
    pub open spec fn spec_get_range(&self) -> Option<Range<usize>> {
        Some(self.span)
    }

    /// The byte range of the node, where it has one.
    pub fn get_range(&self) -> (range: Option<Range<usize>>)
        ensures
            range == self.spec_get_range(),
    {
        Some(Range { start: self.span.start, end: self.span.end })
    }
}

impl std::str::FromStr for EscapedCharacterNode {
    type Err = LifeError;

    /// Parse `input` as this node: the result of `from_text`.
    fn from_str(input: &str) -> (res: Result<Self, LifeError>)
        ensures
            match spec_parse_cst(input@, LifeRestartRule::EscapedCharacter) {
                Ok(tree) => res matches Ok(node) && node.models(tree),
                Err(at) => res matches Err(error) && error.is_syntax(
                    expected(LifeRestartRule::EscapedCharacter),
                    at as int,
                    at as int,
                ),
            },
    {
        Self::from_text(input)
    }
}

impl HexNode {
    /// True when this node is the typed form of the tree `pair`: it has the span of
    /// the tree, and every field holds the typed form of what fills its slot.
    pub open spec fn models(&self, pair: CstTree) -> bool {
        &&& self.span.start == pair.start
        &&& self.span.end == pair.end
        &&& self.text@ == pair.text
    }

    /// Build the node from a tree of the rule `HEX`. The tree is refused with a
    /// syntax error where no node is its typed form; where that is the fault of the
    /// tree itself, the error names this rule and has the span of the tree.
    pub fn from_pair(pair: &CstNode) -> (res: Result<Self, LifeError>)
        ensures
            res matches Ok(node) ==> node.models(pair@),
            res is Err ==> forall|node: Self| !node.models(pair@),
            res matches Err(error) ==> error.is_syntax_error(),
            fits(pair@, LifeRestartRule::HEX) ==> res is Ok,
    {
        broadcast use group_views;

        Ok(
            HexNode {
                text: pair.text.clone(),
                span: Range { start: pair.span.start, end: pair.span.end },
            }
        )
    }

    /// Build the node from the first child of `pair` that fills `slot`, if there is
    /// one.
    pub fn take_one(pair: &CstNode, slot: Slot) -> (res: Result<Option<Self>, LifeError>)
        ensures
            match pair@.one(slot) {
                Some(child) => {
                    &&& res matches Ok(found) ==> found matches Some(node) && node.models(child)
                    &&& res is Err ==> forall|node: Self| !node.models(child)
                },
                None => res matches Ok(found) && found is None,
            },
            res matches Err(error) ==> error.is_syntax_error(),
            (pair@.one(slot) matches Some(child) ==> fits(child, LifeRestartRule::HEX))
                ==> res is Ok,
    {
        broadcast use group_views;

        match pair.find_first(slot) {
            Some(at) => match Self::from_pair(&pair.children[at]) {
                Ok(node) => Ok(Some(node)),
                Err(error) => Err(error),
            },
            None => Ok(None),
        }
    }

    /// Parse `input` from the rule `HEX` and build the node from the tree. The text
    /// is refused exactly where the rule does not match at its start, with the
    /// error of the parser: what the rule matches always has a typed form.
    pub fn from_text(input: &str) -> (res: Result<Self, LifeError>)
        ensures
            match spec_parse_cst(input@, LifeRestartRule::HEX) {
                Ok(tree) => res matches Ok(node) && node.models(tree),
                Err(at) => res matches Err(error) && error.is_syntax(
                    expected(LifeRestartRule::HEX),
                    at as int,
                    at as int,
                ),
            },
    {
        proof {
            lemma_rule_fits(input@, LifeRestartRule::HEX, 0);
        }
        match parse_cst(input, LifeRestartRule::HEX) {
            Ok(pair) => Self::from_pair(&pair),
            Err(error) => Err(error),
        }
    }

    /// The byte range of the node, where it has one.
    pub open spec fn spec_get_range(&self) -> Option<Range<usize>> {
        Some(self.span)
    }

    /// The byte range of the node, where it has one.
    pub fn get_range(&self) -> (range: Option<Range<usize>>)
        ensures
            range == self.spec_get_range(),
    {
        Some(Range { start: self.span.start, end: self.span.end })
    }
}

impl std::str::FromStr for HexNode {
    type Err = LifeError;

    /// Parse `input` as this node: the result of `from_text`.
    fn from_str(input: &str) -> (res: Result<Self, LifeError>)
        ensures
            match spec_parse_cst(input@, LifeRestartRule::HEX) {
                Ok(tree) => res matches Ok(node) && node.models(tree),
                Err(at) => res matches Err(error) && error.is_syntax(
                    expected(LifeRestartRule::HEX),
                    at as int,
                    at as int,
                ),
            },
    {
        Self::from_text(input)
    }
}

impl TextAnyNode {
    /// True when this node is the typed form of the tree `pair`: it has the span of
    /// the tree, and every field holds the typed form of what fills its slot.
    pub open spec fn models(&self, pair: CstTree) -> bool {
        &&& self.span.start == pair.start
        &&& self.span.end == pair.end
        &&& self.text@ == pair.text
    }

    /// Build the node from a tree of the rule `TextAny`. The tree is refused with a
    /// syntax error where no node is its typed form; where that is the fault of the
    /// tree itself, the error names this rule and has the span of the tree.
    pub fn from_pair(pair: &CstNode) -> (res: Result<Self, LifeError>)
        ensures
            res matches Ok(node) ==> node.models(pair@),
            res is Err ==> forall|node: Self| !node.models(pair@),
            res matches Err(error) ==> error.is_syntax_error(),
            fits(pair@, LifeRestartRule::TextAny) ==> res is Ok,
    {
        broadcast use group_views;

        Ok(
            TextAnyNode {
                text: pair.text.clone(),
                span: Range { start: pair.span.start, end: pair.span.end },
            }
        )
    }

    /// Parse `input` from the rule `TextAny` and build the node from the tree. The
    /// text is refused exactly where the rule does not match at its start, with the
    /// error of the parser: what the rule matches always has a typed form.
    pub fn from_text(input: &str) -> (res: Result<Self, LifeError>)
        ensures
            match spec_parse_cst(input@, LifeRestartRule::TextAny) {
                Ok(tree) => res matches Ok(node) && node.models(tree),
                Err(at) => res matches Err(error) && error.is_syntax(
                    expected(LifeRestartRule::TextAny),
                    at as int,
                    at as int,
                ),
            },
    {
        proof {
            lemma_rule_fits(input@, LifeRestartRule::TextAny, 0);
        }
        match parse_cst(input, LifeRestartRule::TextAny) {
            Ok(pair) => Self::from_pair(&pair),
            Err(error) => Err(error),
        }
    }

    /// The byte range of the node, where it has one.
    pub open spec fn spec_get_range(&self) -> Option<Range<usize>> {
        Some(self.span)
    }

    /// The byte range of the node, where it has one.
    pub fn get_range(&self) -> (range: Option<Range<usize>>)
        ensures
            range == self.spec_get_range(),
    {
        Some(Range { start: self.span.start, end: self.span.end })
    }
}

impl std::str::FromStr for TextAnyNode {
    type Err = LifeError;

    /// Parse `input` as this node: the result of `from_text`.
    fn from_str(input: &str) -> (res: Result<Self, LifeError>)
        ensures
            match spec_parse_cst(input@, LifeRestartRule::TextAny) {
                Ok(tree) => res matches Ok(node) && node.models(tree),
                Err(at) => res matches Err(error) && error.is_syntax(
                    expected(LifeRestartRule::TextAny),
                    at as int,
                    at as int,
                ),
            },
    {
        Self::from_text(input)
    }
}

impl IdentifierNode {
    /// True when this node is the typed form of the tree `pair`: it has the span of
    /// the tree, and every field holds the typed form of what fills its slot.
    pub open spec fn models(&self, pair: CstTree) -> bool {
        &&& self.span.start == pair.start
        &&& self.span.end == pair.end
        &&& self.text@ == pair.text
    }

    /// Build the node from a tree of the rule `Identifier`. The tree is refused
    /// with a syntax error where no node is its typed form; where that is the fault
    /// of the tree itself, the error names this rule and has the span of the tree.
    pub fn from_pair(pair: &CstNode) -> (res: Result<Self, LifeError>)
        ensures
            res matches Ok(node) ==> node.models(pair@),
            res is Err ==> forall|node: Self| !node.models(pair@),
            res matches Err(error) ==> error.is_syntax_error(),
            fits(pair@, LifeRestartRule::Identifier) ==> res is Ok,
    {
        broadcast use group_views;

        Ok(
            IdentifierNode {
                text: pair.text.clone(),
                span: Range { start: pair.span.start, end: pair.span.end },
            }
        )
    }

    /// Build the node from the first child of `pair` that fills `slot`, if there is
    /// one.
    pub fn take_one(pair: &CstNode, slot: Slot) -> (res: Result<Option<Self>, LifeError>)
        ensures
            match pair@.one(slot) {
                Some(child) => {
                    &&& res matches Ok(found) ==> found matches Some(node) && node.models(child)
                    &&& res is Err ==> forall|node: Self| !node.models(child)
                },
                None => res matches Ok(found) && found is None,
            },
            res matches Err(error) ==> error.is_syntax_error(),
            (pair@.one(slot) matches Some(child) ==> fits(child, LifeRestartRule::Identifier))
                ==> res is Ok,
    {
        broadcast use group_views;

        match pair.find_first(slot) {
            Some(at) => match Self::from_pair(&pair.children[at]) {
                Ok(node) => Ok(Some(node)),
                Err(error) => Err(error),
            },
            None => Ok(None),
        }
    }

    /// True when the nodes of `list` are the typed forms of the trees of `pairs`,
    /// one for one.
    pub open spec fn models_all(list: Seq<Self>, pairs: Seq<CstTree>) -> bool {
        &&& list.len() == pairs.len()
        &&& forall|at: int| 0 <= at < list.len() ==> (#[trigger] list[at]).models(pairs[at])
    }

    /// Build the nodes from the children of `pair` that fill `slot`, in order.
    pub fn take_all(pair: &CstNode, slot: Slot) -> (res: Result<Vec<Self>, LifeError>)
        ensures
            res matches Ok(list) ==> Self::models_all(list@, pair@.all(slot)),
            res is Err ==> forall|list: Seq<Self>| !Self::models_all(list, pair@.all(slot)),
            res matches Err(error) ==> error.is_syntax_error(),
            (
                forall|at: int| 0 <= at < pair@.children.len()
                    && (#[trigger] pair@.children[at]).slot == slot
                    ==> fits(pair@.children[at], LifeRestartRule::Identifier)
            )
                ==> res is Ok,
    {
        broadcast use group_views;

        let mut list: Vec<Self> = Vec::new();
        let mut at: usize = 0;
        while at < pair.children.len()
            invariant
                at <= pair.children@.len(),
                pair@.children == views(pair.children@),
                Self::models_all(list@, picks(pair@.children, slot, at as int)),
            decreases pair.children@.len() - at,
        {
            if pair.children[at].slot == slot {
                match Self::from_pair(&pair.children[at]) {
                    Ok(node) => {
                        list.push(node);
                    },
                    Err(error) => {
                        proof {
                            lemma_picks_prefix(
                                pair@.children,
                                slot,
                                at + 1,
                                pair@.children.len() as int,
                            );
                            let pairs = pair@.all(slot);
                            let bad = picks(pair@.children, slot, at as int).len() as int;
                            assert(pairs[bad] == pair.children@[at as int]@);
                            assert(pair@.children[at as int] == pair.children@[at as int]@);
                            assert forall|list: Seq<Self>| !Self::models_all(list, pairs) by {
                                if Self::models_all(list, pairs) {
                                    assert(list[bad].models(pairs[bad]));
                                }
                            }
                        }
                        return Err(error);
                    },
                }
            }
            at = at + 1;
        }
        Ok(list)
    }

    /// Parse `input` from the rule `Identifier` and build the node from the tree.
    /// The text is refused exactly where the rule does not match at its start, with
    /// the error of the parser: what the rule matches always has a typed form.
    pub fn from_text(input: &str) -> (res: Result<Self, LifeError>)
        ensures
            match spec_parse_cst(input@, LifeRestartRule::Identifier) {
                Ok(tree) => res matches Ok(node) && node.models(tree),
                Err(at) => res matches Err(error) && error.is_syntax(
                    expected(LifeRestartRule::Identifier),
                    at as int,
                    at as int,
                ),
            },
    {
        proof {
            lemma_rule_fits(input@, LifeRestartRule::Identifier, 0);
        }
        match parse_cst(input, LifeRestartRule::Identifier) {
            Ok(pair) => Self::from_pair(&pair),
            Err(error) => Err(error),
        }
    }

    /// The byte range of the node, where it has one.
    pub open spec fn spec_get_range(&self) -> Option<Range<usize>> {
        Some(self.span)
    }

    /// The byte range of the node, where it has one.
    pub fn get_range(&self) -> (range: Option<Range<usize>>)
        ensures
            range == self.spec_get_range(),
    {
        Some(Range { start: self.span.start, end: self.span.end })
    }
}

impl std::str::FromStr for IdentifierNode {
    type Err = LifeError;

    /// Parse `input` as this node: the result of `from_text`.
    fn from_str(input: &str) -> (res: Result<Self, LifeError>)
        ensures
            match spec_parse_cst(input@, LifeRestartRule::Identifier) {
                Ok(tree) => res matches Ok(node) && node.models(tree),
                Err(at) => res matches Err(error) && error.is_syntax(
                    expected(LifeRestartRule::Identifier),
                    at as int,
                    at as int,
                ),
            },
    {
        Self::from_text(input)
    }
}

impl IntegerNode {
    /// True when this node is the typed form of the tree `pair`: it has the span of
    /// the tree, and every field holds the typed form of what fills its slot.
    pub open spec fn models(&self, pair: CstTree) -> bool {
        &&& self.span.start == pair.start
        &&& self.span.end == pair.end
        &&& self.text@ == pair.text
    }

    /// Build the node from a tree of the rule `Integer`. The tree is refused with a
    /// syntax error where no node is its typed form; where that is the fault of the
    /// tree itself, the error names this rule and has the span of the tree.
    pub fn from_pair(pair: &CstNode) -> (res: Result<Self, LifeError>)
        ensures
            res matches Ok(node) ==> node.models(pair@),
            res is Err ==> forall|node: Self| !node.models(pair@),
            res matches Err(error) ==> error.is_syntax_error(),
            fits(pair@, LifeRestartRule::Integer) ==> res is Ok,
    {
        broadcast use group_views;

        Ok(
            IntegerNode {
                text: pair.text.clone(),
                span: Range { start: pair.span.start, end: pair.span.end },
            }
        )
    }

    /// Build the node from the first child of `pair` that fills `slot`, if there is
    /// one.
    pub fn take_one(pair: &CstNode, slot: Slot) -> (res: Result<Option<Self>, LifeError>)
        ensures
            match pair@.one(slot) {
                Some(child) => {
                    &&& res matches Ok(found) ==> found matches Some(node) && node.models(child)
                    &&& res is Err ==> forall|node: Self| !node.models(child)
                },
                None => res matches Ok(found) && found is None,
            },
            res matches Err(error) ==> error.is_syntax_error(),
            (pair@.one(slot) matches Some(child) ==> fits(child, LifeRestartRule::Integer))
                ==> res is Ok,
    {
        broadcast use group_views;

        match pair.find_first(slot) {
            Some(at) => match Self::from_pair(&pair.children[at]) {
                Ok(node) => Ok(Some(node)),
                Err(error) => Err(error),
            },
            None => Ok(None),
        }
    }

    /// Parse `input` from the rule `Integer` and build the node from the tree. The
    /// text is refused exactly where the rule does not match at its start, with the
    /// error of the parser: what the rule matches always has a typed form.
    pub fn from_text(input: &str) -> (res: Result<Self, LifeError>)
        ensures
            match spec_parse_cst(input@, LifeRestartRule::Integer) {
                Ok(tree) => res matches Ok(node) && node.models(tree),
                Err(at) => res matches Err(error) && error.is_syntax(
                    expected(LifeRestartRule::Integer),
                    at as int,
                    at as int,
                ),
            },
    {
        proof {
            lemma_rule_fits(input@, LifeRestartRule::Integer, 0);
        }
        match parse_cst(input, LifeRestartRule::Integer) {
            Ok(pair) => Self::from_pair(&pair),
            Err(error) => Err(error),
        }
    }

    /// The byte range of the node, where it has one.
    pub open spec fn spec_get_range(&self) -> Option<Range<usize>> {
        Some(self.span)
    }

    /// The byte range of the node, where it has one.
    pub fn get_range(&self) -> (range: Option<Range<usize>>)
        ensures
            range == self.spec_get_range(),
    {
        Some(Range { start: self.span.start, end: self.span.end })
    }
}

impl std::str::FromStr for IntegerNode {
    type Err = LifeError;

    /// Parse `input` as this node: the result of `from_text`.
    fn from_str(input: &str) -> (res: Result<Self, LifeError>)
        ensures
            match spec_parse_cst(input@, LifeRestartRule::Integer) {
                Ok(tree) => res matches Ok(node) && node.models(tree),
                Err(at) => res matches Err(error) && error.is_syntax(
                    expected(LifeRestartRule::Integer),
                    at as int,
                    at as int,
                ),
            },
    {
        Self::from_text(input)
    }
}

impl BooleanNode {
    /// True when this node is the typed form of the tree `pair`: it is the first
    /// alternative, in the order of the declaration, whose slot is filled.
    pub open spec fn models(&self, pair: CstTree) -> bool {
        match self {
            Self::False => {
                &&& pair.one(Slot::False) is Some
            },
            Self::True => {
                &&& pair.one(Slot::False) is None
                &&& pair.one(Slot::True) is Some
            },
        }
    }

    /// True when the tree `pair` itself cannot be a node of this type: the slot of
    /// no alternative is filled.
    pub open spec fn lacks(pair: CstTree) -> bool {
        pair.one(Slot::False) is None && pair.one(Slot::True) is None
    }

    /// Build the node from a tree of the rule `Boolean`. The tree is refused with a
    /// syntax error where no node is its typed form; where that is the fault of the
    /// tree itself, the error names this rule and has the span of the tree.
    pub fn from_pair(pair: &CstNode) -> (res: Result<Self, LifeError>)
        ensures
            res matches Ok(node) ==> node.models(pair@),
            res is Err ==> forall|node: Self| !node.models(pair@),
            res matches Err(error) ==> error.is_syntax_error(),
            Self::lacks(pair@) ==> {
                &&& res matches Err(error)
                &&& error.is_syntax(
                    invalid_node(LifeRestartRule::Boolean),
                    pair@.start as int,
                    pair@.end as int,
                )
            },
            fits(pair@, LifeRestartRule::Boolean) ==> res is Ok,
    {
        broadcast use group_views;

        if pair.find_first(Slot::False).is_some() {
            return Ok(Self::False);
        }
        if pair.find_first(Slot::True).is_some() {
            return Ok(Self::True);
        }
        Err(refuse(LifeRestartRule::Boolean, pair))
    }

    /// Parse `input` from the rule `Boolean` and build the node from the tree. The
    /// text is refused exactly where the rule does not match at its start, with the
    /// error of the parser: what the rule matches always has a typed form.
    pub fn from_text(input: &str) -> (res: Result<Self, LifeError>)
        ensures
            match spec_parse_cst(input@, LifeRestartRule::Boolean) {
                Ok(tree) => res matches Ok(node) && node.models(tree),
                Err(at) => res matches Err(error) && error.is_syntax(
                    expected(LifeRestartRule::Boolean),
                    at as int,
                    at as int,
                ),
            },
    {
        proof {
            lemma_rule_fits(input@, LifeRestartRule::Boolean, 0);
        }
        match parse_cst(input, LifeRestartRule::Boolean) {
            Ok(pair) => Self::from_pair(&pair),
            Err(error) => Err(error),
        }
    }

    /// The byte range of the node, where it has one.
    pub open spec fn spec_get_range(&self) -> Option<Range<usize>> {
        None
    }

    /// The byte range of the node, where it has one.
    pub fn get_range(&self) -> (range: Option<Range<usize>>)
        ensures
            range == self.spec_get_range(),
    {
        None
    }
}

impl std::str::FromStr for BooleanNode {
    type Err = LifeError;

    /// Parse `input` as this node: the result of `from_text`.
    fn from_str(input: &str) -> (res: Result<Self, LifeError>)
        ensures
            match spec_parse_cst(input@, LifeRestartRule::Boolean) {
                Ok(tree) => res matches Ok(node) && node.models(tree),
                Err(at) => res matches Err(error) && error.is_syntax(
                    expected(LifeRestartRule::Boolean),
                    at as int,
                    at as int,
                ),
            },
    {
        Self::from_text(input)
    }
}

impl CommaNode {
    /// True when this node is the typed form of the tree `pair`: it has the span of
    /// the tree, and every field holds the typed form of what fills its slot.
    pub open spec fn models(&self, pair: CstTree) -> bool {
        &&& self.span.start == pair.start
        &&& self.span.end == pair.end
    }

    /// Build the node from a tree of the rule `COMMA`. The tree is refused with a
    /// syntax error where no node is its typed form; where that is the fault of the
    /// tree itself, the error names this rule and has the span of the tree.
    pub fn from_pair(pair: &CstNode) -> (res: Result<Self, LifeError>)
        ensures
            res matches Ok(node) ==> node.models(pair@),
            res is Err ==> forall|node: Self| !node.models(pair@),
            res matches Err(error) ==> error.is_syntax_error(),
            fits(pair@, LifeRestartRule::COMMA) ==> res is Ok,
    {
        broadcast use group_views;

        Ok(CommaNode { span: Range { start: pair.span.start, end: pair.span.end } })
    }

    /// True when the nodes of `list` are the typed forms of the trees of `pairs`,
    /// one for one.
    pub open spec fn models_all(list: Seq<Self>, pairs: Seq<CstTree>) -> bool {
        &&& list.len() == pairs.len()
        &&& forall|at: int| 0 <= at < list.len() ==> (#[trigger] list[at]).models(pairs[at])
    }

    /// Build the nodes from the children of `pair` that fill `slot`, in order.
    pub fn take_all(pair: &CstNode, slot: Slot) -> (res: Result<Vec<Self>, LifeError>)
        ensures
            res matches Ok(list) ==> Self::models_all(list@, pair@.all(slot)),
            res is Err ==> forall|list: Seq<Self>| !Self::models_all(list, pair@.all(slot)),
            res matches Err(error) ==> error.is_syntax_error(),
            (
                forall|at: int| 0 <= at < pair@.children.len()
                    && (#[trigger] pair@.children[at]).slot == slot
                    ==> fits(pair@.children[at], LifeRestartRule::COMMA)
            )
                ==> res is Ok,
    {
        broadcast use group_views;

        let mut list: Vec<Self> = Vec::new();
        let mut at: usize = 0;
        while at < pair.children.len()
            invariant
                at <= pair.children@.len(),
                pair@.children == views(pair.children@),
                Self::models_all(list@, picks(pair@.children, slot, at as int)),
            decreases pair.children@.len() - at,
        {
            if pair.children[at].slot == slot {
                match Self::from_pair(&pair.children[at]) {
                    Ok(node) => {
                        list.push(node);
                    },
                    Err(error) => {
                        proof {
                            lemma_picks_prefix(
                                pair@.children,
                                slot,
                                at + 1,
                                pair@.children.len() as int,
                            );
                            let pairs = pair@.all(slot);
                            let bad = picks(pair@.children, slot, at as int).len() as int;
                            assert(pairs[bad] == pair.children@[at as int]@);
                            assert(pair@.children[at as int] == pair.children@[at as int]@);
                            assert forall|list: Seq<Self>| !Self::models_all(list, pairs) by {
                                if Self::models_all(list, pairs) {
                                    assert(list[bad].models(pairs[bad]));
                                }
                            }
                        }
                        return Err(error);
                    },
                }
            }
            at = at + 1;
        }
        Ok(list)
    }

    /// Parse `input` from the rule `COMMA` and build the node from the tree. The
    /// text is refused exactly where the rule does not match at its start, with the
    /// error of the parser: what the rule matches always has a typed form.
    pub fn from_text(input: &str) -> (res: Result<Self, LifeError>)
        ensures
            match spec_parse_cst(input@, LifeRestartRule::COMMA) {
                Ok(tree) => res matches Ok(node) && node.models(tree),
                Err(at) => res matches Err(error) && error.is_syntax(
                    expected(LifeRestartRule::COMMA),
                    at as int,
                    at as int,
                ),
            },
    {
        proof {
            lemma_rule_fits(input@, LifeRestartRule::COMMA, 0);
        }
        match parse_cst(input, LifeRestartRule::COMMA) {
            Ok(pair) => Self::from_pair(&pair),
            Err(error) => Err(error),
        }
    }

    /// The byte range of the node, where it has one.
    pub open spec fn spec_get_range(&self) -> Option<Range<usize>> {
        Some(self.span)
    }

    /// The byte range of the node, where it has one.
    pub fn get_range(&self) -> (range: Option<Range<usize>>)
        ensures
            range == self.spec_get_range(),
    {
        Some(Range { start: self.span.start, end: self.span.end })
    }
}

impl std::str::FromStr for CommaNode {
    type Err = LifeError;

    /// Parse `input` as this node: the result of `from_text`.
    fn from_str(input: &str) -> (res: Result<Self, LifeError>)
        ensures
            match spec_parse_cst(input@, LifeRestartRule::COMMA) {
                Ok(tree) => res matches Ok(node) && node.models(tree),
                Err(at) => res matches Err(error) && error.is_syntax(
                    expected(LifeRestartRule::COMMA),
                    at as int,
                    at as int,
                ),
            },
    {
        Self::from_text(input)
    }
}

impl ColonNode {
    /// True when this node is the typed form of the tree `pair`: it has the span of
    /// the tree, and every field holds the typed form of what fills its slot.
    pub open spec fn models(&self, pair: CstTree) -> bool {
        &&& self.span.start == pair.start
        &&& self.span.end == pair.end
    }

    /// Build the node from a tree of the rule `COLON`. The tree is refused with a
    /// syntax error where no node is its typed form; where that is the fault of the
    /// tree itself, the error names this rule and has the span of the tree.
    pub fn from_pair(pair: &CstNode) -> (res: Result<Self, LifeError>)
        ensures
            res matches Ok(node) ==> node.models(pair@),
            res is Err ==> forall|node: Self| !node.models(pair@),
            res matches Err(error) ==> error.is_syntax_error(),
            fits(pair@, LifeRestartRule::COLON) ==> res is Ok,
    {
        broadcast use group_views;

        Ok(ColonNode { span: Range { start: pair.span.start, end: pair.span.end } })
    }

    /// Parse `input` from the rule `COLON` and build the node from the tree. The
    /// text is refused exactly where the rule does not match at its start, with the
    /// error of the parser: what the rule matches always has a typed form.
    pub fn from_text(input: &str) -> (res: Result<Self, LifeError>)
        ensures
            match spec_parse_cst(input@, LifeRestartRule::COLON) {
                Ok(tree) => res matches Ok(node) && node.models(tree),
                Err(at) => res matches Err(error) && error.is_syntax(
                    expected(LifeRestartRule::COLON),
                    at as int,
                    at as int,
                ),
            },
    {
        proof {
            lemma_rule_fits(input@, LifeRestartRule::COLON, 0);
        }
        match parse_cst(input, LifeRestartRule::COLON) {
            Ok(pair) => Self::from_pair(&pair),
            Err(error) => Err(error),
        }
    }

    /// The byte range of the node, where it has one.
    pub open spec fn spec_get_range(&self) -> Option<Range<usize>> {
        Some(self.span)
    }

    /// The byte range of the node, where it has one.
    pub fn get_range(&self) -> (range: Option<Range<usize>>)
        ensures
            range == self.spec_get_range(),
    {
        Some(Range { start: self.span.start, end: self.span.end })
    }
}

impl std::str::FromStr for ColonNode {
    type Err = LifeError;

    /// Parse `input` as this node: the result of `from_text`.
    fn from_str(input: &str) -> (res: Result<Self, LifeError>)
        ensures
            match spec_parse_cst(input@, LifeRestartRule::COLON) {
                Ok(tree) => res matches Ok(node) && node.models(tree),
                Err(at) => res matches Err(error) && error.is_syntax(
                    expected(LifeRestartRule::COLON),
                    at as int,
                    at as int,
                ),
            },
    {
        Self::from_text(input)
    }
}

impl KwPropertyNode {
    /// True when this node is the typed form of the tree `pair`: it has the span of
    /// the tree, and every field holds the typed form of what fills its slot.
    pub open spec fn models(&self, pair: CstTree) -> bool {
        &&& self.span.start == pair.start
        &&& self.span.end == pair.end
    }

    /// Build the node from a tree of the rule `KW_PROPERTY`. The tree is refused
    /// with a syntax error where no node is its typed form; where that is the fault
    /// of the tree itself, the error names this rule and has the span of the tree.
    pub fn from_pair(pair: &CstNode) -> (res: Result<Self, LifeError>)
        ensures
            res matches Ok(node) ==> node.models(pair@),
            res is Err ==> forall|node: Self| !node.models(pair@),
            res matches Err(error) ==> error.is_syntax_error(),
            fits(pair@, LifeRestartRule::KW_PROPERTY) ==> res is Ok,
    {
        broadcast use group_views;

        Ok(KwPropertyNode { span: Range { start: pair.span.start, end: pair.span.end } })
    }

    /// Parse `input` from the rule `KW_PROPERTY` and build the node from the tree.
    /// The text is refused exactly where the rule does not match at its start, with
    /// the error of the parser: what the rule matches always has a typed form.
    pub fn from_text(input: &str) -> (res: Result<Self, LifeError>)
        ensures
            match spec_parse_cst(input@, LifeRestartRule::KW_PROPERTY) {
                Ok(tree) => res matches Ok(node) && node.models(tree),
                Err(at) => res matches Err(error) && error.is_syntax(
                    expected(LifeRestartRule::KW_PROPERTY),
                    at as int,
                    at as int,
                ),
            },
    {
        proof {
            lemma_rule_fits(input@, LifeRestartRule::KW_PROPERTY, 0);
        }
        match parse_cst(input, LifeRestartRule::KW_PROPERTY) {
            Ok(pair) => Self::from_pair(&pair),
            Err(error) => Err(error),
        }
    }

    /// The byte range of the node, where it has one.
    pub open spec fn spec_get_range(&self) -> Option<Range<usize>> {
        Some(self.span)
    }

    /// The byte range of the node, where it has one.
    pub fn get_range(&self) -> (range: Option<Range<usize>>)
        ensures
            range == self.spec_get_range(),
    {
        Some(Range { start: self.span.start, end: self.span.end })
    }
}

impl std::str::FromStr for KwPropertyNode {
    type Err = LifeError;

    /// Parse `input` as this node: the result of `from_text`.
    fn from_str(input: &str) -> (res: Result<Self, LifeError>)
        ensures
            match spec_parse_cst(input@, LifeRestartRule::KW_PROPERTY) {
                Ok(tree) => res matches Ok(node) && node.models(tree),
                Err(at) => res matches Err(error) && error.is_syntax(
                    expected(LifeRestartRule::KW_PROPERTY),
                    at as int,
                    at as int,
                ),
            },
    {
        Self::from_text(input)
    }
}

impl KwTraitGroupNode {
    /// True when this node is the typed form of the tree `pair`: it has the span of
    /// the tree, and every field holds the typed form of what fills its slot.
    pub open spec fn models(&self, pair: CstTree) -> bool {
        &&& self.span.start == pair.start
        &&& self.span.end == pair.end
    }

    /// Build the node from a tree of the rule `KW_TRAIT_GROUP`. The tree is refused
    /// with a syntax error where no node is its typed form; where that is the fault
    /// of the tree itself, the error names this rule and has the span of the tree.
    pub fn from_pair(pair: &CstNode) -> (res: Result<Self, LifeError>)
        ensures
            res matches Ok(node) ==> node.models(pair@),
            res is Err ==> forall|node: Self| !node.models(pair@),
            res matches Err(error) ==> error.is_syntax_error(),
            fits(pair@, LifeRestartRule::KW_TRAIT_GROUP) ==> res is Ok,
    {
        broadcast use group_views;

        Ok(KwTraitGroupNode { span: Range { start: pair.span.start, end: pair.span.end } })
    }

    /// Parse `input` from the rule `KW_TRAIT_GROUP` and build the node from the
    /// tree. The text is refused exactly where the rule does not match at its
    /// start, with the error of the parser: what the rule matches always has a
    /// typed form.
    pub fn from_text(input: &str) -> (res: Result<Self, LifeError>)
        ensures
            match spec_parse_cst(input@, LifeRestartRule::KW_TRAIT_GROUP) {
                Ok(tree) => res matches Ok(node) && node.models(tree),
                Err(at) => res matches Err(error) && error.is_syntax(
                    expected(LifeRestartRule::KW_TRAIT_GROUP),
                    at as int,
                    at as int,
                ),
            },
    {
        proof {
            lemma_rule_fits(input@, LifeRestartRule::KW_TRAIT_GROUP, 0);
        }
        match parse_cst(input, LifeRestartRule::KW_TRAIT_GROUP) {
            Ok(pair) => Self::from_pair(&pair),
            Err(error) => Err(error),
        }
    }

    /// The byte range of the node, where it has one.
    pub open spec fn spec_get_range(&self) -> Option<Range<usize>> {
        Some(self.span)
    }

    /// The byte range of the node, where it has one.
    pub fn get_range(&self) -> (range: Option<Range<usize>>)
        ensures
            range == self.spec_get_range(),
    {
        Some(Range { start: self.span.start, end: self.span.end })
    }
}

impl std::str::FromStr for KwTraitGroupNode {
    type Err = LifeError;

    /// Parse `input` as this node: the result of `from_text`.
    fn from_str(input: &str) -> (res: Result<Self, LifeError>)
        ensures
            match spec_parse_cst(input@, LifeRestartRule::KW_TRAIT_GROUP) {
                Ok(tree) => res matches Ok(node) && node.models(tree),
                Err(at) => res matches Err(error) && error.is_syntax(
                    expected(LifeRestartRule::KW_TRAIT_GROUP),
                    at as int,
                    at as int,
                ),
            },
    {
        Self::from_text(input)
    }
}

impl KwTraitNode {
    /// True when this node is the typed form of the tree `pair`: it has the span of
    /// the tree, and every field holds the typed form of what fills its slot.
    pub open spec fn models(&self, pair: CstTree) -> bool {
        &&& self.span.start == pair.start
        &&& self.span.end == pair.end
    }

    /// Build the node from a tree of the rule `KW_TRAIT`. The tree is refused with
    /// a syntax error where no node is its typed form; where that is the fault of
    /// the tree itself, the error names this rule and has the span of the tree.
    pub fn from_pair(pair: &CstNode) -> (res: Result<Self, LifeError>)
        ensures
            res matches Ok(node) ==> node.models(pair@),
            res is Err ==> forall|node: Self| !node.models(pair@),
            res matches Err(error) ==> error.is_syntax_error(),
            fits(pair@, LifeRestartRule::KW_TRAIT) ==> res is Ok,
    {
        broadcast use group_views;

        Ok(KwTraitNode { span: Range { start: pair.span.start, end: pair.span.end } })
    }

    /// Parse `input` from the rule `KW_TRAIT` and build the node from the tree. The
    /// text is refused exactly where the rule does not match at its start, with the
    /// error of the parser: what the rule matches always has a typed form.
    pub fn from_text(input: &str) -> (res: Result<Self, LifeError>)
        ensures
            match spec_parse_cst(input@, LifeRestartRule::KW_TRAIT) {
                Ok(tree) => res matches Ok(node) && node.models(tree),
                Err(at) => res matches Err(error) && error.is_syntax(
                    expected(LifeRestartRule::KW_TRAIT),
                    at as int,
                    at as int,
                ),
            },
    {
        proof {
            lemma_rule_fits(input@, LifeRestartRule::KW_TRAIT, 0);
        }
        match parse_cst(input, LifeRestartRule::KW_TRAIT) {
            Ok(pair) => Self::from_pair(&pair),
            Err(error) => Err(error),
        }
    }

    /// The byte range of the node, where it has one.
    pub open spec fn spec_get_range(&self) -> Option<Range<usize>> {
        Some(self.span)
    }

    /// The byte range of the node, where it has one.
    pub fn get_range(&self) -> (range: Option<Range<usize>>)
        ensures
            range == self.spec_get_range(),
    {
        Some(Range { start: self.span.start, end: self.span.end })
    }
}

impl std::str::FromStr for KwTraitNode {
    type Err = LifeError;

    /// Parse `input` as this node: the result of `from_text`.
    fn from_str(input: &str) -> (res: Result<Self, LifeError>)
        ensures
            match spec_parse_cst(input@, LifeRestartRule::KW_TRAIT) {
                Ok(tree) => res matches Ok(node) && node.models(tree),
                Err(at) => res matches Err(error) && error.is_syntax(
                    expected(LifeRestartRule::KW_TRAIT),
                    at as int,
                    at as int,
                ),
            },
    {
        Self::from_text(input)
    }
}

impl KwEventGroupNode {
    /// True when this node is the typed form of the tree `pair`: it has the span of
    /// the tree, and every field holds the typed form of what fills its slot.
    pub open spec fn models(&self, pair: CstTree) -> bool {
        &&& self.span.start == pair.start
        &&& self.span.end == pair.end
    }

    /// Build the node from a tree of the rule `KW_EVENT_GROUP`. The tree is refused
    /// with a syntax error where no node is its typed form; where that is the fault
    /// of the tree itself, the error names this rule and has the span of the tree.
    pub fn from_pair(pair: &CstNode) -> (res: Result<Self, LifeError>)
        ensures
            res matches Ok(node) ==> node.models(pair@),
            res is Err ==> forall|node: Self| !node.models(pair@),
            res matches Err(error) ==> error.is_syntax_error(),
            fits(pair@, LifeRestartRule::KW_EVENT_GROUP) ==> res is Ok,
    {
        broadcast use group_views;

        Ok(KwEventGroupNode { span: Range { start: pair.span.start, end: pair.span.end } })
    }

    /// Parse `input` from the rule `KW_EVENT_GROUP` and build the node from the
    /// tree. The text is refused exactly where the rule does not match at its
    /// start, with the error of the parser: what the rule matches always has a
    /// typed form.
    pub fn from_text(input: &str) -> (res: Result<Self, LifeError>)
        ensures
            match spec_parse_cst(input@, LifeRestartRule::KW_EVENT_GROUP) {
                Ok(tree) => res matches Ok(node) && node.models(tree),
                Err(at) => res matches Err(error) && error.is_syntax(
                    expected(LifeRestartRule::KW_EVENT_GROUP),
                    at as int,
                    at as int,
                ),
            },
    {
        proof {
            lemma_rule_fits(input@, LifeRestartRule::KW_EVENT_GROUP, 0);
        }
        match parse_cst(input, LifeRestartRule::KW_EVENT_GROUP) {
            Ok(pair) => Self::from_pair(&pair),
            Err(error) => Err(error),
        }
    }

    /// The byte range of the node, where it has one.
    pub open spec fn spec_get_range(&self) -> Option<Range<usize>> {
        Some(self.span)
    }

    /// The byte range of the node, where it has one.
    pub fn get_range(&self) -> (range: Option<Range<usize>>)
        ensures
            range == self.spec_get_range(),
    {
        Some(Range { start: self.span.start, end: self.span.end })
    }
}

impl std::str::FromStr for KwEventGroupNode {
    type Err = LifeError;

    /// Parse `input` as this node: the result of `from_text`.
    fn from_str(input: &str) -> (res: Result<Self, LifeError>)
        ensures
            match spec_parse_cst(input@, LifeRestartRule::KW_EVENT_GROUP) {
                Ok(tree) => res matches Ok(node) && node.models(tree),
                Err(at) => res matches Err(error) && error.is_syntax(
                    expected(LifeRestartRule::KW_EVENT_GROUP),
                    at as int,
                    at as int,
                ),
            },
    {
        Self::from_text(input)
    }
}

impl KwEventNode {
    /// True when this node is the typed form of the tree `pair`: it has the span of
    /// the tree, and every field holds the typed form of what fills its slot.
    pub open spec fn models(&self, pair: CstTree) -> bool {
        &&& self.span.start == pair.start
        &&& self.span.end == pair.end
    }

    /// Build the node from a tree of the rule `KW_EVENT`. The tree is refused with
    /// a syntax error where no node is its typed form; where that is the fault of
    /// the tree itself, the error names this rule and has the span of the tree.
    pub fn from_pair(pair: &CstNode) -> (res: Result<Self, LifeError>)
        ensures
            res matches Ok(node) ==> node.models(pair@),
            res is Err ==> forall|node: Self| !node.models(pair@),
            res matches Err(error) ==> error.is_syntax_error(),
            fits(pair@, LifeRestartRule::KW_EVENT) ==> res is Ok,
    {
        broadcast use group_views;

        Ok(KwEventNode { span: Range { start: pair.span.start, end: pair.span.end } })
    }

    /// Parse `input` from the rule `KW_EVENT` and build the node from the tree. The
    /// text is refused exactly where the rule does not match at its start, with the
    /// error of the parser: what the rule matches always has a typed form.
    pub fn from_text(input: &str) -> (res: Result<Self, LifeError>)
        ensures
            match spec_parse_cst(input@, LifeRestartRule::KW_EVENT) {
                Ok(tree) => res matches Ok(node) && node.models(tree),
                Err(at) => res matches Err(error) && error.is_syntax(
                    expected(LifeRestartRule::KW_EVENT),
                    at as int,
                    at as int,
                ),
            },
    {
        proof {
            lemma_rule_fits(input@, LifeRestartRule::KW_EVENT, 0);
        }
        match parse_cst(input, LifeRestartRule::KW_EVENT) {
            Ok(pair) => Self::from_pair(&pair),
            Err(error) => Err(error),
        }
    }

    /// The byte range of the node, where it has one.
    pub open spec fn spec_get_range(&self) -> Option<Range<usize>> {
        Some(self.span)
    }

    /// The byte range of the node, where it has one.
    pub fn get_range(&self) -> (range: Option<Range<usize>>)
        ensures
            range == self.spec_get_range(),
    {
        Some(Range { start: self.span.start, end: self.span.end })
    }
}

impl std::str::FromStr for KwEventNode {
    type Err = LifeError;

    /// Parse `input` as this node: the result of `from_text`.
    fn from_str(input: &str) -> (res: Result<Self, LifeError>)
        ensures
            match spec_parse_cst(input@, LifeRestartRule::KW_EVENT) {
                Ok(tree) => res matches Ok(node) && node.models(tree),
                Err(at) => res matches Err(error) && error.is_syntax(
                    expected(LifeRestartRule::KW_EVENT),
                    at as int,
                    at as int,
                ),
            },
    {
        Self::from_text(input)
    }
}

impl KwIdNode {
    /// True when this node is the typed form of the tree `pair`: it has the span of
    /// the tree, and every field holds the typed form of what fills its slot.
    pub open spec fn models(&self, pair: CstTree) -> bool {
        &&& self.span.start == pair.start
        &&& self.span.end == pair.end
    }

    /// Build the node from a tree of the rule `KW_ID`. The tree is refused with a
    /// syntax error where no node is its typed form; where that is the fault of the
    /// tree itself, the error names this rule and has the span of the tree.
    pub fn from_pair(pair: &CstNode) -> (res: Result<Self, LifeError>)
        ensures
            res matches Ok(node) ==> node.models(pair@),
            res is Err ==> forall|node: Self| !node.models(pair@),
            res matches Err(error) ==> error.is_syntax_error(),
            fits(pair@, LifeRestartRule::KW_ID) ==> res is Ok,
    {
        broadcast use group_views;

        Ok(KwIdNode { span: Range { start: pair.span.start, end: pair.span.end } })
    }

    /// Parse `input` from the rule `KW_ID` and build the node from the tree. The
    /// text is refused exactly where the rule does not match at its start, with the
    /// error of the parser: what the rule matches always has a typed form.
    pub fn from_text(input: &str) -> (res: Result<Self, LifeError>)
        ensures
            match spec_parse_cst(input@, LifeRestartRule::KW_ID) {
                Ok(tree) => res matches Ok(node) && node.models(tree),
                Err(at) => res matches Err(error) && error.is_syntax(
                    expected(LifeRestartRule::KW_ID),
                    at as int,
                    at as int,
                ),
            },
    {
        proof {
            lemma_rule_fits(input@, LifeRestartRule::KW_ID, 0);
        }
        match parse_cst(input, LifeRestartRule::KW_ID) {
            Ok(pair) => Self::from_pair(&pair),
            Err(error) => Err(error),
        }
    }

    /// The byte range of the node, where it has one.
    pub open spec fn spec_get_range(&self) -> Option<Range<usize>> {
        Some(self.span)
    }

    /// The byte range of the node, where it has one.
    pub fn get_range(&self) -> (range: Option<Range<usize>>)
        ensures
            range == self.spec_get_range(),
    {
        Some(Range { start: self.span.start, end: self.span.end })
    }
}

impl std::str::FromStr for KwIdNode {
    type Err = LifeError;

    /// Parse `input` as this node: the result of `from_text`.
    fn from_str(input: &str) -> (res: Result<Self, LifeError>)
        ensures
            match spec_parse_cst(input@, LifeRestartRule::KW_ID) {
                Ok(tree) => res matches Ok(node) && node.models(tree),
                Err(at) => res matches Err(error) && error.is_syntax(
                    expected(LifeRestartRule::KW_ID),
                    at as int,
                    at as int,
                ),
            },
    {
        Self::from_text(input)
    }
}

impl KwDescriptionNode {
    /// True when this node is the typed form of the tree `pair`: it has the span of
    /// the tree, and every field holds the typed form of what fills its slot.
    pub open spec fn models(&self, pair: CstTree) -> bool {
        &&& self.span.start == pair.start
        &&& self.span.end == pair.end
    }

    /// Build the node from a tree of the rule `KW_DESCRIPTION`. The tree is refused
    /// with a syntax error where no node is its typed form; where that is the fault
    /// of the tree itself, the error names this rule and has the span of the tree.
    pub fn from_pair(pair: &CstNode) -> (res: Result<Self, LifeError>)
        ensures
            res matches Ok(node) ==> node.models(pair@),
            res is Err ==> forall|node: Self| !node.models(pair@),
            res matches Err(error) ==> error.is_syntax_error(),
            fits(pair@, LifeRestartRule::KW_DESCRIPTION) ==> res is Ok,
    {
        broadcast use group_views;

        Ok(KwDescriptionNode { span: Range { start: pair.span.start, end: pair.span.end } })
    }

    /// Parse `input` from the rule `KW_DESCRIPTION` and build the node from the
    /// tree. The text is refused exactly where the rule does not match at its
    /// start, with the error of the parser: what the rule matches always has a
    /// typed form.
    pub fn from_text(input: &str) -> (res: Result<Self, LifeError>)
        ensures
            match spec_parse_cst(input@, LifeRestartRule::KW_DESCRIPTION) {
                Ok(tree) => res matches Ok(node) && node.models(tree),
                Err(at) => res matches Err(error) && error.is_syntax(
                    expected(LifeRestartRule::KW_DESCRIPTION),
                    at as int,
                    at as int,
                ),
            },
    {
        proof {
            lemma_rule_fits(input@, LifeRestartRule::KW_DESCRIPTION, 0);
        }
        match parse_cst(input, LifeRestartRule::KW_DESCRIPTION) {
            Ok(pair) => Self::from_pair(&pair),
            Err(error) => Err(error),
        }
    }

    /// The byte range of the node, where it has one.
    pub open spec fn spec_get_range(&self) -> Option<Range<usize>> {
        Some(self.span)
    }

    /// The byte range of the node, where it has one.
    pub fn get_range(&self) -> (range: Option<Range<usize>>)
        ensures
            range == self.spec_get_range(),
    {
        Some(Range { start: self.span.start, end: self.span.end })
    }
}

impl std::str::FromStr for KwDescriptionNode {
    type Err = LifeError;

    /// Parse `input` as this node: the result of `from_text`.
    fn from_str(input: &str) -> (res: Result<Self, LifeError>)
        ensures
            match spec_parse_cst(input@, LifeRestartRule::KW_DESCRIPTION) {
                Ok(tree) => res matches Ok(node) && node.models(tree),
                Err(at) => res matches Err(error) && error.is_syntax(
                    expected(LifeRestartRule::KW_DESCRIPTION),
                    at as int,
                    at as int,
                ),
            },
    {
        Self::from_text(input)
    }
}

impl KwRequirementNode {
    /// True when this node is the typed form of the tree `pair`: it has the span of
    /// the tree, and every field holds the typed form of what fills its slot.
    pub open spec fn models(&self, pair: CstTree) -> bool {
        &&& self.span.start == pair.start
        &&& self.span.end == pair.end
    }

    /// Build the node from a tree of the rule `KW_REQUIREMENT`. The tree is refused
    /// with a syntax error where no node is its typed form; where that is the fault
    /// of the tree itself, the error names this rule and has the span of the tree.
    pub fn from_pair(pair: &CstNode) -> (res: Result<Self, LifeError>)
        ensures
            res matches Ok(node) ==> node.models(pair@),
            res is Err ==> forall|node: Self| !node.models(pair@),
            res matches Err(error) ==> error.is_syntax_error(),
            fits(pair@, LifeRestartRule::KW_REQUIREMENT) ==> res is Ok,
    {
        broadcast use group_views;

        Ok(KwRequirementNode { span: Range { start: pair.span.start, end: pair.span.end } })
    }

    /// Parse `input` from the rule `KW_REQUIREMENT` and build the node from the
    /// tree. The text is refused exactly where the rule does not match at its
    /// start, with the error of the parser: what the rule matches always has a
    /// typed form.
    pub fn from_text(input: &str) -> (res: Result<Self, LifeError>)
        ensures
            match spec_parse_cst(input@, LifeRestartRule::KW_REQUIREMENT) {
                Ok(tree) => res matches Ok(node) && node.models(tree),
                Err(at) => res matches Err(error) && error.is_syntax(
                    expected(LifeRestartRule::KW_REQUIREMENT),
                    at as int,
                    at as int,
                ),
            },
    {
        proof {
            lemma_rule_fits(input@, LifeRestartRule::KW_REQUIREMENT, 0);
        }
        match parse_cst(input, LifeRestartRule::KW_REQUIREMENT) {
            Ok(pair) => Self::from_pair(&pair),
            Err(error) => Err(error),
        }
    }

    /// The byte range of the node, where it has one.
    pub open spec fn spec_get_range(&self) -> Option<Range<usize>> {
        Some(self.span)
    }

    /// The byte range of the node, where it has one.
    pub fn get_range(&self) -> (range: Option<Range<usize>>)
        ensures
            range == self.spec_get_range(),
    {
        Some(Range { start: self.span.start, end: self.span.end })
    }
}

impl std::str::FromStr for KwRequirementNode {
    type Err = LifeError;

    /// Parse `input` as this node: the result of `from_text`.
    fn from_str(input: &str) -> (res: Result<Self, LifeError>)
        ensures
            match spec_parse_cst(input@, LifeRestartRule::KW_REQUIREMENT) {
                Ok(tree) => res matches Ok(node) && node.models(tree),
                Err(at) => res matches Err(error) && error.is_syntax(
                    expected(LifeRestartRule::KW_REQUIREMENT),
                    at as int,
                    at as int,
                ),
            },
    {
        Self::from_text(input)
    }
}

impl KwEffectNode {
    /// True when this node is the typed form of the tree `pair`: it has the span of
    /// the tree, and every field holds the typed form of what fills its slot.
    pub open spec fn models(&self, pair: CstTree) -> bool {
        &&& self.span.start == pair.start
        &&& self.span.end == pair.end
    }

    /// Build the node from a tree of the rule `KW_EFFECT`. The tree is refused with
    /// a syntax error where no node is its typed form; where that is the fault of
    /// the tree itself, the error names this rule and has the span of the tree.
    pub fn from_pair(pair: &CstNode) -> (res: Result<Self, LifeError>)
        ensures
            res matches Ok(node) ==> node.models(pair@),
            res is Err ==> forall|node: Self| !node.models(pair@),
            res matches Err(error) ==> error.is_syntax_error(),
            fits(pair@, LifeRestartRule::KW_EFFECT) ==> res is Ok,
    {
        broadcast use group_views;

        Ok(KwEffectNode { span: Range { start: pair.span.start, end: pair.span.end } })
    }

    /// Parse `input` from the rule `KW_EFFECT` and build the node from the tree.
    /// The text is refused exactly where the rule does not match at its start, with
    /// the error of the parser: what the rule matches always has a typed form.
    pub fn from_text(input: &str) -> (res: Result<Self, LifeError>)
        ensures
            match spec_parse_cst(input@, LifeRestartRule::KW_EFFECT) {
                Ok(tree) => res matches Ok(node) && node.models(tree),
                Err(at) => res matches Err(error) && error.is_syntax(
                    expected(LifeRestartRule::KW_EFFECT),
                    at as int,
                    at as int,
                ),
            },
    {
        proof {
            lemma_rule_fits(input@, LifeRestartRule::KW_EFFECT, 0);
        }
        match parse_cst(input, LifeRestartRule::KW_EFFECT) {
            Ok(pair) => Self::from_pair(&pair),
            Err(error) => Err(error),
        }
    }

    /// The byte range of the node, where it has one.
    pub open spec fn spec_get_range(&self) -> Option<Range<usize>> {
        Some(self.span)
    }

    /// The byte range of the node, where it has one.
    pub fn get_range(&self) -> (range: Option<Range<usize>>)
        ensures
            range == self.spec_get_range(),
    {
        Some(Range { start: self.span.start, end: self.span.end })
    }
}

impl std::str::FromStr for KwEffectNode {
    type Err = LifeError;

    /// Parse `input` as this node: the result of `from_text`.
    fn from_str(input: &str) -> (res: Result<Self, LifeError>)
        ensures
            match spec_parse_cst(input@, LifeRestartRule::KW_EFFECT) {
                Ok(tree) => res matches Ok(node) && node.models(tree),
                Err(at) => res matches Err(error) && error.is_syntax(
                    expected(LifeRestartRule::KW_EFFECT),
                    at as int,
                    at as int,
                ),
            },
    {
        Self::from_text(input)
    }
}

impl KwEnumerateNode {
    /// True when this node is the typed form of the tree `pair`: it has the span of
    /// the tree, and every field holds the typed form of what fills its slot.
    pub open spec fn models(&self, pair: CstTree) -> bool {
        &&& self.span.start == pair.start
        &&& self.span.end == pair.end
    }

    /// Build the node from a tree of the rule `KW_ENUMERATE`. The tree is refused
    /// with a syntax error where no node is its typed form; where that is the fault
    /// of the tree itself, the error names this rule and has the span of the tree.
    pub fn from_pair(pair: &CstNode) -> (res: Result<Self, LifeError>)
        ensures
            res matches Ok(node) ==> node.models(pair@),
            res is Err ==> forall|node: Self| !node.models(pair@),
            res matches Err(error) ==> error.is_syntax_error(),
            fits(pair@, LifeRestartRule::KW_ENUMERATE) ==> res is Ok,
    {
        broadcast use group_views;

        Ok(KwEnumerateNode { span: Range { start: pair.span.start, end: pair.span.end } })
    }

    /// Parse `input` from the rule `KW_ENUMERATE` and build the node from the tree.
    /// The text is refused exactly where the rule does not match at its start, with
    /// the error of the parser: what the rule matches always has a typed form.
    pub fn from_text(input: &str) -> (res: Result<Self, LifeError>)
        ensures
            match spec_parse_cst(input@, LifeRestartRule::KW_ENUMERATE) {
                Ok(tree) => res matches Ok(node) && node.models(tree),
                Err(at) => res matches Err(error) && error.is_syntax(
                    expected(LifeRestartRule::KW_ENUMERATE),
                    at as int,
                    at as int,
                ),
            },
    {
        proof {
            lemma_rule_fits(input@, LifeRestartRule::KW_ENUMERATE, 0);
        }
        match parse_cst(input, LifeRestartRule::KW_ENUMERATE) {
            Ok(pair) => Self::from_pair(&pair),
            Err(error) => Err(error),
        }
    }

    /// The byte range of the node, where it has one.
    pub open spec fn spec_get_range(&self) -> Option<Range<usize>> {
        Some(self.span)
    }

    /// The byte range of the node, where it has one.
    pub fn get_range(&self) -> (range: Option<Range<usize>>)
        ensures
            range == self.spec_get_range(),
    {
        Some(Range { start: self.span.start, end: self.span.end })
    }
}

impl std::str::FromStr for KwEnumerateNode {
    type Err = LifeError;

    /// Parse `input` as this node: the result of `from_text`.
    fn from_str(input: &str) -> (res: Result<Self, LifeError>)
        ensures
            match spec_parse_cst(input@, LifeRestartRule::KW_ENUMERATE) {
                Ok(tree) => res matches Ok(node) && node.models(tree),
                Err(at) => res matches Err(error) && error.is_syntax(
                    expected(LifeRestartRule::KW_ENUMERATE),
                    at as int,
                    at as int,
                ),
            },
    {
        Self::from_text(input)
    }
}

impl KwOptionsNode {
    /// True when this node is the typed form of the tree `pair`: it has the span of
    /// the tree, and every field holds the typed form of what fills its slot.
    pub open spec fn models(&self, pair: CstTree) -> bool {
        &&& self.span.start == pair.start
        &&& self.span.end == pair.end
    }

    /// Build the node from a tree of the rule `KW_OPTIONS`. The tree is refused
    /// with a syntax error where no node is its typed form; where that is the fault
    /// of the tree itself, the error names this rule and has the span of the tree.
    pub fn from_pair(pair: &CstNode) -> (res: Result<Self, LifeError>)
        ensures
            res matches Ok(node) ==> node.models(pair@),
            res is Err ==> forall|node: Self| !node.models(pair@),
            res matches Err(error) ==> error.is_syntax_error(),
            fits(pair@, LifeRestartRule::KW_OPTIONS) ==> res is Ok,
    {
        broadcast use group_views;

        Ok(KwOptionsNode { span: Range { start: pair.span.start, end: pair.span.end } })
    }

    /// Parse `input` from the rule `KW_OPTIONS` and build the node from the tree.
    /// The text is refused exactly where the rule does not match at its start, with
    /// the error of the parser: what the rule matches always has a typed form.
    pub fn from_text(input: &str) -> (res: Result<Self, LifeError>)
        ensures
            match spec_parse_cst(input@, LifeRestartRule::KW_OPTIONS) {
                Ok(tree) => res matches Ok(node) && node.models(tree),
                Err(at) => res matches Err(error) && error.is_syntax(
                    expected(LifeRestartRule::KW_OPTIONS),
                    at as int,
                    at as int,
                ),
            },
    {
        proof {
            lemma_rule_fits(input@, LifeRestartRule::KW_OPTIONS, 0);
        }
        match parse_cst(input, LifeRestartRule::KW_OPTIONS) {
            Ok(pair) => Self::from_pair(&pair),
            Err(error) => Err(error),
        }
    }

    /// The byte range of the node, where it has one.
    pub open spec fn spec_get_range(&self) -> Option<Range<usize>> {
        Some(self.span)
    }

    /// The byte range of the node, where it has one.
    pub fn get_range(&self) -> (range: Option<Range<usize>>)
        ensures
            range == self.spec_get_range(),
    {
        Some(Range { start: self.span.start, end: self.span.end })
    }
}

impl std::str::FromStr for KwOptionsNode {
    type Err = LifeError;

    /// Parse `input` as this node: the result of `from_text`.
    fn from_str(input: &str) -> (res: Result<Self, LifeError>)
        ensures
            match spec_parse_cst(input@, LifeRestartRule::KW_OPTIONS) {
                Ok(tree) => res matches Ok(node) && node.models(tree),
                Err(at) => res matches Err(error) && error.is_syntax(
                    expected(LifeRestartRule::KW_OPTIONS),
                    at as int,
                    at as int,
                ),
            },
    {
        Self::from_text(input)
    }
}

impl KwIfNode {
    /// True when this node is the typed form of the tree `pair`: it has the span of
    /// the tree, and every field holds the typed form of what fills its slot.
    pub open spec fn models(&self, pair: CstTree) -> bool {
        &&& self.span.start == pair.start
        &&& self.span.end == pair.end
    }

    /// Build the node from a tree of the rule `KW_IF`. The tree is refused with a
    /// syntax error where no node is its typed form; where that is the fault of the
    /// tree itself, the error names this rule and has the span of the tree.
    pub fn from_pair(pair: &CstNode) -> (res: Result<Self, LifeError>)
        ensures
            res matches Ok(node) ==> node.models(pair@),
            res is Err ==> forall|node: Self| !node.models(pair@),
            res matches Err(error) ==> error.is_syntax_error(),
            fits(pair@, LifeRestartRule::KW_IF) ==> res is Ok,
    {
        broadcast use group_views;

        Ok(KwIfNode { span: Range { start: pair.span.start, end: pair.span.end } })
    }

    /// Parse `input` from the rule `KW_IF` and build the node from the tree. The
    /// text is refused exactly where the rule does not match at its start, with the
    /// error of the parser: what the rule matches always has a typed form.
    pub fn from_text(input: &str) -> (res: Result<Self, LifeError>)
        ensures
            match spec_parse_cst(input@, LifeRestartRule::KW_IF) {
                Ok(tree) => res matches Ok(node) && node.models(tree),
                Err(at) => res matches Err(error) && error.is_syntax(
                    expected(LifeRestartRule::KW_IF),
                    at as int,
                    at as int,
                ),
            },
    {
        proof {
            lemma_rule_fits(input@, LifeRestartRule::KW_IF, 0);
        }
        match parse_cst(input, LifeRestartRule::KW_IF) {
            Ok(pair) => Self::from_pair(&pair),
            Err(error) => Err(error),
        }
    }

    /// The byte range of the node, where it has one.
    pub open spec fn spec_get_range(&self) -> Option<Range<usize>> {
        Some(self.span)
    }

    /// The byte range of the node, where it has one.
    pub fn get_range(&self) -> (range: Option<Range<usize>>)
        ensures
            range == self.spec_get_range(),
    {
        Some(Range { start: self.span.start, end: self.span.end })
    }
}

impl std::str::FromStr for KwIfNode {
    type Err = LifeError;

    /// Parse `input` as this node: the result of `from_text`.
    fn from_str(input: &str) -> (res: Result<Self, LifeError>)
        ensures
            match spec_parse_cst(input@, LifeRestartRule::KW_IF) {
                Ok(tree) => res matches Ok(node) && node.models(tree),
                Err(at) => res matches Err(error) && error.is_syntax(
                    expected(LifeRestartRule::KW_IF),
                    at as int,
                    at as int,
                ),
            },
    {
        Self::from_text(input)
    }
}

impl KwElseIfNode {
    /// True when this node is the typed form of the tree `pair`: it has the span of
    /// the tree, and every field holds the typed form of what fills its slot.
    pub open spec fn models(&self, pair: CstTree) -> bool {
        &&& self.span.start == pair.start
        &&& self.span.end == pair.end
    }

    /// Build the node from a tree of the rule `KW_ELSE_IF`. The tree is refused
    /// with a syntax error where no node is its typed form; where that is the fault
    /// of the tree itself, the error names this rule and has the span of the tree.
    pub fn from_pair(pair: &CstNode) -> (res: Result<Self, LifeError>)
        ensures
            res matches Ok(node) ==> node.models(pair@),
            res is Err ==> forall|node: Self| !node.models(pair@),
            res matches Err(error) ==> error.is_syntax_error(),
            fits(pair@, LifeRestartRule::KW_ELSE_IF) ==> res is Ok,
    {
        broadcast use group_views;

        Ok(KwElseIfNode { span: Range { start: pair.span.start, end: pair.span.end } })
    }

    /// Parse `input` from the rule `KW_ELSE_IF` and build the node from the tree.
    /// The text is refused exactly where the rule does not match at its start, with
    /// the error of the parser: what the rule matches always has a typed form.
    pub fn from_text(input: &str) -> (res: Result<Self, LifeError>)
        ensures
            match spec_parse_cst(input@, LifeRestartRule::KW_ELSE_IF) {
                Ok(tree) => res matches Ok(node) && node.models(tree),
                Err(at) => res matches Err(error) && error.is_syntax(
                    expected(LifeRestartRule::KW_ELSE_IF),
                    at as int,
                    at as int,
                ),
            },
    {
        proof {
            lemma_rule_fits(input@, LifeRestartRule::KW_ELSE_IF, 0);
        }
        match parse_cst(input, LifeRestartRule::KW_ELSE_IF) {
            Ok(pair) => Self::from_pair(&pair),
            Err(error) => Err(error),
        }
    }

    /// The byte range of the node, where it has one.
    pub open spec fn spec_get_range(&self) -> Option<Range<usize>> {
        Some(self.span)
    }

    /// The byte range of the node, where it has one.
    pub fn get_range(&self) -> (range: Option<Range<usize>>)
        ensures
            range == self.spec_get_range(),
    {
        Some(Range { start: self.span.start, end: self.span.end })
    }
}

impl std::str::FromStr for KwElseIfNode {
    type Err = LifeError;

    /// Parse `input` as this node: the result of `from_text`.
    fn from_str(input: &str) -> (res: Result<Self, LifeError>)
        ensures
            match spec_parse_cst(input@, LifeRestartRule::KW_ELSE_IF) {
                Ok(tree) => res matches Ok(node) && node.models(tree),
                Err(at) => res matches Err(error) && error.is_syntax(
                    expected(LifeRestartRule::KW_ELSE_IF),
                    at as int,
                    at as int,
                ),
            },
    {
        Self::from_text(input)
    }
}

impl KwElseNode {
    /// True when this node is the typed form of the tree `pair`: it has the span of
    /// the tree, and every field holds the typed form of what fills its slot.
    pub open spec fn models(&self, pair: CstTree) -> bool {
        &&& self.span.start == pair.start
        &&& self.span.end == pair.end
    }

    /// Build the node from a tree of the rule `KW_ELSE`. The tree is refused with a
    /// syntax error where no node is its typed form; where that is the fault of the
    /// tree itself, the error names this rule and has the span of the tree.
    pub fn from_pair(pair: &CstNode) -> (res: Result<Self, LifeError>)
        ensures
            res matches Ok(node) ==> node.models(pair@),
            res is Err ==> forall|node: Self| !node.models(pair@),
            res matches Err(error) ==> error.is_syntax_error(),
            fits(pair@, LifeRestartRule::KW_ELSE) ==> res is Ok,
    {
        broadcast use group_views;

        Ok(KwElseNode { span: Range { start: pair.span.start, end: pair.span.end } })
    }

    /// Parse `input` from the rule `KW_ELSE` and build the node from the tree. The
    /// text is refused exactly where the rule does not match at its start, with the
    /// error of the parser: what the rule matches always has a typed form.
    pub fn from_text(input: &str) -> (res: Result<Self, LifeError>)
        ensures
            match spec_parse_cst(input@, LifeRestartRule::KW_ELSE) {
                Ok(tree) => res matches Ok(node) && node.models(tree),
                Err(at) => res matches Err(error) && error.is_syntax(
                    expected(LifeRestartRule::KW_ELSE),
                    at as int,
                    at as int,
                ),
            },
    {
        proof {
            lemma_rule_fits(input@, LifeRestartRule::KW_ELSE, 0);
        }
        match parse_cst(input, LifeRestartRule::KW_ELSE) {
            Ok(pair) => Self::from_pair(&pair),
            Err(error) => Err(error),
        }
    }

    /// The byte range of the node, where it has one.
    pub open spec fn spec_get_range(&self) -> Option<Range<usize>> {
        Some(self.span)
    }

    /// The byte range of the node, where it has one.
    pub fn get_range(&self) -> (range: Option<Range<usize>>)
        ensures
            range == self.spec_get_range(),
    {
        Some(Range { start: self.span.start, end: self.span.end })
    }
}

impl std::str::FromStr for KwElseNode {
    type Err = LifeError;

    /// Parse `input` as this node: the result of `from_text`.
    fn from_str(input: &str) -> (res: Result<Self, LifeError>)
        ensures
            match spec_parse_cst(input@, LifeRestartRule::KW_ELSE) {
                Ok(tree) => res matches Ok(node) && node.models(tree),
                Err(at) => res matches Err(error) && error.is_syntax(
                    expected(LifeRestartRule::KW_ELSE),
                    at as int,
                    at as int,
                ),
            },
    {
        Self::from_text(input)
    }
}

impl WhiteSpaceNode {
    /// True when this node is the typed form of the tree `pair`: it has the span of
    /// the tree, and every field holds the typed form of what fills its slot.
    pub open spec fn models(&self, pair: CstTree) -> bool {
        &&& self.span.start == pair.start
        &&& self.span.end == pair.end
    }

    /// Build the node from a tree of the rule `WhiteSpace`. The tree is refused
    /// with a syntax error where no node is its typed form; where that is the fault
    /// of the tree itself, the error names this rule and has the span of the tree.
    pub fn from_pair(pair: &CstNode) -> (res: Result<Self, LifeError>)
        ensures
            res matches Ok(node) ==> node.models(pair@),
            res is Err ==> forall|node: Self| !node.models(pair@),
            res matches Err(error) ==> error.is_syntax_error(),
            fits(pair@, LifeRestartRule::WhiteSpace) ==> res is Ok,
    {
        broadcast use group_views;

        Ok(WhiteSpaceNode { span: Range { start: pair.span.start, end: pair.span.end } })
    }

    /// Parse `input` from the rule `WhiteSpace` and build the node from the tree.
    /// The text is refused exactly where the rule does not match at its start, with
    /// the error of the parser: what the rule matches always has a typed form.
    pub fn from_text(input: &str) -> (res: Result<Self, LifeError>)
        ensures
            match spec_parse_cst(input@, LifeRestartRule::WhiteSpace) {
                Ok(tree) => res matches Ok(node) && node.models(tree),
                Err(at) => res matches Err(error) && error.is_syntax(
                    expected(LifeRestartRule::WhiteSpace),
                    at as int,
                    at as int,
                ),
            },
    {
        proof {
            lemma_rule_fits(input@, LifeRestartRule::WhiteSpace, 0);
        }
        match parse_cst(input, LifeRestartRule::WhiteSpace) {
            Ok(pair) => Self::from_pair(&pair),
            Err(error) => Err(error),
        }
    }

    /// The byte range of the node, where it has one.
    pub open spec fn spec_get_range(&self) -> Option<Range<usize>> {
        Some(self.span)
    }

    /// The byte range of the node, where it has one.
    pub fn get_range(&self) -> (range: Option<Range<usize>>)
        ensures
            range == self.spec_get_range(),
    {
        Some(Range { start: self.span.start, end: self.span.end })
    }
}

impl std::str::FromStr for WhiteSpaceNode {
    type Err = LifeError;

    /// Parse `input` as this node: the result of `from_text`.
    fn from_str(input: &str) -> (res: Result<Self, LifeError>)
        ensures
            match spec_parse_cst(input@, LifeRestartRule::WhiteSpace) {
                Ok(tree) => res matches Ok(node) && node.models(tree),
                Err(at) => res matches Err(error) && error.is_syntax(
                    expected(LifeRestartRule::WhiteSpace),
                    at as int,
                    at as int,
                ),
            },
    {
        Self::from_text(input)
    }
}

impl CommentNode {
    /// True when this node is the typed form of the tree `pair`: it has the span of
    /// the tree, and every field holds the typed form of what fills its slot.
    pub open spec fn models(&self, pair: CstTree) -> bool {
        &&& self.span.start == pair.start
        &&& self.span.end == pair.end
    }

    /// Build the node from a tree of the rule `Comment`. The tree is refused with a
    /// syntax error where no node is its typed form; where that is the fault of the
    /// tree itself, the error names this rule and has the span of the tree.
    pub fn from_pair(pair: &CstNode) -> (res: Result<Self, LifeError>)
        ensures
            res matches Ok(node) ==> node.models(pair@),
            res is Err ==> forall|node: Self| !node.models(pair@),
            res matches Err(error) ==> error.is_syntax_error(),
            fits(pair@, LifeRestartRule::Comment) ==> res is Ok,
    {
        broadcast use group_views;

        Ok(CommentNode { span: Range { start: pair.span.start, end: pair.span.end } })
    }

    /// Parse `input` from the rule `Comment` and build the node from the tree. The
    /// text is refused exactly where the rule does not match at its start, with the
    /// error of the parser: what the rule matches always has a typed form.
    pub fn from_text(input: &str) -> (res: Result<Self, LifeError>)
        ensures
            match spec_parse_cst(input@, LifeRestartRule::Comment) {
                Ok(tree) => res matches Ok(node) && node.models(tree),
                Err(at) => res matches Err(error) && error.is_syntax(
                    expected(LifeRestartRule::Comment),
                    at as int,
                    at as int,
                ),
            },
    {
        proof {
            lemma_rule_fits(input@, LifeRestartRule::Comment, 0);
        }
        match parse_cst(input, LifeRestartRule::Comment) {
            Ok(pair) => Self::from_pair(&pair),
            Err(error) => Err(error),
        }
    }

    /// The byte range of the node, where it has one.
    pub open spec fn spec_get_range(&self) -> Option<Range<usize>> {
        Some(self.span)
    }

    /// The byte range of the node, where it has one.
    pub fn get_range(&self) -> (range: Option<Range<usize>>)
        ensures
            range == self.spec_get_range(),
    {
        Some(Range { start: self.span.start, end: self.span.end })
    }
}

impl std::str::FromStr for CommentNode {
    type Err = LifeError;

    /// Parse `input` as this node: the result of `from_text`.
    fn from_str(input: &str) -> (res: Result<Self, LifeError>)
        ensures
            match spec_parse_cst(input@, LifeRestartRule::Comment) {
                Ok(tree) => res matches Ok(node) && node.models(tree),
                Err(at) => res matches Err(error) && error.is_syntax(
                    expected(LifeRestartRule::Comment),
                    at as int,
                    at as int,
                ),
            },
    {
        Self::from_text(input)
    }
}

} // verus!
