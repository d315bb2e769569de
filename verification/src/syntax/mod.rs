//! From source text to a tagged concrete syntax tree, and from there to
//! typed nodes.

pub mod akin;
pub mod alike;
pub mod chars;
pub mod choice;
pub mod copy;
pub mod cst;
pub mod cursor;
pub mod gaps;
pub mod lexical;
pub mod moved;
pub mod moves;
pub mod nodes;
pub mod parse_ast;
pub mod parse_cst;
pub mod rule;
pub mod shape;
pub mod sound;
pub mod source;
pub mod words;

pub use self::{
    cst::CstNode,
    nodes::{
        AtomicNode, BooleanNode, ColonNode, CommaNode, CommentNode,
        DescriptionStatementNode, EffectStatementNode, EnumerateStatementNode, EosNode,
        EscapedCharacterNode, EscapedUnicodeNode, EventGroupNode, EventItemNode,
        EventPropertyNode, EventStatementNode, ExpressionNode, HexNode, IdStatementNode,
        IdentifierNode, IfElseBlockNode, IfElseIfBlockNode, IfStatementNode,
        IfThenBlockNode, InfixNode, IntegerNode, KwDescriptionNode, KwEffectNode,
        KwElseIfNode, KwElseNode, KwEnumerateNode, KwEventGroupNode, KwEventNode, KwIdNode,
        KwIfNode, KwOptionsNode, KwPropertyNode, KwRequirementNode, KwTraitGroupNode,
        KwTraitNode, ListNode, OptionItemNode, OptionStatementNode, PrefixNode,
        PropertyItemNode, PropertyStatementNode, RequirementStatementNode, RootNode,
        StatementNode, StringItemNode, StringNode, StringNormalNode, StringRawNode,
        StringRawTextNode, SuffixNode, TermNode, TextAnyNode, TopStatementNode,
        TraitGroupNode, TraitItemNode, TraitPropertyNode, TraitStatementNode,
        WhiteSpaceNode,
    },
    parse_cst::{parse_cst, LifeRestartParser},
    rule::{LifeRestartRule, Slot},
};
