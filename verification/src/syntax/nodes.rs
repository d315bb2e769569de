//! The typed syntax tree: one type for every nonterminal of the grammar. A
//! nonterminal that is a sequence becomes a struct with one field for every
//! slot, a nonterminal that is a choice becomes an enum over its
//! alternatives.

use std::ops::Range;
use vstd::prelude::*;

verus! {

/// A whole source: its statements in order.
#[derive(Debug, Hash)]
pub struct RootNode {
    pub top_statement: Vec<TopStatementNode>,
    pub span: Range<usize>,
}

/// One statement at the top level of a source.
#[derive(Debug, Hash)]
pub enum TopStatementNode {
    Eos(EosNode),
    EventGroup(EventGroupNode),
    EventStatement(EventStatementNode),
    PropertyStatement(PropertyStatementNode),
    TraitGroup(TraitGroupNode),
    TraitStatement(TraitStatementNode),
}

/// A statement terminator.
#[derive(Debug, Hash)]
pub struct EosNode {
    pub span: Range<usize>,
}

/// The declaration of a property: its name and the items of its body.
#[derive(Debug, Hash)]
pub struct PropertyStatementNode {
    pub identifier: IdentifierNode,
    pub property_item: Vec<PropertyItemNode>,
    pub span: Range<usize>,
}

/// One item in the body of a property.
#[derive(Debug, Hash)]
pub enum PropertyItemNode {
    DescriptionStatement(DescriptionStatementNode),
    EnumerateStatement(EnumerateStatementNode),
    Eos(EosNode),
    IdStatement(IdStatementNode),
    OptionStatement(OptionStatementNode),
    RequirementStatement(RequirementStatementNode),
}

/// The values a property can take, by name.
#[derive(Debug, Hash)]
pub struct EnumerateStatementNode {
    pub variant: Vec<IdentifierNode>,
    pub span: Range<usize>,
}

/// A list of options to choose from.
#[derive(Debug, Hash)]
pub struct OptionStatementNode {
    pub option_item: Vec<OptionItemNode>,
    pub span: Range<usize>,
}

/// One option: its name and, if given, its weight.
#[derive(Debug, Hash)]
pub struct OptionItemNode {
    pub variant: IdentifierNode,
    pub weight: Option<IntegerNode>,
    pub span: Range<usize>,
}

/// A named group of trait declarations.
#[derive(Debug, Hash)]
pub struct TraitGroupNode {
    pub identifier: IdentifierNode,
    pub trait_statement: Vec<TraitStatementNode>,
    pub span: Range<usize>,
}

/// The declaration of a trait: its name and the items of its body.
#[derive(Debug, Hash)]
pub struct TraitStatementNode {
    pub identifier: IdentifierNode,
    pub trait_item: Vec<TraitItemNode>,
    pub span: Range<usize>,
}

/// One item in the body of a trait.
#[derive(Debug, Hash)]
pub enum TraitItemNode {
    DescriptionStatement(DescriptionStatementNode),
    EffectStatement(EffectStatementNode),
    IdStatement(IdStatementNode),
    RequirementStatement(RequirementStatementNode),
}

/// A named value inside a trait.
#[derive(Debug, Hash)]
pub struct TraitPropertyNode {
    pub atomic: AtomicNode,
    pub identifier: IdentifierNode,
    pub span: Range<usize>,
}

/// The conditions under which a declaration applies.
#[derive(Debug, Hash)]
pub struct RequirementStatementNode {
    pub statement: Vec<StatementNode>,
    pub span: Range<usize>,
}

/// What a trait does when it applies.
#[derive(Debug, Hash)]
pub struct EffectStatementNode {
    pub statement: Vec<StatementNode>,
    pub span: Range<usize>,
}

/// A named group of event declarations.
#[derive(Debug, Hash)]
pub struct EventGroupNode {
    pub event_statement: Vec<EventStatementNode>,
    pub identifier: IdentifierNode,
    pub span: Range<usize>,
}

/// The declaration of an event: its name and the items of its body.
#[derive(Debug, Hash)]
pub struct EventStatementNode {
    pub event_item: Vec<EventItemNode>,
    pub identifier: IdentifierNode,
    pub span: Range<usize>,
}

/// One item in the body of an event.
#[derive(Debug, Hash)]
pub enum EventItemNode {
    DescriptionStatement(DescriptionStatementNode),
    IdStatement(IdStatementNode),
    OptionStatement(OptionStatementNode),
    RequirementStatement(RequirementStatementNode),
}

/// A named entry of an event.
#[derive(Debug, Hash)]
pub struct EventPropertyNode {
    pub identifier: IdentifierNode,
    pub span: Range<usize>,
}

/// The explicit index of a declaration.
#[derive(Debug, Hash)]
pub struct IdStatementNode {
    pub integer: IntegerNode,
    pub span: Range<usize>,
}

/// The description of a declaration: its strings in order.
#[derive(Debug, Hash)]
pub struct DescriptionStatementNode {
    pub string: Vec<StringNode>,
    pub span: Range<usize>,
}

/// One statement of a requirement or an effect.
#[derive(Debug, Hash)]
pub enum StatementNode {
    Eos(EosNode),
    Expression(ExpressionNode),
    IfStatement(IfStatementNode),
}

/// A conditional: its first branch and, if given, a second condition and a last
/// resort.
#[derive(Debug, Hash)]
pub struct IfStatementNode {
    pub if_else_block: Option<IfElseBlockNode>,
    pub if_else_if_block: Option<IfElseIfBlockNode>,
    pub if_then_block: IfThenBlockNode,
    pub span: Range<usize>,
}

/// The first branch of a conditional: its condition and its statements.
#[derive(Debug, Hash)]
pub struct IfThenBlockNode {
    pub expression: ExpressionNode,
    pub statement: Vec<StatementNode>,
    pub span: Range<usize>,
}

/// The second branch of a conditional: its condition and its statements.
#[derive(Debug, Hash)]
pub struct IfElseIfBlockNode {
    pub expression: ExpressionNode,
    pub statement: Vec<StatementNode>,
    pub span: Range<usize>,
}

/// The last branch of a conditional: its statements.
#[derive(Debug, Hash)]
pub struct IfElseBlockNode {
    pub statement: Vec<StatementNode>,
    pub span: Range<usize>,
}

/// An expression as written: its terms in order and the infix operators between
/// them in order.
#[derive(Debug, Hash)]
pub struct ExpressionNode {
    pub infix: Vec<InfixNode>,
    pub term: Vec<TermNode>,
    pub span: Range<usize>,
}

/// An operand with the prefix operators before it and the suffix operators
/// after it, each in order.
#[derive(Debug, Hash)]
pub struct TermNode {
    pub atomic: AtomicNode,
    pub prefix: Vec<PrefixNode>,
    pub suffix: Vec<SuffixNode>,
    pub span: Range<usize>,
}

/// A prefix operator.
#[derive(Debug, Hash)]
pub enum PrefixNode {
    Prefix0,
}

/// An infix operator.
#[derive(Debug, Hash)]
pub enum InfixNode {
    Add,
    AddAssign,
    And,
    EQ,
    GEQ,
    GT,
    Has,
    LEQ,
    LT,
    NE,
    Or,
    Sub,
    SubAssign,
}

/// A suffix operator.
#[derive(Debug, Hash)]
pub enum SuffixNode {
    Suffix0,
}

/// An operand.
#[derive(Debug, Hash)]
pub enum AtomicNode {
    Boolean(BooleanNode),
    Identifier(IdentifierNode),
    Integer(IntegerNode),
    List(ListNode),
    StringNormal(StringNormalNode),
    StringRaw(StringRawNode),
}

/// A list of operands between square brackets.
#[derive(Debug, Hash)]
pub struct ListNode {
    pub atomic: Vec<AtomicNode>,
    pub comma: Vec<CommaNode>,
    pub span: Range<usize>,
}

/// A string of either kind.
#[derive(Debug, Hash)]
pub enum StringNode {
    StringNormal(StringNormalNode),
    StringRaw(StringRawNode),
}

/// A string between single quotes, taken as written.
#[derive(Debug, Hash)]
pub struct StringRawNode {
    pub string_raw_text: StringRawTextNode,
    pub span: Range<usize>,
}

/// The text between the quotes of a raw string.
#[derive(Debug, Hash)]
pub struct StringRawTextNode {
    pub text: String,
    pub span: Range<usize>,
}

/// A string between double quotes: its pieces in order.
#[derive(Debug, Hash)]
pub struct StringNormalNode {
    pub string_item: Vec<StringItemNode>,
    pub span: Range<usize>,
}

/// One piece of a string between double quotes.
#[derive(Debug, Hash)]
pub enum StringItemNode {
    EscapedCharacter(EscapedCharacterNode),
    EscapedUnicode(EscapedUnicodeNode),
    TextAny(TextAnyNode),
}

/// A character given by its code point in hexadecimal.
#[derive(Debug, Hash)]
pub struct EscapedUnicodeNode {
    pub hex: HexNode,
    pub span: Range<usize>,
}

/// A backslash and the character it escapes.
#[derive(Debug, Hash)]
pub struct EscapedCharacterNode {
    pub text: String,
    pub span: Range<usize>,
}

/// The hexadecimal digits of a code point.
#[derive(Debug, Hash)]
pub struct HexNode {
    pub text: String,
    pub span: Range<usize>,
}

/// A piece of plain text inside a string.
#[derive(Debug, Hash)]
pub struct TextAnyNode {
    pub text: String,
    pub span: Range<usize>,
}

/// A name.
#[derive(Debug, Hash)]
pub struct IdentifierNode {
    pub text: String,
    pub span: Range<usize>,
}

/// An unsigned decimal number as written.
#[derive(Debug, Hash)]
pub struct IntegerNode {
    pub text: String,
    pub span: Range<usize>,
}

/// A truth value.
#[derive(Debug, Hash)]
pub enum BooleanNode {
    False,
    True,
}

/// A comma.
#[derive(Debug, Hash)]
pub struct CommaNode {
    pub span: Range<usize>,
}

/// A colon.
#[derive(Debug, Hash)]
pub struct ColonNode {
    pub span: Range<usize>,
}

/// The keyword of a property declaration.
#[derive(Debug, Hash)]
pub struct KwPropertyNode {
    pub span: Range<usize>,
}

/// The keyword of a group of traits.
#[derive(Debug, Hash)]
pub struct KwTraitGroupNode {
    pub span: Range<usize>,
}

/// The keyword of a trait declaration.
#[derive(Debug, Hash)]
pub struct KwTraitNode {
    pub span: Range<usize>,
}

/// The keyword of a group of events.
#[derive(Debug, Hash)]
pub struct KwEventGroupNode {
    pub span: Range<usize>,
}

/// The keyword of an event declaration.
#[derive(Debug, Hash)]
pub struct KwEventNode {
    pub span: Range<usize>,
}

/// The keyword of an index.
#[derive(Debug, Hash)]
pub struct KwIdNode {
    pub span: Range<usize>,
}

/// The keyword of a description.
#[derive(Debug, Hash)]
pub struct KwDescriptionNode {
    pub span: Range<usize>,
}

/// The keyword of a requirement.
#[derive(Debug, Hash)]
pub struct KwRequirementNode {
    pub span: Range<usize>,
}

/// The keyword of an effect.
#[derive(Debug, Hash)]
pub struct KwEffectNode {
    pub span: Range<usize>,
}

/// The keyword of an enumeration.
#[derive(Debug, Hash)]
pub struct KwEnumerateNode {
    pub span: Range<usize>,
}

/// The keyword of a list of options.
#[derive(Debug, Hash)]
pub struct KwOptionsNode {
    pub span: Range<usize>,
}

/// The keyword of a condition.
#[derive(Debug, Hash)]
pub struct KwIfNode {
    pub span: Range<usize>,
}

/// The keyword of a second condition.
#[derive(Debug, Hash)]
pub struct KwElseIfNode {
    pub span: Range<usize>,
}

/// The keyword of a last resort.
#[derive(Debug, Hash)]
pub struct KwElseNode {
    pub span: Range<usize>,
}

/// A run of white space.
#[derive(Debug, Hash)]
pub struct WhiteSpaceNode {
    pub span: Range<usize>,
}

/// A comment.
#[derive(Debug, Hash)]
pub struct CommentNode {
    pub span: Range<usize>,
}

} // verus!
