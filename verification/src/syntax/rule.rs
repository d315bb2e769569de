//! The nonterminals of the grammar and the named slots of their nodes.

use vstd::prelude::*;

verus! {

/// The grammar rules, one per nonterminal.
#[allow(non_camel_case_types)]
#[derive(Copy, Clone, Debug, PartialEq, Eq, PartialOrd, Ord, Hash, Structural)]
pub enum LifeRestartRule {
    Root,
    TopStatement,
    EOS,
    PropertyStatement,
    PropertyItem,
    EnumerateStatement,
    OptionStatement,
    OptionItem,
    TraitGroup,
    TraitStatement,
    TraitItem,
    TraitProperty,
    RequirementStatement,
    EffectStatement,
    EventGroup,
    EventStatement,
    EventItem,
    EventProperty,
    IdStatement,
    DescriptionStatement,
    Statement,
    IfStatement,
    IfThenBlock,
    IfElseIfBlock,
    IfElseBlock,
    Expression,
    Term,
    Prefix,
    Infix,
    Suffix,
    Atomic,
    List,
    String,
    StringRaw,
    StringRawText,
    StringNormal,
    StringItem,
    EscapedUnicode,
    EscapedCharacter,
    HEX,
    TextAny,
    Identifier,
    Integer,
    Boolean,
    COMMA,
    COLON,
    KW_PROPERTY,
    KW_TRAIT_GROUP,
    KW_TRAIT,
    KW_EVENT_GROUP,
    KW_EVENT,
    KW_ID,
    KW_DESCRIPTION,
    KW_REQUIREMENT,
    KW_EFFECT,
    KW_ENUMERATE,
    KW_OPTIONS,
    KW_IF,
    KW_ELSE_IF,
    KW_ELSE,
    WhiteSpace,
    Comment,
    /// Label for unnamed text literal
    HiddenText,
}

impl LifeRestartRule {
    /// Nodes that carry no meaning: white space, comments and unnamed text.
    pub open spec fn spec_is_ignore(&self) -> bool {
        *self == Self::HiddenText || *self == Self::WhiteSpace || *self == Self::Comment
    }

    /// Nodes ignored in typed trees, such as spaces, carriage returns and
    /// comments.
    #[verifier::when_used_as_spec(spec_is_ignore)]
    pub fn is_ignore(&self) -> (ignore: bool)
        ensures
            ignore == self.spec_is_ignore(),
    {
        match self {
            Self::HiddenText | Self::WhiteSpace | Self::Comment => true,
            _ => false,
        }
    }

    /// The style name of the rule. No rule of this grammar has one.
    pub fn get_style(&self) -> (style: &'static str)
        ensures
            style@ == ""@,
    {
        ""
    }

    /// The name of the rule, as diagnostics print it.
    pub open spec fn spec_name(&self) -> Seq<char> {
        match self {
            Self::Root => "Root"@,
            Self::TopStatement => "TopStatement"@,
            Self::EOS => "EOS"@,
            Self::PropertyStatement => "PropertyStatement"@,
            Self::PropertyItem => "PropertyItem"@,
            Self::EnumerateStatement => "EnumerateStatement"@,
            Self::OptionStatement => "OptionStatement"@,
            Self::OptionItem => "OptionItem"@,
            Self::TraitGroup => "TraitGroup"@,
            Self::TraitStatement => "TraitStatement"@,
            Self::TraitItem => "TraitItem"@,
            Self::TraitProperty => "TraitProperty"@,
            Self::RequirementStatement => "RequirementStatement"@,
            Self::EffectStatement => "EffectStatement"@,
            Self::EventGroup => "EventGroup"@,
            Self::EventStatement => "EventStatement"@,
            Self::EventItem => "EventItem"@,
            Self::EventProperty => "EventProperty"@,
            Self::IdStatement => "IdStatement"@,
            Self::DescriptionStatement => "DescriptionStatement"@,
            Self::Statement => "Statement"@,
            Self::IfStatement => "IfStatement"@,
            Self::IfThenBlock => "IfThenBlock"@,
            Self::IfElseIfBlock => "IfElseIfBlock"@,
            Self::IfElseBlock => "IfElseBlock"@,
            Self::Expression => "Expression"@,
            Self::Term => "Term"@,
            Self::Prefix => "Prefix"@,
            Self::Infix => "Infix"@,
            Self::Suffix => "Suffix"@,
            Self::Atomic => "Atomic"@,
            Self::List => "List"@,
            Self::String => "String"@,
            Self::StringRaw => "StringRaw"@,
            Self::StringRawText => "StringRawText"@,
            Self::StringNormal => "StringNormal"@,
            Self::StringItem => "StringItem"@,
            Self::EscapedUnicode => "EscapedUnicode"@,
            Self::EscapedCharacter => "EscapedCharacter"@,
            Self::HEX => "HEX"@,
            Self::TextAny => "TextAny"@,
            Self::Identifier => "Identifier"@,
            Self::Integer => "Integer"@,
            Self::Boolean => "Boolean"@,
            Self::COMMA => "COMMA"@,
            Self::COLON => "COLON"@,
            Self::KW_PROPERTY => "KW_PROPERTY"@,
            Self::KW_TRAIT_GROUP => "KW_TRAIT_GROUP"@,
            Self::KW_TRAIT => "KW_TRAIT"@,
            Self::KW_EVENT_GROUP => "KW_EVENT_GROUP"@,
            Self::KW_EVENT => "KW_EVENT"@,
            Self::KW_ID => "KW_ID"@,
            Self::KW_DESCRIPTION => "KW_DESCRIPTION"@,
            Self::KW_REQUIREMENT => "KW_REQUIREMENT"@,
            Self::KW_EFFECT => "KW_EFFECT"@,
            Self::KW_ENUMERATE => "KW_ENUMERATE"@,
            Self::KW_OPTIONS => "KW_OPTIONS"@,
            Self::KW_IF => "KW_IF"@,
            Self::KW_ELSE_IF => "KW_ELSE_IF"@,
            Self::KW_ELSE => "KW_ELSE"@,
            Self::WhiteSpace => "WhiteSpace"@,
            Self::Comment => "Comment"@,
            Self::HiddenText => "HiddenText"@,
        }
    }

    /// The name of the rule, as diagnostics print it.
    pub fn name(&self) -> (name: &'static str)
        ensures
            name@ == self.spec_name(),
    {
        match self {
            Self::Root => "Root",
            Self::TopStatement => "TopStatement",
            Self::EOS => "EOS",
            Self::PropertyStatement => "PropertyStatement",
            Self::PropertyItem => "PropertyItem",
            Self::EnumerateStatement => "EnumerateStatement",
            Self::OptionStatement => "OptionStatement",
            Self::OptionItem => "OptionItem",
            Self::TraitGroup => "TraitGroup",
            Self::TraitStatement => "TraitStatement",
            Self::TraitItem => "TraitItem",
            Self::TraitProperty => "TraitProperty",
            Self::RequirementStatement => "RequirementStatement",
            Self::EffectStatement => "EffectStatement",
            Self::EventGroup => "EventGroup",
            Self::EventStatement => "EventStatement",
            Self::EventItem => "EventItem",
            Self::EventProperty => "EventProperty",
            Self::IdStatement => "IdStatement",
            Self::DescriptionStatement => "DescriptionStatement",
            Self::Statement => "Statement",
            Self::IfStatement => "IfStatement",
            Self::IfThenBlock => "IfThenBlock",
            Self::IfElseIfBlock => "IfElseIfBlock",
            Self::IfElseBlock => "IfElseBlock",
            Self::Expression => "Expression",
            Self::Term => "Term",
            Self::Prefix => "Prefix",
            Self::Infix => "Infix",
            Self::Suffix => "Suffix",
            Self::Atomic => "Atomic",
            Self::List => "List",
            Self::String => "String",
            Self::StringRaw => "StringRaw",
            Self::StringRawText => "StringRawText",
            Self::StringNormal => "StringNormal",
            Self::StringItem => "StringItem",
            Self::EscapedUnicode => "EscapedUnicode",
            Self::EscapedCharacter => "EscapedCharacter",
            Self::HEX => "HEX",
            Self::TextAny => "TextAny",
            Self::Identifier => "Identifier",
            Self::Integer => "Integer",
            Self::Boolean => "Boolean",
            Self::COMMA => "COMMA",
            Self::COLON => "COLON",
            Self::KW_PROPERTY => "KW_PROPERTY",
            Self::KW_TRAIT_GROUP => "KW_TRAIT_GROUP",
            Self::KW_TRAIT => "KW_TRAIT",
            Self::KW_EVENT_GROUP => "KW_EVENT_GROUP",
            Self::KW_EVENT => "KW_EVENT",
            Self::KW_ID => "KW_ID",
            Self::KW_DESCRIPTION => "KW_DESCRIPTION",
            Self::KW_REQUIREMENT => "KW_REQUIREMENT",
            Self::KW_EFFECT => "KW_EFFECT",
            Self::KW_ENUMERATE => "KW_ENUMERATE",
            Self::KW_OPTIONS => "KW_OPTIONS",
            Self::KW_IF => "KW_IF",
            Self::KW_ELSE_IF => "KW_ELSE_IF",
            Self::KW_ELSE => "KW_ELSE",
            Self::WhiteSpace => "WhiteSpace",
            Self::Comment => "Comment",
            Self::HiddenText => "HiddenText",
        }
    }
}

/// The named slots that a node can fill in its parent.
#[derive(Copy, Clone, Debug, PartialEq, Eq, Hash, Structural)]
pub enum Slot {
    /// the node a parse starts from, which fills no slot
    Root,
    /// `top_statement`
    TopStatement,
    /// `eos`
    Eos,
    /// `event_group`
    EventGroup,
    /// `event_statement`
    EventStatement,
    /// `property_statement`
    PropertyStatement,
    /// `trait_group`
    TraitGroup,
    /// `trait_statement`
    TraitStatement,
    /// `identifier`
    Identifier,
    /// `property_item`
    PropertyItem,
    /// `description_statement`
    DescriptionStatement,
    /// `enumerate_statement`
    EnumerateStatement,
    /// `id_statement`
    IdStatement,
    /// `option_statement`
    OptionStatement,
    /// `requirement_statement`
    RequirementStatement,
    /// `variant`
    Variant,
    /// `option_item`
    OptionItem,
    /// `weight`
    Weight,
    /// `trait_item`
    TraitItem,
    /// `effect_statement`
    EffectStatement,
    /// `atomic`
    Atomic,
    /// `statement`
    Statement,
    /// `event_item`
    EventItem,
    /// `integer`
    Integer,
    /// `string`
    String,
    /// `expression`
    Expression,
    /// `if_statement`
    IfStatement,
    /// `if_else_block`
    IfElseBlock,
    /// `if_else_if_block`
    IfElseIfBlock,
    /// `if_then_block`
    IfThenBlock,
    /// `infix`
    Infix,
    /// `term`
    Term,
    /// `prefix`
    Prefix,
    /// `suffix`
    Suffix,
    /// `prefix_0`
    Prefix0,
    /// `suffix_0`
    Suffix0,
    /// `add`
    Add,
    /// `add_assign`
    AddAssign,
    /// `and`
    And,
    /// `eq`
    Eq,
    /// `geq`
    Geq,
    /// `gt`
    Gt,
    /// `has`
    Has,
    /// `leq`
    Leq,
    /// `lt`
    Lt,
    /// `ne`
    Ne,
    /// `or`
    Or,
    /// `sub`
    Sub,
    /// `sub_assign`
    SubAssign,
    /// `boolean`
    Boolean,
    /// `list`
    List,
    /// `string_normal`
    StringNormal,
    /// `string_raw`
    StringRaw,
    /// `comma`
    Comma,
    /// `string_raw_text`
    StringRawText,
    /// `string_item`
    StringItem,
    /// `escaped_character`
    EscapedCharacter,
    /// `escaped_unicode`
    EscapedUnicode,
    /// `text_any`
    TextAny,
    /// `hex`
    Hex,
    /// `false`
    False,
    /// `true`
    True,
}

} // verus!
