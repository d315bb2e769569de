//! The registries of one load session and what fills them.

pub mod characters;
pub mod climb;
pub mod expressions;
pub mod identifier;
pub mod index;
pub mod machine;
pub mod parser;
pub mod properties;
pub mod record;
pub mod registry;
pub mod same;
pub mod stories;
pub mod talents;
pub mod text;

pub use self::{
    characters::{CharacterItem, CharacterManager},
    expressions::{BinaryExpression, Expression, Operator, UnaryExpression},
    identifier::Identifier,
    index::Index,
    machine::LifeVM,
    properties::{PropertyItem, PropertyManager},
    stories::{StoryItem, StoryManager},
    talents::{TalentItem, TalentManager},
};
