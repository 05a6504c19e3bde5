use vstd::prelude::*;

use crate::ecs::entity::{entity_debug, push_entity_debug, Entity};
use crate::text::{decimal, push_decimal};

verus! {

/// Errors returned by ECS operations that callers may pattern-match.
#[derive(Debug)]
pub enum CoreError {
    /// The entity is dead or its generation does not match.
    EntityNotFound(Entity),
    /// The component is not attached to the entity.
    ComponentMissing { entity: Entity, component: &'static str },
    /// The tag namespace is full; carries the number of interned names.
    TagsFull(usize),
}

impl Clone for CoreError {
    fn clone(&self) -> (r: Self)
        ensures
            r == *self,
    {
        match self {
            CoreError::EntityNotFound(e) => CoreError::EntityNotFound(*e),
            CoreError::ComponentMissing { entity, component } => CoreError::ComponentMissing {
                entity: *entity,
                component: *component,
            },
            CoreError::TagsFull(n) => CoreError::TagsFull(*n),
        }
    }
}

/// The message an ECS error reports.
pub open spec fn core_error_text(e: CoreError) -> Seq<char> {
    match e {
        CoreError::EntityNotFound(entity) => "entity "@ + entity_debug(entity) + " not found or generation mismatch"@,
        CoreError::ComponentMissing { entity, component } => "component "@ + component@ + " missing on entity "@
            + entity_debug(entity),
        CoreError::TagsFull(count) => "tag namespace full ("@ + decimal(count as nat) + " interned, cap is 128)"@,
    }
}

impl CoreError {
    /// The message this error reports.
    pub fn message(&self) -> (r: String)
        ensures
            r@ == core_error_text(*self),
    {
        match self {
            CoreError::EntityNotFound(entity) => {
                let mut m = "entity ".to_owned();
                push_entity_debug(&mut m, *entity);
                m.append(" not found or generation mismatch");
                m
            },
            CoreError::ComponentMissing { entity, component } => {
                let mut m = "component ".to_owned();
                m.append(component);
                m.append(" missing on entity ");
                push_entity_debug(&mut m, *entity);
                m
            },
            CoreError::TagsFull(count) => {
                let mut m = "tag namespace full (".to_owned();
                push_decimal(&mut m, *count as u64);
                m.append(" interned, cap is 128)");
                m
            },
        }
    }
}

} // verus!
