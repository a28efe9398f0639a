//! The objects a module defines, imports, re-exports or references, and the
//! resolved use relations between modules.

use vstd::prelude::*;

verus! {

/// What kind of usable object an entry of a module describes.
///
/// `Struct`, `Enum`, `Trait` and `Function` are definitions made at the node;
/// `Use` and `RePublish` are explicit import statements (private and public
/// respectively); `ImplicitUse` is a type path referenced inside a signature,
/// field, pattern or impl header.
#[derive(Clone, Copy, PartialEq, Eq, Structural, Debug)]
pub enum ObjectType {
    Struct,
    Enum,
    Trait,
    Function,
    Use,
    RePublish,
    ImplicitUse,
}

impl ObjectType {
    /// A definition made at the node itself.
    pub open spec fn is_definition(self) -> bool {
        self is Struct || self is Enum || self is Trait || self is Function
    }

    /// An explicit import statement.
    pub open spec fn is_explicit_use(self) -> bool {
        self is Use || self is RePublish
    }
}

/// A byte span within a source file, kept for diagnostics.
#[derive(Clone, Copy, PartialEq, Eq, Structural, Debug)]
pub struct TextRange {
    pub start: usize,
    pub end: usize,
}

impl View for TextRange {
    type V = TextRange;

    open spec fn view(&self) -> TextRange {
        *self
    }
}

impl DeepView for TextRange {
    type V = TextRange;

    open spec fn deep_view(&self) -> TextRange {
        *self
    }
}

/// Something a module defines, re-exports or references.
#[derive(Debug)]
pub struct UsableObject {
    /// Whether the object carries a public visibility marker.
    pub visible: bool,
    pub object_type: ObjectType,
    /// The textual name or `::`-joined path as it appears in source.
    pub object_path: String,
    pub text_range: TextRange,
}

/// The mathematical value of a [`UsableObject`].
pub ghost struct SpecObject {
    pub visible: bool,
    pub object_type: ObjectType,
    pub path: Seq<char>,
    pub range: TextRange,
}

impl View for UsableObject {
    type V = SpecObject;

    open spec fn view(&self) -> SpecObject {
        SpecObject {
            visible: self.visible,
            object_type: self.object_type,
            path: self.object_path@,
            range: self.text_range,
        }
    }
}

impl DeepView for UsableObject {
    type V = SpecObject;

    open spec fn deep_view(&self) -> SpecObject {
        self.view()
    }
}

impl Clone for UsableObject {
    fn clone(&self) -> (res: Self)
        ensures
            res@ == self@,
    {
        UsableObject {
            visible: self.visible,
            object_type: self.object_type,
            object_path: self.object_path.clone(),
            text_range: self.text_range,
        }
    }
}

impl UsableObject {
    pub fn new(visible: bool, object_type: ObjectType, object_path: String, text_range: TextRange) -> (res: Self)
        ensures
            res@ == (SpecObject {
                visible,
                object_type,
                path: object_path@,
                range: text_range,
            }),
    {
        UsableObject { visible, object_type, object_path, text_range }
    }
}

/// A resolved directed edge: some object of a referring module points at
/// `used_object`, which lives in the module node `owner_node_index`.
#[derive(Debug)]
pub struct UseRelation {
    /// Index of the module node that contains the used object.
    pub owner_node_index: usize,
    /// The definition or re-export entry the edge points at.
    pub used_object: UsableObject,
}

/// The mathematical value of a [`UseRelation`].
pub ghost struct SpecRelation {
    pub owner_node_index: int,
    pub used_object: SpecObject,
}

impl View for UseRelation {
    type V = SpecRelation;

    open spec fn view(&self) -> SpecRelation {
        SpecRelation {
            owner_node_index: self.owner_node_index as int,
            used_object: self.used_object@,
        }
    }
}

impl DeepView for UseRelation {
    type V = SpecRelation;

    open spec fn deep_view(&self) -> SpecRelation {
        self.view()
    }
}

impl Clone for UseRelation {
    fn clone(&self) -> (res: Self)
        ensures
            res@ == self@,
    {
        UseRelation {
            owner_node_index: self.owner_node_index,
            used_object: self.used_object.clone(),
        }
    }
}

impl UseRelation {
    pub fn new(owner_node_index: usize, used_object: UsableObject) -> (res: Self)
        ensures
            res@ == (SpecRelation { owner_node_index: owner_node_index as int, used_object: used_object@ }),
    {
        UseRelation { owner_node_index, used_object }
    }

    pub fn used_object(&self) -> (res: &UsableObject)
        ensures
            res@ == self@.used_object,
    {
        &self.used_object
    }

    pub fn owner_node_index(&self) -> (res: usize)
        ensures
            res as int == self@.owner_node_index,
    {
        self.owner_node_index
    }
}

} // verus!
