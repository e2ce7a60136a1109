//! The element descriptions the metadata database is built from.

use vstd::prelude::*;

verus! {

/// Each element in HTML falls into zero or more categories that group
/// elements with similar characteristics together.
#[derive(Debug, Clone, Copy, PartialEq, Eq, PartialOrd, Ord, Hash)]
pub enum MergedCategory {
    Metadata,
    Flow,
    Sectioning,
    Heading,
    Phrasing,
    Embedded,
    Interactive,
    Palpable,
    ScriptSupporting,
    Transparent,
}

/// The type of the value of an attribute.
#[derive(Debug)]
pub enum AttributeType {
    Bool,
    KString,
    Integer,
    Float,
    Identifier(String),
    Enumerable(Vec<String>),
}

/// An attribute as an element description lists it.
#[derive(Debug)]
pub struct Attribute {
    pub name: String,
    pub description: String,
    pub field_name: String,
    pub ty: AttributeType,
}

/// The description of one element kind.
#[derive(Debug)]
pub struct MergedElement {
    pub tag_name: String,
    pub struct_name: String,
    pub submodule_name: String,
    pub mdn_link: String,
    pub has_global_attributes: bool,
    pub has_closing_tag: bool,
    pub attributes: Vec<Attribute>,
    pub dom_interface: String,
    pub content_categories: Vec<MergedCategory>,
    /// Struct names of the elements allowed as children ("Text" for
    /// text).
    pub permitted_child_elements: Vec<String>,
}

} // verus!
