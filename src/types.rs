use vstd::prelude::*;

verus! {

/// A node of the document tree: plain text, a named call with its
/// argument node lists, or a comment.
#[derive(Debug, PartialEq, Eq)]
pub enum LitNode {
    Text(String),
    Fn(String, Vec<Vec<LitNode>>),
    Comment(String),
}

/// A whole document: a list of nodes.
pub type LitDocument = Vec<LitNode>;

/// The type of a property, parsed from its annotation.
#[derive(Debug, PartialEq, Eq)]
pub enum PropertyType {
    /// A reference to another named schema or primitive.
    Ref(String),
    /// A list of the inner type.
    ArrayOf(Box<PropertyType>),
    /// A union of the listed types, in the order written.
    OneOf(Vec<PropertyType>),
    /// A key/value mapping of untyped entries.
    Dict,
    /// A literal constant.
    Constant(String),
}

/// The mathematical value of a `PropertyType`.
pub enum TypeModel {
    Ref(Seq<char>),
    ArrayOf(Box<TypeModel>),
    OneOf(Seq<TypeModel>),
    Dict,
    Constant(Seq<char>),
}

impl PropertyType {
    /// The value of this type, with its strings as character sequences.
    pub open spec fn model(self) -> TypeModel
        decreases self,
    {
        match self {
            PropertyType::Ref(n) => TypeModel::Ref(n@),
            PropertyType::ArrayOf(t) => TypeModel::ArrayOf(Box::new(t.model())),
            PropertyType::OneOf(ts) => TypeModel::OneOf(models(ts@)),
            PropertyType::Dict => TypeModel::Dict,
            PropertyType::Constant(c) => TypeModel::Constant(c@),
        }
    }
}

/// The values of a list of types.
pub open spec fn models(ts: Seq<PropertyType>) -> Seq<TypeModel>
    decreases ts,
{
    if ts.len() == 0 {
        seq![]
    } else {
        models(ts.drop_last()).push(ts.last().model())
    }
}

/// Why a type annotation could not be read.
#[derive(Debug, Clone, PartialEq, Eq)]
pub struct TypeParseError {
    /// The annotation as given.
    pub text: String,
    /// The position (in characters) where parsing stopped.
    pub position: usize,
}

/// One named field of a schema.
#[derive(Debug, PartialEq, Eq)]
pub struct Property {
    /// Whether the field must be present.
    pub required: bool,
    /// The field's documentation, as prose.
    pub docs: String,
    /// The field's type.
    pub prop_type: PropertyType,
    /// Whether the written type started with `[`.
    pub list: bool,
}

/// The mathematical value of a `Property`.
pub struct PropertyModel {
    pub required: bool,
    pub docs: Seq<char>,
    pub prop_type: TypeModel,
    pub list: bool,
}

impl Property {
    /// The value of this property.
    pub open spec fn model(self) -> PropertyModel {
        PropertyModel {
            required: self.required,
            docs: self.docs@,
            prop_type: self.prop_type.model(),
            list: self.list,
        }
    }
}

/// The map that a list of named properties stands for: a later entry
/// replaces an earlier one of the same name.
pub open spec fn props_map(v: Seq<(String, Property)>) -> Map<Seq<char>, PropertyModel>
    decreases v.len(),
{
    if v.len() == 0 {
        Map::empty()
    } else {
        props_map(v.drop_last()).insert(v.last().0@, v.last().1.model())
    }
}

/// Whether no two entries share a name.
pub open spec fn keys_distinct(v: Seq<(String, Property)>) -> bool {
    forall|i: int, j: int| 0 <= i < j < v.len() ==> (#[trigger] v[i]).0@ != (#[trigger] v[j]).0@
}

/// A schema found in a document.
#[derive(Debug, PartialEq, Eq)]
pub struct Schema {
    /// The schema's identifier.
    pub schema_name: String,
    /// Its properties, by name; no name occurs twice.
    pub properties: Vec<(String, Property)>,
    /// Whether it was declared as a member of a group.
    pub is_group_member: bool,
    /// The names of its direct children that are group members, in order.
    pub group_members: Vec<String>,
}

/// The mathematical value of a `Schema`.
pub struct SchemaModel {
    pub name: Seq<char>,
    pub properties: Map<Seq<char>, PropertyModel>,
    pub is_group_member: bool,
    pub group_members: Seq<Seq<char>>,
}

impl Schema {
    /// The value of this schema.
    pub open spec fn model(self) -> SchemaModel {
        SchemaModel {
            name: self.schema_name@,
            properties: props_map(self.properties@),
            is_group_member: self.is_group_member,
            group_members: self.group_members@.map_values(|n: String| n@),
        }
    }

    /// Whether its property names are distinct.
    pub open spec fn wf(self) -> bool {
        keys_distinct(self.properties@)
    }
}

/// The values of a list of schemas.
pub open spec fn schema_models(v: Seq<Schema>) -> Seq<SchemaModel> {
    v.map_values(|s: Schema| s.model())
}

/// Why a document could not be converted.
#[derive(Debug, Clone, PartialEq, Eq)]
pub enum ConvertError {
    /// A type annotation could not be read.
    Type(TypeParseError),
    /// The named call lacks an argument that conversion reads.
    Arguments(String),
}

/// The mathematical value of a `ConvertError`.
pub enum FailureModel {
    Type(Seq<char>, int),
    Arguments(Seq<char>),
}

impl ConvertError {
    /// The value of this error.
    pub open spec fn model(self) -> FailureModel {
        match self {
            ConvertError::Type(e) => FailureModel::Type(e.text@, e.position as int),
            ConvertError::Arguments(n) => FailureModel::Arguments(n@),
        }
    }
}

} // verus!
