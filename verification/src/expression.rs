//! Type expressions of the schema model: primitives, named types and
//! the vector, optional and map containers, with the field name each
//! expression derives.
use vstd::prelude::*;
use crate::name::{FieldName, Name, snake_case_spec};
use crate::text::str_equal;

verus! {

#[derive(Debug, PartialEq, Eq)]
pub enum TypeExpression {
    Primitive(Primitive),
    Named(Name),
    Container(Container),
}

#[derive(Clone, Copy, Debug, PartialEq, Eq, Hash, Structural)]
pub enum Primitive {
    String,
    Bytes,
    Boolean,
    Unsigned8,
    Unsigned16,
    Unsigned32,
    Unsigned64,
    Date,
    Time,
}

#[derive(Debug, PartialEq, Eq)]
pub enum Container {
    Vector(Box<TypeExpression>),
    Optional(Box<TypeExpression>),
    Mapping { key: Box<TypeExpression>, value: Box<TypeExpression> },
}

/// The mathematical value of a type expression; names are their text.
pub enum ExpressionModel {
    Primitive(Primitive),
    Named(Seq<char>),
    Vector(Box<ExpressionModel>),
    Optional(Box<ExpressionModel>),
    Mapping(Box<ExpressionModel>, Box<ExpressionModel>),
}

impl TypeExpression {
    pub open spec fn model(&self) -> ExpressionModel
        decreases self,
    {
        match self {
            TypeExpression::Primitive(p) => ExpressionModel::Primitive(*p),
            TypeExpression::Named(name) => ExpressionModel::Named(name.text()),
            TypeExpression::Container(container) => match container {
                Container::Vector(inner) => ExpressionModel::Vector(Box::new(inner.model())),
                Container::Optional(inner) => ExpressionModel::Optional(Box::new(inner.model())),
                Container::Mapping { key, value } => ExpressionModel::Mapping(
                    Box::new(key.model()),
                    Box::new(value.model()),
                ),
            },
        }
    }

    /// A copy with the same model.
    pub fn duplicate(&self) -> (r: TypeExpression)
        ensures
            r.model() == self.model(),
        decreases self,
    {
        match self {
            TypeExpression::Primitive(p) => TypeExpression::Primitive(*p),
            TypeExpression::Named(name) => TypeExpression::Named(name.duplicate()),
            TypeExpression::Container(container) => match container {
                Container::Vector(inner) => TypeExpression::Container(
                    Container::Vector(Box::new(inner.duplicate())),
                ),
                Container::Optional(inner) => TypeExpression::Container(
                    Container::Optional(Box::new(inner.duplicate())),
                ),
                Container::Mapping { key, value } => TypeExpression::Container(
                    Container::Mapping {
                        key: Box::new(key.duplicate()),
                        value: Box::new(value.duplicate()),
                    },
                ),
            },
        }
    }

    /// Whether two expressions denote the same type.
    pub fn same_as(&self, other: &TypeExpression) -> (r: bool)
        ensures
            r == (self.model() == other.model()),
        decreases self,
    {
        match (self, other) {
            (TypeExpression::Primitive(a), TypeExpression::Primitive(b)) => *a == *b,
            (TypeExpression::Named(a), TypeExpression::Named(b)) => str_equal(
                a.as_str(),
                b.as_str(),
            ),
            (TypeExpression::Container(a), TypeExpression::Container(b)) => match (a, b) {
                (Container::Vector(x), Container::Vector(y)) => x.same_as(y),
                (Container::Optional(x), Container::Optional(y)) => x.same_as(y),
                (
                    Container::Mapping { key: k1, value: v1 },
                    Container::Mapping { key: k2, value: v2 },
                ) => k1.same_as(k2) && v1.same_as(v2),
                _ => false,
            },
            _ => false,
        }
    }

    pub fn named(name: Name) -> (r: Self)
        ensures
            r.model() == ExpressionModel::Named(name.text()),
    {
        TypeExpression::Named(name)
    }

    pub fn vector(inner: TypeExpression) -> (r: Self)
        ensures
            r.model() == ExpressionModel::Vector(Box::new(inner.model())),
    {
        TypeExpression::Container(Container::Vector(Box::new(inner)))
    }

    pub fn optional(inner: TypeExpression) -> (r: Self)
        ensures
            r.model() == ExpressionModel::Optional(Box::new(inner.model())),
    {
        TypeExpression::Container(Container::Optional(Box::new(inner)))
    }

    pub fn map(key: TypeExpression, value: TypeExpression) -> (r: Self)
        ensures
            r.model() == ExpressionModel::Mapping(Box::new(key.model()), Box::new(value.model())),
    {
        TypeExpression::Container(Container::Mapping { key: Box::new(key), value: Box::new(value) })
    }

    /// The field name this expression derives.
    pub fn derived_field_name(&self) -> (r: FieldName)
        ensures
            r.text() == derived_field_name_spec(self.model()),
        decreases self,
    {
        match self {
            TypeExpression::Primitive(primitive) => primitive.derived_field_name(),
            TypeExpression::Named(name) => FieldName::from_schema_name(name),
            TypeExpression::Container(container) => container.derived_field_name(),
        }
    }
}

/// The lowercase text of a primitive.
pub open spec fn primitive_text(p: Primitive) -> Seq<char> {
    match p {
        Primitive::String => "string"@,
        Primitive::Bytes => "bytes"@,
        Primitive::Boolean => "boolean"@,
        Primitive::Unsigned8 => "unsigned8"@,
        Primitive::Unsigned16 => "unsigned16"@,
        Primitive::Unsigned32 => "unsigned32"@,
        Primitive::Unsigned64 => "unsigned64"@,
        Primitive::Date => "date"@,
        Primitive::Time => "time"@,
    }
}

/// The derived field name of an expression: a primitive's lowercase text,
/// the snake case of a named type, a vector's or optional's element name,
/// and `map` for a map.
pub open spec fn derived_field_name_spec(e: ExpressionModel) -> Seq<char>
    decreases e,
{
    match e {
        ExpressionModel::Primitive(p) => primitive_text(p),
        ExpressionModel::Named(name) => snake_case_spec(name),
        ExpressionModel::Vector(inner) => derived_field_name_spec(*inner),
        ExpressionModel::Optional(inner) => derived_field_name_spec(*inner),
        ExpressionModel::Mapping(_, _) => "map"@,
    }
}

impl Primitive {
    /// Every primitive but `String` and `Bytes` has a fixed width.
    pub fn is_fixed_width(self) -> (r: bool)
        ensures
            r == !(self == Primitive::String || self == Primitive::Bytes),
    {
        !(self == Primitive::String || self == Primitive::Bytes)
    }

    pub fn derived_field_name(self) -> (r: FieldName)
        ensures
            r.text() == primitive_text(self),
    {
        let text = match self {
            Primitive::String => "string",
            Primitive::Bytes => "bytes",
            Primitive::Boolean => "boolean",
            Primitive::Unsigned8 => "unsigned8",
            Primitive::Unsigned16 => "unsigned16",
            Primitive::Unsigned32 => "unsigned32",
            Primitive::Unsigned64 => "unsigned64",
            Primitive::Date => "date",
            Primitive::Time => "time",
        };
        FieldName::from_primitive(text)
    }
}

impl Container {
    pub open spec fn model(&self) -> ExpressionModel {
        match self {
            Container::Vector(inner) => ExpressionModel::Vector(Box::new(inner.model())),
            Container::Optional(inner) => ExpressionModel::Optional(Box::new(inner.model())),
            Container::Mapping { key, value } => ExpressionModel::Mapping(
                Box::new(key.model()),
                Box::new(value.model()),
            ),
        }
    }

    pub fn derived_field_name(&self) -> (r: FieldName)
        ensures
            r.text() == derived_field_name_spec(self.model()),
        decreases self,
    {
        match self {
            Container::Vector(inner) => inner.derived_field_name(),
            Container::Optional(inner) => inner.derived_field_name(),
            Container::Mapping { .. } => FieldName::from_primitive("map"),
        }
    }
}

impl Clone for TypeExpression {
    fn clone(&self) -> (r: TypeExpression)
        ensures
            r.model() == self.model(),
    {
        self.duplicate()
    }
}

} // verus!
