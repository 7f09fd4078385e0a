//! The syntax tree of a schema document and its mathematical model.

use vstd::prelude::*;

verus! {

/// The type of a field.
#[derive(Debug, PartialEq, Eq)]
pub enum Type {
    String,
    Int,
    Bool,
    Array(Box<Type>),
    Custom(std::string::String),
}

/// A named, typed member of a record.
#[derive(Debug, Clone, PartialEq, Eq)]
pub struct Field {
    pub name: std::string::String,
    pub ty: Type,
}

/// A record definition: its name, its fields in source order, and the
/// decorators that stood in front of it.
#[derive(Debug, Clone, PartialEq, Eq)]
pub struct Struct {
    pub name: std::string::String,
    pub fields: Vec<Field>,
    pub decorators: Vec<std::string::String>,
}

/// Model of a [`Type`]: names are sequences of characters.
pub enum TypeModel {
    String,
    Int,
    Bool,
    Array(Box<TypeModel>),
    Custom(Seq<char>),
}

/// Model of a [`Field`].
pub struct FieldModel {
    pub name: Seq<char>,
    pub ty: TypeModel,
}

/// Model of a [`Struct`].
pub struct StructModel {
    pub name: Seq<char>,
    pub fields: Seq<FieldModel>,
    pub decorators: Seq<Seq<char>>,
}

/// The model of a type, by recursion on its structure.
pub open spec fn type_model(ty: Type) -> TypeModel
    decreases ty,
{
    match ty {
        Type::String => TypeModel::String,
        Type::Int => TypeModel::Int,
        Type::Bool => TypeModel::Bool,
        Type::Array(inner) => TypeModel::Array(Box::new(type_model(*inner))),
        Type::Custom(name) => TypeModel::Custom(name@),
    }
}

impl Clone for Type {
    fn clone(&self) -> (copy: Type)
        ensures
            copy == *self,
        decreases self,
    {
        match self {
            Type::String => Type::String,
            Type::Int => Type::Int,
            Type::Bool => Type::Bool,
            Type::Array(inner) => Type::Array(Box::new((&**inner).clone())),
            Type::Custom(name) => Type::Custom(name.clone()),
        }
    }
}

impl View for Type {
    type V = TypeModel;

    open spec fn view(&self) -> TypeModel {
        type_model(*self)
    }
}

impl View for Field {
    type V = FieldModel;

    open spec fn view(&self) -> FieldModel {
        FieldModel { name: self.name@, ty: self.ty@ }
    }
}

impl View for Struct {
    type V = StructModel;

    open spec fn view(&self) -> StructModel {
        StructModel {
            name: self.name@,
            fields: fields_model(self.fields@),
            decorators: names_model(self.decorators@),
        }
    }
}

/// The models of a sequence of fields, in order.
pub open spec fn fields_model(fields: Seq<Field>) -> Seq<FieldModel> {
    fields.map_values(|f: Field| f@)
}

/// The character sequences of a sequence of strings, in order.
pub open spec fn names_model(names: Seq<std::string::String>) -> Seq<Seq<char>> {
    names.map_values(|s: std::string::String| s@)
}

/// The models of a sequence of records, in order: the model of a document.
pub open spec fn document_model(structs: Seq<Struct>) -> Seq<StructModel> {
    structs.map_values(|s: Struct| s@)
}

} // verus!
