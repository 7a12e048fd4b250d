use crate::text::same_text;
use vstd::prelude::*;
use vstd::std_specs::cmp::PartialEqSpecImpl;
use vstd::std_specs::convert::FromSpecImpl;
use vstd::string::StringExecFns;

verus! {

/// Mathematical model of a [`Type`]: names are sequences of characters.
pub enum TypeView {
    Unknown,
    Int32,
    User(Seq<char>),
    ListOf(Box<TypeView>, u32),
    Void,
}

/// The types of the language.
#[derive(Debug)]
pub enum Type {
    /// A type that still has to be inferred. Lowering rejects it.
    Unknown,
    /// A signed 32 bit integer, the default numeric type.
    Int32,
    /// A nominal type that has not been resolved.
    User(String),
    /// A homogeneous list of fixed length.
    ListOf(Box<Type>, u32),
    /// The default return type of external functions.
    Void,
}

impl Type {
    /// The model of this type.
    pub open spec fn model(self) -> TypeView
        decreases self,
    {
        match self {
            Type::Unknown => TypeView::Unknown,
            Type::Int32 => TypeView::Int32,
            Type::User(name) => TypeView::User(name@),
            Type::ListOf(element, length) => TypeView::ListOf(Box::new((*element).model()), length),
            Type::Void => TypeView::Void,
        }
    }
}

impl View for Type {
    type V = TypeView;

    open spec fn view(&self) -> TypeView {
        self.model()
    }
}

/// The type that a type name stands for: `i32` is the built-in integer,
/// every other name is a user type of that name.
pub open spec fn type_of_name(name: Seq<char>) -> TypeView {
    if name == "i32"@ {
        TypeView::Int32
    } else {
        TypeView::User(name)
    }
}

impl PartialEq for Type {
    fn eq(&self, other: &Type) -> (same: bool)
        decreases self,
    {
        match self {
            Type::Unknown => matches!(other, Type::Unknown),
            Type::Int32 => matches!(other, Type::Int32),
            Type::Void => matches!(other, Type::Void),
            Type::User(name) => match other {
                Type::User(other_name) => *name == *other_name,
                _ => false,
            },
            Type::ListOf(element, length) => match other {
                Type::ListOf(other_element, other_length) => {
                    let same_element = (**element).eq(&**other_element);
                    same_element && *length == *other_length
                },
                _ => false,
            },
        }
    }
}

impl PartialEqSpecImpl for Type {
    open spec fn obeys_eq_spec() -> bool {
        true
    }

    open spec fn eq_spec(&self, other: &Type) -> bool {
        self@ == other@
    }
}

impl Eq for Type {}

impl Clone for Type {
    fn clone(&self) -> (copy: Type)
        ensures
            copy@ == self@,
        decreases self,
    {
        match self {
            Type::Unknown => Type::Unknown,
            Type::Int32 => Type::Int32,
            Type::User(name) => Type::User(name.clone()),
            Type::ListOf(element, length) => Type::ListOf(Box::new((**element).clone()), *length),
            Type::Void => Type::Void,
        }
    }
}

impl From<&str> for Type {
    fn from(value: &str) -> (t: Type)
        ensures
            t@ == type_of_name(value@),
    {
        if same_text(value, "i32") {
            Type::Int32
        } else {
            Type::User(String::from_str(value))
        }
    }
}

impl FromSpecImpl<&str> for Type {
    open spec fn obeys_from_spec() -> bool {
        false
    }

    open spec fn from_spec(value: &str) -> Type {
        Type::Unknown
    }
}

impl From<String> for Type {
    fn from(value: String) -> (t: Type)
        ensures
            t@ == type_of_name(value@),
    {
        Type::from(value.as_str())
    }
}

impl FromSpecImpl<String> for Type {
    open spec fn obeys_from_spec() -> bool {
        false
    }

    open spec fn from_spec(value: String) -> Type {
        Type::Unknown
    }
}

} // verus!
