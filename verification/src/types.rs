//! The semantic type system of Sw.

use vstd::prelude::*;

use crate::text::{decimal, push_decimal, push_str, string_from_chars};

verus! {

/// A semantic type.
#[derive(Debug, PartialEq)]
pub enum Type {
    Void,
    Bool,
    I8,
    I16,
    I32,
    I64,
    Isize,
    U8,
    U16,
    U32,
    U64,
    Usize,
    /// `int`: as wide as `isize`, kept apart for clearer messages.
    Int,
    /// `uint`: as wide as `usize`.
    UInt,
    F32,
    F64,
    Char,
    Str,
    /// The type of the `null` literal; assignable to nullable and reference types only.
    Null,
    Array(Box<Type>),
    Nullable(Box<Type>),
    Ptr(Box<Type>),
    Struct(u32),
    Enum(u32),
    Class(u32),
    Interface(u32),
    /// A generic parameter.
    TypeParam(String),
    /// A function or callback type.
    Function { params: Vec<Type>, ret: Box<Type> },
    /// Inference has not finished.
    Unknown,
    /// Placeholder after a type error, to avoid cascading diagnostics.
    Error,
}

/// The mathematical form of a type: generic parameters by their names' text.
#[verifier::ext_equal]
pub enum TypeV {
    Void,
    Bool,
    I8,
    I16,
    I32,
    I64,
    Isize,
    U8,
    U16,
    U32,
    U64,
    Usize,
    Int,
    UInt,
    F32,
    F64,
    Char,
    Str,
    Null,
    Array(Box<TypeV>),
    Nullable(Box<TypeV>),
    Ptr(Box<TypeV>),
    Struct(u32),
    Enum(u32),
    Class(u32),
    Interface(u32),
    TypeParam(Seq<char>),
    Function(Seq<TypeV>, Box<TypeV>),
    Unknown,
    Error,
}

impl Type {
    pub open spec fn view(self) -> TypeV
        decreases self,
    {
        match self {
            Type::Void => TypeV::Void,
            Type::Bool => TypeV::Bool,
            Type::I8 => TypeV::I8,
            Type::I16 => TypeV::I16,
            Type::I32 => TypeV::I32,
            Type::I64 => TypeV::I64,
            Type::Isize => TypeV::Isize,
            Type::U8 => TypeV::U8,
            Type::U16 => TypeV::U16,
            Type::U32 => TypeV::U32,
            Type::U64 => TypeV::U64,
            Type::Usize => TypeV::Usize,
            Type::Int => TypeV::Int,
            Type::UInt => TypeV::UInt,
            Type::F32 => TypeV::F32,
            Type::F64 => TypeV::F64,
            Type::Char => TypeV::Char,
            Type::Str => TypeV::Str,
            Type::Null => TypeV::Null,
            Type::Array(inner) => TypeV::Array(Box::new(inner.view())),
            Type::Nullable(inner) => TypeV::Nullable(Box::new(inner.view())),
            Type::Ptr(inner) => TypeV::Ptr(Box::new(inner.view())),
            Type::Struct(id) => TypeV::Struct(id),
            Type::Enum(id) => TypeV::Enum(id),
            Type::Class(id) => TypeV::Class(id),
            Type::Interface(id) => TypeV::Interface(id),
            Type::TypeParam(name) => TypeV::TypeParam(name@),
            Type::Function { params, ret } => TypeV::Function(Type::view_all(params@), Box::new(ret.view())),
            Type::Unknown => TypeV::Unknown,
            Type::Error => TypeV::Error,
        }
    }

    /// The views of a sequence of types.
    pub open spec fn view_all(types: Seq<Type>) -> Seq<TypeV>
        decreases types,
    {
        if types.len() == 0 {
            Seq::empty()
        } else {
            Type::view_all(types.drop_last()).push(types.last().view())
        }
    }
}

/// The views of a sequence of types have its length, and each is the view of the type
/// at its index.
pub proof fn lemma_view_all(types: Seq<Type>)
    ensures
        Type::view_all(types).len() == types.len(),
        forall|i: int| 0 <= i < types.len() ==> #[trigger] Type::view_all(types)[i] == types[i]@,
    decreases types.len(),
{
    if types.len() > 0 {
        lemma_view_all(types.drop_last());
    }
}

/// Views of sequences grow with them.
pub proof fn lemma_view_all_push(types: Seq<Type>, t: Type)
    ensures
        Type::view_all(types.push(t)) == Type::view_all(types).push(t@),
{
    assert(types.push(t).drop_last() =~= types);
}

/// The text that `Type::display` produces.
pub open spec fn display_text(t: Type) -> Seq<char>
    decreases t,
{
    match t {
        Type::Void => "void"@,
        Type::Bool => "bool"@,
        Type::I8 => "i8"@,
        Type::I16 => "i16"@,
        Type::I32 => "i32"@,
        Type::I64 => "i64"@,
        Type::Isize => "isize"@,
        Type::U8 => "u8"@,
        Type::U16 => "u16"@,
        Type::U32 => "u32"@,
        Type::U64 => "u64"@,
        Type::Usize => "usize"@,
        Type::Int => "int"@,
        Type::UInt => "uint"@,
        Type::F32 => "f32"@,
        Type::F64 => "f64"@,
        Type::Char => "char"@,
        Type::Str => "string"@,
        Type::Null => "null"@,
        Type::Array(inner) => display_text(*inner) + "[]"@,
        Type::Nullable(inner) => display_text(*inner) + "?"@,
        Type::Ptr(inner) => "ptr<"@ + display_text(*inner) + ">"@,
        Type::Struct(id) => "struct#"@ + decimal(id as nat),
        Type::Enum(id) => "enum#"@ + decimal(id as nat),
        Type::Class(id) => "class#"@ + decimal(id as nat),
        Type::Interface(id) => "interface#"@ + decimal(id as nat),
        Type::TypeParam(name) => name@,
        Type::Function { .. } => "function"@,
        Type::Unknown => "未知类型"@,
        Type::Error => "错误类型"@,
    }
}


/// The name of a type, from its view: the same as `display_text` of every type with
/// that view (`lemma_display_v`).
pub open spec fn display_v(t: TypeV) -> Seq<char>
    decreases t,
{
    match t {
        TypeV::Void => "void"@,
        TypeV::Bool => "bool"@,
        TypeV::I8 => "i8"@,
        TypeV::I16 => "i16"@,
        TypeV::I32 => "i32"@,
        TypeV::I64 => "i64"@,
        TypeV::Isize => "isize"@,
        TypeV::U8 => "u8"@,
        TypeV::U16 => "u16"@,
        TypeV::U32 => "u32"@,
        TypeV::U64 => "u64"@,
        TypeV::Usize => "usize"@,
        TypeV::Int => "int"@,
        TypeV::UInt => "uint"@,
        TypeV::F32 => "f32"@,
        TypeV::F64 => "f64"@,
        TypeV::Char => "char"@,
        TypeV::Str => "string"@,
        TypeV::Null => "null"@,
        TypeV::Array(inner) => display_v(*inner) + "[]"@,
        TypeV::Nullable(inner) => display_v(*inner) + "?"@,
        TypeV::Ptr(inner) => "ptr<"@ + display_v(*inner) + ">"@,
        TypeV::Struct(id) => "struct#"@ + decimal(id as nat),
        TypeV::Enum(id) => "enum#"@ + decimal(id as nat),
        TypeV::Class(id) => "class#"@ + decimal(id as nat),
        TypeV::Interface(id) => "interface#"@ + decimal(id as nat),
        TypeV::TypeParam(name) => name,
        TypeV::Function(_, _) => "function"@,
        TypeV::Unknown => "未知类型"@,
        TypeV::Error => "错误类型"@,
    }
}

/// A type's name depends on its view alone.
pub proof fn lemma_display_v(t: Type)
    ensures
        display_text(t) == display_v(t@),
    decreases t,
{
    match t {
        Type::Array(inner) => lemma_display_v(*inner),
        Type::Nullable(inner) => lemma_display_v(*inner),
        Type::Ptr(inner) => lemma_display_v(*inner),
        _ => {},
    }
}

/// Integer types, `char` included (see `Type::is_integer`).
pub open spec fn is_integer_v(t: TypeV) -> bool {
    t is I8 || t is I16 || t is I32 || t is I64 || t is Isize || t is U8 || t is U16 || t is U32 || t is U64
        || t is Usize || t is Int || t is UInt || t is Char
}

/// Floating-point types.
pub open spec fn is_float_v(t: TypeV) -> bool {
    t is F32 || t is F64
}

/// Integer or floating-point types.
pub open spec fn is_numeric_v(t: TypeV) -> bool {
    is_integer_v(t) || is_float_v(t)
}

/// Removing the nullability of a type and of its view agree.
pub proof fn lemma_base_v(t: Type)
    ensures
        (match t {
            Type::Nullable(inner) => *inner,
            _ => t,
        })@ == base_v(t@),
{
}

/// A type without its nullability.
pub open spec fn base_v(t: TypeV) -> TypeV {
    match t {
        TypeV::Nullable(inner) => *inner,
        _ => t,
    }
}

impl Clone for Type {
    fn clone(&self) -> (r: Self)
        ensures
            r@ == self@,
        decreases self,
    {
        match self {
            Type::Array(inner) => Type::Array(Box::new((**inner).clone())),
            Type::Nullable(inner) => Type::Nullable(Box::new((**inner).clone())),
            Type::Ptr(inner) => Type::Ptr(Box::new((**inner).clone())),
            Type::TypeParam(name) => Type::TypeParam(name.clone()),
            Type::Function { params, ret } => {
                let mut copied: Vec<Type> = Vec::new();
                let mut i: usize = 0;
                while i < params.len()
                    invariant
                        i <= params@.len(),
                        Type::view_all(copied@) == Type::view_all(params@.take(i as int)),
                        *self == (Type::Function { params: *params, ret: *ret }),
                    decreases params@.len() - i,
                {
                    proof {
                        assert(decreases_to!(*self => self->params));
                        vstd::std_specs::vec::axiom_vec_index_decreases(self->params, i as int);
                    }
                    let c = params[i].clone();
                    proof {
                        lemma_view_all_push(copied@, c);
                        lemma_view_all_push(params@.take(i as int), params@[i as int]);
                        assert(params@.take(i + 1) =~= params@.take(i as int).push(params@[i as int]));
                    }
                    copied.push(c);
                    i += 1;
                }
                assert(params@.take(i as int) =~= params@);
                Type::Function { params: copied, ret: Box::new((**ret).clone()) }
            },
            Type::Void => Type::Void,
            Type::Bool => Type::Bool,
            Type::I8 => Type::I8,
            Type::I16 => Type::I16,
            Type::I32 => Type::I32,
            Type::I64 => Type::I64,
            Type::Isize => Type::Isize,
            Type::U8 => Type::U8,
            Type::U16 => Type::U16,
            Type::U32 => Type::U32,
            Type::U64 => Type::U64,
            Type::Usize => Type::Usize,
            Type::Int => Type::Int,
            Type::UInt => Type::UInt,
            Type::F32 => Type::F32,
            Type::F64 => Type::F64,
            Type::Char => Type::Char,
            Type::Str => Type::Str,
            Type::Null => Type::Null,
            Type::Struct(id) => Type::Struct(*id),
            Type::Enum(id) => Type::Enum(*id),
            Type::Class(id) => Type::Class(*id),
            Type::Interface(id) => Type::Interface(*id),
            Type::Unknown => Type::Unknown,
            Type::Error => Type::Error,
        }
    }
}

impl Type {
    /// Appends the display text of this type to `out`.
    pub fn display_into(&self, out: &mut Vec<char>)
        ensures
            final(out)@ == old(out)@ + display_text(*self),
        decreases self,
    {
        match self {
            Type::Void => push_str(out, "void"),
            Type::Bool => push_str(out, "bool"),
            Type::I8 => push_str(out, "i8"),
            Type::I16 => push_str(out, "i16"),
            Type::I32 => push_str(out, "i32"),
            Type::I64 => push_str(out, "i64"),
            Type::Isize => push_str(out, "isize"),
            Type::U8 => push_str(out, "u8"),
            Type::U16 => push_str(out, "u16"),
            Type::U32 => push_str(out, "u32"),
            Type::U64 => push_str(out, "u64"),
            Type::Usize => push_str(out, "usize"),
            Type::Int => push_str(out, "int"),
            Type::UInt => push_str(out, "uint"),
            Type::F32 => push_str(out, "f32"),
            Type::F64 => push_str(out, "f64"),
            Type::Char => push_str(out, "char"),
            Type::Str => push_str(out, "string"),
            Type::Null => push_str(out, "null"),
            Type::Array(inner) => {
                inner.display_into(out);
                push_str(out, "[]");
            },
            Type::Nullable(inner) => {
                inner.display_into(out);
                push_str(out, "?");
            },
            Type::Ptr(inner) => {
                push_str(out, "ptr<");
                inner.display_into(out);
                push_str(out, ">");
            },
            Type::Struct(id) => {
                push_str(out, "struct#");
                push_decimal(out, *id as u64);
            },
            Type::Enum(id) => {
                push_str(out, "enum#");
                push_decimal(out, *id as u64);
            },
            Type::Class(id) => {
                push_str(out, "class#");
                push_decimal(out, *id as u64);
            },
            Type::Interface(id) => {
                push_str(out, "interface#");
                push_decimal(out, *id as u64);
            },
            Type::TypeParam(name) => push_str(out, name.as_str()),
            Type::Function { .. } => push_str(out, "function"),
            Type::Unknown => push_str(out, "未知类型"),
            Type::Error => push_str(out, "错误类型"),
        }
    }

    /// The user-facing name of this type (`int[]`, `string?`, `ptr<u8>`, `class#3`, ...).
    pub fn display(&self) -> (s: String)
        ensures
            s@ == display_text(*self),
    {
        let mut out: Vec<char> = Vec::new();
        self.display_into(&mut out);
        string_from_chars(&out)
    }

    /// Integer types, `char` included.
    #[verifier::allow_in_spec]
    pub fn is_integer(&self) -> bool
        returns
            self is I8 || self is I16 || self is I32 || self is I64 || self is Isize || self is U8
                || self is U16 || self is U32 || self is U64 || self is Usize || self is Int
                || self is UInt || self is Char,
    {
        matches!(
            self,
            Type::I8 | Type::I16 | Type::I32 | Type::I64 | Type::Isize | Type::U8 | Type::U16
                | Type::U32 | Type::U64 | Type::Usize | Type::Int | Type::UInt | Type::Char
        )
    }

    /// Signed integer types.
    #[verifier::allow_in_spec]
    pub fn is_signed_integer(&self) -> bool
        returns
            self is I8 || self is I16 || self is I32 || self is I64 || self is Isize || self is Int,
    {
        matches!(self, Type::I8 | Type::I16 | Type::I32 | Type::I64 | Type::Isize | Type::Int)
    }

    /// Floating-point types.
    #[verifier::allow_in_spec]
    pub fn is_float(&self) -> bool
        returns
            self is F32 || self is F64,
    {
        matches!(self, Type::F32 | Type::F64)
    }

    /// Integer or floating-point types.
    #[verifier::allow_in_spec]
    pub fn is_numeric(&self) -> bool
        returns
            self.is_integer() || self.is_float(),
    {
        self.is_integer() || self.is_float()
    }

    /// Types whose values are references: strings, arrays, classes, pointers and `null`.
    #[verifier::allow_in_spec]
    pub fn is_reference(&self) -> bool
        returns
            self is Str || self is Array || self is Class || self is Ptr || self is Null,
    {
        matches!(self, Type::Str | Type::Array(_) | Type::Class(_) | Type::Ptr(_) | Type::Null)
    }

    /// The base of a nullable type: `T?` gives `T`, every other type gives itself.
    #[verifier::allow_in_spec]
    pub fn without_nullable(&self) -> &Type
        returns
            (match self {
                Type::Nullable(inner) => &**inner,
                _ => self,
            }),
    {
        match self {
            Type::Nullable(inner) => inner,
            other => other,
        }
    }
}

} // verus!
