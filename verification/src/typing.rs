//! The type rules of the semantic analysis: equality of types, substitution and
//! inference of generic parameters, and assignability.

use vstd::prelude::*;

use crate::symbols::{
    base_chain, chain_finite, FieldInfo, FunctionSig, ModuleId, ParamSig, Span, StructInfo, SymbolId, TypeTable,
};
use crate::text::{push_str, same_text, string_from_chars, strs_view};
use crate::types::{display_text, lemma_view_all, lemma_view_all_push, Type, TypeV};

verus! {

/// Whether two types are equal (generic parameters compared by name).
pub fn same_type(a: &Type, b: &Type) -> (r: bool)
    ensures
        r == (a@ == b@),
    decreases a,
{
    match (a, b) {
        (Type::Array(x), Type::Array(y)) => same_type(x, y),
        (Type::Nullable(x), Type::Nullable(y)) => same_type(x, y),
        (Type::Ptr(x), Type::Ptr(y)) => same_type(x, y),
        (Type::TypeParam(x), Type::TypeParam(y)) => same_text(x.as_str(), y.as_str()),
        (Type::Function { params: p, ret: r }, Type::Function { params: q, ret: s }) => {
            proof {
                lemma_view_all(p@);
                lemma_view_all(q@);
            }
            if p.len() != q.len() {
                return false;
            }
            let mut i: usize = 0;
            while i < p.len()
                invariant
                    i <= p@.len(),
                    p@.len() == q@.len(),
                    *a == (Type::Function { params: *p, ret: *r }),
                    *b == (Type::Function { params: *q, ret: *s }),
                    Type::view_all(p@).len() == p@.len(),
                    Type::view_all(q@).len() == q@.len(),
                    forall|j: int| 0 <= j < p@.len() ==> #[trigger] Type::view_all(p@)[j] == p@[j]@,
                    forall|j: int| 0 <= j < q@.len() ==> #[trigger] Type::view_all(q@)[j] == q@[j]@,
                    forall|j: int| 0 <= j < i ==> p@[j]@ == q@[j]@,
                decreases p@.len() - i,
            {
                proof {
                    assert(decreases_to!(*a => a->params));
                    vstd::std_specs::vec::axiom_vec_index_decreases(a->params, i as int);
                }
                if !same_type(&p[i], &q[i]) {
                    assert(Type::view_all(p@)[i as int] != Type::view_all(q@)[i as int]);
                    assert(a@ == TypeV::Function(Type::view_all(p@), Box::new(r@)));
                    assert(b@ == TypeV::Function(Type::view_all(q@), Box::new(s@)));
                    return false;
                }
                i += 1;
            }
            assert(Type::view_all(p@) =~= Type::view_all(q@));
            same_type(r, s)
        },
        (Type::Array(_), _) | (Type::Nullable(_), _) | (Type::Ptr(_), _) | (Type::TypeParam(_), _)
        | (Type::Function { .. }, _) => false,
        (_, Type::Array(_)) | (_, Type::Nullable(_)) | (_, Type::Ptr(_)) | (_, Type::TypeParam(_))
        | (_, Type::Function { .. }) => false,
        (Type::Struct(x), Type::Struct(y)) => *x == *y,
        (Type::Enum(x), Type::Enum(y)) => *x == *y,
        (Type::Class(x), Type::Class(y)) => *x == *y,
        (Type::Interface(x), Type::Interface(y)) => *x == *y,
        (Type::Struct(_), _) | (Type::Enum(_), _) | (Type::Class(_), _) | (Type::Interface(_), _) => false,
        (_, Type::Struct(_)) | (_, Type::Enum(_)) | (_, Type::Class(_)) | (_, Type::Interface(_)) => false,
        _ => simple_tag(a) == simple_tag(b),
    }
}

/// A number for each type without parts.
fn simple_tag(t: &Type) -> (r: u8)
    ensures
        r == simple_tag_spec(t@),
{
    match t {
        Type::Void => 0,
        Type::Bool => 1,
        Type::I8 => 2,
        Type::I16 => 3,
        Type::I32 => 4,
        Type::I64 => 5,
        Type::Isize => 6,
        Type::U8 => 7,
        Type::U16 => 8,
        Type::U32 => 9,
        Type::U64 => 10,
        Type::Usize => 11,
        Type::Int => 12,
        Type::UInt => 13,
        Type::F32 => 14,
        Type::F64 => 15,
        Type::Char => 16,
        Type::Str => 17,
        Type::Null => 18,
        Type::Unknown => 19,
        Type::Error => 20,
        _ => 21,
    }
}

/// A number for each type without parts (21 for the others).
pub open spec fn simple_tag_spec(t: TypeV) -> u8 {
    match t {
        TypeV::Void => 0,
        TypeV::Bool => 1,
        TypeV::I8 => 2,
        TypeV::I16 => 3,
        TypeV::I32 => 4,
        TypeV::I64 => 5,
        TypeV::Isize => 6,
        TypeV::U8 => 7,
        TypeV::U16 => 8,
        TypeV::U32 => 9,
        TypeV::U64 => 10,
        TypeV::Usize => 11,
        TypeV::Int => 12,
        TypeV::UInt => 13,
        TypeV::F32 => 14,
        TypeV::F64 => 15,
        TypeV::Char => 16,
        TypeV::Str => 17,
        TypeV::Null => 18,
        TypeV::Unknown => 19,
        TypeV::Error => 20,
        _ => 21,
    }
}

// ---------------------------------------------------------------------------
// Generic arguments.
// ---------------------------------------------------------------------------

/// The generic arguments as names and type views.
pub open spec fn args_view(a: Seq<(String, Type)>) -> Seq<(Seq<char>, TypeV)> {
    Seq::new(a.len(), |i: int| (a[i].0@, a[i].1@))
}

/// The type bound to a generic parameter: the first entry with its name.
pub open spec fn lookup(args: Seq<(Seq<char>, TypeV)>, name: Seq<char>) -> Option<TypeV>
    decreases args.len(),
{
    if args.len() == 0 {
        None
    } else if args[0].0 == name {
        Some(args[0].1)
    } else {
        lookup(args.drop_first(), name)
    }
}

/// `t` with its generic parameters replaced by their bound types (unbound ones stay).
pub open spec fn subst(t: TypeV, args: Seq<(Seq<char>, TypeV)>) -> TypeV
    decreases t,
{
    match t {
        TypeV::TypeParam(n) => match lookup(args, n) {
            Some(u) => u,
            None => t,
        },
        TypeV::Array(x) => TypeV::Array(Box::new(subst(*x, args))),
        TypeV::Nullable(x) => TypeV::Nullable(Box::new(subst(*x, args))),
        TypeV::Ptr(x) => TypeV::Ptr(Box::new(subst(*x, args))),
        TypeV::Function(ps, r) => TypeV::Function(subst_all(ps, args), Box::new(subst(*r, args))),
        _ => t,
    }
}

/// `subst` of each type of a sequence.
pub open spec fn subst_all(ts: Seq<TypeV>, args: Seq<(Seq<char>, TypeV)>) -> Seq<TypeV>
    decreases ts,
{
    if ts.len() == 0 {
        Seq::empty()
    } else {
        subst_all(ts.drop_last(), args).push(subst(ts.last(), args))
    }
}

/// The type bound to a generic parameter, if any.
fn lookup_arg(args: &Vec<(String, Type)>, name: &str) -> (r: Option<Type>)
    ensures
        match r {
            Some(t) => lookup(args_view(args@), name@) == Some(t@),
            None => lookup(args_view(args@), name@) is None,
        },
{
    let ghost a = args_view(args@);
    let mut i: usize = 0;
    assert(a.skip(0) =~= a);
    while i < args.len()
        invariant
            i <= args@.len(),
            a == args_view(args@),
            lookup(a, name@) == lookup(a.skip(i as int), name@),
        decreases args@.len() - i,
    {
        assert(a.skip(i as int)[0] == (args@[i as int].0@, args@[i as int].1@));
        if same_text(args[i].0.as_str(), name) {
            return Some(args[i].1.clone());
        }
        assert(a.skip(i as int).drop_first() =~= a.skip(i + 1));
        i += 1;
    }
    None
}

/// Replaces the generic parameters of a type by their bound types.
pub fn substitute_type(ty: &Type, args: &Vec<(String, Type)>) -> (r: Type)
    ensures
        r@ == subst(ty@, args_view(args@)),
    decreases ty,
{
    match ty {
        Type::TypeParam(name) => match lookup_arg(args, name.as_str()) {
            Some(t) => t,
            None => ty.clone(),
        },
        Type::Array(inner) => Type::Array(Box::new(substitute_type(inner, args))),
        Type::Nullable(inner) => Type::Nullable(Box::new(substitute_type(inner, args))),
        Type::Ptr(inner) => Type::Ptr(Box::new(substitute_type(inner, args))),
        Type::Function { params, ret } => {
            let mut out: Vec<Type> = Vec::new();
            let mut i: usize = 0;
            while i < params.len()
                invariant
                    i <= params@.len(),
                    *ty == (Type::Function { params: *params, ret: *ret }),
                    Type::view_all(out@) == subst_all(Type::view_all(params@.take(i as int)), args_view(args@)),
                decreases params@.len() - i,
            {
                proof {
                    assert(decreases_to!(*ty => ty->params));
                    vstd::std_specs::vec::axiom_vec_index_decreases(ty->params, i as int);
                }
                let t = substitute_type(&params[i], args);
                proof {
                    lemma_view_all_push(out@, t);
                    assert(params@.take(i + 1) =~= params@.take(i as int).push(params@[i as int]));
                    lemma_view_all_push(params@.take(i as int), params@[i as int]);
                    let vs = Type::view_all(params@.take(i + 1));
                    assert(vs.drop_last() =~= Type::view_all(params@.take(i as int)));
                }
                out.push(t);
                i += 1;
            }
            assert(params@.take(i as int) =~= params@);
            Type::Function { params: out, ret: Box::new(substitute_type(ret, args)) }
        },
        _ => ty.clone(),
    }
}

/// The generic parameter that an argument's type binds, and the type it binds it to:
/// a parameter matched against anything, looking through arrays and nullables on
/// both sides.
pub open spec fn binding(param: TypeV, arg: TypeV) -> Option<(Seq<char>, TypeV)>
    decreases param,
{
    match (param, arg) {
        (TypeV::TypeParam(n), a) => Some((n, a)),
        (TypeV::Array(p), TypeV::Array(a)) => binding(*p, *a),
        (TypeV::Nullable(p), TypeV::Nullable(a)) => binding(*p, *a),
        _ => None,
    }
}

/// Finds the parameter that the argument type binds, with its name and the
/// (unviewed) argument type.
fn find_binding<'a>(param: &'a Type, arg: &'a Type) -> (r: Option<(&'a String, &'a Type)>)
    ensures
        match r {
            Some((n, a)) => binding(param@, arg@) == Some((n@, a@)),
            None => binding(param@, arg@) is None,
        },
    decreases param,
{
    match (param, arg) {
        (Type::TypeParam(name), actual) => Some((name, actual)),
        (Type::Array(p), Type::Array(a)) => find_binding(p, a),
        (Type::Nullable(p), Type::Nullable(a)) => find_binding(p, a),
        _ => None,
    }
}

/// Binds the generic parameter that an argument's type reveals, unless it is bound
/// already.
pub fn infer_type_arg(param: &Type, arg: &Type, known: &mut Vec<(String, Type)>)
    ensures
        args_view(final(known)@) == (match binding(param@, arg@) {
            Some((n, a)) => if lookup(args_view(old(known)@), n) is Some {
                args_view(old(known)@)
            } else {
                args_view(old(known)@).push((n, a))
            },
            None => args_view(old(known)@),
        }),
{
    match find_binding(param, arg) {
        Some((name, actual)) => {
            if lookup_arg(known, name.as_str()).is_none() {
                let ghost before = known@;
                let entry = (name.clone(), actual.clone());
                known.push(entry);
                assert(args_view(known@) =~= args_view(before).push((name@, actual@)));
            }
        },
        None => {},
    }
}

/// The binding that an argument's type reveals for a call, unless the parameter is
/// bound already.
pub fn infer_binding(param: &Type, arg: &Type, known: &Vec<(String, Type)>) -> (r: Option<(String, Type)>)
    ensures
        match r {
            Some((n, a)) => binding(param@, arg@) == Some((n@, a@)) && lookup(args_view(known@), n@) is None,
            None => match binding(param@, arg@) {
                Some((n, a)) => lookup(args_view(known@), n) is Some,
                None => true,
            },
        },
{
    match find_binding(param, arg) {
        Some((name, actual)) => {
            if lookup_arg(known, name.as_str()).is_some() {
                None
            } else {
                Some((name.clone(), actual.clone()))
            }
        },
        None => None,
    }
}

// ---------------------------------------------------------------------------
// Assignability.
// ---------------------------------------------------------------------------

/// The interfaces that the table records for a class (the first entry for it).
pub open spec fn interfaces_of(ci: Seq<(u32, Vec<u32>)>, class: u32) -> Option<Seq<u32>>
    decreases ci.len(),
{
    if ci.len() == 0 {
        None
    } else if ci[0].0 == class {
        Some(ci[0].1@)
    } else {
        interfaces_of(ci.drop_first(), class)
    }
}

/// The class, or one of its base classes, is recorded as implementing the interface.
pub open spec fn implements(types: TypeTable, class: u32, iface: u32) -> bool {
    exists|k: int|
        0 <= k < base_chain(types.classes@, class).len() && match interfaces_of(
            types.class_interfaces@,
            #[trigger] base_chain(types.classes@, class)[k],
        ) {
            Some(list) => list.contains(iface),
            None => false,
        }
}

/// Types whose values are references.
pub open spec fn is_reference_v(t: TypeV) -> bool {
    t is Str || t is Array || t is Class || t is Ptr || t is Null
}

/// A value of type `from` may be used where `to` is expected.
pub open spec fn assignable(types: TypeTable, from: TypeV, to: TypeV) -> bool
    decreases to,
{
    if from is Error || from is Unknown || from == to {
        true
    } else {
        match (from, to) {
            (TypeV::Int, TypeV::Isize) | (TypeV::Isize, TypeV::Int) | (TypeV::UInt, TypeV::Usize) | (
                TypeV::Usize,
                TypeV::UInt,
            ) => true,
            (TypeV::Null, TypeV::Nullable(_)) => true,
            (TypeV::Null, t) => is_reference_v(t),
            (TypeV::Class(f), TypeV::Class(t)) => base_chain(types.classes@, f).contains(t),
            (TypeV::Class(f), TypeV::Interface(t)) => implements(types, f, t),
            (TypeV::Array(f), TypeV::Array(t)) => assignable(types, *f, *t),
            (_, TypeV::Nullable(t)) => assignable(types, from, *t),
            _ => false,
        }
    }
}

/// `int` and `isize`, and `uint` and `usize`, are assignable to each other in both
/// directions, in every program.
pub proof fn lemma_word_sizes_interchange(types: TypeTable)
    ensures
        assignable(types, TypeV::Isize, TypeV::Int),
        assignable(types, TypeV::Int, TypeV::Isize),
        assignable(types, TypeV::Usize, TypeV::UInt),
        assignable(types, TypeV::UInt, TypeV::Usize),
{
}

/// Every type is assignable to itself and to the nullable of itself, and `null` to
/// any nullable type.
pub proof fn lemma_assignable_to_self(types: TypeTable, t: TypeV)
    ensures
        assignable(types, t, t),
        assignable(types, t, TypeV::Nullable(Box::new(t))),
        assignable(types, TypeV::Null, TypeV::Nullable(Box::new(t))),
{
    assert(assignable(types, t, t));
}

/// Arrays are assignable exactly when their elements are.
pub proof fn lemma_array_assignable(types: TypeTable, f: TypeV, t: TypeV)
    requires
        f != t,
    ensures
        assignable(types, TypeV::Array(Box::new(f)), TypeV::Array(Box::new(t))) == assignable(types, f, t),
{
}

/// Every class's base chain is finite and stays among the classes.
pub open spec fn classes_ok(types: TypeTable) -> bool {
    forall|id: u32| id < types.classes@.len() ==> #[trigger] chain_finite(types.classes@, id)
}

/// The classes that a type names exist.
pub open spec fn class_ids_ok(t: TypeV, n: nat) -> bool
    decreases t,
{
    match t {
        TypeV::Class(id) => id < n,
        TypeV::Array(x) => class_ids_ok(*x, n),
        TypeV::Nullable(x) => class_ids_ok(*x, n),
        TypeV::Ptr(x) => class_ids_ok(*x, n),
        _ => true,
    }
}

fn interfaces_contain(types: &TypeTable, class: u32, iface: u32) -> (r: bool)
    ensures
        r == (match interfaces_of(types.class_interfaces@, class) {
            Some(list) => list.contains(iface),
            None => false,
        }),
{
    let ci = &types.class_interfaces;
    let mut i: usize = 0;
    assert(ci@.skip(0) =~= ci@);
    while i < ci.len()
        invariant
            i <= ci@.len(),
            ci@ == types.class_interfaces@,
            interfaces_of(ci@, class) == interfaces_of(ci@.skip(i as int), class),
        decreases ci@.len() - i,
    {
        if ci[i].0 == class {
            assert(ci@.skip(i as int)[0] == ci@[i as int]);
            let list = &ci[i].1;
            assert(interfaces_of(ci@, class) == Some(list@));
            let mut j: usize = 0;
            while j < list.len()
                invariant
                    j <= list@.len(),
                    ci@ == types.class_interfaces@,
                    interfaces_of(ci@, class) == Some(list@),
                    forall|m: int| 0 <= m < j ==> list@[m] != iface,
                decreases list@.len() - j,
            {
                if list[j] == iface {
                    assert(list@[j as int] == iface);
                    assert(list@.contains(iface));
                    assert(interfaces_of(types.class_interfaces@, class) == Some(list@));
                    return true;
                }
                j += 1;
            }
            return false;
        }
        assert(ci@.skip(i as int).drop_first() =~= ci@.skip(i + 1));
        i += 1;
    }
    false
}

/// Whether a value of type `from` may be used where `to` is expected: equal types,
/// `int`/`isize` and `uint`/`usize` either way, `null` to nullable and reference
/// types, a class to its base classes and to the interfaces they implement, arrays
/// of assignable elements, and anything to the nullable of a type it is assignable
/// to; an erroneous or unknown type goes anywhere.
pub fn is_assignable(types: &TypeTable, from: &Type, to: &Type) -> (r: bool)
    requires
        classes_ok(*types),
        class_ids_ok(from@, types.classes@.len()),
    ensures
        r == assignable(*types, from@, to@),
    decreases to,
{
    if matches!(from, Type::Error | Type::Unknown) {
        return true;
    }
    if same_type(from, to) {
        return true;
    }
    match (from, to) {
        (Type::Int, Type::Isize) | (Type::Isize, Type::Int) | (Type::UInt, Type::Usize) | (
            Type::Usize,
            Type::UInt,
        ) => true,
        (Type::Null, Type::Nullable(_)) => true,
        (Type::Null, t) => t.is_reference(),
        (Type::Class(f), Type::Class(t)) => {
            assert(chain_finite(types.classes@, *f));
            types.is_class_assignable_to(*f, *t)
        },
        (Type::Class(f), Type::Interface(t)) => {
            assert(chain_finite(types.classes@, *f));
            let chain = types.class_base_chain(*f);
            let mut k: usize = 0;
            while k < chain.len()
                invariant
                    k <= chain@.len(),
                    chain@ == base_chain(types.classes@, *f),
                    from@ == TypeV::Class(*f),
                    to@ == TypeV::Interface(*t),
                    forall|m: int|
                        0 <= m < k ==> !(match interfaces_of(types.class_interfaces@, #[trigger] chain@[m]) {
                            Some(list) => list.contains(*t),
                            None => false,
                        }),
                decreases chain@.len() - k,
            {
                if interfaces_contain(types, chain[k], *t) {
                    assert(base_chain(types.classes@, *f)[k as int] == chain@[k as int]);
                    assert(0 <= k < base_chain(types.classes@, *f).len() && match interfaces_of(
                        types.class_interfaces@,
                        base_chain(types.classes@, *f)[k as int],
                    ) {
                        Some(list) => list.contains(*t),
                        None => false,
                    });
                    return true;
                }
                k += 1;
            }
            false
        },
        (Type::Array(f), Type::Array(t)) => is_assignable(types, f, t),
        (_, Type::Nullable(t)) => is_assignable(types, from, t),
        _ => false,
    }
}


// ---------------------------------------------------------------------------
// Overloads.
// ---------------------------------------------------------------------------

/// The mathematical form of a signature.
pub struct SigV {
    pub module: ModuleId,
    pub name: Seq<char>,
    pub generics: Seq<Seq<char>>,
    pub params: Seq<(Seq<char>, TypeV, bool, bool)>,
    pub ret: TypeV,
    pub extern_c: bool,
    pub span: Span,
}

/// The view of a parameter: name, type, default and rest marks.
pub open spec fn param_view(p: ParamSig) -> (Seq<char>, TypeV, bool, bool) {
    (p.name@, p.ty@, p.has_default, p.rest)
}

/// The view of a signature.
pub open spec fn sig_view(s: FunctionSig) -> SigV {
    SigV {
        module: s.module,
        name: s.name@,
        generics: Seq::new(s.generics@.len(), |i: int| s.generics@[i]@),
        params: Seq::new(s.params@.len(), |i: int| param_view(s.params@[i])),
        ret: s.ret@,
        extern_c: s.extern_c,
        span: s.span,
    }
}

/// A copy of a parameter.
pub fn copy_param(p: &ParamSig) -> (r: ParamSig)
    ensures
        param_view(r) == param_view(*p),
{
    ParamSig { name: p.name.clone(), ty: p.ty.clone(), has_default: p.has_default, rest: p.rest }
}

/// A copy of a signature with another return type.
pub fn sig_with_ret(s: &FunctionSig, ret: Type) -> (r: FunctionSig)
    ensures
        sig_view(r) == (SigV { ret: ret@, ..sig_view(*s) }),
{
    let mut generics: Vec<String> = Vec::new();
    let mut i: usize = 0;
    while i < s.generics.len()
        invariant
            i <= s.generics@.len(),
            generics@.len() == i,
            forall|j: int| 0 <= j < i ==> #[trigger] generics@[j]@ == s.generics@[j]@,
        decreases s.generics@.len() - i,
    {
        generics.push(s.generics[i].clone());
        i += 1;
    }
    let mut params: Vec<ParamSig> = Vec::new();
    let mut k: usize = 0;
    while k < s.params.len()
        invariant
            k <= s.params@.len(),
            params@.len() == k,
            forall|j: int| 0 <= j < k ==> param_view(#[trigger] params@[j]) == param_view(s.params@[j]),
        decreases s.params@.len() - k,
    {
        params.push(copy_param(&s.params[k]));
        k += 1;
    }
    let r = FunctionSig {
        module: s.module,
        name: s.name.clone(),
        generics,
        params,
        ret,
        extern_c: s.extern_c,
        span: s.span,
    };
    assert(sig_view(r).generics =~= sig_view(*s).generics);
    assert(sig_view(r).params =~= sig_view(*s).params);
    r
}

/// The last parameter is a `...rest` one.
pub open spec fn is_variadic(params: Seq<ParamSig>) -> bool {
    params.len() > 0 && params.last().rest
}

/// The parameters before a `...rest` one.
pub open spec fn fixed_count(params: Seq<ParamSig>) -> int {
    if is_variadic(params) {
        params.len() - 1
    } else {
        params.len() as int
    }
}

/// The parameters that every call must fill: no default and not `...rest`.
pub open spec fn required_count(params: Seq<ParamSig>) -> int
    decreases params.len(),
{
    if params.len() == 0 {
        0
    } else {
        required_count(params.drop_last()) + (if !params.last().has_default && !params.last().rest {
            1int
        } else {
            0int
        })
    }
}

/// A call with `n` arguments may call a function with these parameters: enough
/// arguments, not more than the fixed parameters unless variadic, and, where
/// defaults may not be filled in, exactly the fixed parameters.
pub open spec fn arity_ok(params: Seq<ParamSig>, n: int, allow_defaults: bool) -> bool {
    &&& n >= required_count(params)
    &&& (allow_defaults || is_variadic(params) || n == fixed_count(params))
    &&& (is_variadic(params) || n <= fixed_count(params))
}

/// A `...rest` parameter never has to be filled: every call must fill at most the
/// parameters before it (whatever defaults the others have), so a call of a
/// variadic function that fills exactly its fixed parameters has the right number of
/// arguments.
pub proof fn lemma_rest_not_required(params: Seq<ParamSig>, allow_defaults: bool)
    ensures
        required_count(params) <= fixed_count(params),
        is_variadic(params) ==> arity_ok(params, fixed_count(params), allow_defaults),
{
    lemma_required_at_most(params);
    if is_variadic(params) {
        lemma_required_at_most(params.drop_last());
        assert(params.drop_last().len() == params.len() - 1);
    }
}

/// At most one required parameter per parameter, none for a `...rest` one.
proof fn lemma_required_at_most(params: Seq<ParamSig>)
    ensures
        0 <= required_count(params) <= params.len(),
        params.len() > 0 && params.last().rest ==> required_count(params) == required_count(params.drop_last()),
    decreases params.len(),
{
    if params.len() > 0 {
        lemma_required_at_most(params.drop_last());
    }
}

/// The parameter that the argument at `i` fills.
pub open spec fn param_at(params: Seq<ParamSig>, i: int) -> ParamSig {
    if is_variadic(params) && i >= fixed_count(params) {
        params.last()
    } else {
        params[i]
    }
}

/// The state of matching a call's arguments against a signature.
pub struct Matching {
    pub type_args: Seq<(Seq<char>, TypeV)>,
    pub mismatches: nat,
    pub exact: nat,
    pub ok: bool,
}

/// The matching after one more argument: an argument assignable to its parameter's
/// type (with the generic parameters bound so far substituted) counts as exact when
/// the types are equal; otherwise one that binds a new generic parameter binds it;
/// otherwise it is a mismatch, and a second mismatch rules the signature out.
pub open spec fn match_step(types: TypeTable, params: Seq<ParamSig>, arg: TypeV, i: int, st: Matching) -> Matching {
    let param = param_at(params, i);
    let pty = subst(param.ty@, st.type_args);
    if assignable(types, arg, pty) {
        Matching { exact: st.exact + (if arg == pty { 1nat } else { 0nat }), ..st }
    } else {
        match binding(param.ty@, arg) {
            Some((n, a)) => if lookup(st.type_args, n) is None {
                Matching { type_args: st.type_args.push((n, a)), ..st }
            } else {
                Matching { mismatches: st.mismatches + 1, ok: st.mismatches + 1 <= 1, ..st }
            },
            None => Matching { mismatches: st.mismatches + 1, ok: st.mismatches + 1 <= 1, ..st },
        }
    }
}

/// The matching of the arguments from index `i` on.
pub open spec fn match_from(types: TypeTable, params: Seq<ParamSig>, args: Seq<TypeV>, i: int, st: Matching) -> Matching
    decreases args.len() - i,
{
    if i < 0 || i >= args.len() || !st.ok {
        st
    } else {
        match_from(types, params, args, i + 1, match_step(types, params, args[i], i, st))
    }
}

/// How a signature fits a call: mismatches, exact matches and the return type with
/// the bound generic parameters substituted; `None` when it cannot be called so.
pub open spec fn fit(types: TypeTable, sig: FunctionSig, args: Seq<TypeV>, allow_defaults: bool) -> Option<(nat, nat, TypeV)> {
    if !arity_ok(sig.params@, args.len() as int, allow_defaults) {
        None
    } else {
        let m = match_from(
            types,
            sig.params@,
            args,
            0,
            Matching { type_args: Seq::empty(), mismatches: 0, exact: 0, ok: true },
        );
        if !m.ok {
            None
        } else {
            Some((m.mismatches, m.exact, subst(sig.ret@, m.type_args)))
        }
    }
}

/// The best candidate from index `i` on, given the best so far (index, mismatches,
/// exact matches, return type): fewer mismatches win, then more exact matches; the
/// earlier candidate wins a tie.
pub open spec fn best_from(
    types: TypeTable,
    cands: Seq<(SymbolId, FunctionSig)>,
    args: Seq<TypeV>,
    allow_defaults: bool,
    i: int,
    best: Option<(int, nat, nat, TypeV)>,
) -> Option<(int, nat, nat, TypeV)>
    decreases cands.len() - i,
{
    if i < 0 || i >= cands.len() {
        best
    } else {
        let next = match fit(types, cands[i].1, args, allow_defaults) {
            Some((m, e, ret)) => match best {
                Some((_, bm, be, _)) => if m < bm || (m == bm && e > be) {
                    Some((i, m, e, ret))
                } else {
                    best
                },
                None => Some((i, m, e, ret)),
            },
            None => best,
        };
        best_from(types, cands, args, allow_defaults, i + 1, next)
    }
}

/// The overload that a call picks: the best candidate, if it matches without a
/// mismatch; its signature with the generic parameters of the return type bound.
pub open spec fn overload(
    types: TypeTable,
    cands: Seq<(SymbolId, FunctionSig)>,
    args: Seq<TypeV>,
    allow_defaults: bool,
) -> Option<(SymbolId, SigV)> {
    match best_from(types, cands, args, allow_defaults, 0, None) {
        Some((k, m, _, ret)) => if m > 0 {
            None
        } else {
            Some((cands[k].0, SigV { ret: ret, ..sig_view(cands[k].1) }))
        },
        None => None,
    }
}

/// The classes that some argument types name exist.
pub open spec fn args_ok(types: TypeTable, args: Seq<Type>) -> bool {
    forall|i: int| 0 <= i < args.len() ==> class_ids_ok(#[trigger] args[i]@, types.classes@.len())
}

/// How a signature fits a call (see `fit`), with the bound generic parameters.
fn fit_exec(types: &TypeTable, sig: &FunctionSig, args: &Vec<Type>, allow_defaults: bool) -> (r: Option<(usize, usize, Type)>)
    requires
        classes_ok(*types),
        args_ok(*types, args@),
    ensures
        match r {
            Some((m, e, ret)) => fit(*types, *sig, Type::view_all(args@), allow_defaults) == Some((m as nat, e as nat, ret@)),
            None => fit(*types, *sig, Type::view_all(args@), allow_defaults) is None,
        },
{
    let params = &sig.params;
    let ghost ps = params@;
    let ghost av = Type::view_all(args@);
    proof {
        lemma_view_all(args@);
    }
    let n = params.len();
    let variadic = n > 0 && params[n - 1].rest;
    let fixed: usize = if variadic {
        n - 1
    } else {
        n
    };
    let mut required: usize = 0;
    let mut q: usize = 0;
    while q < n
        invariant
            n == ps.len(),
            *params == sig.params,
            ps == params@,
            q <= n,
            required == required_count(ps.take(q as int)),
            required <= q,
        decreases n - q,
    {
        proof {
            assert(ps.take(q + 1).drop_last() =~= ps.take(q as int));
        }
        if !params[q].has_default && !params[q].rest {
            required += 1;
        }
        q += 1;
    }
    assert(ps.take(n as int) =~= ps);
    let count = args.len();
    if count < required {
        return None;
    }
    if !allow_defaults && !variadic && count != fixed {
        return None;
    }
    if !variadic && count > fixed {
        return None;
    }
    let ghost start = Matching { type_args: Seq::empty(), mismatches: 0, exact: 0, ok: true };
    let mut type_args: Vec<(String, Type)> = Vec::new();
    let mut mismatches: usize = 0;
    let mut exact: usize = 0;
    let mut ok = true;
    let mut i: usize = 0;
    assert(args_view(type_args@) =~= Seq::<(Seq<char>, TypeV)>::empty());
    while i < count
        invariant
            count == args@.len(),
            av == Type::view_all(args@),
            av.len() == args@.len(),
            forall|j: int| 0 <= j < args@.len() ==> #[trigger] av[j] == args@[j]@,
            *params == sig.params,
            ps == params@,
            n == ps.len(),
            variadic == is_variadic(ps),
            fixed == fixed_count(ps),
            arity_ok(ps, count as int, allow_defaults),
            classes_ok(*types),
            args_ok(*types, args@),
            i <= count,
            start == (Matching { type_args: Seq::empty(), mismatches: 0, exact: 0, ok: true }),
            ok,
            mismatches <= 1,
            exact <= i,
            match_from(*types, ps, av, 0, start) == match_from(
                *types,
                ps,
                av,
                i as int,
                Matching { type_args: args_view(type_args@), mismatches: mismatches as nat, exact: exact as nat, ok },
            ),
        decreases count - i,
    {
        let ghost st_old = Matching { type_args: args_view(type_args@), mismatches: mismatches as nat, exact: exact as nat, ok };
        let ghost i_old = i as int;
        let param: &ParamSig = if variadic && i >= fixed {
            &params[n - 1]
        } else {
            &params[i]
        };
        assert(*param == param_at(ps, i as int));
        let pty = substitute_type(&param.ty, &type_args);
        let arg = &args[i];
        assert(arg@ == av[i as int]);
        if is_assignable(types, arg, &pty) {
            if same_type(arg, &pty) {
                exact += 1;
            }
        } else {
            match infer_binding(&param.ty, arg, &type_args) {
                Some(entry) => {
                    let ghost before = type_args@;
                    let ghost ev = (entry.0@, entry.1@);
                    type_args.push(entry);
                    assert(args_view(type_args@) =~= args_view(before).push(ev));
                },
                None => {
                    mismatches += 1;
                    if mismatches > 1 {
                        ok = false;
                    }
                },
            }
        }
        i += 1;
        if !ok {
            proof {
                let st = Matching { type_args: args_view(type_args@), mismatches: mismatches as nat, exact: exact as nat, ok };
                assert(st == match_step(*types, ps, av[i_old], i_old, st_old));
                assert(match_from(*types, ps, av, i_old, st_old) == match_from(*types, ps, av, i as int, st));
                assert(match_from(*types, ps, av, i as int, st) == st);
            }
            return None;
        }
    }
    let ret = substitute_type(&sig.ret, &type_args);
    Some((mismatches, exact, ret))
}

/// Picks the overload that a call with argument types `args` calls: among the
/// candidates whose parameters the arguments can fill (defaults filled in only when
/// `allow_defaults`), the one with the fewest mismatched arguments, then the most
/// exactly typed ones, the first on a tie; `None` when there is none or the best one
/// still has a mismatch (no matching overload). Its signature comes back with the
/// generic parameters of its return type bound from the arguments.
pub fn pick_overload(
    types: &TypeTable,
    candidates: &Vec<(SymbolId, FunctionSig)>,
    args: &Vec<Type>,
    allow_defaults: bool,
) -> (r: Option<(SymbolId, FunctionSig)>)
    requires
        classes_ok(*types),
        args_ok(*types, args@),
    ensures
        match r {
            Some((id, sig)) => overload(*types, candidates@, Type::view_all(args@), allow_defaults) == Some((id, sig_view(sig))),
            None => overload(*types, candidates@, Type::view_all(args@), allow_defaults) is None,
        },
{
    let ghost av = Type::view_all(args@);
    let mut best: Option<(usize, usize, usize, Type)> = None;
    let mut i: usize = 0;
    while i < candidates.len()
        invariant
            i <= candidates@.len(),
            av == Type::view_all(args@),
            classes_ok(*types),
            args_ok(*types, args@),
            best_from(*types, candidates@, av, allow_defaults, 0, None) == best_from(
                *types,
                candidates@,
                av,
                allow_defaults,
                i as int,
                match best {
                    Some((k, m, e, ret)) => Some((k as int, m as nat, e as nat, ret@)),
                    None => None,
                },
            ),
            match best {
                Some((k, m, e, ret)) => k < i,
                None => true,
            },
        decreases candidates@.len() - i,
    {
        match fit_exec(types, &candidates[i].1, args, allow_defaults) {
            Some((m, e, ret)) => {
                let better = match &best {
                    Some((_, bm, be, _)) => m < *bm || (m == *bm && e > *be),
                    None => true,
                };
                if better {
                    best = Some((i, m, e, ret));
                }
            },
            None => {},
        }
        i += 1;
    }
    match best {
        Some((k, m, e, ret)) => {
            if m > 0 {
                None
            } else {
                Some((candidates[k].0, sig_with_ret(&candidates[k].1, ret)))
            }
        },
        None => None,
    }
}


// ---------------------------------------------------------------------------
// Generic instances.
// ---------------------------------------------------------------------------

/// Whether two lists of types are equal.
pub fn same_types(a: &Vec<Type>, b: &Vec<Type>) -> (r: bool)
    ensures
        r == (Type::view_all(a@) == Type::view_all(b@)),
{
    proof {
        lemma_view_all(a@);
        lemma_view_all(b@);
    }
    if a.len() != b.len() {
        return false;
    }
    let mut i: usize = 0;
    while i < a.len()
        invariant
            i <= a@.len(),
            a@.len() == b@.len(),
            Type::view_all(a@).len() == a@.len(),
            Type::view_all(b@).len() == b@.len(),
            forall|j: int| 0 <= j < a@.len() ==> #[trigger] Type::view_all(a@)[j] == a@[j]@,
            forall|j: int| 0 <= j < b@.len() ==> #[trigger] Type::view_all(b@)[j] == b@[j]@,
            forall|j: int| 0 <= j < i ==> a@[j]@ == b@[j]@,
        decreases a@.len() - i,
    {
        if !same_type(&a[i], &b[i]) {
            assert(Type::view_all(a@)[i as int] != Type::view_all(b@)[i as int]);
            return false;
        }
        i += 1;
    }
    assert(Type::view_all(a@) =~= Type::view_all(b@));
    true
}

/// The instance recorded for a generic declaration and type arguments: the first
/// entry with that key.
pub open spec fn instance_of(entries: Seq<((u32, Vec<Type>), u32)>, id: u32, args: Seq<TypeV>) -> Option<u32>
    decreases entries.len(),
{
    if entries.len() == 0 {
        None
    } else if entries[0].0.0 == id && Type::view_all(entries[0].0.1@) == args {
        Some(entries[0].1)
    } else {
        instance_of(entries.drop_first(), id, args)
    }
}

fn find_instance(entries: &Vec<((u32, Vec<Type>), u32)>, id: u32, args: &Vec<Type>) -> (r: Option<u32>)
    ensures
        r == instance_of(entries@, id, Type::view_all(args@)),
{
    let mut i: usize = 0;
    assert(entries@.skip(0) =~= entries@);
    while i < entries.len()
        invariant
            i <= entries@.len(),
            instance_of(entries@, id, Type::view_all(args@)) == instance_of(entries@.skip(i as int), id, Type::view_all(args@)),
        decreases entries@.len() - i,
    {
        assert(entries@.skip(i as int)[0] == entries@[i as int]);
        let entry = &entries[i];
        if entry.0.0 == id && same_types(&entry.0.1, args) {
            return Some(entry.1);
        }
        assert(entries@.skip(i as int).drop_first() =~= entries@.skip(i + 1));
        i += 1;
    }
    None
}

/// The generic parameters bound to type arguments, position by position; where a
/// name occurs twice the later position wins.
pub open spec fn bind_params(generics: Seq<String>, args: Seq<TypeV>) -> Seq<(Seq<char>, TypeV)> {
    Seq::new(generics.len(), |i: int| (generics[generics.len() - 1 - i]@, args[generics.len() - 1 - i]))
}

/// The fields of an instance: the template's fields with their types substituted.
pub open spec fn instance_fields_ok(fields: Seq<FieldInfo>, template: Seq<FieldInfo>, bound: Seq<(Seq<char>, TypeV)>) -> bool {
    &&& fields.len() == template.len()
    &&& forall|i: int|
        0 <= i < fields.len() ==> {
            &&& (#[trigger] fields[i]).name@ == template[i].name@
            &&& fields[i].ty@ == subst(template[i].ty@, bound)
            &&& fields[i].mutable == template[i].mutable
            &&& fields[i].span == template[i].span
        }
}

/// The struct type of a generic struct applied to type arguments: the recorded
/// instance, or a new struct with the fields' types substituted, recorded under
/// the struct and the arguments; `Error` when the number of arguments is wrong.
pub fn instantiate_struct(types: &mut TypeTable, struct_id: u32, args: Vec<Type>) -> (r: Type)
    requires
        struct_id < old(types).structs@.len(),
        old(types).structs@.len() < u32::MAX,
    ensures
        final(types).enums == old(types).enums,
        final(types).classes == old(types).classes,
        final(types).interfaces == old(types).interfaces,
        final(types).class_interfaces == old(types).class_interfaces,
        final(types).generic_class_instances == old(types).generic_class_instances,
        ({
            let info = old(types).structs@[struct_id as int];
            let av = Type::view_all(args@);
            if info.generics@.len() != args@.len() {
                &&& r@ == TypeV::Error
                &&& final(types).structs == old(types).structs
                &&& final(types).generic_struct_instances == old(types).generic_struct_instances
            } else {
                match instance_of(old(types).generic_struct_instances@, struct_id, av) {
                    Some(id) => {
                        &&& r@ == TypeV::Struct(id)
                        &&& final(types).structs == old(types).structs
                        &&& final(types).generic_struct_instances == old(types).generic_struct_instances
                    },
                    None => {
                        let id = old(types).structs@.len();
                        let made = final(types).structs@[id as int];
                        let key = final(types).generic_struct_instances@.last();
                        &&& r@ == TypeV::Struct(id as u32)
                        &&& final(types).structs@.len() == id + 1
                        &&& final(types).structs@.take(id as int) == old(types).structs@
                        &&& made.module == info.module
                        &&& made.name@ == info.name@
                        &&& made.generics@.len() == 0
                        &&& instance_fields_ok(made.fields@, info.fields@, bind_params(info.generics@, av))
                        &&& final(types).generic_struct_instances@.len() == old(types).generic_struct_instances@.len() + 1
                        &&& final(types).generic_struct_instances@.drop_last() == old(types).generic_struct_instances@
                        &&& key.0.0 == struct_id
                        &&& Type::view_all(key.0.1@) == av
                        &&& key.1 == id
                    },
                }
            }
        }),
{
    proof {
        lemma_view_all(args@);
    }
    let ghost av = Type::view_all(args@);
    let n_generics = types.structs[struct_id as usize].generics.len();
    if n_generics != args.len() {
        return Type::Error;
    }
    match find_instance(&types.generic_struct_instances, struct_id, &args) {
        Some(id) => {
            return Type::Struct(id);
        },
        None => {},
    }
    let ghost info = types.structs@[struct_id as int];
    let mut bound: Vec<(String, Type)> = Vec::new();
    let mut k: usize = n_generics;
    while k > 0
        invariant
            k <= n_generics,
            n_generics == info.generics@.len(),
            n_generics == args@.len(),
            info == types.structs@[struct_id as int],
            struct_id < types.structs@.len(),
            av == Type::view_all(args@),
            av.len() == args@.len(),
            forall|j: int| 0 <= j < args@.len() ==> #[trigger] av[j] == args@[j]@,
            args_view(bound@) == bind_params(info.generics@, av).take(n_generics - k),
        decreases k,
    {
        k -= 1;
        let ghost before = bound@;
        let name = types.structs[struct_id as usize].generics[k].clone();
        let ty = args[k].clone();
        let ghost entry = (name@, ty@);
        assert(entry == bind_params(info.generics@, av)[n_generics - 1 - k]);
        bound.push((name, ty));
        assert(args_view(bound@) =~= args_view(before).push(entry));
        assert(bind_params(info.generics@, av).take(n_generics - k) =~= bind_params(info.generics@, av).take(
            n_generics - 1 - k,
        ).push(entry));
    }
    assert(bind_params(info.generics@, av).take(n_generics as int) =~= bind_params(info.generics@, av));
    let mut fields: Vec<FieldInfo> = Vec::new();
    let mut i: usize = 0;
    let n_fields = types.structs[struct_id as usize].fields.len();
    while i < n_fields
        invariant
            i <= n_fields,
            info == types.structs@[struct_id as int],
            struct_id < types.structs@.len(),
            n_fields == info.fields@.len(),
            fields@.len() == i,
            args_view(bound@) == bind_params(info.generics@, av),
            forall|j: int|
                0 <= j < i ==> {
                    &&& (#[trigger] fields@[j]).name@ == info.fields@[j].name@
                    &&& fields@[j].ty@ == subst(info.fields@[j].ty@, args_view(bound@))
                    &&& fields@[j].mutable == info.fields@[j].mutable
                    &&& fields@[j].span == info.fields@[j].span
                },
        decreases n_fields - i,
    {
        let template = &types.structs[struct_id as usize].fields[i];
        let field = FieldInfo {
            name: template.name.clone(),
            ty: substitute_type(&template.ty, &bound),
            mutable: template.mutable,
            span: template.span,
        };
        fields.push(field);
        i += 1;
    }
    let id = types.structs.len() as u32;
    let made = StructInfo {
        module: types.structs[struct_id as usize].module,
        name: types.structs[struct_id as usize].name.clone(),
        generics: Vec::new(),
        fields,
    };
    let ghost old_structs = types.structs@;
    types.structs.push(made);
    let ghost old_instances = types.generic_struct_instances@;
    types.generic_struct_instances.push(((struct_id, args), id));
    assert(types.structs@.take(id as int) =~= old_structs);
    assert(types.generic_struct_instances@.drop_last() =~= old_instances);
    Type::Struct(id)
}


// ---------------------------------------------------------------------------
// Laws.
// ---------------------------------------------------------------------------

/// Substituting no bindings leaves a type as it is.
pub proof fn lemma_subst_nothing(t: TypeV)
    ensures
        subst(t, Seq::empty()) == t,
    decreases t,
{
    match t {
        TypeV::Array(x) => lemma_subst_nothing(*x),
        TypeV::Nullable(x) => lemma_subst_nothing(*x),
        TypeV::Ptr(x) => lemma_subst_nothing(*x),
        TypeV::Function(ps, r) => {
            lemma_subst_all_nothing(ps);
            lemma_subst_nothing(*r);
        },
        _ => {},
    }
}

/// Substituting no bindings leaves every type of a sequence as it is.
pub proof fn lemma_subst_all_nothing(ts: Seq<TypeV>)
    ensures
        subst_all(ts, Seq::empty()) == ts,
    decreases ts,
{
    if ts.len() > 0 {
        lemma_subst_all_nothing(ts.drop_last());
        lemma_subst_nothing(ts.last());
        assert(ts.drop_last().push(ts.last()) =~= ts);
    }
}

/// Every type is assignable to itself.
pub proof fn lemma_assignable_reflexive(types: TypeTable, t: TypeV)
    ensures
        assignable(types, t, t),
{
}

/// A type is assignable to its nullable.
pub proof fn lemma_assignable_to_nullable(types: TypeTable, t: TypeV)
    ensures
        assignable(types, t, TypeV::Nullable(Box::new(t))),
{
    if !(t is Error || t is Unknown || t == TypeV::Nullable(Box::new(t))) {
        assert(assignable(types, t, t));
    }
}

/// A class is assignable to every class on its base chain.
pub proof fn lemma_class_to_base(types: TypeTable, from: u32, to: u32)
    requires
        base_chain(types.classes@, from).contains(to),
    ensures
        assignable(types, TypeV::Class(from), TypeV::Class(to)),
{
}

// ---------------------------------------------------------------------------
// Checks on signatures and bodies.
// ---------------------------------------------------------------------------

/// The message when `main` takes other parameters than `string[]`.
pub const MAIN_PARAMS_MESSAGE: &'static str = "main 参数只能为 string[]（或省略）";

/// The message when `main` does not return `int`.
pub const MAIN_RET_MESSAGE: &'static str = "main 返回类型必须为 int";

/// The message when the return type of a function cannot be inferred.
pub const RETURN_INFER_MESSAGE: &'static str = "无法推导函数返回类型：return 表达式类型不一致";

/// The start of the message when a function with a result never returns a value.
pub const MISSING_RETURN_MESSAGE: &'static str = "函数缺少 return，返回类型为 ";

/// `main` takes no parameter, or one `string[]`.
pub open spec fn main_params_ok(params: Seq<ParamSig>) -> bool {
    params.len() == 0 || (params.len() == 1 && (params[0].ty matches Type::Array(inner) && *inner is Str))
}

/// The errors that the signature `sig` gets as the program's entry point, in order:
/// none unless it is `main`; then one when its parameters are not `()` or
/// `(string[])`, and one when it does not return `int`.
pub open spec fn main_messages(sig: FunctionSig) -> Seq<Seq<char>> {
    if sig.name@ != "main"@ {
        Seq::empty()
    } else {
        (if main_params_ok(sig.params@) {
            Seq::empty()
        } else {
            seq![MAIN_PARAMS_MESSAGE@]
        }) + (if sig.ret is Int {
            Seq::empty()
        } else {
            seq![MAIN_RET_MESSAGE@]
        })
    }
}

/// The errors of the entry point's signature (see `main_messages`).
pub fn main_signature_messages(sig: &FunctionSig) -> (r: Vec<String>)
    ensures
        strs_view(r@) == main_messages(*sig),
{
    let mut out: Vec<String> = Vec::new();
    if !same_text(sig.name.as_str(), "main") {
        assert(strs_view(out@) =~= main_messages(*sig));
        return out;
    }
    let params_ok = sig.params.len() == 0 || (sig.params.len() == 1 && match &sig.params[0].ty {
        Type::Array(inner) => match **inner {
            Type::Str => true,
            _ => false,
        },
        _ => false,
    });
    if !params_ok {
        out.push(String::from_str(MAIN_PARAMS_MESSAGE));
    }
    let ret_ok = match sig.ret {
        Type::Int => true,
        _ => false,
    };
    if !ret_ok {
        out.push(String::from_str(MAIN_RET_MESSAGE));
    }
    assert(strs_view(out@) =~= main_messages(*sig));
    out
}

/// The error at the end of a function's body, if any: with a return type still to be
/// inferred (`Unknown`), returning values of differing types; else, for a function
/// with a result (neither `void` nor a class, which constructors return) that is not
/// `extern "C"`, never returning a value.
pub open spec fn return_message(ret: Type, saw_return_value: bool, extern_c: bool) -> Option<Seq<char>> {
    if ret is Unknown {
        if saw_return_value {
            Some(RETURN_INFER_MESSAGE@)
        } else {
            None
        }
    } else if !(ret is Void) && !saw_return_value && !(ret is Class) && !extern_c {
        Some(MISSING_RETURN_MESSAGE@ + display_text(ret))
    } else {
        None
    }
}

/// The error at the end of a function's body (see `return_message`).
pub fn return_check(ret: &Type, saw_return_value: bool, extern_c: bool) -> (r: Option<String>)
    ensures
        match r {
            Some(m) => return_message(*ret, saw_return_value, extern_c) == Some(m@),
            None => return_message(*ret, saw_return_value, extern_c) is None,
        },
{
    match ret {
        Type::Unknown => if saw_return_value {
            Some(String::from_str(RETURN_INFER_MESSAGE))
        } else {
            None
        },
        Type::Void | Type::Class(_) => None,
        _ => if !saw_return_value && !extern_c {
            let mut out: Vec<char> = Vec::new();
            push_str(&mut out, MISSING_RETURN_MESSAGE);
            ret.display_into(&mut out);
            Some(string_from_chars(&out))
        } else {
            None
        },
    }
}

} // verus!
