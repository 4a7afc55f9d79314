//! The checks made when a module's declarations are completed, before any body is
//! checked: value fields that would make a struct infinitely large, enum member
//! values, what a class extends, and the entry point's signature. Type annotations
//! are already resolved to types.

use vstd::prelude::*;

use crate::expressions::{const_int, const_value, message1, negation_ok, with_type, Expr};
use crate::symbols::FunctionSig;
use crate::text::strs_view;
use crate::types::{Type, TypeV};
use crate::typing::{main_messages, main_signature_messages};

verus! {

/// One member of an enum: its `= value` expression, if any, and whether it has
/// fields.
pub struct EnumMember {
    pub value: Option<Expr>,
    pub has_fields: bool,
}

/// A module declaration, as the completion pass reads it.
pub enum Item {
    /// A struct: its id and the types of its fields.
    Struct { id: u32, fields: Vec<Type> },
    /// An enum and its members.
    Enum { members: Vec<EnumMember> },
    /// A class and the type that its `extends` names, if any.
    Class { extends: Option<Type> },
    /// A function and its signature.
    Function(FunctionSig),
    /// A variable or an import: nothing to complete that can fail.
    Other,
}

/// `struct 不能包含自身的值类型字段（会造成无限大小）`.
pub const SELF_FIELD_MESSAGE: &'static str = "struct 不能包含自身的值类型字段（会造成无限大小）";

/// `枚举成员的值必须是整数常量`.
pub const ENUM_VALUE_MESSAGE: &'static str = "枚举成员的值必须是整数常量";

/// `枚举变体不能同时有判别值 `=` 和字段`.
pub const ENUM_BOTH_MESSAGE: &'static str = "枚举变体不能同时有判别值 `=` 和字段";

/// The discriminants of enum members: a member's value when it has a constant one,
/// else one more than the previous member's (the first: 0).
pub open spec fn discriminants(members: Seq<EnumMember>) -> Seq<int>
    decreases members.len(),
{
    if members.len() == 0 {
        Seq::empty()
    } else {
        let before = discriminants(members.drop_last());
        let next = if before.len() == 0 {
            0
        } else {
            before.last() + 1
        };
        before.push(
            match members.last().value {
                Some(e) => match const_value(e) {
                    Some(v) => v,
                    None => next,
                },
                None => next,
            },
        )
    }
}

/// The errors of an enum's members, in member order: a value that is no integer
/// constant, and a value together with fields.
pub open spec fn enum_errors(members: Seq<EnumMember>) -> Seq<Seq<char>>
    decreases members.len(),
{
    if members.len() == 0 {
        Seq::empty()
    } else {
        let m = members.last();
        enum_errors(members.drop_last()) + (match m.value {
            Some(e) => if const_value(e) is None {
                seq![ENUM_VALUE_MESSAGE@]
            } else {
                Seq::empty()
            },
            None => Seq::empty(),
        }) + (if m.value is Some && m.has_fields {
            seq![ENUM_BOTH_MESSAGE@]
        } else {
            Seq::empty()
        })
    }
}

/// The errors a declaration gets when it is completed.
pub open spec fn item_errors(item: Item) -> Seq<Seq<char>> {
    match item {
        Item::Struct { id, fields } => if exists|i: int| 0 <= i < fields@.len() && fields@[i]@ == TypeV::Struct(id) {
            seq![SELF_FIELD_MESSAGE@]
        } else {
            Seq::empty()
        },
        Item::Enum { members } => enum_errors(members@),
        Item::Class { extends } => match extends {
            Some(t) => if t@ is Class {
                Seq::empty()
            } else {
                seq![with_type("`extends` 只能继承 class，实际为 "@, t@, ""@)]
            },
            None => Seq::empty(),
        },
        Item::Function(sig) => main_messages(sig),
        Item::Other => Seq::empty(),
    }
}

/// The errors of a module's declarations, in declaration order.
pub open spec fn module_errors(items: Seq<Item>) -> Seq<Seq<char>>
    decreases items.len(),
{
    if items.len() == 0 {
        Seq::empty()
    } else {
        module_errors(items.drop_last()) + item_errors(items.last())
    }
}

/// The discriminants of the module's enums, in declaration order.
pub open spec fn module_enums(items: Seq<Item>) -> Seq<Seq<int>>
    decreases items.len(),
{
    if items.len() == 0 {
        Seq::empty()
    } else {
        let before = module_enums(items.drop_last());
        match items.last() {
            Item::Enum { members } => before.push(discriminants(members@)),
            _ => before,
        }
    }
}

/// Every member value can be computed, and every discriminant leaves room for the
/// next one (the one after the last is computed too).
pub open spec fn enum_ok(members: Seq<EnumMember>) -> bool {
    &&& forall|i: int| 0 <= i < members.len() ==> match #[trigger] members[i].value {
        Some(e) => negation_ok(e),
        None => true,
    }
    &&& forall|i: int| 0 <= i < members.len() ==> #[trigger] discriminants(members)[i] < i64::MAX
}

/// The enums of a module can be completed (see `enum_ok`).
pub open spec fn items_ok(items: Seq<Item>) -> bool {
    forall|i: int|
        0 <= i < items.len() ==> match #[trigger] items[i] {
            Item::Enum { members } => enum_ok(members@),
            _ => true,
        }
}

proof fn lemma_discriminants_len(members: Seq<EnumMember>)
    ensures
        discriminants(members).len() == members.len(),
    decreases members.len(),
{
    if members.len() > 0 {
        lemma_discriminants_len(members.drop_last());
    }
}

proof fn lemma_discriminants_prefix(members: Seq<EnumMember>, k: int)
    requires
        0 <= k <= members.len(),
    ensures
        discriminants(members.take(k)) == discriminants(members).take(k),
    decreases members.len() - k,
{
    lemma_discriminants_len(members);
    lemma_discriminants_len(members.take(k));
    if k < members.len() {
        lemma_discriminants_prefix(members, k + 1);
        assert(members.take(k + 1).drop_last() =~= members.take(k));
        assert(discriminants(members).take(k + 1).drop_last() =~= discriminants(members).take(k));
    } else {
        assert(members.take(k) =~= members);
        assert(discriminants(members).take(k) =~= discriminants(members));
    }
}

fn push_text(out: &mut Vec<String>, s: &str)
    ensures
        strs_view(final(out)@) == strs_view(old(out)@).push(s@),
{
    out.push(String::from_str(s));
    assert(strs_view(out@) =~= strs_view(old(out)@).push(s@));
}

fn append_texts(out: &mut Vec<String>, ms: Vec<String>)
    ensures
        strs_view(final(out)@) == strs_view(old(out)@) + strs_view(ms@),
{
    let ghost head = strs_view(out@);
    let mut i: usize = 0;
    while i < ms.len()
        invariant
            i <= ms@.len(),
            strs_view(out@) == head + strs_view(ms@).take(i as int),
        decreases ms@.len() - i,
    {
        push_text(out, ms[i].as_str());
        i += 1;
        assert(strs_view(out@) =~= head + strs_view(ms@).take(i as int));
    }
    assert(strs_view(ms@).take(i as int) =~= strs_view(ms@));
}

/// Completes an enum: its discriminants, with its errors appended to `out`.
fn complete_enum(members: &Vec<EnumMember>, out: &mut Vec<String>) -> (r: Vec<i64>)
    requires
        enum_ok(members@),
    ensures
        r@.len() == members@.len(),
        forall|i: int| 0 <= i < r@.len() ==> r@[i] as int == #[trigger] discriminants(members@)[i],
        strs_view(final(out)@) == strs_view(old(out)@) + enum_errors(members@),
{
    let ghost o0 = strs_view(out@);
    let mut values: Vec<i64> = Vec::new();
    let mut next: i64 = 0;
    let mut i: usize = 0;
    proof {
        lemma_discriminants_len(members@);
        assert(o0 + enum_errors(members@.take(0)) =~= o0);
    }
    while i < members.len()
        invariant
            i <= members@.len(),
            enum_ok(members@),
            discriminants(members@).len() == members@.len(),
            values@.len() == i,
            forall|j: int| 0 <= j < i ==> values@[j] as int == #[trigger] discriminants(members@)[j],
            next as int == (if i == 0 {
                0
            } else {
                discriminants(members@)[i - 1] + 1
            }),
            strs_view(out@) == o0 + enum_errors(members@.take(i as int)),
        decreases members@.len() - i,
    {
        proof {
            lemma_discriminants_prefix(members@, i + 1);
            lemma_discriminants_prefix(members@, i as int);
            lemma_discriminants_len(members@.take(i as int));
            assert(members@.take(i + 1).drop_last() =~= members@.take(i as int));
            assert(members@.take(i + 1).last() == members@[i as int]);
            assert(discriminants(members@.take(i + 1)).last() == discriminants(members@)[i as int]);
            if i > 0 {
                assert(discriminants(members@.take(i as int)).last() == discriminants(members@)[i - 1]);
            }
        }
        let m = &members[i];
        let ghost o1 = strs_view(out@);
        let value = match &m.value {
            Some(e) => {
                proof {
                    assert(match members@[i as int].value {
                        Some(e) => negation_ok(e),
                        None => true,
                    });
                }
                match const_int(e) {
                    Some(v) => v,
                    None => {
                        push_text(out, ENUM_VALUE_MESSAGE);
                        next
                    },
                }
            },
            None => next,
        };
        let ghost o2 = strs_view(out@);
        if m.value.is_some() && m.has_fields {
            push_text(out, ENUM_BOTH_MESSAGE);
        }
        proof {
            assert(value as int == discriminants(members@)[i as int]);
            assert(discriminants(members@)[i as int] < i64::MAX);
            assert(strs_view(out@) =~= o0 + enum_errors(members@.take(i + 1)));
        }
        values.push(value);
        next = value + 1;
        i += 1;
    }
    proof {
        assert(members@.take(i as int) =~= members@);
    }
    values
}

fn self_field(id: u32, fields: &Vec<Type>) -> (r: bool)
    ensures
        r == exists|i: int| 0 <= i < fields@.len() && fields@[i]@ == TypeV::Struct(id),
{
    let mut i: usize = 0;
    while i < fields.len()
        invariant
            i <= fields@.len(),
            forall|j: int| 0 <= j < i ==> fields@[j]@ != TypeV::Struct(id),
        decreases fields@.len() - i,
    {
        let hit = match &fields[i] {
            Type::Struct(other) => *other == id,
            _ => false,
        };
        if hit {
            return true;
        }
        i += 1;
    }
    false
}

/// Completes a module's declarations: the errors they get, in order (a struct with a
/// value field of its own type; an enum member whose value is no integer constant, or
/// that has both a value and fields; a class that extends what is no class; a `main`
/// whose parameters are not `()` or `(string[])` or that does not return `int`), and
/// the discriminants of its enums.
pub fn finalize_module(items: &Vec<Item>) -> (r: (Vec<String>, Vec<Vec<i64>>))
    requires
        items_ok(items@),
    ensures
        strs_view(r.0@) == module_errors(items@),
        r.1@.len() == module_enums(items@).len(),
        forall|k: int|
            0 <= k < r.1@.len() ==> (#[trigger] r.1@[k])@.len() == module_enums(items@)[k].len() && forall|j: int|
                0 <= j < r.1@[k]@.len() ==> r.1@[k]@[j] as int == module_enums(items@)[k][j],
{
    let mut out: Vec<String> = Vec::new();
    let mut enums: Vec<Vec<i64>> = Vec::new();
    let mut i: usize = 0;
    assert(strs_view(out@) =~= module_errors(items@.take(0)));
    while i < items.len()
        invariant
            i <= items@.len(),
            items_ok(items@),
            strs_view(out@) == module_errors(items@.take(i as int)),
            enums@.len() == module_enums(items@.take(i as int)).len(),
            forall|k: int|
                0 <= k < enums@.len() ==> (#[trigger] enums@[k])@.len() == module_enums(items@.take(i as int))[k].len()
                    && forall|j: int|
                    0 <= j < enums@[k]@.len() ==> enums@[k]@[j] as int == module_enums(items@.take(i as int))[k][j],
        decreases items@.len() - i,
    {
        proof {
            assert(items@.take(i + 1).drop_last() =~= items@.take(i as int));
            assert(items@.take(i + 1).last() == items@[i as int]);
        }
        let ghost o1 = strs_view(out@);
        match &items[i] {
            Item::Struct { id, fields } => {
                if self_field(*id, fields) {
                    push_text(&mut out, SELF_FIELD_MESSAGE);
                }
            },
            Item::Enum { members } => {
                proof {
                    assert(match items@[i as int] {
                        Item::Enum { members } => enum_ok(members@),
                        _ => true,
                    });
                    lemma_discriminants_len(members@);
                }
                let values = complete_enum(members, &mut out);
                enums.push(values);
            },
            Item::Class { extends } => match extends {
                Some(t) => {
                    let is_class = match t {
                        Type::Class(_) => true,
                        _ => false,
                    };
                    if !is_class {
                        let m = message1("`extends` 只能继承 class，实际为 ", t, "");
                        out.push(m);
                        assert(strs_view(out@) =~= o1.push(with_type("`extends` 只能继承 class，实际为 "@, t@, ""@)));
                    }
                },
                None => {},
            },
            Item::Function(sig) => {
                let ms = main_signature_messages(sig);
                append_texts(&mut out, ms);
            },
            Item::Other => {},
        }
        proof {
            assert(strs_view(out@) =~= module_errors(items@.take(i + 1)));
        }
        i += 1;
    }
    proof {
        assert(items@.take(i as int) =~= items@);
    }
    (out, enums)
}

} // verus!
