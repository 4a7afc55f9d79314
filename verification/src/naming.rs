//! Why stable symbol names tell overloads apart: the letters of a type are a prefix
//! code, so the letters of a parameter list give the list back.

use vstd::prelude::*;

use crate::lowering::{abbrev, abbrev_seq, abbrevs, lemma_decimal_digits, stable_name};
use crate::symbols::{FunctionSig, ParamSig};
use crate::text::decimal;
use crate::types::TypeV;

verus! {

/// The first letter of a type's letters.
pub open spec fn head(t: TypeV) -> char {
    match t {
        TypeV::Void => 'v',
        TypeV::Bool => 'b',
        TypeV::Char => 'c',
        TypeV::Str => 's',
        TypeV::Int => 'i',
        TypeV::UInt => 'u',
        TypeV::F64 => 'f',
        TypeV::F32 => 'g',
        TypeV::I8 | TypeV::I16 | TypeV::I32 | TypeV::I64 | TypeV::Isize => 'I',
        TypeV::U8 | TypeV::U16 | TypeV::U32 | TypeV::U64 | TypeV::Usize => 'U',
        TypeV::Null => 'z',
        TypeV::Unknown => 'q',
        TypeV::Error => 'x',
        TypeV::Array(_) => 'a',
        TypeV::Nullable(_) => 'n',
        TypeV::Ptr(_) => 'p',
        TypeV::Struct(_) => 'S',
        TypeV::Enum(_) => 'E',
        TypeV::Class(_) => 'C',
        TypeV::Interface(_) => 'N',
        TypeV::TypeParam(_) => 'T',
        TypeV::Function(_, _) => 'F',
    }
}

/// The types of a parameter list.
pub open spec fn param_types(params: Seq<ParamSig>) -> Seq<TypeV> {
    Seq::new(params.len(), |i: int| params[i].ty@)
}

proof fn lemma_head(t: TypeV)
    ensures
        abbrev(t).len() >= 1,
        abbrev(t)[0] == head(t),
        (t is I8 || t is I16 || t is I32 || t is I64 || t is Isize || t is U8 || t is U16 || t is U32 || t is U64
            || t is Usize) ==> abbrev(t).len() == 3,
{
    reveal_strlit("v");
    reveal_strlit("b");
    reveal_strlit("c");
    reveal_strlit("s");
    reveal_strlit("i");
    reveal_strlit("u");
    reveal_strlit("f");
    reveal_strlit("g");
    reveal_strlit("I08");
    reveal_strlit("I16");
    reveal_strlit("I32");
    reveal_strlit("I64");
    reveal_strlit("Isz");
    reveal_strlit("U08");
    reveal_strlit("U16");
    reveal_strlit("U32");
    reveal_strlit("U64");
    reveal_strlit("Usz");
    reveal_strlit("z");
    reveal_strlit("q");
    reveal_strlit("x");
    reveal_strlit("a");
    reveal_strlit("n");
    reveal_strlit("p");
    reveal_strlit("S");
    reveal_strlit("E");
    reveal_strlit("C");
    reveal_strlit("N");
    reveal_strlit("T");
    reveal_strlit("F");
}

/// A numeral followed by `_` is read back whole.
proof fn lemma_numeral_prefix(m: nat, n: nat, x: Seq<char>, y: Seq<char>)
    requires
        decimal(m) + "_"@ + x == decimal(n) + "_"@ + y,
    ensures
        m == n,
        x == y,
{
    reveal_strlit("_");
    lemma_decimal_digits(m);
    lemma_decimal_digits(n);
    let a = decimal(m);
    let b = decimal(n);
    let s = a + "_"@ + x;
    assert(s[a.len() as int] == '_');
    assert(s == b + "_"@ + y);
    assert(s[b.len() as int] == '_');
    if a.len() < b.len() {
        assert(s[a.len() as int] == b[a.len() as int]);
        assert('0' <= b[a.len() as int] <= '9');
    } else if b.len() < a.len() {
        assert(s[b.len() as int] == a[b.len() as int]);
        assert('0' <= a[b.len() as int] <= '9');
    }
    assert(a =~= s.take(a.len() as int));
    assert(b =~= s.take(b.len() as int));
    assert(x =~= s.skip(a.len() + 1int));
    assert(y =~= s.skip(b.len() + 1int));
}

/// The letters of a list of types, read from the front.
proof fn lemma_abbrev_seq_front(ps: Seq<TypeV>)
    requires
        ps.len() > 0,
    ensures
        abbrev_seq(ps) == abbrev(ps[0]) + abbrev_seq(ps.drop_first()),
    decreases ps.len(),
{
    if ps.len() > 1 {
        lemma_abbrev_seq_front(ps.drop_last());
        assert(ps.drop_last().drop_first() =~= ps.drop_first().drop_last());
        assert(ps.drop_last()[0] == ps[0]);
        assert(ps.drop_first().last() == ps.last());
    } else {
        assert(ps.drop_last() =~= Seq::<TypeV>::empty());
        assert(ps.drop_first() =~= Seq::<TypeV>::empty());
    }
}

/// A type whose letters carry nothing after their fixed text.
pub open spec fn plain(t: TypeV) -> bool {
    !(t is Array || t is Nullable || t is Ptr || t is Struct || t is Enum || t is Class || t is Interface
        || t is TypeParam || t is Function)
}

#[verifier::rlimit(80)]
#[verifier::spinoff_prover]
proof fn lemma_plain_prefix(t: TypeV, u: TypeV, x: Seq<char>, y: Seq<char>)
    requires
        abbrev(t) + x == abbrev(u) + y,
        plain(t),
    ensures
        t == u,
        x == y,
{
    reveal_strlit("I08");
    reveal_strlit("I16");
    reveal_strlit("I32");
    reveal_strlit("I64");
    reveal_strlit("Isz");
    reveal_strlit("U08");
    reveal_strlit("U16");
    reveal_strlit("U32");
    reveal_strlit("U64");
    reveal_strlit("Usz");
    lemma_head(t);
    lemma_head(u);
    let s = abbrev(t) + x;
    assert(s[0] == head(t));
    assert(s[0] == head(u));
    assert(plain(u));
    if head(t) == 'I' || head(t) == 'U' {
        assert(s[1] == abbrev(t)[1] && s[1] == abbrev(u)[1]);
        assert(s[2] == abbrev(t)[2] && s[2] == abbrev(u)[2]);
    }
    assert(t == u);
    assert(x =~= s.skip(abbrev(t).len() as int));
    assert(y =~= s.skip(abbrev(u).len() as int));
}

/// The letters of a type are a prefix code: what starts with the letters of `t` and
/// of `u` alike has `t` and `u` equal, and the same rest.
#[verifier::rlimit(40)]
pub proof fn lemma_abbrev_prefix(t: TypeV, u: TypeV, x: Seq<char>, y: Seq<char>)
    requires
        abbrev(t) + x == abbrev(u) + y,
    ensures
        t == u,
        x == y,
    decreases t,
{
    if plain(t) {
        lemma_plain_prefix(t, u, x, y);
        return;
    }
    if plain(u) {
        lemma_plain_prefix(u, t, y, x);
        return;
    }
    reveal_strlit("a");
    reveal_strlit("n");
    reveal_strlit("p");
    reveal_strlit("S");
    reveal_strlit("E");
    reveal_strlit("C");
    reveal_strlit("N");
    reveal_strlit("T");
    reveal_strlit("F");
    reveal_strlit("_");
    lemma_head(t);
    lemma_head(u);
    let s = abbrev(t) + x;
    assert(s[0] == head(t));
    assert(s[0] == head(u));
    match t {
        TypeV::Array(a) => {
            let b = u->Array_0;
            assert(abbrev(*a) + x =~= s.drop_first());
            assert(abbrev(*b) + y =~= s.drop_first());
            lemma_abbrev_prefix(*a, *b, x, y);
        },
        TypeV::Nullable(a) => {
            let b = u->Nullable_0;
            assert(abbrev(*a) + x =~= s.drop_first());
            assert(abbrev(*b) + y =~= s.drop_first());
            lemma_abbrev_prefix(*a, *b, x, y);
        },
        TypeV::Ptr(a) => {
            let b = u->Ptr_0;
            assert(abbrev(*a) + x =~= s.drop_first());
            assert(abbrev(*b) + y =~= s.drop_first());
            lemma_abbrev_prefix(*a, *b, x, y);
        },
        TypeV::Struct(i) => {
            let j = u->Struct_0;
            assert(decimal(i as nat) + "_"@ + x =~= s.drop_first());
            assert(decimal(j as nat) + "_"@ + y =~= s.drop_first());
            lemma_numeral_prefix(i as nat, j as nat, x, y);
        },
        TypeV::Enum(i) => {
            let j = u->Enum_0;
            assert(decimal(i as nat) + "_"@ + x =~= s.drop_first());
            assert(decimal(j as nat) + "_"@ + y =~= s.drop_first());
            lemma_numeral_prefix(i as nat, j as nat, x, y);
        },
        TypeV::Class(i) => {
            let j = u->Class_0;
            assert(decimal(i as nat) + "_"@ + x =~= s.drop_first());
            assert(decimal(j as nat) + "_"@ + y =~= s.drop_first());
            lemma_numeral_prefix(i as nat, j as nat, x, y);
        },
        TypeV::Interface(i) => {
            let j = u->Interface_0;
            assert(decimal(i as nat) + "_"@ + x =~= s.drop_first());
            assert(decimal(j as nat) + "_"@ + y =~= s.drop_first());
            lemma_numeral_prefix(i as nat, j as nat, x, y);
        },
        TypeV::TypeParam(na) => {
            let nb = u->TypeParam_0;
            assert(decimal(na.len()) + "_"@ + (na + x) =~= s.drop_first());
            assert(decimal(nb.len()) + "_"@ + (nb + y) =~= s.drop_first());
            lemma_numeral_prefix(na.len(), nb.len(), na + x, nb + y);
            assert(na =~= (na + x).take(na.len() as int));
            assert(nb =~= (nb + y).take(nb.len() as int));
            assert(x =~= (na + x).skip(na.len() as int));
            assert(y =~= (nb + y).skip(nb.len() as int));
        },
        TypeV::Function(ps, ret) => {
            let (qs, ret2) = (u->Function_0, u->Function_1);
            let x2 = abbrev_seq(ps) + abbrev(*ret) + x;
            let y2 = abbrev_seq(qs) + abbrev(*ret2) + y;
            assert(decimal(ps.len()) + "_"@ + x2 =~= s.drop_first());
            assert(decimal(qs.len()) + "_"@ + y2 =~= s.drop_first());
            lemma_numeral_prefix(ps.len(), qs.len(), x2, y2);
            assert(abbrev_seq(ps) + (abbrev(*ret) + x) =~= x2);
            assert(abbrev_seq(qs) + (abbrev(*ret2) + y) =~= y2);
            lemma_abbrev_seq_prefix(ps, qs, abbrev(*ret) + x, abbrev(*ret2) + y);
            lemma_abbrev_prefix(*ret, *ret2, x, y);
        },
        _ => {},
    }
}

/// The letters of two lists of types of one length, followed by anything, give the
/// lists back.
pub proof fn lemma_abbrev_seq_prefix(ps: Seq<TypeV>, qs: Seq<TypeV>, x: Seq<char>, y: Seq<char>)
    requires
        ps.len() == qs.len(),
        abbrev_seq(ps) + x == abbrev_seq(qs) + y,
    ensures
        ps == qs,
        x == y,
    decreases ps,
{
    if ps.len() == 0 {
        assert(ps =~= qs);
        assert(abbrev_seq(ps) + x =~= x);
        assert(abbrev_seq(qs) + y =~= y);
    } else {
        lemma_abbrev_seq_front(ps);
        lemma_abbrev_seq_front(qs);
        let xs = abbrev_seq(ps.drop_first()) + x;
        let ys = abbrev_seq(qs.drop_first()) + y;
        assert(abbrev(ps[0]) + xs =~= abbrev_seq(ps) + x);
        assert(abbrev(qs[0]) + ys =~= abbrev_seq(qs) + y);
        assert(decreases_to!(ps => ps[0]));
        lemma_abbrev_prefix(ps[0], qs[0], xs, ys);
        assert(decreases_to!(ps => ps.drop_first()));
        lemma_abbrev_seq_prefix(ps.drop_first(), qs.drop_first(), x, y);
        assert(ps =~= seq![ps[0]] + ps.drop_first());
        assert(qs =~= seq![qs[0]] + qs.drop_first());
    }
}

/// Lists of types with the same letters are equal.
pub proof fn lemma_abbrev_seq_injective(ps: Seq<TypeV>, qs: Seq<TypeV>)
    requires
        abbrev_seq(ps) == abbrev_seq(qs),
    ensures
        ps == qs,
    decreases ps.len(),
{
    if ps.len() == 0 || qs.len() == 0 {
        if ps.len() > 0 {
            lemma_abbrev_seq_front(ps);
            lemma_head(ps[0]);
        }
        if qs.len() > 0 {
            lemma_abbrev_seq_front(qs);
            lemma_head(qs[0]);
        }
        assert(ps =~= qs);
    } else {
        lemma_abbrev_seq_front(ps);
        lemma_abbrev_seq_front(qs);
        lemma_abbrev_prefix(ps[0], qs[0], abbrev_seq(ps.drop_first()), abbrev_seq(qs.drop_first()));
        lemma_abbrev_seq_injective(ps.drop_first(), qs.drop_first());
        assert(ps =~= seq![ps[0]] + ps.drop_first());
        assert(qs =~= seq![qs[0]] + qs.drop_first());
    }
}

proof fn lemma_abbrevs(params: Seq<ParamSig>)
    ensures
        abbrevs(params) == abbrev_seq(param_types(params)),
    decreases params.len(),
{
    if params.len() > 0 {
        lemma_abbrevs(params.drop_last());
        assert(param_types(params).drop_last() =~= param_types(params.drop_last()));
    } else {
        assert(param_types(params) =~= Seq::<TypeV>::empty());
    }
}

/// Overloads get different symbols: two functions of one module with the same name
/// (not `main`) whose parameter types differ have different stable names.
pub proof fn lemma_stable_names_tell_overloads_apart(a: FunctionSig, b: FunctionSig, stem: Seq<char>)
    requires
        a.name@ == b.name@,
        a.name@ != "main"@,
        param_types(a.params@) != param_types(b.params@),
    ensures
        stable_name(a, stem) != stable_name(b, stem),
{
    lemma_abbrevs(a.params@);
    lemma_abbrevs(b.params@);
    let pa = abbrevs(a.params@);
    let pb = abbrevs(b.params@);
    let prefix = "sw_fn_"@ + stem + "_"@ + a.name@;
    if stable_name(a, stem) == stable_name(b, stem) {
        let ta = if pa.len() == 0 {
            Seq::<char>::empty()
        } else {
            "_"@ + pa
        };
        let tb = if pb.len() == 0 {
            Seq::<char>::empty()
        } else {
            "_"@ + pb
        };
        assert(stable_name(a, stem) == prefix + ta);
        assert(stable_name(b, stem) == prefix + tb);
        assert(ta =~= (prefix + ta).skip(prefix.len() as int));
        assert(tb =~= (prefix + tb).skip(prefix.len() as int));
        reveal_strlit("_");
        assert(ta == tb);
        if pa.len() > 0 && pb.len() > 0 {
            assert(pa =~= ta.drop_first());
            assert(pb =~= tb.drop_first());
        } else {
            assert(pa.len() == 0 && pb.len() == 0);
            assert(pa =~= pb);
        }
        assert(pa == pb);
        lemma_abbrev_seq_injective(param_types(a.params@), param_types(b.params@));
    }
}

} // verus!
