//! Symbols and the type table: ids, signatures, and the user-defined types with the
//! base chains of classes.

use vstd::prelude::*;

use crate::text::same_text;
use crate::types::Type;

verus! {

/// A byte range of a source file.
#[derive(Clone, Copy, Debug, PartialEq, Eq, Structural)]
pub struct Span {
    pub start: usize,
    pub end: usize,
}

/// The id of a symbol.
#[derive(Clone, Copy, Debug, PartialEq, Eq, Hash, Structural)]
pub struct SymbolId(pub u32);

/// The id of a module.
#[derive(Clone, Copy, Debug, PartialEq, Eq, Hash, Structural)]
pub struct ModuleId(pub u32);

/// The signature of a function or method.
#[derive(Clone, Debug)]
pub struct FunctionSig {
    pub module: ModuleId,
    pub name: String,
    pub generics: Vec<String>,
    pub params: Vec<ParamSig>,
    pub ret: Type,
    pub extern_c: bool,
    pub span: Span,
}

/// One parameter of a signature.
#[derive(Clone, Debug)]
pub struct ParamSig {
    pub name: String,
    pub ty: Type,
    pub has_default: bool,
    /// A `...rest` parameter (only the last parameter may be one).
    pub rest: bool,
}

/// A field of a struct or class.
#[derive(Clone, Debug)]
pub struct FieldInfo {
    pub name: String,
    pub ty: Type,
    pub mutable: bool,
    pub span: Span,
}

/// A method of a class.
#[derive(Clone, Debug)]
pub struct MethodInfo {
    pub name: String,
    pub sig: FunctionSig,
    pub virtual_: bool,
    pub override_: bool,
    pub span: Span,
}

/// A struct declaration.
#[derive(Clone, Debug)]
pub struct StructInfo {
    pub module: ModuleId,
    pub name: String,
    pub generics: Vec<String>,
    pub fields: Vec<FieldInfo>,
}

/// An enum declaration: member names and their values.
#[derive(Clone, Debug)]
pub struct EnumInfo {
    pub module: ModuleId,
    pub name: String,
    pub members: Vec<(String, i64)>,
}

/// A class declaration.
#[derive(Clone, Debug)]
pub struct ClassInfo {
    pub module: ModuleId,
    pub name: String,
    pub generics: Vec<String>,
    pub base: Option<u32>,
    pub fields: Vec<FieldInfo>,
    pub methods: Vec<MethodInfo>,
    pub final_: bool,
}

/// An interface declaration.
#[derive(Clone, Debug)]
pub struct InterfaceInfo {
    pub module: ModuleId,
    pub name: String,
    pub generics: Vec<String>,
    pub methods: Vec<FunctionSig>,
}

/// The user-defined types of a program.
#[derive(Clone, Debug)]
pub struct TypeTable {
    pub structs: Vec<StructInfo>,
    pub enums: Vec<EnumInfo>,
    pub classes: Vec<ClassInfo>,
    pub interfaces: Vec<InterfaceInfo>,
    /// Class id and the ids of the interfaces it implements.
    pub class_interfaces: Vec<(u32, Vec<u32>)>,
    /// Generic struct id and type arguments, and the id of that instance.
    pub generic_struct_instances: Vec<((u32, Vec<Type>), u32)>,
    /// Generic class id and type arguments, and the id of that instance.
    pub generic_class_instances: Vec<((u32, Vec<Type>), u32)>,
}

/// The class `id` exists and walking its base links ends within `n` steps, every
/// class met existing.
pub open spec fn chain_ends(classes: Seq<ClassInfo>, id: u32, n: nat) -> bool
    decreases n,
{
    id < classes.len() && match classes[id as int].base {
        None => true,
        Some(b) => n > 0 && chain_ends(classes, b, (n - 1) as nat),
    }
}

/// The classes met walking base links from `id`, `id` first, taking at most `n` links.
pub open spec fn chain_within(classes: Seq<ClassInfo>, id: u32, n: nat) -> Seq<u32>
    decreases n,
{
    seq![id] + match classes[id as int].base {
        Some(b) => if n > 0 {
            chain_within(classes, b, (n - 1) as nat)
        } else {
            Seq::empty()
        },
        None => Seq::empty(),
    }
}

/// The base chain of the class `id` is finite and every class on it exists.
pub open spec fn chain_finite(classes: Seq<ClassInfo>, id: u32) -> bool {
    exists|n: nat| chain_ends(classes, id, n)
}

/// The class `id` followed by its base classes, nearest first.
pub open spec fn base_chain(classes: Seq<ClassInfo>, id: u32) -> Seq<u32> {
    chain_within(classes, id, choose|n: nat| chain_ends(classes, id, n))
}

/// A chain that ends within `n` links ends within any larger number of links, and
/// visits the same classes.
pub proof fn lemma_chain_stable(classes: Seq<ClassInfo>, id: u32, n: nat, m: nat)
    requires
        chain_ends(classes, id, n),
        n <= m,
    ensures
        chain_ends(classes, id, m),
        chain_within(classes, id, n) == chain_within(classes, id, m),
    decreases n,
{
    if let Some(b) = classes[id as int].base {
        lemma_chain_stable(classes, b, (n - 1) as nat, (m - 1) as nat);
    }
}

/// Any bound within which the chain ends gives the base chain.
pub proof fn lemma_base_chain(classes: Seq<ClassInfo>, id: u32, n: nat)
    requires
        chain_ends(classes, id, n),
    ensures
        base_chain(classes, id) == chain_within(classes, id, n),
{
    let k = choose|k: nat| chain_ends(classes, id, k);
    if k <= n {
        lemma_chain_stable(classes, id, k, n);
    } else {
        lemma_chain_stable(classes, id, n, k);
    }
}

/// Past the first `j` classes, a chain is the chain of the class it reached.
pub proof fn lemma_chain_suffix(classes: Seq<ClassInfo>, id: u32, n: nat, j: int)
    requires
        chain_ends(classes, id, n),
        0 <= j < chain_within(classes, id, n).len(),
    ensures
        j <= n,
        chain_ends(classes, chain_within(classes, id, n)[j], (n - j) as nat),
        chain_within(classes, id, n).skip(j) == chain_within(classes, chain_within(classes, id, n)[j], (n - j) as nat),
    decreases j,
{
    let w = chain_within(classes, id, n);
    if j == 0 {
        assert(w.skip(0) =~= w);
    } else {
        let b = classes[id as int].base->0;
        let rest = chain_within(classes, b, (n - 1) as nat);
        assert(w =~= seq![id] + rest);
        lemma_chain_suffix(classes, b, (n - 1) as nat, j - 1);
        assert(w.skip(j) =~= rest.skip(j - 1));
    }
}

/// The index of the first field named `name`, searching from index `i`.
pub open spec fn field_position(fields: Seq<FieldInfo>, name: Seq<char>, i: int) -> Option<int>
    decreases fields.len() - i,
{
    if i < 0 || i >= fields.len() {
        None
    } else if fields[i].name@ == name {
        Some(i)
    } else {
        field_position(fields, name, i + 1)
    }
}

/// The index of the first method named `name`, searching from index `i`.
pub open spec fn method_position(methods: Seq<MethodInfo>, name: Seq<char>, i: int) -> Option<int>
    decreases methods.len() - i,
{
    if i < 0 || i >= methods.len() {
        None
    } else if methods[i].name@ == name {
        Some(i)
    } else {
        method_position(methods, name, i + 1)
    }
}

/// The first class of `chain` that has a field named `name`, and that field's index.
pub open spec fn first_field(classes: Seq<ClassInfo>, chain: Seq<u32>, name: Seq<char>) -> Option<(u32, int)>
    decreases chain.len(),
{
    if chain.len() == 0 {
        None
    } else {
        match field_position(classes[chain[0] as int].fields@, name, 0) {
            Some(i) => Some((chain[0], i)),
            None => first_field(classes, chain.drop_first(), name),
        }
    }
}

/// The first class of `chain` that has a method named `name`, and that method's index.
pub open spec fn first_method(classes: Seq<ClassInfo>, chain: Seq<u32>, name: Seq<char>) -> Option<(u32, int)>
    decreases chain.len(),
{
    if chain.len() == 0 {
        None
    } else {
        match method_position(classes[chain[0] as int].methods@, name, 0) {
            Some(i) => Some((chain[0], i)),
            None => first_method(classes, chain.drop_first(), name),
        }
    }
}

pub(crate) proof fn lemma_field_position_found(fields: Seq<FieldInfo>, name: Seq<char>, i: int, k: int)
    requires
        field_position(fields, name, i) == Some(k),
    ensures
        i <= k < fields.len(),
        fields[k].name@ == name,
    decreases fields.len() - i,
{
    if fields[i].name@ != name {
        lemma_field_position_found(fields, name, i + 1, k);
    }
}

proof fn lemma_method_position_found(methods: Seq<MethodInfo>, name: Seq<char>, i: int, k: int)
    requires
        method_position(methods, name, i) == Some(k),
    ensures
        i <= k < methods.len(),
        methods[k].name@ == name,
    decreases methods.len() - i,
{
    if methods[i].name@ != name {
        lemma_method_position_found(methods, name, i + 1, k);
    }
}

pub(crate) fn field_index(fields: &Vec<FieldInfo>, name: &str) -> (r: Option<usize>)
    ensures
        match r {
            Some(i) => field_position(fields@, name@, 0) == Some(i as int),
            None => field_position(fields@, name@, 0) is None,
        },
{
    let mut i: usize = 0;
    while i < fields.len()
        invariant
            i <= fields@.len(),
            field_position(fields@, name@, 0) == field_position(fields@, name@, i as int),
        decreases fields@.len() - i,
    {
        if same_text(fields[i].name.as_str(), name) {
            return Some(i);
        }
        i += 1;
    }
    None
}

fn method_index(methods: &Vec<MethodInfo>, name: &str) -> (r: Option<usize>)
    ensures
        match r {
            Some(i) => method_position(methods@, name@, 0) == Some(i as int),
            None => method_position(methods@, name@, 0) is None,
        },
{
    let mut i: usize = 0;
    while i < methods.len()
        invariant
            i <= methods@.len(),
            method_position(methods@, name@, 0) == method_position(methods@, name@, i as int),
        decreases methods@.len() - i,
    {
        if same_text(methods[i].name.as_str(), name) {
            return Some(i);
        }
        i += 1;
    }
    None
}

impl TypeTable {
    /// The name of struct `id`.
    pub fn struct_name(&self, id: u32) -> (r: &str)
        requires
            id < self.structs@.len(),
        ensures
            r@ == self.structs@[id as int].name@,
    {
        self.structs[id as usize].name.as_str()
    }

    /// The name of enum `id`.
    pub fn enum_name(&self, id: u32) -> (r: &str)
        requires
            id < self.enums@.len(),
        ensures
            r@ == self.enums@[id as int].name@,
    {
        self.enums[id as usize].name.as_str()
    }

    /// The name of class `id`.
    pub fn class_name(&self, id: u32) -> (r: &str)
        requires
            id < self.classes@.len(),
        ensures
            r@ == self.classes@[id as int].name@,
    {
        self.classes[id as usize].name.as_str()
    }

    /// The name of interface `id`.
    pub fn interface_name(&self, id: u32) -> (r: &str)
        requires
            id < self.interfaces@.len(),
        ensures
            r@ == self.interfaces@[id as int].name@,
    {
        self.interfaces[id as usize].name.as_str()
    }

    /// Finds a field in the class or its base classes, nearest first: the class that
    /// declares it and the field's index there.
    pub fn find_class_field(&self, class_id: u32, name: &str) -> (r: Option<(u32, usize)>)
        requires
            chain_finite(self.classes@, class_id),
        ensures
            match r {
                Some((id, i)) => first_field(self.classes@, base_chain(self.classes@, class_id), name@) == Some((id, i as int)),
                None => first_field(self.classes@, base_chain(self.classes@, class_id), name@) is None,
            },
    {
        let ghost c = self.classes@;
        let ghost n0 = choose|n: nat| chain_ends(c, class_id, n);
        let ghost mut k: nat = n0;
        let mut current = Some(class_id);
        while current.is_some()
            invariant
                c == self.classes@,
                current matches Some(id) ==> chain_ends(c, id, k) && first_field(c, base_chain(c, class_id), name@)
                    == first_field(c, chain_within(c, id, k), name@),
                current is None ==> first_field(c, base_chain(c, class_id), name@) is None,
            decreases (if current is Some { k + 1 } else { 0 }),
        {
            let id = match current {
                Some(id) => id,
                None => 0,
            };
            let class = &self.classes[id as usize];
            let ghost w = chain_within(c, id, k);
            assert(w[0] == id);
            match field_index(&class.fields, name) {
                Some(index) => {
                    return Some((id, index));
                },
                None => {},
            }
            current = class.base;
            proof {
                match class.base {
                    Some(b) => {
                        assert(w.drop_first() =~= chain_within(c, b, (k - 1) as nat));
                        k = (k - 1) as nat;
                    },
                    None => {
                        assert(w.drop_first() =~= Seq::<u32>::empty());
                        assert(first_field(c, w.drop_first(), name@) is None);
                        assert(first_method(c, w.drop_first(), name@) is None);
                    },
                }
            }
        }
        None
    }

    /// Finds a method in the class or its base classes, nearest first: the class that
    /// declares it and the method's index there.
    pub fn find_class_method(&self, class_id: u32, name: &str) -> (r: Option<(u32, usize)>)
        requires
            chain_finite(self.classes@, class_id),
        ensures
            match r {
                Some((id, i)) => first_method(self.classes@, base_chain(self.classes@, class_id), name@) == Some((id, i as int)),
                None => first_method(self.classes@, base_chain(self.classes@, class_id), name@) is None,
            },
    {
        let ghost c = self.classes@;
        let ghost n0 = choose|n: nat| chain_ends(c, class_id, n);
        let ghost mut k: nat = n0;
        let mut current = Some(class_id);
        while current.is_some()
            invariant
                c == self.classes@,
                current matches Some(id) ==> chain_ends(c, id, k) && first_method(c, base_chain(c, class_id), name@)
                    == first_method(c, chain_within(c, id, k), name@),
                current is None ==> first_method(c, base_chain(c, class_id), name@) is None,
            decreases (if current is Some { k + 1 } else { 0 }),
        {
            let id = match current {
                Some(id) => id,
                None => 0,
            };
            let class = &self.classes[id as usize];
            let ghost w = chain_within(c, id, k);
            assert(w[0] == id);
            match method_index(&class.methods, name) {
                Some(index) => {
                    return Some((id, index));
                },
                None => {},
            }
            current = class.base;
            proof {
                match class.base {
                    Some(b) => {
                        assert(w.drop_first() =~= chain_within(c, b, (k - 1) as nat));
                        k = (k - 1) as nat;
                    },
                    None => {
                        assert(w.drop_first() =~= Seq::<u32>::empty());
                        assert(first_field(c, w.drop_first(), name@) is None);
                        assert(first_method(c, w.drop_first(), name@) is None);
                    },
                }
            }
        }
        None
    }

    /// The class followed by its base classes, nearest first.
    pub fn class_base_chain(&self, class_id: u32) -> (r: Vec<u32>)
        requires
            chain_finite(self.classes@, class_id),
        ensures
            r@ == base_chain(self.classes@, class_id),
    {
        let ghost c = self.classes@;
        let ghost n0 = choose|n: nat| chain_ends(c, class_id, n);
        let ghost mut k: nat = n0;
        let mut chain: Vec<u32> = Vec::new();
        let mut current = Some(class_id);
        while current.is_some()
            invariant
                c == self.classes@,
                current matches Some(id) ==> chain_ends(c, id, k) && base_chain(c, class_id) == chain@ + chain_within(
                    c,
                    id,
                    k,
                ),
                current is None ==> chain@ == base_chain(c, class_id),
            decreases (if current is Some { k + 1 } else { 0 }),
        {
            let id = match current {
                Some(id) => id,
                None => 0,
            };
            let ghost before = chain@;
            chain.push(id);
            current = self.classes[id as usize].base;
            proof {
                match c[id as int].base {
                    Some(b) => {
                        assert(chain_within(c, id, k) =~= seq![id] + chain_within(c, b, (k - 1) as nat));
                        assert(before + chain_within(c, id, k) =~= chain@ + chain_within(c, b, (k - 1) as nat));
                        k = (k - 1) as nat;
                    },
                    None => {
                        assert(chain_within(c, id, k) =~= seq![id]);
                        assert(before + chain_within(c, id, k) =~= chain@);
                    },
                }
            }
        }
        chain
    }

    /// Whether an instance of class `from` may be used as one of class `to`: `to` is
    /// `from` or one of its base classes.
    pub fn is_class_assignable_to(&self, from: u32, to: u32) -> (r: bool)
        requires
            chain_finite(self.classes@, from),
        ensures
            r == base_chain(self.classes@, from).contains(to),
    {
        let chain = self.class_base_chain(from);
        let mut i: usize = 0;
        while i < chain.len()
            invariant
                i <= chain@.len(),
                chain@ == base_chain(self.classes@, from),
                forall|j: int| 0 <= j < i ==> chain@[j] != to,
            decreases chain@.len() - i,
        {
            if chain[i] == to {
                assert(base_chain(self.classes@, from)[i as int] == to);
                return true;
            }
            i += 1;
        }
        false
    }
}

/// A found field is declared, under that name, by a class on the base chain.
pub proof fn lemma_found_field_on_chain(classes: Seq<ClassInfo>, chain: Seq<u32>, name: Seq<char>)
    requires
        forall|j: int| 0 <= j < chain.len() ==> chain[j] < classes.len(),
        first_field(classes, chain, name) is Some,
    ensures
        ({
            let (id, i) = first_field(classes, chain, name)->0;
            &&& chain.contains(id)
            &&& 0 <= i < classes[id as int].fields@.len()
            &&& classes[id as int].fields@[i].name@ == name
        }),
    decreases chain.len(),
{
    match field_position(classes[chain[0] as int].fields@, name, 0) {
        Some(i) => {
            lemma_field_position_found(classes[chain[0] as int].fields@, name, 0, i);
            assert(chain[0] == chain[0]);
        },
        None => {
            lemma_found_field_on_chain(classes, chain.drop_first(), name);
            let (id, i) = first_field(classes, chain, name)->0;
            let k = choose|k: int| 0 <= k < chain.drop_first().len() && chain.drop_first()[k] == id;
            assert(chain[k + 1] == id);
        },
    }
}

/// The class that declares the field found by `first_field`.
pub open spec fn field_owner(classes: Seq<ClassInfo>, chain: Seq<u32>, name: Seq<char>) -> u32 {
    match first_field(classes, chain, name) {
        Some((id, _)) => id,
        None => 0,
    }
}

/// A found field is the nearest: the class that declares it stands on the chain at an
/// index before which no class declares a field of that name.
pub proof fn lemma_found_field_nearest(classes: Seq<ClassInfo>, chain: Seq<u32>, name: Seq<char>)
    requires
        first_field(classes, chain, name) is Some,
    ensures
        exists|k: int|
            0 <= k < chain.len() && chain[k] == field_owner(classes, chain, name) && forall|j: int|
                0 <= j < k ==> #[trigger] field_position(classes[chain[j] as int].fields@, name, 0) is None,
    decreases chain.len(),
{
    match field_position(classes[chain[0] as int].fields@, name, 0) {
        Some(i) => {
            assert(chain[0] == field_owner(classes, chain, name));
        },
        None => {
            lemma_found_field_nearest(classes, chain.drop_first(), name);
            let k = choose|k: int|
                0 <= k < chain.drop_first().len() && chain.drop_first()[k] == field_owner(classes, chain.drop_first(), name) && forall|j: int|
                    0 <= j < k ==> #[trigger] field_position(
                        classes[chain.drop_first()[j] as int].fields@,
                        name,
                        0,
                    ) is None;
            assert forall|j: int| 0 <= j < k + 1 implies #[trigger] field_position(
                classes[chain[j] as int].fields@,
                name,
                0,
            ) is None by {
                if j > 0 {
                    assert(chain[j] == chain.drop_first()[j - 1]);
                }
            }
            assert(chain[k + 1] == chain.drop_first()[k]);
        },
    }
}

/// `field_position` finds the first field of that name: none before it has the name,
/// and it finds none exactly when no field has the name.
pub proof fn lemma_field_position_first(fields: Seq<FieldInfo>, name: Seq<char>, i: int)
    requires
        0 <= i,
    ensures
        match field_position(fields, name, i) {
            Some(k) => i <= k < fields.len() && fields[k].name@ == name && forall|m: int|
                i <= m < k ==> #[trigger] fields[m].name@ != name,
            None => forall|m: int| i <= m < fields.len() ==> #[trigger] fields[m].name@ != name,
        },
    decreases fields.len() - i,
{
    if i < fields.len() && fields[i].name@ != name {
        lemma_field_position_first(fields, name, i + 1);
    }
}

/// The class declares a field named `name`.
pub open spec fn declares_field(c: ClassInfo, name: Seq<char>) -> bool {
    exists|m: int| 0 <= m < c.fields@.len() && c.fields@[m].name@ == name
}

/// The field lookup along a base chain, as documented: it finds `(c, i)` exactly when
/// `c` is the first class of the chain that declares a field named `name` and `i` is
/// the index of its first field of that name; it finds nothing exactly when no class
/// of the chain declares a field of that name.
pub proof fn lemma_class_field_lookup(classes: Seq<ClassInfo>, chain: Seq<u32>, name: Seq<char>)
    requires
        forall|j: int| 0 <= j < chain.len() ==> chain[j] < classes.len(),
    ensures
        first_field(classes, chain, name) is None <==> forall|j: int|
            0 <= j < chain.len() ==> !declares_field(#[trigger] classes[chain[j] as int], name),
        match first_field(classes, chain, name) {
            Some((c, i)) => exists|k: int|
                #![trigger chain[k]]
                0 <= k < chain.len() && chain[k] == c && (forall|j: int|
                    0 <= j < k ==> !declares_field(#[trigger] classes[chain[j] as int], name)) && 0 <= i
                    < classes[c as int].fields@.len() && classes[c as int].fields@[i].name@ == name && forall|m: int|
                    0 <= m < i ==> #[trigger] classes[c as int].fields@[m].name@ != name,
            None => true,
        },
    decreases chain.len(),
{
    if chain.len() > 0 {
        let fields = classes[chain[0] as int].fields@;
        lemma_field_position_first(fields, name, 0);
        lemma_class_field_lookup(classes, chain.drop_first(), name);
        assert forall|j: int| 1 <= j < chain.len() implies #[trigger] chain.drop_first()[j - 1] == chain[j] by {}
        match field_position(fields, name, 0) {
            Some(i) => {
                assert(declares_field(classes[chain[0] as int], name));
                assert(chain[0] == chain[0]);
            },
            None => {
                assert(!declares_field(classes[chain[0] as int], name));
                if first_field(classes, chain.drop_first(), name) is None {
                    assert forall|j: int| 0 <= j < chain.len() implies !declares_field(
                        #[trigger] classes[chain[j] as int],
                        name,
                    ) by {
                        if j > 0 {
                            assert(chain.drop_first()[j - 1] == chain[j]);
                        }
                    }
                } else {
                    let (c, i) = first_field(classes, chain, name)->0;
                    let k = choose|k: int|
                        #![trigger chain.drop_first()[k]]
                        0 <= k < chain.drop_first().len() && chain.drop_first()[k] == c && (forall|j: int|
                            0 <= j < k ==> !declares_field(#[trigger] classes[chain.drop_first()[j] as int], name))
                            && 0 <= i < classes[c as int].fields@.len() && classes[c as int].fields@[i].name@ == name
                            && forall|m: int| 0 <= m < i ==> #[trigger] classes[c as int].fields@[m].name@ != name;
                    assert(chain[k + 1] == c);
                    assert forall|j: int| 0 <= j < k + 1 implies !declares_field(
                        #[trigger] classes[chain[j] as int],
                        name,
                    ) by {
                        if j > 0 {
                            assert(chain.drop_first()[j - 1] == chain[j]);
                        }
                    }
                    assert(declares_field(classes[c as int], name));
                }
            },
        }
    }
}

/// A class is assignable to itself.
pub proof fn lemma_assignable_reflexive(classes: Seq<ClassInfo>, id: u32)
    requires
        chain_finite(classes, id),
    ensures
        base_chain(classes, id).contains(id),
{
    let n = choose|n: nat| chain_ends(classes, id, n);
    assert(base_chain(classes, id)[0] == id);
}

/// Assignability between classes is transitive: a class derived from `b`, where `b`
/// is derived from `d`, is derived from `d`.
pub proof fn lemma_assignable_transitive(classes: Seq<ClassInfo>, a: u32, b: u32, d: u32)
    requires
        chain_finite(classes, a),
        base_chain(classes, a).contains(b),
        base_chain(classes, b).contains(d),
    ensures
        chain_finite(classes, b),
        base_chain(classes, a).contains(d),
{
    let n = choose|n: nat| chain_ends(classes, a, n);
    let w = chain_within(classes, a, n);
    let j = choose|j: int| 0 <= j < w.len() && w[j] == b;
    lemma_chain_suffix(classes, a, n, j);
    let m = (n - j) as nat;
    lemma_base_chain(classes, b, m);
    let wb = chain_within(classes, b, m);
    let k = choose|k: int| 0 <= k < wb.len() && wb[k] == d;
    assert(w.skip(j)[k] == w[j + k]);
}

} // verus!
