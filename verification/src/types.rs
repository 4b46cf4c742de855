//! The algebra of types.

use crate::symbol::{Symbol, SymbolTable};
use vstd::prelude::*;

verus! {

/// A type.
#[derive(Debug, PartialEq, Eq)]
pub enum Type {
    Unit,
    Bool,
    Int32,
    Sint32,
    Int64,
    Sint64,
    Float32,
    Float64,
    /// A struct type, with its fields in order.
    Struct(Vec<(Symbol, Type)>),
    /// A function type: the types of the parameters, and the type of the result.
    Func(Vec<Type>, Box<Type>),
    /// A type known by its name.
    Named(Symbol),
    /// A type applied to a type.
    App(Box<Type>, Box<Type>),
    /// A type that inference has yet to find.
    UnificationVar(Symbol),
}

/// A type as specifications see it.
pub enum Ty {
    Unit,
    Bool,
    Int32,
    Sint32,
    Int64,
    Sint64,
    Float32,
    Float64,
    Struct(Seq<(Symbol, Ty)>),
    Func(Seq<Ty>, Box<Ty>),
    Named(Symbol),
    App(Box<Ty>, Box<Ty>),
    UnificationVar(Symbol),
}

/// The model of the type `t`.
pub open spec fn model(t: Type) -> Ty
    decreases t,
{
    match t {
        Type::Unit => Ty::Unit,
        Type::Bool => Ty::Bool,
        Type::Int32 => Ty::Int32,
        Type::Sint32 => Ty::Sint32,
        Type::Int64 => Ty::Int64,
        Type::Sint64 => Ty::Sint64,
        Type::Float32 => Ty::Float32,
        Type::Float64 => Ty::Float64,
        Type::Struct(fields) => Ty::Struct(
            Seq::new(
                fields.len() as nat,
                |k: int|
                    if 0 <= k < fields.len() {
                        (fields[k].0, model(fields[k].1))
                    } else {
                        (0, Ty::Unit)
                    },
            ),
        ),
        Type::Func(params, result) => Ty::Func(
            Seq::new(
                params.len() as nat,
                |k: int|
                    if 0 <= k < params.len() {
                        model(params[k])
                    } else {
                        Ty::Unit
                    },
            ),
            Box::new(model(*result)),
        ),
        Type::Named(name) => Ty::Named(name),
        Type::App(f, x) => Ty::App(Box::new(model(*f)), Box::new(model(*x))),
        Type::UnificationVar(name) => Ty::UnificationVar(name),
    }
}

impl View for Type {
    type V = Ty;

    open spec fn view(&self) -> Ty {
        model(*self)
    }
}

/// The models of the types in `list`, in order.
pub open spec fn models(list: Seq<Type>) -> Seq<Ty> {
    Seq::new(list.len(), |k: int| list[k]@)
}

/// The models of the fields in `list`, in order.
pub open spec fn field_models(list: Seq<(Symbol, Type)>) -> Seq<(Symbol, Ty)> {
    Seq::new(list.len(), |k: int| (list[k].0, list[k].1@))
}

/// The model of a function type lists the models of its parameters.
pub proof fn lemma_model_func(params: Vec<Type>, result: Box<Type>)
    ensures
        Type::Func(params, result)@ == Ty::Func(models(params@), Box::new((*result)@)),
{
    assert(Type::Func(params, result)@->Func_0 =~= models(params@));
}

/// The model of a struct type lists its fields with the models of their types.
pub proof fn lemma_model_struct(fields: Vec<(Symbol, Type)>)
    ensures
        Type::Struct(fields)@ == Ty::Struct(field_models(fields@)),
{
    assert(Type::Struct(fields)@->Struct_0 =~= field_models(fields@));
}

/// Copies the types of `list`.
fn clone_list(list: &Vec<Type>) -> (copy: Vec<Type>)
    ensures
        models(copy@) == models(list@),
    decreases list,
{
    let mut copy: Vec<Type> = Vec::new();
    let mut k: usize = 0;
    while k < list.len()
        invariant
            k <= list@.len(),
            copy@.len() == k,
            forall|j: int| 0 <= j < k ==> copy@[j]@ == list@[j]@,
        decreases list@.len() - k,
    {
        let item: Type = list[k].clone();
        copy.push(item);
        k += 1;
    }
    assert(models(copy@) =~= models(list@));
    copy
}

/// Copies the fields of `list`.
fn clone_fields(list: &Vec<(Symbol, Type)>) -> (copy: Vec<(Symbol, Type)>)
    ensures
        field_models(copy@) == field_models(list@),
    decreases list,
{
    let mut copy: Vec<(Symbol, Type)> = Vec::new();
    let mut k: usize = 0;
    while k < list.len()
        invariant
            k <= list@.len(),
            copy@.len() == k,
            forall|j: int| 0 <= j < k ==> copy@[j].0 == list@[j].0 && copy@[j].1@ == list@[j].1@,
        decreases list@.len() - k,
    {
        let item: Type = list[k].1.clone();
        copy.push((list[k].0, item));
        k += 1;
    }
    assert(field_models(copy@) =~= field_models(list@));
    copy
}

impl Clone for Type {
    /// A copy of the type, with the same model.
    fn clone(&self) -> (copy: Type)
        ensures
            copy@ == self@,
        decreases self,
    {
        match self {
            Type::Unit => Type::Unit,
            Type::Bool => Type::Bool,
            Type::Int32 => Type::Int32,
            Type::Sint32 => Type::Sint32,
            Type::Int64 => Type::Int64,
            Type::Sint64 => Type::Sint64,
            Type::Float32 => Type::Float32,
            Type::Float64 => Type::Float64,
            Type::Struct(fields) => {
                let copy: Vec<(Symbol, Type)> = clone_fields(fields);
                proof {
                    lemma_model_struct(*fields);
                    lemma_model_struct(copy);
                }
                Type::Struct(copy)
            },
            Type::Func(params, result) => {
                let copy: Vec<Type> = clone_list(params);
                let target: Type = (&**result).clone();
                proof {
                    lemma_model_func(*params, *result);
                    lemma_model_func(copy, Box::new(target));
                }
                Type::Func(copy, Box::new(target))
            },
            Type::Named(name) => Type::Named(*name),
            Type::App(f, x) => Type::App(Box::new((&**f).clone()), Box::new((&**x).clone())),
            Type::UnificationVar(name) => Type::UnificationVar(*name),
        }
    }
}

/// Whether `s` is the symbol of a named type or of a unification variable
/// that occurs in `t`.
pub open spec fn occurs(t: Ty, s: Symbol) -> bool
    decreases t, 0nat,
{
    match t {
        Ty::Struct(fields) => occurs_in_fields(fields, fields.len(), s),
        Ty::Func(params, result) => occurs(*result, s) || occurs_in_list(params, params.len(), s),
        Ty::Named(name) => name == s,
        Ty::App(f, x) => occurs(*f, s) || occurs(*x, s),
        Ty::UnificationVar(name) => name == s,
        _ => false,
    }
}

/// Whether `s` occurs in one of the first `n` types of `list`.
pub open spec fn occurs_in_list(list: Seq<Ty>, n: nat, s: Symbol) -> bool
    decreases list, n,
{
    0 < n <= list.len() && (occurs(list[n - 1], s) || occurs_in_list(list, (n - 1) as nat, s))
}

/// Whether `s` occurs in the type of one of the first `n` fields of `fields`.
pub open spec fn occurs_in_fields(fields: Seq<(Symbol, Ty)>, n: nat, s: Symbol) -> bool
    decreases fields, n,
{
    0 < n <= fields.len() && (occurs(fields[n - 1].1, s) || occurs_in_fields(
        fields,
        (n - 1) as nat,
        s,
    ))
}

/// A symbol occurs in a list of types where it occurs in one of them.
pub proof fn lemma_occurs_in_list(list: Seq<Ty>, n: nat, s: Symbol)
    requires
        n <= list.len(),
    ensures
        occurs_in_list(list, n, s) <==> exists|k: int| 0 <= k < n && #[trigger] occurs(list[k], s),
    decreases n,
{
    if n > 0 {
        let m = (n - 1) as nat;
        lemma_occurs_in_list(list, m, s);
        if occurs_in_list(list, n, s) {
            if occurs(list[n - 1], s) {
            } else {
                assert(occurs_in_list(list, m, s));
                let k = choose|k: int| 0 <= k < m && #[trigger] occurs(list[k], s);
                assert(0 <= k < n && occurs(list[k], s));
            }
            assert(exists|k: int| 0 <= k < n && #[trigger] occurs(list[k], s));
        }
        if exists|k: int| 0 <= k < n && #[trigger] occurs(list[k], s) {
            let k = choose|k: int| 0 <= k < n && #[trigger] occurs(list[k], s);
            if k < m {
                assert(0 <= k < m && occurs(list[k], s));
                assert(occurs_in_list(list, m, s));
            } else {
                assert(occurs(list[n - 1], s));
            }
            assert(occurs_in_list(list, n, s));
        }
    } else {
        assert(!occurs_in_list(list, n, s));
    }
}

/// A symbol occurs in a list of fields where it occurs in the type of one of them.
pub proof fn lemma_occurs_in_fields(fields: Seq<(Symbol, Ty)>, n: nat, s: Symbol)
    requires
        n <= fields.len(),
    ensures
        occurs_in_fields(fields, n, s) <==> exists|k: int|
            0 <= k < n && #[trigger] occurs(fields[k].1, s),
    decreases n,
{
    if n > 0 {
        let m = (n - 1) as nat;
        lemma_occurs_in_fields(fields, m, s);
        if occurs_in_fields(fields, n, s) {
            if occurs(fields[n - 1].1, s) {
            } else {
                assert(occurs_in_fields(fields, m, s));
                let k = choose|k: int| 0 <= k < m && #[trigger] occurs(fields[k].1, s);
                assert(0 <= k < n && occurs(fields[k].1, s));
            }
            assert(exists|k: int| 0 <= k < n && #[trigger] occurs(fields[k].1, s));
        }
        if exists|k: int| 0 <= k < n && #[trigger] occurs(fields[k].1, s) {
            let k = choose|k: int| 0 <= k < n && #[trigger] occurs(fields[k].1, s);
            if k < m {
                assert(0 <= k < m && occurs(fields[k].1, s));
                assert(occurs_in_fields(fields, m, s));
            } else {
                assert(occurs(fields[n - 1].1, s));
            }
            assert(occurs_in_fields(fields, n, s));
        }
    } else {
        assert(!occurs_in_fields(fields, n, s));
    }
}

/// The symbols of the named types and of the unification variables that
/// occur in `t`.
pub open spec fn free_symbols(t: Ty) -> Set<Symbol> {
    Set::new(|s: Symbol| occurs(t, s))
}

/// Tells whether the types of `left` and of `right` have the same models.
fn same_list(left: &Vec<Type>, right: &Vec<Type>) -> (same: bool)
    ensures
        same == (models(left@) == models(right@)),
    decreases left,
{
    if left.len() != right.len() {
        assert(models(left@).len() != models(right@).len());
        return false;
    }
    let mut k: usize = 0;
    while k < left.len()
        invariant
            k <= left@.len(),
            left@.len() == right@.len(),
            forall|j: int| 0 <= j < k ==> left@[j]@ == right@[j]@,
        decreases left@.len() - k,
    {
        if !left[k].same(&right[k]) {
            assert(models(left@)[k as int] != models(right@)[k as int]);
            return false;
        }
        k += 1;
    }
    assert(models(left@) =~= models(right@));
    true
}

/// Tells whether the fields of `left` and of `right` have the same models.
fn same_fields(left: &Vec<(Symbol, Type)>, right: &Vec<(Symbol, Type)>) -> (same: bool)
    ensures
        same == (field_models(left@) == field_models(right@)),
    decreases left,
{
    if left.len() != right.len() {
        assert(field_models(left@).len() != field_models(right@).len());
        return false;
    }
    let mut k: usize = 0;
    while k < left.len()
        invariant
            k <= left@.len(),
            left@.len() == right@.len(),
            forall|j: int|
                0 <= j < k ==> left@[j].0 == right@[j].0 && left@[j].1@ == right@[j].1@,
        decreases left@.len() - k,
    {
        if left[k].0 != right[k].0 || !left[k].1.same(&right[k].1) {
            assert(field_models(left@)[k as int] != field_models(right@)[k as int]);
            return false;
        }
        k += 1;
    }
    assert(field_models(left@) =~= field_models(right@));
    true
}

/// Appends to `found` the free symbols of the types of `list` that do not
/// stand there.
fn gather_list(list: &Vec<Type>, found: &mut Vec<Symbol>)
    requires
        old(found)@.no_duplicates(),
    ensures
        final(found)@.no_duplicates(),
        forall|s: Symbol|
            final(found)@.contains(s) <==> old(found)@.contains(s) || exists|k: int|
                0 <= k < list@.len() && #[trigger] occurs(list@[k]@, s),
    decreases list,
{
    let mut n: usize = 0;
    while n < list.len()
        invariant
            n <= list@.len(),
            found@.no_duplicates(),
            forall|s: Symbol|
                found@.contains(s) <==> old(found)@.contains(s) || exists|k: int|
                    0 <= k < n && #[trigger] occurs(list@[k]@, s),
        decreases list@.len() - n,
    {
        let ghost before = found@;
        list[n].gather(found);
        proof {
            assert forall|s: Symbol|
                found@.contains(s) <==> old(found)@.contains(s) || exists|k: int|
                    0 <= k < n + 1 && #[trigger] occurs(list@[k]@, s) by {
                if exists|k: int| 0 <= k < n + 1 && #[trigger] occurs(list@[k]@, s) {
                    let k = choose|k: int| 0 <= k < n + 1 && #[trigger] occurs(list@[k]@, s);
                    if k < n {
                        assert(before.contains(s));
                    }
                }
                if before.contains(s) && !old(found)@.contains(s) {
                    let k = choose|k: int| 0 <= k < n && #[trigger] occurs(list@[k]@, s);
                    assert(occurs(list@[k]@, s));
                }
                if occurs(list@[n as int]@, s) {
                }
            }
        }
        n += 1;
    }
}

/// Appends to `found` the free symbols of the types of `fields` that do not
/// stand there.
fn gather_fields(fields: &Vec<(Symbol, Type)>, found: &mut Vec<Symbol>)
    requires
        old(found)@.no_duplicates(),
    ensures
        final(found)@.no_duplicates(),
        forall|s: Symbol|
            final(found)@.contains(s) <==> old(found)@.contains(s) || exists|k: int|
                0 <= k < fields@.len() && #[trigger] occurs(fields@[k].1@, s),
    decreases fields,
{
    let mut n: usize = 0;
    while n < fields.len()
        invariant
            n <= fields@.len(),
            found@.no_duplicates(),
            forall|s: Symbol|
                found@.contains(s) <==> old(found)@.contains(s) || exists|k: int|
                    0 <= k < n && #[trigger] occurs(fields@[k].1@, s),
        decreases fields@.len() - n,
    {
        let ghost before = found@;
        fields[n].1.gather(found);
        proof {
            assert forall|s: Symbol|
                found@.contains(s) <==> old(found)@.contains(s) || exists|k: int|
                    0 <= k < n + 1 && #[trigger] occurs(fields@[k].1@, s) by {
                if exists|k: int| 0 <= k < n + 1 && #[trigger] occurs(fields@[k].1@, s) {
                    let k = choose|k: int| 0 <= k < n + 1 && #[trigger] occurs(fields@[k].1@, s);
                    if k < n {
                        assert(before.contains(s));
                    }
                }
                if before.contains(s) && !old(found)@.contains(s) {
                    let k = choose|k: int| 0 <= k < n && #[trigger] occurs(fields@[k].1@, s);
                    assert(occurs(fields@[k].1@, s));
                }
                if occurs(fields@[n as int].1@, s) {
                }
            }
        }
        n += 1;
    }
}

/// Appends `symbol` to `found` unless it stands there.
fn note_symbol(found: &mut Vec<Symbol>, symbol: Symbol)
    requires
        old(found)@.no_duplicates(),
    ensures
        final(found)@.no_duplicates(),
        forall|s: Symbol| final(found)@.contains(s) <==> old(found)@.contains(s) || s == symbol,
{
    let mut k: usize = 0;
    while k < found.len()
        invariant
            k <= found@.len(),
            found@ == old(found)@,
            found@.no_duplicates(),
            forall|j: int| 0 <= j < k ==> found@[j] != symbol,
        decreases found@.len() - k,
    {
        if found[k] == symbol {
            assert(found@.contains(symbol));
            return ;
        }
        k += 1;
    }
    found.push(symbol);
    proof {
        let before = old(found)@;
        assert(found@ =~= before.push(symbol));
        assert forall|s: Symbol| found@.contains(s) <==> before.contains(s) || s == symbol by {
            if before.contains(s) {
                let j = choose|j: int| 0 <= j < before.len() && before[j] == s;
                assert(found@[j] == s);
            }
            if s == symbol {
                assert(found@[before.len() as int] == s);
            }
        }
    }
}

impl Type {
    /// A type that inference has yet to find, under a symbol that `symbols`
    /// has not issued before.
    pub fn gen(symbols: &mut SymbolTable) -> (fresh: Type)
        requires
            old(symbols).wf(),
        ensures
            final(symbols).wf(),
            fresh == Type::UnificationVar(old(symbols)@.len() as Symbol),
            !old(symbols).issued(old(symbols)@.len() as Symbol),
            final(symbols)@ == old(symbols)@.push(None),
    {
        Type::UnificationVar(symbols.gensym())
    }

    /// Tells whether `self` and `other` are the same type.
    pub fn same(&self, other: &Type) -> (same: bool)
        ensures
            same == (self@ == other@),
        decreases self,
    {
        match (self, other) {
            (Type::Unit, Type::Unit) => true,
            (Type::Bool, Type::Bool) => true,
            (Type::Int32, Type::Int32) => true,
            (Type::Sint32, Type::Sint32) => true,
            (Type::Int64, Type::Int64) => true,
            (Type::Sint64, Type::Sint64) => true,
            (Type::Float32, Type::Float32) => true,
            (Type::Float64, Type::Float64) => true,
            (Type::Struct(mine), Type::Struct(theirs)) => {
                proof {
                    lemma_model_struct(*mine);
                    lemma_model_struct(*theirs);
                }
                same_fields(mine, theirs)
            },
            (Type::Func(params, result), Type::Func(their_params, their_result)) => {
                proof {
                    lemma_model_func(*params, *result);
                    lemma_model_func(*their_params, *their_result);
                }
                same_list(params, their_params) && (&**result).same(&**their_result)
            },
            (Type::Named(mine), Type::Named(theirs)) => *mine == *theirs,
            (Type::App(f, x), Type::App(g, y)) => (&**f).same(&**g) && (&**x).same(&**y),
            (Type::UnificationVar(mine), Type::UnificationVar(theirs)) => *mine == *theirs,
            _ => false,
        }
    }

    /// Appends to `found` the free symbols of the type that do not stand there.
    fn gather(&self, found: &mut Vec<Symbol>)
        requires
            old(found)@.no_duplicates(),
        ensures
            final(found)@.no_duplicates(),
            forall|s: Symbol|
                #![trigger final(found)@.contains(s)]
                #![trigger occurs(self@, s)]
                final(found)@.contains(s) <==> old(found)@.contains(s) || occurs(self@, s),
        decreases self,
    {
        match self {
            Type::Struct(fields) => {
                gather_fields(fields, found);
                proof {
                    lemma_model_struct(*fields);
                    let listed = field_models(fields@);
                    assert(self@ == Ty::Struct(listed));
                    assert forall|s: Symbol|
                        found@.contains(s) <==> old(found)@.contains(s) || occurs(self@, s) by {
                        lemma_occurs_in_fields(listed, listed.len(), s);
                        if occurs(self@, s) {
                            let k = choose|k: int|
                                0 <= k < listed.len() && #[trigger] occurs(listed[k].1, s);
                            assert(occurs(fields@[k].1@, s));
                        }
                        if exists|k: int|
                            0 <= k < fields@.len() && #[trigger] occurs(fields@[k].1@, s) {
                            let k = choose|k: int|
                                0 <= k < fields@.len() && #[trigger] occurs(fields@[k].1@, s);
                            assert(occurs(listed[k].1, s));
                        }
                    }
                }
            },
            Type::Func(params, result) => {
                gather_list(params, found);
                let ghost listing = found@;
                (&**result).gather(found);
                proof {
                    lemma_model_func(*params, *result);
                    let listed = models(params@);
                    assert(self@ == Ty::Func(listed, Box::new((**result)@)));
                    assert forall|s: Symbol|
                        found@.contains(s) <==> old(found)@.contains(s) || occurs(self@, s) by {
                        lemma_occurs_in_list(listed, listed.len(), s);
                        assert(found@.contains(s) <==> listing.contains(s) || occurs(
                            (**result)@,
                            s,
                        ));
                        assert(self@ == Ty::Func(listed, Box::new((**result)@)));
                        if occurs(self@, s) && !occurs((**result)@, s) {
                            let k = choose|k: int|
                                0 <= k < listed.len() && #[trigger] occurs(listed[k], s);
                            assert(occurs(params@[k]@, s));
                        }
                        if exists|k: int|
                            0 <= k < params@.len() && #[trigger] occurs(params@[k]@, s) {
                            let k = choose|k: int|
                                0 <= k < params@.len() && #[trigger] occurs(params@[k]@, s);
                            assert(occurs(listed[k], s));
                        }
                    }
                }
            },
            Type::Named(name) => note_symbol(found, *name),
            Type::App(f, x) => {
                (&**f).gather(found);
                (&**x).gather(found);
            },
            Type::UnificationVar(name) => note_symbol(found, *name),
            Type::Unit => {},
            Type::Bool => {},
            Type::Int32 => {},
            Type::Sint32 => {},
            Type::Int64 => {},
            Type::Sint64 => {},
            Type::Float32 => {},
            Type::Float64 => {},
        }
    }

    /// The symbols of the named types and of the unification variables that
    /// occur in the type, each once, in the order in which they first occur.
    pub fn freevars(&self) -> (found: Vec<Symbol>)
        ensures
            found@.no_duplicates(),
            forall|s: Symbol| #[trigger] found@.contains(s) <==> occurs(self@, s),
            found@.to_set() == free_symbols(self@),
    {
        let mut found: Vec<Symbol> = Vec::new();
        self.gather(&mut found);
        assert(found@.to_set() =~= free_symbols(self@));
        found
    }
}

} // verus!
