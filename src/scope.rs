use vstd::prelude::*;
use crate::types::{canonical, CompType, Ty};

verus! {

/// A fully resolved, usable symbol.
#[derive(Debug)]
pub struct CompVariable {
    pub name: String,
    pub typing: CompType,
    pub constant: bool,
    pub external: bool,
}

/// Mathematical model of a symbol.
pub struct VarM {
    pub name: Seq<char>,
    pub typing: Ty,
    pub constant: bool,
    pub external: bool,
}

impl CompVariable {
    pub open spec fn view(&self) -> VarM {
        VarM {
            name: self.name@,
            typing: self.typing@,
            constant: self.constant,
            external: self.external,
        }
    }

    /// A copy of the symbol.
    pub fn duplicate(&self) -> (r: CompVariable)
        ensures
            r@ == self@,
    {
        CompVariable {
            name: self.name.clone(),
            typing: self.typing.duplicate(),
            constant: self.constant,
            external: self.external,
        }
    }
}

pub open spec fn var_views(s: Seq<CompVariable>) -> Seq<VarM> {
    Seq::new(s.len(), |i: int| s[i]@)
}

/// A declaration not yet resolved: `typing` is `None` until inferred from the first assignment.
#[derive(Debug)]
pub struct NewVariable {
    pub name: String,
    pub typing: Option<CompType>,
    pub constant: bool,
    pub initialised: bool,
    pub external: bool,
}

/// Mathematical model of a declaration.
pub struct NewVarM {
    pub name: Seq<char>,
    pub typing: Option<Ty>,
    pub constant: bool,
    pub initialised: bool,
    pub external: bool,
}

impl NewVariable {
    pub open spec fn view(&self) -> NewVarM {
        NewVarM {
            name: self.name@,
            typing: match self.typing {
                Some(t) => Some(t@),
                None => None,
            },
            constant: self.constant,
            initialised: self.initialised,
            external: self.external,
        }
    }
}

pub open spec fn new_views(s: Seq<NewVariable>) -> Seq<NewVarM> {
    Seq::new(s.len(), |i: int| s[i]@)
}

/// A named type declared in a scope.
#[derive(Debug)]
pub struct TypeEntry {
    pub name: String,
    pub typing: CompType,
}

impl TypeEntry {
    pub open spec fn view(&self) -> (Seq<char>, Ty) {
        (self.name@, self.typing@)
    }

    pub fn duplicate(&self) -> (r: TypeEntry)
        ensures
            r@ == self@,
    {
        TypeEntry { name: self.name.clone(), typing: self.typing.duplicate() }
    }
}

pub open spec fn type_views(s: Seq<TypeEntry>) -> Seq<(Seq<char>, Ty)> {
    Seq::new(s.len(), |i: int| s[i]@)
}

/// Mathematical model of a finished scope.
pub struct ScopeM {
    pub variables: Seq<VarM>,
    pub types: Seq<(Seq<char>, Ty)>,
    pub parent: Option<Box<ScopeM>>,
}

/// An immutable snapshot of a finished scope, with its enclosing scope held by value.
#[derive(Debug)]
pub struct CompScope {
    pub variables: Vec<CompVariable>,
    pub types: Vec<TypeEntry>,
    pub parent: Option<Box<CompScope>>,
}

/// Mathematical model of a scope under construction.
pub struct TempM {
    pub variables: Seq<NewVarM>,
    pub preset: Seq<VarM>,
    pub types: Seq<(Seq<char>, Ty)>,
    pub parent: Option<ScopeM>,
    pub outermost: bool,
}

/// The scope of one block while it is analysed. Names are looked up by their first entry:
/// when a list holds a name twice, the earlier entry is the one found. The resolver never adds
/// a name that the scope already declares.
#[derive(Debug)]
pub struct TempScope {
    pub variables: Vec<NewVariable>,
    /// Symbols given before analysis (the parameters of a function); never redeclared.
    pub preset_variables: Vec<CompVariable>,
    pub types: Vec<TypeEntry>,
    pub parent: Option<Box<CompScope>>,
    /// Whether this is the scope of the program itself, where bindings are declare-once and
    /// every assignment is a `GlobalReassign`. It is independent of `parent`: a scope built
    /// without a parent and with `outermost` false never reports `GlobalReassign`.
    pub outermost: bool,
}

impl CompScope {
    pub open spec fn view(&self) -> ScopeM
        decreases self,
    {
        ScopeM {
            variables: var_views(self.variables@),
            types: type_views(self.types@),
            parent: match self.parent {
                Some(p) => Some(Box::new(p.view())),
                None => None,
            },
        }
    }
}

impl TempScope {
    pub open spec fn view(&self) -> TempM {
        TempM {
            variables: new_views(self.variables@),
            preset: var_views(self.preset_variables@),
            types: type_views(self.types@),
            parent: match self.parent {
                Some(p) => Some(p@),
                None => None,
            },
            outermost: self.outermost,
        }
    }
}

/// The position of the first occurrence of `name`, or -1: lookups find the first entry.
pub open spec fn first_index(names: Seq<Seq<char>>, name: Seq<char>) -> int
    decreases names.len(),
{
    if names.len() == 0 {
        -1
    } else {
        let k = first_index(names.drop_last(), name);
        if k >= 0 {
            k
        } else if names.last() == name {
            names.len() - 1
        } else {
            -1
        }
    }
}

/// Appending a name keeps an earlier first occurrence, or else makes the new one the first.
pub proof fn lemma_first_index_push(names: Seq<Seq<char>>, x: Seq<char>, name: Seq<char>)
    ensures
        first_index(names.push(x), name) == if first_index(names, name) >= 0 {
            first_index(names, name)
        } else if x == name {
            names.len() as int
        } else {
            -1
        },
{
    assert(names.push(x).drop_last() =~= names);
}

/// Once `nv` is declared in `t`, a lookup of its name in this scope finds a declaration,
/// the new one if no earlier one has that name.
pub proof fn lemma_declared_after_push(t: TempM, nv: NewVarM)
    ensures
        find_new(with_var(t, nv).variables, nv.name) is Some,
        find_new(t.variables, nv.name) is None ==> find_new(with_var(t, nv).variables, nv.name)
            == Some(nv),
{
    let names = new_names(t.variables);
    assert(new_names(t.variables.push(nv)) =~= names.push(nv.name));
    lemma_first_index_push(names, nv.name, nv.name);
    lemma_first_index_bounds(names, nv.name);
}

/// A name that occurs nowhere has no first occurrence.
proof fn lemma_first_index_absent(names: Seq<Seq<char>>, name: Seq<char>)
    requires
        forall|i: int| 0 <= i < names.len() ==> names[i] != name,
    ensures
        first_index(names, name) == -1,
    decreases names.len(),
{
    if names.len() > 0 {
        lemma_first_index_absent(names.drop_last(), name);
    }
}

pub open spec fn var_names(s: Seq<VarM>) -> Seq<Seq<char>> {
    Seq::new(s.len(), |i: int| s[i].name)
}

pub open spec fn new_names(s: Seq<NewVarM>) -> Seq<Seq<char>> {
    Seq::new(s.len(), |i: int| s[i].name)
}

pub open spec fn type_names(s: Seq<(Seq<char>, Ty)>) -> Seq<Seq<char>> {
    Seq::new(s.len(), |i: int| s[i].0)
}

pub open spec fn find_var(vs: Seq<VarM>, name: Seq<char>) -> Option<VarM> {
    let k = first_index(var_names(vs), name);
    if 0 <= k < vs.len() {
        Some(vs[k])
    } else {
        None
    }
}

pub open spec fn find_new(vs: Seq<NewVarM>, name: Seq<char>) -> Option<NewVarM> {
    let k = first_index(new_names(vs), name);
    if 0 <= k < vs.len() {
        Some(vs[k])
    } else {
        None
    }
}

pub open spec fn find_type(ts: Seq<(Seq<char>, Ty)>, name: Seq<char>) -> Option<Ty> {
    let k = first_index(type_names(ts), name);
    if 0 <= k < ts.len() {
        Some(ts[k].1)
    } else {
        None
    }
}

/// The symbol `name` in a finished scope or, failing that, in its enclosing scopes.
pub open spec fn scope_var(s: ScopeM, name: Seq<char>) -> Option<VarM>
    decreases s,
{
    match find_var(s.variables, name) {
        Some(v) => Some(v),
        None => match s.parent {
            Some(p) => scope_var(*p, name),
            None => None,
        },
    }
}

/// The named type `name` in a finished scope or, failing that, in its enclosing scopes.
pub open spec fn scope_type(s: ScopeM, name: Seq<char>) -> Option<Ty>
    decreases s,
{
    match find_type(s.types, name) {
        Some(t) => Some(t),
        None => match s.parent {
            Some(p) => scope_type(*p, name),
            None => None,
        },
    }
}

pub open spec fn parent_var(p: Option<ScopeM>, name: Seq<char>) -> Option<VarM> {
    match p {
        Some(s) => scope_var(s, name),
        None => None,
    }
}

/// The symbol that a declaration stands for, once it is initialised.
pub open spec fn live_var(nv: NewVarM) -> Option<VarM> {
    if nv.initialised && nv.typing is Some {
        Some(VarM { name: nv.name, typing: nv.typing->0, constant: nv.constant, external: nv.external })
    } else {
        None
    }
}

/// Lookup of a usable symbol: parameters first, then this block's declarations (usable once
/// initialised), then the enclosing scopes.
pub open spec fn temp_var(t: TempM, name: Seq<char>) -> Option<VarM> {
    match find_var(t.preset, name) {
        Some(v) => Some(v),
        None => match find_new(t.variables, name) {
            Some(nv) => live_var(nv),
            None => parent_var(t.parent, name),
        },
    }
}

/// Whether `name` is declared here or in an enclosing scope, initialised or not.
pub open spec fn temp_declared(t: TempM, name: Seq<char>) -> bool {
    find_var(t.preset, name) is Some || find_new(t.variables, name) is Some || parent_var(
        t.parent,
        name,
    ) is Some
}

/// Whether the innermost declaration of `name` is constant.
pub open spec fn temp_constant(t: TempM, name: Seq<char>) -> bool {
    match find_var(t.preset, name) {
        Some(v) => v.constant,
        None => match find_new(t.variables, name) {
            Some(nv) => nv.constant,
            None => match parent_var(t.parent, name) {
                Some(v) => v.constant,
                None => false,
            },
        },
    }
}

pub open spec fn temp_type(t: TempM, name: Seq<char>) -> Option<Ty> {
    match find_type(t.types, name) {
        Some(ty) => Some(ty),
        None => match t.parent {
            Some(s) => scope_type(s, name),
            None => None,
        },
    }
}

/// Whether `name` is declared in this very scope.
pub open spec fn declared_here(t: TempM, name: Seq<char>) -> bool {
    find_var(t.preset, name) is Some || find_new(t.variables, name) is Some
}

pub open spec fn is_initialised(t: TempM, name: Seq<char>) -> bool {
    match find_new(t.variables, name) {
        Some(nv) => nv.initialised,
        None => false,
    }
}

pub open spec fn has_type(t: TempM, name: Seq<char>) -> bool {
    match find_new(t.variables, name) {
        Some(nv) => nv.typing is Some,
        None => false,
    }
}

pub open spec fn with_type(t: TempM, name: Seq<char>, ty: Ty) -> TempM {
    let k = first_index(new_names(t.variables), name);
    if 0 <= k < t.variables.len() {
        let nv = t.variables[k];
        TempM {
            variables: t.variables.update(
                k,
                NewVarM {
                    name: nv.name,
                    typing: Some(ty),
                    constant: nv.constant,
                    initialised: nv.initialised,
                    external: nv.external,
                },
            ),
            preset: t.preset,
            types: t.types,
            parent: t.parent,
            outermost: t.outermost,
        }
    } else {
        t
    }
}

pub open spec fn with_initialised(t: TempM, name: Seq<char>) -> TempM {
    let k = first_index(new_names(t.variables), name);
    if 0 <= k < t.variables.len() {
        let nv = t.variables[k];
        TempM {
            variables: t.variables.update(
                k,
                NewVarM {
                    name: nv.name,
                    typing: nv.typing,
                    constant: nv.constant,
                    initialised: true,
                    external: nv.external,
                },
            ),
            preset: t.preset,
            types: t.types,
            parent: t.parent,
            outermost: t.outermost,
        }
    } else {
        t
    }
}

pub open spec fn with_var(t: TempM, nv: NewVarM) -> TempM {
    TempM {
        variables: t.variables.push(nv),
        preset: t.preset,
        types: t.types,
        parent: t.parent,
        outermost: t.outermost,
    }
}

pub open spec fn with_type_decl(t: TempM, name: Seq<char>, ty: Ty) -> TempM {
    TempM {
        variables: t.variables,
        preset: t.preset,
        types: t.types.push((name, ty)),
        parent: t.parent,
        outermost: t.outermost,
    }
}

/// The initialised declarations, as symbols, in order.
pub open spec fn live_vars(vs: Seq<NewVarM>) -> Seq<VarM>
    decreases vs.len(),
{
    if vs.len() == 0 {
        Seq::empty()
    } else {
        let r = live_vars(vs.drop_last());
        match live_var(vs.last()) {
            Some(v) => r.push(v),
            None => r,
        }
    }
}

/// The finished scope that a scope under construction stands for so far.
pub open spec fn snapshot(t: TempM) -> ScopeM {
    ScopeM {
        variables: t.preset + live_vars(t.variables),
        types: t.types,
        parent: match t.parent {
            Some(p) => Some(Box::new(p)),
            None => None,
        },
    }
}

/// A fresh scope for a nested block or function body inside `t`.
pub open spec fn child_of(t: TempM, preset: Seq<VarM>) -> TempM {
    TempM {
        variables: Seq::empty(),
        preset: preset,
        types: Seq::empty(),
        parent: Some(snapshot(t)),
        outermost: false,
    }
}

pub open spec fn opt_var_view(o: Option<CompVariable>) -> Option<VarM> {
    match o {
        Some(v) => Some(v@),
        None => None,
    }
}

pub open spec fn opt_ty_view(o: Option<CompType>) -> Option<Ty> {
    match o {
        Some(t) => Some(t@),
        None => None,
    }
}

fn index_of_var(vs: &Vec<CompVariable>, name: &String) -> (r: Option<usize>)
    ensures
        match r {
            Some(i) => i < vs@.len() && first_index(var_names(var_views(vs@)), name@) == i,
            None => first_index(var_names(var_views(vs@)), name@) == -1,
        },
{
    let ghost names = var_names(var_views(vs@));
    let mut found: Option<usize> = None;
    let mut i: usize = 0;
    while i < vs.len()
        invariant
            names == var_names(var_views(vs@)),
            i <= vs@.len(),
            match found {
                Some(k) => k < vs@.len() && first_index(names.take(i as int), name@) == k,
                None => first_index(names.take(i as int), name@) == -1,
            },
        decreases vs@.len() - i,
    {
        assert(names.take(i as int + 1).drop_last() =~= names.take(i as int));
        if found.is_none() && vs[i].name == *name {
            found = Some(i);
        }
        i += 1;
    }
    assert(names.take(vs@.len() as int) =~= names);
    found
}

fn index_of_new(vs: &Vec<NewVariable>, name: &String) -> (r: Option<usize>)
    ensures
        match r {
            Some(i) => i < vs@.len() && first_index(new_names(new_views(vs@)), name@) == i,
            None => first_index(new_names(new_views(vs@)), name@) == -1,
        },
{
    let ghost names = new_names(new_views(vs@));
    let mut found: Option<usize> = None;
    let mut i: usize = 0;
    while i < vs.len()
        invariant
            names == new_names(new_views(vs@)),
            i <= vs@.len(),
            match found {
                Some(k) => k < vs@.len() && first_index(names.take(i as int), name@) == k,
                None => first_index(names.take(i as int), name@) == -1,
            },
        decreases vs@.len() - i,
    {
        assert(names.take(i as int + 1).drop_last() =~= names.take(i as int));
        if found.is_none() && vs[i].name == *name {
            found = Some(i);
        }
        i += 1;
    }
    assert(names.take(vs@.len() as int) =~= names);
    found
}

fn index_of_type(ts: &Vec<TypeEntry>, name: &String) -> (r: Option<usize>)
    ensures
        match r {
            Some(i) => i < ts@.len() && first_index(type_names(type_views(ts@)), name@) == i,
            None => first_index(type_names(type_views(ts@)), name@) == -1,
        },
{
    let ghost names = type_names(type_views(ts@));
    let mut found: Option<usize> = None;
    let mut i: usize = 0;
    while i < ts.len()
        invariant
            names == type_names(type_views(ts@)),
            i <= ts@.len(),
            match found {
                Some(k) => k < ts@.len() && first_index(names.take(i as int), name@) == k,
                None => first_index(names.take(i as int), name@) == -1,
            },
        decreases ts@.len() - i,
    {
        assert(names.take(i as int + 1).drop_last() =~= names.take(i as int));
        if found.is_none() && ts[i].name == *name {
            found = Some(i);
        }
        i += 1;
    }
    assert(names.take(ts@.len() as int) =~= names);
    found
}

/// Copies every symbol of `v`.
pub fn duplicate_vars(v: &Vec<CompVariable>) -> (r: Vec<CompVariable>)
    ensures
        var_views(r@) == var_views(v@),
{
    let mut out: Vec<CompVariable> = Vec::new();
    let mut i: usize = 0;
    while i < v.len()
        invariant
            i <= v@.len(),
            out@.len() == i,
            forall|j: int| 0 <= j < i ==> out@[j]@ == v@[j]@,
        decreases v@.len() - i,
    {
        out.push(v[i].duplicate());
        i += 1;
    }
    assert(var_views(out@) =~= var_views(v@));
    out
}

fn duplicate_types(v: &Vec<TypeEntry>) -> (r: Vec<TypeEntry>)
    ensures
        type_views(r@) == type_views(v@),
{
    let mut out: Vec<TypeEntry> = Vec::new();
    let mut i: usize = 0;
    while i < v.len()
        invariant
            i <= v@.len(),
            out@.len() == i,
            forall|j: int| 0 <= j < i ==> out@[j]@ == v@[j]@,
        decreases v@.len() - i,
    {
        out.push(v[i].duplicate());
        i += 1;
    }
    assert(type_views(out@) =~= type_views(v@));
    out
}

impl CompScope {
    /// A copy of the scope and of its enclosing scopes.
    pub fn duplicate(&self) -> (r: CompScope)
        ensures
            r@ == self@,
        decreases self,
    {
        let parent = match &self.parent {
            Some(p) => Some(Box::new(p.duplicate())),
            None => None,
        };
        CompScope {
            variables: duplicate_vars(&self.variables),
            types: duplicate_types(&self.types),
            parent,
        }
    }

    /// The symbol `name`, searched here and then in the enclosing scopes.
    pub fn get_variable(&self, name: &String) -> (r: Option<CompVariable>)
        ensures
            opt_var_view(r) == scope_var(self@, name@),
        decreases self,
    {
        match index_of_var(&self.variables, name) {
            Some(i) => Some(self.variables[i].duplicate()),
            None => match &self.parent {
                Some(p) => p.get_variable(name),
                None => None,
            },
        }
    }

    /// The named type `name`, searched here and then in the enclosing scopes.
    pub fn get_type(&self, name: &String) -> (r: Option<CompType>)
        ensures
            opt_ty_view(r) == scope_type(self@, name@),
        decreases self,
    {
        match index_of_type(&self.types, name) {
            Some(i) => Some(self.types[i].typing.duplicate()),
            None => match &self.parent {
                Some(p) => p.get_type(name),
                None => None,
            },
        }
    }
}

impl TempScope {
    /// A usable symbol named `name`.
    pub fn get_variable(&self, name: &String) -> (r: Option<CompVariable>)
        ensures
            opt_var_view(r) == temp_var(self@, name@),
    {
        match index_of_var(&self.preset_variables, name) {
            Some(i) => Some(self.preset_variables[i].duplicate()),
            None => match index_of_new(&self.variables, name) {
                Some(i) => {
                    let nv = &self.variables[i];
                    if nv.initialised {
                        match &nv.typing {
                            Some(t) => Some(
                                CompVariable {
                                    name: nv.name.clone(),
                                    typing: t.duplicate(),
                                    constant: nv.constant,
                                    external: nv.external,
                                },
                            ),
                            None => None,
                        }
                    } else {
                        None
                    }
                },
                None => match &self.parent {
                    Some(p) => p.get_variable(name),
                    None => None,
                },
            },
        }
    }

    /// The named type `name`, searched here and then in the enclosing scopes.
    pub fn get_type(&self, name: &String) -> (r: Option<CompType>)
        ensures
            opt_ty_view(r) == temp_type(self@, name@),
    {
        match index_of_type(&self.types, name) {
            Some(i) => Some(self.types[i].typing.duplicate()),
            None => match &self.parent {
                Some(p) => p.get_type(name),
                None => None,
            },
        }
    }

    /// Whether `name` is declared here or in an enclosing scope.
    pub fn variable_exists(&self, name: &String) -> (r: bool)
        ensures
            r == temp_declared(self@, name@),
    {
        if index_of_var(&self.preset_variables, name).is_some() {
            return true;
        }
        if index_of_new(&self.variables, name).is_some() {
            return true;
        }
        match &self.parent {
            Some(p) => p.get_variable(name).is_some(),
            None => false,
        }
    }

    /// Whether the innermost declaration of `name` is constant.
    pub fn constant_exists(&self, name: &String) -> (r: bool)
        ensures
            r == temp_constant(self@, name@),
    {
        match index_of_var(&self.preset_variables, name) {
            Some(i) => self.preset_variables[i].constant,
            None => match index_of_new(&self.variables, name) {
                Some(i) => self.variables[i].constant,
                None => match &self.parent {
                    Some(p) => match p.get_variable(name) {
                        Some(v) => v.constant,
                        None => false,
                    },
                    None => false,
                },
            },
        }
    }

    /// Whether `name` is declared in this very scope.
    pub fn declared_here(&self, name: &String) -> (r: bool)
        ensures
            r == declared_here(self@, name@),
    {
        index_of_var(&self.preset_variables, name).is_some() || index_of_new(
            &self.variables,
            name,
        ).is_some()
    }

    /// Whether a type named `name` is declared in this very scope.
    pub fn type_declared_here(&self, name: &String) -> (r: bool)
        ensures
            r == (find_type(self@.types, name@) is Some),
    {
        index_of_type(&self.types, name).is_some()
    }

    pub fn variable_initialised(&self, name: &String) -> (r: bool)
        ensures
            r == is_initialised(self@, name@),
    {
        match index_of_new(&self.variables, name) {
            Some(i) => self.variables[i].initialised,
            None => false,
        }
    }

    pub fn variable_has_type(&self, name: &String) -> (r: bool)
        ensures
            r == has_type(self@, name@),
    {
        match index_of_new(&self.variables, name) {
            Some(i) => self.variables[i].typing.is_some(),
            None => false,
        }
    }

    /// Gives the declaration `name` of this scope the type `ty`.
    pub fn set_variable_type(&mut self, name: &String, ty: CompType)
        ensures
            final(self)@ == with_type(old(self)@, name@, ty@),
    {
        match index_of_new(&self.variables, name) {
            Some(i) => {
                let nv = NewVariable {
                    name: self.variables[i].name.clone(),
                    typing: Some(ty),
                    constant: self.variables[i].constant,
                    initialised: self.variables[i].initialised,
                    external: self.variables[i].external,
                };
                let ghost nvm = nv@;
                self.variables.set(i, nv);
                assert(new_views(self.variables@) =~= new_views(old(self).variables@).update(i as int, nvm));
            },
            None => {},
        }
    }

    /// Marks the declaration `name` of this scope initialised.
    pub fn set_variable_initialised(&mut self, name: &String)
        ensures
            final(self)@ == with_initialised(old(self)@, name@),
    {
        match index_of_new(&self.variables, name) {
            Some(i) => {
                let typing = match &self.variables[i].typing {
                    Some(t) => Some(t.duplicate()),
                    None => None,
                };
                let nv = NewVariable {
                    name: self.variables[i].name.clone(),
                    typing,
                    constant: self.variables[i].constant,
                    initialised: true,
                    external: self.variables[i].external,
                };
                let ghost nvm = nv@;
                self.variables.set(i, nv);
                assert(new_views(self.variables@) =~= new_views(old(self).variables@).update(i as int, nvm));
            },
            None => {},
        }
    }

    /// Declares `var` in this scope. If the scope already declares its name, that earlier
    /// declaration stays the one that lookups find.
    pub fn add_variable(&mut self, var: NewVariable)
        ensures
            final(self)@ == with_var(old(self)@, var@),
    {
        let ghost vm = var@;
        self.variables.push(var);
        assert(new_views(self.variables@) =~= new_views(old(self).variables@).push(vm));
    }

    /// Declares the named type `name` in this scope. If the scope already declares that name,
    /// the earlier declaration stays the one that lookups find.
    pub fn add_type(&mut self, name: String, ty: CompType)
        ensures
            final(self)@ == with_type_decl(old(self)@, name@, ty@),
    {
        let e = TypeEntry { name, typing: ty };
        let ghost em = e@;
        self.types.push(e);
        assert(type_views(self.types@) =~= type_views(old(self).types@).push(em));
    }

    /// The finished scope that this scope stands for so far.
    pub fn to_comp_scope_so_far(&self) -> (r: CompScope)
        ensures
            r@ == snapshot(self@),
    {
        let mut variables = duplicate_vars(&self.preset_variables);
        let ghost start = var_views(variables@);
        let ghost nvs = new_views(self.variables@);
        let mut i: usize = 0;
        while i < self.variables.len()
            invariant
                nvs == new_views(self.variables@),
                i <= self.variables@.len(),
                var_views(variables@) == start + live_vars(nvs.take(i as int)),
            decreases self.variables@.len() - i,
        {
            assert(nvs.take(i as int + 1).drop_last() =~= nvs.take(i as int));
            let nv = &self.variables[i];
            if nv.initialised {
                match &nv.typing {
                    Some(t) => {
                        let v = CompVariable {
                            name: nv.name.clone(),
                            typing: t.duplicate(),
                            constant: nv.constant,
                            external: nv.external,
                        };
                        let ghost old_vars = variables@;
                        variables.push(v);
                        assert(var_views(variables@) =~= var_views(old_vars).push(v@));
                    },
                    None => {},
                }
            }
            i += 1;
        }
        assert(nvs.take(self.variables@.len() as int) =~= nvs);
        let parent = match &self.parent {
            Some(p) => Some(Box::new(p.duplicate())),
            None => None,
        };
        CompScope { variables, types: duplicate_types(&self.types), parent }
    }
}

/// Every named type of `s` and of its enclosing scopes is canonical.
pub open spec fn scope_types_canonical(s: ScopeM) -> bool
    decreases s,
{
    (forall|i: int| 0 <= i < s.types.len() ==> canonical(#[trigger] s.types[i].1)) && match s.parent {
        Some(p) => scope_types_canonical(*p),
        None => true,
    }
}

/// Every named type visible from `t` is canonical.
pub open spec fn temp_types_canonical(t: TempM) -> bool {
    (forall|i: int| 0 <= i < t.types.len() ==> canonical(#[trigger] t.types[i].1)) && match t.parent {
        Some(p) => scope_types_canonical(p),
        None => true,
    }
}

proof fn lemma_scope_type_canonical(s: ScopeM, name: Seq<char>)
    requires
        scope_types_canonical(s),
    ensures
        scope_type(s, name) is Some ==> canonical(scope_type(s, name)->0),
    decreases s,
{
    match s.parent {
        Some(p) => lemma_scope_type_canonical(*p, name),
        None => {},
    }
}

pub proof fn lemma_temp_type_canonical(t: TempM, name: Seq<char>)
    requires
        temp_types_canonical(t),
    ensures
        temp_type(t, name) is Some ==> canonical(temp_type(t, name)->0),
{
    match t.parent {
        Some(p) => lemma_scope_type_canonical(p, name),
        None => {},
    }
}

/// Every symbol of `live_vars(vs)` stands for an initialised declaration of `vs`.
proof fn lemma_live_vars_initialised(vs: Seq<NewVarM>)
    ensures
        forall|k: int| 0 <= k < live_vars(vs).len() ==> exists|j: int|
            0 <= j < vs.len() && vs[j].initialised && live_var(vs[j]) == Some(#[trigger] live_vars(vs)[k]),
    decreases vs.len(),
{
    if vs.len() > 0 {
        lemma_live_vars_initialised(vs.drop_last());
        let r = live_vars(vs.drop_last());
        assert forall|k: int| 0 <= k < live_vars(vs).len() implies exists|j: int|
            0 <= j < vs.len() && vs[j].initialised && live_var(vs[j]) == Some(#[trigger] live_vars(vs)[k]) by {
            if k < r.len() {
                let j = choose|j: int| 0 <= j < vs.drop_last().len() && vs.drop_last()[j].initialised
                    && live_var(vs.drop_last()[j]) == Some(r[k]);
                assert(vs[j] == vs.drop_last()[j]);
            } else {
                assert(live_vars(vs)[k] == live_var(vs[vs.len() - 1])->0);
            }
        }
    }
}

/// Capture at declaration time: a nested scope created in `t` (a function body or a branch)
/// does not see a name whose declarations in `t` are registered but not yet initialised,
/// unless the nested scope itself or an enclosing scope provides it.
pub proof fn lemma_later_declaration_not_captured(t: TempM, preset: Seq<VarM>, name: Seq<char>)
    requires
        find_var(preset, name) is None,
        find_var(t.preset, name) is None,
        parent_var(t.parent, name) is None,
        forall|j: int| 0 <= j < t.variables.len() && #[trigger] t.variables[j].name == name
            ==> !t.variables[j].initialised,
    ensures
        temp_var(child_of(t, preset), name) is None,
{
    let c = child_of(t, preset);
    let s = snapshot(t);
    lemma_live_vars_initialised(t.variables);
    assert(new_names(c.variables) =~= Seq::<Seq<char>>::empty());
    let names = var_names(s.variables);
    let pre = var_names(t.preset);
    lemma_first_index_bounds(pre, name);
    assert forall|i: int| 0 <= i < pre.len() implies pre[i] != name by {
        if pre[i] == name {
            assert(first_index(pre, name) >= 0) by {
                lemma_first_index_found(pre, name, i);
            }
        }
    }
    assert forall|i: int| 0 <= i < names.len() implies names[i] != name by {
        if i < t.preset.len() {
            assert(names[i] == pre[i]);
        } else {
            let k = i - t.preset.len();
            assert(s.variables[i] == live_vars(t.variables)[k]);
            let j = choose|j: int| 0 <= j < t.variables.len() && t.variables[j].initialised
                && live_var(t.variables[j]) == Some(live_vars(t.variables)[k]);
            assert(t.variables[j].name == live_vars(t.variables)[k].name);
        }
    }
    lemma_first_index_absent(names, name);
}

proof fn lemma_first_index_bounds(names: Seq<Seq<char>>, name: Seq<char>)
    ensures
        -1 <= first_index(names, name) < names.len(),
    decreases names.len(),
{
    if names.len() > 0 {
        lemma_first_index_bounds(names.drop_last(), name);
    }
}

/// A name that occurs has a first occurrence.
proof fn lemma_first_index_found(names: Seq<Seq<char>>, name: Seq<char>, i: int)
    requires
        0 <= i < names.len(),
        names[i] == name,
    ensures
        first_index(names, name) >= 0,
    decreases names.len(),
{
    if i < names.len() - 1 {
        lemma_first_index_found(names.drop_last(), name, i);
    }
}

} // verus!
