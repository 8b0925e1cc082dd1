use vstd::prelude::*;

verus! {

broadcast use vstd::std_specs::vec::axiom_vec_index_decreases;

/// Mathematical model of a resolved type.
pub enum Ty {
    Int,
    Float,
    Str,
    Bool,
    Null,
    Type,
    Union(Seq<Ty>),
    Callible(Seq<Ty>, Box<Ty>),
}

/// A resolved semantic type.
#[derive(Debug, PartialEq)]
pub enum CompType {
    Int,
    Float,
    Str,
    Bool,
    Null,
    /// The type of a type-introspection result.
    Type,
    Union(Vec<CompType>),
    Callible(Vec<CompType>, Box<CompType>),
}

impl CompType {
    pub open spec fn view(&self) -> Ty
        decreases self,
    {
        match self {
            CompType::Int => Ty::Int,
            CompType::Float => Ty::Float,
            CompType::Str => Ty::Str,
            CompType::Bool => Ty::Bool,
            CompType::Null => Ty::Null,
            CompType::Type => Ty::Type,
            CompType::Union(v) => Ty::Union(
                Seq::new(v@.len(), |i: int| if 0 <= i < v@.len() { v@[i].view() } else { Ty::Null }),
            ),
            CompType::Callible(v, r) => Ty::Callible(
                Seq::new(v@.len(), |i: int| if 0 <= i < v@.len() { v@[i].view() } else { Ty::Null }),
                Box::new(r.view()),
            ),
        }
    }
}

/// The models of a sequence of types.
pub open spec fn ty_views(s: Seq<CompType>) -> Seq<Ty> {
    Seq::new(s.len(), |i: int| s[i]@)
}

pub broadcast proof fn lemma_comp_type_view(t: CompType)
    ensures
        #[trigger] t@ == match t {
            CompType::Union(v) => Ty::Union(ty_views(v@)),
            CompType::Callible(v, r) => Ty::Callible(ty_views(v@), Box::new(r@)),
            _ => t@,
        },
{
    match t {
        CompType::Union(v) => {
            assert(ty_views(v@) =~= t@->Union_0);
        },
        CompType::Callible(v, r) => {
            assert(ty_views(v@) =~= t@->Callible_0);
        },
        _ => {},
    }
}

pub proof fn lemma_ty_views_push(s: Seq<CompType>, x: CompType)
    ensures
        ty_views(s.push(x)) == ty_views(s).push(x@),
{
    assert(ty_views(s.push(x)) =~= ty_views(s).push(x@));
}

/// A primitive type: one that is neither a union nor callable nor `Type`.
pub open spec fn is_primitive(t: Ty) -> bool {
    t is Int || t is Float || t is Str || t is Bool || t is Null
}

/// Inlines nested unions, in order.
pub open spec fn inline_members(s: Seq<Ty>) -> Seq<Ty>
    decreases s,
{
    if s.len() == 0 {
        Seq::empty()
    } else {
        let m = s[s.len() - 1];
        inline_members(s.drop_last()) + match m {
            Ty::Union(ms) => inline_members(ms),
            _ => seq![m],
        }
    }
}

/// Keeps the first occurrence of each member, in order.
pub open spec fn dedup(s: Seq<Ty>) -> Seq<Ty>
    decreases s.len(),
{
    if s.len() == 0 {
        s
    } else {
        let d = dedup(s.drop_last());
        if d.contains(s.last()) {
            d
        } else {
            d.push(s.last())
        }
    }
}

/// The canonical form of a type: a union holds no union and no duplicate.
pub open spec fn flat(t: Ty) -> Ty {
    match t {
        Ty::Union(ms) => Ty::Union(dedup(inline_members(ms))),
        _ => t,
    }
}

/// `super_of(a, b)`: every value of `b` is acceptable where `a` is expected.
pub open spec fn super_of(a: Ty, b: Ty) -> bool
    decreases a, b, 0nat,
{
    match b {
        Ty::Union(bs) => all_accepted(a, bs, bs.len()),
        _ => match a {
            Ty::Union(cs) => some_accepts(cs, b, cs.len()),
            Ty::Callible(pa, ra) => match b {
                Ty::Callible(pb, rb) => pa == pb && ra == rb,
                _ => false,
            },
            _ => a == b,
        },
    }
}

/// `a` accepts each of the first `n` members of `bs`.
pub open spec fn all_accepted(a: Ty, bs: Seq<Ty>, n: nat) -> bool
    decreases a, bs, n,
{
    if n == 0 || n > bs.len() {
        true
    } else {
        all_accepted(a, bs, (n - 1) as nat) && super_of(a, bs[n - 1])
    }
}

/// One of the first `n` members of `cs` accepts `b`.
pub open spec fn some_accepts(cs: Seq<Ty>, b: Ty, n: nat) -> bool
    decreases cs, b, n,
{
    if n == 0 || n > cs.len() {
        false
    } else {
        some_accepts(cs, b, (n - 1) as nat) || super_of(cs[n - 1], b)
    }
}

/// A type that no value has: a union with no member once flattened.
pub open spec fn empty_union(t: Ty) -> bool {
    flat(t) is Union && flat(t)->Union_0.len() == 0
}

/// Every value of `t` is a `p`, and `t` has values.
pub open spec fn denotes(p: Ty, t: Ty) -> bool {
    super_of(p, t) && !empty_union(t)
}

/// The primitive type that `t` denotes, if any (a one-member union denotes its member).
pub open spec fn prim(t: Ty) -> Option<Ty> {
    if empty_union(t) {
        None
    } else if super_of(Ty::Int, t) {
        Some(Ty::Int)
    } else if super_of(Ty::Float, t) {
        Some(Ty::Float)
    } else if super_of(Ty::Str, t) {
        Some(Ty::Str)
    } else if super_of(Ty::Bool, t) {
        Some(Ty::Bool)
    } else if super_of(Ty::Null, t) {
        Some(Ty::Null)
    } else {
        None
    }
}

impl CompType {
    /// A copy of the type.
    pub fn duplicate(&self) -> (r: CompType)
        ensures
            r@ == self@,
        decreases self,
    {
        broadcast use lemma_comp_type_view;
        match self {
            CompType::Int => CompType::Int,
            CompType::Float => CompType::Float,
            CompType::Str => CompType::Str,
            CompType::Bool => CompType::Bool,
            CompType::Null => CompType::Null,
            CompType::Type => CompType::Type,
            CompType::Union(v) => CompType::Union(duplicate_all(v)),
            CompType::Callible(v, r) => {
                let args = duplicate_all(v);
                let ret = r.duplicate();
                CompType::Callible(args, Box::new(ret))
            },
        }
    }

    /// Structural equality.
    pub fn same(&self, other: &CompType) -> (r: bool)
        ensures
            r == (self@ == other@),
        decreases self,
    {
        broadcast use lemma_comp_type_view;
        match (self, other) {
            (CompType::Int, CompType::Int) => true,
            (CompType::Float, CompType::Float) => true,
            (CompType::Str, CompType::Str) => true,
            (CompType::Bool, CompType::Bool) => true,
            (CompType::Null, CompType::Null) => true,
            (CompType::Type, CompType::Type) => true,
            (CompType::Union(a), CompType::Union(b)) => same_all(a, b),
            (CompType::Callible(a, ra), CompType::Callible(b, rb)) => {
                if same_all(a, b) {
                    ra.same(rb)
                } else {
                    false
                }
            },
            _ => false,
        }
    }
}

/// Copies every type of `v`.
pub fn duplicate_all(v: &Vec<CompType>) -> (r: Vec<CompType>)
    ensures
        ty_views(r@) == ty_views(v@),
    decreases v,
{
    let mut out: Vec<CompType> = Vec::new();
    let mut i: usize = 0;
    while i < v.len()
        invariant
            i <= v@.len(),
            out@.len() == i,
            forall|j: int| 0 <= j < i ==> out@[j]@ == v@[j]@,
        decreases v@.len() - i,
    {
        out.push(v[i].duplicate());
        i += 1;
    }
    assert(ty_views(out@) =~= ty_views(v@));
    out
}

/// Structural equality of two sequences of types.
pub fn same_all(a: &Vec<CompType>, b: &Vec<CompType>) -> (r: bool)
    ensures
        r == (ty_views(a@) == ty_views(b@)),
    decreases a,
{
    if a.len() != b.len() {
        assert(ty_views(a@).len() != ty_views(b@).len());
        return false;
    }
    let mut i: usize = 0;
    while i < a.len()
        invariant
            a@.len() == b@.len(),
            i <= a@.len(),
            forall|j: int| 0 <= j < i ==> a@[j]@ == b@[j]@,
        decreases a@.len() - i,
    {
        if !a[i].same(&b[i]) {
            assert(ty_views(a@)[i as int] != ty_views(b@)[i as int]);
            return false;
        }
        i += 1;
    }
    assert(ty_views(a@) =~= ty_views(b@));
    true
}


impl CompType {
    /// Subtyping: whether every value of `other` is acceptable where `self` is expected.
    pub fn super_of(&self, other: &CompType) -> (r: bool)
        ensures
            r == super_of(self@, other@),
        decreases self, other,
    {
        broadcast use lemma_comp_type_view;
        match other {
            CompType::Union(bs) => {
                let ghost m = ty_views(bs@);
                assert(other@ == Ty::Union(m));
                let mut i: usize = 0;
                while i < bs.len()
                    invariant
                        other is Union,
                        other->Union_0 == *bs,
                        other@ == Ty::Union(m),
                        m == ty_views(bs@),
                        i <= bs@.len(),
                        all_accepted(self@, m, i as nat),
                    decreases bs@.len() - i,
                {
                    assert(m[i as int] == bs@[i as int]@);
                    if !self.super_of(&bs[i]) {
                        proof { lemma_all_accepted_fails(self@, m, i as nat, m.len()); }
                        assert(super_of(self@, other@) == all_accepted(self@, m, m.len()));
                        return false;
                    }
                    i += 1;
                }
                true
            },
            _ => match self {
                CompType::Union(cs) => {
                    let ghost m = ty_views(cs@);
                    assert(self@ == Ty::Union(m));
                    assert(!(other@ is Union));
                    assert(super_of(self@, other@) == some_accepts(m, other@, m.len()));
                    let mut i: usize = 0;
                    while i < cs.len()
                        invariant
                            self is Union,
                            self->Union_0 == *cs,
                            !(other is Union),
                            !(other@ is Union),
                            self@ == Ty::Union(m),
                            m == ty_views(cs@),
                            i <= cs@.len(),
                            !some_accepts(m, other@, i as nat),
                        decreases cs@.len() - i,
                    {
                        assert(m[i as int] == cs@[i as int]@);
                        if cs[i].super_of(other) {
                            proof { lemma_some_accepts_holds(m, other@, i as nat, m.len()); }
                            assert(super_of(self@, other@) == some_accepts(m, other@, m.len()));
                            return true;
                        }
                        i += 1;
                    }
                    false
                },
                CompType::Callible(pa, ra) => match other {
                    CompType::Callible(pb, rb) => {
                        if same_all(pa, pb) {
                            ra.same(rb)
                        } else {
                            false
                        }
                    },
                    _ => false,
                },
                _ => self.same(other),
            },
        }
    }

    /// The canonical form: nested unions inlined and duplicates removed, first occurrence kept.
    pub fn flatten(&self) -> (r: CompType)
        ensures
            r@ == flat(self@),
    {
        broadcast use lemma_comp_type_view;
        match self {
            CompType::Union(ms) => {
                let mut inlined: Vec<CompType> = Vec::new();
                inline_into(ms, &mut inlined);
                assert(ty_views(inlined@) =~= inline_members(ty_views(ms@)));
                let mut out: Vec<CompType> = Vec::new();
                let mut i: usize = 0;
                while i < inlined.len()
                    invariant
                        i <= inlined@.len(),
                        ty_views(out@) == dedup(ty_views(inlined@).take(i as int)),
                    decreases inlined@.len() - i,
                {
                    let ghost prefix = ty_views(inlined@).take(i as int + 1);
                    assert(prefix.drop_last() =~= ty_views(inlined@).take(i as int));
                    assert(prefix.last() == inlined@[i as int]@);
                    if !contains_ty(&out, &inlined[i]) {
                        let m = inlined[i].duplicate();
                        proof {
                            lemma_ty_views_push(out@, m);
                        }
                        out.push(m);
                    }
                    i += 1;
                }
                assert(ty_views(inlined@).take(inlined@.len() as int) =~= ty_views(inlined@));
                CompType::Union(out)
            },
            _ => self.duplicate(),
        }
    }

    /// Whether the type, flattened, is the union with no member.
    pub fn is_empty_union(&self) -> (r: bool)
        ensures
            r == empty_union(self@),
    {
        broadcast use lemma_comp_type_view;
        match self.flatten() {
            CompType::Union(ms) => ms.len() == 0,
            _ => false,
        }
    }

    /// Whether the type denotes booleans.
    pub fn is_bool(&self) -> (r: bool)
        ensures
            r == denotes(Ty::Bool, self@),
    {
        !self.is_empty_union() && CompType::Bool.super_of(self)
    }

    /// Whether the type denotes integers.
    pub fn is_int(&self) -> (r: bool)
        ensures
            r == denotes(Ty::Int, self@),
    {
        !self.is_empty_union() && CompType::Int.super_of(self)
    }

    /// Whether the type denotes strings.
    pub fn is_str(&self) -> (r: bool)
        ensures
            r == denotes(Ty::Str, self@),
    {
        !self.is_empty_union() && CompType::Str.super_of(self)
    }

    /// The primitive type that this type denotes, if any.
    pub fn primitive(&self) -> (r: Option<CompType>)
        ensures
            match r {
                Some(p) => prim(self@) == Some(p@),
                None => prim(self@) is None,
            },
    {
        if self.is_empty_union() {
            None
        } else if CompType::Int.super_of(self) {
            Some(CompType::Int)
        } else if CompType::Float.super_of(self) {
            Some(CompType::Float)
        } else if CompType::Str.super_of(self) {
            Some(CompType::Str)
        } else if CompType::Bool.super_of(self) {
            Some(CompType::Bool)
        } else if CompType::Null.super_of(self) {
            Some(CompType::Null)
        } else {
            None
        }
    }
}

/// Whether `v` holds a type structurally equal to `t`.
pub fn contains_ty(v: &Vec<CompType>, t: &CompType) -> (r: bool)
    ensures
        r == ty_views(v@).contains(t@),
{
    let mut i: usize = 0;
    while i < v.len()
        invariant
            i <= v@.len(),
            forall|j: int| 0 <= j < i ==> v@[j]@ != t@,
        decreases v@.len() - i,
    {
        if v[i].same(t) {
            assert(ty_views(v@)[i as int] == t@);
            return true;
        }
        i += 1;
    }
    assert forall|j: int| 0 <= j < ty_views(v@).len() implies ty_views(v@)[j] != t@ by {
        assert(ty_views(v@)[j] == v@[j]@);
    }
    false
}

/// Appends the members of `ms` to `out`, inlining nested unions.
fn inline_into(ms: &Vec<CompType>, out: &mut Vec<CompType>)
    ensures
        ty_views(final(out)@) == ty_views(old(out)@) + inline_members(ty_views(ms@)),
    decreases ms,
{
    broadcast use lemma_comp_type_view;
    let mut i: usize = 0;
    while i < ms.len()
        invariant
            i <= ms@.len(),
            ty_views(out@) == ty_views(old(out)@) + inline_members(ty_views(ms@).take(i as int)),
        decreases ms@.len() - i,
    {
        let ghost prefix = ty_views(ms@).take(i as int + 1);
        assert(prefix.drop_last() =~= ty_views(ms@).take(i as int));
        assert(prefix[prefix.len() - 1] == ms@[i as int]@);
        match &ms[i] {
            CompType::Union(inner) => {
                let ghost before = ty_views(out@);
                proof { lemma_comp_type_view(ms@[i as int]); }
                assert(ms@[i as int]@ == Ty::Union(ty_views(inner@)));
                inline_into(inner, out);
                assert(inline_members(prefix) == inline_members(prefix.drop_last()) + inline_members(ty_views(inner@)));
                assert(ty_views(out@) =~= ty_views(old(out)@) + inline_members(prefix));
            },
            m => {
                let d = m.duplicate();
                proof {
                    lemma_ty_views_push(out@, d);
                }
                out.push(d);
                assert(ty_views(out@) =~= ty_views(old(out)@) + inline_members(prefix));
            },
        }
        i += 1;
    }
    assert(ty_views(ms@).take(ms@.len() as int) =~= ty_views(ms@));
}

proof fn lemma_inline_no_union(s: Seq<Ty>)
    ensures
        forall|i: int| 0 <= i < inline_members(s).len() ==> !(#[trigger] inline_members(s)[i] is Union),
    decreases s,
{
    if s.len() > 0 {
        lemma_inline_no_union(s.drop_last());
        let m = s[s.len() - 1];
        match m {
            Ty::Union(ms) => lemma_inline_no_union(ms),
            _ => {},
        }
    }
}

proof fn lemma_dedup_props(s: Seq<Ty>)
    ensures
        dedup(s).no_duplicates(),
        forall|i: int| 0 <= i < dedup(s).len() ==> s.contains(#[trigger] dedup(s)[i]),
    decreases s.len(),
{
    if s.len() > 0 {
        lemma_dedup_props(s.drop_last());
        let d = dedup(s.drop_last());
        assert forall|i: int| 0 <= i < dedup(s).len() implies s.contains(#[trigger] dedup(s)[i]) by {
            if i < d.len() {
                let k = choose|k: int| 0 <= k < s.drop_last().len() && s.drop_last()[k] == d[i];
                assert(s[k] == d[i]);
            } else {
                assert(s[s.len() - 1] == dedup(s)[i]);
            }
        }
    }
}

proof fn lemma_inline_identity(s: Seq<Ty>)
    requires
        forall|i: int| 0 <= i < s.len() ==> !(#[trigger] s[i] is Union),
    ensures
        inline_members(s) == s,
    decreases s.len(),
{
    if s.len() > 0 {
        lemma_inline_identity(s.drop_last());
        assert(inline_members(s) =~= s);
    }
}

proof fn lemma_dedup_identity(s: Seq<Ty>)
    requires
        s.no_duplicates(),
    ensures
        dedup(s) == s,
    decreases s.len(),
{
    if s.len() > 0 {
        lemma_dedup_identity(s.drop_last());
        assert(!s.drop_last().contains(s.last()));
        assert(dedup(s) =~= s);
    }
}

proof fn lemma_flat_idempotent(t: Ty)
    ensures
        flat(flat(t)) == flat(t),
        flat(t) is Union ==> forall|i: int| 0 <= i < flat(t)->Union_0.len() ==> !(#[trigger] flat(t)->Union_0[i] is Union),
{
    match t {
        Ty::Union(ms) => {
            let d = dedup(inline_members(ms));
            lemma_inline_no_union(ms);
            lemma_dedup_props(inline_members(ms));
            assert forall|i: int| 0 <= i < d.len() implies !(#[trigger] d[i] is Union) by {
                let k = choose|k: int| 0 <= k < inline_members(ms).len() && inline_members(ms)[k] == d[i];
            }
            lemma_inline_identity(d);
            lemma_dedup_identity(d);
        },
        _ => {},
    }
}

/// Flattening is idempotent: a canonical type is its own canonical form.
pub proof fn lemma_flatten_idempotent(t: CompType)
    ensures
        flat(flat(t@)) == flat(t@),
{
    lemma_flat_idempotent(t@);
}

/// Flattening keeps order: a union of distinct members, none of them a union, is already in
/// canonical form, members in the order given.
pub proof fn lemma_flatten_keeps_order(t: CompType)
    requires
        t@ is Union,
        t@->Union_0.no_duplicates(),
        forall|i: int| 0 <= i < t@->Union_0.len() ==> !(#[trigger] t@->Union_0[i] is Union),
    ensures
        flat(t@) == t@,
{
    lemma_inline_identity(t@->Union_0);
    lemma_dedup_identity(t@->Union_0);
}

/// Flattening forgets nesting and repetition: `A | (B | A)` and `A | B` have one canonical form.
pub proof fn lemma_flatten_nested_repeat(a: CompType, b: CompType)
    requires
        !(a@ is Union),
        !(b@ is Union),
    ensures
        flat(Ty::Union(seq![a@, Ty::Union(seq![b@, a@])])) == flat(Ty::Union(seq![a@, b@])),
{
    let (x, y) = (a@, b@);
    reveal_with_fuel(inline_members, 3);
    reveal_with_fuel(dedup, 4);
    let s1 = seq![x, Ty::Union(seq![y, x])];
    assert(s1.drop_last() =~= seq![x]);
    assert(seq![x].drop_last() =~= Seq::<Ty>::empty());
    assert(seq![y, x].drop_last() =~= seq![y]);
    assert(seq![y].drop_last() =~= Seq::<Ty>::empty());
    assert(inline_members(seq![x]) =~= seq![x]);
    assert(inline_members(seq![y]) =~= seq![y]);
    assert(inline_members(seq![y, x]) =~= seq![y, x]);
    assert(inline_members(s1) =~= seq![x, y, x]);
    assert(inline_members(seq![x, y]) =~= seq![x, y]);
    assert(seq![x, y, x].drop_last() =~= seq![x, y]);
    assert(seq![x, y].drop_last() =~= seq![x]);
    assert(dedup(seq![x]) =~= seq![x]);
    let d = dedup(seq![x, y]);
    assert(d.contains(x)) by {
        if dedup(seq![x]).contains(y) {
            assert(d == dedup(seq![x]));
            assert(d[0] == x);
        } else {
            assert(d == seq![x].push(y));
            assert(d[0] == x);
        }
    }
    assert(dedup(seq![x, y, x]) == d);
}

proof fn lemma_all_accepted_fails(a: Ty, bs: Seq<Ty>, k: nat, n: nat)
    requires
        k < n <= bs.len(),
        !super_of(a, bs[k as int]),
    ensures
        !all_accepted(a, bs, n),
    decreases n,
{
    if n > k + 1 {
        lemma_all_accepted_fails(a, bs, k, (n - 1) as nat);
    }
}

proof fn lemma_some_accepts_holds(cs: Seq<Ty>, b: Ty, k: nat, n: nat)
    requires
        k < n <= cs.len(),
        super_of(cs[k as int], b),
    ensures
        some_accepts(cs, b, n),
    decreases n,
{
    if n > k + 1 {
        lemma_some_accepts_holds(cs, b, k, (n - 1) as nat);
    }
}

proof fn lemma_all_accepted_each(a: Ty, bs: Seq<Ty>, n: nat)
    requires
        n <= bs.len(),
        forall|i: int| 0 <= i < n ==> #[trigger] super_of(a, bs[i]),
    ensures
        all_accepted(a, bs, n),
    decreases n,
{
    if n > 0 {
        lemma_all_accepted_each(a, bs, (n - 1) as nat);
        assert(super_of(a, bs[n - 1]));
    }
}

proof fn lemma_nonunion_reflexive(t: Ty)
    requires
        !(t is Union),
    ensures
        super_of(t, t),
{
}

/// Subtyping is reflexive on every primitive and on every canonical type.
pub proof fn lemma_super_of_reflexive(t: CompType)
    ensures
        is_primitive(t@) ==> super_of(t@, t@),
        super_of(flat(t@), flat(t@)),
{
    match t@ {
        Ty::Union(ms) => {
            let d = dedup(inline_members(ms));
            lemma_inline_no_union(ms);
            lemma_dedup_props(inline_members(ms));
            assert forall|i: int| 0 <= i < d.len() implies #[trigger] super_of(Ty::Union(d), d[i]) by {
                let k = choose|k: int| 0 <= k < inline_members(ms).len() && inline_members(ms)[k] == d[i];
                assert(!(inline_members(ms)[k] is Union));
                lemma_nonunion_reflexive(d[i]);
                lemma_some_accepts_holds(d, d[i], i as nat, d.len());
            }
            lemma_all_accepted_each(Ty::Union(d), d, d.len());
        },
        _ => {},
    }
}

/// A canonical type: every union in it is flattened, as the type algebra stores them.
pub open spec fn canonical(t: Ty) -> bool
    decreases t, 0nat,
{
    match t {
        Ty::Union(ms) => flat(t) == t && all_canonical(ms, ms.len()),
        Ty::Callible(ps, r) => canonical(*r) && all_canonical(ps, ps.len()),
        _ => true,
    }
}

/// The first `n` members of `s` are canonical.
pub open spec fn all_canonical(s: Seq<Ty>, n: nat) -> bool
    decreases s, n,
{
    if n == 0 || n > s.len() {
        true
    } else {
        all_canonical(s, (n - 1) as nat) && canonical(s[n - 1])
    }
}

pub proof fn lemma_all_canonical(s: Seq<Ty>, n: nat)
    requires
        n <= s.len(),
    ensures
        all_canonical(s, n) <==> forall|i: int| 0 <= i < n ==> #[trigger] canonical(s[i]),
    decreases n,
{
    if n > 0 {
        lemma_all_canonical(s, (n - 1) as nat);
        let last = s[n - 1];
        assert(all_canonical(s, n) == (all_canonical(s, (n - 1) as nat) && canonical(last)));
        if forall|i: int| 0 <= i < n ==> #[trigger] canonical(s[i]) {
            assert(canonical(s[n - 1]));
        }
        if all_canonical(s, n) {
            assert forall|i: int| 0 <= i < n implies #[trigger] canonical(s[i]) by {
                if i < n - 1 {
                } else {
                    assert(s[i] == last);
                }
            }
        }
    }
}

proof fn lemma_inline_canonical(s: Seq<Ty>)
    requires
        forall|i: int| 0 <= i < s.len() ==> #[trigger] canonical(s[i]),
    ensures
        forall|i: int| 0 <= i < inline_members(s).len() ==> #[trigger] canonical(inline_members(s)[i]),
    decreases s,
{
    if s.len() > 0 {
        let m = s[s.len() - 1];
        assert(canonical(m));
        lemma_inline_canonical(s.drop_last());
        match m {
            Ty::Union(ms) => {
                lemma_all_canonical(ms, ms.len());
                lemma_inline_canonical(ms);
            },
            _ => {},
        }
        let a = inline_members(s.drop_last());
        let b = match m {
            Ty::Union(ms) => inline_members(ms),
            _ => seq![m],
        };
        assert(inline_members(s) == a + b);
        assert forall|i: int| 0 <= i < inline_members(s).len() implies #[trigger] canonical(inline_members(s)[i]) by {
            if i < a.len() {
                assert(inline_members(s)[i] == a[i]);
            } else {
                assert(inline_members(s)[i] == b[i - a.len()]);
            }
        }
    }
}

/// Flattening a union of canonical types gives a canonical type.
pub proof fn lemma_flatten_canonical(t: Ty)
    requires
        t is Union ==> forall|i: int| 0 <= i < t->Union_0.len() ==> #[trigger] canonical(t->Union_0[i]),
        !(t is Union) ==> canonical(t),
    ensures
        canonical(flat(t)),
{
    lemma_flat_idempotent(t);
    match t {
        Ty::Union(ms) => {
            let d = dedup(inline_members(ms));
            lemma_inline_canonical(ms);
            lemma_dedup_props(inline_members(ms));
            assert forall|i: int| 0 <= i < d.len() implies #[trigger] canonical(d[i]) by {
                let k = choose|k: int| 0 <= k < inline_members(ms).len() && inline_members(ms)[k] == d[i];
                assert(canonical(inline_members(ms)[k]));
            }
            lemma_all_canonical(d, d.len());
        },
        _ => {},
    }
}

} // verus!
