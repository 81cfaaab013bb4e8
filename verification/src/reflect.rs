//! The catalog of reflected host types that scripts can use, built from a table describing each
//! type the host registered.
use vstd::prelude::*;
use vstd::string::StrSliceExecFns;

verus! {

/// How a reflected type converts for scripts. `Option` and `List` name the table entry of
/// their item; `Type` is a struct or enum of its own.
#[derive(Debug, Clone, Copy, PartialEq, Eq, Structural)]
pub enum Kind {
    Bool,
    Int,
    F32,
    F64,
    Str,
    Vec2,
    Vec3,
    Quat,
    Entity,
    Option(usize),
    List(usize),
    Type,
}

/// A field: its name, if it has one, and the table entry of its type, if that is reflected.
#[derive(Debug, Clone)]
pub struct FieldDesc {
    pub name: Option<String>,
    pub ty: Option<usize>,
}

/// A variant of an enum, with its fields.
#[derive(Debug, Clone)]
pub enum VariantDesc {
    Unit(String),
    Tuple(String, Vec<FieldDesc>),
    Struct(String, Vec<FieldDesc>),
}

/// The shape of a reflected type.
#[derive(Debug, Clone)]
pub enum Layout {
    Struct(Vec<FieldDesc>),
    TupleStruct(Vec<FieldDesc>),
    Enum(Vec<VariantDesc>),
    Other,
}

/// What the catalog reads of one registered type: the name scripts use, the full type path,
/// how it converts (`None` where scripts can't use it, like a map), its shape, the component
/// it is registered as (if any), whether that is a resource and mutable, and whether the type
/// reflects `Default`.
#[derive(Debug, Clone)]
pub struct TypeDesc {
    pub name: String,
    pub path: String,
    pub kind: Option<Kind>,
    pub layout: Layout,
    pub component: Option<u32>,
    pub resource: bool,
    pub mutable: bool,
    pub default: bool,
}

/// The fields of a struct or of one variant of an enum.
#[derive(Debug, Clone)]
pub enum Members {
    Unit,
    Named(Vec<FieldDesc>),
    Tuple(Vec<FieldDesc>),
}

/// The fields of a struct, or of the `variant`th variant of an enum.
pub open spec fn members_of(info: TypeDesc, variant: int) -> Option<Seq<FieldDesc>> {
    match info.layout {
        Layout::Struct(fs) => Some(fs@),
        Layout::TupleStruct(fs) => Some(fs@),
        Layout::Enum(vs) => if 0 <= variant < vs@.len() {
            match vs@[variant] {
                VariantDesc::Unit(_) => Some(Seq::empty()),
                VariantDesc::Tuple(_, fs) => Some(fs@),
                VariantDesc::Struct(_, fs) => Some(fs@),
            }
        } else {
            None
        },
        Layout::Other => None,
    }
}

/// How the fields of a struct, or of the `variant`th variant of an enum, are written: named for
/// a struct and a struct variant, by position for a tuple struct and a tuple variant, none for a
/// unit variant.
pub open spec fn members_shape(info: TypeDesc, variant: int, m: Members) -> bool {
    match info.layout {
        Layout::Struct(_) => m is Named,
        Layout::TupleStruct(_) => m is Tuple,
        Layout::Enum(vs) => 0 <= variant < vs@.len() && match vs@[variant] {
            VariantDesc::Unit(_) => m is Unit,
            VariantDesc::Tuple(..) => m is Tuple,
            VariantDesc::Struct(..) => m is Named,
        },
        Layout::Other => false,
    }
}

/// The fields of the `variant`th variant, none where there is no such variant.
pub open spec fn variant_fields(info: TypeDesc, variant: int) -> Seq<FieldDesc> {
    match members_of(info, variant) {
        Some(fs) => fs,
        None => Seq::empty(),
    }
}

/// A field has a reflected type scripts can use given the catalog types `s`.
pub open spec fn field_usable(tb: Seq<TypeDesc>, s: Set<usize>, f: FieldDesc) -> bool {
    match f.ty {
        Some(j) => usable(tb, s, j),
        None => false,
    }
}

/// How many variants a struct or enum has: an enum's own, one for a struct.
pub open spec fn variant_count(info: TypeDesc) -> int {
    match info.layout {
        Layout::Enum(vs) => vs@.len() as int,
        _ => 1,
    }
}

/// The fields a [`Members`] holds.
pub open spec fn member_fields(m: Members) -> Seq<FieldDesc> {
    match m {
        Members::Unit => Seq::empty(),
        Members::Named(fs) => fs@,
        Members::Tuple(fs) => fs@,
    }
}

/// A copy of a field.
fn copy_field(f: &FieldDesc) -> (r: FieldDesc)
    ensures
        r == *f,
{
    FieldDesc {
        name: match &f.name {
            Some(n) => Some(n.clone()),
            None => None,
        },
        ty: f.ty,
    }
}

/// A copy of a list of fields.
fn copy_fields(fs: &Vec<FieldDesc>) -> (r: Vec<FieldDesc>)
    ensures
        r@ == fs@,
{
    let mut r: Vec<FieldDesc> = Vec::new();
    let mut i: usize = 0;
    while i < fs.len()
        invariant
            i <= fs@.len(),
            r@ == fs@.take(i as int),
        decreases fs@.len() - i,
    {
        r.push(copy_field(&fs[i]));
        i += 1;
        assert(r@ =~= fs@.take(i as int));
    }
    assert(fs@.take(i as int) =~= fs@);
    r
}

impl Members {
    /// The fields of a struct, or of the `variant`th variant of an enum; `None` for anything
    /// else, or a variant the enum doesn't have.
    pub fn of(info: &TypeDesc, variant: usize) -> (m: Option<Members>)
        ensures
            match members_of(*info, variant as int) {
                Some(fs) => m matches Some(mm) && member_fields(mm) == fs,
                None => m is None,
            },
            m matches Some(mm) ==> members_shape(*info, variant as int, mm),
    {
        match &info.layout {
            Layout::Struct(fs) => Some(Members::Named(copy_fields(fs))),
            Layout::TupleStruct(fs) => Some(Members::Tuple(copy_fields(fs))),
            Layout::Enum(vs) => {
                if variant < vs.len() {
                    match &vs[variant] {
                        VariantDesc::Unit(_) => Some(Members::Unit),
                        VariantDesc::Tuple(_, fs) => Some(Members::Tuple(copy_fields(fs))),
                        VariantDesc::Struct(_, fs) => Some(Members::Named(copy_fields(fs))),
                    }
                } else {
                    None
                }
            },
            Layout::Other => None,
        }
    }

    /// Each field's name and type, for fields that are all reflected (as every field of a
    /// catalog type is).
    pub fn reflected(self) -> (v: Vec<(Option<String>, usize)>)
        requires
            forall|i: int| 0 <= i < member_fields(self).len() ==> (#[trigger] member_fields(self)[i]).ty is Some,
        ensures
            v@.len() == member_fields(self).len(),
            forall|i: int| 0 <= i < v@.len() ==> (#[trigger] v@[i]).1 == member_fields(self)[i].ty->0
                && v@[i].0 == member_fields(self)[i].name,
    {
        let fs = match self {
            Members::Unit => Vec::new(),
            Members::Named(fs) => fs,
            Members::Tuple(fs) => fs,
        };
        let mut v: Vec<(Option<String>, usize)> = Vec::new();
        let mut i: usize = 0;
        while i < fs.len()
            invariant
                i <= fs@.len(),
                fs@ == member_fields(self),
                forall|k: int| 0 <= k < fs@.len() ==> (#[trigger] fs@[k]).ty is Some,
                v@.len() == i,
                forall|k: int| 0 <= k < i ==> (#[trigger] v@[k]).1 == fs@[k].ty->0 && v@[k].0 == fs@[k].name,
            decreases fs@.len() - i,
        {
            let ty = match fs[i].ty {
                Some(t) => t,
                None => 0,
            };
            v.push((fs[i].name.clone(), ty));
            i += 1;
        }
        v
    }
}


/// A component or resource scripts can use: its type's table entry, the component it is
/// registered as, and whether it is mutable and a resource.
#[derive(Debug, Clone, Copy, PartialEq, Eq, Structural)]
pub struct Stored {
    pub ty: usize,
    pub component: u32,
    pub mutable: bool,
    pub resource: bool,
}

/// A struct or enum in the catalog: how it is stored, if it is a component or resource, and
/// whether it reflects `Default`.
#[derive(Debug, Clone, Copy, PartialEq, Eq, Structural)]
pub struct Reflected {
    pub stored: Option<Stored>,
    pub default: bool,
}

/// Every reflected type scripts can use, by table entry, and the order they were added in
/// (field types before the types that use them).
#[derive(Debug)]
pub struct Catalog {
    pub types: Vec<Option<Reflected>>,
    pub order: Vec<usize>,
}

/// The catalog entry of table entry `t`.
pub open spec fn reflected_of(info: TypeDesc, t: usize) -> Reflected {
    Reflected {
        stored: match info.component {
            Some(c) => Some(Stored { ty: t, component: c, mutable: info.mutable, resource: info.resource }),
            None => None,
        },
        default: info.default,
    }
}

/// A field's type is in the table.
pub open spec fn field_in(n: int, f: FieldDesc) -> bool {
    f.ty matches Some(j) ==> j < n
}

/// A table whose entries name entries of the table, where an option or a list names an entry
/// before its own, and whose structs and enums have a shape.
pub open spec fn table_wf(tb: Seq<TypeDesc>) -> bool {
    &&& tb.len() <= usize::MAX
    &&& forall|i: int| 0 <= i < tb.len() ==> match (#[trigger] tb[i]).kind {
        Some(Kind::Option(j)) => j < i,
        Some(Kind::List(j)) => j < i,
        Some(Kind::Type) => !(tb[i].layout is Other),
        _ => true,
    }
    &&& forall|i: int, v: int, k: int|
        0 <= i < tb.len() && 0 <= k < variant_fields(tb[i], v).len() ==> field_in(
            tb.len() as int,
            #[trigger] variant_fields(tb[i], v)[k],
        )
}

/// Scripts can use values of entry `t` once the structs and enums of `s` are in the catalog.
pub open spec fn usable(tb: Seq<TypeDesc>, s: Set<usize>, t: usize) -> bool
    decreases t,
{
    if t < tb.len() {
        match tb[t as int].kind {
            None => false,
            Some(Kind::Option(j)) => if j < t {
                usable(tb, s, j)
            } else {
                false
            },
            Some(Kind::List(j)) => if j < t {
                usable(tb, s, j)
            } else {
                false
            },
            Some(Kind::Type) => s.contains(t),
            Some(_) => true,
        }
    } else {
        false
    }
}

/// Every field of every variant of `info` has a reflected type scripts can use given `s`.
pub open spec fn fields_usable(tb: Seq<TypeDesc>, s: Set<usize>, info: TypeDesc) -> bool {
    forall|v: int, k: int|
        0 <= v < variant_count(info) && 0 <= k < variant_fields(info, v).len() ==> field_usable(
            tb,
            s,
            #[trigger] variant_fields(info, v)[k],
        )
}

/// A catalog of table `tb`: each entry in `order` once, exactly the entries that have a
/// catalog value; each one a struct or enum with a name scripts can write (no generics), whose
/// fields scripts can use given only the entries before it in `order`, with its catalog value.
pub open spec fn catalog_wf(tb: Seq<TypeDesc>, cat: Catalog) -> bool {
    &&& cat.types@.len() == tb.len()
    &&& forall|i: int| 0 <= i < tb.len() ==> ((#[trigger] cat.types@[i]) is Some <==> cat.order@.contains(
        i as usize,
    ))
    &&& forall|a: int, b: int| 0 <= a < b < cat.order@.len() ==> cat.order@[a] != cat.order@[b]
    &&& forall|k: int| 0 <= k < cat.order@.len() ==> {
        let t = #[trigger] cat.order@[k];
        &&& t < tb.len()
        &&& tb[t as int].kind == Some(Kind::Type)
        &&& !tb[t as int].name@.contains('<')
        &&& fields_usable(tb, cat.order@.take(k).to_set(), tb[t as int])
        &&& cat.types@[t as int] == Some(reflected_of(tb[t as int], t))
    }
}

/// Whether scripts can use entry `t` with this catalog.
pub open spec fn usable_in(tb: Seq<TypeDesc>, cat: Catalog, t: usize) -> bool {
    usable(tb, cat.order@.to_set(), t)
}

/// Once usable, an entry stays usable as the catalog grows.
pub proof fn lemma_usable_grows(tb: Seq<TypeDesc>, s1: Set<usize>, s2: Set<usize>, t: usize)
    requires
        s1.subset_of(s2),
        usable(tb, s1, t),
    ensures
        usable(tb, s2, t),
    decreases t,
{
    if t < tb.len() {
        match tb[t as int].kind {
            Some(Kind::Option(j)) => lemma_usable_grows(tb, s1, s2, j),
            Some(Kind::List(j)) => lemma_usable_grows(tb, s1, s2, j),
            _ => {},
        }
    }
}

/// Scripts can use values of entry `t` when the structs and enums marked in `vis` (those a use
/// of `t` sits inside) may not recur: a plain value; an option or list of such a value; or a
/// struct or enum that [`type_acceptable`] takes.
pub open spec fn acceptable(tb: Seq<TypeDesc>, vis: Seq<bool>, t: usize) -> bool
    decreases unvisited(vis), 1nat, t,
{
    if t < tb.len() {
        match tb[t as int].kind {
            None => false,
            Some(Kind::Option(j)) => j < t && acceptable(tb, vis, j),
            Some(Kind::List(j)) => j < t && acceptable(tb, vis, j),
            Some(Kind::Type) => type_acceptable(tb, vis, t),
            Some(_) => true,
        }
    } else {
        false
    }
}

/// Struct or enum `t` is not marked in `vis`, and [`fields_acceptable`] with `t` marked too.
pub open spec fn type_acceptable(tb: Seq<TypeDesc>, vis: Seq<bool>, t: usize) -> bool
    decreases unvisited(vis), 0nat, 0nat,
{
    if t < tb.len() && vis.len() == tb.len() && !vis[t as int] {
        proof {
            lemma_unvisited_mark(vis, t as int);
        }
        fields_acceptable(tb, vis.update(t as int, true), t)
    } else {
        false
    }
}

/// Struct or enum `t` has a name scripts can write (no generics), and every field of every
/// variant of it has a reflected type that is [`acceptable`] with the marks of `vis`.
pub open spec fn fields_acceptable(tb: Seq<TypeDesc>, vis: Seq<bool>, t: usize) -> bool
    decreases unvisited(vis), 2nat, 0nat,
{
    &&& t < tb.len()
    &&& !tb[t as int].name@.contains('<')
    &&& forall|v: int, k: int|
        0 <= v < variant_count(tb[t as int]) && 0 <= k < variant_fields(tb[t as int], v).len()
            ==> match #[trigger] variant_fields(tb[t as int], v)[k].ty {
            Some(j) => acceptable(tb, vis, j),
            None => false,
        }
}

/// What the catalog lets scripts use, given its first `k` entries, is acceptable with any marks
/// that leave those entries unmarked.
pub proof fn lemma_catalog_acceptable(tb: Seq<TypeDesc>, cat: Catalog, vis: Seq<bool>, k: int, t: usize)
    requires
        catalog_wf(tb, cat),
        0 <= k <= cat.order@.len(),
        vis.len() == tb.len(),
        forall|i: int| 0 <= i < k ==> !vis[#[trigger] cat.order@[i] as int],
        usable(tb, cat.order@.take(k).to_set(), t),
    ensures
        acceptable(tb, vis, t),
    decreases k, t,
{
    match tb[t as int].kind {
        Some(Kind::Option(j)) => lemma_catalog_acceptable(tb, cat, vis, k, j),
        Some(Kind::List(j)) => lemma_catalog_acceptable(tb, cat, vis, k, j),
        Some(Kind::Type) => {
            assert(cat.order@.take(k).contains(t));
            let p = choose|p: int| 0 <= p < k && cat.order@.take(k)[p] == t;
            assert(cat.order@[p] == t);
            let info = tb[t as int];
            assert(fields_usable(tb, cat.order@.take(p).to_set(), info));
            let vis2 = vis.update(t as int, true);
            assert forall|i: int| 0 <= i < p implies !vis2[#[trigger] cat.order@[i] as int] by {
                assert(cat.order@[i] != cat.order@[p]);
            }
            assert forall|v: int, f: int|
                0 <= v < variant_count(info) && 0 <= f < variant_fields(info, v).len() implies match #[trigger] variant_fields(
                info,
                v,
            )[f].ty {
                Some(j) => acceptable(tb, vis2, j),
                None => false,
            } by {
                let field = variant_fields(info, v)[f];
                assert(field_usable(tb, cat.order@.take(p).to_set(), field));
                lemma_catalog_acceptable(tb, cat, vis2, p, field.ty->0);
            }
            assert(fields_acceptable(tb, vis2, t));
            assert(type_acceptable(tb, vis, t));
        },
        _ => {},
    }
}

/// Nothing marked: the start of a search from the roots.
pub open spec fn unmarked(n: nat) -> Seq<bool> {
    Seq::new(n, |i: int| false)
}

/// The number of entries not being visited.
pub open spec fn unvisited(v: Seq<bool>) -> nat
    decreases v.len(),
{
    if v.len() == 0 {
        0
    } else {
        unvisited(v.drop_last()) + if v.last() {
            0nat
        } else {
            1nat
        }
    }
}

/// Marking an unmarked entry leaves one fewer unmarked.
pub proof fn lemma_unvisited_mark(v: Seq<bool>, t: int)
    requires
        0 <= t < v.len(),
        !v[t],
    ensures
        unvisited(v.update(t, true)) + 1 == unvisited(v),
    decreases v.len(),
{
    if t < v.len() - 1 {
        assert(v.update(t, true).drop_last() =~= v.drop_last().update(t, true));
        lemma_unvisited_mark(v.drop_last(), t);
    } else {
        assert(v.update(t, true).drop_last() =~= v.drop_last());
    }
}

/// Entry `a` names entry `b` directly: as an option's or a list's item, or as the type of a
/// field of one of its variants.
pub open spec fn names(tb: Seq<TypeDesc>, a: usize, b: usize) -> bool {
    a < tb.len() && match tb[a as int].kind {
        Some(Kind::Option(j)) => j == b,
        Some(Kind::List(j)) => j == b,
        Some(Kind::Type) => exists|v: int, k: int|
            0 <= v < variant_count(tb[a as int]) && 0 <= k < variant_fields(tb[a as int], v).len()
                && #[trigger] variant_fields(tb[a as int], v)[k].ty == Some(b),
        _ => false,
    }
}

/// A walk from entry `t` to entry `u`, each step from an entry to one it names.
pub open spec fn walk(tb: Seq<TypeDesc>, p: Seq<usize>, t: usize, u: usize) -> bool {
    &&& p.len() >= 1
    &&& p[0] == t
    &&& p.last() == u
    &&& forall|i: int| 0 <= i < p.len() - 1 ==> names(tb, #[trigger] p[i], p[i + 1])
}

/// Entry `t` needs entry `u`: `u` is `t`, or is named by an entry `t` needs.
pub open spec fn reaches(tb: Seq<TypeDesc>, t: usize, u: usize) -> bool {
    exists|p: Seq<usize>| #[trigger] walk(tb, p, t, u)
}

proof fn lemma_reaches_self(tb: Seq<TypeDesc>, t: usize)
    ensures
        reaches(tb, t, t),
{
    assert(walk(tb, seq![t], t, t));
}

proof fn lemma_reaches_step(tb: Seq<TypeDesc>, t: usize, j: usize, u: usize)
    requires
        names(tb, t, j),
        reaches(tb, j, u),
    ensures
        reaches(tb, t, u),
{
    let p = choose|p: Seq<usize>| #[trigger] walk(tb, p, j, u);
    let q = seq![t] + p;
    assert forall|i: int| 0 <= i < q.len() - 1 implies names(tb, #[trigger] q[i], q[i + 1]) by {
        if i > 0 {
            assert(q[i] == p[i - 1] && q[i + 1] == p[i]);
        }
    }
    assert(walk(tb, q, t, u));
}

/// Every entry added to the catalog from position `from` on is needed by entry `t`.
pub open spec fn added_needed(tb: Seq<TypeDesc>, order: Seq<usize>, from: int, t: usize) -> bool {
    forall|k: int| from <= k < order.len() ==> reaches(tb, t, #[trigger] order[k])
}

/// Builds a [`Catalog`] from a table of types, taking a type only when scripts can use all of
/// its fields, and never a type that contains itself.
#[derive(Debug)]
pub struct Builder {
    pub catalog: Catalog,
    pub table: Vec<TypeDesc>,
    pub visiting: Vec<bool>,
}

/// A builder part way: a good table and catalog, and no type being visited in the catalog.
pub open spec fn builder_wf(b: Builder) -> bool {
    builder_wf_but(b, -1)
}

/// [`builder_wf`], but type `skip` may be both visited and in the catalog (it has just been
/// added).
pub open spec fn builder_wf_but(b: Builder, skip: int) -> bool {
    &&& table_wf(b.table@)
    &&& catalog_wf(b.table@, b.catalog)
    &&& b.visiting@.len() == b.table@.len()
    &&& forall|i: int| 0 <= i < b.visiting@.len() && i != skip && #[trigger] b.visiting@[i] ==> b.catalog.types@[i] is None
}

/// Whether text holds a `<`.
fn has_angle(s: &str) -> (b: bool)
    ensures
        b == s@.contains('<'),
{
    let n = s.unicode_len();
    let mut i: usize = 0;
    while i < n
        invariant
            n == s@.len(),
            i <= n,
            forall|k: int| 0 <= k < i ==> s@[k] != '<',
        decreases n - i,
    {
        if s.get_char(i) == '<' {
            return true;
        }
        i += 1;
    }
    false
}

impl Builder {
    /// A builder over `table` with an empty catalog.
    pub fn new(table: Vec<TypeDesc>) -> (b: Builder)
        requires
            table_wf(table@),
        ensures
            builder_wf(b),
            b.table@ == table@,
            b.catalog.order@.len() == 0,
            forall|i: int| 0 <= i < b.visiting@.len() ==> !b.visiting@[i],
    {
        let mut types: Vec<Option<Reflected>> = Vec::new();
        let mut visiting: Vec<bool> = Vec::new();
        let mut i: usize = 0;
        while i < table.len()
            invariant
                i <= table@.len(),
                types@.len() == i,
                visiting@.len() == i,
                forall|k: int| 0 <= k < i ==> (#[trigger] types@[k]) is None,
                forall|k: int| 0 <= k < i ==> !(#[trigger] visiting@[k]),
            decreases table@.len() - i,
        {
            types.push(None);
            visiting.push(false);
            i += 1;
        }
        let b = Builder { catalog: Catalog { types, order: Vec::new() }, table, visiting };
        assert(b.catalog.order@ =~= Seq::<usize>::empty());
        assert forall|k: int| 0 <= k < b.table@.len() implies ((#[trigger] b.catalog.types@[k]) is Some
            <==> b.catalog.order@.contains(k as usize)) by {}
        b
    }

    /// Returns whether scripts can use entry `t`, adding the structs and enums it needs to the
    /// catalog first; everything it adds is a struct or enum that `t` needs (see [`reaches`]). An
    /// entry scripts can already use (a primitive, a struct or enum in the catalog, or an option
    /// or list of one) leaves the catalog as it is.
    pub fn accept(&mut self, t: usize) -> (r: bool)
        requires
            builder_wf(*old(self)),
            t < old(self).table@.len(),
        ensures
            builder_wf(*final(self)),
            final(self).table@ == old(self).table@,
            final(self).visiting@ == old(self).visiting@,
            final(self).catalog.order@.take(old(self).catalog.order@.len() as int) == old(self).catalog.order@,
            old(self).catalog.order@.len() <= final(self).catalog.order@.len(),
            r == usable_in(final(self).table@, final(self).catalog, t),
            r == acceptable(old(self).table@, old(self).visiting@, t),
            usable_in(old(self).table@, old(self).catalog, t) ==> final(self).catalog == old(self).catalog,
            added_needed(old(self).table@, final(self).catalog.order@, old(self).catalog.order@.len() as int, t),
        decreases unvisited(old(self).visiting@), 0nat, t,
    {
        let kind = self.table[t].kind;
        match kind {
            None => false,
            Some(Kind::Option(inner)) => {
                let r = self.accept(inner);
                proof {
                    assert forall|k: int| old(self).catalog.order@.len() <= k < self.catalog.order@.len() implies reaches(
                        self.table@,
                        t,
                        #[trigger] self.catalog.order@[k],
                    ) by {
                        lemma_reaches_step(self.table@, t, inner, self.catalog.order@[k]);
                    }
                }
                r
            },
            Some(Kind::List(inner)) => {
                let r = self.accept(inner);
                proof {
                    assert forall|k: int| old(self).catalog.order@.len() <= k < self.catalog.order@.len() implies reaches(
                        self.table@,
                        t,
                        #[trigger] self.catalog.order@[k],
                    ) by {
                        lemma_reaches_step(self.table@, t, inner, self.catalog.order@[k]);
                    }
                }
                r
            },
            Some(Kind::Type) => {
                if self.catalog.types[t].is_some() {
                    proof {
                        assert(self.catalog.order@.contains(t));
                        let k = self.catalog.order@.len() as int;
                        assert(self.catalog.order@.take(k) =~= self.catalog.order@);
                        assert forall|i: int| 0 <= i < k implies !self.visiting@[#[trigger] self.catalog.order@[i] as int] by {
                            let u = self.catalog.order@[i];
                            assert(self.catalog.types@[u as int] is Some);
                        }
                        lemma_catalog_acceptable(self.table@, self.catalog, self.visiting@, k, t);
                    }
                    return true;
                }
                // recursive types aren't supported
                if self.visiting[t] {
                    proof {
                        if self.catalog.order@.to_set().contains(t) {
                            assert(self.catalog.order@.contains(t));
                        }
                        assert(!type_acceptable(self.table@, self.visiting@, t));
                    }
                    return false;
                }
                proof {
                    lemma_unvisited_mark(self.visiting@, t as int);
                }
                self.visiting.set(t, true);
                let ghost marked = self.visiting@;
                let taken = self.take(t);
                self.visiting.set(t, false);
                proof {
                    assert(self.visiting@ =~= old(self).visiting@);
                    assert(marked == old(self).visiting@.update(t as int, true));
                    assert(type_acceptable(old(self).table@, old(self).visiting@, t) == fields_acceptable(
                        old(self).table@,
                        marked,
                        t,
                    ));
                }
                taken
            },
            Some(_) => true,
        }
    }

    /// Adds struct or enum `t` to the catalog if scripts can use all of its fields, adding the
    /// field types first.
    fn take(&mut self, t: usize) -> (r: bool)
        requires
            builder_wf(*old(self)),
            t < old(self).table@.len(),
            old(self).visiting@[t as int],
            old(self).table@[t as int].kind == Some(Kind::Type),
        ensures
            builder_wf_but(*final(self), t as int),
            final(self).table@ == old(self).table@,
            final(self).visiting@ == old(self).visiting@,
            final(self).catalog.order@.take(old(self).catalog.order@.len() as int) == old(self).catalog.order@,
            old(self).catalog.order@.len() <= final(self).catalog.order@.len(),
            r == final(self).catalog.order@.contains(t),
            r == fields_acceptable(old(self).table@, old(self).visiting@, t),
            added_needed(old(self).table@, final(self).catalog.order@, old(self).catalog.order@.len() as int, t),
        decreases unvisited(old(self).visiting@), 1nat, 0nat,
    {
        // scripts can't name generic types
        if has_angle(self.table[t].name.as_str()) {
            proof { self.lemma_not_taken(t); }
            return false;
        }
        let ghost tb = self.table@;
        let ghost vis = self.visiting@;
        let ghost order0 = self.catalog.order@;
        let variants = match &self.table[t].layout {
            Layout::Enum(vs) => vs.len(),
            _ => 1,
        };
        let mut index: usize = 0;
        while index < variants
            invariant
                builder_wf(*self),
                self.table@ == tb,
                self.visiting@ == vis,
                tb == old(self).table@,
                vis == old(self).visiting@,
                order0 == old(self).catalog.order@,
                vis[t as int],
                t < tb.len(),
                tb[t as int].kind == Some(Kind::Type),
                !tb[t as int].name@.contains('<'),
                variants == variant_count(tb[t as int]),
                index <= variants,
                self.catalog.order@.take(order0.len() as int) == order0,
                order0.len() <= self.catalog.order@.len(),
                added_needed(tb, self.catalog.order@, order0.len() as int, t),
                forall|v: int, k: int|
                    0 <= v < index && 0 <= k < variant_fields(tb[t as int], v).len() ==> field_usable(
                        tb,
                        self.catalog.order@.to_set(),
                        #[trigger] variant_fields(tb[t as int], v)[k],
                    ),
                forall|v: int, k: int|
                    0 <= v < index && 0 <= k < variant_fields(tb[t as int], v).len() ==> match #[trigger] variant_fields(
                        tb[t as int],
                        v,
                    )[k].ty {
                        Some(j) => acceptable(tb, vis, j),
                        None => false,
                    },
            decreases variants - index,
        {
            let fields = match Members::of(&self.table[t], index) {
                Some(Members::Named(fs)) => fs,
                Some(Members::Tuple(fs)) => fs,
                _ => Vec::new(),
            };
            let ghost mine = variant_fields(tb[t as int], index as int);
            assert(fields@ == mine);
            let mut k: usize = 0;
            while k < fields.len()
                invariant
                    builder_wf(*self),
                    self.table@ == tb,
                    self.visiting@ == vis,
                    tb == old(self).table@,
                    vis == old(self).visiting@,
                    order0 == old(self).catalog.order@,
                    vis[t as int],
                    t < tb.len(),
                    tb[t as int].kind == Some(Kind::Type),
                    index < variants,
                    variants == variant_count(tb[t as int]),
                    variant_fields(tb[t as int], index as int) == mine,
                    fields@ == mine,
                    k <= fields@.len(),
                    self.catalog.order@.take(order0.len() as int) == order0,
                    order0.len() <= self.catalog.order@.len(),
                    added_needed(tb, self.catalog.order@, order0.len() as int, t),
                    forall|v: int, kk: int|
                        0 <= v < index && 0 <= kk < variant_fields(tb[t as int], v).len() ==> field_usable(
                            tb,
                            self.catalog.order@.to_set(),
                            #[trigger] variant_fields(tb[t as int], v)[kk],
                        ),
                    forall|kk: int| 0 <= kk < k ==> field_usable(tb, self.catalog.order@.to_set(), #[trigger] mine[kk]),
                    forall|v: int, kk: int|
                        0 <= v < index && 0 <= kk < variant_fields(tb[t as int], v).len() ==> match #[trigger] variant_fields(
                            tb[t as int],
                            v,
                        )[kk].ty {
                            Some(j) => acceptable(tb, vis, j),
                            None => false,
                        },
                    forall|kk: int| 0 <= kk < k ==> match #[trigger] mine[kk].ty {
                        Some(j) => acceptable(tb, vis, j),
                        None => false,
                    },
                decreases fields@.len() - k,
            {
                let ghost before = self.catalog.order@;
                let ok = match fields[k].ty {
                    Some(j) => {
                        assert(field_in(tb.len() as int, variant_fields(tb[t as int], index as int)[k as int]));
                        let r = self.accept(j);
                        proof {
                            assert(variant_fields(tb[t as int], index as int)[k as int].ty == Some(j));
                            assert(0 <= index < variant_count(tb[t as int]));
                            assert(names(tb, t, j));
                            let after = self.catalog.order@;
                            assert forall|kk: int| order0.len() <= kk < after.len() implies reaches(tb, t, #[trigger] after[kk]) by {
                                if kk < before.len() {
                                    assert(after.take(before.len() as int)[kk] == before[kk]);
                                } else {
                                    lemma_reaches_step(tb, t, j, after[kk]);
                                }
                            }
                        }
                        r
                    },
                    None => false,
                };
                if !ok {
                    proof { self.lemma_not_taken(t); }
                    return false;
                }
                proof {
                    let after = self.catalog.order@;
                    assert(after.take(before.len() as int) == before) by {
                        assert(after.take(order0.len() as int) == order0);
                    }
                    assert(before.to_set().subset_of(after.to_set())) by {
                        assert forall|x: usize| before.to_set().contains(x) implies after.to_set().contains(x) by {
                            let i = choose|i: int| 0 <= i < before.len() && before[i] == x;
                            assert(after.take(before.len() as int)[i] == x);
                            assert(after[i] == x);
                        }
                    }
                    assert forall|v: int, kk: int|
                        0 <= v < index && 0 <= kk < variant_fields(tb[t as int], v).len() implies field_usable(
                            tb,
                            after.to_set(),
                            #[trigger] variant_fields(tb[t as int], v)[kk],
                        ) by {
                        lemma_usable_grows(tb, before.to_set(), after.to_set(), variant_fields(tb[t as int], v)[kk].ty->0);
                    }
                    assert forall|kk: int| 0 <= kk < k + 1 implies field_usable(tb, after.to_set(), #[trigger] mine[kk]) by {
                        if kk < k {
                            lemma_usable_grows(tb, before.to_set(), after.to_set(), mine[kk].ty->0);
                        }
                    }
                }
                k += 1;
            }
            index += 1;
        }
        let ghost order1 = self.catalog.order@;
        let info = &self.table[t];
        let stored = match info.component {
            Some(c) => Some(Stored { ty: t, component: c, mutable: info.mutable, resource: info.resource }),
            None => None,
        };
        let reflected = Reflected { stored, default: info.default };
        assert(self.catalog.types@[t as int] is None);
        self.catalog.types.set(t, Some(reflected));
        self.catalog.order.push(t);
        proof {
            let order2 = self.catalog.order@;
            assert(!order1.contains(t));
            assert(order2.take(order1.len() as int) =~= order1);
            assert(order2.take(order0.len() as int) =~= order0) by {
                assert(order1.take(order0.len() as int) == order0);
            }
            assert forall|i: int| 0 <= i < tb.len() implies ((#[trigger] self.catalog.types@[i]) is Some
                <==> order2.contains(i as usize)) by {
                if i != t {
                    if order2.contains(i as usize) {
                        let q = choose|q: int| 0 <= q < order2.len() && order2[q] == i as usize;
                        assert(order1[q] == i as usize);
                    }
                    if order1.contains(i as usize) {
                        let q = choose|q: int| 0 <= q < order1.len() && order1[q] == i as usize;
                        assert(order2[q] == i as usize);
                    }
                } else {
                    assert(order2[order1.len() as int] == t);
                }
            }
            assert forall|k: int| 0 <= k < order2.len() implies {
                let u = #[trigger] order2[k];
                &&& u < tb.len()
                &&& tb[u as int].kind == Some(Kind::Type)
                &&& !tb[u as int].name@.contains('<')
                &&& fields_usable(tb, order2.take(k).to_set(), tb[u as int])
                &&& self.catalog.types@[u as int] == Some(reflected_of(tb[u as int], u))
            } by {
                if k < order1.len() {
                    assert(order2.take(k) =~= order1.take(k));
                    assert(order2[k] == order1[k]);
                    assert(order1[k] != t);
                } else {
                    assert(order2.take(k) =~= order1);
                }
            }
            assert forall|a: int, b: int| 0 <= a < b < order2.len() implies order2[a] != order2[b] by {
                if b == order1.len() {
                    assert(order1.contains(order2[a]) ==> order2[a] != t);
                    assert(order2[a] == order1[a]);
                }
            }
            assert(order2[order1.len() as int] == t);
            lemma_reaches_self(tb, t);
            assert forall|kk: int| order0.len() <= kk < order2.len() implies reaches(tb, t, #[trigger] order2[kk]) by {
                if kk < order1.len() {
                    assert(order2[kk] == order1[kk]);
                }
            }
        }
        true
    }

    /// A type being visited is not in the catalog.
    proof fn lemma_not_taken(&self, t: usize)
        requires
            builder_wf(*self),
            t < self.visiting@.len(),
            self.visiting@[t as int],
        ensures
            !self.catalog.order@.contains(t),
    {
        assert(self.catalog.types@[t as int] is None);
    }
}


impl Stored {
    /// The name scripts use for the type.
    pub fn name<'a>(&self, table: &'a Vec<TypeDesc>) -> (n: &'a str)
        requires
            self.ty < table@.len(),
        ensures
            n@ == table@[self.ty as int].name@,
    {
        table[self.ty].name.as_str()
    }

    /// The entity (by its bits) the value lives on: for a resource, the resource's own entity
    /// (`resource_entity`, where the world has one); for a component, `entity`.
    pub fn holder(&self, resource_entity: Option<u64>, entity: Option<u64>) -> (h: Option<u64>)
        ensures
            h == if self.resource {
                resource_entity
            } else {
                entity
            },
    {
        if self.resource {
            resource_entity
        } else {
            entity
        }
    }

    /// Whether `entity` has the component, or the world has the resource: `holds` tells whether
    /// an entity exists and carries the value.
    pub fn has<F: Fn(u64) -> bool>(&self, resource_entity: Option<u64>, entity: u64, holds: F) -> (b: bool)
        requires
            forall|e: u64| holds.requires((e,)),
        ensures
            match (if self.resource {
                resource_entity
            } else {
                Some(entity)
            }) {
                Some(h) => holds.ensures((h,), b),
                None => !b,
            },
    {
        match self.holder(resource_entity, Some(entity)) {
            Some(h) => holds(h),
            None => false,
        }
    }
}

/// The components and resources among catalog entries `order`, in that order.
pub open spec fn stored_list(types: Seq<Option<Reflected>>, order: Seq<usize>) -> Seq<(usize, Stored)>
    decreases order.len(),
{
    if order.len() == 0 {
        Seq::empty()
    } else {
        let rest = stored_list(types, order.drop_last());
        let id = order.last();
        match types[id as int] {
            Some(r) => match r.stored {
                Some(st) => rest.push((id, st)),
                None => rest,
            },
            None => rest,
        }
    }
}

/// Text `a` sorts no later than text `b`: character by character in code point order, a
/// prefix first.
pub open spec fn text_le(a: Seq<char>, b: Seq<char>) -> bool
    decreases a.len(),
{
    if a.len() == 0 {
        true
    } else if b.len() == 0 {
        false
    } else if a[0] != b[0] {
        (a[0] as u32) < (b[0] as u32)
    } else {
        text_le(a.drop_first(), b.drop_first())
    }
}

/// `new` holds the items of `old` rearranged, item `i` of `new` being item `perm[i]` of `old`,
/// with items of equal paths in their old order.
pub open spec fn stable_from(new: Seq<(String, usize)>, old: Seq<(String, usize)>, perm: Seq<int>) -> bool {
    &&& perm.len() == new.len()
    &&& new.len() == old.len()
    &&& forall|i: int| 0 <= i < new.len() ==> 0 <= #[trigger] perm[i] < old.len() && new[i] == old[perm[i]]
    &&& forall|i: int, j: int| 0 <= i < j < new.len() ==> #[trigger] perm[i] != #[trigger] perm[j]
    &&& forall|i: int, j: int|
        0 <= i < j < new.len() && new[i].0@ == new[j].0@ ==> #[trigger] perm[i] < #[trigger] perm[j]
}

/// Sorts roots by their type path, with `sort_by` and `String`'s ordering (by code point). Claims
/// what `slice::sort_by` documents: the result is a rearrangement of the input, sorted, and
/// stable (items that compare equal keep their order).
#[verifier::external_body]
fn sort_by_path(roots: &mut Vec<(String, usize)>)
    ensures
        final(roots)@.to_multiset() == old(roots)@.to_multiset(),
        exists|perm: Seq<int>| stable_from(final(roots)@, old(roots)@, perm),
        forall|i: int, j: int|
            0 <= i < j < final(roots)@.len() ==> text_le(final(roots)@[i].0@, final(roots)@[j].0@),
{
    roots.sort_by(|a, b| a.0.cmp(&b.0));
}

/// Whether a list holds `x`.
fn holds(v: &Vec<usize>, x: usize) -> (b: bool)
    ensures
        b == v@.contains(x),
{
    let mut i: usize = 0;
    while i < v.len()
        invariant
            i <= v@.len(),
            forall|k: int| 0 <= k < i ==> v@[k] != x,
        decreases v@.len() - i,
    {
        if v[i] == x {
            return true;
        }
        i += 1;
    }
    false
}

/// The types the catalog starts from: every component, and every entry of `extra`.
pub open spec fn is_root(tb: Seq<TypeDesc>, extra: Seq<usize>, i: int) -> bool {
    tb[i].component is Some || extra.contains(i as usize)
}

/// The roots of a table with their type paths, in table order.
fn roots_of(table: &Vec<TypeDesc>, extra: &Vec<usize>) -> (roots: Vec<(String, usize)>)
    ensures
        forall|k: int| 0 <= k < roots@.len() ==> {
            let (p, i) = #[trigger] roots@[k];
            &&& i < table@.len()
            &&& is_root(table@, extra@, i as int)
            &&& p@ == table@[i as int].path@
        },
        forall|i: int| 0 <= i < table@.len() && is_root(table@, extra@, i) ==> exists|k: int|
            0 <= k < roots@.len() && (#[trigger] roots@[k]).1 == i,
{
    let mut roots: Vec<(String, usize)> = Vec::new();
    let mut i: usize = 0;
    while i < table.len()
        invariant
            i <= table@.len(),
            forall|k: int| 0 <= k < roots@.len() ==> {
                let (p, j) = #[trigger] roots@[k];
                &&& j < i
                &&& is_root(table@, extra@, j as int)
                &&& p@ == table@[j as int].path@
            },
            forall|j: int| 0 <= j < i && is_root(table@, extra@, j) ==> exists|k: int|
                0 <= k < roots@.len() && (#[trigger] roots@[k]).1 == j,
        decreases table@.len() - i,
    {
        let ghost r0 = roots@;
        if table[i].component.is_some() || holds(extra, i) {
            roots.push((table[i].path.clone(), i));
            assert(roots@[roots@.len() - 1].1 == i);
        }
        proof {
            assert forall|j: int| 0 <= j < i + 1 && is_root(table@, extra@, j) implies exists|k: int|
                0 <= k < roots@.len() && (#[trigger] roots@[k]).1 == j by {
                if j < i {
                    let k = choose|k: int| 0 <= k < r0.len() && (#[trigger] r0[k]).1 == j;
                    assert(roots@[k] == r0[k]);
                }
            }
        }
        i += 1;
    }
    roots
}

impl Catalog {
    /// Builds the catalog from every component, plus the `extra` types (like messages), taken
    /// in order of their type paths. Every root that scripts can use (see [`acceptable`]) ends
    /// up usable with the catalog, and every type in it is one scripts can use.
    pub fn new(table: Vec<TypeDesc>, extra: &Vec<usize>) -> (c: Catalog)
        requires
            table_wf(table@),
        ensures
            catalog_wf(table@, c),
            forall|k: int|
                0 <= k < c.order@.len() ==> acceptable(table@, unmarked(table@.len()), #[trigger] c.order@[k]),
            forall|i: int|
                0 <= i < table@.len() && is_root(table@, extra@, i) && acceptable(
                    table@,
                    unmarked(table@.len()),
                    i as usize,
                ) ==> #[trigger] usable_in(table@, c, i as usize),
    {
        let ghost tb0 = table@;
        let mut roots = roots_of(&table, extra);
        let ghost found = roots@;
        sort_by_path(&mut roots);
        proof {
            broadcast use vstd::seq_lib::group_to_multiset_ensures;
            assert forall|i: int| 0 <= i < tb0.len() && is_root(tb0, extra@, i) implies exists|k: int|
                0 <= k < roots@.len() && (#[trigger] roots@[k]).1 == i by {
                let k0 = choose|k: int| 0 <= k < found.len() && (#[trigger] found[k]).1 == i;
                assert(found.contains(found[k0]));
                assert(roots@.to_multiset().count(found[k0]) > 0);
                assert(roots@.contains(found[k0]));
                let k = choose|k: int| 0 <= k < roots@.len() && roots@[k] == found[k0];
                assert(roots@[k].1 == i);
            }
        }
        let n = table.len();
        let mut builder = Builder::new(table);
        let ghost tb = builder.table@;
        let ghost idle = unmarked(n as nat);
        let mut i: usize = 0;
        while i < roots.len()
            invariant
                builder_wf(builder),
                builder.table@ == tb,
                tb == tb0,
                tb.len() == n,
                idle == unmarked(n as nat),
                forall|k: int| 0 <= k < builder.visiting@.len() ==> !builder.visiting@[k],
                i <= roots@.len(),
                forall|k: int|
                    0 <= k < i && (#[trigger] roots@[k]).1 < n && acceptable(tb, idle, roots@[k].1) ==> usable_in(
                        tb,
                        builder.catalog,
                        roots@[k].1,
                    ),
            decreases roots@.len() - i,
        {
            let root = roots[i].1;
            let ghost before = builder.catalog.order@;
            if root < n {
                proof {
                    assert(builder.visiting@ =~= idle);
                }
                builder.accept(root);
                proof {
                    let after = builder.catalog.order@;
                    assert(before.to_set().subset_of(after.to_set())) by {
                        assert forall|x: usize| before.to_set().contains(x) implies after.to_set().contains(x) by {
                            let q = choose|q: int| 0 <= q < before.len() && before[q] == x;
                            assert(after.take(before.len() as int)[q] == x);
                            assert(after[q] == x);
                        }
                    }
                    assert forall|k: int|
                        0 <= k < i && (#[trigger] roots@[k]).1 < n && acceptable(tb, idle, roots@[k].1) implies usable_in(
                        tb,
                        builder.catalog,
                        roots@[k].1,
                    ) by {
                        lemma_usable_grows(tb, before.to_set(), after.to_set(), roots@[k].1);
                    }
                }
            }
            i += 1;
        }
        proof {
            let c = builder.catalog;
            let k = c.order@.len() as int;
            assert(c.order@.take(k) =~= c.order@);
            assert(builder.visiting@ =~= idle);
            assert forall|j: int| 0 <= j < k implies acceptable(tb, idle, #[trigger] c.order@[j]) by {
                let t = c.order@[j];
                assert(c.order@.contains(t));
                assert(c.order@.to_set().contains(t));
                assert(tb[t as int].kind == Some(Kind::Type));
                lemma_catalog_acceptable(tb, c, idle, k, t);
            }
            assert forall|r: int|
                0 <= r < tb.len() && is_root(tb, extra@, r) && acceptable(tb, idle, r as usize) implies #[trigger] usable_in(
                tb,
                c,
                r as usize,
            ) by {
                let q = choose|q: int| 0 <= q < roots@.len() && (#[trigger] roots@[q]).1 == r;
            }
        }
        builder.catalog
    }

    /// A component or resource's storage. The catalog must hold `id` as one.
    pub fn get(&self, id: usize) -> (s: Stored)
        requires
            id < self.types@.len(),
            self.types@[id as int] matches Some(r) && r.stored is Some,
        ensures
            s == self.types@[id as int]->0.stored->0,
    {
        match self.types[id] {
            Some(r) => match r.stored {
                Some(s) => s,
                None => Stored { ty: 0, component: 0, mutable: false, resource: false },
            },
            None => Stored { ty: 0, component: 0, mutable: false, resource: false },
        }
    }

    /// Every component and resource, in the order they were added.
    pub fn stored(&self) -> (v: Vec<(usize, Stored)>)
        requires
            forall|k: int| 0 <= k < self.order@.len() ==> (#[trigger] self.order@[k]) < self.types@.len(),
        ensures
            v@ == stored_list(self.types@, self.order@),
    {
        let mut v: Vec<(usize, Stored)> = Vec::new();
        let mut i: usize = 0;
        while i < self.order.len()
            invariant
                i <= self.order@.len(),
                forall|k: int| 0 <= k < self.order@.len() ==> (#[trigger] self.order@[k]) < self.types@.len(),
                v@ == stored_list(self.types@, self.order@.take(i as int)),
            decreases self.order@.len() - i,
        {
            let id = self.order[i];
            proof {
                assert(self.order@.take(i + 1).drop_last() =~= self.order@.take(i as int));
                assert(self.order@.take(i + 1).last() == id);
            }
            if let Some(r) = self.types[id] {
                if let Some(st) = r.stored {
                    v.push((id, st));
                }
            }
            i += 1;
        }
        assert(self.order@.take(i as int) =~= self.order@);
        v
    }
}


/// A type in the catalog has no field of its own type: recursive types aren't taken.
pub proof fn lemma_no_recursive_field(tb: Seq<TypeDesc>, cat: Catalog, k: int, v: int, f: int)
    requires
        catalog_wf(tb, cat),
        0 <= k < cat.order@.len(),
        0 <= v < variant_count(tb[cat.order@[k] as int]),
        0 <= f < variant_fields(tb[cat.order@[k] as int], v).len(),
    ensures
        variant_fields(tb[cat.order@[k] as int], v)[f].ty != Some(cat.order@[k]),
{
    let t = cat.order@[k];
    let field = variant_fields(tb[t as int], v)[f];
    assert(field_usable(tb, cat.order@.take(k).to_set(), field));
    if field.ty == Some(t) {
        assert(cat.order@.take(k).to_set().contains(t));
        assert(cat.order@.take(k).contains(t));
        let i = choose|i: int| 0 <= i < k && cat.order@.take(k)[i] == t;
        assert(cat.order@[i] == cat.order@[k]);
    }
}

} // verus!
