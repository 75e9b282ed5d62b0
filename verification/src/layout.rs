//! Fixed-width analysis and the struct body: which field types have a
//! fixed-width layout, and the slots, retired names and layout verdict of a
//! struct.

use vstd::prelude::*;

use crate::check::BackingClass;
use crate::decls::{
    contains_str, lower_reserved, lowered_reserved, no_retired, push_at, record_reserved, reserved_view,
    reserved_wf, retire, Reserved, ReservedEntry, Retired,
};
use crate::diag::{diag_messages, diags_view, DiagCode, Diagnostic, Severity, DETACHED};
use crate::exact::{rat_eq, ExactValue};
use crate::resolve::{count_true, SDiag, SymbolKind};
use crate::syntax::TextRange;

verus! {

// ==========================================================================
// The shapes the analysis reads
// ==========================================================================

/// An array bound as written: a range `[min..max]` or a single count `[n]`;
/// whether a minimum is written, and the numeric values the written bounds
/// resolve to.
#[derive(Debug, PartialEq, Eq)]
pub struct ArrayBound {
    pub range: bool,
    pub min_written: bool,
    pub min: Option<ExactValue>,
    pub max: Option<ExactValue>,
}

/// A field type as the analysis reads it.
#[derive(Debug, PartialEq, Eq)]
pub enum FieldShape {
    Optional,
    Dictionary,
    Primitive(BackingClass),
    /// A named type: the index of the declaration it names in the table
    /// of declarations, when it names one.
    Named(Option<usize>),
    /// A tuple: each field's type, when written.
    Tuple(Vec<Option<FieldShape>>),
    /// An array: its bound and its element type, each when written.
    Array { bound: Option<ArrayBound>, element: Option<Box<FieldShape>> },
}

/// What a scalar type is backed by.
#[derive(Debug, Clone, Copy, PartialEq, Eq, Structural)]
pub enum TypeBacking {
    Unit,
    Primitive(BackingClass),
    Missing,
}

/// A declaration as the analysis reads it.
#[derive(Debug, PartialEq, Eq)]
pub enum DeclShape {
    /// An enum or an enum set.
    Enumeration,
    /// A scalar type and its backing.
    Type(TypeBacking),
    /// A struct: each member in order, `None` for a tombstone and
    /// `Some(ty)` for a field with its type when written. Its named types
    /// index the table as the struct's own package resolves them.
    Struct(Vec<Option<Option<FieldShape>>>),
    /// A union, a constant, an interface, or a declaration whose definition
    /// is not found.
    Other,
}

// ==========================================================================
// The rule
// ==========================================================================

/// Booleans, integers and floats have a fixed width; strings and bytes do
/// not, whatever their length bounds.
pub open spec fn class_fixed(c: BackingClass) -> bool {
    c == BackingClass::Boolean || c == BackingClass::Integer || c == BackingClass::Float
}

/// A bound fixes an array's length when it is a single count, or a range
/// whose two bounds resolve to the same number.
pub open spec fn bound_fixed(b: ArrayBound) -> bool {
    if !b.range {
        b.min_written
    } else {
        match (b.min, b.max) {
            (Some(x), Some(y)) => rat_eq(x.pair(), y.pair()),
            _ => false,
        }
    }
}

pub open spec fn backing_fixed(b: TypeBacking) -> bool {
    match b {
        TypeBacking::Unit => true,
        TypeBacking::Primitive(c) => class_fixed(c),
        TypeBacking::Missing => false,
    }
}

pub open spec fn measure(table: Seq<DeclShape>, visiting: Seq<bool>) -> int {
    table.len() - count_true(visiting)
}

/// Whether a field type is fixed-width, with the declarations in
/// `visiting` already being examined: an optional or a map is not; a
/// primitive is by its class; a tuple is when every field is; an array is
/// when its bound fixes its length and its element is fixed; a named type
/// is not when it names no declaration or one already being examined (a
/// recursive shape), and otherwise is by what it names — an enumeration
/// is, a scalar type is by its backing, a struct is when it has no
/// tombstone and every field is (examined with the struct added to
/// `visiting`), anything else is not.
pub open spec fn shape_fixed(table: Seq<DeclShape>, t: FieldShape, visiting: Seq<bool>) -> bool
    decreases measure(table, visiting), t, 0int,
{
    if visiting.len() != table.len() {
        false
    } else {
        match t {
            FieldShape::Optional | FieldShape::Dictionary => false,
            FieldShape::Primitive(c) => class_fixed(c),
            FieldShape::Named(None) => false,
            FieldShape::Named(Some(s)) => if s >= table.len() || visiting[s as int] {
                false
            } else {
                match table[s as int] {
                    DeclShape::Enumeration => true,
                    DeclShape::Type(b) => backing_fixed(b),
                    DeclShape::Struct(members) => {
                        proof {
                            crate::resolve::lemma_count_true_set(visiting, s as int);
                            crate::resolve::lemma_count_true_bound(visiting.update(s as int, true));
                        }
                        members_fixed(table, members@, members@.len() as int, visiting.update(s as int, true))
                    },
                    DeclShape::Other => false,
                }
            },
            FieldShape::Tuple(fields) => fields_fixed(table, fields@, fields@.len() as int, visiting),
            FieldShape::Array { bound, element } => (bound matches Some(b) && bound_fixed(b)) && match element {
                Some(e) => shape_fixed(table, *e, visiting),
                None => false,
            },
        }
    }
}

/// Whether the first `k` fields of a tuple each have a type, and a fixed
/// one.
pub open spec fn fields_fixed(table: Seq<DeclShape>, fields: Seq<Option<FieldShape>>, k: int, visiting: Seq<bool>) -> bool
    decreases measure(table, visiting), fields, k,
{
    if k <= 0 || k > fields.len() {
        k <= 0
    } else {
        fields_fixed(table, fields, k - 1, visiting) && match fields[k - 1] {
            Some(f) => shape_fixed(table, f, visiting),
            None => false,
        }
    }
}

/// Whether the first `k` members of a struct are all fields with a fixed
/// type.
pub open spec fn members_fixed(
    table: Seq<DeclShape>,
    members: Seq<Option<Option<FieldShape>>>,
    k: int,
    visiting: Seq<bool>,
) -> bool
    decreases measure(table, visiting), members, k,
{
    if k <= 0 || k > members.len() {
        k <= 0
    } else {
        members_fixed(table, members, k - 1, visiting) && match members[k - 1] {
            Some(Some(f)) => shape_fixed(table, f, visiting),
            _ => false,
        }
    }
}

// ==========================================================================
// Well-formedness: the exact values of array bounds are usable
// ==========================================================================

pub open spec fn array_bound_wf(b: Option<ArrayBound>) -> bool {
    b matches Some(x) ==> (x.min matches Some(v) ==> v.wf()) && (x.max matches Some(v) ==> v.wf())
}

pub open spec fn shape_wf(t: FieldShape) -> bool
    decreases t, 0int,
{
    match t {
        FieldShape::Tuple(fields) => fields_wf(fields@, fields@.len() as int),
        FieldShape::Array { bound, element } => array_bound_wf(bound) && match element {
            Some(e) => shape_wf(*e),
            None => true,
        },
        _ => true,
    }
}

pub open spec fn fields_wf(fields: Seq<Option<FieldShape>>, k: int) -> bool
    decreases fields, k,
{
    if k <= 0 || k > fields.len() {
        true
    } else {
        fields_wf(fields, k - 1) && match fields[k - 1] {
            Some(f) => shape_wf(f),
            None => true,
        }
    }
}

pub open spec fn struct_members_wf(members: Seq<Option<Option<FieldShape>>>, k: int) -> bool
    decreases k,
{
    if k <= 0 || k > members.len() {
        true
    } else {
        struct_members_wf(members, k - 1) && match members[k - 1] {
            Some(Some(f)) => shape_wf(f),
            _ => true,
        }
    }
}

pub open spec fn table_wf(table: Seq<DeclShape>) -> bool {
    forall|i: int|
        0 <= i < table.len() ==> (#[trigger] table[i] matches DeclShape::Struct(ms) ==> struct_members_wf(
            ms@,
            ms@.len() as int,
        ))
}

proof fn lemma_fields_wf_at(fields: Seq<Option<FieldShape>>, k: int, i: int)
    requires
        fields_wf(fields, k),
        0 <= i < k <= fields.len(),
    ensures
        fields[i] matches Some(f) ==> shape_wf(f),
    decreases k,
{
    if i < k - 1 {
        lemma_fields_wf_at(fields, k - 1, i);
    }
}

proof fn lemma_members_wf_at(members: Seq<Option<Option<FieldShape>>>, k: int, i: int)
    requires
        struct_members_wf(members, k),
        0 <= i < k <= members.len(),
    ensures
        members[i] matches Some(Some(f)) ==> shape_wf(f),
    decreases k,
{
    if i < k - 1 {
        lemma_members_wf_at(members, k - 1, i);
    }
}

proof fn lemma_fields_false_stays(
    table: Seq<DeclShape>,
    fields: Seq<Option<FieldShape>>,
    a: int,
    b: int,
    visiting: Seq<bool>,
)
    requires
        0 <= a <= b <= fields.len(),
        !fields_fixed(table, fields, a, visiting),
    ensures
        !fields_fixed(table, fields, b, visiting),
    decreases b - a,
{
    if a < b {
        lemma_fields_false_stays(table, fields, a, b - 1, visiting);
    }
}

proof fn lemma_members_false_stays(
    table: Seq<DeclShape>,
    members: Seq<Option<Option<FieldShape>>>,
    a: int,
    b: int,
    visiting: Seq<bool>,
)
    requires
        0 <= a <= b <= members.len(),
        !members_fixed(table, members, a, visiting),
    ensures
        !members_fixed(table, members, b, visiting),
    decreases b - a,
{
    if a < b {
        lemma_members_false_stays(table, members, a, b - 1, visiting);
    }
}

// ==========================================================================
// The analysis
// ==========================================================================

/// Whether an array bound fixes the array's length ([`bound_fixed`]).
pub fn bound_is_fixed(b: &ArrayBound) -> (r: bool)
    requires
        array_bound_wf(Some(*b)),
    ensures
        r == bound_fixed(*b),
{
    if !b.range {
        return b.min_written;
    }
    match (&b.min, &b.max) {
        (Some(x), Some(y)) => x.equals(y),
        _ => false,
    }
}

fn class_is_fixed(c: BackingClass) -> (r: bool)
    ensures
        r == class_fixed(c),
{
    match c {
        BackingClass::Boolean | BackingClass::Integer | BackingClass::Float => true,
        _ => false,
    }
}

/// Whether a field type is fixed-width with the declarations of
/// `visiting` already being examined ([`shape_fixed`]); `visiting` is
/// given back as it came.
fn shape_is_fixed(table: &[DeclShape], t: &FieldShape, visiting: &mut Vec<bool>) -> (r: bool)
    requires
        old(visiting)@.len() == table.len(),
        table_wf(table@),
        shape_wf(*t),
    ensures
        final(visiting)@ == old(visiting)@,
        r == shape_fixed(table@, *t, old(visiting)@),
    decreases measure(table@, old(visiting)@), *t, 0int,
{
    let ghost vis0 = visiting@;
    proof {
        crate::resolve::lemma_count_true_bound(vis0);
    }
    match t {
        FieldShape::Optional | FieldShape::Dictionary => false,
        FieldShape::Primitive(c) => class_is_fixed(*c),
        FieldShape::Named(None) => false,
        FieldShape::Named(Some(s)) => {
            let s = *s;
            if s >= table.len() || visiting[s] {
                return false;
            }
            match &table[s] {
                DeclShape::Enumeration => true,
                DeclShape::Type(b) => match b {
                    TypeBacking::Unit => true,
                    TypeBacking::Primitive(c) => class_is_fixed(*c),
                    TypeBacking::Missing => false,
                },
                DeclShape::Other => false,
                DeclShape::Struct(members) => {
                    proof {
                        assert(table@[s as int] matches DeclShape::Struct(ms) ==> struct_members_wf(
                            ms@,
                            ms@.len() as int,
                        ));
                        crate::resolve::lemma_count_true_set(vis0, s as int);
                        crate::resolve::lemma_count_true_bound(vis0.update(s as int, true));
                    }
                    visiting.set(s, true);
                    let ghost inner = visiting@;
                    assert(inner == vis0.update(s as int, true));
                    let mut k: usize = 0;
                    while k < members.len()
                        invariant
                            k <= members.len(),
                            table_wf(table@),
                            s < table.len(),
                            table@[s as int] == DeclShape::Struct(*members),
                            struct_members_wf(members@, members@.len() as int),
                            visiting@ == inner,
                            vis0 == old(visiting)@,
                            vis0.len() == table.len(),
                            *t == FieldShape::Named(Some(s)),
                            !vis0[s as int],
                            inner == vis0.update(s as int, true),
                            inner.len() == table.len(),
                            measure(table@, inner) < measure(table@, vis0),
                            measure(table@, inner) >= 0,
                            members_fixed(table@, members@, k as int, inner),
                        decreases members.len() - k,
                    {
                        proof {
                            lemma_members_wf_at(members@, members@.len() as int, k as int);
                        }
                        let ok = match &members[k] {
                            Some(Some(f)) => shape_is_fixed(table, f, visiting),
                            _ => false,
                        };
                        if !ok {
                            proof {
                                lemma_members_false_stays(table@, members@, k + 1, members@.len() as int, inner);
                            }
                            visiting.set(s, false);
                            assert(visiting@ =~= vis0);
                            return false;
                        }
                        k = k + 1;
                    }
                    visiting.set(s, false);
                    assert(visiting@ =~= vis0);
                    true
                },
            }
        },
        FieldShape::Tuple(fields) => {
            let mut k: usize = 0;
            while k < fields.len()
                invariant
                    k <= fields.len(),
                    table_wf(table@),
                    *t == FieldShape::Tuple(*fields),
                    fields_wf(fields@, fields@.len() as int),
                    visiting@ == vis0,
                    vis0 == old(visiting)@,
                    vis0.len() == table.len(),
                    fields_fixed(table@, fields@, k as int, vis0),
                decreases fields.len() - k,
            {
                proof {
                    lemma_fields_wf_at(fields@, fields@.len() as int, k as int);
                }
                let ok = match &fields[k] {
                    Some(f) => {
                        proof {
                            assert((*t)->Tuple_0 == *fields);
                            assert(decreases_to!(*t => (*t)->Tuple_0));
                            assert(decreases_to!(*fields => fields@));
                            assert(decreases_to!(fields@ => fields@[k as int]));
                            assert(decreases_to!(*t => fields@[k as int]));
                        }
                        shape_is_fixed(table, f, visiting)
                    },
                    None => false,
                };
                if !ok {
                    proof {
                        lemma_fields_false_stays(table@, fields@, k + 1, fields@.len() as int, vis0);
                    }
                    return false;
                }
                k = k + 1;
            }
            true
        },
        FieldShape::Array { bound, element } => {
            let fixed_bound = match bound {
                Some(b) => bound_is_fixed(b),
                None => false,
            };
            if !fixed_bound {
                return false;
            }
            match element {
                Some(e) => shape_is_fixed(table, e, visiting),
                None => false,
            }
        },
    }
}

/// Whether a field type is fixed-width ([`shape_fixed`], with nothing yet
/// being examined). `table` holds every declaration the field type can
/// reach.
pub fn field_type_is_fixed(table: &[DeclShape], t: &FieldShape) -> (r: bool)
    requires
        table_wf(table@),
        shape_wf(*t),
    ensures
        r == shape_fixed(table@, *t, Seq::new(table.len() as nat, |i: int| false)),
{
    let mut visiting: Vec<bool> = Vec::new();
    while visiting.len() < table.len()
        invariant
            visiting.len() <= table.len(),
            forall|i: int| 0 <= i < visiting.len() ==> !visiting@[i],
        decreases table.len() - visiting.len(),
    {
        visiting.push(false);
    }
    assert(visiting@ =~= Seq::new(table.len() as nat, |i: int| false));
    shape_is_fixed(table, t, &mut visiting)
}

// ==========================================================================
// Struct bodies
// ==========================================================================

/// One member of a struct body as written: a `reserved` tombstone, or a
/// field with its name (if recovered), the range of the name, and its type
/// (when written).
#[derive(Debug, PartialEq, Eq)]
pub enum StructMember {
    Reserved(ReservedEntry),
    Field { name: Option<String>, name_range: TextRange, ty: Option<FieldShape> },
}

pub open spec fn struct_member_wf(m: StructMember) -> bool {
    match m {
        StructMember::Reserved(e) => reserved_wf(e),
        StructMember::Field { ty, .. } => ty matches Some(t) ==> shape_wf(t),
    }
}

/// A lowered struct member: a tombstone in its slot, or a field's name
/// (empty when missing) and ordinal.
#[derive(Debug, PartialEq, Eq)]
pub enum StructSlot {
    Reserved(Reserved),
    Field { name: String, ordinal: u32 },
}

/// The model of a [`StructSlot`].
pub enum SStructSlot {
    Reserved((u32, Option<Seq<char>>, Option<i64>)),
    Field(Seq<char>, u32),
}

pub open spec fn struct_slot_view(s: StructSlot) -> SStructSlot {
    match s {
        StructSlot::Reserved(r) => SStructSlot::Reserved(reserved_view(r)),
        StructSlot::Field { name, ordinal } => SStructSlot::Field(name@, ordinal),
    }
}

pub open spec fn struct_slots_view(v: Seq<StructSlot>) -> Seq<SStructSlot> {
    v.map_values(|s: StructSlot| struct_slot_view(s))
}

/// A lowered struct body: its members in order, and whether it is emitted
/// as a fixed inline layout.
#[derive(Debug, PartialEq, Eq)]
pub struct StructLayout {
    pub members: Vec<StructSlot>,
    pub fixed_layout: bool,
}

/// The tombstones among the first `n` members, recorded in order.
pub open spec fn struct_retired(members: Seq<StructMember>, n: int) -> Retired
    decreases n,
{
    if n <= 0 {
        no_retired()
    } else {
        let acc = struct_retired(members, n - 1);
        match members[n - 1] {
            StructMember::Reserved(e) => retire(acc, e),
            _ => acc,
        }
    }
}

pub open spec fn nothing_visited(table: Seq<DeclShape>) -> Seq<bool> {
    Seq::new(table.len() as nat, |i: int| false)
}

/// Whether a member keeps the struct a fixed layout: a tombstone (an
/// evolved struct) does not; a field does when its type is written and
/// fixed-width.
pub open spec fn member_keeps_fixed(table: Seq<DeclShape>, m: StructMember) -> bool {
    match m {
        StructMember::Reserved(_) => false,
        StructMember::Field { ty, .. } => match ty {
            Some(t) => shape_fixed(table, t, nothing_visited(table)),
            None => false,
        },
    }
}

/// The first `n` members of a struct body: each takes the next ordinal; a
/// tombstone lowers into its slot; a field lowers by name and draws TYPL-210
/// at its name when a tombstone of the body retires that name. The layout
/// stays fixed while every member keeps it fixed
/// ([`member_keeps_fixed`]).
pub open spec fn struct_fold(
    table: Seq<DeclShape>,
    members: Seq<StructMember>,
    n: int,
    retired: Retired,
) -> (Seq<SStructSlot>, bool, Seq<SDiag>)
    decreases n,
{
    if n <= 0 {
        (Seq::empty(), true, retired.diags)
    } else {
        let (slots, fixed, diags) = struct_fold(table, members, n - 1, retired);
        let keeps = member_keeps_fixed(table, members[n - 1]);
        match members[n - 1] {
            StructMember::Reserved(e) => (
                slots.push(SStructSlot::Reserved(lowered_reserved(e, n as u32))),
                fixed && keeps,
                diags,
            ),
            StructMember::Field { name, name_range, .. } => {
                let text = match name {
                    Some(x) => x@,
                    None => Seq::empty(),
                };
                let d = if name is Some && retired.names.contains(text) {
                    seq![(DiagCode::TYPL_210, Severity::Error, DETACHED, name_range)]
                } else {
                    Seq::empty()
                };
                (slots.push(SStructSlot::Field(text, n as u32)), fixed && keeps, diags + d)
            },
        }
    }
}

/// The messages of the tombstone pre-pass over the first `n` struct members.
pub open spec fn struct_retired_messages(members: Seq<StructMember>, n: int) -> Seq<Seq<char>>
    decreases n,
{
    if n <= 0 {
        Seq::empty()
    } else {
        struct_retired_messages(members, n - 1) + match members[n - 1] {
            StructMember::Reserved(e) => crate::decls::retire_messages(struct_retired(members, n - 1), e),
            _ => Seq::empty(),
        }
    }
}

/// The messages of [`struct_fold`]'s TYPL-210 findings: each names the field.
pub open spec fn struct_field_messages(members: Seq<StructMember>, n: int, retired: Retired) -> Seq<Seq<char>>
    decreases n,
{
    if n <= 0 {
        Seq::empty()
    } else {
        struct_field_messages(members, n - 1, retired) + match members[n - 1] {
            StructMember::Field { name: Some(x), .. } => if retired.names.contains(x@) {
                seq!["field `"@ + x@ + "` re-declares a `reserved` name"@]
            } else {
                Seq::empty()
            },
            _ => Seq::empty(),
        }
    }
}

/// Lowers a struct body: its tombstones are recorded first (TYPL-211 for a
/// name or value retired twice), then its members lower in order
/// ([`struct_fold`]). The struct is a fixed layout when it has at least one
/// member and every member keeps it fixed. `table` holds every declaration
/// the field types can reach.
pub fn lower_struct(table: &[DeclShape], members: &[StructMember]) -> (r: (StructLayout, Vec<Diagnostic>))
    requires
        members.len() < u32::MAX,
        table_wf(table@),
        forall|i: int| 0 <= i < members.len() ==> struct_member_wf(#[trigger] members@[i]),
    ensures
        ({
            let f = struct_fold(table@, members@, members.len() as int, struct_retired(members@, members.len() as int));
            &&& struct_slots_view(r.0.members@) == f.0
            &&& r.0.fixed_layout == (f.1 && members.len() > 0)
            &&& diags_view(r.1@) == f.2
            &&& diag_messages(r.1@) == struct_retired_messages(members@, members.len() as int)
                + struct_field_messages(members@, members.len() as int, struct_retired(members@, members.len() as int))
        }),
{
    let mut names: Vec<String> = Vec::new();
    let mut values: Vec<i64> = Vec::new();
    let mut out: Vec<Diagnostic> = Vec::new();
    let mut i: usize = 0;
    assert(crate::expr::strs_view(names@) =~= Seq::empty());
    assert(diags_view(out@) =~= Seq::empty());
    assert(diag_messages(out@) =~= Seq::empty());
    while i < members.len()
        invariant
            i <= members.len(),
            forall|j: int| 0 <= j < members.len() ==> struct_member_wf(#[trigger] members@[j]),
            crate::expr::strs_view(names@) == struct_retired(members@, i as int).names,
            values@ == struct_retired(members@, i as int).values,
            diags_view(out@) == struct_retired(members@, i as int).diags,
            diag_messages(out@) == struct_retired_messages(members@, i as int),
        decreases members.len() - i,
    {
        assert(struct_member_wf(members@[i as int]));
        let ghost before_messages = diag_messages(out@);
        if let StructMember::Reserved(entry) = &members[i] {
            record_reserved(entry, &mut names, &mut values, &mut out);
        } else {
            assert(diag_messages(out@) =~= before_messages + Seq::<Seq<char>>::empty());
        }
        i = i + 1;
    }
    let ghost retired = struct_retired(members@, members.len() as int);
    let ghost retired_messages = diag_messages(out@);
    let mut slots: Vec<StructSlot> = Vec::new();
    let mut fixed = true;
    let mut ordinal: u32 = 0;
    let mut k: usize = 0;
    assert(struct_slots_view(slots@) =~= Seq::empty());
    while k < members.len()
        invariant
            k <= members.len() < u32::MAX,
            table_wf(table@),
            forall|j: int| 0 <= j < members.len() ==> struct_member_wf(#[trigger] members@[j]),
            crate::expr::strs_view(names@) == retired.names,
            ordinal == k,
            ({
                let f = struct_fold(table@, members@, k as int, retired);
                &&& struct_slots_view(slots@) == f.0
                &&& fixed == f.1
                &&& diags_view(out@) == f.2
            }),
            diag_messages(out@) == retired_messages + struct_field_messages(members@, k as int, retired),
        decreases members.len() - k,
    {
        assert(struct_member_wf(members@[k as int]));
        ordinal = ordinal + 1;
        let ghost before_slots = struct_slots_view(slots@);
        match &members[k] {
            StructMember::Reserved(entry) => {
                let lowered = lower_reserved(entry, ordinal);
                slots.push(StructSlot::Reserved(lowered));
                fixed = false;
                assert(struct_slots_view(slots@) =~= before_slots.push(
                    SStructSlot::Reserved(lowered_reserved(*entry, ordinal)),
                ));
            },
            StructMember::Field { name, name_range, ty } => {
                let text = match name {
                    Some(n) => {
                        if contains_str(&names, n.as_str()) {
                            let mut message = String::from_str("field `");
                            message.append(n.as_str());
                            message.append("` re-declares a `reserved` name");
                            push_at(&mut out, DiagCode::TYPL_210, Severity::Error, *name_range, message);
                        }
                        n.clone()
                    },
                    None => String::new(),
                };
                let keeps = match ty {
                    Some(t) => field_type_is_fixed(table, t),
                    None => false,
                };
                fixed = fixed && keeps;
                let ghost text_view = text@;
                slots.push(StructSlot::Field { name: text, ordinal });
                assert(struct_slots_view(slots@) =~= before_slots.push(SStructSlot::Field(text_view, ordinal)));
            },
        }
        assert(diag_messages(out@) =~= retired_messages + struct_field_messages(members@, k + 1, retired));
        k = k + 1;
    }
    (StructLayout { members: slots, fixed_layout: fixed && ordinal > 0 }, out)
}

// ==========================================================================
// Collections
// ==========================================================================

/// The length bound of an array or a map as written: a range `[min..max]`
/// or a single count `[n]`, with the numeric values the written bounds
/// resolve to.
#[derive(Debug, PartialEq, Eq)]
pub struct CollectionBound {
    pub range: bool,
    pub min: Option<ExactValue>,
    pub max: Option<ExactValue>,
}

pub open spec fn collection_bound_wf(b: Option<CollectionBound>) -> bool {
    b matches Some(x) ==> (x.min matches Some(v) ==> v.wf()) && (x.max matches Some(v) ==> v.wf())
}

/// A bound's value as a count: a non-negative integer that fits in `u64`.
pub open spec fn count_of(v: Option<ExactValue>) -> Option<u64> {
    match v {
        Some(x) => if x.denom() == 1 && 0 <= x.numer() <= u64::MAX {
            Some(x.numer() as u64)
        } else {
            None
        },
        None => None,
    }
}

/// The length bounds of a collection, and whether it lacks an upper bound:
/// no bound at all is `(0, 0)` and unbounded; a range is its minimum count
/// (0 when it is none) and its maximum count, unbounded when the maximum is
/// not a count (an open `[0..]`), with 0 for the maximum then; a single
/// count `n` is `(n, n)` (0 when it is none).
pub open spec fn collection_bounds_rule(b: Option<CollectionBound>) -> (u64, u64, bool) {
    match b {
        None => (0, 0, true),
        Some(x) => {
            let min = match count_of(x.min) {
                Some(m) => m,
                None => 0,
            };
            if x.range {
                match count_of(x.max) {
                    Some(m) => (min, m, false),
                    None => (min, 0, true),
                }
            } else {
                (min, min, false)
            }
        },
    }
}

fn count_value(v: &Option<ExactValue>) -> (r: Option<u64>)
    requires
        v matches Some(x) ==> x.wf(),
    ensures
        r == count_of(*v),
{
    match v {
        Some(x) => crate::check::exact_to_u64(x),
        None => None,
    }
}

/// The length bounds of an array (`code` TYPL-201, `what` `array`) or a map
/// (TYPL-202, `map`) standing at `span` ([`collection_bounds_rule`]), and the
/// error at `span` when it has no upper bound.
pub fn collection_bounds(bound: &Option<CollectionBound>, span: TextRange, code: DiagCode, what: &str) -> (r: (
    u64,
    u64,
    Option<Diagnostic>,
))
    requires
        collection_bound_wf(*bound),
    ensures
        (r.0, r.1) == (collection_bounds_rule(*bound).0, collection_bounds_rule(*bound).1),
        r.2 is Some <==> collection_bounds_rule(*bound).2,
        r.2 matches Some(d) ==> d.code == code && d.severity == Severity::Error && d.range == span && d.file
            == DETACHED && d.message@ == what@ + " without explicit bounds"@,
{
    let unbounded = |what: &str| -> (d: Diagnostic)
        ensures
            d.code == code && d.severity == Severity::Error && d.range == span && d.file == DETACHED
                && d.message@ == what@ + " without explicit bounds"@,
        {
            let mut message = String::from_str(what);
            message.append(" without explicit bounds");
            Diagnostic { code, severity: Severity::Error, message, file: DETACHED, range: span }
        };
    match bound {
        None => (0, 0, Some(unbounded(what))),
        Some(b) => {
            let min = match count_value(&b.min) {
                Some(m) => m,
                None => 0,
            };
            if b.range {
                match count_value(&b.max) {
                    Some(max) => (min, max, None),
                    None => (min, 0, Some(unbounded(what))),
                }
            } else {
                (min, min, None)
            }
        },
    }
}

/// A map's key as written.
#[derive(Debug, PartialEq, Eq)]
pub enum MapKey {
    /// A primitive keyword.
    Primitive,
    /// A named type: where it stands, and the declaration it resolves to as
    /// a type — its name, kind, and whether it is a scalar type backed by the
    /// `string` primitive — when it resolves.
    Named { range: TextRange, resolved: Option<(String, SymbolKind, bool)> },
    /// Any other field type, where it stands.
    Other(TextRange),
}

/// TYPL-209: a map key must be a primitive or a named string type. A named
/// key that resolves to anything but a `string`-backed scalar type, and a
/// key of another shape, draw it at the key; an unresolved name is
/// reported by type resolution instead.
pub open spec fn map_key_rule(k: MapKey) -> Option<TextRange> {
    match k {
        MapKey::Primitive => None,
        MapKey::Named { range, resolved: Some((_, kind, string_backed)) } => if kind == SymbolKind::Type
            && string_backed {
            None
        } else {
            Some(range)
        },
        MapKey::Named { resolved: None, .. } => None,
        MapKey::Other(range) => Some(range),
    }
}

/// Checks a map key ([`map_key_rule`]).
pub fn check_map_key(key: &MapKey) -> (r: Option<Diagnostic>)
    ensures
        match map_key_rule(*key) {
            Some(range) => r matches Some(d) && d.code == DiagCode::TYPL_209 && d.severity == Severity::Error
                && d.range == range && d.file == DETACHED && d.message@ == match key {
                MapKey::Named { resolved: Some((name, _, _)), .. } => "map key `"@ + name@
                    + "` is not a named string type or a primitive"@,
                _ => "map key is not a named string type or a primitive"@,
            },
            None => r is None,
        },
{
    match key {
        MapKey::Primitive => None,
        MapKey::Named { range, resolved: Some((name, kind, string_backed)) } => {
            if *kind == SymbolKind::Type && *string_backed {
                None
            } else {
                let mut message = String::from_str("map key `");
                message.append(name.as_str());
                message.append("` is not a named string type or a primitive");
                Some(Diagnostic { code: DiagCode::TYPL_209, severity: Severity::Error, message, file: DETACHED, range: *range })
            }
        },
        MapKey::Named { resolved: None, .. } => None,
        MapKey::Other(range) => Some(
            Diagnostic {
                code: DiagCode::TYPL_209,
                severity: Severity::Error,
                message: String::from_str("map key is not a named string type or a primitive"),
                file: DETACHED,
                range: *range,
            },
        ),
    }
}

} // verus!
