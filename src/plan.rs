//! Serialization plans: what a type's layout compiles to, and how a plan
//! turns a value's field encodings into the value's encoding.

use vstd::prelude::*;
use crate::cell::extend_cells;
use crate::error::{SchemaError, SchemaFault};
use crate::layout::{is_literal_form, literal_form, parse_layout, parse_layout_spec, Directive, DirectiveView};

verus! {

/// One step of a plan.
#[derive(Clone, Debug, PartialEq, Eq)]
pub enum Step {
    /// Write this directive.
    Emit(String),
    /// Write the directives of the field at this position.
    Field(usize),
}

/// The mathematical form of a [`Step`].
pub enum StepView {
    Emit(Seq<char>),
    Field(nat),
}

impl DeepView for Step {
    type V = StepView;

    open spec fn deep_view(&self) -> StepView {
        match self {
            Step::Emit(t) => StepView::Emit(t@),
            Step::Field(i) => StepView::Field(*i as nat),
        }
    }
}

/// The fields of a product type or of a variant.
#[derive(Clone, Debug, PartialEq, Eq)]
pub enum Fields {
    /// Named fields, in declaration order.
    Named(Vec<String>),
    /// This many unnamed fields.
    Unnamed(usize),
    /// No field list at all.
    Unit,
}

/// The mathematical form of [`Fields`].
pub enum FieldsView {
    Named(Seq<Seq<char>>),
    Unnamed(nat),
    Unit,
}

impl DeepView for Fields {
    type V = FieldsView;

    open spec fn deep_view(&self) -> FieldsView {
        match self {
            Fields::Named(names) => FieldsView::Named(names.deep_view()),
            Fields::Unnamed(n) => FieldsView::Unnamed(*n as nat),
            Fields::Unit => FieldsView::Unit,
        }
    }
}

/// What a product type's layout compiles to.
#[derive(Clone, Debug, PartialEq, Eq)]
pub enum StructPlan {
    /// The value's single field, written with the variable-length encoding.
    VarUint16,
    /// These steps, in order.
    Steps(Vec<Step>),
}

/// The mathematical form of a [`StructPlan`].
pub enum StructPlanView {
    VarUint16,
    Steps(Seq<StepView>),
}

impl DeepView for StructPlan {
    type V = StructPlanView;

    open spec fn deep_view(&self) -> StructPlanView {
        match self {
            StructPlan::VarUint16 => StructPlanView::VarUint16,
            StructPlan::Steps(s) => StructPlanView::Steps(s.deep_view()),
        }
    }
}

/// The layout that asks for the variable-length encoding of a struct's one
/// unnamed field.
pub const VARUINT16_LAYOUT: &'static str = "__fundamental_varuint16";

/// `k` is the first position of `name` in `names`.
pub open spec fn first_position(names: Seq<Seq<char>>, name: Seq<char>, k: int) -> bool {
    &&& 0 <= k < names.len()
    &&& names[k] == name
    &&& forall|j: int| 0 <= j < k ==> names[j] != name
}

/// `names` holds `name`.
pub open spec fn has_field(names: Seq<Seq<char>>, name: Seq<char>) -> bool {
    exists|k: int| 0 <= k < names.len() && names[k] == name
}

/// The first position of `name` in `names`.
pub open spec fn field_index(names: Seq<Seq<char>>, name: Seq<char>) -> nat {
    (choose|k: int| first_position(names, name, k)) as nat
}

/// Resolves each directive against the field names: a literal of the form
/// `u <digits> <digits>bit` is emitted as written, a field name becomes the
/// position of that field; the first malformed literal or name that is not a
/// field fails.
pub open spec fn resolve_spec(ds: Seq<DirectiveView>, names: Seq<Seq<char>>) -> Result<
    Seq<StepView>,
    SchemaFault,
>
    decreases ds.len(),
{
    if ds.len() == 0 {
        Ok(Seq::empty())
    } else {
        match resolve_spec(ds.drop_last(), names) {
            Err(e) => Err(e),
            Ok(steps) => match ds.last() {
                DirectiveView::Literal(t) => if literal_form(t) {
                    Ok(steps.push(StepView::Emit(t)))
                } else {
                    Err(SchemaFault::MalformedSegment(t))
                },
                DirectiveView::FieldRef(n) => if has_field(names, n) {
                    Ok(steps.push(StepView::Field(field_index(names, n))))
                } else {
                    Err(SchemaFault::UnknownField(n))
                },
            },
        }
    }
}

/// The steps of a layout over the given fields.
pub open spec fn layout_steps(layout: Seq<char>, fields: FieldsView) -> Result<
    Seq<StepView>,
    SchemaFault,
> {
    match fields {
        FieldsView::Named(names) => resolve_spec(parse_layout_spec(layout), names),
        _ => Err(SchemaFault::NamedFieldsRequired),
    }
}

/// The plan of a product type with this layout and these fields.
pub open spec fn struct_plan_spec(layout: Seq<char>, fields: FieldsView) -> Result<
    StructPlanView,
    SchemaFault,
> {
    if layout == VARUINT16_LAYOUT@ {
        if fields == FieldsView::Unnamed(1) {
            Ok(StructPlanView::VarUint16)
        } else {
            Err(SchemaFault::VarUintShape)
        }
    } else {
        match layout_steps(layout, fields) {
            Ok(steps) => Ok(StructPlanView::Steps(steps)),
            Err(e) => Err(e),
        }
    }
}

/// The directives of one step, given the directives of each field.
pub open spec fn step_cells(step: StepView, fields: Seq<Seq<Seq<char>>>) -> Seq<Seq<char>> {
    match step {
        StepView::Emit(t) => seq![t],
        StepView::Field(i) => fields[i as int],
    }
}

/// The directives of a plan: those of its steps, concatenated in order.
pub open spec fn plan_cells(steps: Seq<StepView>, fields: Seq<Seq<Seq<char>>>) -> Seq<Seq<char>>
    decreases steps.len(),
{
    if steps.len() == 0 {
        Seq::empty()
    } else {
        plan_cells(steps.drop_last(), fields) + step_cells(steps.last(), fields)
    }
}

/// Every field step of the plan names one of `count` fields.
pub open spec fn plan_fits(steps: Seq<StepView>, count: nat) -> bool {
    forall|i: int|
        0 <= i < steps.len() ==> match #[trigger] steps[i] {
            StepView::Field(k) => k < count,
            StepView::Emit(_) => true,
        }
}

/// Every field step of the plan names one of the named fields.
pub open spec fn fits_fields(steps: Seq<StepView>, fields: FieldsView) -> bool {
    match fields {
        FieldsView::Named(names) => plan_fits(steps, names.len()),
        _ => false,
    }
}

proof fn lemma_first_position_unique(names: Seq<Seq<char>>, name: Seq<char>, k: int)
    requires
        first_position(names, name, k),
    ensures
        field_index(names, name) == k,
{
    let c = choose|j: int| first_position(names, name, j);
    assert(first_position(names, name, c));
    if c < k {
        assert(names[c] != name);
    } else if k < c {
        assert(names[k] != name);
    }
}

proof fn lemma_resolve_error_stays(ds: Seq<DirectiveView>, names: Seq<Seq<char>>, i: int)
    requires
        0 <= i <= ds.len(),
        resolve_spec(ds.take(i), names) is Err,
    ensures
        resolve_spec(ds, names) == resolve_spec(ds.take(i), names),
    decreases ds.len(),
{
    if i < ds.len() {
        assert(ds.drop_last().take(i) =~= ds.take(i));
        lemma_resolve_error_stays(ds.drop_last(), names, i);
    } else {
        assert(ds.take(i) =~= ds);
    }
}

proof fn lemma_resolved_fits(ds: Seq<DirectiveView>, names: Seq<Seq<char>>)
    requires
        resolve_spec(ds, names) is Ok,
    ensures
        plan_fits(resolve_spec(ds, names)->Ok_0, names.len()),
    decreases ds.len(),
{
    if ds.len() > 0 {
        lemma_resolved_fits(ds.drop_last(), names);
        if let DirectiveView::FieldRef(n) = ds.last() {
            let k = choose|k: int| 0 <= k < names.len() && names[k] == n;
            let c = choose|j: int| first_position(names, n, j);
            assert(first_position(names, n, c)) by {
                lemma_first_exists(names, n, k);
            }
        }
    }
}

proof fn lemma_first_exists(names: Seq<Seq<char>>, name: Seq<char>, k: int)
    requires
        0 <= k < names.len(),
        names[k] == name,
    ensures
        exists|j: int| first_position(names, name, j),
    decreases k,
{
    if exists|j: int| 0 <= j < k && names[j] == name {
        let j = choose|j: int| 0 <= j < k && names[j] == name;
        lemma_first_exists(names, name, j);
    } else {
        assert(first_position(names, name, k));
    }
}

/// The first position of `name` among `names`, if it is there.
pub fn find_field(names: &Vec<String>, name: &String) -> (r: Option<usize>)
    ensures
        r matches Some(k) ==> first_position(names.deep_view(), name@, k as int),
        r is None ==> !has_field(names.deep_view(), name@),
{
    let mut i: usize = 0;
    while i < names.len()
        invariant
            i <= names@.len(),
            forall|j: int| 0 <= j < i ==> names.deep_view()[j] != name@,
        decreases names@.len() - i,
    {
        if names[i] == *name {
            return Some(i);
        }
        i = i + 1;
    }
    None
}

/// Resolves each directive against the field names: a literal of the form
/// `u <digits> <digits>bit` is emitted as written and a field name becomes
/// the position of that field. Fails on the first malformed literal or name
/// that is not a field, naming it.
pub fn resolve_layout(directives: &Vec<Directive>, names: &Vec<String>) -> (r: Result<
    Vec<Step>,
    SchemaError,
>)
    ensures
        match r {
            Ok(steps) => resolve_spec(directives.deep_view(), names.deep_view()) == Ok::<
                Seq<StepView>,
                SchemaFault,
            >(steps.deep_view()),
            Err(e) => resolve_spec(directives.deep_view(), names.deep_view()) == Err::<
                Seq<StepView>,
                SchemaFault,
            >(e@),
        },
{
    let ghost ds = directives.deep_view();
    let ghost nm = names.deep_view();
    let mut steps: Vec<Step> = Vec::new();
    let mut i: usize = 0;
    proof {
        assert(ds.take(0) =~= Seq::<DirectiveView>::empty());
        assert(steps.deep_view() =~= Seq::<StepView>::empty());
    }
    while i < directives.len()
        invariant
            ds == directives.deep_view(),
            nm == names.deep_view(),
            i <= ds.len(),
            resolve_spec(ds.take(i as int), nm) == Ok::<Seq<StepView>, SchemaFault>(
                steps.deep_view(),
            ),
        decreases ds.len() - i,
    {
        assert(ds.take(i + 1).drop_last() =~= ds.take(i as int));
        assert(ds.take(i + 1).last() == directives[i as int].deep_view());
        let ghost before = steps.deep_view();
        match &directives[i] {
            Directive::Literal(t) => {
                if !is_literal_form(t.as_str()) {
                    proof {
                        lemma_resolve_error_stays(ds, nm, i + 1);
                    }
                    return Err(SchemaError::MalformedSegment(t.clone()));
                }
                steps.push(Step::Emit(t.clone()));
                assert(steps.deep_view() =~= before.push(StepView::Emit(t@)));
            },
            Directive::FieldRef(n) => {
                match find_field(names, n) {
                    Some(k) => {
                        proof {
                            lemma_first_position_unique(nm, n@, k as int);
                            assert(nm[k as int] == n@);
                        }
                        steps.push(Step::Field(k));
                        assert(steps.deep_view() =~= before.push(StepView::Field(k as nat)));
                    },
                    None => {
                        proof {
                            lemma_resolve_error_stays(ds, nm, i + 1);
                        }
                        return Err(SchemaError::UnknownField(n.clone()));
                    },
                }
            },
        }
        i = i + 1;
    }
    assert(ds.take(i as int) =~= ds);
    Ok(steps)
}

/// Whether two strings hold the same characters.
pub fn same_text(a: &str, b: &str) -> (r: bool)
    ensures
        r == (a@ == b@),
{
    let ca = crate::layout::chars_of(a);
    let cb = crate::layout::chars_of(b);
    if ca.len() != cb.len() {
        return false;
    }
    let mut i: usize = 0;
    while i < ca.len()
        invariant
            ca@ == a@,
            cb@ == b@,
            ca@.len() == cb@.len(),
            i <= ca@.len(),
            forall|j: int| 0 <= j < i ==> ca@[j] == cb@[j],
        decreases ca@.len() - i,
    {
        if ca[i] != cb[i] {
            return false;
        }
        i = i + 1;
    }
    assert(ca@ =~= cb@);
    true
}

/// Compiles the layout of a product type over its fields. The
/// variable-length layout needs exactly one unnamed field; any other layout
/// needs named fields, and every name in it must be one of them.
pub fn tlb_serializable(layout: &str, fields: &Fields) -> (r: Result<StructPlan, SchemaError>)
    ensures
        match r {
            Ok(p) => struct_plan_spec(layout@, fields.deep_view()) == Ok::<
                StructPlanView,
                SchemaFault,
            >(p.deep_view()),
            Err(e) => struct_plan_spec(layout@, fields.deep_view()) == Err::<
                StructPlanView,
                SchemaFault,
            >(e@),
        },
        r matches Ok(StructPlan::Steps(steps)) ==> fits_fields(steps.deep_view(), fields.deep_view()),
{
    if same_text(layout, VARUINT16_LAYOUT) {
        return match fields {
            Fields::Unnamed(n) => if *n == 1 {
                Ok(StructPlan::VarUint16)
            } else {
                Err(SchemaError::VarUintShape)
            },
            _ => Err(SchemaError::VarUintShape),
        };
    }
    match compile_steps(layout, fields) {
        Ok(steps) => Ok(StructPlan::Steps(steps)),
        Err(e) => Err(e),
    }
}

/// Compiles a layout made of directives over named fields.
pub fn compile_steps(layout: &str, fields: &Fields) -> (r: Result<Vec<Step>, SchemaError>)
    ensures
        match r {
            Ok(steps) => layout_steps(layout@, fields.deep_view()) == Ok::<
                Seq<StepView>,
                SchemaFault,
            >(steps.deep_view()),
            Err(e) => layout_steps(layout@, fields.deep_view()) == Err::<
                Seq<StepView>,
                SchemaFault,
            >(e@),
        },
        r matches Ok(steps) ==> fits_fields(steps.deep_view(), fields.deep_view()),
{
    match fields {
        Fields::Named(names) => {
            let directives = parse_layout(layout);
            let r = resolve_layout(&directives, names);
            proof {
                if r is Ok {
                    lemma_resolved_fits(directives.deep_view(), names.deep_view());
                }
            }
            r
        },
        _ => Err(SchemaError::NamedFieldsRequired),
    }
}

/// Appends copies of the directives of `src` to `out`.
fn append_copies(out: &mut Vec<String>, src: &Vec<String>)
    ensures
        final(out).deep_view() == old(out).deep_view() + src.deep_view(),
{
    let mut copies: Vec<String> = Vec::new();
    let mut i: usize = 0;
    assert(copies.deep_view() =~= src.deep_view().take(0));
    while i < src.len()
        invariant
            i <= src@.len(),
            copies.deep_view() == src.deep_view().take(i as int),
        decreases src@.len() - i,
    {
        let ghost before = copies.deep_view();
        copies.push(src[i].clone());
        assert(copies.deep_view() =~= before.push(src[i as int]@));
        i = i + 1;
        assert(copies.deep_view() =~= src.deep_view().take(i as int));
    }
    assert(src.deep_view().take(i as int) =~= src.deep_view());
    extend_cells(out, copies);
}

/// Runs a plan: writes each step in order, a literal as itself and a field
/// as that field's own directives.
pub fn run_plan(steps: &Vec<Step>, field_cells: &Vec<Vec<String>>) -> (r: Vec<String>)
    requires
        plan_fits(steps.deep_view(), field_cells@.len() as nat),
    ensures
        r.deep_view() == plan_cells(steps.deep_view(), field_cells.deep_view()),
{
    let ghost ss = steps.deep_view();
    let ghost fs = field_cells.deep_view();
    let mut out: Vec<String> = Vec::new();
    let mut i: usize = 0;
    proof {
        assert(ss.take(0) =~= Seq::<StepView>::empty());
    }
    while i < steps.len()
        invariant
            ss == steps.deep_view(),
            fs == field_cells.deep_view(),
            plan_fits(ss, field_cells@.len() as nat),
            i <= ss.len(),
            out.deep_view() == plan_cells(ss.take(i as int), fs),
        decreases ss.len() - i,
    {
        assert(ss.take(i + 1).drop_last() =~= ss.take(i as int));
        assert(ss.take(i + 1).last() == ss[i as int]);
        match &steps[i] {
            Step::Emit(t) => {
                out.push(t.clone());
            },
            Step::Field(k) => {
                assert(ss[i as int] == StepView::Field(*k as nat));
                append_copies(&mut out, &field_cells[*k]);
            },
        }
        i = i + 1;
        assert(out.deep_view() =~= plan_cells(ss.take(i as int), fs));
    }
    assert(ss.take(i as int) =~= ss);
    out
}

/// The directives that a layout stands for: each literal as written, each
/// field name replaced by that field's own directives, in the order written.
pub open spec fn expand_directives(
    ds: Seq<DirectiveView>,
    names: Seq<Seq<char>>,
    fields: Seq<Seq<Seq<char>>>,
) -> Seq<Seq<char>>
    decreases ds.len(),
{
    if ds.len() == 0 {
        Seq::empty()
    } else {
        expand_directives(ds.drop_last(), names, fields) + match ds.last() {
            DirectiveView::Literal(t) => seq![t],
            DirectiveView::FieldRef(n) => fields[field_index(names, n) as int],
        }
    }
}

proof fn lemma_resolved_cells(ds: Seq<DirectiveView>, names: Seq<Seq<char>>, fields: Seq<Seq<Seq<char>>>)
    requires
        resolve_spec(ds, names) is Ok,
    ensures
        plan_cells(resolve_spec(ds, names)->Ok_0, fields) == expand_directives(ds, names, fields),
    decreases ds.len(),
{
    if ds.len() > 0 {
        lemma_resolved_cells(ds.drop_last(), names, fields);
        let steps = resolve_spec(ds, names)->Ok_0;
        assert(steps.drop_last() =~= resolve_spec(ds.drop_last(), names)->Ok_0);
    }
}

/// A compiled layout writes its directives in the order written, each field
/// name replaced by that field's own directives.
pub proof fn layout_order_is_kept(layout: Seq<char>, names: Seq<Seq<char>>, fields: Seq<Seq<Seq<char>>>)
    requires
        layout_steps(layout, FieldsView::Named(names)) is Ok,
    ensures
        plan_cells(layout_steps(layout, FieldsView::Named(names))->Ok_0, fields)
            == expand_directives(parse_layout_spec(layout), names, fields),
{
    lemma_resolved_cells(parse_layout_spec(layout), names, fields);
}

/// The directives of two plans run one after the other are those of the
/// first followed by those of the second: concatenated, never interleaved.
pub proof fn plan_cells_concatenate(a: Seq<StepView>, b: Seq<StepView>, fields: Seq<Seq<Seq<char>>>)
    ensures
        plan_cells(a + b, fields) == plan_cells(a, fields) + plan_cells(b, fields),
    decreases b.len(),
{
    if b.len() == 0 {
        assert(a + b =~= a);
        assert(plan_cells(a, fields) + plan_cells(b, fields) =~= plan_cells(a, fields));
    } else {
        plan_cells_concatenate(a, b.drop_last(), fields);
        assert((a + b).drop_last() =~= a + b.drop_last());
        assert(plan_cells(a + b, fields) =~= plan_cells(a, fields) + plan_cells(b, fields));
    }
}

proof fn lemma_resolve_concat(d1: Seq<DirectiveView>, d2: Seq<DirectiveView>, names: Seq<Seq<char>>)
    ensures
        resolve_spec(d1 + d2, names) == match resolve_spec(d1, names) {
            Err(e) => Err(e),
            Ok(s1) => match resolve_spec(d2, names) {
                Err(e) => Err(e),
                Ok(s2) => Ok(s1 + s2),
            },
        },
    decreases d2.len(),
{
    if d2.len() == 0 {
        assert(d1 + d2 =~= d1);
        if let Ok(s1) = resolve_spec(d1, names) {
            assert(s1 + Seq::<StepView>::empty() =~= s1);
        }
    } else {
        lemma_resolve_concat(d1, d2.drop_last(), names);
        assert((d1 + d2).drop_last() =~= d1 + d2.drop_last());
        assert((d1 + d2).last() == d2.last());
        if let Ok(s1) = resolve_spec(d1, names) {
            if let Ok(s2) = resolve_spec(d2.drop_last(), names) {
                let y = resolve_spec(d2, names);
                if let Ok(s) = y {
                    assert(s1 + s =~= (s1 + s2).push(s.last()));
                }
            }
        }
    }
}

/// Splitting a layout at one of its commas splits what it writes at the
/// same point: the layout compiles exactly when both parts do, and it
/// writes the directives of the first part followed by those of the second.
pub proof fn layout_split_splits_output(
    first: Seq<char>,
    second: Seq<char>,
    names: Seq<Seq<char>>,
    fields: Seq<Seq<Seq<char>>>,
)
    ensures
        layout_steps(first + seq![','] + second, FieldsView::Named(names)) is Ok <==> (layout_steps(
            first,
            FieldsView::Named(names),
        ) is Ok && layout_steps(second, FieldsView::Named(names)) is Ok),
        layout_steps(first + seq![','] + second, FieldsView::Named(names)) is Ok ==> plan_cells(
            layout_steps(first + seq![','] + second, FieldsView::Named(names))->Ok_0,
            fields,
        ) == plan_cells(layout_steps(first, FieldsView::Named(names))->Ok_0, fields) + plan_cells(
            layout_steps(second, FieldsView::Named(names))->Ok_0,
            fields,
        ),
{
    crate::layout::parse_splits_at_comma(first, second);
    let d1 = parse_layout_spec(first);
    let d2 = parse_layout_spec(second);
    lemma_resolve_concat(d1, d2, names);
    if let Ok(s1) = resolve_spec(d1, names) {
        if let Ok(s2) = resolve_spec(d2, names) {
            plan_cells_concatenate(s1, s2, fields);
        }
    }
}

} // verus!
