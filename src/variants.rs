//! Sum types: the tag policy, the numbering of the variants, and the plan of
//! each variant with its tag.

use vstd::prelude::*;
use crate::cell::extend_cells;
use crate::error::{SchemaError, SchemaFault};
use crate::literal::{int_literal_value, is_plain_literal_text, plain_literal_text, read_int_literal};
use crate::plan::{
    compile_steps, fits_fields, layout_steps, plan_cells, plan_fits, run_plan, same_text, Fields,
    FieldsView, Step, StepView, VARUINT16_LAYOUT,
};
use crate::text::{bit_limit, directive, fits_in_bits, write_directive};

verus! {

/// How the variants of a sum type are told apart on the wire.
#[derive(Clone, Copy, Debug, PartialEq, Eq, Structural)]
pub enum TagPolicy {
    /// Each variant starts with its discriminant, written in this many bits.
    Wanted(u32),
    /// The variants' own layouts are trusted to start with tags that no two
    /// variants share; nothing is added and nothing is checked.
    NotWanted,
}

/// A declaration on a sum type.
#[derive(Clone, Debug, PartialEq, Eq)]
pub enum EnumAttr {
    /// An assertion that the author vouches for; `items_prefixes_nonoverlap`
    /// asks for [`TagPolicy::NotWanted`], any other is ignored.
    AssertUnsafe(String),
    /// A representation of this many bits: asks for [`TagPolicy::Wanted`].
    Repr(u32),
    /// Any other declaration, which the compiler ignores.
    Other,
}

/// The mathematical form of an [`EnumAttr`].
pub enum EnumAttrView {
    AssertUnsafe(Seq<char>),
    Repr(u32),
    Other,
}

impl DeepView for EnumAttr {
    type V = EnumAttrView;

    open spec fn deep_view(&self) -> EnumAttrView {
        match self {
            EnumAttr::AssertUnsafe(a) => EnumAttrView::AssertUnsafe(a@),
            EnumAttr::Repr(w) => EnumAttrView::Repr(*w),
            EnumAttr::Other => EnumAttrView::Other,
        }
    }
}

/// A variant as declared.
#[derive(Clone, Debug, PartialEq, Eq)]
pub struct VariantDecl {
    pub name: String,
    pub fields: Fields,
    /// The layouts given to the variant; exactly one is expected.
    pub layouts: Vec<String>,
    /// The explicit discriminant, as the integer literal written.
    pub discriminant: Option<String>,
}

/// The mathematical form of a [`VariantDecl`].
pub struct VariantDeclView {
    pub name: Seq<char>,
    pub fields: FieldsView,
    pub layouts: Seq<Seq<char>>,
    pub discriminant: Option<Seq<char>>,
}

impl DeepView for VariantDecl {
    type V = VariantDeclView;

    open spec fn deep_view(&self) -> VariantDeclView {
        VariantDeclView {
            name: self.name@,
            fields: self.fields.deep_view(),
            layouts: self.layouts.deep_view(),
            discriminant: match self.discriminant {
                Some(t) => Some(t@),
                None => None,
            },
        }
    }
}

/// What a variant compiles to.
#[derive(Clone, Debug, PartialEq, Eq)]
pub struct VariantPlan {
    pub name: String,
    pub discriminant: u64,
    pub steps: Vec<Step>,
}

/// The mathematical form of a [`VariantPlan`].
pub struct VariantPlanView {
    pub name: Seq<char>,
    pub discriminant: nat,
    pub steps: Seq<StepView>,
}

impl DeepView for VariantPlan {
    type V = VariantPlanView;

    open spec fn deep_view(&self) -> VariantPlanView {
        VariantPlanView {
            name: self.name@,
            discriminant: self.discriminant as nat,
            steps: self.steps.deep_view(),
        }
    }
}

/// What a sum type compiles to: its tag policy and one plan per variant, in
/// declaration order.
#[derive(Clone, Debug, PartialEq, Eq)]
pub struct EnumPlan {
    pub policy: TagPolicy,
    pub variants: Vec<VariantPlan>,
}

/// The mathematical form of an [`EnumPlan`].
pub struct EnumPlanView {
    pub policy: TagPolicy,
    pub variants: Seq<VariantPlanView>,
}

impl DeepView for EnumPlan {
    type V = EnumPlanView;

    open spec fn deep_view(&self) -> EnumPlanView {
        EnumPlanView { policy: self.policy, variants: self.variants.deep_view() }
    }
}

/// The assertion that the variants' own layouts keep their tags apart.
pub const NONOVERLAP_ASSERTION: &'static str = "items_prefixes_nonoverlap";

/// The policy that the declarations ask for so far: `None` while none has.
/// A second request of either kind is a conflict.
pub open spec fn policy_so_far(attrs: Seq<EnumAttrView>) -> Result<Option<TagPolicy>, SchemaFault>
    decreases attrs.len(),
{
    if attrs.len() == 0 {
        Ok(None)
    } else {
        match policy_so_far(attrs.drop_last()) {
            Err(e) => Err(e),
            Ok(p) => match attrs.last() {
                EnumAttrView::AssertUnsafe(a) => if a == NONOVERLAP_ASSERTION@ {
                    if p is Some {
                        Err(SchemaFault::ConflictingTagPolicy)
                    } else {
                        Ok(Some(TagPolicy::NotWanted))
                    }
                } else {
                    Ok(p)
                },
                EnumAttrView::Repr(w) => if p is Some {
                    Err(SchemaFault::ConflictingTagPolicy)
                } else {
                    Ok(Some(TagPolicy::Wanted(w)))
                },
                EnumAttrView::Other => Ok(p),
            },
        }
    }
}

/// The tag policy of a sum type with these declarations: exactly one must
/// ask for one.
pub open spec fn tag_policy_spec(attrs: Seq<EnumAttrView>) -> Result<TagPolicy, SchemaFault> {
    match policy_so_far(attrs) {
        Err(e) => Err(e),
        Ok(None) => Err(SchemaFault::MissingTagPolicy),
        Ok(Some(p)) => Ok(p),
    }
}

/// The steps of one variant: it needs exactly one layout, made of directives
/// over named fields.
pub open spec fn variant_steps(v: VariantDeclView) -> Result<Seq<StepView>, SchemaFault> {
    if v.layouts.len() == 0 {
        Err(SchemaFault::MissingLayout(v.name))
    } else if v.layouts.len() > 1 {
        Err(SchemaFault::MultipleLayouts(v.name))
    } else if v.layouts[0] == VARUINT16_LAYOUT@ {
        Err(SchemaFault::VarUintShape)
    } else {
        layout_steps(v.layouts[0], v.fields)
    }
}

/// The discriminant that the next variant gets: its explicit value if it has
/// one, else one more than the previous variant's, else zero.
pub open spec fn next_discriminant(done: Seq<VariantPlanView>, explicit: Option<u64>) -> int {
    match explicit {
        Some(x) => x as int,
        None => if done.len() == 0 {
            0
        } else {
            done.last().discriminant as int + 1
        },
    }
}

/// `d` can be written in the tag that the policy asks for.
pub open spec fn tag_fits(policy: TagPolicy, d: int) -> bool {
    match policy {
        TagPolicy::Wanted(w) => d < bit_limit(w as nat),
        TagPolicy::NotWanted => true,
    }
}

/// Whether `d` can be written in the tag that the policy asks for.
pub fn fits_tag(policy: TagPolicy, d: u64) -> (r: bool)
    ensures
        r == tag_fits(policy, d as int),
{
    match policy {
        TagPolicy::Wanted(w) => fits_in_bits(d, w),
        TagPolicy::NotWanted => true,
    }
}

/// Some variant of `done` has discriminant `d`.
pub open spec fn discriminant_taken(done: Seq<VariantPlanView>, d: int) -> bool {
    exists|j: int| 0 <= j < done.len() && done[j].discriminant == d
}

/// The plans of the variants, numbered in declaration order; `explicit`
/// holds each variant's explicit discriminant, by position.
pub open spec fn number_variants(
    vs: Seq<VariantDeclView>,
    explicit: Seq<Option<u64>>,
    policy: TagPolicy,
) -> Result<
    Seq<VariantPlanView>,
    SchemaFault,
>
    decreases vs.len(),
{
    if vs.len() == 0 {
        Ok(Seq::empty())
    } else {
        match number_variants(vs.drop_last(), explicit, policy) {
            Err(e) => Err(e),
            Ok(done) => match variant_steps(vs.last()) {
                Err(e) => Err(e),
                Ok(steps) => {
                    let d = next_discriminant(done, explicit[vs.len() - 1]);
                    if d > u64::MAX {
                        Err(SchemaFault::DiscriminantOverflow(vs.last().name))
                    } else if !tag_fits(policy, d) {
                        Err(SchemaFault::DiscriminantTooWide(vs.last().name))
                    } else if discriminant_taken(done, d) {
                        Err(SchemaFault::DuplicateDiscriminant(vs.last().name))
                    } else {
                        Ok(done.push(VariantPlanView { name: vs.last().name, discriminant: d as nat, steps }))
                    }
                },
            },
        }
    }
}

/// The explicit discriminants of the variants, each literal read as an
/// integer; the first that is not plain literal text, or cannot be read,
/// fails.
pub open spec fn read_discriminants(vs: Seq<VariantDeclView>) -> Result<Seq<Option<u64>>, SchemaFault>
    decreases vs.len(),
{
    if vs.len() == 0 {
        Ok(Seq::empty())
    } else {
        match read_discriminants(vs.drop_last()) {
            Err(e) => Err(e),
            Ok(done) => match vs.last().discriminant {
                None => Ok(done.push(None)),
                Some(t) => match if plain_literal_text(t) {
                    int_literal_value(t)
                } else {
                    None
                } {
                    Some(x) => Ok(done.push(Some(x))),
                    None => Err(SchemaFault::BadDiscriminant(vs.last().name)),
                },
            },
        }
    }
}

/// The plan of a sum type whose explicit discriminants have been read.
pub open spec fn enum_plan_from(
    attrs: Seq<EnumAttrView>,
    vs: Seq<VariantDeclView>,
    explicit: Seq<Option<u64>>,
) -> Result<EnumPlanView, SchemaFault> {
    match tag_policy_spec(attrs) {
        Err(e) => Err(e),
        Ok(p) => match number_variants(vs, explicit, p) {
            Err(e) => Err(e),
            Ok(plans) => Ok(EnumPlanView { policy: p, variants: plans }),
        },
    }
}

/// The plan of a sum type with these declarations and variants.
pub open spec fn enum_plan_spec(attrs: Seq<EnumAttrView>, vs: Seq<VariantDeclView>) -> Result<
    EnumPlanView,
    SchemaFault,
> {
    match tag_policy_spec(attrs) {
        Err(e) => Err(e),
        Ok(_) => match read_discriminants(vs) {
            Err(e) => Err(e),
            Ok(explicit) => enum_plan_from(attrs, vs, explicit),
        },
    }
}

/// The tag that a variant starts with under the policy.
pub open spec fn tag_cells(policy: TagPolicy, discriminant: nat) -> Seq<Seq<char>> {
    match policy {
        TagPolicy::Wanted(w) => seq![directive(discriminant, w as nat)],
        TagPolicy::NotWanted => Seq::empty(),
    }
}

/// The directives of the `i`th variant, given the directives of its fields.
pub open spec fn variant_cells(plan: EnumPlanView, i: int, fields: Seq<Seq<Seq<char>>>) -> Seq<
    Seq<char>,
> {
    tag_cells(plan.policy, plan.variants[i].discriminant) + plan_cells(
        plan.variants[i].steps,
        fields,
    )
}

/// Decides the tag policy of a sum type from its declarations: the
/// non-overlap assertion asks for no tag, a representation width for a tag
/// of that width. Exactly one of them must be there.
pub fn tag_policy(attrs: &Vec<EnumAttr>) -> (r: Result<TagPolicy, SchemaError>)
    ensures
        match r {
            Ok(p) => tag_policy_spec(attrs.deep_view()) == Ok::<TagPolicy, SchemaFault>(p),
            Err(e) => tag_policy_spec(attrs.deep_view()) == Err::<TagPolicy, SchemaFault>(e@),
        },
{
    let ghost av = attrs.deep_view();
    let mut policy: Option<TagPolicy> = None;
    let mut i: usize = 0;
    proof {
        assert(av.take(0) =~= Seq::<EnumAttrView>::empty());
    }
    while i < attrs.len()
        invariant
            av == attrs.deep_view(),
            i <= av.len(),
            policy_so_far(av.take(i as int)) == Ok::<Option<TagPolicy>, SchemaFault>(policy),
        decreases av.len() - i,
    {
        assert(av.take(i + 1).drop_last() =~= av.take(i as int));
        assert(av.take(i + 1).last() == attrs[i as int].deep_view());
        let conflict = match &attrs[i] {
            EnumAttr::AssertUnsafe(a) => {
                if same_text(a.as_str(), NONOVERLAP_ASSERTION) {
                    if policy.is_some() {
                        true
                    } else {
                        policy = Some(TagPolicy::NotWanted);
                        false
                    }
                } else {
                    false
                }
            },
            EnumAttr::Repr(w) => {
                if policy.is_some() {
                    true
                } else {
                    policy = Some(TagPolicy::Wanted(*w));
                    false
                }
            },
            EnumAttr::Other => false,
        };
        if conflict {
            proof {
                lemma_policy_error_stays(av, i + 1);
            }
            return Err(SchemaError::ConflictingTagPolicy);
        }
        i = i + 1;
    }
    assert(av.take(i as int) =~= av);
    match policy {
        Some(p) => Ok(p),
        None => Err(SchemaError::MissingTagPolicy),
    }
}

proof fn lemma_policy_error_stays(av: Seq<EnumAttrView>, i: int)
    requires
        0 <= i <= av.len(),
        policy_so_far(av.take(i)) is Err,
    ensures
        policy_so_far(av) == policy_so_far(av.take(i)),
    decreases av.len(),
{
    if i < av.len() {
        assert(av.drop_last().take(i) =~= av.take(i));
        lemma_policy_error_stays(av.drop_last(), i);
    } else {
        assert(av.take(i) =~= av);
    }
}

/// Compiles the layout of one variant: it needs exactly one, made of
/// directives over named fields.
pub fn compile_variant_steps(v: &VariantDecl) -> (r: Result<Vec<Step>, SchemaError>)
    ensures
        match r {
            Ok(steps) => variant_steps(v.deep_view()) == Ok::<Seq<StepView>, SchemaFault>(
                steps.deep_view(),
            ),
            Err(e) => variant_steps(v.deep_view()) == Err::<Seq<StepView>, SchemaFault>(e@),
        },
        r matches Ok(steps) ==> fits_fields(steps.deep_view(), v.fields.deep_view()),
{
    if v.layouts.len() == 0 {
        return Err(SchemaError::MissingLayout(v.name.clone()));
    }
    if v.layouts.len() > 1 {
        return Err(SchemaError::MultipleLayouts(v.name.clone()));
    }
    assert(v.deep_view().layouts[0] == v.layouts[0]@);
    if same_text(v.layouts[0].as_str(), VARUINT16_LAYOUT) {
        return Err(SchemaError::VarUintShape);
    }
    compile_steps(v.layouts[0].as_str(), &v.fields)
}

/// Every variant's steps name only fields of that variant.
pub open spec fn plans_fit(plans: Seq<VariantPlanView>, vs: Seq<VariantDeclView>) -> bool {
    &&& plans.len() == vs.len()
    &&& forall|i: int| 0 <= i < plans.len() ==> fits_fields(#[trigger] plans[i].steps, vs[i].fields)
}

proof fn lemma_number_error_stays(
    vs: Seq<VariantDeclView>,
    ex: Seq<Option<u64>>,
    policy: TagPolicy,
    i: int,
)
    requires
        0 <= i <= vs.len(),
        number_variants(vs.take(i), ex, policy) is Err,
    ensures
        number_variants(vs, ex, policy) == number_variants(vs.take(i), ex, policy),
    decreases vs.len(),
{
    if i < vs.len() {
        assert(vs.drop_last().take(i) =~= vs.take(i));
        lemma_number_error_stays(vs.drop_last(), ex, policy, i);
    } else {
        assert(vs.take(i) =~= vs);
    }
}

proof fn lemma_read_error_stays(vs: Seq<VariantDeclView>, i: int)
    requires
        0 <= i <= vs.len(),
        read_discriminants(vs.take(i)) is Err,
    ensures
        read_discriminants(vs) == read_discriminants(vs.take(i)),
    decreases vs.len(),
{
    if i < vs.len() {
        assert(vs.drop_last().take(i) =~= vs.take(i));
        lemma_read_error_stays(vs.drop_last(), i);
    } else {
        assert(vs.take(i) =~= vs);
    }
}

/// Numbers the variants in declaration order and compiles each one's
/// layout. A variant takes its explicit discriminant from `explicit` when it
/// has one there, else one more than the previous variant's, else zero; a
/// value past the largest 64-bit one, one that the policy's tag cannot hold,
/// or one that an earlier variant took, fails.
#[verifier::loop_isolation(false)]
pub fn number_variant_plans(
    variants: &Vec<VariantDecl>,
    explicit: &Vec<Option<u64>>,
    policy: TagPolicy,
) -> (r: Result<
    Vec<VariantPlan>,
    SchemaError,
>)
    requires
        explicit@.len() == variants@.len(),
    ensures
        match r {
            Ok(plans) => number_variants(variants.deep_view(), explicit@, policy) == Ok::<
                Seq<VariantPlanView>,
                SchemaFault,
            >(plans.deep_view()),
            Err(e) => number_variants(variants.deep_view(), explicit@, policy) == Err::<
                Seq<VariantPlanView>,
                SchemaFault,
            >(e@),
        },
        r matches Ok(plans) ==> plans_fit(plans.deep_view(), variants.deep_view()),
{
    let ghost vs = variants.deep_view();
    let ghost ex = explicit@;
    let mut plans: Vec<VariantPlan> = Vec::new();
    let mut i: usize = 0;
    proof {
        assert(vs.take(0) =~= Seq::<VariantDeclView>::empty());
        assert(plans.deep_view() =~= Seq::<VariantPlanView>::empty());
    }
    while i < variants.len()
        invariant
            vs == variants.deep_view(),
            ex == explicit@,
            ex.len() == vs.len(),
            i <= vs.len(),
            number_variants(vs.take(i as int), ex, policy) == Ok::<Seq<VariantPlanView>, SchemaFault>(
                plans.deep_view(),
            ),
            plans_fit(plans.deep_view(), vs.take(i as int)),
        decreases vs.len() - i,
    {
        let ghost before = plans.deep_view();
        assert(vs.take(i + 1).drop_last() =~= vs.take(i as int));
        assert(vs.take(i + 1).last() == variants[i as int].deep_view());
        let steps = match compile_variant_steps(&variants[i]) {
            Ok(steps) => steps,
            Err(e) => {
                proof {
                    lemma_number_error_stays(vs, ex, policy, i + 1);
                }
                return Err(e);
            },
        };
        let d: u128 = match explicit[i] {
            Some(x) => x as u128,
            None => if plans.len() == 0 {
                0
            } else {
                plans[plans.len() - 1].discriminant as u128 + 1
            },
        };
        assert(d == next_discriminant(before, ex[i as int]));
        if d > u64::MAX as u128 {
            proof {
                lemma_number_error_stays(vs, ex, policy, i + 1);
            }
            return Err(SchemaError::DiscriminantOverflow(variants[i].name.clone()));
        }
        let d = d as u64;
        if !fits_tag(policy, d) {
            proof {
                lemma_number_error_stays(vs, ex, policy, i + 1);
            }
            return Err(SchemaError::DiscriminantTooWide(variants[i].name.clone()));
        }
        let mut j: usize = 0;
        while j < plans.len()
            invariant
                before == plans.deep_view(),
                j <= before.len(),
                forall|k: int| 0 <= k < j ==> before[k].discriminant != d,
            decreases before.len() - j,
        {
            if plans[j].discriminant == d {
                proof {
                    assert(before[j as int].discriminant == d);
                    lemma_number_error_stays(vs, ex, policy, i + 1);
                }
                return Err(SchemaError::DuplicateDiscriminant(variants[i].name.clone()));
            }
            j = j + 1;
        }
        let ghost added = VariantPlanView {
            name: variants[i as int].name@,
            discriminant: d as nat,
            steps: steps.deep_view(),
        };
        plans.push(VariantPlan { name: variants[i].name.clone(), discriminant: d, steps });
        assert(plans.deep_view() =~= before.push(added));
        i = i + 1;
        assert(plans_fit(plans.deep_view(), vs.take(i as int))) by {
            assert forall|k: int| 0 <= k < plans.deep_view().len() implies fits_fields(
                #[trigger] plans.deep_view()[k].steps,
                vs.take(i as int)[k].fields,
            ) by {
                if k < i - 1 {
                    assert(plans.deep_view()[k] == before[k]);
                    assert(vs.take(i as int)[k] == vs.take(i - 1)[k]);
                }
            }
        }
    }
    assert(vs.take(i as int) =~= vs);
    Ok(plans)
}

/// Reads the explicit discriminant literal of each variant as an integer.
/// Fails on the first that is not an integer literal fitting in 64 bits,
/// naming its variant.
pub fn read_variant_discriminants(variants: &Vec<VariantDecl>) -> (r: Result<
    Vec<Option<u64>>,
    SchemaError,
>)
    ensures
        match r {
            Ok(values) => read_discriminants(variants.deep_view()) == Ok::<
                Seq<Option<u64>>,
                SchemaFault,
            >(values@),
            Err(e) => read_discriminants(variants.deep_view()) == Err::<
                Seq<Option<u64>>,
                SchemaFault,
            >(e@),
        },
        r matches Ok(values) ==> values@.len() == variants@.len(),
{
    let ghost vs = variants.deep_view();
    let mut values: Vec<Option<u64>> = Vec::new();
    let mut i: usize = 0;
    proof {
        assert(vs.take(0) =~= Seq::<VariantDeclView>::empty());
        assert(values@ =~= Seq::<Option<u64>>::empty());
    }
    while i < variants.len()
        invariant
            vs == variants.deep_view(),
            i <= vs.len(),
            values@.len() == i,
            read_discriminants(vs.take(i as int)) == Ok::<Seq<Option<u64>>, SchemaFault>(values@),
        decreases vs.len() - i,
    {
        assert(vs.take(i + 1).drop_last() =~= vs.take(i as int));
        assert(vs.take(i + 1).last() == variants[i as int].deep_view());
        match &variants[i].discriminant {
            None => values.push(None),
            Some(t) => match if is_plain_literal_text(t.as_str()) {
                read_int_literal(t.as_str())
            } else {
                None
            } {
                Some(x) => values.push(Some(x)),
                None => {
                    proof {
                        lemma_read_error_stays(vs, i + 1);
                    }
                    return Err(SchemaError::BadDiscriminant(variants[i].name.clone()));
                },
            },
        }
        i = i + 1;
    }
    assert(vs.take(i as int) =~= vs);
    Ok(values)
}

/// Compiles a sum type whose explicit discriminants have been read: decides
/// its tag policy, then numbers and compiles its variants.
pub fn tlb_enum_serializable_with(
    attrs: &Vec<EnumAttr>,
    variants: &Vec<VariantDecl>,
    explicit: &Vec<Option<u64>>,
) -> (r: Result<EnumPlan, SchemaError>)
    requires
        explicit@.len() == variants@.len(),
    ensures
        match r {
            Ok(p) => enum_plan_from(attrs.deep_view(), variants.deep_view(), explicit@) == Ok::<
                EnumPlanView,
                SchemaFault,
            >(p.deep_view()),
            Err(e) => enum_plan_from(attrs.deep_view(), variants.deep_view(), explicit@) == Err::<
                EnumPlanView,
                SchemaFault,
            >(e@),
        },
        r matches Ok(p) ==> plans_fit(p.variants.deep_view(), variants.deep_view()),
{
    let policy = match tag_policy(attrs) {
        Ok(p) => p,
        Err(e) => return Err(e),
    };
    match number_variant_plans(variants, explicit, policy) {
        Ok(plans) => Ok(EnumPlan { policy, variants: plans }),
        Err(e) => Err(e),
    }
}

/// Compiles a sum type: decides its tag policy, reads the explicit
/// discriminants, then numbers and compiles its variants.
pub fn tlb_enum_serializable(attrs: &Vec<EnumAttr>, variants: &Vec<VariantDecl>) -> (r: Result<
    EnumPlan,
    SchemaError,
>)
    ensures
        match r {
            Ok(p) => enum_plan_spec(attrs.deep_view(), variants.deep_view()) == Ok::<
                EnumPlanView,
                SchemaFault,
            >(p.deep_view()),
            Err(e) => enum_plan_spec(attrs.deep_view(), variants.deep_view()) == Err::<
                EnumPlanView,
                SchemaFault,
            >(e@),
        },
        r matches Ok(p) ==> plans_fit(p.variants.deep_view(), variants.deep_view()),
{
    if let Err(e) = tag_policy(attrs) {
        return Err(e);
    }
    let explicit = match read_variant_discriminants(variants) {
        Ok(values) => values,
        Err(e) => return Err(e),
    };
    tlb_enum_serializable_with(attrs, variants, &explicit)
}

/// Writes the `index`th variant: its tag when the policy asks for one, then
/// its steps over the directives of its fields.
pub fn serialize_variant(plan: &EnumPlan, index: usize, field_cells: &Vec<Vec<String>>) -> (r: Vec<
    String,
>)
    requires
        index < plan.variants@.len(),
        plan_fits(plan.variants@[index as int].steps.deep_view(), field_cells@.len() as nat),
    ensures
        r.deep_view() == variant_cells(plan.deep_view(), index as int, field_cells.deep_view()),
{
    let v = &plan.variants[index];
    assert(plan.deep_view().variants[index as int] == v.deep_view());
    let mut out: Vec<String> = Vec::new();
    match plan.policy {
        TagPolicy::Wanted(w) => out.push(write_directive(v.discriminant as u128, w)),
        TagPolicy::NotWanted => {},
    }
    assert(out.deep_view() =~= tag_cells(plan.policy, v.discriminant as nat));
    extend_cells(&mut out, run_plan(&v.steps, field_cells));
    out
}

proof fn lemma_numbering(vs: Seq<VariantDeclView>, ex: Seq<Option<u64>>, policy: TagPolicy)
    requires
        number_variants(vs, ex, policy) is Ok,
    ensures
        ({
            let plans = number_variants(vs, ex, policy)->Ok_0;
            &&& plans.len() == vs.len()
            &&& forall|i: int|
                0 <= i < plans.len() ==> #[trigger] plans[i].discriminant == next_discriminant(
                    plans.take(i),
                    ex[i],
                )
            &&& forall|i: int, j: int|
                0 <= i < j < plans.len() ==> plans[i].discriminant != plans[j].discriminant
            &&& forall|i: int|
                0 <= i < plans.len() ==> variant_steps(vs[i]) == Ok::<Seq<StepView>, SchemaFault>(
                    #[trigger] plans[i].steps,
                )
            &&& forall|i: int|
                0 <= i < plans.len() ==> tag_fits(policy, #[trigger] plans[i].discriminant as int)
        }),
    decreases vs.len(),
{
    if vs.len() > 0 {
        lemma_numbering(vs.drop_last(), ex, policy);
        let done = number_variants(vs.drop_last(), ex, policy)->Ok_0;
        let plans = number_variants(vs, ex, policy)->Ok_0;
        let n = plans.len() - 1;
        assert(plans.drop_last() =~= done);
        assert forall|i: int| 0 <= i < plans.len() implies #[trigger] plans[i].discriminant
            == next_discriminant(plans.take(i), ex[i]) by {
            if i < n {
                assert(plans.take(i) =~= done.take(i));
                assert(plans[i] == done[i]);
            } else {
                assert(plans.take(i) =~= done);
            }
        }
        assert forall|i: int, j: int| 0 <= i < j < plans.len() implies plans[i].discriminant
            != plans[j].discriminant by {
            assert(plans[i] == done[i]);
            if j == n {
                assert(!discriminant_taken(done, plans[j].discriminant as int));
            } else {
                assert(plans[j] == done[j]);
            }
        }
        assert forall|i: int| 0 <= i < plans.len() implies tag_fits(
            policy,
            #[trigger] plans[i].discriminant as int,
        ) by {
            if i < n {
                assert(plans[i] == done[i]);
            }
        }
        assert forall|i: int| 0 <= i < plans.len() implies variant_steps(vs[i]) == Ok::<
            Seq<StepView>,
            SchemaFault,
        >(#[trigger] plans[i].steps) by {
            if i < n {
                assert(plans[i] == done[i]);
                assert(vs.drop_last()[i] == vs[i]);
            }
        }
    }
}

proof fn lemma_read_values(vs: Seq<VariantDeclView>)
    requires
        read_discriminants(vs) is Ok,
    ensures
        read_discriminants(vs)->Ok_0.len() == vs.len(),
        forall|i: int|
            0 <= i < vs.len() ==> #[trigger] read_discriminants(vs)->Ok_0[i] == declared_value(
                vs[i],
            ),
    decreases vs.len(),
{
    if vs.len() > 0 {
        lemma_read_values(vs.drop_last());
        let done = read_discriminants(vs.drop_last())->Ok_0;
        let vals = read_discriminants(vs)->Ok_0;
        assert forall|i: int| 0 <= i < vs.len() implies #[trigger] vals[i] == declared_value(
            vs[i],
        ) by {
            if i < vs.len() - 1 {
                assert(vals[i] == done[i]);
                assert(vs.drop_last()[i] == vs[i]);
            }
        }
    }
}

/// The value of a variant's explicit discriminant literal, if it has one.
pub open spec fn declared_value(v: VariantDeclView) -> Option<u64> {
    match v.discriminant {
        Some(t) => if plain_literal_text(t) {
            int_literal_value(t)
        } else {
            None
        },
        None => None,
    }
}

/// Under a tag of `w` bits, every variant's directives start with its
/// discriminant written in exactly `w` bits, and that discriminant is below
/// `2^w`; no two variants share a
/// discriminant, and each is the value of the variant's explicit literal or
/// else one more than the previous variant's, zero for a first variant.
pub proof fn tagged_variants_lead_with_discriminant(
    attrs: Seq<EnumAttrView>,
    vs: Seq<VariantDeclView>,
)
    requires
        enum_plan_spec(attrs, vs) is Ok,
        enum_plan_spec(attrs, vs)->Ok_0.policy is Wanted,
    ensures
        ({
            let p = enum_plan_spec(attrs, vs)->Ok_0;
            let w = p.policy->Wanted_0;
            &&& p.variants.len() == vs.len()
            &&& forall|i: int, fields: Seq<Seq<Seq<char>>>|
                0 <= i < p.variants.len() ==> (#[trigger] variant_cells(p, i, fields))[0]
                    == directive(p.variants[i].discriminant, w as nat)
            &&& forall|i: int|
                0 <= i < p.variants.len() ==> #[trigger] p.variants[i].discriminant < bit_limit(
                    w as nat,
                )
            &&& forall|i: int, j: int|
                0 <= i < j < p.variants.len() ==> p.variants[i].discriminant
                    != p.variants[j].discriminant
            &&& forall|i: int|
                0 <= i < p.variants.len() ==> #[trigger] p.variants[i].discriminant as int
                    == match declared_value(vs[i]) {
                    Some(x) => x as int,
                    None => if i == 0 {
                        0
                    } else {
                        p.variants[i - 1].discriminant as int + 1
                    },
                }
        }),
{
    let p = enum_plan_spec(attrs, vs)->Ok_0;
    let explicit = read_discriminants(vs)->Ok_0;
    lemma_read_values(vs);
    lemma_numbering(vs, explicit, p.policy);
    assert forall|i: int| 0 <= i < p.variants.len() implies #[trigger] p.variants[i].discriminant
        as int == match declared_value(vs[i]) {
        Some(x) => x as int,
        None => if i == 0 {
            0
        } else {
            p.variants[i - 1].discriminant as int + 1
        },
    } by {
        assert(explicit[i] == declared_value(vs[i]));
        assert(p.variants[i].discriminant == next_discriminant(p.variants.take(i), explicit[i]));
        if i > 0 {
            assert(p.variants.take(i).last() == p.variants[i - 1]);
        }
    }
}

/// With no tag, each variant writes the steps of its own layout and nothing
/// more.
pub proof fn untagged_variants_add_nothing(attrs: Seq<EnumAttrView>, vs: Seq<VariantDeclView>)
    requires
        enum_plan_spec(attrs, vs) is Ok,
        enum_plan_spec(attrs, vs)->Ok_0.policy is NotWanted,
    ensures
        ({
            let p = enum_plan_spec(attrs, vs)->Ok_0;
            &&& p.variants.len() == vs.len()
            &&& forall|i: int, fields: Seq<Seq<Seq<char>>>|
                0 <= i < p.variants.len() ==> #[trigger] variant_cells(p, i, fields) == plan_cells(
                    p.variants[i].steps,
                    fields,
                )
            &&& forall|i: int|
                0 <= i < p.variants.len() ==> variant_steps(vs[i]) == Ok::<
                    Seq<StepView>,
                    SchemaFault,
                >(#[trigger] p.variants[i].steps)
        }),
{
    let p = enum_plan_spec(attrs, vs)->Ok_0;
    lemma_numbering(vs, read_discriminants(vs)->Ok_0, p.policy);
    assert forall|i: int, fields: Seq<Seq<Seq<char>>>| 0 <= i < p.variants.len() implies #[trigger] variant_cells(
        p,
        i,
        fields,
    ) == plan_cells(p.variants[i].steps, fields) by {
        assert(variant_cells(p, i, fields) =~= plan_cells(p.variants[i].steps, fields));
    }
}

} // verus!
