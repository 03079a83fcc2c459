//! The enum derive: where `subsume` attributes may stand, the name of the
//! generated target parameter, the widening of every variant's payload, and
//! the whole expansion from the derive's input.
use vstd::prelude::*;
use crate::conversions::{expand_subsume, from_conversions, impl_views, FromImpl, ImplView};
use crate::error::{DeriveError, ErrorKind, ErrorSite};
use crate::syntax::{attr_is_subsume, field_seq, fields_of, is_subsume, Attribute, Data, DeriveInput, Field, GenericParam, Variant};

verus! {

/// The index of the first `subsume` attribute, if there is one.
pub open spec fn first_subsume(attrs: Seq<Attribute>) -> Option<nat>
    decreases attrs.len(),
{
    if attrs.len() == 0 {
        None
    } else {
        match first_subsume(attrs.drop_last()) {
            Some(i) => Some(i),
            None => if is_subsume(attrs.last()) {
                Some((attrs.len() - 1) as nat)
            } else {
                None
            },
        }
    }
}

/// Refuse `subsume` attributes in a place other than a variant: the index
/// of the first one among `attrs` is the error.
pub fn validate_attributes(attrs: &Vec<Attribute>) -> (r: Result<(), usize>)
    ensures
        match r {
            Ok(()) => first_subsume(attrs@) is None,
            Err(i) => first_subsume(attrs@) == Some(i as nat),
        },
{
    let mut i: usize = 0;
    assert(attrs@.take(0) =~= Seq::<Attribute>::empty());
    while i < attrs.len()
        invariant
            i <= attrs.len(),
            first_subsume(attrs@.take(i as int)) is None,
        decreases attrs.len() - i,
    {
        assert(attrs@.take(i + 1).drop_last() =~= attrs@.take(i as int));
        if attr_is_subsume(&attrs[i]) {
            proof {
                lemma_first_subsume_extend(attrs@, (i + 1) as nat);
            }
            return Err(i);
        }
        i = i + 1;
    }
    assert(attrs@.take(i as int) =~= attrs@);
    Ok(())
}

pub proof fn lemma_first_subsume_extend(attrs: Seq<Attribute>, n: nat)
    requires
        n <= attrs.len(),
        first_subsume(attrs.take(n as int)) is Some,
    ensures
        first_subsume(attrs) == first_subsume(attrs.take(n as int)),
    decreases attrs.len() - n,
{
    if n < attrs.len() {
        assert(attrs.take(n + 1int).drop_last() =~= attrs.take(n as int));
        lemma_first_subsume_extend(attrs, n + 1);
    } else {
        assert(attrs.take(n as int) =~= attrs);
    }
}

/// The first field (and attribute) that carries a `subsume` attribute.
pub open spec fn misplaced_in_fields(fields: Seq<Field>) -> Option<(nat, nat)>
    decreases fields.len(),
{
    if fields.len() == 0 {
        None
    } else {
        match misplaced_in_fields(fields.drop_last()) {
            Some(found) => Some(found),
            None => match first_subsume(fields.last().attrs@) {
                Some(a) => Some(((fields.len() - 1) as nat, a)),
                None => None,
            },
        }
    }
}

/// The first variant, field and attribute where a field carries a
/// `subsume` attribute.
pub open spec fn misplaced_in_variants(variants: Seq<Variant>) -> Option<(nat, nat, nat)>
    decreases variants.len(),
{
    if variants.len() == 0 {
        None
    } else {
        match misplaced_in_variants(variants.drop_last()) {
            Some(found) => Some(found),
            None => match misplaced_in_fields(field_seq(variants.last().fields)) {
                Some((f, a)) => Some(((variants.len() - 1) as nat, f, a)),
                None => None,
            },
        }
    }
}

/// Find the first `subsume` attribute on a field.
pub fn check_field_attrs(variants: &Vec<Variant>) -> (r: Option<(usize, usize, usize)>)
    ensures
        match r {
            Some((v, f, a)) => misplaced_in_variants(variants@) == Some((v as nat, f as nat, a as nat)),
            None => misplaced_in_variants(variants@) is None,
        },
{
    let mut v: usize = 0;
    assert(variants@.take(0) =~= Seq::<Variant>::empty());
    while v < variants.len()
        invariant
            v <= variants.len(),
            misplaced_in_variants(variants@.take(v as int)) is None,
        decreases variants.len() - v,
    {
        assert(variants@.take(v + 1).drop_last() =~= variants@.take(v as int));
        assert(variants@.take(v + 1).last() == variants@[v as int]);
        let fields = fields_of(&variants[v].fields);
        let mut f: usize = 0;
        assert(fields@.take(0) =~= Seq::<Field>::empty());
        while f < fields.len()
            invariant
                v < variants.len(),
                fields@ == field_seq(variants@[v as int].fields),
                f <= fields.len(),
                misplaced_in_fields(fields@.take(f as int)) is None,
                misplaced_in_variants(variants@.take(v as int)) is None,
            decreases fields.len() - f,
        {
            assert(fields@.take(f + 1).drop_last() =~= fields@.take(f as int));
            assert(fields@.take(f + 1).last() == fields@[f as int]);
            match validate_attributes(&fields[f].attrs) {
                Err(a) => {
                    assert(misplaced_in_fields(fields@.take(f + 1)) == Some((f as nat, a as nat)));
                    proof {
                        lemma_misplaced_fields_extend(fields@, (f + 1) as nat);
                    }
                    assert(variants@.take(v + 1).drop_last() =~= variants@.take(v as int));
                    assert(variants@.take(v + 1).last() == variants@[v as int]);
                    assert(misplaced_in_variants(variants@.take(v + 1)) == Some((v as nat, f as nat, a as nat)));
                    proof {
                        lemma_misplaced_variants_extend(variants@, (v + 1) as nat);
                    }
                    return Some((v, f, a));
                },
                Ok(()) => {},
            }
            f = f + 1;
        }
        assert(fields@.take(f as int) =~= fields@);
        v = v + 1;
    }
    assert(variants@.take(v as int) =~= variants@);
    None
}

pub proof fn lemma_misplaced_fields_extend(fields: Seq<Field>, n: nat)
    requires
        n <= fields.len(),
        misplaced_in_fields(fields.take(n as int)) is Some,
    ensures
        misplaced_in_fields(fields) == misplaced_in_fields(fields.take(n as int)),
    decreases fields.len() - n,
{
    if n < fields.len() {
        assert(fields.take(n + 1int).drop_last() =~= fields.take(n as int));
        lemma_misplaced_fields_extend(fields, n + 1);
    } else {
        assert(fields.take(n as int) =~= fields);
    }
}

pub proof fn lemma_misplaced_variants_extend(variants: Seq<Variant>, n: nat)
    requires
        n <= variants.len(),
        misplaced_in_variants(variants.take(n as int)) is Some,
    ensures
        misplaced_in_variants(variants) == misplaced_in_variants(variants.take(n as int)),
    decreases variants.len() - n,
{
    if n < variants.len() {
        assert(variants.take(n + 1int).drop_last() =~= variants.take(n as int));
        lemma_misplaced_variants_extend(variants, n + 1);
    } else {
        assert(variants.take(n as int) =~= variants);
    }
}

pub open spec fn base_target() -> Seq<char> {
    seq!['_', '_', 'W', 'i', 'd', 'e', 'n', 'T', 'a', 'r', 'g', 'e', 't']
}

/// The candidate names of the target parameter: `__WidenTarget` with `k`
/// more underscores in front.
pub open spec fn target_candidate(k: nat) -> Seq<char>
    decreases k,
{
    if k == 0 {
        base_target()
    } else {
        seq!['_'] + target_candidate((k - 1) as nat)
    }
}

/// The name of a type or const parameter; a lifetime has none.
pub open spec fn param_name(p: GenericParam) -> Option<Seq<char>> {
    match p {
        GenericParam::Type(s) => Some(s@),
        GenericParam::Const(s) => Some(s@),
        GenericParam::Lifetime(_) => None,
    }
}

/// Whether a type or const parameter has the name `name`.
pub open spec fn names_param(generics: Seq<GenericParam>, name: Seq<char>) -> bool {
    exists|i: int| 0 <= i < generics.len() && #[trigger] param_name(generics[i]) == Some(name)
}

pub open spec fn max_name_len(generics: Seq<GenericParam>) -> nat
    decreases generics.len(),
{
    if generics.len() == 0 {
        0
    } else {
        let rest = max_name_len(generics.drop_last());
        let here = match param_name(generics.last()) {
            Some(n) => n.len(),
            None => 0,
        };
        if rest >= here {
            rest
        } else {
            here
        }
    }
}

/// The first candidate from `k` on that names no parameter, looking at most
/// `fuel` candidates further.
pub open spec fn first_free(generics: Seq<GenericParam>, k: nat, fuel: nat) -> nat
    decreases fuel,
{
    if fuel == 0 || !names_param(generics, target_candidate(k)) {
        k
    } else {
        first_free(generics, k + 1, (fuel - 1) as nat)
    }
}

/// The name of the generated target parameter: the first candidate that is
/// not the name of a type or const parameter of the enum.
pub open spec fn widen_target(generics: Seq<GenericParam>) -> Seq<char> {
    target_candidate(first_free(generics, 0, max_name_len(generics) + 1))
}

pub proof fn lemma_candidate_len(k: nat)
    ensures
        target_candidate(k).len() == base_target().len() + k,
    decreases k,
{
    if k > 0 {
        lemma_candidate_len((k - 1) as nat);
    }
}

pub proof fn lemma_name_len_bound(generics: Seq<GenericParam>, name: Seq<char>)
    requires
        names_param(generics, name),
    ensures
        name.len() <= max_name_len(generics),
    decreases generics.len(),
{
    let i = choose|i: int| 0 <= i < generics.len() && #[trigger] param_name(generics[i]) == Some(name);
    if i < generics.len() - 1 {
        assert(param_name(generics.drop_last()[i]) == Some(name));
        lemma_name_len_bound(generics.drop_last(), name);
    }
}

/// Whether a type or const parameter has the name `name`.
pub(crate) fn is_param_name(generics: &Vec<GenericParam>, name: &String) -> (b: bool)
    ensures
        b == names_param(generics@, name@),
{
    let mut i: usize = 0;
    while i < generics.len()
        invariant
            i <= generics.len(),
            forall|j: int| 0 <= j < i ==> param_name(#[trigger] generics@[j]) != Some(name@),
        decreases generics.len() - i,
    {
        let same = match &generics[i] {
            GenericParam::Type(s) => *s == *name,
            GenericParam::Const(s) => *s == *name,
            GenericParam::Lifetime(_) => false,
        };
        if same {
            assert(param_name(generics@[i as int]) == Some(name@));
            return true;
        }
        i = i + 1;
    }
    false
}

/// The name of the generated target parameter: `__WidenTarget`, with an
/// underscore put in front as long as a type or const parameter of the enum
/// has that name.
pub fn target_ident(generics: &Vec<GenericParam>) -> (t: String)
    ensures
        t@ == widen_target(generics@),
{
    let mut t = String::from_str("__WidenTarget");
    proof {
        reveal_strlit("__WidenTarget");
        assert(t@ =~= base_target());
    }
    let ghost fuel = max_name_len(generics@) + 1;
    let ghost mut k: nat = 0;
    while is_param_name(generics, &t)
        invariant
            fuel == max_name_len(generics@) + 1,
            k <= fuel,
            t@ == target_candidate(k),
            first_free(generics@, 0, fuel) == first_free(generics@, k, (fuel - k) as nat),
        decreases fuel - k,
    {
        proof {
            lemma_candidate_len(k);
            lemma_name_len_bound(generics@, t@);
        }
        let mut next = String::from_str("_");
        proof {
            reveal_strlit("_");
        }
        next.append(t.as_str());
        t = next;
        proof {
            assert(t@ =~= target_candidate(k + 1));
            k = k + 1;
        }
    }
    t
}

/// The generated target parameter never has the name of a type or const
/// parameter of the enum, and every shorter candidate has.
pub proof fn law_target_is_fresh(generics: Seq<GenericParam>)
    ensures
        !names_param(generics, widen_target(generics)),
        exists|k: nat|
            widen_target(generics) == target_candidate(k) && forall|j: nat|
                j < k ==> names_param(generics, #[trigger] target_candidate(j)),
{
    lemma_first_free(generics, 0, max_name_len(generics) + 1);
}

pub proof fn lemma_first_free(generics: Seq<GenericParam>, k: nat, fuel: nat)
    requires
        forall|j: nat| j < k ==> names_param(generics, #[trigger] target_candidate(j)),
        base_target().len() + k + fuel > max_name_len(generics),
    ensures
        !names_param(generics, target_candidate(first_free(generics, k, fuel))),
        first_free(generics, k, fuel) >= k,
        forall|j: nat| j < first_free(generics, k, fuel) ==> names_param(generics, #[trigger] target_candidate(j)),
    decreases fuel,
{
    if fuel == 0 {
        if names_param(generics, target_candidate(k)) {
            lemma_candidate_len(k);
            lemma_name_len_bound(generics, target_candidate(k));
        }
    } else if names_param(generics, target_candidate(k)) {
        assert forall|j: nat| j < k + 1 implies names_param(generics, #[trigger] target_candidate(j)) by {
            if j < k {
            }
        }
        lemma_first_free(generics, k + 1, (fuel - 1) as nat);
    }
}

/// One arm of the widening: variant `variant` converts its only field (by
/// that field's name when it is named) with `From` into the target.
#[derive(Debug)]
pub struct WidenArm {
    pub variant: usize,
    pub field: Option<String>,
}

/// The widening of an enum: the name of the generated target parameter,
/// and one arm per variant, in order. The target must implement
/// `From<T>` for the payload type `T` of every arm.
#[derive(Debug)]
pub struct WidenPlan {
    pub target: String,
    pub arms: Vec<WidenArm>,
}

pub ghost struct WidenArmView {
    pub variant: nat,
    pub field: Option<Seq<char>>,
}

pub ghost struct WidenView {
    pub target: Seq<char>,
    pub arms: Seq<WidenArmView>,
}

pub open spec fn name_view(name: Option<String>) -> Option<Seq<char>> {
    match name {
        Some(s) => Some(s@),
        None => None,
    }
}

impl View for WidenArm {
    type V = WidenArmView;

    open spec fn view(&self) -> WidenArmView {
        WidenArmView { variant: self.variant as nat, field: name_view(self.field) }
    }
}

impl View for WidenPlan {
    type V = WidenView;

    open spec fn view(&self) -> WidenView {
        WidenView { target: self.target@, arms: self.arms@.map_values(|a: WidenArm| a@) }
    }
}

/// The first variant that does not hold exactly one field.
pub open spec fn first_not_one_field(variants: Seq<Variant>) -> Option<nat>
    decreases variants.len(),
{
    if variants.len() == 0 {
        None
    } else {
        match first_not_one_field(variants.drop_last()) {
            Some(i) => Some(i),
            None => if field_seq(variants.last().fields).len() != 1 {
                Some((variants.len() - 1) as nat)
            } else {
                None
            },
        }
    }
}

/// One arm per variant, for its only field.
pub open spec fn widen_arms(variants: Seq<Variant>) -> Seq<WidenArmView> {
    Seq::new(
        variants.len(),
        |i: int| WidenArmView { variant: i as nat, field: name_view(field_seq(variants[i].fields)[0].name) },
    )
}

/// The widening of the variants, or the first variant that does not hold
/// exactly one field.
pub open spec fn widen_plan(variants: Seq<Variant>, generics: Seq<GenericParam>) -> Result<WidenView, nat> {
    match first_not_one_field(variants) {
        Some(i) => Err(i),
        None => Ok(WidenView { target: widen_target(generics), arms: widen_arms(variants) }),
    }
}

fn copy_name(name: &Option<String>) -> (c: Option<String>)
    ensures
        name_view(c) == name_view(*name),
{
    match name {
        Some(s) => Some(s.clone()),
        None => None,
    }
}

/// Plan the widening of the variants.
pub fn plan_widen(variants: &Vec<Variant>, generics: &Vec<GenericParam>) -> (r: Result<WidenPlan, usize>)
    ensures
        match r {
            Ok(p) => widen_plan(variants@, generics@) == Ok::<_, nat>(p@),
            Err(i) => widen_plan(variants@, generics@) == Err::<WidenView, _>(i as nat),
        },
{
    let mut arms: Vec<WidenArm> = Vec::new();
    let mut v: usize = 0;
    assert(variants@.take(0) =~= Seq::<Variant>::empty());
    while v < variants.len()
        invariant
            v <= variants.len(),
            first_not_one_field(variants@.take(v as int)) is None,
            arms@.map_values(|a: WidenArm| a@) =~= widen_arms(variants@.take(v as int)),
        decreases variants.len() - v,
    {
        assert(variants@.take(v + 1).drop_last() =~= variants@.take(v as int));
        assert(variants@.take(v + 1).last() == variants@[v as int]);
        let fields = fields_of(&variants[v].fields);
        if fields.len() != 1 {
            proof {
                lemma_first_not_one_field_extend(variants@, (v + 1) as nat);
            }
            return Err(v);
        }
        let field = copy_name(&fields[0].name);
        let ghost before = arms@;
        arms.push(WidenArm { variant: v, field });
        assert(arms@.map_values(|a: WidenArm| a@) =~= before.map_values(|a: WidenArm| a@).push(arms@.last()@));
        assert(widen_arms(variants@.take(v + 1)) =~= widen_arms(variants@.take(v as int)).push(arms@.last()@));
        v = v + 1;
    }
    assert(variants@.take(v as int) =~= variants@);
    let target = target_ident(generics);
    Ok(WidenPlan { target, arms })
}

pub proof fn lemma_first_not_one_field_extend(variants: Seq<Variant>, n: nat)
    requires
        n <= variants.len(),
        first_not_one_field(variants.take(n as int)) is Some,
    ensures
        first_not_one_field(variants) == first_not_one_field(variants.take(n as int)),
    decreases variants.len() - n,
{
    if n < variants.len() {
        assert(variants.take(n + 1int).drop_last() =~= variants.take(n as int));
        lemma_first_not_one_field_extend(variants, n + 1);
    } else {
        assert(variants.take(n as int) =~= variants);
    }
}

/// What the derive generates: the `From` conversions that the `subsume`
/// attributes ask for, and the widening of the enum unless a variant does
/// not hold exactly one field.
#[derive(Debug)]
pub struct Expansion {
    pub from_impls: Vec<FromImpl>,
    pub widen: Option<WidenPlan>,
}

pub ghost struct ExpansionView {
    pub from_impls: Seq<ImplView>,
    pub widen: Option<WidenView>,
}

impl View for Expansion {
    type V = ExpansionView;

    open spec fn view(&self) -> ExpansionView {
        ExpansionView {
            from_impls: impl_views(self.from_impls@),
            widen: match self.widen {
                Some(w) => Some(w@),
                None => None,
            },
        }
    }
}

/// The expansion of the derive on `input`. The checks come in this order:
/// the input must be an enum; no `subsume` attribute may stand on the enum
/// or on a field; the `subsume` attributes must be valid; then every
/// variant must hold exactly one field, except that when the attributes ask
/// for conversions, a variant with another number of fields only leaves the
/// widening out.
pub open spec fn expansion(input: DeriveInput) -> Result<ExpansionView, DeriveError> {
    match input.data {
        Data::Enum(vs) => match first_subsume(input.attrs@) {
            Some(i) => Err(DeriveError { kind: ErrorKind::MisplacedSubsume, site: ErrorSite::EnumAttr(i as usize) }),
            None => match misplaced_in_variants(vs@) {
                Some((v, f, a)) => Err(
                    DeriveError {
                        kind: ErrorKind::MisplacedSubsume,
                        site: ErrorSite::FieldAttr(v as usize, f as usize, a as usize),
                    },
                ),
                None => match from_conversions(vs@) {
                    Err(e) => Err(e),
                    Ok(impls) => match widen_plan(vs@, input.generics@) {
                        Err(v) => if impls.len() > 0 {
                            Ok(ExpansionView { from_impls: impls, widen: None })
                        } else {
                            Err(DeriveError { kind: ErrorKind::NotOneField, site: ErrorSite::Variant(v as usize) })
                        },
                        Ok(w) => Ok(ExpansionView { from_impls: impls, widen: Some(w) }),
                    },
                },
            },
        },
        _ => Err(DeriveError { kind: ErrorKind::NotAnEnum, site: ErrorSite::EnumName }),
    }
}

/// Expand the derive on `input`.
pub fn expand(input: &DeriveInput) -> (r: Result<Expansion, DeriveError>)
    ensures
        match r {
            Ok(e) => expansion(*input) == Ok::<_, DeriveError>(e@),
            Err(err) => expansion(*input) == Err::<ExpansionView, _>(err),
        },
{
    let variants = match &input.data {
        Data::Enum(vs) => vs,
        _ => {
            return Err(DeriveError { kind: ErrorKind::NotAnEnum, site: ErrorSite::EnumName });
        },
    };
    if let Err(i) = validate_attributes(&input.attrs) {
        return Err(DeriveError { kind: ErrorKind::MisplacedSubsume, site: ErrorSite::EnumAttr(i) });
    }
    if let Some((v, f, a)) = check_field_attrs(variants) {
        return Err(DeriveError { kind: ErrorKind::MisplacedSubsume, site: ErrorSite::FieldAttr(v, f, a) });
    }
    let from_impls = expand_subsume(variants)?;
    match plan_widen(variants, &input.generics) {
        Err(v) => {
            if from_impls.len() > 0 {
                Ok(Expansion { from_impls, widen: None })
            } else {
                Err(DeriveError { kind: ErrorKind::NotOneField, site: ErrorSite::Variant(v) })
            }
        },
        Ok(plan) => Ok(Expansion { from_impls, widen: Some(plan) }),
    }
}

/// The first `subsume` attribute is the first attribute whose path is the
/// identifier `subsume`; there is none exactly when no attribute is one.
pub proof fn law_first_subsume(attrs: Seq<Attribute>)
    ensures
        match first_subsume(attrs) {
            Some(i) => i < attrs.len() && is_subsume(attrs[i as int]) && forall|j: int|
                0 <= j < i ==> !is_subsume(#[trigger] attrs[j]),
            None => forall|j: int| 0 <= j < attrs.len() ==> !is_subsume(#[trigger] attrs[j]),
        },
    decreases attrs.len(),
{
    if attrs.len() > 0 {
        let prev = attrs.drop_last();
        law_first_subsume(prev);
        match first_subsume(prev) {
            Some(i) => {
                assert forall|j: int| 0 <= j < i implies !is_subsume(#[trigger] attrs[j]) by {
                    assert(attrs[j] == prev[j]);
                }
                assert(attrs[i as int] == prev[i as int]);
            },
            None => {
                assert forall|j: int| 0 <= j < attrs.len() - 1 implies !is_subsume(#[trigger] attrs[j]) by {
                    assert(attrs[j] == prev[j]);
                }
            },
        }
    }
}

/// The widening covers every variant once, in order, each arm taking the
/// variant's own only field (by that field's name where it is named), and
/// exists exactly when every variant holds exactly one field; otherwise the
/// error is the first variant that does not.
pub proof fn law_widening_covers_every_variant(variants: Seq<Variant>, generics: Seq<GenericParam>)
    ensures
        match widen_plan(variants, generics) {
            Ok(w) => {
                &&& forall|i: int| 0 <= i < variants.len() ==> field_seq((#[trigger] variants[i]).fields).len() == 1
                &&& w.arms.len() == variants.len()
                &&& forall|i: int| 0 <= i < variants.len() ==> (#[trigger] w.arms[i]).variant == i
                &&& forall|i: int|
                    0 <= i < variants.len() ==> (#[trigger] w.arms[i]).field == name_view(
                        field_seq(variants[i].fields)[0].name,
                    )
                &&& w.target == widen_target(generics)
            },
            Err(v) => {
                &&& v < variants.len()
                &&& field_seq(variants[v as int].fields).len() != 1
                &&& forall|i: int| 0 <= i < v ==> field_seq((#[trigger] variants[i]).fields).len() == 1
            },
        },
{
    lemma_first_not_one_field(variants);
}

pub proof fn lemma_first_not_one_field(variants: Seq<Variant>)
    ensures
        match first_not_one_field(variants) {
            Some(v) => {
                &&& v < variants.len()
                &&& field_seq(variants[v as int].fields).len() != 1
                &&& forall|i: int| 0 <= i < v ==> field_seq((#[trigger] variants[i]).fields).len() == 1
            },
            None => forall|i: int| 0 <= i < variants.len() ==> field_seq((#[trigger] variants[i]).fields).len() == 1,
        },
    decreases variants.len(),
{
    if variants.len() > 0 {
        let prev = variants.drop_last();
        lemma_first_not_one_field(prev);
        match first_not_one_field(prev) {
            Some(v) => {
                assert forall|i: int| 0 <= i < v implies field_seq((#[trigger] variants[i]).fields).len() == 1 by {
                    assert(variants[i] == prev[i]);
                }
                assert(variants[v as int] == prev[v as int]);
            },
            None => {
                assert forall|i: int| 0 <= i < variants.len() - 1 implies field_seq((#[trigger] variants[i]).fields).len()
                    == 1 by {
                    assert(variants[i] == prev[i]);
                }
            },
        }
    }
}

/// Where the fields of variants hold `subsume` attributes: none exactly when
/// no field of any variant, in parentheses or in braces, holds one, and
/// otherwise the first such attribute, by variant, then field, then
/// attribute.
pub proof fn law_misplaced_on_fields(variants: Seq<Variant>)
    ensures
        match misplaced_in_variants(variants) {
            None => forall|v: int, f: int, a: int|
                0 <= v < variants.len() && 0 <= f < field_seq(variants[v].fields).len() && 0 <= a
                    < field_seq(variants[v].fields)[f].attrs@.len() ==> !is_subsume(
                    #[trigger] field_seq(variants[v].fields)[f].attrs@[a],
                ),
            Some((v, f, a)) => {
                &&& v < variants.len()
                &&& f < field_seq(variants[v as int].fields).len()
                &&& a < field_seq(variants[v as int].fields)[f as int].attrs@.len()
                &&& is_subsume(field_seq(variants[v as int].fields)[f as int].attrs@[a as int])
                &&& forall|w: int, g: int, b: int|
                    0 <= w < variants.len() && 0 <= g < field_seq(variants[w].fields).len() && 0 <= b
                        < field_seq(variants[w].fields)[g].attrs@.len() && (w < v || (w == v && g < f) || (w
                        == v && g == f && b < a)) ==> !is_subsume(
                        #[trigger] field_seq(variants[w].fields)[g].attrs@[b],
                    )
            },
        },
    decreases variants.len(),
{
    if variants.len() > 0 {
        let prev = variants.drop_last();
        let last = variants.len() - 1;
        law_misplaced_on_fields(prev);
        assert forall|w: int| 0 <= w < last implies #[trigger] variants[w] == prev[w] by {}
        match misplaced_in_variants(prev) {
            Some((v, f, a)) => {
                assert(variants[v as int] == prev[v as int]);
            },
            None => {
                lemma_misplaced_in_fields(field_seq(variants[last].fields));
            },
        }
    }
}

/// The first field and attribute of `fields` that is a `subsume`
/// attribute.
pub proof fn lemma_misplaced_in_fields(fields: Seq<Field>)
    ensures
        match misplaced_in_fields(fields) {
            None => forall|f: int, a: int|
                0 <= f < fields.len() && 0 <= a < fields[f].attrs@.len() ==> !is_subsume(
                    #[trigger] fields[f].attrs@[a],
                ),
            Some((f, a)) => {
                &&& f < fields.len()
                &&& a < fields[f as int].attrs@.len()
                &&& is_subsume(fields[f as int].attrs@[a as int])
                &&& forall|g: int, b: int|
                    0 <= g < fields.len() && 0 <= b < fields[g].attrs@.len() && (g < f || (g == f && b < a))
                        ==> !is_subsume(#[trigger] fields[g].attrs@[b])
            },
        },
    decreases fields.len(),
{
    if fields.len() > 0 {
        let prev = fields.drop_last();
        let last = fields.len() - 1;
        lemma_misplaced_in_fields(prev);
        law_first_subsume(fields[last].attrs@);
        assert forall|g: int| 0 <= g < last implies #[trigger] fields[g] == prev[g] by {}
        match misplaced_in_fields(prev) {
            Some((f, a)) => {
                assert(fields[f as int] == prev[f as int]);
            },
            None => {},
        }
    }
}

/// Every variant holds exactly one field.
pub open spec fn one_field_each(variants: Seq<Variant>) -> bool {
    forall|i: int| 0 <= i < variants.len() ==> field_seq((#[trigger] variants[i]).fields).len() == 1
}

/// What the derive makes of its input, in the order in which it checks it:
/// a struct or union is refused at its name; then the first `subsume`
/// attribute on the enum itself is refused; then the first one on a field
/// of any variant; then an error of the conversions is reported as it is.
/// Otherwise the expansion holds the planned conversions, and the widening
/// exactly when every variant holds exactly one field. Where some variant
/// does not, the conversions alone are generated if there are any, and
/// otherwise the first such variant is refused.
pub proof fn law_expansion(input: DeriveInput)
    ensures
        !(input.data is Enum) ==> expansion(input) == Err::<ExpansionView, DeriveError>(
            DeriveError { kind: ErrorKind::NotAnEnum, site: ErrorSite::EnumName },
        ),
        input.data matches Data::Enum(vs) ==> {
            let variants = vs@;
            let enum_attrs = input.attrs@;
            ||| exists|i: int|
                0 <= i < enum_attrs.len() && is_subsume(#[trigger] enum_attrs[i]) && (forall|j: int|
                    0 <= j < i ==> !is_subsume(#[trigger] enum_attrs[j])) && expansion(input) == Err::<
                    ExpansionView,
                    DeriveError,
                >(DeriveError { kind: ErrorKind::MisplacedSubsume, site: ErrorSite::EnumAttr(i as usize) })
            ||| (forall|i: int| 0 <= i < enum_attrs.len() ==> !is_subsume(#[trigger] enum_attrs[i])) && exists|
                v: int,
                f: int,
                a: int,
            |
                0 <= v < variants.len() && 0 <= f < field_seq(variants[v].fields).len() && 0 <= a
                    < field_seq(variants[v].fields)[f].attrs@.len() && is_subsume(
                    #[trigger] field_seq(variants[v].fields)[f].attrs@[a],
                ) && expansion(input) == Err::<ExpansionView, DeriveError>(
                    DeriveError {
                        kind: ErrorKind::MisplacedSubsume,
                        site: ErrorSite::FieldAttr(v as usize, f as usize, a as usize),
                    },
                )
            ||| {
                &&& forall|i: int| 0 <= i < enum_attrs.len() ==> !is_subsume(#[trigger] enum_attrs[i])
                &&& forall|v: int, f: int, a: int|
                    0 <= v < variants.len() && 0 <= f < field_seq(variants[v].fields).len() && 0 <= a
                        < field_seq(variants[v].fields)[f].attrs@.len() ==> !is_subsume(
                        #[trigger] field_seq(variants[v].fields)[f].attrs@[a],
                    )
                &&& match from_conversions(variants) {
                    Err(e) => expansion(input) == Err::<ExpansionView, DeriveError>(e),
                    Ok(impls) => if one_field_each(variants) {
                        expansion(input) == Ok::<ExpansionView, DeriveError>(
                            ExpansionView {
                                from_impls: impls,
                                widen: Some(widen_plan(variants, input.generics@)->Ok_0),
                            },
                        )
                    } else if impls.len() > 0 {
                        expansion(input) == Ok::<ExpansionView, DeriveError>(
                            ExpansionView { from_impls: impls, widen: None },
                        )
                    } else {
                        exists|v: int|
                            0 <= v < variants.len() && field_seq((#[trigger] variants[v]).fields).len() != 1
                                && (forall|i: int| 0 <= i < v ==> field_seq((#[trigger] variants[i]).fields).len() == 1)
                                && expansion(input) == Err::<ExpansionView, DeriveError>(
                                DeriveError { kind: ErrorKind::NotOneField, site: ErrorSite::Variant(v as usize) },
                            )
                    },
                }
            }
        },
{
    if let Data::Enum(vs) = input.data {
        let variants = vs@;
        law_first_subsume(input.attrs@);
        law_misplaced_on_fields(variants);
        lemma_first_not_one_field(variants);
        match first_subsume(input.attrs@) {
            Some(i) => {
                assert(is_subsume(input.attrs@[i as int]));
            },
            None => match misplaced_in_variants(variants) {
                Some((v, f, a)) => {
                    assert(is_subsume(field_seq(variants[v as int].fields)[f as int].attrs@[a as int]));
                },
                None => {
                    match first_not_one_field(variants) {
                        Some(v) => {
                            assert(field_seq(variants[v as int].fields).len() != 1);
                        },
                        None => {},
                    }
                },
            },
        }
    }
}

} // verus!
