//! The `From` conversions that the `subsume` attributes of an enum ask
//! for: one conversion per source enum, with one arm per source variant that
//! names the destination variant it becomes.
use vstd::prelude::*;
use crate::tokens::{copy_stream, tokens_eq, tokens_of};
use crate::error::{DeriveError, ErrorKind, ErrorSite};
use crate::sources::{mapping_views, parse_subsume_attr, subsume_attr_sources, MappingView, SourceMapping};
use crate::syntax::{attr_is_subsume, field_seq, fields_of, is_subsume, PathSegment, PathView, SegmentView, SourcePath, Variant};

verus! {

/// One arm of a conversion: the source variant, the index of the
/// destination variant, and whether the payload is converted with `Into`
/// (`from(...)`) rather than moved as it is.
#[derive(Debug)]
pub struct FromArm {
    pub source_variant: String,
    pub target: usize,
    pub convert: bool,
}

/// The conversion from one source enum: its type (the source path without
/// the variant segment) and its arms in the order in which they are named.
#[derive(Debug)]
pub struct FromImpl {
    pub source: SourcePath,
    pub arms: Vec<FromArm>,
}

pub ghost struct ArmView {
    pub source_variant: Seq<char>,
    pub target: nat,
    pub convert: bool,
}

pub ghost struct ImplView {
    pub source: PathView,
    pub arms: Seq<ArmView>,
}

impl View for FromArm {
    type V = ArmView;

    open spec fn view(&self) -> ArmView {
        ArmView { source_variant: self.source_variant@, target: self.target as nat, convert: self.convert }
    }
}

impl View for FromImpl {
    type V = ImplView;

    open spec fn view(&self) -> ImplView {
        ImplView { source: self.source@, arms: self.arms@.map_values(|a: FromArm| a@) }
    }
}

pub open spec fn impl_views(impls: Seq<FromImpl>) -> Seq<ImplView> {
    impls.map_values(|i: FromImpl| i@)
}

/// The sources of one `subsume` attribute: the variant that it stands on,
/// its index among that variant's attributes, and what was read of it.
pub struct SubsumeAttr {
    pub variant: usize,
    pub attr: usize,
    pub sources: Result<Vec<SourceMapping>, DeriveError>,
}

pub ghost struct AttrView {
    pub variant: nat,
    pub attr: nat,
    pub sources: Result<Seq<MappingView>, DeriveError>,
}

impl View for SubsumeAttr {
    type V = AttrView;

    open spec fn view(&self) -> AttrView {
        AttrView {
            variant: self.variant as nat,
            attr: self.attr as nat,
            sources: match self.sources {
                Ok(ms) => Ok(mapping_views(ms@)),
                Err(e) => Err(e),
            },
        }
    }
}

pub open spec fn attr_views(attrs: Seq<SubsumeAttr>) -> Seq<AttrView> {
    attrs.map_values(|a: SubsumeAttr| a@)
}

/// A segment as it stands in a type: `Src::<T>` and `Src<T>` name the
/// same type, so the turbofish is dropped.
pub open spec fn type_segment(s: SegmentView) -> SegmentView {
    SegmentView { turbofish: false, ..s }
}

/// The source enum's type: the path without its last segment, each
/// segment as it stands in a type.
pub open spec fn source_type(p: PathView) -> PathView {
    PathView {
        leading_colon: p.leading_colon,
        segments: p.segments.drop_last().map_values(|s: SegmentView| type_segment(s)),
    }
}

/// The source variant: the last segment's identifier.
pub open spec fn variant_name(p: PathView) -> Seq<char> {
    p.segments.last().ident
}

/// The index of the first conversion from source type `ty`, or -1.
pub open spec fn impl_index(impls: Seq<ImplView>, ty: PathView) -> int
    decreases impls.len(),
{
    if impls.len() == 0 {
        -1
    } else {
        let j = impl_index(impls.drop_last(), ty);
        if j >= 0 {
            j
        } else if impls.last().source == ty {
            impls.len() - 1
        } else {
            -1
        }
    }
}

pub open spec fn has_arm(arms: Seq<ArmView>, name: Seq<char>) -> bool {
    exists|k: int| 0 <= k < arms.len() && (#[trigger] arms[k]).source_variant == name
}

/// Add one source of destination variant `target` (which has fields or
/// not) to the conversions, or report the error of the source at `site`.
pub open spec fn add_mapping(
    impls: Seq<ImplView>,
    m: MappingView,
    target: nat,
    has_fields: bool,
    site: ErrorSite,
) -> Result<Seq<ImplView>, DeriveError> {
    if m.path.segments.len() < 2 {
        Err(DeriveError { kind: ErrorKind::ExpectedSourceVariant, site })
    } else if m.path.segments.last().args is Some {
        Err(DeriveError { kind: ErrorKind::GenericArgumentsOnVariant, site })
    } else {
        let ty = source_type(m.path);
        let name = variant_name(m.path);
        let j = impl_index(impls, ty);
        let arm = ArmView { source_variant: name, target, convert: m.convert };
        if j >= 0 && has_arm(impls[j].arms, name) {
            Err(DeriveError { kind: ErrorKind::AlreadyMapped, site })
        } else if m.convert && !has_fields {
            Err(DeriveError { kind: ErrorKind::ConversionNeedsFields, site })
        } else if j >= 0 {
            Ok(impls.update(j, ImplView { source: ty, arms: impls[j].arms.push(arm) }))
        } else {
            Ok(impls.push(ImplView { source: ty, arms: seq![arm] }))
        }
    }
}

/// Add the sources of attribute `a` of variant `v`, in order.
pub open spec fn add_mappings(
    impls: Seq<ImplView>,
    ms: Seq<MappingView>,
    v: nat,
    a: nat,
    has_fields: bool,
) -> Result<Seq<ImplView>, DeriveError>
    decreases ms.len(),
{
    if ms.len() == 0 {
        Ok(impls)
    } else {
        match add_mappings(impls, ms.drop_last(), v, a, has_fields) {
            Err(e) => Err(e),
            Ok(next) => add_mapping(
                next,
                ms.last(),
                v,
                has_fields,
                ErrorSite::Mapping(v as usize, a as usize, (ms.len() - 1) as usize),
            ),
        }
    }
}

pub open spec fn variant_has_fields(variants: Seq<Variant>, v: nat) -> bool {
    field_seq(variants[v as int].fields).len() > 0
}

/// The conversions that the `subsume` attributes ask for, read in order;
/// the first error stops the reading.
pub open spec fn plan_conversions(variants: Seq<Variant>, attrs: Seq<AttrView>) -> Result<Seq<ImplView>, DeriveError>
    decreases attrs.len(),
{
    if attrs.len() == 0 {
        Ok(Seq::empty())
    } else {
        match plan_conversions(variants, attrs.drop_last()) {
            Err(e) => Err(e),
            Ok(impls) => match attrs.last().sources {
                Err(e) => Err(e),
                Ok(ms) => add_mappings(
                    impls,
                    ms,
                    attrs.last().variant,
                    attrs.last().attr,
                    variant_has_fields(variants, attrs.last().variant),
                ),
            },
        }
    }
}

fn type_segment_of(s: &PathSegment) -> (c: PathSegment)
    ensures
        c@ == type_segment(s@),
{
    let args = match &s.args {
        Some(a) => Some(copy_stream(a)),
        None => None,
    };
    PathSegment { ident: s.ident.clone(), args, turbofish: false }
}

/// The source type of a path with at least one segment.
pub(crate) fn source_type_of(p: &SourcePath) -> (ty: SourcePath)
    requires
        p.segments.len() >= 1,
    ensures
        ty@ == source_type(p@),
{
    let mut segments: Vec<PathSegment> = Vec::new();
    let n = p.segments.len() - 1;
    let mut i: usize = 0;
    while i < n
        invariant
            n == p.segments.len() - 1,
            i <= n,
            segments@.map_values(|s: PathSegment| s@)
                =~= p@.segments.take(i as int).map_values(|s: SegmentView| type_segment(s)),
        decreases n - i,
    {
        let c = type_segment_of(&p.segments[i]);
        let ghost before = segments@;
        segments.push(c);
        assert(segments@.map_values(|s: PathSegment| s@) =~= before.map_values(|s: PathSegment| s@).push(c@));
        assert(p@.segments.take(i + 1) =~= p@.segments.take(i as int).push(p@.segments[i as int]));
        i = i + 1;
    }
    let ty = SourcePath { leading_colon: p.leading_colon, segments };
    assert(p@.segments.take(n as int) =~= p@.segments.drop_last());
    assert(ty@.segments =~= source_type(p@).segments);
    ty
}

fn segment_eq(a: &PathSegment, b: &PathSegment) -> (r: bool)
    ensures
        r == (a@ == b@),
{
    let args = match (&a.args, &b.args) {
        (Some(x), Some(y)) => tokens_eq(&tokens_of(x), &tokens_of(y)),
        (None, None) => true,
        _ => false,
    };
    a.ident == b.ident && args && a.turbofish == b.turbofish
}

/// Whether two paths are the same.
pub(crate) fn path_eq(a: &SourcePath, b: &SourcePath) -> (r: bool)
    ensures
        r == (a@ == b@),
{
    if a.leading_colon != b.leading_colon || a.segments.len() != b.segments.len() {
        assert(a@.segments.len() == a.segments.len());
        return false;
    }
    let mut i: usize = 0;
    while i < a.segments.len()
        invariant
            i <= a.segments.len() == b.segments.len(),
            forall|k: int| 0 <= k < i ==> a@.segments[k] == b@.segments[k],
        decreases a.segments.len() - i,
    {
        if !segment_eq(&a.segments[i], &b.segments[i]) {
            assert(a@.segments[i as int] != b@.segments[i as int]);
            return false;
        }
        i = i + 1;
    }
    assert(a@.segments =~= b@.segments);
    true
}

pub proof fn lemma_impl_index_extend(impls: Seq<ImplView>, ty: PathView, i: int)
    requires
        0 <= i <= impls.len(),
        impl_index(impls.take(i), ty) >= 0,
    ensures
        impl_index(impls, ty) == impl_index(impls.take(i), ty),
    decreases impls.len() - i,
{
    if i < impls.len() {
        assert(impls.take(i + 1).drop_last() =~= impls.take(i));
        lemma_impl_index_extend(impls, ty, i + 1);
    } else {
        assert(impls.take(i) =~= impls);
    }
}

pub proof fn lemma_impl_index_bounds(impls: Seq<ImplView>, ty: PathView)
    ensures
        -1 <= impl_index(impls, ty) < impls.len(),
        impl_index(impls, ty) >= 0 ==> impls[impl_index(impls, ty)].source == ty,
        impl_index(impls, ty) == -1 ==> forall|k: int| 0 <= k < impls.len() ==> (#[trigger] impls[k]).source != ty,
    decreases impls.len(),
{
    if impls.len() > 0 {
        lemma_impl_index_bounds(impls.drop_last(), ty);
        if impl_index(impls, ty) == -1 {
            assert forall|k: int| 0 <= k < impls.len() implies (#[trigger] impls[k]).source != ty by {
                if k < impls.len() - 1 {
                    assert(impls[k] == impls.drop_last()[k]);
                }
            }
        }
    }
}

/// The index of the conversion from source type `ty`.
pub(crate) fn find_impl(impls: &Vec<FromImpl>, ty: &SourcePath) -> (j: Option<usize>)
    ensures
        match j {
            Some(j) => impl_index(impl_views(impls@), ty@) == j as int,
            None => impl_index(impl_views(impls@), ty@) == -1,
        },
{
    let ghost views = impl_views(impls@);
    let mut i: usize = 0;
    assert(views.take(0) =~= Seq::<ImplView>::empty());
    while i < impls.len()
        invariant
            i <= impls.len(),
            views == impl_views(impls@),
            impl_index(views.take(i as int), ty@) == -1,
        decreases impls.len() - i,
    {
        assert(views.take(i + 1).drop_last() =~= views.take(i as int));
        if path_eq(&impls[i].source, ty) {
            assert(impl_index(views.take(i + 1), ty@) == i);
            proof {
                lemma_impl_index_extend(views, ty@, i + 1);
            }
            return Some(i);
        }
        i = i + 1;
    }
    assert(views.take(i as int) =~= views);
    None
}

/// Whether a conversion already has an arm for source variant `name`.
pub(crate) fn find_arm(arms: &Vec<FromArm>, name: &String) -> (found: bool)
    ensures
        found == has_arm(arms@.map_values(|a: FromArm| a@), name@),
{
    let ghost views = arms@.map_values(|a: FromArm| a@);
    let mut i: usize = 0;
    while i < arms.len()
        invariant
            i <= arms.len(),
            views == arms@.map_values(|a: FromArm| a@),
            forall|k: int| 0 <= k < i ==> views[k].source_variant != name@,
        decreases arms.len() - i,
    {
        if arms[i].source_variant == *name {
            assert(views[i as int].source_variant == name@);
            return true;
        }
        i = i + 1;
    }
    false
}

/// Add one source of destination variant `target` to the conversions.
pub(crate) fn apply_mapping(
    impls: &mut Vec<FromImpl>,
    m: &SourceMapping,
    target: usize,
    has_fields: bool,
    site: ErrorSite,
) -> (r: Result<(), DeriveError>)
    ensures
        r is Ok <==> add_mapping(impl_views(old(impls)@), m@, target as nat, has_fields, site) is Ok,
        r matches Err(e) ==> add_mapping(impl_views(old(impls)@), m@, target as nat, has_fields, site)
            == Err::<Seq<ImplView>, DeriveError>(e),
        r is Ok ==> add_mapping(impl_views(old(impls)@), m@, target as nat, has_fields, site)
            == Ok::<_, DeriveError>(impl_views(final(impls)@)),
        r is Err ==> final(impls)@ == old(impls)@,
{
    let ghost before = impl_views(impls@);
    let n = m.path.segments.len();
    assert(m@.path.segments.len() == n);
    if n < 2 {
        return Err(DeriveError { kind: ErrorKind::ExpectedSourceVariant, site });
    }
    assert(m@.path.segments.last() == m.path.segments@[n - 1]@);
    if m.path.segments[n - 1].args.is_some() {
        return Err(DeriveError { kind: ErrorKind::GenericArgumentsOnVariant, site });
    }
    let ty = source_type_of(&m.path);
    let name = m.path.segments[n - 1].ident.clone();
    let arm = FromArm { source_variant: name, target, convert: m.convert };
    let ghost arm_view = arm@;
    assert(arm_view == ArmView { source_variant: variant_name(m@.path), target: target as nat, convert: m@.convert });
    proof {
        lemma_impl_index_bounds(before, ty@);
    }
    match find_impl(impls, &ty) {
        Some(j) => {
            assert(impl_views(impls@)[j as int] == impls@[j as int]@);
            if find_arm(&impls[j].arms, &arm.source_variant) {
                return Err(DeriveError { kind: ErrorKind::AlreadyMapped, site });
            }
            if m.convert && !has_fields {
                return Err(DeriveError { kind: ErrorKind::ConversionNeedsFields, site });
            }
            let mut entry = impls.remove(j);
            let ghost old_arms = entry.arms@;
            entry.arms.push(arm);
            assert(entry.arms@.map_values(|a: FromArm| a@) =~= old_arms.map_values(|a: FromArm| a@).push(arm_view));
            impls.insert(j, entry);
            assert(impl_views(impls@) =~= before.update(
                j as int,
                ImplView { source: ty@, arms: before[j as int].arms.push(arm_view) },
            ));
            Ok(())
        },
        None => {
            if m.convert && !has_fields {
                return Err(DeriveError { kind: ErrorKind::ConversionNeedsFields, site });
            }
            let mut arms: Vec<FromArm> = Vec::new();
            arms.push(arm);
            assert(arms@.map_values(|a: FromArm| a@) =~= seq![arm_view]);
            impls.push(FromImpl { source: ty, arms });
            assert(impl_views(impls@) =~= before.push(ImplView { source: ty@, arms: seq![arm_view] }));
            Ok(())
        },
    }
}

/// Add the sources of attribute `a` of variant `v`, in order.
pub(crate) fn apply_mappings(
    impls: &mut Vec<FromImpl>,
    ms: &Vec<SourceMapping>,
    v: usize,
    a: usize,
    has_fields: bool,
) -> (r: Result<(), DeriveError>)
    ensures
        r is Ok <==> add_mappings(impl_views(old(impls)@), mapping_views(ms@), v as nat, a as nat, has_fields) is Ok,
        r matches Err(e) ==> add_mappings(impl_views(old(impls)@), mapping_views(ms@), v as nat, a as nat, has_fields)
            == Err::<Seq<ImplView>, DeriveError>(e),
        r is Ok ==> add_mappings(impl_views(old(impls)@), mapping_views(ms@), v as nat, a as nat, has_fields)
            == Ok::<_, DeriveError>(impl_views(final(impls)@)),
{
    let ghost start = impl_views(impls@);
    let ghost views = mapping_views(ms@);
    let mut k: usize = 0;
    assert(views.take(0) =~= Seq::<MappingView>::empty());
    while k < ms.len()
        invariant
            k <= ms.len(),
            views == mapping_views(ms@),
            start == impl_views(old(impls)@),
            add_mappings(start, views.take(k as int), v as nat, a as nat, has_fields)
                == Ok::<_, DeriveError>(impl_views(impls@)),
        decreases ms.len() - k,
    {
        assert(views.take(k + 1int).drop_last() =~= views.take(k as int));
        assert(views.take(k + 1int).last() == ms@[k as int]@);
        let ghost before = impl_views(impls@);
        let r = apply_mapping(impls, &ms[k], v, has_fields, ErrorSite::Mapping(v, a, k));
        match r {
            Err(e) => {
                assert(add_mappings(start, views.take(k + 1), v as nat, a as nat, has_fields)
                    == add_mapping(before, ms@[k as int]@, v as nat, has_fields, ErrorSite::Mapping(v, a, k)));
                proof {
                    lemma_add_mappings_prefix_error(start, views, v as nat, a as nat, has_fields, k as nat);
                }
                return Err(e);
            },
            Ok(()) => {},
        }
        k = k + 1;
    }
    assert(views.take(k as int) =~= views);
    Ok(())
}

/// Once the sources of a prefix end in an error, all the sources do.
pub proof fn lemma_add_mappings_prefix_error(
    impls: Seq<ImplView>,
    ms: Seq<MappingView>,
    v: nat,
    a: nat,
    has_fields: bool,
    k: nat,
)
    requires
        k < ms.len(),
        add_mappings(impls, ms.take(k + 1int), v, a, has_fields) is Err,
    ensures
        add_mappings(impls, ms, v, a, has_fields) == add_mappings(impls, ms.take(k + 1int), v, a, has_fields),
    decreases ms.len(),
{
    if ms.len() == k + 1 {
        assert(ms.take(k + 1int) =~= ms);
    } else {
        assert(ms.drop_last().take(k + 1int) =~= ms.take(k + 1int));
        lemma_add_mappings_prefix_error(impls, ms.drop_last(), v, a, has_fields, k);
    }
}

/// Whether variant `v` has fields.
pub(crate) fn has_fields(variants: &Vec<Variant>, v: usize) -> (b: bool)
    requires
        v < variants.len(),
    ensures
        b == variant_has_fields(variants@, v as nat),
{
    fields_of(&variants[v].fields).len() > 0
}

/// The conversions that the `subsume` attributes ask for, from what was
/// read of each attribute, in the order in which they are written.
pub fn plan_from_impls(variants: &Vec<Variant>, attrs: &Vec<SubsumeAttr>) -> (r: Result<Vec<FromImpl>, DeriveError>)
    requires
        forall|i: int| 0 <= i < attrs.len() ==> (#[trigger] attrs@[i]).variant < variants.len(),
    ensures
        match r {
            Ok(impls) => plan_conversions(variants@, attr_views(attrs@)) == Ok::<_, DeriveError>(impl_views(impls@)),
            Err(e) => plan_conversions(variants@, attr_views(attrs@)) == Err::<Seq<ImplView>, _>(e),
        },
{
    let ghost views = attr_views(attrs@);
    let mut impls: Vec<FromImpl> = Vec::new();
    let mut i: usize = 0;
    assert(views.take(0) =~= Seq::<AttrView>::empty());
    assert(impl_views(impls@) =~= Seq::<ImplView>::empty());
    while i < attrs.len()
        invariant
            i <= attrs.len(),
            views == attr_views(attrs@),
            forall|i: int| 0 <= i < attrs.len() ==> (#[trigger] attrs@[i]).variant < variants.len(),
            plan_conversions(variants@, views.take(i as int)) == Ok::<_, DeriveError>(impl_views(impls@)),
        decreases attrs.len() - i,
    {
        assert(views.take(i + 1).drop_last() =~= views.take(i as int));
        assert(views.take(i + 1).last() == attrs@[i as int]@);
        let attr = &attrs[i];
        match &attr.sources {
            Err(e) => {
                proof {
                    lemma_plan_prefix_error(variants@, views, i as nat);
                }
                return Err(*e);
            },
            Ok(ms) => {
                let fields = has_fields(variants, attr.variant);
                let r = apply_mappings(&mut impls, ms, attr.variant, attr.attr, fields);
                if let Err(e) = r {
                    proof {
                        lemma_plan_prefix_error(variants@, views, i as nat);
                    }
                    return Err(e);
                }
            },
        }
        i = i + 1;
    }
    assert(views.take(i as int) =~= views);
    Ok(impls)
}

/// Once the attributes of a prefix end in an error, all of them do.
pub proof fn lemma_plan_prefix_error(variants: Seq<Variant>, attrs: Seq<AttrView>, k: nat)
    requires
        k < attrs.len(),
        plan_conversions(variants, attrs.take(k + 1int)) is Err,
    ensures
        plan_conversions(variants, attrs) == plan_conversions(variants, attrs.take(k + 1int)),
    decreases attrs.len(),
{
    if attrs.len() == k + 1 {
        assert(attrs.take(k + 1int) =~= attrs);
    } else {
        assert(attrs.drop_last().take(k + 1int) =~= attrs.take(k + 1int));
        lemma_plan_prefix_error(variants, attrs.drop_last(), k);
    }
}

/// The `subsume` attributes among the first `n` attributes of variant `v`,
/// with what is read of each.
pub open spec fn attrs_of_variant(attrs: Seq<crate::syntax::Attribute>, v: nat, n: nat) -> Seq<AttrView>
    decreases n,
{
    if n == 0 {
        Seq::empty()
    } else {
        let prev = attrs_of_variant(attrs, v, (n - 1) as nat);
        if is_subsume(attrs[n - 1]) {
            prev.push(
                AttrView {
                    variant: v,
                    attr: (n - 1) as nat,
                    sources: subsume_attr_sources(attrs[n - 1], v as usize, (n - 1) as usize),
                },
            )
        } else {
            prev
        }
    }
}

/// The `subsume` attributes of the first `n` variants, in order.
pub open spec fn subsume_attrs(variants: Seq<Variant>, n: nat) -> Seq<AttrView>
    decreases n,
{
    if n == 0 {
        Seq::empty()
    } else {
        subsume_attrs(variants, (n - 1) as nat) + attrs_of_variant(
            variants[n - 1].attrs@,
            (n - 1) as nat,
            variants[n - 1].attrs@.len(),
        )
    }
}

/// Read every `subsume` attribute of the variants, in order.
pub fn collect_subsume_attrs(variants: &Vec<Variant>) -> (attrs: Vec<SubsumeAttr>)
    ensures
        attr_views(attrs@) == subsume_attrs(variants@, variants@.len()),
        forall|i: int| 0 <= i < attrs.len() ==> (#[trigger] attrs@[i]).variant < variants.len(),
{
    let mut attrs: Vec<SubsumeAttr> = Vec::new();
    let mut v: usize = 0;
    assert(attr_views(attrs@) =~= Seq::<AttrView>::empty());
    while v < variants.len()
        invariant
            v <= variants.len(),
            attr_views(attrs@) == subsume_attrs(variants@, v as nat),
            forall|i: int| 0 <= i < attrs.len() ==> (#[trigger] attrs@[i]).variant < v,
        decreases variants.len() - v,
    {
        let ghost before = attr_views(attrs@);
        let variant_attrs = &variants[v].attrs;
        let mut a: usize = 0;
        assert(before + attrs_of_variant(variant_attrs@, v as nat, 0) =~= before);
        while a < variant_attrs.len()
            invariant
                v < variants.len(),
                variant_attrs == &variants@[v as int].attrs,
                a <= variant_attrs.len(),
                before == subsume_attrs(variants@, v as nat),
                attr_views(attrs@) == before + attrs_of_variant(variant_attrs@, v as nat, a as nat),
                forall|i: int| 0 <= i < attrs.len() ==> (#[trigger] attrs@[i]).variant <= v,
            decreases variant_attrs.len() - a,
        {
            if attr_is_subsume(&variant_attrs[a]) {
                let sources = parse_subsume_attr(&variant_attrs[a], v, a);
                let entry = SubsumeAttr { variant: v, attr: a, sources };
                let ghost prev = attrs@;
                attrs.push(entry);
                assert(attr_views(attrs@) =~= attr_views(prev).push(entry@));
            }
            a = a + 1;
        }
        v = v + 1;
    }
    attrs
}

/// The conversions that the `subsume` attributes of the variants ask for.
pub open spec fn from_conversions(variants: Seq<Variant>) -> Result<Seq<ImplView>, DeriveError> {
    plan_conversions(variants, subsume_attrs(variants, variants.len()))
}

/// Read the `subsume` attributes of the variants and plan the conversions
/// that they ask for.
pub fn expand_subsume(variants: &Vec<Variant>) -> (r: Result<Vec<FromImpl>, DeriveError>)
    ensures
        match r {
            Ok(impls) => from_conversions(variants@) == Ok::<_, DeriveError>(impl_views(impls@)),
            Err(e) => from_conversions(variants@) == Err::<Seq<ImplView>, _>(e),
        },
{
    let attrs = collect_subsume_attrs(variants);
    plan_from_impls(variants, &attrs)
}

/// Whether the attribute `x` stands before the attribute `y`: in an earlier
/// variant, or earlier among the attributes of the same variant.
pub open spec fn comes_before(x: AttrView, y: AttrView) -> bool {
    x.variant < y.variant || (x.variant == y.variant && x.attr < y.attr)
}

/// The `subsume` attributes among the first `n` attributes of variant `v`.
pub proof fn lemma_attrs_of_variant(attrs: Seq<crate::syntax::Attribute>, v: nat, n: nat)
    requires
        n <= attrs.len(),
    ensures
        forall|k: int|
            0 <= k < attrs_of_variant(attrs, v, n).len() ==> {
                let x = #[trigger] attrs_of_variant(attrs, v, n)[k];
                &&& x.variant == v
                &&& x.attr < n
                &&& is_subsume(attrs[x.attr as int])
                &&& x.sources == subsume_attr_sources(attrs[x.attr as int], v as usize, x.attr as usize)
            },
        forall|j: int, k: int|
            #![trigger attrs_of_variant(attrs, v, n)[j], attrs_of_variant(attrs, v, n)[k]]
            0 <= j < k < attrs_of_variant(attrs, v, n).len() ==> attrs_of_variant(attrs, v, n)[j].attr
                < attrs_of_variant(attrs, v, n)[k].attr,
        forall|a: int|
            0 <= a < n && is_subsume(#[trigger] attrs[a]) ==> exists|k: int|
                0 <= k < attrs_of_variant(attrs, v, n).len() && (#[trigger] attrs_of_variant(attrs, v, n)[k]).attr
                    == a,
    decreases n,
{
    if n > 0 {
        lemma_attrs_of_variant(attrs, v, (n - 1) as nat);
        let prev = attrs_of_variant(attrs, v, (n - 1) as nat);
        let r = attrs_of_variant(attrs, v, n);
        if is_subsume(attrs[n - 1]) {
            assert forall|k: int| 0 <= k < prev.len() implies #[trigger] r[k] == prev[k] by {}
            assert forall|a: int| 0 <= a < n && is_subsume(#[trigger] attrs[a]) implies exists|k: int|
                0 <= k < r.len() && (#[trigger] r[k]).attr == a by {
                if a == n - 1 {
                    assert(r[prev.len() as int].attr == a);
                } else {
                    let k = choose|k: int| 0 <= k < prev.len() && (#[trigger] prev[k]).attr == a;
                    assert(r[k] == prev[k]);
                }
            }
        }
    }
}

/// The `subsume` attributes of the first `n` variants.
pub proof fn lemma_subsume_attrs(variants: Seq<Variant>, n: nat)
    requires
        n <= variants.len(),
    ensures
        forall|k: int|
            0 <= k < subsume_attrs(variants, n).len() ==> {
                let x = #[trigger] subsume_attrs(variants, n)[k];
                &&& x.variant < n
                &&& x.attr < variants[x.variant as int].attrs@.len()
                &&& is_subsume(variants[x.variant as int].attrs@[x.attr as int])
                &&& x.sources == subsume_attr_sources(
                    variants[x.variant as int].attrs@[x.attr as int],
                    x.variant as usize,
                    x.attr as usize,
                )
            },
        forall|j: int, k: int|
            #![trigger subsume_attrs(variants, n)[j], subsume_attrs(variants, n)[k]]
            0 <= j < k < subsume_attrs(variants, n).len() ==> comes_before(
                subsume_attrs(variants, n)[j],
                subsume_attrs(variants, n)[k],
            ),
        forall|v: int, a: int|
            0 <= v < n && 0 <= a < variants[v].attrs@.len() && is_subsume(#[trigger] variants[v].attrs@[a])
                ==> exists|k: int|
                0 <= k < subsume_attrs(variants, n).len() && (#[trigger] subsume_attrs(variants, n)[k]).variant
                    == v && subsume_attrs(variants, n)[k].attr == a,
    decreases n,
{
    if n > 0 {
        let m = (n - 1) as nat;
        lemma_subsume_attrs(variants, m);
        let attrs = variants[m as int].attrs@;
        lemma_attrs_of_variant(attrs, m, attrs.len());
        let prev = subsume_attrs(variants, m);
        let more = attrs_of_variant(attrs, m, attrs.len());
        let r = subsume_attrs(variants, n);
        assert(r == prev + more);
        assert forall|k: int| 0 <= k < prev.len() implies #[trigger] r[k] == prev[k] by {}
        assert forall|k: int| 0 <= k < more.len() implies #[trigger] r[prev.len() + k] == more[k] by {}
        assert forall|k: int| 0 <= k < r.len() implies {
            let x = #[trigger] r[k];
            &&& x.variant < n
            &&& x.attr < variants[x.variant as int].attrs@.len()
            &&& is_subsume(variants[x.variant as int].attrs@[x.attr as int])
            &&& x.sources == subsume_attr_sources(
                variants[x.variant as int].attrs@[x.attr as int],
                x.variant as usize,
                x.attr as usize,
            )
        } by {
            if k >= prev.len() {
                assert(r[k] == more[k - prev.len()]);
            }
        }
        assert forall|j: int, k: int| 0 <= j < k < r.len() implies comes_before(#[trigger] r[j], #[trigger] r[k]) by {
            if k < prev.len() {
            } else if j < prev.len() {
                assert(r[k] == more[k - prev.len()]);
            } else {
                assert(r[j] == more[j - prev.len()]);
                assert(r[k] == more[k - prev.len()]);
            }
        }
        assert forall|v: int, a: int|
            0 <= v < n && 0 <= a < variants[v].attrs@.len() && is_subsume(#[trigger] variants[v].attrs@[a])
                implies exists|k: int| 0 <= k < r.len() && (#[trigger] r[k]).variant == v && r[k].attr == a by {
            if v < m {
                let k = choose|k: int| 0 <= k < prev.len() && (#[trigger] prev[k]).variant == v && prev[k].attr == a;
                assert(r[k] == prev[k]);
            } else {
                assert(attrs[a] == variants[v].attrs@[a]);
                let k = choose|k: int| 0 <= k < more.len() && (#[trigger] more[k]).attr == a;
                assert(r[prev.len() + k] == more[k]);
            }
        }
    }
}

/// Every `subsume` attribute of every variant is read, once, in the order
/// in which the attributes are written: each entry read is a `subsume`
/// attribute of its variant, with the sources that its arguments name;
/// the entries stand in the order of their variants and attributes; and
/// every `subsume` attribute has an entry.
pub proof fn law_every_subsume_attribute_is_read(variants: Seq<Variant>)
    ensures
        forall|k: int|
            0 <= k < subsume_attrs(variants, variants.len()).len() ==> {
                let x = #[trigger] subsume_attrs(variants, variants.len())[k];
                &&& x.variant < variants.len()
                &&& x.attr < variants[x.variant as int].attrs@.len()
                &&& is_subsume(variants[x.variant as int].attrs@[x.attr as int])
                &&& x.sources == subsume_attr_sources(
                    variants[x.variant as int].attrs@[x.attr as int],
                    x.variant as usize,
                    x.attr as usize,
                )
            },
        forall|j: int, k: int|
            #![trigger subsume_attrs(variants, variants.len())[j], subsume_attrs(variants, variants.len())[k]]
            0 <= j < k < subsume_attrs(variants, variants.len()).len() ==> comes_before(
                subsume_attrs(variants, variants.len())[j],
                subsume_attrs(variants, variants.len())[k],
            ),
        forall|v: int, a: int|
            0 <= v < variants.len() && 0 <= a < variants[v].attrs@.len() && is_subsume(
                #[trigger] variants[v].attrs@[a],
            ) ==> exists|k: int|
                0 <= k < subsume_attrs(variants, variants.len()).len() && (#[trigger] subsume_attrs(
                    variants,
                    variants.len(),
                )[k]).variant == v && subsume_attrs(variants, variants.len())[k].attr == a,
{
    lemma_subsume_attrs(variants, variants.len());
}

} // verus!
