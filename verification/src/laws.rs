//! What the planned conversions are, stated as a whole: one conversion per
//! source enum, no source variant twice in a conversion, and an arm for
//! exactly the source variants that the `subsume` attributes name.
use vstd::prelude::*;
use crate::conversions::{
    add_mapping, add_mappings, has_arm, impl_index, lemma_impl_index_bounds, plan_conversions, source_type,
    type_segment,
    variant_has_fields, variant_name, ArmView, AttrView, ImplView,
};
use crate::error::{DeriveError, ErrorKind, ErrorSite};
use crate::sources::{
    closes_angle, from_word, group_tokens, opens_angle, parse_source_list, path_error, resolve_sources, ident_text, is_arrow_head, is_comma, is_modifier_at, source_end, split_sources, syn_ident, lemma_source_end_bounds,
    MappingView, RawSource,
};
use crate::tokens::{Delimiter, TokenView};
use crate::syntax::{field_seq, syn_path, PathView, Variant};

verus! {

/// No two conversions are from the same source type.
pub open spec fn sources_distinct(impls: Seq<ImplView>) -> bool {
    forall|i: int, j: int| 0 <= i < j < impls.len() ==> (#[trigger] impls[i]).source != (#[trigger] impls[j]).source
}

/// No conversion has two arms for the same source variant.
pub open spec fn arms_distinct(impls: Seq<ImplView>) -> bool {
    forall|i: int, k: int, l: int|
        0 <= i < impls.len() && 0 <= k < l < impls[i].arms.len() ==> (#[trigger] impls[i].arms[k]).source_variant
            != (#[trigger] impls[i].arms[l]).source_variant
}

/// Every conversion has at least one arm.
pub open spec fn arms_nonempty(impls: Seq<ImplView>) -> bool {
    forall|i: int| 0 <= i < impls.len() ==> (#[trigger] impls[i]).arms.len() > 0
}

pub open spec fn well_formed(impls: Seq<ImplView>) -> bool {
    &&& sources_distinct(impls)
    &&& arms_distinct(impls)
    &&& arms_nonempty(impls)
}

/// The conversion from source type `ty` has the arm `arm`.
pub open spec fn contains_arm(impls: Seq<ImplView>, ty: PathView, arm: ArmView) -> bool {
    exists|i: int, k: int|
        0 <= i < impls.len() && 0 <= k < impls[i].arms.len() && (#[trigger] impls[i]).source == ty
            && #[trigger] impls[i].arms[k] == arm
}

/// The arm that a source of destination variant `target` asks for.
pub open spec fn mapping_arm(m: MappingView, target: nat) -> ArmView {
    ArmView { source_variant: variant_name(m.path), target, convert: m.convert }
}

/// One of the sources `ms` of destination variant `target` asks for arm
/// `arm` in the conversion from `ty`.
pub open spec fn asked_by(ms: Seq<MappingView>, target: nat, ty: PathView, arm: ArmView) -> bool {
    exists|u: int| 0 <= u < ms.len() && source_type((#[trigger] ms[u]).path) == ty && mapping_arm(ms[u], target) == arm
}

pub open spec fn attr_mappings(a: AttrView) -> Seq<MappingView> {
    match a.sources {
        Ok(ms) => ms,
        Err(_) => Seq::empty(),
    }
}

/// One of the `subsume` attributes asks for arm `arm` in the conversion
/// from `ty`.
pub open spec fn requested(attrs: Seq<AttrView>, ty: PathView, arm: ArmView) -> bool {
    exists|t: int| 0 <= t < attrs.len() && asked_by(attr_mappings(#[trigger] attrs[t]), attrs[t].variant, ty, arm)
}

pub proof fn lemma_add_mapping(
    impls: Seq<ImplView>,
    m: MappingView,
    target: nat,
    has_fields: bool,
    site: ErrorSite,
    new: Seq<ImplView>,
)
    requires
        well_formed(impls),
        add_mapping(impls, m, target, has_fields, site) == Ok::<_, crate::error::DeriveError>(new),
    ensures
        well_formed(new),
        forall|ty: PathView, arm: ArmView|
            #[trigger] contains_arm(new, ty, arm) <==> (contains_arm(impls, ty, arm) || (ty == source_type(m.path)
                && arm == mapping_arm(m, target))),
{
    let ty = source_type(m.path);
    let name = variant_name(m.path);
    let arm = mapping_arm(m, target);
    let j = impl_index(impls, ty);
    lemma_impl_index_bounds(impls, ty);
    if j >= 0 {
        let old_arms = impls[j].arms;
        assert(!has_arm(old_arms, name));
        assert(new == impls.update(j, ImplView { source: ty, arms: old_arms.push(arm) }));
        assert(well_formed(new)) by {
            assert forall|i: int, k: int, l: int|
                0 <= i < new.len() && 0 <= k < l < new[i].arms.len() implies (#[trigger] new[i].arms[k]).source_variant
                    != (#[trigger] new[i].arms[l]).source_variant by {
                if i == j && l == old_arms.len() {
                    assert(old_arms[k] == new[i].arms[k]);
                    if old_arms[k].source_variant == name {
                        assert(has_arm(old_arms, name));
                    }
                } else if i == j {
                    assert(new[i].arms[k] == impls[i].arms[k]);
                    assert(new[i].arms[l] == impls[i].arms[l]);
                }
            }
            assert forall|a: int, b: int| 0 <= a < b < new.len() implies (#[trigger] new[a]).source != (#[trigger] new[b]).source by {
                assert(new[a].source == impls[a].source);
                assert(new[b].source == impls[b].source);
            }
        }
        assert forall|ty2: PathView, arm2: ArmView|
            #[trigger] contains_arm(new, ty2, arm2) <==> (contains_arm(impls, ty2, arm2) || (ty2 == ty && arm2 == arm)) by {
            if contains_arm(new, ty2, arm2) {
                let (i, k) = choose|i: int, k: int|
                    0 <= i < new.len() && 0 <= k < new[i].arms.len() && (#[trigger] new[i]).source == ty2
                        && #[trigger] new[i].arms[k] == arm2;
                if i == j && k == old_arms.len() {
                } else {
                    assert(impls[i].source == ty2 && impls[i].arms[k] == arm2);
                }
            }
            if contains_arm(impls, ty2, arm2) {
                let (i, k) = choose|i: int, k: int|
                    0 <= i < impls.len() && 0 <= k < impls[i].arms.len() && (#[trigger] impls[i]).source == ty2
                        && #[trigger] impls[i].arms[k] == arm2;
                assert(new[i].source == ty2 && new[i].arms[k] == arm2);
            }
            if ty2 == ty && arm2 == arm {
                let k = old_arms.len() as int;
                assert(new[j].source == ty2 && new[j].arms[k] == arm2);
            }
        }
    } else {
        assert(new == impls.push(ImplView { source: ty, arms: seq![arm] }));
        let n = impls.len() as int;
        assert(well_formed(new)) by {
            assert forall|a: int, b: int| 0 <= a < b < new.len() implies (#[trigger] new[a]).source != (#[trigger] new[b]).source by {
                if b == n {
                    assert(impls[a].source != ty);
                } else {
                    assert(new[a] == impls[a] && new[b] == impls[b]);
                }
            }
            assert forall|i: int, k: int, l: int|
                0 <= i < new.len() && 0 <= k < l < new[i].arms.len() implies (#[trigger] new[i].arms[k]).source_variant
                    != (#[trigger] new[i].arms[l]).source_variant by {
                assert(i < n);
                assert(new[i] == impls[i]);
            }
            assert forall|i: int| 0 <= i < new.len() implies (#[trigger] new[i]).arms.len() > 0 by {
                if i < n {
                    assert(new[i] == impls[i]);
                }
            }
        }
        assert forall|ty2: PathView, arm2: ArmView|
            #[trigger] contains_arm(new, ty2, arm2) <==> (contains_arm(impls, ty2, arm2) || (ty2 == ty && arm2 == arm)) by {
            if contains_arm(new, ty2, arm2) {
                let (i, k) = choose|i: int, k: int|
                    0 <= i < new.len() && 0 <= k < new[i].arms.len() && (#[trigger] new[i]).source == ty2
                        && #[trigger] new[i].arms[k] == arm2;
                if i < n {
                    assert(impls[i].source == ty2 && impls[i].arms[k] == arm2);
                }
            }
            if contains_arm(impls, ty2, arm2) {
                let (i, k) = choose|i: int, k: int|
                    0 <= i < impls.len() && 0 <= k < impls[i].arms.len() && (#[trigger] impls[i]).source == ty2
                        && #[trigger] impls[i].arms[k] == arm2;
                assert(new[i].source == ty2 && new[i].arms[k] == arm2);
            }
            if ty2 == ty && arm2 == arm {
                assert(new[n].source == ty2 && new[n].arms[0] == arm2);
            }
        }
    }
}

pub proof fn lemma_add_mappings(
    impls: Seq<ImplView>,
    ms: Seq<MappingView>,
    v: nat,
    a: nat,
    has_fields: bool,
    new: Seq<ImplView>,
)
    requires
        well_formed(impls),
        add_mappings(impls, ms, v, a, has_fields) == Ok::<_, crate::error::DeriveError>(new),
    ensures
        well_formed(new),
        forall|ty: PathView, arm: ArmView|
            #[trigger] contains_arm(new, ty, arm) <==> (contains_arm(impls, ty, arm) || asked_by(ms, v, ty, arm)),
    decreases ms.len(),
{
    if ms.len() == 0 {
        assert forall|ty: PathView, arm: ArmView| !asked_by(ms, v, ty, arm) by {}
    } else {
        let mid = add_mappings(impls, ms.drop_last(), v, a, has_fields)->Ok_0;
        lemma_add_mappings(impls, ms.drop_last(), v, a, has_fields, mid);
        let site = ErrorSite::Mapping(v as usize, a as usize, (ms.len() - 1) as usize);
        lemma_add_mapping(mid, ms.last(), v, has_fields, site, new);
        assert forall|ty: PathView, arm: ArmView|
            #[trigger] contains_arm(new, ty, arm) <==> (contains_arm(impls, ty, arm) || asked_by(ms, v, ty, arm)) by {
            if asked_by(ms.drop_last(), v, ty, arm) {
                let u = choose|u: int|
                    0 <= u < ms.drop_last().len() && source_type((#[trigger] ms.drop_last()[u]).path) == ty
                        && mapping_arm(ms.drop_last()[u], v) == arm;
                assert(ms[u] == ms.drop_last()[u]);
            }
            if ty == source_type(ms.last().path) && arm == mapping_arm(ms.last(), v) {
                assert(ms[ms.len() - 1] == ms.last());
            }
            if asked_by(ms, v, ty, arm) {
                let u = choose|u: int|
                    0 <= u < ms.len() && source_type((#[trigger] ms[u]).path) == ty && mapping_arm(ms[u], v) == arm;
                if u < ms.len() - 1 {
                    assert(ms.drop_last()[u] == ms[u]);
                }
            }
        }
    }
}

pub proof fn lemma_plan_conversions(variants: Seq<Variant>, attrs: Seq<AttrView>, new: Seq<ImplView>)
    requires
        plan_conversions(variants, attrs) == Ok::<_, crate::error::DeriveError>(new),
    ensures
        well_formed(new),
        forall|ty: PathView, arm: ArmView| #[trigger] contains_arm(new, ty, arm) <==> requested(attrs, ty, arm),
    decreases attrs.len(),
{
    if attrs.len() == 0 {
        assert forall|ty: PathView, arm: ArmView| !#[trigger] contains_arm(new, ty, arm) by {}
        assert forall|ty: PathView, arm: ArmView| !requested(attrs, ty, arm) by {}
    } else {
        let prev = attrs.drop_last();
        let mid = plan_conversions(variants, prev)->Ok_0;
        lemma_plan_conversions(variants, prev, mid);
        let last = attrs.last();
        let ms = last.sources->Ok_0;
        lemma_add_mappings(mid, ms, last.variant, last.attr, variant_has_fields(variants, last.variant), new);
        assert forall|ty: PathView, arm: ArmView| #[trigger] contains_arm(new, ty, arm) <==> requested(attrs, ty, arm) by {
            if requested(prev, ty, arm) {
                let t = choose|t: int|
                    0 <= t < prev.len() && asked_by(attr_mappings(#[trigger] prev[t]), prev[t].variant, ty, arm);
                assert(attrs[t] == prev[t]);
            }
            if asked_by(ms, last.variant, ty, arm) {
                assert(attrs[attrs.len() - 1] == last);
                assert(attr_mappings(last) == ms);
            }
            if requested(attrs, ty, arm) {
                let t = choose|t: int|
                    0 <= t < attrs.len() && asked_by(attr_mappings(#[trigger] attrs[t]), attrs[t].variant, ty, arm);
                if t < attrs.len() - 1 {
                    assert(prev[t] == attrs[t]);
                } else {
                    assert(attr_mappings(last) == ms);
                }
            }
        }
    }
}

/// The conversions that the `subsume` attributes ask for: when the
/// attributes are valid, there is one conversion per source type, no
/// conversion maps the same source variant twice, every conversion has an
/// arm, and a conversion from a source type has an arm exactly when a
/// source of some attribute names that type and asks for that arm (the
/// source variant, the destination variant that the attribute stands on,
/// and whether the payload is converted).
pub proof fn law_conversions_match_attributes(variants: Seq<Variant>, attrs: Seq<AttrView>)
    requires
        plan_conversions(variants, attrs) is Ok,
    ensures
        ({
            let impls = plan_conversions(variants, attrs)->Ok_0;
            &&& sources_distinct(impls)
            &&& arms_distinct(impls)
            &&& arms_nonempty(impls)
            &&& forall|ty: PathView, arm: ArmView| #[trigger] contains_arm(impls, ty, arm) <==> requested(attrs, ty, arm)
        }),
{
    lemma_plan_conversions(variants, attrs, plan_conversions(variants, attrs)->Ok_0);
}

/// Some conversion from `ty` has an arm for source variant `name`.
pub open spec fn has_key(impls: Seq<ImplView>, ty: PathView, name: Seq<char>) -> bool {
    exists|arm: ArmView| #[trigger] contains_arm(impls, ty, arm) && arm.source_variant == name
}

/// Two sources name the same source variant of the same source type.
pub open spec fn same_key(m1: MappingView, m2: MappingView) -> bool {
    source_type(m1.path) == source_type(m2.path) && variant_name(m1.path) == variant_name(m2.path)
}

pub proof fn lemma_add_mapping_fresh(
    impls: Seq<ImplView>,
    m: MappingView,
    target: nat,
    has_fields: bool,
    site: ErrorSite,
)
    requires
        well_formed(impls),
        add_mapping(impls, m, target, has_fields, site) is Ok,
    ensures
        !has_key(impls, source_type(m.path), variant_name(m.path)),
{
    let ty = source_type(m.path);
    let name = variant_name(m.path);
    lemma_impl_index_bounds(impls, ty);
    let j = impl_index(impls, ty);
    if has_key(impls, ty, name) {
        let arm = choose|arm: ArmView| #[trigger] contains_arm(impls, ty, arm) && arm.source_variant == name;
        let (i, k) = choose|i: int, k: int|
            0 <= i < impls.len() && 0 <= k < impls[i].arms.len() && (#[trigger] impls[i]).source == ty
                && #[trigger] impls[i].arms[k] == arm;
        assert(j >= 0);
        if i < j {
            assert(impls[i].source != impls[j].source);
        } else if i > j {
            assert(impls[j].source != impls[i].source);
        }
        assert(has_arm(impls[j].arms, name));
    }
}

pub proof fn lemma_key_of_arm(impls: Seq<ImplView>, m: MappingView, target: nat)
    requires
        contains_arm(impls, source_type(m.path), mapping_arm(m, target)),
    ensures
        has_key(impls, source_type(m.path), variant_name(m.path)),
{
    assert(contains_arm(impls, source_type(m.path), mapping_arm(m, target))
        && mapping_arm(m, target).source_variant == variant_name(m.path));
}

pub proof fn lemma_keys_grow(old: Seq<ImplView>, new: Seq<ImplView>, ty: PathView, name: Seq<char>)
    requires
        has_key(old, ty, name),
        forall|ty2: PathView, arm: ArmView| #[trigger] contains_arm(old, ty2, arm) ==> contains_arm(new, ty2, arm),
    ensures
        has_key(new, ty, name),
{
    let arm = choose|arm: ArmView| #[trigger] contains_arm(old, ty, arm) && arm.source_variant == name;
    assert(contains_arm(new, ty, arm));
}

pub proof fn lemma_add_mappings_keys(
    impls: Seq<ImplView>,
    ms: Seq<MappingView>,
    v: nat,
    a: nat,
    has_fields: bool,
)
    requires
        well_formed(impls),
        add_mappings(impls, ms, v, a, has_fields) is Ok,
    ensures
        forall|u: int| 0 <= u < ms.len() ==> !has_key(impls, source_type((#[trigger] ms[u]).path), variant_name(ms[u].path)),
        forall|u1: int, u2: int| 0 <= u1 < u2 < ms.len() ==> !same_key(#[trigger] ms[u1], #[trigger] ms[u2]),
    decreases ms.len(),
{
    if ms.len() > 0 {
        let prev = ms.drop_last();
        let last = ms.last();
        let mid = add_mappings(impls, prev, v, a, has_fields)->Ok_0;
        let site = ErrorSite::Mapping(v as usize, a as usize, (ms.len() - 1) as usize);
        lemma_add_mappings_keys(impls, prev, v, a, has_fields);
        lemma_add_mappings(impls, prev, v, a, has_fields, mid);
        lemma_add_mapping_fresh(mid, last, v, has_fields, site);
        assert forall|u: int| 0 <= u < ms.len() implies !has_key(impls, source_type((#[trigger] ms[u]).path), variant_name(ms[u].path)) by {
            if u < ms.len() - 1 {
                assert(prev[u] == ms[u]);
            } else {
                assert(ms[u] == last);
                if has_key(impls, source_type(last.path), variant_name(last.path)) {
                    lemma_keys_grow(impls, mid, source_type(last.path), variant_name(last.path));
                }
            }
        }
        assert forall|u1: int, u2: int| 0 <= u1 < u2 < ms.len() implies !same_key(#[trigger] ms[u1], #[trigger] ms[u2]) by {
            if u2 < ms.len() - 1 {
                assert(prev[u1] == ms[u1] && prev[u2] == ms[u2]);
            } else {
                assert(ms[u2] == last);
                assert(prev[u1] == ms[u1]);
                assert(asked_by(prev, v, source_type(ms[u1].path), mapping_arm(ms[u1], v)));
                lemma_key_of_arm(mid, ms[u1], v);
            }
        }
    }
}

/// Where a source stands: attribute `t`, source `u`.
pub open spec fn valid_position(attrs: Seq<AttrView>, t: int, u: int) -> bool {
    0 <= t < attrs.len() && 0 <= u < attr_mappings(attrs[t]).len()
}

pub open spec fn source_at(attrs: Seq<AttrView>, t: int, u: int) -> MappingView {
    attr_mappings(attrs[t])[u]
}

pub proof fn lemma_plan_keys(variants: Seq<Variant>, attrs: Seq<AttrView>)
    requires
        plan_conversions(variants, attrs) is Ok,
    ensures
        forall|t1: int, u1: int, t2: int, u2: int|
            valid_position(attrs, t1, u1) && valid_position(attrs, t2, u2) && (t1 != t2 || u1 != u2) ==> !same_key(
                #[trigger] source_at(attrs, t1, u1),
                #[trigger] source_at(attrs, t2, u2),
            ),
    decreases attrs.len(),
{
    if attrs.len() > 0 {
        let prev = attrs.drop_last();
        let last = attrs.last();
        let n = attrs.len() - 1;
        let mid = plan_conversions(variants, prev)->Ok_0;
        let ms = last.sources->Ok_0;
        let fields = variant_has_fields(variants, last.variant);
        lemma_plan_keys(variants, prev);
        lemma_plan_conversions(variants, prev, mid);
        lemma_add_mappings_keys(mid, ms, last.variant, last.attr, fields);
        assert(attr_mappings(last) == ms);
        assert forall|t1: int, u1: int, t2: int, u2: int|
            valid_position(attrs, t1, u1) && valid_position(attrs, t2, u2) && (t1 != t2 || u1 != u2) implies !same_key(
                #[trigger] source_at(attrs, t1, u1),
                #[trigger] source_at(attrs, t2, u2),
            ) by {
            if t1 < n && t2 < n {
                assert(prev[t1] == attrs[t1] && prev[t2] == attrs[t2]);
                assert(source_at(prev, t1, u1) == source_at(attrs, t1, u1));
                assert(source_at(prev, t2, u2) == source_at(attrs, t2, u2));
            } else if t1 == n && t2 == n {
                if u1 < u2 {
                    assert(!same_key(ms[u1], ms[u2]));
                } else {
                    assert(!same_key(ms[u2], ms[u1]));
                }
            } else {
                let (t, u, w) = if t1 < n { (t1, u1, u2) } else { (t2, u2, u1) };
                let m = source_at(attrs, t, u);
                assert(prev[t] == attrs[t]);
                assert(asked_by(attr_mappings(prev[t]), prev[t].variant, source_type(m.path), mapping_arm(m, prev[t].variant)));
                assert(requested(prev, source_type(m.path), mapping_arm(m, prev[t].variant)));
                lemma_key_of_arm(mid, m, prev[t].variant);
                assert(!has_key(mid, source_type(ms[w].path), variant_name(ms[w].path)));
            }
        }
    }
}

/// No source variant can be named twice: when the conversions are planned,
/// any two sources of the `subsume` attributes name different source
/// variants or different source types.
pub proof fn law_source_variants_named_once(variants: Seq<Variant>, attrs: Seq<AttrView>)
    requires
        plan_conversions(variants, attrs) is Ok,
    ensures
        forall|t1: int, u1: int, t2: int, u2: int|
            valid_position(attrs, t1, u1) && valid_position(attrs, t2, u2) && (t1 != t2 || u1 != u2) ==> !same_key(
                #[trigger] source_at(attrs, t1, u1),
                #[trigger] source_at(attrs, t2, u2),
            ),
{
    lemma_plan_keys(variants, attrs);
}

pub open spec fn comma() -> TokenView {
    TokenView::Punct(',', false)
}

/// A source written as a path: not a modifier such as `from(...)`, and
/// with no comma of its own outside angle brackets, so that a comma after
/// it ends it.
pub open spec fn plain_source(t: Seq<TokenView>) -> bool {
    &&& t.len() > 0
    &&& !is_modifier_at(t, 0)
    &&& source_end(t.push(comma()), 0, 0) == t.len()
}

/// Sources written out with a comma between each two.
pub open spec fn comma_list(items: Seq<Seq<TokenView>>) -> Seq<TokenView>
    decreases items.len(),
{
    if items.len() == 0 {
        Seq::empty()
    } else if items.len() == 1 {
        items[0]
    } else {
        items[0].push(comma()) + comma_list(items.drop_first())
    }
}

pub proof fn lemma_source_end_prefix(q: Seq<TokenView>, r: Seq<TokenView>, j: int, d: nat)
    requires
        0 <= j <= q.len(),
        source_end(q, j, d) < q.len(),
    ensures
        source_end(q + r, j, d) == source_end(q, j, d),
    decreases q.len() - j,
{
    let a = q + r;
    assert(a[j] == q[j]);
    if j > 0 {
        assert(a[j - 1] == q[j - 1]);
    }
    assert(closes_angle(a, j) == closes_angle(q, j));
    if crate::sources::is_comma(q[j]) && d == 0 {
    } else if crate::sources::opens_angle(q[j]) {
        lemma_source_end_prefix(q, r, j + 1, d + 1);
    } else if closes_angle(q, j) {
        lemma_source_end_prefix(q, r, j + 1, if d > 0 { (d - 1) as nat } else { 0 });
    } else {
        lemma_source_end_prefix(q, r, j + 1, d);
    }
}

pub proof fn lemma_source_end_suffix(p: Seq<TokenView>, q: Seq<TokenView>, j: int, d: nat)
    requires
        0 <= j <= q.len(),
        j > 0 || p.len() == 0 || !is_arrow_head(p.last()),
    ensures
        source_end(p + q, p.len() + j, d) == p.len() + source_end(q, j, d),
    decreases q.len() - j,
{
    let a = p + q;
    let i = p.len() + j;
    if j < q.len() {
        assert(a[i] == q[j]);
        if j > 0 {
            assert(a[i - 1] == q[j - 1]);
        } else if p.len() > 0 {
            assert(a[i - 1] == p.last());
        }
        assert(closes_angle(a, i) == closes_angle(q, j));
        if crate::sources::is_comma(q[j]) && d == 0 {
        } else if crate::sources::opens_angle(q[j]) {
            lemma_source_end_suffix(p, q, j + 1, d + 1);
        } else if closes_angle(q, j) {
            lemma_source_end_suffix(p, q, j + 1, if d > 0 { (d - 1) as nat } else { 0 });
        } else {
            lemma_source_end_suffix(p, q, j + 1, d);
        }
    }
}

/// The split of the sources from `j` on reads nothing before `j` but the
/// token just before it, to tell an arrow `->` from a closing `>`.
pub proof fn lemma_split_suffix(p: Seq<TokenView>, q: Seq<TokenView>, j: int)
    requires
        0 <= j <= q.len(),
        j > 0 || p.len() == 0 || !is_arrow_head(p.last()),
    ensures
        split_sources(p + q, p.len() + j) == split_sources(q, j),
    decreases q.len() - j,
{
    let a = p + q;
    let i = p.len() + j;
    if j < q.len() {
        assert(a[i] == q[j]);
        if j + 1 < q.len() {
            assert(a[i + 1] == q[j + 1]);
        }
        if j + 2 < q.len() {
            assert(a[i + 2] == q[j + 2]);
        }
        assert(is_modifier_at(a, i) == is_modifier_at(q, j));
        if is_modifier_at(q, j) {
            if j + 3 <= q.len() {
                lemma_split_suffix(p, q, j + 3);
            }
        } else {
            lemma_source_end_suffix(p, q, j, 0);
            lemma_source_end_bounds(q, j, 0);
            let k = source_end(q, j, 0);
            assert(a.subrange(i, p.len() + k) =~= q.subrange(j, k));
            if k < q.len() {
                lemma_split_suffix(p, q, k + 1);
            }
        }
    }
}

pub open spec fn plain_items(items: Seq<Seq<TokenView>>) -> Seq<RawSource> {
    items.map_values(|t: Seq<TokenView>| RawSource { convert: false, tokens: t })
}

proof fn lemma_split_first(t: Seq<TokenView>, rest: Seq<TokenView>)
    requires
        plain_source(t),
    ensures
        split_sources(t.push(comma()) + rest, 0) == (
            seq![RawSource { convert: false, tokens: t }] + split_sources(rest, 0).0,
            split_sources(rest, 0).1,
        ),
{
    let q = t.push(comma());
    let a = q + rest;
    assert(a[0] == t[0]);
    if t.len() > 1 {
        assert(a[1] == t[1]);
    } else {
        assert(a[1] == comma());
    }
    assert(!is_modifier_at(a, 0));
    lemma_source_end_prefix(q, rest, 0, 0);
    assert(a.subrange(0, t.len() as int) =~= t);
    lemma_split_suffix(q, rest, 0);
    assert(q.len() + 0 == t.len() + 1);
}

proof fn lemma_split_last(t: Seq<TokenView>)
    requires
        plain_source(t),
    ensures
        split_sources(t, 0) == (seq![RawSource { convert: false, tokens: t }], None::<crate::error::ErrorKind>),
        split_sources(t.push(comma()), 0) == (seq![RawSource { convert: false, tokens: t }], None::<crate::error::ErrorKind>),
{
    let q = t.push(comma());
    lemma_source_end_bounds(t, 0, 0);
    if source_end(t, 0, 0) < t.len() {
        lemma_source_end_prefix(t, seq![comma()], 0, 0);
        assert(t + seq![comma()] =~= q);
    }
    assert(t.subrange(0, t.len() as int) =~= t);
    assert(q[0] == t[0]);
    if t.len() > 1 {
        assert(q[1] == t[1]);
    } else {
        assert(q[1] == comma());
    }
    assert(!is_modifier_at(q, 0));
    assert(q.subrange(0, t.len() as int) =~= t);
    let item = RawSource { convert: false, tokens: t };
    assert(split_sources(q, t.len() + 1int) == (Seq::<RawSource>::empty(), None::<crate::error::ErrorKind>));
    assert(seq![item] + Seq::<RawSource>::empty() =~= seq![item]);
}

/// A list of plain sources with commas between them, with or without a
/// trailing comma, splits into exactly those sources, in order, without
/// error.
pub proof fn law_split_comma_list(items: Seq<Seq<TokenView>>)
    requires
        items.len() > 0,
        forall|k: int| 0 <= k < items.len() ==> plain_source(#[trigger] items[k]),
    ensures
        split_sources(comma_list(items), 0) == (plain_items(items), None::<crate::error::ErrorKind>),
        split_sources(comma_list(items).push(comma()), 0) == (plain_items(items), None::<crate::error::ErrorKind>),
    decreases items.len(),
{
    let t = items[0];
    if items.len() == 1 {
        lemma_split_last(t);
        assert(plain_items(items) =~= seq![RawSource { convert: false, tokens: t }]);
    } else {
        let rest = items.drop_first();
        assert forall|k: int| 0 <= k < rest.len() implies plain_source(#[trigger] rest[k]) by {
            assert(rest[k] == items[k + 1]);
        }
        law_split_comma_list(rest);
        lemma_split_first(t, comma_list(rest));
        lemma_split_first(t, comma_list(rest).push(comma()));
        assert(comma_list(items).push(comma()) =~= t.push(comma()) + comma_list(rest).push(comma()));
        assert(plain_items(items) =~= seq![RawSource { convert: false, tokens: t }] + plain_items(rest));
    }
}


/// `Src::<T>::V` and `Src<T>::V` name one source type: two paths that
/// differ only in whether their generic arguments are written with a
/// turbofish have the same source type, so their conversions share one
/// `From` impl. (A source path has at least one segment.)
pub proof fn law_turbofish_names_one_source_type(p: PathView, q: PathView)
    requires
        p.leading_colon == q.leading_colon,
        p.segments.len() == q.segments.len() >= 1,
        forall|i: int| 0 <= i < p.segments.len() ==> {
            &&& (#[trigger] p.segments[i]).ident == q.segments[i].ident
            &&& p.segments[i].args == q.segments[i].args
        },
    ensures
        source_type(p) == source_type(q),
{
    let a = p.segments.drop_last();
    let b = q.segments.drop_last();
    assert forall|i: int| 0 <= i < a.len() implies type_segment(a[i]) == type_segment(b[i]) by {
        assert(a[i] == p.segments[i] && b[i] == q.segments[i]);
    }
    assert(source_type(p).segments =~= source_type(q).segments);
}

/// The tokens of one source as it is written in a list: its path, or
/// `from(...)` around its path.
pub open spec fn written_source(s: RawSource) -> Seq<TokenView> {
    if s.convert {
        seq![TokenView::Ident(from_word()), TokenView::Group(Delimiter::Parenthesis, s.tokens)]
    } else {
        s.tokens
    }
}

/// A source whose path holds no comma of its own outside angle brackets,
/// and, where it is not marked `from(...)`, does not itself start like a
/// modifier.
pub open spec fn well_written(s: RawSource) -> bool {
    if s.convert {
        source_end(s.tokens, 0, 0) == s.tokens.len()
    } else {
        plain_source(s.tokens)
    }
}

/// Sources written out with a comma between each two.
pub open spec fn source_list(items: Seq<RawSource>) -> Seq<TokenView>
    decreases items.len(),
{
    if items.len() == 0 {
        Seq::empty()
    } else if items.len() == 1 {
        written_source(items[0])
    } else {
        written_source(items[0]).push(comma()) + source_list(items.drop_first())
    }
}

proof fn lemma_split_first_from(t: Seq<TokenView>, rest: Seq<TokenView>)
    requires
        source_end(t, 0, 0) == t.len(),
        syn_ident(from_word()),
    ensures
        split_sources(written_source(RawSource { convert: true, tokens: t }).push(comma()) + rest, 0) == (
            seq![RawSource { convert: true, tokens: t }] + split_sources(rest, 0).0,
            split_sources(rest, 0).1,
        ),
{
    let q = written_source(RawSource { convert: true, tokens: t }).push(comma());
    let a = q + rest;
    assert(a[0] == q[0] && a[1] == q[1] && a[2] == q[2]);
    assert(is_modifier_at(a, 0));
    lemma_split_suffix(q, rest, 0);
    assert(q.len() + 0 == 3);
}

proof fn lemma_split_last_from(t: Seq<TokenView>)
    requires
        source_end(t, 0, 0) == t.len(),
        syn_ident(from_word()),
    ensures
        split_sources(written_source(RawSource { convert: true, tokens: t }), 0) == (
            seq![RawSource { convert: true, tokens: t }],
            None::<crate::error::ErrorKind>,
        ),
        split_sources(written_source(RawSource { convert: true, tokens: t }).push(comma()), 0) == (
            seq![RawSource { convert: true, tokens: t }],
            None::<crate::error::ErrorKind>,
        ),
{
    let w = written_source(RawSource { convert: true, tokens: t });
    let q = w.push(comma());
    assert(is_modifier_at(w, 0));
    assert(q[0] == w[0] && q[1] == w[1]);
    assert(is_modifier_at(q, 0));
    assert(split_sources(q, 3) == (Seq::<RawSource>::empty(), None::<crate::error::ErrorKind>));
    assert(seq![RawSource { convert: true, tokens: t }] + Seq::<RawSource>::empty() =~= seq![
        RawSource { convert: true, tokens: t },
    ]);
}

/// A list of sources, each a path or `from(...)` around a path, with a
/// comma between each two and with or without a trailing comma, splits into
/// exactly those sources, in order, each marked to convert its payload
/// exactly when it is written `from(...)`, and without error. (That syn
/// takes `from` as an identifier, not a keyword, is assumed.)
pub proof fn law_split_source_list(items: Seq<RawSource>)
    requires
        items.len() > 0,
        forall|k: int| 0 <= k < items.len() ==> well_written(#[trigger] items[k]),
        syn_ident(from_word()),
    ensures
        split_sources(source_list(items), 0) == (items, None::<crate::error::ErrorKind>),
        split_sources(source_list(items).push(comma()), 0) == (items, None::<crate::error::ErrorKind>),
    decreases items.len(),
{
    let s = items[0];
    assert(well_written(items[0]));
    if items.len() == 1 {
        if s.convert {
            lemma_split_last_from(s.tokens);
            assert(RawSource { convert: true, tokens: s.tokens } == s);
        } else {
            lemma_split_last(s.tokens);
        }
        assert(items =~= seq![s]);
    } else {
        let rest = items.drop_first();
        assert forall|k: int| 0 <= k < rest.len() implies well_written(#[trigger] rest[k]) by {
            assert(rest[k] == items[k + 1]);
        }
        law_split_source_list(rest);
        if s.convert {
            lemma_split_first_from(s.tokens, source_list(rest));
            lemma_split_first_from(s.tokens, source_list(rest).push(comma()));
            assert(RawSource { convert: true, tokens: s.tokens } == s);
        } else {
            lemma_split_first(s.tokens, source_list(rest));
            lemma_split_first(s.tokens, source_list(rest).push(comma()));
        }
        assert(source_list(items).push(comma()) =~= written_source(s).push(comma()) + source_list(rest).push(
            comma(),
        ));
        assert(items =~= seq![s] + rest);
    }
}

/// The sources of the first `u` sources of an attribute, added in order.
proof fn lemma_add_mappings_ok_prefix(
    impls: Seq<ImplView>,
    ms: Seq<MappingView>,
    v: nat,
    a: nat,
    has_fields: bool,
    u: int,
)
    requires
        0 <= u < ms.len(),
        add_mappings(impls, ms, v, a, has_fields) is Ok,
    ensures
        add_mappings(impls, ms.take(u), v, a, has_fields) is Ok,
        add_mapping(
            add_mappings(impls, ms.take(u), v, a, has_fields)->Ok_0,
            ms[u],
            v,
            has_fields,
            ErrorSite::Mapping(v as usize, a as usize, u as usize),
        ) is Ok,
    decreases ms.len(),
{
    if u == ms.len() - 1 {
        assert(ms.take(u) =~= ms.drop_last());
    } else {
        assert(ms.drop_last().take(u) =~= ms.take(u));
        assert(ms.drop_last()[u] == ms[u]);
        lemma_add_mappings_ok_prefix(impls, ms.drop_last(), v, a, has_fields, u);
    }
}

/// Where adding the sources of an attribute fails: the first source whose
/// addition fails, after the sources before it were added.
proof fn lemma_add_mappings_err(impls: Seq<ImplView>, ms: Seq<MappingView>, v: nat, a: nat, has_fields: bool) -> (u: int)
    requires
        add_mappings(impls, ms, v, a, has_fields) is Err,
    ensures
        0 <= u < ms.len(),
        add_mappings(impls, ms.take(u), v, a, has_fields) is Ok,
        add_mapping(
            add_mappings(impls, ms.take(u), v, a, has_fields)->Ok_0,
            ms[u],
            v,
            has_fields,
            ErrorSite::Mapping(v as usize, a as usize, u as usize),
        ) == add_mappings(impls, ms, v, a, has_fields),
    decreases ms.len(),
{
    let prev = ms.drop_last();
    if add_mappings(impls, prev, v, a, has_fields) is Err {
        let u = lemma_add_mappings_err(impls, prev, v, a, has_fields);
        assert(prev.take(u) =~= ms.take(u));
        assert(prev[u] == ms[u]);
        u
    } else {
        let u = ms.len() - 1;
        assert(ms.take(u) =~= prev);
        u
    }
}

/// A source that the derive can take: a path `Source::Variant` with at
/// least two segments, no generic arguments on the variant, and `from(...)`
/// only on a destination variant with fields.
pub open spec fn usable_source(m: MappingView, has_fields: bool) -> bool {
    &&& m.path.segments.len() >= 2
    &&& m.path.segments.last().args is None
    &&& (m.convert ==> has_fields)
}

/// Planned conversions come only from usable attributes: when the
/// conversions are planned, the arguments of every `subsume` attribute
/// were read, and every source is a usable source for the variant that
/// its attribute stands on.
pub proof fn law_accepted_sources_are_usable(variants: Seq<Variant>, attrs: Seq<AttrView>)
    requires
        plan_conversions(variants, attrs) is Ok,
    ensures
        forall|t: int| 0 <= t < attrs.len() ==> (#[trigger] attrs[t]).sources is Ok,
        forall|t: int, u: int|
            valid_position(attrs, t, u) ==> usable_source(
                #[trigger] source_at(attrs, t, u),
                field_seq(variants[attrs[t].variant as int].fields).len() > 0,
            ),
    decreases attrs.len(),
{
    if attrs.len() > 0 {
        let prev = attrs.drop_last();
        let n = attrs.len() - 1;
        let last = attrs.last();
        law_accepted_sources_are_usable(variants, prev);
        let mid = plan_conversions(variants, prev)->Ok_0;
        let ms = last.sources->Ok_0;
        let fields = variant_has_fields(variants, last.variant);
        assert forall|t: int| 0 <= t < attrs.len() implies (#[trigger] attrs[t]).sources is Ok by {
            if t < n {
                assert(attrs[t] == prev[t]);
            }
        }
        assert forall|t: int, u: int| valid_position(attrs, t, u) implies usable_source(
            #[trigger] source_at(attrs, t, u),
            field_seq(variants[attrs[t].variant as int].fields).len() > 0,
        ) by {
            if t < n {
                assert(attrs[t] == prev[t]);
                assert(source_at(attrs, t, u) == source_at(prev, t, u));
                assert(valid_position(prev, t, u));
            } else {
                assert(attrs[t] == last);
                lemma_add_mappings_ok_prefix(mid, ms, last.variant, last.attr, fields, u);
            }
        }
    }
}

/// A source that stands before another: in an earlier attribute, or
/// earlier in the same attribute.
pub open spec fn earlier_position(t1: int, u1: int, t2: int, u2: int) -> bool {
    t1 < t2 || (t1 == t2 && u1 < u2)
}

/// What is wrong with the source at attribute `t`, source `u`, for the
/// error of kind `kind`.
pub open spec fn at_fault(kind: ErrorKind, variants: Seq<Variant>, attrs: Seq<AttrView>, t: int, u: int) -> bool {
    let m = source_at(attrs, t, u);
    match kind {
        ErrorKind::ExpectedSourceVariant => m.path.segments.len() < 2,
        ErrorKind::GenericArgumentsOnVariant => m.path.segments.len() >= 2 && m.path.segments.last().args is Some,
        ErrorKind::AlreadyMapped => exists|t2: int, u2: int|
            earlier_position(t2, u2, t, u) && valid_position(attrs, t2, u2) && same_key(
                #[trigger] source_at(attrs, t2, u2),
                m,
            ),
        ErrorKind::ConversionNeedsFields => m.convert && field_seq(variants[attrs[t].variant as int].fields).len()
            == 0,
        _ => false,
    }
}

/// A refused set of attributes is refused for a reason: the error is that
/// of an attribute whose arguments could not be read, or it points at one
/// source and says what is wrong with it: a path that is not
/// `Source::Variant`, generic arguments on the variant, a source variant
/// that an earlier source already names, or `from(...)` on a destination
/// variant without fields.
pub proof fn law_refused_sources_are_at_fault(variants: Seq<Variant>, attrs: Seq<AttrView>)
    requires
        plan_conversions(variants, attrs) is Err,
    ensures
        ({
            let e = plan_conversions(variants, attrs)->Err_0;
            ||| exists|t: int| 0 <= t < attrs.len() && (#[trigger] attrs[t]).sources == Err::<Seq<MappingView>, DeriveError>(e)
            ||| exists|t: int, u: int|
                #[trigger] valid_position(attrs, t, u) && e.site == ErrorSite::Mapping(
                    attrs[t].variant as usize,
                    attrs[t].attr as usize,
                    u as usize,
                ) && at_fault(e.kind, variants, attrs, t, u)
        }),
    decreases attrs.len(),
{
    let e = plan_conversions(variants, attrs)->Err_0;
    let prev = attrs.drop_last();
    let n = attrs.len() - 1;
    let last = attrs.last();
    assert forall|t: int| 0 <= t < n implies #[trigger] attrs[t] == prev[t] by {}
    if plan_conversions(variants, prev) is Err {
        law_refused_sources_are_at_fault(variants, prev);
        if exists|t: int| 0 <= t < prev.len() && (#[trigger] prev[t]).sources == Err::<Seq<MappingView>, DeriveError>(e) {
            let t = choose|t: int| 0 <= t < prev.len() && (#[trigger] prev[t]).sources == Err::<Seq<MappingView>, DeriveError>(e);
            assert(attrs[t] == prev[t]);
        } else {
            let (t, u) = choose|t: int, u: int|
                #[trigger] valid_position(prev, t, u) && e.site == ErrorSite::Mapping(
                    prev[t].variant as usize,
                    prev[t].attr as usize,
                    u as usize,
                ) && at_fault(e.kind, variants, prev, t, u);
            assert(attrs[t] == prev[t]);
            assert(valid_position(attrs, t, u));
            assert(source_at(attrs, t, u) == source_at(prev, t, u));
            if e.kind == ErrorKind::AlreadyMapped {
                let (t2, u2) = choose|t2: int, u2: int|
                    earlier_position(t2, u2, t, u) && valid_position(prev, t2, u2) && same_key(
                        #[trigger] source_at(prev, t2, u2),
                        source_at(prev, t, u),
                    );
                assert(attrs[t2] == prev[t2]);
                assert(source_at(attrs, t2, u2) == source_at(prev, t2, u2));
                assert(valid_position(attrs, t2, u2));
            }
            assert(at_fault(e.kind, variants, attrs, t, u));
        }
    } else if last.sources is Err {
        assert(attrs[n] == last);
    } else {
        let mid = plan_conversions(variants, prev)->Ok_0;
        let ms = last.sources->Ok_0;
        let fields = variant_has_fields(variants, last.variant);
        lemma_plan_conversions(variants, prev, mid);
        let u = lemma_add_mappings_err(mid, ms, last.variant, last.attr, fields);
        let before = add_mappings(mid, ms.take(u), last.variant, last.attr, fields)->Ok_0;
        lemma_add_mappings(mid, ms.take(u), last.variant, last.attr, fields, before);
        let m = ms[u];
        assert(attrs[n] == last);
        assert(attr_mappings(last) == ms);
        assert(valid_position(attrs, n, u));
        assert(source_at(attrs, n, u) == m);
        if e.kind == ErrorKind::AlreadyMapped {
            let ty = source_type(m.path);
            let name = variant_name(m.path);
            let j = impl_index(before, ty);
            lemma_impl_index_bounds(before, ty);
            let k = choose|k: int| 0 <= k < before[j].arms.len() && (#[trigger] before[j].arms[k]).source_variant == name;
            let arm = before[j].arms[k];
            assert(contains_arm(before, ty, arm));
            if contains_arm(mid, ty, arm) {
                assert(requested(prev, ty, arm));
                let t2 = choose|t2: int| 0 <= t2 < prev.len() && asked_by(attr_mappings(#[trigger] prev[t2]), prev[t2].variant, ty, arm);
                let u2 = choose|u2: int|
                    0 <= u2 < attr_mappings(prev[t2]).len() && source_type((#[trigger] attr_mappings(prev[t2])[u2]).path) == ty
                        && mapping_arm(attr_mappings(prev[t2])[u2], prev[t2].variant) == arm;
                assert(attrs[t2] == prev[t2]);
                assert(source_at(attrs, t2, u2) == attr_mappings(prev[t2])[u2]);
                assert(same_key(source_at(attrs, t2, u2), m));
                assert(earlier_position(t2, u2, n, u));
                assert(valid_position(attrs, t2, u2));
            } else {
                let short = ms.take(u);
                assert(asked_by(short, last.variant, ty, arm));
                let u2 = choose|u2: int|
                    0 <= u2 < short.len() && source_type((#[trigger] short[u2]).path) == ty && mapping_arm(short[u2], last.variant)
                        == arm;
                assert(short[u2] == ms[u2]);
                assert(source_at(attrs, n, u2) == ms[u2]);
                assert(same_key(source_at(attrs, n, u2), m));
                assert(earlier_position(n, u2, n, u));
                assert(valid_position(attrs, n, u2));
            }
        }
        assert(at_fault(e.kind, variants, attrs, n, u));
    }
}

/// A list of well-written sources with a comma after it is read as those
/// sources, and the reading goes on with what follows.
pub proof fn lemma_split_prefix(items: Seq<RawSource>, q: Seq<TokenView>)
    requires
        items.len() > 0,
        forall|k: int| 0 <= k < items.len() ==> well_written(#[trigger] items[k]),
        syn_ident(from_word()),
    ensures
        split_sources(source_list(items).push(comma()) + q, 0) == (items + split_sources(q, 0).0, split_sources(q, 0).1),
    decreases items.len(),
{
    let s = items[0];
    assert(well_written(items[0]));
    let x = if items.len() == 1 {
        q
    } else {
        source_list(items.drop_first()).push(comma()) + q
    };
    assert(source_list(items).push(comma()) + q =~= written_source(s).push(comma()) + x);
    if s.convert {
        lemma_split_first_from(s.tokens, x);
        assert(RawSource { convert: true, tokens: s.tokens } == s);
    } else {
        lemma_split_first(s.tokens, x);
    }
    if items.len() == 1 {
        assert(items =~= seq![s]);
    } else {
        let rest = items.drop_first();
        assert forall|k: int| 0 <= k < rest.len() implies well_written(#[trigger] rest[k]) by {
            assert(rest[k] == items[k + 1]);
        }
        lemma_split_prefix(rest, q);
        assert(items + split_sources(q, 0).0 =~= seq![s] + (rest + split_sources(q, 0).0));
    }
}

/// A parenthesized group.
pub open spec fn opens_paren(t: TokenView) -> bool {
    t matches TokenView::Group(d, _) && d == Delimiter::Parenthesis
}

/// The errors of the list's own syntax, after any number of well-written
/// sources: a modifier other than `from` is refused before it is read; a
/// `from(...)` that holds more than one source keeps its first path and is
/// refused; a `from(...)` followed by something other than a comma is kept
/// and the list is refused there. (That syn takes `from` as an identifier,
/// not a keyword, is assumed.)
pub proof fn law_split_list_errors(items: Seq<RawSource>, q: Seq<TokenView>)
    requires
        forall|k: int| 0 <= k < items.len() ==> well_written(#[trigger] items[k]),
        syn_ident(from_word()),
    ensures
        ({
            let ts = if items.len() == 0 {
                q
            } else {
                source_list(items).push(comma()) + q
            };
            &&& (q.len() >= 2 && q[0] is Ident && syn_ident(ident_text(q[0])) && ident_text(q[0]) != from_word()
                && opens_paren(q[1])) ==> split_sources(ts, 0) == (
                items,
                Some(ErrorKind::ExpectedFromModifier),
            )
            &&& (q.len() >= 2 && q[0] == TokenView::Ident(from_word()) && opens_paren(q[1]) && source_end(
                group_tokens(q[1]),
                0,
                0,
            ) < group_tokens(q[1]).len()) ==> split_sources(ts, 0) == (
                items.push(RawSource { convert: true, tokens: group_tokens(q[1]).subrange(0, source_end(group_tokens(q[1]), 0, 0)) }),
                Some(ErrorKind::ExpectedSingleSource),
            )
            &&& (q.len() >= 3 && q[0] == TokenView::Ident(from_word()) && opens_paren(q[1]) && source_end(
                group_tokens(q[1]),
                0,
                0,
            ) == group_tokens(q[1]).len() && !is_comma(q[2])) ==> split_sources(
                ts,
                0,
            ) == (items.push(RawSource { convert: true, tokens: group_tokens(q[1]) }), Some(ErrorKind::ExpectedComma))
        }),
{
    if items.len() > 0 {
        lemma_split_prefix(items, q);
    }
    assert(items + Seq::<RawSource>::empty() =~= items);
    if q.len() >= 2 {
        let g = group_tokens(q[1]);
        assert(items + seq![RawSource { convert: true, tokens: g.subrange(0, source_end(g, 0, 0)) }] =~= items.push(
            RawSource { convert: true, tokens: g.subrange(0, source_end(g, 0, 0)) },
        ));
        assert(items + seq![RawSource { convert: true, tokens: g }] =~= items.push(RawSource { convert: true, tokens: g }));
    }
}

/// What resolving the split sources gives: each source's path as syn reads
/// it, in order, with its `from(...)` mark; or the first source whose path
/// syn does not read, with the error that syn's message calls for.
pub proof fn lemma_resolve_sources(raws: Seq<RawSource>)
    ensures
        match resolve_sources(raws) {
            Ok(ms) => {
                &&& ms.len() == raws.len()
                &&& forall|i: int|
                    0 <= i < raws.len() ==> {
                        &&& (#[trigger] ms[i]).convert == raws[i].convert
                        &&& syn_path(raws[i].tokens) == Ok::<PathView, Seq<char>>(ms[i].path)
                    }
            },
            Err((kind, k)) => {
                &&& k < raws.len()
                &&& forall|i: int| 0 <= i < k ==> (#[trigger] syn_path(raws[i].tokens)) is Ok
                &&& syn_path(raws[k as int].tokens) is Err
                &&& kind == path_error(syn_path(raws[k as int].tokens)->Err_0, raws[k as int].convert)
            },
        },
    decreases raws.len(),
{
    if raws.len() > 0 {
        let prev = raws.drop_last();
        lemma_resolve_sources(prev);
        assert forall|i: int| 0 <= i < prev.len() implies #[trigger] raws[i] == prev[i] by {}
        let last = raws.len() - 1;
        assert(raws.last() == raws[last]);
        match resolve_sources(prev) {
            Ok(ms0) => {
                assert forall|i: int| 0 <= i < last implies (#[trigger] syn_path(raws[i].tokens)) is Ok by {
                    assert(raws[i] == prev[i]);
                    assert(syn_path(prev[i].tokens) == Ok::<PathView, Seq<char>>(ms0[i].path));
                }
                match syn_path(raws.last().tokens) {
                    Ok(p) => {
                        let ms = resolve_sources(raws)->Ok_0;
                        assert forall|i: int| 0 <= i < raws.len() implies {
                            &&& (#[trigger] ms[i]).convert == raws[i].convert
                            &&& syn_path(raws[i].tokens) == Ok::<PathView, Seq<char>>(ms[i].path)
                        } by {
                            if i < last {
                                assert(ms[i] == ms0[i]);
                                assert(raws[i] == prev[i]);
                            }
                        }
                    },
                    Err(_) => {},
                }
            },
            Err((kind, k)) => {
                assert(raws[k as int] == prev[k as int]);
                assert forall|i: int| 0 <= i < k implies (#[trigger] syn_path(raws[i].tokens)) is Ok by {
                    assert(raws[i] == prev[i]);
                }
            },
        }
    }
}

/// The sources of a `subsume` list: when the list is read, each source is
/// the path that syn reads from the tokens of the source as the list is
/// split, in order, marked `from(...)` as written, and the split found no
/// error. When it is refused, either syn does not read the path of the
/// source at the index of the error, every earlier one being read, or every
/// path is read and the error is that of the list's syntax, at the source
/// it follows (or, for a modifier other than `from`, just after the sources
/// read).
pub proof fn law_sources_are_syns_paths(ts: Seq<TokenView>)
    ensures
        ({
            let raws = split_sources(ts, 0).0;
            match parse_source_list(ts) {
                Ok(ms) => {
                    &&& split_sources(ts, 0).1 is None
                    &&& ms.len() == raws.len()
                    &&& forall|i: int|
                        0 <= i < raws.len() ==> {
                            &&& (#[trigger] ms[i]).convert == raws[i].convert
                            &&& syn_path(raws[i].tokens) == Ok::<PathView, Seq<char>>(ms[i].path)
                        }
                },
                Err((kind, k)) => {
                    ||| {
                        &&& k < raws.len()
                        &&& forall|i: int| 0 <= i < k ==> (#[trigger] syn_path(raws[i].tokens)) is Ok
                        &&& syn_path(raws[k as int].tokens) is Err
                        &&& kind == path_error(syn_path(raws[k as int].tokens)->Err_0, raws[k as int].convert)
                    }
                    ||| {
                        &&& forall|i: int| 0 <= i < raws.len() ==> (#[trigger] syn_path(raws[i].tokens)) is Ok
                        &&& split_sources(ts, 0).1 == Some(kind)
                        &&& k == if kind == ErrorKind::ExpectedFromModifier {
                            raws.len() as int
                        } else {
                            raws.len() - 1
                        }
                    }
                },
            }
        }),
{
    let raws = split_sources(ts, 0).0;
    lemma_resolve_sources(raws);
    match resolve_sources(raws) {
        Ok(ms) => {
            assert forall|i: int| 0 <= i < raws.len() implies (#[trigger] syn_path(raws[i].tokens)) is Ok by {
                assert(syn_path(raws[i].tokens) == Ok::<PathView, Seq<char>>(ms[i].path));
            }
        },
        Err(_) => {},
    }
}

/// Where a source ends: at the end of the list or at a comma; and where no
/// angle bracket opens, at the first comma.
pub proof fn law_source_ends_at_a_comma(ts: Seq<TokenView>, i: int, depth: nat)
    requires
        0 <= i <= ts.len(),
    ensures
        i <= source_end(ts, i, depth) <= ts.len(),
        source_end(ts, i, depth) < ts.len() ==> is_comma(ts[source_end(ts, i, depth)]),
        depth == 0 && (forall|j: int| i <= j < ts.len() ==> !opens_angle(#[trigger] ts[j])) ==> forall|j: int|
            i <= j < source_end(ts, i, depth) ==> !is_comma(#[trigger] ts[j]),
    decreases ts.len() - i,
{
    lemma_source_end_bounds(ts, i, depth);
    if i < ts.len() {
        if is_comma(ts[i]) && depth == 0 {
        } else if opens_angle(ts[i]) {
            law_source_ends_at_a_comma(ts, i + 1, depth + 1);
        } else if closes_angle(ts, i) {
            law_source_ends_at_a_comma(ts, i + 1, if depth > 0 { (depth - 1) as nat } else { 0 });
        } else {
            law_source_ends_at_a_comma(ts, i + 1, depth);
        }
    }
}

} // verus!
