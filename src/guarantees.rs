use vstd::prelude::*;
use crate::class_parser::constant_pool::{cp_utf8, pool_shape};
use crate::class_parser::{ClassFile, CpNode};
use crate::errors::{CpNodeError, ParsingError};
use crate::verification::{
    allowed_in_class, allowed_in_code, allowed_in_field, allowed_in_method,
    allowed_in_record_component, class_attr_check, code_attr_check, component_attr_check,
    component_check, cp_check, cp_node_error, field_attr_check, field_check, first_some,
    class_refs_error, flags_error, kind_at, layout_error, this_class_resolves, lemma_first_some_none, method_attr_check, method_check, verify_error,
    verify_result, version_error, bsm_count,
};

verus! {

/// Some element that `f` rejects makes the scan fail.
pub proof fn lemma_first_some_hit<T>(s: Seq<T>, f: spec_fn(T) -> Option<ParsingError>, i: int)
    requires
        0 <= i < s.len(),
        f(s[i]) is Some,
    ensures
        first_some(s, f) is Some,
    decreases s.len(),
{
    if i < s.len() - 1 {
        assert(s.drop_last()[i] == s[i]);
        lemma_first_some_hit(s.drop_last(), f, i);
    }
}

/// A scan fails only with an error that `f` gives.
pub proof fn lemma_first_some_only<T>(
    s: Seq<T>,
    f: spec_fn(T) -> Option<ParsingError>,
    e: ParsingError,
)
    requires
        forall|i: int| 0 <= i < s.len() && (#[trigger] f(s[i])) is Some ==> f(s[i]) == Some(e),
    ensures
        first_some(s, f) is Some ==> first_some(s, f) == Some(e),
    decreases s.len(),
{
    if s.len() > 0 {
        assert forall|i: int|
            0 <= i < s.drop_last().len() && (#[trigger] f(s.drop_last()[i])) is Some implies f(
            s.drop_last()[i],
        ) == Some(e) by {
            assert(s.drop_last()[i] == s[i]);
        }
        lemma_first_some_only(s.drop_last(), f, e);
    }
}

/// The indices that a constant-pool entry records.
pub open spec fn cp_refs(n: CpNode) -> Seq<int> {
    match n {
        CpNode::Class(x) => seq![x.name_index.0 as int],
        CpNode::FieldRef(x) => seq![x.class_index.0 as int, x.name_and_type_index.0 as int],
        CpNode::MethodRef(x) => seq![x.class_index.0 as int, x.name_and_type_index.0 as int],
        CpNode::InterfaceMethodRef(x) => seq![
            x.class_index.0 as int,
            x.name_and_type_index.0 as int,
        ],
        CpNode::String(x) => seq![x.string_index.0 as int],
        CpNode::MethodType(x) => seq![x.descriptor_index.0 as int],
        CpNode::Module(x) => seq![x.name_index.0 as int],
        CpNode::Package(x) => seq![x.name_index.0 as int],
        CpNode::NameAndType(x) => seq![x.name_index.0 as int, x.descriptor_index.0 as int],
        CpNode::Dynamic(x) => seq![x.name_and_type_index.0 as int],
        CpNode::InvokeDynamic(x) => seq![x.name_and_type_index.0 as int],
        CpNode::MethodHandle(x) => seq![x.reference_index.0 as int],
        _ => Seq::empty(),
    }
}

/// In a class that the verifier accepted, `this_class` names a Class entry
/// whose name is a Utf8 entry.
pub proof fn lemma_verified_this_class(c: ClassFile)
    requires
        verify_error(c) is None,
    ensures
        this_class_resolves(c),
{
}

/// In a pool that the verifier accepted, every index
/// that an entry records names an existing slot that is not the sentinel
/// after a Long or Double, and each Long or Double is followed by exactly
/// one sentinel.
pub proof fn lemma_verified_pool_references(c: ClassFile)
    requires
        verify_error(c) is None,
    ensures
        pool_shape(c.cp@),
        forall|i: int, k: int|
            0 <= i < c.cp@.len() && 0 <= k < cp_refs(c.cp@[i]).len() ==> {
                let r = #[trigger] cp_refs(c.cp@[i])[k];
                &&& 1 <= r <= c.cp@.len()
                &&& !(c.cp@[r - 1] is Sentinel)
            },
{
    let cp = c.cp@;
    let f = cp_check(cp, bsm_count(c));
    assert(version_error(c) is None);
    assert(layout_error(c) is None);
    assert(first_some(cp, f) is None);
    lemma_first_some_none(cp, f);
    assert forall|i: int, k: int|
        0 <= i < cp.len() && 0 <= k < cp_refs(cp[i]).len() implies {
        let r = #[trigger] cp_refs(cp[i])[k];
        &&& 1 <= r <= cp.len()
        &&& !(cp[r - 1] is Sentinel)
    } by {
        assert(f(cp[i]) is None);
        assert(cp_node_error(cp, bsm_count(c), cp[i]) is None);
        let r = cp_refs(cp[i])[k];
        match cp[i] {
            CpNode::Class(x) => {
                assert(cp_utf8(cp, x.name_index.0 as int) is Some);
            },
            _ => {
                assert(kind_at(cp, r) is Some && kind_at(cp, r) != Some(CpNodeError::Sentinel));
            },
        }
    }
}

/// Verifying a class that verified gives the same result again.
pub proof fn lemma_verify_idempotent(c: ClassFile)
    requires
        verify_result(c) is Ok,
    ensures
        verify_result(verify_result(c)->Ok_0) == verify_result(c),
        verify_result(c)->Ok_0 == c,
{
}

/// The rules checked before attribute locations all pass.
pub open spec fn passes_header_rules(c: ClassFile) -> bool {
    &&& version_error(c) is None
    &&& layout_error(c) is None
    &&& first_some(c.cp@, cp_check(c.cp@, bsm_count(c))) is None
    &&& class_refs_error(c) is None
    &&& flags_error(c) is None
}

/// Every attribute of every record component may stand there.
pub open spec fn components_well_placed(c: ClassFile) -> bool {
    forall|i: int|
        0 <= i < c.attributes@.len() && (#[trigger] c.attributes@[i]) is Record ==> first_some(
            c.attributes@[i]->Record_0.components@,
            component_check(),
        ) is None
}

/// Every attribute of every Code attribute may stand there.
pub open spec fn code_attributes_well_placed(c: ClassFile) -> bool {
    forall|i: int, j: int|
        0 <= i < c.methods@.len() && 0 <= j < c.methods@[i].attributes@.len()
            && (#[trigger] c.methods@[i].attributes@[j]) is Code ==> first_some(
            c.methods@[i].attributes@[j]->Code_0.attributes@,
            code_attr_check(),
        ) is None
}

/// A class attribute that JVMS forbids on a class yields `InvalidClassAttributes`
/// when the earlier rules pass and no record component misplaces one.
pub proof fn lemma_misplaced_class_attribute(c: ClassFile, j: int)
    requires
        passes_header_rules(c),
        components_well_placed(c),
        0 <= j < c.attributes@.len(),
        !allowed_in_class(c.attributes@[j]),
    ensures
        verify_error(c) == Some(ParsingError::InvalidClassAttributes),
{
    let s = c.attributes@;
    let f = class_attr_check();
    assert(f(s[j]) is Some);
    lemma_first_some_hit(s, f, j);
    assert forall|i: int| 0 <= i < s.len() && (#[trigger] f(s[i])) is Some implies f(s[i])
        == Some(ParsingError::InvalidClassAttributes) by {
        if allowed_in_class(s[i]) && s[i] is Record {
            assert(first_some(s[i]->Record_0.components@, component_check()) is None);
        }
    }
    lemma_first_some_only(s, f, ParsingError::InvalidClassAttributes);
}

/// An attribute that JVMS forbids on a record component yields
/// `InvalidRecordComponentInfoAttributes` when the earlier rules pass and the
/// class's own attributes may all stand on a class.
pub proof fn lemma_misplaced_record_component_attribute(c: ClassFile, j: int, k: int, m: int)
    requires
        passes_header_rules(c),
        forall|i: int| 0 <= i < c.attributes@.len() ==> allowed_in_class(
            #[trigger] c.attributes@[i],
        ),
        0 <= j < c.attributes@.len(),
        c.attributes@[j] is Record,
        0 <= k < c.attributes@[j]->Record_0.components@.len(),
        0 <= m < c.attributes@[j]->Record_0.components@[k].attributes@.len(),
        !allowed_in_record_component(c.attributes@[j]->Record_0.components@[k].attributes@[m]),
    ensures
        verify_error(c) == Some(ParsingError::InvalidRecordComponentInfoAttributes),
{
    let e = ParsingError::InvalidRecordComponentInfoAttributes;
    let s = c.attributes@;
    let comps = s[j]->Record_0.components@;
    lemma_first_some_hit(comps[k].attributes@, component_attr_check(), m);
    assert(component_check()(comps[k]) is Some);
    lemma_first_some_hit(comps, component_check(), k);
    assert forall|i: int| 0 <= i < s.len() && (#[trigger] class_attr_check()(s[i])) is Some implies class_attr_check()(s[i]) == Some(e) by {
        let cs = s[i]->Record_0.components@;
        assert forall|q: int| 0 <= q < cs.len() && (#[trigger] component_check()(cs[q])) is Some implies component_check()(cs[q]) == Some(e) by {
            lemma_first_some_only(cs[q].attributes@, component_attr_check(), e);
        }
        lemma_first_some_only(cs, component_check(), e);
    }
    assert(class_attr_check()(s[j]) is Some);
    lemma_first_some_hit(s, class_attr_check(), j);
    lemma_first_some_only(s, class_attr_check(), e);
}

/// An attribute that JVMS forbids on a field yields `InvalidFieldInfoAttributes`
/// when the earlier rules pass and the class's attributes are well placed.
pub proof fn lemma_misplaced_field_attribute(c: ClassFile, i: int, j: int)
    requires
        passes_header_rules(c),
        first_some(c.attributes@, class_attr_check()) is None,
        0 <= i < c.fields@.len(),
        0 <= j < c.fields@[i].attributes@.len(),
        !allowed_in_field(c.fields@[i].attributes@[j]),
    ensures
        verify_error(c) == Some(ParsingError::InvalidFieldInfoAttributes),
{
    let e = ParsingError::InvalidFieldInfoAttributes;
    let fs = c.fields@;
    lemma_first_some_hit(fs[i].attributes@, field_attr_check(), j);
    assert(field_check()(fs[i]) is Some);
    lemma_first_some_hit(fs, field_check(), i);
    assert forall|q: int| 0 <= q < fs.len() && (#[trigger] field_check()(fs[q])) is Some implies field_check()(fs[q]) == Some(e) by {
        lemma_first_some_only(fs[q].attributes@, field_attr_check(), e);
    }
    lemma_first_some_only(fs, field_check(), e);
}

/// An attribute that JVMS forbids on a method yields `InvalidMethodInfoAttributes`
/// when the earlier rules pass, class and fields are well placed, and no Code
/// attribute misplaces one.
pub proof fn lemma_misplaced_method_attribute(c: ClassFile, i: int, j: int)
    requires
        passes_header_rules(c),
        first_some(c.attributes@, class_attr_check()) is None,
        first_some(c.fields@, field_check()) is None,
        code_attributes_well_placed(c),
        0 <= i < c.methods@.len(),
        0 <= j < c.methods@[i].attributes@.len(),
        !allowed_in_method(c.methods@[i].attributes@[j]),
    ensures
        verify_error(c) == Some(ParsingError::InvalidMethodInfoAttributes),
{
    let e = ParsingError::InvalidMethodInfoAttributes;
    let ms = c.methods@;
    lemma_first_some_hit(ms[i].attributes@, method_attr_check(), j);
    assert(method_check()(ms[i]) is Some);
    lemma_first_some_hit(ms, method_check(), i);
    assert forall|q: int| 0 <= q < ms.len() && (#[trigger] method_check()(ms[q])) is Some implies method_check()(ms[q]) == Some(e) by {
        let a = ms[q].attributes@;
        assert forall|r: int| 0 <= r < a.len() && (#[trigger] method_attr_check()(a[r])) is Some implies method_attr_check()(a[r]) == Some(e) by {
            if allowed_in_method(a[r]) && a[r] is Code {
                assert(c.methods@[q].attributes@[r] is Code);
            }
        }
        lemma_first_some_only(a, method_attr_check(), e);
    }
    lemma_first_some_only(ms, method_check(), e);
}

/// An attribute that JVMS forbids inside a Code attribute yields
/// `InvalidCodeAttributes` when the earlier rules pass, class and fields are
/// well placed, and every method attribute may stand on a method.
pub proof fn lemma_misplaced_code_attribute(c: ClassFile, i: int, j: int, k: int)
    requires
        passes_header_rules(c),
        first_some(c.attributes@, class_attr_check()) is None,
        first_some(c.fields@, field_check()) is None,
        forall|p: int, q: int|
            0 <= p < c.methods@.len() && 0 <= q < c.methods@[p].attributes@.len()
                ==> allowed_in_method(#[trigger] c.methods@[p].attributes@[q]),
        0 <= i < c.methods@.len(),
        0 <= j < c.methods@[i].attributes@.len(),
        c.methods@[i].attributes@[j] is Code,
        0 <= k < c.methods@[i].attributes@[j]->Code_0.attributes@.len(),
        !allowed_in_code(c.methods@[i].attributes@[j]->Code_0.attributes@[k]),
    ensures
        verify_error(c) == Some(ParsingError::InvalidCodeAttributes),
{
    let e = ParsingError::InvalidCodeAttributes;
    let ms = c.methods@;
    let code = ms[i].attributes@[j]->Code_0;
    lemma_first_some_hit(code.attributes@, code_attr_check(), k);
    assert(method_attr_check()(ms[i].attributes@[j]) is Some);
    lemma_first_some_hit(ms[i].attributes@, method_attr_check(), j);
    assert(method_check()(ms[i]) is Some);
    lemma_first_some_hit(ms, method_check(), i);
    assert forall|q: int| 0 <= q < ms.len() && (#[trigger] method_check()(ms[q])) is Some implies method_check()(ms[q]) == Some(e) by {
        let a = ms[q].attributes@;
        assert forall|r: int| 0 <= r < a.len() && (#[trigger] method_attr_check()(a[r])) is Some implies method_attr_check()(a[r]) == Some(e) by {
            assert(allowed_in_method(c.methods@[q].attributes@[r]));
            if a[r] is Code {
                lemma_first_some_only(a[r]->Code_0.attributes@, code_attr_check(), e);
            }
        }
        lemma_first_some_only(a, method_attr_check(), e);
    }
    lemma_first_some_only(ms, method_check(), e);
}


/// A scan in which `f` accepts every element passes.
pub proof fn lemma_first_some_all<T>(s: Seq<T>, f: spec_fn(T) -> Option<ParsingError>)
    requires
        forall|j: int| 0 <= j < s.len() ==> (#[trigger] f(s[j])) is None,
    ensures
        first_some(s, f) is None,
    decreases s.len(),
{
    if s.len() > 0 {
        assert forall|j: int| 0 <= j < s.drop_last().len() implies (#[trigger] f(
            s.drop_last()[j],
        )) is None by {
            assert(s.drop_last()[j] == s[j]);
        }
        lemma_first_some_all(s.drop_last(), f);
    }
}

/// The places where an attribute can stand.
pub enum AttributeContext {
    Class,
    RecordComponent,
    Field,
    Method,
    Code,
}

/// The error that the verifier gives for an attribute misplaced in `ctx`.
pub open spec fn context_error(ctx: AttributeContext) -> ParsingError {
    match ctx {
        AttributeContext::Class => ParsingError::InvalidClassAttributes,
        AttributeContext::RecordComponent => ParsingError::InvalidRecordComponentInfoAttributes,
        AttributeContext::Field => ParsingError::InvalidFieldInfoAttributes,
        AttributeContext::Method => ParsingError::InvalidMethodInfoAttributes,
        AttributeContext::Code => ParsingError::InvalidCodeAttributes,
    }
}

/// Some attribute of `c` stands in `ctx` although JVMS does not allow it there.
pub open spec fn misplaced_in(c: ClassFile, ctx: AttributeContext) -> bool {
    match ctx {
        AttributeContext::Class => exists|j: int|
            0 <= j < c.attributes@.len() && !allowed_in_class(#[trigger] c.attributes@[j]),
        AttributeContext::RecordComponent => exists|j: int, k: int, m: int|
            0 <= j < c.attributes@.len() && c.attributes@[j] is Record && 0 <= k
                < c.attributes@[j]->Record_0.components@.len() && 0 <= m
                < c.attributes@[j]->Record_0.components@[k].attributes@.len()
                && !allowed_in_record_component(
                #[trigger] c.attributes@[j]->Record_0.components@[k].attributes@[m],
            ),
        AttributeContext::Field => exists|i: int, j: int|
            0 <= i < c.fields@.len() && 0 <= j < c.fields@[i].attributes@.len()
                && !allowed_in_field(#[trigger] c.fields@[i].attributes@[j]),
        AttributeContext::Method => exists|i: int, j: int|
            0 <= i < c.methods@.len() && 0 <= j < c.methods@[i].attributes@.len()
                && !allowed_in_method(#[trigger] c.methods@[i].attributes@[j]),
        AttributeContext::Code => exists|i: int, j: int, k: int|
            0 <= i < c.methods@.len() && 0 <= j < c.methods@[i].attributes@.len()
                && c.methods@[i].attributes@[j] is Code && 0 <= k
                < c.methods@[i].attributes@[j]->Code_0.attributes@.len() && !allowed_in_code(
                #[trigger] c.methods@[i].attributes@[j]->Code_0.attributes@[k],
            ),
    }
}

/// No attribute of any record component is misplaced.
proof fn lemma_components_placed(c: ClassFile)
    requires
        !misplaced_in(c, AttributeContext::RecordComponent),
    ensures
        components_well_placed(c),
{
    assert forall|j: int| 0 <= j < c.attributes@.len() && (#[trigger] c.attributes@[j]) is Record implies first_some(
        c.attributes@[j]->Record_0.components@,
        component_check(),
    ) is None by {
        let cs = c.attributes@[j]->Record_0.components@;
        assert forall|k: int| 0 <= k < cs.len() implies (#[trigger] component_check()(cs[k])) is None by {
            let a = cs[k].attributes@;
            assert forall|m: int| 0 <= m < a.len() implies (#[trigger] component_attr_check()(a[m])) is None by {
                assert(allowed_in_record_component(c.attributes@[j]->Record_0.components@[k].attributes@[m]));
            }
            lemma_first_some_all(a, component_attr_check());
        }
        lemma_first_some_all(cs, component_check());
    }
}

/// The class's own attributes and its record components are well placed.
proof fn lemma_class_placed(c: ClassFile)
    requires
        !misplaced_in(c, AttributeContext::Class),
        !misplaced_in(c, AttributeContext::RecordComponent),
    ensures
        first_some(c.attributes@, class_attr_check()) is None,
{
    lemma_components_placed(c);
    let s = c.attributes@;
    assert forall|j: int| 0 <= j < s.len() implies (#[trigger] class_attr_check()(s[j])) is None by {
        assert(allowed_in_class(c.attributes@[j]));
    }
    lemma_first_some_all(s, class_attr_check());
}

/// The fields' attributes are well placed.
proof fn lemma_fields_placed(c: ClassFile)
    requires
        !misplaced_in(c, AttributeContext::Field),
    ensures
        first_some(c.fields@, field_check()) is None,
{
    let fs = c.fields@;
    assert forall|i: int| 0 <= i < fs.len() implies (#[trigger] field_check()(fs[i])) is None by {
        let a = fs[i].attributes@;
        assert forall|j: int| 0 <= j < a.len() implies (#[trigger] field_attr_check()(a[j])) is None by {
            assert(allowed_in_field(c.fields@[i].attributes@[j]));
        }
        lemma_first_some_all(a, field_attr_check());
    }
    lemma_first_some_all(fs, field_check());
}

/// For every context: a class that passes the rules checked before attribute
/// locations, and that misplaces an attribute in `ctx` and in no other
/// context, is rejected with the error of `ctx`.
pub proof fn lemma_misplaced_attribute(c: ClassFile, ctx: AttributeContext)
    requires
        passes_header_rules(c),
        misplaced_in(c, ctx),
        forall|other: AttributeContext| other != ctx ==> !misplaced_in(c, other),
    ensures
        verify_error(c) == Some(context_error(ctx)),
{
    match ctx {
        AttributeContext::Class => {
            assert(!misplaced_in(c, AttributeContext::RecordComponent));
            lemma_components_placed(c);
            let j = choose|j: int|
                0 <= j < c.attributes@.len() && !allowed_in_class(#[trigger] c.attributes@[j]);
            lemma_misplaced_class_attribute(c, j);
        },
        AttributeContext::RecordComponent => {
            assert(!misplaced_in(c, AttributeContext::Class));
            let (j, k, m) = choose|j: int, k: int, m: int|
                0 <= j < c.attributes@.len() && c.attributes@[j] is Record && 0 <= k
                    < c.attributes@[j]->Record_0.components@.len() && 0 <= m
                    < c.attributes@[j]->Record_0.components@[k].attributes@.len()
                    && !allowed_in_record_component(
                    #[trigger] c.attributes@[j]->Record_0.components@[k].attributes@[m],
                );
            assert forall|i: int| 0 <= i < c.attributes@.len() implies allowed_in_class(
                #[trigger] c.attributes@[i],
            ) by {}
            lemma_misplaced_record_component_attribute(c, j, k, m);
        },
        AttributeContext::Field => {
            assert(!misplaced_in(c, AttributeContext::Class));
            assert(!misplaced_in(c, AttributeContext::RecordComponent));
            lemma_class_placed(c);
            let (i, j) = choose|i: int, j: int|
                0 <= i < c.fields@.len() && 0 <= j < c.fields@[i].attributes@.len()
                    && !allowed_in_field(#[trigger] c.fields@[i].attributes@[j]);
            lemma_misplaced_field_attribute(c, i, j);
        },
        AttributeContext::Method => {
            assert(!misplaced_in(c, AttributeContext::Class));
            assert(!misplaced_in(c, AttributeContext::RecordComponent));
            assert(!misplaced_in(c, AttributeContext::Field));
            assert(!misplaced_in(c, AttributeContext::Code));
            lemma_class_placed(c);
            lemma_fields_placed(c);
            assert forall|i: int, j: int|
                0 <= i < c.methods@.len() && 0 <= j < c.methods@[i].attributes@.len()
                    && (#[trigger] c.methods@[i].attributes@[j]) is Code implies first_some(
                c.methods@[i].attributes@[j]->Code_0.attributes@,
                code_attr_check(),
            ) is None by {
                let a = c.methods@[i].attributes@[j]->Code_0.attributes@;
                assert forall|k: int| 0 <= k < a.len() implies (#[trigger] code_attr_check()(a[k])) is None by {
                    assert(allowed_in_code(c.methods@[i].attributes@[j]->Code_0.attributes@[k]));
                }
                lemma_first_some_all(a, code_attr_check());
            }
            let (i, j) = choose|i: int, j: int|
                0 <= i < c.methods@.len() && 0 <= j < c.methods@[i].attributes@.len()
                    && !allowed_in_method(#[trigger] c.methods@[i].attributes@[j]);
            lemma_misplaced_method_attribute(c, i, j);
        },
        AttributeContext::Code => {
            assert(!misplaced_in(c, AttributeContext::Class));
            assert(!misplaced_in(c, AttributeContext::RecordComponent));
            assert(!misplaced_in(c, AttributeContext::Field));
            assert(!misplaced_in(c, AttributeContext::Method));
            lemma_class_placed(c);
            lemma_fields_placed(c);
            let (i, j, k) = choose|i: int, j: int, k: int|
                0 <= i < c.methods@.len() && 0 <= j < c.methods@[i].attributes@.len()
                    && c.methods@[i].attributes@[j] is Code && 0 <= k
                    < c.methods@[i].attributes@[j]->Code_0.attributes@.len() && !allowed_in_code(
                    #[trigger] c.methods@[i].attributes@[j]->Code_0.attributes@[k],
                );
            lemma_misplaced_code_attribute(c, i, j, k);
        },
    }
}

} // verus!
