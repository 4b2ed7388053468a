use vstd::prelude::*;
use crate::attributes::ConfigKey;
use crate::fields::{field_signature, read_plan, slot_of, slot_plan, FieldType, ParsedField, SlotView};
use crate::generics::{declared_bound, lookup, TypeParameters};
use crate::scan::{checks_made, scan_outcome, ScanStep};
use crate::types::TypeExpr;
use crate::variants::{
    case_in, case_out, enum_in_plan, enum_out_plan, nested_class_of, object_signature_of, CaseInView,
    CaseOutView, ParsedVariant,
};

verus! {

/// The positions of the fields that are not skipped, in declaration order.
pub open spec fn kept(fields: Seq<ParsedField>) -> Seq<int>
    decreases fields.len(),
{
    if fields.len() == 0 {
        Seq::empty()
    } else if fields.last().skip {
        kept(fields.drop_last())
    } else {
        kept(fields.drop_last()).push(fields.len() - 1)
    }
}

/// The index among the constructor's parameters of the field at position
/// `i`: the number of fields before it that are not skipped.
pub open spec fn slot_index(fields: Seq<ParsedField>, i: int) -> int {
    kept(fields.subrange(0, i)).len() as int
}

/// The signatures of the constructor's parameters: each slot's own, or, where
/// the slot leaves it to the field's type, the one `declared` gives.
pub open spec fn resolved_signatures(slots: Seq<SlotView>, declared: Seq<Seq<char>>) -> Seq<Seq<char>> {
    Seq::new(slots.len(), |j: int| match slots[j].signature {
        Some(s) => s,
        None => declared[j],
    })
}

/// The arguments that the constructor receives for `values`, the values of
/// the fields in declaration order; `mapped` stands for what a field's `map`
/// closure makes of its value.
pub open spec fn passed_args<V>(fields: Seq<ParsedField>, slots: Seq<SlotView>, values: Seq<V>, mapped: spec_fn(int, V) -> V) -> Seq<V> {
    slots.map_values(|s: SlotView| if fields[s.position].attributes.value(ConfigKey::Mapping) is Some {
        mapped(s.position, values[s.position])
    } else {
        values[s.position]
    })
}

/// The index of the first of `slots` from `j` on that is `r`, or -1.
pub open spec fn first_slot_index(slots: Seq<SlotView>, r: SlotView, j: int) -> int
    decreases slots.len() - j,
{
    if j < 0 || j >= slots.len() {
        -1
    } else if slots[j] == r {
        j
    } else {
        first_slot_index(slots, r, j + 1)
    }
}

/// The field values that reading an object back gives, where the object
/// answers the accessor of a slot with the argument that the constructor
/// received for that slot, and skipped fields take their value in
/// `defaults`.
pub open spec fn rebuilt<V>(reads: Seq<Option<SlotView>>, slots: Seq<SlotView>, args: Seq<V>, defaults: Seq<V>) -> Seq<V> {
    Seq::new(reads.len(), |i: int| match reads[i] {
        Some(r) => args[first_slot_index(slots, r, 0)],
        None => defaults[i],
    })
}

proof fn lemma_first_slot_index(slots: Seq<SlotView>, r: SlotView, j: int, k: int)
    requires
        0 <= j <= k < slots.len(),
        slots[k] == r,
    ensures
        0 <= first_slot_index(slots, r, j) < slots.len(),
        slots[first_slot_index(slots, r, j)] == r,
    decreases k - j,
{
    if slots[j] != r {
        lemma_first_slot_index(slots, r, j + 1, k);
    }
}

/// The slots that the construction of an object gives and the reads that
/// its reconstruction makes come from the same fields: the fields that are
/// not skipped, in declaration order, each with the same accessor and
/// signature in both directions; a skipped field is read from the default.
pub proof fn lemma_plans_agree(fields: Seq<ParsedField>, tp: TypeParameters)
    ensures
        slot_plan(fields, tp) is Ok <==> read_plan(fields, tp) is Ok,
        slot_plan(fields, tp) is Ok ==> {
            let slots = slot_plan(fields, tp)->Ok_0;
            let reads = read_plan(fields, tp)->Ok_0;
            &&& reads.len() == fields.len()
            &&& slots.len() == kept(fields).len()
            &&& forall|j: int| 0 <= j < slots.len() ==> (#[trigger] slots[j]).position == kept(fields)[j]
            &&& forall|j: int| 0 <= j < slots.len() ==> reads[(#[trigger] slots[j]).position] == Some(slots[j])
            &&& forall|i: int| 0 <= i < fields.len() ==> ((#[trigger] reads[i]) is None <==> fields[i].skip)
            &&& forall|i: int| #![trigger fields[i]] 0 <= i < fields.len() && !fields[i].skip ==> 0 <= slot_index(fields, i) < slots.len() && reads[i] == Some(slots[slot_index(fields, i)])
            &&& forall|i: int| 0 <= i < fields.len() && !fields[i].skip ==> (#[trigger] reads[i])->Some_0 == slot_of(fields[i], i, field_signature(fields[i], tp)->Ok_0)
            &&& forall|j: int| 0 <= j < kept(fields).len() ==> 0 <= #[trigger] kept(fields)[j] < fields.len() && !fields[kept(fields)[j]].skip
            &&& forall|j: int, k: int| 0 <= j < k < kept(fields).len() ==> #[trigger] kept(fields)[j] < #[trigger] kept(fields)[k]
        },
    decreases fields.len(),
{
    if fields.len() > 0 {
        let init = fields.drop_last();
        lemma_plans_agree(init, tp);
        if slot_plan(fields, tp) is Ok {
            let slots = slot_plan(fields, tp)->Ok_0;
            let reads = read_plan(fields, tp)->Ok_0;
            let s0 = slot_plan(init, tp)->Ok_0;
            let r0 = read_plan(init, tp)->Ok_0;
            let k0 = kept(init);
            let n = fields.len() - 1;
            assert forall|i: int| 0 <= i < n implies fields[i] == #[trigger] init[i] by {}
            if fields.last().skip {
                assert(reads == r0.push(None));
                assert(slots == s0);
                assert(kept(fields) == k0);
                assert forall|j: int| 0 <= j < slots.len() implies reads[(#[trigger] slots[j]).position] == Some(slots[j]) by {
                    assert(r0[s0[j].position] == Some(s0[j]));
                }
                assert forall|i: int| #![trigger fields[i]] 0 <= i < fields.len() && !fields[i].skip implies 0 <= slot_index(fields, i) < slots.len() && reads[i] == Some(slots[slot_index(fields, i)]) by {
                    assert(init[i] == fields[i]);
                    assert(reads[i] == r0[i]);
                    assert(fields.subrange(0, i) == init.subrange(0, i));
                }
                assert forall|i: int| 0 <= i < fields.len() && !fields[i].skip implies (#[trigger] reads[i])->Some_0 == slot_of(fields[i], i, field_signature(fields[i], tp)->Ok_0) by {
                    assert(init[i] == fields[i]);
                    assert(reads[i] == r0[i]);
                }
                assert forall|i: int| 0 <= i < fields.len() implies ((#[trigger] reads[i]) is None <==> fields[i].skip) by {
                    if i < n {
                        assert(reads[i] == r0[i]);
                    }
                }
            } else {
                let sig = field_signature(fields.last(), tp)->Ok_0;
                let s = slot_of(fields.last(), n, sig);
                assert(slots == s0.push(s));
                assert(reads == r0.push(Some(s)));
                assert(kept(fields) == k0.push(n));
                assert forall|j: int| 0 <= j < slots.len() implies (#[trigger] slots[j]).position == kept(fields)[j] by {
                    if j < s0.len() {
                        assert(slots[j] == s0[j]);
                    }
                }
                assert forall|j: int| 0 <= j < slots.len() implies reads[(#[trigger] slots[j]).position] == Some(slots[j]) by {
                    if j < s0.len() {
                        assert(slots[j] == s0[j]);
                        assert(r0[s0[j].position] == Some(s0[j]));
                        assert(0 <= k0[j] < init.len());
                    }
                }
                assert forall|i: int| #![trigger fields[i]] 0 <= i < fields.len() && !fields[i].skip implies 0 <= slot_index(fields, i) < slots.len() && reads[i] == Some(slots[slot_index(fields, i)]) by {
                    if i == n {
                        assert(fields.subrange(0, i) == init);
                        assert(reads[i] == Some(slots[s0.len() as int]));
                    } else {
                        assert(init[i] == fields[i]);
                        assert(fields.subrange(0, i) == init.subrange(0, i));
                        assert(reads[i] == r0[i]);
                        assert(slots[slot_index(init, i)] == s0[slot_index(init, i)]);
                    }
                }
                assert forall|i: int| 0 <= i < fields.len() && !fields[i].skip implies (#[trigger] reads[i])->Some_0 == slot_of(fields[i], i, field_signature(fields[i], tp)->Ok_0) by {
                    if i < n {
                        assert(init[i] == fields[i]);
                        assert(reads[i] == r0[i]);
                    }
                }
                assert forall|i: int| 0 <= i < fields.len() implies ((#[trigger] reads[i]) is None <==> fields[i].skip) by {
                    if i < n {
                        assert(reads[i] == r0[i]);
                    }
                }
                assert forall|j: int| 0 <= j < kept(fields).len() implies 0 <= #[trigger] kept(fields)[j] < fields.len() && !fields[kept(fields)[j]].skip by {
                    if j < k0.len() {
                        assert(kept(fields)[j] == k0[j]);
                    }
                }
                assert forall|j: int, k: int| 0 <= j < k < kept(fields).len() implies #[trigger] kept(fields)[j] < #[trigger] kept(fields)[k] by {
                    if k < k0.len() {
                        assert(kept(fields)[j] == k0[j]);
                        assert(kept(fields)[k] == k0[k]);
                    } else {
                        assert(kept(fields)[j] == k0[j]);
                        assert(0 <= k0[j] < init.len());
                    }
                }
            }
        } else {
            if slot_plan(init, tp) is Ok && !fields.last().skip {
                assert(field_signature(fields.last(), tp) is Err);
            }
        }
    }
}

/// The constructor that converting a value calls has one parameter for each
/// field that is not skipped, in declaration order; the signature of the
/// parameter at index `j` is the resolved signature of the `j`-th field that
/// is not skipped (its fixed signature, else the one its type declares).
pub proof fn lemma_constructor_signature(fields: Seq<ParsedField>, tp: TypeParameters, declared: Seq<Seq<char>>)
    requires
        slot_plan(fields, tp) is Ok,
        declared.len() == slot_plan(fields, tp)->Ok_0.len(),
    ensures
        ({
            let slots = slot_plan(fields, tp)->Ok_0;
            let sigs = resolved_signatures(slots, declared);
            &&& slots.len() == kept(fields).len()
            &&& sigs.len() == kept(fields).len()
            &&& forall|j: int| 0 <= j < slots.len() ==> (#[trigger] slots[j]).position == kept(fields)[j]
            &&& forall|j: int| 0 <= j < slots.len() ==> (#[trigger] sigs[j]) == match field_signature(fields[kept(fields)[j]], tp)->Ok_0 {
                Some(s) => s,
                None => declared[j],
            }
        }),
{
    lemma_plans_agree(fields, tp);
    let slots = slot_plan(fields, tp)->Ok_0;
    let reads = read_plan(fields, tp)->Ok_0;
    assert forall|j: int| 0 <= j < slots.len() implies slots[j].signature == field_signature(fields[kept(fields)[j]], tp)->Ok_0 by {
        let i = slots[j].position;
        assert(reads[i] == Some(slots[j]));
        assert(!fields[i].skip);
    }
}

/// A skipped field has no parameter in the constructor and no accessor is
/// called for it: it is taken from the default value.
pub proof fn lemma_skipped_field_absent(fields: Seq<ParsedField>, tp: TypeParameters, i: int)
    requires
        0 <= i < fields.len(),
        fields[i].skip,
        slot_plan(fields, tp) is Ok,
    ensures
        forall|j: int| 0 <= j < slot_plan(fields, tp)->Ok_0.len() ==> (#[trigger] slot_plan(fields, tp)->Ok_0[j]).position != i,
        read_plan(fields, tp) is Ok,
        read_plan(fields, tp)->Ok_0[i] is None,
{
    lemma_plans_agree(fields, tp);
    let slots = slot_plan(fields, tp)->Ok_0;
    assert forall|j: int| 0 <= j < slots.len() implies (#[trigger] slots[j]).position != i by {
        assert(!fields[kept(fields)[j]].skip);
    }
}

/// Converting a value into an object and reading the object back gives
/// each field that is not skipped its value again, where no field has a
/// `map` closure and the object's accessors return what its constructor
/// received; skipped fields take their default.
pub proof fn lemma_round_trip<V>(fields: Seq<ParsedField>, tp: TypeParameters, values: Seq<V>, defaults: Seq<V>, mapped: spec_fn(int, V) -> V)
    requires
        slot_plan(fields, tp) is Ok,
        values.len() == fields.len(),
        defaults.len() == fields.len(),
        forall|i: int| 0 <= i < fields.len() ==> (#[trigger] fields[i]).attributes.value(ConfigKey::Mapping) is None,
    ensures
        ({
            let slots = slot_plan(fields, tp)->Ok_0;
            let reads = read_plan(fields, tp)->Ok_0;
            let back = rebuilt(reads, slots, passed_args(fields, slots, values, mapped), defaults);
            &&& back.len() == fields.len()
            &&& forall|i: int| 0 <= i < fields.len() ==> #[trigger] back[i] == if fields[i].skip { defaults[i] } else { values[i] }
        }),
{
    lemma_plans_agree(fields, tp);
    let slots = slot_plan(fields, tp)->Ok_0;
    let reads = read_plan(fields, tp)->Ok_0;
    let args = passed_args(fields, slots, values, mapped);
    let back = rebuilt(reads, slots, args, defaults);
    assert forall|i: int| 0 <= i < fields.len() implies #[trigger] back[i] == if fields[i].skip { defaults[i] } else { values[i] } by {
        if !fields[i].skip {
            let j = slot_index(fields, i);
            let r = reads[i]->Some_0;
            lemma_first_slot_index(slots, r, 0, j);
            let k = first_slot_index(slots, r, 0);
            assert(r.position == i);
            assert(slots[k].position == i);
            assert(args[k] == values[i]);
        }
    }
}

proof fn lemma_lookup_declared(names: Seq<Seq<char>>, sigs: Seq<Seq<char>>, bounds: Option<Seq<char>>, name: Seq<char>, i: int)
    requires
        names.len() == sigs.len(),
        0 <= i <= names.len(),
        forall|k: int| 0 <= k < names.len() ==> #[trigger] sigs[k] == declared_bound(bounds, names[k]),
    ensures
        lookup(names, sigs, name, i) == if names.subrange(i, names.len() as int).contains(name) {
            Some(declared_bound(bounds, name))
        } else {
            None::<Seq<char>>
        },
    decreases names.len() - i,
{
    let rest = names.subrange(i, names.len() as int);
    if i < names.len() {
        lemma_lookup_declared(names, sigs, bounds, name, i + 1);
        let next = names.subrange(i + 1, names.len() as int);
        if names[i] != name {
            if rest.contains(name) {
                let k = choose|k: int| 0 <= k < rest.len() && rest[k] == name;
                assert(next[k - 1] == name);
            }
            if next.contains(name) {
                let k = choose|k: int| 0 <= k < next.len() && next[k] == name;
                assert(rest[k + 1] == name);
            }
        } else {
            assert(rest[0] == name);
        }
    }
}

/// Of two fields without `target_class`, one whose type is a generic
/// parameter of the type and one whose type is a concrete type of the same
/// shape: the first takes the parameter's bound from the `bounds` directive
/// (`java.lang.Object` when it names none), the second keeps the signature
/// that its own type declares.
pub proof fn lemma_erasure(tp: TypeParameters, bounds: Option<Seq<char>>, generic: ParsedField, concrete: ParsedField)
    requires
        tp.wf(),
        tp.sigs().len() == tp.names().len(),
        forall|k: int| 0 <= k < tp.names().len() ==> #[trigger] tp.sigs()[k] == declared_bound(bounds, tp.names()[k]),
        generic.ty matches TypeExpr::Path(Some(p), a) && a@.len() == 0 && tp.names().contains(p@),
        concrete.ty matches TypeExpr::Path(Some(q), a) && a@.len() == 0 && !tp.names().contains(q@),
        generic.attributes.value(ConfigKey::TargetClass) is None,
        concrete.attributes.value(ConfigKey::TargetClass) is None,
    ensures
        field_signature(generic, tp) == Ok::<_, crate::types::TypeError>(Some(declared_bound(bounds, generic.ty->Path_0->Some_0@))),
        field_signature(concrete, tp) == Ok::<Option<Seq<char>>, crate::types::TypeError>(None),
{
    let names = tp.names();
    assert(names.subrange(0, names.len() as int) == names);
    lemma_lookup_declared(names, tp.sigs(), bounds, generic.ty->Path_0->Some_0@, 0);
    lemma_lookup_declared(names, tp.sigs(), bounds, concrete.ty->Path_0->Some_0@, 0);
}

proof fn lemma_enum_out_index(vs: Seq<ParsedVariant>, class: Seq<char>, simple: bool, tp: TypeParameters, i: int)
    requires
        enum_out_plan(vs, class, simple, tp) is Ok,
        0 <= i < vs.len(),
    ensures
        enum_out_plan(vs, class, simple, tp)->Ok_0.len() == vs.len(),
        case_out(vs[i], class, simple, tp) == Ok::<_, crate::types::TypeError>(enum_out_plan(vs, class, simple, tp)->Ok_0[i]),
    decreases vs.len(),
{
    let init = vs.drop_last();
    if i < vs.len() - 1 {
        lemma_enum_out_index(init, class, simple, tp, i);
        assert(init[i] == vs[i]);
    } else if init.len() > 0 {
        lemma_enum_out_index(init, class, simple, tp, 0);
    }
}

proof fn lemma_enum_in_index(vs: Seq<ParsedVariant>, class: Seq<char>, simple: bool, tp: TypeParameters, i: int)
    requires
        enum_in_plan(vs, class, simple, tp) is Ok,
        0 <= i < vs.len(),
    ensures
        enum_in_plan(vs, class, simple, tp)->Ok_0.len() == vs.len(),
        case_in(vs[i], class, simple, tp) == Ok::<_, crate::types::TypeError>(enum_in_plan(vs, class, simple, tp)->Ok_0[i]),
    decreases vs.len(),
{
    let init = vs.drop_last();
    if i < vs.len() - 1 {
        lemma_enum_in_index(init, class, simple, tp, i);
        assert(init[i] == vs[i]);
    } else if init.len() > 0 {
        lemma_enum_in_index(init, class, simple, tp, 0);
    }
}

/// In a Java enum class, variants `a` and `b` with different names are the
/// static fields of the class named exactly as they are, so they read
/// different fields; and they are recognised by identity with those fields.
pub proof fn lemma_enum_class_constants(vs: Seq<ParsedVariant>, class: Seq<char>, tp: TypeParameters, a: int, b: int)
    requires
        enum_out_plan(vs, class, true, tp) is Ok,
        enum_in_plan(vs, class, true, tp) is Ok,
        0 <= a < vs.len(),
        0 <= b < vs.len(),
        vs[a].name@ != vs[b].name@,
    ensures
        enum_out_plan(vs, class, true, tp)->Ok_0[a] == CaseOutView::StaticField(class, vs[a].name@, object_signature_of(class)),
        enum_out_plan(vs, class, true, tp)->Ok_0[b] == CaseOutView::StaticField(class, vs[b].name@, object_signature_of(class)),
        enum_out_plan(vs, class, true, tp)->Ok_0[a] != enum_out_plan(vs, class, true, tp)->Ok_0[b],
        enum_in_plan(vs, class, true, tp)->Ok_0[b] == CaseInView::SameObject(
            class,
            vs[b].name@,
            object_signature_of(class),
            vs[b].attributes.has("deny"@),
        ),
{
    lemma_enum_out_index(vs, class, true, tp, a);
    lemma_enum_out_index(vs, class, true, tp, b);
    lemma_enum_in_index(vs, class, true, tp, b);
}

/// In a sealed class hierarchy, the case of a variant without fields is the
/// `INSTANCE` static field of its nested class; a variant
/// with fields constructs an object of its nested class.
pub proof fn lemma_sealed_unit_case(vs: Seq<ParsedVariant>, class: Seq<char>, tp: TypeParameters, i: int)
    requires
        enum_out_plan(vs, class, false, tp) is Ok,
        0 <= i < vs.len(),
    ensures
        ({
            let nested = nested_class_of(class, vs[i].name@);
            let case = enum_out_plan(vs, class, false, tp)->Ok_0[i];
            if vs[i].fields.shape() == FieldType::Unit {
                case == CaseOutView::StaticField(nested, "INSTANCE"@, object_signature_of(nested))
            } else {
                case == CaseOutView::Construct(nested, slot_plan(vs[i].fields.items(), tp)->Ok_0)
            }
        }),
{
    lemma_enum_out_index(vs, class, false, tp, i);
}

/// In a sealed class hierarchy, a variant marked `deny` is recognised by its
/// nested class but has no reconstruction; every other variant is rebuilt
/// from its nested class's accessors.
pub proof fn lemma_sealed_deny_case(vs: Seq<ParsedVariant>, class: Seq<char>, tp: TypeParameters, i: int)
    requires
        enum_in_plan(vs, class, false, tp) is Ok,
        0 <= i < vs.len(),
    ensures
        ({
            let nested = nested_class_of(class, vs[i].name@);
            let case = enum_in_plan(vs, class, false, tp)->Ok_0[i];
            if vs[i].attributes.has("deny"@) {
                case == CaseInView::InstanceOf(nested, None)
            } else {
                case == CaseInView::InstanceOf(nested, Some((nested, vs[i].fields.shape(), read_plan(vs[i].fields.items(), tp)->Ok_0)))
            }
        }),
{
    lemma_enum_in_index(vs, class, false, tp, i);
}

proof fn lemma_scan_from(deny: Seq<bool>, found: Seq<bool>, b: int, i: int)
    requires
        0 <= i <= b < found.len(),
        found[b],
        forall|j: int| 0 <= j < b ==> !found[j],
    ensures
        scan_outcome(deny, found, i) == if deny[b] { ScanStep::Deny(b as usize) } else { ScanStep::Select(b as usize) },
        checks_made(found, i) == b - i + 1,
    decreases b - i,
{
    if i < b {
        lemma_scan_from(deny, found, b, i + 1);
    }
}

/// Recognising an object checks the variants in declaration order and stops
/// at the first that matches: when `b` is that variant, exactly the first
/// `b + 1` variants are checked, and the outcome is variant `b`, or a refusal
/// when `b` is marked `deny`.
pub proof fn lemma_first_match(deny: Seq<bool>, found: Seq<bool>, b: int)
    requires
        deny.len() == found.len(),
        0 <= b < found.len(),
        found[b],
        forall|j: int| 0 <= j < b ==> !found[j],
    ensures
        scan_outcome(deny, found, 0) == if deny[b] { ScanStep::Deny(b as usize) } else { ScanStep::Select(b as usize) },
        checks_made(found, 0) == b + 1,
{
    lemma_scan_from(deny, found, b, 0);
}

/// An object that matches no variant is refused after every variant is
/// checked.
pub proof fn lemma_no_match(deny: Seq<bool>, found: Seq<bool>, i: int)
    requires
        0 <= i <= found.len(),
        forall|j: int| 0 <= j < found.len() ==> !found[j],
    ensures
        scan_outcome(deny, found, i) == ScanStep::NoMatch,
        checks_made(found, i) == found.len() - i,
    decreases found.len() - i,
{
    if i < found.len() {
        lemma_no_match(deny, found, i + 1);
    }
}

/// Reading an object back and converting the value again passes the
/// constructor, for each field that is not skipped, what the object's
/// accessor for that field returned, where no field has a `map` closure:
/// on the state that the accessors show, reading then writing is the
/// identity.
pub proof fn lemma_read_then_write<V>(fields: Seq<ParsedField>, tp: TypeParameters, answers: Seq<V>, defaults: Seq<V>, mapped: spec_fn(int, V) -> V)
    requires
        slot_plan(fields, tp) is Ok,
        answers.len() == slot_plan(fields, tp)->Ok_0.len(),
        defaults.len() == fields.len(),
        forall|i: int| 0 <= i < fields.len() ==> (#[trigger] fields[i]).attributes.value(ConfigKey::Mapping) is None,
    ensures
        ({
            let slots = slot_plan(fields, tp)->Ok_0;
            let reads = read_plan(fields, tp)->Ok_0;
            passed_args(fields, slots, rebuilt(reads, slots, answers, defaults), mapped) == answers
        }),
{
    lemma_plans_agree(fields, tp);
    let slots = slot_plan(fields, tp)->Ok_0;
    let reads = read_plan(fields, tp)->Ok_0;
    let host = rebuilt(reads, slots, answers, defaults);
    let args = passed_args(fields, slots, host, mapped);
    assert forall|j: int| 0 <= j < slots.len() implies #[trigger] args[j] == answers[j] by {
        let i = slots[j].position;
        assert(i == kept(fields)[j]);
        assert(reads[i] == Some(slots[j]));
        lemma_first_slot_index(slots, slots[j], 0, j);
        let k = first_slot_index(slots, slots[j], 0);
        assert(slots[k].position == kept(fields)[k]);
        if k < j {
            assert(kept(fields)[k] < kept(fields)[j]);
        } else if k > j {
            assert(kept(fields)[j] < kept(fields)[k]);
        }
        assert(k == j);
        assert(host[i] == answers[j]);
    }
    assert(args =~= answers);
}

/// Recognising an object of a Java enum class whose first match among the
/// variants is `b`: the variants up to `b` are checked in declaration order,
/// each by identity with the static field of the class named exactly as the
/// variant; variant `b` is the outcome (a refusal where it is marked `deny`),
/// and no variant after `b` is checked.
pub proof fn lemma_enum_class_recognition(vs: Seq<ParsedVariant>, class: Seq<char>, tp: TypeParameters, deny: Seq<bool>, found: Seq<bool>, b: int)
    requires
        enum_in_plan(vs, class, true, tp) is Ok,
        deny.len() == vs.len(),
        found.len() == vs.len(),
        forall|i: int| 0 <= i < vs.len() ==> deny[i] == (#[trigger] vs[i]).attributes.has("deny"@),
        0 <= b < vs.len(),
        found[b],
        forall|j: int| 0 <= j < b ==> !found[j],
    ensures
        forall|j: int| 0 <= j <= b ==> #[trigger] enum_in_plan(vs, class, true, tp)->Ok_0[j] == CaseInView::SameObject(
            class,
            vs[j].name@,
            object_signature_of(class),
            deny[j],
        ),
        scan_outcome(deny, found, 0) == if deny[b] { ScanStep::Deny(b as usize) } else { ScanStep::Select(b as usize) },
        checks_made(found, 0) == b + 1,
{
    assert forall|j: int| 0 <= j <= b implies #[trigger] enum_in_plan(vs, class, true, tp)->Ok_0[j] == CaseInView::SameObject(
        class,
        vs[j].name@,
        object_signature_of(class),
        deny[j],
    ) by {
        lemma_enum_in_index(vs, class, true, tp, j);
    }
    lemma_first_match(deny, found, b);
}

} // verus!
