use vstd::prelude::*;
use vstd::string::StringExecFns;
use crate::value::Number;
use crate::value::Value;
use crate::value::ValueV;
use crate::value::elements_view;
use crate::value::entries_view;
use crate::value::lemma_elements_view;
use crate::value::lemma_entries_view;
use crate::tree::DisplayTree;
use crate::tree::TreeV;
use crate::tree::items_view;
use crate::tree::fields_view;
use crate::tree::lemma_items_view;
use crate::tree::lemma_fields_view;
use crate::text::key_text;
use crate::text::key_string;

verus! {

broadcast use vstd::std_specs::vec::axiom_vec_decreases_to_view;

/// The standard, padded base64 text of a byte string. It depends on the
/// bytes alone.
pub uninterp spec fn base64_of(bytes: Seq<u8>) -> Seq<char>;

/// Relies on `base64::encode`: the standard-alphabet, padded base64 text of
/// the bytes, four characters for every three bytes begun.
#[verifier::external_body]
fn base64_string(bytes: &Vec<u8>) -> (r: String)
    ensures
        r@ == base64_of(bytes@),
        r@.len() == 4 * ((bytes@.len() + 2) / 3),
{
    base64::encode(bytes)
}

/// The number that a signed integer becomes: its magnitude and sign,
/// with exponent 0.
pub open spec fn signed_number(n: i64) -> Number {
    Number {
        positive: n >= 0,
        mantissa: (if n >= 0 { n as int } else { -(n as int) }) as u64,
        exponent: 0 as i16,
    }
}

/// The number that an unsigned integer becomes.
pub open spec fn unsigned_number(z: u64) -> Number {
    Number { positive: true, mantissa: z, exponent: 0 as i16 }
}

pub open spec fn object_has_key(es: Seq<(Seq<char>, TreeV)>, key: Seq<char>) -> bool {
    exists|i: int| 0 <= i < es.len() && (#[trigger] es[i]).0 == key
}

pub open spec fn object_key_index(es: Seq<(Seq<char>, TreeV)>, key: Seq<char>) -> int {
    choose|i: int| 0 <= i < es.len() && (#[trigger] es[i]).0 == key
}

/// Entry insertion with the last-write-wins rule: a key already present
/// keeps its position and has its value overwritten; a new key is appended.
pub open spec fn object_insert(
    es: Seq<(Seq<char>, TreeV)>,
    key: Seq<char>,
    val: TreeV,
) -> Seq<(Seq<char>, TreeV)> {
    if object_has_key(es, key) {
        es.update(object_key_index(es, key), (key, val))
    } else {
        es.push((key, val))
    }
}

/// Object keys are pairwise distinct.
pub open spec fn distinct_keys(es: Seq<(Seq<char>, TreeV)>) -> bool {
    forall|i: int, j: int| 0 <= i < j < es.len()
        ==> (#[trigger] es[i]).0 != (#[trigger] es[j]).0
}

/// The display tree of a CBOR item: booleans, strings and null map to their
/// counterparts, all numeric variants become numbers, undefined collapses
/// onto null, byte strings become their base64 text, tags are dropped,
/// arrays convert element by element, and maps become objects whose keys
/// are the stringified converted keys, later entries overwriting earlier
/// ones that stringify alike.
pub open spec fn spec_to_tree(v: ValueV) -> TreeV
    decreases v,
{
    match v {
        ValueV::Bool(b) => TreeV::Boolean(b),
        ValueV::Signed(n) => TreeV::Number(signed_number(n)),
        ValueV::Unsigned(z) => TreeV::Number(unsigned_number(z)),
        ValueV::Float(x) => TreeV::Number(x),
        ValueV::Null => TreeV::Null,
        ValueV::Undefined => TreeV::Null,
        ValueV::Unicode(s) => TreeV::String(s),
        ValueV::Bytes(b) => TreeV::String(base64_of(b)),
        ValueV::Array(xs) => TreeV::Array(convert_items(xs)),
        ValueV::Mapping(kv) => TreeV::Object(convert_entries(kv)),
        ValueV::Tag(_, inner) => spec_to_tree(*inner),
    }
}

pub open spec fn convert_items(xs: Seq<ValueV>) -> Seq<TreeV>
    decreases xs,
{
    if xs.len() == 0 {
        Seq::empty()
    } else {
        convert_items(xs.drop_last()).push(spec_to_tree(xs.last()))
    }
}

pub open spec fn convert_entries(kv: Seq<(ValueV, ValueV)>) -> Seq<(Seq<char>, TreeV)>
    decreases kv,
{
    if kv.len() == 0 {
        Seq::empty()
    } else {
        object_insert(
            convert_entries(kv.drop_last()),
            key_text(spec_to_tree(kv.last().0)),
            spec_to_tree(kv.last().1),
        )
    }
}

pub proof fn lemma_convert_items(xs: Seq<ValueV>)
    ensures
        convert_items(xs).len() == xs.len(),
        forall|i: int| 0 <= i < xs.len() ==> convert_items(xs)[i]
            == spec_to_tree(#[trigger] xs[i]),
    decreases xs.len(),
{
    if xs.len() > 0 {
        lemma_convert_items(xs.drop_last());
        assert forall|i: int| 0 <= i < xs.len() implies convert_items(xs)[i]
            == spec_to_tree(xs[i]) by {
            if i < xs.len() - 1 {
                assert(xs.drop_last()[i] == xs[i]);
            } else {
                assert(xs.last() == xs[i]);
            }
        }
    }
}

proof fn lemma_convert_entries_step(s: Seq<(ValueV, ValueV)>, i: int)
    requires
        0 <= i < s.len(),
    ensures
        convert_entries(s.take(i + 1)) == object_insert(
            convert_entries(s.take(i)),
            key_text(spec_to_tree(s[i].0)),
            spec_to_tree(s[i].1),
        ),
{
    assert(s.take(i + 1).drop_last() =~= s.take(i));
    assert(s.take(i + 1).last() == s[i]);
}

pub proof fn lemma_object_insert_distinct(es: Seq<(Seq<char>, TreeV)>, key: Seq<char>, val: TreeV)
    requires
        distinct_keys(es),
    ensures
        distinct_keys(object_insert(es, key, val)),
{
    if object_has_key(es, key) {
        let k = object_key_index(es, key);
        assert(0 <= k < es.len() && es[k].0 == key);
        let es2 = es.update(k, (key, val));
        assert forall|i: int, j: int| 0 <= i < j < es2.len() implies es2[i].0 != es2[j].0 by {
            assert(es[i].0 != es[j].0);
            assert(es2[i].0 == if i == k { key } else { es[i].0 });
            assert(es2[j].0 == if j == k { key } else { es[j].0 });
        }
    } else {
        let es2 = es.push((key, val));
        assert forall|i: int, j: int| 0 <= i < j < es2.len() implies es2[i].0 != es2[j].0 by {
            if j < es.len() {
                assert(es[i].0 != es[j].0);
            } else {
                assert(es2[j].0 == key);
                assert(es2[i].0 == es[i].0);
                assert(!(es[i].0 == key));
            }
        }
    }
}

/// Conversion establishes the object invariant: the keys of a converted
/// map are pairwise distinct, whatever the map's entries were.
pub proof fn lemma_convert_entries_distinct(kv: Seq<(ValueV, ValueV)>)
    ensures
        distinct_keys(convert_entries(kv)),
    decreases kv.len(),
{
    if kv.len() > 0 {
        lemma_convert_entries_distinct(kv.drop_last());
        lemma_object_insert_distinct(
            convert_entries(kv.drop_last()),
            key_text(spec_to_tree(kv.last().0)),
            spec_to_tree(kv.last().1),
        );
    }
}

proof fn lemma_object_insert_at(es: Seq<(Seq<char>, TreeV)>, key: Seq<char>, val: TreeV, j: int)
    requires
        distinct_keys(es),
        0 <= j < es.len(),
        es[j].0 == key,
    ensures
        object_insert(es, key, val) == es.update(j, (key, val)),
{
    assert(object_has_key(es, key));
    let k = object_key_index(es, key);
    assert(0 <= k < es.len() && es[k].0 == key);
    if k != j {
        if k < j {
            assert(es[k].0 != es[j].0);
        } else {
            assert(es[j].0 != es[k].0);
        }
    }
    assert(k == j);
}

/// Replaces the value of an existing key in place, or appends a new entry.
fn object_insert_exec(es: &mut Vec<(String, DisplayTree)>, key: String, val: DisplayTree)
    requires
        distinct_keys(fields_view(old(es)@)),
    ensures
        fields_view(final(es)@) == object_insert(fields_view(old(es)@), key@, val@),
        distinct_keys(fields_view(final(es)@)),
{
    proof {
        lemma_fields_view(es@);
        lemma_object_insert_distinct(fields_view(es@), key@, val@);
    }
    let ghost fv = fields_view(es@);
    let mut j: usize = 0;
    while j < es.len()
        invariant
            fv == fields_view(old(es)@),
            es@ == old(es)@,
            fv.len() == es@.len(),
            forall|i: int| 0 <= i < es@.len() ==> fv[i] == (
                (#[trigger] es@[i]).0@,
                crate::tree::tree_view(es@[i].1),
            ),
            distinct_keys(fv),
            j <= es@.len(),
            forall|i: int| 0 <= i < j ==> (#[trigger] fv[i]).0 != key@,
        decreases es@.len() - j,
    {
        if es[j].0 == key {
            proof {
                lemma_object_insert_at(fv, key@, val@, j as int);
            }
            let ghost target = fv.update(j as int, (key@, val@));
            es.set(j, (key, val));
            proof {
                lemma_fields_view(es@);
                assert forall|i: int| 0 <= i < es@.len() implies fields_view(es@)[i]
                    == target[i] by {
                    if i == j {
                        assert(es@[i] == (key, val));
                    } else {
                        assert(es@[i] == old(es)@[i]);
                    }
                }
                assert(fields_view(es@) =~= target);
            }
            return;
        }
        j += 1;
    }
    assert(!object_has_key(fv, key@));
    let ghost target = fv.push((key@, val@));
    es.push((key, val));
    proof {
        lemma_fields_view(es@);
        assert forall|i: int| 0 <= i < es@.len() implies fields_view(es@)[i] == target[i] by {
            if i == es@.len() - 1 {
                assert(es@[i] == (key, val));
            } else {
                assert(es@[i] == old(es)@[i]);
            }
        }
        assert(fields_view(es@) =~= target);
    }
}

/// Converts one decoded CBOR item into its display tree. Total: every value
/// of the model converts, nothing is rejected.
#[verifier::loop_isolation(false)]
pub fn to_display_tree(v: &Value) -> (t: DisplayTree)
    ensures
        t@ == spec_to_tree(v@),
    decreases v,
{
    match v {
        Value::Bool(b) => DisplayTree::Boolean(*b),
        Value::Signed(n) => {
            let m: u64 = if *n >= 0 {
                *n as u64
            } else {
                (((-1) - *n) as u64) + 1
            };
            DisplayTree::Number(Number { positive: *n >= 0, mantissa: m, exponent: 0 })
        },
        Value::Unsigned(z) => DisplayTree::Number(
            Number { positive: true, mantissa: *z, exponent: 0 },
        ),
        Value::Float(x) => DisplayTree::Number(*x),
        Value::Null => DisplayTree::Null,
        Value::Undefined => DisplayTree::Null,
        Value::Unicode(s) => DisplayTree::String(String::from_str(s.as_str())),
        Value::Bytes(b) => DisplayTree::String(base64_string(b)),
        Value::Array(xs) => {
            let ghost ev = elements_view(xs@);
            proof {
                lemma_elements_view(xs@);
                lemma_convert_items(ev);
            }
            let mut out: Vec<DisplayTree> = Vec::new();
            let mut i: usize = 0;
            while i < xs.len()
                invariant
                    i <= xs@.len(),
                    out@.len() == i,
                    forall|k: int| 0 <= k < i ==> crate::tree::tree_view(#[trigger] out@[k])
                        == spec_to_tree(ev[k]),
                decreases xs@.len() - i,
            {
                proof {
                    assert(decreases_to!(*v => *xs));
                    assert(decreases_to!(xs@ => xs@[i as int]));
                }
                let t = to_display_tree(&xs[i]);
                out.push(t);
                i += 1;
            }
            proof {
                lemma_items_view(out@);
                assert forall|k: int| 0 <= k < out@.len() implies items_view(out@)[k]
                    == convert_items(ev)[k] by {
                    assert(crate::tree::tree_view(out@[k]) == spec_to_tree(ev[k]));
                }
                assert(items_view(out@) =~= convert_items(ev));
            }
            DisplayTree::Array(out)
        },
        Value::Mapping(kv) => {
            let ghost ev = entries_view(kv@);
            proof {
                lemma_entries_view(kv@);
            }
            let mut out: Vec<(String, DisplayTree)> = Vec::new();
            let mut i: usize = 0;
            while i < kv.len()
                invariant
                    i <= kv@.len(),
                    distinct_keys(fields_view(out@)),
                    fields_view(out@) == convert_entries(ev.take(i as int)),
                decreases kv@.len() - i,
            {
                proof {
                    assert(decreases_to!(*v => *kv));
                    assert(decreases_to!(kv@ => kv@[i as int]));
                    assert(decreases_to!(kv@[i as int] => kv@[i as int].0));
                    assert(decreases_to!(kv@[i as int] => kv@[i as int].1));
                }
                let kt = to_display_tree(&kv[i].0);
                let ks = key_string(&kt);
                let vt = to_display_tree(&kv[i].1);
                proof {
                    lemma_convert_entries_step(ev, i as int);
                }
                object_insert_exec(&mut out, ks, vt);
                i += 1;
            }
            proof {
                assert(ev.take(kv@.len() as int) =~= ev);
            }
            DisplayTree::Object(out)
        },
        Value::Tag(_, inner) => {
            proof {
                assert(decreases_to!(*v => *inner));
            }
            to_display_tree(inner)
        },
    }
}

/// Tag transparency: converting a tagged value gives exactly the conversion
/// of the wrapped value; the tag number never shows in the result.
pub proof fn lemma_tag_transparent(n: u64, v: ValueV)
    ensures
        spec_to_tree(ValueV::Tag(n, Box::new(v))) == spec_to_tree(v),
{
}

/// Conversion is a pure function: two values with the same model convert to
/// the same display tree, so converting twice gives equal results.
pub proof fn lemma_conversion_deterministic(a: Value, b: Value)
    requires
        a@ == b@,
    ensures
        spec_to_tree(a@) == spec_to_tree(b@),
{
}

} // verus!
