use vstd::prelude::*;
use crate::value::{
    Json, JsonEntries, lemma_obj_get_unique, obj_get, obj_has_key, obj_index_of, unique_keys, wf,
};
use crate::merge::{
    count_terms, lemma_merged_obj_get, lemma_merged_unique, lemma_missing_element, lemma_nat_sum_element,
    lemma_missing_has_key, merge_count, merged, merged_entries, missing_entries, nat_sum,
    shared_entries,
};

verus! {

broadcast use vstd::std_specs::vec::group_vec_axioms, vstd::seq::group_seq_axioms;

/// The value of a document at a path of keys: each step descends into an
/// object under the named key; `None` where a step is missing or the value
/// on the way is no object.
pub open spec fn lookup_path(v: Json, p: Seq<Seq<char>>) -> Option<Json>
    decreases p.len(),
{
    if p.len() == 0 {
        Some(v)
    } else {
        match v {
            Json::Object(es) => if obj_has_key(es, p[0]) {
                lookup_path(obj_get(es, p[0]), p.drop_first())
            } else {
                None
            },
            _ => None,
        }
    }
}

pub proof fn lemma_wf_obj(es: JsonEntries, k: Seq<char>)
    requires
        wf(Json::Object(es)),
        obj_has_key(es, k),
    ensures
        wf(obj_get(es, k)),
{
    let i = obj_index_of(es, k);
    assert(0 <= i < es.len() && es[i].0 == k);
    assert(wf(es[i].1));
}

pub proof fn lemma_nat_sum_zero(s: Seq<nat>)
    requires
        forall|i: int| 0 <= i < s.len() ==> s[i] == 0,
    ensures
        nat_sum(s) == 0,
    decreases s.len(),
{
    if s.len() > 0 {
        lemma_nat_sum_zero(s.drop_last());
    }
}

/// Superset: every key path present in the target is still present, at the
/// same nesting level, after the merge.
pub proof fn lemma_merge_superset(t: Json, x: Json, p: Seq<Seq<char>>)
    requires
        wf(t),
        wf(x),
        lookup_path(x, p) is Some,
    ensures
        lookup_path(merged(t, x), p) is Some,
    decreases p.len(),
{
    if p.len() > 0 {
        let k = p[0];
        let rest = p.drop_first();
        let xe = x->Object_0;
        if t is Object {
            let te = t->Object_0;
            lemma_merged_obj_get(te, xe, k);
            assert(merged(t, x) == Json::Object(merged_entries(te, xe)));
            if obj_has_key(te, k) {
                lemma_wf_obj(te, k);
                lemma_wf_obj(xe, k);
                lemma_merge_superset(obj_get(te, k), obj_get(xe, k), rest);
            }
        }
    }
}

/// Non-destructive: a value the target already holds at some path stays
/// exactly as it is, whenever the template lacks that path or does not hold
/// an object exactly where the target does.
pub proof fn lemma_merge_non_destructive(t: Json, x: Json, p: Seq<Seq<char>>)
    requires
        wf(t),
        wf(x),
        lookup_path(x, p) is Some,
        lookup_path(t, p) is None || !(lookup_path(t, p)->Some_0 is Object
            && lookup_path(x, p)->Some_0 is Object),
    ensures
        lookup_path(merged(t, x), p) == lookup_path(x, p),
    decreases p.len(),
{
    if p.len() == 0 {
    } else {
        let k = p[0];
        let rest = p.drop_first();
        let xe = x->Object_0;
        if t is Object {
            let te = t->Object_0;
            lemma_merged_obj_get(te, xe, k);
            assert(merged(t, x) == Json::Object(merged_entries(te, xe)));
            if obj_has_key(te, k) {
                lemma_wf_obj(te, k);
                lemma_wf_obj(xe, k);
                lemma_merge_non_destructive(obj_get(te, k), obj_get(xe, k), rest);
            }
        }
    }
}

/// Additive completeness: a path the template holds and the target lacks
/// exists after the merge, with the template's value, provided the target
/// holds objects along the path as far as it reaches.
pub proof fn lemma_merge_additive(t: Json, x: Json, p: Seq<Seq<char>>)
    requires
        wf(t),
        wf(x),
        lookup_path(t, p) is Some,
        lookup_path(x, p) is None,
        forall|n: int| 0 <= n < p.len() ==> ((#[trigger] lookup_path(x, p.take(n))) is Some
            ==> lookup_path(x, p.take(n))->Some_0 is Object),
    ensures
        lookup_path(merged(t, x), p) == lookup_path(t, p),
    decreases p.len(),
{
    if p.len() == 0 {
        assert(false);
    } else {
        let k = p[0];
        let rest = p.drop_first();
        assert(p.take(0) =~= Seq::<Seq<char>>::empty());
        assert(lookup_path(x, p.take(0)) == Some(x));
        assert(x is Object);
        let xe = x->Object_0;
        let te = t->Object_0;
        lemma_merged_obj_get(te, xe, k);
        assert(merged(t, x) == Json::Object(merged_entries(te, xe)));
        assert(obj_has_key(te, k));
        if obj_has_key(xe, k) {
            lemma_wf_obj(te, k);
            lemma_wf_obj(xe, k);
            let xk = obj_get(xe, k);
            assert forall|n: int| 0 <= n < rest.len()
                && (#[trigger] lookup_path(xk, rest.take(n))) is Some
                implies lookup_path(xk, rest.take(n))->Some_0 is Object by {
                assert(p.take(n + 1).drop_first() =~= rest.take(n));
                assert(p.take(n + 1)[0] == k);
                assert(lookup_path(x, p.take(n + 1)) == lookup_path(xk, rest.take(n)));
            }
            lemma_merge_additive(obj_get(te, k), xk, rest);
        } else {
            assert(obj_get(merged_entries(te, xe), k) == obj_get(te, k));
        }
    }
}

/// A well-formed document merged into itself stays itself, with nothing
/// inserted.
pub proof fn lemma_merged_self(v: Json)
    requires
        wf(v),
    ensures
        merged(v, v) == v,
        merge_count(v, v) == 0,
    decreases v,
{
    if v is Object {
        let es = v->Object_0;
        assert(missing_entries(es, es) =~= Seq::<(Seq<char>, Json)>::empty()) by {
            if missing_entries(es, es).len() > 0 {
                lemma_missing_element(es, es, 0);
                let a = choose|a: int| 0 <= a < es.len()
                    && es[a] == missing_entries(es, es)[0];
                assert(es[a].0 == missing_entries(es, es)[0].0);
                assert(obj_has_key(es, missing_entries(es, es)[0].0));
            }
        }
        assert forall|i: int| 0 <= i < es.len()
            implies shared_entries(es, es)[i] == es[i] by {
            lemma_obj_get_unique(es, i);
            assert(wf(es[i].1));
            lemma_merged_self(es[i].1);
        }
        assert(shared_entries(es, es) + missing_entries(es, es) =~= es);
        assert(merged(v, v) == Json::Object(es));
        assert forall|i: int| 0 <= i < es.len()
            implies count_terms(es, es)[i] == 0nat by {
            lemma_obj_get_unique(es, i);
            assert(wf(es[i].1));
            lemma_merged_self(es[i].1);
        }
        lemma_nat_sum_zero(count_terms(es, es));
    }
}

/// Idempotence: merging a template into an already-merged target changes
/// nothing and inserts zero further keys.
pub proof fn lemma_merge_idempotent(t: Json, x: Json)
    requires
        wf(t),
        wf(x),
    ensures
        merged(t, merged(t, x)) == merged(t, x),
        merge_count(t, merged(t, x)) == 0,
    decreases t,
{
    if t is Object && x is Object {
        let te = t->Object_0;
        let xe = x->Object_0;
        let me = merged_entries(te, xe);
        let m = merged(t, x);
        assert(m == Json::Object(me));
        lemma_merged_unique(te, xe);
        let mi = missing_entries(te, xe);
        // every entry of the merged object absorbs a second merge
        assert forall|i: int| 0 <= i < me.len()
            implies shared_entries(te, me)[i] == me[i] by {
            let ki = me[i].0;
            if i < xe.len() {
                assert(me[i] == shared_entries(te, xe)[i]);
                assert(ki == xe[i].0);
                if obj_has_key(te, ki) {
                    lemma_wf_obj(te, ki);
                    assert(wf(xe[i].1));
                    assert(me[i].1 == merged(obj_get(te, ki), xe[i].1));
                    lemma_merge_idempotent(obj_get(te, ki), xe[i].1);
                }
            } else {
                assert(me[i] == mi[i - xe.len()]);
                lemma_missing_element(te, xe, i - xe.len());
                let a = choose|a: int| 0 <= a < te.len() && te[a] == mi[i - xe.len()];
                lemma_obj_get_unique(te, a);
                assert(obj_has_key(te, ki));
                assert(obj_get(te, ki) == me[i].1);
                assert(wf(te[a].1));
                lemma_merged_self(me[i].1);
            }
        }
        // no template key is missing from the merged object
        assert(missing_entries(te, me) =~= Seq::<(Seq<char>, Json)>::empty()) by {
            if missing_entries(te, me).len() > 0 {
                lemma_missing_element(te, me, 0);
                let e0 = missing_entries(te, me)[0];
                let a = choose|a: int| 0 <= a < te.len() && te[a] == e0;
                assert(obj_has_key(te, e0.0));
                lemma_merged_obj_get(te, xe, e0.0);
                assert(obj_has_key(me, e0.0));
            }
        }
        assert(shared_entries(te, me) + missing_entries(te, me) =~= me);
        assert(merged(t, m) == Json::Object(me));
        // and the second merge counts nothing
        assert forall|i: int| 0 <= i < te.len()
            implies count_terms(te, me)[i] == 0nat by {
            let ki = te[i].0;
            lemma_obj_get_unique(te, i);
            lemma_merged_obj_get(te, xe, ki);
            assert(obj_has_key(me, ki));
            if obj_has_key(xe, ki) {
                lemma_wf_obj(te, ki);
                lemma_wf_obj(xe, ki);
                assert(obj_get(me, ki) == merged(obj_get(te, ki), obj_get(xe, ki)));
                lemma_merge_idempotent(te[i].1, obj_get(xe, ki));
            } else {
                assert(obj_get(me, ki) == obj_get(te, ki));
                assert(wf(te[i].1));
                lemma_merged_self(te[i].1);
            }
        }
        lemma_nat_sum_zero(count_terms(te, me));
    }
}

/// A zero insertion count means the merge returned the target unchanged,
/// and the other way round: what the changed counter of a run summary
/// relies on.
pub proof fn lemma_count_zero_means_unchanged(t: Json, x: Json)
    requires
        wf(t),
        wf(x),
    ensures
        (merge_count(t, x) == 0) == (merged(t, x) == x),
    decreases t,
{
    if t is Object && x is Object {
        let te = t->Object_0;
        let xe = x->Object_0;
        let se = shared_entries(te, xe);
        let mi = missing_entries(te, xe);
        let ct = count_terms(te, xe);
        if merge_count(t, x) == 0 {
            assert forall|i: int| 0 <= i < te.len() implies ct[i] == 0nat by {
                lemma_nat_sum_element(ct, i);
            }
            assert(mi =~= Seq::<(Seq<char>, Json)>::empty()) by {
                if mi.len() > 0 {
                    lemma_missing_element(te, xe, 0);
                    let a = choose|a: int| 0 <= a < te.len() && te[a] == mi[0];
                    assert(!obj_has_key(xe, te[a].0));
                    assert(ct[a] == 1nat);
                }
            }
            assert forall|i: int| 0 <= i < xe.len() implies se[i] == xe[i] by {
                let k = xe[i].0;
                if obj_has_key(te, k) {
                    let a = obj_index_of(te, k);
                    assert(0 <= a < te.len() && te[a].0 == k);
                    lemma_obj_get_unique(te, a);
                    lemma_obj_get_unique(xe, i);
                    assert(ct[a] == merge_count(te[a].1, xe[i].1));
                    lemma_wf_obj(te, k);
                    assert(wf(xe[i].1));
                    lemma_count_zero_means_unchanged(te[a].1, xe[i].1);
                    assert(se[i].1 == merged(te[a].1, xe[i].1));
                }
            }
            assert(se + mi =~= xe);
            assert(merged(t, x) == x);
        }
        if merged(t, x) == x {
            assert(se + mi == xe);
            assert(mi.len() == 0);
            assert forall|i: int| 0 <= i < te.len() implies ct[i] == 0nat by {
                let k = te[i].0;
                lemma_obj_get_unique(te, i);
                lemma_missing_has_key(te, xe, k);
                assert(obj_has_key(xe, k));
                let j = obj_index_of(xe, k);
                assert(0 <= j < xe.len() && xe[j].0 == k);
                assert(se[j] == (se + mi)[j]);
                assert(se[j] == xe[j]);
                assert(se[j].1 == merged(obj_get(te, k), xe[j].1));
                lemma_wf_obj(te, k);
                assert(wf(xe[j].1));
                lemma_count_zero_means_unchanged(te[i].1, xe[j].1);
                assert(ct[i] == merge_count(te[i].1, obj_get(xe, k)));
            }
            lemma_nat_sum_zero(ct);
        }
    }
}


} // verus!
