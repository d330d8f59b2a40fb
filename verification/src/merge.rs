use vstd::prelude::*;
use crate::value::{
    Json, JsonEntries, JsonValue, entries_view, find_key, clone_tree,
    lemma_obj_get_unique, obj_get, obj_has_key, obj_index_of, unique_keys, wf,
};

verus! {

broadcast use vstd::std_specs::vec::group_vec_axioms, vstd::seq::group_seq_axioms;

/// The entries of the template object that the target object lacks, in
/// template order.
pub open spec fn missing_entries(te: JsonEntries, xe: JsonEntries) -> JsonEntries
    decreases te.len(),
{
    if te.len() == 0 {
        Seq::empty()
    } else if obj_has_key(xe, te[0].0) {
        missing_entries(te.drop_first(), xe)
    } else {
        seq![te[0]] + missing_entries(te.drop_first(), xe)
    }
}

/// The shared-key pass of the merge: the target's entries in their order,
/// each value merged with the template's value under the same key, if any.
pub open spec fn shared_entries(te: JsonEntries, xe: JsonEntries) -> JsonEntries
    decreases te,
{
    Seq::new(xe.len(), |i: int| (xe[i].0,
        if obj_has_key(te, xe[i].0) {
            merged(obj_get(te, xe[i].0), xe[i].1)
        } else {
            xe[i].1
        }))
}

/// The entry list of the merge of two objects: the shared-key pass followed
/// by the template's missing entries.
pub open spec fn merged_entries(te: JsonEntries, xe: JsonEntries) -> JsonEntries {
    shared_entries(te, xe) + missing_entries(te, xe)
}

/// The deep merge of a template into a target: where both hold objects, the
/// merge recurses on shared keys and appends the template's missing entries;
/// everywhere else the target value stays as it is.
pub open spec fn merged(t: Json, x: Json) -> Json
    decreases t,
{
    match t {
        Json::Object(te) => match x {
            Json::Object(xe) => Json::Object(shared_entries(te, xe) + missing_entries(te, xe)),
            _ => x,
        },
        _ => x,
    }
}

/// The sum of a sequence of counts.
pub open spec fn nat_sum(s: Seq<nat>) -> nat
    decreases s.len(),
{
    if s.len() == 0 {
        0
    } else {
        nat_sum(s.drop_last()) + s.last()
    }
}

/// One summand of the insertion count per template entry: a recursive count
/// for a shared key, one for a missing key.
pub open spec fn count_terms(te: JsonEntries, xe: JsonEntries) -> Seq<nat>
    decreases te,
{
    Seq::new(te.len(), |i: int|
        if 0 <= i < te.len() {
            if obj_has_key(xe, te[i].0) {
                merge_count(te[i].1, obj_get(xe, te[i].0))
            } else {
                1nat
            }
        } else {
            0nat
        })
}

/// How many keys the merge inserts into the target: one per template entry
/// whose key the target lacks, at every recursion level, counting a freshly
/// inserted subtree as one at its insertion point.
pub open spec fn merge_count(t: Json, x: Json) -> nat
    decreases t,
{
    match t {
        Json::Object(te) => match x {
            Json::Object(xe) => nat_sum(count_terms(te, xe)),
            _ => 0,
        },
        _ => 0,
    }
}

/// One summand of the key weight per template entry.
pub open spec fn weight_terms(te: JsonEntries) -> Seq<nat>
    decreases te,
{
    Seq::new(te.len(), |i: int|
        if 0 <= i < te.len() {
            key_weight(te[i].1)
        } else {
            0nat
        })
}

/// The total number of object entries in a document, at every depth that a
/// merge can reach: an upper bound for every insertion count.
pub open spec fn key_weight(t: Json) -> nat
    decreases t,
{
    match t {
        Json::Object(te) => te.len() + nat_sum(weight_terms(te)),
        _ => 0,
    }
}

pub proof fn lemma_nat_sum_push(s: Seq<nat>, v: nat)
    ensures
        nat_sum(s.push(v)) == nat_sum(s) + v,
{
    assert(s.push(v).drop_last() =~= s);
    assert(s.push(v).last() == v);
}

pub proof fn lemma_nat_sum_take_succ(s: Seq<nat>, j: int)
    requires
        0 <= j < s.len(),
    ensures
        nat_sum(s.take(j + 1)) == nat_sum(s.take(j)) + s[j],
{
    assert(s.take(j + 1) =~= s.take(j).push(s[j]));
    lemma_nat_sum_push(s.take(j), s[j]);
}

pub proof fn lemma_nat_sum_take_le(s: Seq<nat>, j: int)
    requires
        0 <= j <= s.len(),
    ensures
        nat_sum(s.take(j)) <= nat_sum(s),
    decreases s.len() - j,
{
    if j == s.len() {
        assert(s.take(j) =~= s);
    } else {
        lemma_nat_sum_take_succ(s, j);
        lemma_nat_sum_take_le(s, j + 1);
    }
}

pub proof fn lemma_nat_sum_element(s: Seq<nat>, i: int)
    requires
        0 <= i < s.len(),
    ensures
        s[i] <= nat_sum(s),
    decreases s.len(),
{
    if i < s.len() - 1 {
        lemma_nat_sum_element(s.drop_last(), i);
    }
}

pub proof fn lemma_nat_sum_le(a: Seq<nat>, b: Seq<nat>)
    requires
        a.len() == b.len(),
        forall|i: int| 0 <= i < a.len() ==> a[i] <= b[i],
    ensures
        nat_sum(a) <= nat_sum(b),
    decreases a.len(),
{
    if a.len() > 0 {
        lemma_nat_sum_le(a.drop_last(), b.drop_last());
    }
}

pub proof fn lemma_has_key_concat(a: JsonEntries, b: JsonEntries, k: Seq<char>)
    ensures
        obj_has_key(a + b, k) == (obj_has_key(a, k) || obj_has_key(b, k)),
{
    if obj_has_key(a, k) {
        let i = choose|i: int| 0 <= i < a.len() && a[i].0 == k;
        assert((a + b)[i].0 == k);
        assert(obj_has_key(a + b, k));
    }
    if obj_has_key(b, k) {
        let i = choose|i: int| 0 <= i < b.len() && b[i].0 == k;
        assert((a + b)[a.len() + i].0 == k);
        assert(obj_has_key(a + b, k));
    }
    if obj_has_key(a + b, k) {
        let i = choose|i: int| 0 <= i < (a + b).len() && (a + b)[i].0 == k;
        if i < a.len() {
            assert(a[i].0 == k);
            assert(obj_has_key(a, k));
        } else {
            assert(b[i - a.len()].0 == k);
            assert(obj_has_key(b, k));
        }
    }
}

pub proof fn lemma_has_key_drop_first(s: JsonEntries, k: Seq<char>)
    requires
        s.len() > 0,
    ensures
        obj_has_key(s, k) == (s[0].0 == k || obj_has_key(s.drop_first(), k)),
{
    if obj_has_key(s, k) {
        let i = choose|i: int| 0 <= i < s.len() && s[i].0 == k;
        if i > 0 {
            assert(s.drop_first()[i - 1].0 == k);
            assert(obj_has_key(s.drop_first(), k));
        }
    }
    if obj_has_key(s.drop_first(), k) {
        let i = choose|i: int| 0 <= i < s.drop_first().len() && s.drop_first()[i].0 == k;
        assert(s[i + 1].0 == k);
        assert(obj_has_key(s, k));
    }
    if s[0].0 == k {
        assert(obj_has_key(s, k));
    }
}

pub proof fn lemma_missing_has_key(te: JsonEntries, xe: JsonEntries, k: Seq<char>)
    ensures
        obj_has_key(missing_entries(te, xe), k) == (obj_has_key(te, k) && !obj_has_key(xe, k)),
    decreases te.len(),
{
    if te.len() == 0 {
        assert(!obj_has_key(missing_entries(te, xe), k));
        assert(!obj_has_key(te, k));
    } else {
        let rest = te.drop_first();
        lemma_missing_has_key(rest, xe, k);
        lemma_has_key_drop_first(te, k);
        if obj_has_key(xe, te[0].0) {
            if te[0].0 == k {
                assert(obj_has_key(xe, k));
            }
        } else {
            lemma_has_key_concat(seq![te[0]], missing_entries(rest, xe), k);
            if te[0].0 == k {
                assert((seq![te[0]])[0].0 == k);
                assert(obj_has_key(seq![te[0]], k));
                assert(obj_has_key(te, k));
            } else {
                if obj_has_key(seq![te[0]], k) {
                    let i = choose|i: int| 0 <= i < 1 && (seq![te[0]])[i].0 == k;
                    assert((seq![te[0]])[i].0 == te[0].0);
                }
            }
        }
    }
}

pub proof fn lemma_missing_element(te: JsonEntries, xe: JsonEntries, j: int)
    requires
        0 <= j < missing_entries(te, xe).len(),
    ensures
        exists|i: int| 0 <= i < te.len() && te[i] == missing_entries(te, xe)[j],
        !obj_has_key(xe, missing_entries(te, xe)[j].0),
    decreases te.len(),
{
    let m = missing_entries(te, xe);
    let rest = te.drop_first();
    if obj_has_key(xe, te[0].0) {
        lemma_missing_element(rest, xe, j);
        let i = choose|i: int| 0 <= i < rest.len() && rest[i] == missing_entries(rest, xe)[j];
        assert(te[i + 1] == m[j]);
    } else {
        if j == 0 {
            assert(m[0] == te[0]);
            assert(te[0] == m[j]);
        } else {
            lemma_missing_element(rest, xe, j - 1);
            let i = choose|i: int| 0 <= i < rest.len() && rest[i] == missing_entries(rest, xe)[j - 1];
            assert(m[j] == missing_entries(rest, xe)[j - 1]);
            assert(te[i + 1] == m[j]);
        }
    }
}

pub proof fn lemma_unique_drop_first(s: JsonEntries)
    requires
        s.len() > 0,
        unique_keys(s),
    ensures
        unique_keys(s.drop_first()),
{
    assert forall|i: int, j: int| 0 <= i < j < s.drop_first().len()
        implies s.drop_first()[i].0 != s.drop_first()[j].0 by {
        assert(s[i + 1].0 != s[j + 1].0);
    }
}

pub proof fn lemma_missing_unique(te: JsonEntries, xe: JsonEntries)
    requires
        unique_keys(te),
    ensures
        unique_keys(missing_entries(te, xe)),
    decreases te.len(),
{
    if te.len() > 0 {
        let rest = te.drop_first();
        lemma_unique_drop_first(te);
        lemma_missing_unique(rest, xe);
        if !obj_has_key(xe, te[0].0) {
            let m = missing_entries(te, xe);
            let mr = missing_entries(rest, xe);
            assert forall|i: int, j: int| 0 <= i < j < m.len() implies m[i].0 != m[j].0 by {
                if i == 0 {
                    lemma_missing_element(rest, xe, j - 1);
                    let a = choose|a: int| 0 <= a < rest.len() && rest[a] == mr[j - 1];
                    assert(te[a + 1] == mr[j - 1]);
                    assert(te[0].0 != te[a + 1].0);
                    assert(m[j] == mr[j - 1]);
                } else {
                    assert(m[i] == mr[i - 1] && m[j] == mr[j - 1]);
                }
            }
        }
    }
}

pub proof fn lemma_missing_get(te: JsonEntries, xe: JsonEntries, k: Seq<char>)
    requires
        unique_keys(te),
        obj_has_key(missing_entries(te, xe), k),
    ensures
        obj_get(missing_entries(te, xe), k) == obj_get(te, k),
{
    let m = missing_entries(te, xe);
    let idx = obj_index_of(m, k);
    assert(0 <= idx < m.len() && m[idx].0 == k);
    lemma_missing_element(te, xe, idx);
    let i = choose|i: int| 0 <= i < te.len() && te[i] == m[idx];
    lemma_obj_get_unique(te, i);
}

pub proof fn lemma_unique_take(s: JsonEntries, j: int)
    requires
        unique_keys(s),
        0 <= j <= s.len(),
    ensures
        unique_keys(s.take(j)),
{
    assert forall|a: int, b: int| 0 <= a < b < s.take(j).len()
        implies s.take(j)[a].0 != s.take(j)[b].0 by {
        assert(s[a].0 != s[b].0);
    }
}

pub proof fn lemma_has_key_snoc(s: JsonEntries, e: (Seq<char>, Json), k: Seq<char>)
    ensures
        obj_has_key(s.push(e), k) == (obj_has_key(s, k) || e.0 == k),
{
    if obj_has_key(s, k) {
        let i = choose|i: int| 0 <= i < s.len() && s[i].0 == k;
        assert(s.push(e)[i].0 == k);
        assert(obj_has_key(s.push(e), k));
    }
    if e.0 == k {
        assert(s.push(e)[s.len() as int].0 == k);
        assert(obj_has_key(s.push(e), k));
    }
    if obj_has_key(s.push(e), k) {
        let i = choose|i: int| 0 <= i < s.push(e).len() && s.push(e)[i].0 == k;
        if i < s.len() {
            assert(s[i].0 == k);
            assert(obj_has_key(s, k));
        }
    }
}

pub proof fn lemma_obj_get_snoc(s: JsonEntries, e: (Seq<char>, Json), k: Seq<char>)
    requires
        unique_keys(s.push(e)),
        obj_has_key(s, k),
    ensures
        obj_get(s.push(e), k) == obj_get(s, k),
        obj_has_key(s.push(e), k),
{
    let i = obj_index_of(s, k);
    assert(0 <= i < s.len() && s[i].0 == k);
    assert(s.push(e)[i] == s[i]);
    assert forall|a: int, b: int| 0 <= a < b < s.len() implies s[a].0 != s[b].0 by {
        assert(s.push(e)[a] == s[a] && s.push(e)[b] == s[b]);
    }
    lemma_obj_get_unique(s.push(e), i);
    lemma_obj_get_unique(s, i);
}

pub proof fn lemma_missing_snoc(te: JsonEntries, e: (Seq<char>, Json), xe: JsonEntries)
    ensures
        obj_has_key(xe, e.0) ==> missing_entries(te.push(e), xe) == missing_entries(te, xe),
        !obj_has_key(xe, e.0) ==> missing_entries(te.push(e), xe)
            == missing_entries(te, xe) + seq![e],
    decreases te.len(),
{
    let p = te.push(e);
    if te.len() == 0 {
        assert(p[0] == e);
        assert(p.drop_first() =~= Seq::<(Seq<char>, Json)>::empty());
        assert(missing_entries(p.drop_first(), xe) =~= Seq::<(Seq<char>, Json)>::empty());
        if obj_has_key(xe, e.0) {
            assert(missing_entries(p, xe) =~= missing_entries(te, xe));
        } else {
            assert(missing_entries(p, xe) =~= missing_entries(te, xe) + seq![e]);
        }
    } else {
        assert(p[0] == te[0]);
        assert(p.drop_first() =~= te.drop_first().push(e));
        lemma_missing_snoc(te.drop_first(), e, xe);
        if obj_has_key(xe, te[0].0) {
            if obj_has_key(xe, e.0) {
                assert(missing_entries(p, xe) =~= missing_entries(te, xe));
            } else {
                assert(missing_entries(p, xe) =~= missing_entries(te, xe) + seq![e]);
            }
        } else {
            if obj_has_key(xe, e.0) {
                assert(missing_entries(p, xe) =~= missing_entries(te, xe));
            } else {
                assert(seq![te[0]] + (missing_entries(te.drop_first(), xe) + seq![e])
                    =~= (seq![te[0]] + missing_entries(te.drop_first(), xe)) + seq![e]);
                assert(missing_entries(p, xe) =~= missing_entries(te, xe) + seq![e]);
            }
        }
    }
}

pub proof fn lemma_merged_unique(te: JsonEntries, xe: JsonEntries)
    requires
        unique_keys(te),
        unique_keys(xe),
    ensures
        unique_keys(merged_entries(te, xe)),
{
    let se = shared_entries(te, xe);
    let mi = missing_entries(te, xe);
    let me = merged_entries(te, xe);
    lemma_missing_unique(te, xe);
    assert forall|i: int, j: int| 0 <= i < j < me.len() implies me[i].0 != me[j].0 by {
        if j < xe.len() {
            assert(me[i].0 == xe[i].0 && me[j].0 == xe[j].0);
        } else if i < xe.len() {
            assert(me[j] == mi[j - xe.len()]);
            assert(mi[j - xe.len()].0 == me[j].0);
            assert(obj_has_key(mi, me[j].0));
            lemma_missing_has_key(te, xe, me[j].0);
            assert(me[i].0 == xe[i].0);
            if me[i].0 == me[j].0 {
                assert(obj_has_key(xe, me[j].0));
            }
        } else {
            assert(me[i] == mi[i - xe.len()] && me[j] == mi[j - xe.len()]);
        }
    }
}

pub proof fn lemma_merged_obj_get(te: JsonEntries, xe: JsonEntries, k: Seq<char>)
    requires
        unique_keys(te),
        unique_keys(xe),
    ensures
        obj_has_key(merged_entries(te, xe), k) == (obj_has_key(te, k) || obj_has_key(xe, k)),
        obj_has_key(xe, k) ==> obj_get(merged_entries(te, xe), k) == (
            if obj_has_key(te, k) {
                merged(obj_get(te, k), obj_get(xe, k))
            } else {
                obj_get(xe, k)
            }),
        obj_has_key(te, k) && !obj_has_key(xe, k) ==> obj_get(merged_entries(te, xe), k)
            == obj_get(te, k),
{
    let se = shared_entries(te, xe);
    let mi = missing_entries(te, xe);
    let me = merged_entries(te, xe);
    lemma_merged_unique(te, xe);
    lemma_missing_has_key(te, xe, k);
    lemma_has_key_concat(se, mi, k);
    assert(obj_has_key(se, k) == obj_has_key(xe, k)) by {
        if obj_has_key(xe, k) {
            let i = choose|i: int| 0 <= i < xe.len() && xe[i].0 == k;
            assert(se[i].0 == k);
            assert(obj_has_key(se, k));
        }
        if obj_has_key(se, k) {
            let i = choose|i: int| 0 <= i < se.len() && se[i].0 == k;
            assert(xe[i].0 == k);
            assert(obj_has_key(xe, k));
        }
    }
    if obj_has_key(xe, k) {
        let i = obj_index_of(xe, k);
        assert(0 <= i < xe.len() && xe[i].0 == k);
        assert(me[i] == se[i]);
        assert(se[i].0 == k);
        lemma_obj_get_unique(me, i);
    }
    if obj_has_key(te, k) && !obj_has_key(xe, k) {
        let j = obj_index_of(mi, k);
        assert(0 <= j < mi.len() && mi[j].0 == k);
        assert(me[xe.len() + j] == mi[j]);
        lemma_obj_get_unique(me, xe.len() + j);
        lemma_missing_get(te, xe, k);
        lemma_missing_unique(te, xe);
        lemma_obj_get_unique(mi, j);
    }
}

pub proof fn lemma_nat_sum_bump(a: Seq<nat>, b: Seq<nat>)
    requires
        a.len() == b.len(),
        forall|i: int| 0 <= i < a.len() ==> b[i] == a[i] + 1,
    ensures
        nat_sum(b) == nat_sum(a) + a.len(),
    decreases a.len(),
{
    if a.len() > 0 {
        lemma_nat_sum_bump(a.drop_last(), b.drop_last());
    }
}

pub proof fn lemma_key_weight_entry(te: JsonEntries, i: int)
    requires
        0 <= i < te.len(),
    ensures
        key_weight(te[i].1) <= key_weight(Json::Object(te)),
{
    lemma_nat_sum_element(weight_terms(te), i);
}

/// The insertion count never exceeds the template's key weight.
pub proof fn lemma_merge_count_le_weight(t: Json, x: Json)
    ensures
        merge_count(t, x) <= key_weight(t),
    decreases t,
{
    if t is Object && x is Object {
        let te = t->Object_0;
        let xe = x->Object_0;
        let ct = count_terms(te, xe);
        let wt = weight_terms(te);
        let bumped = Seq::new(te.len(), |i: int|
            if 0 <= i < te.len() {
                (wt[i] + 1) as nat
            } else {
                0nat
            });
        assert forall|i: int| 0 <= i < te.len() implies ct[i] <= bumped[i] by {
            if obj_has_key(xe, te[i].0) {
                lemma_merge_count_le_weight(te[i].1, obj_get(xe, te[i].0));
            }
        }
        lemma_nat_sum_le(ct, bumped);
        lemma_nat_sum_bump(wt, bumped);
    }
}

/// Preserves well-formedness: the merge of two well-formed documents is
/// well-formed.
pub proof fn lemma_merged_wf(t: Json, x: Json)
    requires
        wf(t),
        wf(x),
    ensures
        wf(merged(t, x)),
    decreases t,
{
    if t is Object && x is Object {
        let te = t->Object_0;
        let xe = x->Object_0;
        let se = shared_entries(te, xe);
        let mi = missing_entries(te, xe);
        let me = merged_entries(te, xe);
        lemma_merged_unique(te, xe);
        assert(merged(t, x) == Json::Object(me));
        assert forall|i: int| 0 <= i < me.len() implies wf(#[trigger] me[i].1) by {
            if i < xe.len() {
                assert(wf(xe[i].1));
                if obj_has_key(te, xe[i].0) {
                    let a = obj_index_of(te, xe[i].0);
                    assert(0 <= a < te.len() && te[a].0 == xe[i].0);
                    assert(wf(te[a].1));
                    assert(decreases_to!(t => t->Object_0));
                    lemma_merged_wf(te[a].1, xe[i].1);
                    assert(me[i].1 == merged(obj_get(te, xe[i].0), xe[i].1));
                } else {
                    assert(me[i].1 == xe[i].1);
                }
            } else {
                lemma_missing_element(te, xe, i - xe.len());
                let a = choose|a: int| 0 <= a < te.len() && te[a] == mi[i - xe.len()];
                assert(wf(te[a].1));
                assert(me[i] == mi[i - xe.len()]);
            }
        }
    }
}

/// The deep merge: inserts into the target, at every level, the template's
/// keys that the target lacks, and returns the merged document together with
/// the number of inserted keys. Existing target values are never altered.
#[verifier::loop_isolation(false)]
pub fn merge(template: &JsonValue, target: JsonValue) -> (r: (JsonValue, usize))
    requires
        wf(template@),
        wf(target@),
        key_weight(template@) <= usize::MAX,
    ensures
        r.0@ == merged(template@, target@),
        r.1 == merge_count(template@, target@),
    decreases template,
{
    let ghost t0 = template@;
    let ghost x0 = target@;
    match template {
        JsonValue::Object(tes) => {
            match target {
                JsonValue::Object(xes) => {
                    let ghost ts = entries_view(tes@);
                    let ghost xs = entries_view(xes@);
                    let ghost ct = count_terms(ts, xs);
                    proof {
                        assert(t0->Object_0 =~= ts);
                        assert(x0->Object_0 =~= xs);
                        assert(t0 == Json::Object(ts));
                        assert(x0 == Json::Object(xs));
                        lemma_merge_count_le_weight(t0, x0);
                    }
                    let mut entries = xes;
                    let mut count: usize = 0;
                    let mut j: usize = 0;
                    proof {
                        assert(ts.take(0) =~= Seq::<(Seq<char>, Json)>::empty());
                        assert(missing_entries(ts.take(0), xs)
                            =~= Seq::<(Seq<char>, Json)>::empty());
                        assert(entries_view(entries@) =~= merged_entries(ts.take(0), xs));
                        assert(ct.take(0) =~= Seq::<nat>::empty());
                    }
                    while j < tes.len()
                        invariant
                            j <= tes@.len(),
                            entries_view(entries@) == merged_entries(ts.take(j as int), xs),
                            count == nat_sum(ct.take(j as int)),
                        decreases tes@.len() - j,
                    {
                        let ghost jj = j as int;
                        let ghost tsub = ts[jj].1;
                        let ghost kk = ts[jj].0;
                        let ghost tprev = ts.take(jj);
                        let ghost tnext = ts.take(jj + 1);
                        let ghost me_old = merged_entries(tprev, xs);
                        proof {
                            assert(ts[jj] == (tes@[jj].0@, tes@[jj].1@));
                            assert(!obj_has_key(tprev, kk)) by {
                                if obj_has_key(tprev, kk) {
                                    let a = choose|a: int| 0 <= a < jj && tprev[a].0 == kk;
                                    assert(ts[a].0 == ts[jj].0);
                                }
                            }
                            lemma_unique_take(ts, jj);
                            lemma_unique_take(ts, jj + 1);
                            assert(tnext =~= tprev.push(ts[jj]));
                            lemma_merged_unique(tprev, xs);
                            lemma_nat_sum_take_succ(ct, jj);
                            lemma_nat_sum_take_le(ct, jj + 1);
                            assert(nat_sum(ct) == merge_count(t0, x0));
                            assert(wf(tsub));
                        }
                        match find_key(&entries, &tes[j].0) {
                            Some(p) => {
                                let ghost q = p as int;
                                proof {
                                    assert(me_old[q].0 == entries@[q].0@);
                                    assert(me_old[q].0 == kk);
                                    assert(obj_has_key(xs, kk)) by {
                                        assert(obj_has_key(me_old, kk));
                                        lemma_merged_obj_get(tprev, xs, kk);
                                    }
                                    let w = obj_index_of(xs, kk);
                                    assert(0 <= w < xs.len() && xs[w].0 == kk);
                                    assert(me_old[w] == shared_entries(tprev, xs)[w]);
                                    assert(me_old[w].0 == kk);
                                    if q != w {
                                        assert(me_old[q].0 != me_old[w].0);
                                    }
                                    assert(q == w);
                                    assert(me_old[q].1 == xs[q].1);
                                    assert(entries@[q].1@ == xs[q].1);
                                    assert(wf(xs[q].1));
                                    lemma_key_weight_entry(ts, jj);
                                    assert(decreases_to!(*template => (*template)->Object_0));
                                    assert(decreases_to!(*tes => tes@));
                                    assert(decreases_to!(tes@ => tes@[jj]));
                                }
                                let ghost before = entries@;
                                let old_entry = entries.remove(p);
                                let (m, c) = merge(&tes[j].1, old_entry.1);
                                entries.insert(p, (old_entry.0, m));
                                count = count + c;
                                proof {
                                    assert(old_entry.0@ == kk);
                                    assert(m@ == merged(tsub, xs[q].1));
                                    assert(entries@ =~= before.update(q, (old_entry.0, m)));
                                    assert(entries_view(entries@)
                                        =~= me_old.update(q, (kk, m@)));
                                    lemma_missing_snoc(tprev, ts[jj], xs);
                                    lemma_has_key_snoc(tprev, ts[jj], kk);
                                    assert(tnext[jj] == ts[jj]);
                                    lemma_obj_get_unique(tnext, jj);
                                    assert(obj_get(tnext, kk) == tsub);
                                    assert forall|i: int| 0 <= i < xs.len()
                                        implies shared_entries(tnext, xs)[i]
                                            == me_old.update(q, (kk, m@))[i] by {
                                        if i == q {
                                            assert(shared_entries(tnext, xs)[q]
                                                == (kk, merged(obj_get(tnext, kk), xs[q].1)));
                                        } else {
                                            if xs[i].0 == kk {
                                                assert(xs[i].0 == xs[q].0);
                                                assert(false);
                                            }
                                            lemma_has_key_snoc(tprev, ts[jj], xs[i].0);
                                            if obj_has_key(tprev, xs[i].0) {
                                                lemma_obj_get_snoc(tprev, ts[jj], xs[i].0);
                                            }
                                            assert(me_old[i] == shared_entries(tprev, xs)[i]);
                                        }
                                    }
                                    assert(missing_entries(tnext, xs) == missing_entries(tprev, xs));
                                    assert(merged_entries(tnext, xs)
                                        =~= me_old.update(q, (kk, m@)));
                                    assert(entries_view(entries@) == merged_entries(tnext, xs));
                                    assert(obj_get(xs, kk) == xs[q].1);
                                    assert(ct[jj] == merge_count(tsub, xs[q].1));
                                    assert(count == nat_sum(ct.take(jj + 1)));
                                }
                            }
                            None => {
                                proof {
                                    assert(!obj_has_key(xs, kk)) by {
                                        if obj_has_key(xs, kk) {
                                            lemma_merged_obj_get(tprev, xs, kk);
                                            let a = obj_index_of(me_old, kk);
                                            assert(0 <= a < me_old.len() && me_old[a].0 == kk);
                                            assert(entries@[a].0@ == kk);
                                        }
                                    }
                                    assert(ct[jj] == 1nat);
                                }
                                let ghost before = entries@;
                                let key_copy = tes[j].0.clone();
                                let sub_copy = clone_tree(&tes[j].1);
                                entries.push((key_copy, sub_copy));
                                count = count + 1;
                                proof {
                                    assert(key_copy@ == kk);
                                    assert(sub_copy@ == tsub);
                                    assert(entries_view(entries@)
                                        =~= me_old.push((kk, tsub)));
                                    lemma_missing_snoc(tprev, ts[jj], xs);
                                    assert(missing_entries(tnext, xs)
                                        == missing_entries(tprev, xs) + seq![ts[jj]]);
                                    assert forall|i: int| 0 <= i < xs.len()
                                        implies shared_entries(tnext, xs)[i]
                                            == shared_entries(tprev, xs)[i] by {
                                        if xs[i].0 == kk {
                                            assert(obj_has_key(xs, kk));
                                            assert(false);
                                        }
                                        lemma_has_key_snoc(tprev, ts[jj], xs[i].0);
                                        if obj_has_key(tprev, xs[i].0) {
                                            lemma_obj_get_snoc(tprev, ts[jj], xs[i].0);
                                        }
                                    }
                                    assert(merged_entries(tnext, xs)
                                        =~= me_old.push((kk, tsub)));
                                    assert(entries_view(entries@) == merged_entries(tnext, xs));
                                    assert(count == nat_sum(ct.take(jj + 1)));
                                }
                            }
                        }
                        j = j + 1;
                    }
                    proof {
                        assert(ts.take(tes@.len() as int) =~= ts);
                        assert(ct.take(tes@.len() as int) =~= ct);
                    }
                    let out = JsonValue::Object(entries);
                    proof {
                        assert(out@->Object_0 =~= entries_view(entries@));
                        assert(out@ == Json::Object(merged_entries(ts, xs)));
                    }
                    (out, count)
                }
                other => (other, 0),
            }
        }
        _ => (target, 0),
    }
}

/// Checks well-formedness: every object in the document, at every depth,
/// has unique keys.
#[verifier::loop_isolation(false)]
pub fn check_wf(v: &JsonValue) -> (r: bool)
    ensures
        r == wf(v@),
    decreases v,
{
    match v {
        JsonValue::Array(items) => {
            let ghost s = v@->Array_0;
            proof {
                assert(s.len() == items@.len());
            }
            let mut i: usize = 0;
            while i < items.len()
                invariant
                    i <= items@.len(),
                    forall|a: int| 0 <= a < i ==> wf(#[trigger] s[a]),
                decreases items@.len() - i,
            {
                proof {
                    assert(decreases_to!(*v => (*v)->Array_0));
                    assert(decreases_to!(*items => items@));
                    assert(decreases_to!(items@ => items@[i as int]));
                    assert(s[i as int] == items@[i as int]@);
                }
                if !check_wf(&items[i]) {
                    proof {
                        assert(!wf(s[i as int]));
                        assert(!wf(v@));
                    }
                    return false;
                }
                i = i + 1;
            }
            proof {
                assert(forall|a: int| 0 <= a < s.len() ==> wf(#[trigger] s[a]));
            }
            true
        },
        JsonValue::Object(entries) => {
            let ghost s = v@->Object_0;
            proof {
                assert(s.len() == entries@.len());
            }
            let mut i: usize = 0;
            while i < entries.len()
                invariant
                    i <= entries@.len(),
                    forall|a: int, b: int| 0 <= a < b < s.len() && a < i ==> s[a].0 != s[b].0,
                    forall|a: int| 0 <= a < i ==> wf(#[trigger] s[a].1),
                decreases entries@.len() - i,
            {
                proof {
                    assert(s[i as int] == (entries@[i as int].0@, entries@[i as int].1@));
                }
                let mut j: usize = i + 1;
                while j < entries.len()
                    invariant
                        i < j <= entries@.len(),
                        forall|b: int| i < b < j ==> s[i as int].0 != s[b].0,
                    decreases entries@.len() - j,
                {
                    proof {
                        assert(s[j as int] == (entries@[j as int].0@, entries@[j as int].1@));
                    }
                    if entries[i].0 == entries[j].0 {
                        proof {
                            assert(s[i as int].0 == s[j as int].0);
                            assert(!unique_keys(s));
                            assert(!wf(v@));
                        }
                        return false;
                    }
                    j = j + 1;
                }
                proof {
                    assert(decreases_to!(*v => (*v)->Object_0));
                    assert(decreases_to!(*entries => entries@));
                    assert(decreases_to!(entries@ => entries@[i as int]));
                }
                if !check_wf(&entries[i].1) {
                    proof {
                        assert(!wf(s[i as int].1));
                        assert(!wf(v@));
                    }
                    return false;
                }
                i = i + 1;
            }
            proof {
                assert(unique_keys(s));
                assert(forall|a: int| 0 <= a < s.len() ==> wf(#[trigger] s[a].1));
            }
            true
        },
        _ => true,
    }
}

/// Computes the key weight of a document, or reports that it does not fit
/// the machine's word.
#[verifier::loop_isolation(false)]
pub fn checked_weight(v: &JsonValue) -> (r: Option<usize>)
    ensures
        match r {
            Some(w) => w == key_weight(v@),
            None => key_weight(v@) > usize::MAX,
        },
    decreases v,
{
    match v {
        JsonValue::Object(entries) => {
            let ghost s = v@->Object_0;
            let ghost wt = weight_terms(s);
            proof {
                assert(s.len() == entries@.len());
                assert(key_weight(v@) == s.len() + nat_sum(wt));
            }
            let mut acc: usize = entries.len();
            let mut i: usize = 0;
            proof {
                assert(wt.take(0) =~= Seq::<nat>::empty());
            }
            while i < entries.len()
                invariant
                    i <= entries@.len(),
                    acc == s.len() + nat_sum(wt.take(i as int)),
                decreases entries@.len() - i,
            {
                proof {
                    assert(s[i as int] == (entries@[i as int].0@, entries@[i as int].1@));
                    assert(wt[i as int] == key_weight(s[i as int].1));
                    lemma_nat_sum_take_succ(wt, i as int);
                    lemma_nat_sum_take_le(wt, i + 1);
                    assert(decreases_to!(*v => (*v)->Object_0));
                    assert(decreases_to!(*entries => entries@));
                    assert(decreases_to!(entries@ => entries@[i as int]));
                }
                match checked_weight(&entries[i].1) {
                    Some(w) => {
                        match acc.checked_add(w) {
                            Some(a) => {
                                acc = a;
                            },
                            None => {
                                return None;
                            },
                        }
                    },
                    None => {
                        proof {
                            lemma_key_weight_entry(s, i as int);
                        }
                        return None;
                    },
                }
                i = i + 1;
            }
            proof {
                assert(wt.take(entries@.len() as int) =~= wt);
            }
            Some(acc)
        },
        _ => Some(0),
    }
}

/// Whether a document can serve as a template: well-formed, with a key
/// weight that fits the machine's word. Callers of the merge outside
/// verified code test this once before a run.
pub fn template_ready(v: &JsonValue) -> (r: bool)
    ensures
        r == (wf(v@) && key_weight(v@) <= usize::MAX),
{
    if !check_wf(v) {
        return false;
    }
    match checked_weight(v) {
        Some(_) => true,
        None => false,
    }
}

} // verus!
