//! The catalog reconciler: the order-preserving deduplication fold shared by
//! every operating mode, and the pure bodies of the four modes (build,
//! append, erase, merge). Each body takes the current timestamp as a plain
//! argument so that its result is a function of its inputs alone.

use vstd::prelude::*;
use vstd::std_specs::cmp::PartialEqSpec;

use crate::ast::{GhostData, GhostDataView, GhostJson, GhostJsonView};
use crate::config::EraseArgs;

verus! {

/// Order-preserving deduplication: keeps the first occurrence of every
/// element and drops the later ones.
pub open spec fn dedup<A>(s: Seq<A>) -> Seq<A>
    decreases s.len(),
{
    if s.len() == 0 {
        Seq::empty()
    } else {
        let prefix = dedup(s.drop_last());
        if prefix.contains(s.last()) {
            prefix
        } else {
            prefix.push(s.last())
        }
    }
}

/// Concatenation of a sequence of sequences, in order.
pub open spec fn concat_all<A>(lists: Seq<Seq<A>>) -> Seq<A>
    decreases lists.len(),
{
    if lists.len() == 0 {
        Seq::empty()
    } else {
        concat_all(lists.drop_last()) + lists.last()
    }
}

/// Index of the first occurrence of `x` in `s` (meaningful only when `s`
/// contains `x`).
pub open spec fn first_index_of<A>(s: Seq<A>, x: A) -> int
    decreases s.len(),
{
    if s.len() == 0 {
        0
    } else if s[0] == x {
        0
    } else {
        1 + first_index_of(s.drop_first(), x)
    }
}

/// The fold's output contains exactly the elements of its input.
pub proof fn lemma_dedup_membership<A>(s: Seq<A>, x: A)
    ensures
        dedup(s).contains(x) <==> s.contains(x),
    decreases s.len(),
{
    broadcast use vstd::seq_lib::group_seq_properties;

    if s.len() > 0 {
        let t = s.drop_last();
        lemma_dedup_membership(t, x);
        assert(s =~= t.push(s.last()));
    }
}

/// The fold's output holds no duplicates.
pub proof fn lemma_dedup_no_duplicates<A>(s: Seq<A>)
    ensures
        dedup(s).no_duplicates(),
    decreases s.len(),
{
    broadcast use vstd::seq_lib::group_seq_properties;

    if s.len() > 0 {
        let t = s.drop_last();
        lemma_dedup_no_duplicates(t);
        if !dedup(t).contains(s.last()) {
            assert forall|i: int, j: int|
                0 <= i < j < dedup(s).len() implies dedup(s)[i] != dedup(s)[j] by {
                if j < dedup(t).len() {
                    assert(dedup(t)[i] != dedup(t)[j]);
                } else {
                    assert(dedup(s)[j] == s.last());
                    assert(dedup(t).contains(dedup(t)[i]));
                }
            }
        }
    }
}

/// A sequence without duplicates passes through the fold unchanged.
pub proof fn lemma_dedup_of_no_duplicates<A>(s: Seq<A>)
    requires
        s.no_duplicates(),
    ensures
        dedup(s) == s,
    decreases s.len(),
{
    broadcast use vstd::seq_lib::group_seq_properties;

    if s.len() > 0 {
        let t = s.drop_last();
        assert(t.no_duplicates());
        lemma_dedup_of_no_duplicates(t);
        assert(!t.contains(s.last())) by {
            if t.contains(s.last()) {
                let i = choose|i: int| 0 <= i < t.len() && t[i] == s.last();
                assert(s[i] == s[s.len() - 1]);
            }
        }
        assert(dedup(s) =~= s);
    }
}

/// The deduplication fold is idempotent: folding its own output again
/// produces the same sequence.
pub proof fn lemma_dedup_idempotent<A>(s: Seq<A>)
    ensures
        dedup(dedup(s)) == dedup(s),
{
    lemma_dedup_no_duplicates(s);
    lemma_dedup_of_no_duplicates(dedup(s));
}

/// Facts about the first occurrence of a contained element.
pub proof fn lemma_first_index_of<A>(s: Seq<A>, x: A)
    requires
        s.contains(x),
    ensures
        0 <= first_index_of(s, x) < s.len(),
        s[first_index_of(s, x)] == x,
        forall|j: int| 0 <= j < first_index_of(s, x) ==> s[j] != x,
    decreases s.len(),
{
    broadcast use vstd::seq_lib::group_seq_properties;

    if s.len() > 0 && s[0] != x {
        let t = s.drop_first();
        assert(t.contains(x)) by {
            let i = choose|i: int| 0 <= i < s.len() && s[i] == x;
            assert(i > 0);
            assert(t[i - 1] == x);
        }
        lemma_first_index_of(t, x);
        assert forall|j: int| 0 <= j < first_index_of(s, x) implies s[j] != x by {
            if j > 0 {
                assert(t[j - 1] == s[j]);
            }
        }
    }
}

/// Appending one element on the right does not move the first occurrence of
/// anything already present, and a fresh element's first occurrence is the
/// old length.
pub proof fn lemma_first_index_of_push<A>(s: Seq<A>, a: A, x: A)
    ensures
        s.contains(x) ==> first_index_of(s.push(a), x) == first_index_of(s, x),
        !s.contains(x) && x == a ==> first_index_of(s.push(a), x) == s.len(),
    decreases s.len(),
{
    broadcast use vstd::seq_lib::group_seq_properties;

    if s.len() == 0 {
        if x == a {
            assert(s.push(a)[0] == a);
        }
    } else {
        assert(s.push(a)[0] == s[0]);
        assert(s.push(a).drop_first() =~= s.drop_first().push(a));
        lemma_first_index_of_push(s.drop_first(), a, x);
        if s.contains(x) && s[0] != x {
            let i = choose|i: int| 0 <= i < s.len() && s[i] == x;
            assert(s.drop_first()[i - 1] == x);
            assert(s.drop_first().contains(x));
        }
    }
}

/// The fold preserves the order of first occurrences: distinct surviving
/// elements appear in the output in the order of their first occurrences in
/// the input, and every output element comes from the input.
pub proof fn lemma_dedup_preserves_first_occurrence_order<A>(s: Seq<A>)
    ensures
        forall|i: int| 0 <= i < dedup(s).len() ==> s.contains(#[trigger] dedup(s)[i]),
        forall|i: int, j: int|
            0 <= i < j < dedup(s).len() ==> first_index_of(s, dedup(s)[i]) < first_index_of(
                s,
                dedup(s)[j],
            ),
    decreases s.len(),
{
    broadcast use vstd::seq_lib::group_seq_properties;

    if s.len() > 0 {
        let t = s.drop_last();
        let a = s.last();
        lemma_dedup_preserves_first_occurrence_order(t);
        lemma_dedup_membership(t, a);
        assert(s =~= t.push(a));
        assert forall|i: int| 0 <= i < dedup(s).len() implies s.contains(#[trigger] dedup(s)[i]) by {
            if i < dedup(t).len() {
                assert(t.contains(dedup(t)[i]));
            }
        }
        assert forall|i: int, j: int|
            0 <= i < j < dedup(s).len() implies first_index_of(s, dedup(s)[i]) < first_index_of(
            s,
            dedup(s)[j],
        ) by {
            let xi = dedup(s)[i];
            let xj = dedup(s)[j];
            if j < dedup(t).len() {
                lemma_first_index_of_push(t, a, xi);
                lemma_first_index_of_push(t, a, xj);
            } else if dedup(s).len() > dedup(t).len() {
                // the last output element is the freshly pushed `a`
                assert(xj == a);
                assert(!t.contains(a));
                lemma_first_index_of_push(t, a, xj);
                assert(t.contains(xi));
                lemma_first_index_of_push(t, a, xi);
                lemma_first_index_of(t, xi);
            }
        }
    }
}

/// True when the record matches at least one of the supplied erase
/// criteria; an absent criterion matches nothing.
pub open spec fn matches_criteria(
    g: GhostDataView,
    directory: Option<Seq<char>>,
    sakura_name: Option<Seq<char>>,
    kero_name: Option<Seq<char>>,
) -> bool {
    ||| (directory matches Some(v) && v == g.directory)
    ||| (sakura_name matches Some(v) && v == g.sakura_name)
    ||| (kero_name matches Some(v) && v == g.kero_name)
}

/// The records kept by the erase mode: those matching none of the criteria,
/// in their original order.
pub open spec fn retained(
    list: Seq<GhostDataView>,
    directory: Option<Seq<char>>,
    sakura_name: Option<Seq<char>>,
    kero_name: Option<Seq<char>>,
) -> Seq<GhostDataView>
    decreases list.len(),
{
    if list.len() == 0 {
        Seq::empty()
    } else {
        let p = retained(list.drop_last(), directory, sakura_name, kero_name);
        if matches_criteria(list.last(), directory, sakura_name, kero_name) {
            p
        } else {
            p.push(list.last())
        }
    }
}

/// The value of an optional borrowed criterion string.
pub open spec fn opt_view(o: Option<&String>) -> Option<Seq<char>> {
    match o {
        Some(s) => Some(s@),
        None => None,
    }
}

/// What the build mode produces from the scanned record collections and the
/// current timestamp. The record list is a function of the collections
/// alone: no prior catalog state enters.
pub open spec fn built_catalog(
    collections: Seq<Seq<GhostDataView>>,
    update: Seq<char>,
) -> GhostJsonView {
    GhostJsonView { update, ghost_list: dedup(concat_all(collections)) }
}

/// The catalog invariant: no two records compare equal on all three
/// fields. Every operating mode establishes it.
pub open spec fn catalog_wf(c: GhostJsonView) -> bool {
    c.ghost_list.no_duplicates()
}

/// The record lists of the successfully loaded catalogs, in input order; a
/// source that failed to load contributes nothing.
pub open spec fn loaded_lists(loads: Seq<Option<GhostJson>>) -> Seq<Seq<GhostDataView>>
    decreases loads.len(),
{
    if loads.len() == 0 {
        Seq::empty()
    } else {
        let p = loaded_lists(loads.drop_last());
        match loads.last() {
            Some(g) => p.push(g@.ghost_list),
            None => p,
        }
    }
}

/// One step of the deduplication fold shared by every mode: the element is
/// appended only when no equal element is already present.
pub fn unique_fold<T: PartialEq + Clone>(acc: Vec<T>, current: &T) -> (r: Vec<T>)
    ensures
        acc@.is_prefix_of(r@),
        T::obeys_eq_spec() ==> {
            if exists|i: int| 0 <= i < acc.len() && #[trigger] acc[i].eq_spec(current) {
                r@ == acc@
            } else {
                &&& r@.len() == acc@.len() + 1
                &&& cloned(*current, r@[acc@.len() as int])
            }
        },
{
    let mut found = false;
    let mut i: usize = 0;
    while i < acc.len()
        invariant
            0 <= i <= acc.len(),
            T::obeys_eq_spec() ==> (found <==> exists|j: int|
                0 <= j < i && #[trigger] acc[j].eq_spec(current)),
        decreases acc.len() - i,
    {
        if acc[i] == *current {
            found = true;
        }
        i = i + 1;
    }
    let mut out = acc;
    if !found {
        out.push(current.clone());
    }
    out
}

/// The whole deduplication fold over a record list: keeps the first
/// occurrence of every record, drops later duplicates.
pub fn dedup_records(list: &Vec<GhostData>) -> (r: Vec<GhostData>)
    ensures
        r.deep_view() == dedup(list.deep_view()),
{
    let ghost dv = list.deep_view();
    let mut out: Vec<GhostData> = Vec::new();
    let mut i: usize = 0;
    proof {
        assert(out.deep_view() =~= dedup(dv.take(0)));
    }
    while i < list.len()
        invariant
            0 <= i <= list.len(),
            dv == list.deep_view(),
            out.deep_view() == dedup(dv.take(i as int)),
        decreases list.len() - i,
    {
        let mut seen = false;
        let mut j: usize = 0;
        while j < out.len()
            invariant
                0 <= j <= out.len(),
                0 <= i < list.len(),
                seen <==> exists|j2: int|
                    0 <= j2 < j && out.deep_view()[j2] == list[i as int]@,
            decreases out.len() - j,
        {
            if out[j] == list[i] {
                seen = true;
                proof {
                    assert(out.deep_view()[j as int] == list[i as int]@);
                }
            }
            j = j + 1;
        }
        proof {
            assert(seen <==> dedup(dv.take(i as int)).contains(dv[i as int])) by {
                assert(dv[i as int] == list[i as int]@);
                if seen {
                    let j2 = choose|j2: int|
                        0 <= j2 < out.len() && out.deep_view()[j2] == list[i as int]@;
                    assert(out.deep_view()[j2] == dv[i as int]);
                } else {
                    if dedup(dv.take(i as int)).contains(dv[i as int]) {
                        let j2 = choose|j2: int|
                            0 <= j2 < dedup(dv.take(i as int)).len() && dedup(
                                dv.take(i as int),
                            )[j2] == dv[i as int];
                        assert(out.deep_view()[j2] == list[i as int]@);
                    }
                }
            }
        }
        if !seen {
            let g = list[i].clone();
            let ghost pre = out;
            out.push(g);
            proof {
                crate::text::lemma_deep_view_push(pre, out, g);
            }
        }
        proof {
            assert(dv.take(i as int + 1).drop_last() =~= dv.take(i as int));
            assert(dv.take(i as int + 1).last() == dv[i as int]);
            assert(out.deep_view() == dedup(dv.take(i as int + 1)));
        }
        i = i + 1;
    }
    proof {
        assert(dv.take(list.len() as int) =~= dv);
    }
    out
}

/// Appends clones of all records of `src` to `out`, in order.
fn extend_records(out: &mut Vec<GhostData>, src: &Vec<GhostData>)
    ensures
        final(out).deep_view() == old(out).deep_view() + src.deep_view(),
{
    let mut i: usize = 0;
    while i < src.len()
        invariant
            0 <= i <= src.len(),
            out.deep_view() == old(out).deep_view() + src.deep_view().take(i as int),
        decreases src.len() - i,
    {
        let g = src[i].clone();
        let ghost pre = *out;
        out.push(g);
        proof {
            crate::text::lemma_deep_view_push(pre, *out, g);
            assert(out.deep_view() =~= old(out).deep_view() + src.deep_view().take(i as int + 1));
        }
        i = i + 1;
    }
    proof {
        assert(src.deep_view().take(src.len() as int) =~= src.deep_view());
        assert(out.deep_view() =~= old(out).deep_view() + src.deep_view());
    }
}

/// The append mode's pure body: the existing catalog's records first, the
/// newly collected ones after them, folded so that existing entries win
/// ties, stamped with the supplied timestamp.
pub fn append_body(json: &GhostJson, appends: &Vec<GhostData>, update: String) -> (r: GhostJson)
    ensures
        r@ == (GhostJsonView {
            update: update@,
            ghost_list: dedup(json@.ghost_list + appends.deep_view()),
        }),
        catalog_wf(r@),
{
    let mut combined: Vec<GhostData> = Vec::new();
    extend_records(&mut combined, json.ghost_list());
    extend_records(&mut combined, appends);
    proof {
        assert(combined.deep_view() =~= json@.ghost_list + appends.deep_view());
        lemma_dedup_no_duplicates(json@.ghost_list + appends.deep_view());
    }
    let deduped = dedup_records(&combined);
    let r = GhostJson::new(update, deduped);
    proof {
        assert(r@ =~= (GhostJsonView {
            update: update@,
            ghost_list: dedup(json@.ghost_list + appends.deep_view()),
        }));
    }
    r
}

/// The build mode's pure body: concatenates the scanned collections in the
/// order the roots were given, folds out duplicates, and stamps the result.
/// No prior catalog enters: the record list depends on the inputs alone.
pub fn build_body(collections: &Vec<Vec<GhostData>>, update: String) -> (r: GhostJson)
    ensures
        r@ == built_catalog(collections.deep_view(), update@),
        catalog_wf(r@),
{
    proof {
        lemma_dedup_no_duplicates(concat_all(collections.deep_view()));
    }
    let ghost cv = collections.deep_view();
    let mut all: Vec<GhostData> = Vec::new();
    let mut i: usize = 0;
    proof {
        assert(all.deep_view() =~= concat_all(cv.take(0)));
    }
    while i < collections.len()
        invariant
            0 <= i <= collections.len(),
            cv == collections.deep_view(),
            all.deep_view() == concat_all(cv.take(i as int)),
        decreases collections.len() - i,
    {
        extend_records(&mut all, &collections[i]);
        proof {
            assert(cv.take(i as int + 1).drop_last() =~= cv.take(i as int));
            assert(cv.take(i as int + 1).last() == cv[i as int]);
            assert(cv[i as int] == collections[i as int].deep_view());
        }
        i = i + 1;
    }
    proof {
        assert(cv.take(collections.len() as int) =~= cv);
    }
    let deduped = dedup_records(&all);
    let r = GhostJson::new(update, deduped);
    proof {
        assert(r@ =~= built_catalog(cv, update@));
    }
    r
}

/// The merge mode's pure body: concatenates the record lists of the loaded
/// catalogs in input order, folds out duplicates, and stamps the result.
pub fn merge_body(jsons: &Vec<GhostJson>, update: String) -> (r: GhostJson)
    ensures
        r@.update == update@,
        r@.ghost_list == dedup(
            concat_all(jsons@.map_values(|g: GhostJson| g@.ghost_list)),
        ),
        catalog_wf(r@),
{
    let ghost m = jsons@.map_values(|g: GhostJson| g@.ghost_list);
    proof {
        lemma_dedup_no_duplicates(concat_all(m));
    }
    let mut all: Vec<GhostData> = Vec::new();
    let mut i: usize = 0;
    proof {
        assert(all.deep_view() =~= concat_all(m.take(0)));
    }
    while i < jsons.len()
        invariant
            0 <= i <= jsons.len(),
            m == jsons@.map_values(|g: GhostJson| g@.ghost_list),
            all.deep_view() == concat_all(m.take(i as int)),
        decreases jsons.len() - i,
    {
        extend_records(&mut all, jsons[i].ghost_list());
        proof {
            assert(m.take(i as int + 1).drop_last() =~= m.take(i as int));
            assert(m.take(i as int + 1).last() == m[i as int]);
            assert(m[i as int] == jsons@[i as int]@.ghost_list);
        }
        i = i + 1;
    }
    proof {
        assert(m.take(jsons.len() as int) =~= m);
    }
    let deduped = dedup_records(&all);
    GhostJson::new(update, deduped)
}

/// The merge mode over raw load outcomes: sources that failed to load are
/// skipped, and the catalogs that did load are merged in input order. A
/// partial loss of sources never fails the merge.
pub fn merge_loaded(loads: &Vec<Option<GhostJson>>, update: String) -> (r: GhostJson)
    ensures
        r@.update == update@,
        r@.ghost_list == dedup(concat_all(loaded_lists(loads@))),
        catalog_wf(r@),
{
    let mut jsons: Vec<GhostJson> = Vec::new();
    let mut i: usize = 0;
    proof {
        assert(loads@.take(0) =~= Seq::<Option<GhostJson>>::empty());
        assert(jsons@.map_values(|g: GhostJson| g@.ghost_list) =~= loaded_lists(loads@.take(0)));
    }
    while i < loads.len()
        invariant
            0 <= i <= loads.len(),
            jsons@.map_values(|g: GhostJson| g@.ghost_list) == loaded_lists(loads@.take(i as int)),
        decreases loads.len() - i,
    {
        proof {
            assert(loads@.take(i as int + 1).drop_last() =~= loads@.take(i as int));
            assert(loads@.take(i as int + 1).last() == loads@[i as int]);
        }
        match &loads[i] {
            Some(g) => {
                let c = g.clone();
                let ghost pre = jsons@;
                jsons.push(c);
                proof {
                    assert(jsons@ =~= pre.push(c));
                    assert(jsons@.map_values(|g: GhostJson| g@.ghost_list) =~= pre.map_values(
                        |g: GhostJson| g@.ghost_list,
                    ).push(c@.ghost_list));
                    assert(jsons@.map_values(|g: GhostJson| g@.ghost_list) =~= loaded_lists(
                        loads@.take(i as int + 1),
                    ));
                }
            },
            None => {
                proof {
                    assert(jsons@.map_values(|g: GhostJson| g@.ghost_list) =~= loaded_lists(
                        loads@.take(i as int + 1),
                    ));
                }
            },
        }
        i = i + 1;
    }
    proof {
        assert(loads@.take(loads@.len() as int) =~= loads@);
    }
    merge_body(&jsons, update)
}

/// Decides whether one record survives the erase mode: it is dropped as
/// soon as any one supplied criterion matches the corresponding field.
pub fn erase_filter_map<'a>(
    v: &'a GhostData,
    directory: Option<&String>,
    sakura_name: Option<&String>,
    kero_name: Option<&String>,
) -> (r: Option<&'a GhostData>)
    ensures
        r is Some <==> !matches_criteria(
            v@,
            opt_view(directory),
            opt_view(sakura_name),
            opt_view(kero_name),
        ),
        r matches Some(g) ==> g == v,
{
    let hit_directory = match directory {
        Some(d) => *d == *v.directory(),
        None => false,
    };
    let hit_sakura = match sakura_name {
        Some(s) => *s == *v.sakura_name(),
        None => false,
    };
    let hit_kero = match kero_name {
        Some(k) => *k == *v.kero_name(),
        None => false,
    };
    if hit_directory || hit_sakura || hit_kero {
        None
    } else {
        Some(v)
    }
}

/// The erase mode's pure body: retains the records matching no supplied
/// criterion, folds the remainder (a no-op on a well-formed catalog), and
/// stamps the result.
pub fn erase_body(args: &EraseArgs, json: &GhostJson, update: String) -> (r: GhostJson)
    ensures
        r@.update == update@,
        r@.ghost_list == dedup(
            retained(json@.ghost_list, args@.directory, args@.sakura_name, args@.kero_name),
        ),
        catalog_wf(r@),
{
    let ghost lv = json@.ghost_list;
    proof {
        lemma_dedup_no_duplicates(
            retained(lv, args@.directory, args@.sakura_name, args@.kero_name),
        );
    }
    let list = json.ghost_list();
    let mut kept: Vec<GhostData> = Vec::new();
    let mut i: usize = 0;
    proof {
        assert(kept.deep_view() =~= retained(
            lv.take(0),
            args@.directory,
            args@.sakura_name,
            args@.kero_name,
        ));
    }
    while i < list.len()
        invariant
            0 <= i <= list.len(),
            lv == list.deep_view(),
            kept.deep_view() == retained(
                lv.take(i as int),
                args@.directory,
                args@.sakura_name,
                args@.kero_name,
            ),
        decreases list.len() - i,
    {
        match erase_filter_map(&list[i], args.directory(), args.sakura_name(), args.kero_name()) {
            Some(g) => {
                let c = g.clone();
                let ghost pre = kept;
                kept.push(c);
                proof {
                    crate::text::lemma_deep_view_push(pre, kept, c);
                }
            },
            None => {},
        }
        proof {
            assert(lv.take(i as int + 1).drop_last() =~= lv.take(i as int));
            assert(lv.take(i as int + 1).last() == lv[i as int]);
            assert(lv[i as int] == list[i as int]@);
            assert(kept.deep_view() == retained(
                lv.take(i as int + 1),
                args@.directory,
                args@.sakura_name,
                args@.kero_name,
            ));
        }
        i = i + 1;
    }
    proof {
        assert(lv.take(list.len() as int) =~= lv);
    }
    let deduped = dedup_records(&kept);
    GhostJson::new(update, deduped)
}

/// Appending only records that are new and pairwise distinct grows the
/// catalog by exactly their number.
pub proof fn lemma_append_monotonic(existing: Seq<GhostDataView>, incoming: Seq<GhostDataView>)
    requires
        (existing + incoming).no_duplicates(),
    ensures
        dedup(existing + incoming).len() == existing.len() + incoming.len(),
{
    lemma_dedup_of_no_duplicates(existing + incoming);
}

/// The build mode's record list is the same whatever timestamp it is
/// stamped with, and mentions no prior catalog at all: running build twice
/// over the same collections yields identical records.
pub proof fn lemma_build_records_independent(
    collections: Seq<Seq<GhostDataView>>,
    t1: Seq<char>,
    t2: Seq<char>,
)
    ensures
        built_catalog(collections, t1).ghost_list == built_catalog(collections, t2).ghost_list,
{
}

/// With no criteria supplied, the erase mode retains every record.
pub proof fn lemma_retained_all_none(list: Seq<GhostDataView>)
    ensures
        retained(list, None, None, None) == list,
    decreases list.len(),
{
    if list.len() > 0 {
        lemma_retained_all_none(list.drop_last());
        assert(retained(list, None, None, None) =~= list);
    }
}

/// On a well-formed catalog (no duplicate records), erasing with no
/// criteria returns the record list unchanged.
pub proof fn lemma_erase_nothing(list: Seq<GhostDataView>)
    requires
        list.no_duplicates(),
    ensures
        dedup(retained(list, None, None, None)) == list,
{
    lemma_retained_all_none(list);
    lemma_dedup_of_no_duplicates(list);
}

/// Every record retained by erase fails all supplied criteria, and every
/// record failing all criteria is retained, in order: the criteria act as a
/// pure disjunction.
pub proof fn lemma_retained_pure_or(
    list: Seq<GhostDataView>,
    directory: Option<Seq<char>>,
    sakura_name: Option<Seq<char>>,
    kero_name: Option<Seq<char>>,
)
    ensures
        forall|i: int| 0 <= i < retained(list, directory, sakura_name, kero_name).len()
            ==> !matches_criteria(
            #[trigger] retained(list, directory, sakura_name, kero_name)[i],
            directory,
            sakura_name,
            kero_name,
        ),
        forall|x: GhostDataView|
            list.contains(x) && !matches_criteria(x, directory, sakura_name, kero_name)
                ==> retained(list, directory, sakura_name, kero_name).contains(x),
    decreases list.len(),
{
    broadcast use vstd::seq_lib::group_seq_properties;

    if list.len() > 0 {
        let t = list.drop_last();
        lemma_retained_pure_or(t, directory, sakura_name, kero_name);
        let p = retained(t, directory, sakura_name, kero_name);
        let ret = retained(list, directory, sakura_name, kero_name);
        assert forall|i: int| 0 <= i < ret.len() implies !matches_criteria(
            #[trigger] ret[i],
            directory,
            sakura_name,
            kero_name,
        ) by {
            if i < p.len() {
                assert(ret[i] == p[i]);
            } else {
                assert(ret[i] == list.last());
            }
        }
        assert forall|x: GhostDataView|
            list.contains(x) && !matches_criteria(x, directory, sakura_name, kero_name)
                implies ret.contains(x) by {
            assert(list =~= t.push(list.last()));
        }
    }
}

} // verus!
