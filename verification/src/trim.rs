//! Trimming: a view of a bundle holding a subset of its entries. A view keeps the
//! original version chain and points at the dataset and version it was cut from; its
//! service declarations shrink to the services its entries bind; it is re-signed.

use vstd::prelude::*;
use crate::bundle::{
    content_hash_of, declared_names, declared_of, entry_verdict, import_verdict, lemma_accepted_bundle, lemma_binding_widen, lemma_entries_all, precheck,
    resolution, same_entry, EntryKind, BundleAudit, BundleDatasetMeta, BundleEntry, BundleError, DatasetBundle, Rejection, ViewRef};
use crate::dependency::{service_names, DataDependencies, InputDecl, ServiceDecl, SourceBinding};
use crate::entry_filter::entry_docs;
use crate::json::{dup_list, member_unless, Duplicate, Json};

verus! {

/// The entries among the first `n` that satisfy `keep`, in order.
pub open spec fn kept(entries: Seq<BundleEntry>, keep: spec_fn(BundleEntry) -> bool, n: nat) -> Seq<BundleEntry>
    decreases n,
{
    if n == 0 || n > entries.len() {
        Seq::empty()
    } else {
        let prev = kept(entries, keep, (n - 1) as nat);
        if keep(entries[n - 1]) {
            prev.push(entries[n - 1])
        } else {
            prev
        }
    }
}

/// The selection `kept(entries, keep, n)` is exactly the entries among the first `n` that
/// satisfy `keep`, in their order: the returned positions are increasing, each picks an
/// entry that satisfies `keep`, and every such position is picked.
pub proof fn lemma_kept_positions(entries: Seq<BundleEntry>, keep: spec_fn(BundleEntry) -> bool, n: nat) -> (idx: Seq<int>)
    requires
        n <= entries.len(),
    ensures
        idx.len() == kept(entries, keep, n).len(),
        forall|i: int| 0 <= i < idx.len() ==> 0 <= #[trigger] idx[i] < n && kept(entries, keep, n)[i] == entries[idx[i]]
            && keep(entries[idx[i]]),
        forall|i: int, j: int| 0 <= i < j < idx.len() ==> idx[i] < idx[j],
        forall|j: int| 0 <= j < n && #[trigger] keep(entries[j]) ==> idx.contains(j),
    decreases n,
{
    if n == 0 {
        Seq::empty()
    } else {
        let prev = lemma_kept_positions(entries, keep, (n - 1) as nat);
        let last = (n - 1) as int;
        if keep(entries[last]) {
            let idx = prev.push(last);
            assert forall|j: int| 0 <= j < n && #[trigger] keep(entries[j]) implies idx.contains(j) by {
                if j < last {
                    let t = choose|t: int| 0 <= t < prev.len() && prev[t] == j;
                    assert(idx[t] == j);
                } else {
                    assert(idx[prev.len() as int] == j);
                }
            }
            idx
        } else {
            assert forall|j: int| 0 <= j < n && #[trigger] keep(entries[j]) implies prev.contains(j) by {
                if j == last {
                    assert(false);
                }
            }
            prev
        }
    }
}

/// The entries a filter trim keeps are exactly those of the given domain (when one is
/// given) that carry at least one of the given tags (when any are given), in order: every
/// kept entry satisfies both conditions, and every entry that satisfies both is kept.
pub proof fn lemma_filter_selection(entries: Seq<BundleEntry>, domain: Option<Seq<char>>, tags: Seq<Seq<char>>)
    ensures
        forall|i: int| 0 <= i < kept(entries, filter_kept(domain, tags), entries.len()).len() ==> {
            let e = #[trigger] kept(entries, filter_kept(domain, tags), entries.len())[i];
            &&& (domain matches Some(d) ==> e.domain@ == d)
            &&& (tags.len() > 0 ==> exists|j: int| 0 <= j < tags.len() && crate::text::views(e.tags@).contains(#[trigger] tags[j]))
        },
        forall|p: int| 0 <= p < entries.len()
            && (domain matches Some(d) ==> (#[trigger] entries[p]).domain@ == d)
            && (tags.len() == 0 || exists|j: int| 0 <= j < tags.len() && crate::text::views(entries[p].tags@).contains(#[trigger] tags[j]))
            ==> kept(entries, filter_kept(domain, tags), entries.len()).contains(entries[p]),
        forall|p: int| 0 <= p < entries.len() && tags.len() > 0
            && (forall|j: int| 0 <= j < tags.len() ==> !crate::text::views((#[trigger] entries[p]).tags@).contains(#[trigger] tags[j]))
            ==> !kept(entries, filter_kept(domain, tags), entries.len()).contains(entries[p]),
{
    let keep = filter_kept(domain, tags);
    let sel = kept(entries, keep, entries.len());
    let idx = lemma_kept_positions(entries, keep, entries.len());
    assert forall|i: int| 0 <= i < sel.len() implies {
        let e = #[trigger] sel[i];
        &&& (domain matches Some(d) ==> e.domain@ == d)
        &&& (tags.len() > 0 ==> exists|j: int| 0 <= j < tags.len() && crate::text::views(e.tags@).contains(#[trigger] tags[j]))
    } by {
        assert(keep(entries[idx[i]]));
        assert(sel[i] == entries[idx[i]]);
    }
    assert forall|p: int| 0 <= p < entries.len()
        && (domain matches Some(d) ==> (#[trigger] entries[p]).domain@ == d)
        && (tags.len() == 0 || exists|j: int| 0 <= j < tags.len() && crate::text::views(entries[p].tags@).contains(#[trigger] tags[j]))
        implies sel.contains(entries[p]) by {
        assert(keep(entries[p]));
        let t = choose|t: int| 0 <= t < idx.len() && idx[t] == p;
        assert(sel[t] == entries[p]);
    }
    assert forall|p: int| 0 <= p < entries.len() && tags.len() > 0
        && (forall|j: int| 0 <= j < tags.len() ==> !crate::text::views((#[trigger] entries[p]).tags@).contains(#[trigger] tags[j]))
        implies !sel.contains(entries[p]) by {
        if sel.contains(entries[p]) {
            let i = choose|i: int| 0 <= i < sel.len() && sel[i] == entries[p];
            assert(keep(entries[idx[i]]));
            assert(sel[i] == entries[idx[i]]);
            let j = choose|j: int| 0 <= j < tags.len() && crate::text::views(sel[i].tags@).contains(tags[j]);
            assert(!crate::text::views(entries[p].tags@).contains(tags[j]));
        }
    }
}

/// The answers that go with `kept(entries, keep, n)`: those at the kept positions.
pub open spec fn kept_answers(entries: Seq<BundleEntry>, keep: spec_fn(BundleEntry) -> bool, answers: Seq<Option<Json>>, n: nat) -> Seq<Option<Json>>
    decreases n,
{
    if n == 0 || n > entries.len() {
        Seq::empty()
    } else {
        let prev = kept_answers(entries, keep, answers, (n - 1) as nat);
        if keep(entries[n - 1]) {
            prev.push(answers[n - 1])
        } else {
            prev
        }
    }
}

proof fn lemma_kept_answers(entries: Seq<BundleEntry>, keep: spec_fn(BundleEntry) -> bool, answers: Seq<Option<Json>>, n: nat)
    requires
        n <= entries.len(),
    ensures
        kept_answers(entries, keep, answers, n).len() == kept(entries, keep, n).len(),
        forall|i: int| 0 <= i < kept(entries, keep, n).len() ==> exists|p: int| 0 <= p < n
            && #[trigger] kept(entries, keep, n)[i] == entries[p] && kept_answers(entries, keep, answers, n)[i] == answers[p],
    decreases n,
{
    if n > 0 {
        lemma_kept_answers(entries, keep, answers, (n - 1) as nat);
        let prev = kept(entries, keep, (n - 1) as nat);
        let pa = kept_answers(entries, keep, answers, (n - 1) as nat);
        let cur = kept(entries, keep, n);
        let ca = kept_answers(entries, keep, answers, n);
        assert forall|i: int| 0 <= i < cur.len() implies exists|p: int| 0 <= p < n
            && #[trigger] cur[i] == entries[p] && ca[i] == answers[p] by {
            if i < prev.len() {
                assert(cur[i] == prev[i]);
                assert(ca[i] == pa[i]);
                let p = choose|p: int| 0 <= p < n - 1 && #[trigger] prev[i] == entries[p] && pa[i] == answers[p];
                assert(cur[i] == entries[p] && ca[i] == answers[p]);
            } else {
                assert(cur[i] == entries[n - 1] && ca[i] == answers[n - 1]);
            }
        }
    }
}

proof fn lemma_used_names_cover(sel: Seq<BundleEntry>, i: int, k: int)
    requires
        0 <= i < sel.len(),
        0 <= k < sel[i].dependencies@.len(),
    ensures
        used_names(sel).contains(sel[i].dependencies@[k].service_name@),
    decreases sel.len(),
{
    let init = used_names(sel.drop_last());
    let tail = sel.last().dependencies@.map_values(|d: SourceBinding| d.service_name@);
    assert(used_names(sel) == init + tail);
    if i == sel.len() - 1 {
        assert((init + tail)[init.len() + k] == tail[k]);
    } else {
        lemma_used_names_cover(sel.drop_last(), i, k);
        let t = choose|t: int| 0 <= t < init.len() && init[t] == sel[i].dependencies@[k].service_name@;
        assert((init + tail)[t] == init[t]);
    }
}

proof fn lemma_services_used_keep(base: Seq<ServiceDecl>, used: Seq<Seq<char>>, n: nat, t: int)
    requires
        n <= base.len(),
        0 <= t < n,
        used.contains(base[t].service_name@),
    ensures
        service_names(services_used(base, used, n)).contains(base[t].service_name@),
    decreases n,
{
    let prev = services_used(base, used, (n - 1) as nat);
    if t == n - 1 {
        let cur = services_used(base, used, n);
        assert(cur == prev.push(base[t]));
        assert(service_names(cur)[prev.len() as int] == base[t].service_name@);
    } else {
        lemma_services_used_keep(base, used, (n - 1) as nat, t);
        let cur = services_used(base, used, n);
        let w = choose|w: int| 0 <= w < service_names(prev).len() && service_names(prev)[w] == base[t].service_name@;
        if used.contains(base[n - 1].service_name@) {
            assert(cur == prev.push(base[n - 1]));
            assert(service_names(cur)[w] == service_names(prev)[w]);
        }
    }
}

proof fn lemma_services_used_only(base: Seq<ServiceDecl>, used: Seq<Seq<char>>, n: nat)
    requires
        n <= base.len(),
    ensures
        forall|i: int| 0 <= i < services_used(base, used, n).len() ==> {
            let s = #[trigger] services_used(base, used, n)[i];
            used.contains(s.service_name@) && exists|t: int| 0 <= t < n && base[t] == s
        },
    decreases n,
{
    if n > 0 {
        lemma_services_used_only(base, used, (n - 1) as nat);
        let prev = services_used(base, used, (n - 1) as nat);
        let cur = services_used(base, used, n);
        assert forall|i: int| 0 <= i < cur.len() implies {
            let s = #[trigger] cur[i];
            used.contains(s.service_name@) && exists|t: int| 0 <= t < n && base[t] == s
        } by {
            if i < prev.len() {
                assert(cur[i] == prev[i]);
                let t = choose|t: int| 0 <= t < n - 1 && base[t] == prev[i];
                assert(base[t] == cur[i]);
            } else {
                assert(cur[i] == base[n - 1]);
            }
        }
    }
}

/// The services a view declares are exactly the declared services of the bundle that
/// the view's entries bind: each is bound and declared, and each bound declared service
/// stays.
pub proof fn lemma_view_declares_bound(base: Seq<ServiceDecl>, used: Seq<Seq<char>>)
    ensures
        forall|i: int| 0 <= i < service_names(services_used(base, used, base.len())).len() ==> {
            let s = #[trigger] service_names(services_used(base, used, base.len()))[i];
            used.contains(s) && service_names(base).contains(s)
        },
        forall|t: int| 0 <= t < base.len() && used.contains(#[trigger] base[t].service_name@)
            ==> service_names(services_used(base, used, base.len())).contains(base[t].service_name@),
{
    let kept_services = services_used(base, used, base.len());
    lemma_services_used_only(base, used, base.len());
    assert forall|i: int| 0 <= i < service_names(kept_services).len() implies {
        let s = #[trigger] service_names(kept_services)[i];
        used.contains(s) && service_names(base).contains(s)
    } by {
        let d = kept_services[i];
        let t = choose|t: int| 0 <= t < base.len() && base[t] == d;
        assert(service_names(base)[t] == d.service_name@);
    }
    assert forall|t: int| 0 <= t < base.len() && used.contains(#[trigger] base[t].service_name@)
        implies service_names(kept_services).contains(base[t].service_name@) by {
        lemma_services_used_keep(base, used, base.len(), t);
    }
}

/// A view of an accepted bundle is accepted: with the schema answers the bundle's
/// import got for the kept entries and the same answers for its event declarations,
/// the import gate passes the view too.
pub proof fn lemma_view_importable(
    b: DatasetBundle,
    keep: spec_fn(BundleEntry) -> bool,
    v: DatasetBundle,
    by: Seq<char>,
    at: Seq<char>,
    entry_answers: Seq<Option<Json>>,
    event_answers: Seq<Option<Json>>,
)
    requires
        import_verdict(b, entry_answers, event_answers) is Ok,
        view_outcome(Ok(v), b, kept(b.entries@, keep, b.entries@.len()), by, at),
    ensures
        import_verdict(v, kept_answers(b.entries@, keep, entry_answers, b.entries@.len()), event_answers) is Ok,
{
    let entries = b.entries@;
    let sel = kept(entries, keep, entries.len());
    let ka = kept_answers(entries, keep, entry_answers, entries.len());
    let base = base_services(b);
    let used = used_names(sel);
    let dv = declared_of(v);
    lemma_accepted_bundle(b, entry_answers, event_answers);
    lemma_kept_answers(entries, keep, entry_answers, entries.len());
    assert(dv == service_names(services_used(base, used, base.len())));
    assert(declared_of(b) == service_names(base));
    assert forall|i: int| 0 <= i < v.entries@.len() implies (#[trigger] entry_verdict(v.entries@[i], dv, ka[i])) is Ok by {
        assert(same_entry(v.entries@[i], sel[i]));
        let p = choose|p: int| 0 <= p < entries.len() && #[trigger] sel[i] == entries[p] && ka[i] == entry_answers[p];
        let e = entries[p];
        assert(entry_verdict(e, declared_of(b), entry_answers[p]) is Ok);
        if e.entry_kind == EntryKind::Rule {
            let deps = e.dependencies@;
            assert forall|k: int| 0 <= k < deps.len() && declared_of(b).contains(#[trigger] deps[k].service_name@)
                implies dv.contains(deps[k].service_name@) by {
                lemma_used_names_cover(sel, i, k);
                let t = choose|t: int| 0 <= t < service_names(base).len() && service_names(base)[t] == deps[k].service_name@;
                lemma_services_used_keep(base, used, base.len(), t);
            }
            if crate::structure::structure_verdict(e.rule_body@) is Ok {
                lemma_binding_widen(deps, declared_of(b), dv, crate::symbols::has_dynamic(e.rule_body@),
                    crate::symbols::literal_services(e.rule_body@), deps.len());
            }
        }
        assert(entry_verdict(v.entries@[i], dv, ka[i]) == entry_verdict(e, dv, entry_answers[p]));
    }
    lemma_entries_all(v.entries@, dv, ka, v.entries@.len());
    assert(precheck(v) is Ok);
    assert(resolution(v) == resolution(b));
}

/// An entry whose id is listed.
pub open spec fn id_kept(ids: Seq<Seq<char>>) -> spec_fn(BundleEntry) -> bool {
    |e: BundleEntry| ids.contains(e.entry_id@)
}

/// An entry of the domain (if one is given) carrying one of the tags (if any are given).
pub open spec fn filter_kept(domain: Option<Seq<char>>, tags: Seq<Seq<char>>) -> spec_fn(BundleEntry) -> bool {
    |e: BundleEntry|
        (match domain {
            Some(d) => e.domain@ == d,
            None => true,
        }) && (tags.len() == 0 || exists|i: int| 0 <= i < tags.len() && crate::text::views(e.tags@).contains(#[trigger] tags[i]))
}

/// The services the entries bind, in order of appearance (repeats included).
pub open spec fn used_names(entries: Seq<BundleEntry>) -> Seq<Seq<char>>
    decreases entries.len(),
{
    if entries.len() == 0 {
        Seq::empty()
    } else {
        used_names(entries.drop_last()) + entries.last().dependencies@.map_values(|d: SourceBinding| d.service_name@)
    }
}

/// The first used service that is not declared.
pub open spec fn first_undeclared(used: Seq<Seq<char>>, declared: Seq<Seq<char>>) -> Option<Seq<char>>
    decreases used.len(),
{
    if used.len() == 0 {
        None
    } else if !declared.contains(used[0]) {
        Some(used[0])
    } else {
        first_undeclared(used.drop_first(), declared)
    }
}

/// The declared inputs of a bundle.
pub open spec fn base_inputs(b: DatasetBundle) -> Seq<InputDecl> {
    match b.data_dependencies {
        Some(d) => d.inputs@,
        None => Seq::empty(),
    }
}

/// The declared services of a bundle.
pub open spec fn base_services(b: DatasetBundle) -> Seq<ServiceDecl> {
    match b.data_dependencies {
        Some(d) => d.services@,
        None => Seq::empty(),
    }
}

/// The services among the first `n` whose names are used, in order.
pub open spec fn services_used(s: Seq<ServiceDecl>, used: Seq<Seq<char>>, n: nat) -> Seq<ServiceDecl>
    decreases n,
{
    if n == 0 || n > s.len() {
        Seq::empty()
    } else {
        let prev = services_used(s, used, (n - 1) as nat);
        if used.contains(s[n - 1].service_name@) {
            prev.push(s[n - 1])
        } else {
            prev
        }
    }
}

/// The data dependencies of a view: the original inputs and the used services; none
/// when both are empty.
pub open spec fn view_deps(b: DatasetBundle, used: Seq<Seq<char>>) -> Option<Json> {
    let ins = base_inputs(b);
    let ss = services_used(base_services(b), used, base_services(b).len());
    if ins.len() == 0 && ss.len() == 0 {
        None
    } else {
        Some(Json::Object(
            member_unless(ins.len() == 0, "inputs"@, Json::Array(ins.map_values(|x: InputDecl| x@)))
                + member_unless(ss.len() == 0, "services"@, Json::Array(ss.map_values(|x: ServiceDecl| x@))),
        ))
    }
}

/// The document of a view reference to the bundle's dataset and source version.
pub open spec fn view_ref_doc(b: DatasetBundle) -> Json {
    Json::Object(
        seq![
            ("original_dataset_id"@, Json::Str(b.dataset.dataset_id@)),
            ("view_of_version"@, Json::Str(b.audit.source_version@)),
        ],
    )
}

/// What a view of `b` holding the entries `sel`, exported by `by` at `at`, is: an
/// undeclared bound service is reported; otherwise the view keeps everything of `b`
/// but the id (suffixed `_view`), the view reference, the entries, the shrunk
/// dependencies and the audit (new exporter and time, recomputed hash).
pub open spec fn view_outcome(r: Result<DatasetBundle, BundleError>, b: DatasetBundle, sel: Seq<BundleEntry>, by: Seq<char>, at: Seq<char>) -> bool {
    match first_undeclared(used_names(sel), declared_of(b)) {
        Some(s) => r matches Err(e) && e@ == Rejection::ServiceNotDeclared { service: s },
        None => match r {
            Err(_) => false,
            Ok(v) => {
                &&& v.bundle_schema_version@ == b.bundle_schema_version@
                &&& v.bundle_id@ == b.bundle_id@ + "_view"@
                &&& v.dataset@ == b.dataset.json_with_view(Some(view_ref_doc(b)))
                &&& v.dataset.dataset_id@ == b.dataset.dataset_id@
                &&& v.dataset.versioning.chain@ == b.dataset.versioning.chain@
                &&& v.dataset.view_of matches Some(vr) && vr.original_dataset_id@ == b.dataset.dataset_id@
                    && vr.view_of_version@ == b.audit.source_version@
                &&& v.dataset.event_schemas@ == b.dataset.event_schemas@
                &&& v.dataset.version_selection == b.dataset.version_selection
                &&& v.dataset.law_ref == b.dataset.law_ref
                &&& entry_docs(v.entries@) == entry_docs(sel)
                &&& v.entries@.len() == sel.len()
                &&& forall|i: int| 0 <= i < sel.len() ==> same_entry(#[trigger] v.entries@[i], sel[i])
                &&& declared_of(v) == service_names(services_used(base_services(b), used_names(sel), base_services(b).len()))
                &&& match v.data_dependencies {
                    Some(d) => view_deps(b, used_names(sel)) == Some(d@),
                    None => view_deps(b, used_names(sel)) is None,
                }
                &&& v.tests@ == b.tests@
                &&& v.tests.verdict == b.tests.verdict
                &&& v.audit.exported_at@ == at
                &&& v.audit.exported_by@ == by
                &&& v.audit.source_version@ == b.audit.source_version@
                &&& v.audit.hash_algo@ == b.audit.hash_algo@
                &&& v.audit.content_hash@ == content_hash_of(v)
            },
        },
    }
}


/// The entries at the given positions.
pub open spec fn at_positions(entries: Seq<BundleEntry>, idx: Seq<usize>) -> Seq<BundleEntry> {
    idx.map_values(|k: usize| entries[k as int])
}

fn used_services(bundle: &DatasetBundle, idx: &Vec<usize>) -> (r: Vec<String>)
    requires
        forall|k: int| 0 <= k < idx@.len() ==> #[trigger] idx@[k] < bundle.entries@.len(),
    ensures
        crate::text::views(r@) == used_names(at_positions(bundle.entries@, idx@)),
{
    let ghost sel = at_positions(bundle.entries@, idx@);
    let mut used: Vec<String> = Vec::new();
    let mut i: usize = 0;
    while i < idx.len()
        invariant
            i <= idx@.len(),
            sel == at_positions(bundle.entries@, idx@),
            forall|k: int| 0 <= k < idx@.len() ==> #[trigger] idx@[k] < bundle.entries@.len(),
            crate::text::views(used@) == used_names(sel.take(i as int)),
        decreases idx.len() - i,
    {
        let e = &bundle.entries[idx[i]];
        let ghost before = crate::text::views(used@);
        let mut j: usize = 0;
        while j < e.dependencies.len()
            invariant
                j <= e.dependencies@.len(),
                used@.len() == before.len() + j,
                crate::text::views(used@) == before + e.dependencies@.take(j as int).map_values(|d: SourceBinding| d.service_name@),
            decreases e.dependencies.len() - j,
        {
            let ghost prev = used@;
            used.push(e.dependencies[j].service_name.clone());
            proof {
                assert forall|t: int| 0 <= t < prev.len() implies used@[t]@ == crate::text::views(prev)[t] by {
                    assert(used@[t] == prev[t]);
                }
                assert(e.dependencies@.take(j + 1) =~= e.dependencies@.take(j as int).push(e.dependencies@[j as int]));
                assert(used@[prev.len() as int]@ == e.dependencies@[j as int].service_name@);
                let lhs = crate::text::views(used@);
                let rhs = before + e.dependencies@.take(j + 1).map_values(|d: SourceBinding| d.service_name@);
                assert(lhs.len() == rhs.len());
                assert forall|t: int| 0 <= t < lhs.len() implies lhs[t] == rhs[t] by {
                    if t < prev.len() {
                        assert(lhs[t] == crate::text::views(prev)[t]);
                    } else {
                        assert(t == prev.len());
                    }
                }
            }
            j = j + 1;
            assert(crate::text::views(used@) =~= before + e.dependencies@.take(j as int).map_values(|d: SourceBinding| d.service_name@));
        }
        assert(e.dependencies@.take(e.dependencies@.len() as int) =~= e.dependencies@);
        assert(sel.take(i + 1).drop_last() =~= sel.take(i as int));
        assert(sel.take(i + 1).last() == *e);
        i = i + 1;
    }
    assert(sel.take(idx@.len() as int) =~= sel);
    used
}

fn find_undeclared(used: &Vec<String>, declared: &Vec<String>) -> (r: Option<usize>)
    ensures
        match r {
            Some(k) => k < used@.len() && first_undeclared(crate::text::views(used@), crate::text::views(declared@)) == Some(used@[k as int]@),
            None => first_undeclared(crate::text::views(used@), crate::text::views(declared@)) is None,
        },
{
    let ghost u = crate::text::views(used@);
    let ghost d = crate::text::views(declared@);
    let mut i: usize = 0;
    assert(u.skip(0) =~= u);
    while i < used.len()
        invariant
            i <= used@.len(),
            u == crate::text::views(used@),
            d == crate::text::views(declared@),
            first_undeclared(u, d) == first_undeclared(u.skip(i as int), d),
        decreases used.len() - i,
    {
        assert(u.skip(i as int)[0] == used@[i as int]@);
        if !crate::text::strings_contain(declared.as_slice(), used[i].as_str()) {
            return Some(i);
        }
        assert(u.skip(i as int).drop_first() =~= u.skip(i + 1));
        i = i + 1;
    }
    None
}

/// Trimming into views.
pub struct BundleTrimmer;

impl BundleTrimmer {
    /// A view holding the entries whose ids are listed, in bundle order; an empty
    /// selection is refused.
    pub fn trim_by_ids(bundle: &DatasetBundle, keep_ids: &[String], by: &str, at: &str) -> (r: Result<DatasetBundle, BundleError>)
        ensures
            ({
                let sel = kept(bundle.entries@, id_kept(crate::text::views(keep_ids@)), bundle.entries@.len());
                &&& sel.len() == 0 ==> crate::bundle::verdict_of(r) == Err::<(), Rejection>(Rejection::EmptyView)
                &&& sel.len() > 0 ==> view_outcome(r, *bundle, sel, by@, at@)
            }),
            r matches Ok(v) ==> v.entries@.len() > 0 && forall|i: int| 0 <= i < v.entries@.len()
                ==> crate::text::views(keep_ids@).contains((#[trigger] v.entries@[i]).entry_id@),
    {
        let ghost pred = id_kept(crate::text::views(keep_ids@));
        let mut idx: Vec<usize> = Vec::new();
        let mut i: usize = 0;
        while i < bundle.entries.len()
            invariant
                i <= bundle.entries@.len(),
                pred == id_kept(crate::text::views(keep_ids@)),
                forall|k: int| 0 <= k < idx@.len() ==> #[trigger] idx@[k] < i,
                at_positions(bundle.entries@, idx@) == kept(bundle.entries@, pred, i as nat),
            decreases bundle.entries.len() - i,
        {
            let mut hit = false;
            let mut k: usize = 0;
            while k < keep_ids.len()
                invariant
                    k <= keep_ids@.len(),
                    i < bundle.entries@.len(),
                    hit == exists|t: int| 0 <= t < k && (#[trigger] keep_ids@[t])@ == bundle.entries@[i as int].entry_id@,
                decreases keep_ids.len() - k,
            {
                if crate::text::str_eq(keep_ids[k].as_str(), bundle.entries[i].entry_id.as_str()) {
                    hit = true;
                }
                k = k + 1;
            }
            proof {
                if hit {
                    let t = choose|t: int| 0 <= t < keep_ids@.len() && (#[trigger] keep_ids@[t])@ == bundle.entries@[i as int].entry_id@;
                    assert(crate::text::views(keep_ids@)[t] == bundle.entries@[i as int].entry_id@);
                }
                if crate::text::views(keep_ids@).contains(bundle.entries@[i as int].entry_id@) {
                    let t = choose|t: int| 0 <= t < crate::text::views(keep_ids@).len() && crate::text::views(keep_ids@)[t] == bundle.entries@[i as int].entry_id@;
                    assert(keep_ids@[t]@ == bundle.entries@[i as int].entry_id@);
                }
                assert(hit == pred(bundle.entries@[i as int]));
            }
            let ghost prev = idx@;
            if hit {
                idx.push(i);
                assert(at_positions(bundle.entries@, idx@) =~= at_positions(bundle.entries@, prev).push(bundle.entries@[i as int]));
            }
            i = i + 1;
        }
        if idx.len() == 0 {
            return Err(BundleError::EmptyView);
        }
        let r = Self::build_view(bundle, &idx, by, at);
        proof {
            let sel = kept(bundle.entries@, pred, bundle.entries@.len());
            let pos = lemma_kept_positions(bundle.entries@, pred, bundle.entries@.len());
            assert(sel.len() == idx@.len());
            if r is Ok {
                let v = r->Ok_0;
                assert(v.entries@.len() == sel.len());
                assert forall|i: int| 0 <= i < v.entries@.len()
                    implies crate::text::views(keep_ids@).contains((#[trigger] v.entries@[i]).entry_id@) by {
                    assert(same_entry(v.entries@[i], sel[i]));
                    assert(pred(bundle.entries@[pos[i]]));
                    assert(sel[i] == bundle.entries@[pos[i]]);
                }
            }
        }
        r
    }

    /// A view holding the entries of the domain (if given) that carry one of the tags
    /// (if any are given), in bundle order; an empty selection is refused.
    pub fn trim_by_filter(bundle: &DatasetBundle, domain: Option<&str>, tags: &[&str], by: &str, at: &str) -> (r: Result<DatasetBundle, BundleError>)
        ensures
            ({
                let sel = kept(
                    bundle.entries@,
                    filter_kept(match domain {
                        Some(d) => Some(d@),
                        None => None,
                    }, tags@.map_values(|t: &str| t@)),
                    bundle.entries@.len(),
                );
                &&& sel.len() == 0 ==> crate::bundle::verdict_of(r) == Err::<(), Rejection>(Rejection::EmptyView)
                &&& sel.len() > 0 ==> view_outcome(r, *bundle, sel, by@, at@)
            }),
            r matches Ok(v) ==> v.entries@.len() > 0 && forall|i: int| 0 <= i < v.entries@.len() ==> {
                let e = #[trigger] v.entries@[i];
                &&& (domain matches Some(d) ==> e.domain@ == d@)
                &&& (tags@.len() > 0 ==> exists|j: int| 0 <= j < tags@.len() && crate::text::views(e.tags@).contains(tags@[j]@))
            },
    {
        let ghost dv = match domain {
            Some(d) => Some(d@),
            None => None,
        };
        let ghost tv = tags@.map_values(|t: &str| t@);
        let ghost pred = filter_kept(dv, tv);
        let mut idx: Vec<usize> = Vec::new();
        let mut i: usize = 0;
        while i < bundle.entries.len()
            invariant
                i <= bundle.entries@.len(),
                pred == filter_kept(dv, tv),
                dv == (match domain {
                    Some(d) => Some(d@),
                    None => None,
                }),
                tv == tags@.map_values(|t: &str| t@),
                forall|k: int| 0 <= k < idx@.len() ==> #[trigger] idx@[k] < i,
                at_positions(bundle.entries@, idx@) == kept(bundle.entries@, pred, i as nat),
            decreases bundle.entries.len() - i,
        {
            let e = &bundle.entries[i];
            let domain_ok = match domain {
                Some(d) => crate::text::str_eq(e.domain.as_str(), d),
                None => true,
            };
            let mut tag_ok = tags.len() == 0;
            let mut k: usize = 0;
            while k < tags.len()
                invariant
                    k <= tags@.len(),
                    tv == tags@.map_values(|t: &str| t@),
                    tag_ok == (tags@.len() == 0 || exists|t: int| 0 <= t < k && crate::text::views(e.tags@).contains(#[trigger] tv[t])),
                decreases tags.len() - k,
            {
                if crate::text::strings_contain(e.tags.as_slice(), tags[k]) {
                    assert(crate::text::views(e.tags@).contains(tv[k as int]));
                    tag_ok = true;
                }
                k = k + 1;
            }
            assert((domain_ok && tag_ok) == pred(*e));
            let ghost prev = idx@;
            if domain_ok && tag_ok {
                idx.push(i);
                assert(at_positions(bundle.entries@, idx@) =~= at_positions(bundle.entries@, prev).push(bundle.entries@[i as int]));
            }
            i = i + 1;
        }
        if idx.len() == 0 {
            return Err(BundleError::EmptyView);
        }
        let r = Self::build_view(bundle, &idx, by, at);
        proof {
            lemma_filter_selection(bundle.entries@, dv, tv);
            let sel = kept(bundle.entries@, pred, bundle.entries@.len());
            if r is Ok {
                let v = r->Ok_0;
                assert forall|i: int| 0 <= i < v.entries@.len() implies {
                    let e = #[trigger] v.entries@[i];
                    &&& (domain matches Some(d) ==> e.domain@ == d@)
                    &&& (tags@.len() > 0 ==> exists|j: int| 0 <= j < tags@.len() && crate::text::views(e.tags@).contains(tags@[j]@))
                } by {
                    assert(same_entry(v.entries@[i], sel[i]));
                    let s = sel[i];
                    if tags@.len() > 0 {
                        let j = choose|j: int| 0 <= j < tv.len() && crate::text::views(s.tags@).contains(#[trigger] tv[j]);
                        assert(tv[j] == tags@[j]@);
                    }
                }
            }
        }
        r
    }

    fn build_view(bundle: &DatasetBundle, idx: &Vec<usize>, by: &str, at: &str) -> (r: Result<DatasetBundle, BundleError>)
        requires
            forall|k: int| 0 <= k < idx@.len() ==> #[trigger] idx@[k] < bundle.entries@.len(),
        ensures
            view_outcome(r, *bundle, at_positions(bundle.entries@, idx@), by@, at@),
    {
        let ghost sel = at_positions(bundle.entries@, idx@);
        let used = used_services(bundle, idx);
        let declared = declared_names(bundle);
        match find_undeclared(&used, &declared) {
            Some(k) => {
                return Err(BundleError::ServiceNotDeclared { service: used[k].clone() });
            },
            None => {},
        }
        let inputs: Vec<InputDecl> = match &bundle.data_dependencies {
            Some(d) => dup_list(&d.inputs),
            None => Vec::new(),
        };
        assert(inputs@.map_values(|x: InputDecl| x@) =~= base_inputs(*bundle).map_values(|x: InputDecl| x@));
        let mut services: Vec<ServiceDecl> = Vec::new();
        let ghost base = base_services(*bundle);
        let ghost un = crate::text::views(used@);
        match &bundle.data_dependencies {
            Some(d) => {
                let mut k: usize = 0;
                while k < d.services.len()
                    invariant
                        k <= d.services@.len(),
                        base == d.services@,
                        un == crate::text::views(used@),
                        services@.map_values(|x: ServiceDecl| x@) == services_used(base, un, k as nat).map_values(|x: ServiceDecl| x@),
                        service_names(services@) == service_names(services_used(base, un, k as nat)),
                    decreases d.services.len() - k,
                {
                    let ghost prev = services@;
                    if crate::text::strings_contain(used.as_slice(), d.services[k].service_name.as_str()) {
                        services.push(d.services[k].duplicate());
                        assert(services@.map_values(|x: ServiceDecl| x@) =~= prev.map_values(|x: ServiceDecl| x@).push(d.services@[k as int]@));
                        assert(service_names(services@) =~= service_names(prev).push(d.services@[k as int].service_name@));
                    }
                    k = k + 1;
                    assert(services@.map_values(|x: ServiceDecl| x@) =~= services_used(base, un, k as nat).map_values(|x: ServiceDecl| x@));
                    assert(service_names(services@) =~= service_names(services_used(base, un, k as nat)));
                }
            },
            None => {
                assert(services@.map_values(|x: ServiceDecl| x@) =~= services_used(base, un, 0).map_values(|x: ServiceDecl| x@));
                assert(service_names(services@) =~= service_names(services_used(base, un, 0)));
            },
        }
        let ghost ss = services_used(base, un, base.len());
        assert(services@.len() == services@.map_values(|x: ServiceDecl| x@).len());
        assert(ss.len() == ss.map_values(|x: ServiceDecl| x@).len());
        assert(inputs@.len() == inputs@.map_values(|x: InputDecl| x@).len());
        assert(base_inputs(*bundle).len() == base_inputs(*bundle).map_values(|x: InputDecl| x@).len());
        let data_dependencies = if services.len() == 0 && inputs.len() == 0 {
            None
        } else {
            let dd = DataDependencies { inputs, services };
            assert(dd@->Object_0 =~= view_deps(*bundle, un)->0->Object_0);
            Some(dd)
        };
        let mut entries: Vec<BundleEntry> = Vec::new();
        let mut i: usize = 0;
        while i < idx.len()
            invariant
                i <= idx@.len(),
                sel == at_positions(bundle.entries@, idx@),
                forall|k: int| 0 <= k < idx@.len() ==> #[trigger] idx@[k] < bundle.entries@.len(),
                entry_docs(entries@) == entry_docs(sel.take(i as int)),
                entries@.len() == i,
                forall|k: int| 0 <= k < i ==> same_entry(#[trigger] entries@[k], sel[k]),
            decreases idx.len() - i,
        {
            let ghost prev = entries@;
            entries.push(bundle.entries[idx[i]].duplicate());
            assert(same_entry(entries@[i as int], sel[i as int]));
            assert(entry_docs(entries@) =~= entry_docs(prev).push(sel[i as int]@));
            assert(sel.take(i + 1) =~= sel.take(i as int).push(sel[i as int]));
            i = i + 1;
            assert(entry_docs(entries@) =~= entry_docs(sel.take(i as int)));
        }
        assert(sel.take(idx@.len() as int) =~= sel);
        let view_ref = ViewRef {
            original_dataset_id: bundle.dataset.dataset_id.clone(),
            view_of_version: bundle.audit.source_version.clone(),
        };
        let event_schemas = crate::dependency::copy_events(&bundle.dataset.event_schemas);
        let version_selection = match &bundle.dataset.version_selection {
            Some(s) => Some(s.duplicate()),
            None => None,
        };
        let law_ref = match &bundle.dataset.law_ref {
            Some(l) => Some(l.duplicate()),
            None => None,
        };
        let versioning = bundle.dataset.versioning.duplicate();
        let dataset = BundleDatasetMeta {
            dataset_id: bundle.dataset.dataset_id.clone(),
            name: bundle.dataset.name.clone(),
            tenant_id: bundle.dataset.tenant_id.clone(),
            instance_id: bundle.dataset.instance_id.clone(),
            versioning,
            version_selection,
            law_ref,
            view_of: Some(view_ref),
            event_schemas,
        };
        assert(dataset@->Object_0 =~= bundle.dataset.json_with_view(Some(view_ref_doc(*bundle)))->Object_0);
        let mut bundle_id = bundle.bundle_id.clone();
        bundle_id.append("_view");
        let audit = BundleAudit {
            exported_at: String::from_str(at),
            exported_by: String::from_str(by),
            source_version: bundle.audit.source_version.clone(),
            content_hash: String::new(),
            hash_algo: bundle.audit.hash_algo.clone(),
        };
        let mut view = DatasetBundle {
            bundle_schema_version: bundle.bundle_schema_version.clone(),
            bundle_id,
            dataset,
            entries,
            data_dependencies,
            tests: bundle.tests.duplicate(),
            audit,
        };
        let hash = view.compute_content_hash();
        let ghost before = view;
        view.audit.content_hash = hash;
        assert(view.canonical() == before.canonical());
        assert(first_undeclared(used_names(sel), declared_of(*bundle)) is None);
        assert(declared_of(view) == service_names(services_used(base_services(*bundle), used_names(sel), base_services(*bundle).len())));
        Ok(view)
    }
}

} // verus!
