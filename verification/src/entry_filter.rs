//! Entry queries: `;`-separated segments `kind:value`, all of which an entry must match.
//! Segments: `tag:x` (some tag equals x), `domain:x` (domain equals x), `ids:a,b`
//! (entry id among the comma-separated ids), `kind:rule|knowledge`, and `q:x` (x occurs
//! in the entry id, the domain, a tag, or the compact text of the body). Empty segments
//! are skipped; a malformed segment rejects the whole query.

use vstd::prelude::*;
use crate::bundle::{BundleEntry, BundleError, EntryKind, Rejection};
use crate::json::Duplicate;
use crate::text::{first_pos, has_infix, split_on, trimmed};
use crate::trim::kept;

verus! {

/// A query segment: its kind and its value.
pub type Segment = (Seq<char>, Seq<char>);

/// The reading of one `;`-separated piece: skipped (empty), malformed, or a segment.
pub enum PieceReading {
    Skip,
    Bad(Seq<char>),
    Seg(Seq<char>, Seq<char>),
}

/// The segment kinds a query knows.
pub open spec fn known_kind(k: Seq<char>) -> bool {
    k == "tag"@ || k == "domain"@ || k == "ids"@ || k == "q"@ || k == "kind"@
}

/// How one piece of a query reads.
pub open spec fn read_piece(p: Seq<char>) -> PieceReading {
    let t = trimmed(p);
    if t.len() == 0 {
        PieceReading::Skip
    } else {
        match first_pos(t, ':') {
            None => PieceReading::Bad(t),
            Some(k) => {
                let kind = t.take(k as int);
                let value = trimmed(t.skip(k + 1 as int));
                if value.len() == 0 || !known_kind(kind) || (kind == "kind"@ && value != "rule"@ && value != "knowledge"@) {
                    PieceReading::Bad(t)
                } else {
                    PieceReading::Seg(kind, value)
                }
            },
        }
    }
}

/// The segments of the first `n` pieces, or the first malformed piece.
pub open spec fn read_pieces(pieces: Seq<Seq<char>>, n: nat) -> Result<Seq<Segment>, Seq<char>>
    decreases n,
{
    if n == 0 || n > pieces.len() {
        Ok(Seq::empty())
    } else {
        match read_pieces(pieces, (n - 1) as nat) {
            Err(b) => Err(b),
            Ok(segs) => match read_piece(pieces[n - 1]) {
                PieceReading::Skip => Ok(segs),
                PieceReading::Bad(b) => Err(b),
                PieceReading::Seg(k, v) => Ok(segs.push((k, v))),
            },
        }
    }
}

proof fn lemma_read_stays(pieces: Seq<Seq<char>>, k: nat, n: nat)
    requires
        k <= n <= pieces.len(),
        read_pieces(pieces, k) is Err,
    ensures
        read_pieces(pieces, n) == read_pieces(pieces, k),
    decreases n - k,
{
    if k < n {
        lemma_read_stays(pieces, k, (n - 1) as nat);
    }
}

/// The segments of a query, or the first malformed segment (trimmed).
pub open spec fn read_query(q: Seq<char>) -> Result<Seq<Segment>, Seq<char>> {
    let pieces = split_on(q, ';');
    read_pieces(pieces, pieces.len())
}

/// Whether `id` is among the comma-separated ids of `list` (each trimmed, empty ones ignored).
pub open spec fn id_listed(list: Seq<char>, id: Seq<char>) -> bool {
    id.len() > 0 && exists|i: int| 0 <= i < split_on(list, ',').len() && trimmed(#[trigger] split_on(list, ',')[i]) == id
}

/// Whether an entry matches one segment.
pub open spec fn segment_matches(e: BundleEntry, kind: Seq<char>, value: Seq<char>) -> bool {
    if kind == "tag"@ {
        crate::text::views(e.tags@).contains(value)
    } else if kind == "domain"@ {
        e.domain@ == value
    } else if kind == "ids"@ {
        id_listed(value, e.entry_id@)
    } else if kind == "kind"@ {
        if value == "rule"@ {
            e.entry_kind == EntryKind::Rule
        } else {
            e.entry_kind == EntryKind::Knowledge
        }
    } else if kind == "q"@ {
        has_infix(e.entry_id@, value) || has_infix(e.domain@, value)
            || (exists|i: int| 0 <= i < e.tags@.len() && has_infix(#[trigger] e.tags@[i]@, value))
            || has_infix(crate::json::json_text(e.rule_body@), value)
    } else {
        false
    }
}

/// Whether an entry matches every segment.
pub open spec fn matches_all(e: BundleEntry, segs: Seq<Segment>) -> bool {
    forall|i: int| 0 <= i < segs.len() ==> segment_matches(e, #[trigger] segs[i].0, segs[i].1)
}

/// The entries among the first `n` that match every segment, in order.
pub open spec fn matching(entries: Seq<BundleEntry>, segs: Seq<Segment>, n: nat) -> Seq<BundleEntry>
    decreases n,
{
    if n == 0 || n > entries.len() {
        Seq::empty()
    } else {
        let prev = matching(entries, segs, (n - 1) as nat);
        if matches_all(entries[n - 1], segs) {
            prev.push(entries[n - 1])
        } else {
            prev
        }
    }
}

/// Filtering by segments is selection by `matches_all`: `matching` keeps, in order,
/// exactly the entries that match every segment (see `lemma_kept_positions`).
pub proof fn lemma_matching_is_kept(entries: Seq<BundleEntry>, segs: Seq<Segment>, n: nat)
    ensures
        matching(entries, segs, n) == kept(entries, |e: BundleEntry| matches_all(e, segs), n),
    decreases n,
{
    if n > 0 && n <= entries.len() {
        lemma_matching_is_kept(entries, segs, (n - 1) as nat);
    }
}

/// A query without segments keeps every entry.
pub proof fn lemma_no_segments_keep_all(entries: Seq<BundleEntry>, n: nat)
    requires
        n <= entries.len(),
    ensures
        matching(entries, Seq::empty(), n) == entries.take(n as int),
    decreases n,
{
    if n > 0 {
        lemma_no_segments_keep_all(entries, (n - 1) as nat);
        assert(entries.take(n as int) =~= entries.take(n - 1).push(entries[n - 1]));
    }
}

/// The empty query reads as no segments.
pub proof fn lemma_empty_query()
    ensures
        read_query(Seq::empty()) == Ok::<Seq<Segment>, Seq<char>>(Seq::empty()),
{
    let pieces = split_on(Seq::empty(), ';');
    assert(pieces =~= seq![Seq::<char>::empty()]);
    assert(trimmed(Seq::<char>::empty()) =~= Seq::<char>::empty());
    assert(read_piece(pieces[0]) is Skip);
    assert(read_pieces(pieces, 0) == Ok::<Seq<Segment>, Seq<char>>(Seq::empty()));
}

/// An entry matches the segments `s1 + s2` exactly when it matches `s1` and matches `s2`.
pub proof fn lemma_matches_all_join(e: BundleEntry, s1: Seq<Segment>, s2: Seq<Segment>)
    ensures
        matches_all(e, s1 + s2) == (matches_all(e, s1) && matches_all(e, s2)),
{
    let s = s1 + s2;
    if matches_all(e, s) {
        assert forall|i: int| 0 <= i < s1.len() implies segment_matches(e, #[trigger] s1[i].0, s1[i].1) by {
            assert(s[i] == s1[i]);
        }
        assert forall|i: int| 0 <= i < s2.len() implies segment_matches(e, #[trigger] s2[i].0, s2[i].1) by {
            assert(s[s1.len() + i] == s2[i]);
        }
    }
    if matches_all(e, s1) && matches_all(e, s2) {
        assert forall|i: int| 0 <= i < s.len() implies segment_matches(e, #[trigger] s[i].0, s[i].1) by {
            if i < s1.len() {
                assert(s[i] == s1[i]);
            } else {
                assert(s[i] == s2[i - s1.len()]);
            }
        }
    }
}

proof fn lemma_read_prefix(p: Seq<Seq<char>>, q: Seq<Seq<char>>, n: nat)
    requires
        n <= p.len(),
    ensures
        read_pieces(p + q, n) == read_pieces(p, n),
    decreases n,
{
    if n > 0 {
        lemma_read_prefix(p, q, (n - 1) as nat);
        assert((p + q)[n - 1] == p[n - 1]);
    }
}

proof fn lemma_read_concat(p: Seq<Seq<char>>, q: Seq<Seq<char>>, m: nat)
    requires
        m <= q.len(),
    ensures
        read_pieces(p + q, p.len() + m) == (match read_pieces(p, p.len()) {
            Err(b) => Err(b),
            Ok(s1) => match read_pieces(q, m) {
                Err(b) => Err(b),
                Ok(s2) => Ok(s1 + s2),
            },
        }),
    decreases m,
{
    if m == 0 {
        lemma_read_prefix(p, q, p.len());
        match read_pieces(p, p.len()) {
            Err(_) => {},
            Ok(s1) => {
                assert(s1 + Seq::<Segment>::empty() =~= s1);
            },
        }
    } else {
        lemma_read_concat(p, q, (m - 1) as nat);
        assert((p + q)[p.len() + m - 1] == q[m - 1]);
        match read_pieces(p, p.len()) {
            Err(_) => {},
            Ok(s1) => match read_pieces(q, (m - 1) as nat) {
                Err(_) => {},
                Ok(s2) => match read_piece(q[m - 1]) {
                    PieceReading::Seg(k, v) => {
                        assert((s1 + s2).push((k, v)) =~= s1 + s2.push((k, v)));
                    },
                    _ => {},
                },
            },
        }
    }
}

/// Joining two queries with `;` reads as the segments of the first followed by those of
/// the second; a malformed segment of the first, else of the second, is reported.
pub proof fn lemma_query_join(q1: Seq<char>, q2: Seq<char>)
    ensures
        read_query(q1 + seq![';'] + q2) == (match read_query(q1) {
            Err(b) => Err(b),
            Ok(s1) => match read_query(q2) {
                Err(b) => Err(b),
                Ok(s2) => Ok(s1 + s2),
            },
        }),
{
    crate::text::lemma_split_join(q1, q2, ';');
    let p = split_on(q1, ';');
    let q = split_on(q2, ';');
    lemma_read_concat(p, q, q.len());
}

/// An entry matches `ids:<list>` exactly when its id is not empty and equals one of the
/// comma-separated pieces of the list, each with its surrounding white space removed.
pub proof fn lemma_ids_segment_exact(e: BundleEntry, list: Seq<char>)
    ensures
        segment_matches(e, "ids"@, list) <==> (e.entry_id@.len() > 0
            && exists|i: int| 0 <= i < split_on(list, ',').len() && trimmed(#[trigger] split_on(list, ',')[i]) == e.entry_id@),
{
    reveal_strlit("ids");
    reveal_strlit("tag");
    reveal_strlit("domain");
    assert("ids"@ != "tag"@) by {
        assert("ids"@[0] != "tag"@[0]);
    }
    assert("ids"@ != "domain"@) by {
        assert("ids"@.len() != "domain"@.len());
    }
    assert(segment_matches(e, "ids"@, list) == id_listed(list, e.entry_id@));
}

/// What each other segment kind asks of an entry: `tag:x` that one of its tags is x,
/// `domain:x` that its domain is x, `kind:rule` / `kind:knowledge` its kind, and `q:x`
/// that x occurs in its id, its domain, one of its tags or the compact text of its body.
pub proof fn lemma_segment_kinds(e: BundleEntry, value: Seq<char>)
    ensures
        segment_matches(e, "tag"@, value) <==> exists|i: int| 0 <= i < e.tags@.len() && (#[trigger] e.tags@[i])@ == value,
        segment_matches(e, "domain"@, value) <==> e.domain@ == value,
        segment_matches(e, "kind"@, "rule"@) <==> e.entry_kind == EntryKind::Rule,
        segment_matches(e, "kind"@, "knowledge"@) <==> e.entry_kind == EntryKind::Knowledge,
        segment_matches(e, "q"@, value) <==> (has_infix(e.entry_id@, value) || has_infix(e.domain@, value)
            || (exists|i: int| 0 <= i < e.tags@.len() && has_infix((#[trigger] e.tags@[i])@, value))
            || has_infix(crate::json::json_text(e.rule_body@), value)),
{
    reveal_strlit("ids");
    reveal_strlit("tag");
    reveal_strlit("domain");
    reveal_strlit("kind");
    reveal_strlit("q");
    reveal_strlit("rule");
    reveal_strlit("knowledge");
    assert("domain"@ != "tag"@) by { assert("domain"@.len() != "tag"@.len()); }
    assert("kind"@ != "tag"@) by { assert("kind"@.len() != "tag"@.len()); }
    assert("kind"@ != "domain"@) by { assert("kind"@.len() != "domain"@.len()); }
    assert("kind"@ != "ids"@) by { assert("kind"@.len() != "ids"@.len()); }
    assert("q"@ != "tag"@) by { assert("q"@.len() != "tag"@.len()); }
    assert("q"@ != "domain"@) by { assert("q"@.len() != "domain"@.len()); }
    assert("q"@ != "ids"@) by { assert("q"@.len() != "ids"@.len()); }
    assert("q"@ != "kind"@) by { assert("q"@.len() != "kind"@.len()); }
    assert("knowledge"@ != "rule"@) by { assert("knowledge"@.len() != "rule"@.len()); }
    if segment_matches(e, "tag"@, value) {
        let t = choose|t: int| 0 <= t < crate::text::views(e.tags@).len() && crate::text::views(e.tags@)[t] == value;
        assert(e.tags@[t]@ == value);
    }
    if exists|i: int| 0 <= i < e.tags@.len() && (#[trigger] e.tags@[i])@ == value {
        let t = choose|t: int| 0 <= t < e.tags@.len() && (#[trigger] e.tags@[t])@ == value;
        assert(crate::text::views(e.tags@)[t] == value);
    }
}

/// With a single id (no comma, no surrounding white space), `ids:<id>` matches an entry
/// exactly when the entry's id is that id: an id is never matched by another id that it
/// starts with or that starts with it.
pub proof fn lemma_single_id(e: BundleEntry, id: Seq<char>)
    requires
        id.len() > 0,
        !id.contains(','),
        trimmed(id) == id,
    ensures
        segment_matches(e, "ids"@, id) <==> e.entry_id@ == id,
{
    lemma_ids_segment_exact(e, id);
    crate::text::lemma_split_without(id, ',');
    assert(split_on(id, ',')[0] == id);
}

/// The documents of a list of entries.
pub open spec fn entry_docs(s: Seq<BundleEntry>) -> Seq<crate::json::Json> {
    s.map_values(|e: BundleEntry| e@)
}

/// Entry query evaluation.
pub struct EntryFilter;

fn str_eq_lit(s: &Vec<char>, lit: &str) -> (r: bool)
    ensures
        r == (s@ == lit@),
{
    let l = crate::text::chars_of(lit);
    if s.len() != l.len() {
        return false;
    }
    let r = crate::text::chars_start_with(s.as_slice(), l.as_slice());
    assert(s@.take(l@.len() as int) =~= s@);
    r
}

impl EntryFilter {
    fn read_all(spec: &str) -> (r: Result<Vec<(String, String)>, String>)
        ensures
            match (r, read_query(spec@)) {
                (Ok(v), Ok(segs)) => v@.map_values(|p: (String, String)| (p.0@, p.1@)) == segs,
                (Err(b), Err(t)) => b@ == t,
                _ => false,
            },
    {
        let cs = crate::text::chars_of(spec);
        let pieces = crate::text::split_chars(cs.as_slice(), ';');
        let ghost ps = split_on(spec@, ';');
        let mut segs: Vec<(String, String)> = Vec::new();
        let mut i: usize = 0;
        while i < pieces.len()
            invariant
                i <= pieces@.len(),
                ps == split_on(spec@, ';'),
                pieces@.len() == ps.len(),
                forall|k: int| 0 <= k < pieces@.len() ==> #[trigger] pieces@[k]@ == ps[k],
                read_pieces(ps, i as nat) matches Ok(sv) && segs@.map_values(|p: (String, String)| (p.0@, p.1@)) == sv,
            decreases pieces.len() - i,
        {
            assert(pieces@[i as int]@ == ps[i as int]);
            match Self::read_one(&pieces[i]) {
                Err(b) => {
                    proof {
                        lemma_read_stays(ps, (i + 1) as nat, ps.len());
                    }
                    return Err(b);
                },
                Ok(None) => {},
                Ok(Some(seg)) => {
                    segs.push(seg);
                },
            }
            i = i + 1;
            proof {
                let sv = read_pieces(ps, i as nat)->Ok_0;
                assert(segs@.map_values(|p: (String, String)| (p.0@, p.1@)) =~= sv);
            }
        }
        Ok(segs)
    }

    fn id_listed_exec(list: &str, id: &str) -> (r: bool)
        ensures
            r == id_listed(list@, id@),
    {
        if id.is_empty() {
            return false;
        }
        let cs = crate::text::chars_of(list);
        let pieces = crate::text::split_chars(cs.as_slice(), ',');
        let idc = crate::text::chars_of(id);
        let mut i: usize = 0;
        while i < pieces.len()
            invariant
                i <= pieces@.len(),
                id@.len() > 0,
                idc@ == id@,
                pieces@.len() == split_on(list@, ',').len(),
                forall|k: int| 0 <= k < pieces@.len() ==> #[trigger] pieces@[k]@ == split_on(list@, ',')[k],
                forall|k: int| 0 <= k < i ==> trimmed(#[trigger] split_on(list@, ',')[k]) != id@,
            decreases pieces.len() - i,
        {
            let t = crate::text::trim_chars(pieces[i].as_slice());
            assert(pieces@[i as int]@ == split_on(list@, ',')[i as int]);
            if str_eq_lit(&t, id) {
                return true;
            }
            i = i + 1;
        }
        false
    }

    fn segment_matches_exec(e: &BundleEntry, kind: &str, value: &str) -> (r: bool)
        ensures
            r == segment_matches(*e, kind@, value@),
    {
        let kc = crate::text::chars_of(kind);
        proof {
            reveal_strlit("tag");
            reveal_strlit("domain");
            reveal_strlit("ids");
            reveal_strlit("kind");
            reveal_strlit("q");
        }
        if str_eq_lit(&kc, "tag") {
            let mut i: usize = 0;
            while i < e.tags.len()
                invariant
                    i <= e.tags@.len(),
                    kind@ == "tag"@,
                    forall|k: int| 0 <= k < i ==> (#[trigger] e.tags@[k])@ != value@,
                decreases e.tags.len() - i,
            {
                if crate::text::str_eq(e.tags[i].as_str(), value) {
                    assert(crate::text::views(e.tags@)[i as int] == value@);
                    assert(crate::text::views(e.tags@).contains(value@));
                    return true;
                }
                i = i + 1;
            }
            return false;
        }
        if str_eq_lit(&kc, "domain") {
            return crate::text::str_eq(e.domain.as_str(), value);
        }
        if str_eq_lit(&kc, "ids") {
            return Self::id_listed_exec(value, e.entry_id.as_str());
        }
        if str_eq_lit(&kc, "kind") {
            let vc = crate::text::chars_of(value);
            if str_eq_lit(&vc, "rule") {
                return e.entry_kind == EntryKind::Rule;
            } else {
                return e.entry_kind == EntryKind::Knowledge;
            }
        }
        if str_eq_lit(&kc, "q") {
            if crate::text::str_contains(e.entry_id.as_str(), value) || crate::text::str_contains(e.domain.as_str(), value) {
                return true;
            }
            let mut i: usize = 0;
            while i < e.tags.len()
                invariant
                    i <= e.tags@.len(),
                    kind@ == "q"@,
                    "q"@ != "tag"@ && "q"@ != "domain"@ && "q"@ != "ids"@ && "q"@ != "kind"@,
                    !has_infix(e.entry_id@, value@),
                    !has_infix(e.domain@, value@),
                    forall|k: int| 0 <= k < i ==> !has_infix(#[trigger] e.tags@[k]@, value@),
                decreases e.tags.len() - i,
            {
                if crate::text::str_contains(e.tags[i].as_str(), value) {
                    assert(has_infix(e.tags@[i as int]@, value@));
                    return true;
                }
                i = i + 1;
            }
            let body = crate::json::to_json_text(&e.rule_body);
            return crate::text::str_contains(body.as_str(), value);
        }
        false
    }

    /// Parses the query and applies it: the entries matching every segment, in their
    /// order. The whole query is checked before any entry is looked at, so a malformed
    /// segment rejects it whatever the entries.
    pub fn apply(entries: &[BundleEntry], spec: &str) -> (r: Result<Vec<BundleEntry>, BundleError>)
        ensures
            match (r, read_query(spec@)) {
                (Ok(out), Ok(segs)) => entry_docs(out@) == entry_docs(matching(entries@, segs, entries@.len())),
                (Err(e), Err(b)) => e@ == Rejection::BadFilterSegment(b),
                _ => false,
            },
    {
        let segs = match Self::read_all(spec) {
            Err(b) => {
                return Err(BundleError::BadFilterSegment(b));
            },
            Ok(v) => v,
        };
        let ghost sv = segs@.map_values(|p: (String, String)| (p.0@, p.1@));
        let mut out: Vec<BundleEntry> = Vec::new();
        let mut i: usize = 0;
        while i < entries.len()
            invariant
                i <= entries@.len(),
                sv == segs@.map_values(|p: (String, String)| (p.0@, p.1@)),
                entry_docs(out@) == entry_docs(matching(entries@, sv, i as nat)),
            decreases entries.len() - i,
        {
            let mut all = true;
            let mut k: usize = 0;
            while k < segs.len()
                invariant
                    k <= segs@.len(),
                    i < entries@.len(),
                    sv == segs@.map_values(|p: (String, String)| (p.0@, p.1@)),
                    all == forall|t: int| 0 <= t < k ==> segment_matches(entries@[i as int], #[trigger] sv[t].0, sv[t].1),
                decreases segs.len() - k,
            {
                let (kind, value) = &segs[k];
                assert(sv[k as int] == (kind@, value@));
                let m = Self::segment_matches_exec(&entries[i], kind.as_str(), value.as_str());
                if !m {
                    all = false;
                }
                assert(m == segment_matches(entries@[i as int], sv[k as int].0, sv[k as int].1));
                k = k + 1;
            }
            assert(all == matches_all(entries@[i as int], sv));
            let ghost prev = out@;
            if all {
                let d = entries[i].duplicate();
                out.push(d);
                assert(entry_docs(out@) =~= entry_docs(prev).push(entries@[i as int]@));
            }
            i = i + 1;
            assert(entry_docs(out@) =~= entry_docs(matching(entries@, sv, i as nat)));
        }
        Ok(out)
    }

    fn read_one(piece: &Vec<char>) -> (r: Result<Option<(String, String)>, String>)
        ensures
            match (r, read_piece(piece@)) {
                (Ok(None), PieceReading::Skip) => true,
                (Err(b), PieceReading::Bad(t)) => b@ == t,
                (Ok(Some((k, v))), PieceReading::Seg(kk, vv)) => k@ == kk && v@ == vv,
                _ => false,
            },
    {
        let t = crate::text::trim_chars(piece.as_slice());
        if t.len() == 0 {
            return Ok(None);
        }
        let pos = crate::text::find_char(t.as_slice(), ':');
        let k = match pos {
            None => {
                return Err(crate::text::string_of(t.as_slice()));
            },
            Some(k) => k,
        };
        proof {
            crate::text::lemma_first_pos_contains(t@, ':');
        }
        let mut kind: Vec<char> = Vec::new();
        let mut i: usize = 0;
        while i < k
            invariant
                i <= k < t@.len(),
                kind@ == t@.take(i as int),
            decreases k - i,
        {
            kind.push(t[i]);
            i = i + 1;
            assert(kind@ =~= t@.take(i as int));
        }
        let mut rest: Vec<char> = Vec::new();
        let mut j: usize = k + 1;
        while j < t.len()
            invariant
                k + 1 <= j <= t@.len(),
                rest@ == t@.subrange(k + 1, j as int),
            decreases t@.len() - j,
        {
            rest.push(t[j]);
            j = j + 1;
            assert(rest@ =~= t@.subrange(k + 1, j as int));
        }
        assert(rest@ =~= t@.skip(k + 1));
        let value = crate::text::trim_chars(rest.as_slice());
        let is_kind = str_eq_lit(&kind, "kind");
        let known = str_eq_lit(&kind, "tag") || str_eq_lit(&kind, "domain") || str_eq_lit(&kind, "ids")
            || str_eq_lit(&kind, "q") || is_kind;
        let kind_ok = !is_kind || str_eq_lit(&value, "rule") || str_eq_lit(&value, "knowledge");
        if value.len() == 0 || !known || !kind_ok {
            return Err(crate::text::string_of(t.as_slice()));
        }
        Ok(Some((crate::text::string_of(kind.as_slice()), crate::text::string_of(value.as_slice()))))
    }
}

} // verus!
