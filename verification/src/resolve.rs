//! Resolution of a pinned version selection against a version chain.

use vstd::prelude::*;
use crate::version::{Version, VersionSelection};

verus! {

/// Why a pinned selection could not be resolved.
#[derive(Debug, PartialEq, Eq)]
pub enum ResolveError {
    /// The selection names no version.
    MissingPinnedVersion,
    /// No version of the chain has this label.
    PinnedVersionNotFound { version: String },
}

/// The first position of the chain whose label is `label`.
pub open spec fn label_pos(c: Seq<Version>, label: Seq<char>, i: nat) -> Option<nat>
    decreases c.len() - i,
{
    if i >= c.len() {
        None
    } else if c[i as int].spec_label() == label {
        Some(i)
    } else {
        label_pos(c, label, i + 1)
    }
}

/// The last position among the first `n` whose version has major number `major`.
pub open spec fn last_of_major(c: Seq<Version>, major: u32, n: nat) -> Option<nat>
    decreases n,
{
    if n == 0 || n > c.len() {
        None
    } else if c[n - 1].major == major {
        Some((n - 1) as nat)
    } else {
        last_of_major(c, major, (n - 1) as nat)
    }
}

/// The label a pinned selection resolves to: the pinned version itself, or, when the
/// pin follows patches (the default), the latest version of the same major number.
pub open spec fn pinned_label(sel: VersionSelection, c: Seq<Version>) -> Option<Seq<char>> {
    match sel.pinned_version {
        None => None,
        Some(p) => match label_pos(c, p@, 0) {
            None => None,
            Some(k) => if sel.pinned_include_patch != Some(false) {
                match last_of_major(c, c[k as int].major, c.len()) {
                    Some(j) => Some(c[j as int].spec_label()),
                    None => Some(p@),
                }
            } else {
                Some(p@)
            },
        },
    }
}

pub(crate) proof fn lemma_label_pos(c: Seq<Version>, label: Seq<char>, i: nat)
    requires
        label_pos(c, label, i) is Some,
    ensures
        ({
            let k = label_pos(c, label, i)->0;
            i <= k < c.len() && c[k as int].spec_label() == label
        }),
    decreases c.len() - i,
{
    if i < c.len() && c[i as int].spec_label() != label {
        lemma_label_pos(c, label, i + 1);
    }
}

proof fn lemma_last_of_major(c: Seq<Version>, major: u32, n: nat)
    requires
        last_of_major(c, major, n) is Some,
    ensures
        ({
            let j = last_of_major(c, major, n)->0;
            &&& j < n <= c.len()
            &&& c[j as int].major == major
            &&& forall|t: int| j < t < n ==> (#[trigger] c[t]).major != major
        }),
    decreases n,
{
    if c[n - 1].major != major {
        lemma_last_of_major(c, major, (n - 1) as nat);
    }
}

/// A pinned selection resolves to the label of a version of the chain that has the
/// pinned version's major number; when the pin follows patches (the default) no later
/// version of the chain has that major number.
pub proof fn lemma_pinned_resolves_in_chain(sel: VersionSelection, c: Seq<Version>)
    requires
        pinned_label(sel, c) is Some,
    ensures
        ({
            let p = sel.pinned_version->0@;
            let k = label_pos(c, p, 0)->0;
            exists|j: int| #![trigger c[j]]
                0 <= j < c.len() && c[j].spec_label() == pinned_label(sel, c)->0 && c[j].major == c[k as int].major
                && (sel.pinned_include_patch != Some(false) ==> forall|t: int| j < t < c.len() ==> (#[trigger] c[t]).major != c[k as int].major)
        }),
{
    let p = sel.pinned_version->0@;
    lemma_label_pos(c, p, 0);
    let k = label_pos(c, p, 0)->0;
    if sel.pinned_include_patch != Some(false) {
        let major = c[k as int].major;
        if last_of_major(c, major, c.len()) is Some {
            lemma_last_of_major(c, major, c.len());
            let j = last_of_major(c, major, c.len())->0;
            assert(c[j as int].spec_label() == pinned_label(sel, c)->0);
        } else {
            lemma_some_of_major(c, major, c.len(), k);
        }
    } else {
        assert(c[k as int].spec_label() == pinned_label(sel, c)->0);
    }
}

proof fn lemma_some_of_major(c: Seq<Version>, major: u32, n: nat, k: nat)
    requires
        k < n <= c.len(),
        c[k as int].major == major,
    ensures
        last_of_major(c, major, n) is Some,
    decreases n,
{
    if c[n - 1].major != major {
        lemma_some_of_major(c, major, (n - 1) as nat, k);
    }
}

/// Version resolution.
pub struct VersionResolver;

impl VersionResolver {
    fn find_label(chain: &Vec<Version>, p: &str) -> (r: Option<usize>)
        ensures
            match r {
                Some(k) => label_pos(chain@, p@, 0) == Some(k as nat) && k < chain@.len(),
                None => label_pos(chain@, p@, 0) is None,
            },
    {
        let n = chain.len();
        let mut i: usize = 0;
        while i < n
            invariant
                i <= n,
                n == chain@.len(),
                label_pos(chain@, p@, 0) == label_pos(chain@, p@, i as nat),
            decreases n - i,
        {
            let l = chain[i].label();
            if crate::text::str_eq(l.as_str(), p) {
                return Some(i);
            }
            i = i + 1;
        }
        None
    }

    /// Resolves a pinned selection against the chain.
    pub fn resolve_pinned(sel: &VersionSelection, chain: &Vec<Version>) -> (r: Result<String, ResolveError>)
        ensures
            sel.pinned_version is None ==> r == Err::<String, ResolveError>(ResolveError::MissingPinnedVersion),
            match sel.pinned_version {
                Some(p) => label_pos(chain@, p@, 0) is None ==> r == Err::<String, ResolveError>(
                    ResolveError::PinnedVersionNotFound { version: p },
                ),
                None => true,
            },
            pinned_label(*sel, chain@) matches Some(l) ==> r matches Ok(s) && s@ == l,
    {
        let p = match &sel.pinned_version {
            None => {
                return Err(ResolveError::MissingPinnedVersion);
            },
            Some(p) => p,
        };
        let n = chain.len();
        let found = Self::find_label(chain, p.as_str());
        let k = match found {
            None => {
                return Err(ResolveError::PinnedVersionNotFound { version: p.clone() });
            },
            Some(k) => k,
        };
        if sel.pinned_include_patch == Some(false) {
            return Ok(p.clone());
        }
        let major = chain[k].major;
        let mut j: usize = n;
        while j > 0
            invariant
                j <= n,
                n == chain@.len(),
                k < n,
                sel.pinned_version == Some(*p),
                label_pos(chain@, p@, 0) == Some(k as nat),
                major == chain@[k as int].major,
                sel.pinned_include_patch != Some(false),
                last_of_major(chain@, major, n as nat) == last_of_major(chain@, major, j as nat),
            decreases j,
        {
            if chain[j - 1].major == major {
                return Ok(chain[j - 1].label());
            }
            j = j - 1;
        }
        Ok(p.clone())
    }
}

} // verus!
