//! Dataset versions: the version chain, how a new version is cut from the last one, how
//! a run picks a version, and the law a dataset implements.

use vstd::prelude::*;
use crate::json::{dup_opt_str, Duplicate, json_object, json_opt_str, json_str, opt_member, opt_str_json, push_member, push_opt_member, Json, JsonValue, ToJson};
use crate::text::decimal;

verus! {

/// A dataset version: a major number and a patch number within it.
#[derive(Debug, Clone, Copy, PartialEq, Eq)]
pub struct Version {
    pub major: u32,
    pub patch: u32,
}

impl Version {
    /// The label: `v{major}` for a major release, `v{major}.p{patch}` for a patch.
    pub open spec fn spec_label(self) -> Seq<char> {
        "v"@ + decimal(self.major as nat) + if self.patch == 0 {
            Seq::empty()
        } else {
            ".p"@ + decimal(self.patch as nat)
        }
    }

    /// The document of this version: its major and patch numbers.
    pub open spec fn doc(self) -> Json {
        Json::Object(
            seq![
                ("major"@, Json::Number(decimal(self.major as nat))),
                ("patch"@, Json::Number(decimal(self.patch as nat))),
            ],
        )
    }

    /// The document of this version.
    pub fn to_json(&self) -> (r: JsonValue)
        ensures
            r@ == self.doc(),
    {
        let mut m: Vec<(String, JsonValue)> = Vec::new();
        push_member(&mut m, "major", JsonValue::Number(crate::text::decimal_string(self.major as u64)));
        push_member(&mut m, "patch", JsonValue::Number(crate::text::decimal_string(self.patch as u64)));
        assert(crate::json::members_of(m@) =~= self.doc()->Object_0);
        json_object(m)
    }

    /// The label of this version.
    pub fn label(&self) -> (r: String)
        ensures
            r@ == self.spec_label(),
    {
        let mut s = String::from_str("v");
        let m = crate::text::decimal_string(self.major as u64);
        s.append(m.as_str());
        if self.patch != 0 {
            s.append(".p");
            let p = crate::text::decimal_string(self.patch as u64);
            s.append(p.as_str());
        }
        s
    }
}

/// Whether `b` is cut from `a`: the next patch of the same major, or the next major.
pub open spec fn is_successor(a: Version, b: Version) -> bool {
    (b.major == a.major && b.patch == a.patch + 1) || (b.major == a.major + 1 && b.patch == 0)
}

/// Errors of the version chain.
#[derive(Debug, Clone, Copy, PartialEq, Eq)]
pub enum VersionError {
    /// The chain holds no version.
    EmptyChain,
    /// The chain does not start at `v1`.
    BadStart,
    /// The version at this position is not cut from the one before it.
    BrokenChain { position: usize },
    /// The next version number does not fit.
    Overflow,
}

/// Which number a new version advances.
#[derive(Debug, Clone, Copy, PartialEq, Eq, Structural)]
pub enum BumpKind {
    Major,
    Patch,
}

/// The version chain of a dataset, oldest first.
#[derive(Debug)]
pub struct Versioning {
    pub chain: Vec<Version>,
}

impl View for Versioning {
    type V = Json;

    open spec fn view(&self) -> Json {
        Json::Object(seq![("chain"@, Json::Array(self.chain@.map_values(|v: Version| v.doc())))])
    }
}

impl ToJson for Versioning {
    fn to_json(&self) -> (r: JsonValue) {
        let mut items: Vec<JsonValue> = Vec::new();
        let mut i: usize = 0;
        while i < self.chain.len()
            invariant
                i <= self.chain@.len(),
                items@.len() == i,
                forall|k: int| 0 <= k < i ==> (#[trigger] items@[k])@ == self.chain@[k].doc(),
            decreases self.chain.len() - i,
        {
            items.push(self.chain[i].to_json());
            i = i + 1;
        }
        proof {
            crate::json::lemma_array_model(items);
            assert(items@.map_values(|x: JsonValue| x@) =~= self.chain@.map_values(|v: Version| v.doc()));
        }
        let mut m: Vec<(String, JsonValue)> = Vec::new();
        push_member(&mut m, "chain", JsonValue::Array(items));
        assert(crate::json::members_of(m@) =~= self@->Object_0);
        json_object(m)
    }
}

/// Verdict on a chain: it starts at `v1` and every version is cut from the one before.
pub open spec fn chain_verdict(c: Seq<Version>) -> Result<(), VersionError> {
    if c.len() == 0 {
        Err(VersionError::EmptyChain)
    } else if c[0] != (Version { major: 1, patch: 0 }) {
        Err(VersionError::BadStart)
    } else {
        match first_break(c, 1) {
            Some(p) => Err(VersionError::BrokenChain { position: p as usize }),
            None => Ok(()),
        }
    }
}

/// The first position from `i` on whose version is not cut from the one before.
pub open spec fn first_break(c: Seq<Version>, i: nat) -> Option<nat>
    decreases c.len() - i,
{
    if i >= c.len() || i == 0 {
        None
    } else if !is_successor(c[i - 1], c[i as int]) {
        Some(i)
    } else {
        first_break(c, i + 1)
    }
}

/// The version cut from `v`.
pub open spec fn bumped(v: Version, kind: BumpKind) -> Option<Version> {
    match kind {
        BumpKind::Patch => if v.patch < u32::MAX { Some(Version { major: v.major, patch: (v.patch + 1) as u32 }) } else { None },
        BumpKind::Major => if v.major < u32::MAX { Some(Version { major: (v.major + 1) as u32, patch: 0 }) } else { None },
    }
}

proof fn lemma_first_break_push(c: Seq<Version>, v: Version, i: nat)
    requires
        1 <= i <= c.len(),
        first_break(c, i) is None,
        is_successor(c.last(), v),
    ensures
        first_break(c.push(v), i) is None,
    decreases c.len() - i,
{
    let d = c.push(v);
    assert(d[i - 1] == c[i - 1]);
    if i < c.len() {
        assert(d[i as int] == c[i as int]);
        lemma_first_break_push(c, v, i + 1);
    } else {
        assert(d[i as int] == v);
        assert(first_break(d, i + 1) is None);
    }
}

/// A fresh chain is valid, and cutting a version from the last one of a valid chain
/// keeps it valid.
pub proof fn lemma_bump_keeps_valid(c: Seq<Version>, kind: BumpKind)
    requires
        chain_verdict(c) is Ok,
        bumped(c.last(), kind) is Some,
    ensures
        chain_verdict(seq![Version { major: 1, patch: 0 }]) is Ok,
        chain_verdict(c.push(bumped(c.last(), kind)->0)) is Ok,
{
    let v = bumped(c.last(), kind)->0;
    if c.len() == 1 {
        assert(first_break(c, 1) is None);
    }
    lemma_first_break_push(c, v, 1);
    assert(c.push(v)[0] == c[0]);
    assert(first_break(seq![Version { major: 1, patch: 0 }], 1) is None);
}

impl Versioning {
    /// A chain holding only `v1`.
    pub fn new() -> (r: Versioning)
        ensures
            r.chain@ == seq![Version { major: 1, patch: 0 }],
    {
        let mut chain: Vec<Version> = Vec::new();
        chain.push(Version { major: 1, patch: 0 });
        Versioning { chain }
    }

    /// Checks the chain: non-empty, starting at `v1`, each version cut from the previous.
    pub fn validate(&self) -> (r: Result<(), VersionError>)
        ensures
            r == chain_verdict(self.chain@),
    {
        if self.chain.len() == 0 {
            return Err(VersionError::EmptyChain);
        }
        let first = self.chain[0];
        if first.major != 1 || first.patch != 0 {
            return Err(VersionError::BadStart);
        }
        let n = self.chain.len();
        let mut i: usize = 1;
        while i < n
            invariant
                1 <= i <= n,
                n == self.chain@.len(),
                self.chain@[0] == (Version { major: 1, patch: 0 }),
                first_break(self.chain@, 1) == first_break(self.chain@, i as nat),
            decreases n - i,
        {
            let a = self.chain[i - 1];
            let b = self.chain[i];
            let ok = (b.major == a.major && a.patch < u32::MAX && b.patch == a.patch + 1)
                || (a.major < u32::MAX && b.major == a.major + 1 && b.patch == 0);
            if !ok {
                assert(!is_successor(self.chain@[i - 1], self.chain@[i as int]));
                assert(first_break(self.chain@, i as nat) == Some(i as nat));
                return Err(VersionError::BrokenChain { position: i });
            }
            i = i + 1;
        }
        Ok(())
    }

    /// A new chain with one more version, cut from the last one.
    pub fn bump(&self, kind: BumpKind) -> (r: Result<Versioning, VersionError>)
        ensures
            self.chain@.len() == 0 ==> r == Err::<Versioning, VersionError>(VersionError::EmptyChain),
            self.chain@.len() > 0 ==> match bumped(self.chain@.last(), kind) {
                None => r == Err::<Versioning, VersionError>(VersionError::Overflow),
                Some(v) => r matches Ok(n) && n.chain@ == self.chain@.push(v),
            },
    {
        if self.chain.len() == 0 {
            return Err(VersionError::EmptyChain);
        }
        let last = self.chain[self.chain.len() - 1];
        let next = match kind {
            BumpKind::Patch => {
                if last.patch == u32::MAX {
                    return Err(VersionError::Overflow);
                }
                Version { major: last.major, patch: last.patch + 1 }
            },
            BumpKind::Major => {
                if last.major == u32::MAX {
                    return Err(VersionError::Overflow);
                }
                Version { major: last.major + 1, patch: 0 }
            },
        };
        let mut chain: Vec<Version> = Vec::new();
        let mut i: usize = 0;
        while i < self.chain.len()
            invariant
                i <= self.chain@.len(),
                chain@ == self.chain@.take(i as int),
            decreases self.chain.len() - i,
        {
            chain.push(self.chain[i]);
            i = i + 1;
            assert(chain@ =~= self.chain@.take(i as int));
        }
        assert(self.chain@.take(self.chain@.len() as int) =~= self.chain@);
        chain.push(next);
        Ok(Versioning { chain })
    }
}

impl Default for Versioning {
    fn default() -> (r: Versioning)
        ensures
            r.chain@ == seq![Version { major: 1, patch: 0 }],
    {
        Versioning::new()
    }
}

/// How a run picks the version of a dataset.
#[derive(Debug, Clone, Copy, PartialEq, Eq, Structural)]
pub enum VersionSelectionMode {
    /// A fixed version.
    Pinned,
    /// The version in force on the event date.
    AutoByEffectiveDate,
}

/// The JSON name of a selection mode.
pub open spec fn mode_name(m: VersionSelectionMode) -> Seq<char> {
    match m {
        VersionSelectionMode::Pinned => "pinned"@,
        VersionSelectionMode::AutoByEffectiveDate => "auto_by_effective_date"@,
    }
}

/// A version selection carried by a bundle.
#[derive(Debug)]
pub struct VersionSelection {
    pub mode: VersionSelectionMode,
    /// The pinned version label (for `Pinned`).
    pub pinned_version: Option<String>,
    /// Whether a pin follows the latest patch of its major version (default: yes).
    pub pinned_include_patch: Option<bool>,
}

impl View for VersionSelection {
    type V = Json;

    open spec fn view(&self) -> Json {
        Json::Object(
            seq![("mode"@, Json::Str(mode_name(self.mode)))]
                + opt_member("pinned_version"@, opt_str_json(self.pinned_version))
                + opt_member("pinned_include_patch"@, match self.pinned_include_patch {
                    Some(b) => Some(Json::Bool(b)),
                    None => None,
                }),
        )
    }
}

impl ToJson for VersionSelection {
    fn to_json(&self) -> (r: JsonValue) {
        let mut m: Vec<(String, JsonValue)> = Vec::new();
        let mode = match self.mode {
            VersionSelectionMode::Pinned => String::from_str("pinned"),
            VersionSelectionMode::AutoByEffectiveDate => String::from_str("auto_by_effective_date"),
        };
        push_member(&mut m, "mode", JsonValue::Str(mode));
        push_opt_member(&mut m, "pinned_version", json_opt_str(&self.pinned_version));
        let p = match self.pinned_include_patch {
            Some(b) => Some(JsonValue::Bool(b)),
            None => None,
        };
        push_opt_member(&mut m, "pinned_include_patch", p);
        assert(crate::json::members_of(m@) =~= self@->Object_0);
        json_object(m)
    }
}

/// The law a dataset implements and the period it is in force.
#[derive(Debug)]
pub struct LawRef {
    pub document_id: String,
    pub law_version: Option<String>,
    pub effective_from: Option<String>,
    pub effective_to: Option<String>,
}

impl View for LawRef {
    type V = Json;

    open spec fn view(&self) -> Json {
        Json::Object(
            seq![("document_id"@, Json::Str(self.document_id@))]
                + opt_member("law_version"@, opt_str_json(self.law_version))
                + opt_member("effective_from"@, opt_str_json(self.effective_from))
                + opt_member("effective_to"@, opt_str_json(self.effective_to)),
        )
    }
}

impl ToJson for LawRef {
    fn to_json(&self) -> (r: JsonValue) {
        let mut m: Vec<(String, JsonValue)> = Vec::new();
        push_member(&mut m, "document_id", json_str(&self.document_id));
        push_opt_member(&mut m, "law_version", json_opt_str(&self.law_version));
        push_opt_member(&mut m, "effective_from", json_opt_str(&self.effective_from));
        push_opt_member(&mut m, "effective_to", json_opt_str(&self.effective_to));
        assert(crate::json::members_of(m@) =~= self@->Object_0);
        json_object(m)
    }
}


impl Duplicate for Versioning {
    fn duplicate(&self) -> (r: Versioning)
        ensures
            r.chain@ == self.chain@,
    {
        let mut chain: Vec<Version> = Vec::new();
        let mut i: usize = 0;
        while i < self.chain.len()
            invariant
                i <= self.chain@.len(),
                chain@ == self.chain@.take(i as int),
            decreases self.chain.len() - i,
        {
            chain.push(self.chain[i]);
            i = i + 1;
            assert(chain@ =~= self.chain@.take(i as int));
        }
        assert(self.chain@.take(self.chain@.len() as int) =~= self.chain@);
        Versioning { chain }
    }
}

impl Duplicate for VersionSelection {
    fn duplicate(&self) -> (r: VersionSelection)
        ensures
            r == *self,
    {
        VersionSelection {
            mode: self.mode,
            pinned_version: dup_opt_str(&self.pinned_version),
            pinned_include_patch: self.pinned_include_patch,
        }
    }
}

impl Duplicate for LawRef {
    fn duplicate(&self) -> (r: LawRef)
        ensures
            r == *self,
    {
        LawRef {
            document_id: self.document_id.clone(),
            law_version: dup_opt_str(&self.law_version),
            effective_from: dup_opt_str(&self.effective_from),
            effective_to: dup_opt_str(&self.effective_to),
        }
    }
}

} // verus!
