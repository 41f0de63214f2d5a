//! The records that discovery, explanation, preview and removal pass
//! between each other.
use crate::text::{owned, push_char, push_str};
use vstd::prelude::*;

verus! {

/// Why a package is installed, as its manager records it.
#[derive(Debug, Clone, Copy, PartialEq, Eq, Structural)]
pub enum Role {
    Explicit,
    External,
    Group,
    Dependency,
    WeakDependency,
    Unknown,
}

impl Role {
    pub open spec fn label_spec(self) -> Seq<char> {
        match self {
            Role::Explicit => "explicit"@,
            Role::External => "external"@,
            Role::Group => "group"@,
            Role::Dependency => "dependency"@,
            Role::WeakDependency => "weak dependency"@,
            Role::Unknown => "unknown"@,
        }
    }

    /// Human-readable role name.
    pub fn label(self) -> (r: &'static str)
        ensures
            r@ == self.label_spec(),
    {
        match self {
            Role::Explicit => "explicit",
            Role::External => "external",
            Role::Group => "group",
            Role::Dependency => "dependency",
            Role::WeakDependency => "weak dependency",
            Role::Unknown => "unknown",
        }
    }

    pub open spec fn is_dependency_spec(self) -> bool {
        self == Role::Dependency || self == Role::WeakDependency
    }

    /// Whether the package is only present to satisfy another one.
    pub fn is_dependency(self) -> (r: bool)
        ensures
            r == self.is_dependency_spec(),
    {
        match self {
            Role::Dependency | Role::WeakDependency => true,
            _ => false,
        }
    }
}

/// One installed application, package or file that a query found.
#[derive(Debug, Clone)]
pub struct Match {
    pub backend: String,
    pub id: String,
    pub name: String,
    pub version: String,
    pub scope: String,
    pub role: Role,
    pub reason: String,
    pub command_path: Option<String>,
    pub source_path: Option<String>,
    pub installed_size_bytes: Option<u64>,
    pub architecture: String,
    pub profile: String,
    pub installation: String,
    pub origin: String,
    pub summary: String,
    pub evidence: String,
}

/// A copy of an optional string.
pub fn copy_opt(v: &Option<String>) -> (r: Option<String>)
    ensures
        r == *v,
{
    match v {
        Some(s) => Some(s.clone()),
        None => None,
    }
}

/// The field separator of a match key.
pub open spec fn nul() -> char {
    '\0'
}

/// A match's identity: backend, id, scope, installation and profile,
/// separated by NUL characters.
pub open spec fn key_spec(m: Match) -> Seq<char> {
    m.backend@ + seq![nul()] + m.id@ + seq![nul()] + m.scope@ + seq![nul()] + m.installation@
        + seq![nul()] + m.profile@
}

impl Match {
    /// A fresh match found by `backend`: system scope, unknown role,
    /// everything else empty.
    pub fn new(backend: &str, id: &str, name: &str) -> (r: Match)
        ensures
            r.backend@ == backend@,
            r.id@ == id@,
            r.name@ == name@,
            r.version@ == Seq::<char>::empty(),
            r.scope@ == "system"@,
            r.role == Role::Unknown,
            r.reason@ == Seq::<char>::empty(),
            r.command_path.is_none(),
            r.source_path.is_none(),
            r.installed_size_bytes.is_none(),
            r.architecture@ == Seq::<char>::empty(),
            r.profile@ == Seq::<char>::empty(),
            r.installation@ == Seq::<char>::empty(),
            r.origin@ == Seq::<char>::empty(),
            r.summary@ == Seq::<char>::empty(),
            r.evidence@ == Seq::<char>::empty(),
    {
        Match {
            backend: owned(backend),
            id: owned(id),
            name: owned(name),
            version: String::new(),
            scope: owned("system"),
            role: Role::Unknown,
            reason: String::new(),
            command_path: None,
            source_path: None,
            installed_size_bytes: None,
            architecture: String::new(),
            profile: String::new(),
            installation: String::new(),
            origin: String::new(),
            summary: String::new(),
            evidence: String::new(),
        }
    }

    /// A field-by-field copy.
    pub fn duplicate(&self) -> (r: Match)
        ensures
            r == *self,
    {
        Match {
            backend: self.backend.clone(),
            id: self.id.clone(),
            name: self.name.clone(),
            version: self.version.clone(),
            scope: self.scope.clone(),
            role: self.role,
            reason: self.reason.clone(),
            command_path: copy_opt(&self.command_path),
            source_path: copy_opt(&self.source_path),
            installed_size_bytes: self.installed_size_bytes,
            architecture: self.architecture.clone(),
            profile: self.profile.clone(),
            installation: self.installation.clone(),
            origin: self.origin.clone(),
            summary: self.summary.clone(),
            evidence: self.evidence.clone(),
        }
    }

    /// The identity of a match across detectors: two results with the same
    /// key are the same installation.
    pub fn key(&self) -> (r: String)
        ensures
            r@ == key_spec(*self),
    {
        let mut k = self.backend.clone();
        push_char(&mut k, '\0');
        push_str(&mut k, self.id.as_str());
        push_char(&mut k, '\0');
        push_str(&mut k, self.scope.as_str());
        push_char(&mut k, '\0');
        push_str(&mut k, self.installation.as_str());
        push_char(&mut k, '\0');
        push_str(&mut k, self.profile.as_str());
        assert(k@ =~= key_spec(*self));
        k
    }
}

pub open spec fn nul_free(s: Seq<char>) -> bool {
    forall|i: int| 0 <= i < s.len() ==> s[i] != nul()
}

proof fn lemma_split_at_nul(a: Seq<char>, x: Seq<char>, b: Seq<char>, y: Seq<char>)
    requires
        nul_free(a),
        nul_free(b),
        a + seq![nul()] + x == b + seq![nul()] + y,
    ensures
        a == b,
        x == y,
{
    let l = a + seq![nul()] + x;
    let r = b + seq![nul()] + y;
    if a.len() < b.len() {
        assert(l[a.len() as int] == nul());
        assert(r[a.len() as int] == b[a.len() as int]);
    } else if b.len() < a.len() {
        assert(r[b.len() as int] == nul());
        assert(l[b.len() as int] == a[b.len() as int]);
    } else {
        assert forall|i: int| 0 <= i < a.len() implies a[i] == b[i] by {
            assert(l[i] == a[i]);
            assert(r[i] == b[i]);
        }
        assert(a =~= b);
        assert(x =~= l.skip((a.len() + 1) as int));
        assert(y =~= r.skip((b.len() + 1) as int));
    }
}

/// Keys tell installations apart: when no identifying field holds a NUL
/// character, equal keys mean equal backend, id, scope, installation and
/// profile (so a second Flatpak installation or Nix profile never merges
/// with the first).
pub proof fn key_separates_installations(m1: Match, m2: Match)
    requires
        nul_free(m1.backend@),
        nul_free(m1.id@),
        nul_free(m1.scope@),
        nul_free(m1.installation@),
        nul_free(m2.backend@),
        nul_free(m2.id@),
        nul_free(m2.scope@),
        nul_free(m2.installation@),
        key_spec(m1) == key_spec(m2),
    ensures
        m1.backend@ == m2.backend@,
        m1.id@ == m2.id@,
        m1.scope@ == m2.scope@,
        m1.installation@ == m2.installation@,
        m1.profile@ == m2.profile@,
{
    let t1 = m1.id@ + seq![nul()] + m1.scope@ + seq![nul()] + m1.installation@ + seq![nul()]
        + m1.profile@;
    let t2 = m2.id@ + seq![nul()] + m2.scope@ + seq![nul()] + m2.installation@ + seq![nul()]
        + m2.profile@;
    assert(key_spec(m1) =~= m1.backend@ + seq![nul()] + t1);
    assert(key_spec(m2) =~= m2.backend@ + seq![nul()] + t2);
    lemma_split_at_nul(m1.backend@, t1, m2.backend@, t2);
    let u1 = m1.scope@ + seq![nul()] + m1.installation@ + seq![nul()] + m1.profile@;
    let u2 = m2.scope@ + seq![nul()] + m2.installation@ + seq![nul()] + m2.profile@;
    assert(t1 =~= m1.id@ + seq![nul()] + u1);
    assert(t2 =~= m2.id@ + seq![nul()] + u2);
    lemma_split_at_nul(m1.id@, u1, m2.id@, u2);
    let v1 = m1.installation@ + seq![nul()] + m1.profile@;
    let v2 = m2.installation@ + seq![nul()] + m2.profile@;
    assert(u1 =~= m1.scope@ + seq![nul()] + v1);
    assert(u2 =~= m2.scope@ + seq![nul()] + v2);
    lemma_split_at_nul(m1.scope@, v1, m2.scope@, v2);
    lemma_split_at_nul(m1.installation@, m1.profile@, m2.installation@, m2.profile@);
}

/// How reliable a removal preview is.
#[derive(Debug, Clone, Copy, PartialEq, Eq, Structural)]
pub enum PreviewStatus {
    Exact,
    Blocked,
    NoOp,
    Unknown,
    Failed,
    Unsupported,
}

/// The risk of a removal transaction.
#[derive(Debug, Clone, Copy, PartialEq, Eq, Structural)]
pub enum Impact {
    Low,
    Caution,
    High,
    Unknown,
    Blocked,
}

impl Impact {
    pub open spec fn label_spec(self) -> Seq<char> {
        match self {
            Impact::Low => "LOW"@,
            Impact::Caution => "CAUTION"@,
            Impact::High => "HIGH"@,
            Impact::Unknown => "UNKNOWN"@,
            Impact::Blocked => "BLOCKED"@,
        }
    }

    /// Upper-case impact name.
    pub fn label(self) -> (r: &'static str)
        ensures
            r@ == self.label_spec(),
    {
        match self {
            Impact::Low => "LOW",
            Impact::Caution => "CAUTION",
            Impact::High => "HIGH",
            Impact::Unknown => "UNKNOWN",
            Impact::Blocked => "BLOCKED",
        }
    }
}

/// The expected result of removing a selection.
#[derive(Debug, Clone)]
pub struct Preview {
    pub status: PreviewStatus,
    pub impact: Impact,
    pub planned_removals: Vec<String>,
    pub unused_dependencies: Vec<String>,
    pub protected: Vec<String>,
    pub blockers: Vec<String>,
    pub notes: Vec<String>,
    pub fingerprint: String,
}

/// The texts of a list of strings.
pub open spec fn texts(v: Seq<String>) -> Seq<Seq<char>> {
    v.map_values(|s: String| s@)
}

/// A preview as plain values.
pub struct PreviewModel {
    pub status: PreviewStatus,
    pub impact: Impact,
    pub planned: Seq<Seq<char>>,
    pub unused: Seq<Seq<char>>,
    pub protected: Seq<Seq<char>>,
    pub blockers: Seq<Seq<char>>,
    pub notes: Seq<Seq<char>>,
    pub fingerprint: Seq<char>,
}

impl View for Preview {
    type V = PreviewModel;

    open spec fn view(&self) -> PreviewModel {
        PreviewModel {
            status: self.status,
            impact: self.impact,
            planned: texts(self.planned_removals@),
            unused: texts(self.unused_dependencies@),
            protected: texts(self.protected@),
            blockers: texts(self.blockers@),
            notes: texts(self.notes@),
            fingerprint: self.fingerprint@,
        }
    }
}

/// The exact, low-impact plan that removes exactly `planned`.
pub open spec fn exact_model(planned: Seq<Seq<char>>) -> PreviewModel {
    PreviewModel {
        status: PreviewStatus::Exact,
        impact: Impact::Low,
        planned,
        unused: Seq::empty(),
        protected: Seq::empty(),
        blockers: Seq::empty(),
        notes: Seq::empty(),
        fingerprint: Seq::empty(),
    }
}

impl Preview {
    /// An exact, low-impact plan that removes exactly what was requested.
    pub fn exact(requested: Vec<String>) -> (r: Preview)
        ensures
            r@ == exact_model(texts(requested@)),
            r.status == PreviewStatus::Exact,
            r.impact == Impact::Low,
            r.planned_removals@ == requested@,
            r.unused_dependencies@.len() == 0,
            r.protected@.len() == 0,
            r.blockers@.len() == 0,
            r.notes@.len() == 0,
            r.fingerprint@ == Seq::<char>::empty(),
    {
        let r = Preview {
            status: PreviewStatus::Exact,
            impact: Impact::Low,
            planned_removals: requested,
            unused_dependencies: Vec::new(),
            protected: Vec::new(),
            blockers: Vec::new(),
            notes: Vec::new(),
            fingerprint: String::new(),
        };
        assert(texts(r.unused_dependencies@) =~= Seq::<Seq<char>>::empty());
        assert(texts(r.protected@) =~= Seq::<Seq<char>>::empty());
        assert(texts(r.blockers@) =~= Seq::<Seq<char>>::empty());
        assert(texts(r.notes@) =~= Seq::<Seq<char>>::empty());
        r
    }
}

/// Items removed together by one command.
#[derive(Debug, Clone)]
pub struct RemovalBatch {
    pub items: Vec<Match>,
    pub command: Vec<String>,
}

/// One result of the read-only machine report.
#[derive(Debug, Clone)]
pub struct JsonResult {
    pub backend: String,
    pub id: String,
    pub name: String,
    pub version: String,
    pub architecture: String,
    pub scope: String,
    pub profile: String,
    pub installation: String,
    pub command_path: String,
    pub role: Role,
    pub why_installed: String,
    pub installed_size_bytes: Option<u64>,
    pub preview: Preview,
}

impl JsonResult {
    /// The report entry for a match and its preview; a missing command path
    /// is reported as an empty string.
    pub fn from_match(item: &Match, preview: Preview) -> (r: JsonResult)
        ensures
            r.backend == item.backend,
            r.id == item.id,
            r.name == item.name,
            r.version == item.version,
            r.architecture == item.architecture,
            r.scope == item.scope,
            r.profile == item.profile,
            r.installation == item.installation,
            r.command_path@ == (match item.command_path {
                Some(p) => p@,
                None => Seq::<char>::empty(),
            }),
            r.role == item.role,
            r.why_installed == item.reason,
            r.installed_size_bytes == item.installed_size_bytes,
            r.preview == preview,
    {
        JsonResult {
            backend: item.backend.clone(),
            id: item.id.clone(),
            name: item.name.clone(),
            version: item.version.clone(),
            architecture: item.architecture.clone(),
            scope: item.scope.clone(),
            profile: item.profile.clone(),
            installation: item.installation.clone(),
            command_path: match &item.command_path {
                Some(p) => p.clone(),
                None => String::new(),
            },
            role: item.role,
            why_installed: item.reason.clone(),
            installed_size_bytes: item.installed_size_bytes,
            preview,
        }
    }
}

} // verus!
