//! Access levels, access rules and the access decision.
//!
//! A decision takes the user, the reference that the request addresses and
//! the level that the operation needs. The level that the user holds on
//! the repository comes from the first of these that exists:
//!
//! 1. the rule for this user and this repository,
//! 2. the rule for any user and this repository,
//! 3. the rule for this user and any repository,
//! 4. the default of the global policy.

use crate::path::{ArchivePath, ArchivePathKind, ArchivePathView};
use crate::text::{join_segments, joined, same_text};
use vstd::prelude::*;
use vstd::string::*;

verus! {

/// What a request wants to do, or what a rule grants at most.
///
/// The levels are totally ordered: `Read < Append < Modify`.
#[derive(Clone, Copy, Debug, PartialEq, Eq, Structural, PartialOrd, Ord, Hash)]
pub enum AccessType {
    /// Fetch and list objects.
    Read,
    /// Also create new objects, without touching existing ones.
    Append,
    /// Also overwrite and delete, and administer the repository.
    Modify,
}

impl AccessType {
    /// The position of the level in the order `Read < Append < Modify`.
    pub open spec fn rank(self) -> nat {
        match self {
            AccessType::Read => 0,
            AccessType::Append => 1,
            AccessType::Modify => 2,
        }
    }

    /// Whether a grant of `self` covers a request for `requested`.
    pub fn covers(self, requested: AccessType) -> (r: bool)
        ensures
            r == (requested.rank() <= self.rank()),
    {
        match self {
            AccessType::Modify => true,
            AccessType::Append => match requested {
                AccessType::Modify => false,
                _ => true,
            },
            AccessType::Read => match requested {
                AccessType::Read => true,
                _ => false,
            },
        }
    }
}

/// Why a request was refused.
#[derive(Clone, Copy, Debug, PartialEq, Eq, Structural)]
pub enum Denied {
    /// Authentication is required and the request names no user.
    Unauthenticated,
    /// The user holds less than the operation needs.
    InsufficientAccess,
}

/// The process-wide switches of the access policy.
#[derive(Clone, Copy, Debug, PartialEq, Eq, Structural)]
pub struct GlobalPolicy {
    /// Requests must name an authenticated user.
    pub authentication_required: bool,
    /// No grant on objects reaches beyond `Append`.
    pub append_only: bool,
    /// Without a rule, a repository is open to its owner only.
    pub private_repositories: bool,
}

/// One access rule: the level that `user` holds on `repository`.
///
/// `repository` is a repository path with `/` between its segments. In
/// either place `*` stands for "any".
#[derive(Clone, Debug)]
pub struct AclRule {
    pub user: String,
    pub repository: String,
    pub minimum_access: AccessType,
}

impl AclRule {
    /// The rule that gives `user` the level `minimum_access` on
    /// `repository`.
    pub fn new(user: &str, repository: &str, minimum_access: AccessType) -> (r: AclRule)
        ensures
            r.user@ == user@,
            r.repository@ == repository@,
            r.minimum_access == minimum_access,
    {
        AclRule { user: user.to_owned(), repository: repository.to_owned(), minimum_access }
    }
}

/// The name that stands for any user or any repository in a rule.
pub open spec fn wildcard() -> Seq<char> {
    seq!['*']
}

/// The rule table that a list of rules makes: keyed by user and
/// repository, a later rule replacing an earlier one with the same key.
pub open spec fn rule_map(rules: Seq<AclRule>) -> Map<(Seq<char>, Seq<char>), AccessType>
    decreases rules.len(),
{
    if rules.len() == 0 {
        Map::empty()
    } else {
        rule_map(rules.drop_last()).insert(
            (rules.last().user@, rules.last().repository@),
            rules.last().minimum_access,
        )
    }
}

/// What an [`AccessPolicy`] holds: the switches and the rule table.
pub struct AccessPolicyView {
    pub policy: GlobalPolicy,
    pub rules: Map<(Seq<char>, Seq<char>), AccessType>,
}

/// The name of the user of a request, if it has one.
pub open spec fn name_of(user: Option<&str>) -> Option<Seq<char>> {
    match user {
        Some(u) => Some(u@),
        None => None,
    }
}

impl AccessPolicyView {
    /// The level of the rule with exactly this key, if there is one.
    pub open spec fn rule(self, user: Seq<char>, repository: Seq<char>) -> Option<AccessType> {
        if self.rules.contains_key((user, repository)) {
            Some(self.rules[(user, repository)])
        } else {
            None
        }
    }

    /// The level without any rule: `Read`, or with private repositories
    /// `Modify` for the user whose name is the repository path's first
    /// segment and nothing for everyone else.
    pub open spec fn default_level(self, user: Option<Seq<char>>, repo_path: Seq<Seq<char>>)
        -> Option<AccessType> {
        if !self.policy.private_repositories {
            Some(AccessType::Read)
        } else if repo_path.len() > 0 && user == Some(repo_path[0]) {
            Some(AccessType::Modify)
        } else {
            None
        }
    }

    /// The level that the user holds on the repository, `None` for no
    /// access at all: from the first that exists of the user's rule for the
    /// repository, the rule of any user for the repository, the user's rule
    /// for any repository, and the default.
    pub open spec fn resolved_level(self, user: Option<Seq<char>>, repo_path: Seq<Seq<char>>)
        -> Option<AccessType> {
        let repository = joined(repo_path);
        if user is Some && self.rule(user.unwrap(), repository) is Some {
            self.rule(user.unwrap(), repository)
        } else if self.rule(wildcard(), repository) is Some {
            self.rule(wildcard(), repository)
        } else if user is Some && self.rule(user.unwrap(), wildcard()) is Some {
            self.rule(user.unwrap(), wildcard())
        } else {
            self.default_level(user, repo_path)
        }
    }

    /// The level that counts for a request on `path`. In append-only mode
    /// a level of `Modify` counts as `Append` below the repository root;
    /// on the root itself, that is for creating and removing the
    /// repository, the resolved level counts as it is.
    pub open spec fn effective_level(self, user: Option<Seq<char>>, path: ArchivePathView)
        -> Option<AccessType> {
        let resolved = self.resolved_level(user, path.repo_path);
        if self.policy.append_only && path.kind != ArchivePathKind::Repo && resolved == Some(
            AccessType::Modify,
        ) {
            Some(AccessType::Append)
        } else {
            resolved
        }
    }

    /// The decision on a request: refused as unauthenticated where
    /// authentication is required and no user is named; else granted
    /// exactly where the effective level reaches the requested one.
    pub open spec fn decision(
        self,
        user: Option<Seq<char>>,
        path: ArchivePathView,
        requested: AccessType,
    ) -> Result<(), Denied> {
        if self.policy.authentication_required && user is None {
            Err(Denied::Unauthenticated)
        } else {
            match self.effective_level(user, path) {
                Some(level) => if requested.rank() <= level.rank() {
                    Ok(())
                } else {
                    Err(Denied::InsufficientAccess)
                },
                None => Err(Denied::InsufficientAccess),
            }
        }
    }
}

/// The global policy together with the rule table. Built once; there is
/// no way to change it afterwards.
#[derive(Debug)]
pub struct AccessPolicy {
    policy: GlobalPolicy,
    rules: Vec<AclRule>,
}

impl View for AccessPolicy {
    type V = AccessPolicyView;

    closed spec fn view(&self) -> AccessPolicyView {
        AccessPolicyView { policy: self.policy, rules: rule_map(self.rules@) }
    }
}

impl AccessPolicy {
    /// The policy with the given switches and rules. Of two rules with the
    /// same user and repository the later one counts.
    pub fn new(policy: GlobalPolicy, rules: Vec<AclRule>) -> (r: AccessPolicy)
        ensures
            r@.policy == policy,
            r@.rules == rule_map(rules@),
    {
        AccessPolicy { policy, rules }
    }

    /// The switches of the policy.
    pub fn policy(&self) -> (r: GlobalPolicy)
        ensures
            r == self@.policy,
    {
        self.policy
    }

    /// The level of the rule with exactly this key, if there is one.
    pub fn rule(&self, user: &str, repository: &str) -> (r: Option<AccessType>)
        ensures
            r == self@.rule(user@, repository@),
    {
        let ghost key = (user@, repository@);
        let mut i: usize = self.rules.len();
        assert(self.rules@.take(i as int) =~= self.rules@);
        while i > 0
            invariant
                i <= self.rules.len(),
                key == (user@, repository@),
                rule_map(self.rules@).contains_key(key) == rule_map(
                    self.rules@.take(i as int),
                ).contains_key(key),
                rule_map(self.rules@).contains_key(key) ==> rule_map(self.rules@)[key] == rule_map(
                    self.rules@.take(i as int),
                )[key],
            decreases i,
        {
            let ghost upto = self.rules@.take(i as int);
            assert(upto.drop_last() =~= self.rules@.take(i - 1));
            assert(upto.last() == self.rules@[i - 1]);
            i -= 1;
            let rule = &self.rules[i];
            if same_text(rule.user.as_str(), user) && same_text(rule.repository.as_str(), repository) {
                return Some(rule.minimum_access);
            }
        }
        None
    }

    /// The level that the user holds on the repository, `None` for no
    /// access at all.
    pub fn resolve(&self, user: Option<&str>, repo_path: &Vec<String>) -> (r: Option<AccessType>)
        ensures
            r == self@.resolved_level(name_of(user), crate::text::texts(repo_path@)),
    {
        proof {
            reveal_strlit("*");
        }
        assert("*"@ =~= wildcard());
        let repository = join_segments(repo_path);
        if let Some(u) = user {
            let exact = self.rule(u, repository.as_str());
            if exact.is_some() {
                return exact;
            }
        }
        let any_user = self.rule("*", repository.as_str());
        if any_user.is_some() {
            return any_user;
        }
        if let Some(u) = user {
            let any_repository = self.rule(u, "*");
            if any_repository.is_some() {
                return any_repository;
            }
        }
        if !self.policy.private_repositories {
            return Some(AccessType::Read);
        }
        match user {
            Some(u) => {
                if repo_path.len() > 0 && same_text(u, repo_path[0].as_str()) {
                    Some(AccessType::Modify)
                } else {
                    None
                }
            },
            None => None,
        }
    }

    /// Decides whether `user` may do on `path` what needs the level
    /// `requested`.
    pub fn authorize(&self, user: Option<&str>, path: &ArchivePath, requested: AccessType) -> (r:
        Result<(), Denied>)
        ensures
            r == self@.decision(name_of(user), path@, requested),
    {
        if self.policy.authentication_required && user.is_none() {
            return Err(Denied::Unauthenticated);
        }
        let resolved = self.resolve(user, path.repo_path());
        let at_root = match path.kind() {
            ArchivePathKind::Repo => true,
            _ => false,
        };
        let effective = match resolved {
            Some(AccessType::Modify) => if self.policy.append_only && !at_root {
                Some(AccessType::Append)
            } else {
                resolved
            },
            _ => resolved,
        };
        match effective {
            Some(level) => if level.covers(requested) {
                Ok(())
            } else {
                Err(Denied::InsufficientAccess)
            },
            None => Err(Denied::InsufficientAccess),
        }
    }
}

/// The rule for a user and a repository decides, whatever other rules
/// there are: one for any user on that repository, one for that user on
/// any repository, or none.
pub proof fn law_exact_rule_wins(
    v: AccessPolicyView,
    user: Seq<char>,
    path: ArchivePathView,
    requested: AccessType,
)
    requires
        v.rule(user, joined(path.repo_path)) is Some,
    ensures
        v.resolved_level(Some(user), path.repo_path) == v.rule(user, joined(path.repo_path)),
        !v.policy.append_only ==> (v.decision(Some(user), path, requested) is Ok
            <==> requested.rank() <= v.rule(user, joined(path.repo_path)).unwrap().rank()),
{
}

/// Without a rule for the user and the repository, the rule for any user
/// on that repository decides, before the user's rule for any repository.
pub proof fn law_repository_rule_before_user_rule(
    v: AccessPolicyView,
    user: Option<Seq<char>>,
    repo_path: Seq<Seq<char>>,
)
    requires
        user is Some ==> v.rule(user.unwrap(), joined(repo_path)) is None,
        v.rule(wildcard(), joined(repo_path)) is Some,
    ensures
        v.resolved_level(user, repo_path) == v.rule(wildcard(), joined(repo_path)),
{
}

/// In append-only mode nobody is granted `Modify` on anything below a
/// repository root, whatever the rules say.
pub proof fn law_append_only_caps_objects(
    v: AccessPolicyView,
    user: Option<Seq<char>>,
    path: ArchivePathView,
)
    requires
        v.policy.append_only,
        path.kind != ArchivePathKind::Repo,
    ensures
        v.decision(user, path, AccessType::Modify) is Err,
{
}

/// A user with a `Modify` rule for a repository is granted `Modify` on its
/// root, in append-only mode too.
pub proof fn law_administration_is_not_capped(
    v: AccessPolicyView,
    user: Seq<char>,
    path: ArchivePathView,
)
    requires
        path.kind == ArchivePathKind::Repo,
        v.rule(user, joined(path.repo_path)) == Some(AccessType::Modify),
    ensures
        v.decision(Some(user), path, AccessType::Modify) is Ok,
{
}

} // verus!
