//! Access control: tokens, policies and capability checks.
use crate::error::{Error, Result};
use crate::strmap::{lookup, StrMap};
use crate::text::{has_string, strings_contain};
use vstd::prelude::*;

verus! {

/// What a policy rule grants on a resource. Ordered from weakest to
/// strongest: a grant covers every capability below it, and `Deny` beats
/// every grant.
#[derive(Debug, Clone, Copy, PartialEq, Eq, Structural, PartialOrd, Ord)]
pub enum Capability {
    /// Read access.
    Read,
    /// Read and write access.
    Write,
    /// Explicitly denied.
    Deny,
}

/// Position of a capability in the order `Read < Write < Deny`.
pub open spec fn cap_rank(c: Capability) -> int {
    match c {
        Capability::Read => 0,
        Capability::Write => 1,
        Capability::Deny => 2,
    }
}

/// A named set of rules, each granting a capability on a resource.
#[derive(Debug, Clone)]
pub struct Policy {
    /// Policy name, as tokens refer to it.
    pub name: String,
    /// Capability granted per resource.
    pub rules: StrMap<Capability>,
}

/// An access token.
#[derive(Debug, Clone)]
pub struct Token {
    /// Public identifier.
    pub accessor: String,
    /// Secret part.
    pub secret: String,
    /// Names of the policies the token holds.
    pub policies: Vec<String>,
    /// Whether the token bypasses policy checks.
    pub management: bool,
}

/// Why a token is malformed, if it is.
pub open spec fn token_problem(t: Token) -> Option<Seq<char>> {
    if t.accessor@.len() == 0 {
        Some("token accessor cannot be empty"@)
    } else if t.secret@.len() == 0 {
        Some("token secret cannot be empty"@)
    } else if !t.management && t.policies@.len() == 0 {
        Some("non-management token requires at least one policy"@)
    } else {
        None
    }
}

/// Whether some policy the token holds denies `resource` outright.
pub open spec fn policies_deny(held: Seq<String>, resource: Seq<char>, policies: Seq<Policy>) -> bool
    decreases policies.len(),
{
    if policies.len() == 0 {
        false
    } else {
        let p = policies[0];
        (has_string(held, p.name@) && lookup(p.rules.pairs(), resource) == Some(Capability::Deny))
            || policies_deny(held, resource, policies.drop_first())
    }
}

/// Whether some policy the token holds grants at least `cap` on `resource`
/// with a rule that is not a deny.
pub open spec fn policies_grant(held: Seq<String>, resource: Seq<char>, cap: Capability, policies: Seq<Policy>) -> bool
    decreases policies.len(),
{
    if policies.len() == 0 {
        false
    } else {
        let p = policies[0];
        (has_string(held, p.name@) && (lookup(p.rules.pairs(), resource) matches Some(c) && c != Capability::Deny
            && cap_rank(c) >= cap_rank(cap))) || policies_grant(held, resource, cap, policies.drop_first())
    }
}

/// Access under the policies the token holds: some grant and no deny, since
/// an explicit deny always wins.
pub open spec fn policies_allow(held: Seq<String>, resource: Seq<char>, cap: Capability, policies: Seq<Policy>) -> bool {
    !policies_deny(held, resource, policies) && policies_grant(held, resource, cap, policies)
}

/// Whether a token may exercise `cap` on `resource` under `policies`.
pub open spec fn token_allows(t: Token, resource: Seq<char>, cap: Capability, policies: Seq<Policy>) -> bool {
    t.management || policies_allow(t.policies@, resource, cap, policies)
}

/// Policies a token does not hold have no effect on its access: taking such
/// a policy out of the list (or, read the other way, adding one) never
/// changes what the token may do.
pub proof fn law_unheld_policies_do_not_matter(t: Token, resource: Seq<char>, cap: Capability, policies: Seq<Policy>, i: int)
    requires
        0 <= i < policies.len(),
        !has_string(t.policies@, policies[i].name@),
    ensures
        token_allows(t, resource, cap, policies.remove(i)) == token_allows(t, resource, cap, policies),
{
    lemma_unheld_removed(t.policies@, resource, cap, policies, i);
}

/// A deny in a policy the token holds always wins, and otherwise a policy it
/// holds that grants at least the capability gives access: a non-management
/// token is allowed exactly when some held policy grants it and none denies.
pub proof fn law_held_deny_wins(t: Token, resource: Seq<char>, cap: Capability, policies: Seq<Policy>)
    ensures
        !t.management && (exists|i: int|
            0 <= i < policies.len() && has_string(t.policies@, (#[trigger] policies[i]).name@) && lookup(
                policies[i].rules.pairs(),
                resource,
            ) == Some(Capability::Deny)) ==> !token_allows(t, resource, cap, policies),
        (forall|i: int|
            0 <= i < policies.len() && has_string(t.policies@, (#[trigger] policies[i]).name@) ==> lookup(
                policies[i].rules.pairs(),
                resource,
            ) != Some(Capability::Deny)) && (exists|i: int|
            0 <= i < policies.len() && has_string(t.policies@, (#[trigger] policies[i]).name@) && (lookup(
                policies[i].rules.pairs(),
                resource,
            ) matches Some(c) && cap_rank(c) >= cap_rank(cap))) ==> token_allows(t, resource, cap, policies),
{
    lemma_deny_grant_exist(t.policies@, resource, cap, policies);
}

/// [`policies_deny`] and [`policies_grant`] hold exactly when some policy of
/// the list denies, or grants, as a held policy.
proof fn lemma_deny_grant_exist(held: Seq<String>, resource: Seq<char>, cap: Capability, policies: Seq<Policy>)
    ensures
        policies_deny(held, resource, policies) <==> exists|i: int|
            0 <= i < policies.len() && has_string(held, (#[trigger] policies[i]).name@) && lookup(
                policies[i].rules.pairs(),
                resource,
            ) == Some(Capability::Deny),
        policies_grant(held, resource, cap, policies) <==> exists|i: int|
            0 <= i < policies.len() && has_string(held, (#[trigger] policies[i]).name@) && (lookup(
                policies[i].rules.pairs(),
                resource,
            ) matches Some(c) && c != Capability::Deny && cap_rank(c) >= cap_rank(cap)),
    decreases policies.len(),
{
    if policies.len() > 0 {
        let rest = policies.drop_first();
        lemma_deny_grant_exist(held, resource, cap, rest);
        if exists|i: int|
            0 <= i < rest.len() && has_string(held, (#[trigger] rest[i]).name@) && lookup(rest[i].rules.pairs(), resource)
                == Some(Capability::Deny) {
            let i = choose|i: int|
                0 <= i < rest.len() && has_string(held, (#[trigger] rest[i]).name@) && lookup(rest[i].rules.pairs(), resource)
                    == Some(Capability::Deny);
            assert(policies[i + 1] == rest[i]);
        }
        if exists|i: int|
            0 <= i < policies.len() && has_string(held, (#[trigger] policies[i]).name@) && lookup(
                policies[i].rules.pairs(),
                resource,
            ) == Some(Capability::Deny) {
            let i = choose|i: int|
                0 <= i < policies.len() && has_string(held, (#[trigger] policies[i]).name@) && lookup(
                    policies[i].rules.pairs(),
                    resource,
                ) == Some(Capability::Deny);
            if i > 0 {
                assert(rest[i - 1] == policies[i]);
            }
        }
        if exists|i: int|
            0 <= i < rest.len() && has_string(held, (#[trigger] rest[i]).name@) && (lookup(rest[i].rules.pairs(), resource) matches Some(
                c,
            ) && c != Capability::Deny && cap_rank(c) >= cap_rank(cap)) {
            let i = choose|i: int|
                0 <= i < rest.len() && has_string(held, (#[trigger] rest[i]).name@) && (lookup(rest[i].rules.pairs(), resource) matches Some(
                    c,
                ) && c != Capability::Deny && cap_rank(c) >= cap_rank(cap));
            assert(policies[i + 1] == rest[i]);
        }
        if exists|i: int|
            0 <= i < policies.len() && has_string(held, (#[trigger] policies[i]).name@) && (lookup(
                policies[i].rules.pairs(),
                resource,
            ) matches Some(c) && c != Capability::Deny && cap_rank(c) >= cap_rank(cap)) {
            let i = choose|i: int|
                0 <= i < policies.len() && has_string(held, (#[trigger] policies[i]).name@) && (lookup(
                    policies[i].rules.pairs(),
                    resource,
                ) matches Some(c) && c != Capability::Deny && cap_rank(c) >= cap_rank(cap));
            if i > 0 {
                assert(rest[i - 1] == policies[i]);
            }
        }
    }
}

/// Removing a policy the token does not hold changes neither whether a held
/// policy denies nor whether one grants.
proof fn lemma_unheld_removed(held: Seq<String>, resource: Seq<char>, cap: Capability, policies: Seq<Policy>, i: int)
    requires
        0 <= i < policies.len(),
        !has_string(held, policies[i].name@),
    ensures
        policies_deny(held, resource, policies.remove(i)) == policies_deny(held, resource, policies),
        policies_grant(held, resource, cap, policies.remove(i)) == policies_grant(held, resource, cap, policies),
    decreases policies.len(),
{
    if i == 0 {
        assert(policies.remove(0) =~= policies.drop_first());
    } else {
        lemma_unheld_removed(held, resource, cap, policies.drop_first(), i - 1);
        assert(policies.remove(i).drop_first() =~= policies.drop_first().remove(i - 1));
        assert(policies.remove(i)[0] == policies[0]);
    }
}

impl Token {
    /// Validate the token.
    ///
    /// # Errors
    ///
    /// Returns [`Error::Config`] if the accessor or secret is empty, or if a
    /// non-management token holds no policy.
    pub fn validate(&self) -> (r: Result<()>)
        ensures
            match token_problem(*self) {
                None => r is Ok,
                Some(msg) => r matches Err(e) && e.is_config(msg),
            },
    {
        if self.accessor.as_str().is_empty() {
            return Err(Error::Config("token accessor cannot be empty".to_string()));
        }
        if self.secret.as_str().is_empty() {
            return Err(Error::Config("token secret cannot be empty".to_string()));
        }
        if !self.management && self.policies.len() == 0 {
            return Err(Error::Config("non-management token requires at least one policy".to_string()));
        }
        Ok(())
    }

    /// Whether this token may exercise `capability` on `resource`.
    ///
    /// Management tokens may do anything. Otherwise access needs a policy the
    /// token holds that grants at least the capability, and an explicit deny
    /// in any held policy always wins.
    pub fn allows(&self, resource: &str, capability: Capability, policies: &[Policy]) -> (r: bool)
        ensures
            r == token_allows(*self, resource@, capability, policies@),
    {
        if self.management {
            return true;
        }
        let mut granted = false;
        let mut i: usize = 0;
        assert(policies@.skip(0) =~= policies@);
        while i < policies.len()
            invariant
                !self.management,
                i <= policies@.len(),
                policies_deny(self.policies@, resource@, policies@) == policies_deny(
                    self.policies@,
                    resource@,
                    policies@.skip(i as int),
                ),
                policies_grant(self.policies@, resource@, capability, policies@) == (granted || policies_grant(
                    self.policies@,
                    resource@,
                    capability,
                    policies@.skip(i as int),
                )),
            decreases policies@.len() - i,
        {
            let policy = &policies[i];
            assert(policies@.skip(i as int)[0] == *policy);
            assert(policies@.skip(i as int).drop_first() =~= policies@.skip(i + 1));
            if strings_contain(&self.policies, policy.name.as_str()) {
                match policy.rules.get(resource) {
                    Some(rule) => {
                        if rank(*rule) == 2 {
                            return false;
                        }
                        if rank(*rule) >= rank(capability) {
                            granted = true;
                        }
                    },
                    None => {},
                }
            }
            i = i + 1;
        }
        assert(policies@.skip(i as int).len() == 0);
        granted
    }
}

/// Position of a capability in the order `Read < Write < Deny`.
fn rank(c: Capability) -> (r: u8)
    ensures
        r == cap_rank(c),
{
    match c {
        Capability::Read => 0,
        Capability::Write => 1,
        Capability::Deny => 2,
    }
}

} // verus!
