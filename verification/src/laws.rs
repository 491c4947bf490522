//! Laws relating the store's operations.
//!
//! The mutating operations describe their successful outcomes through
//! [`AccessControlData::grant_applied`] and
//! [`AccessControlData::revoke_applied`]; the lemmas here state what those
//! outcomes imply across calls: idempotence, the safety of revoking from
//! an absent target, the reach of the default admin, and the independence
//! of unrelated bits.

use vstd::prelude::*;
use crate::store::AccessControlData;
use crate::store::DEFAULT_ADMIN_ROLE;

verus! {

/// Two stores are observationally equal when every principal holds the
/// same roles and the same admin roles in both.
pub open spec fn same_observations<const N: usize>(
    a: AccessControlData<N>,
    b: AccessControlData<N>,
) -> bool {
    &&& forall|p: Seq<u8>, r: int| #![auto] a.spec_has_role(p, r) == b.spec_has_role(p, r)
    &&& forall|p: Seq<u8>, r: int|
        #![auto]
        a.spec_has_admin_role(p, r) == b.spec_has_admin_role(p, r)
}

/// A well-formed store grants no role bit outside its capacity: every
/// bitmap in it holds exactly `8 * N` bits.
pub proof fn lemma_no_role_out_of_range<const N: usize>(s: AccessControlData<N>, p: Seq<u8>, r: int)
    requires
        s.wf(),
        !(0 <= r < s.capacity()),
    ensures
        !s.spec_has_role(p, r),
        !s.spec_has_admin_role(p, r),
{
    if s.spec_has_role(p, r) {
        let j = choose|j: int|
            #![auto]
            0 <= j < s.roles_per_account@.len() && s.roles_per_account@[j].0@ == p && 0 <= r
                < s.roles_per_account@[j].1@.len() && s.roles_per_account@[j].1@[r];
    }
    if s.spec_has_admin_role(p, r) {
        let j = choose|j: int|
            #![auto]
            0 <= j < s.admin_roles_per_account@.len() && s.admin_roles_per_account@[j].0@ == p
                && 0 <= r < s.admin_roles_per_account@[j].1@.len()
                && s.admin_roles_per_account@[j].1@[r];
    }
}

/// Idempotence of granting: a second successful grant of the same role to
/// the same target moves the store no further — the state after two
/// grants observes exactly as the state after one.
pub proof fn lemma_grant_idempotent<const N: usize>(
    s0: AccessControlData<N>,
    s1: AccessControlData<N>,
    s2: AccessControlData<N>,
    target: Seq<u8>,
    role: int,
)
    requires
        s0.wf(),
        s1.wf(),
        s2.wf(),
        0 <= role < s0.capacity(),
        AccessControlData::grant_applied(s0, s1, target, role),
        AccessControlData::grant_applied(s1, s2, target, role),
    ensures
        same_observations(s1, s2),
{
    assert forall|p: Seq<u8>, r: int|
        #![auto]
        s1.spec_has_role(p, r) == s2.spec_has_role(p, r) by {
        if p == target && !(0 <= r < s1.capacity()) {
            lemma_no_role_out_of_range(s1, p, r);
            lemma_no_role_out_of_range(s2, p, r);
        }
    }
}

/// Idempotence of revoking: a second successful revocation of the same
/// role from the same target moves the store no further.
pub proof fn lemma_revoke_idempotent<const N: usize>(
    s0: AccessControlData<N>,
    s1: AccessControlData<N>,
    s2: AccessControlData<N>,
    target: Seq<u8>,
    role: int,
)
    requires
        s0.wf(),
        s1.wf(),
        s2.wf(),
        0 <= role < s0.capacity(),
        AccessControlData::revoke_applied(s0, s1, target, role),
        AccessControlData::revoke_applied(s1, s2, target, role),
    ensures
        same_observations(s1, s2),
{
    assert forall|p: Seq<u8>, r: int|
        #![auto]
        s1.spec_has_role(p, r) == s2.spec_has_role(p, r) by {
        if p == target && !(0 <= r < s1.capacity()) {
            lemma_no_role_out_of_range(s1, p, r);
            lemma_no_role_out_of_range(s2, p, r);
        }
    }
}

/// Revoking a role the target never held observes as a no-op: the store
/// after the revocation is indistinguishable from the store before it.
pub proof fn lemma_revoke_absent_target<const N: usize>(
    s0: AccessControlData<N>,
    s1: AccessControlData<N>,
    target: Seq<u8>,
    role: int,
)
    requires
        s0.wf(),
        s1.wf(),
        0 <= role < s0.capacity(),
        AccessControlData::revoke_applied(s0, s1, target, role),
        !s0.spec_has_role(target, role),
    ensures
        same_observations(s0, s1),
{
    assert forall|p: Seq<u8>, r: int|
        #![auto]
        s0.spec_has_role(p, r) == s1.spec_has_role(p, r) by {
        if p == target && !(0 <= r < s0.capacity()) {
            lemma_no_role_out_of_range(s0, p, r);
            lemma_no_role_out_of_range(s1, p, r);
        }
    }
}

/// The authorization gate: a caller holding neither the default admin bit
/// nor the admin bit for `role` is not an admin for `role`. By the
/// `ensures` of `set_role` and `unset_role`, its calls return
/// `CallerIsNotAdmin` and leave the store untouched.
pub proof fn lemma_authorization_gate<const N: usize>(
    s: AccessControlData<N>,
    caller: Seq<u8>,
    role: int,
)
    requires
        !s.spec_has_admin_role(caller, DEFAULT_ADMIN_ROLE as int),
        !s.spec_has_admin_role(caller, role),
    ensures
        !s.spec_is_admin_for(caller, role),
{
}

/// Default-admin universality: a principal holding admin bit `0` is an
/// admin for every role, whether or not it holds that role's own admin
/// bit. By the `ensures` of `set_role` and `unset_role`, its calls
/// succeed for every role in range.
pub proof fn lemma_default_admin_universal<const N: usize>(s: AccessControlData<N>, p: Seq<u8>)
    requires
        s.spec_has_admin_role(p, DEFAULT_ADMIN_ROLE as int),
    ensures
        forall|r: int| s.spec_is_admin_for(p, r),
{
}

/// Bit independence of granting: a successful grant of `role` to `target`
/// touches no other bit — every other principal-role pair, and every
/// admin bit, reads as before.
pub proof fn lemma_grant_frame<const N: usize>(
    s0: AccessControlData<N>,
    s1: AccessControlData<N>,
    target: Seq<u8>,
    role: int,
)
    requires
        s0.wf(),
        s1.wf(),
        0 <= role < s0.capacity(),
        AccessControlData::grant_applied(s0, s1, target, role),
    ensures
        forall|p: Seq<u8>, r: int|
            #![auto]
            !(p == target && r == role) ==> s1.spec_has_role(p, r) == s0.spec_has_role(p, r),
        forall|p: Seq<u8>, r: int|
            #![auto]
            s1.spec_has_admin_role(p, r) == s0.spec_has_admin_role(p, r),
        s1.spec_has_role(target, role),
{
    assert forall|p: Seq<u8>, r: int|
        #![auto]
        !(p == target && r == role) implies s1.spec_has_role(p, r) == s0.spec_has_role(p, r) by {
        if p == target && !(0 <= r < s0.capacity()) {
            lemma_no_role_out_of_range(s0, p, r);
            lemma_no_role_out_of_range(s1, p, r);
        }
    }
}

/// Bit independence of revoking: a successful revocation of `role` from
/// `target` touches no other bit, and afterwards the target no longer
/// holds `role`.
pub proof fn lemma_revoke_frame<const N: usize>(
    s0: AccessControlData<N>,
    s1: AccessControlData<N>,
    target: Seq<u8>,
    role: int,
)
    requires
        s0.wf(),
        s1.wf(),
        0 <= role < s0.capacity(),
        AccessControlData::revoke_applied(s0, s1, target, role),
    ensures
        forall|p: Seq<u8>, r: int|
            #![auto]
            !(p == target && r == role) ==> s1.spec_has_role(p, r) == s0.spec_has_role(p, r),
        forall|p: Seq<u8>, r: int|
            #![auto]
            s1.spec_has_admin_role(p, r) == s0.spec_has_admin_role(p, r),
        !s1.spec_has_role(target, role),
{
    assert forall|p: Seq<u8>, r: int|
        #![auto]
        !(p == target && r == role) implies s1.spec_has_role(p, r) == s0.spec_has_role(p, r) by {
        if p == target && !(0 <= r < s0.capacity()) {
            lemma_no_role_out_of_range(s0, p, r);
            lemma_no_role_out_of_range(s1, p, r);
        }
    }
}

} // verus!
