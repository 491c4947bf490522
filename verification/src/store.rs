//! The per-principal role store and its admin-gated mutation protocol.
//!
//! Two associations, both keyed by principal: the roles a principal holds,
//! and the roles it may administer. Each association is an entry list with
//! pairwise-distinct keys; a principal absent from an association is
//! observationally identical to one holding an all-zero bitmap. Role `0` is
//! the default admin role: a principal whose admin bitmap has bit `0` set
//! may administer every role.

use vstd::prelude::*;
use crate::bitmap::BitMap;

verus! {

/// The reserved default admin role: holding its admin bit authorizes
/// administration of every role.
pub const DEFAULT_ADMIN_ROLE: usize = 0;

/// An opaque 32-byte account identifier naming a principal.
#[derive(Debug, Clone, Copy)]
pub struct AccountId(pub [u8; 32]);

impl View for AccountId {
    type V = Seq<u8>;

    open spec fn view(&self) -> Seq<u8> {
        self.0@
    }
}

/// The one recoverable failure of the store: the caller of a mutation is
/// not authorized to administer the role in question.
#[derive(Debug)]
pub enum AccessControlError {
    CallerIsNotAdmin,
}

/// Whether the association `s` grants bit `r` to the principal `p`: some
/// entry is keyed by `p` and has bit `r` set. An absent principal holds
/// nothing, as does one whose entry is all-zero.
pub open spec fn holds_bit(s: Seq<(AccountId, BitMap)>, p: Seq<u8>, r: int) -> bool {
    exists|i: int|
        #![auto]
        0 <= i < s.len() && s[i].0@ == p && 0 <= r < s[i].1@.len() && s[i].1@[r]
}

/// Well-formedness of an association: keys are pairwise distinct and every
/// bitmap holds exactly `cap` bits.
pub open spec fn assoc_wf(s: Seq<(AccountId, BitMap)>, cap: int) -> bool {
    &&& forall|i: int, j: int|
        #![auto]
        0 <= i < j < s.len() ==> s[i].0@ != s[j].0@
    &&& forall|i: int| #![auto] 0 <= i < s.len() ==> s[i].1@.len() == cap
}

/// Whether two principals are the same account, byte for byte.
pub fn same_account(a: &AccountId, b: &AccountId) -> (r: bool)
    ensures
        r == (a@ == b@),
{
    let mut i: usize = 0;
    while i < 32
        invariant
            i <= 32,
            forall|j: int| 0 <= j < i ==> a.0@[j] == b.0@[j],
        decreases 32 - i,
    {
        if a.0[i] != b.0[i] {
            return false;
        }
        i = i + 1;
    }
    proof {
        assert(a@ =~= b@);
    }
    true
}

/// The index of the entry keyed by `p` in `s`, if any.
fn find_entry(s: &Vec<(AccountId, BitMap)>, p: &AccountId) -> (r: Option<usize>)
    ensures
        match r {
            Some(i) => i < s@.len() && s@[i as int].0@ == p@,
            None => forall|j: int| #![auto] 0 <= j < s@.len() ==> s@[j].0@ != p@,
        },
{
    let mut i: usize = 0;
    while i < s.len()
        invariant
            i <= s@.len(),
            forall|j: int| #![auto] 0 <= j < i ==> s@[j].0@ != p@,
        decreases s@.len() - i,
    {
        if same_account(&s[i].0, p) {
            return Some(i);
        }
        i = i + 1;
    }
    None
}

/// Replacing the entry at `i` with one of the same key whose bitmap agrees
/// everywhere but at bit `changed`, where it reads `val`, preserves
/// well-formedness, moves exactly that one bit of that one principal, and
/// grants nothing to and takes nothing from any other principal.
proof fn lemma_replace_entry(
    s: Seq<(AccountId, BitMap)>,
    i: int,
    e: (AccountId, BitMap),
    cap: int,
    changed: int,
    val: bool,
)
    requires
        assoc_wf(s, cap),
        0 <= i < s.len(),
        e.0@ == s[i].0@,
        e.1@ == s[i].1@.update(changed, val),
        0 <= changed < cap,
    ensures
        assoc_wf(s.update(i, e), cap),
        holds_bit(s.update(i, e), s[i].0@, changed) == val,
        forall|r: int|
            r != changed ==> holds_bit(s.update(i, e), s[i].0@, r) == holds_bit(s, s[i].0@, r),
        forall|p: Seq<u8>, r: int|
            p != s[i].0@ ==> holds_bit(s.update(i, e), p, r) == holds_bit(s, p, r),
{
    let s1 = s.update(i, e);
    let key = s[i].0@;
    assert forall|j: int| #![auto] 0 <= j < s1.len() && s1[j].0@ == key implies j == i by {
        if j != i {
            assert(s[j].0@ == key);
        }
    }
    assert(holds_bit(s1, key, changed) == val) by {
        if val {
            assert(s1[i].1@[changed]);
        } else {
            if holds_bit(s1, key, changed) {
                let j = choose|j: int|
                    #![auto]
                    0 <= j < s1.len() && s1[j].0@ == key && 0 <= changed < s1[j].1@.len()
                        && s1[j].1@[changed];
                assert(j == i);
            }
        }
    }
    assert forall|r: int| r != changed implies holds_bit(s1, key, r) == holds_bit(s, key, r) by {
        if holds_bit(s1, key, r) {
            let j = choose|j: int|
                #![auto]
                0 <= j < s1.len() && s1[j].0@ == key && 0 <= r < s1[j].1@.len() && s1[j].1@[r];
            if j == i {
                assert(s[i].1@[r]);
            }
            assert(holds_bit(s, key, r));
        }
        if holds_bit(s, key, r) {
            let j = choose|j: int|
                #![auto]
                0 <= j < s.len() && s[j].0@ == key && 0 <= r < s[j].1@.len() && s[j].1@[r];
            if j == i {
                assert(s1[i].1@[r]);
            }
            assert(holds_bit(s1, key, r));
        }
    }
    assert forall|p: Seq<u8>, r: int| p != key implies holds_bit(s1, p, r) == holds_bit(
        s,
        p,
        r,
    ) by {
        if holds_bit(s1, p, r) {
            let j = choose|j: int|
                #![auto]
                0 <= j < s1.len() && s1[j].0@ == p && 0 <= r < s1[j].1@.len() && s1[j].1@[r];
            assert(j != i);
            assert(holds_bit(s, p, r));
        }
        if holds_bit(s, p, r) {
            let j = choose|j: int|
                #![auto]
                0 <= j < s.len() && s[j].0@ == p && 0 <= r < s[j].1@.len() && s[j].1@[r];
            assert(j != i);
            assert(s1[j] == s[j]);
            assert(holds_bit(s1, p, r));
        }
    }
}

/// Appending an entry under a fresh key preserves well-formedness, gives
/// the new principal exactly the bits of the appended bitmap, and changes
/// nothing for any other principal.
proof fn lemma_append_entry(s: Seq<(AccountId, BitMap)>, e: (AccountId, BitMap), cap: int)
    requires
        assoc_wf(s, cap),
        forall|j: int| #![auto] 0 <= j < s.len() ==> s[j].0@ != e.0@,
        e.1@.len() == cap,
    ensures
        assoc_wf(s.push(e), cap),
        forall|r: int|
            holds_bit(s.push(e), e.0@, r) == (0 <= r < e.1@.len() && e.1@[r]),
        forall|r: int| !holds_bit(s, e.0@, r),
        forall|p: Seq<u8>, r: int| p != e.0@ ==> holds_bit(s.push(e), p, r) == holds_bit(s, p, r),
{
    let s1 = s.push(e);
    assert forall|r: int| holds_bit(s1, e.0@, r) == (0 <= r < e.1@.len() && e.1@[r]) by {
        if holds_bit(s1, e.0@, r) {
            let j = choose|j: int|
                #![auto]
                0 <= j < s1.len() && s1[j].0@ == e.0@ && 0 <= r < s1[j].1@.len() && s1[j].1@[r];
            assert(j == s.len());
        }
        if 0 <= r < e.1@.len() && e.1@[r] {
            assert(s1[s.len() as int].1@[r]);
            assert(holds_bit(s1, e.0@, r));
        }
    }
    assert forall|p: Seq<u8>, r: int| p != e.0@ implies holds_bit(s1, p, r) == holds_bit(
        s,
        p,
        r,
    ) by {
        if holds_bit(s1, p, r) {
            let j = choose|j: int|
                #![auto]
                0 <= j < s1.len() && s1[j].0@ == p && 0 <= r < s1[j].1@.len() && s1[j].1@[r];
            assert(j < s.len());
            assert(holds_bit(s, p, r));
        }
        if holds_bit(s, p, r) {
            let j = choose|j: int|
                #![auto]
                0 <= j < s.len() && s[j].0@ == p && 0 <= r < s[j].1@.len() && s[j].1@[r];
            assert(s1[j] == s[j]);
            assert(holds_bit(s1, p, r));
        }
    }
}

/// The role store: the roles each principal holds and the roles each
/// principal may administer, over a capacity of `8 * N` role bits.
///
/// The const parameter `N` is the byte width of every bitmap in the store;
/// it may not exceed 32, for a ceiling of 256 roles.
pub struct AccessControlData<const N: usize> {
    /// Association between a principal and the roles it holds. Holding a
    /// role carries no authority over other principals' roles.
    pub roles_per_account: Vec<(AccountId, BitMap)>,
    /// Association between a principal and the roles it may administer.
    pub admin_roles_per_account: Vec<(AccountId, BitMap)>,
}

impl<const N: usize> AccessControlData<N> {
    /// The number of role bits each principal's bitmaps hold.
    pub open spec fn capacity(self) -> int {
        8 * (N as int)
    }

    /// The byte width respects the deployment ceiling and both associations
    /// are well-formed at capacity `8 * N`.
    pub open spec fn wf(self) -> bool {
        &&& N <= 32
        &&& assoc_wf(self.roles_per_account@, self.capacity())
        &&& assoc_wf(self.admin_roles_per_account@, self.capacity())
    }

    /// Whether the principal `p` holds role `r`.
    pub open spec fn spec_has_role(self, p: Seq<u8>, r: int) -> bool {
        holds_bit(self.roles_per_account@, p, r)
    }

    /// Whether the principal `p` holds the admin bit for role `r`.
    pub open spec fn spec_has_admin_role(self, p: Seq<u8>, r: int) -> bool {
        holds_bit(self.admin_roles_per_account@, p, r)
    }

    /// The authorization rule: `p` may administer role `r` when it holds
    /// the admin bit for `r` itself or the default admin bit `0`.
    pub open spec fn spec_is_admin_for(self, p: Seq<u8>, r: int) -> bool {
        self.spec_has_admin_role(p, r) || self.spec_has_admin_role(p, DEFAULT_ADMIN_ROLE as int)
    }

    /// How a successful grant moves the store: the admin association is
    /// untouched, the target gains exactly `role`, and every other
    /// principal's roles are untouched.
    pub open spec fn grant_applied(pre: Self, post: Self, target: Seq<u8>, role: int) -> bool {
        &&& post.admin_roles_per_account == pre.admin_roles_per_account
        &&& forall|p: Seq<u8>, r: int|
            #![auto]
            post.spec_has_admin_role(p, r) == pre.spec_has_admin_role(p, r)
        &&& forall|r: int|
            #![auto]
            0 <= r < pre.capacity() ==> post.spec_has_role(target, r) == (r == role
                || pre.spec_has_role(target, r))
        &&& forall|p: Seq<u8>, r: int|
            #![auto]
            p != target ==> post.spec_has_role(p, r) == pre.spec_has_role(p, r)
    }

    /// How a successful revocation moves the store: the admin association
    /// is untouched, the target loses exactly `role`, and every other
    /// principal's roles are untouched.
    pub open spec fn revoke_applied(pre: Self, post: Self, target: Seq<u8>, role: int) -> bool {
        &&& post.admin_roles_per_account == pre.admin_roles_per_account
        &&& forall|p: Seq<u8>, r: int|
            #![auto]
            post.spec_has_admin_role(p, r) == pre.spec_has_admin_role(p, r)
        &&& forall|r: int|
            #![auto]
            0 <= r < pre.capacity() ==> post.spec_has_role(target, r) == (r != role
                && pre.spec_has_role(target, r))
        &&& forall|p: Seq<u8>, r: int|
            #![auto]
            p != target ==> post.spec_has_role(p, r) == pre.spec_has_role(p, r)
    }

    /// A fresh store administered by `admin`: no principal holds any role,
    /// and the only admin bit set anywhere is `admin`'s default admin bit.
    ///
    /// The capacity is checked at construction: `N` may not exceed the
    /// 32-byte ceiling, and at least one byte is needed to seat the
    /// default admin bit.
    pub fn new(admin: AccountId) -> (s: Self)
        requires
            1 <= N <= 32,
        ensures
            s.wf(),
            forall|p: Seq<u8>, r: int| !s.spec_has_role(p, r),
            forall|p: Seq<u8>, r: int|
                s.spec_has_admin_role(p, r) == (p == admin@ && r == DEFAULT_ADMIN_ROLE as int),
    {
        let mut roles_bm = BitMap::new(N);
        roles_bm.set_bit(DEFAULT_ADMIN_ROLE);

        let mut admin_roles: Vec<(AccountId, BitMap)> = Vec::new();
        proof {
            assert(roles_bm@.len() == 8 * (N as int));
            assert(forall|r: int| 0 <= r < roles_bm@.len() ==> roles_bm@[r] == (r == 0));
        }
        let ghost pre_admins = admin_roles@;
        admin_roles.push((admin, roles_bm));

        let s = AccessControlData { roles_per_account: Vec::new(), admin_roles_per_account: admin_roles };
        proof {
            let e = (admin, roles_bm);
            lemma_append_entry(pre_admins, e, 8 * (N as int));
            assert(s.admin_roles_per_account@ == pre_admins.push(e));
            assert forall|p: Seq<u8>, r: int|
                s.spec_has_admin_role(p, r) == (p == admin@ && r == DEFAULT_ADMIN_ROLE as int) by {
                if p == admin@ {
                    assert(e.0@ == p);
                    assert(holds_bit(pre_admins.push(e), p, r) == (0 <= r < e.1@.len() && e.1@[r]));
                    assert(holds_bit(s.admin_roles_per_account@, p, r) == (0 <= r < 8 * (N as int)
                        && r == 0));
                }
            }
        }
        s
    }

    /// Whether the principal `account_id` holds role `role`. Membership
    /// testing is not privileged: no authorization is required.
    pub fn has_role(&self, account_id: AccountId, role: usize) -> (r: bool)
        requires
            self.wf(),
            role < self.capacity(),
        ensures
            r == self.spec_has_role(account_id@, role as int),
    {
        Self::assoc_has_bit(&self.roles_per_account, account_id, role)
    }

    /// Whether the principal `account_id` holds the admin bit for `role`.
    pub fn has_admin_role(&self, account_id: AccountId, role: usize) -> (r: bool)
        requires
            self.wf(),
            role < self.capacity(),
        ensures
            r == self.spec_has_admin_role(account_id@, role as int),
    {
        Self::assoc_has_bit(&self.admin_roles_per_account, account_id, role)
    }

    /// The identifiers of the roles `account_id` currently holds, in
    /// ascending order; empty when the principal is absent from the store
    /// or holds no role.
    pub fn roles_of(&self, account_id: AccountId) -> (v: Vec<usize>)
        requires
            self.wf(),
        ensures
            forall|k: int|
                #![auto]
                0 <= k < v@.len() ==> v@[k] < self.capacity() && self.spec_has_role(
                    account_id@,
                    v@[k] as int,
                ),
            forall|r: int|
                #![auto]
                0 <= r < self.capacity() && self.spec_has_role(account_id@, r) ==> v@.contains(
                    r as usize,
                ),
            forall|k1: int, k2: int| 0 <= k1 < k2 < v@.len() ==> v@[k1] < v@[k2],
    {
        let mut v: Vec<usize> = Vec::new();
        match find_entry(&self.roles_per_account, &account_id) {
            None => {
                proof {
                    assert forall|r: int|
                        0 <= r < self.capacity() implies !self.spec_has_role(account_id@, r) by {
                        if self.spec_has_role(account_id@, r) {
                            let j = choose|j: int|
                                #![auto]
                                0 <= j < self.roles_per_account@.len()
                                    && self.roles_per_account@[j].0@ == account_id@ && 0 <= r
                                    < self.roles_per_account@[j].1@.len()
                                    && self.roles_per_account@[j].1@[r];
                        }
                    }
                }
                v
            },
            Some(i) => {
                let ghost bmv = self.roles_per_account@[i as int].1@;
                proof {
                    assert forall|r: int|
                        0 <= r < self.capacity() implies self.spec_has_role(account_id@, r)
                        == bmv[r] by {
                        if bmv[r] {
                            assert(self.roles_per_account@[i as int].1@[r]);
                            assert(self.spec_has_role(account_id@, r));
                        } else if self.spec_has_role(account_id@, r) {
                            let j = choose|j: int|
                                #![auto]
                                0 <= j < self.roles_per_account@.len()
                                    && self.roles_per_account@[j].0@ == account_id@ && 0 <= r
                                    < self.roles_per_account@[j].1@.len()
                                    && self.roles_per_account@[j].1@[r];
                            assert(j == i);
                        }
                    }
                }
                let cap: usize = 8 * N;
                let mut role: usize = 0;
                while role < cap
                    invariant
                        role <= cap,
                        i < self.roles_per_account@.len(),
                        bmv == self.roles_per_account@[i as int].1@,
                        bmv.len() == cap,
                        forall|k: int|
                            #![auto]
                            0 <= k < v@.len() ==> v@[k] < role && bmv[v@[k] as int],
                        forall|r: int| 0 <= r < role && bmv[r] ==> v@.contains(r as usize),
                        forall|k1: int, k2: int| 0 <= k1 < k2 < v@.len() ==> v@[k1] < v@[k2],
                    decreases cap - role,
                {
                    if self.roles_per_account[i].1.has_bit_set(role) {
                        let ghost v0 = v@;
                        v.push(role);
                        proof {
                            assert forall|r: int|
                                0 <= r < role + 1 && bmv[r] implies v@.contains(r as usize) by {
                                if r == role {
                                    assert(v@[v0.len() as int] == role);
                                } else {
                                    let k = choose|k: int|
                                        0 <= k < v0.len() && v0[k] == r as usize;
                                    assert(v@[k] == r as usize);
                                }
                            }
                        }
                    }
                    role = role + 1;
                }
                v
            },
        }
    }

    /// Whether the principal `principal` is authorized to administer role
    /// `role`: it holds the admin bit for `role`, or the default admin bit.
    pub fn is_admin_for(&self, principal: AccountId, role: usize) -> (r: bool)
        requires
            self.wf(),
            role < self.capacity(),
        ensures
            r == self.spec_is_admin_for(principal@, role as int),
    {
        self.has_admin_role(principal, role) || self.has_admin_role(principal, DEFAULT_ADMIN_ROLE)
    }

    /// Grants role `role` to `account_id`, provided the caller may
    /// administer that role; an unauthorized call returns
    /// `CallerIsNotAdmin` and leaves the store untouched. Granting an
    /// already-held role is a no-op that still succeeds. Role `0` is
    /// reserved for admin bootstrap and is not grantable.
    pub fn set_role(&mut self, caller: AccountId, account_id: AccountId, role: usize) -> (res:
        Result<(), AccessControlError>)
        requires
            old(self).wf(),
            0 < role < old(self).capacity(),
        ensures
            final(self).wf(),
            res is Ok <==> old(self).spec_is_admin_for(caller@, role as int),
            res is Err ==> *final(self) == *old(self) && (res matches Err(
                AccessControlError::CallerIsNotAdmin,
            )),
            res is Ok ==> Self::grant_applied(*old(self), *final(self), account_id@, role as int),
    {
        if !self.is_admin_for(caller, role) {
            return Err(AccessControlError::CallerIsNotAdmin);
        }
        let ghost s0 = self.roles_per_account@;
        match find_entry(&self.roles_per_account, &account_id) {
            Some(i) => {
                let entry = &mut self.roles_per_account[i];
                entry.1.set_bit(role);
                proof {
                    let e = self.roles_per_account@[i as int];
                    assert(self.roles_per_account@ == s0.update(i as int, e));
                    lemma_replace_entry(s0, i as int, e, 8 * (N as int), role as int, true);
                }
            },
            None => {
                let mut bm = BitMap::new(N);
                bm.set_bit(role);
                let ghost e = (account_id, bm);
                self.roles_per_account.push((account_id, bm));
                proof {
                    assert(self.roles_per_account@ == s0.push(e));
                    assert(e.1@.len() == 8 * (N as int));
                    assert(forall|r: int| 0 <= r < e.1@.len() ==> e.1@[r] == (r == role as int));
                    lemma_append_entry(s0, e, 8 * (N as int));
                    assert(self.admin_roles_per_account == old(self).admin_roles_per_account);
                    assert forall|r: int|
                        #![auto]
                        0 <= r < old(self).capacity() implies self.spec_has_role(account_id@, r)
                        == (r == role as int || old(self).spec_has_role(account_id@, r)) by {
                        assert(holds_bit(s0.push(e), e.0@, r) == (0 <= r < e.1@.len() && e.1@[r]));
                        assert(!holds_bit(s0, e.0@, r));
                    }
                    assert forall|p: Seq<u8>, r: int|
                        #![auto]
                        p != account_id@ implies self.spec_has_role(p, r) == old(
                            self,
                        ).spec_has_role(p, r) by {
                        assert(holds_bit(s0.push(e), p, r) == holds_bit(s0, p, r));
                    }
                }
            },
        }
        Ok(())
    }

    /// Revokes role `role` from `account_id`, provided the caller may
    /// administer that role; an unauthorized call returns
    /// `CallerIsNotAdmin` and leaves the store untouched. Revoking a role
    /// the target does not hold is a no-op that still succeeds, also when
    /// the target is absent altogether.
    pub fn unset_role(&mut self, caller: AccountId, account_id: AccountId, role: usize) -> (res:
        Result<(), AccessControlError>)
        requires
            old(self).wf(),
            0 < role < old(self).capacity(),
        ensures
            final(self).wf(),
            res is Ok <==> old(self).spec_is_admin_for(caller@, role as int),
            res is Err ==> *final(self) == *old(self) && (res matches Err(
                AccessControlError::CallerIsNotAdmin,
            )),
            res is Ok ==> Self::revoke_applied(*old(self), *final(self), account_id@, role as int),
    {
        if !self.is_admin_for(caller, role) {
            return Err(AccessControlError::CallerIsNotAdmin);
        }
        let ghost s0 = self.roles_per_account@;
        match find_entry(&self.roles_per_account, &account_id) {
            Some(i) => {
                let entry = &mut self.roles_per_account[i];
                entry.1.clear_bit(role);
                proof {
                    let e = self.roles_per_account@[i as int];
                    assert(self.roles_per_account@ == s0.update(i as int, e));
                    lemma_replace_entry(s0, i as int, e, 8 * (N as int), role as int, false);
                }
            },
            None => {
                let bm = BitMap::new(N);
                let ghost e = (account_id, bm);
                self.roles_per_account.push((account_id, bm));
                proof {
                    lemma_append_entry(s0, e, 8 * (N as int));
                }
            },
        }
        Ok(())
    }

    /// Whether bit `role` of the entry keyed by `account_id` is set in `s`,
    /// an absent entry reading as all-zero.
    fn assoc_has_bit(s: &Vec<(AccountId, BitMap)>, account_id: AccountId, role: usize) -> (r: bool)
        requires
            assoc_wf(s@, 8 * (N as int)),
            role < 8 * (N as int),
        ensures
            r == holds_bit(s@, account_id@, role as int),
    {
        match find_entry(s, &account_id) {
            Some(i) => {
                let r = s[i].1.has_bit_set(role);
                proof {
                    if r {
                        assert(holds_bit(s@, account_id@, role as int));
                    } else {
                        if holds_bit(s@, account_id@, role as int) {
                            let j = choose|j: int|
                                #![auto]
                                0 <= j < s@.len() && s@[j].0@ == account_id@ && 0 <= (role as int)
                                    < s@[j].1@.len() && s@[j].1@[role as int];
                            assert(j == i);
                        }
                    }
                }
                r
            },
            None => {
                proof {
                    if holds_bit(s@, account_id@, role as int) {
                        let j = choose|j: int|
                            #![auto]
                            0 <= j < s@.len() && s@[j].0@ == account_id@ && 0 <= (role as int)
                                < s@[j].1@.len() && s@[j].1@[role as int];
                    }
                }
                false
            },
        }
    }
}

} // verus!
