use vstd::prelude::*;
use crate::error::AccessControlError;

verus! {

/// Name of the self-administering root role.
pub open spec fn default_admin_role_spec() -> Seq<char> {
    "DEFAULT_ADMIN"@
}

/// The root role's name as a value.
pub fn default_admin_role() -> (r: String)
    ensures
        r@ == default_admin_role_spec(),
{
    String::from_str("DEFAULT_ADMIN")
}

/// Role membership and the role-admin relation of one instance.
///
/// `admins` holds (role, administering role) pairs with distinct roles;
/// `members` holds distinct (role, principal) pairs.
pub struct AccessControl {
    initialized: bool,
    admins: Vec<(String, String)>,
    members: Vec<(String, String)>,
}

pub open spec fn pair_view(p: (String, String)) -> (Seq<char>, Seq<char>) {
    (p.0@, p.1@)
}

impl AccessControl {
    /// Whether `initialize` has succeeded on this instance.
    pub closed spec fn is_initialized(&self) -> bool {
        self.initialized
    }

    /// The role-admin relation: role to administering role.
    pub closed spec fn admin_map(&self) -> Map<Seq<char>, Seq<char>> {
        Map::new(
            |r: Seq<char>| exists|i: int| 0 <= i < self.admins@.len() && self.admins@[i].0@ == r,
            |r: Seq<char>|
                self.admins@[choose|i: int|
                    0 <= i < self.admins@.len() && self.admins@[i].0@ == r].1@,
        )
    }

    /// Role membership, as a set of (role, principal) pairs.
    pub closed spec fn members(&self) -> Set<(Seq<char>, Seq<char>)> {
        Set::new(
            |p: (Seq<char>, Seq<char>)|
                exists|i: int| 0 <= i < self.members@.len() && pair_view(self.members@[i]) == p,
        )
    }

    /// Whether `who` is a member of `role`.
    pub open spec fn holds(&self, role: Seq<char>, who: Seq<char>) -> bool {
        self.members().contains((role, who))
    }

    pub closed spec fn wf(&self) -> bool {
        &&& forall|i: int, j: int|
            0 <= i < self.admins@.len() && 0 <= j < self.admins@.len() && self.admins@[i].0@
                == self.admins@[j].0@ ==> i == j
        &&& forall|i: int, j: int|
            0 <= i < self.members@.len() && 0 <= j < self.members@.len() && pair_view(
                self.members@[i],
            ) == pair_view(self.members@[j]) ==> i == j
    }

    proof fn lemma_admin_at(&self, i: int)
        requires
            self.wf(),
            0 <= i < self.admins@.len(),
        ensures
            self.admin_map().contains_key(self.admins@[i].0@),
            self.admin_map()[self.admins@[i].0@] == self.admins@[i].1@,
    {
        let r = self.admins@[i].0@;
        assert(self.admin_map().contains_key(r));
        let j = choose|j: int| 0 <= j < self.admins@.len() && self.admins@[j].0@ == r;
        assert(i == j);
    }

    /// An uninitialized instance with no roles.
    pub fn new() -> (r: Self)
        ensures
            r.wf(),
            !r.is_initialized(),
            r.admin_map() == Map::<Seq<char>, Seq<char>>::empty(),
            r.members() == Set::<(Seq<char>, Seq<char>)>::empty(),
    {
        let r = AccessControl { initialized: false, admins: Vec::new(), members: Vec::new() };
        assert(r.admin_map() =~= Map::<Seq<char>, Seq<char>>::empty());
        assert(r.members() =~= Set::<(Seq<char>, Seq<char>)>::empty());
        r
    }

    /// Whether `initialize` has succeeded on this instance.
    pub fn initialized(&self) -> (r: bool)
        ensures
            r == self.is_initialized(),
    {
        self.initialized
    }

    fn find_admin(&self, role: &String) -> (r: Option<usize>)
        requires
            self.wf(),
        ensures
            match r {
                Some(i) => i < self.admins@.len() && self.admins@[i as int].0@ == role@,
                None => !self.admin_map().contains_key(role@),
            },
    {
        let mut i: usize = 0;
        while i < self.admins.len()
            invariant
                i <= self.admins@.len(),
                forall|j: int| 0 <= j < i ==> self.admins@[j].0@ != role@,
            decreases self.admins@.len() - i,
        {
            if self.admins[i].0 == *role {
                return Some(i);
            }
            i = i + 1;
        }
        None
    }

    fn find_member(&self, role: &String, who: &String) -> (r: Option<usize>)
        requires
            self.wf(),
        ensures
            match r {
                Some(i) => i < self.members@.len() && pair_view(self.members@[i as int]) == (
                role@,
                who@,
                ),
                None => !self.holds(role@, who@),
            },
    {
        let mut i: usize = 0;
        while i < self.members.len()
            invariant
                i <= self.members@.len(),
                forall|j: int| 0 <= j < i ==> pair_view(self.members@[j]) != (role@, who@),
            decreases self.members@.len() - i,
        {
            if self.members[i].0 == *role && self.members[i].1 == *who {
                return Some(i);
            }
            i = i + 1;
        }
        None
    }

    /// The role that administers `role`, if one is defined.
    pub fn get_role_admin(&self, role: &String) -> (r: Option<String>)
        requires
            self.wf(),
        ensures
            match r {
                Some(a) => self.admin_map().contains_key(role@) && self.admin_map()[role@] == a@,
                None => !self.admin_map().contains_key(role@),
            },
    {
        match self.find_admin(role) {
            Some(i) => {
                proof {
                    self.lemma_admin_at(i as int);
                }
                Some(self.admins[i].1.clone())
            },
            None => None,
        }
    }

    /// Whether `who` is a member of `role`.
    pub fn has_role(&self, role: &String, who: &String) -> (r: bool)
        requires
            self.wf(),
        ensures
            r == self.holds(role@, who@),
    {
        match self.find_member(role, who) {
            Some(i) => {
                assert(self.members@.len() > i && pair_view(self.members@[i as int]) == (
                role@,
                who@,
                ));
                true
            },
            None => false,
        }
    }

    /// Defines, or redefines, which role administers `role`. No caller is
    /// checked here: consumers call it only while they are being set up.
    pub fn set_role_admin(&mut self, role: &String, admin_role: &String)
        requires
            old(self).wf(),
        ensures
            final(self).wf(),
            final(self).admin_map() == old(self).admin_map().insert(role@, admin_role@),
            final(self).members() == old(self).members(),
            final(self).is_initialized() == old(self).is_initialized(),
    {
        let ghost old_map = self.admin_map();
        match self.find_admin(role) {
            Some(i) => {
                self.admins.set(i, (role.clone(), admin_role.clone()));
                proof {
                    assert forall|a: int, b: int|
                        0 <= a < self.admins@.len() && 0 <= b < self.admins@.len()
                            && self.admins@[a].0@ == self.admins@[b].0@ implies a == b by {
                        assert(self.admins@[a].0@ == old(self).admins@[a].0@);
                        assert(self.admins@[b].0@ == old(self).admins@[b].0@);
                    }
                    assert forall|r: Seq<char>|
                        self.admin_map().contains_key(r) <==> old_map.insert(
                            role@,
                            admin_role@,
                        ).contains_key(r) by {
                        if old_map.contains_key(r) {
                            let j = choose|j: int|
                                0 <= j < old(self).admins@.len() && old(self).admins@[j].0@ == r;
                            assert(self.admins@[j].0@ == r);
                        }
                        if self.admin_map().contains_key(r) {
                            let j = choose|j: int|
                                0 <= j < self.admins@.len() && self.admins@[j].0@ == r;
                            assert(old(self).admins@[j].0@ == r);
                        }
                    }
                    assert forall|r: Seq<char>| #[trigger]
                        self.admin_map().contains_key(r) implies self.admin_map()[r]
                        == old_map.insert(role@, admin_role@)[r] by {
                        let j = choose|j: int|
                            0 <= j < self.admins@.len() && self.admins@[j].0@ == r;
                        self.lemma_admin_at(j);
                        if j != i {
                            old(self).lemma_admin_at(j);
                        }
                    }
                    assert(self.admin_map() =~= old_map.insert(role@, admin_role@));
                    assert(self.members() =~= old(self).members());
                }
            },
            None => {
                self.admins.push((role.clone(), admin_role.clone()));
                proof {
                    let n = old(self).admins@.len() as int;
                    assert forall|r: Seq<char>|
                        self.admin_map().contains_key(r) <==> old_map.insert(
                            role@,
                            admin_role@,
                        ).contains_key(r) by {
                        if old_map.contains_key(r) {
                            let j = choose|j: int|
                                0 <= j < old(self).admins@.len() && old(self).admins@[j].0@ == r;
                            assert(self.admins@[j] == old(self).admins@[j]);
                        }
                        if r == role@ {
                            assert(self.admins@[n].0@ == r);
                        }
                        if self.admin_map().contains_key(r) && r != role@ {
                            let j = choose|j: int|
                                0 <= j < self.admins@.len() && self.admins@[j].0@ == r;
                            assert(old(self).admins@[j].0@ == r);
                        }
                    }
                    assert forall|r: Seq<char>| #[trigger]
                        self.admin_map().contains_key(r) implies self.admin_map()[r]
                        == old_map.insert(role@, admin_role@)[r] by {
                        let j = choose|j: int|
                            0 <= j < self.admins@.len() && self.admins@[j].0@ == r;
                        self.lemma_admin_at(j);
                        if j != n {
                            old(self).lemma_admin_at(j);
                        }
                    }
                    assert(self.admin_map() =~= old_map.insert(role@, admin_role@));
                    assert(self.members() =~= old(self).members());
                }
            },
        }
    }

    /// Adds `who` to `role` without any check. Only the setup of this crate's
    /// consumers reaches it.
    pub(crate) fn grant_role_unchecked(&mut self, role: &String, who: &String)
        requires
            old(self).wf(),
        ensures
            final(self).wf(),
            final(self).members() == old(self).members().insert((role@, who@)),
            final(self).admin_map() == old(self).admin_map(),
            final(self).is_initialized() == old(self).is_initialized(),
    {
        match self.find_member(role, who) {
            Some(i) => {
                assert(self.members() =~= old(self).members().insert((role@, who@)));
            },
            None => {
                self.members.push((role.clone(), who.clone()));
                proof {
                    let n = old(self).members@.len() as int;
                    assert(pair_view(self.members@[n]) == (role@, who@));
                    assert forall|p: (Seq<char>, Seq<char>)|
                        old(self).members().insert((role@, who@)).contains(p) implies self.members().contains(
                            p,
                        ) by {
                        if old(self).members().contains(p) {
                            let j = choose|j: int|
                                0 <= j < old(self).members@.len() && pair_view(
                                    old(self).members@[j],
                                ) == p;
                            assert(self.members@[j] == old(self).members@[j]);
                        }
                    }
                    assert forall|p: (Seq<char>, Seq<char>)|
                        self.members().contains(p) implies old(self).members().insert(
                            (role@, who@),
                        ).contains(p) by {
                        let j = choose|j: int|
                            0 <= j < self.members@.len() && pair_view(self.members@[j]) == p;
                        if j < n {
                            assert(pair_view(old(self).members@[j]) == p);
                        }
                    }
                    assert(self.members() =~= old(self).members().insert((role@, who@)));
                    assert(self.admin_map() =~= old(self).admin_map());
                }
            },
        }
    }

    /// Removes `who` from `role` without any check.
    fn revoke_role_unchecked(&mut self, role: &String, who: &String)
        requires
            old(self).wf(),
        ensures
            final(self).wf(),
            final(self).members() == old(self).members().remove((role@, who@)),
            final(self).admin_map() == old(self).admin_map(),
            final(self).is_initialized() == old(self).is_initialized(),
    {
        match self.find_member(role, who) {
            Some(i) => {
                self.members.remove(i);
                proof {
                    let k = i as int;
                    assert forall|a: int, b: int|
                        0 <= a < self.members@.len() && 0 <= b < self.members@.len()
                            && pair_view(self.members@[a]) == pair_view(
                            self.members@[b],
                        ) implies a == b by {
                        let a2 = if a < k { a } else { a + 1 };
                        let b2 = if b < k { b } else { b + 1 };
                        assert(self.members@[a] == old(self).members@[a2]);
                        assert(self.members@[b] == old(self).members@[b2]);
                    }
                    assert forall|p: (Seq<char>, Seq<char>)|
                        old(self).members().remove((role@, who@)).contains(p) implies self.members().contains(
                            p,
                        ) by {
                        if old(self).members().remove((role@, who@)).contains(p) {
                            let j = choose|j: int|
                                0 <= j < old(self).members@.len() && pair_view(
                                    old(self).members@[j],
                                ) == p;
                            assert(j != k);
                            if j < k {
                                assert(self.members@[j] == old(self).members@[j]);
                            } else {
                                assert(self.members@[j - 1] == old(self).members@[j]);
                            }
                        }
                    }
                    assert forall|p: (Seq<char>, Seq<char>)|
                        self.members().contains(p) implies old(self).members().remove(
                            (role@, who@),
                        ).contains(p) by {
                        let j = choose|j: int|
                            0 <= j < self.members@.len() && pair_view(self.members@[j]) == p;
                        let j2 = if j < k { j } else { j + 1 };
                        assert(self.members@[j] == old(self).members@[j2]);
                        assert(j2 != k);
                    }
                    assert(self.members() =~= old(self).members().remove((role@, who@)));
                    assert(self.admin_map() =~= old(self).admin_map());
                }
            },
            None => {
                assert(self.members() =~= old(self).members().remove((role@, who@)));
            },
        }
    }
    /// What `initialize` does: from `pre`, with `owner`, it gives `post` and `r`.
    pub open spec fn initialize_outcome(
        pre: AccessControl,
        owner: Seq<char>,
        post: AccessControl,
        r: Result<(), AccessControlError>,
    ) -> bool {
        &&& pre.is_initialized() ==> r == Err::<(), AccessControlError>(
            AccessControlError::AlreadyInitializedError,
        ) && post == pre
        &&& !pre.is_initialized() ==> r is Ok && post.is_initialized() && post.admin_map()
            == pre.admin_map().insert(default_admin_role_spec(), default_admin_role_spec())
            && post.members() == pre.members().insert((default_admin_role_spec(), owner))
    }

    /// Bootstraps the instance: the root role becomes self-administering and
    /// `owner` is granted it. Succeeds only on an uninitialized instance; on
    /// any other it fails and changes nothing.
    pub fn initialize(&mut self, owner: &String) -> (r: Result<(), AccessControlError>)
        requires
            old(self).wf(),
        ensures
            final(self).wf(),
            AccessControl::initialize_outcome(*old(self), owner@, *final(self), r),
    {
        if self.initialized {
            return Err(AccessControlError::AlreadyInitializedError);
        }
        let root = default_admin_role();
        self.set_role_admin(&root, &root);
        self.grant_role_unchecked(&root, owner);
        self.initialized = true;
        proof {
            assert(self.admin_map() =~= old(self).admin_map().insert(
                default_admin_role_spec(),
                default_admin_role_spec(),
            ));
            assert(self.members() =~= old(self).members().insert(
                (default_admin_role_spec(), owner@),
            ));
        }
        Ok(())
    }

    /// The authorization check: succeeds exactly when `caller` holds `role`
    /// now, and changes nothing.
    pub fn only_role(&self, caller: &String, role: &String) -> (r: Result<(), AccessControlError>)
        requires
            self.wf(),
        ensures
            r == self.role_check(caller@, role@),
            r is Ok <==> self.holds(role@, caller@),
    {
        if self.has_role(role, caller) {
            Ok(())
        } else {
            Err(AccessControlError::UnauthorizedError)
        }
    }

    /// Checks that `caller` may change membership of `role`: the role must
    /// have an administering role, and `caller` must hold it.
    fn check_role_admin(&self, caller: &String, role: &String) -> (r: Result<
        (),
        AccessControlError,
    >)
        requires
            self.wf(),
        ensures
            r == self.admin_check(caller@, role@),
    {
        match self.get_role_admin(role) {
            None => Err(AccessControlError::UndefinedRole),
            Some(admin) => self.only_role(caller, &admin),
        }
    }

    /// Outcome of `only_role`.
    pub open spec fn role_check(&self, caller: Seq<char>, role: Seq<char>) -> Result<
        (),
        AccessControlError,
    > {
        if self.holds(role, caller) {
            Ok(())
        } else {
            Err(AccessControlError::UnauthorizedError)
        }
    }

    /// Outcome of the check that `grant_role` and `revoke_role` make.
    pub open spec fn admin_check(&self, caller: Seq<char>, role: Seq<char>) -> Result<
        (),
        AccessControlError,
    > {
        if !self.admin_map().contains_key(role) {
            Err(AccessControlError::UndefinedRole)
        } else {
            self.role_check(caller, self.admin_map()[role])
        }
    }

    /// What `grant_role` does: from `pre` it gives `post` and `r`.
    pub open spec fn grant_outcome(
        pre: AccessControl,
        caller: Seq<char>,
        role: Seq<char>,
        target: Seq<char>,
        post: AccessControl,
        r: Result<(), AccessControlError>,
    ) -> bool {
        &&& r == pre.admin_check(caller, role)
        &&& r is Ok ==> post.members() == pre.members().insert((role, target))
            && post.admin_map() == pre.admin_map() && post.is_initialized()
            == pre.is_initialized()
        &&& r is Err ==> post == pre
    }

    /// Adds `target` to `role`, where `caller` holds the role that
    /// administers `role`. On failure nothing changes.
    pub fn grant_role(&mut self, caller: &String, role: &String, target: &String) -> (r: Result<
        (),
        AccessControlError,
    >)
        requires
            old(self).wf(),
        ensures
            final(self).wf(),
            AccessControl::grant_outcome(*old(self), caller@, role@, target@, *final(self), r),
    {
        match self.check_role_admin(caller, role) {
            Err(e) => Err(e),
            Ok(()) => {
                self.grant_role_unchecked(role, target);
                Ok(())
            },
        }
    }

    /// What `revoke_role` does: from `pre` it gives `post` and `r`.
    pub open spec fn revoke_outcome(
        pre: AccessControl,
        caller: Seq<char>,
        role: Seq<char>,
        target: Seq<char>,
        post: AccessControl,
        r: Result<(), AccessControlError>,
    ) -> bool {
        &&& r == pre.admin_check(caller, role)
        &&& r is Ok ==> post.members() == pre.members().remove((role, target))
            && post.admin_map() == pre.admin_map() && post.is_initialized()
            == pre.is_initialized()
        &&& r is Err ==> post == pre
    }

    /// Removes `target` from `role`, where `caller` holds the role that
    /// administers `role`. On failure nothing changes.
    pub fn revoke_role(&mut self, caller: &String, role: &String, target: &String) -> (r: Result<
        (),
        AccessControlError,
    >)
        requires
            old(self).wf(),
        ensures
            final(self).wf(),
            AccessControl::revoke_outcome(*old(self), caller@, role@, target@, *final(self), r),
    {
        match self.check_role_admin(caller, role) {
            Err(e) => Err(e),
            Ok(()) => {
                self.revoke_role_unchecked(role, target);
                Ok(())
            },
        }
    }
}

/// Initialization succeeds once: on an uninitialized instance the first
/// `initialize` succeeds, and a second one fails with
/// `AlreadyInitializedError` and leaves the roles as the first left them.
pub proof fn law_initialize_once(
    a: AccessControl,
    owner1: Seq<char>,
    b: AccessControl,
    r1: Result<(), AccessControlError>,
    owner2: Seq<char>,
    c: AccessControl,
    r2: Result<(), AccessControlError>,
)
    requires
        !a.is_initialized(),
        AccessControl::initialize_outcome(a, owner1, b, r1),
        AccessControl::initialize_outcome(b, owner2, c, r2),
    ensures
        r1 is Ok,
        r2 == Err::<(), AccessControlError>(AccessControlError::AlreadyInitializedError),
        c == b,
{
}

/// `grant_role` on a role with no administering role fails with
/// `UndefinedRole` and changes nothing.
pub proof fn law_grant_undefined_role(
    pre: AccessControl,
    caller: Seq<char>,
    role: Seq<char>,
    target: Seq<char>,
    post: AccessControl,
    r: Result<(), AccessControlError>,
)
    requires
        !pre.admin_map().contains_key(role),
        AccessControl::grant_outcome(pre, caller, role, target, post, r),
    ensures
        r == Err::<(), AccessControlError>(AccessControlError::UndefinedRole),
        post == pre,
{
}

/// `revoke_role` on a role with no administering role fails with
/// `UndefinedRole` and changes nothing.
pub proof fn law_revoke_undefined_role(
    pre: AccessControl,
    caller: Seq<char>,
    role: Seq<char>,
    target: Seq<char>,
    post: AccessControl,
    r: Result<(), AccessControlError>,
)
    requires
        !pre.admin_map().contains_key(role),
        AccessControl::revoke_outcome(pre, caller, role, target, post, r),
    ensures
        r == Err::<(), AccessControlError>(AccessControlError::UndefinedRole),
        post == pre,
{
}

/// The authorization check reads membership as it stands: right after a
/// successful grant of `role` to `target` it succeeds for `target`, and
/// right after a successful revoke it fails with `UnauthorizedError`.
pub proof fn law_only_role_current(
    pre: AccessControl,
    caller: Seq<char>,
    role: Seq<char>,
    target: Seq<char>,
    granted: AccessControl,
    rg: Result<(), AccessControlError>,
    revoked: AccessControl,
    rr: Result<(), AccessControlError>,
)
    requires
        AccessControl::grant_outcome(pre, caller, role, target, granted, rg),
        AccessControl::revoke_outcome(pre, caller, role, target, revoked, rr),
    ensures
        rg is Ok ==> granted.role_check(target, role) == Ok::<(), AccessControlError>(()),
        rr is Ok ==> revoked.role_check(target, role) == Err::<(), AccessControlError>(
            AccessControlError::UnauthorizedError,
        ),
{
}

} // verus!
