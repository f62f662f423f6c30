//! The ledger state machine. The whole ledger — admin identity and
//! project registry — is one explicit value, so every operation is a
//! checked transition from the old ledger to the new one and isolated
//! instances are trivial to set up. Durable storage and cryptographic
//! identity verification are the host's collaborators: a host adapter
//! loads the ledger, passes in the authenticated caller, and stores
//! the ledger back. Each record carries its project's goal alongside
//! its balance, so a registered project always has a goal: the
//! "required value missing" corruption a split store could exhibit
//! cannot arise here.

use vstd::prelude::*;

use crate::errors::MicroDonationsError;

verus! {

/// The identity of a caller, as the host's identity check authenticated
/// it. Verifying a caller's credential is the host's business; this
/// ledger only compares the authenticated identity against the admin.
#[derive(Clone, Copy, Debug, PartialEq, Eq, Structural)]
pub struct AccountId {
    pub id: u64,
}

/// One registered project: its name, its accumulated balance, and its
/// immutable funding goal.
struct ProjectRecord {
    name: String,
    balance: i128,
    goal: i128,
}

/// The donation ledger: the admin identity and the project registry,
/// held as one explicit value so that every operation is a plain
/// state transition from the old ledger to the new one.
pub struct MicroDonations {
    admin: AccountId,
    projects: Vec<ProjectRecord>,
}

impl MicroDonations {
    /// The admin identity, as set at initialization.
    pub closed spec fn admin_id(&self) -> AccountId {
        self.admin
    }

    /// The registered project names, in order of registration.
    pub closed spec fn project_names(&self) -> Seq<Seq<char>> {
        self.projects@.map(|i: int, p: ProjectRecord| p.name@)
    }

    /// Whether a project of this name is registered.
    pub closed spec fn has_project(&self, name: Seq<char>) -> bool {
        exists|i: int|
            0 <= i < self.projects@.len() && (#[trigger] self.projects@[i]).name@ == name
    }

    /// The index of the record of this name (meaningful only when the
    /// name is registered and names are unique).
    spec fn idx_of(&self, name: Seq<char>) -> int {
        choose|i: int|
            0 <= i < self.projects@.len() && (#[trigger] self.projects@[i]).name@ == name
    }

    /// The accumulated balance of the named project.
    pub closed spec fn balance_of(&self, name: Seq<char>) -> int {
        self.projects@[self.idx_of(name)].balance as int
    }

    /// The immutable goal of the named project.
    pub closed spec fn goal_of(&self, name: Seq<char>) -> int {
        self.projects@[self.idx_of(name)].goal as int
    }

    /// Well-formedness of the ledger: project names are unique, and
    /// every balance lies between zero and its project's positive goal.
    pub closed spec fn inv(&self) -> bool {
        &&& forall|i: int, j: int|
            0 <= i < j < self.projects@.len() ==> (#[trigger] self.projects@[i]).name@ != (
            #[trigger] self.projects@[j]).name@
        &&& forall|i: int|
            0 <= i < self.projects@.len() ==> {
                &&& 0 <= (#[trigger] self.projects@[i]).balance
                &&& self.projects@[i].balance <= self.projects@[i].goal
                &&& self.projects@[i].goal > 0
            }
    }

    /// A record whose name matches is the record the lookup spec
    /// functions speak of, provided names are unique.
    proof fn lemma_record_at(&self, name: Seq<char>, i: int)
        requires
            self.inv(),
            0 <= i < self.projects@.len(),
            self.projects@[i].name@ == name,
        ensures
            self.has_project(name),
            self.idx_of(name) == i,
            self.balance_of(name) == self.projects@[i].balance,
            self.goal_of(name) == self.projects@[i].goal,
    {
        assert(self.has_project(name));
        let j: int = self.idx_of(name);
        assert(0 <= j < self.projects@.len() && self.projects@[j].name@ == name);
        if i < j {
            assert(self.projects@[i].name@ != self.projects@[j].name@);
        } else if j < i {
            assert(self.projects@[j].name@ != self.projects@[i].name@);
        }
    }

    /// A registered name has a record at its index.
    proof fn lemma_lookup(&self, name: Seq<char>)
        requires
            self.inv(),
            self.has_project(name),
        ensures
            0 <= self.idx_of(name) < self.projects@.len(),
            self.projects@[self.idx_of(name)].name@ == name,
            self.balance_of(name) == self.projects@[self.idx_of(name)].balance,
            self.goal_of(name) == self.projects@[self.idx_of(name)].goal,
    {
    }

    /// The goal invariant: every registered project's balance lies
    /// between zero and its goal, and the goal is positive.
    pub proof fn lemma_goal_invariant(&self, name: Seq<char>)
        requires
            self.inv(),
            self.has_project(name),
        ensures
            0 <= self.balance_of(name),
            self.balance_of(name) <= self.goal_of(name),
            self.goal_of(name) > 0,
    {
        self.lemma_lookup(name);
    }

    /// The registered names are exactly those `project_names` lists.
    pub proof fn lemma_names_complete(&self)
        ensures
            forall|n: Seq<char>| #[trigger] self.project_names().contains(n) <==> self.has_project(n),
    {
        assert forall|n: Seq<char>| #[trigger] self.project_names().contains(n) <==> self.has_project(n) by {
            if self.project_names().contains(n) {
                let i: int = choose|i: int|
                    0 <= i < self.project_names().len() && self.project_names()[i] == n;
                assert(self.projects@[i].name@ == n);
            }
            if self.has_project(n) {
                let i: int = choose|i: int|
                    0 <= i < self.projects@.len() && (#[trigger] self.projects@[i]).name@ == n;
                assert(self.project_names()[i] == n);
            }
        }
    }

    /// In a well-formed ledger the listed project names are free of
    /// duplicates, so the listing's length is the number of registered
    /// projects.
    pub proof fn lemma_names_unique(&self)
        requires
            self.inv(),
        ensures
            forall|i: int, j: int|
                0 <= i < j < self.project_names().len() ==> (#[trigger] self.project_names()[i])
                    != (#[trigger] self.project_names()[j]),
    {
        assert forall|i: int, j: int|
            0 <= i < j < self.project_names().len() implies (#[trigger] self.project_names()[i])
            != (#[trigger] self.project_names()[j]) by {
            assert(self.project_names()[i] == self.projects@[i].name@);
            assert(self.project_names()[j] == self.projects@[j].name@);
            assert(self.projects@[i].name@ != self.projects@[j].name@);
        }
    }

    /// One observation preserving another: every project registered in
    /// `prev` is still registered in `cur`, with the same goal. Every
    /// operation of this ledger ensures this of its old and new states.
    pub open spec fn preserves_goals(prev: Self, cur: Self) -> bool {
        forall|n: Seq<char>|
            #[trigger] prev.has_project(n) ==> cur.has_project(n) && cur.goal_of(n)
                == prev.goal_of(n)
    }

    /// Goal stability over any run of calls: along any chain of ledger
    /// states in which each state follows from the one before it by a
    /// single operation — so each adjacent pair satisfies
    /// `preserves_goals`, as every operation ensures — a project
    /// registered at the start is still registered at the end and its
    /// goal is never observed to differ.
    pub proof fn lemma_goal_stability(states: Seq<MicroDonations>)
        requires
            states.len() >= 1,
            forall|k: int|
                0 <= k < states.len() - 1 ==> #[trigger] Self::preserves_goals(
                    states[k],
                    states[k + 1],
                ),
        ensures
            Self::preserves_goals(states[0], states[states.len() - 1]),
        decreases states.len(),
    {
        if states.len() > 1 {
            Self::lemma_goal_stability(states.drop_last());
            let k: int = states.len() - 2;
            assert(Self::preserves_goals(states[k], states[k + 1]));
        }
    }

    /// Changing one record's balance within its goal bounds keeps the
    /// ledger well formed and every other observation unchanged.
    proof fn lemma_update_balance(prev: Self, cur: Self, i: int)
        requires
            prev.inv(),
            0 <= i < prev.projects@.len(),
            cur.projects@.len() == prev.projects@.len(),
            cur.projects@[i].name@ == prev.projects@[i].name@,
            cur.projects@[i].goal == prev.projects@[i].goal,
            0 <= cur.projects@[i].balance,
            cur.projects@[i].balance <= cur.projects@[i].goal,
            forall|j: int|
                0 <= j < cur.projects@.len() && j != i ==> #[trigger] cur.projects@[j]
                    == prev.projects@[j],
        ensures
            cur.inv(),
            cur.project_names() == prev.project_names(),
            forall|n: Seq<char>| #[trigger] cur.has_project(n) <==> prev.has_project(n),
            forall|n: Seq<char>|
                prev.has_project(n) ==> #[trigger] cur.goal_of(n) == prev.goal_of(n),
            forall|n: Seq<char>|
                prev.has_project(n) && n != prev.projects@[i].name@ ==> #[trigger] cur.balance_of(
                    n,
                ) == prev.balance_of(n),
            cur.has_project(prev.projects@[i].name@),
            cur.balance_of(prev.projects@[i].name@) == cur.projects@[i].balance,
            cur.goal_of(prev.projects@[i].name@) == prev.projects@[i].goal,
    {
        assert forall|j: int|
            0 <= j < cur.projects@.len() implies (#[trigger] cur.projects@[j]).name@
            == prev.projects@[j].name@ by {}
        assert(cur.project_names() =~= prev.project_names());
        assert forall|p: int, q: int|
            0 <= p < q < cur.projects@.len() implies (#[trigger] cur.projects@[p]).name@ != (
        #[trigger] cur.projects@[q]).name@ by {
            assert(prev.projects@[p].name@ != prev.projects@[q].name@);
        }
        assert forall|j: int|
            0 <= j < cur.projects@.len() implies {
            &&& 0 <= (#[trigger] cur.projects@[j]).balance
            &&& cur.projects@[j].balance <= cur.projects@[j].goal
            &&& cur.projects@[j].goal > 0
        } by {
            if j != i {
                assert(cur.projects@[j] == prev.projects@[j]);
                assert(0 <= prev.projects@[j].balance <= prev.projects@[j].goal);
            } else {
                assert(0 < prev.projects@[i].goal);
            }
        }
        assert forall|n: Seq<char>| #[trigger] cur.has_project(n) <==> prev.has_project(n) by {
            if cur.has_project(n) {
                let j: int = choose|j: int|
                    0 <= j < cur.projects@.len() && (#[trigger] cur.projects@[j]).name@ == n;
                assert(prev.projects@[j].name@ == n);
            }
            if prev.has_project(n) {
                let j: int = choose|j: int|
                    0 <= j < prev.projects@.len() && (#[trigger] prev.projects@[j]).name@ == n;
                assert(cur.projects@[j].name@ == n);
            }
        }
        assert forall|n: Seq<char>| prev.has_project(n) implies #[trigger] cur.goal_of(n)
            == prev.goal_of(n) by {
            prev.lemma_lookup(n);
            cur.lemma_record_at(n, prev.idx_of(n));
        }
        assert forall|n: Seq<char>|
            prev.has_project(n) && n != prev.projects@[i].name@ implies #[trigger] cur.balance_of(n)
            == prev.balance_of(n) by {
            prev.lemma_lookup(n);
            cur.lemma_record_at(n, prev.idx_of(n));
        }
        cur.lemma_record_at(prev.projects@[i].name@, i);
    }

    /// Sets up a fresh ledger: the given identity becomes the admin,
    /// and the registry starts empty.
    pub fn init(admin: AccountId) -> (r: MicroDonations)
        ensures
            r.inv(),
            r.admin_id() == admin,
            r.project_names() == Seq::<Seq<char>>::empty(),
            forall|n: Seq<char>| !(#[trigger] r.has_project(n)),
    {
        let r = MicroDonations { admin, projects: Vec::new() };
        proof {
            assert(r.project_names() =~= Seq::<Seq<char>>::empty());
        }
        r
    }

    /// The admin identity of this ledger.
    pub fn admin(&self) -> (r: AccountId)
        ensures
            r == self.admin_id(),
    {
        self.admin
    }

    /// The index of the named project's record, if it is registered.
    fn find_index(&self, name: &String) -> (r: Option<usize>)
        requires
            self.inv(),
        ensures
            match r {
                Some(i) => i < self.projects@.len() && self.projects@[i as int].name@ == name@
                    && self.has_project(name@) && self.idx_of(name@) == i,
                None => !self.has_project(name@),
            },
    {
        let n: usize = self.projects.len();
        let mut i: usize = 0;
        while i < n
            invariant
                self.inv(),
                n == self.projects@.len(),
                i <= n,
                forall|j: int| 0 <= j < i ==> (#[trigger] self.projects@[j]).name@ != name@,
            decreases n - i,
        {
            if self.projects[i].name == *name {
                proof {
                    self.lemma_record_at(name@, i as int);
                }
                return Some(i);
            }
            i += 1;
        }
        None
    }

    /// Registers a new project with a zero balance and the given goal.
    /// Admin-gated: only the admin identity may create projects. The
    /// goal must be positive and the name must not be taken; the
    /// registry and every existing project are untouched on failure.
    pub fn create_project(&mut self, caller: AccountId, name: String, goal: i128) -> (r: Result<
        (),
        MicroDonationsError,
    >)
        requires
            old(self).inv(),
        ensures
            final(self).inv(),
            final(self).admin_id() == old(self).admin_id(),
            Self::preserves_goals(*old(self), *final(self)),
            match r {
                Ok(()) => {
                    &&& caller == old(self).admin_id()
                    &&& goal > 0
                    &&& !old(self).has_project(name@)
                    &&& final(self).project_names() == old(self).project_names().push(name@)
                    &&& final(self).has_project(name@)
                    &&& final(self).balance_of(name@) == 0
                    &&& final(self).goal_of(name@) == goal as int
                    &&& forall|n: Seq<char>|
                        #[trigger] old(self).has_project(n)
                            ==> final(self).balance_of(n) == old(self).balance_of(n)
                },
                Err(MicroDonationsError::Unauthorized) => caller != old(self).admin_id()
                    && *final(self) == *old(self),
                Err(MicroDonationsError::InvalidAmount) => caller == old(self).admin_id()
                    && goal <= 0 && *final(self) == *old(self),
                Err(MicroDonationsError::ProjectAlreadyExists) => caller == old(self).admin_id()
                    && goal > 0 && old(self).has_project(name@) && *final(self) == *old(self),
                Err(_) => false,
            },
    {
        if caller != self.admin {
            return Err(MicroDonationsError::Unauthorized);
        }
        if goal <= 0 {
            return Err(MicroDonationsError::InvalidAmount);
        }
        if let Some(_) = self.find_index(&name) {
            return Err(MicroDonationsError::ProjectAlreadyExists);
        }
        let ghost prev = *self;
        self.projects.push(ProjectRecord { name, balance: 0, goal });
        proof {
            let len: int = prev.projects@.len() as int;
            assert(self.project_names() =~= prev.project_names().push(name@));
            assert forall|i: int, j: int|
                0 <= i < j < self.projects@.len() implies (#[trigger] self.projects@[i]).name@ != (
            #[trigger] self.projects@[j]).name@ by {
                if j == len {
                    if prev.projects@[i].name@ == name@ {
                        assert(prev.has_project(name@));
                    }
                } else {
                    assert(prev.projects@[i] == self.projects@[i]);
                    assert(prev.projects@[j] == self.projects@[j]);
                }
            }
            self.lemma_record_at(name@, len);
            assert forall|n: Seq<char>| #[trigger] prev.has_project(n) implies self.has_project(n)
                && self.balance_of(n) == prev.balance_of(n) && self.goal_of(n) == prev.goal_of(
                n,
            ) by {
                prev.lemma_lookup(n);
                self.lemma_record_at(n, prev.idx_of(n));
            }
        }
        Ok(())
    }

    /// Adds a donation to the named project's balance. Open to every
    /// caller: donations need no authorization. The amount must be
    /// positive, must not overflow the balance (an overflowing amount
    /// is rejected as invalid, never wrapped), and must not push the
    /// balance above the goal; the ledger is untouched on failure.
    pub fn donate(&mut self, project: String, amount: i128) -> (r: Result<
        (),
        MicroDonationsError,
    >)
        requires
            old(self).inv(),
        ensures
            final(self).inv(),
            final(self).admin_id() == old(self).admin_id(),
            final(self).project_names() == old(self).project_names(),
            forall|n: Seq<char>| #[trigger] final(self).has_project(n) <==> old(self).has_project(n),
            Self::preserves_goals(*old(self), *final(self)),
            match r {
                Ok(()) => {
                    &&& old(self).has_project(project@)
                    &&& amount > 0
                    &&& old(self).balance_of(project@) + amount <= old(self).goal_of(project@)
                    &&& final(self).balance_of(project@) == old(self).balance_of(project@) + amount
                    &&& 0 <= final(self).balance_of(project@) <= final(self).goal_of(project@)
                    &&& forall|n: Seq<char>|
                        old(self).has_project(n) && n != project@
                            ==> #[trigger] final(self).balance_of(n) == old(self).balance_of(n)
                },
                Err(MicroDonationsError::ProjectNotFound) => !old(self).has_project(project@)
                    && *final(self) == *old(self),
                Err(MicroDonationsError::InvalidAmount) => old(self).has_project(project@)
                    && (amount <= 0 || old(self).balance_of(project@) + amount > i128::MAX)
                    && *final(self) == *old(self),
                Err(MicroDonationsError::GoalExceeded) => old(self).has_project(project@)
                    && amount > 0
                    && old(self).balance_of(project@) + amount <= i128::MAX
                    && old(self).balance_of(project@) + amount > old(self).goal_of(project@)
                    && *final(self) == *old(self),
                Err(_) => false,
            },
    {
        let i: usize = match self.find_index(&project) {
            Some(i) => i,
            None => {
                return Err(MicroDonationsError::ProjectNotFound);
            },
        };
        if amount <= 0 {
            return Err(MicroDonationsError::InvalidAmount);
        }
        if amount > i128::MAX - self.projects[i].balance {
            return Err(MicroDonationsError::InvalidAmount);
        }
        let room: i128 = self.projects[i].goal - self.projects[i].balance;
        if amount > room {
            return Err(MicroDonationsError::GoalExceeded);
        }
        let ghost prev = *self;
        let raised: i128 = self.projects[i].balance + amount;
        self.projects[i].balance = raised;
        proof {
            Self::lemma_update_balance(prev, *self, i as int);
        }
        Ok(())
    }

    /// Takes funds out of the named project's balance. Admin-gated:
    /// only the admin identity may withdraw. The amount must be
    /// positive and at most the current balance, so the balance can
    /// reach zero but never fall below it; the ledger is untouched on
    /// failure.
    pub fn withdraw(&mut self, caller: AccountId, project: String, amount: i128) -> (r: Result<
        (),
        MicroDonationsError,
    >)
        requires
            old(self).inv(),
        ensures
            final(self).inv(),
            final(self).admin_id() == old(self).admin_id(),
            final(self).project_names() == old(self).project_names(),
            forall|n: Seq<char>| #[trigger] final(self).has_project(n) <==> old(self).has_project(n),
            Self::preserves_goals(*old(self), *final(self)),
            match r {
                Ok(()) => {
                    &&& caller == old(self).admin_id()
                    &&& old(self).has_project(project@)
                    &&& 0 < amount <= old(self).balance_of(project@)
                    &&& final(self).balance_of(project@) == old(self).balance_of(project@) - amount
                    &&& 0 <= final(self).balance_of(project@) <= final(self).goal_of(project@)
                    &&& forall|n: Seq<char>|
                        old(self).has_project(n) && n != project@
                            ==> #[trigger] final(self).balance_of(n) == old(self).balance_of(n)
                },
                Err(MicroDonationsError::Unauthorized) => caller != old(self).admin_id()
                    && *final(self) == *old(self),
                Err(MicroDonationsError::ProjectNotFound) => caller == old(self).admin_id()
                    && !old(self).has_project(project@) && *final(self) == *old(self),
                Err(MicroDonationsError::InvalidAmount) => caller == old(self).admin_id()
                    && old(self).has_project(project@)
                    && (amount <= 0 || amount > old(self).balance_of(project@))
                    && *final(self) == *old(self),
                Err(_) => false,
            },
    {
        if caller != self.admin {
            return Err(MicroDonationsError::Unauthorized);
        }
        let i: usize = match self.find_index(&project) {
            Some(i) => i,
            None => {
                return Err(MicroDonationsError::ProjectNotFound);
            },
        };
        if amount <= 0 || amount > self.projects[i].balance {
            return Err(MicroDonationsError::InvalidAmount);
        }
        let ghost prev = *self;
        let remaining: i128 = self.projects[i].balance - amount;
        self.projects[i].balance = remaining;
        proof {
            Self::lemma_update_balance(prev, *self, i as int);
        }
        Ok(())
    }

    /// Reports the named project's balance and goal, in that order.
    /// Read-only: no authorization is required and nothing changes.
    pub fn get_project_status(&self, project: String) -> (r: Result<
        (i128, i128),
        MicroDonationsError,
    >)
        requires
            self.inv(),
        ensures
            match r {
                Ok(bg) => self.has_project(project@) && bg.0 == self.balance_of(project@)
                    && bg.1 == self.goal_of(project@),
                Err(MicroDonationsError::ProjectNotFound) => !self.has_project(project@),
                Err(_) => false,
            },
    {
        match self.find_index(&project) {
            Some(i) => Ok((self.projects[i].balance, self.projects[i].goal)),
            None => Err(MicroDonationsError::ProjectNotFound),
        }
    }

    /// Lists every registered project name, in order of registration
    /// (a guarantee this implementation makes and keeps). Read-only:
    /// no authorization is required and nothing changes.
    pub fn get_all_projects(&self) -> (r: Vec<String>)
        ensures
            r.deep_view() == self.project_names(),
    {
        let n: usize = self.projects.len();
        let mut out: Vec<String> = Vec::new();
        let mut i: usize = 0;
        while i < n
            invariant
                n == self.projects@.len(),
                i <= n,
                out@.len() == i,
                forall|j: int| 0 <= j < i ==> (#[trigger] out@[j])@ == self.projects@[j].name@,
            decreases n - i,
        {
            out.push(self.projects[i].name.clone());
            i += 1;
        }
        proof {
            assert(out.deep_view() =~= self.project_names());
        }
        out
    }
}

} // verus!
