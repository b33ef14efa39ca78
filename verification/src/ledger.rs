//! The ledger itself: accounts keyed by a 160-bit address, each with a
//! balance and two append-only text logs.

use vstd::prelude::*;

use crate::u256::U256;
use crate::u256::max_u256;

verus! {

/// An account identifier: an opaque 160-bit value, split into a 32-bit
/// high part and a 128-bit low part.
#[derive(Clone, Copy, PartialEq, Eq, Structural, Debug)]
pub struct Address {
    pub hi: u32,
    pub lo: u128,
}

/// Why an operation was rejected. A rejected operation leaves the ledger
/// unchanged.
#[derive(Clone, Copy, PartialEq, Eq, Structural, Debug)]
pub enum LedgerError {
    /// A transfer asked for more than the sender holds.
    InsufficientBalance,
    /// A credit would push a balance past 2^256 - 1.
    ArithmeticOverflow,
}

/// One account's stored state.
struct Entry {
    addr: Address,
    points: U256,
    tasks: Vec<String>,
    activities: Vec<String>,
}

/// The views of a sequence of strings.
pub open spec fn views_of(v: Seq<String>) -> Seq<Seq<char>> {
    v.map_values(|s: String| s@)
}

/// No two entries share an address.
spec fn distinct(s: Seq<Entry>) -> bool {
    forall|i: int, j: int| 0 <= i < j < s.len() ==> s[i].addr != s[j].addr
}

spec fn has_addr(s: Seq<Entry>, a: Address) -> bool {
    exists|i: int| 0 <= i < s.len() && s[i].addr == a
}

spec fn idx_of(s: Seq<Entry>, a: Address) -> int {
    choose|i: int| 0 <= i < s.len() && s[i].addr == a
}

spec fn points_at(s: Seq<Entry>, a: Address) -> int {
    if has_addr(s, a) {
        s[idx_of(s, a)].points.value()
    } else {
        0
    }
}

spec fn tasks_at(s: Seq<Entry>, a: Address) -> Seq<Seq<char>> {
    if has_addr(s, a) {
        views_of(s[idx_of(s, a)].tasks@)
    } else {
        Seq::empty()
    }
}

spec fn activities_at(s: Seq<Entry>, a: Address) -> Seq<Seq<char>> {
    if has_addr(s, a) {
        views_of(s[idx_of(s, a)].activities@)
    } else {
        Seq::empty()
    }
}

/// The sum of all stored balances.
spec fn total_at(s: Seq<Entry>) -> int
    decreases s.len(),
{
    if s.len() == 0 {
        0
    } else {
        total_at(s.drop_last()) + s.last().points.value()
    }
}

/// With distinct addresses, an entry's position is the one `idx_of` picks.
proof fn lemma_idx_of_unique(s: Seq<Entry>, a: Address, i: int)
    requires
        distinct(s),
        0 <= i < s.len(),
        s[i].addr == a,
    ensures
        has_addr(s, a),
        idx_of(s, a) == i,
{
    assert(has_addr(s, a));
    let j = idx_of(s, a);
    assert(0 <= j < s.len() && s[j].addr == a);
    if i < j {
        assert(s[i].addr != s[j].addr);
    } else if j < i {
        assert(s[j].addr != s[i].addr);
    }
}

proof fn lemma_total_push(s: Seq<Entry>, e: Entry)
    ensures
        total_at(s.push(e)) == total_at(s) + e.points.value(),
{
    assert(s.push(e).drop_last() =~= s);
    assert(s.push(e).last() == e);
}

proof fn lemma_total_update(s: Seq<Entry>, i: int, e: Entry)
    requires
        0 <= i < s.len(),
    ensures
        total_at(s.update(i, e)) == total_at(s) - s[i].points.value() + e.points.value(),
    decreases s.len(),
{
    let s2 = s.update(i, e);
    if i == s.len() - 1 {
        assert(s2.drop_last() =~= s.drop_last());
        assert(s2.last() == e);
    } else {
        assert(s2.drop_last() =~= s.drop_last().update(i, e));
        lemma_total_update(s.drop_last(), i, e);
        assert(s2.last() == s.last());
        assert(s.drop_last()[i] == s[i]);
    }
}

/// Replacing the entry at `i` by one with the same address changes only
/// that address's records, and the total by the balance difference.
proof fn lemma_lookup_update(s: Seq<Entry>, i: int, e: Entry)
    requires
        distinct(s),
        0 <= i < s.len(),
        e.addr == s[i].addr,
    ensures
        distinct(s.update(i, e)),
        points_at(s.update(i, e), e.addr) == e.points.value(),
        tasks_at(s.update(i, e), e.addr) == views_of(e.tasks@),
        activities_at(s.update(i, e), e.addr) == views_of(e.activities@),
        forall|x: Address| x != e.addr ==> points_at(s.update(i, e), x) == points_at(s, x),
        forall|x: Address| x != e.addr ==> tasks_at(s.update(i, e), x) == tasks_at(s, x),
        forall|x: Address| x != e.addr ==> activities_at(s.update(i, e), x) == activities_at(
            s,
            x,
        ),
        total_at(s.update(i, e)) == total_at(s) - s[i].points.value() + e.points.value(),
{
    let s2 = s.update(i, e);
    assert(forall|k: int| 0 <= k < s.len() ==> s2[k].addr == s[k].addr);
    lemma_idx_of_unique(s2, e.addr, i);
    assert forall|x: Address| x != e.addr implies points_at(s2, x) == points_at(s, x)
        && tasks_at(s2, x) == tasks_at(s, x) && activities_at(s2, x) == activities_at(s, x) by {
        if has_addr(s, x) {
            let k = idx_of(s, x);
            assert(0 <= k < s.len() && s[k].addr == x);
            lemma_idx_of_unique(s2, x, k);
            assert(k != i);
            assert(s2[k] == s[k]);
        } else {
            assert(!has_addr(s2, x));
        }
    }
    lemma_total_update(s, i, e);
}

/// Appending an entry for a fresh address leaves every other address's
/// records as they were, and adds the new balance to the total.
proof fn lemma_lookup_push(s: Seq<Entry>, e: Entry)
    requires
        distinct(s),
        !has_addr(s, e.addr),
    ensures
        distinct(s.push(e)),
        has_addr(s.push(e), e.addr),
        idx_of(s.push(e), e.addr) == s.len(),
        points_at(s.push(e), e.addr) == e.points.value(),
        tasks_at(s.push(e), e.addr) == views_of(e.tasks@),
        activities_at(s.push(e), e.addr) == views_of(e.activities@),
        forall|x: Address| x != e.addr ==> points_at(s.push(e), x) == points_at(s, x),
        forall|x: Address| x != e.addr ==> tasks_at(s.push(e), x) == tasks_at(s, x),
        forall|x: Address| x != e.addr ==> activities_at(s.push(e), x) == activities_at(s, x),
        total_at(s.push(e)) == total_at(s) + e.points.value(),
{
    let s2 = s.push(e);
    assert(forall|k: int| 0 <= k < s.len() ==> #[trigger] s2[k].addr == s[k].addr);
    assert(forall|k: int| 0 <= k < s.len() ==> s[k].addr != e.addr);
    lemma_idx_of_unique(s2, e.addr, s.len() as int);
    assert forall|x: Address| x != e.addr implies points_at(s2, x) == points_at(s, x)
        && tasks_at(s2, x) == tasks_at(s, x) && activities_at(s2, x) == activities_at(s, x) by {
        if has_addr(s, x) {
            let k = idx_of(s, x);
            assert(0 <= k < s.len() && s[k].addr == x);
            lemma_idx_of_unique(s2, x, k);
            assert(s2[k] == s[k]);
        } else {
            assert(!has_addr(s2, x));
        }
    }
    lemma_total_push(s, e);
}

/// The position of `a`'s entry, or `None` when it has none.
fn find_entry(entries: &Vec<Entry>, a: Address) -> (r: Option<usize>)
    requires
        distinct(entries@),
    ensures
        match r {
            Some(i) => i < entries@.len() && entries@[i as int].addr == a && has_addr(entries@, a)
                && idx_of(entries@, a) == i as int,
            None => !has_addr(entries@, a),
        },
{
    let n: usize = entries.len();
    let mut k: usize = 0;
    while k < n
        invariant
            n == entries@.len(),
            k <= n,
            distinct(entries@),
            forall|m: int| 0 <= m < k ==> entries@[m].addr != a,
        decreases n - k,
    {
        if entries[k].addr == a {
            proof {
                lemma_idx_of_unique(entries@, a, k as int);
            }
            return Some(k);
        }
        k = k + 1;
    }
    None
}

/// The position of `a`'s entry, appending a fresh all-default entry when
/// `a` has none. No address's visible records change.
fn ensure_entry(entries: &mut Vec<Entry>, a: Address) -> (i: usize)
    requires
        distinct(old(entries)@),
    ensures
        distinct(final(entries)@),
        i < final(entries)@.len(),
        final(entries)@[i as int].addr == a,
        has_addr(final(entries)@, a),
        idx_of(final(entries)@, a) == i as int,
        forall|x: Address| points_at(final(entries)@, x) == points_at(old(entries)@, x),
        forall|x: Address| tasks_at(final(entries)@, x) == tasks_at(old(entries)@, x),
        forall|x: Address| activities_at(final(entries)@, x) == activities_at(old(entries)@, x),
        total_at(final(entries)@) == total_at(old(entries)@),
{
    match find_entry(entries, a) {
        Some(i) => i,
        None => {
            let e = Entry { addr: a, points: U256::zero(), tasks: Vec::new(), activities: Vec::new() };
            proof {
                lemma_lookup_push(entries@, e);
                assert(views_of(Seq::<String>::empty()) =~~= Seq::<Seq<char>>::empty());
            }
            let i: usize = entries.len();
            entries.push(e);
            i
        },
    }
}

/// The ledger: every account's balance ("points"), task log, and activity
/// log. An account with no entry reads as zero balance and empty logs.
pub struct Blog {
    entries: Vec<Entry>,
}

impl Blog {
    /// Well-formedness: one entry per address.
    #[verifier::type_invariant]
    spec fn wf(self) -> bool {
        distinct(self.entries@)
    }

    /// The balance recorded for `a`; zero for an account never written.
    pub closed spec fn points_of(self, a: Address) -> int {
        points_at(self.entries@, a)
    }

    /// The task log recorded for `a`, oldest first; empty for an account
    /// never written.
    pub closed spec fn tasks_of(self, a: Address) -> Seq<Seq<char>> {
        tasks_at(self.entries@, a)
    }

    /// The activity log recorded for `a`, oldest first; empty for an
    /// account never written.
    pub closed spec fn activities_of(self, a: Address) -> Seq<Seq<char>> {
        activities_at(self.entries@, a)
    }

    /// The sum of all balances.
    pub closed spec fn total_points(self) -> int {
        total_at(self.entries@)
    }

    /// A balance never goes negative and never exceeds 2^256 - 1, in
    /// every reachable ledger state.
    pub proof fn lemma_points_in_range(self, a: Address)
        ensures
            0 <= self.points_of(a) <= max_u256(),
    {
        if has_addr(self.entries@, a) {
            let i = idx_of(self.entries@, a);
            assert(0 <= i < self.entries@.len() && self.entries@[i].addr == a);
            self.entries@[i].points.lemma_value_in_range();
        }
    }

    /// An empty ledger: every account reads as zero balance, empty logs.
    pub fn new() -> (r: Blog)
        ensures
            forall|a: Address| r.points_of(a) == 0,
            forall|a: Address| r.tasks_of(a) == Seq::<Seq<char>>::empty(),
            forall|a: Address| r.activities_of(a) == Seq::<Seq<char>>::empty(),
            r.total_points() == 0,
    {
        Blog { entries: Vec::new() }
    }

    /// Credits `amount` to `user_address` and appends `task_id` to its
    /// task log. Rejected with `ArithmeticOverflow` when the credit would
    /// pass 2^256 - 1 (the ledger fails rather than wrap); a rejected call
    /// changes nothing.
    pub fn complete_task(&mut self, user_address: Address, amount: U256, task_id: String) -> (r:
        Result<(), LedgerError>)
        ensures
            r is Ok <==> old(self).points_of(user_address) + amount.value() <= max_u256(),
            r is Err ==> r == Err::<(), LedgerError>(LedgerError::ArithmeticOverflow),
            r is Ok ==> final(self).points_of(user_address) == old(self).points_of(user_address)
                + amount.value(),
            r is Ok ==> final(self).tasks_of(user_address) == old(self).tasks_of(
                user_address,
            ).push(task_id@),
            r is Err ==> final(self).points_of(user_address) == old(self).points_of(user_address),
            r is Err ==> final(self).tasks_of(user_address) == old(self).tasks_of(user_address),
            forall|x: Address| x != user_address ==> final(self).points_of(x) == old(
                self,
            ).points_of(x),
            forall|x: Address| x != user_address ==> final(self).tasks_of(x) == old(self).tasks_of(
                x,
            ),
            forall|x: Address| final(self).activities_of(x) == old(self).activities_of(x),
            r is Ok ==> final(self).total_points() == old(self).total_points() + amount.value(),
            r is Err ==> final(self).total_points() == old(self).total_points(),
    {
        proof {
            use_type_invariant(&*self);
        }
        let cur = self.get_points(user_address);
        match cur.checked_add(amount) {
            None => Err(LedgerError::ArithmeticOverflow),
            Some(np) => {
                let mut entries: Vec<Entry> = Vec::new();
                core::mem::swap(&mut entries, &mut self.entries);
                let i: usize = ensure_entry(&mut entries, user_address);
                let ghost s1 = entries@;
                entries[i].points = np;
                proof {
                    lemma_lookup_update(s1, i as int, entries@[i as int]);
                }
                let ghost s2 = entries@;
                entries[i].tasks.push(task_id);
                proof {
                    let e2 = entries@[i as int];
                    lemma_lookup_update(s2, i as int, e2);
                    assert(views_of(e2.tasks@) =~~= views_of(s2[i as int].tasks@).push(task_id@));
                }
                self.entries = entries;
                Ok(())
            },
        }
    }

    /// Moves `amount` from `sender_address` to `receiver_address`,
    /// appending `sender_activity` to the sender's activity log and
    /// `receiver_activity` to the receiver's. The debit is validated
    /// first: a sender holding less than `amount` is rejected with
    /// `InsufficientBalance`, and a credit that would pass 2^256 - 1 with
    /// `ArithmeticOverflow`; a rejected call changes nothing. The two
    /// addresses may be equal: the balance is then unchanged and the one
    /// activity log gains both entries in order. The sum of all balances
    /// never changes.
    pub fn transfer_token(
        &mut self,
        sender_address: Address,
        receiver_address: Address,
        amount: U256,
        sender_activity: String,
        receiver_activity: String,
    ) -> (r: Result<(), LedgerError>)
        ensures
            r is Ok <==> amount.value() <= old(self).points_of(sender_address) && (sender_address
                == receiver_address || old(self).points_of(receiver_address) + amount.value()
                <= max_u256()),
            amount.value() > old(self).points_of(sender_address) ==> r == Err::<
                (),
                LedgerError,
            >(LedgerError::InsufficientBalance),
            r is Err && amount.value() <= old(self).points_of(sender_address) ==> r == Err::<
                (),
                LedgerError,
            >(LedgerError::ArithmeticOverflow),
            r is Err ==> (forall|x: Address|
                final(self).points_of(x) == old(self).points_of(x)) && (forall|x: Address|
                final(self).activities_of(x) == old(self).activities_of(x)),
            r is Ok && sender_address != receiver_address ==> final(self).points_of(sender_address)
                == old(self).points_of(sender_address) - amount.value(),
            r is Ok && sender_address != receiver_address ==> final(self).points_of(
                receiver_address,
            ) == old(self).points_of(receiver_address) + amount.value(),
            r is Ok && sender_address != receiver_address ==> final(self).activities_of(
                sender_address,
            ) == old(self).activities_of(sender_address).push(sender_activity@),
            r is Ok && sender_address != receiver_address ==> final(self).activities_of(
                receiver_address,
            ) == old(self).activities_of(receiver_address).push(receiver_activity@),
            r is Ok && sender_address == receiver_address ==> (forall|x: Address|
                final(self).points_of(x) == old(self).points_of(x)),
            r is Ok && sender_address == receiver_address ==> final(self).activities_of(
                sender_address,
            ) == old(self).activities_of(sender_address).push(sender_activity@).push(
                receiver_activity@,
            ),
            forall|x: Address|
                x != sender_address && x != receiver_address ==> final(self).points_of(x) == old(
                    self,
                ).points_of(x),
            forall|x: Address|
                x != sender_address && x != receiver_address ==> final(self).activities_of(x)
                    == old(self).activities_of(x),
            forall|x: Address| final(self).tasks_of(x) == old(self).tasks_of(x),
            final(self).total_points() == old(self).total_points(),
    {
        proof {
            use_type_invariant(&*self);
        }
        let s_bal = self.get_points(sender_address);
        match s_bal.checked_sub(amount) {
            None => Err(LedgerError::InsufficientBalance),
            Some(new_s) => {
                if sender_address == receiver_address {
                    let mut entries: Vec<Entry> = Vec::new();
                    core::mem::swap(&mut entries, &mut self.entries);
                    let i: usize = ensure_entry(&mut entries, sender_address);
                    let ghost s1 = entries@;
                    entries[i].activities.push(sender_activity);
                    proof {
                        let e1 = entries@[i as int];
                        lemma_lookup_update(s1, i as int, e1);
                        assert(views_of(e1.activities@) =~~= views_of(
                            s1[i as int].activities@,
                        ).push(sender_activity@));
                    }
                    let ghost s2 = entries@;
                    entries[i].activities.push(receiver_activity);
                    proof {
                        let e2 = entries@[i as int];
                        lemma_lookup_update(s2, i as int, e2);
                        assert(views_of(e2.activities@) =~~= views_of(
                            s2[i as int].activities@,
                        ).push(receiver_activity@));
                    }
                    self.entries = entries;
                    Ok(())
                } else {
                    let r_bal = self.get_points(receiver_address);
                    match r_bal.checked_add(amount) {
                        None => Err(LedgerError::ArithmeticOverflow),
                        Some(new_r) => {
                            let mut entries: Vec<Entry> = Vec::new();
                            core::mem::swap(&mut entries, &mut self.entries);
                            let i: usize = ensure_entry(&mut entries, sender_address);
                            let ghost s1 = entries@;
                            entries[i].points = new_s;
                            proof {
                                lemma_lookup_update(s1, i as int, entries@[i as int]);
                            }
                            let ghost s2 = entries@;
                            entries[i].activities.push(sender_activity);
                            proof {
                                let e2 = entries@[i as int];
                                lemma_lookup_update(s2, i as int, e2);
                                assert(views_of(e2.activities@) =~~= views_of(
                                    s2[i as int].activities@,
                                ).push(sender_activity@));
                            }
                            let j: usize = ensure_entry(&mut entries, receiver_address);
                            let ghost s3 = entries@;
                            entries[j].points = new_r;
                            proof {
                                lemma_lookup_update(s3, j as int, entries@[j as int]);
                            }
                            let ghost s4 = entries@;
                            entries[j].activities.push(receiver_activity);
                            proof {
                                let e4 = entries@[j as int];
                                lemma_lookup_update(s4, j as int, e4);
                                assert(views_of(e4.activities@) =~~= views_of(
                                    s4[j as int].activities@,
                                ).push(receiver_activity@));
                            }
                            self.entries = entries;
                            Ok(())
                        },
                    }
                }
            },
        }
    }

    /// The balance of `user_address`; zero for an account never written.
    pub fn get_points(&self, user_address: Address) -> (r: U256)
        ensures
            r.value() == self.points_of(user_address),
    {
        proof {
            use_type_invariant(&*self);
        }
        match find_entry(&self.entries, user_address) {
            Some(i) => self.entries[i].points,
            None => U256::zero(),
        }
    }

    /// A snapshot of `user_address`'s task log, oldest first; empty for an
    /// account never written.
    pub fn get_tasks(&self, user_address: Address) -> (r: Vec<String>)
        ensures
            views_of(r@) == self.tasks_of(user_address),
    {
        proof {
            use_type_invariant(&*self);
        }
        match find_entry(&self.entries, user_address) {
            Some(i) => clone_strings(&self.entries[i].tasks),
            None => {
                let r = Vec::new();
                proof {
                    assert(views_of(r@) =~~= Seq::<Seq<char>>::empty());
                }
                r
            },
        }
    }

    /// A snapshot of `user_address`'s activity log, oldest first; empty
    /// for an account never written.
    pub fn get_activities(&self, user_address: Address) -> (r: Vec<String>)
        ensures
            views_of(r@) == self.activities_of(user_address),
    {
        proof {
            use_type_invariant(&*self);
        }
        match find_entry(&self.entries, user_address) {
            Some(i) => clone_strings(&self.entries[i].activities),
            None => {
                let r = Vec::new();
                proof {
                    assert(views_of(r@) =~~= Seq::<Seq<char>>::empty());
                }
                r
            },
        }
    }
}

/// An element-by-element copy of a vector of strings.
fn clone_strings(v: &Vec<String>) -> (r: Vec<String>)
    ensures
        r@ == v@,
{
    let n: usize = v.len();
    let mut r: Vec<String> = Vec::new();
    let mut k: usize = 0;
    while k < n
        invariant
            n == v@.len(),
            k <= n,
            r@ == v@.subrange(0, k as int),
        decreases n - k,
    {
        r.push(v[k].clone());
        proof {
            assert(r@ =~= v@.subrange(0, k + 1));
        }
        k = k + 1;
    }
    proof {
        assert(v@.subrange(0, n as int) =~= v@);
    }
    r
}

} // verus!
