//! Sliding-window token quota: reservations, expiry and settlement.
//!
//! A reservation holds an estimate against every budget of its key until it is
//! settled with the tokens that were used, or until it is overdue and its
//! estimate is charged. Charged usage counts against every budget of its key,
//! but no longer than the shortest window lasts: the next request for the key
//! after that drops it. So with several budgets the longer windows count what
//! the shortest one counts, each against its own capacity. In this the ledger
//! follows the reservation script of the shared backend, which clears a key's
//! usage by each window in turn, so that a quota means the same on both.
use vstd::prelude::*;

use crate::text::same_text;

verus! {

/// Shortest time for which a key is remembered, in milliseconds.
pub const MIN_KEY_TTL_MS: u64 = 1000;

/// A limit on the tokens used within a window.
#[derive(Debug, Clone, Copy)]
pub struct Budget {
    /// Length of the window in milliseconds.
    pub window_ms: u64,
    /// Tokens that may be used within the window.
    pub capacity: u64,
}

/// A reservation that was admitted.
#[derive(Debug, Clone, Copy)]
pub struct Reservation {
    /// Identifier by which the reservation is settled.
    pub id: u64,
    /// Tokens held.
    pub estimate: u64,
}

/// Answer to a reservation request.
#[derive(Debug, Clone, Copy)]
pub enum Decision {
    /// The estimate is held.
    Admitted(Reservation),
    /// The quota does not allow the estimate.
    Denied {
        /// When to try again, in milliseconds from now.
        retry_after_ms: u64,
    },
}

/// Outcome of settling a reservation.
#[derive(Debug, Clone, Copy)]
pub enum Settlement {
    /// The reservation was settled.
    Applied {
        /// Tokens charged.
        actual: u64,
        /// Tokens of the estimate that were given back.
        refund: u64,
        /// Tokens charged beyond the estimate.
        overage: u64,
    },
    /// There was no such reservation.
    Noop,
}

/// A reservation that has not been settled.
pub struct ActiveEntry {
    /// Identifier of the reservation.
    pub id: u64,
    /// Key that the reservation counts against.
    pub key: String,
    /// Tokens held.
    pub estimate: u64,
    /// When the reservation was admitted.
    pub reserved_at: u64,
}

/// Usage that has been charged.
pub struct SettledEntry {
    /// Key that the usage counts against.
    pub key: String,
    /// Tokens charged.
    pub amount: u64,
    /// When the usage counts as having happened.
    pub at: u64,
}

/// A key that was used lately.
pub struct KeyEntry {
    /// The key.
    pub key: String,
    /// When the key is forgotten.
    pub expires_at: u128,
}

/// What an [`ActiveEntry`] means.
pub ghost struct ActiveView {
    /// Identifier of the reservation.
    pub id: u64,
    /// Key that the reservation counts against.
    pub key: Seq<char>,
    /// Tokens held.
    pub estimate: nat,
    /// When the reservation was admitted.
    pub reserved_at: nat,
}

/// What a [`SettledEntry`] means.
pub ghost struct SettledView {
    /// Key that the usage counts against.
    pub key: Seq<char>,
    /// Tokens charged.
    pub amount: nat,
    /// When the usage counts as having happened.
    pub at: nat,
}

/// What a [`KeyEntry`] means.
pub ghost struct KeyView {
    /// The key.
    pub key: Seq<char>,
    /// When the key is forgotten.
    pub expires_at: nat,
}

impl View for ActiveEntry {
    type V = ActiveView;

    open spec fn view(&self) -> ActiveView {
        ActiveView {
            id: self.id,
            key: self.key@,
            estimate: self.estimate as nat,
            reserved_at: self.reserved_at as nat,
        }
    }
}

impl View for SettledEntry {
    type V = SettledView;

    open spec fn view(&self) -> SettledView {
        SettledView { key: self.key@, amount: self.amount as nat, at: self.at as nat }
    }
}

impl View for KeyEntry {
    type V = KeyView;

    open spec fn view(&self) -> KeyView {
        KeyView { key: self.key@, expires_at: self.expires_at as nat }
    }
}

/// Length of the longest window, or 0 without budgets.
pub open spec fn longest_window(budgets: Seq<Budget>) -> nat
    decreases budgets.len(),
{
    if budgets.len() == 0 {
        0
    } else {
        let rest = longest_window(budgets.drop_last());
        let last = budgets.last().window_ms as nat;
        if last > rest {
            last
        } else {
            rest
        }
    }
}

/// Smallest capacity, or 0 without budgets.
pub open spec fn smallest_capacity(budgets: Seq<Budget>) -> nat
    decreases budgets.len(),
{
    if budgets.len() == 0 {
        0
    } else if budgets.len() == 1 {
        budgets[0].capacity as nat
    } else {
        let rest = smallest_capacity(budgets.drop_last());
        let last = budgets.last().capacity as nat;
        if last < rest {
            last
        } else {
            rest
        }
    }
}

/// Length of the shortest window, or 0 without budgets.
pub open spec fn shortest_window(budgets: Seq<Budget>) -> nat
    decreases budgets.len(),
{
    if budgets.len() == 0 {
        0
    } else if budgets.len() == 1 {
        budgets[0].window_ms as nat
    } else {
        let rest = shortest_window(budgets.drop_last());
        let last = budgets.last().window_ms as nat;
        if last < rest {
            last
        } else {
            rest
        }
    }
}

/// Tokens of `key` that are held by reservations.
pub open spec fn active_use(active: Seq<ActiveView>, key: Seq<char>) -> nat
    decreases active.len(),
{
    if active.len() == 0 {
        0
    } else {
        active_use(active.drop_last(), key) + if active.last().key == key {
            active.last().estimate
        } else {
            0
        }
    }
}

/// Tokens of `key` that were charged at `since` or later.
pub open spec fn settled_use(settled: Seq<SettledView>, key: Seq<char>, since: int) -> nat
    decreases settled.len(),
{
    if settled.len() == 0 {
        0
    } else {
        settled_use(settled.drop_last(), key, since) + if settled.last().key == key
            && settled.last().at >= since {
            settled.last().amount
        } else {
            0
        }
    }
}

/// Whether usage charged at `at` has left the window of some budget.
pub open spec fn past_a_window(budgets: Seq<Budget>, at: nat, now: nat) -> bool {
    exists|b: int| 0 <= b < budgets.len() && at + (#[trigger] budgets[b]).window_ms <= now
}

/// The charge that an overdue reservation leaves behind.
pub open spec fn charge_of(entry: ActiveView) -> SettledView {
    SettledView { key: entry.key, amount: entry.estimate, at: entry.reserved_at }
}

/// Whether `keys` holds `key`.
pub open spec fn knows_key(keys: Seq<KeyView>, key: Seq<char>) -> bool {
    exists|i: int| 0 <= i < keys.len() && (#[trigger] keys[i]).key == key
}

/// Position of the reservation `id`, or the length when there is none.
pub open spec fn active_index(active: Seq<ActiveView>, id: u64) -> int
    decreases active.len(),
{
    if active.len() == 0 {
        0
    } else if active[0].id == id {
        0
    } else {
        1 + active_index(active.drop_first(), id)
    }
}

/// What a [`Ledger`] means.
pub ghost struct LedgerView {
    /// Limits that apply to every key.
    pub budgets: Seq<Budget>,
    /// Time after which a reservation is overdue.
    pub timeout: nat,
    /// Number of keys that may be in use at once.
    pub max_keys: nat,
    /// Number of reservations that may be open at once.
    pub max_active: nat,
    /// Open reservations.
    pub active: Seq<ActiveView>,
    /// Charged usage.
    pub settled: Seq<SettledView>,
    /// Keys in use.
    pub keys: Seq<KeyView>,
    /// Identifier given out last.
    pub last_id: u64,
}

impl LedgerView {
    /// Bounds and uniqueness that every ledger keeps.
    pub open spec fn valid(self) -> bool {
        &&& self.active.len() <= self.max_active
        &&& self.keys.len() <= self.max_keys
        &&& forall|i: int|
            0 <= i < self.active.len() ==> 1 <= (#[trigger] self.active[i]).id <= self.last_id
        &&& forall|i: int, j: int|
            0 <= i < j < self.active.len() ==> (#[trigger] self.active[i]).id != (
            #[trigger] self.active[j]).id
        &&& forall|i: int, j: int|
            0 <= i < j < self.keys.len() ==> (#[trigger] self.keys[i]).key != (
            #[trigger] self.keys[j]).key
    }

    /// Whether a reservation has been open for the whole timeout.
    pub open spec fn overdue(self, entry: ActiveView, now: nat) -> bool {
        entry.reserved_at + self.timeout <= now
    }

    /// Whether charged usage of `key` has left the window of some budget.
    pub open spec fn outdated(self, entry: SettledView, key: Seq<char>, now: nat) -> bool {
        entry.key == key && past_a_window(self.budgets, entry.at, now)
    }

    /// How long a key is remembered after a reservation.
    pub open spec fn key_ttl(self) -> nat {
        let ttl = longest_window(self.budgets) + self.timeout;
        if ttl < MIN_KEY_TTL_MS {
            MIN_KEY_TTL_MS as nat
        } else {
            ttl
        }
    }

    /// The ledger after overdue reservations were charged.
    pub open spec fn expired(self, now: nat) -> LedgerView {
        LedgerView {
            active: self.active.filter(|e: ActiveView| !self.overdue(e, now)),
            settled: self.settled + self.active.filter(
                |e: ActiveView| self.overdue(e, now),
            ).map_values(|e: ActiveView| charge_of(e)),
            ..self
        }
    }

    /// The ledger after overdue reservations were charged, usage of `key` that
    /// has left a window was dropped, and keys that are no longer in use were
    /// forgotten.
    pub open spec fn swept(self, key: Seq<char>, now: nat) -> LedgerView {
        let charged = self.expired(now);
        LedgerView {
            settled: charged.settled.filter(|e: SettledView| !self.outdated(e, key, now)),
            keys: charged.keys.filter(|k: KeyView| k.expires_at > now),
            ..charged
        }
    }

    /// Tokens of `key` that count against a window of `window` milliseconds.
    pub open spec fn usage(self, key: Seq<char>, window: nat, now: nat) -> nat {
        settled_use(self.settled, key, now - window) + active_use(self.active, key)
    }

    /// Whether every budget has room for `estimate` more tokens of `key`.
    pub open spec fn has_room(self, key: Seq<char>, estimate: nat, now: nat) -> bool {
        forall|b: int|
            0 <= b < self.budgets.len() ==> self.usage(
                key,
                (#[trigger] self.budgets[b]).window_ms as nat,
                now,
            ) + estimate <= self.budgets[b].capacity
    }

    /// Whether a ledger that has just been swept admits a reservation.
    pub open spec fn admits(self, key: Seq<char>, estimate: nat, now: nat) -> bool {
        &&& knows_key(self.keys, key) || self.keys.len() < self.max_keys
        &&& self.active.len() < self.max_active
        &&& self.has_room(key, estimate, now)
        &&& self.last_id < u64::MAX
    }

    /// The ledger with one more reservation, which has the next identifier.
    pub open spec fn with_reservation(self, key: Seq<char>, estimate: nat, now: nat) -> LedgerView {
        let id = (self.last_id + 1) as u64;
        LedgerView {
            active: self.active.push(ActiveView { id, key, estimate, reserved_at: now }),
            keys: self.keys.filter(|k: KeyView| k.key != key).push(
                KeyView { key, expires_at: now + self.key_ttl() },
            ),
            last_id: id,
            ..self
        }
    }

    /// The ledger after a reservation request.
    pub open spec fn reserved(self, key: Seq<char>, estimate: nat, now: nat) -> LedgerView {
        let swept = self.swept(key, now);
        if swept.admits(key, estimate, now) {
            swept.with_reservation(key, estimate, now)
        } else {
            swept
        }
    }

    /// Whether the reservation `id` is open.
    pub open spec fn is_open(self, id: u64) -> bool {
        active_index(self.active, id) < self.active.len()
    }

    /// Tokens charged when the reservation `id` is settled with `actual`.
    pub open spec fn charge(self, id: u64, actual: Option<u64>) -> nat {
        match actual {
            Some(tokens) => tokens as nat,
            None => self.active[active_index(self.active, id)].estimate,
        }
    }

    /// The ledger after a settlement request.
    pub open spec fn reconciled(self, id: u64, actual: Option<u64>, now: nat) -> LedgerView {
        let i = active_index(self.active, id);
        if self.is_open(id) {
            LedgerView {
                active: self.active.remove(i),
                settled: self.settled.push(
                    SettledView {
                        key: self.active[i].key,
                        amount: self.charge(id, actual),
                        at: now,
                    },
                ),
                ..self
            }
        } else {
            self
        }
    }
}

/// A list of which the first `n` elements have been filtered.
spec fn filtered_to<A>(all: Seq<A>, keep: spec_fn(A) -> bool, n: int) -> Seq<A> {
    all.take(n).filter(keep) + all.skip(n)
}

/// Filtering begins with the whole list and ends with what is kept of it.
proof fn lemma_filter_ends<A>(all: Seq<A>, keep: spec_fn(A) -> bool)
    ensures
        all.take(0).filter(keep).len() == 0,
        filtered_to(all, keep, 0) == all,
        filtered_to(all, keep, all.len() as int) == all.filter(keep),
{
    reveal(Seq::filter);
    assert(filtered_to(all, keep, 0) =~= all);
    assert(all.take(all.len() as int) =~= all);
    assert(filtered_to(all, keep, all.len() as int) =~= all.filter(keep));
}

/// Filtering one element more: it stands behind those kept so far, and stays
/// there or is taken out.
proof fn lemma_filter_step<A>(all: Seq<A>, keep: spec_fn(A) -> bool, n: int)
    requires
        0 <= n <= all.len(),
        all.take(n).filter(keep).len() < filtered_to(all, keep, n).len(),
    ensures
        n < all.len(),
        ({
            let kept = all.take(n).filter(keep);
            let held = filtered_to(all, keep, n);
            &&& held[kept.len() as int] == all[n]
            &&& all.take(n + 1).filter(keep) == if keep(all[n]) {
                kept.push(all[n])
            } else {
                kept
            }
            &&& filtered_to(all, keep, n + 1) == if keep(all[n]) {
                held
            } else {
                held.remove(kept.len() as int)
            }
        }),
{
    reveal(Seq::filter);
    let kept = all.take(n).filter(keep);
    assert(all.take(n + 1).drop_last() =~= all.take(n));
    assert(all.take(n + 1).last() == all[n]);
    if keep(all[n]) {
        assert(kept.push(all[n]) + all.skip(n + 1) =~= filtered_to(all, keep, n));
    } else {
        assert(kept + all.skip(n + 1) =~= filtered_to(all, keep, n).remove(kept.len() as int));
    }
}

/// The contents of a [`Ledger`].
struct LedgerState {
    budgets: Vec<Budget>,
    reservation_timeout_ms: u64,
    max_keys: usize,
    max_active_reservations: usize,
    active: Vec<ActiveEntry>,
    settled: Vec<SettledEntry>,
    keys: Vec<KeyEntry>,
    last_id: u64,
}

impl View for LedgerState {
    type V = LedgerView;

    closed spec fn view(&self) -> LedgerView {
        LedgerView {
            budgets: self.budgets@,
            timeout: self.reservation_timeout_ms as nat,
            max_keys: self.max_keys as nat,
            max_active: self.max_active_reservations as nat,
            active: self.active@.map_values(|e: ActiveEntry| e@),
            settled: self.settled@.map_values(|e: SettledEntry| e@),
            keys: self.keys@.map_values(|e: KeyEntry| e@),
            last_id: self.last_id,
        }
    }
}

impl LedgerState {
    /// Without reservations or usage.
    fn new(
        budgets: Vec<Budget>,
        reservation_timeout_ms: u64,
        max_keys: usize,
        max_active_reservations: usize,
    ) -> (r: LedgerState)
        ensures
            r@ == (LedgerView {
                budgets: budgets@,
                timeout: reservation_timeout_ms as nat,
                max_keys: max_keys as nat,
                max_active: max_active_reservations as nat,
                active: Seq::empty(),
                settled: Seq::empty(),
                keys: Seq::empty(),
                last_id: 0,
            }),
            r@.valid(),
    {
        let r = LedgerState {
            budgets,
            reservation_timeout_ms,
            max_keys,
            max_active_reservations,
            active: Vec::new(),
            settled: Vec::new(),
            keys: Vec::new(),
            last_id: 0,
        };
        assert(r@.active =~= Seq::empty());
        assert(r@.settled =~= Seq::empty());
        assert(r@.keys =~= Seq::empty());
        r
    }

    /// Charge the reservations that are overdue.
    fn expire(&mut self, now: u64)
        ensures
            final(self)@ == old(self)@.expired(now as nat),
    {
        let ghost before = self@;
        let ghost keep = |e: ActiveView| !before.overdue(e, now as nat);
        let ghost drop = |e: ActiveView| before.overdue(e, now as nat);
        let ghost charge = |e: ActiveView| charge_of(e);
        let ghost mut n: int = 0;
        let mut i: usize = 0;
        proof {
            reveal(Seq::filter);
            lemma_filter_ends(before.active, keep);
            assert(self@.settled =~= before.settled + before.active.take(0).filter(
                drop,
            ).map_values(charge));
        }
        while i < self.active.len()
            invariant
                0 <= n <= before.active.len(),
                keep == (|e: ActiveView| !before.overdue(e, now as nat)),
                drop == (|e: ActiveView| before.overdue(e, now as nat)),
                charge == (|e: ActiveView| charge_of(e)),
                i == before.active.take(n).filter(keep).len(),
                self@.active == filtered_to(before.active, keep, n),
                self@.settled == before.settled + before.active.take(n).filter(drop).map_values(
                    charge,
                ),
                self@ == (LedgerView {
                    active: self@.active,
                    settled: self@.settled,
                    ..before
                }),
            decreases before.active.len() - n,
        {
            let ghost e = before.active[n];
            let ghost a0 = self@.active;
            let ghost s0 = self@.settled;
            proof {
                lemma_filter_step(before.active, keep, n);
                lemma_filter_step(before.active, drop, n);
                assert(self.active@[i as int]@ == a0[i as int]);
            }
            let reserved_at: u64 = self.active[i].reserved_at;
            if reserved_at <= now && now - reserved_at >= self.reservation_timeout_ms {
                let entry = self.active.remove(i);
                self.settled.push(
                    SettledEntry { key: entry.key, amount: entry.estimate, at: entry.reserved_at },
                );
                proof {
                    assert(self@.active =~= a0.remove(i as int));
                    assert(self@.settled =~= s0.push(charge_of(e)));
                    assert(self@.settled =~= before.settled + before.active.take(n + 1).filter(
                        drop,
                    ).map_values(charge));
                }
            } else {
                i += 1;
            }
            proof {
                n = n + 1;
            }
        }
        proof {
            lemma_filter_ends(before.active, keep);
            assert(self@.active.len() == self.active@.len());
            assert(before.active.take(n) =~= before.active);
        }
    }

    /// Whether usage charged at `at` has left the window of some budget.
    fn left_a_window(&self, at: u64, now: u64) -> (r: bool)
        ensures
            r == past_a_window(self@.budgets, at as nat, now as nat),
    {
        let mut b: usize = 0;
        while b < self.budgets.len()
            invariant
                b <= self.budgets@.len(),
                self@.budgets == self.budgets@,
                forall|k: int|
                    0 <= k < b ==> at + (#[trigger] self@.budgets[k]).window_ms > now,
            decreases self.budgets@.len() - b,
        {
            let window: u64 = self.budgets[b].window_ms;
            if at <= now && now - at >= window {
                assert(at + self@.budgets[b as int].window_ms <= now);
                return true;
            }
            b += 1;
        }
        false
    }

    /// Drop the usage of `key` that has left the window of some budget.
    fn drop_outdated(&mut self, key: &str, now: u64)
        ensures
            final(self)@ == (LedgerView {
                settled: old(self)@.settled.filter(
                    |e: SettledView| !old(self)@.outdated(e, key@, now as nat),
                ),
                ..old(self)@
            }),
    {
        let ghost before = self@;
        let ghost keep = |e: SettledView| !before.outdated(e, key@, now as nat);
        let ghost mut n: int = 0;
        let mut i: usize = 0;
        proof {
            lemma_filter_ends(before.settled, keep);
        }
        while i < self.settled.len()
            invariant
                0 <= n <= before.settled.len(),
                keep == (|e: SettledView| !before.outdated(e, key@, now as nat)),
                i == before.settled.take(n).filter(keep).len(),
                self@.settled == filtered_to(before.settled, keep, n),
                self@ == (LedgerView { settled: self@.settled, ..before }),
            decreases before.settled.len() - n,
        {
            let ghost held = self@.settled;
            proof {
                lemma_filter_step(before.settled, keep, n);
                assert(self.settled@[i as int]@ == held[i as int]);
            }
            let at: u64 = self.settled[i].at;
            if same_text(self.settled[i].key.as_str(), key) && self.left_a_window(at, now) {
                self.settled.remove(i);
                assert(self@.settled =~= held.remove(i as int));
            } else {
                i += 1;
            }
            proof {
                n = n + 1;
            }
        }
        proof {
            lemma_filter_ends(before.settled, keep);
            assert(self@.settled.len() == self.settled@.len());
        }
    }

    /// Forget the keys that are no longer in use.
    fn forget_keys(&mut self, now: u64)
        ensures
            final(self)@ == (LedgerView {
                keys: old(self)@.keys.filter(|k: KeyView| k.expires_at > now),
                ..old(self)@
            }),
    {
        let ghost before = self@;
        let ghost keep = |k: KeyView| k.expires_at > now;
        let ghost mut n: int = 0;
        let mut i: usize = 0;
        proof {
            lemma_filter_ends(before.keys, keep);
        }
        while i < self.keys.len()
            invariant
                0 <= n <= before.keys.len(),
                keep == (|k: KeyView| k.expires_at > now),
                i == before.keys.take(n).filter(keep).len(),
                self@.keys == filtered_to(before.keys, keep, n),
                self@ == (LedgerView { keys: self@.keys, ..before }),
            decreases before.keys.len() - n,
        {
            let ghost held = self@.keys;
            proof {
                lemma_filter_step(before.keys, keep, n);
                assert(self.keys@[i as int]@ == held[i as int]);
            }
            if self.keys[i].expires_at <= now as u128 {
                self.keys.remove(i);
                assert(self@.keys =~= held.remove(i as int));
            } else {
                i += 1;
            }
            proof {
                n = n + 1;
            }
        }
        proof {
            lemma_filter_ends(before.keys, keep);
            assert(self@.keys.len() == self.keys@.len());
        }
    }

    /// Forget `key`.
    fn forget_key(&mut self, key: &str)
        ensures
            final(self)@ == (LedgerView {
                keys: old(self)@.keys.filter(|k: KeyView| k.key != key@),
                ..old(self)@
            }),
    {
        let ghost before = self@;
        let ghost keep = |k: KeyView| k.key != key@;
        let ghost mut n: int = 0;
        let mut i: usize = 0;
        proof {
            lemma_filter_ends(before.keys, keep);
        }
        while i < self.keys.len()
            invariant
                0 <= n <= before.keys.len(),
                keep == (|k: KeyView| k.key != key@),
                i == before.keys.take(n).filter(keep).len(),
                self@.keys == filtered_to(before.keys, keep, n),
                self@ == (LedgerView { keys: self@.keys, ..before }),
            decreases before.keys.len() - n,
        {
            let ghost held = self@.keys;
            proof {
                lemma_filter_step(before.keys, keep, n);
                assert(self.keys@[i as int]@ == held[i as int]);
            }
            if same_text(self.keys[i].key.as_str(), key) {
                self.keys.remove(i);
                assert(self@.keys =~= held.remove(i as int));
            } else {
                i += 1;
            }
            proof {
                n = n + 1;
            }
        }
        proof {
            lemma_filter_ends(before.keys, keep);
            assert(self@.keys.len() == self.keys@.len());
        }
    }

    /// Whether `key` is in use.
    fn holds_key(&self, key: &str) -> (r: bool)
        ensures
            r == knows_key(self@.keys, key@),
    {
        let mut i: usize = 0;
        while i < self.keys.len()
            invariant
                i <= self.keys@.len(),
                forall|k: int| 0 <= k < i ==> (#[trigger] self@.keys[k]).key != key@,
            decreases self.keys@.len() - i,
        {
            assert(self@.keys[i as int] == self.keys@[i as int]@);
            if same_text(self.keys[i].key.as_str(), key) {
                return true;
            }
            i += 1;
        }
        assert(self@.keys.len() == self.keys@.len());
        false
    }

    /// Whether one budget has room for `estimate` more tokens of `key`.
    fn fits(&self, budget: Budget, key: &str, estimate: u64, now: u64) -> (r: bool)
        ensures
            r == (self@.usage(key@, budget.window_ms as nat, now as nat) + estimate
                <= budget.capacity),
    {
        let ghost since: int = now - budget.window_ms;
        let ghost settled = self@.settled;
        let ghost active = self@.active;
        if estimate > budget.capacity {
            return false;
        }
        let mut left: u64 = budget.capacity - estimate;
        let mut i: usize = 0;
        while i < self.settled.len()
            invariant
                settled == self@.settled,
                active == self@.active,
                since == now - budget.window_ms,
                i <= self.settled@.len(),
                self.settled@.len() == settled.len(),
                left + settled_use(settled.take(i as int), key@, since) + estimate
                    == budget.capacity,
            decreases self.settled@.len() - i,
        {
            let ghost e = settled[i as int];
            proof {
                assert(self.settled@[i as int]@ == e);
                assert(settled.take(i + 1).drop_last() =~= settled.take(i as int));
                assert(settled.take(i + 1).last() == e);
            }
            let at: u64 = self.settled[i].at;
            if same_text(self.settled[i].key.as_str(), key) && (at >= now || now - at
                <= budget.window_ms) {
                let amount: u64 = self.settled[i].amount;
                if amount > left {
                    proof {
                        lemma_settled_use_grows(settled, key@, since, i + 1);
                    }
                    return false;
                }
                left = left - amount;
            }
            i += 1;
        }
        assert(settled.take(i as int) =~= settled);
        let mut j: usize = 0;
        while j < self.active.len()
            invariant
                settled == self@.settled,
                active == self@.active,
                since == now - budget.window_ms,
                j <= self.active@.len(),
                self.active@.len() == active.len(),
                left + settled_use(settled, key@, since) + active_use(active.take(j as int), key@)
                    + estimate == budget.capacity,
            decreases self.active@.len() - j,
        {
            let ghost e = active[j as int];
            proof {
                assert(self.active@[j as int]@ == e);
                assert(active.take(j + 1).drop_last() =~= active.take(j as int));
                assert(active.take(j + 1).last() == e);
            }
            if same_text(self.active[j].key.as_str(), key) {
                let amount: u64 = self.active[j].estimate;
                if amount > left {
                    proof {
                        lemma_active_use_grows(active, key@, j + 1);
                    }
                    return false;
                }
                left = left - amount;
            }
            j += 1;
        }
        assert(active.take(j as int) =~= active);
        true
    }

    /// Whether every budget has room for `estimate` more tokens of `key`.
    fn room_for(&self, key: &str, estimate: u64, now: u64) -> (r: bool)
        ensures
            r == self@.has_room(key@, estimate as nat, now as nat),
    {
        let mut b: usize = 0;
        while b < self.budgets.len()
            invariant
                b <= self.budgets@.len(),
                self@.budgets == self.budgets@,
                forall|k: int|
                    0 <= k < b ==> self@.usage(
                        key@,
                        (#[trigger] self@.budgets[k]).window_ms as nat,
                        now as nat,
                    ) + estimate <= self@.budgets[k].capacity,
            decreases self.budgets@.len() - b,
        {
            if !self.fits(self.budgets[b], key, estimate, now) {
                assert(self@.budgets[b as int] == self.budgets@[b as int]);
                return false;
            }
            b += 1;
        }
        true
    }

    /// Length of the longest window.
    fn longest(&self) -> (r: u64)
        ensures
            r == longest_window(self@.budgets),
    {
        let mut longest: u64 = 0;
        let mut b: usize = 0;
        while b < self.budgets.len()
            invariant
                b <= self.budgets@.len(),
                self@.budgets == self.budgets@,
                longest == longest_window(self.budgets@.take(b as int)),
            decreases self.budgets@.len() - b,
        {
            proof {
                assert(self.budgets@.take(b + 1).drop_last() =~= self.budgets@.take(b as int));
                assert(self.budgets@.take(b + 1).last() == self.budgets@[b as int]);
            }
            if self.budgets[b].window_ms > longest {
                longest = self.budgets[b].window_ms;
            }
            b += 1;
        }
        assert(self.budgets@.take(b as int) =~= self.budgets@);
        longest
    }

    /// See [`Ledger::reserve`].
    fn reserve(&mut self, key: &str, estimate: u64, now_ms: u64) -> (r: Decision)
        requires
            old(self)@.valid(),
        ensures
            final(self)@ == old(self)@.reserved(key@, estimate as nat, now_ms as nat),
            final(self)@.valid(),
            r matches Decision::Admitted(held) ==> {
                &&& old(self)@.swept(key@, now_ms as nat).admits(
                    key@,
                    estimate as nat,
                    now_ms as nat,
                )
                &&& held.id == final(self)@.last_id
                &&& held.estimate == estimate
            },
            r matches Decision::Denied { retry_after_ms } ==> {
                &&& !old(self)@.swept(key@, now_ms as nat).admits(
                    key@,
                    estimate as nat,
                    now_ms as nat,
                )
                &&& retry_after_ms == longest_window(old(self)@.budgets)
            },
    {
        let ghost before = self@;
        self.expire(now_ms);
        let ghost charged = self@;
        self.drop_outdated(key, now_ms);
        proof {
            let a = |e: SettledView| !charged.outdated(e, key@, now_ms as nat);
            let b = |e: SettledView| !before.outdated(e, key@, now_ms as nat);
            assert(a =~= b);
        }
        self.forget_keys(now_ms);
        proof {
            let a = |k: KeyView| k.expires_at > now_ms;
            let b = |k: KeyView| k.expires_at > now_ms as nat;
            assert(a =~= b);
            assert(self@ == before.swept(key@, now_ms as nat));
            lemma_swept_valid(before, key@, now_ms as nat);
            lemma_with_reservation_valid(self@, key@, estimate as nat, now_ms as nat);
            assert(self@.keys.len() == self.keys@.len());
            assert(self@.active.len() == self.active@.len());
        }
        let known = self.holds_key(key);
        if (!known && self.keys.len() >= self.max_keys) || self.active.len()
            >= self.max_active_reservations || self.last_id == u64::MAX || !self.room_for(
            key,
            estimate,
            now_ms,
        ) {
            return Decision::Denied { retry_after_ms: self.longest() };
        }
        let ghost swept = self@;
        let ttl: u128 = self.longest() as u128 + self.reservation_timeout_ms as u128;
        let kept: u128 = if ttl < MIN_KEY_TTL_MS as u128 {
            MIN_KEY_TTL_MS as u128
        } else {
            ttl
        };
        self.forget_key(key);
        let ghost keys0 = self@.keys;
        let ghost active0 = self@.active;
        let id: u64 = self.last_id + 1;
        self.last_id = id;
        self.keys.push(KeyEntry { key: key.to_owned(), expires_at: now_ms as u128 + kept });
        self.active.push(
            ActiveEntry { id, key: key.to_owned(), estimate, reserved_at: now_ms },
        );
        proof {
            assert(self@.keys =~= keys0.push(
                KeyView { key: key@, expires_at: now_ms as nat + swept.key_ttl() },
            ));
            assert(self@.active =~= active0.push(
                ActiveView {
                    id,
                    key: key@,
                    estimate: estimate as nat,
                    reserved_at: now_ms as nat,
                },
            ));
        }
        Decision::Admitted(Reservation { id, estimate })
    }

    /// See [`Ledger::reconcile`].
    fn reconcile(&mut self, id: u64, actual: Option<u64>, now_ms: u64) -> (r: Settlement)
        requires
            old(self)@.valid(),
        ensures
            final(self)@ == old(self)@.reconciled(id, actual, now_ms as nat),
            final(self)@.valid(),
            r is Noop <==> !old(self)@.is_open(id),
            r matches Settlement::Applied { actual: charged, refund, overage } ==> {
                let estimate = old(self)@.active[active_index(old(self)@.active, id)].estimate;
                &&& charged == old(self)@.charge(id, actual)
                &&& refund == if estimate > charged { estimate - charged } else { 0 }
                &&& overage == if charged > estimate { charged - estimate } else { 0 }
            },
    {
        let ghost before = self@;
        let mut i: usize = 0;
        proof {
            assert(before.active.skip(0) =~= before.active);
            assert(before.active.len() == self.active@.len());
        }
        while i < self.active.len() && self.active[i].id != id
            invariant
                *self == *old(self),
                before == self@,
                before.active.len() == self.active@.len(),
                i <= self.active@.len(),
                active_index(before.active, id) == i + active_index(
                    before.active.skip(i as int),
                    id,
                ),
            decreases self.active@.len() - i,
        {
            proof {
                let rest = before.active.skip(i as int);
                assert(rest[0] == self.active@[i as int]@);
                assert(rest.drop_first() =~= before.active.skip(i + 1));
            }
            i += 1;
        }
        proof {
            if i < self.active@.len() {
                assert(before.active.skip(i as int)[0] == self.active@[i as int]@);
            } else {
                assert(before.active.skip(i as int).len() == 0);
            }
        }
        if i >= self.active.len() {
            return Settlement::Noop;
        }
        proof {
            assert(before.active[i as int] == self.active@[i as int]@);
            lemma_reconciled_valid(before, id, actual, now_ms as nat);
        }
        let entry = self.active.remove(i);
        let charged: u64 = match actual {
            Some(tokens) => tokens,
            None => entry.estimate,
        };
        let estimate: u64 = entry.estimate;
        self.settled.push(SettledEntry { key: entry.key, amount: charged, at: now_ms });
        proof {
            assert(self@.active =~= before.active.remove(i as int));
            assert(self@.settled =~= before.settled.push(
                SettledView {
                    key: before.active[i as int].key,
                    amount: charged as nat,
                    at: now_ms as nat,
                },
            ));
        }
        let refund: u64 = if estimate > charged {
            estimate - charged
        } else {
            0
        };
        let overage: u64 = if charged > estimate {
            charged - estimate
        } else {
            0
        };
        Settlement::Applied { actual: charged, refund, overage }
    }
}

/// Token quota kept in memory.
pub struct Ledger {
    state: LedgerState,
}

impl View for Ledger {
    type V = LedgerView;

    closed spec fn view(&self) -> LedgerView {
        self.state@
    }
}

impl Ledger {
    #[verifier::type_invariant]
    spec fn well_formed(&self) -> bool {
        self.state@.valid()
    }

    /// A ledger without reservations or usage.
    pub fn new(
        budgets: Vec<Budget>,
        reservation_timeout_ms: u64,
        max_keys: usize,
        max_active_reservations: usize,
    ) -> (r: Ledger)
        ensures
            r@ == (LedgerView {
                budgets: budgets@,
                timeout: reservation_timeout_ms as nat,
                max_keys: max_keys as nat,
                max_active: max_active_reservations as nat,
                active: Seq::empty(),
                settled: Seq::empty(),
                keys: Seq::empty(),
                last_id: 0,
            }),
            r@.valid(),
    {
        Ledger {
            state: LedgerState::new(
                budgets,
                reservation_timeout_ms,
                max_keys,
                max_active_reservations,
            ),
        }
    }

    /// Take the contents out, to work on them.
    fn take_state(&mut self) -> (r: LedgerState)
        ensures
            r@ == old(self)@,
            r@.valid(),
    {
        proof {
            use_type_invariant(&*self);
        }
        let mut state = LedgerState::new(Vec::new(), 0, 0, 0);
        std::mem::swap(&mut state, &mut self.state);
        state
    }

    /// Hold `estimate` tokens of `key` if the quota allows it.
    ///
    /// Overdue reservations are charged first, usage of `key` that has left a
    /// window is dropped, and keys that are no longer in use are forgotten.
    pub fn reserve(&mut self, key: &str, estimate: u64, now_ms: u64) -> (r: Decision)
        ensures
            old(self)@.valid(),
            final(self)@.valid(),
            final(self)@ == old(self)@.reserved(key@, estimate as nat, now_ms as nat),
            match r {
                Decision::Admitted(held) => {
                    &&& old(self)@.swept(key@, now_ms as nat).admits(
                        key@,
                        estimate as nat,
                        now_ms as nat,
                    )
                    &&& held.id == final(self)@.last_id
                    &&& held.estimate == estimate
                },
                Decision::Denied { retry_after_ms } => {
                    &&& !old(self)@.swept(key@, now_ms as nat).admits(
                        key@,
                        estimate as nat,
                        now_ms as nat,
                    )
                    &&& retry_after_ms == longest_window(old(self)@.budgets)
                },
            },
            r is Admitted <==> {
                let v = old(self)@;
                &&& (exists|i: int|
                    0 <= i < v.keys.len() && (#[trigger] v.keys[i]).key == key@
                        && v.keys[i].expires_at > now_ms) || v.keys.filter(
                    |k: KeyView| k.expires_at > now_ms as nat,
                ).len() < v.max_keys
                &&& v.active.filter(
                    |e: ActiveView| e.reserved_at + v.timeout > now_ms as nat,
                ).len() < v.max_active
                &&& v.last_id < u64::MAX
                &&& forall|b: int|
                    0 <= b < v.budgets.len() ==> tokens_in_use(v, key@, now_ms as nat) + estimate
                        <= (#[trigger] v.budgets[b]).capacity
            },
    {
        proof {
            law_requests_are_denied_only_for_a_reason(
                self@,
                key@,
                estimate as nat,
                now_ms as nat,
            );
        }
        let mut state = self.take_state();
        let r = state.reserve(key, estimate, now_ms);
        self.state = state;
        r
    }

    /// Settle the reservation `id` with the tokens that were used, or with its
    /// estimate when that number is not known.
    pub fn reconcile(&mut self, id: u64, actual: Option<u64>, now_ms: u64) -> (r: Settlement)
        ensures
            old(self)@.valid(),
            final(self)@.valid(),
            final(self)@ == old(self)@.reconciled(id, actual, now_ms as nat),
            match r {
                Settlement::Noop => !old(self)@.is_open(id),
                Settlement::Applied { actual: charged, refund, overage } => {
                    let estimate = old(self)@.active[active_index(old(self)@.active, id)].estimate;
                    &&& old(self)@.is_open(id)
                    &&& charged == old(self)@.charge(id, actual)
                    &&& charged == (match actual {
                        Some(tokens) => tokens as nat,
                        None => estimate,
                    })
                    &&& charged + refund == estimate + overage
                    &&& refund == 0 || overage == 0
                    &&& refund == if estimate > charged { estimate - charged } else { 0 }
                    &&& overage == if charged > estimate { charged - estimate } else { 0 }
                },
            },
    {
        let mut state = self.take_state();
        let r = state.reconcile(id, actual, now_ms);
        self.state = state;
        r
    }

    /// Tokens that one key may use at most: the smallest capacity.
    pub fn limit(&self) -> (r: u64)
        ensures
            r == smallest_capacity(self@.budgets),
    {
        min_capacity(&self.state.budgets)
    }
}

/// The smallest capacity of `budgets`, or 0 without budgets.
pub fn min_capacity(budgets: &Vec<Budget>) -> (r: u64)
    ensures
        r == smallest_capacity(budgets@),
{
    if budgets.len() == 0 {
        return 0;
    }
    let mut smallest: u64 = budgets[0].capacity;
    let mut b: usize = 1;
    while b < budgets.len()
        invariant
            1 <= b <= budgets@.len(),
            smallest == smallest_capacity(budgets@.take(b as int)),
        decreases budgets@.len() - b,
    {
        proof {
            assert(budgets@.take(b + 1).drop_last() =~= budgets@.take(b as int));
            assert(budgets@.take(b + 1).last() == budgets@[b as int]);
        }
        if budgets[b].capacity < smallest {
            smallest = budgets[b].capacity;
        }
        b += 1;
    }
    assert(budgets@.take(b as int) =~= budgets@);
    smallest
}

/// More entries never mean less charged usage.
proof fn lemma_settled_use_grows(settled: Seq<SettledView>, key: Seq<char>, since: int, i: int)
    requires
        0 <= i <= settled.len(),
    ensures
        settled_use(settled.take(i), key, since) <= settled_use(settled, key, since),
    decreases settled.len() - i,
{
    if i < settled.len() {
        lemma_settled_use_grows(settled, key, since, i + 1);
        assert(settled.take(i + 1).drop_last() =~= settled.take(i));
    } else {
        assert(settled.take(i) =~= settled);
    }
}

/// More reservations never mean fewer held tokens.
proof fn lemma_active_use_grows(active: Seq<ActiveView>, key: Seq<char>, i: int)
    requires
        0 <= i <= active.len(),
    ensures
        active_use(active.take(i), key) <= active_use(active, key),
    decreases active.len() - i,
{
    if i < active.len() {
        lemma_active_use_grows(active, key, i + 1);
        assert(active.take(i + 1).drop_last() =~= active.take(i));
    } else {
        assert(active.take(i) =~= active);
    }
}

/// Filtering keeps what is left in order: each kept position comes from a
/// position of its own.
proof fn lemma_filter_positions<A>(s: Seq<A>, keep: spec_fn(A) -> bool) -> (at: Seq<int>)
    ensures
        at.len() == s.filter(keep).len(),
        s.filter(keep).len() <= s.len(),
        forall|i: int| 0 <= i < at.len() ==> 0 <= #[trigger] at[i] < s.len(),
        forall|i: int| 0 <= i < at.len() ==> s.filter(keep)[i] == s[#[trigger] at[i]],
        forall|i: int| 0 <= i < at.len() ==> keep(s[#[trigger] at[i]]),
        forall|i: int, j: int| 0 <= i < j < at.len() ==> #[trigger] at[i] < #[trigger] at[j],
    decreases s.len(),
{
    reveal(Seq::filter);
    if s.len() == 0 {
        Seq::empty()
    } else {
        let rest = lemma_filter_positions(s.drop_last(), keep);
        if keep(s.last()) {
            rest.push(s.len() - 1)
        } else {
            rest
        }
    }
}

/// Sweeping keeps a ledger valid.
proof fn lemma_swept_valid(v: LedgerView, key: Seq<char>, now: nat)
    requires
        v.valid(),
    ensures
        v.swept(key, now).valid(),
{
    let a = lemma_filter_positions(v.active, |e: ActiveView| !v.overdue(e, now));
    let k = lemma_filter_positions(v.keys, |k: KeyView| k.expires_at > now);
    let w = v.swept(key, now);
    assert forall|i: int| 0 <= i < w.active.len() implies 1 <= (#[trigger] w.active[i]).id
        <= w.last_id by {
        assert(w.active[i] == v.active[a[i]]);
    }
    assert forall|i: int, j: int| 0 <= i < j < w.active.len() implies (#[trigger] w.active[i]).id
        != (#[trigger] w.active[j]).id by {
        assert(w.active[i] == v.active[a[i]] && w.active[j] == v.active[a[j]]);
    }
    assert forall|i: int, j: int| 0 <= i < j < w.keys.len() implies (#[trigger] w.keys[i]).key
        != (#[trigger] w.keys[j]).key by {
        assert(w.keys[i] == v.keys[k[i]] && w.keys[j] == v.keys[k[j]]);
    }
}

/// Admitting a reservation keeps a ledger valid.
proof fn lemma_with_reservation_valid(v: LedgerView, key: Seq<char>, estimate: nat, now: nat)
    requires
        v.valid(),
    ensures
        v.admits(key, estimate, now) ==> v.with_reservation(key, estimate, now).valid(),
{
    if v.admits(key, estimate, now) {
        let keep = |k: KeyView| k.key != key;
        let k = lemma_filter_positions(v.keys, keep);
        let kept = v.keys.filter(keep);
        let w = v.with_reservation(key, estimate, now);
        if knows_key(v.keys, key) {
            let gone = choose|i: int| 0 <= i < v.keys.len() && (#[trigger] v.keys[i]).key == key;
            if kept.len() == v.keys.len() {
                lemma_increasing_covers(k, v.keys.len() as int);
                assert(k[gone] == gone);
            }
        }
        assert forall|i: int, j: int| 0 <= i < j < w.keys.len() implies (#[trigger] w.keys[i]).key
            != (#[trigger] w.keys[j]).key by {
            assert(w.keys[i] == v.keys[k[i]]);
            assert(keep(v.keys[k[i]]));
            if j < kept.len() {
                assert(w.keys[j] == v.keys[k[j]]);
            }
        }
        assert forall|i: int, j: int|
            0 <= i < j < w.active.len() implies (#[trigger] w.active[i]).id != (
        #[trigger] w.active[j]).id by {
            assert(w.active[i] == v.active[i]);
            if j < v.active.len() {
                assert(w.active[j] == v.active[j]);
            }
        }
    }
}

/// An increasing sequence of `n` positions below `n` holds each of them.
proof fn lemma_increasing_covers(at: Seq<int>, n: int)
    requires
        at.len() == n,
        forall|i: int| 0 <= i < at.len() ==> 0 <= #[trigger] at[i] < n,
        forall|i: int, j: int| 0 <= i < j < at.len() ==> #[trigger] at[i] < #[trigger] at[j],
    ensures
        forall|i: int| 0 <= i < n ==> #[trigger] at[i] == i,
{
    assert forall|i: int| 0 <= i < n implies #[trigger] at[i] == i by {
        lemma_increasing_low(at, n, i);
        lemma_increasing_high(at, n, i);
    }
}

/// The `i`-th of increasing positions is at least `i`.
proof fn lemma_increasing_low(at: Seq<int>, n: int, i: int)
    requires
        at.len() == n,
        forall|i: int| 0 <= i < at.len() ==> 0 <= #[trigger] at[i] < n,
        forall|i: int, j: int| 0 <= i < j < at.len() ==> #[trigger] at[i] < #[trigger] at[j],
    ensures
        0 <= i < n ==> at[i] >= i,
    decreases i,
{
    if 0 < i < n {
        lemma_increasing_low(at, n, i - 1);
        assert(at[i - 1] < at[i]);
    }
}

/// The `i`-th of increasing positions leaves room for those after it.
proof fn lemma_increasing_high(at: Seq<int>, n: int, i: int)
    requires
        at.len() == n,
        forall|i: int| 0 <= i < at.len() ==> 0 <= #[trigger] at[i] < n,
        forall|i: int, j: int| 0 <= i < j < at.len() ==> #[trigger] at[i] < #[trigger] at[j],
    ensures
        0 <= i < n ==> at[i] <= i,
    decreases n - i,
{
    if 0 <= i < n - 1 {
        lemma_increasing_high(at, n, i + 1);
        assert(at[i] < at[i + 1]);
    }
}

/// What [`active_index`] finds.
proof fn lemma_active_index(active: Seq<ActiveView>, id: u64)
    ensures
        0 <= active_index(active, id) <= active.len(),
        active_index(active, id) < active.len() ==> active[active_index(active, id)].id == id,
        active_index(active, id) == active.len() <==> forall|i: int|
            0 <= i < active.len() ==> (#[trigger] active[i]).id != id,
    decreases active.len(),
{
    if active.len() > 0 && active[0].id != id {
        let rest = active.drop_first();
        lemma_active_index(rest, id);
        if active_index(rest, id) == rest.len() {
            assert forall|i: int| 0 <= i < active.len() implies (#[trigger] active[i]).id != id by {
                if i > 0 {
                    assert(active[i] == rest[i - 1]);
                }
            }
        }
    }
}

/// Settling a reservation keeps a ledger valid.
proof fn lemma_reconciled_valid(v: LedgerView, id: u64, actual: Option<u64>, now: nat)
    requires
        v.valid(),
    ensures
        v.reconciled(id, actual, now).valid(),
{
    if v.is_open(id) {
        lemma_active_index(v.active, id);
        let k = active_index(v.active, id);
        let w = v.reconciled(id, actual, now);
        assert forall|i: int| 0 <= i < w.active.len() implies 1 <= (#[trigger] w.active[i]).id
            <= w.last_id by {
            assert(w.active[i] == v.active[if i < k { i } else { i + 1 }]);
        }
        assert forall|i: int, j: int|
            0 <= i < j < w.active.len() implies (#[trigger] w.active[i]).id != (
        #[trigger] w.active[j]).id by {
            assert(w.active[i] == v.active[if i < k { i } else { i + 1 }]);
            assert(w.active[j] == v.active[if j < k { j } else { j + 1 }]);
        }
    }
}

/// Taking a reservation out gives back exactly its estimate.
proof fn lemma_active_use_remove(active: Seq<ActiveView>, key: Seq<char>, i: int)
    requires
        0 <= i < active.len(),
    ensures
        active_use(active, key) == active_use(active.remove(i), key) + if active[i].key == key {
            active[i].estimate
        } else {
            0
        },
    decreases active.len(),
{
    if i == active.len() - 1 {
        assert(active.remove(i) =~= active.drop_last());
    } else {
        let rest = active.drop_last();
        lemma_active_use_remove(rest, key, i);
        assert(active.remove(i).drop_last() =~= rest.remove(i));
        assert(active.remove(i).last() == active.last());
    }
}

/// Charged usage adds up over two lists.
proof fn lemma_settled_use_add(
    a: Seq<SettledView>,
    b: Seq<SettledView>,
    key: Seq<char>,
    since: int,
)
    ensures
        settled_use(a + b, key, since) == settled_use(a, key, since) + settled_use(b, key, since),
    decreases b.len(),
{
    if b.len() == 0 {
        assert(a + b =~= a);
    } else {
        lemma_settled_use_add(a, b.drop_last(), key, since);
        assert((a + b).drop_last() =~= a + b.drop_last());
        assert((a + b).last() == b.last());
    }
}

/// Splitting reservations into overdue and current ones, and charging the
/// overdue ones, keeps their tokens counted.
proof fn lemma_expiry_balance(
    v: LedgerView,
    active: Seq<ActiveView>,
    key: Seq<char>,
    since: int,
    now: nat,
)
    requires
        forall|i: int|
            0 <= i < active.len() && (#[trigger] active[i]).key == key ==> active[i].reserved_at
                >= since,
    ensures
        active_use(active.filter(|e: ActiveView| !v.overdue(e, now)), key) + settled_use(
            active.filter(|e: ActiveView| v.overdue(e, now)).map_values(
                |e: ActiveView| charge_of(e),
            ),
            key,
            since,
        ) == active_use(active, key),
    decreases active.len(),
{
    reveal(Seq::filter);
    let keep = |e: ActiveView| !v.overdue(e, now);
    let drop = |e: ActiveView| v.overdue(e, now);
    let charge = |e: ActiveView| charge_of(e);
    if active.len() > 0 {
        let rest = active.drop_last();
        let e = active.last();
        lemma_expiry_balance(v, rest, key, since, now);
        if v.overdue(e, now) {
            let charged = active.filter(drop).map_values(charge);
            assert(charged.drop_last() =~= rest.filter(drop).map_values(charge));
            assert(charged.last() == charge_of(e));
            assert(active.filter(keep) == rest.filter(keep));
        } else {
            assert(active.filter(keep).drop_last() =~= rest.filter(keep));
            assert(active.filter(keep).last() == e);
            assert(active.filter(drop) == rest.filter(drop));
        }
    } else {
        assert(active.filter(drop).map_values(charge) =~= Seq::empty());
    }
}

/// A reservation is settled at most once: after a settlement the identifier is
/// no longer open, and settling it again changes nothing.
pub proof fn law_settled_at_most_once(
    v: LedgerView,
    id: u64,
    first: Option<u64>,
    first_at: nat,
    second: Option<u64>,
    second_at: nat,
)
    requires
        v.valid(),
    ensures
        !v.reconciled(id, first, first_at).is_open(id),
        v.reconciled(id, first, first_at).reconciled(id, second, second_at) == v.reconciled(
            id,
            first,
            first_at,
        ),
{
    lemma_active_index(v.active, id);
    let w = v.reconciled(id, first, first_at);
    if v.is_open(id) {
        let k = active_index(v.active, id);
        assert forall|i: int| 0 <= i < w.active.len() implies (#[trigger] w.active[i]).id != id by {
            assert(w.active[i] == v.active[if i < k { i } else { i + 1 }]);
        }
        lemma_active_index(w.active, id);
    }
}

/// An admitted reservation never takes a key over one of its budgets: held
/// tokens and charged tokens that have not been dropped together stay within
/// every capacity. [`law_shortest_window_decides_what_counts`] says which charged
/// tokens these are.
pub proof fn law_admission_stays_within_capacity(
    v: LedgerView,
    key: Seq<char>,
    estimate: nat,
    now: nat,
)
    requires
        v.swept(key, now).admits(key, estimate, now),
    ensures
        forall|b: int|
            0 <= b < v.budgets.len() ==> v.reserved(key, estimate, now).usage(
                key,
                (#[trigger] v.budgets[b]).window_ms as nat,
                now,
            ) <= v.budgets[b].capacity,
{
    let w = v.swept(key, now);
    let r = v.reserved(key, estimate, now);
    assert(r.active.drop_last() =~= w.active);
    assert forall|b: int| 0 <= b < v.budgets.len() implies r.usage(
        key,
        (#[trigger] v.budgets[b]).window_ms as nat,
        now,
    ) <= v.budgets[b].capacity by {
        assert(w.budgets[b] == v.budgets[b]);
    }
}

/// What a request counts against each budget of its key, whatever the budget's
/// own window: the tokens that are held, and those that were charged since the
/// shortest window began.
pub proof fn law_shortest_window_decides_what_counts(
    v: LedgerView,
    key: Seq<char>,
    now: nat,
    b: int,
)
    requires
        0 <= b < v.budgets.len(),
    ensures
        v.swept(key, now).usage(key, v.budgets[b].window_ms as nat, now) == settled_use(
            v.expired(now).settled,
            key,
            now - shortest_window(v.budgets) + 1,
        ) + active_use(v.expired(now).active, key),
{
    lemma_shortest_window(v.budgets);
    lemma_dropped_use(v, v.expired(now).settled, key, now, b);
}

/// The shortest window is that of some budget, and none is shorter.
proof fn lemma_shortest_window(budgets: Seq<Budget>)
    requires
        budgets.len() > 0,
    ensures
        exists|b: int|
            0 <= b < budgets.len() && (#[trigger] budgets[b]).window_ms == shortest_window(budgets),
        forall|b: int|
            0 <= b < budgets.len() ==> (#[trigger] budgets[b]).window_ms >= shortest_window(
                budgets,
            ),
    decreases budgets.len(),
{
    if budgets.len() == 1 {
        assert(budgets[0].window_ms == shortest_window(budgets));
    } else {
        let rest = budgets.drop_last();
        lemma_shortest_window(rest);
        let b = choose|b: int|
            0 <= b < rest.len() && (#[trigger] rest[b]).window_ms == shortest_window(rest);
        assert(budgets[b] == rest[b]);
        assert(budgets[budgets.len() - 1] == budgets.last());
        assert forall|b: int| 0 <= b < budgets.len() implies (#[trigger] budgets[b]).window_ms
            >= shortest_window(budgets) by {
            if b < rest.len() {
                assert(budgets[b] == rest[b]);
            }
        }
    }
}

/// Once outdated usage of a key is dropped, each window counts what was charged
/// within the shortest.
proof fn lemma_dropped_use(
    v: LedgerView,
    settled: Seq<SettledView>,
    key: Seq<char>,
    now: nat,
    b: int,
)
    requires
        0 <= b < v.budgets.len(),
    ensures
        settled_use(
            settled.filter(|e: SettledView| !v.outdated(e, key, now)),
            key,
            now - v.budgets[b].window_ms,
        ) == settled_use(settled, key, now - shortest_window(v.budgets) + 1),
    decreases settled.len(),
{
    reveal(Seq::filter);
    let keep = |e: SettledView| !v.outdated(e, key, now);
    if settled.len() > 0 {
        let rest = settled.drop_last();
        let e = settled.last();
        lemma_dropped_use(v, rest, key, now, b);
        lemma_shortest_window(v.budgets);
        if v.outdated(e, key, now) {
            let gone = choose|b: int|
                0 <= b < v.budgets.len() && e.at + (#[trigger] v.budgets[b]).window_ms <= now;
            assert(v.budgets[gone].window_ms >= shortest_window(v.budgets));
        } else {
            assert(settled.filter(keep).drop_last() =~= rest.filter(keep));
            if e.key == key {
                let short = choose|b: int|
                    0 <= b < v.budgets.len() && (#[trigger] v.budgets[b]).window_ms
                        == shortest_window(v.budgets);
                assert(e.at + v.budgets[short].window_ms > now);
            }
        }
    }
}

/// The identifier of an admitted reservation was not open before.
pub proof fn law_identifiers_are_fresh(v: LedgerView, key: Seq<char>, estimate: nat, now: nat)
    requires
        v.valid(),
        v.swept(key, now).admits(key, estimate, now),
    ensures
        !v.is_open(v.reserved(key, estimate, now).last_id),
        v.reserved(key, estimate, now).is_open(v.reserved(key, estimate, now).last_id),
{
    let r = v.reserved(key, estimate, now);
    lemma_active_index(v.active, r.last_id);
    lemma_active_index(r.active, r.last_id);
    assert(r.active.last().id == r.last_id);
}

/// Settling a reservation replaces its estimate by its charge, for its key and
/// for no other.
pub proof fn law_settlement_replaces_estimate_by_charge(
    v: LedgerView,
    id: u64,
    actual: Option<u64>,
    now: nat,
    key: Seq<char>,
    since: int,
)
    requires
        v.is_open(id),
        since <= now,
    ensures
        ({
            let entry = v.active[active_index(v.active, id)];
            let w = v.reconciled(id, actual, now);
            &&& active_use(w.active, key) == active_use(v.active, key) - if entry.key == key {
                entry.estimate
            } else {
                0
            }
            &&& settled_use(w.settled, key, since) == settled_use(v.settled, key, since)
                + if entry.key == key {
                v.charge(id, actual)
            } else {
                0
            }
        }),
{
    lemma_active_index(v.active, id);
    let w = v.reconciled(id, actual, now);
    lemma_active_use_remove(v.active, key, active_index(v.active, id));
    assert(w.settled.drop_last() =~= v.settled);
}

/// Letting reservations run out frees nothing: a key's usage stays the same as
/// long as its reservations were made within the window.
pub proof fn law_overdue_reservations_are_charged(
    v: LedgerView,
    key: Seq<char>,
    window: nat,
    now: nat,
)
    requires
        forall|i: int|
            0 <= i < v.active.len() && (#[trigger] v.active[i]).key == key
                ==> v.active[i].reserved_at + window >= now,
    ensures
        v.expired(now).usage(key, window, now) == v.usage(key, window, now),
{
    let since = now - window;
    lemma_expiry_balance(v, v.active, key, since, now);
    lemma_settled_use_add(
        v.settled,
        v.active.filter(|e: ActiveView| v.overdue(e, now)).map_values(
            |e: ActiveView| charge_of(e),
        ),
        key,
        since,
    );
}

/// The sum of some amounts.
pub open spec fn total(amounts: Seq<nat>) -> nat {
    amounts.fold_left(0nat, |sum: nat, amount: nat| sum + amount)
}

/// Whether something that happened at `at` lies within the window of each budget.
pub open spec fn is_recent(budgets: Seq<Budget>, at: nat, now: nat) -> bool {
    forall|b: int| 0 <= b < budgets.len() ==> at + (#[trigger] budgets[b]).window_ms > now
}

/// Tokens of `key` that a request made at `now` finds in use: those charged
/// within every window, those of overdue reservations that were made within every
/// window, and those of all other reservations.
pub open spec fn tokens_in_use(v: LedgerView, key: Seq<char>, now: nat) -> nat {
    total(
        v.settled.filter(
            |e: SettledView| e.key == key && is_recent(v.budgets, e.at, now),
        ).map_values(|e: SettledView| e.amount),
    ) + total(
        v.active.filter(
            |e: ActiveView|
                e.key == key && e.reserved_at + v.timeout <= now && is_recent(
                    v.budgets,
                    e.reserved_at,
                    now,
                ),
        ).map_values(|e: ActiveView| e.estimate),
    ) + total(
        v.active.filter(
            |e: ActiveView| e.key == key && e.reserved_at + v.timeout > now,
        ).map_values(|e: ActiveView| e.estimate),
    )
}

/// A request is admitted exactly when nothing stands against it: its key is in
/// use or there is room for another key, fewer reservations are open than may be,
/// an identifier is left, and with its estimate the tokens of its key in use stay
/// within the capacity of every budget. It is denied for no other reason.
pub proof fn law_requests_are_denied_only_for_a_reason(
    v: LedgerView,
    key: Seq<char>,
    estimate: nat,
    now: nat,
)
    ensures
        v.swept(key, now).admits(key, estimate, now) <==> {
            &&& (exists|i: int|
                0 <= i < v.keys.len() && (#[trigger] v.keys[i]).key == key && v.keys[i].expires_at
                    > now) || v.keys.filter(|k: KeyView| k.expires_at > now).len() < v.max_keys
            &&& v.active.filter(|e: ActiveView| e.reserved_at + v.timeout > now).len()
                < v.max_active
            &&& v.last_id < u64::MAX
            &&& forall|b: int|
                0 <= b < v.budgets.len() ==> tokens_in_use(v, key, now) + estimate <= (
                #[trigger] v.budgets[b]).capacity
        },
{
    let swept = v.swept(key, now);
    let open_by_law = |e: ActiveView| e.reserved_at + v.timeout > now;
    assert(open_by_law =~= (|e: ActiveView| !v.overdue(e, now)));
    let live = |k: KeyView| k.expires_at > now;
    assert(swept.keys == v.keys.filter(live));
    let at = lemma_filter_positions(v.keys, live);
    if knows_key(swept.keys, key) {
        let i = choose|i: int| 0 <= i < swept.keys.len() && (#[trigger] swept.keys[i]).key == key;
        assert(v.keys[at[i]].key == key && live(v.keys[at[i]]));
    }
    if exists|i: int|
        0 <= i < v.keys.len() && (#[trigger] v.keys[i]).key == key && v.keys[i].expires_at > now {
        let i = choose|i: int|
            0 <= i < v.keys.len() && (#[trigger] v.keys[i]).key == key && v.keys[i].expires_at
                > now;
        assert(live(v.keys[i]));
        v.keys.lemma_filter_contains(live, i);
        let j = choose|j: int| 0 <= j < swept.keys.len() && swept.keys[j] == v.keys[i];
        assert(swept.keys[j].key == key);
    }
    assert forall|b: int| 0 <= b < v.budgets.len() implies swept.usage(
        key,
        (#[trigger] v.budgets[b]).window_ms as nat,
        now,
    ) == tokens_in_use(v, key, now) by {
        lemma_usage_is_tokens_in_use(v, key, now, b);
    }
    assert(swept.budgets == v.budgets);
    assert(swept.has_room(key, estimate, now) <==> forall|b: int|
        0 <= b < v.budgets.len() ==> tokens_in_use(v, key, now) + estimate <= (
        #[trigger] v.budgets[b]).capacity) by {
        if swept.has_room(key, estimate, now) {
            assert forall|b: int| 0 <= b < v.budgets.len() implies tokens_in_use(v, key, now)
                + estimate <= (#[trigger] v.budgets[b]).capacity by {
                assert(swept.budgets[b] == v.budgets[b]);
            }
        }
    }
}

/// What a swept ledger counts against a budget is what is in use.
proof fn lemma_usage_is_tokens_in_use(v: LedgerView, key: Seq<char>, now: nat, b: int)
    requires
        0 <= b < v.budgets.len(),
    ensures
        v.swept(key, now).usage(key, v.budgets[b].window_ms as nat, now) == tokens_in_use(
            v,
            key,
            now,
        ),
{
    let since = now - shortest_window(v.budgets) + 1;
    let overdue = v.active.filter(|e: ActiveView| v.overdue(e, now)).map_values(
        |e: ActiveView| charge_of(e),
    );
    law_shortest_window_decides_what_counts(v, key, now, b);
    lemma_settled_use_add(v.settled, overdue, key, since);
    lemma_settled_total(v, v.settled, key, now);
    lemma_overdue_total(v, v.active, key, now);
    lemma_active_total(v, v.active, key, now);
}

/// Something is recent exactly when it lies within the shortest window.
proof fn lemma_recent(budgets: Seq<Budget>, at: nat, now: nat)
    requires
        budgets.len() > 0,
    ensures
        is_recent(budgets, at, now) <==> at >= now - shortest_window(budgets) + 1,
{
    lemma_shortest_window(budgets);
    let short = choose|b: int|
        0 <= b < budgets.len() && (#[trigger] budgets[b]).window_ms == shortest_window(budgets);
    assert(budgets[short].window_ms == shortest_window(budgets));
}

/// The sum of one amount more.
proof fn lemma_total_push(amounts: Seq<nat>, amount: nat)
    ensures
        total(amounts.push(amount)) == total(amounts) + amount,
        total(Seq::empty()) == 0,
{
    reveal_with_fuel(Seq::fold_left, 2);
    assert(amounts.push(amount).drop_last() =~= amounts);
}

/// Charged usage is a sum.
proof fn lemma_settled_total(v: LedgerView, settled: Seq<SettledView>, key: Seq<char>, now: nat)
    requires
        v.budgets.len() > 0,
    ensures
        settled_use(settled, key, now - shortest_window(v.budgets) + 1) == total(
            settled.filter(
                |e: SettledView| e.key == key && is_recent(v.budgets, e.at, now),
            ).map_values(|e: SettledView| e.amount),
        ),
    decreases settled.len(),
{
    reveal(Seq::filter);
    let keep = |e: SettledView| e.key == key && is_recent(v.budgets, e.at, now);
    let amount = |e: SettledView| e.amount;
    lemma_total_push(Seq::empty(), 0);
    if settled.len() == 0 {
        assert(settled.filter(keep).map_values(amount) =~= Seq::empty());
    } else {
        let rest = settled.drop_last();
        let e = settled.last();
        lemma_settled_total(v, rest, key, now);
        lemma_recent(v.budgets, e.at, now);
        if keep(e) {
            lemma_total_push(rest.filter(keep).map_values(amount), e.amount);
            assert(settled.filter(keep).map_values(amount) =~= rest.filter(keep).map_values(
                amount,
            ).push(e.amount));
        } else {
            assert(settled.filter(keep) == rest.filter(keep));
        }
    }
}

/// What overdue reservations leave behind is a sum.
proof fn lemma_overdue_total(v: LedgerView, active: Seq<ActiveView>, key: Seq<char>, now: nat)
    requires
        v.budgets.len() > 0,
    ensures
        settled_use(
            active.filter(|e: ActiveView| v.overdue(e, now)).map_values(
                |e: ActiveView| charge_of(e),
            ),
            key,
            now - shortest_window(v.budgets) + 1,
        ) == total(
            active.filter(
                |e: ActiveView|
                    e.key == key && e.reserved_at + v.timeout <= now && is_recent(
                        v.budgets,
                        e.reserved_at,
                        now,
                    ),
            ).map_values(|e: ActiveView| e.estimate),
        ),
    decreases active.len(),
{
    reveal(Seq::filter);
    let late = |e: ActiveView| v.overdue(e, now);
    let charge = |e: ActiveView| charge_of(e);
    let keep = |e: ActiveView|
        e.key == key && e.reserved_at + v.timeout <= now && is_recent(
            v.budgets,
            e.reserved_at,
            now,
        );
    let amount = |e: ActiveView| e.estimate;
    lemma_total_push(Seq::empty(), 0);
    if active.len() == 0 {
        assert(active.filter(keep).map_values(amount) =~= Seq::empty());
        assert(active.filter(late).map_values(charge) =~= Seq::empty());
    } else {
        let rest = active.drop_last();
        let e = active.last();
        lemma_overdue_total(v, rest, key, now);
        lemma_recent(v.budgets, e.reserved_at, now);
        if late(e) {
            let charged = active.filter(late).map_values(charge);
            assert(charged.drop_last() =~= rest.filter(late).map_values(charge));
            assert(charged.last() == charge_of(e));
        } else {
            assert(active.filter(late) == rest.filter(late));
        }
        if keep(e) {
            lemma_total_push(rest.filter(keep).map_values(amount), e.estimate);
            assert(active.filter(keep).map_values(amount) =~= rest.filter(keep).map_values(
                amount,
            ).push(e.estimate));
        } else {
            assert(active.filter(keep) == rest.filter(keep));
        }
    }
}

/// What reservations that are not overdue hold is a sum.
proof fn lemma_active_total(v: LedgerView, active: Seq<ActiveView>, key: Seq<char>, now: nat)
    ensures
        active_use(active.filter(|e: ActiveView| !v.overdue(e, now)), key) == total(
            active.filter(
                |e: ActiveView| e.key == key && e.reserved_at + v.timeout > now,
            ).map_values(|e: ActiveView| e.estimate),
        ),
    decreases active.len(),
{
    reveal(Seq::filter);
    let open = |e: ActiveView| !v.overdue(e, now);
    let keep = |e: ActiveView| e.key == key && e.reserved_at + v.timeout > now;
    let amount = |e: ActiveView| e.estimate;
    lemma_total_push(Seq::empty(), 0);
    if active.len() == 0 {
        assert(active.filter(keep).map_values(amount) =~= Seq::empty());
    } else {
        let rest = active.drop_last();
        let e = active.last();
        lemma_active_total(v, rest, key, now);
        if open(e) {
            assert(active.filter(open).drop_last() =~= rest.filter(open));
            assert(active.filter(open).last() == e);
        } else {
            assert(active.filter(open) == rest.filter(open));
        }
        if keep(e) {
            lemma_total_push(rest.filter(keep).map_values(amount), e.estimate);
            assert(active.filter(keep).map_values(amount) =~= rest.filter(keep).map_values(
                amount,
            ).push(e.estimate));
        } else {
            assert(active.filter(keep) == rest.filter(keep));
        }
    }
}

/// What a request leaves behind, whether it is admitted or not. Reservations that
/// were open for the whole timeout become charges of their estimates at the time
/// they were made; charges of the key that have left a window are gone, and no
/// others; keys whose time is over are gone. An admitted request adds one
/// reservation, with the next identifier, and its key is remembered for the
/// longest window and the timeout, or a second if that is longer.
pub proof fn law_requests_leave_this_behind(
    v: LedgerView,
    key: Seq<char>,
    estimate: nat,
    now: nat,
    longest: nat,
)
    requires
        forall|b: int| 0 <= b < v.budgets.len() ==> (#[trigger] v.budgets[b]).window_ms <= longest,
        v.budgets.len() == 0 ==> longest == 0,
        v.budgets.len() > 0 ==> exists|b: int|
            0 <= b < v.budgets.len() && (#[trigger] v.budgets[b]).window_ms == longest,
    ensures
        ({
            let w = v.reserved(key, estimate, now);
            let admitted = v.swept(key, now).admits(key, estimate, now);
            let open = v.active.filter(|e: ActiveView| e.reserved_at + v.timeout > now);
            let charged = v.settled + v.active.filter(
                |e: ActiveView| e.reserved_at + v.timeout <= now,
            ).map_values(
                |e: ActiveView|
                    (SettledView { key: e.key, amount: e.estimate, at: e.reserved_at }),
            );
            let live = v.keys.filter(|k: KeyView| k.expires_at > now);
            let kept_for: nat = if longest + v.timeout < 1000 {
                1000
            } else {
                longest + v.timeout
            };
            &&& w.budgets == v.budgets
            &&& w.timeout == v.timeout
            &&& w.max_keys == v.max_keys
            &&& w.max_active == v.max_active
            &&& w.settled == charged.filter(
                |e: SettledView| e.key != key || is_recent(v.budgets, e.at, now),
            )
            &&& admitted ==> {
                &&& w.last_id == v.last_id + 1
                &&& w.active == open.push(
                    ActiveView {
                        id: (v.last_id + 1) as u64,
                        key,
                        estimate,
                        reserved_at: now,
                    },
                )
                &&& w.keys == live.filter(|k: KeyView| k.key != key).push(
                    KeyView { key, expires_at: now + kept_for },
                )
            }
            &&& !admitted ==> w.last_id == v.last_id && w.active == open && w.keys == live
        }),
{
    law_longest_window_is_the_longest(v.budgets);
    let open_by_law = |e: ActiveView| e.reserved_at + v.timeout > now;
    assert(open_by_law =~= (|e: ActiveView| !v.overdue(e, now)));
    let late_by_law = |e: ActiveView| e.reserved_at + v.timeout <= now;
    assert(late_by_law =~= (|e: ActiveView| v.overdue(e, now)));
    let charge_by_law = |e: ActiveView|
        (SettledView { key: e.key, amount: e.estimate, at: e.reserved_at });
    assert(charge_by_law =~= (|e: ActiveView| charge_of(e)));
    let keep_by_law = |e: SettledView| e.key != key || is_recent(v.budgets, e.at, now);
    let keep = |e: SettledView| !v.outdated(e, key, now);
    assert forall|e: SettledView| #[trigger] keep_by_law(e) == keep(e) by {
        if e.key == key && !is_recent(v.budgets, e.at, now) {
            let b = choose|b: int|
                0 <= b < v.budgets.len() && !(e.at + (#[trigger] v.budgets[b]).window_ms > now);
            assert(e.at + v.budgets[b].window_ms <= now);
        }
    }
    assert(keep_by_law =~= keep);
}

/// The longest window is that of some budget and none is longer; without budgets
/// there is none.
pub proof fn law_longest_window_is_the_longest(budgets: Seq<Budget>)
    ensures
        forall|b: int|
            0 <= b < budgets.len() ==> (#[trigger] budgets[b]).window_ms <= longest_window(budgets),
        budgets.len() > 0 ==> exists|b: int|
            0 <= b < budgets.len() && (#[trigger] budgets[b]).window_ms == longest_window(budgets),
        budgets.len() == 0 ==> longest_window(budgets) == 0,
    decreases budgets.len(),
{
    if budgets.len() > 0 {
        let rest = budgets.drop_last();
        law_longest_window_is_the_longest(rest);
        assert(budgets[budgets.len() - 1] == budgets.last());
        if rest.len() > 0 {
            let b = choose|b: int|
                0 <= b < rest.len() && (#[trigger] rest[b]).window_ms == longest_window(rest);
            assert(budgets[b] == rest[b]);
        }
        assert forall|b: int| 0 <= b < budgets.len() implies (#[trigger] budgets[b]).window_ms
            <= longest_window(budgets) by {
            if b < rest.len() {
                assert(budgets[b] == rest[b]);
            }
        }
    }
}

/// The limit of a key is the capacity of some budget and none is smaller; without
/// budgets it is 0.
pub proof fn law_limit_is_the_smallest_capacity(budgets: Seq<Budget>)
    ensures
        forall|b: int|
            0 <= b < budgets.len() ==> (#[trigger] budgets[b]).capacity >= smallest_capacity(
                budgets,
            ),
        budgets.len() > 0 ==> exists|b: int|
            0 <= b < budgets.len() && (#[trigger] budgets[b]).capacity == smallest_capacity(
                budgets,
            ),
        budgets.len() == 0 ==> smallest_capacity(budgets) == 0,
    decreases budgets.len(),
{
    if budgets.len() == 1 {
        assert(budgets[0].capacity == smallest_capacity(budgets));
    } else if budgets.len() > 1 {
        let rest = budgets.drop_last();
        law_limit_is_the_smallest_capacity(rest);
        assert(budgets[budgets.len() - 1] == budgets.last());
        let b = choose|b: int|
            0 <= b < rest.len() && (#[trigger] rest[b]).capacity == smallest_capacity(rest);
        assert(budgets[b] == rest[b]);
        assert forall|b: int| 0 <= b < budgets.len() implies (#[trigger] budgets[b]).capacity
            >= smallest_capacity(budgets) by {
            if b < rest.len() {
                assert(budgets[b] == rest[b]);
            }
        }
    }
}

/// Settling an open reservation takes it out and charges its key exactly the
/// tokens that were used, however they compare with the estimate, or the estimate
/// when the number is not known. Nothing else changes.
pub proof fn law_settlements_charge_what_was_used(
    v: LedgerView,
    i: int,
    actual: Option<u64>,
    now: nat,
)
    requires
        v.valid(),
        0 <= i < v.active.len(),
    ensures
        ({
            let entry = v.active[i];
            let w = v.reconciled(entry.id, actual, now);
            let amount: nat = match actual {
                Some(tokens) => tokens as nat,
                None => entry.estimate,
            };
            &&& v.is_open(entry.id)
            &&& v.active[active_index(v.active, entry.id)] == entry
            &&& v.charge(entry.id, actual) == amount
            &&& w == (LedgerView {
                active: v.active.remove(i),
                settled: v.settled.push(SettledView { key: entry.key, amount, at: now }),
                ..v
            })
            &&& forall|since: int|
                since <= now ==> #[trigger] settled_use(w.settled, entry.key, since)
                    == settled_use(v.settled, entry.key, since) + amount
        }),
{
    let entry = v.active[i];
    let w = v.reconciled(entry.id, actual, now);
    lemma_active_index(v.active, entry.id);
    let k = active_index(v.active, entry.id);
    assert(k == i) by {
        assert(v.active[i].id == entry.id);
        if k < i {
            assert(v.active[k].id != v.active[i].id);
        }
        if i < k {
            assert(v.active[i].id != v.active[k].id);
        }
    }
    assert(w.settled.drop_last() =~= v.settled);
}

/// Settling what is not open changes nothing.
pub proof fn law_unknown_settlements_change_nothing(
    v: LedgerView,
    id: u64,
    actual: Option<u64>,
    now: nat,
)
    requires
        forall|i: int| 0 <= i < v.active.len() ==> (#[trigger] v.active[i]).id != id,
    ensures
        !v.is_open(id),
        v.reconciled(id, actual, now) == v,
{
    lemma_active_index(v.active, id);
}

} // verus!
