//! The latest uses of each account.

use crate::validator::schedule::conflict::{follows_on, touches, writes};
use crate::transaction::Access;
use indexmap::IndexMap;
use rustc_hash::FxBuildHasher;
use vstd::prelude::*;

verus! {

/// Positions of account states, by account.
pub type AccountMap = IndexMap<[u8; 32], usize, FxBuildHasher>;

/// The position that `map` holds for each account in it.
pub uninterp spec fn account_slots(map: AccountMap) -> Map<[u8; 32], usize>;

/// No account has a position.
pub open spec fn no_slots() -> Map<[u8; 32], usize> {
    Map::empty()
}

/// `IndexMap::with_capacity_and_hasher`: a map that holds nothing. The capacity is bounded so that
/// the table it reserves has a size in range.
#[verifier::external_body]
pub(crate) fn account_map_with_capacity(n: usize) -> (map: AccountMap)
    requires
        n <= 0x1_0000,
    ensures
        account_slots(map) == no_slots(),
{
    IndexMap::with_capacity_and_hasher(n, FxBuildHasher)
}

/// `IndexMap::entry` followed by `Entry::or_insert`: the position held for `key`, which becomes
/// `fresh` where the map held none.
#[verifier::external_body]
pub(crate) fn account_map_or_insert(map: &mut AccountMap, key: [u8; 32], fresh: usize) -> (slot:
    usize)
    ensures
        account_slots(*old(map)).contains_key(key) ==> slot == account_slots(*old(map))[key]
            && account_slots(*final(map)) == account_slots(*old(map)),
        !account_slots(*old(map)).contains_key(key) ==> slot == fresh && account_slots(*final(map))
            == account_slots(*old(map)).insert(key, fresh),
{
    *map.entry(key).or_insert(fresh)
}

/// `IndexMap::clear`: the map holds nothing any more.
#[verifier::external_body]
pub(crate) fn account_map_clear(map: &mut AccountMap)
    ensures
        account_slots(*final(map)) == no_slots(),
{
    map.clear()
}

/// The latest uses of one account.
pub struct AccountState {
    /// Latest task to write this account.
    pub last_writer: Option<usize>,
    /// Tasks that have read this account since `last_writer`.
    pub readers_since: Vec<usize>,
}

impl AccountState {
    /// An account that no task has used.
    pub fn default() -> (result: Self)
        ensures
            result.last_writer is None,
            result.readers_since@.len() == 0,
    {
        AccountState { last_writer: None, readers_since: Vec::new() }
    }

    /// The state tells the last writer of `key` in `history`, and who used it since.
    pub open spec fn tells(&self, history: Seq<Seq<Access>>, key: [u8; 32]) -> bool {
        &&& match self.last_writer {
            None => forall|t: int| 0 <= t < history.len() ==> !#[trigger] writes(history, t, key),
            Some(w) => {
                &&& w < history.len()
                &&& writes(history, w as int, key)
                &&& forall|t: int| w < t < history.len() ==> !#[trigger] writes(history, t, key)
            },
        }
        &&& forall|i: int|
            0 <= i < self.readers_since@.len() ==> {
                let r = #[trigger] self.readers_since@[i];
                &&& r < history.len()
                &&& touches(history, r as int, key)
                &&& self.last_writer matches Some(w) ==> w < r
            }
        &&& forall|t: int|
            0 <= t < history.len() && #[trigger] touches(history, t, key) && (
            self.last_writer matches Some(w) ==> w < t) ==> self.readers_since@.contains(t as usize)
    }
}

/// The latest uses of every account.
pub struct Accounts {
    slots: AccountMap,
    states: Vec<AccountState>,
}

impl Accounts {
    /// The states tell the latest uses in `history` of every account.
    pub closed spec fn tells(&self, history: Seq<Seq<Access>>) -> bool {
        let slots = account_slots(self.slots);
        &&& forall|key: [u8; 32]| #[trigger]
            slots.contains_key(key) ==> slots[key] < self.states@.len() && self.states@[slots[key] as int].tells(
                history,
                key,
            )
        &&& forall|key: [u8; 32], t: int|
            !slots.contains_key(key) && 0 <= t < history.len() ==> !#[trigger] touches(
                history,
                t,
                key,
            )
        &&& forall|a: [u8; 32], b: [u8; 32]| #[trigger]
            slots.contains_key(a) && #[trigger] slots.contains_key(b) && slots[a] == slots[b]
                ==> a == b
    }

    /// No account has been used.
    pub fn new() -> (result: Self)
        ensures
            result.tells(Seq::empty()),
    {
        Accounts { slots: account_map_with_capacity(4096), states: Vec::new() }
    }

    /// Forgets every use.
    pub fn clear(&mut self)
        ensures
            final(self).tells(Seq::empty()),
    {
        account_map_clear(&mut self.slots);
        self.states.clear();
    }
}

/// The history in which the last task also makes `access`.
pub open spec fn with_access(history: Seq<Seq<Access>>, access: Access) -> Seq<Seq<Access>> {
    history.update(history.len() - 1, history.last().push(access))
}

/// What one more access of the last task changes about who uses an account.
pub(crate) proof fn lemma_with_access(history: Seq<Seq<Access>>, access: Access)
    requires
        history.len() > 0,
    ensures
        forall|t: int, key: [u8; 32]|
            0 <= t < history.len() ==> #[trigger] touches(with_access(history, access), t, key) == (
            touches(history, t, key) || (t == history.len() - 1 && key == access.key)),
        forall|t: int, key: [u8; 32]|
            0 <= t < history.len() ==> #[trigger] writes(with_access(history, access), t, key) == (
            writes(history, t, key) || (t == history.len() - 1 && key == access.key
                && access.write)),
{
    let longer = with_access(history, access);
    let last = history.len() - 1;
    let n = history.last().len();
    assert forall|t: int, key: [u8; 32]| 0 <= t < history.len() implies #[trigger] touches(
        longer,
        t,
        key,
    ) == (touches(history, t, key) || (t == last && key == access.key)) by {
        if t == last {
            assert(longer[t][n as int] == access);
            if touches(history, t, key) {
                let a = choose|a: int|
                    0 <= a < history[t].len() && (#[trigger] history[t][a]).key == key;
                assert(longer[t][a] == history[t][a]);
            }
            if touches(longer, t, key) {
                let a = choose|a: int|
                    0 <= a < longer[t].len() && (#[trigger] longer[t][a]).key == key;
                if a < n {
                    assert(longer[t][a] == history[t][a]);
                }
            }
        } else {
            assert(longer[t] == history[t]);
        }
    }
    assert forall|t: int, key: [u8; 32]| 0 <= t < history.len() implies #[trigger] writes(
        longer,
        t,
        key,
    ) == (writes(history, t, key) || (t == last && key == access.key && access.write)) by {
        if t == last {
            assert(longer[t][n as int] == access);
            if writes(history, t, key) {
                let a = choose|a: int|
                    0 <= a < history[t].len() && (#[trigger] history[t][a]).key == key
                        && history[t][a].write;
                assert(longer[t][a] == history[t][a]);
            }
            if writes(longer, t, key) {
                let a = choose|a: int|
                    0 <= a < longer[t].len() && (#[trigger] longer[t][a]).key == key
                        && longer[t][a].write;
                if a < n {
                    assert(longer[t][a] == history[t][a]);
                }
            }
        } else {
            assert(longer[t] == history[t]);
        }
    }
}

/// An access to one account leaves what a state tells of another.
proof fn lemma_other_account(
    history: Seq<Seq<Access>>,
    access: Access,
    state: AccountState,
    key: [u8; 32],
)
    requires
        history.len() > 0,
        key != access.key,
        state.tells(history, key),
    ensures
        state.tells(with_access(history, access), key),
{
    lemma_with_access(history, access);
}

/// The state after a write tells the longer history; what the state before told are the tasks
/// that the writer follows.
proof fn lemma_write(
    history: Seq<Seq<Access>>,
    access: Access,
    before: AccountState,
    after: AccountState,
)
    requires
        0 < history.len() <= usize::MAX + 1,
        access.write,
        !touches(history, history.len() - 1, access.key),
        before.tells(history, access.key),
        after.last_writer == Some((history.len() - 1) as usize),
        after.readers_since@.len() == 0,
    ensures
        after.tells(with_access(history, access), access.key),
        forall|p: usize|
            (before.readers_since@.contains(p) || before.last_writer == Some(p))
                <==> #[trigger] follows_on(
                with_access(history, access),
                p as int,
                history.len() - 1,
                access.key,
            ),
{
    lemma_with_access(history, access);
    let longer = with_access(history, access);
    let idx = history.len() - 1;
    let key = access.key;
    assert forall|p: usize| (before.readers_since@.contains(p) || before.last_writer == Some(p))
        <==> #[trigger] follows_on(longer, p as int, idx, key) by {
        if before.readers_since@.contains(p) {
            let i = choose|i: int|
                0 <= i < before.readers_since@.len() && before.readers_since@[i] == p;
            let r = before.readers_since@[i];
            assert(touches(history, p as int, key));
            assert(p < idx);
            assert forall|q: int| p < q < idx implies !#[trigger] writes(longer, q, key) by {
                assert(!writes(history, q, key));
            }
            assert(follows_on(longer, p as int, idx, key));
        }
        if before.last_writer == Some(p) {
            assert(touches(history, p as int, key));
            assert forall|q: int| p < q < idx implies !#[trigger] writes(longer, q, key) by {
                assert(!writes(history, q, key));
            }
            assert(follows_on(longer, p as int, idx, key));
        }
        if follows_on(longer, p as int, idx, key) {
            assert(touches(history, p as int, key));
            if let Some(w) = before.last_writer {
                if p < w {
                    assert(writes(longer, w as int, key));
                }
            }
        }
    }
}

/// The state after a read tells the longer history; the last writer is the one task that the
/// reader follows.
proof fn lemma_read(
    history: Seq<Seq<Access>>,
    access: Access,
    before: AccountState,
    after: AccountState,
)
    requires
        0 < history.len() <= usize::MAX + 1,
        !access.write,
        !writes(history, history.len() - 1, access.key),
        before.tells(history, access.key),
        after.last_writer == before.last_writer,
        after.readers_since@ == before.readers_since@.push((history.len() - 1) as usize),
    ensures
        after.tells(with_access(history, access), access.key),
        forall|p: usize|
            before.last_writer == Some(p) <==> #[trigger] follows_on(
                with_access(history, access),
                p as int,
                history.len() - 1,
                access.key,
            ),
{
    lemma_with_access(history, access);
    let longer = with_access(history, access);
    let idx = history.len() - 1;
    let key = access.key;
    assert forall|t: int|
        0 <= t < longer.len() && #[trigger] touches(longer, t, key) && (
        after.last_writer matches Some(w) ==> w < t) implies after.readers_since@.contains(
        t as usize,
    ) by {
        if t == idx {
            assert(after.readers_since@[before.readers_since@.len() as int] == idx);
        } else {
            assert(touches(history, t, key));
            let i = choose|i: int|
                0 <= i < before.readers_since@.len() && before.readers_since@[i] == t as usize;
            assert(after.readers_since@[i] == t as usize);
        }
    }
    assert(touches(longer, idx, key));
    assert forall|i: int| 0 <= i < after.readers_since@.len() implies {
        let r = #[trigger] after.readers_since@[i];
        &&& r < longer.len()
        &&& touches(longer, r as int, key)
        &&& after.last_writer matches Some(w) ==> w < r
    } by {
        if i < before.readers_since@.len() {
            assert(after.readers_since@[i] == before.readers_since@[i]);
        }
    }
    assert forall|p: usize| before.last_writer == Some(p) <==> #[trigger] follows_on(
        longer,
        p as int,
        idx,
        key,
    ) by {
        if before.last_writer == Some(p) {
            assert(touches(history, p as int, key));
            assert forall|q: int| p < q < idx implies !#[trigger] writes(longer, q, key) by {
                assert(!writes(history, q, key));
            }
            assert(follows_on(longer, p as int, idx, key));
        }
        if follows_on(longer, p as int, idx, key) {
            assert(writes(history, p as int, key));
            if let Some(w) = before.last_writer {
                if p < w {
                    assert(writes(longer, w as int, key));
                }
            }
        }
    }
}

/// A task that has made no access yet changes nothing about who uses an account.
proof fn lemma_idle_task(history: Seq<Seq<Access>>)
    ensures
        forall|t: int, key: [u8; 32]|
            0 <= t < history.len() ==> #[trigger] touches(history.push(Seq::empty()), t, key)
                == touches(history, t, key),
        forall|t: int, key: [u8; 32]|
            0 <= t < history.len() ==> #[trigger] writes(history.push(Seq::empty()), t, key)
                == writes(history, t, key),
        forall|key: [u8; 32]|
            !#[trigger] touches(history.push(Seq::empty()), history.len() as int, key),
        forall|key: [u8; 32]|
            !#[trigger] writes(history.push(Seq::empty()), history.len() as int, key),
{
    let longer = history.push(Seq::empty());
    assert forall|t: int, key: [u8; 32]| 0 <= t < history.len() implies #[trigger] touches(
        longer,
        t,
        key,
    ) == touches(history, t, key) by {
        assert(longer[t] == history[t]);
    }
    assert forall|t: int, key: [u8; 32]| 0 <= t < history.len() implies #[trigger] writes(
        longer,
        t,
        key,
    ) == writes(history, t, key) by {
        assert(longer[t] == history[t]);
    }
}

impl Accounts {
    /// What the states tell stays true when a task without accesses is added.
    pub(crate) proof fn lemma_tells_idle(&self, history: Seq<Seq<Access>>)
        requires
            self.tells(history),
        ensures
            self.tells(history.push(Seq::empty())),
    {
        lemma_idle_task(history);
        let longer = history.push(Seq::empty());
        let slots = account_slots(self.slots);
        assert forall|key: [u8; 32]| #[trigger] slots.contains_key(key) implies self.states@[slots[key] as int].tells(
            longer,
            key,
        ) by {
            let state = self.states@[slots[key] as int];
            assert(state.tells(history, key));
        }
    }
}

impl Accounts {
    /// Records that task `idx` makes `access`, and returns the tasks that it follows on that
    /// account: the readers since the last writer, and the last writer.
    pub(crate) fn touch(
        &mut self,
        idx: usize,
        access: Access,
        Ghost(history): Ghost<Seq<Seq<Access>>>,
    ) -> (result: (Vec<usize>, Option<usize>))
        requires
            old(self).tells(history),
            history.len() == idx + 1,
            access.write ==> !touches(history, idx as int, access.key),
            !writes(history, idx as int, access.key),
        ensures
            final(self).tells(with_access(history, access)),
            forall|p: usize|
                (result.0@.contains(p) || result.1 == Some(p)) <==> #[trigger] follows_on(
                    with_access(history, access),
                    p as int,
                    idx as int,
                    access.key,
                ),
    {
        let ghost longer = with_access(history, access);
        proof {
            lemma_with_access(history, access);
        }
        let fresh: usize = self.states.len();
        let slot: usize = account_map_or_insert(&mut self.slots, access.key, fresh);
        if slot == fresh {
            self.states.push(AccountState::default());
        }
        let ghost states = self.states@;
        let ghost before = states[slot as int];
        proof {
            if slot == fresh {
                assert forall|t: int| 0 <= t < history.len() implies !#[trigger] writes(
                    history,
                    t,
                    access.key,
                ) by {
                    assert(!touches(history, t, access.key));
                }
            }
        }
        assert(before.tells(history, access.key));
        let last_writer = self.states[slot].last_writer;
        let mut readers: Vec<usize> = Vec::new();
        if access.write {
            std::mem::swap(&mut readers, &mut self.states[slot].readers_since);
            self.states[slot].last_writer = Some(idx);
            proof {
                lemma_write(history, access, before, self.states@[slot as int]);
            }
        } else {
            self.states[slot].readers_since.push(idx);
            proof {
                lemma_read(history, access, before, self.states@[slot as int]);
            }
        }
        proof {
            let slots = account_slots(self.slots);
            assert forall|key: [u8; 32]| #[trigger] slots.contains_key(key) implies slots[key]
                < self.states@.len() && self.states@[slots[key] as int].tells(longer, key) by {
                if key != access.key {
                    assert(slots.contains_key(access.key));
                    assert(self.states@[slots[key] as int] == states[slots[key] as int]);
                    lemma_other_account(history, access, states[slots[key] as int], key);
                }
            }
        }
        (readers, last_writer)
    }
}

} // verus!
