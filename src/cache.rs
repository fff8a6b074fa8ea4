use vstd::prelude::*;
use vstd::hash_map::StringHashMap;
use vstd::string::StringExecFns;

use crate::user_data::{fresh_at, is_fresh, UserData};
use crate::time::UtcDateTime;

verus! {

/// The prefix of every cache key.
pub const KEY_PREFIX: &'static str = "user_";

/// The key under which the snapshot of `user` is stored: `user_` followed by
/// the identity.
pub fn cache_key(user: &str) -> (r: String)
    ensures
        r@ == KEY_PREFIX@ + user@,
{
    <String as StringExecFns>::from_str(KEY_PREFIX).concat(user)
}

/// The store of computed snapshots, keyed by cache key. An entry is only
/// ever replaced whole.
pub struct Cache {
    entries: StringHashMap<UserData>,
}

impl View for Cache {
    type V = Map<Seq<char>, UserData>;

    closed spec fn view(&self) -> Map<Seq<char>, UserData> {
        self.entries@
    }
}

impl Cache {
    /// Every stored snapshot carries a valid creation instant.
    pub open spec fn wf(&self) -> bool {
        forall|k: Seq<char>| #[trigger] self@.contains_key(k) ==> self@[k].created_at.wf()
    }

    /// An empty store.
    pub fn new() -> (r: Cache)
        ensures
            r@ == Map::<Seq<char>, UserData>::empty(),
            r.wf(),
    {
        Cache { entries: StringHashMap::new() }
    }

    /// The snapshot stored under `key`, if any.
    pub fn get(&self, key: &str) -> (r: Option<&UserData>)
        ensures
            match r {
                Some(d) => self@.contains_key(key@) && *d == self@[key@],
                None => !self@.contains_key(key@),
            },
    {
        self.entries.get(key)
    }

    /// Stores `user_data` under `key`, replacing whatever was there.
    pub fn set(&mut self, key: &str, user_data: UserData)
        requires
            old(self).wf(),
            user_data.created_at.wf(),
        ensures
            final(self)@ == old(self)@.insert(key@, user_data),
            final(self).wf(),
    {
        let ghost stored = user_data;
        self.entries.insert(<String as StringExecFns>::from_str(key), user_data);
        proof {
            assert forall|k: Seq<char>| #[trigger] self@.contains_key(k) implies self@[
                k
            ].created_at.wf() by {
                if k != key@ {
                    assert(old(self)@.contains_key(k));
                } else {
                    assert(self@[k] == stored);
                }
            }
        }
    }

    /// The snapshot stored under `key` if it is still fresh at `now`; an
    /// absent or stale entry gives `None`, after which the snapshot is to be
    /// computed again.
    pub fn get_fresh(&self, key: &str, now: UtcDateTime) -> (r: Option<&UserData>)
        requires
            self.wf(),
            now.wf(),
        ensures
            match r {
                Some(d) => self@.contains_key(key@) && *d == self@[key@] && fresh_at(
                    d.created_at,
                    now,
                ),
                None => !self@.contains_key(key@) || !fresh_at(self@[key@].created_at, now),
            },
    {
        match self.get(key) {
            Some(d) => {
                if is_fresh(d.created_at, now) {
                    Some(d)
                } else {
                    None
                }
            },
            None => None,
        }
    }
}

} // verus!
