//! The sharded store, and the requests and log replay served on it.
use vstd::prelude::*;
use vstd::rwlock::RwLock;

use crate::command::{parse, Command, CommandModel};
use crate::protocol::{
    apply, error_frame, error_reply, found_reply, lookup_frame, lookup_reply, ok_frame, ok_reply,
    opt_view, record_line, record_of, reply_to, Outcome,
};
use crate::shard::{select_shard, shard_of, Shard};
use crate::NUM_SHARDS;

verus! {

/// The store after replaying `lines`, in order, on `m`: each line is parsed
/// as a request, and only stores take effect.
pub open spec fn replay(m: Map<Seq<char>, Seq<char>>, lines: Seq<Seq<char>>) -> Map<
    Seq<char>,
    Seq<char>,
>
    decreases lines.len(),
{
    if lines.len() == 0 {
        m
    } else {
        apply(replay(m, lines.drop_last()), parse(lines.last()))
    }
}

/// The key space split over a fixed number of partitions, each key held by
/// the partition that `shard_of` picks for it.
pub struct ShardDB {
    shards: Vec<Shard>,
}

impl View for ShardDB {
    type V = Map<Seq<char>, Seq<char>>;

    closed spec fn view(&self) -> Map<Seq<char>, Seq<char>> {
        Map::new(
            |k: Seq<char>| self.shards@[shard_of(k)]@.contains_key(k),
            |k: Seq<char>| self.shards@[shard_of(k)]@[k],
        )
    }
}

impl ShardDB {
    /// What partition `i` holds.
    pub closed spec fn shard_view(&self, i: int) -> Map<Seq<char>, Seq<char>> {
        self.shards@[i]@
    }

    /// Number of partitions.
    pub closed spec fn num_shards(&self) -> nat {
        self.shards@.len()
    }

    pub closed spec fn wf(&self) -> bool {
        &&& self.shards.len() == NUM_SHARDS
        &&& forall|i: int| 0 <= i < NUM_SHARDS ==> (#[trigger] self.shards@[i]).wf()
        &&& forall|i: int, k: Seq<char>|
            0 <= i < NUM_SHARDS && #[trigger] self.shards@[i]@.contains_key(k) ==> shard_of(k)
                == i
    }

    /// An empty store.
    pub fn new() -> (r: ShardDB)
        ensures
            r.wf(),
            r.num_shards() == NUM_SHARDS,
            forall|i: int|
                0 <= i < NUM_SHARDS ==> #[trigger] r.shard_view(i) == Map::<
                    Seq<char>,
                    Seq<char>,
                >::empty(),
            r@ == Map::<Seq<char>, Seq<char>>::empty(),
    {
        let mut shards: Vec<Shard> = Vec::with_capacity(NUM_SHARDS);
        let mut i: usize = 0;
        while i < NUM_SHARDS
            invariant
                i <= NUM_SHARDS,
                shards.len() == i,
                forall|j: int|
                    0 <= j < i ==> (#[trigger] shards@[j]).wf() && shards@[j]@ == Map::<
                        Seq<char>,
                        Seq<char>,
                    >::empty(),
            decreases NUM_SHARDS - i,
        {
            shards.push(Shard::new());
            i = i + 1;
        }
        let r = ShardDB { shards };
        assert(r@ =~= Map::<Seq<char>, Seq<char>>::empty());
        r
    }

    /// The partition that holds `key`.
    pub fn get_shard(&self, key: &str) -> (r: &Shard)
        requires
            self.wf(),
        ensures
            r.wf(),
            r@ == self.shard_view(shard_of(key@)),
            forall|k: Seq<char>| #[trigger] r@.contains_key(k) ==> shard_of(k) == shard_of(key@),
            r@.contains_key(key@) == self@.contains_key(key@),
            r@.contains_key(key@) ==> r@[key@] == self@[key@],
    {
        let i = select_shard(key);
        &self.shards[i]
    }

    /// A copy of the value stored under `key`.
    pub fn get(&self, key: &String) -> (r: Option<String>)
        requires
            self.wf(),
        ensures
            r is None <==> !self@.contains_key(key@),
            r matches Some(v) ==> self@.contains_key(key@) && v@ == self@[key@],
    {
        self.get_shard(key.as_str()).get(key)
    }

    /// Stores `value` under `key`, replacing what was there.
    pub fn set(&mut self, key: String, value: String)
        requires
            old(self).wf(),
        ensures
            final(self).wf(),
            final(self)@ == old(self)@.insert(key@, value@),
    {
        let i = select_shard(key.as_str());
        let ghost k = key@;
        let ghost v = value@;
        self.shards[i].set(key, value);
        assert forall|j: int, k2: Seq<char>|
            0 <= j < NUM_SHARDS && #[trigger] self.shards@[j]@.contains_key(k2) implies shard_of(
            k2,
        ) == j by {
            if j != i && k2 != k {
                assert(old(self).shards@[j]@.contains_key(k2));
            }
        }
        assert(self@ =~= old(self)@.insert(k, v));
    }

    /// Serves one parsed request: applies it, and gives its reply and the log
    /// record it produces.
    pub fn execute(&mut self, cmd: Command) -> (r: Outcome)
        requires
            old(self).wf(),
        ensures
            final(self).wf(),
            final(self)@ == apply(old(self)@, cmd@),
            r.reply@ == reply_to(old(self)@, cmd@),
            opt_view(r.record) == record_of(cmd@),
    {
        match cmd {
            Command::SET { key, value } => {
                let record = record_line(key.as_str(), value.as_str());
                self.set(key, value);
                Outcome { reply: ok_frame(), record: Some(record) }
            },
            Command::GET { key } => {
                let found = self.get(&key);
                Outcome { reply: lookup_frame(&found), record: None }
            },
            Command::Invalid { message } => {
                Outcome { reply: error_frame(message.as_str()), record: None }
            },
        }
    }

    /// Serves one request line.
    pub fn handle(&mut self, input: &str) -> (r: Outcome)
        requires
            old(self).wf(),
        ensures
            final(self).wf(),
            final(self)@ == apply(old(self)@, parse(input@)),
            r.reply@ == reply_to(old(self)@, parse(input@)),
            opt_view(r.record) == record_of(parse(input@)),
    {
        self.execute(Command::from_input(input))
    }

    /// Replays log lines in order; lines that are not stores are skipped.
    pub fn load_lines(&mut self, lines: &Vec<String>)
        requires
            old(self).wf(),
        ensures
            final(self).wf(),
            final(self)@ == replay(old(self)@, lines@.map_values(|l: String| l@)),
    {
        let ghost ls = lines@.map_values(|l: String| l@);
        let mut i: usize = 0;
        while i < lines.len()
            invariant
                i <= lines.len(),
                self.wf(),
                ls == lines@.map_values(|l: String| l@),
                self@ == replay(old(self)@, ls.take(i as int)),
            decreases lines.len() - i,
        {
            assert(ls.take(i + 1).drop_last() =~= ls.take(i as int));
            let cmd = Command::from_input(lines[i].as_str());
            match cmd {
                Command::SET { key, value } => self.set(key, value),
                _ => {},
            }
            i = i + 1;
        }
        assert(ls.take(i as int) =~= ls);
    }

    /// Hands the partitions over to a store that can be shared between
    /// tasks.
    pub fn into_shared(self) -> (r: SharedDB)
        requires
            self.wf(),
        ensures
            r.wf(),
            r.held() == self@.dom(),
    {
        let ghost held = self@.dom();
        let ghost view = self@;
        let mut shards = self.shards;
        let mut locks: Vec<RwLock<Shard, spec_fn(Shard) -> bool>> = Vec::with_capacity(NUM_SHARDS);
        let ghost all = shards@;
        let mut i: usize = 0;
        while shards.len() > 0
            invariant
                i + shards.len() == NUM_SHARDS,
                all.len() == NUM_SHARDS,
                forall|j: int| 0 <= j < NUM_SHARDS ==> (#[trigger] all[j]).wf(),
                forall|j: int, k: Seq<char>|
                    0 <= j < NUM_SHARDS && #[trigger] all[j]@.contains_key(k) ==> shard_of(k) == j,
                shards@ == all.subrange(i as int, NUM_SHARDS as int),
                locks.len() == i,
                forall|k: Seq<char>| #[trigger] held.contains(k) ==> all[shard_of(k)]@.contains_key(k),
                forall|j: int| 0 <= j < i ==> (#[trigger] locks@[j]).pred() == keeps(j, held),
            decreases shards.len(),
        {
            let shard = shards.remove(0);
            assert(shard == all[i as int]);
            locks.push(RwLock::new(shard, Ghost(keeps(i as int, held))));
            assert(shards@ =~= all.subrange(i + 1, NUM_SHARDS as int));
            i = i + 1;
        }
        SharedDB { shards: locks, held: Ghost(held) }
    }
}

/// What partition `i` may hold: a well-formed shard whose keys all belong
/// to partition `i`.
pub open spec fn routed(i: int) -> spec_fn(Shard) -> bool {
    |s: Shard| s.wf() && forall|k: Seq<char>| #[trigger] s@.contains_key(k) ==> shard_of(k) == i
}

/// What partition `i` may hold once the keys of `held` are stored: a routed
/// shard that still holds each key of `held` that belongs to it. Stores never
/// remove a key, so this stays true under every store.
pub open spec fn keeps(i: int, held: Set<Seq<char>>) -> spec_fn(Shard) -> bool {
    |s: Shard|
        routed(i)(s) && forall|k: Seq<char>|
            #[trigger] held.contains(k) && shard_of(k) == i ==> s@.contains_key(k)
}

/// The store shared between concurrent tasks: each partition sits behind a
/// lock of its own, and a request takes only the lock of its key's partition.
/// What a lookup finds depends on the stores that other tasks make meanwhile;
/// what holds of it whatever they do is that every partition keeps only keys
/// that belong to it, and that every key the store was built with stays.
pub struct SharedDB {
    shards: Vec<RwLock<Shard, spec_fn(Shard) -> bool>>,
    held: Ghost<Set<Seq<char>>>,
}

impl SharedDB {
    /// The keys the store was built with; a lookup of any of them finds a
    /// value.
    pub closed spec fn held(&self) -> Set<Seq<char>> {
        self.held@
    }

    pub closed spec fn wf(&self) -> bool {
        &&& self.shards.len() == NUM_SHARDS
        &&& forall|i: int|
            0 <= i < NUM_SHARDS ==> (#[trigger] self.shards@[i]).pred() == keeps(i, self.held@)
    }

    /// An empty shared store.
    pub fn new() -> (r: SharedDB)
        ensures
            r.wf(),
            r.held() == Set::<Seq<char>>::empty(),
    {
        let db = ShardDB::new();
        assert(db@.dom() =~= Set::<Seq<char>>::empty());
        db.into_shared()
    }

    /// The lock of the partition that holds `key`.
    pub fn get_shard(&self, key: &str) -> (r: &RwLock<Shard, spec_fn(Shard) -> bool>)
        requires
            self.wf(),
        ensures
            r.pred() == keeps(shard_of(key@), self.held()),
    {
        let i = select_shard(key);
        &self.shards[i]
    }

    /// Stores `value` under `key`, holding the lock of its partition only.
    pub fn set(&self, key: String, value: String)
        requires
            self.wf(),
    {
        let lock = self.get_shard(key.as_str());
        let ghost i = shard_of(key@);
        let (mut shard, handle) = lock.acquire_write();
        shard.set(key, value);
        assert(keeps(i, self.held@)(shard));
        handle.release_write(shard);
    }

    /// A copy of the value stored under `key` when its partition was read.
    pub fn get(&self, key: &String) -> (r: Option<String>)
        requires
            self.wf(),
        ensures
            self.held().contains(key@) ==> r is Some,
    {
        let lock = self.get_shard(key.as_str());
        let handle = lock.acquire_read();
        let r = handle.borrow().get(key);
        handle.release_read();
        r
    }

    /// Serves one parsed request: stores and errors are answered as on a
    /// store of one's own; a lookup answers with what the partition held.
    pub fn execute(&self, cmd: Command) -> (r: Outcome)
        requires
            self.wf(),
        ensures
            cmd@ is Write ==> r.reply@ == ok_reply(),
            cmd@ matches CommandModel::Invalid { message } ==> r.reply@ == error_reply(message),
            cmd@ is Read ==> exists|f: Option<Seq<char>>| r.reply@ == lookup_reply(f),
            cmd@ matches CommandModel::Read { key } ==> (self.held().contains(key) ==> exists|
                v: Seq<char>,
            | r.reply@ == found_reply(v)),
            opt_view(r.record) == record_of(cmd@),
    {
        match cmd {
            Command::SET { key, value } => {
                let record = record_line(key.as_str(), value.as_str());
                self.set(key, value);
                Outcome { reply: ok_frame(), record: Some(record) }
            },
            Command::GET { key } => {
                let found = self.get(&key);
                Outcome { reply: lookup_frame(&found), record: None }
            },
            Command::Invalid { message } => {
                Outcome { reply: error_frame(message.as_str()), record: None }
            },
        }
    }

    /// Serves one request line.
    pub fn handle(&self, input: &str) -> (r: Outcome)
        requires
            self.wf(),
        ensures
            parse(input@) is Write ==> r.reply@ == ok_reply(),
            parse(input@) matches CommandModel::Invalid { message } ==> r.reply@ == error_reply(
                message,
            ),
            parse(input@) is Read ==> exists|f: Option<Seq<char>>| r.reply@ == lookup_reply(f),
            parse(input@) matches CommandModel::Read { key } ==> (self.held().contains(key)
                ==> exists|v: Seq<char>| r.reply@ == found_reply(v)),
            opt_view(r.record) == record_of(parse(input@)),
    {
        self.execute(Command::from_input(input))
    }
}

} // verus!
