//! The shared state of a server: the key-space of strings, the streams and
//! the registry of replicas, each as plain data with its invariant.

use vstd::prelude::*;
use crate::config::Config;
use crate::constants::SLAVE_LIFETIME_LIMIT;
use crate::data_entry::{canonical, key_value_as_rdb, DataEntry, EntryModel, ValueModel, ValueType};
use crate::resp::{copy_bytes, push_bytes, views, RespType, RespValue};
use crate::slave_meta::{advance, advanced, PeerAddr, SlaveMeta, SlaveModel, UpdateState};
use crate::stream_entry::{
    appended, fields_view, id_text, spec_xadd, RecordModel, StreamEntry, StreamError, StreamID,
    StreamModel,
};
use crate::utils::bytes_eq;

verus! {

/// One key of the key-space with the entry stored under it.
#[derive(Debug)]
pub struct KeyValue {
    pub key: ValueType,
    pub entry: DataEntry,
}

impl View for KeyValue {
    type V = (ValueModel, EntryModel);

    open spec fn view(&self) -> (ValueModel, EntryModel) {
        (self.key@, self.entry@)
    }
}

/// The key-space of string entries: an ordered map from key to entry, in
/// the order in which the keys were first written.
#[derive(Debug)]
pub struct RedisDB {
    pub entries: Vec<KeyValue>,
}

/// The mathematical model of the key-space: its keys and entries in order.
pub type DbModel = Seq<(ValueModel, EntryModel)>;

impl View for RedisDB {
    type V = DbModel;

    open spec fn view(&self) -> DbModel {
        Seq::new(self.entries@.len(), |i: int| self.entries@[i]@)
    }
}

/// Every key and value is well formed and no key occurs twice.
pub open spec fn db_wf(db: DbModel) -> bool {
    &&& forall|i: int| 0 <= i < db.len() ==> (#[trigger] db[i]).0.wf() && db[i].1.value.wf()
    &&& forall|i: int, j: int|
        0 <= i < db.len() && 0 <= j < db.len() && i != j ==> (#[trigger] db[i]).0 != (
        #[trigger] db[j]).0
}

/// `key` is stored at index `i`.
pub open spec fn key_at(db: DbModel, key: ValueModel, i: int) -> bool {
    0 <= i < db.len() && db[i].0 == key
}

/// Where `key` is stored, if it is.
pub open spec fn index_of(db: DbModel, key: ValueModel) -> Option<int> {
    if exists|i: int| key_at(db, key, i) {
        Some(choose|i: int| key_at(db, key, i))
    } else {
        None
    }
}

/// The key-space after `entry` is written under `key`: in place where the
/// key is stored already, at the end where it is new.
pub open spec fn db_insert(db: DbModel, key: ValueModel, entry: EntryModel) -> DbModel {
    match index_of(db, key) {
        Some(i) => db.update(i, (key, entry)),
        None => db.push((key, entry)),
    }
}

/// The records of all entries, in order, as a snapshot stores them.
pub open spec fn db_records(db: DbModel) -> Seq<u8>
    decreases db.len(),
{
    if db.len() == 0 {
        Seq::<u8>::empty()
    } else {
        db[0].1.record(db[0].0) + db_records(db.drop_first())
    }
}

/// One more entry at the end appends its record.
pub proof fn lemma_db_records_push(db: DbModel, pair: (ValueModel, EntryModel))
    ensures
        db_records(db.push(pair)) == db_records(db) + pair.1.record(pair.0),
    decreases db.len(),
{
    if db.len() == 0 {
        assert(db.push(pair).drop_first() =~= Seq::<(ValueModel, EntryModel)>::empty());
        assert(db_records(Seq::<(ValueModel, EntryModel)>::empty()) =~= Seq::<u8>::empty());
        assert(db_records(db) =~= Seq::<u8>::empty());
        assert(db.push(pair)[0] == pair);
        assert(db_records(db.push(pair)) =~= db_records(db) + pair.1.record(pair.0));
    } else {
        assert(db.push(pair).drop_first() =~= db.drop_first().push(pair));
        lemma_db_records_push(db.drop_first(), pair);
        assert(db_records(db.push(pair)) =~= db_records(db) + pair.1.record(pair.0));
    }
}

/// In a well-formed key-space the index of a stored key is the one place where it stands.
pub proof fn lemma_index_of(db: DbModel, key: ValueModel, i: int)
    requires
        db_wf(db),
        key_at(db, key, i),
    ensures
        index_of(db, key) == Some(i),
{
    let c = choose|k: int| key_at(db, key, k);
    if c != i {
        assert(db[c].0 != db[i].0);
    }
}

/// Writing under a key keeps the key-space well formed.
pub proof fn lemma_insert_wf(db: DbModel, key: ValueModel, entry: EntryModel)
    requires
        db_wf(db),
        key.wf(),
        entry.value.wf(),
    ensures
        db_wf(db_insert(db, key, entry)),
{
    let after = db_insert(db, key, entry);
    match index_of(db, key) {
        Some(i) => {
            assert(key_at(db, key, i));
            assert forall|a: int, b: int|
                0 <= a < after.len() && 0 <= b < after.len() && a != b implies (
            #[trigger] after[a]).0 != (#[trigger] after[b]).0 by {
                assert(after[a].0 == db[a].0);
                assert(after[b].0 == db[b].0);
            }
        },
        None => {
            assert forall|a: int, b: int|
                0 <= a < after.len() && 0 <= b < after.len() && a != b implies (
            #[trigger] after[a]).0 != (#[trigger] after[b]).0 by {
                if a == db.len() {
                    assert(!key_at(db, key, b));
                } else if b == db.len() {
                    assert(!key_at(db, key, a));
                }
            }
        },
    }
}

/// Taking an entry out keeps the key-space well formed.
pub proof fn lemma_remove_wf(db: DbModel, i: int)
    requires
        db_wf(db),
        0 <= i < db.len(),
    ensures
        db_wf(db.remove(i)),
{
    let after = db.remove(i);
    assert forall|a: int| 0 <= a < after.len() implies (#[trigger] after[a]).0.wf()
        && after[a].1.value.wf() by {
        if a < i {
            assert(after[a] == db[a]);
        } else {
            assert(after[a] == db[a + 1]);
        }
    }
    assert forall|a: int, b: int|
        0 <= a < after.len() && 0 <= b < after.len() && a != b implies (#[trigger] after[a]).0
        != (#[trigger] after[b]).0 by {
        let a0 = if a < i { a } else { a + 1 };
        let b0 = if b < i { b } else { b + 1 };
        assert(after[a] == db[a0]);
        assert(after[b] == db[b0]);
    }
}

impl RedisDB {
    /// An empty key-space.
    pub fn new() -> (r: Self)
        ensures
            r@ == Seq::<(ValueModel, EntryModel)>::empty(),
            db_wf(r@),
    {
        let r = RedisDB { entries: Vec::new() };
        assert(r@ =~= Seq::<(ValueModel, EntryModel)>::empty());
        r
    }

    /// The number of keys.
    pub fn len(&self) -> (n: usize)
        ensures
            n == self@.len(),
    {
        self.entries.len()
    }

    /// Where `key` is stored, if it is.
    pub fn find(&self, key: &ValueType) -> (r: Option<usize>)
        requires
            db_wf(self@),
        ensures
            r matches Some(idx) ==> index_of(self@, key@) == Some(idx as int) && idx < self@.len(),
            r is None ==> index_of(self@, key@) is None,
    {
        let n: usize = self.entries.len();
        let mut i: usize = 0;
        while i < n
            invariant
                n == self.entries@.len(),
                0 <= i <= n,
                db_wf(self@),
                forall|j: int| 0 <= j < i ==> !key_at(self@, key@, j),
            decreases n - i,
        {
            if self.entries[i].key.same(key) {
                proof {
                    assert(key_at(self@, key@, i as int));
                    lemma_index_of(self@, key@, i as int);
                }
                return Some(i);
            }
            i = i + 1;
        }
        proof {
            assert forall|j: int| !key_at(self@, key@, j) by {}
        }
        None
    }

    /// Writes `entry` under `key`: over the entry that the key has, or as a
    /// new last entry.
    pub fn insert(&mut self, key: ValueType, entry: DataEntry)
        requires
            db_wf(old(self)@),
            key@.wf(),
            entry@.value.wf(),
        ensures
            final(self)@ == db_insert(old(self)@, key@, entry@),
            db_wf(final(self)@),
    {
        let ghost pair = (key@, entry@);
        proof {
            lemma_insert_wf(self@, key@, entry@);
        }
        match self.find(&key) {
            Some(i) => {
                self.entries.set(i, KeyValue { key, entry });
                assert(self@ =~= old(self)@.update(i as int, pair));
            },
            None => {
                self.entries.push(KeyValue { key, entry });
                assert(self@ =~= old(self)@.push(pair));
            },
        }
        assert(self@ == db_insert(old(self)@, pair.0, pair.1));
    }

    /// Takes the entry at index `i` out; the others keep their order.
    pub fn remove_at(&mut self, i: usize)
        requires
            db_wf(old(self)@),
            i < old(self)@.len(),
        ensures
            final(self)@ == old(self)@.remove(i as int),
            db_wf(final(self)@),
    {
        proof {
            lemma_remove_wf(self@, i as int);
        }
        self.entries.remove(i);
        assert(self@ =~= old(self)@.remove(i as int));
    }
}

/// The lengths of every key and value fit the snapshot format.
pub open spec fn db_encodable(db: DbModel) -> bool {
    forall|i: int|
        0 <= i < db.len() ==> (#[trigger] db[i]).0.encodable() && db[i].1.value.encodable()
}

/// The lengths of a well-formed key-space fit the snapshot format.
pub proof fn lemma_db_encodable(db: DbModel)
    requires
        db_wf(db),
    ensures
        db_encodable(db),
{
    assert forall|i: int| 0 <= i < db.len() implies (#[trigger] db[i]).0.encodable()
        && db[i].1.value.encodable() by {
        crate::data_entry::lemma_wf_encodable(db[i].0);
        crate::data_entry::lemma_wf_encodable(db[i].1.value);
    }
}

/// Writes every entry of the key-space as a snapshot record, in order.
pub fn db_as_rdb(dict: &RedisDB) -> (out: Vec<u8>)
    requires
        db_encodable(dict@),
    ensures
        out@ == db_records(dict@),
{
    let mut out: Vec<u8> = Vec::new();
    let n: usize = dict.entries.len();
    let mut i: usize = 0;
    assert(dict@.take(0) =~= Seq::<(ValueModel, EntryModel)>::empty());
    while i < n
        invariant
            n == dict.entries@.len(),
            0 <= i <= n,
            db_encodable(dict@),
            out@ == db_records(dict@.take(i as int)),
        decreases n - i,
    {
        assert(dict@[i as int] == dict.entries@[i as int]@);
        let record: Vec<u8> = key_value_as_rdb(&dict.entries[i].key, &dict.entries[i].entry);
        push_bytes(&mut out, record.as_slice());
        proof {
            lemma_db_records_push(dict@.take(i as int), dict@[i as int]);
            assert(dict@.take(i + 1) =~= dict@.take(i as int).push(dict@[i as int]));
        }
        i = i + 1;
    }
    assert(dict@.take(n as int) =~= dict@);
    out
}

/// The registry of replicas, in the order in which they registered.
#[derive(Debug)]
pub struct Slaves {
    pub list: Vec<SlaveMeta>,
}

/// The mathematical model of the registry.
pub type SlavesModel = Seq<SlaveModel>;

impl View for Slaves {
    type V = SlavesModel;

    open spec fn view(&self) -> SlavesModel {
        Seq::new(self.list@.len(), |i: int| self.list@[i]@)
    }
}

/// No peer is registered twice.
pub open spec fn slaves_wf(s: SlavesModel) -> bool {
    forall|i: int, j: int|
        0 <= i < s.len() && 0 <= j < s.len() && i != j ==> (#[trigger] s[i]).socket_addr != (
        #[trigger] s[j]).socket_addr
}

/// The replica at `addr` stands at index `i`.
pub open spec fn slave_at(s: SlavesModel, addr: PeerAddr, i: int) -> bool {
    0 <= i < s.len() && s[i].socket_addr == addr
}

/// Where the replica at `addr` stands, if it is registered.
pub open spec fn slave_index(s: SlavesModel, addr: PeerAddr) -> Option<int> {
    if exists|i: int| slave_at(s, addr, i) {
        Some(choose|i: int| slave_at(s, addr, i))
    } else {
        None
    }
}

/// The registry after `bytes` are staged for every replica.
pub open spec fn staged_all(s: SlavesModel, bytes: Seq<u8>) -> SlavesModel {
    Seq::new(s.len(), |i: int| s[i].staged(bytes))
}

/// The registry after the replica at `addr` has registered: as it was where
/// the replica is known, else with a fresh record at the end.
pub open spec fn registered(s: SlavesModel, addr: PeerAddr) -> SlavesModel {
    match slave_index(s, addr) {
        Some(_) => s,
        None => s.push(
            SlaveModel {
                expected_offset: 0,
                actual_offset: 0,
                lifetime_limit: 0,
                socket_addr: addr,
                pending_updates: Seq::<u8>::empty(),
            },
        ),
    }
}

/// The registry after one flush result is accounted for. A success moves
/// both offsets on and empties the buffer. A failure counts one more strike,
/// and the replica is dropped once its strikes reach `limit`. A result
/// for a peer that is not registered changes nothing.
pub open spec fn applied(s: SlavesModel, result: UpdateState, limit: usize) -> SlavesModel {
    match result {
        UpdateState::Success(addr, sent, written) => match slave_index(s, addr) {
            Some(i) => s.update(i, s[i].flushed(sent, written)),
            None => s,
        },
        UpdateState::Failed(addr, sent) => match slave_index(s, addr) {
            Some(i) => if s[i].struck(sent).lifetime_limit >= limit {
                s.remove(i)
            } else {
                s.update(i, s[i].struck(sent))
            },
            None => s,
        },
    }
}

/// The registry after a run of flush results is accounted for, in order.
pub open spec fn applied_all(s: SlavesModel, results: Seq<UpdateState>, limit: usize) -> SlavesModel
    decreases results.len(),
{
    if results.len() == 0 {
        s
    } else {
        applied(applied_all(s, results.drop_last(), limit), results.last(), limit)
    }
}

/// How many of the results are successes for a replica that is registered
/// when its result is accounted for.
pub open spec fn updates_done(s: SlavesModel, results: Seq<UpdateState>, limit: usize) -> nat
    decreases results.len(),
{
    if results.len() == 0 {
        0
    } else {
        let before = applied_all(s, results.drop_last(), limit);
        let counted: nat = match results.last() {
            UpdateState::Success(addr, _, _) => if slave_index(before, addr) is Some {
                1
            } else {
                0
            },
            UpdateState::Failed(_, _) => 0,
        };
        updates_done(s, results.drop_last(), limit) + counted
    }
}

/// In a registry without doubles the index of a peer is the one place where it stands.
pub proof fn lemma_slave_index(s: SlavesModel, addr: PeerAddr, i: int)
    requires
        slaves_wf(s),
        slave_at(s, addr, i),
    ensures
        slave_index(s, addr) == Some(i),
{
    let c = choose|k: int| slave_at(s, addr, k);
    if c != i {
        assert(s[c].socket_addr != s[i].socket_addr);
    }
}

/// Accounting for a flush result keeps the registry without doubles.
pub proof fn lemma_applied_wf(s: SlavesModel, result: UpdateState, limit: usize)
    requires
        slaves_wf(s),
    ensures
        slaves_wf(applied(s, result, limit)),
{
    let after = applied(s, result, limit);
    let addr = match result {
        UpdateState::Success(addr, _, _) => addr,
        UpdateState::Failed(addr, _) => addr,
    };
    match slave_index(s, addr) {
        Some(i) => {
            assert(slave_at(s, addr, i));
            if after.len() == s.len() {
                assert forall|a: int, b: int|
                    0 <= a < after.len() && 0 <= b < after.len() && a != b implies (
                #[trigger] after[a]).socket_addr != (#[trigger] after[b]).socket_addr by {
                    assert(after[a].socket_addr == s[a].socket_addr);
                    assert(after[b].socket_addr == s[b].socket_addr);
                }
            } else {
                assert(after == s.remove(i));
                assert forall|a: int, b: int|
                    0 <= a < after.len() && 0 <= b < after.len() && a != b implies (
                #[trigger] after[a]).socket_addr != (#[trigger] after[b]).socket_addr by {
                    let a0 = if a < i { a } else { a + 1 };
                    let b0 = if b < i { b } else { b + 1 };
                    assert(after[a] == s[a0]);
                    assert(after[b] == s[b0]);
                }
            }
        },
        None => {},
    }
}

impl Slaves {
    /// An empty registry.
    pub fn new() -> (r: Self)
        ensures
            r@ == Seq::<SlaveModel>::empty(),
            slaves_wf(r@),
    {
        let r = Slaves { list: Vec::new() };
        assert(r@ =~= Seq::<SlaveModel>::empty());
        r
    }

    /// The number of registered replicas.
    pub fn len(&self) -> (n: usize)
        ensures
            n == self@.len(),
    {
        self.list.len()
    }

    /// Where the replica at `addr` stands, if it is registered.
    pub fn find(&self, addr: PeerAddr) -> (r: Option<usize>)
        requires
            slaves_wf(self@),
        ensures
            r matches Some(idx) ==> slave_index(self@, addr) == Some(idx as int) && idx < self@.len(),
            r is None ==> slave_index(self@, addr) is None,
    {
        let n: usize = self.list.len();
        let mut i: usize = 0;
        while i < n
            invariant
                n == self.list@.len(),
                0 <= i <= n,
                slaves_wf(self@),
                forall|j: int| 0 <= j < i ==> !slave_at(self@, addr, j),
            decreases n - i,
        {
            assert(self@[i as int] == self.list@[i as int]@);
            if self.list[i].socket_addr.host == addr.host && self.list[i].socket_addr.port
                == addr.port {
                proof {
                    assert(slave_at(self@, addr, i as int));
                    lemma_slave_index(self@, addr, i as int);
                }
                return Some(i);
            }
            i = i + 1;
        }
        proof {
            assert forall|j: int| !slave_at(self@, addr, j) by {}
        }
        None
    }

    /// Registers the replica at `addr` unless it is registered already.
    pub fn get_or_insert(&mut self, addr: PeerAddr)
        requires
            slaves_wf(old(self)@),
        ensures
            final(self)@ == registered(old(self)@, addr),
            slaves_wf(final(self)@),
    {
        match self.find(addr) {
            Some(_) => {},
            None => {
                self.list.push(SlaveMeta::new(addr));
                proof {
                    let after = self@;
                    assert(after =~= registered(old(self)@, addr));
                    assert forall|a: int, b: int|
                        0 <= a < after.len() && 0 <= b < after.len() && a != b implies (
                    #[trigger] after[a]).socket_addr != (#[trigger] after[b]).socket_addr by {
                        if a == old(self)@.len() {
                            assert(!slave_at(old(self)@, addr, b));
                            assert(after[b] == old(self)@[b]);
                        } else if b == old(self)@.len() {
                            assert(!slave_at(old(self)@, addr, a));
                            assert(after[a] == old(self)@[a]);
                        } else {
                            assert(after[a] == old(self)@[a]);
                            assert(after[b] == old(self)@[b]);
                        }
                    }
                }
            },
        }
    }

    /// Drops the replica at `addr`; says whether it was registered.
    pub fn remove(&mut self, addr: PeerAddr) -> (r: bool)
        requires
            slaves_wf(old(self)@),
        ensures
            match slave_index(old(self)@, addr) {
                Some(i) => r && final(self)@ == old(self)@.remove(i),
                None => !r && final(self)@ == old(self)@,
            },
            slaves_wf(final(self)@),
    {
        match self.find(addr) {
            Some(i) => {
                self.list.remove(i);
                proof {
                    let after = self@;
                    assert(after =~= old(self)@.remove(i as int));
                    assert forall|a: int, b: int|
                        0 <= a < after.len() && 0 <= b < after.len() && a != b implies (
                    #[trigger] after[a]).socket_addr != (#[trigger] after[b]).socket_addr by {
                        let a0 = if a < i { a } else { a + 1 };
                        let b0 = if b < i { b } else { b + 1 };
                        assert(after[a] == old(self)@[a0]);
                        assert(after[b] == old(self)@[b0]);
                    }
                }
                assert(self@ == old(self)@.remove(i as int));
                assert(slave_index(old(self)@, addr) == Some(i as int));
                true
            },
            None => false,
        }
    }

    /// Accounts for one flush result; a replica is dropped once its
    /// strikes reach `limit`.
    pub fn apply_result(&mut self, result: UpdateState, limit: usize) -> (counted: bool)
        requires
            slaves_wf(old(self)@),
        ensures
            final(self)@ == applied(old(self)@, result, limit),
            slaves_wf(final(self)@),
            counted == (result matches UpdateState::Success(addr, _, _) && slave_index(
                old(self)@,
                addr,
            ) is Some),
    {
        proof {
            lemma_applied_wf(self@, result, limit);
        }
        match result {
            UpdateState::Success(addr, sent, written) => match self.find(addr) {
                Some(i) => {
                    assert(self@[i as int] == self.list@[i as int]@);
                    let mut meta = SlaveMeta {
                        expected_offset: self.list[i].expected_offset,
                        actual_offset: self.list[i].actual_offset,
                        lifetime_limit: self.list[i].lifetime_limit,
                        socket_addr: self.list[i].socket_addr,
                        pending_updates: Vec::new(),
                    };
                    meta.expected_offset = advance(meta.expected_offset, sent);
                    meta.actual_offset = advance(meta.actual_offset, written);
                    self.list.set(i, meta);
                    assert(self@ =~= applied(old(self)@, result, limit));
                    true
                },
                None => false,
            },
            UpdateState::Failed(addr, sent) => {
                match self.find(addr) {
                    Some(i) => {
                        assert(self@[i as int] == self.list@[i as int]@);
                        let strikes: usize = if self.list[i].lifetime_limit == usize::MAX {
                            usize::MAX
                        } else {
                            self.list[i].lifetime_limit + 1
                        };
                        assert(strikes == old(self)@[i as int].struck(sent).lifetime_limit);
                        if strikes >= limit {
                            self.list.remove(i);
                            assert(self@ =~= old(self)@.remove(i as int));
                            assert(applied(old(self)@, result, limit) == old(self)@.remove(i as int));
                        } else {
                            let meta = SlaveMeta {
                                expected_offset: advance(self.list[i].expected_offset, sent),
                                actual_offset: self.list[i].actual_offset,
                                lifetime_limit: strikes,
                                socket_addr: self.list[i].socket_addr,
                                pending_updates: copy_bytes(&self.list[i].pending_updates),
                            };
                            self.list.set(i, meta);
                            assert(self@ =~= applied(old(self)@, result, limit));
                        }
                    },
                    None => {},
                }
                false
            },
        }
    }
}

/// The replicas for which bytes wait.
pub open spec fn has_pending() -> spec_fn(SlaveModel) -> bool {
    |m: SlaveModel| m.pending_updates.len() > 0
}

/// What one flush tick hands to the writes: for every replica for which
/// bytes wait, once and in order, its address and those bytes.
pub open spec fn flush_jobs(s: SlavesModel) -> Seq<(PeerAddr, Seq<u8>)> {
    let waiting = s.filter(has_pending());
    Seq::new(waiting.len(), |i: int| (waiting[i].socket_addr, waiting[i].pending_updates))
}

/// The models of the jobs of a flush tick.
pub open spec fn jobs_view(jobs: Seq<(PeerAddr, Vec<u8>)>) -> Seq<(PeerAddr, Seq<u8>)> {
    Seq::new(jobs.len(), |i: int| (jobs[i].0, jobs[i].1@))
}

/// What one flush tick hands to the writes. The registry is the only
/// place from which replicas are written to; the writes themselves happen
/// outside, and their results are accounted for afterwards.
pub fn pending_jobs(slaves: &Slaves) -> (jobs: Vec<(PeerAddr, Vec<u8>)>)
    ensures
        jobs_view(jobs@) == flush_jobs(slaves@),
{
    let mut jobs: Vec<(PeerAddr, Vec<u8>)> = Vec::new();
    let ghost all = slaves@;
    let ghost keep = has_pending();
    let n: usize = slaves.list.len();
    let mut i: usize = 0;
    proof {
        reveal(Seq::filter);
        assert(all.take(0) =~= Seq::<SlaveModel>::empty());
        assert(all.take(0).filter(keep) =~= Seq::<SlaveModel>::empty());
    }
    while i < n
        invariant
            n == slaves.list@.len(),
            0 <= i <= n,
            all == slaves@,
            keep == has_pending(),
            jobs@.len() == all.take(i as int).filter(keep).len(),
            forall|j: int|
                0 <= j < jobs@.len() ==> (#[trigger] jobs@[j]).0 == all.take(i as int).filter(
                    keep,
                )[j].socket_addr && jobs@[j].1@ == all.take(i as int).filter(keep)[j].pending_updates,
        decreases n - i,
    {
        proof {
            assert(all[i as int] == slaves.list@[i as int]@);
            all.take(i as int).lemma_filter_push(all[i as int], keep);
            assert(all.take(i + 1) =~= all.take(i as int).push(all[i as int]));
        }
        match slaves.list[i].pending_job() {
            Some(bytes) => {
                jobs.push((slaves.list[i].socket_addr, bytes));
            },
            None => {},
        }
        i = i + 1;
    }
    proof {
        assert(all.take(n as int) =~= all);
        assert(jobs_view(jobs@) =~= flush_jobs(slaves@));
    }
    jobs
}

/// Stages a command for every registered replica: its serialization goes
/// behind what waits in each buffer. Nothing is written to any socket.
pub fn add_pending_update_resp(slaves: &mut Slaves, resp: &RespType)
    ensures
        final(slaves)@ == staged_all(old(slaves)@, resp@.serialize()),
        slaves_wf(old(slaves)@) ==> slaves_wf(final(slaves)@),
{
    let bytes: Vec<u8> = resp.serialize();
    let n: usize = slaves.list.len();
    let mut i: usize = 0;
    while i < n
        invariant
            n == slaves.list@.len(),
            n == old(slaves).list@.len(),
            0 <= i <= n,
            bytes@ == resp@.serialize(),
            forall|j: int| 0 <= j < i ==> (#[trigger] slaves@[j]) == old(slaves)@[j].staged(bytes@),
            forall|j: int| i <= j < n ==> (#[trigger] slaves@[j]) == old(slaves)@[j],
        decreases n - i,
    {
        assert(slaves@[i as int] == old(slaves)@[i as int]);
        assert(slaves@[i as int] == slaves.list@[i as int]@);
        let mut pending: Vec<u8> = copy_bytes(&slaves.list[i].pending_updates);
        push_bytes(&mut pending, bytes.as_slice());
        let meta = SlaveMeta {
            expected_offset: slaves.list[i].expected_offset,
            actual_offset: slaves.list[i].actual_offset,
            lifetime_limit: slaves.list[i].lifetime_limit,
            socket_addr: slaves.list[i].socket_addr,
            pending_updates: pending,
        };
        let ghost before = slaves@;
        slaves.list.set(i, meta);
        proof {
            assert forall|j: int| 0 <= j < i + 1 implies (#[trigger] slaves@[j]) == old(slaves)@[j].staged(bytes@) by {
                if j < i {
                    assert(slaves@[j] == before[j]);
                }
            }
            assert forall|j: int| i + 1 <= j < n implies (#[trigger] slaves@[j]) == old(slaves)@[j] by {
                assert(slaves@[j] == before[j]);
            }
        }
        i = i + 1;
    }
    proof {
        assert(slaves@ =~= staged_all(old(slaves)@, resp@.serialize()));
        if slaves_wf(old(slaves)@) {
            assert forall|a: int, b: int|
                0 <= a < slaves@.len() && 0 <= b < slaves@.len() && a != b implies (
            #[trigger] slaves@[a]).socket_addr != (#[trigger] slaves@[b]).socket_addr by {
                assert(slaves@[a].socket_addr == old(slaves)@[a].socket_addr);
                assert(slaves@[b].socket_addr == old(slaves)@[b].socket_addr);
            }
        }
    }
}

/// Accounts for the results of one flush tick, in order, and says how many
/// replicas were brought up to date. A replica is dropped once its failed
/// flushes reach `limit`.
pub fn apply_all_pending_updates_with(
    slaves: &mut Slaves,
    results: &Vec<UpdateState>,
    limit: usize,
) -> (done: u64)
    requires
        slaves_wf(old(slaves)@),
    ensures
        final(slaves)@ == applied_all(old(slaves)@, results@, limit),
        slaves_wf(final(slaves)@),
        done == updates_done(old(slaves)@, results@, limit),
{
    let mut done: u64 = 0;
    let n: usize = results.len();
    let mut i: usize = 0;
    assert(results@.take(0) =~= Seq::<UpdateState>::empty());
    while i < n
        invariant
            n == results@.len(),
            0 <= i <= n,
            slaves_wf(slaves@),
            slaves@ == applied_all(old(slaves)@, results@.take(i as int), limit),
            done == updates_done(old(slaves)@, results@.take(i as int), limit),
            done <= i,
        decreases n - i,
    {
        proof {
            let next = results@.take(i + 1);
            assert(next.drop_last() =~= results@.take(i as int));
            assert(next.last() == results@[i as int]);
        }
        if slaves.apply_result(results[i], limit) {
            done = done + 1;
        }
        i = i + 1;
    }
    assert(results@.take(n as int) =~= results@);
    done
}

/// Accounts for the results of one flush tick with the default limit of
/// three failed flushes.
pub fn apply_all_pending_updates(slaves: &mut Slaves, results: &Vec<UpdateState>) -> (done: u64)
    requires
        slaves_wf(old(slaves)@),
    ensures
        final(slaves)@ == applied_all(old(slaves)@, results@, SLAVE_LIFETIME_LIMIT),
        slaves_wf(final(slaves)@),
        done == updates_done(old(slaves)@, results@, SLAVE_LIFETIME_LIMIT),
{
    apply_all_pending_updates_with(slaves, results, SLAVE_LIFETIME_LIMIT)
}

/// Moves the replication offset of a replica on by the bytes it has taken in.
pub fn incr_master_repl_offset(cfg: &mut Config, value: u64)
    ensures
        final(cfg).replica_of.master_repl_offset == advanced(
            old(cfg).replica_of.master_repl_offset,
            value,
        ),
        final(cfg).replica_of.role == old(cfg).replica_of.role,
        final(cfg).replica_of.master_replid == old(cfg).replica_of.master_replid,
        final(cfg).service_port == old(cfg).service_port,
        final(cfg).parameters == old(cfg).parameters,
{
    cfg.replica_of.master_repl_offset = advance(cfg.replica_of.master_repl_offset, value);
}

/// Whether an entry is still alive at the moment `now`.
pub open spec fn alive(now: u64) -> spec_fn((ValueModel, EntryModel)) -> bool {
    |p: (ValueModel, EntryModel)| !p.1.is_expired(now)
}

/// The key-space after a read of `key` at the moment `now`, and what the
/// read gives: the stored byte string, or nothing where the key is not
/// stored or its entry has outlived its span. Such an entry is taken out.
pub open spec fn db_get(db: DbModel, key: Seq<u8>, now: u64) -> (DbModel, Option<Seq<u8>>) {
    match index_of(db, canonical(key)) {
        Some(i) => if db[i].1.is_expired(now) {
            (db.remove(i), None)
        } else {
            (db, Some(db[i].1.value.text()))
        },
        None => (db, None),
    }
}

/// The key-space after `value` is written under `key` at the moment `now`,
/// to live for `px` milliseconds where that is given.
pub open spec fn db_set(db: DbModel, key: Seq<u8>, value: Seq<u8>, px: Option<u64>, now: u64) -> DbModel {
    db_insert(
        db,
        canonical(key),
        EntryModel { value: canonical(value), created_at: now, expired_millis: px },
    )
}

/// The keys of the key-space as bulk strings, in order.
pub open spec fn key_frames(db: DbModel) -> Seq<RespValue> {
    Seq::new(db.len(), |i: int| RespValue::BulkString(db[i].0.text()))
}

/// Every member of a filtered run is a member of the run.
pub proof fn lemma_filter_member<A>(s: Seq<A>, pred: spec_fn(A) -> bool, j: int)
    requires
        0 <= j < s.filter(pred).len(),
    ensures
        exists|k: int| 0 <= k < s.len() && s[k] == s.filter(pred)[j],
    decreases s.len(),
{
    reveal(Seq::filter);
    if s.len() > 0 {
        let front = s.drop_last();
        let sub = front.filter(pred);
        if j < sub.len() {
            lemma_filter_member(front, pred, j);
            let k = choose|k: int| 0 <= k < front.len() && front[k] == sub[j];
            assert(s[k] == front[k]);
        } else {
            assert(s[s.len() - 1] == s.filter(pred)[j]);
        }
    }
}

impl RedisDB {
    /// Reads `key` at the moment `now`. An entry that has outlived its
    /// span is taken out and reads as nothing.
    pub fn get(&mut self, key: &[u8], now: u64) -> (r: Option<Vec<u8>>)
        requires
            db_wf(old(self)@),
            key@.len() <= u32::MAX,
        ensures
            final(self)@ == db_get(old(self)@, key@, now).0,
            match db_get(old(self)@, key@, now).1 {
                Some(text) => r matches Some(got) && got@ == text,
                None => r is None,
            },
            db_wf(final(self)@),
            canonical(key@).wf(),
            canonical(key@).text() == key@,
    {
        let probe = ValueType::new(vstd::slice::slice_to_vec(key));
        match self.find(&probe) {
            Some(i) => {
                assert(self@[i as int] == self.entries@[i as int]@);
                if self.entries[i].entry.is_expired(now) {
                    self.remove_at(i);
                    None
                } else {
                    Some(self.entries[i].entry.value.as_string())
                }
            },
            None => None,
        }
    }

    /// Writes `value` under `key` at the moment `now`, over what the key
    /// held, to live for `px` milliseconds where that is given.
    pub fn set(&mut self, key: Vec<u8>, value: Vec<u8>, px: Option<u64>, now: u64)
        requires
            db_wf(old(self)@),
            key@.len() <= u32::MAX,
            value@.len() <= u32::MAX,
        ensures
            final(self)@ == db_set(old(self)@, key@, value@, px, now),
            db_wf(final(self)@),
            canonical(key@).wf(),
            canonical(key@).text() == key@,
            canonical(value@).text() == value@,
    {
        let k = ValueType::new(key);
        let e = DataEntry::new(value, px, now);
        self.insert(k, e);
    }

    /// Takes out every entry that has outlived its span at the moment `now`.
    pub fn purge_expired(&mut self, now: u64)
        requires
            db_wf(old(self)@),
        ensures
            final(self)@ == old(self)@.filter(alive(now)),
            db_wf(final(self)@),
    {
        let ghost all = self@;
        let ghost mut seen: int = 0;
        let mut i: usize = 0;
        proof {
            reveal(Seq::filter);
            assert(all.take(0) =~= Seq::<(ValueModel, EntryModel)>::empty());
            assert(all.take(0).filter(alive(now)) =~= Seq::<(ValueModel, EntryModel)>::empty());
            assert(all.skip(0) =~= all);
        }
        while i < self.entries.len()
            invariant
                all == old(self)@,
                0 <= seen <= all.len(),
                db_wf(self@),
                i == all.take(seen).filter(alive(now)).len(),
                self@ == all.take(seen).filter(alive(now)) + all.skip(seen),
                self.entries@.len() == self@.len(),
            decreases all.len() - seen,
        {
            let ghost kept = all.take(seen).filter(alive(now));
            proof {
                assert(self@[i as int] == all.skip(seen)[0]);
                assert(self@[i as int] == self.entries@[i as int]@);
                kept.lemma_filter_len(alive(now));
                all.take(seen).lemma_filter_push(all[seen], alive(now));
                assert(all.take(seen + 1) =~= all.take(seen).push(all[seen]));
            }
            if self.entries[i].entry.is_expired(now) {
                self.remove_at(i);
                assert(self@ =~= kept + all.skip(seen + 1));
            } else {
                assert(self@ =~= kept.push(all[seen]) + all.skip(seen + 1));
                i = i + 1;
            }
            proof {
                seen = seen + 1;
            }
        }
        proof {
            assert(seen == all.len());
            assert(all.take(seen) =~= all);
            assert(self@ =~= all.filter(alive(now)));
        }
    }

    /// The keys as bulk strings, in order.
    pub fn keys(&self) -> (r: Vec<RespType>)
        requires
            db_wf(self@),
        ensures
            views(r@) == key_frames(self@),
    {
        let mut out: Vec<RespType> = Vec::new();
        let n: usize = self.entries.len();
        let mut i: usize = 0;
        while i < n
            invariant
                n == self.entries@.len(),
                0 <= i <= n,
                db_wf(self@),
                out@.len() == i,
                forall|j: int| 0 <= j < i ==> (#[trigger] out@[j])@ == key_frames(self@)[j],
            decreases n - i,
        {
            assert(self@[i as int] == self.entries@[i as int]@);
            out.push(RespType::BulkString(self.entries[i].key.as_string()));
            i = i + 1;
        }
        assert(views(out@) =~= key_frames(self@));
        out
    }
}

/// One stream with the key under which it is stored.
#[derive(Debug)]
pub struct KeyedStream {
    pub key: Vec<u8>,
    pub stream: StreamEntry,
}

/// The streams of a server, in the order in which they were created.
#[derive(Debug)]
pub struct StreamDB {
    pub list: Vec<KeyedStream>,
}

/// The mathematical model of the streams: keys and logs in order.
pub type StreamsModel = Seq<(Seq<u8>, StreamModel)>;

impl View for StreamDB {
    type V = StreamsModel;

    open spec fn view(&self) -> StreamsModel {
        Seq::new(self.list@.len(), |i: int| (self.list@[i].key@, self.list@[i].stream@))
    }
}

/// Every stream is well formed and no key occurs twice.
pub open spec fn streams_wf(s: StreamsModel) -> bool {
    &&& forall|i: int| 0 <= i < s.len() ==> (#[trigger] s[i]).1.wf()
    &&& forall|i: int, j: int|
        0 <= i < s.len() && 0 <= j < s.len() && i != j ==> (#[trigger] s[i]).0 != (#[trigger] s[j]).0
}

/// The stream under `key` stands at index `i`.
pub open spec fn stream_at(s: StreamsModel, key: Seq<u8>, i: int) -> bool {
    0 <= i < s.len() && s[i].0 == key
}

/// Where the stream under `key` stands, if there is one.
pub open spec fn stream_index(s: StreamsModel, key: Seq<u8>) -> Option<int> {
    if exists|i: int| stream_at(s, key, i) {
        Some(choose|i: int| stream_at(s, key, i))
    } else {
        None
    }
}

/// The stream under `key`, or an empty one where there is none.
pub open spec fn stream_of(streams: StreamsModel, key: Seq<u8>) -> StreamModel {
    match stream_index(streams, key) {
        Some(i) => streams[i].1,
        None => StreamModel {
            entries: Seq::<RecordModel>::empty(),
            last_stream_id: StreamID { millis: 0, seq: 0 },
        },
    }
}

/// The streams after the one under `key` has become `stream`.
pub open spec fn with_stream(streams: StreamsModel, key: Seq<u8>, stream: StreamModel) -> StreamsModel {
    match stream_index(streams, key) {
        Some(i) => streams.update(i, (key, stream)),
        None => streams.push((key, stream)),
    }
}

/// In well-formed streams the index of a key is the one place where it stands.
pub proof fn lemma_stream_index(s: StreamsModel, key: Seq<u8>, i: int)
    requires
        streams_wf(s),
        stream_at(s, key, i),
    ensures
        stream_index(s, key) == Some(i),
{
    let c = choose|k: int| stream_at(s, key, k);
    if c != i {
        assert(s[c].0 != s[i].0);
    }
}

impl StreamDB {
    /// Appends an entry to the stream under `key` at the wall-clock time
    /// `wall_ms`; a first entry creates the stream. A refused identifier
    /// changes nothing: no stream is created for it either.
    pub fn append_at(
        &mut self,
        key: &[u8],
        id: &[u8],
        fields: Vec<(Vec<u8>, Vec<u8>)>,
        wall_ms: u128,
    ) -> (r: Result<Vec<u8>, StreamError>)
        requires
            streams_wf(old(self)@),
        ensures
            streams_wf(final(self)@),
            match spec_xadd(stream_of(old(self)@, key@), id@, wall_ms) {
                Ok(stored) => r matches Ok(text) && text@ == id_text(stored) && final(self)@
                    == with_stream(
                    old(self)@,
                    key@,
                    appended(stream_of(old(self)@, key@), stored, fields_view(fields@)),
                ),
                Err(e) => r matches Err(err) && err == e && final(self)@ == old(self)@,
            },
            forall|j: int|
                0 <= j < final(self)@.len() ==> (#[trigger] final(self)@[j]).0 == key@ || (j < old(self)@.len() && final(self)@[j].0 == old(self)@[j].0),
    {
        match self.find(key) {
            Some(i) => {
                assert(self@[i as int] == (self.list@[i as int].key@, self.list@[i as int].stream@));
                let mut item: KeyedStream = self.list.remove(i);
                let result = item.stream.append_stream_at(id, fields, wall_ms);
                let ghost pair = (item.key@, item.stream@);
                self.list.insert(i, item);
                proof {
                    let after = self@;
                    assert(after =~= old(self)@.update(i as int, pair));
                    assert forall|j: int| 0 <= j < after.len() implies (#[trigger] after[j]).1.wf() by {
                        if j != i {
                            assert(after[j] == old(self)@[j]);
                        }
                    }
                    assert forall|a: int, b: int|
                        0 <= a < after.len() && 0 <= b < after.len() && a != b implies (
                    #[trigger] after[a]).0 != (#[trigger] after[b]).0 by {
                        assert(after[a].0 == old(self)@[a].0);
                        assert(after[b].0 == old(self)@[b].0);
                    }
                    assert forall|j: int| 0 <= j < after.len() implies (#[trigger] after[j]).0
                        == key@ || (j < old(self)@.len() && after[j].0 == old(self)@[j].0) by {
                        assert(after[j].0 == old(self)@[j].0);
                    }
                    if result is Err {
                        assert(after =~= old(self)@);
                    }
                }
                result
            },
            None => {
                let mut stream = StreamEntry::new();
                assert(stream@ == stream_of(old(self)@, key@));
                let result = stream.append_stream_at(id, fields, wall_ms);
                if result.is_ok() {
                    let ghost pair = (key@, stream@);
                    self.list.push(KeyedStream { key: vstd::slice::slice_to_vec(key), stream });
                    proof {
                        let after = self@;
                        assert(after =~= old(self)@.push(pair));
                        assert forall|j: int| 0 <= j < after.len() implies (
                        #[trigger] after[j]).1.wf() by {
                            if j < old(self)@.len() {
                                assert(after[j] == old(self)@[j]);
                            }
                        }
                        assert forall|a: int, b: int|
                            0 <= a < after.len() && 0 <= b < after.len() && a != b implies (
                        #[trigger] after[a]).0 != (#[trigger] after[b]).0 by {
                            if a < old(self)@.len() {
                                assert(after[a] == old(self)@[a]);
                                assert(!stream_at(old(self)@, key@, a));
                            }
                            if b < old(self)@.len() {
                                assert(after[b] == old(self)@[b]);
                                assert(!stream_at(old(self)@, key@, b));
                            }
                        }
                        assert forall|j: int| 0 <= j < after.len() implies (#[trigger] after[j]).0
                            == key@ || (j < old(self)@.len() && after[j].0 == old(self)@[j].0) by {
                            if j < old(self)@.len() {
                                assert(after[j] == old(self)@[j]);
                            }
                        }
                    }
                }
                result
            },
        }
    }

    /// No streams.
    pub fn new() -> (r: Self)
        ensures
            r@ == Seq::<(Seq<u8>, StreamModel)>::empty(),
            streams_wf(r@),
    {
        let r = StreamDB { list: Vec::new() };
        assert(r@ =~= Seq::<(Seq<u8>, StreamModel)>::empty());
        r
    }

    /// Where the stream under `key` stands, if there is one.
    pub fn find(&self, key: &[u8]) -> (r: Option<usize>)
        requires
            streams_wf(self@),
        ensures
            r matches Some(idx) ==> stream_index(self@, key@) == Some(idx as int) && idx
                < self@.len(),
            r is None ==> stream_index(self@, key@) is None,
    {
        let n: usize = self.list.len();
        let mut i: usize = 0;
        while i < n
            invariant
                n == self.list@.len(),
                0 <= i <= n,
                streams_wf(self@),
                forall|j: int| 0 <= j < i ==> !stream_at(self@, key@, j),
            decreases n - i,
        {
            assert(self@[i as int].0 == self.list@[i as int].key@);
            if bytes_eq(self.list[i].key.as_slice(), key) {
                proof {
                    assert(stream_at(self@, key@, i as int));
                    lemma_stream_index(self@, key@, i as int);
                }
                return Some(i);
            }
            i = i + 1;
        }
        proof {
            assert forall|j: int| !stream_at(self@, key@, j) by {}
        }
        None
    }
}

/// No key is stored both as a string and as a stream.
pub open spec fn disjoint(db: DbModel, streams: StreamsModel) -> bool {
    forall|i: int, j: int|
        0 <= i < db.len() && 0 <= j < streams.len() ==> (#[trigger] db[i]).0.text() != (
        #[trigger] streams[j]).0
}

/// Taking entries out of the key-space keeps it apart from the streams.
pub proof fn lemma_disjoint_remove(db: DbModel, streams: StreamsModel, i: int)
    requires
        disjoint(db, streams),
        0 <= i < db.len(),
    ensures
        disjoint(db.remove(i), streams),
{
    let after = db.remove(i);
    assert forall|a: int, j: int| 0 <= a < after.len() && 0 <= j < streams.len() implies (
    #[trigger] after[a]).0.text() != (#[trigger] streams[j]).0 by {
        let a0 = if a < i { a } else { a + 1 };
        assert(after[a] == db[a0]);
    }
}

/// Dropping the entries that have outlived their span keeps the key-space
/// apart from the streams.
pub proof fn lemma_disjoint_live(db: DbModel, streams: StreamsModel, now: u64)
    requires
        disjoint(db, streams),
    ensures
        disjoint(db.filter(alive(now)), streams),
{
    let after = db.filter(alive(now));
    assert forall|a: int, j: int| 0 <= a < after.len() && 0 <= j < streams.len() implies (
    #[trigger] after[a]).0.text() != (#[trigger] streams[j]).0 by {
        lemma_filter_member(db, alive(now), a);
        let k = choose|k: int| 0 <= k < db.len() && db[k] == after[a];
        assert(db[k].0.text() != streams[j].0);
    }
}

/// Writing under a key that names no stream keeps the key-space apart from
/// the streams.
pub proof fn lemma_disjoint_insert(
    db: DbModel,
    streams: StreamsModel,
    key: ValueModel,
    entry: EntryModel,
)
    requires
        disjoint(db, streams),
        stream_index(streams, key.text()) is None,
    ensures
        disjoint(db_insert(db, key, entry), streams),
{
    let after = db_insert(db, key, entry);
    assert forall|a: int, j: int| 0 <= a < after.len() && 0 <= j < streams.len() implies (
    #[trigger] after[a]).0.text() != (#[trigger] streams[j]).0 by {
        assert(!stream_at(streams, key.text(), j));
        match index_of(db, key) {
            Some(i) => {
                if a != i {
                    assert(after[a] == db[a]);
                }
            },
            None => {
                if a < db.len() {
                    assert(after[a] == db[a]);
                }
            },
        }
    }
}

/// A key that a read does not find is not stored behind the read.
pub proof fn lemma_get_none_absent(db: DbModel, key: Seq<u8>, now: u64)
    requires
        db_wf(db),
        db_get(db, key, now).1 is None,
    ensures
        forall|i: int|
            0 <= i < db_get(db, key, now).0.len() ==> (#[trigger] db_get(db, key, now).0[i]).0
                != canonical(key),
{
    let after = db_get(db, key, now).0;
    assert forall|i: int| 0 <= i < after.len() implies (#[trigger] after[i]).0 != canonical(
        key,
    ) by {
        match index_of(db, canonical(key)) {
            Some(k) => {
                assert(key_at(db, canonical(key), k));
                let i0 = if i < k { i } else { i + 1 };
                assert(after[i] == db[i0]);
                assert(db[i0].0 != db[k].0);
            },
            None => {
                assert(!key_at(db, canonical(key), i));
            },
        }
    }
}

/// A new stream under a key that the key-space does not hold keeps the
/// two apart; so does any change to a stream that is there.
pub proof fn lemma_disjoint_streams(db: DbModel, before: StreamsModel, after: StreamsModel, key: Seq<u8>)
    requires
        db_wf(db),
        disjoint(db, before),
        forall|i: int| 0 <= i < db.len() ==> (#[trigger] db[i]).0.text() != key,
        forall|j: int|
            0 <= j < after.len() ==> (#[trigger] after[j]).0 == key || (j < before.len()
                && after[j].0 == before[j].0),
    ensures
        disjoint(db, after),
{
    assert forall|i: int, j: int| 0 <= i < db.len() && 0 <= j < after.len() implies (
    #[trigger] db[i]).0.text() != (#[trigger] after[j]).0 by {
        if after[j].0 != key {
            assert(after[j].0 == before[j].0);
        }
    }
}

impl RedisDB {
    /// Whether the key-space is well formed; decided by looking at every
    /// entry and every pair of keys.
    pub fn check(&self) -> (ok: bool)
        ensures
            ok == db_wf(self@),
    {
        let n: usize = self.entries.len();
        let mut i: usize = 0;
        while i < n
            invariant
                n == self.entries@.len(),
                0 <= i <= n,
                forall|a: int| 0 <= a < i ==> (#[trigger] self@[a]).0.wf() && self@[a].1.value.wf(),
                forall|a: int, b: int|
                    0 <= a < i && 0 <= b < i && a != b ==> (#[trigger] self@[a]).0 != (
                    #[trigger] self@[b]).0,
            decreases n - i,
        {
            assert(self@[i as int] == self.entries@[i as int]@);
            if !self.entries[i].key.check() || !self.entries[i].entry.value.check() {
                return false;
            }
            let mut j: usize = 0;
            while j < i
                invariant
                    n == self.entries@.len(),
                    0 <= j <= i < n,
                    forall|b: int| 0 <= b < j ==> (#[trigger] self@[b]).0 != self@[i as int].0,
                decreases i - j,
            {
                assert(self@[j as int] == self.entries@[j as int]@);
                assert(self@[i as int] == self.entries@[i as int]@);
                if self.entries[j].key.same(&self.entries[i].key) {
                    return false;
                }
                j = j + 1;
            }
            i = i + 1;
        }
        true
    }
}

impl Slaves {
    /// Whether no peer is registered twice.
    pub fn check(&self) -> (ok: bool)
        ensures
            ok == slaves_wf(self@),
    {
        let n: usize = self.list.len();
        let mut i: usize = 0;
        while i < n
            invariant
                n == self.list@.len(),
                0 <= i <= n,
                forall|a: int, b: int|
                    0 <= a < i && 0 <= b < i && a != b ==> (#[trigger] self@[a]).socket_addr != (
                    #[trigger] self@[b]).socket_addr,
            decreases n - i,
        {
            let mut j: usize = 0;
            while j < i
                invariant
                    n == self.list@.len(),
                    0 <= j <= i < n,
                    forall|b: int|
                        0 <= b < j ==> (#[trigger] self@[b]).socket_addr != self@[i as int].socket_addr,
                decreases i - j,
            {
                assert(self@[j as int] == self.list@[j as int]@);
                assert(self@[i as int] == self.list@[i as int]@);
                let a: PeerAddr = self.list[j].socket_addr;
                let b: PeerAddr = self.list[i].socket_addr;
                if a.host == b.host && a.port == b.port {
                    return false;
                }
                j = j + 1;
            }
            i = i + 1;
        }
        true
    }
}

impl StreamDB {
    /// Whether the streams are well formed; decided by looking at every
    /// stream and every pair of keys.
    pub fn check(&self) -> (ok: bool)
        ensures
            ok == streams_wf(self@),
    {
        let n: usize = self.list.len();
        let mut i: usize = 0;
        while i < n
            invariant
                n == self.list@.len(),
                0 <= i <= n,
                forall|a: int| 0 <= a < i ==> (#[trigger] self@[a]).1.wf(),
                forall|a: int, b: int|
                    0 <= a < i && 0 <= b < i && a != b ==> (#[trigger] self@[a]).0 != (
                    #[trigger] self@[b]).0,
            decreases n - i,
        {
            assert(self@[i as int] == (self.list@[i as int].key@, self.list@[i as int].stream@));
            if !self.list[i].stream.check() {
                return false;
            }
            let mut j: usize = 0;
            while j < i
                invariant
                    n == self.list@.len(),
                    0 <= j <= i < n,
                    forall|b: int| 0 <= b < j ==> (#[trigger] self@[b]).0 != self@[i as int].0,
                decreases i - j,
            {
                assert(self@[j as int].0 == self.list@[j as int].key@);
                assert(self@[i as int].0 == self.list@[i as int].key@);
                if bytes_eq(self.list[j].key.as_slice(), self.list[i].key.as_slice()) {
                    return false;
                }
                j = j + 1;
            }
            i = i + 1;
        }
        true
    }
}

/// Whether no key is stored both as a string and as a stream.
pub fn check_disjoint(dict: &RedisDB, streams: &StreamDB) -> (ok: bool)
    requires
        db_wf(dict@),
        streams_wf(streams@),
    ensures
        ok == disjoint(dict@, streams@),
{
    let n: usize = dict.entries.len();
    let mut i: usize = 0;
    while i < n
        invariant
            n == dict.entries@.len(),
            0 <= i <= n,
            db_wf(dict@),
            streams_wf(streams@),
            forall|a: int, j: int|
                0 <= a < i && 0 <= j < streams@.len() ==> (#[trigger] dict@[a]).0.text() != (
                #[trigger] streams@[j]).0,
        decreases n - i,
    {
        assert(dict@[i as int] == dict.entries@[i as int]@);
        let text: Vec<u8> = dict.entries[i].key.as_string();
        match streams.find(text.as_slice()) {
            Some(j) => {
                assert(stream_at(streams@, text@, j as int));
                return false;
            },
            None => {
                assert forall|j: int| 0 <= j < streams@.len() implies dict@[i as int].0.text() != (
                #[trigger] streams@[j]).0 by {
                    assert(!stream_at(streams@, text@, j));
                }
            },
        }
        i = i + 1;
    }
    true
}

} // verus!
