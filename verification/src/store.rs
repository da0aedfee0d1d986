//! The document store engine: named stores, each holding one document tree
//! with copy-on-write updates, a monotonic version counter, subscriptions
//! with queued fan-out, and bounded snapshot retention.

use vstd::prelude::*;
use crate::value::Value;
use crate::value::Val;
use crate::value::v_model;
use crate::value::str_eq;
use crate::value::obj_get;
use crate::value::merge_from;
use crate::value::set_path_from;
use crate::value::get_path_from;
use crate::value::get_field;
use crate::value::set_path_exec;
use crate::value::get_path_exec;
use crate::value::merge_fields_exec;
use crate::path::PathCache;
use crate::path::parse_path_spec;
use crate::codec::spec_encode;
use crate::codec::spec_decode;
use crate::codec::encode_val;
use crate::codec::decode_val;
use crate::codec::lemma_round_trip;
use crate::errors::ErrorKind;
use crate::ident::dec_chars;
use crate::ident::u64_to_dec;
use crate::ident::lemma_prefixed_dec_injective;

verus! {

broadcast use vstd::std_specs::vec::group_vec_axioms, vstd::seq::group_seq_axioms;

/// One registered subscriber of a store.
pub struct Subscription {
    pub id: String,
    pub id_num: u64,
}

/// One retained snapshot: an id, the encoded root, and bookkeeping.
pub struct Snapshot {
    pub id: String,
    pub id_num: u64,
    pub bytes: Vec<u8>,
    pub created_at: u64,
    pub version: u64,
}

/// One queued fan-out event: the subscriber to call and the committed root
/// it must observe. The host drains this queue and invokes the callbacks.
pub struct Notification {
    pub sub_id: String,
    pub store: String,
    pub version: u64,
    pub root: Value,
}

/// One named store.
pub struct Store {
    pub name: String,
    pub root: Value,
    pub version: u64,
    pub subs: Vec<Subscription>,
    pub snapshots: Vec<Snapshot>,
}

/// The engine: every store, the id counter, the queued notifications and
/// the path cache.
pub struct Engine {
    pub stores: Vec<Store>,
    pub next_id: u64,
    pub pending: Vec<Notification>,
    pub cache: PathCache,
    pub snapshot_ceiling: usize,
}

/// The id string of a subscription counter.
pub open spec fn sub_id_chars(n: nat) -> Seq<char> {
    "sub_"@ + dec_chars(n)
}

/// The id string of a snapshot counter.
pub open spec fn snap_id_chars(n: nat) -> Seq<char> {
    "snap_"@ + dec_chars(n)
}

/// Index of the first store at or after `i` named `name`, or `ss.len()`.
pub open spec fn store_find_from(ss: Seq<Store>, i: int, name: Seq<char>) -> int
    decreases ss.len() - i,
{
    if i < 0 || i >= ss.len() {
        ss.len() as int
    } else if ss[i].name@ == name {
        i
    } else {
        store_find_from(ss, i + 1, name)
    }
}

/// Index of the store named `name`, or `ss.len()`.
pub open spec fn store_find(ss: Seq<Store>, name: Seq<char>) -> int {
    store_find_from(ss, 0, name)
}

/// Index of the first subscription at or after `i` with id `id`.
pub open spec fn sub_find_from(subs: Seq<Subscription>, i: int, id: Seq<char>) -> int
    decreases subs.len() - i,
{
    if i < 0 || i >= subs.len() {
        subs.len() as int
    } else if subs[i].id@ == id {
        i
    } else {
        sub_find_from(subs, i + 1, id)
    }
}

/// Index of the first snapshot at or after `i` with id `id`.
pub open spec fn snap_find_from(snaps: Seq<Snapshot>, i: int, id: Seq<char>) -> int
    decreases snaps.len() - i,
{
    if i < 0 || i >= snaps.len() {
        snaps.len() as int
    } else if snaps[i].id@ == id {
        i
    } else {
        snap_find_from(snaps, i + 1, id)
    }
}

impl Store {
    /// Ids are well-formed counter strings, strictly increasing, below the
    /// engine counter; snapshot bytes decode exactly.
    pub open spec fn wf(&self, next: u64) -> bool {
        &&& forall|i: int, j: int|
            0 <= i < j < self.subs@.len() ==> self.subs@[i].id_num < self.subs@[j].id_num
        &&& forall|i: int|
            0 <= i < self.subs@.len() ==> (#[trigger] self.subs@[i]).id_num < next
                && self.subs@[i].id@ == sub_id_chars(self.subs@[i].id_num as nat)
        &&& forall|i: int, j: int|
            0 <= i < j < self.snapshots@.len() ==> self.snapshots@[i].id_num
                < self.snapshots@[j].id_num
        &&& forall|i: int|
            0 <= i < self.snapshots@.len() ==> (#[trigger] self.snapshots@[i]).id_num < next
                && self.snapshots@[i].id@ == snap_id_chars(self.snapshots@[i].id_num as nat)
                && snapshot_decodes(self.snapshots@[i])
    }
}

/// The snapshot's bytes decode to exactly one value, consuming the buffer.
pub open spec fn snapshot_decodes(s: Snapshot) -> bool {
    match spec_decode(s.bytes@, 0) {
        Some((_, c)) => c == s.bytes@.len(),
        None => false,
    }
}

/// The value a snapshot restores to.
pub open spec fn snapshot_value(s: Snapshot) -> Val {
    spec_decode(s.bytes@, 0).unwrap().0
}

impl Engine {
    /// Store names are unique and every store is well-formed against the id
    /// counter.
    pub open spec fn wf(&self) -> bool {
        &&& self.cache.wf()
        &&& forall|i: int, j: int|
            0 <= i < j < self.stores@.len() ==> self.stores@[i].name@ != self.stores@[j].name@
        &&& forall|i: int|
            0 <= i < self.stores@.len() ==> (#[trigger] self.stores@[i]).wf(self.next_id)
    }

    /// A fresh engine with no stores, a snapshot ceiling of fifty per store
    /// and a path-cache ceiling of ten thousand entries.
    pub fn new() -> (r: Engine)
        ensures
            r.wf(),
            r.stores@.len() == 0,
            r.pending@.len() == 0,
            r.next_id == 0,
            r.snapshot_ceiling == 50,
            r.cache.ceiling == 10000,
            r.cache.entries@.len() == 0,
    {
        Engine {
            stores: Vec::new(),
            next_id: 0,
            pending: Vec::new(),
            cache: PathCache::new(10000),
            snapshot_ceiling: 50,
        }
    }
}

/// Index of the store named `name`, or `ss.len()`.
pub fn find_store(ss: &Vec<Store>, name: &str) -> (r: usize)
    ensures
        r as int == store_find(ss@, name@),
{
    let mut i: usize = 0;
    while i < ss.len()
        invariant
            i <= ss@.len(),
            store_find(ss@, name@) == store_find_from(ss@, i as int, name@),
        decreases ss@.len() - i,
    {
        if str_eq(ss[i].name.as_str(), name) {
            return i;
        }
        i += 1;
    }
    i
}

/// What `dispatch` makes of one operation, over models: the new root, or
/// the error the operation must report.
pub open spec fn dispatch_result(root: Val, op: Seq<char>, payload: Val) -> Result<
    Val,
    ErrorKind,
> {
    if op == "SET"@ {
        Ok(payload)
    } else if op == "MERGE"@ {
        match root {
            Val::Obj(base) => match payload {
                Val::Obj(add) => Ok(Val::Obj(merge_from(base, add, 0))),
                _ => Err(ErrorKind::PathConflict),
            },
            _ => Err(ErrorKind::PathConflict),
        }
    } else if op == "UPDATE"@ {
        update_result(root, payload)
    } else if op == "BATCH"@ {
        match payload {
            Val::Arr(items) => batch_result(root, items, 0),
            _ => Err(ErrorKind::SerializationError),
        }
    } else {
        Err(ErrorKind::UnknownOp)
    }
}

/// An update payload is a mapping with a string `path` and a `value`; it
/// installs the value at the parsed path.
pub open spec fn update_result(root: Val, payload: Val) -> Result<Val, ErrorKind> {
    match payload {
        Val::Obj(fs) => {
            let pv = obj_get(fs, "path"@);
            let vv = obj_get(fs, "value"@);
            if pv is Some && vv is Some && pv.unwrap() is Str {
                match set_path_from(root, parse_path_spec(pv.unwrap()->Str_0), 0, vv.unwrap()) {
                    Some(nr) => Ok(nr),
                    None => Err(ErrorKind::PathConflict),
                }
            } else {
                Err(ErrorKind::SerializationError)
            }
        },
        _ => Err(ErrorKind::SerializationError),
    }
}

/// Updates applied in order from index `i`; the first failure aborts.
pub open spec fn batch_result(root: Val, items: Seq<Val>, i: int) -> Result<Val, ErrorKind>
    decreases items.len() - i,
{
    if i < 0 || i >= items.len() {
        Ok(root)
    } else {
        match update_result(root, items[i]) {
            Ok(nr) => batch_result(nr, items, i + 1),
            Err(e) => Err(e),
        }
    }
}

/// The store at `k` took `nr` as its root: version bumped, everything else
/// of the store kept.
pub open spec fn store_committed(pre: Store, post: Store, nr: Val) -> bool {
    &&& post.name == pre.name
    &&& post.root@ == nr
    &&& post.version == pre.version + 1
    &&& post.subs == pre.subs
    &&& post.snapshots == pre.snapshots
}

/// Exactly one queued notification per subscriber of `st`, in order, each
/// carrying the post-commit root and version.
pub open spec fn notified(old_p: Seq<Notification>, new_p: Seq<Notification>, st: Store) -> bool {
    &&& new_p.len() == old_p.len() + st.subs@.len()
    &&& forall|i: int| 0 <= i < old_p.len() ==> new_p[i] == old_p[i]
    &&& forall|i: int|
        0 <= i < st.subs@.len() ==> {
            let n = #[trigger] new_p[old_p.len() + i];
            n.sub_id@ == st.subs@[i].id@ && n.store@ == st.name@ && n.version == st.version
                && n.root@ == st.root@
        }
}

/// One commit on the store at `k`: its root replaced by `nr`, its version
/// advanced by one, a notification queued for each of its subscribers, and
/// every other store untouched.
pub open spec fn committed(pre: Engine, post: Engine, k: int, nr: Val) -> bool {
    &&& post.stores@.len() == pre.stores@.len()
    &&& forall|j: int| 0 <= j < pre.stores@.len() && j != k ==> post.stores@[j] == pre.stores@[j]
    &&& store_committed(pre.stores@[k], post.stores@[k], nr)
    &&& post.next_id == pre.next_id
    &&& post.snapshot_ceiling == pre.snapshot_ceiling
    &&& notified(pre.pending@, post.pending@, post.stores@[k])
}

impl Engine {
    /// Install `new_root` on the store at `k` as one commit.
    #[verifier::loop_isolation(false)]
    fn commit(&mut self, k: usize, new_root: Value)
        requires
            old(self).wf(),
            k < old(self).stores@.len(),
            old(self).stores@[k as int].version < u64::MAX,
        ensures
            final(self).wf(),
            final(self).cache == old(self).cache,
            committed(*old(self), *final(self), k as int, v_model(new_root)),
    {
        let ghost nr = v_model(new_root);
        {
            let st = &mut self.stores[k];
            st.root = new_root;
            st.version = st.version + 1;
        }
        let ghost base = self.pending@;
        let ghost mid = *self;
        let nsubs = self.stores[k].subs.len();
        let mut i: usize = 0;
        while i < nsubs
            invariant
                i <= nsubs,
                self.stores@ == mid.stores@,
                self.next_id == mid.next_id,
                self.cache == mid.cache,
                self.snapshot_ceiling == mid.snapshot_ceiling,
                k < self.stores@.len(),
                nsubs == self.stores@[k as int].subs@.len(),
                self.pending@.len() == base.len() + i,
                forall|j: int| 0 <= j < base.len() ==> self.pending@[j] == base[j],
                forall|j: int|
                    0 <= j < i ==> {
                        let n = #[trigger] self.pending@[base.len() + j];
                        n.sub_id@ == self.stores@[k as int].subs@[j].id@ && n.store@
                            == self.stores@[k as int].name@ && n.version == self.stores@[k
                            as int].version && n.root@ == self.stores@[k as int].root@
                    },
            decreases nsubs - i,
        {
            let note = Notification {
                sub_id: self.stores[k].subs[i].id.clone(),
                store: self.stores[k].name.clone(),
                version: self.stores[k].version,
                root: self.stores[k].root.deep_clone(),
            };
            self.pending.push(note);
            i += 1;
        }
    }

    /// Create a store with the given root; fails when the name exists.
    pub fn init_store(&mut self, name: &str, initial: Value) -> (r: Result<(), ErrorKind>)
        requires
            old(self).wf(),
        ensures
            final(self).wf(),
            ({
                let ss = old(self).stores@;
                let k = store_find(ss, name@);
                if k < ss.len() {
                    r == Err::<(), ErrorKind>(ErrorKind::Duplicate) && *final(self) == *old(self)
                } else {
                    &&& r is Ok
                    &&& final(self).stores@.len() == ss.len() + 1
                    &&& forall|j: int| 0 <= j < ss.len() ==> final(self).stores@[j] == ss[j]
                    &&& final(self).stores@[ss.len() as int].name@ == name@
                    &&& final(self).stores@[ss.len() as int].root@ == v_model(initial)
                    &&& final(self).stores@[ss.len() as int].version == 0
                    &&& final(self).stores@[ss.len() as int].subs@.len() == 0
                    &&& final(self).stores@[ss.len() as int].snapshots@.len() == 0
                    &&& final(self).pending == old(self).pending
                    &&& final(self).next_id == old(self).next_id
                    &&& final(self).snapshot_ceiling == old(self).snapshot_ceiling
                }
            }),
    {
        let k = find_store(&self.stores, name);
        if k < self.stores.len() {
            return Err(ErrorKind::Duplicate);
        }
        proof {
            lemma_store_find_props(self.stores@, 0, name@);
        }
        let st = Store {
            name: name.to_owned(),
            root: initial,
            version: 0,
            subs: Vec::new(),
            snapshots: Vec::new(),
        };
        self.stores.push(st);
        Ok(())
    }
}

/// Apply one update payload to a root, returning the new root. The cache is
/// only consulted for path parsing and never changes the result.
fn apply_update(root: &Value, payload: &Value, cache: &mut PathCache) -> (r: Result<
    Value,
    ErrorKind,
>)
    requires
        old(cache).wf(),
    ensures
        final(cache).wf(),
        final(cache).ceiling == old(cache).ceiling,
        match r {
            Ok(nv) => update_result(root@, payload@) == Ok::<Val, ErrorKind>(nv@),
            Err(e) => update_result(root@, payload@) == Err::<Val, ErrorKind>(e),
        },
{
    match payload {
        Value::Obj(fs) => {
            let pv = get_field(fs, "path");
            match pv {
                Some(Value::Str(p)) => {
                    match get_field(fs, "value") {
                        Some(v) => {
                            let segs = cache.parse(p.as_str());
                            match set_path_exec(root, &segs, 0, v.deep_clone()) {
                                Some(nr) => Ok(nr),
                                None => Err(ErrorKind::PathConflict),
                            }
                        },
                        None => Err(ErrorKind::SerializationError),
                    }
                },
                Some(_) => Err(ErrorKind::SerializationError),
                None => Err(ErrorKind::SerializationError),
            }
        },
        _ => Err(ErrorKind::SerializationError),
    }
}

impl Engine {
    /// The value at `path` in the named store, as an owned copy; `Ok(None)`
    /// when the path is absent, the error when the store is missing.
    pub fn select(&mut self, name: &str, path: &str) -> (r: Result<Option<Value>, ErrorKind>)
        requires
            old(self).wf(),
        ensures
            final(self).wf(),
            final(self).stores == old(self).stores,
            final(self).pending == old(self).pending,
            final(self).next_id == old(self).next_id,
            final(self).snapshot_ceiling == old(self).snapshot_ceiling,
            ({
                let ss = old(self).stores@;
                let k = store_find(ss, name@);
                if k == ss.len() {
                    r == Err::<Option<Value>, ErrorKind>(ErrorKind::NotFound)
                } else {
                    match r {
                        Ok(Some(v)) => get_path_from(ss[k].root@, parse_path_spec(path@), 0)
                            == Some(v@),
                        Ok(None) => get_path_from(ss[k].root@, parse_path_spec(path@), 0) is None,
                        Err(_) => false,
                    }
                }
            }),
    {
        let k = find_store(&self.stores, name);
        proof {
            lemma_store_find_props(self.stores@, 0, name@);
        }
        if k == self.stores.len() {
            return Err(ErrorKind::NotFound);
        }
        let segs = self.cache.parse(path);
        match get_path_exec(&self.stores[k].root, &segs, 0) {
            Some(v) => Ok(Some(v.deep_clone())),
            None => Ok(None),
        }
    }

    /// Apply one operation to the named store as one atomic commit and
    /// return a copy of the post-commit root. On any error the stores and
    /// the notification queue are untouched.
    #[verifier::loop_isolation(false)]
    pub fn dispatch(&mut self, name: &str, op: &str, payload: Value) -> (r: Result<
        Value,
        ErrorKind,
    >)
        requires
            old(self).wf(),
        ensures
            final(self).wf(),
            final(self).next_id == old(self).next_id,
            final(self).snapshot_ceiling == old(self).snapshot_ceiling,
            ({
                let ss = old(self).stores@;
                let k = store_find(ss, name@);
                let untouched = final(self).stores == old(self).stores && final(self).pending
                    == old(self).pending;
                if k == ss.len() {
                    r == Err::<Value, ErrorKind>(ErrorKind::NotFound) && untouched
                } else {
                    match dispatch_result(ss[k].root@, op@, v_model(payload)) {
                        Ok(nr) => if ss[k].version < u64::MAX {
                            match r {
                                Ok(rv) => rv@ == nr && committed(
                                    *old(self),
                                    *final(self),
                                    k,
                                    nr,
                                ),
                                Err(_) => false,
                            }
                        } else {
                            r == Err::<Value, ErrorKind>(ErrorKind::QuotaExceeded) && untouched
                        },
                        Err(e) => r == Err::<Value, ErrorKind>(e) && untouched,
                    }
                }
            }),
    {
        proof {
            reveal_strlit("SET");
            reveal_strlit("MERGE");
            reveal_strlit("UPDATE");
            reveal_strlit("BATCH");
        }
        let k = find_store(&self.stores, name);
        proof {
            lemma_store_find_props(self.stores@, 0, name@);
        }
        if k == self.stores.len() {
            return Err(ErrorKind::NotFound);
        }
        if str_eq(op, "SET") {
            if self.stores[k].version == u64::MAX {
                return Err(ErrorKind::QuotaExceeded);
            }
            let rv = payload.deep_clone();
            self.commit(k, payload);
            Ok(rv)
        } else if str_eq(op, "MERGE") {
            let new_root: Option<Value> = match &self.stores[k].root {
                Value::Obj(base) => match &payload {
                    Value::Obj(add) => Some(Value::Obj(merge_fields_exec(base, add))),
                    _ => None,
                },
                _ => None,
            };
            match new_root {
                Some(nr) => {
                    if self.stores[k].version == u64::MAX {
                        return Err(ErrorKind::QuotaExceeded);
                    }
                    let rv = nr.deep_clone();
                    self.commit(k, nr);
                    Ok(rv)
                },
                None => Err(ErrorKind::PathConflict),
            }
        } else if str_eq(op, "UPDATE") {
            let nr = match apply_update(&self.stores[k].root, &payload, &mut self.cache) {
                Ok(nr) => nr,
                Err(e) => {
                    return Err(e);
                },
            };
            if self.stores[k].version == u64::MAX {
                return Err(ErrorKind::QuotaExceeded);
            }
            let rv = nr.deep_clone();
            self.commit(k, nr);
            Ok(rv)
        } else if str_eq(op, "BATCH") {
            let items = match &payload {
                Value::Arr(items) => items,
                _ => {
                    return Err(ErrorKind::SerializationError);
                },
            };
            let ghost im = crate::value::arr_model(items@);
            let ghost root0 = self.stores@[k as int].root@;
            let mut cur = self.stores[k].root.deep_clone();
            let mut i: usize = 0;
            while i < items.len()
                invariant
                    i <= items@.len(),
                    im == crate::value::arr_model(items@),
                    im.len() == items@.len(),
                    self.wf(),
                    self.stores == old(self).stores,
                    self.pending == old(self).pending,
                    self.next_id == old(self).next_id,
                    self.snapshot_ceiling == old(self).snapshot_ceiling,
                    k < self.stores@.len(),
                    root0 == self.stores@[k as int].root@,
                    batch_result(root0, im, 0) == batch_result(cur@, im, i as int),
                decreases items@.len() - i,
            {
                proof {
                    assert(im[i as int] == v_model(items@[i as int]));
                }
                match apply_update(&cur, &items[i], &mut self.cache) {
                    Ok(nc) => {
                        cur = nc;
                    },
                    Err(e) => {
                        proof {
                            assert(batch_result(root0, im, 0) == Err::<Val, ErrorKind>(e));
                        }
                        return Err(e);
                    },
                }
                i += 1;
            }
            if self.stores[k].version == u64::MAX {
                return Err(ErrorKind::QuotaExceeded);
            }
            let rv = cur.deep_clone();
            self.commit(k, cur);
            Ok(rv)
        } else {
            Err(ErrorKind::UnknownOp)
        }
    }
}

/// Index of the first subscription with id `id`, or `subs.len()`.
pub fn find_sub(subs: &Vec<Subscription>, id: &str) -> (r: usize)
    ensures
        r as int == sub_find_from(subs@, 0, id@),
{
    let mut i: usize = 0;
    while i < subs.len()
        invariant
            i <= subs@.len(),
            sub_find_from(subs@, 0, id@) == sub_find_from(subs@, i as int, id@),
        decreases subs@.len() - i,
    {
        if str_eq(subs[i].id.as_str(), id) {
            return i;
        }
        i += 1;
    }
    i
}

/// Index of the first snapshot with id `id`, or `snaps.len()`.
pub fn find_snap(snaps: &Vec<Snapshot>, id: &str) -> (r: usize)
    ensures
        r as int == snap_find_from(snaps@, 0, id@),
{
    let mut i: usize = 0;
    while i < snaps.len()
        invariant
            i <= snaps@.len(),
            snap_find_from(snaps@, 0, id@) == snap_find_from(snaps@, i as int, id@),
        decreases snaps@.len() - i,
    {
        if str_eq(snaps[i].id.as_str(), id) {
            return i;
        }
        i += 1;
    }
    i
}

/// The found index is in range and a hit matches.
pub proof fn lemma_snap_find_props(snaps: Seq<Snapshot>, i: int, id: Seq<char>)
    requires
        0 <= i <= snaps.len(),
    ensures
        i <= snap_find_from(snaps, i, id) <= snaps.len(),
        snap_find_from(snaps, i, id) < snaps.len() ==> snaps[snap_find_from(snaps, i, id)].id@
            == id,
    decreases snaps.len() - i,
{
    if i < snaps.len() && snaps[i].id@ != id {
        lemma_snap_find_props(snaps, i + 1, id);
    }
}

/// The found index is in range.
pub proof fn lemma_sub_find_props(subs: Seq<Subscription>, i: int, id: Seq<char>)
    requires
        0 <= i <= subs.len(),
    ensures
        i <= sub_find_from(subs, i, id) <= subs.len(),
    decreases subs.len() - i,
{
    if i < subs.len() && subs[i].id@ != id {
        lemma_sub_find_props(subs, i + 1, id);
    }
}

impl Engine {
    /// Register a subscriber on the named store and hand out its fresh,
    /// engine-unique id.
    pub fn subscribe(&mut self, name: &str) -> (r: Result<String, ErrorKind>)
        requires
            old(self).wf(),
        ensures
            final(self).wf(),
            final(self).pending == old(self).pending,
            final(self).snapshot_ceiling == old(self).snapshot_ceiling,
            final(self).cache == old(self).cache,
            ({
                let ss = old(self).stores@;
                let k = store_find(ss, name@);
                if k == ss.len() {
                    r == Err::<String, ErrorKind>(ErrorKind::NotFound) && *final(self) == *old(
                        self,
                    )
                } else if old(self).next_id == u64::MAX {
                    r == Err::<String, ErrorKind>(ErrorKind::QuotaExceeded) && *final(self)
                        == *old(self)
                } else {
                    &&& match r {
                        Ok(id) => id@ == sub_id_chars(old(self).next_id as nat),
                        Err(_) => false,
                    }
                    &&& final(self).next_id == old(self).next_id + 1
                    &&& final(self).stores@.len() == ss.len()
                    &&& forall|j: int|
                        0 <= j < ss.len() && j != k ==> final(self).stores@[j] == ss[j]
                    &&& ({
                        let st0 = ss[k];
                        let st1 = final(self).stores@[k];
                        &&& st1.name == st0.name
                        &&& st1.root == st0.root
                        &&& st1.version == st0.version
                        &&& st1.snapshots == st0.snapshots
                        &&& st1.subs@.len() == st0.subs@.len() + 1
                        &&& forall|j: int| 0 <= j < st0.subs@.len() ==> st1.subs@[j] == st0.subs@[j]
                        &&& st1.subs@.last().id_num == old(self).next_id
                        &&& st1.subs@.last().id@ == sub_id_chars(old(self).next_id as nat)
                    })
                }
            }),
    {
        let k = find_store(&self.stores, name);
        proof {
            lemma_store_find_props(self.stores@, 0, name@);
        }
        if k == self.stores.len() {
            return Err(ErrorKind::NotFound);
        }
        if self.next_id == u64::MAX {
            return Err(ErrorKind::QuotaExceeded);
        }
        let num = self.next_id;
        let mut id: String = "sub_".to_owned();
        id.append(u64_to_dec(num).as_str());
        let id_out = id.clone();
        self.next_id = num + 1;
        {
            let st = &mut self.stores[k];
            st.subs.push(Subscription { id, id_num: num });
        }
        Ok(id_out)
    }

    /// Drop the identified subscription wherever it is registered; missing
    /// ids are ignored, so the call is idempotent. Every other subscription
    /// stays.
    pub fn unsubscribe(&mut self, id: &str)
        requires
            old(self).wf(),
        ensures
            final(self).wf(),
            final(self).pending == old(self).pending,
            final(self).next_id == old(self).next_id,
            final(self).snapshot_ceiling == old(self).snapshot_ceiling,
            final(self).cache == old(self).cache,
            final(self).stores@.len() == old(self).stores@.len(),
            forall|j: int|
                0 <= j < old(self).stores@.len() ==> {
                    let st0 = #[trigger] old(self).stores@[j];
                    let st1 = final(self).stores@[j];
                    let f = sub_find_from(st0.subs@, 0, id@);
                    &&& st1.name == st0.name
                    &&& st1.root == st0.root
                    &&& st1.version == st0.version
                    &&& st1.snapshots == st0.snapshots
                    &&& st1.subs@ == if f < st0.subs@.len() {
                        st0.subs@.remove(f)
                    } else {
                        st0.subs@
                    }
                },
    {
        let n = self.stores.len();
        let mut j: usize = 0;
        while j < n
            invariant
                j <= n,
                n == self.stores@.len(),
                self.wf(),
                self.pending == old(self).pending,
                self.next_id == old(self).next_id,
                self.snapshot_ceiling == old(self).snapshot_ceiling,
                self.cache == old(self).cache,
                self.stores@.len() == old(self).stores@.len(),
                forall|t: int| j <= t < n ==> self.stores@[t] == old(self).stores@[t],
                forall|t: int|
                    0 <= t < j ==> {
                        let st0 = #[trigger] old(self).stores@[t];
                        let st1 = self.stores@[t];
                        let f = sub_find_from(st0.subs@, 0, id@);
                        &&& st1.name == st0.name
                        &&& st1.root == st0.root
                        &&& st1.version == st0.version
                        &&& st1.snapshots == st0.snapshots
                        &&& st1.subs@ == if f < st0.subs@.len() {
                            st0.subs@.remove(f)
                        } else {
                            st0.subs@
                        }
                    },
            decreases n - j,
        {
            let f = find_sub(&self.stores[j].subs, id);
            proof {
                lemma_sub_find_props(self.stores@[j as int].subs@, 0, id@);
            }
            if f < self.stores[j].subs.len() {
                let st = &mut self.stores[j];
                st.subs.remove(f);
                proof {
                    let st0 = old(self).stores@[j as int];
                    let st1 = self.stores@[j as int];
                    assert forall|a: int, b: int| 0 <= a < b < st1.subs@.len() implies st1.subs@[a].id_num
                        < st1.subs@[b].id_num by {
                        assert(st1.subs@[a] == if a < f {
                            st0.subs@[a]
                        } else {
                            st0.subs@[a + 1]
                        });
                        assert(st1.subs@[b] == if b < f {
                            st0.subs@[b]
                        } else {
                            st0.subs@[b + 1]
                        });
                    }
                }
            }
            j += 1;
        }
    }

    /// Capture the current root of the named store as a new snapshot and
    /// hand out its fresh id. The oldest snapshots are evicted once the
    /// per-store ceiling is exceeded; oldest means first created, since
    /// snapshots are kept in creation order (their ids carry the creation
    /// counter, so this equals timestamp order whenever the host clock is
    /// monotonic).
    #[verifier::loop_isolation(false)]
    pub fn create_snapshot(&mut self, name: &str, now: u64) -> (r: Result<String, ErrorKind>)
        requires
            old(self).wf(),
        ensures
            final(self).wf(),
            final(self).pending == old(self).pending,
            final(self).snapshot_ceiling == old(self).snapshot_ceiling,
            ({
                let ss = old(self).stores@;
                let k = store_find(ss, name@);
                if k == ss.len() {
                    r == Err::<String, ErrorKind>(ErrorKind::NotFound) && *final(self) == *old(
                        self,
                    )
                } else if old(self).next_id == u64::MAX {
                    r == Err::<String, ErrorKind>(ErrorKind::QuotaExceeded) && *final(self)
                        == *old(self)
                } else {
                    let st0 = ss[k];
                    let st1 = final(self).stores@[k];
                    let pushed_len = st0.snapshots@.len() + 1;
                    let ceil = old(self).snapshot_ceiling as int;
                    let dropn: int = if pushed_len > ceil {
                        pushed_len - ceil
                    } else {
                        0
                    };
                    &&& match r {
                        Ok(id) => id@ == snap_id_chars(old(self).next_id as nat),
                        Err(_) => false,
                    }
                    &&& final(self).next_id == old(self).next_id + 1
                    &&& final(self).stores@.len() == ss.len()
                    &&& forall|j: int|
                        0 <= j < ss.len() && j != k ==> final(self).stores@[j] == ss[j]
                    &&& st1.name == st0.name
                    &&& st1.root == st0.root
                    &&& st1.version == st0.version
                    &&& st1.subs == st0.subs
                    &&& st1.snapshots@.len() == pushed_len - dropn
                    &&& forall|j: int|
                        0 <= j < st1.snapshots@.len() - 1 ==> st1.snapshots@[j] == st0.snapshots@[dropn
                            + j]
                    &&& (st1.snapshots@.len() > 0 ==> {
                        let sn = st1.snapshots@.last();
                        &&& sn.id@ == snap_id_chars(old(self).next_id as nat)
                        &&& sn.id_num == old(self).next_id
                        &&& sn.bytes@ == spec_encode(st0.root@)
                        &&& snapshot_decodes(sn)
                        &&& snapshot_value(sn) == st0.root@
                        &&& sn.created_at == now
                        &&& sn.version == st0.version
                    })
                }
            }),
    {
        let k = find_store(&self.stores, name);
        proof {
            lemma_store_find_props(self.stores@, 0, name@);
        }
        if k == self.stores.len() {
            return Err(ErrorKind::NotFound);
        }
        if self.next_id == u64::MAX {
            return Err(ErrorKind::QuotaExceeded);
        }
        let num = self.next_id;
        let mut id: String = "snap_".to_owned();
        id.append(u64_to_dec(num).as_str());
        let id_out = id.clone();
        let bytes = encode_val(&self.stores[k].root);
        proof {
            lemma_round_trip(v_model(old(self).stores@[k as int].root));
        }
        let snap = Snapshot {
            id,
            id_num: num,
            bytes,
            created_at: now,
            version: self.stores[k].version,
        };
        self.next_id = num + 1;
        let ceiling = self.snapshot_ceiling;
        {
            let st = &mut self.stores[k];
            st.snapshots.push(snap);
            if st.snapshots.len() > ceiling {
                let dropn = st.snapshots.len() - ceiling;
                let tail = st.snapshots.split_off(dropn);
                st.snapshots = tail;
            }
        }
        Ok(id_out)
    }

    /// Install the identified snapshot's value as the store's root through
    /// the normal commit path, and return a copy of it.
    pub fn restore_snapshot(&mut self, name: &str, id: &str) -> (r: Result<Value, ErrorKind>)
        requires
            old(self).wf(),
        ensures
            final(self).wf(),
            final(self).next_id == old(self).next_id,
            final(self).snapshot_ceiling == old(self).snapshot_ceiling,
            ({
                let ss = old(self).stores@;
                let k = store_find(ss, name@);
                let untouched = final(self).stores == old(self).stores && final(self).pending
                    == old(self).pending;
                if k == ss.len() {
                    r == Err::<Value, ErrorKind>(ErrorKind::NotFound) && untouched
                } else {
                    let f = snap_find_from(ss[k].snapshots@, 0, id@);
                    if f == ss[k].snapshots@.len() {
                        r == Err::<Value, ErrorKind>(ErrorKind::NotFound) && untouched
                    } else if ss[k].version == u64::MAX {
                        r == Err::<Value, ErrorKind>(ErrorKind::QuotaExceeded) && untouched
                    } else {
                        match r {
                            Ok(rv) => rv@ == snapshot_value(ss[k].snapshots@[f]) && committed(
                                *old(self),
                                *final(self),
                                k,
                                snapshot_value(ss[k].snapshots@[f]),
                            ),
                            Err(_) => false,
                        }
                    }
                }
            }),
    {
        let k = find_store(&self.stores, name);
        proof {
            lemma_store_find_props(self.stores@, 0, name@);
        }
        if k == self.stores.len() {
            return Err(ErrorKind::NotFound);
        }
        let f = find_snap(&self.stores[k].snapshots, id);
        proof {
            lemma_snap_find_props(self.stores@[k as int].snapshots@, 0, id@);
        }
        if f == self.stores[k].snapshots.len() {
            return Err(ErrorKind::NotFound);
        }
        if self.stores[k].version == u64::MAX {
            return Err(ErrorKind::QuotaExceeded);
        }
        let restored = match decode_val(&self.stores[k].snapshots[f].bytes) {
            Some(v) => v,
            None => {
                proof {
                    assert(false);
                }
                vstd::pervasive::unreached()
            },
        };
        let rv = restored.deep_clone();
        self.commit(k, restored);
        Ok(rv)
    }
}

/// A queued batch operation kind.
#[derive(Clone, Copy, Debug, PartialEq, Eq, Structural)]
pub enum OpKind {
    SetOp,
    MergeOp,
    UpdateOp,
}

/// One queued batch operation.
pub struct BatchItem {
    pub kind: OpKind,
    pub path: String,
    pub value: Value,
}

/// A builder that queues operations against one store and submits them as a
/// single atomic commit.
pub struct BatchUpdate {
    pub store: String,
    pub updates: Vec<BatchItem>,
}

/// What one queued operation makes of a root.
pub open spec fn batch_step(root: Val, kind: OpKind, path: Seq<char>, v: Val) -> Result<
    Val,
    ErrorKind,
> {
    match kind {
        OpKind::SetOp => Ok(v),
        OpKind::MergeOp => match root {
            Val::Obj(base) => match v {
                Val::Obj(add) => Ok(Val::Obj(merge_from(base, add, 0))),
                _ => Err(ErrorKind::PathConflict),
            },
            _ => Err(ErrorKind::PathConflict),
        },
        OpKind::UpdateOp => match set_path_from(root, parse_path_spec(path), 0, v) {
            Some(nr) => Ok(nr),
            None => Err(ErrorKind::PathConflict),
        },
    }
}

/// The queued operations applied in order from index `i`; the first failure
/// aborts with its index.
pub open spec fn batch_apply(root: Val, items: Seq<BatchItem>, i: int) -> Result<
    Val,
    (int, ErrorKind),
>
    decreases items.len() - i,
{
    if i < 0 || i >= items.len() {
        Ok(root)
    } else {
        match batch_step(root, items[i].kind, items[i].path@, items[i].value@) {
            Ok(nr) => batch_apply(nr, items, i + 1),
            Err(e) => Err((i, e)),
        }
    }
}

/// The first failing operation of a batch, with its position.
#[derive(Debug)]
pub struct BatchError {
    pub index: usize,
    pub kind: ErrorKind,
}

impl BatchUpdate {
    /// An empty batch bound to a store name.
    pub fn new(store: &str) -> (r: BatchUpdate)
        ensures
            r.store@ == store@,
            r.updates@.len() == 0,
    {
        BatchUpdate { store: store.to_owned(), updates: Vec::new() }
    }

    /// Queue one operation. The kind must be one of `SET`, `MERGE` or
    /// `UPDATE`.
    pub fn add(&mut self, op: &str, path: &str, value: Value) -> (r: Result<(), ErrorKind>)
        ensures
            final(self).store == old(self).store,
            ({
                let known = op@ == "SET"@ || op@ == "MERGE"@ || op@ == "UPDATE"@;
                if known {
                    &&& r is Ok
                    &&& final(self).updates@.len() == old(self).updates@.len() + 1
                    &&& forall|j: int|
                        0 <= j < old(self).updates@.len() ==> final(self).updates@[j] == old(
                            self,
                        ).updates@[j]
                    &&& ({
                        let it = final(self).updates@.last();
                        &&& it.kind == (if op@ == "SET"@ {
                            OpKind::SetOp
                        } else if op@ == "MERGE"@ {
                            OpKind::MergeOp
                        } else {
                            OpKind::UpdateOp
                        })
                        &&& it.path@ == path@
                        &&& it.value@ == v_model(value)
                    })
                } else {
                    r == Err::<(), ErrorKind>(ErrorKind::UnknownOp) && *final(self) == *old(self)
                }
            }),
    {
        proof {
            reveal_strlit("SET");
            reveal_strlit("MERGE");
            reveal_strlit("UPDATE");
        }
        let kind: OpKind = if str_eq(op, "SET") {
            OpKind::SetOp
        } else if str_eq(op, "MERGE") {
            OpKind::MergeOp
        } else if str_eq(op, "UPDATE") {
            OpKind::UpdateOp
        } else {
            return Err(ErrorKind::UnknownOp);
        };
        self.updates.push(BatchItem { kind, path: path.to_owned(), value });
        Ok(())
    }

    /// Submit the queued operations to the engine as one atomic commit: the
    /// store takes all of them in order, or none and the first failure is
    /// reported with its index.
    #[verifier::loop_isolation(false)]
    pub fn execute(&self, engine: &mut Engine) -> (r: Result<Value, BatchError>)
        requires
            old(engine).wf(),
        ensures
            final(engine).wf(),
            final(engine).next_id == old(engine).next_id,
            final(engine).snapshot_ceiling == old(engine).snapshot_ceiling,
            ({
                let ss = old(engine).stores@;
                let k = store_find(ss, self.store@);
                let untouched = final(engine).stores == old(engine).stores
                    && final(engine).pending == old(engine).pending;
                if k == ss.len() {
                    match r {
                        Ok(_) => false,
                        Err(e) => e.kind == ErrorKind::NotFound && untouched,
                    }
                } else {
                    match batch_apply(ss[k].root@, self.updates@, 0) {
                        Ok(nr) => if ss[k].version < u64::MAX {
                            match r {
                                Ok(rv) => rv@ == nr && committed(
                                    *old(engine),
                                    *final(engine),
                                    k,
                                    nr,
                                ),
                                Err(_) => false,
                            }
                        } else {
                            match r {
                                Ok(_) => false,
                                Err(e) => e.kind == ErrorKind::QuotaExceeded && untouched,
                            }
                        },
                        Err((i, e)) => match r {
                            Ok(_) => false,
                            Err(be) => be.index as int == i && be.kind == e && untouched,
                        },
                    }
                }
            }),
    {
        let k = find_store(&engine.stores, self.store.as_str());
        proof {
            lemma_store_find_props(engine.stores@, 0, self.store@);
        }
        if k == engine.stores.len() {
            return Err(BatchError { index: 0, kind: ErrorKind::NotFound });
        }
        let ghost root0 = engine.stores@[k as int].root@;
        let mut cur = engine.stores[k].root.deep_clone();
        let mut i: usize = 0;
        while i < self.updates.len()
            invariant
                i <= self.updates@.len(),
                engine.wf(),
                engine.stores == old(engine).stores,
                engine.pending == old(engine).pending,
                engine.next_id == old(engine).next_id,
                engine.snapshot_ceiling == old(engine).snapshot_ceiling,
                k < engine.stores@.len(),
                root0 == engine.stores@[k as int].root@,
                batch_apply(root0, self.updates@, 0) == batch_apply(cur@, self.updates@, i as int),
            decreases self.updates@.len() - i,
        {
            let item = &self.updates[i];
            let step: Result<Value, ErrorKind> = match item.kind {
                OpKind::SetOp => Ok(item.value.deep_clone()),
                OpKind::MergeOp => {
                    match &cur {
                        Value::Obj(base) => match &item.value {
                            Value::Obj(add) => Ok(Value::Obj(merge_fields_exec(base, add))),
                            _ => Err(ErrorKind::PathConflict),
                        },
                        _ => Err(ErrorKind::PathConflict),
                    }
                },
                OpKind::UpdateOp => {
                    let segs = engine.cache.parse(item.path.as_str());
                    match set_path_exec(&cur, &segs, 0, item.value.deep_clone()) {
                        Some(nr) => Ok(nr),
                        None => Err(ErrorKind::PathConflict),
                    }
                },
            };
            match step {
                Ok(nc) => {
                    cur = nc;
                },
                Err(e) => {
                    return Err(BatchError { index: i, kind: e });
                },
            }
            i += 1;
        }
        if engine.stores[k].version == u64::MAX {
            return Err(BatchError { index: 0, kind: ErrorKind::QuotaExceeded });
        }
        let rv = cur.deep_clone();
        engine.commit(k, cur);
        Ok(rv)
    }
}

/// A summary of what the engine currently holds.
pub struct EngineMetrics {
    pub store_count: usize,
    pub subscriber_count: u64,
    pub snapshot_count: u64,
    pub path_cache_size: usize,
    pub pending_count: usize,
}

/// The subscriptions of the first `i` stores.
pub open spec fn sum_subs(ss: Seq<Store>, i: int) -> int
    decreases i,
{
    if i <= 0 {
        0
    } else {
        sum_subs(ss, i - 1) + ss[i - 1].subs@.len()
    }
}

/// The snapshots of the first `i` stores.
pub open spec fn sum_snaps(ss: Seq<Store>, i: int) -> int
    decreases i,
{
    if i <= 0 {
        0
    } else {
        sum_snaps(ss, i - 1) + ss[i - 1].snapshots@.len()
    }
}

impl Engine {
    /// Counts of what the engine holds; the sums saturate at the counter
    /// maximum.
    pub fn get_metrics(&self) -> (m: EngineMetrics)
        ensures
            m.store_count == self.stores@.len(),
            m.path_cache_size == self.cache.entries@.len(),
            m.pending_count == self.pending@.len(),
            m.subscriber_count as int == if sum_subs(self.stores@, self.stores@.len() as int)
                <= u64::MAX {
                sum_subs(self.stores@, self.stores@.len() as int)
            } else {
                u64::MAX as int
            },
            m.snapshot_count as int == if sum_snaps(self.stores@, self.stores@.len() as int)
                <= u64::MAX {
                sum_snaps(self.stores@, self.stores@.len() as int)
            } else {
                u64::MAX as int
            },
    {
        let mut subs: u64 = 0;
        let mut snaps: u64 = 0;
        let mut i: usize = 0;
        while i < self.stores.len()
            invariant
                i <= self.stores@.len(),
                subs as int == if sum_subs(self.stores@, i as int) <= u64::MAX {
                    sum_subs(self.stores@, i as int)
                } else {
                    u64::MAX as int
                },
                snaps as int == if sum_snaps(self.stores@, i as int) <= u64::MAX {
                    sum_snaps(self.stores@, i as int)
                } else {
                    u64::MAX as int
                },
            decreases self.stores@.len() - i,
        {
            let sl = self.stores[i].subs.len() as u64;
            if subs > u64::MAX - sl {
                subs = u64::MAX;
            } else {
                subs = subs + sl;
            }
            let pl = self.stores[i].snapshots.len() as u64;
            if snaps > u64::MAX - pl {
                snaps = u64::MAX;
            } else {
                snaps = snaps + pl;
            }
            i += 1;
        }
        EngineMetrics {
            store_count: self.stores.len(),
            subscriber_count: subs,
            snapshot_count: snaps,
            path_cache_size: self.cache.len(),
            pending_count: self.pending.len(),
        }
    }

    /// Hand the queued notifications to the host and leave the queue empty:
    /// the host invokes each subscriber's callback with the committed root
    /// the notification carries.
    pub fn take_pending(&mut self) -> (r: Vec<Notification>)
        requires
            old(self).wf(),
        ensures
            final(self).wf(),
            r == old(self).pending,
            final(self).pending@.len() == 0,
            final(self).stores == old(self).stores,
            final(self).next_id == old(self).next_id,
            final(self).cache == old(self).cache,
            final(self).snapshot_ceiling == old(self).snapshot_ceiling,
    {
        let mut taken: Vec<Notification> = Vec::new();
        core::mem::swap(&mut taken, &mut self.pending);
        taken
    }

    /// Trim the path cache and every store's snapshot list to half their
    /// ceilings, dropping the oldest entries first (first created, as the
    /// lists are kept in creation order).
    pub fn cleanup(&mut self)
        requires
            old(self).wf(),
        ensures
            final(self).wf(),
            final(self).pending == old(self).pending,
            final(self).next_id == old(self).next_id,
            final(self).snapshot_ceiling == old(self).snapshot_ceiling,
            final(self).cache.ceiling == old(self).cache.ceiling,
            final(self).cache.entries@.len() <= old(self).cache.ceiling / 2,
            final(self).stores@.len() == old(self).stores@.len(),
            forall|j: int|
                0 <= j < old(self).stores@.len() ==> {
                    let st0 = #[trigger] old(self).stores@[j];
                    let st1 = final(self).stores@[j];
                    let keep = old(self).snapshot_ceiling / 2;
                    let dropn: int = if st0.snapshots@.len() > keep {
                        st0.snapshots@.len() - keep
                    } else {
                        0
                    };
                    &&& st1.name == st0.name
                    &&& st1.root == st0.root
                    &&& st1.version == st0.version
                    &&& st1.subs == st0.subs
                    &&& st1.snapshots@ == st0.snapshots@.skip(dropn)
                },
    {
        let keep_cache = self.cache.ceiling / 2;
        if self.cache.len() > keep_cache {
            let dropn = self.cache.len() - keep_cache;
            let tail = self.cache.entries.split_off(dropn);
            self.cache.entries = tail;
        }
        let keep = self.snapshot_ceiling / 2;
        let n = self.stores.len();
        let mut j: usize = 0;
        while j < n
            invariant
                j <= n,
                n == self.stores@.len(),
                self.wf(),
                self.pending == old(self).pending,
                self.next_id == old(self).next_id,
                self.snapshot_ceiling == old(self).snapshot_ceiling,
                self.cache.ceiling == old(self).cache.ceiling,
                self.cache.entries@.len() <= old(self).cache.ceiling / 2,
                keep == old(self).snapshot_ceiling / 2,
                self.stores@.len() == old(self).stores@.len(),
                forall|t: int| j <= t < n ==> self.stores@[t] == old(self).stores@[t],
                forall|t: int|
                    0 <= t < j ==> {
                        let st0 = #[trigger] old(self).stores@[t];
                        let st1 = self.stores@[t];
                        let dropn: int = if st0.snapshots@.len() > keep {
                            st0.snapshots@.len() - keep
                        } else {
                            0
                        };
                        &&& st1.name == st0.name
                        &&& st1.root == st0.root
                        &&& st1.version == st0.version
                        &&& st1.subs == st0.subs
                        &&& st1.snapshots@ == st0.snapshots@.skip(dropn)
                    },
            decreases n - j,
        {
            let st = &mut self.stores[j];
            if st.snapshots.len() > keep {
                let dropn = st.snapshots.len() - keep;
                let tail = st.snapshots.split_off(dropn);
                st.snapshots = tail;
            }
            proof {
                let st0 = old(self).stores@[j as int];
                let st1 = self.stores@[j as int];
                if st0.snapshots@.len() <= keep {
                    assert(st1.snapshots@ =~= st0.snapshots@.skip(0));
                }
            }
            j += 1;
        }
    }
}

/// A store created with root `v` answers the root query (the empty path)
/// with exactly `v`.
pub proof fn lemma_init_select(v: Val)
    ensures
        get_path_from(v, parse_path_spec(""@), 0) == Some(v),
{
    proof_empty_path();
}

/// The empty path has no segments.
proof fn proof_empty_path()
    ensures
        parse_path_spec(""@) == Seq::<Seq<char>>::empty(),
{
    reveal_strlit("");
}

/// Every commit advances the committed store's version strictly: the
/// version counter of a store is strictly monotonic over any sequence of
/// mutations.
pub proof fn lemma_version_monotonic(pre: Engine, post: Engine, k: int, nr: Val)
    requires
        0 <= k < pre.stores@.len(),
        committed(pre, post, k, nr),
    ensures
        post.stores@[k].version > pre.stores@[k].version,
{
}

/// Every subscriber registered on the committed store is handed exactly one
/// queued notification per commit, carrying the post-commit root and
/// version, and earlier queued notifications stay.
pub proof fn lemma_commit_notifies(pre: Engine, post: Engine, k: int, nr: Val)
    requires
        0 <= k < pre.stores@.len(),
        committed(pre, post, k, nr),
    ensures
        post.pending@.len() == pre.pending@.len() + post.stores@[k].subs@.len(),
        forall|i: int| 0 <= i < pre.pending@.len() ==> post.pending@[i] == pre.pending@[i],
        forall|i: int|
            0 <= i < post.stores@[k].subs@.len() ==> (#[trigger] post.pending@[pre.pending@.len()
                + i]).sub_id@ == post.stores@[k].subs@[i].id@ && post.pending@[pre.pending@.len()
                + i].root@ == nr && post.pending@[pre.pending@.len() + i].version
                == post.stores@[k].version,
{
}

/// No two snapshots of a well-formed store share an id string, so looking
/// one up by the id handed out at creation finds exactly that snapshot.
pub proof fn lemma_snapshot_ids_unique(st: Store, next: u64, i: int, j: int)
    requires
        st.wf(next),
        0 <= i < j < st.snapshots@.len(),
    ensures
        st.snapshots@[i].id@ != st.snapshots@[j].id@,
{
    if st.snapshots@[i].id@ == st.snapshots@[j].id@ {
        lemma_prefixed_dec_injective(
            "snap_"@,
            st.snapshots@[i].id_num as nat,
            st.snapshots@[j].id_num as nat,
        );
    }
}

/// No two subscriptions of a well-formed store share an id string, so
/// unsubscribing by a handed-out id removes exactly that registration.
pub proof fn lemma_subscription_ids_unique(st: Store, next: u64, i: int, j: int)
    requires
        st.wf(next),
        0 <= i < j < st.subs@.len(),
    ensures
        st.subs@[i].id@ != st.subs@[j].id@,
{
    if st.subs@[i].id@ == st.subs@[j].id@ {
        lemma_prefixed_dec_injective(
            "sub_"@,
            st.subs@[i].id_num as nat,
            st.subs@[j].id_num as nat,
        );
    }
}

/// The found index is in range, names before it differ, and a hit matches.
pub proof fn lemma_store_find_props(ss: Seq<Store>, i: int, name: Seq<char>)
    requires
        0 <= i <= ss.len(),
    ensures
        i <= store_find_from(ss, i, name) <= ss.len(),
        store_find_from(ss, i, name) < ss.len() ==> ss[store_find_from(ss, i, name)].name@
            == name,
        forall|j: int| i <= j < store_find_from(ss, i, name) ==> ss[j].name@ != name,
    decreases ss.len() - i,
{
    if i < ss.len() && ss[i].name@ != name {
        lemma_store_find_props(ss, i + 1, name);
    }
}

} // verus!
