//! TXT records: the key-value pairs that describe a service, kept in the
//! order they were added.

use vstd::prelude::*;
use vstd::utf8::encode_utf8;

use crate::protocol::wire::extend_bytes;
use crate::text::string_bytes;
use super::MdnsServiceError;

verus! {

/// Errors that can occur while writing [`TxtRecords`].
#[derive(Clone, Copy, PartialEq, Eq, Structural, PartialOrd, Ord, Debug)]
pub enum TxtRecordError {
    /// A `key=value` entry is longer than 255 bytes.
    EntryTooLong,
}

/// The most TXT records a [`TxtRecords`] can hold.
pub const TXT_RECORDS_CAPACITY: usize = 16;

/// The position of the entry with key `k`, or -1 when there is none.
pub open spec fn key_index(es: Seq<(Seq<char>, Seq<char>)>, k: Seq<char>) -> int
    decreases es.len(),
{
    if es.len() == 0 {
        -1
    } else if es.last().0 == k {
        es.len() - 1
    } else {
        key_index(es.drop_last(), k)
    }
}

/// No two entries share a key.
pub open spec fn keys_distinct(es: Seq<(Seq<char>, Seq<char>)>) -> bool {
    forall|i: int, j: int| 0 <= i < j < es.len() ==> #[trigger] es[i].0 != #[trigger] es[j].0
}

/// The value held for key `k`, if any.
pub open spec fn txt_lookup(es: Seq<(Seq<char>, Seq<char>)>, k: Seq<char>) -> Option<Seq<char>> {
    if key_index(es, k) >= 0 {
        Some(es[key_index(es, k)].1)
    } else {
        None
    }
}

/// The entries once `k` holds `v`: an existing entry keeps its place and
/// takes the new value; a new one goes last.
pub open spec fn txt_insert(es: Seq<(Seq<char>, Seq<char>)>, k: Seq<char>, v: Seq<char>) -> Seq<
    (Seq<char>, Seq<char>),
> {
    if key_index(es, k) >= 0 {
        es.update(key_index(es, k), (k, v))
    } else {
        es.push((k, v))
    }
}

/// The entries once the entry for `k` is removed: the last entry takes its
/// place.
pub open spec fn txt_remove(es: Seq<(Seq<char>, Seq<char>)>, k: Seq<char>) -> Seq<
    (Seq<char>, Seq<char>),
> {
    if key_index(es, k) >= 0 {
        es.update(key_index(es, k), es.last()).drop_last()
    } else {
        es
    }
}

/// The characters of an optional string.
pub open spec fn opt_chars(o: Option<String>) -> Option<Seq<char>> {
    match o {
        Some(s) => Some(s@),
        None => None,
    }
}

/// The bytes of one entry as `serialise` writes it: `key=value`, then a
/// zero byte.
pub open spec fn txt_entry_text(e: (Seq<char>, Seq<char>)) -> Seq<u8> {
    encode_utf8(e.0) + seq![0x3Du8] + encode_utf8(e.1) + seq![0u8]
}

/// The bytes of all entries as `serialise` writes them, in order.
pub open spec fn txt_serialised(es: Seq<(Seq<char>, Seq<char>)>) -> Seq<u8>
    decreases es.len(),
{
    if es.len() == 0 {
        Seq::empty()
    } else {
        txt_serialised(es.drop_last()) + txt_entry_text(es.last())
    }
}

/// The length in bytes of an entry's `key=value` text.
pub open spec fn txt_entry_len(e: (Seq<char>, Seq<char>)) -> int {
    (encode_utf8(e.0).len() + 1 + encode_utf8(e.1).len()) as int
}

/// Every entry's `key=value` text fits in 255 bytes.
pub open spec fn txt_entries_fit(es: Seq<(Seq<char>, Seq<char>)>) -> bool {
    forall|i: int| 0 <= i < es.len() ==> #[trigger] txt_entry_len(es[i]) <= 255
}

/// The wire form of all entries: for each, its length byte and its
/// `key=value` text.
pub open spec fn txt_wire(es: Seq<(Seq<char>, Seq<char>)>) -> Seq<u8>
    decreases es.len(),
{
    if es.len() == 0 {
        Seq::empty()
    } else {
        let e = es.last();
        txt_wire(es.drop_last()) + seq![txt_entry_len(e) as u8] + encode_utf8(e.0) + seq![0x3Du8]
            + encode_utf8(e.1)
    }
}

/// Each entry that fits takes at most 256 bytes of wire form.
pub proof fn lemma_txt_wire_len(es: Seq<(Seq<char>, Seq<char>)>)
    requires
        txt_entries_fit(es),
    ensures
        txt_wire(es).len() <= 256 * es.len(),
    decreases es.len(),
{
    if es.len() > 0 {
        let d = es.drop_last();
        assert(txt_entries_fit(d)) by {
            assert forall|i: int| 0 <= i < d.len() implies #[trigger] txt_entry_len(d[i]) <= 255 by {
                assert(d[i] == es[i]);
            }
        }
        lemma_txt_wire_len(d);
        assert(txt_entry_len(es[es.len() - 1]) <= 255);
    }
}

/// What `key_index` finds: a position holding the key, or -1 when no entry
/// holds it; with distinct keys, no other position holds it.
pub proof fn lemma_key_index(es: Seq<(Seq<char>, Seq<char>)>, k: Seq<char>)
    ensures
        -1 <= key_index(es, k) < es.len(),
        key_index(es, k) >= 0 ==> es[key_index(es, k)].0 == k,
        key_index(es, k) < 0 ==> forall|i: int| 0 <= i < es.len() ==> #[trigger] es[i].0 != k,
        keys_distinct(es) ==> forall|i: int|
            0 <= i < es.len() && i != key_index(es, k) ==> #[trigger] es[i].0 != k,
    decreases es.len(),
{
    if es.len() > 0 {
        let d = es.drop_last();
        lemma_key_index(d, k);
        if key_index(es, k) < 0 {
            assert forall|i: int| 0 <= i < es.len() implies #[trigger] es[i].0 != k by {
                if i < es.len() - 1 {
                    assert(es[i] == d[i]);
                }
            }
        }
        if keys_distinct(es) {
            assert(keys_distinct(d)) by {
                assert forall|a: int, b: int| 0 <= a < b < d.len() implies #[trigger] d[a].0
                    != #[trigger] d[b].0 by {
                    assert(d[a] == es[a] && d[b] == es[b]);
                }
            }
            let n = es.len() - 1;
            assert forall|i: int| 0 <= i < es.len() && i != key_index(es, k) implies #[trigger] es[i].0
                != k by {
                if es.last().0 == k {
                    assert(es[i].0 != es[n].0);
                } else if i < n {
                    assert(es[i] == d[i]);
                }
            }
        }
    }
}

/// When `k` is held, the entry holding it is the only one with that key.
proof fn lemma_key_index_found(es: Seq<(Seq<char>, Seq<char>)>, k: Seq<char>, i: int)
    requires
        keys_distinct(es),
        0 <= i < es.len(),
        es[i].0 == k,
    ensures
        key_index(es, k) == i,
{
    lemma_key_index(es, k);
}

/// Adding an entry keeps the keys distinct and holds at most one entry more.
pub proof fn law_txt_insert_distinct(es: Seq<(Seq<char>, Seq<char>)>, k: Seq<char>, v: Seq<char>)
    requires
        keys_distinct(es),
    ensures
        keys_distinct(txt_insert(es, k, v)),
        txt_insert(es, k, v).len() == es.len() + (if txt_lookup(es, k) is Some {
            0int
        } else {
            1int
        }),
{
    lemma_key_index(es, k);
    let r = txt_insert(es, k, v);
    assert forall|i: int, j: int| 0 <= i < j < r.len() implies #[trigger] r[i].0 != #[trigger] r[j].0 by {
        if key_index(es, k) < 0 {
            if j == es.len() {
                assert(r[i] == es[i]);
            } else {
                assert(r[i] == es[i] && r[j] == es[j]);
            }
        }
    }
}

/// Removing an entry keeps the keys distinct and holds one entry fewer
/// exactly when the key was held.
pub proof fn law_txt_remove_distinct(es: Seq<(Seq<char>, Seq<char>)>, k: Seq<char>)
    requires
        keys_distinct(es),
    ensures
        keys_distinct(txt_remove(es, k)),
        txt_remove(es, k).len() == es.len() - (if txt_lookup(es, k) is Some {
            1int
        } else {
            0int
        }),
{
    lemma_key_index(es, k);
    let idx = key_index(es, k);
    let r = txt_remove(es, k);
    if idx >= 0 {
        let n = es.len() - 1;
        assert forall|i: int, j: int| 0 <= i < j < r.len() implies #[trigger] r[i].0 != #[trigger] r[j].0 by {
            let a = if i == idx { n } else { i };
            let b = if j == idx { n } else { j };
            assert(r[i] == es[a] && r[j] == es[b]);
            assert(a != b);
            if a < b {
                assert(es[a].0 != es[b].0);
            } else {
                assert(es[b].0 != es[a].0);
            }
        }
    }
}

/// After `k` is set to `v`, looking `k` up gives `v`, and every other key
/// keeps its value.
pub proof fn law_txt_lookup_after_insert(
    es: Seq<(Seq<char>, Seq<char>)>,
    k: Seq<char>,
    v: Seq<char>,
    other: Seq<char>,
)
    requires
        keys_distinct(es),
    ensures
        txt_lookup(txt_insert(es, k, v), k) == Some(v),
        other != k ==> txt_lookup(txt_insert(es, k, v), other) == txt_lookup(es, other),
{
    let r = txt_insert(es, k, v);
    law_txt_insert_distinct(es, k, v);
    lemma_key_index(es, k);
    lemma_key_index(es, other);
    lemma_key_index(r, k);
    lemma_key_index(r, other);
    let i = if key_index(es, k) >= 0 { key_index(es, k) } else { es.len() as int };
    assert(r[i].0 == k);
    lemma_key_index_found(r, k, i);
    if other != k {
        if key_index(es, other) >= 0 {
            let j = key_index(es, other);
            assert(r[j] == es[j]);
            lemma_key_index_found(r, other, j);
        } else {
            assert forall|j: int| 0 <= j < r.len() implies #[trigger] r[j].0 != other by {
                if j < es.len() && j != i {
                    assert(r[j] == es[j]);
                }
            }
        }
    }
}

/// After the entry for `k` is removed, `k` is no longer held, and every
/// other key keeps its value.
pub proof fn law_txt_lookup_after_remove(
    es: Seq<(Seq<char>, Seq<char>)>,
    k: Seq<char>,
    other: Seq<char>,
)
    requires
        keys_distinct(es),
    ensures
        txt_lookup(txt_remove(es, k), k) is None,
        other != k ==> txt_lookup(txt_remove(es, k), other) == txt_lookup(es, other),
{
    let r = txt_remove(es, k);
    law_txt_remove_distinct(es, k);
    lemma_key_index(es, k);
    lemma_key_index(es, other);
    lemma_key_index(r, k);
    lemma_key_index(r, other);
    let idx = key_index(es, k);
    if idx >= 0 {
        let n = es.len() - 1;
        assert forall|j: int| 0 <= j < r.len() implies #[trigger] r[j].0 != k by {
            let a = if j == idx { n } else { j };
            assert(r[j] == es[a]);
        }
        if other != k {
            if key_index(es, other) >= 0 {
                let j = key_index(es, other);
                let p = if j == n { idx } else { j };
                assert(r[p] == es[j]);
                lemma_key_index_found(r, other, p);
            } else {
                assert forall|j: int| 0 <= j < r.len() implies #[trigger] r[j].0 != other by {
                    let a = if j == idx { n } else { j };
                    assert(r[j] == es[a]);
                }
            }
        }
    }
}

/// The map that holds the records, in the order they were added.
#[verifier::external_body]
#[derive(PartialEq, Debug)]
pub struct TxtMap {
    inner: heapless::FnvIndexMap<String, String, 16>,
}

/// The entries of a [`TxtMap`], in their order: each key's and value's
/// characters.
pub uninterp spec fn txt_map_entries(m: TxtMap) -> Seq<(Seq<char>, Seq<char>)>;

/// `heapless::FnvIndexMap::new`: a map with no entries.
#[verifier::external_body]
fn txt_map_new() -> (r: TxtMap)
    ensures
        txt_map_entries(r) == Seq::<(Seq<char>, Seq<char>)>::empty(),
{
    TxtMap { inner: heapless::FnvIndexMap::new() }
}

/// `heapless::IndexMap::len`: the number of entries.
#[verifier::external_body]
fn txt_map_len(m: &TxtMap) -> (r: usize)
    ensures
        r == txt_map_entries(*m).len(),
{
    m.inner.len()
}

/// `heapless::IndexMap::is_empty`: whether there are no entries.
#[verifier::external_body]
fn txt_map_is_empty(m: &TxtMap) -> (r: bool)
    ensures
        r == (txt_map_entries(*m).len() == 0),
{
    m.inner.is_empty()
}

/// `heapless::IndexMap::capacity`: the map's fixed capacity, 16.
#[verifier::external_body]
fn txt_map_capacity(m: &TxtMap) -> (r: usize)
    ensures
        r == TXT_RECORDS_CAPACITY,
{
    m.inner.capacity()
}

/// `heapless::IndexMap::insert`: an existing key keeps its place and takes
/// the new value, and the old value is returned; a new key goes last with
/// `Ok(None)` while fewer than 16 entries are held; otherwise the key and
/// value are handed back and the map is unchanged.
#[verifier::external_body]
fn txt_map_insert(m: &mut TxtMap, key: String, value: String) -> (r: Result<
    Option<String>,
    (String, String),
>)
    requires
        keys_distinct(txt_map_entries(*old(m))),
        txt_map_entries(*old(m)).len() <= TXT_RECORDS_CAPACITY,
    ensures
        ({
            let es = txt_map_entries(*old(m));
            &&& r is Ok <==> (txt_lookup(es, key@) is Some || es.len() < TXT_RECORDS_CAPACITY)
            &&& r matches Ok(prev) ==> txt_map_entries(*final(m)) == txt_insert(es, key@, value@)
                && opt_chars(prev) == txt_lookup(es, key@)
            &&& r matches Err(kv) ==> txt_map_entries(*final(m)) == es && kv.0@ == key@ && kv.1@
                == value@
        }),
{
    m.inner.insert(key, value)
}

/// `heapless::IndexMap::remove`: removes the entry for `key`, the last entry
/// taking its place, and returns its value.
#[verifier::external_body]
fn txt_map_remove(m: &mut TxtMap, key: &str) -> (r: Option<String>)
    requires
        keys_distinct(txt_map_entries(*old(m))),
    ensures
        txt_map_entries(*final(m)) == txt_remove(txt_map_entries(*old(m)), key@),
        opt_chars(r) == txt_lookup(txt_map_entries(*old(m)), key@),
{
    m.inner.remove(key)
}

/// `heapless::IndexMap::get`: the value held for `key`, if any.
#[verifier::external_body]
fn txt_map_get<'a>(m: &'a TxtMap, key: &str) -> (r: Option<&'a String>)
    requires
        keys_distinct(txt_map_entries(*m)),
    ensures
        match r {
            Some(s) => txt_lookup(txt_map_entries(*m), key@) == Some(s@),
            None => txt_lookup(txt_map_entries(*m), key@) is None,
        },
{
    m.inner.get(key)
}

/// `heapless::IndexMap::iter`: the entries in order, each key and value
/// copied out.
#[verifier::external_body]
fn txt_map_pairs(m: &TxtMap) -> (r: Vec<(String, String)>)
    ensures
        r@.len() == txt_map_entries(*m).len(),
        forall|i: int|
            0 <= i < r@.len() ==> (#[trigger] r@[i].0@, r@[i].1@) == txt_map_entries(*m)[i],
{
    m.inner.iter().map(|(k, v)| (k.clone(), v.clone())).collect()
}

/// TXT records: key-value pairs that describe a service, at most 16 of
/// them, kept in the order they were added.
#[derive(PartialEq, Debug)]
pub struct TxtRecords {
    records: TxtMap,
}

impl View for TxtRecords {
    type V = Seq<(Seq<char>, Seq<char>)>;

    /// The entries, in order.
    closed spec fn view(&self) -> Seq<(Seq<char>, Seq<char>)> {
        txt_map_entries(self.records)
    }
}

impl Default for TxtRecords {
    fn default() -> (r: Self)
        ensures
            r@ == Seq::<(Seq<char>, Seq<char>)>::empty(),
    {
        Self::new()
    }
}

impl TxtRecords {
    #[verifier::type_invariant]
    spec fn wf(self) -> bool {
        keys_distinct(txt_map_entries(self.records)) && txt_map_entries(self.records).len()
            <= TXT_RECORDS_CAPACITY
    }

    /// Creates an empty set of TXT records.
    pub fn new() -> (r: Self)
        ensures
            r@ == Seq::<(Seq<char>, Seq<char>)>::empty(),
    {
        TxtRecords { records: txt_map_new() }
    }

    /// The number of records.
    pub fn len(&self) -> (r: usize)
        ensures
            r == self@.len(),
            keys_distinct(self@),
            self@.len() <= TXT_RECORDS_CAPACITY,
    {
        proof {
            use_type_invariant(self);
        }
        txt_map_len(&self.records)
    }

    /// Whether there are no records.
    pub fn is_empty(&self) -> (r: bool)
        ensures
            r == (self@.len() == 0),
    {
        txt_map_is_empty(&self.records)
    }

    /// The most records this can hold: 16.
    pub fn capacity(&self) -> (r: usize)
        ensures
            r == TXT_RECORDS_CAPACITY,
    {
        txt_map_capacity(&self.records)
    }

    /// Adds a record, or sets the value of the record with this key.
    ///
    /// An existing record keeps its place and its old value is returned; a
    /// new record goes last and `None` is returned. When 16 records are held
    /// and the key is new, `TxtRecordsFull` is returned and nothing changes.
    pub fn add(&mut self, key: &str, value: &str) -> (r: Result<Option<String>, MdnsServiceError>)
        ensures
            r is Err <==> (txt_lookup(old(self)@, key@) is None && old(self)@.len()
                == TXT_RECORDS_CAPACITY),
            r matches Ok(prev) ==> final(self)@ == txt_insert(old(self)@, key@, value@) && opt_chars(
                prev,
            ) == txt_lookup(old(self)@, key@),
            r matches Err(e) ==> e == MdnsServiceError::TxtRecordsFull && final(self)@ == old(
                self,
            )@,
            keys_distinct(final(self)@),
            final(self)@.len() <= TXT_RECORDS_CAPACITY,
    {
        proof {
            use_type_invariant(&*self);
            lemma_key_index(self@, key@);
            law_txt_insert_distinct(self@, key@, value@);
        }
        let mut records = txt_map_new();
        std::mem::swap(&mut records, &mut self.records);
        let inserted = txt_map_insert(&mut records, key.to_owned(), value.to_owned());
        self.records = records;
        match inserted {
            Ok(prev) => Ok(prev),
            Err(_) => Err(MdnsServiceError::TxtRecordsFull),
        }
    }

    /// Removes the record with this key and returns its value; the last
    /// record takes its place.
    pub fn remove(&mut self, key: &str) -> (r: Option<String>)
        ensures
            final(self)@ == txt_remove(old(self)@, key@),
            opt_chars(r) == txt_lookup(old(self)@, key@),
            keys_distinct(final(self)@),
    {
        proof {
            use_type_invariant(&*self);
            law_txt_remove_distinct(self@, key@);
        }
        let mut records = txt_map_new();
        std::mem::swap(&mut records, &mut self.records);
        let removed = txt_map_remove(&mut records, key);
        self.records = records;
        removed
    }

    /// The value of the record with this key, if any.
    pub fn get(&self, key: &str) -> (r: Option<&String>)
        ensures
            match r {
                Some(s) => txt_lookup(self@, key@) == Some(s@),
                None => txt_lookup(self@, key@) is None,
            },
    {
        proof {
            use_type_invariant(self);
        }
        txt_map_get(&self.records, key)
    }

    /// The records as text: each as `key=value` followed by a zero byte, in
    /// order.
    pub fn serialise(&self) -> (r: Vec<u8>)
        ensures
            r@ == txt_serialised(self@),
    {
        let pairs = txt_map_pairs(&self.records);
        let ghost es = self@;
        let mut out: Vec<u8> = Vec::new();
        let mut i: usize = 0;
        assert(es.take(0) =~= Seq::<(Seq<char>, Seq<char>)>::empty());
        while i < pairs.len()
            invariant
                i <= pairs@.len(),
                pairs@.len() == es.len(),
                forall|j: int| 0 <= j < pairs@.len() ==> (#[trigger] pairs@[j].0@, pairs@[j].1@) == es[j],
                out@ == txt_serialised(es.take(i as int)),
            decreases pairs@.len() - i,
        {
            let e = &pairs[i];
            assert((e.0@, e.1@) == es[i as int]);
            extend_bytes(&mut out, string_bytes(&e.0));
            out.push(0x3D);
            extend_bytes(&mut out, string_bytes(&e.1));
            out.push(0);
            proof {
                let t = es.take(i + 1);
                assert(t.drop_last() =~= es.take(i as int));
                assert(t.last() == es[i as int]);
                assert(out@ =~= txt_serialised(t));
            }
            i = i + 1;
        }
        assert(es.take(es.len() as int) =~= es);
        out
    }

    /// The records in wire format: each as its length byte followed by
    /// `key=value`, in order.
    ///
    /// Fails with `EntryTooLong` when a record's `key=value` text is longer
    /// than 255 bytes.
    pub fn to_wire_format(&self) -> (r: Result<Vec<u8>, TxtRecordError>)
        ensures
            r is Ok <==> txt_entries_fit(self@),
            r matches Ok(b) ==> b@ == txt_wire(self@) && b@.len() <= 256 * TXT_RECORDS_CAPACITY,
            r matches Err(e) ==> e == TxtRecordError::EntryTooLong,
    {
        proof {
            use_type_invariant(self);
        }
        let pairs = txt_map_pairs(&self.records);
        let ghost es = self@;
        let mut out: Vec<u8> = Vec::new();
        let mut i: usize = 0;
        assert(es.take(0) =~= Seq::<(Seq<char>, Seq<char>)>::empty());
        while i < pairs.len()
            invariant
                i <= pairs@.len(),
                pairs@.len() == es.len(),
                forall|j: int| 0 <= j < pairs@.len() ==> (#[trigger] pairs@[j].0@, pairs@[j].1@) == es[j],
                forall|j: int| 0 <= j < i ==> #[trigger] txt_entry_len(es[j]) <= 255,
                es == self@,
                out@ == txt_wire(es.take(i as int)),
            decreases pairs@.len() - i,
        {
            let e = &pairs[i];
            assert((e.0@, e.1@) == es[i as int]);
            let k = string_bytes(&e.0);
            let v = string_bytes(&e.1);
            if k.len() > 254 || v.len() > 254 - k.len() {
                assert(txt_entry_len(es[i as int]) > 255);
                return Err(TxtRecordError::EntryTooLong);
            }
            let kv_len: usize = k.len() + 1 + v.len();
            out.push(kv_len as u8);
            extend_bytes(&mut out, k);
            out.push(0x3D);
            extend_bytes(&mut out, v);
            proof {
                let t = es.take(i + 1);
                assert(t.drop_last() =~= es.take(i as int));
                assert(t.last() == es[i as int]);
                assert(out@ =~= txt_wire(t));
            }
            i = i + 1;
        }
        assert(es.take(es.len() as int) =~= es);
        proof {
            lemma_txt_wire_len(es);
        }
        Ok(out)
    }
}

} // verus!
