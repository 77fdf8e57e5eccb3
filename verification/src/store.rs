//! The content-addressed store: rows keyed by a unique content hash, an
//! idempotent "upsert-touch" write, point lookups, and the retention- and
//! substring-filtered, timestamp-ordered read path.

use vstd::prelude::*;

use vstd::multiset::Multiset;

use crate::pasteboard::{PasteboardContent, PasteboardContentV};
use crate::text::{contains_substring, lower_ascii, spec_contains, spec_lower};

verus! {

/// One persisted clipboard entry.
#[derive(Debug, PartialEq)]
pub struct Model {
    /// Surrogate key, assigned by the store on first insert.
    pub id: i32,
    /// 0 = text, 1 = image, 2 = file.
    pub ty: i32,
    /// Empty for text; a raw path or an encoded path list otherwise.
    pub path: String,
    /// The display/index string.
    pub content: String,
    /// Capture time in epoch seconds, refreshed when the hash recurs.
    pub timestamp: i64,
    /// The content address; unique across all rows.
    pub hash: String,
}

/// The mathematical value of a row.
pub struct ModelV {
    pub id: i32,
    pub ty: i32,
    pub path: Seq<char>,
    pub content: Seq<char>,
    pub timestamp: i64,
    pub hash: Seq<char>,
}

impl View for Model {
    type V = ModelV;

    open spec fn view(&self) -> ModelV {
        ModelV {
            id: self.id,
            ty: self.ty,
            path: self.path@,
            content: self.content@,
            timestamp: self.timestamp,
            hash: self.hash@,
        }
    }
}

impl Clone for Model {
    /// Clones a row; the copy has the same value.
    fn clone(&self) -> (r: Self)
        ensures
            r@ == self@,
    {
        Model {
            id: self.id,
            ty: self.ty,
            path: self.path.clone(),
            content: self.content.clone(),
            timestamp: self.timestamp,
            hash: self.hash.clone(),
        }
    }
}

/// The values of a row sequence.
pub open spec fn views(rows: Seq<Model>) -> Seq<ModelV> {
    rows.map_values(|m: Model| m@)
}

/// A row with this hash exists.
pub open spec fn contains_hash(rows: Seq<ModelV>, h: Seq<char>) -> bool {
    exists|i: int| 0 <= i < rows.len() && rows[i].hash == h
}

/// A row with this id exists.
pub open spec fn contains_id(rows: Seq<ModelV>, id: i32) -> bool {
    exists|i: int| 0 <= i < rows.len() && rows[i].id == id
}

/// The row after a touch of hash `h` at time `ts`: only a matching row's
/// timestamp moves, and only forward.
pub open spec fn spec_touched(m: ModelV, h: Seq<char>, ts: i64) -> ModelV {
    if m.hash == h && m.timestamp < ts {
        ModelV { timestamp: ts, ..m }
    } else {
        m
    }
}

/// All rows after a touch of hash `h` at time `ts`.
pub open spec fn spec_touch(rows: Seq<ModelV>, h: Seq<char>, ts: i64) -> Seq<ModelV> {
    rows.map_values(|m: ModelV| spec_touched(m, h, ts))
}

/// The row a first insert of candidate `c` creates under key `id`.
pub open spec fn spec_new_row(c: PasteboardContentV, id: i32) -> ModelV {
    ModelV {
        id,
        ty: c.content_type.spec_to_i32(),
        path: c.path,
        content: c.text_content,
        timestamp: c.timestamp,
        hash: c.hash,
    }
}

/// The store's rows after persisting candidate `c`: a touch when its hash
/// is present, a fresh row under `next_id` otherwise.
pub open spec fn spec_upsert(rows: Seq<ModelV>, c: PasteboardContentV, next_id: i32) -> Seq<
    ModelV,
> {
    if contains_hash(rows, c.hash) {
        spec_touch(rows, c.hash, c.timestamp)
    } else {
        rows.push(spec_new_row(c, next_id))
    }
}

/// Well-formedness: ids are positive, below the next free id, and unique;
/// hashes are unique.
pub open spec fn wf_rows(rows: Seq<ModelV>, next_id: i32) -> bool {
    &&& next_id >= 1
    &&& forall|i: int| 0 <= i < rows.len() ==> 1 <= (#[trigger] rows[i]).id < next_id
    &&& forall|i: int, j: int|
        0 <= i < j < rows.len() ==> (#[trigger] rows[i]).hash != (#[trigger] rows[j]).hash
    &&& forall|i: int, j: int|
        0 <= i < j < rows.len() ==> (#[trigger] rows[i]).id != (#[trigger] rows[j]).id
}

/// The persistence failure: the id space is exhausted.
#[derive(Debug, Clone, Copy, PartialEq, Eq, Structural)]
pub enum StoreError {
    IdSpaceExhausted,
}

/// The content-addressed table of clipboard entries.
pub struct Store {
    rows: Vec<Model>,
    next_id: i32,
}

/// The mathematical value of the store.
pub struct StoreV {
    pub rows: Seq<ModelV>,
    pub next_id: i32,
}

impl View for Store {
    type V = StoreV;

    closed spec fn view(&self) -> StoreV {
        StoreV { rows: views(self.rows@), next_id: self.next_id }
    }
}

impl Store {
    /// The store's invariant, established by `new` and kept by every
    /// method.
    pub open spec fn wf(&self) -> bool {
        wf_rows(self@.rows, self@.next_id)
    }

    /// An empty store; ids start at 1.
    pub fn new() -> (r: Store)
        ensures
            r.wf(),
            r@.rows == Seq::<ModelV>::empty(),
            r@.next_id == 1,
    {
        let s = Store { rows: Vec::new(), next_id: 1 };
        proof {
            assert(s@.rows =~= Seq::<ModelV>::empty());
        }
        s
    }

    /// The number of rows.
    pub fn len(&self) -> (r: usize)
        ensures
            r == self@.rows.len(),
    {
        self.rows.len()
    }

    fn find_hash(&self, h: &String) -> (r: Option<usize>)
        ensures
            r matches Some(i) ==> 0 <= i < self@.rows.len() && self@.rows[i as int].hash == h@,
            r is None ==> !contains_hash(self@.rows, h@),
    {
        let n = self.rows.len();
        let mut i: usize = 0;
        while i < n
            invariant
                0 <= i <= n,
                n == self@.rows.len(),
                n == self.rows@.len(),
                forall|k: int| 0 <= k < i ==> (#[trigger] self@.rows[k]).hash != h@,
            decreases n - i,
        {
            if self.rows[i].hash == *h {
                return Some(i);
            }
            i = i + 1;
        }
        None
    }

    /// Persists a candidate ("upsert-touch"): a new row under a fresh id
    /// when the hash is unseen, otherwise a timestamp refresh of the one
    /// existing row with that hash — its id, type, path and content stay
    /// untouched, and its timestamp never decreases. Returns the canonical
    /// persisted row. Fails only when the id space is exhausted.
    pub fn add_clipboard_entry(&mut self, item: PasteboardContent) -> (r: Result<
        Model,
        StoreError,
    >)
        requires
            old(self).wf(),
        ensures
            final(self).wf(),
            r is Err <==> (!contains_hash(old(self)@.rows, item@.hash) && old(self)@.next_id
                == i32::MAX),
            r is Err ==> final(self)@ == old(self)@,
            r matches Ok(row) ==> {
                &&& final(self)@.rows == spec_upsert(old(self)@.rows, item@, old(self)@.next_id)
                &&& row@.hash == item@.hash
                &&& (contains_hash(old(self)@.rows, item@.hash) ==> {
                    &&& final(self)@.next_id == old(self)@.next_id
                    &&& forall|i: int|
                        0 <= i < old(self)@.rows.len() && (#[trigger] old(
                            self,
                        )@.rows[i]).hash == item@.hash ==> row@ == spec_touched(
                            old(self)@.rows[i],
                            item@.hash,
                            item@.timestamp,
                        )
                })
                &&& (!contains_hash(old(self)@.rows, item@.hash) ==> {
                    &&& final(self)@.next_id == old(self)@.next_id + 1
                    &&& row@ == spec_new_row(item@, old(self)@.next_id)
                })
            },
    {
        let ghost old_rows = self@.rows;
        match self.find_hash(&item.hash) {
            Some(i) => {
                let new_ts = if item.timestamp > self.rows[i].timestamp {
                    item.timestamp
                } else {
                    self.rows[i].timestamp
                };
                let mut row = self.rows[i].clone();
                row.timestamp = new_ts;
                let out = row.clone();
                self.rows.remove(i);
                self.rows.insert(i, row);
                proof {
                    assert(contains_hash(old_rows, item@.hash));
                    assert forall|k: int| 0 <= k < old_rows.len() implies views(self.rows@)[k]
                        == spec_touch(old_rows, item@.hash, item@.timestamp)[k] by {
                        if k != i {
                            assert(self.rows@[k] == old(self).rows@[k]);
                            if old_rows[k].hash == item@.hash {
                                if k < i {
                                    assert(old_rows[k].hash != old_rows[i as int].hash);
                                } else {
                                    assert(old_rows[i as int].hash != old_rows[k].hash);
                                }
                            }
                        }
                    }
                    assert(views(self.rows@) =~= spec_touch(old_rows, item@.hash, item@.timestamp));
                    assert(final(self)@.rows == spec_upsert(old_rows, item@, old(self)@.next_id));
                    assert forall|k: int|
                        0 <= k < old_rows.len() && (#[trigger] old_rows[k]).hash
                            == item@.hash implies out@ == spec_touched(
                        old_rows[k],
                        item@.hash,
                        item@.timestamp,
                    ) by {
                        if k < i {
                            assert(old_rows[k].hash != old_rows[i as int].hash);
                        } else if k > i {
                            assert(old_rows[i as int].hash != old_rows[k].hash);
                        }
                    }
                }
                Ok(out)
            },
            None => {
                if self.next_id == i32::MAX {
                    return Err(StoreError::IdSpaceExhausted);
                }
                let row = Model {
                    id: self.next_id,
                    ty: item.content_type.to_i32(),
                    path: item.path,
                    content: item.text_content,
                    timestamp: item.timestamp,
                    hash: item.hash,
                };
                let out = row.clone();
                self.rows.push(row);
                self.next_id = self.next_id + 1;
                proof {
                    assert(views(self.rows@) =~= spec_upsert(old_rows, item@, old(self)@.next_id));
                }
                Ok(out)
            },
        }
    }
}

/// The view of an optional query string.
pub open spec fn opt_str_view(text: Option<&str>) -> Option<Seq<char>> {
    match text {
        Some(t) => Some(t@),
        None => None,
    }
}

/// The view of an optional type filter.
pub open spec fn opt_list_view(tl: &Option<Vec<i32>>) -> Option<Seq<i32>> {
    match tl {
        Some(l) => Some(l@),
        None => None,
    }
}

/// A row qualifies for a read when its timestamp beats its own type's
/// retention cutoff, the lowercased content contains the query string as
/// given (the query itself is not folded), and its type is in the filter
/// set when one is given.
pub open spec fn spec_qualifies(
    m: ModelV,
    cutoffs: (i64, i64, i64),
    text: Option<Seq<char>>,
    tl: Option<Seq<i32>>,
) -> bool {
    &&& ((m.ty == 0 && m.timestamp > cutoffs.0) || (m.ty == 1 && m.timestamp > cutoffs.1) || (m.ty
        == 2 && m.timestamp > cutoffs.2))
    &&& (text matches Some(t) ==> spec_contains(spec_lower(m.content), t))
    &&& (tl matches Some(l) ==> l.contains(m.ty))
}

/// The qualifying rows, in store order.
pub open spec fn spec_matching(
    rows: Seq<ModelV>,
    cutoffs: (i64, i64, i64),
    text: Option<Seq<char>>,
    tl: Option<Seq<i32>>,
) -> Seq<ModelV> {
    rows.filter(|m: ModelV| spec_qualifies(m, cutoffs, text, tl))
}

/// Sorted by timestamp, newest first.
pub open spec fn spec_sorted_desc(s: Seq<ModelV>) -> bool {
    forall|a: int, b: int|
        0 <= a < b < s.len() ==> (#[trigger] s[a]).timestamp >= (#[trigger] s[b]).timestamp
}

/// Inserts `m` behind every row whose timestamp is at least as new.
pub open spec fn spec_insert_desc(s: Seq<ModelV>, m: ModelV) -> Seq<ModelV>
    decreases s.len(),
{
    if s.len() == 0 {
        seq![m]
    } else if s.first().timestamp >= m.timestamp {
        seq![s.first()] + spec_insert_desc(s.drop_first(), m)
    } else {
        seq![m] + s
    }
}

/// Insertion sort by timestamp, newest first; stable for equal timestamps.
pub open spec fn spec_sort_desc(s: Seq<ModelV>) -> Seq<ModelV>
    decreases s.len(),
{
    if s.len() == 0 {
        s
    } else {
        spec_insert_desc(spec_sort_desc(s.drop_last()), s.last())
    }
}

/// What a read returns: the qualifying rows sorted newest first, capped at
/// `num` rows when a cap is given.
pub open spec fn spec_query(
    rows: Seq<ModelV>,
    cutoffs: (i64, i64, i64),
    text: Option<Seq<char>>,
    tl: Option<Seq<i32>>,
    num: Option<u64>,
) -> Seq<ModelV> {
    let full = spec_sort_desc(spec_matching(rows, cutoffs, text, tl));
    match num {
        None => full,
        Some(n) => if full.len() <= n {
            full
        } else {
            full.take(n as int)
        },
    }
}

proof fn lemma_insert_desc_at(s: Seq<ModelV>, m: ModelV, pos: int)
    requires
        0 <= pos <= s.len(),
        forall|k: int| 0 <= k < pos ==> (#[trigger] s[k]).timestamp >= m.timestamp,
        pos < s.len() ==> s[pos].timestamp < m.timestamp,
    ensures
        spec_insert_desc(s, m) == s.insert(pos, m),
    decreases s.len(),
{
    if s.len() == 0 {
        assert(spec_insert_desc(s, m) =~= s.insert(pos, m));
    } else if pos == 0 {
        assert(s.first().timestamp < m.timestamp);
        assert(spec_insert_desc(s, m) =~= s.insert(pos, m));
    } else {
        assert(s[0].timestamp >= m.timestamp);
        lemma_insert_desc_at(s.drop_first(), m, pos - 1);
        assert(spec_insert_desc(s, m) =~= s.insert(pos, m));
    }
}

proof fn lemma_insert_desc_len(s: Seq<ModelV>, m: ModelV)
    ensures
        spec_insert_desc(s, m).len() == s.len() + 1,
    decreases s.len(),
{
    if s.len() > 0 && s.first().timestamp >= m.timestamp {
        lemma_insert_desc_len(s.drop_first(), m);
    }
}

proof fn lemma_insert_desc_sorted(s: Seq<ModelV>, m: ModelV)
    requires
        spec_sorted_desc(s),
    ensures
        spec_sorted_desc(spec_insert_desc(s, m)),
        spec_insert_desc(s, m).to_multiset() == s.to_multiset().insert(m),
    decreases s.len(),
{
    broadcast use vstd::seq_lib::group_to_multiset_ensures;

    let out = spec_insert_desc(s, m);
    if s.len() == 0 {
        assert(out =~= Seq::<ModelV>::empty().push(m));
        assert(out.to_multiset() =~= s.to_multiset().insert(m));
    } else if s.first().timestamp >= m.timestamp {
        let rest = s.drop_first();
        assert(spec_sorted_desc(rest)) by {
            assert(forall|a: int, b: int|
                0 <= a < b < rest.len() ==> rest[a] == s[a + 1] && rest[b] == s[b + 1]);
        }
        lemma_insert_desc_sorted(rest, m);
        lemma_insert_desc_len(rest, m);
        let inner = spec_insert_desc(rest, m);
        assert(out =~= seq![s.first()] + inner);
        // the head still dominates: every element of `inner` is either `m`
        // or a later element of `s`
        assert forall|b: int| 1 <= b < out.len() implies out[0].timestamp
            >= (#[trigger] out[b]).timestamp by {
            assert(out[b] == inner[b - 1]);
            lemma_insert_desc_membership(rest, m, b - 1);
        }
        assert(spec_sorted_desc(out)) by {
            assert(forall|a: int, b: int|
                1 <= a < b < out.len() ==> out[a] == inner[a - 1] && out[b] == inner[b - 1]);
        }
        assert(out.to_multiset() =~= s.to_multiset().insert(m)) by {
            assert(out =~= inner.insert(0, s.first()));
            assert(s =~= rest.insert(0, s.first()));
            lemma_multiset_insert_any(inner, 0, s.first());
            lemma_multiset_insert_any(rest, 0, s.first());
        }
    } else {
        assert(out =~= seq![m] + s);
        assert forall|b: int| 1 <= b < out.len() implies out[0].timestamp
            >= (#[trigger] out[b]).timestamp by {
            assert(out[b] == s[b - 1]);
            if b >= 2 {
                assert(s[0].timestamp >= s[b - 1].timestamp);
            }
        }
        assert(spec_sorted_desc(out)) by {
            assert(forall|a: int, b: int|
                1 <= a < b < out.len() ==> out[a] == s[a - 1] && out[b] == s[b - 1]);
        }
        assert(out.to_multiset() =~= s.to_multiset().insert(m)) by {
            assert(out =~= s.insert(0, m));
            lemma_multiset_insert_any(s, 0, m);
        }
    }
}

/// Every element of an insertion result is the inserted row or one of the
/// originals.
proof fn lemma_insert_desc_membership(s: Seq<ModelV>, m: ModelV, k: int)
    requires
        0 <= k < spec_insert_desc(s, m).len(),
    ensures
        spec_insert_desc(s, m)[k] == m || s.contains(spec_insert_desc(s, m)[k]),
    decreases s.len(),
{
    lemma_insert_desc_len(s, m);
    if s.len() == 0 {
    } else if s.first().timestamp >= m.timestamp {
        if k == 0 {
            assert(s.contains(s[0]));
        } else {
            lemma_insert_desc_membership(s.drop_first(), m, k - 1);
            let v = spec_insert_desc(s, m)[k];
            if v != m {
                let j = choose|j: int|
                    0 <= j < s.drop_first().len() && s.drop_first()[j] == v;
                assert(s[j + 1] == v);
            }
        }
    } else {
        if k > 0 {
            assert(s.contains(s[k - 1]));
        }
    }
}

/// `insert` at any position adds one occurrence to the multiset.
proof fn lemma_multiset_insert_any(s: Seq<ModelV>, pos: int, m: ModelV)
    requires
        0 <= pos <= s.len(),
    ensures
        s.insert(pos, m).to_multiset() == s.to_multiset().insert(m),
{
    broadcast use vstd::seq_lib::group_to_multiset_ensures;

    let t = s.insert(pos, m);
    assert(t =~= s.take(pos) + (seq![m] + s.skip(pos)));
    vstd::seq_lib::lemma_multiset_commutative(s.take(pos), seq![m] + s.skip(pos));
    vstd::seq_lib::lemma_multiset_commutative(seq![m], s.skip(pos));
    vstd::seq_lib::lemma_multiset_commutative(s.take(pos), s.skip(pos));
    assert(s.take(pos) + s.skip(pos) =~= s);
    assert(seq![m].to_multiset() =~= Multiset::<ModelV>::empty().insert(m)) by {
        assert(seq![m] =~= Seq::<ModelV>::empty().push(m));
    }
    assert(t.to_multiset() =~= s.to_multiset().insert(m));
}

/// Sorting yields a sorted permutation of its input.
pub proof fn lemma_sort_desc_ensures(s: Seq<ModelV>)
    ensures
        spec_sorted_desc(spec_sort_desc(s)),
        spec_sort_desc(s).to_multiset() == s.to_multiset(),
        spec_sort_desc(s).len() == s.len(),
    decreases s.len(),
{
    broadcast use vstd::seq_lib::group_to_multiset_ensures;

    if s.len() == 0 {
    } else {
        lemma_sort_desc_ensures(s.drop_last());
        lemma_insert_desc_sorted(spec_sort_desc(s.drop_last()), s.last());
        lemma_insert_desc_len(spec_sort_desc(s.drop_last()), s.last());
        assert(s =~= s.drop_last().push(s.last()));
        assert(s.drop_last().push(s.last()).to_multiset() == s.drop_last().to_multiset().insert(
            s.last(),
        ));
    }
}

/// Law: read results are strictly descending whenever no two rows share a
/// timestamp; with ties the order is non-strict.
pub proof fn lemma_sorted_strict(s: Seq<ModelV>)
    requires
        spec_sorted_desc(s),
        forall|i: int, j: int|
            0 <= i < j < s.len() ==> (#[trigger] s[i]).timestamp != (#[trigger] s[j]).timestamp,
    ensures
        forall|i: int, j: int|
            0 <= i < j < s.len() ==> (#[trigger] s[i]).timestamp > (#[trigger] s[j]).timestamp,
{
}

/// A sorted sequence stays sorted under `take`.
pub proof fn lemma_take_sorted(s: Seq<ModelV>, n: int)
    requires
        spec_sorted_desc(s),
        0 <= n <= s.len(),
    ensures
        spec_sorted_desc(s.take(n)),
{
    assert(forall|a: int, b: int| 0 <= a < b < n ==> s.take(n)[a] == s[a] && s.take(n)[b] == s[b]);
}

fn insert_sorted(out: &mut Vec<Model>, row: Model)
    ensures
        views(final(out)@) == spec_insert_desc(views(old(out)@), row@),
{
    let n = out.len();
    let mut pos: usize = 0;
    while pos < n && out[pos].timestamp >= row.timestamp
        invariant
            0 <= pos <= n,
            n == out@.len(),
            out@ == old(out)@,
            forall|k: int| 0 <= k < pos ==> (#[trigger] views(out@)[k]).timestamp >= row@.timestamp,
        decreases n - pos,
    {
        pos = pos + 1;
    }
    proof {
        lemma_insert_desc_at(views(out@), row@, pos as int);
    }
    out.insert(pos, row);
    proof {
        assert(views(out@) =~= views(old(out)@).insert(pos as int, row@));
    }
}

fn contains_i32(l: &Vec<i32>, x: i32) -> (r: bool)
    ensures
        r == l@.contains(x),
{
    let n = l.len();
    let mut i: usize = 0;
    while i < n
        invariant
            0 <= i <= n,
            n == l@.len(),
            forall|k: int| 0 <= k < i ==> l@[k] != x,
        decreases n - i,
    {
        if l[i] == x {
            return true;
        }
        i = i + 1;
    }
    proof {
        if l@.contains(x) {
            let k = choose|k: int| 0 <= k < l@.len() && l@[k] == x;
            assert(false);
        }
    }
    false
}

fn row_qualifies(
    m: &Model,
    cutoffs: (i64, i64, i64),
    text: Option<&str>,
    type_list: &Option<Vec<i32>>,
) -> (r: bool)
    ensures
        r == spec_qualifies(m@, cutoffs, opt_str_view(text), opt_list_view(type_list)),
{
    let retention_ok = (m.ty == 0 && m.timestamp > cutoffs.0) || (m.ty == 1 && m.timestamp
        > cutoffs.1) || (m.ty == 2 && m.timestamp > cutoffs.2);
    if !retention_ok {
        return false;
    }
    match text {
        Some(t) => {
            let low = lower_ascii(m.content.as_str());
            if !contains_substring(low.as_str(), t) {
                return false;
            }
        },
        None => {},
    }
    match type_list {
        Some(l) => contains_i32(l, m.ty),
        None => true,
    }
}

impl Store {
    /// The read path: rows that beat their type's retention cutoff, whose
    /// lowercased content contains `text` when one is given (the query is
    /// matched as supplied, unfolded), and whose type is in `type_list`
    /// when one is given — sorted newest first and capped at `num` rows.
    /// The store itself is not changed by reads.
    pub fn get_clipboards_by_type_list(
        &self,
        text: Option<&str>,
        num: Option<u64>,
        type_list: Option<Vec<i32>>,
        cutoffs: (i64, i64, i64),
    ) -> (r: Vec<Model>)
        ensures
            views(r@) == spec_query(
                self@.rows,
                cutoffs,
                opt_str_view(text),
                opt_list_view(&type_list),
                num,
            ),
            spec_sorted_desc(views(r@)),
    {
        let ghost tview = opt_str_view(text);
        let ghost lview = opt_list_view(&type_list);
        let ghost q = |m: ModelV| spec_qualifies(m, cutoffs, tview, lview);
        let ghost rv = views(self.rows@);
        let n = self.rows.len();
        let mut out: Vec<Model> = Vec::new();
        proof {
            reveal(Seq::filter);
            assert(rv.take(0) =~= Seq::<ModelV>::empty());
            assert(views(out@) =~= spec_sort_desc(rv.take(0).filter(q)));
        }
        let mut i: usize = 0;
        while i < n
            invariant
                0 <= i <= n,
                n == self.rows@.len(),
                rv == views(self.rows@),
                tview == opt_str_view(text),
                lview == opt_list_view(&type_list),
                q == (|m: ModelV| spec_qualifies(m, cutoffs, tview, lview)),
                views(out@) == spec_sort_desc(rv.take(i as int).filter(q)),
            decreases n - i,
        {
            let keep = row_qualifies(&self.rows[i], cutoffs, text, &type_list);
            proof {
                reveal(Seq::filter);
                assert(rv.take(i + 1).drop_last() =~= rv.take(i as int));
                assert(rv.take(i + 1).last() == rv[i as int]);
                if !keep {
                    assert(rv.take(i + 1).filter(q) == rv.take(i as int).filter(q));
                }
            }
            if keep {
                insert_sorted(&mut out, self.rows[i].clone());
                proof {
                    let fprev = rv.take(i as int).filter(q);
                    let fnow = rv.take(i + 1).filter(q);
                    assert(fnow == fprev.push(rv[i as int]));
                    assert(fnow.drop_last() =~= fprev);
                    assert(spec_sort_desc(fnow) == spec_insert_desc(
                        spec_sort_desc(fprev),
                        rv[i as int],
                    ));
                }
            }
            i = i + 1;
        }
        proof {
            assert(rv.take(n as int) =~= rv);
            lemma_sort_desc_ensures(spec_matching(rv, cutoffs, tview, lview));
        }
        match num {
            Some(cap) => {
                if (out.len() as u64) > cap {
                    let keep_len = cap as usize;
                    out.truncate(keep_len);
                    proof {
                        lemma_take_sorted(
                            spec_sort_desc(spec_matching(rv, cutoffs, tview, lview)),
                            cap as int,
                        );
                        assert(views(out@) =~= spec_sort_desc(
                            spec_matching(rv, cutoffs, tview, lview),
                        ).take(cap as int));
                    }
                }
            },
            None => {},
        }
        out
    }

    /// Rows whose id is in `id_list`, newest first; an absent or empty
    /// list yields no rows. Timestamps and retention play no part: a row
    /// outside every retention window is still returned here.
    pub fn get_entries_by_id_list(&self, id_list: Option<Vec<i32>>) -> (r: Vec<Model>)
        ensures
            views(r@) == (match id_list {
                Some(ids) => if ids@.len() > 0 {
                    spec_id_query(self@.rows, ids@)
                } else {
                    Seq::<ModelV>::empty()
                },
                None => Seq::<ModelV>::empty(),
            }),
            spec_sorted_desc(views(r@)),
    {
        let ids = match id_list {
            Some(ids) => {
                if ids.len() == 0 {
                    let r: Vec<Model> = Vec::new();
                    proof {
                        assert(views(r@) =~= Seq::<ModelV>::empty());
                    }
                    return r;
                }
                ids
            },
            None => {
                let r: Vec<Model> = Vec::new();
                proof {
                    assert(views(r@) =~= Seq::<ModelV>::empty());
                }
                return r;
            },
        };
        let ghost q = |m: ModelV| ids@.contains(m.id);
        let ghost rv = views(self.rows@);
        let n = self.rows.len();
        let mut out: Vec<Model> = Vec::new();
        proof {
            reveal(Seq::filter);
            assert(rv.take(0) =~= Seq::<ModelV>::empty());
            assert(views(out@) =~= spec_sort_desc(rv.take(0).filter(q)));
        }
        let mut i: usize = 0;
        while i < n
            invariant
                0 <= i <= n,
                n == self.rows@.len(),
                rv == views(self.rows@),
                q == (|m: ModelV| ids@.contains(m.id)),
                views(out@) == spec_sort_desc(rv.take(i as int).filter(q)),
            decreases n - i,
        {
            let keep = contains_i32(&ids, self.rows[i].id);
            proof {
                reveal(Seq::filter);
                assert(rv.take(i + 1).drop_last() =~= rv.take(i as int));
                assert(rv.take(i + 1).last() == rv[i as int]);
            }
            if keep {
                insert_sorted(&mut out, self.rows[i].clone());
                proof {
                    let fprev = rv.take(i as int).filter(q);
                    let fnow = rv.take(i + 1).filter(q);
                    assert(fnow == fprev.push(rv[i as int]));
                    assert(fnow.drop_last() =~= fprev);
                    assert(spec_sort_desc(fnow) == spec_insert_desc(
                        spec_sort_desc(fprev),
                        rv[i as int],
                    ));
                }
            }
            i = i + 1;
        }
        proof {
            assert(rv.take(n as int) =~= rv);
            lemma_sort_desc_ensures(rv.filter(q));
        }
        out
    }
}

/// Rows with ids in `ids`, newest first.
pub open spec fn spec_id_query(rows: Seq<ModelV>, ids: Seq<i32>) -> Seq<ModelV> {
    spec_sort_desc(rows.filter(|m: ModelV| ids.contains(m.id)))
}

/// Rows newer than `ts`, newest first.
pub open spec fn spec_ts_query(rows: Seq<ModelV>, ts: i64) -> Seq<ModelV> {
    spec_sort_desc(rows.filter(|m: ModelV| m.timestamp > ts))
}

impl Store {
    /// Rows captured strictly after `timestamp`, newest first.
    pub fn get_entries_by_gt_timestamp(&self, timestamp: i64) -> (r: Vec<Model>)
        ensures
            views(r@) == spec_ts_query(self@.rows, timestamp),
            spec_sorted_desc(views(r@)),
    {
        let ghost q = |m: ModelV| m.timestamp > timestamp;
        let ghost rv = views(self.rows@);
        let n = self.rows.len();
        let mut out: Vec<Model> = Vec::new();
        proof {
            reveal(Seq::filter);
            assert(rv.take(0) =~= Seq::<ModelV>::empty());
            assert(views(out@) =~= spec_sort_desc(rv.take(0).filter(q)));
        }
        let mut i: usize = 0;
        while i < n
            invariant
                0 <= i <= n,
                n == self.rows@.len(),
                rv == views(self.rows@),
                q == (|m: ModelV| m.timestamp > timestamp),
                views(out@) == spec_sort_desc(rv.take(i as int).filter(q)),
            decreases n - i,
        {
            proof {
                reveal(Seq::filter);
                assert(rv.take(i + 1).drop_last() =~= rv.take(i as int));
                assert(rv.take(i + 1).last() == rv[i as int]);
            }
            if self.rows[i].timestamp > timestamp {
                insert_sorted(&mut out, self.rows[i].clone());
                proof {
                    let fprev = rv.take(i as int).filter(q);
                    let fnow = rv.take(i + 1).filter(q);
                    assert(fnow == fprev.push(rv[i as int]));
                    assert(fnow.drop_last() =~= fprev);
                    assert(spec_sort_desc(fnow) == spec_insert_desc(
                        spec_sort_desc(fprev),
                        rv[i as int],
                    ));
                }
            }
            i = i + 1;
        }
        proof {
            assert(rv.take(n as int) =~= rv);
            lemma_sort_desc_ensures(rv.filter(q));
        }
        out
    }

    /// The point-deletion primitive (never used by the capture/query
    /// flow): removes the row with the given id, if present.
    pub fn delete_clipboard_entry(&mut self, id: i32) -> (deleted: bool)
        requires
            old(self).wf(),
        ensures
            final(self).wf(),
            final(self)@.next_id == old(self)@.next_id,
            !contains_id(old(self)@.rows, id) ==> !deleted && final(self)@ == old(self)@,
            contains_id(old(self)@.rows, id) ==> deleted && exists|i: int|
                0 <= i < old(self)@.rows.len() && (#[trigger] old(self)@.rows[i]).id == id
                    && final(self)@.rows == old(self)@.rows.remove(i),
    {
        let ghost old_rows = self@.rows;
        let n = self.rows.len();
        let mut i: usize = 0;
        while i < n
            invariant
                0 <= i <= n,
                n == self.rows@.len(),
                old_rows == views(self.rows@),
                old_rows == old(self)@.rows,
                self@.next_id == old(self)@.next_id,
                wf_rows(old_rows, self@.next_id),
                forall|k: int| 0 <= k < i ==> (#[trigger] old_rows[k]).id != id,
            decreases n - i,
        {
            if self.rows[i].id == id {
                let ghost orc = self.rows@;
                proof {
                    assert(old_rows[i as int] == orc[i as int]@);
                    assert(old_rows[i as int].id == id);
                    assert(contains_id(old_rows, id));
                }
                self.rows.remove(i);
                proof {
                    orc.remove_ensures(i as int);
                    old_rows.remove_ensures(i as int);
                    let rr = old_rows.remove(i as int);
                    assert(self.rows@ == orc.remove(i as int));
                    assert forall|k: int| 0 <= k < views(self.rows@).len() implies views(
                        self.rows@,
                    )[k] == rr[k] by {
                        if k < i {
                            assert(orc.remove(i as int)[k] == orc[k]);
                        } else {
                            assert(orc.remove(i as int)[k] == orc[k + 1]);
                        }
                    }
                    assert(views(self.rows@) =~= rr);
                    assert forall|k: int| 0 <= k < rr.len() implies 1 <= (#[trigger] rr[k]).id
                        < self@.next_id by {
                        if k >= i {
                            assert(rr[k] == old_rows[k + 1]);
                        }
                    }
                    assert forall|a: int, b: int| 0 <= a < b < rr.len() implies (#[trigger] rr[a]).hash
                        != (#[trigger] rr[b]).hash by {
                        let a0: int = if a < i { a } else { a + 1 };
                        let b0: int = if b < i { b } else { b + 1 };
                        assert(rr[a] == old_rows[a0] && rr[b] == old_rows[b0]);
                        assert(old_rows[a0].hash != old_rows[b0].hash);
                    }
                    assert forall|a: int, b: int| 0 <= a < b < rr.len() implies (#[trigger] rr[a]).id
                        != (#[trigger] rr[b]).id by {
                        let a0: int = if a < i { a } else { a + 1 };
                        let b0: int = if b < i { b } else { b + 1 };
                        assert(rr[a] == old_rows[a0] && rr[b] == old_rows[b0]);
                        assert(old_rows[a0].id != old_rows[b0].id);
                    }
                    assert(contains_id(old_rows, id));
                    assert(0 <= (i as int) < old_rows.len() && old_rows[i as int].id == id
                        && views(self.rows@) == old_rows.remove(i as int));
                    assert(exists|j: int|
                        0 <= j < old_rows.len() && (#[trigger] old_rows[j]).id == id && views(
                            self.rows@,
                        ) == old_rows.remove(j));
                }
                return true;
            }
            i = i + 1;
        }
        proof {
            if contains_id(old_rows, id) {
                let k = choose|k: int| 0 <= k < old_rows.len() && old_rows[k].id == id;
                assert(false);
            }
            assert(self@.rows == old(self)@.rows);
            assert(self@.next_id == old(self)@.next_id);
            assert(self@ == old(self)@);
        }
        false
    }
}

/// Law: persisting the same content twice yields exactly one row. After a
/// first insert of `c1` and a repeat `c2` with the same hash and a capture
/// time no older, the store has grown by a single row, that row carries
/// the id assigned at first insertion and the repeat's timestamp, its
/// type, path and content are the first insert's, and every other row is
/// untouched.
pub proof fn lemma_upsert_idempotent(
    rows: Seq<ModelV>,
    c1: PasteboardContentV,
    c2: PasteboardContentV,
    nid1: i32,
    nid2: i32,
)
    requires
        !contains_hash(rows, c1.hash),
        c2.hash == c1.hash,
        c1.timestamp <= c2.timestamp,
    ensures
        ({
            let r1 = spec_upsert(rows, c1, nid1);
            let r2 = spec_upsert(r1, c2, nid2);
            &&& r2.len() == rows.len() + 1
            &&& r2[rows.len() as int].id == nid1
            &&& r2[rows.len() as int].timestamp == c2.timestamp
            &&& r2[rows.len() as int].ty == c1.content_type.spec_to_i32()
            &&& r2[rows.len() as int].path == c1.path
            &&& r2[rows.len() as int].content == c1.text_content
            &&& r2[rows.len() as int].hash == c1.hash
            &&& forall|k: int| 0 <= k < rows.len() ==> r2[k] == rows[k]
        }),
{
    let r1 = spec_upsert(rows, c1, nid1);
    assert(r1 == rows.push(spec_new_row(c1, nid1)));
    assert(r1[rows.len() as int].hash == c2.hash);
    assert(contains_hash(r1, c2.hash));
    let r2 = spec_upsert(r1, c2, nid2);
    assert(r2 == spec_touch(r1, c2.hash, c2.timestamp));
    assert forall|k: int| 0 <= k < rows.len() implies r2[k] == rows[k] by {
        assert(r1[k] == rows[k]);
        if rows[k].hash == c1.hash {
            assert(contains_hash(rows, c1.hash));
        }
    }
    assert(r2[rows.len() as int] == spec_touched(
        spec_new_row(c1, nid1),
        c2.hash,
        c2.timestamp,
    ));
}

/// Law: retention filtering hides rows from reads without destroying
/// them. A row that does not qualify (for its type, its timestamp has
/// fallen behind the cutoff, or a filter excludes it) never appears in a
/// read's result.
pub proof fn lemma_query_excludes(
    rows: Seq<ModelV>,
    cutoffs: (i64, i64, i64),
    text: Option<Seq<char>>,
    tl: Option<Seq<i32>>,
    num: Option<u64>,
    m: ModelV,
)
    requires
        !spec_qualifies(m, cutoffs, text, tl),
    ensures
        !spec_query(rows, cutoffs, text, tl, num).contains(m),
{
    broadcast use vstd::seq_lib::group_filter_ensures;
    broadcast use vstd::seq_lib::group_to_multiset_ensures;

    let matching = spec_matching(rows, cutoffs, text, tl);
    let full = spec_sort_desc(matching);
    let r = spec_query(rows, cutoffs, text, tl, num);
    lemma_sort_desc_ensures(matching);
    if r.contains(m) {
        let k = choose|k: int| 0 <= k < r.len() && r[k] == m;
        assert(full.contains(m)) by {
            match num {
                None => {},
                Some(n) => {
                    if full.len() > n {
                        assert(r[k] == full[k]);
                    }
                },
            }
        }
        assert(full.to_multiset().count(m) > 0);
        assert(matching.contains(m));
        let j = choose|j: int| 0 <= j < matching.len() && matching[j] == m;
        assert(spec_qualifies(matching[j], cutoffs, text, tl));
        assert(false);
    }
}

/// Law: a stored row is always reachable by id, whatever its age. Point
/// lookup by id ignores retention, so a row hidden from `list`/`search`
/// by its cutoff is still returned here.
pub proof fn lemma_id_query_retains(rows: Seq<ModelV>, ids: Seq<i32>, m: ModelV)
    requires
        rows.contains(m),
        ids.contains(m.id),
    ensures
        spec_id_query(rows, ids).contains(m),
{
    broadcast use vstd::seq_lib::group_filter_ensures;
    broadcast use vstd::seq_lib::group_to_multiset_ensures;

    let q = |x: ModelV| ids.contains(x.id);
    let matching = rows.filter(q);
    let i = choose|i: int| 0 <= i < rows.len() && rows[i] == m;
    assert(q(rows[i]));
    assert(matching.contains(rows[i]));
    lemma_sort_desc_ensures(matching);
    assert(matching.to_multiset().count(m) > 0);
    assert(spec_id_query(rows, ids).contains(m));
}

} // verus!

