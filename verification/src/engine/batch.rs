//! Import batches: one scan creates one batch. The batch list is kept newest
//! first; ids are made from a clock reading and an in-process sequence
//! number.
use vstd::prelude::*;
use crate::engine::paths::{file_name_on, name_on, Platform};
use crate::engine::indexer::writer::hex_digit;
use crate::text::{decimal, push_char, push_decimal, push_str};

verus! {

broadcast use vstd::seq_lib::group_to_multiset_ensures;

/// Storage key holding the batch list.
pub const STORE_KEY: &'static str = "batches";

/// A single import batch.
pub struct BatchInfo {
    pub id: String,
    pub name: String,
    pub path: String,
    /// Creation time in Unix milliseconds.
    pub created_at: u64,
}

// ---------------------------------------------------------------------------
// The list, newest first
// ---------------------------------------------------------------------------

/// The list is ordered newest first.
pub open spec fn newest_first(s: Seq<BatchInfo>) -> bool {
    forall|i: int, j: int| 0 <= i < j < s.len() ==> s[i].created_at >= s[j].created_at
}

/// Where a batch created at `t` goes in a newest-first list: after every
/// batch at least as new.
pub open spec fn insert_pos(s: Seq<BatchInfo>, t: u64) -> int
    decreases s.len(),
{
    if s.len() == 0 {
        0
    } else if s[0].created_at < t {
        0
    } else {
        1 + insert_pos(s.drop_first(), t)
    }
}

/// `s` sorted newest first, batches created at the same time kept in their
/// order in `s` (a stable sort).
pub open spec fn sort_newest_first(s: Seq<BatchInfo>) -> Seq<BatchInfo>
    decreases s.len(),
{
    if s.len() == 0 {
        Seq::empty()
    } else {
        let p = sort_newest_first(s.drop_last());
        p.insert(insert_pos(p, s.last().created_at), s.last())
    }
}

proof fn lemma_insert_pos(s: Seq<BatchInfo>, t: u64)
    ensures
        0 <= insert_pos(s, t) <= s.len(),
        forall|i: int| 0 <= i < insert_pos(s, t) ==> s[i].created_at >= t,
        insert_pos(s, t) < s.len() ==> s[insert_pos(s, t)].created_at < t,
    decreases s.len(),
{
    if s.len() > 0 && s[0].created_at >= t {
        let d = s.drop_first();
        lemma_insert_pos(d, t);
        assert forall|i: int| 0 <= i < insert_pos(s, t) implies s[i].created_at >= t by {
            if i > 0 {
                assert(s[i] == d[i - 1]);
            }
        }
        if insert_pos(s, t) < s.len() {
            assert(s[insert_pos(s, t)] == d[insert_pos(d, t)]);
        }
    }
}

/// Inserting at `insert_pos` keeps a newest-first list newest first.
proof fn lemma_insert_keeps_order(p: Seq<BatchInfo>, x: BatchInfo)
    requires
        newest_first(p),
    ensures
        newest_first(p.insert(insert_pos(p, x.created_at), x)),
{
    lemma_insert_pos(p, x.created_at);
    let k = insert_pos(p, x.created_at);
    let q = p.insert(k, x);
    assert forall|i: int, j: int| 0 <= i < j < q.len() implies q[i].created_at
        >= q[j].created_at by {
        if j < k {
            assert(q[i] == p[i] && q[j] == p[j]);
        } else if j == k {
            assert(q[i] == p[i]);
        } else if i < k {
            assert(q[i] == p[i] && q[j] == p[j - 1]);
        } else if i == k {
            assert(q[j] == p[j - 1]);
            assert(p[k].created_at < x.created_at);
            if j - 1 > k {
                assert(p[k].created_at >= p[j - 1].created_at);
            }
        } else {
            assert(q[i] == p[i - 1] && q[j] == p[j - 1]);
        }
    }
}

/// The multiset of a sequence after an insertion.
proof fn lemma_insert_multiset(p: Seq<BatchInfo>, k: int, x: BatchInfo)
    requires
        0 <= k <= p.len(),
    ensures
        p.insert(k, x).to_multiset() =~= p.to_multiset().insert(x),
{
    let q = p.insert(k, x);
    assert(q.remove(k) =~= p);
    assert(q[k] == x);
    assert(q.to_multiset().count(x) > 0) by {
        assert(q.contains(x));
    }
}

/// Sorting yields a newest-first list of the same batches.
pub proof fn lemma_sort_newest_first(s: Seq<BatchInfo>)
    ensures
        newest_first(sort_newest_first(s)),
        sort_newest_first(s).to_multiset() =~= s.to_multiset(),
        sort_newest_first(s).len() == s.len(),
    decreases s.len(),
{
    if s.len() > 0 {
        let d = s.drop_last();
        lemma_sort_newest_first(d);
        let p = sort_newest_first(d);
        lemma_insert_keeps_order(p, s.last());
        lemma_insert_pos(p, s.last().created_at);
        lemma_insert_multiset(p, insert_pos(p, s.last().created_at), s.last());
        assert(d.push(s.last()) =~= s);
    }
}

/// The stored list, or an empty one when nothing was stored yet.
pub fn load_all(stored: Option<Vec<BatchInfo>>) -> (r: Vec<BatchInfo>)
    ensures
        r@ == match stored {
            Some(v) => v@,
            None => Seq::<BatchInfo>::empty(),
        },
{
    match stored {
        Some(v) => v,
        None => Vec::new(),
    }
}

/// Index of the first batch with id `id`.
pub open spec fn first_with_id(s: Seq<BatchInfo>, id: Seq<char>) -> Option<int>
    decreases s.len(),
{
    if s.len() == 0 {
        None
    } else if s[0].id@ == id {
        Some(0)
    } else {
        match first_with_id(s.drop_first(), id) {
            Some(k) => Some(k + 1),
            None => None,
        }
    }
}

proof fn lemma_first_with_id(s: Seq<BatchInfo>, id: Seq<char>)
    ensures
        first_with_id(s, id) matches Some(k) ==> 0 <= k < s.len() && s[k].id@ == id && forall|
            q: int,
        | 0 <= q < k ==> s[q].id@ != id,
        first_with_id(s, id) is None ==> forall|q: int| 0 <= q < s.len() ==> s[q].id@ != id,
    decreases s.len(),
{
    if s.len() > 0 && s[0].id@ != id {
        let d = s.drop_first();
        lemma_first_with_id(d, id);
        assert forall|q: int| 1 <= q < s.len() implies s[q] == d[q - 1] by {}
    }
}

/// The first batch of `list` with id `id`.
#[verifier::loop_isolation(false)]
pub fn get(list: Vec<BatchInfo>, id: &str) -> (r: Option<BatchInfo>)
    ensures
        r == match first_with_id(list@, id@) {
            Some(k) => Some(list@[k]),
            None => None,
        },
{
    let key = id.to_owned();
    let mut list = list;
    let ghost orig = list@;
    proof {
        lemma_first_with_id(orig, id@);
    }
    let mut i: usize = 0;
    while i < list.len()
        invariant
            list@ == orig,
            key@ == id@,
            i <= list.len(),
            forall|q: int| 0 <= q < i ==> orig[q].id@ != id@,
        decreases list.len() - i,
    {
        if list[i].id.eq(&key) {
            proof {
                lemma_first_with_id(orig, id@);
                match first_with_id(orig, id@) {
                    Some(k) => {
                        if k > i {
                            assert(orig[i as int].id@ != id@);
                        }
                    },
                    None => {
                        assert(orig[i as int].id@ != id@);
                    },
                }
            }
            return Some(list.swap_remove(i));
        }
        i = i + 1;
    }
    None
}

/// The list with `batch` added, sorted newest first (batches created at
/// the same time keep their order, the new one after the old ones).
pub fn add(list: Vec<BatchInfo>, batch: BatchInfo) -> (r: Vec<BatchInfo>)
    ensures
        r@ == sort_newest_first(list@.push(batch)),
{
    let mut items = list;
    items.push(batch);
    let ghost all = items@;
    let total = items.len();
    assert(all.len() == total);
    let mut out: Vec<BatchInfo> = Vec::new();
    let mut n: usize = 0;
    while items.len() > 0
        invariant
            n + items.len() == all.len(),
            all.len() <= usize::MAX,
            items@ == all.skip(n as int),
            out@ == sort_newest_first(all.take(n as int)),
        decreases items.len(),
    {
        let x = items.remove(0);
        let ghost p = out@;
        let mut k: usize = 0;
        proof {
            assert(p.skip(0) =~= p);
        }
        while k < out.len() && out[k].created_at >= x.created_at
            invariant
                out@ == p,
                k <= out.len(),
                insert_pos(p, x.created_at) == k + insert_pos(p.skip(k as int), x.created_at),
            decreases out.len() - k,
        {
            proof {
                assert(p.skip(k as int).drop_first() =~= p.skip(k + 1));
            }
            k = k + 1;
        }
        proof {
            assert(all.take(n + 1).drop_last() =~= all.take(n as int));
            assert(all.take(n + 1).last() == x);
            if k < out.len() {
                assert(p.skip(k as int)[0] == p[k as int]);
            }
            assert(insert_pos(p, x.created_at) == k);
        }
        out.insert(k, x);
        n = n + 1;
        proof {
            assert(items@ =~= all.skip(n as int));
        }
    }
    proof {
        assert(all.take(n as int) =~= all);
    }
    out
}

/// The batches of `s` whose id is not `id`, in order.
pub open spec fn without_id(s: Seq<BatchInfo>, id: Seq<char>) -> Seq<BatchInfo> {
    s.filter(|b: BatchInfo| b.id@ != id)
}

/// Remove every batch with id `id`; tells whether there was one.
pub fn remove(list: &mut Vec<BatchInfo>, id: &str) -> (removed: bool)
    ensures
        final(list)@ == without_id(old(list)@, id@),
        removed == exists|i: int| 0 <= i < old(list)@.len() && (#[trigger] old(list)@[i]).id@ == id@,
{
    let key = id.to_owned();
    let ghost orig = list@;
    let mut i: usize = 0;
    let ghost mut n: int = 0;
    let mut found = false;
    while i < list.len()
        invariant
            key@ == id@,
            0 <= n <= orig.len(),
            i <= list.len(),
            list@ == without_id(orig.take(n), id@) + orig.skip(n),
            i == without_id(orig.take(n), id@).len(),
            found == exists|q: int| 0 <= q < n && (#[trigger] orig[q]).id@ == id@,
        decreases list.len() - i,
    {
        let ghost before = list@;
        proof {
            assert(orig.take(n + 1) =~= orig.take(n).push(orig[n]));
            orig.take(n).lemma_filter_push(orig[n], |b: BatchInfo| b.id@ != id@);
            assert(list@[i as int] == orig[n]) by {
                assert(orig.skip(n)[0] == orig[n]);
            }
        }
        if list[i].id.eq(&key) {
            list.remove(i);
            found = true;
            proof {
                assert(without_id(orig.take(n + 1), id@) =~= without_id(orig.take(n), id@));
                assert(list@ =~= without_id(orig.take(n + 1), id@) + orig.skip(n + 1));
                n = n + 1;
            }
        } else {
            i = i + 1;
            proof {
                assert(without_id(orig.take(n + 1), id@) =~= without_id(orig.take(n), id@).push(
                    orig[n],
                ));
                assert(list@ =~= without_id(orig.take(n + 1), id@) + orig.skip(n + 1));
                n = n + 1;
            }
        }
    }
    proof {
        assert(n == orig.len()) by {
            assert(list@.len() == i + orig.skip(n).len());
        }
        assert(orig.take(n) =~= orig);
        assert(list@ =~= without_id(orig, id@));
    }
    found
}

/// Every batch of the added list was in the old list or is the new batch,
/// and the list stays newest first.
pub proof fn law_add_keeps_batches_newest_first(list: Seq<BatchInfo>, batch: BatchInfo)
    ensures
        newest_first(sort_newest_first(list.push(batch))),
        sort_newest_first(list.push(batch)).to_multiset() =~= list.to_multiset().insert(batch),
{
    lemma_sort_newest_first(list.push(batch));
}

/// After removing an id, no batch with that id is left, and every other
/// batch is still there, in order.
pub proof fn law_remove_drops_exactly_the_id(list: Seq<BatchInfo>, id: Seq<char>)
    ensures
        forall|i: int|
            0 <= i < without_id(list, id).len() ==> (#[trigger] without_id(list, id)[i]).id@ != id,
        forall|i: int|
            0 <= i < list.len() && (#[trigger] list[i]).id@ != id ==> without_id(list, id).contains(
                list[i],
            ),
        first_with_id(without_id(list, id), id) is None,
{
    broadcast use vstd::seq_lib::group_filter_ensures;

    lemma_first_with_id(without_id(list, id), id);
}

/// A batch just added can be looked up by its id.
pub proof fn law_added_batch_is_found(list: Seq<BatchInfo>, batch: BatchInfo)
    ensures
        first_with_id(sort_newest_first(list.push(batch)), batch.id@) matches Some(k) && sort_newest_first(
            list.push(batch),
        )[k].id@ == batch.id@,
{
    let s = sort_newest_first(list.push(batch));
    lemma_sort_newest_first(list.push(batch));
    assert(list.push(batch).to_multiset().count(batch) > 0) by {
        assert(list.push(batch).contains(batch)) by {
            assert(list.push(batch)[list.len() as int] == batch);
        }
    }
    assert(s.contains(batch));
    let i = choose|i: int| 0 <= i < s.len() && s[i] == batch;
    lemma_first_with_id(s, batch.id@);
    assert(s[i].id@ == batch.id@);
}

// ---------------------------------------------------------------------------
// Ids and names
// ---------------------------------------------------------------------------

/// The lowercase hexadecimal rendering of `n`, without leading zeros.
pub open spec fn hex(n: nat) -> Seq<char>
    decreases n,
{
    if n < 16 {
        seq![hex_digit(n)]
    } else {
        hex(n / 16).push(hex_digit(n % 16))
    }
}

/// Appends the lowercase hexadecimal rendering of `n`.
fn push_hex(out: &mut String, n: u128)
    ensures
        final(out)@ == old(out)@ + hex(n as nat),
    decreases n,
{
    if n >= 16 {
        push_hex(out, n / 16);
    }
    let d: u8 = (n % 16) as u8;
    let c = if d < 10 {
        (48u8 + d) as char
    } else {
        (87u8 + d) as char
    };
    proof {
        assert(c == hex_digit((n % 16) as nat));
    }
    push_char(out, c);
    proof {
        if n >= 16 {
            assert(hex(n as nat) =~= hex((n / 16) as nat).push(c));
        } else {
            assert(hex(n as nat) =~= seq![c]);
        }
    }
}

/// The id of a batch made at `nanos` (nanoseconds since the Unix epoch)
/// with sequence number `seq`: `batch-<nanos in hex>-<seq in decimal>`.
pub open spec fn batch_id_text(nanos: u128, seq: u64) -> Seq<char> {
    seq!['b', 'a', 't', 'c', 'h', '-'] + hex(nanos as nat) + seq!['-'] + decimal(seq as nat)
}

/// Current time in nanoseconds since the Unix epoch (0 if the clock is set
/// before it).
#[verifier::external_body]
fn now_nanos() -> u128 {
    std::time::SystemTime::now().duration_since(std::time::UNIX_EPOCH).map(|d| d.as_nanos()).unwrap_or(0)
}

/// Current timestamp in milliseconds since the Unix epoch (0 if the clock
/// is set before it). Nothing is stated of the value: it is the machine's
/// clock.
#[verifier::external_body]
pub fn now_millis() -> u64 {
    std::time::SystemTime::now().duration_since(std::time::UNIX_EPOCH).map(|d| d.as_millis() as u64).unwrap_or(0)
}

/// The in-process sequence that batch ids draw their second part from.
pub struct IdSequence {
    next: u64,
}

impl IdSequence {
    /// The number the next id will carry.
    pub closed spec fn spec_next(&self) -> u64 {
        self.next
    }

    /// A sequence starting at 0.
    pub fn new() -> (s: Self)
        ensures
            s.spec_next() == 0,
    {
        IdSequence { next: 0 }
    }
}

/// The sequence number after `s` (wrapping at the end of `u64`).
pub open spec fn next_seq(s: u64) -> u64 {
    if s == u64::MAX {
        0
    } else {
        (s + 1) as u64
    }
}

/// The id for a batch made at `nanos` with sequence number `seq`.
pub fn format_id(nanos: u128, seq: u64) -> (id: String)
    ensures
        id@ == batch_id_text(nanos, seq),
{
    let mut id = String::new();
    push_str(&mut id, "batch-");
    push_hex(&mut id, nanos);
    push_char(&mut id, '-');
    push_decimal(&mut id, seq);
    proof {
        reveal_strlit("batch-");
        assert(id@ =~= batch_id_text(nanos, seq));
    }
    id
}

/// A fresh batch id from the clock and the next number of `ids`.
pub fn new_id(ids: &mut IdSequence) -> (id: String)
    ensures
        final(ids).spec_next() == next_seq(old(ids).spec_next()),
        exists|nanos: u128| id@ == batch_id_text(nanos, old(ids).spec_next()),
{
    let seq = ids.next;
    ids.next = if seq == u64::MAX {
        0
    } else {
        seq + 1
    };
    let nanos = now_nanos();
    let id = format_id(nanos, seq);
    assert(id@ == batch_id_text(nanos, seq));
    id
}

/// The default name of a batch of `path` made at `millis`: the final
/// component of the path (the whole path if it has none), ` · `, and the
/// time. The final component is read as `platform` reads paths.
pub open spec fn batch_name(path: Seq<char>, millis: u64, platform: Platform) -> Seq<char> {
    let dir = match name_on(path, platform) {
        Some(n) => n,
        None => path,
    };
    dir + seq![' ', '·', ' '] + decimal(millis as nat)
}

/// The default name of a batch of `path` made at `millis`.
pub fn name_at(path: &str, millis: u64, platform: Platform) -> (name: String)
    ensures
        name@ == batch_name(path@, millis, platform),
{
    let mut name = match file_name_on(path, platform) {
        Some(n) => n,
        None => path.to_owned(),
    };
    push_str(&mut name, " · ");
    push_decimal(&mut name, millis);
    proof {
        reveal_strlit(" · ");
        assert(name@ =~= batch_name(path@, millis, platform));
    }
    name
}

/// A human-readable default name for a batch of `path`, stamped with the
/// current time.
pub fn default_name(path: &str, platform: Platform) -> (name: String)
    ensures
        exists|millis: u64| name@ == batch_name(path@, millis, platform),
{
    let millis = now_millis();
    let name = name_at(path, millis, platform);
    assert(name@ == batch_name(path@, millis, platform));
    name
}

/// Ids with different sequence numbers differ, whatever the clock said:
/// ids made in quick succession never collide.
pub proof fn law_ids_differ_by_sequence(n1: u128, s1: u64, n2: u128, s2: u64)
    requires
        s1 != s2,
    ensures
        batch_id_text(n1, s1) != batch_id_text(n2, s2),
{
    let a = batch_id_text(n1, s1);
    let b = batch_id_text(n2, s2);
    let d1 = decimal(s1 as nat);
    let d2 = decimal(s2 as nat);
    crate::text::lemma_decimal_value(s1 as nat);
    crate::text::lemma_decimal_value(s2 as nat);
    if a == b {
        let l = a.len();
        if d1.len() == d2.len() {
            assert(a.skip(l - d1.len()) =~= d1);
            assert(b.skip(l - d2.len()) =~= d2);
        } else if d1.len() < d2.len() {
            let q = l - d1.len() - 1;
            assert(a[q] == '-');
            assert(b[q] == d2[d2.len() - d1.len() - 1]);
            assert(crate::text::is_digit(d2[d2.len() - d1.len() - 1]));
        } else {
            let q = l - d2.len() - 1;
            assert(b[q] == '-');
            assert(a[q] == d1[d1.len() - d2.len() - 1]);
            assert(crate::text::is_digit(d1[d1.len() - d2.len() - 1]));
        }
    }
}

/// Two ids drawn one after the other from the same sequence differ.
pub proof fn law_consecutive_ids_differ(n1: u128, n2: u128, s: u64)
    ensures
        batch_id_text(n1, s) != batch_id_text(n2, next_seq(s)),
{
    law_ids_differ_by_sequence(n1, s, n2, next_seq(s));
}

} // verus!
