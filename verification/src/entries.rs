//! A bounded set of entries, each with a name and the time it was made at: one
//! is put in under its name, and the newest are kept.
use vstd::prelude::*;
use vstd::set_lib::*;

use crate::json::{member, record_of, Field, Json, Record, Value};
use crate::text::{bytes_of, same};

verus! {

/// Whether a run of bytes comes before another, byte by byte, a shorter one
/// before those that go on from it.
pub open spec fn precedes(a: Seq<u8>, b: Seq<u8>) -> bool
    decreases a.len(),
{
    if b.len() == 0 {
        false
    } else if a.len() == 0 {
        true
    } else if a[0] != b[0] {
        a[0] < b[0]
    } else {
        precedes(a.drop_first(), b.drop_first())
    }
}

/// Whether a name comes before another.
pub fn comes_before(a: &str, b: &str) -> (r: bool)
    ensures
        r == precedes(bytes_of(a@), bytes_of(b@)),
{
    let x = a.as_bytes();
    let y = b.as_bytes();
    let ghost (p, q) = (x@, y@);
    let mut i: usize = 0;
    assert(p.skip(0) =~= p && q.skip(0) =~= q);
    while i < x.len() && i < y.len() && x[i] == y[i]
        invariant
            p == x@,
            q == y@,
            i <= p.len(),
            i <= q.len(),
            precedes(p, q) == precedes(p.skip(i as int), q.skip(i as int)),
        decreases p.len() - i,
    {
        proof {
            assert(p.skip(i as int).drop_first() =~= p.skip(i + 1));
            assert(q.skip(i as int).drop_first() =~= q.skip(i + 1));
        }
        i = i + 1;
    }
    if i >= y.len() {
        false
    } else if i >= x.len() {
        true
    } else {
        x[i] < y[i]
    }
}

/// Where a field of this name stands first, or how many there are.
pub open spec fn place(entries: Record, name: Seq<char>) -> int
    decreases entries.len(),
{
    if entries.len() == 0 || entries[0].0 == name {
        0
    } else {
        1 + place(entries.drop_first(), name)
    }
}

/// Where the first field stands whose name comes after this one, or how many
/// there are.
pub open spec fn slot(entries: Record, name: Seq<char>) -> int
    decreases entries.len(),
{
    if entries.len() == 0 || precedes(bytes_of(name), bytes_of(entries[0].0)) {
        0
    } else {
        1 + slot(entries.drop_first(), name)
    }
}

/// The entries with one put in under its name: in the place of the one that
/// has the name, or else in the order of the names.
pub open spec fn put(entries: Record, name: Seq<char>, value: Json) -> Record {
    if place(entries, name) < entries.len() {
        entries.update(place(entries, name), (name, value))
    } else {
        entries.insert(slot(entries, name), (name, value))
    }
}

/// Where an entry stands once it has been put in.
pub open spec fn place_put(entries: Record, name: Seq<char>) -> int {
    if place(entries, name) < entries.len() {
        place(entries, name)
    } else {
        slot(entries, name)
    }
}

/// A place is within the entries or right behind them; there the name stands,
/// and before it nowhere.
pub proof fn place_is_first(entries: Record, name: Seq<char>)
    ensures
        0 <= place(entries, name) <= entries.len(),
        place(entries, name) < entries.len() ==> entries[place(entries, name)].0 == name,
        forall|i: int| 0 <= i < place(entries, name) ==> (#[trigger] entries[i]).0 != name,
    decreases entries.len(),
{
    if entries.len() > 0 && entries[0].0 != name {
        let rest = entries.drop_first();
        place_is_first(rest, name);
        assert forall|i: int| 0 <= i < place(entries, name) implies (#[trigger] entries[i]).0
            != name by {
            if i > 0 {
                assert(entries[i] == rest[i - 1]);
            }
        }
    }
}

/// A slot is within the entries or right behind them.
pub proof fn slot_is_within(entries: Record, name: Seq<char>)
    ensures
        0 <= slot(entries, name) <= entries.len(),
    decreases entries.len(),
{
    if entries.len() > 0 {
        slot_is_within(entries.drop_first(), name);
    }
}

/// A name has the value that stands where it stands first.
pub proof fn member_at_place(entries: Record, name: Seq<char>)
    ensures
        member(entries, name) == (if place(entries, name) < entries.len() {
            Some(entries[place(entries, name)].1)
        } else {
            None
        }),
    decreases entries.len(),
{
    place_is_first(entries, name);
    if entries.len() > 0 && entries[0].0 != name {
        let rest = entries.drop_first();
        place_is_first(rest, name);
        member_at_place(rest, name);
        if place(rest, name) < rest.len() {
            assert(rest[place(rest, name)] == entries[place(entries, name)]);
        }
    }
}

/// A name stands first where it stands and nowhere before.
pub proof fn place_is(entries: Record, name: Seq<char>, i: int)
    requires
        0 <= i <= entries.len(),
        i < entries.len() ==> entries[i].0 == name,
        forall|j: int| 0 <= j < i ==> (#[trigger] entries[j]).0 != name,
    ensures
        place(entries, name) == i,
{
    place_is_first(entries, name);
    let p = place(entries, name);
    if p < i {
        assert(entries[p].0 != name);
    }
}

/// An entry that was put in is found, and every other is found as before.
pub proof fn put_is_found(entries: Record, name: Seq<char>, value: Json)
    ensures
        member(put(entries, name, value), name) == Some(value),
        0 <= place_put(entries, name) < put(entries, name, value).len(),
        put(entries, name, value)[place_put(entries, name)] == (name, value),
        place(put(entries, name, value), name) == place_put(entries, name),
        forall|other: Seq<char>|
            other != name ==> #[trigger] member(put(entries, name, value), other) == member(
                entries,
                other,
            ),
{
    let all = put(entries, name, value);
    let p = place_put(entries, name);
    place_is_first(entries, name);
    slot_is_within(entries, name);
    assert forall|j: int| 0 <= j < p implies (#[trigger] all[j]).0 != name by {
        assert(all[j] == entries[j]);
    }
    place_is(all, name, p);
    member_at_place(all, name);
    assert forall|other: Seq<char>| other != name implies #[trigger] member(all, other) == member(
        entries,
        other,
    ) by {
        let o = place(entries, other);
        place_is_first(entries, other);
        member_at_place(entries, other);
        let shifted = if place(entries, name) < entries.len() || o < p {
            o
        } else {
            o + 1
        };
        assert forall|j: int| 0 <= j < shifted implies (#[trigger] all[j]).0 != other by {
            if place(entries, name) < entries.len() || j < p {
                if j != p {
                    assert(all[j] == entries[j]);
                }
            } else if j > p {
                assert(all[j] == entries[j - 1]);
            }
        }
        if o < entries.len() {
            assert(all[shifted] == entries[o]);
        }
        place_is(all, other, shifted);
        member_at_place(all, other);
    }
}

/// When an entry was made: the time it carries, or zero.
pub open spec fn made_at(entry: Json) -> u64 {
    match entry.at("at"@).as_unsigned() {
        Some(at) => at,
        None => 0,
    }
}

/// When the entries were made.
pub open spec fn times(entries: Record) -> Seq<u64> {
    Seq::new(entries.len(), |i: int| made_at(entries[i].1))
}

/// Whether the entry at `j` is kept before the one at `i`: it was made later,
/// or at the same time and stands before it.
pub open spec fn newer(times: Seq<u64>, j: int, i: int) -> bool {
    times[j] > times[i] || (times[j] == times[i] && j < i)
}

/// The first `n` entries that are kept before the one at `i`.
pub open spec fn newer_among(times: Seq<u64>, i: int, n: int) -> Set<int> {
    Set::new(|j: int| 0 <= j < n && newer(times, j, i))
}

/// How many entries are kept before the one at `i`.
pub open spec fn rank(times: Seq<u64>, i: int) -> nat {
    newer_among(times, i, times.len() as int).len()
}

proof fn newer_among_grows(times: Seq<u64>, i: int, n: int)
    requires
        0 <= n,
    ensures
        newer_among(times, i, n).finite(),
        newer_among(times, i, n).len() <= n,
        newer_among(times, i, n + 1).len() == newer_among(times, i, n).len() + (if newer(
            times,
            n,
            i,
        ) {
            1int
        } else {
            0
        }),
    decreases n,
{
    lemma_int_range(0, n);
    let s = newer_among(times, i, n);
    assert(s.subset_of(set_int_range(0, n)));
    lemma_len_subset(s, set_int_range(0, n));
    if newer(times, n, i) {
        assert(newer_among(times, i, n + 1) =~= s.insert(n));
    } else {
        assert(newer_among(times, i, n + 1) =~= s);
    }
}

/// How many entries are kept before the one at `i`.
pub fn rank_of(times: &Vec<u64>, i: usize) -> (r: usize)
    requires
        i < times@.len(),
    ensures
        r == rank(times@, i as int),
{
    let at: u64 = times[i];
    let mut count: usize = 0;
    assert(newer_among(times@, i as int, 0) =~= Set::empty());
    for j in 0..times.len()
        invariant
            i < times@.len(),
            at == times@[i as int],
            count == newer_among(times@, i as int, j as int).len(),
            count <= j,
    {
        proof {
            newer_among_grows(times@, i as int, j as int);
            newer_among_grows(times@, i as int, j + 1);
        }
        let other: u64 = times[j];
        if other > at || (other == at && j < i) {
            count = count + 1;
        }
    }
    count
}

/// Those from the `i`th entry on before which fewer than `most` are kept.
pub open spec fn newest_from(entries: Record, times: Seq<u64>, most: nat, i: int) -> Record
    decreases entries.len() - i,
{
    if i >= entries.len() {
        Seq::empty()
    } else if rank(times, i) < most {
        Seq::empty().push(entries[i]) + newest_from(entries, times, most, i + 1)
    } else {
        newest_from(entries, times, most, i + 1)
    }
}

/// The newest entries, in the order in which they stand.
pub open spec fn newest(entries: Record, most: nat) -> Record {
    newest_from(entries, times(entries), most, 0)
}

/// Where a field of this name stands first, or how many there are.
pub fn position(fields: &Vec<Field>, name: &str) -> (r: usize)
    ensures
        r == place(record_of(fields@), name@),
{
    let ghost all = record_of(fields@);
    let count: usize = fields.len();
    let mut i: usize = 0;
    assert(all.skip(0) =~= all);
    while i < count && !same(fields[i].name.as_str(), name)
        invariant
            i <= count,
            count == fields@.len(),
            all == record_of(fields@),
            place(all, name@) == i + place(all.skip(i as int), name@),
        decreases count - i,
    {
        proof {
            assert(all.skip(i as int).drop_first() =~= all.skip(i + 1));
            assert(all.skip(i as int)[0] == fields@[i as int]@);
        }
        i = i + 1;
    }
    if i < count {
        assert(all.skip(i as int)[0] == fields@[i as int]@);
    }
    i
}

/// Puts an entry in under its name.
pub fn put_in(entries: Vec<Field>, name: &str, value: Value) -> (r: Vec<Field>)
    ensures
        record_of(r@) == put(record_of(entries@), name@, value@),
{
    let ghost all = record_of(entries@);
    let ghost v = value@;
    let mut out = entries;
    let count: usize = out.len();
    let i: usize = position(&out, name);
    if i < count {
        let field = Field { name: name.to_owned(), value };
        out.set(i, field);
        assert(record_of(out@) =~= put(all, name@, v));
        return out;
    }
    assert(all.skip(0) =~= all);
    let mut k: usize = 0;
    while k < count && !comes_before(name, out[k].name.as_str())
        invariant
            k <= count,
            count == out@.len(),
            all == record_of(out@),
            slot(all, name@) == k + slot(all.skip(k as int), name@),
        decreases count - k,
    {
        proof {
            assert(all.skip(k as int).drop_first() =~= all.skip(k + 1));
            assert(all.skip(k as int)[0] == out@[k as int]@);
        }
        k = k + 1;
    }
    if k < count {
        assert(all.skip(k as int)[0] == out@[k as int]@);
    }
    assert(slot(all, name@) == k);
    proof {
        place_is_first(all, name@);
    }
    let field = Field { name: name.to_owned(), value };
    out.insert(k, field);
    assert(record_of(out@) =~= put(all, name@, v));
    out
}

/// When an entry was made.
pub fn time_of(entry: &Value) -> (r: u64)
    ensures
        r == made_at(entry@),
{
    match entry.get("at") {
        Some(value) => match value.as_u64() {
            Some(at) => at,
            None => 0,
        },
        None => 0,
    }
}

/// Keeps the newest entries, in the order in which they stand.
pub fn keep_newest(entries: Vec<Field>, most: usize) -> (r: Vec<Field>)
    ensures
        record_of(r@) == newest(record_of(entries@), most as nat),
{
    let ghost all = record_of(entries@);
    let count: usize = entries.len();
    let mut at: Vec<u64> = Vec::new();
    for i in 0..count
        invariant
            count == entries@.len(),
            all == record_of(entries@),
            at@.len() == i,
            forall|j: int| 0 <= j < i ==> at@[j] == made_at(all[j].1),
    {
        at.push(time_of(&entries[i].value));
    }
    assert(at@ =~= times(all));
    let mut out = entries;
    let mut i: usize = count;
    assert(record_of(out@) =~= all.take(i as int) + newest_from(all, at@, most as nat, i as int));
    while i > 0
        invariant
            i <= count,
            count == all.len(),
            at@ == times(all),
            record_of(out@) == all.take(i as int) + newest_from(all, at@, most as nat, i as int),
        decreases i,
    {
        let ghost before = record_of(out@);
        let ghost rest = newest_from(all, at@, most as nat, i as int);
        i = i - 1;
        assert(before.len() == out@.len());
        assert(all.take(i + 1) =~= all.take(i as int).push(all[i as int]));
        if rank_of(&at, i) >= most {
            let ghost held = out@;
            out.remove(i);
            assert(record_of(out@) =~= before.remove(i as int));
            assert(before.remove(i as int) =~= all.take(i as int) + rest);
        } else {
            assert(before =~= all.take(i as int) + (Seq::empty().push(all[i as int]) + rest));
        }
    }
    assert(record_of(out@) =~= newest(all, most as nat));
    out
}

/// Fewer are kept before an entry than there are.
pub proof fn rank_is_bounded(times: Seq<u64>, i: int)
    requires
        0 <= i < times.len(),
    ensures
        rank(times, i) < times.len(),
{
    let n = times.len() as int;
    let s = newer_among(times, i, n);
    lemma_int_range(0, n);
    let others = set_int_range(0, n).remove(i);
    assert(s.subset_of(others));
    lemma_len_subset(s, others);
}

/// What is kept before another entry has fewer kept before it.
pub proof fn rank_rises(times: Seq<u64>, j: int, i: int)
    requires
        0 <= i < times.len(),
        0 <= j < times.len(),
        newer(times, j, i),
    ensures
        rank(times, j) < rank(times, i),
{
    let n = times.len() as int;
    newer_among_grows(times, i, n);
    newer_among_grows(times, j, n);
    let s = newer_among(times, j, n);
    let t = newer_among(times, i, n);
    assert(s.insert(j).subset_of(t));
    assert(!s.contains(j));
    lemma_len_subset(s.insert(j), t);
}

/// The places of the entries that are kept.
spec fn kept_places(times: Seq<u64>, most: nat, i: int) -> Set<int> {
    Set::new(|j: int| i <= j < times.len() && rank(times, j) < most)
}

proof fn as_many_as_places(entries: Record, times: Seq<u64>, most: nat, i: int)
    requires
        0 <= i <= entries.len(),
        times.len() == entries.len(),
    ensures
        kept_places(times, most, i).finite(),
        newest_from(entries, times, most, i).len() == kept_places(times, most, i).len(),
    decreases entries.len() - i,
{
    let here = kept_places(times, most, i);
    if i == entries.len() {
        assert(here =~= Set::empty());
    } else {
        as_many_as_places(entries, times, most, i + 1);
        let rest = kept_places(times, most, i + 1);
        if rank(times, i) < most {
            assert(here =~= rest.insert(i));
        } else {
            assert(here =~= rest);
        }
    }
}

/// No more entries are kept than may be, and no fewer than there are or may
/// be.
pub proof fn as_many_are_kept_as_may_be(entries: Record, most: nat)
    ensures
        newest(entries, most).len() == (if entries.len() < most {
            entries.len()
        } else {
            most
        }),
{
    let at = times(entries);
    let n = at.len() as int;
    let all = set_int_range(0, n);
    let f = |i: int| rank(at, i) as int;
    lemma_int_range(0, n);
    assert forall|i: int, j: int|
        all.contains(i) && all.contains(j) && #[trigger] f(i) == #[trigger] f(j) implies i == j by {
        if i != j {
            if newer(at, i, j) {
                rank_rises(at, i, j);
            } else {
                rank_rises(at, j, i);
            }
        }
    }
    let ranks = all.map(f);
    lemma_map_size(all, ranks, f);
    assert forall|r: int| ranks.contains(r) implies all.contains(r) by {
        let i = choose|i: int| all.contains(i) && f(i) == r;
        rank_is_bounded(at, i);
    }
    lemma_subset_equality(ranks, all);
    let least = if n < most {
        n
    } else {
        most as int
    };
    lemma_int_range(0, least);
    let kept = kept_places(at, most, 0);
    as_many_as_places(entries, at, most, 0);
    let low = set_int_range(0, least);
    assert forall|r: int| low.contains(r) implies kept.map(f).contains(r) by {
        assert(ranks.contains(r));
        let i = choose|i: int| all.contains(i) && f(i) == r;
        assert(kept.contains(i));
    }
    assert forall|r: int| kept.map(f).contains(r) implies low.contains(r) by {
        let i = choose|i: int| kept.contains(i) && f(i) == r;
        rank_is_bounded(at, i);
    }
    assert(kept.map(f) =~= low);
    lemma_map_size(kept, low, f);
}

proof fn kept_from_place(entries: Record, times: Seq<u64>, most: nat, i: int, p: int)
    requires
        0 <= i <= p < entries.len(),
        rank(times, p) < most,
        forall|j: int| i <= j < p ==> (#[trigger] entries[j]).0 != entries[p].0,
    ensures
        member(newest_from(entries, times, most, i), entries[p].0) == Some(entries[p].1),
    decreases entries.len() - i,
{
    let here = newest_from(entries, times, most, i);
    if i < p {
        kept_from_place(entries, times, most, i + 1, p);
        assert(entries[i].0 != entries[p].0);
    }
    if rank(times, i) < most {
        assert(here.drop_first() =~= newest_from(entries, times, most, i + 1));
        assert(here[0] == entries[i]);
    }
}

proof fn kept_has_place(entries: Record, times: Seq<u64>, most: nat, i: int, name: Seq<char>) -> (p:
    int)
    requires
        0 <= i <= entries.len(),
        member(newest_from(entries, times, most, i), name) is Some,
    ensures
        i <= p < entries.len(),
        rank(times, p) < most,
        entries[p] == (name, member(newest_from(entries, times, most, i), name)->0),
    decreases entries.len() - i,
{
    let here = newest_from(entries, times, most, i);
    if rank(times, i) < most {
        assert(here.drop_first() =~= newest_from(entries, times, most, i + 1));
        assert(here[0] == entries[i]);
    }
    if rank(times, i) < most && entries[i].0 == name {
        i
    } else {
        kept_has_place(entries, times, most, i + 1, name)
    }
}

/// No name stands twice.
pub open spec fn distinct(entries: Record) -> bool {
    forall|i: int, j: int|
        0 <= i < entries.len() && 0 <= j < entries.len() && (#[trigger] entries[i]).0 == (
        #[trigger] entries[j]).0 ==> i == j
}

/// Whether an entry is kept.
pub open spec fn is_kept(entries: Record, most: nat, name: Seq<char>) -> bool {
    &&& place(entries, name) < entries.len()
    &&& rank(times(entries), place(entries, name)) < most
}

/// An entry that is kept is found as it was.
pub proof fn what_is_kept_is_found(entries: Record, most: nat, name: Seq<char>)
    requires
        is_kept(entries, most, name),
    ensures
        member(newest(entries, most), name) == member(entries, name),
{
    place_is_first(entries, name);
    member_at_place(entries, name);
    kept_from_place(entries, times(entries), most, 0, place(entries, name));
}

/// An entry is found among those kept as it was where fewer than may be kept
/// are newer than it, and is not found otherwise.
pub proof fn what_is_kept_is_found_as_it_was(entries: Record, most: nat, name: Seq<char>)
    requires
        distinct(entries),
    ensures
        member(newest(entries, most), name) == (if is_kept(entries, most, name) {
            member(entries, name)
        } else {
            None
        }),
{
    let at = times(entries);
    let p = place(entries, name);
    place_is_first(entries, name);
    member_at_place(entries, name);
    if is_kept(entries, most, name) {
        what_is_kept_is_found(entries, most, name);
    } else if member(newest(entries, most), name) is Some {
        let q = kept_has_place(entries, at, most, 0, name);
        if p < entries.len() {
            assert(entries[q].0 == entries[p].0);
        } else {
            assert(entries[q].0 != name);
        }
    }
}

/// The oldest are dropped first: nothing that was dropped was made later than
/// something that was kept.
pub proof fn the_oldest_are_dropped_first(
    entries: Record,
    most: nat,
    kept: Seq<char>,
    dropped: Seq<char>,
)
    requires
        distinct(entries),
        member(newest(entries, most), kept) is Some,
        member(newest(entries, most), dropped) is None,
        member(entries, dropped) is Some,
    ensures
        made_at(member(newest(entries, most), kept)->0) >= made_at(member(entries, dropped)->0),
{
    let at = times(entries);
    what_is_kept_is_found_as_it_was(entries, most, kept);
    what_is_kept_is_found_as_it_was(entries, most, dropped);
    member_at_place(entries, kept);
    member_at_place(entries, dropped);
    place_is_first(entries, kept);
    place_is_first(entries, dropped);
    let k = place(entries, kept);
    let d = place(entries, dropped);
    if at[d] > at[k] {
        rank_rises(at, d, k);
    }
}

/// Putting an entry in leaves no name twice.
pub proof fn put_keeps_names_distinct(entries: Record, name: Seq<char>, value: Json)
    requires
        distinct(entries),
    ensures
        distinct(put(entries, name, value)),
{
    let all = put(entries, name, value);
    let p = place_put(entries, name);
    place_is_first(entries, name);
    slot_is_within(entries, name);
    let replaced = place(entries, name) < entries.len();
    assert forall|i: int, j: int|
        0 <= i < all.len() && 0 <= j < all.len() && (#[trigger] all[i]).0 == (
        #[trigger] all[j]).0 implies i == j by {
        let a = if replaced || i < p {
            i
        } else {
            i - 1
        };
        let b = if replaced || j < p {
            j
        } else {
            j - 1
        };
        if i != p {
            assert(all[i] == entries[a]);
        }
        if j != p {
            assert(all[j] == entries[b]);
        }
        if replaced {
            assert(entries[p].0 == name);
            assert(all[p].0 == name);
            assert(entries[a].0 == all[i].0);
            assert(entries[b].0 == all[j].0);
        } else if i != p && j != p {
            assert(entries[a].0 == entries[b].0);
        }
    }
}

/// Keeping the newest leaves no name twice.
pub proof fn the_newest_have_distinct_names(entries: Record, most: nat)
    requires
        distinct(entries),
    ensures
        distinct(newest(entries, most)),
{
    newest_from_is_distinct(entries, times(entries), most, 0);
}

proof fn newest_from_is_distinct(entries: Record, times: Seq<u64>, most: nat, i: int)
    requires
        distinct(entries),
        0 <= i <= entries.len(),
    ensures
        distinct(newest_from(entries, times, most, i)),
        forall|k: int|
            0 <= k < newest_from(entries, times, most, i).len() ==> exists|j: int|
                i <= j < entries.len() && #[trigger] entries[j] == (#[trigger] newest_from(
                    entries,
                    times,
                    most,
                    i,
                )[k]),
    decreases entries.len() - i,
{
    if i < entries.len() {
        newest_from_is_distinct(entries, times, most, i + 1);
        let rest = newest_from(entries, times, most, i + 1);
        let here = newest_from(entries, times, most, i);
        if rank(times, i) < most {
            assert(here[0] == entries[i]);
            assert forall|k: int| 0 <= k < here.len() implies exists|j: int|
                i <= j < entries.len() && #[trigger] entries[j] == (#[trigger] here[k]) by {
                if k > 0 {
                    assert(here[k] == rest[k - 1]);
                }
            }
            assert forall|a: int, b: int|
                0 <= a < here.len() && 0 <= b < here.len() && (#[trigger] here[a]).0 == (
                #[trigger] here[b]).0 implies a == b by {
                if a > 0 && b > 0 {
                    assert(here[a] == rest[a - 1] && here[b] == rest[b - 1]);
                } else if a > 0 {
                    assert(here[a] == rest[a - 1]);
                    let j = choose|j: int|
                        i + 1 <= j < entries.len() && #[trigger] entries[j] == rest[a - 1];
                    assert(entries[j].0 == entries[i].0);
                } else if b > 0 {
                    assert(here[b] == rest[b - 1]);
                    let j = choose|j: int|
                        i + 1 <= j < entries.len() && #[trigger] entries[j] == rest[b - 1];
                    assert(entries[j].0 == entries[i].0);
                }
            }
        }
    }
}

} // verus!
