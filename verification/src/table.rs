//! The server's two-level index: buckets addressed by an 8-byte hash
//! prefix, each an association list from a blinded query point to a
//! blinded identifier point, both held as canonical compressed encodings.
//! Key equality is exact byte equality of those encodings, and a lookup
//! returns the first row whose key matches.

use vstd::prelude::*;

use crate::codec::bytes_eq;
use crate::Prefix;

verus! {

/// One enrollment row: a server-blinded query point and the doubly
/// blinded identifier point stored under it.
#[derive(Debug)]
pub struct Row {
    pub key: Vec<u8>,
    pub value: Vec<u8>,
}

/// The rows grouped under one hash prefix. The newest row for a key
/// stands first, so it shadows any older row with the same key.
#[derive(Debug)]
pub struct Bucket {
    pub rows: Vec<Row>,
}

/// The mathematical content of a row sequence: the key and value bytes.
pub open spec fn rows_model(rows: Seq<Row>) -> Seq<(Seq<u8>, Seq<u8>)> {
    rows.map_values(|r: Row| (r.key@, r.value@))
}

/// The value stored under `k`: the first row whose key is `k`, if any.
pub open spec fn spec_lookup(entries: Seq<(Seq<u8>, Seq<u8>)>, k: Seq<u8>) -> Option<Seq<u8>>
    decreases entries.len(),
{
    if entries.len() == 0 {
        None
    } else if entries[0].0 == k {
        Some(entries[0].1)
    } else {
        spec_lookup(entries.drop_first(), k)
    }
}

/// The rows of the first bucket whose prefix is `pre`, or nothing.
pub open spec fn table_entries(table: Seq<(Prefix, Bucket)>, pre: Seq<u8>) -> Seq<
    (Seq<u8>, Seq<u8>),
>
    decreases table.len(),
{
    if table.len() == 0 {
        Seq::empty()
    } else if table[0].0@ == pre {
        rows_model(table[0].1.rows@)
    } else {
        table_entries(table.drop_first(), pre)
    }
}

/// The number of rows across all buckets.
pub open spec fn total_rows(table: Seq<(Prefix, Bucket)>) -> int
    decreases table.len(),
{
    if table.len() == 0 {
        0
    } else {
        table[0].1.rows@.len() + total_rows(table.drop_first())
    }
}

/// Replacing one bucket's rows changes the row total by the difference.
pub proof fn lemma_total_rows_update(table: Seq<(Prefix, Bucket)>, i: int, nb: Bucket)
    requires
        0 <= i < table.len(),
    ensures
        total_rows(table.update(i, (table[i].0, nb))) == total_rows(table)
            - table[i].1.rows@.len() + nb.rows@.len(),
    decreases i,
{
    let t2 = table.update(i, (table[i].0, nb));
    if i == 0 {
        assert(t2[0].1 == nb);
        assert(t2.drop_first() =~= table.drop_first());
    } else {
        assert(t2[0] == table[0]);
        assert(t2.drop_first() =~= table.drop_first().update(i - 1, (table[i].0, nb)));
        lemma_total_rows_update(table.drop_first(), i - 1, nb);
    }
}

/// Appending a bucket adds its rows to the total.
pub proof fn lemma_total_rows_push(table: Seq<(Prefix, Bucket)>, entry: (Prefix, Bucket))
    ensures
        total_rows(table.push(entry)) == total_rows(table) + entry.1.rows@.len(),
    decreases table.len(),
{
    let t2 = table.push(entry);
    if table.len() == 0 {
        assert(t2[0] == entry);
        assert(t2.drop_first() =~= Seq::<(Prefix, Bucket)>::empty());
        assert(total_rows(Seq::<(Prefix, Bucket)>::empty()) == 0);
        assert(total_rows(table) == 0);
    } else {
        assert(t2[0] == table[0]);
        assert(t2.drop_first() =~= table.drop_first().push(entry));
        lemma_total_rows_push(table.drop_first(), entry);
    }
}

/// A prefix with entries is carried by some bucket.
pub proof fn lemma_entries_nonempty_bucket(table: Seq<(Prefix, Bucket)>, pre: Seq<u8>) -> (bi: int)
    requires
        table_entries(table, pre).len() > 0,
    ensures
        0 <= bi < table.len(),
        table[bi].0@ == pre,
    decreases table.len(),
{
    if table.len() == 0 {
        assert(false);
        0
    } else if table[0].0@ == pre {
        0
    } else {
        lemma_entries_nonempty_bucket(table.drop_first(), pre) + 1
    }
}

/// A lookup finds the first matching row.
pub proof fn lemma_lookup_at(entries: Seq<(Seq<u8>, Seq<u8>)>, k: Seq<u8>, i: int)
    requires
        0 <= i < entries.len(),
        entries[i].0 == k,
        forall|j: int| 0 <= j < i ==> entries[j].0 != k,
    ensures
        spec_lookup(entries, k) == Some(entries[i].1),
    decreases i,
{
    if i > 0 {
        lemma_lookup_at(entries.drop_first(), k, i - 1);
    }
}

/// A lookup among rows none of which carries `k` finds nothing.
pub proof fn lemma_lookup_none(entries: Seq<(Seq<u8>, Seq<u8>)>, k: Seq<u8>)
    requires
        forall|j: int| 0 <= j < entries.len() ==> entries[j].0 != k,
    ensures
        spec_lookup(entries, k) is None,
    decreases entries.len(),
{
    if entries.len() > 0 {
        lemma_lookup_none(entries.drop_first(), k);
    }
}

/// Putting a row in front changes the lookup of its key to its value and
/// no other lookup.
pub proof fn lemma_lookup_front(
    entries: Seq<(Seq<u8>, Seq<u8>)>,
    k: Seq<u8>,
    v: Seq<u8>,
    q: Seq<u8>,
)
    ensures
        spec_lookup(entries.insert(0, (k, v)), k) == Some(v),
        q != k ==> spec_lookup(entries.insert(0, (k, v)), q) == spec_lookup(entries, q),
{
    let e2 = entries.insert(0, (k, v));
    assert(e2[0] == (k, v));
    assert(e2.drop_first() =~= entries);
}

/// The bucket found for `pre` is the first one carrying that prefix.
pub proof fn lemma_entries_at(table: Seq<(Prefix, Bucket)>, pre: Seq<u8>, i: int)
    requires
        0 <= i < table.len(),
        table[i].0@ == pre,
        forall|j: int| 0 <= j < i ==> table[j].0@ != pre,
    ensures
        table_entries(table, pre) == rows_model(table[i].1.rows@),
    decreases i,
{
    if i > 0 {
        lemma_entries_at(table.drop_first(), pre, i - 1);
    }
}

/// A prefix no bucket carries has no entries.
pub proof fn lemma_entries_none(table: Seq<(Prefix, Bucket)>, pre: Seq<u8>)
    requires
        forall|j: int| 0 <= j < table.len() ==> table[j].0@ != pre,
    ensures
        table_entries(table, pre) == Seq::<(Seq<u8>, Seq<u8>)>::empty(),
    decreases table.len(),
{
    if table.len() > 0 {
        lemma_entries_none(table.drop_first(), pre);
    }
}

/// Appending a bucket with a fresh prefix adds its rows under that prefix
/// and leaves every other prefix's entries unchanged.
pub proof fn lemma_entries_push(table: Seq<(Prefix, Bucket)>, entry: (Prefix, Bucket), q: Seq<u8>)
    ensures
        q != entry.0@ ==> table_entries(table.push(entry), q) == table_entries(table, q),
        (q == entry.0@ && (forall|j: int| 0 <= j < table.len() ==> table[j].0@ != q))
            ==> table_entries(table.push(entry), q) == rows_model(entry.1.rows@),
    decreases table.len(),
{
    let t2 = table.push(entry);
    if table.len() == 0 {
        assert(t2[0] == entry);
        assert(t2.drop_first() =~= Seq::<(Prefix, Bucket)>::empty());
        assert(table_entries(t2.drop_first(), q) =~= Seq::<(Seq<u8>, Seq<u8>)>::empty());
        if q != entry.0@ {
            assert(table_entries(t2, q) =~= Seq::<(Seq<u8>, Seq<u8>)>::empty());
            assert(table_entries(table, q) =~= Seq::<(Seq<u8>, Seq<u8>)>::empty());
        } else {
            assert(table_entries(t2, q) == rows_model(t2[0].1.rows@));
        }
    } else {
        assert(t2[0] == table[0]);
        assert(t2.drop_first() =~= table.drop_first().push(entry));
        lemma_entries_push(table.drop_first(), entry, q);
        if table[0].0@ == q {
            assert(table_entries(t2, q) == rows_model(t2[0].1.rows@));
            assert(table_entries(table, q) == rows_model(table[0].1.rows@));
        } else {
            assert(table_entries(t2, q) == table_entries(t2.drop_first(), q));
            assert(table_entries(table, q) == table_entries(table.drop_first(), q));
        }
    }
}

/// Replacing the rows of the first bucket carrying a prefix changes that
/// prefix's entries to the new rows and leaves every other prefix's
/// entries unchanged.
pub proof fn lemma_entries_update(table: Seq<(Prefix, Bucket)>, i: int, nb: Bucket, q: Seq<u8>)
    requires
        0 <= i < table.len(),
    ensures
        q != table[i].0@ ==> table_entries(table.update(i, (table[i].0, nb)), q) == table_entries(
            table,
            q,
        ),
        (q == table[i].0@ && (forall|j: int| 0 <= j < i ==> table[j].0@ != q)) ==> table_entries(
            table.update(i, (table[i].0, nb)),
            q,
        ) == rows_model(nb.rows@),
    decreases i,
{
    let t2 = table.update(i, (table[i].0, nb));
    if i == 0 {
        assert(t2[0] == (table[0].0, nb));
        assert(t2.drop_first() =~= table.drop_first());
    } else {
        assert(t2[0] == table[0]);
        assert(t2.drop_first() =~= table.drop_first().update(i - 1, (table[i].0, nb)));
        lemma_entries_update(table.drop_first(), i - 1, nb, q);
    }
}

/// Whether two prefixes hold the same bytes.
pub fn prefix_eq(a: &Prefix, b: &Prefix) -> (r: bool)
    ensures
        r == (a@ == b@),
{
    let mut i: usize = 0;
    while i < 8
        invariant
            i <= 8,
            forall|j: int| 0 <= j < i ==> a@[j] == b@[j],
        decreases 8 - i,
    {
        if a[i] != b[i] {
            proof {
                assert(a@[i as int] != b@[i as int]);
            }
            return false;
        }
        i = i + 1;
    }
    proof {
        assert(a@ =~= b@);
    }
    true
}

/// A fresh vector holding the same bytes.
pub fn copy_bytes(v: &Vec<u8>) -> (r: Vec<u8>)
    ensures
        r@ == v@,
{
    let mut r: Vec<u8> = Vec::new();
    let n = v.len();
    let mut i: usize = 0;
    while i < n
        invariant
            n == v@.len(),
            i <= n,
            r@ == v@.subrange(0, i as int),
        decreases n - i,
    {
        r.push(v[i]);
        proof {
            assert(r@ =~= v@.subrange(0, (i + 1) as int));
        }
        i = i + 1;
    }
    proof {
        assert(v@.subrange(0, n as int) =~= v@);
    }
    r
}

/// A fresh row sequence with the same keys and values.
pub fn copy_rows(rows: &Vec<Row>) -> (r: Vec<Row>)
    ensures
        rows_model(r@) == rows_model(rows@),
{
    let mut r: Vec<Row> = Vec::new();
    let n = rows.len();
    let mut i: usize = 0;
    while i < n
        invariant
            n == rows@.len(),
            i <= n,
            r@.len() == i,
            forall|j: int|
                0 <= j < i ==> r@[j].key@ == rows@[j].key@ && r@[j].value@ == rows@[j].value@,
        decreases n - i,
    {
        let row = Row { key: copy_bytes(&rows[i].key), value: copy_bytes(&rows[i].value) };
        r.push(row);
        i = i + 1;
    }
    proof {
        assert(rows_model(r@) =~= rows_model(rows@));
    }
    r
}

/// The given rows with a fresh row put in front: its key now shadows any
/// older row with the same key.
pub fn rows_with_front(rows: &Vec<Row>, key: &Vec<u8>, value: &Vec<u8>) -> (r: Vec<Row>)
    ensures
        rows_model(r@) == rows_model(rows@).insert(0, (key@, value@)),
{
    let mut r = copy_rows(rows);
    let row = Row { key: copy_bytes(key), value: copy_bytes(value) };
    r.insert(0, row);
    proof {
        assert(rows_model(r@) =~= rows_model(rows@).insert(0, (key@, value@)));
    }
    r
}

/// The first row whose key is `k`, if any, as an index.
pub fn find_row(rows: &Vec<Row>, k: &Vec<u8>) -> (r: Option<usize>)
    ensures
        match r {
            Some(i) => i < rows@.len() && rows_model(rows@)[i as int].0 == k@ && spec_lookup(
                rows_model(rows@),
                k@,
            ) == Some(rows_model(rows@)[i as int].1),
            None => spec_lookup(rows_model(rows@), k@) is None,
        },
{
    let n = rows.len();
    let mut i: usize = 0;
    while i < n
        invariant
            n == rows@.len(),
            i <= n,
            forall|j: int| 0 <= j < i ==> rows_model(rows@)[j].0 != k@,
        decreases n - i,
    {
        if bytes_eq(&rows[i].key, k) {
            proof {
                lemma_lookup_at(rows_model(rows@), k@, i as int);
            }
            return Some(i);
        }
        i = i + 1;
    }
    proof {
        lemma_lookup_none(rows_model(rows@), k@);
    }
    None
}

} // verus!
