//! The summary of the decrypted vault's files shown in the status.
//!
//! The directory walk itself is file-system work; this module decides what
//! each found file is reported as, which directories are skipped, and how the
//! files are totalled, ordered and cut to the requested number.

use vstd::prelude::*;
use vstd::string::StringExecFns;
use crate::text::{
    chars_equal, chars_of, join, join_strings, lemma_lex_asymmetric, lemma_lex_irreflexive,
    lemma_lex_total, lemma_lex_transitive, lex_less, lex_lt, occurs_at, occurs_at_exec, views,
};

verus! {

/// One regular file found under the vault's mount point.
#[derive(Debug, Clone, PartialEq, Eq)]
pub struct FileEntry {
    pub name: String,
    pub path: String,
    pub folder: String,
    pub modified_ts: i64,
    pub size_bytes: u64,
}

/// Totals over all files found, and the most recently modified of them.
#[derive(Debug, Clone, PartialEq, Eq)]
pub struct ScanSummary {
    pub total_bytes: u64,
    pub file_count: usize,
    pub files: Vec<FileEntry>,
}

/// Whether a directory is a freedesktop trash directory (`.Trash` or
/// `.Trash-<uid>`), which the walk does not enter.
pub open spec fn is_trash(name: Seq<char>) -> bool {
    name == ".Trash"@ || occurs_at(name, ".Trash-"@, 0)
}

pub fn is_trash_directory(name: &str) -> (r: bool)
    ensures
        r == is_trash(name@),
{
    let n = chars_of(name);
    chars_equal(&n, &chars_of(".Trash")) || occurs_at_exec(&n, &chars_of(".Trash-"), 0)
}

/// The folder a file is shown in: the directories between the mount point
/// and the file, joined with `/`, or `/` for a file directly in the mount point.
pub open spec fn folder_of(dirs: Seq<Seq<char>>) -> Seq<char> {
    if dirs.len() == 0 {
        "/"@
    } else {
        join(dirs, "/"@)
    }
}

/// The entry for a file named `name` at `path`, found below the mount point
/// through the directories `dirs`.
pub fn file_entry(dirs: &Vec<String>, name: &str, path: &str, modified_ts: i64, size_bytes: u64) -> (r: FileEntry)
    ensures
        r.name@ == name@,
        r.path@ == path@,
        r.folder@ == folder_of(views(dirs@)),
        r.modified_ts == modified_ts,
        r.size_bytes == size_bytes,
{
    let folder = if dirs.len() == 0 {
        String::from_str("/")
    } else {
        join_strings(dirs, "/")
    };
    FileEntry {
        name: String::from_str(name),
        path: String::from_str(path),
        folder,
        modified_ts,
        size_bytes,
    }
}

/// The sum of the sizes of `es`.
pub open spec fn total_size(es: Seq<FileEntry>) -> int
    decreases es.len(),
{
    if es.len() == 0 {
        0
    } else {
        total_size(es.drop_last()) + es.last().size_bytes
    }
}

/// Entry `i` is listed before entry `j`: newer first, then by name, then in
/// the order the walk found them.
pub open spec fn listed_before(es: Seq<FileEntry>, i: int, j: int) -> bool {
    ||| es[i].modified_ts > es[j].modified_ts
    ||| es[i].modified_ts == es[j].modified_ts && lex_lt(es[i].name@, es[j].name@)
    ||| es[i].modified_ts == es[j].modified_ts && es[i].name@ == es[j].name@ && i < j
}

/// `order` lists every index of `es` once, in listing order.
pub open spec fn is_listing_order(es: Seq<FileEntry>, order: Seq<int>) -> bool {
    &&& order.len() == es.len()
    &&& forall|k: int| 0 <= k < order.len() ==> 0 <= #[trigger] order[k] < es.len()
    &&& forall|a: int, b: int|
        0 <= a < b < order.len() ==> listed_before(es, #[trigger] order[a], #[trigger] order[b])
}

/// How many files are shown: `limit` (at least one), at most all of them.
pub open spec fn shown_count(found: nat, limit: usize) -> nat {
    let wanted: nat = if limit < 1 {
        1
    } else {
        limit as nat
    };
    if wanted < found {
        wanted
    } else {
        found
    }
}

proof fn lemma_listed_total(es: Seq<FileEntry>, i: int, j: int)
    requires
        i != j,
    ensures
        listed_before(es, i, j) || listed_before(es, j, i),
{
    lemma_lex_total(es[i].name@, es[j].name@);
}

proof fn lemma_listed_transitive(es: Seq<FileEntry>, i: int, j: int, k: int)
    requires
        listed_before(es, i, j),
        listed_before(es, j, k),
    ensures
        listed_before(es, i, k),
{
    if es[i].modified_ts == es[j].modified_ts && es[j].modified_ts == es[k].modified_ts {
        if lex_lt(es[i].name@, es[j].name@) && lex_lt(es[j].name@, es[k].name@) {
            lemma_lex_transitive(es[i].name@, es[j].name@, es[k].name@);
        }
    }
}

/// Listing order is a strict total order on the found files: no file comes
/// before itself, no two files each come before the other, any two distinct
/// files are ordered, and the order is transitive. So the listing order of a
/// set of found files is unique.
pub proof fn lemma_listing_is_strict_total_order(es: Seq<FileEntry>, i: int, j: int, k: int)
    ensures
        !listed_before(es, i, i),
        !(listed_before(es, i, j) && listed_before(es, j, i)),
        i != j ==> listed_before(es, i, j) || listed_before(es, j, i),
        listed_before(es, i, j) && listed_before(es, j, k) ==> listed_before(es, i, k),
{
    lemma_lex_irreflexive(es[i].name@);
    lemma_lex_asymmetric(es[i].name@, es[j].name@);
    if i != j {
        lemma_listed_total(es, i, j);
    }
    if listed_before(es, i, j) && listed_before(es, j, k) {
        lemma_listed_transitive(es, i, j, k);
    }
}

proof fn lemma_total_prefix(es: Seq<FileEntry>, i: int)
    requires
        0 <= i <= es.len(),
    ensures
        0 <= total_size(es.take(i)) <= total_size(es),
    decreases es.len() - i,
{
    if i < es.len() {
        lemma_total_prefix(es, i + 1);
        assert(es.take(i + 1).drop_last() =~= es.take(i));
        lemma_total_nonnegative(es.take(i));
    } else {
        assert(es.take(i) =~= es);
        lemma_total_nonnegative(es);
    }
}

proof fn lemma_total_nonnegative(es: Seq<FileEntry>)
    ensures
        total_size(es) >= 0,
    decreases es.len(),
{
    if es.len() > 0 {
        lemma_total_nonnegative(es.drop_last());
    }
}

fn listed_before_exec(es: &Vec<FileEntry>, i: usize, j: usize) -> (r: bool)
    requires
        i < es.len(),
        j < es.len(),
    ensures
        r == listed_before(es@, i as int, j as int),
{
    let a = &es[i];
    let b = &es[j];
    if a.modified_ts != b.modified_ts {
        return a.modified_ts > b.modified_ts;
    }
    let an = chars_of(a.name.as_str());
    let bn = chars_of(b.name.as_str());
    if lex_less(&an, &bn) {
        return true;
    }
    chars_equal(&an, &bn) && i < j
}

fn copy_entry(e: &FileEntry) -> (r: FileEntry)
    ensures
        r == *e,
{
    FileEntry {
        name: e.name.clone(),
        path: e.path.clone(),
        folder: e.folder.clone(),
        modified_ts: e.modified_ts,
        size_bytes: e.size_bytes,
    }
}

/// The indices of `es` in listing order.
fn listing_order(es: &Vec<FileEntry>) -> (r: Vec<usize>)
    ensures
        is_listing_order(es@, r@.map_values(|k: usize| k as int)),
{
    let n = es.len();
    let mut order: Vec<usize> = Vec::new();
    for i in 0..n
        invariant
            n == es.len(),
            order.len() == i,
            forall|k: int| 0 <= k < order.len() ==> #[trigger] order@[k] < i,
            forall|a: int, b: int|
                0 <= a < b < order.len() ==> listed_before(
                    es@,
                    #[trigger] order@[a] as int,
                    #[trigger] order@[b] as int,
                ),
    {
        let mut p: usize = 0;
        while p < order.len() && !listed_before_exec(es, i, order[p])
            invariant
                n == es.len(),
                i < n,
                order.len() == i,
                p <= order.len(),
                forall|k: int| 0 <= k < order.len() ==> #[trigger] order@[k] < i,
                forall|q: int| 0 <= q < p ==> listed_before(es@, #[trigger] order@[q] as int, i as int),
            decreases order.len() - p,
        {
            proof {
                lemma_listed_total(es@, order@[p as int] as int, i as int);
            }
            p += 1;
        }
        let ghost old_order = order@;
        order.insert(p, i);
        proof {
            assert forall|a: int, b: int| 0 <= a < b < order.len() implies listed_before(
                es@,
                #[trigger] order@[a] as int,
                #[trigger] order@[b] as int,
            ) by {
                if a < p && b < p {
                    assert(order@[a] == old_order[a] && order@[b] == old_order[b]);
                } else if a < p && b == p {
                    assert(order@[a] == old_order[a]);
                } else if a < p && b > p {
                    assert(order@[a] == old_order[a] && order@[b] == old_order[b - 1]);
                    if a < b - 1 {
                    }
                } else if a == p {
                    assert(order@[b] == old_order[b - 1]);
                    if b - 1 > p {
                        assert(listed_before(es@, old_order[p as int] as int, old_order[b - 1] as int));
                        lemma_listed_transitive(es@, i as int, old_order[p as int] as int, old_order[b - 1] as int);
                    }
                } else {
                    assert(order@[a] == old_order[a - 1] && order@[b] == old_order[b - 1]);
                }
            }
        }
    }
    proof {
        let m = order@.map_values(|k: usize| k as int);
        assert forall|a: int, b: int| 0 <= a < b < m.len() implies listed_before(es@, #[trigger] m[a], #[trigger] m[b]) by {
            assert(listed_before(es@, order@[a] as int, order@[b] as int));
        }
    }
    order
}

/// Totals the files found, in walk order, and lists the newest `limit` (at
/// least one) of them: newest first, equal times by name, equal names in the
/// order found. The total size must fit in a `u64`.
pub fn summarize_recent(entries: Vec<FileEntry>, limit: usize) -> (r: ScanSummary)
    requires
        total_size(entries@) <= u64::MAX,
    ensures
        r.file_count == entries@.len(),
        r.total_bytes == total_size(entries@),
        r.files@.len() == shown_count(entries@.len(), limit),
        exists|order: Seq<int>|
            is_listing_order(entries@, order) && forall|k: int|
                0 <= k < r.files@.len() ==> #[trigger] r.files@[k] == entries@[order[k]],
{
    let n = entries.len();
    let mut total: u64 = 0;
    assert(entries@.take(0) =~= Seq::<FileEntry>::empty());
    for i in 0..n
        invariant
            n == entries.len(),
            total_size(entries@) <= u64::MAX,
            total == total_size(entries@.take(i as int)),
    {
        proof {
            lemma_total_prefix(entries@, i + 1);
            assert(entries@.take(i + 1).drop_last() =~= entries@.take(i as int));
        }
        total = total + entries[i].size_bytes;
    }
    assert(entries@.take(n as int) =~= entries@);
    let order = listing_order(&entries);
    let wanted: usize = if limit < 1 {
        1
    } else {
        limit
    };
    let shown = if wanted < n {
        wanted
    } else {
        n
    };
    let mut files: Vec<FileEntry> = Vec::new();
    let ghost m = order@.map_values(|k: usize| k as int);
    for k in 0..shown
        invariant
            shown <= n,
            n == entries.len(),
            order.len() == n,
            m == order@.map_values(|k: usize| k as int),
            is_listing_order(entries@, m),
            files.len() == k,
            forall|j: int| 0 <= j < k ==> #[trigger] files@[j] == entries@[m[j]],
    {
        assert(0 <= m[k as int] < n);
        files.push(copy_entry(&entries[order[k]]));
    }
    ScanSummary { total_bytes: total, file_count: n, files }
}

} // verus!
