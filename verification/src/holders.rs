//! Processes that keep files of the decrypted vault open.
//!
//! Reading `/proc` is file-system work; this module decides which process
//! entries count, what each holds inside the vault, and how the holders are
//! grouped, ordered and capped.

use vstd::prelude::*;
use crate::paths::{path_starts_with, starts_with_path};
use crate::text::{
    char_views, chars_equal, chars_of, insert_sorted, is_ascii_digit, is_digit, lex_lt,
    lemma_lex_transitive, lemma_contains_push, string_of, strictly_sorted, trim, trim_chars, views,
};

verus! {

/// A process name and the vault paths its processes hold open.
#[derive(Debug, Clone, PartialEq, Eq)]
pub struct Holder {
    pub process: String,
    pub open_paths: Vec<String>,
}

/// What was read for one `/proc` entry: its name, the text of its `comm`
/// file (`None` when unreadable), and the targets of its `cwd` and `fd/*`
/// links that could be resolved.
pub struct ProcessRecord {
    pub entry_name: String,
    pub comm: Option<String>,
    pub links: Vec<String>,
}

/// At most this many paths are reported per process name.
pub const MAX_PATHS_PER_HOLDER: usize = 10;

/// A `/proc` entry is a process other than the helper itself when its name
/// is all digits and differs from the helper's own process id.
pub open spec fn is_other_process(name: Seq<char>, own_pid: Seq<char>) -> bool {
    (forall|i: int| 0 <= i < name.len() ==> is_ascii_digit(#[trigger] name[i])) && name != own_pid
}

pub fn is_process_entry(name: &str, own_pid: &str) -> (r: bool)
    ensures
        r == is_other_process(name@, own_pid@),
{
    let n = chars_of(name);
    let len = n.len();
    for i in 0..len
        invariant
            len == n.len(),
            n@ == name@,
            forall|k: int| 0 <= k < i ==> is_ascii_digit(#[trigger] n@[k]),
    {
        if !is_digit(n[i]) {
            assert(!is_ascii_digit(n@[i as int]));
            return false;
        }
    }
    !chars_equal(&n, &chars_of(own_pid))
}

/// The vault's own processes, which are never reported.
pub open spec fn ignored_process(p: Seq<char>) -> bool {
    p == "gocryptfs"@ || p == "omavault-helper"@
}

/// The process name of a record: its `comm` text, trimmed.
pub open spec fn process_of(r: ProcessRecord) -> Seq<char> {
    match r.comm {
        Some(c) => trim(c@),
        None => Seq::empty(),
    }
}

/// The record has a link to `x`, and `x` lies inside the mount point.
pub open spec fn holds_path(r: ProcessRecord, mount_dir: Seq<char>, x: Seq<char>) -> bool {
    views(r.links@).contains(x) && path_starts_with(x, mount_dir)
}

/// A record is reported: another process, with a name that is not one of
/// the vault's own, holding something inside the mount point.
pub open spec fn counts(r: ProcessRecord, own_pid: Seq<char>, mount_dir: Seq<char>) -> bool {
    &&& is_other_process(r.entry_name@, own_pid)
    &&& process_of(r).len() > 0
    &&& !ignored_process(process_of(r))
    &&& exists|x: Seq<char>| holds_path(r, mount_dir, x)
}

/// Some reported record among the first `n` is named `p`.
pub open spec fn named_among(records: Seq<ProcessRecord>, n: int, own_pid: Seq<char>, mount_dir: Seq<char>, p: Seq<char>) -> bool {
    exists|j: int|
        0 <= j < n && counts(#[trigger] records[j], own_pid, mount_dir) && process_of(records[j])
            == p
}

/// Some reported record among the first `n` named `p` holds `x`.
pub open spec fn held_among(
    records: Seq<ProcessRecord>,
    n: int,
    own_pid: Seq<char>,
    mount_dir: Seq<char>,
    p: Seq<char>,
    x: Seq<char>,
) -> bool {
    exists|j: int|
        0 <= j < n && counts(#[trigger] records[j], own_pid, mount_dir) && process_of(records[j])
            == p && holds_path(records[j], mount_dir, x)
}

/// `list` reports the paths held by processes named `p`: in order, each once,
/// at most `MAX_PATHS_PER_HOLDER` of them, the smallest ones when there are
/// more.
pub open spec fn reports_held_paths(
    list: Seq<Seq<char>>,
    records: Seq<ProcessRecord>,
    own_pid: Seq<char>,
    mount_dir: Seq<char>,
    p: Seq<char>,
) -> bool {
    &&& strictly_sorted(list)
    &&& list.len() <= MAX_PATHS_PER_HOLDER
    &&& forall|k: int|
        0 <= k < list.len() ==> held_among(records, records.len() as int, own_pid, mount_dir, p, #[trigger] list[k])
    &&& forall|x: Seq<char>|
        held_among(records, records.len() as int, own_pid, mount_dir, p, x) ==> list.contains(x) || (
        list.len() == MAX_PATHS_PER_HOLDER && lex_lt(list.last(), x))
}

/// The record's process name and the paths it holds inside the mount point,
/// when it is reported.
fn reported(r: &ProcessRecord, own_pid: &str, mount_dir: &str) -> (out: Option<(Vec<char>, Vec<Vec<char>>)>)
    ensures
        match out {
            Some((p, held)) => counts(*r, own_pid@, mount_dir@) && p@ == process_of(*r) && forall|x: Seq<char>|
                char_views(held@).contains(x) <==> holds_path(*r, mount_dir@, x),
            None => !counts(*r, own_pid@, mount_dir@),
        },
{
    if !is_process_entry(r.entry_name.as_str(), own_pid) {
        return None;
    }
    let process = match &r.comm {
        Some(c) => trim_chars(&chars_of(c.as_str())),
        None => Vec::new(),
    };
    assert(process@ == process_of(*r));
    if process.len() == 0 || chars_equal(&process, &chars_of("gocryptfs")) || chars_equal(
        &process,
        &chars_of("omavault-helper"),
    ) {
        return None;
    }
    let mut held: Vec<Vec<char>> = Vec::new();
    let n = r.links.len();
    for k in 0..n
        invariant
            n == r.links.len(),
            forall|x: Seq<char>|
                #![trigger char_views(held@).contains(x)]
                #![trigger views(r.links@).take(k as int).contains(x)]
                char_views(held@).contains(x) <==> (views(r.links@).take(k as int).contains(x)
                    && path_starts_with(x, mount_dir@)),
    {
        let ghost before = char_views(held@);
        assert(forall|x: Seq<char>| before.contains(x) <==> (views(r.links@).take(k as int).contains(x)
                    && path_starts_with(x, mount_dir@)));
        let ghost lk = r.links@[k as int]@;
        assert(views(r.links@).take(k + 1) =~= views(r.links@).take(k as int).push(lk));
        let inside = starts_with_path(r.links[k].as_str(), mount_dir);
        if inside {
            held.push(chars_of(r.links[k].as_str()));
            assert(char_views(held@) =~= before.push(lk));
        }
        proof {
            let t = views(r.links@).take(k as int);
            assert(inside == path_starts_with(lk, mount_dir@));
            assert(inside ==> char_views(held@) == before.push(lk));
            assert(!inside ==> char_views(held@) == before);
            assert forall|x: Seq<char>|
                #![trigger char_views(held@).contains(x)]
                #![trigger views(r.links@).take(k + 1).contains(x)]
                char_views(held@).contains(x) <==> (views(r.links@).take(k + 1).contains(x)
                && path_starts_with(x, mount_dir@)) by {
                lemma_contains_push(t, lk, x);
                lemma_contains_push(before, lk, x);
                assert(before.contains(x) <==> (t.contains(x) && path_starts_with(x, mount_dir@)));
            }
        }
    }
    assert(views(r.links@).take(n as int) =~= views(r.links@));
    if held.len() == 0 {
        proof {
            assert forall|x: Seq<char>| !holds_path(*r, mount_dir@, x) by {
                if holds_path(*r, mount_dir@, x) {
                    assert(char_views(held@).contains(x));
                }
            }
        }
        return None;
    }
    assert(char_views(held@).contains(char_views(held@)[0]));
    assert(holds_path(*r, mount_dir@, char_views(held@)[0]));
    Some((process, held))
}

/// The vault's own processes, and processes without a name, are never
/// among the reported ones.
pub proof fn lemma_reported_names(records: Seq<ProcessRecord>, own_pid: Seq<char>, mount_dir: Seq<char>, p: Seq<char>)
    requires
        named_among(records, records.len() as int, own_pid, mount_dir, p),
    ensures
        !ignored_process(p),
        p.len() > 0,
{
}

/// The names of the reported processes, in order, each once.
fn holder_names(records: &Vec<ProcessRecord>, own_pid: &str, mount_dir: &str) -> (names: Vec<Vec<char>>)
    ensures
        strictly_sorted(char_views(names@)),
        forall|p: Seq<char>|
            char_views(names@).contains(p) <==> named_among(
                records@,
                records@.len() as int,
                own_pid@,
                mount_dir@,
                p,
            ),
{
    let mut names: Vec<Vec<char>> = Vec::new();
    let n = records.len();
    for i in 0..n
        invariant
            n == records.len(),
            strictly_sorted(char_views(names@)),
            forall|p: Seq<char>|
                char_views(names@).contains(p) <==> named_among(records@, i as int, own_pid@, mount_dir@, p),
    {
        match reported(&records[i], own_pid, mount_dir) {
            Some((process, _held)) => {
                let ghost pv = process@;
                insert_sorted(&mut names, process);
                proof {
                    assert forall|p: Seq<char>| char_views(names@).contains(p) <==> named_among(records@, i + 1, own_pid@, mount_dir@, p) by {
                        if named_among(records@, i + 1, own_pid@, mount_dir@, p) {
                            let j = choose|j: int| 0 <= j < i + 1 && counts(#[trigger] records@[j], own_pid@, mount_dir@) && process_of(records@[j]) == p;
                            if j < i {
                                assert(named_among(records@, i as int, own_pid@, mount_dir@, p));
                            }
                        }
                        if named_among(records@, i as int, own_pid@, mount_dir@, p) {
                            let j = choose|j: int| 0 <= j < i && counts(#[trigger] records@[j], own_pid@, mount_dir@) && process_of(records@[j]) == p;
                            assert(0 <= j < i + 1);
                        }
                        if p == pv {
                            assert(counts(records@[i as int], own_pid@, mount_dir@));
                        }
                    }
                }
            },
            None => {
                proof {
                    assert forall|p: Seq<char>| named_among(records@, i + 1, own_pid@, mount_dir@, p) <==> named_among(records@, i as int, own_pid@, mount_dir@, p) by {
                        if named_among(records@, i + 1, own_pid@, mount_dir@, p) {
                            let j = choose|j: int| 0 <= j < i + 1 && counts(#[trigger] records@[j], own_pid@, mount_dir@) && process_of(records@[j]) == p;
                            assert(j != i);
                        }
                        if named_among(records@, i as int, own_pid@, mount_dir@, p) {
                            let j = choose|j: int| 0 <= j < i && counts(#[trigger] records@[j], own_pid@, mount_dir@) && process_of(records@[j]) == p;
                            assert(0 <= j < i + 1);
                        }
                    }
                }
            },
        }
    }
    names
}

/// The paths held by the reported processes named `p`, in order, each once.
fn held_paths_of(records: &Vec<ProcessRecord>, own_pid: &str, mount_dir: &str, p: &Vec<char>) -> (paths: Vec<Vec<char>>)
    ensures
        strictly_sorted(char_views(paths@)),
        forall|x: Seq<char>|
            #![trigger char_views(paths@).contains(x)]
            char_views(paths@).contains(x) <==> held_among(
                records@,
                records@.len() as int,
                own_pid@,
                mount_dir@,
                p@,
                x,
            ),
{
    let mut paths: Vec<Vec<char>> = Vec::new();
    let n = records.len();
    for j in 0..n
        invariant
            n == records.len(),
            strictly_sorted(char_views(paths@)),
            forall|x: Seq<char>|
                #![trigger char_views(paths@).contains(x)]
                char_views(paths@).contains(x) <==> held_among(records@, j as int, own_pid@, mount_dir@, p@, x),
    {
        let ghost at_start = char_views(paths@);
        let found = reported(&records[j], own_pid, mount_dir);
        let mut took = false;
        match found {
            Some((q, held)) => {
                if chars_equal(&q, p) {
                    took = true;
                    let m = held.len();
                    for k in 0..m
                        invariant
                            m == held.len(),
                            strictly_sorted(char_views(paths@)),
                            forall|x: Seq<char>|
                                #![trigger char_views(paths@).contains(x)]
                                char_views(paths@).contains(x) <==> (at_start.contains(x)
                                    || char_views(held@).take(k as int).contains(x)),
                    {
                        let ghost before = char_views(paths@);
                        let ghost hk = held@[k as int]@;
                        assert(char_views(held@).take(k + 1) =~= char_views(held@).take(k as int).push(hk));
                        insert_sorted(&mut paths, slice_copy(&held[k]));
                        proof {
                            assert forall|x: Seq<char>|
                                #![trigger char_views(paths@).contains(x)]
                                char_views(paths@).contains(x) <==> (at_start.contains(x)
                                    || char_views(held@).take(k + 1).contains(x)) by {
                                lemma_contains_push(char_views(held@).take(k as int), hk, x);
                                assert(before.contains(x) <==> (at_start.contains(x)
                                    || char_views(held@).take(k as int).contains(x)));
                            }
                        }
                    }
                    assert(char_views(held@).take(m as int) =~= char_views(held@));
                    proof {
                        assert forall|x: Seq<char>|
                            #![trigger char_views(paths@).contains(x)]
                            char_views(paths@).contains(x) <==> held_among(records@, j + 1, own_pid@, mount_dir@, p@, x) by {
                            if held_among(records@, j + 1, own_pid@, mount_dir@, p@, x) {
                                let w = choose|w: int| 0 <= w < j + 1 && counts(#[trigger] records@[w], own_pid@, mount_dir@) && process_of(records@[w]) == p@ && holds_path(records@[w], mount_dir@, x);
                                if w < j {
                                    assert(held_among(records@, j as int, own_pid@, mount_dir@, p@, x));
                                    assert(at_start.contains(x));
                                } else {
                                    assert(char_views(held@).contains(x));
                                }
                            }
                            if at_start.contains(x) {
                                assert(held_among(records@, j as int, own_pid@, mount_dir@, p@, x));
                                let w = choose|w: int| 0 <= w < j && counts(#[trigger] records@[w], own_pid@, mount_dir@) && process_of(records@[w]) == p@ && holds_path(records@[w], mount_dir@, x);
                                assert(0 <= w < j + 1);
                            }
                            if char_views(held@).contains(x) {
                                assert(holds_path(records@[j as int], mount_dir@, x));
                                assert(counts(records@[j as int], own_pid@, mount_dir@));
                            }
                        }
                    }
                }
            },
            None => {},
        }
        if !took {
            proof {
                assert forall|x: Seq<char>|
                    #![trigger char_views(paths@).contains(x)]
                    char_views(paths@).contains(x) <==> held_among(records@, j + 1, own_pid@, mount_dir@, p@, x) by {
                    if held_among(records@, j + 1, own_pid@, mount_dir@, p@, x) {
                        let w = choose|w: int| 0 <= w < j + 1 && counts(#[trigger] records@[w], own_pid@, mount_dir@) && process_of(records@[w]) == p@ && holds_path(records@[w], mount_dir@, x);
                        assert(w != j);
                        assert(held_among(records@, j as int, own_pid@, mount_dir@, p@, x));
                    }
                    if at_start.contains(x) {
                        assert(held_among(records@, j as int, own_pid@, mount_dir@, p@, x));
                        let w = choose|w: int| 0 <= w < j && counts(#[trigger] records@[w], own_pid@, mount_dir@) && process_of(records@[w]) == p@ && holds_path(records@[w], mount_dir@, x);
                        assert(0 <= w < j + 1);
                    }
                }
            }
        }
    }
    paths
}

/// Groups the reported `/proc` records into holders: one per process name,
/// ordered by name, each listing the paths (inside `mount_dir`) that its
/// processes hold open, in order, each once, at most ten.
pub fn holders_from(records: &Vec<ProcessRecord>, own_pid: &str, mount_dir: &str) -> (r: Vec<Holder>)
    ensures
        forall|a: int, b: int|
            0 <= a < b < r@.len() ==> lex_lt(#[trigger] r@[a].process@, #[trigger] r@[b].process@),
        forall|a: int|
            0 <= a < r@.len() ==> named_among(
                records@,
                records@.len() as int,
                own_pid@,
                mount_dir@,
                #[trigger] r@[a].process@,
            ),
        forall|p: Seq<char>|
            named_among(records@, records@.len() as int, own_pid@, mount_dir@, p) ==> exists|a: int|
                0 <= a < r@.len() && #[trigger] r@[a].process@ == p,
        forall|a: int|
            0 <= a < r@.len() ==> reports_held_paths(
                views(#[trigger] r@[a].open_paths@),
                records@,
                own_pid@,
                mount_dir@,
                r@[a].process@,
            ),
{
    let names = holder_names(records, own_pid, mount_dir);
    let ghost nv = char_views(names@);
    let mut r: Vec<Holder> = Vec::new();
    let count = names.len();
    for g in 0..count
        invariant
            count == names.len(),
            nv == char_views(names@),
            strictly_sorted(nv),
            forall|p: Seq<char>| nv.contains(p) <==> named_among(records@, records@.len() as int, own_pid@, mount_dir@, p),
            r.len() == g,
            forall|a: int| 0 <= a < g ==> #[trigger] r@[a].process@ == nv[a],
            forall|a: int|
                0 <= a < g ==> reports_held_paths(
                    views(#[trigger] r@[a].open_paths@),
                    records@,
                    own_pid@,
                    mount_dir@,
                    r@[a].process@,
                ),
    {
        let paths = held_paths_of(records, own_pid, mount_dir, &names[g]);
        let ghost pv = char_views(paths@);
        let shown = if paths.len() < MAX_PATHS_PER_HOLDER {
            paths.len()
        } else {
            MAX_PATHS_PER_HOLDER
        };
        let mut open_paths: Vec<String> = Vec::new();
        for k in 0..shown
            invariant
                shown <= paths.len(),
                pv == char_views(paths@),
                open_paths.len() == k,
                views(open_paths@) == pv.take(k as int),
        {
            open_paths.push(string_of(&paths[k]));
            assert(views(open_paths@) =~= pv.take(k + 1));
        }
        let ghost list = views(open_paths@);
        let ghost p = nv[g as int];
        proof {
            assert(list =~= pv.take(shown as int));
            assert forall|k: int| 0 <= k < list.len() implies held_among(records@, records@.len() as int, own_pid@, mount_dir@, p, #[trigger] list[k]) by {
                assert(list[k] == pv[k]);
                assert(pv.contains(pv[k]));
            }
            assert forall|x: Seq<char>|
                held_among(records@, records@.len() as int, own_pid@, mount_dir@, p, x) implies list.contains(x) || (
                list.len() == MAX_PATHS_PER_HOLDER && lex_lt(list.last(), x)) by {
                assert(pv.contains(x));
                let q = choose|q: int| 0 <= q < pv.len() && pv[q] == x;
                if q < shown {
                    assert(list[q] == x);
                } else {
                    assert(list.last() == pv[shown - 1]);
                    assert(lex_lt(pv[shown - 1], pv[q]));
                }
            }
            assert forall|a: int, b: int| 0 <= a < b < list.len() implies lex_lt(#[trigger] list[a], #[trigger] list[b]) by {
                assert(list[a] == pv[a] && list[b] == pv[b]);
            }
        }
        r.push(Holder { process: string_of(&names[g]), open_paths });
    }
    proof {
        assert forall|p: Seq<char>|
            named_among(records@, records@.len() as int, own_pid@, mount_dir@, p) implies exists|a: int|
                0 <= a < r@.len() && #[trigger] r@[a].process@ == p by {
            assert(nv.contains(p));
            let a = choose|a: int| 0 <= a < nv.len() && nv[a] == p;
            assert(r@[a].process@ == p);
        }
        assert forall|a: int| 0 <= a < r@.len() implies named_among(
            records@,
            records@.len() as int,
            own_pid@,
            mount_dir@,
            #[trigger] r@[a].process@,
        ) by {
            assert(nv.contains(nv[a]));
        }
    }
    r
}

fn slice_copy(v: &Vec<char>) -> (r: Vec<char>)
    ensures
        r@ == v@,
{
    let mut r: Vec<char> = Vec::new();
    let n = v.len();
    for i in 0..n
        invariant
            n == v.len(),
            r@ == v@.take(i as int),
    {
        r.push(v[i]);
        assert(v@.take(i + 1) =~= v@.take(i as int).push(v@[i as int]));
    }
    assert(v@.take(n as int) =~= v@);
    r
}

} // verus!
