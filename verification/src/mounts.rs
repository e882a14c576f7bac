//! Reading the kernel mount table (`/proc/self/mounts` text).

use vstd::prelude::*;
use vstd::string::StrSliceExecFns;
use crate::text::{
    chars_equal, chars_of, find_exec, find_from, lemma_find_from, occurs_at, replace_all, replace_all_chars, slice_chars,
    split_on, string_of,
};

verus! {

/// The escape the kernel writes for a space in a mount table field.
pub open spec fn escaped_space() -> Seq<char> {
    seq!['\\', '0', '4', '0']
}

/// The escape the kernel writes for a tab.
pub open spec fn escaped_tab() -> Seq<char> {
    seq!['\\', '0', '1', '1']
}

/// The escape the kernel writes for a backslash.
pub open spec fn escaped_backslash() -> Seq<char> {
    seq!['\\', '1', '3', '4']
}

/// A mount table field with its octal escapes decoded: spaces first, then
/// tabs, then backslashes, each replacement running over the whole field.
pub open spec fn unescape(field: Seq<char>) -> Seq<char> {
    replace_all(
        replace_all(replace_all(field, escaped_space(), seq![' ']), escaped_tab(), seq!['\t']),
        escaped_backslash(),
        seq!['\\'],
    )
}

pub fn unescape_chars(field: &Vec<char>) -> (r: Vec<char>)
    ensures
        r@ == unescape(field@),
{
    let space_escape = vec!['\\', '0', '4', '0'];
    let tab_escape = vec!['\\', '0', '1', '1'];
    let backslash_escape = vec!['\\', '1', '3', '4'];
    assert(space_escape@ =~= escaped_space());
    assert(tab_escape@ =~= escaped_tab());
    assert(backslash_escape@ =~= escaped_backslash());
    let space = vec![' '];
    let tab = vec!['\t'];
    let backslash = vec!['\\'];
    assert(space@ =~= seq![' ']);
    assert(tab@ =~= seq!['\t']);
    assert(backslash@ =~= seq!['\\']);
    let a = replace_all_chars(field, &space_escape, &space);
    let b = replace_all_chars(&a, &tab_escape, &tab);
    replace_all_chars(&b, &backslash_escape, &backslash)
}

/// Decodes the `\040`, `\011` and `\134` escapes of a mount table field.
pub fn unescape_mount_field(field: &str) -> (r: String)
    ensures
        r@ == unescape(field@),
{
    let v = chars_of(field);
    let u = unescape_chars(&v);
    string_of(&u)
}

/// The bounds of the second space-separated field of `line`, if the line has
/// a space at all: it runs from after the first space to the next space or
/// the end of the line.
pub open spec fn second_field_bounds(line: Seq<char>) -> Option<(int, int)> {
    let p = find_from(line, seq![' '], 0);
    if p < 0 {
        None
    } else {
        let q = find_from(line, seq![' '], p + 1);
        Some((p + 1, if q < 0 { line.len() as int } else { q }))
    }
}

/// The mount point field (the second field) of a mount table line.
pub open spec fn mount_point(line: Seq<char>) -> Option<Seq<char>> {
    match second_field_bounds(line) {
        Some((a, b)) => Some(line.subrange(a, b)),
        None => None,
    }
}

fn second_field_bounds_exec(line: &Vec<char>) -> (r: Option<(usize, usize)>)
    ensures
        match r {
            Some((a, b)) => second_field_bounds(line@) == Some((a as int, b as int)) && a <= b
                <= line.len(),
            None => second_field_bounds(line@) is None,
        },
{
    let space = vec![' '];
    assert(space@ =~= seq![' ']);
    match find_exec(line, &space, 0) {
        None => None,
        Some(p) => {
            proof {
                lemma_find_from(line@, seq![' '], 0);
            }
            match find_exec(line, &space, p + 1) {
                None => Some((p + 1, line.len())),
                Some(q) => Some((p + 1, q)),
            }
        },
    }
}

pub fn mount_point_chars(line: &Vec<char>) -> (r: Option<Vec<char>>)
    ensures
        match r {
            Some(f) => mount_point(line@) == Some(f@),
            None => mount_point(line@) is None,
        },
{
    match second_field_bounds_exec(line) {
        None => None,
        Some((a, b)) => Some(slice_chars(line, a, b)),
    }
}

/// The mount point field of a mount table line, borrowed from the line.
pub fn mount_point_of_line(line: &str) -> (r: Option<&str>)
    ensures
        match r {
            Some(f) => mount_point(line@) == Some(f@),
            None => mount_point(line@) is None,
        },
{
    let v = chars_of(line);
    match second_field_bounds_exec(&v) {
        None => None,
        Some((a, b)) => Some(line.substring_char(a, b)),
    }
}

/// `l` without one trailing carriage return.
pub open spec fn strip_cr(l: Seq<char>) -> Seq<char> {
    if l.len() > 0 && l.last() == '\r' {
        l.drop_last()
    } else {
        l
    }
}

/// The lines of `s` (`str::lines`): pieces ended by `\n`, each without one
/// trailing `\r`, then the unended rest if it is not empty.
pub open spec fn lines(s: Seq<char>) -> Seq<Seq<char>> {
    let parts = split_on(s, '\n');
    let ended = parts.drop_last().map_values(|l: Seq<char>| strip_cr(l));
    if parts.last().len() > 0 {
        ended.push(parts.last())
    } else {
        ended
    }
}

/// Whether a mount table line names `mount_dir` as its mount point.
pub open spec fn line_names(line: Seq<char>, mount_dir: Seq<char>) -> bool {
    match mount_point(line) {
        Some(f) => unescape(f) == mount_dir,
        None => false,
    }
}

/// Whether some line of the mount table names `mount_dir` as its mount point.
pub open spec fn mounted_in(table: Seq<char>, mount_dir: Seq<char>) -> bool {
    exists|j: int| 0 <= j < lines(table).len() && line_names(#[trigger] lines(table)[j], mount_dir)
}

fn line_names_exec(line: &Vec<char>, mount_dir: &Vec<char>) -> (r: bool)
    ensures
        r == line_names(line@, mount_dir@),
{
    match mount_point_chars(line) {
        None => false,
        Some(f) => {
            let u = unescape_chars(&f);
            chars_equal(&u, mount_dir)
        },
    }
}

fn strip_cr_exec(l: &Vec<char>) -> (r: Vec<char>)
    ensures
        r@ == strip_cr(l@),
{
    if l.len() > 0 && l[l.len() - 1] == '\r' {
        slice_chars(l, 0, l.len() - 1)
    } else {
        slice_chars(l, 0, l.len())
    }
}

/// Whether the mount table text lists `mount_dir` as a mount point, comparing
/// against the unescaped field, whole path against whole path.
pub fn is_mounted_text(mounts_content: &str, mount_dir: &str) -> (r: bool)
    ensures
        r == mounted_in(mounts_content@, mount_dir@),
{
    let s = chars_of(mounts_content);
    let d = chars_of(mount_dir);
    let n = s.len();
    let mut cur: Vec<char> = Vec::new();
    let mut found = false;
    let ghost mut done: Seq<Seq<char>> = Seq::empty();
    assert(s@.take(0) =~= Seq::<char>::empty());
    assert(split_on(s@.take(0), '\n') =~= done.push(cur@));
    for i in 0..n
        invariant
            n == s.len(),
            split_on(s@.take(i as int), '\n') == done.push(cur@),
            found == exists|j: int|
                0 <= j < done.len() && line_names(strip_cr(#[trigger] done[j]), d@),
    {
        let c = s[i];
        let ghost prev = s@.take(i as int);
        assert(s@.take(i + 1).drop_last() =~= prev);
        if c == '\n' {
            let line = strip_cr_exec(&cur);
            let hit = line_names_exec(&line, &d);
            proof {
                let nd = done.push(cur@);
                if hit {
                    assert(nd[done.len() as int] == cur@);
                }
                if found {
                    let j = choose|j: int| 0 <= j < done.len() && line_names(strip_cr(#[trigger] done[j]), d@);
                    assert(nd[j] == done[j]);
                }
                if hit || found {
                    assert(exists|j: int| 0 <= j < nd.len() && line_names(strip_cr(#[trigger] nd[j]), d@));
                } else {
                    assert forall|j: int| 0 <= j < nd.len() implies !line_names(strip_cr(#[trigger] nd[j]), d@) by {
                        if j < done.len() {
                            assert(nd[j] == done[j]);
                        }
                    }
                }
                done = nd;
            }
            found = found || hit;
            cur = Vec::new();
            assert(split_on(s@.take(i + 1), '\n') =~= done.push(cur@));
        } else {
            cur.push(c);
            assert(split_on(s@.take(i + 1), '\n') =~= done.push(cur@));
        }
    }
    assert(s@.take(n as int) =~= s@);
    let ghost parts = split_on(s@, '\n');
    let ghost ended = parts.drop_last().map_values(|l: Seq<char>| strip_cr(l));
    assert(parts.drop_last() =~= done);
    assert(parts.last() == cur@);
    let last_hit = if cur.len() > 0 {
        line_names_exec(&cur, &d)
    } else {
        false
    };
    proof {
        let ls = lines(s@);
        if found {
            let j = choose|j: int| 0 <= j < done.len() && line_names(strip_cr(#[trigger] done[j]), d@);
            assert(ls[j] == strip_cr(done[j]));
        }
        if last_hit {
            assert(ls[done.len() as int] == cur@);
        }
        if !found && !last_hit {
            assert forall|j: int| 0 <= j < ls.len() implies !line_names(#[trigger] ls[j], d@) by {
                if j < done.len() {
                    assert(ls[j] == strip_cr(done[j]));
                } else {
                    assert(ls[j] == cur@);
                }
            }
        }
    }
    found || last_hit
}

/// The vault counts as mounted only when some line of the table has, as its
/// unescaped mount point, the whole path asked for: not a prefix of it, nor a
/// path that merely starts with it.
pub proof fn lemma_mounted_means_exact_mount_point(table: Seq<char>, mount_dir: Seq<char>)
    ensures
        mounted_in(table, mount_dir) <==> exists|j: int|
            0 <= j < lines(table).len() && (#[trigger] mount_point(lines(table)[j])) is Some
                && unescape(mount_point(lines(table)[j])->0) == mount_dir,
{
    if mounted_in(table, mount_dir) {
        let j = choose|j: int| 0 <= j < lines(table).len() && line_names(#[trigger] lines(table)[j], mount_dir);
        assert(mount_point(lines(table)[j]) is Some);
    }
    if exists|j: int|
        0 <= j < lines(table).len() && (#[trigger] mount_point(lines(table)[j])) is Some
            && unescape(mount_point(lines(table)[j])->0) == mount_dir {
        let j = choose|j: int|
            0 <= j < lines(table).len() && (#[trigger] mount_point(lines(table)[j])) is Some
                && unescape(mount_point(lines(table)[j])->0) == mount_dir;
        assert(line_names(lines(table)[j], mount_dir));
    }
}

/// A table whose mount points (unescaped) are all shorter than the path
/// asked for, such as one that lists only `/` and `/proc` when the vault lives
/// deeper, does not show the vault as mounted.
pub proof fn lemma_shorter_mount_points_do_not_count(table: Seq<char>, mount_dir: Seq<char>)
    requires
        forall|j: int|
            0 <= j < lines(table).len() && (#[trigger] mount_point(lines(table)[j])) is Some
                ==> unescape(mount_point(lines(table)[j])->0).len() < mount_dir.len(),
    ensures
        !mounted_in(table, mount_dir),
{
    if mounted_in(table, mount_dir) {
        let j = choose|j: int| 0 <= j < lines(table).len() && line_names(#[trigger] lines(table)[j], mount_dir);
        assert(mount_point(lines(table)[j]) is Some);
    }
}

} // verus!
