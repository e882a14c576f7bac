//! Where the vault lives: its root directory and the paths derived from it.

use vstd::prelude::*;
use vstd::string::StringExecFns;
use crate::text::{chars_equal, chars_of, push_char, split_on, string_of, trim, trim_chars};

verus! {

/// The environment variable that overrides the vault root.
pub const ROOT_ENV_VAR: &'static str = "OMAVAULT_ROOT";

/// `base` extended by `name` as `PathBuf::push` does on Unix: an absolute
/// `name` replaces `base`; otherwise a `/` goes between them unless `base` is
/// empty or already ends with one.
pub open spec fn path_join(base: Seq<char>, name: Seq<char>) -> Seq<char> {
    if name.len() > 0 && name[0] == '/' {
        name
    } else if base.len() == 0 || base.last() == '/' {
        base + name
    } else {
        base + seq!['/'] + name
    }
}

pub fn join_path(base: &str, name: &str) -> (r: String)
    ensures
        r@ == path_join(base@, name@),
{
    let n = chars_of(name);
    if n.len() > 0 && n[0] == '/' {
        return string_of(&n);
    }
    let b = chars_of(base);
    let mut r = String::from_str(base);
    if !(b.len() == 0 || b[b.len() - 1] == '/') {
        push_char(&mut r, '/');
    }
    r.append(name);
    r
}

/// The normal components among path pieces: the non-empty ones other than `.`.
pub open spec fn normal_parts(pieces: Seq<Seq<char>>) -> Seq<Seq<char>>
    decreases pieces.len(),
{
    if pieces.len() == 0 {
        Seq::empty()
    } else {
        let rest = normal_parts(pieces.drop_last());
        let p = pieces.last();
        if p.len() > 0 && p != seq!['.'] {
            rest.push(p)
        } else {
            rest
        }
    }
}

/// The components of a Unix path as `Path::components` yields them: `/` for
/// the root of an absolute path, `.` for a relative path that starts with
/// `./` (or is `.`), then the normal components, `.` pieces and repeated or
/// trailing separators dropped.
pub open spec fn components(path: Seq<char>) -> Seq<Seq<char>> {
    let pieces = split_on(path, '/');
    if path.len() > 0 && path[0] == '/' {
        seq![seq!['/']] + normal_parts(pieces)
    } else if pieces[0] == seq!['.'] {
        seq![seq!['.']] + normal_parts(pieces)
    } else {
        normal_parts(pieces)
    }
}

/// `Path::starts_with`: the components of `base` begin the components of `path`.
pub open spec fn path_starts_with(path: Seq<char>, base: Seq<char>) -> bool {
    components(base).len() <= components(path).len() && components(base) == components(
        path,
    ).take(components(base).len() as int)
}

pub open spec fn component_views(v: Seq<Vec<char>>) -> Seq<Seq<char>> {
    v.map_values(|c: Vec<char>| c@)
}

fn components_exec(path: &Vec<char>) -> (r: Vec<Vec<char>>)
    ensures
        component_views(r@) == components(path@),
{
    let n = path.len();
    let mut normal: Vec<Vec<char>> = Vec::new();
    let mut cur: Vec<char> = Vec::new();
    let mut first_piece: Option<Vec<char>> = None;
    let ghost mut done: Seq<Seq<char>> = Seq::empty();
    assert(path@.take(0) =~= Seq::<char>::empty());
    assert(split_on(path@.take(0), '/') =~= done.push(cur@));
    for i in 0..n
        invariant
            n == path.len(),
            split_on(path@.take(i as int), '/') == done.push(cur@),
            component_views(normal@) == normal_parts(done),
            match first_piece {
                Some(f) => done.len() > 0 && done[0] == f@,
                None => done.len() == 0,
            },
    {
        let c = path[i];
        assert(path@.take(i + 1).drop_last() =~= path@.take(i as int));
        if c == '/' {
            let ghost nd = done.push(cur@);
            if first_piece.is_none() {
                first_piece = Some(slice_all(&cur));
            }
            let keep = cur.len() > 0 && !(cur.len() == 1 && cur[0] == '.');
            proof {
                assert(nd.drop_last() =~= done);
                assert(nd.last() == cur@);
                if cur@.len() == 1 && cur@[0] == '.' {
                    assert(cur@ =~= seq!['.']);
                }
                if cur@ == seq!['.'] {
                    assert(cur@.len() == 1 && cur@[0] == '.');
                }
            }
            if keep {
                normal.push(slice_all(&cur));
                assert(component_views(normal@) =~= normal_parts(nd));
            } else {
                assert(component_views(normal@) =~= normal_parts(nd));
            }
            proof {
                done = nd;
            }
            cur = Vec::new();
            assert(split_on(path@.take(i + 1), '/') =~= done.push(cur@));
        } else {
            cur.push(c);
            assert(split_on(path@.take(i + 1), '/') =~= done.push(cur@));
        }
    }
    assert(path@.take(n as int) =~= path@);
    let ghost pieces = done.push(cur@);
    assert(pieces.drop_last() =~= done);
    let keep_last = cur.len() > 0 && !(cur.len() == 1 && cur[0] == '.');
    proof {
        if cur@.len() == 1 && cur@[0] == '.' {
            assert(cur@ =~= seq!['.']);
        }
        if cur@ == seq!['.'] {
            assert(cur@.len() == 1 && cur@[0] == '.');
        }
    }
    let first = match first_piece {
        Some(f) => f,
        None => slice_all(&cur),
    };
    assert(pieces[0] == first@);
    if keep_last {
        normal.push(slice_all(&cur));
    }
    assert(component_views(normal@) =~= normal_parts(pieces));
    let mut r: Vec<Vec<char>> = Vec::new();
    if n > 0 && path[0] == '/' {
        let root = vec!['/'];
        assert(root@ =~= seq!['/']);
        r.push(root);
        assert(component_views(r@) =~= seq![seq!['/']]);
    } else if first.len() == 1 && first[0] == '.' {
        let current = vec!['.'];
        assert(current@ =~= seq!['.']);
        r.push(current);
        assert(component_views(r@) =~= seq![seq!['.']]);
    }
    let m = normal.len();
    let ghost lead = component_views(r@);
    for k in 0..m
        invariant
            m == normal.len(),
            component_views(r@) == lead + component_views(normal@).take(k as int),
    {
        let ghost before = r@;
        r.push(slice_all(&normal[k]));
        assert(component_views(r@) =~= component_views(before).push(normal@[k as int]@));
        assert(component_views(normal@).take(k + 1) =~= component_views(normal@).take(k as int).push(normal@[k as int]@));
        assert(component_views(r@) =~= lead + component_views(normal@).take(k + 1));
    }
    assert(component_views(normal@).take(m as int) =~= component_views(normal@));
    proof {
        if n > 0 && path@[0] == '/' {
            assert(lead =~= seq![seq!['/']]);
        } else if first@.len() == 1 && first@[0] == '.' {
            assert(first@ =~= seq!['.']);
            assert(lead =~= seq![seq!['.']]);
        } else {
            if first@ == seq!['.'] {
                assert(first@.len() == 1 && first@[0] == '.');
            }
            assert(lead =~= Seq::<Seq<char>>::empty());
        }
    }
    assert(component_views(r@) =~= components(path@));
    r
}

fn slice_all(v: &Vec<char>) -> (r: Vec<char>)
    ensures
        r@ == v@,
{
    let mut r: Vec<char> = Vec::new();
    let n = v.len();
    for i in 0..n
        invariant
            n == v.len(),
            r@ == v@.take(i as int),
    {
        r.push(v[i]);
        assert(v@.take(i + 1) =~= v@.take(i as int).push(v@[i as int]));
    }
    assert(v@.take(n as int) =~= v@);
    r
}

/// Whether `path` lies at or below `base`, comparing whole components.
pub fn starts_with_path(path: &str, base: &str) -> (r: bool)
    ensures
        r == path_starts_with(path@, base@),
{
    let pc = chars_of(path);
    let bc = chars_of(base);
    let p = components_exec(&pc);
    let b = components_exec(&bc);
    if b.len() > p.len() {
        return false;
    }
    let n = b.len();
    for k in 0..n
        invariant
            n == b.len(),
            n <= p.len(),
            component_views(p@) == components(path@),
            component_views(b@) == components(base@),
            forall|j: int| 0 <= j < k ==> component_views(b@)[j] == component_views(p@)[j],
    {
        if !chars_equal(&b[k], &p[k]) {
            assert(component_views(b@)[k as int] != component_views(p@).take(n as int)[k as int]);
            assert(!(component_views(b@) =~= component_views(p@).take(n as int)));
            return false;
        }
    }
    assert(component_views(b@) =~= component_views(p@).take(n as int));
    true
}

/// The directories of a vault, all under one root.
#[derive(Debug, Clone, PartialEq, Eq)]
pub struct Layout {
    pub root: String,
}

/// `std::path::Path::is_file`: whether `path` names a regular file, following
/// symbolic links. The answer depends on the file system at the time of the
/// call, so nothing is stated of it.
#[verifier::external_body]
fn path_is_file(path: &str) -> bool {
    std::path::Path::new(path).is_file()
}

impl Layout {
    pub fn new(root: &str) -> (r: Self)
        ensures
            r.root@ == root@,
    {
        Layout { root: String::from_str(root) }
    }

    /// The encrypted vault directory, `<root>/vault`.
    pub fn cipher_dir(&self) -> (r: String)
        ensures
            r@ == path_join(self.root@, "vault"@),
    {
        join_path(self.root.as_str(), "vault")
    }

    /// The mount point of the decrypted view, `<root>/Protected Files`.
    pub fn mount_dir(&self) -> (r: String)
        ensures
            r@ == path_join(self.root@, "Protected Files"@),
    {
        join_path(self.root.as_str(), "Protected Files")
    }

    /// Where files found in the locked mount point are moved, `<root>/recovered`.
    pub fn recovered_dir(&self) -> (r: String)
        ensures
            r@ == path_join(self.root@, "recovered"@),
    {
        join_path(self.root.as_str(), "recovered")
    }

    /// The gocryptfs configuration file whose presence marks an initialized vault.
    pub fn config_file(&self) -> (r: String)
        ensures
            r@ == path_join(path_join(self.root@, "vault"@), "gocryptfs.conf"@),
    {
        let cipher = self.cipher_dir();
        join_path(cipher.as_str(), "gocryptfs.conf")
    }

    /// Whether the vault was created: its gocryptfs configuration file exists.
    pub fn is_initialized(&self) -> bool {
        let config = self.config_file();
        path_is_file(config.as_str())
    }
}

/// The error when no root can be found.
pub open spec fn no_root_message() -> Seq<char> {
    "neither OMAVAULT_ROOT nor HOME is set"@
}

/// The vault root: `$OMAVAULT_ROOT` when it is set to more than white space
/// (trimmed), else `$HOME/.local/share/omavault` when `HOME` is (trimmed).
pub open spec fn root_from(env_root: Option<Seq<char>>, home: Option<Seq<char>>) -> Result<Seq<char>, Seq<char>> {
    if env_root is Some && trim(env_root->0).len() > 0 {
        Ok(trim(env_root->0))
    } else if home is Some && trim(home->0).len() > 0 {
        Ok(path_join(trim(home->0), ".local/share/omavault"@))
    } else {
        Err(no_root_message())
    }
}

/// A non-blank `OMAVAULT_ROOT` wins over `HOME`, whatever `HOME` holds.
pub proof fn lemma_env_root_wins(env_root: Seq<char>, home: Option<Seq<char>>)
    requires
        trim(env_root).len() > 0,
    ensures
        root_from(Some(env_root), home) == Ok::<Seq<char>, Seq<char>>(trim(env_root)),
{
}

pub open spec fn option_view(o: Option<&str>) -> Option<Seq<char>> {
    match o {
        Some(s) => Some(s@),
        None => None,
    }
}

/// Finds the vault root from the values of `OMAVAULT_ROOT` and `HOME`.
pub fn resolve_root(env_root: Option<&str>, home: Option<&str>) -> (r: Result<String, String>)
    ensures
        match r {
            Ok(p) => root_from(option_view(env_root), option_view(home)) == Ok::<Seq<char>, Seq<char>>(p@),
            Err(e) => root_from(option_view(env_root), option_view(home)) == Err::<Seq<char>, Seq<char>>(e@),
        },
{
    if let Some(root) = env_root {
        let trimmed = trim_chars(&chars_of(root));
        if trimmed.len() > 0 {
            return Ok(string_of(&trimmed));
        }
    }
    if let Some(h) = home {
        let trimmed = trim_chars(&chars_of(h));
        if trimmed.len() > 0 {
            let base = string_of(&trimmed);
            return Ok(join_path(base.as_str(), ".local/share/omavault"));
        }
    }
    Err(String::from_str("neither OMAVAULT_ROOT nor HOME is set"))
}

} // verus!
