//! The manifest of a package or workspace, and what it says about where the
//! sources are: workspace members, and the targets of a package.
use vstd::prelude::*;
use vstd::string::*;

use crate::ir::strings;

verus! {

broadcast use vstd::std_specs::vec::group_vec_axioms, vstd::seq::group_seq_axioms;

/// A decoded manifest.
pub struct Manifest {
    pub package: Option<Package>,
    pub lib: Option<Lib>,
    pub workspace: Option<Workspace>,
}

/// The `[package]` table.
pub struct Package {
    pub name: String,
}

/// The `[lib]` table.
pub struct Lib {
    pub name: Option<String>,
    pub path: Option<String>,
}

/// The `[workspace]` table.
pub struct Workspace {
    pub members: Vec<String>,
    pub exclude: Vec<String>,
}

/// A compilation unit's entry: its name and the directory of its entry file.
pub struct Target {
    pub name: String,
    pub path: String,
}

/// The errors of reading a package's targets.
pub enum Error {
    TargetEntryMissing { path: String },
    NotAPackage { path: String },
}

impl Target {
    pub fn new(name: String, path: String) -> (r: Target)
        ensures
            r.name@ == name@,
            r.path@ == path@,
    {
        Target { name, path }
    }
}

pub open spec fn is_absolute(p: Seq<char>) -> bool {
    p.len() > 0 && p[0] == '/'
}

/// `rel` resolved against `base`: an absolute `rel` stands as it is;
/// otherwise the two are joined by one separator.
pub open spec fn path_join(base: Seq<char>, rel: Seq<char>) -> Seq<char> {
    if is_absolute(rel) || base.len() == 0 {
        rel
    } else if base.last() == '/' {
        base + rel
    } else {
        base + "/"@ + rel
    }
}

/// `s` without its trailing separators.
pub open spec fn trim_end_slashes(s: Seq<char>) -> Seq<char>
    decreases s.len(),
{
    if s.len() > 0 && s.last() == '/' {
        trim_end_slashes(s.drop_last())
    } else {
        s
    }
}

/// The index of the last separator of `s`, or -1.
pub open spec fn last_slash(s: Seq<char>) -> int
    decreases s.len(),
{
    if s.len() == 0 {
        -1
    } else if s.last() == '/' {
        s.len() - 1
    } else {
        last_slash(s.drop_last())
    }
}

/// The directory that holds the file at `p`, if it has one: the path up to
/// its last component, with the separators around that cut removed; the root
/// and the empty path have none.
pub open spec fn parent_of(p: Seq<char>) -> Option<Seq<char>> {
    let t = trim_end_slashes(p);
    if t.len() == 0 {
        None
    } else {
        let k = last_slash(t);
        if k < 0 {
            Some(Seq::empty())
        } else {
            let q = trim_end_slashes(t.take(k));
            if q.len() == 0 {
                Some(seq!['/'])
            } else {
                Some(q)
            }
        }
    }
}

/// The length of `s[..n]` without its trailing separators.
fn trimmed_len(s: &str, n: usize) -> (r: usize)
    requires
        n <= s@.len(),
    ensures
        r <= n,
        trim_end_slashes(s@.take(n as int)) == s@.take(r as int),
{
    let mut r: usize = n;
    while r > 0 && s.get_char(r - 1) == '/'
        invariant
            r <= n,
            n <= s@.len(),
            trim_end_slashes(s@.take(n as int)) == trim_end_slashes(s@.take(r as int)),
        decreases r,
    {
        assert(s@.take(r as int).drop_last() =~= s@.take(r - 1));
        r -= 1;
    }
    r
}

/// The index of the last separator of `s[..n]`, if any.
fn last_slash_in(s: &str, n: usize) -> (r: Option<usize>)
    requires
        n <= s@.len(),
    ensures
        match r {
            Some(k) => k < n && last_slash(s@.take(n as int)) == k,
            None => last_slash(s@.take(n as int)) == -1,
        },
{
    let mut k: usize = n;
    while k > 0 && s.get_char(k - 1) != '/'
        invariant
            k <= n,
            n <= s@.len(),
            last_slash(s@.take(n as int)) == last_slash(s@.take(k as int)),
        decreases k,
    {
        assert(s@.take(k as int).drop_last() =~= s@.take(k - 1));
        k -= 1;
    }
    if k == 0 {
        None
    } else {
        Some(k - 1)
    }
}

/// Joins `base` and `rel`; see `path_join`.
pub fn join(base: &str, rel: &str) -> (r: String)
    ensures
        r@ == path_join(base@, rel@),
{
    proof {
        reveal_strlit("/");
    }
    let rel_len = rel.unicode_len();
    let base_len = base.unicode_len();
    if (rel_len > 0 && rel.get_char(0) == '/') || base_len == 0 {
        return String::from_str(rel);
    }
    let mut r = String::from_str(base);
    if base.get_char(base_len - 1) != '/' {
        r.append("/");
    }
    r.append(rel);
    r
}

/// Constructs a custom entry path, e.g. the one of `[lib]`: an absolute path
/// is used as it is, a relative one is taken from the member's directory.
pub fn entry_path(entry: &String, member: &String) -> (r: String)
    ensures
        r@ == path_join(member@, entry@),
{
    join(member.as_str(), entry.as_str())
}

/// The directory of an entry file, which becomes the target's directory.
pub fn package_target_path(entry_file_path: &String) -> (r: Result<String, Error>)
    ensures
        match parent_of(entry_file_path@) {
            Some(d) => r is Ok && r->Ok_0@ == d,
            None => r matches Err(Error::TargetEntryMissing { path }) && path@
                == entry_file_path@,
        },
{
    let s = entry_file_path.as_str();
    let n = s.unicode_len();
    let t = trimmed_len(s, n);
    assert(s@.take(n as int) =~= s@);
    if t == 0 {
        return Err(Error::TargetEntryMissing { path: entry_file_path.clone() });
    }
    match last_slash_in(s, t) {
        None => Ok(String::new()),
        Some(k) => {
            let q = trimmed_len(s, k);
            assert(s@.take(t as int).take(k as int) =~= s@.take(k as int));
            if q == 0 {
                proof {
                    reveal_strlit("/");
                }
                assert("/"@ =~= seq!['/']);
                Ok(String::from_str("/"))
            } else {
                Ok(String::from_str(s.substring_char(0, q)))
            }
        },
    }
}

pub open spec fn targets_view(s: Seq<Target>) -> Seq<(Seq<char>, Seq<char>)> {
    s.map_values(|t: Target| (t.name@, t.path@))
}

/// The target named `name` whose entry file is `file`, if that file exists;
/// an entry file without a directory is an error carrying its path.
pub open spec fn target_of(name: Seq<char>, file: Seq<char>, exists: bool) -> Result<
    Seq<(Seq<char>, Seq<char>)>,
    Seq<char>,
> {
    if !exists {
        Ok(Seq::empty())
    } else {
        match parent_of(file) {
            Some(d) => Ok(seq![(name, d)]),
            None => Err(file),
        }
    }
}

/// Every element of `s` occurs in it once.
pub open spec fn no_duplicates(s: Seq<Seq<char>>) -> bool {
    forall|i: int, j: int| 0 <= i < j < s.len() ==> s[i] != s[j]
}

/// `s` lists, once each, the paths that `allowed` holds and `excluded` does not.
pub open spec fn is_member_list(
    s: Seq<Seq<char>>,
    allowed: Seq<Seq<char>>,
    excluded: Seq<Seq<char>>,
) -> bool {
    &&& no_duplicates(s)
    &&& forall|x: Seq<char>| s.contains(x) <==> (allowed.contains(x) && !excluded.contains(x))
}

/// The paths of `allowed` that `excluded` does not hold, each at its first
/// occurrence, in order.
pub open spec fn member_list(allowed: Seq<Seq<char>>, excluded: Seq<Seq<char>>) -> Seq<Seq<char>>
    decreases allowed.len(),
{
    if allowed.len() == 0 {
        Seq::empty()
    } else {
        let prev = member_list(allowed.drop_last(), excluded);
        let p = allowed.last();
        if excluded.contains(p) || prev.contains(p) {
            prev
        } else {
            prev.push(p)
        }
    }
}

/// A package name with each hyphen replaced by an underscore.
pub open spec fn normalized(name: Seq<char>) -> Seq<char> {
    name.map_values(|c: char| if c == '-' { '_' } else { c })
}

/// `s` with each hyphen replaced by an underscore.
fn replace_hyphens(s: &str) -> (r: String)
    ensures
        r@ == normalized(s@),
{
    proof {
        reveal_strlit("_");
    }
    let n = s.unicode_len();
    let mut r = String::new();
    let mut i: usize = 0;
    while i < n
        invariant
            i <= n,
            n == s@.len(),
            "_"@ =~= seq!['_'],
            r@ == normalized(s@.take(i as int)),
        decreases n - i,
    {
        let c = s.get_char(i);
        let ghost prev = r@;
        if c == '-' {
            r.append("_");
            assert(r@ =~= prev.push('_'));
        } else {
            let piece = s.substring_char(i, i + 1);
            assert(piece@ =~= seq![c]);
            r.append(piece);
            assert(r@ =~= prev.push(c));
        }
        assert(normalized(s@.take(i + 1)) =~= normalized(s@.take(i as int)).push(
            if c == '-' { '_' } else { c },
        ));
        i += 1;
    }
    assert(s@.take(n as int) =~= s@);
    r
}

fn contains_string(v: &Vec<String>, x: &String) -> (r: bool)
    ensures
        r == strings(v@).contains(x@),
{
    let mut i: usize = 0;
    while i < v.len()
        invariant
            i <= v@.len(),
            forall|j: int| 0 <= j < i ==> strings(v@)[j] != x@,
        decreases v@.len() - i,
    {
        if v[i] == *x {
            assert(strings(v@)[i as int] == x@);
            return true;
        }
        i += 1;
    }
    false
}

/// `{entry}/{pattern}` for each pattern.
fn rooted_patterns(entry: &String, patterns: &Vec<String>) -> (r: Vec<String>)
    ensures
        strings(r@) == strings(patterns@).map_values(|g: Seq<char>| entry@ + "/"@ + g),
{
    let mut r: Vec<String> = Vec::new();
    let mut i: usize = 0;
    while i < patterns.len()
        invariant
            i <= patterns@.len(),
            strings(r@) == strings(patterns@.take(i as int)).map_values(
                |g: Seq<char>| entry@ + "/"@ + g,
            ),
        decreases patterns@.len() - i,
    {
        let mut p = entry.clone();
        p.append("/");
        p.append(patterns[i].as_str());
        let ghost prev = strings(r@);
        r.push(p);
        assert(strings(r@) =~= prev.push(entry@ + "/"@ + patterns@[i as int]@));
        assert(strings(patterns@.take(i + 1)).map_values(|g: Seq<char>| entry@ + "/"@ + g)
            =~= strings(patterns@.take(i as int)).map_values(|g: Seq<char>| entry@ + "/"@ + g).push(
            entry@ + "/"@ + patterns@[i as int]@,
        ));
        i += 1;
    }
    assert(patterns@.take(i as int) =~= patterns@);
    r
}

impl Workspace {
    /// The glob patterns of the members, rooted at `entry`.
    pub fn member_patterns(&self, entry: &String) -> (r: Vec<String>)
        ensures
            strings(r@) == strings(self.members@).map_values(|g: Seq<char>| entry@ + "/"@ + g),
    {
        rooted_patterns(entry, &self.members)
    }

    /// The glob patterns of the excluded directories, rooted at `entry`.
    pub fn exclude_patterns(&self, entry: &String) -> (r: Vec<String>)
        ensures
            strings(r@) == strings(self.exclude@).map_values(|g: Seq<char>| entry@ + "/"@ + g),
    {
        rooted_patterns(entry, &self.exclude)
    }

    /// The workspace members: the paths that the member patterns matched
    /// (`allowed`) less those that the exclude patterns matched, each once,
    /// in the order in which they were first matched (see `member_list`).
    pub fn members(&self, allowed: &Vec<String>, excluded: &Vec<String>) -> (r: Vec<String>)
        ensures
            strings(r@) == member_list(strings(allowed@), strings(excluded@)),
            is_member_list(strings(r@), strings(allowed@), strings(excluded@)),
    {
        let mut r: Vec<String> = Vec::new();
        let mut i: usize = 0;
        while i < allowed.len()
            invariant
                i <= allowed@.len(),
                no_duplicates(strings(r@)),
                strings(r@) == member_list(strings(allowed@.take(i as int)), strings(excluded@)),
                forall|x: Seq<char>|
                    strings(r@).contains(x) <==> (strings(allowed@.take(i as int)).contains(x)
                        && !strings(excluded@).contains(x)),
            decreases allowed@.len() - i,
        {
            let p = &allowed[i];
            let ghost prev = strings(r@);
            assert(strings(allowed@.take(i + 1)) =~= strings(allowed@.take(i as int)).push(p@));
            assert(strings(allowed@.take(i + 1)).drop_last() =~= strings(allowed@.take(i as int)));
            if !contains_string(excluded, p) && !contains_string(&r, p) {
                r.push(p.clone());
                assert(strings(r@) =~= prev.push(p@));
            }
            assert forall|x: Seq<char>|
                strings(r@).contains(x) <==> (strings(allowed@.take(i + 1)).contains(x)
                    && !strings(excluded@).contains(x)) by {
                let a = strings(allowed@.take(i as int));
                if strings(r@).contains(x) {
                    let k = choose|k: int| 0 <= k < strings(r@).len() && strings(r@)[k] == x;
                    if k < prev.len() {
                        assert(prev[k] == x);
                        assert(prev.contains(x));
                        assert(a.contains(x));
                        let m = choose|m: int| 0 <= m < a.len() && a[m] == x;
                        assert(a.push(p@)[m] == x);
                    } else {
                        assert(a.push(p@)[a.len() as int] == x);
                    }
                }
                if strings(allowed@.take(i + 1)).contains(x) && !strings(excluded@).contains(x) {
                    let k = choose|k: int| 0 <= k <= a.len() && a.push(p@)[k] == x;
                    if k < a.len() {
                        assert(a[k] == x);
                        assert(prev.contains(x));
                        let m = choose|m: int| 0 <= m < prev.len() && prev[m] == x;
                        assert(strings(r@)[m] == x);
                    } else if prev.contains(x) {
                        let m = choose|m: int| 0 <= m < prev.len() && prev[m] == x;
                        assert(strings(r@)[m] == x);
                    } else {
                        assert(strings(r@)[prev.len() as int] == x);
                    }
                }
            }
            i += 1;
        }
        assert(allowed@.take(i as int) =~= allowed@);
        r
    }
}

impl Manifest {
    pub open spec fn spec_lib_entry(&self, member: Seq<char>) -> Seq<char> {
        match self.lib {
            Some(lib) => match lib.path {
                Some(p) => path_join(member, p@),
                None => path_join(member, "src/lib.rs"@),
            },
            None => path_join(member, "src/lib.rs"@),
        }
    }

    /// The targets of a package, given whether its main entry file and its
    /// library entry file exist: `main` first, then `lib`.
    pub open spec fn spec_targets(&self, member: Seq<char>, main_exists: bool, lib_exists: bool) -> Result<
        Seq<(Seq<char>, Seq<char>)>,
        Seq<char>,
    > {
        match target_of("main"@, path_join(member, "src/main.rs"@), main_exists) {
            Err(e) => Err(e),
            Ok(a) => match target_of("lib"@, self.spec_lib_entry(member), lib_exists) {
                Err(e) => Err(e),
                Ok(b) => Ok(a + b),
            },
        }
    }

    /// The conventional main entry file of a member.
    pub fn main_entry_file(member: &String) -> (r: String)
        ensures
            r@ == path_join(member@, "src/main.rs"@),
    {
        join(member.as_str(), "src/main.rs")
    }

    /// The library entry file of a member: the `[lib]` path if the manifest
    /// gives one, else the conventional one.
    pub fn lib_entry_file(&self, member: &String) -> (r: String)
        ensures
            r@ == self.spec_lib_entry(member@),
    {
        match &self.lib {
            Some(lib) => match &lib.path {
                Some(p) => entry_path(p, member),
                None => join(member.as_str(), "src/lib.rs"),
            },
            None => join(member.as_str(), "src/lib.rs"),
        }
    }

    fn read_target(targets: &mut Vec<Target>, name: &str, file: String, exists: bool) -> (r: Result<
        (),
        Error,
    >)
        ensures
            match target_of(name@, file@, exists) {
                Ok(ts) => r is Ok && targets_view(final(targets)@) == targets_view(old(targets)@)
                    + ts,
                Err(p) => r matches Err(Error::TargetEntryMissing { path }) && path@ == p,
            },
    {
        if !exists {
            assert(targets_view(targets@) =~= targets_view(old(targets)@) + Seq::empty());
            return Ok(());
        }
        let dir = package_target_path(&file)?;
        let ghost prev = targets_view(targets@);
        targets.push(Target::new(String::from_str(name), dir));
        assert(targets_view(targets@) =~= prev + seq![(name@, parent_of(file@)->0)]);
        Ok(())
    }

    fn read_main_target(&self, targets: &mut Vec<Target>, member: &String, exists: bool) -> (r:
        Result<(), Error>)
        ensures
            match target_of("main"@, path_join(member@, "src/main.rs"@), exists) {
                Ok(ts) => r is Ok && targets_view(final(targets)@) == targets_view(old(targets)@)
                    + ts,
                Err(p) => r matches Err(Error::TargetEntryMissing { path }) && path@ == p,
            },
    {
        Manifest::read_target(targets, "main", Manifest::main_entry_file(member), exists)
    }

    fn read_lib_target(&self, targets: &mut Vec<Target>, member: &String, exists: bool) -> (r:
        Result<(), Error>)
        ensures
            match target_of("lib"@, self.spec_lib_entry(member@), exists) {
                Ok(ts) => r is Ok && targets_view(final(targets)@) == targets_view(old(targets)@)
                    + ts,
                Err(p) => r matches Err(Error::TargetEntryMissing { path }) && path@ == p,
            },
    {
        Manifest::read_target(targets, "lib", self.lib_entry_file(member), exists)
    }

    /// Binary targets under `src/bin/` are not enumerated: no target is added.
    fn read_bin_targets(&self, targets: &mut Vec<Target>, member: &String) -> (r: Result<(), Error>)
        ensures
            r is Ok,
            final(targets)@ == old(targets)@,
    {
        Ok(())
    }

    /// The targets of the package at `member`; see `spec_targets`. Whether
    /// each entry file exists is found out by the caller.
    pub fn read_package_targets(&self, member: &String, main_exists: bool, lib_exists: bool) -> (r:
        Result<Vec<Target>, Error>)
        ensures
            match self.spec_targets(member@, main_exists, lib_exists) {
                Ok(ts) => r is Ok && targets_view(r->Ok_0@) == ts,
                Err(p) => r matches Err(Error::TargetEntryMissing { path }) && path@ == p,
            },
    {
        let mut targets: Vec<Target> = Vec::new();
        assert(targets_view(targets@) =~= Seq::empty());
        self.read_main_target(&mut targets, member, main_exists)?;
        self.read_lib_target(&mut targets, member, lib_exists)?;
        self.read_bin_targets(&mut targets, member)?;
        assert(targets_view(targets@) =~= self.spec_targets(member@, main_exists, lib_exists)->Ok_0);
        Ok(targets)
    }

    /// The workspace members (see `Workspace::members`) followed by `entry`
    /// itself when the manifest declares a package.
    pub fn members(&self, entry: &String, allowed: &Vec<String>, excluded: &Vec<String>) -> (r: Vec<
        String,
    >)
        ensures
            self.package is Some ==> r@.len() > 0 && r@.last()@ == entry@,
            ({
                let ws = if self.package is Some {
                    strings(r@).drop_last()
                } else {
                    strings(r@)
                };
                match self.workspace {
                    Some(_) => ws == member_list(strings(allowed@), strings(excluded@))
                        && is_member_list(ws, strings(allowed@), strings(excluded@)),
                    None => ws.len() == 0,
                }
            }),
    {
        let mut members = match &self.workspace {
            Some(workspace) => workspace.members(allowed, excluded),
            None => Vec::new(),
        };
        let ghost ws = strings(members@);
        if self.package.is_some() {
            members.push(entry.clone());
            assert(strings(members@).drop_last() =~= ws);
        }
        members
    }

    /// The normalized name of the package that the manifest declares, or
    /// `NotAPackage` (carrying `member`) when it declares none.
    pub fn package_name(&self, member: &String) -> (r: Result<String, Error>)
        ensures
            match self.package {
                Some(p) => r is Ok && r->Ok_0@ == normalized(p.name@),
                None => r matches Err(Error::NotAPackage { path }) && path@ == member@,
            },
    {
        match &self.package {
            Some(p) => Ok(replace_hyphens(p.name.as_str())),
            None => Err(Error::NotAPackage { path: member.clone() }),
        }
    }
}

} // verus!
