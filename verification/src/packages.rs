//! Local packages: repositories on this machine that are indexed for search.

use vstd::prelude::*;

use crate::paths;
use crate::paths::join_path;
use crate::pieces;
use crate::reranker;
use crate::reranker::home_dir;
use crate::strmap::StringMap;

verus! {

/// The file that local packages are recorded in.
pub open spec fn packages_file(home: Option<Seq<char>>) -> Seq<char> {
    paths::joined(paths::joined(reranker::home_or_dot(home), ".sempkg"@), "packages.json"@)
}

/// The file that local packages are recorded in, under a home directory.
pub fn registry_path_in(home: &Option<String>) -> (r: String)
    ensures
        r@ == packages_file(pieces::opt_text(*home)),
{
    let base = match home {
        Some(h) => h.clone(),
        None => ".".to_owned(),
    };
    join_path(join_path(base.as_str(), ".sempkg").as_str(), "packages.json")
}

/// The file that local packages are recorded in.
pub fn registry_path() -> (r: String)
    ensures
        exists|home: Option<Seq<char>>| r@ == #[trigger] packages_file(home),
{
    let home = home_dir();
    let r = registry_path_in(&home);
    assert(r@ == packages_file(pieces::opt_text(home)));
    r
}

/// A local package.
#[derive(Debug, Clone)]
pub struct LocalPackage {
    pub name: String,
    pub path: String,
    pub description: String,
}

pub ghost struct PackageView {
    pub name: Seq<char>,
    pub path: Seq<char>,
    pub description: Seq<char>,
}

impl View for LocalPackage {
    type V = PackageView;

    open spec fn view(&self) -> PackageView {
        PackageView { name: self.name@, path: self.path@, description: self.description@ }
    }
}

impl LocalPackage {
    /// The directory of the package: the real path where it could be found, else the path
    /// that was recorded.
    pub fn abs_path(&self, canonical: &Option<String>) -> (r: String)
        ensures
            r@ == (match *canonical {
                Some(p) => p@,
                None => self@.path,
            }),
    {
        match canonical {
            Some(p) => p.clone(),
            None => self.path.clone(),
        }
    }
}

/// The local packages, by name.
#[derive(Debug, Clone)]
pub struct PackageRegistry {
    pub packages: StringMap<LocalPackage>,
}

/// What each local package is.
pub open spec fn package_views(m: Map<Seq<char>, LocalPackage>) -> Map<Seq<char>, PackageView> {
    m.map_values(|p: LocalPackage| p@)
}

impl PackageRegistry {
    pub open spec fn wf(&self) -> bool {
        self.packages.wf()
    }

    pub open spec fn contents(&self) -> Map<Seq<char>, PackageView> {
        package_views(self.packages@)
    }

    /// A registry without packages.
    pub fn empty() -> (r: Self)
        ensures
            r.wf(),
            r.packages.entries@.len() == 0,
            r.contents() == Map::<Seq<char>, PackageView>::empty(),
    {
        let r = PackageRegistry { packages: StringMap::new() };
        assert(r.contents() =~= Map::<Seq<char>, PackageView>::empty());
        r
    }

    /// Record a package in place of one of the same name. `canonical` is the real path of the
    /// directory, where it exists; `path` is the path that was given.
    pub fn add(&mut self, name: &str, path: &str, canonical: &Option<String>, description: &str) -> (r:
        Result<(), String>)
        requires
            old(self).wf(),
        ensures
            final(self).wf(),
            match r {
                Ok(_) => canonical is Some && final(self).contents() == old(self).contents().insert(
                    name@,
                    PackageView { name: name@, path: canonical->0@, description: description@ },
                ),
                Err(e) => canonical is None && *final(self) == *old(self) && e@
                    == "Path does not exist: "@ + path@,
            },
    {
        match canonical {
            Some(p) => {
                let ghost before = self.packages@;
                let pkg = LocalPackage {
                    name: name.to_owned(),
                    path: p.clone(),
                    description: description.to_owned(),
                };
                self.packages.insert(name.to_owned(), pkg);
                assert(self.contents() =~= package_views(before).insert(name@, pkg@));
                Ok(())
            },
            None => {
                let mut e = "Path does not exist: ".to_owned();
                e.append(path);
                Err(e)
            },
        }
    }

    /// Forget a package; whether there was one.
    pub fn remove(&mut self, name: &str) -> (b: bool)
        requires
            old(self).wf(),
        ensures
            final(self).wf(),
            b == old(self).contents().contains_key(name@),
            final(self).contents() == old(self).contents().remove(name@),
    {
        let ghost before = self.packages@;
        let b = self.packages.remove(name);
        assert(self.contents() =~= package_views(before).remove(name@));
        b
    }

    pub fn get(&self, name: &str) -> (r: Option<&LocalPackage>)
        ensures
            match r {
                Some(p) => self.contents().contains_key(name@) && p@ == self.contents()[name@],
                None => !self.contents().contains_key(name@),
            },
    {
        self.packages.get(name)
    }

    /// The packages, by name.
    pub fn list(&self) -> (r: Vec<&LocalPackage>)
        ensures
            r@.len() == self.packages.entries@.len(),
            forall|i: int|
                0 <= i < r@.len() ==> *(#[trigger] r@[i]) == self.packages.entries@[i].1,
    {
        let mut r: Vec<&LocalPackage> = Vec::new();
        let mut i: usize = 0;
        while i < self.packages.entries.len()
            invariant
                i <= self.packages.entries@.len(),
                r@.len() == i,
                forall|j: int| 0 <= j < i ==> *(#[trigger] r@[j]) == self.packages.entries@[j].1,
            decreases self.packages.entries.len() - i,
        {
            r.push(&self.packages.entries[i].1);
            i = i + 1;
        }
        r
    }
}

/// A package that was added is found, whatever was there before, and no other package
/// changes. Once it is removed it is found no more.
pub proof fn added_packages_are_found(
    before: Map<Seq<char>, PackageView>,
    name: Seq<char>,
    pkg: PackageView,
    other: Seq<char>,
)
    requires
        name != other,
    ensures
        before.insert(name, pkg).contains_key(name),
        before.insert(name, pkg)[name] == pkg,
        before.insert(name, pkg).contains_key(other) == before.contains_key(other),
        before.contains_key(other) ==> before.insert(name, pkg)[other] == before[other],
        !before.insert(name, pkg).remove(name).contains_key(name),
        before.insert(name, pkg).remove(name).contains_key(other) == before.contains_key(other),
{
}

} // verus!
