use vstd::prelude::*;

use crate::peg::Token;
use vstd::string::StringExecFns;

verus! {

/// What a `use` declaration names.
#[derive(Debug)]
pub enum ImportNode {
    PackageList(Vec<Package>),
    Package(Package),
    NameSpace(NameSpace),
    Items(Vec<ImportItem>),
}

/// A package: the name space it lives in, if any, and the items taken from it.
#[derive(Debug)]
pub struct Package {
    pub name_space: Option<NameSpace>,
    pub items: Vec<ImportItem>,
}

/// A name space: a folder of packages.
#[derive(Debug)]
pub struct NameSpace {
    pub name: String,
    pub tokens: Vec<Token>,
}

/// One item that a package provides.
#[derive(Debug)]
pub struct ImportItem {
    pub identifier: String,
    pub tokens: Vec<Token>,
}

/// A package's file: where it was found and what it holds.
#[derive(Debug)]
pub struct PackageContents {
    pub path: String,
    pub contents: String,
}

/// The file of a package that provides one item: `./../`, then the name
/// space and a `/` if there is one, then the item, then `.cupid`.
pub open spec fn package_path(package: Package) -> Seq<char> {
    let folder = match package.name_space {
        Some(name_space) => name_space.name@ + "/"@,
        None => Seq::empty(),
    };
    "./../"@ + folder + package.items@[0].identifier@ + ".cupid"@
}

/// A package names its file by its one item.
pub open spec fn names_a_file(package: Package) -> bool {
    package.items@.len() == 1
}

/// The file of `package`.
fn path_of(package: &Package) -> (path: String)
    requires
        names_a_file(*package),
    ensures
        path@ == package_path(*package),
{
    let mut path = "./../".to_owned();
    match &package.name_space {
        Some(name_space) => {
            path.append(name_space.name.as_str());
            path.append("/");
        },
        None => {},
    }
    path.append(package.items[0].identifier.as_str());
    path.append(".cupid");
    path
}

impl ImportNode {
    /// The packages of a package list, each read from its file by `read`,
    /// in the order of the list.
    pub fn use_packages<F: Fn(&String) -> String>(&self, read: F) -> (r: Vec<PackageContents>)
        requires
            self is PackageList,
            forall|i: int| 0 <= i < self->PackageList_0@.len() ==> names_a_file(#[trigger] self->PackageList_0@[i]),
            forall|path: &String| read.requires((path,)),
        ensures
            r@.len() == self->PackageList_0@.len(),
            forall|i: int| 0 <= i < r@.len() ==> {
                &&& (#[trigger] r@[i]).path@ == package_path(self->PackageList_0@[i])
                &&& read.ensures((&r@[i].path,), r@[i].contents)
            },
    {
        let packages = match self {
            ImportNode::PackageList(packages) => packages,
            _ => vstd::pervasive::unreached(),
        };
        let mut package_list: Vec<PackageContents> = Vec::new();
        let mut i: usize = 0;
        while i < packages.len()
            invariant
                i <= packages@.len(),
                *self == ImportNode::PackageList(*packages),
                forall|k: int| 0 <= k < packages@.len() ==> names_a_file(#[trigger] packages@[k]),
                forall|path: &String| read.requires((path,)),
                package_list@.len() == i,
                forall|k: int| 0 <= k < i ==> {
                    &&& (#[trigger] package_list@[k]).path@ == package_path(packages@[k])
                    &&& read.ensures((&package_list@[k].path,), package_list@[k].contents)
                },
            decreases packages.len() - i,
        {
            let path = path_of(&packages[i]);
            let contents = read(&path);
            package_list.push(PackageContents { path, contents });
            i += 1;
        }
        package_list
    }
}

} // verus!
