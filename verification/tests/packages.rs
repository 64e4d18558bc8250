use cupid::packages::{ImportItem, ImportNode, NameSpace, Package};

fn item(s: &str) -> ImportItem {
    ImportItem { identifier: s.to_string(), tokens: vec![] }
}

#[test]
fn package_paths_and_contents() {
    let list = ImportNode::PackageList(vec![
        Package { name_space: Some(NameSpace { name: "std".to_string(), tokens: vec![] }), items: vec![item("math")] },
        Package { name_space: None, items: vec![item("local")] },
    ]);
    let got = list.use_packages(|path: &String| format!("<{}>", path));
    assert_eq!(got.len(), 2);
    assert_eq!(got[0].path, "./../std/math.cupid");
    assert_eq!(got[0].contents, "<./../std/math.cupid>");
    assert_eq!(got[1].path, "./../local.cupid");
    assert_eq!(got[1].contents, "<./../local.cupid>");
}

#[test]
fn an_empty_package_list() {
    let list = ImportNode::PackageList(vec![]);
    assert!(list.use_packages(|_: &String| String::new()).is_empty());
}
