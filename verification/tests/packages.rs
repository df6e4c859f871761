use sempkg::packages::{registry_path, registry_path_in, LocalPackage, PackageRegistry};

#[test]
fn added_packages_are_found() {
    let mut reg = PackageRegistry::empty();
    reg.add("b", "./b", &Some("/abs/b".to_string()), "second").unwrap();
    reg.add("a", "./a", &Some("/abs/a".to_string()), "").unwrap();
    assert_eq!(reg.get("b").unwrap().path, "/abs/b");
    assert_eq!(reg.get("b").unwrap().description, "second");
    let names: Vec<&str> = reg.list().iter().map(|p| p.name.as_str()).collect();
    assert_eq!(names, vec!["a", "b"]);
    assert!(reg.remove("a"));
    assert!(!reg.remove("a"));
    assert!(reg.get("a").is_none());
}

#[test]
fn a_path_that_does_not_exist_is_refused() {
    let mut reg = PackageRegistry::empty();
    assert_eq!(
        reg.add("a", "./nope", &None, "").unwrap_err(),
        "Path does not exist: ./nope"
    );
    assert!(reg.list().is_empty());
}

#[test]
fn a_package_is_where_its_path_leads() {
    let p = LocalPackage {
        name: "a".to_string(),
        path: "/link".to_string(),
        description: String::new(),
    };
    assert_eq!(p.abs_path(&Some("/real".to_string())), "/real");
    assert_eq!(p.abs_path(&None), "/link");
}

#[test]
fn the_registry_stands_below_the_home_directory() {
    assert_eq!(
        registry_path_in(&Some("/home/u".to_string())),
        "/home/u/.sempkg/packages.json"
    );
    assert_eq!(registry_path_in(&None), "./.sempkg/packages.json");
    let home = dirs::home_dir().map(|p| p.to_string_lossy().into_owned());
    assert_eq!(registry_path(), registry_path_in(&home));
}
