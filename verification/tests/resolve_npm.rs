use stylex_path_resolver::fs_model::FileSystem;
use stylex_path_resolver::package::{ExportsTarget, PackageDescriptor, PackageDescriptorCache};
use stylex_path_resolver::resolvers::resolve_file_path;

fn strings(items: &[&str]) -> Vec<String> {
    items.iter().map(|s| s.to_string()).collect()
}

fn descriptor(
    name: Option<&str>,
    main: Option<&str>,
    exports: Option<Vec<(String, ExportsTarget)>>,
    dependencies: &[&str],
) -> PackageDescriptor {
    PackageDescriptor {
        name: name.map(|s| s.to_string()),
        main: main.map(|s| s.to_string()),
        exports,
        dependencies: strings(dependencies),
    }
}

fn single(key: &str, target: &str) -> (String, ExportsTarget) {
    (key.to_string(), ExportsTarget::Single(target.to_string()))
}

const APP: &str = "/work/fixtures/application-npm";
const ROOT: &str = "/work/fixtures/application-npm/apps/web";
const WORKSPACE_ROOT: &str = "/work/fixtures/workspace-npm/apps/web";

/// The `application-npm` fixture: a workspace member two levels below the
/// hoisted `node_modules`, beside the `workspace-npm` sibling used by the
/// workspace-alias case.
fn fixture() -> FileSystem {
    let files = strings(&[
        &format!("{ROOT}/package.json"),
        &format!("{ROOT}/src/pages/home.js"),
        &format!("{ROOT}/src/colors.stylex.js"),
        &format!("{ROOT}/src/components/button.js"),
        &format!("{APP}/node_modules/stylex-lib-dist-main/package.json"),
        &format!("{APP}/node_modules/stylex-lib-dist-main/dist/index.jsx"),
        &format!("{APP}/node_modules/stylex-lib-dist-exports-with-main/package.json"),
        &format!("{APP}/node_modules/stylex-lib-dist-exports-with-main/dist/colors.stylex.js"),
        &format!("{WORKSPACE_ROOT}/package.json"),
        &format!("{WORKSPACE_ROOT}/src/pages/home.js"),
    ]);
    let packages = vec![
        (
            ROOT.to_string(),
            descriptor(
                Some("application-npm-web"),
                None,
                None,
                &["stylex-lib-dist-main", "stylex-lib-dist-exports-with-main"],
            ),
        ),
        (
            format!("{APP}/node_modules/stylex-lib-dist-main"),
            descriptor(Some("stylex-lib-dist-main"), Some("./dist/index.jsx"), None, &[]),
        ),
        (
            format!("{APP}/node_modules/stylex-lib-dist-exports-with-main"),
            descriptor(
                Some("stylex-lib-dist-exports-with-main"),
                Some("./dist/index.jsx"),
                Some(vec![single("./colors.stylex", "./dist/colors.stylex.js")]),
                &[],
            ),
        ),
        (
            WORKSPACE_ROOT.to_string(),
            descriptor(Some("workspace-npm-web"), None, None, &[]),
        ),
    ];
    FileSystem { files, packages }
}

fn resolved(
    import_path_str: &str,
    source_file_path: &str,
    root_path: &str,
    aliases: Vec<(String, Vec<String>)>,
) -> String {
    let fs = fixture();
    let mut seen = PackageDescriptorCache::new();
    match resolve_file_path(import_path_str, source_file_path, root_path, &aliases, &fs, &mut seen)
    {
        Ok(p) => p,
        Err(_) => String::new(),
    }
}

#[test]
fn tests_resolve_regular_local_import_from_src() {
    let import_path_str = "../colors.stylex.js";
    let source_file_path = format!("{}/src/pages/home.js", ROOT);
    let expected_result = format!("{}/{}", ROOT, "src/colors.stylex.js");
    assert_eq!(
        resolved(import_path_str, &source_file_path, ROOT, Default::default()),
        expected_result
    );
}

#[test]
fn tests_resolve_regular_local_import_from_same_level_directory() {
    let import_path_str = "../components/button.js";
    let source_file_path = format!("{}/src/pages/home.js", ROOT);
    let expected_result = format!("{}/{}", ROOT, "src/components/button.js");
    assert_eq!(
        resolved(import_path_str, &source_file_path, ROOT, Default::default()),
        expected_result
    );
}

#[test]
fn tests_resolve_regular_local_import_from_alias() {
    let import_path_str = "@/components/button.js";
    let source_file_path = format!("{}/src/pages/home.js", ROOT);
    let aliases = vec![("@/*".to_string(), vec![format!("{}/src/*", ROOT)])];
    let expected_result = format!("{}/{}", ROOT, "src/components/button.js");
    assert_eq!(resolved(import_path_str, &source_file_path, ROOT, aliases), expected_result);
}

#[test]
fn tests_resolve_regular_local_import_from_workspace_alias() {
    let import_path_str = "@/components/button";
    let source_file_path = format!("{}/src/pages/home.js", WORKSPACE_ROOT);
    let aliases = vec![(
        "@/*".to_string(),
        vec![format!("{}/src/*", ROOT)],
    )];
    let expected_result = format!("{}/src/components/button.js", ROOT);
    assert_eq!(
        resolved(import_path_str, &source_file_path, WORKSPACE_ROOT, aliases),
        expected_result
    );
}

#[test]
fn tests_resolve_regular_external_import() {
    let import_path_str = "stylex-lib-dist-main";
    let source_file_path = format!("{}/src/pages/home.js", ROOT);
    let expected_result =
        format!("{}/{}", APP, "node_modules/stylex-lib-dist-main/dist/index.jsx");
    assert_eq!(
        resolved(import_path_str, &source_file_path, ROOT, Default::default()),
        expected_result
    );
}

#[test]
fn tests_resolve_regular_external_import_with_exports_dist() {
    let import_path_str = "stylex-lib-dist-exports-with-main/colors.stylex";
    let source_file_path = format!("{}/src/pages/home.js", ROOT);
    let expected_result = format!(
        "{}/{}",
        APP, "node_modules/stylex-lib-dist-exports-with-main/dist/colors.stylex.js"
    );
    assert_eq!(
        resolved(import_path_str, &source_file_path, ROOT, Default::default()),
        expected_result
    );
}
