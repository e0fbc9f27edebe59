use stylex_path_resolver::fs_model::FileSystem;
use stylex_path_resolver::package::{ExportsTarget, PackageDescriptor, PackageDescriptorCache};
use stylex_path_resolver::resolvers::resolve_file_path;

fn strings(items: &[&str]) -> Vec<String> {
    items.iter().map(|s| s.to_string()).collect()
}

fn descriptor(
    name: Option<&str>,
    main: Option<&str>,
    exports: Option<Vec<(String, ExportsTarget)>>,
    dependencies: &[&str],
) -> PackageDescriptor {
    PackageDescriptor {
        name: name.map(|s| s.to_string()),
        main: main.map(|s| s.to_string()),
        exports,
        dependencies: strings(dependencies),
    }
}

fn single(key: &str, target: &str) -> (String, ExportsTarget) {
    (key.to_string(), ExportsTarget::Single(target.to_string()))
}

const ROOT: &str = "/work/fixtures/application-pnpm";
const WORKSPACE_ROOT: &str = "/work/fixtures/workspace-pnpm";

/// The `application-pnpm` fixture: local sources, two hoisted packages and
/// two packages installed only through the content-addressed `.pnpm` store,
/// beside the `workspace-pnpm` sibling used by the workspace-alias case.
fn fixture() -> FileSystem {
    let pnpm_lib = format!(
        "{ROOT}/node_modules/.pnpm/stylex-lib-pnpm@0.1.0/node_modules/stylex-lib-pnpm"
    );
    let pnpm_scoped = format!(
        "{ROOT}/node_modules/.pnpm/@stylex+lib-exports-pnpm@0.1.0/node_modules/@stylex/lib-exports-pnpm"
    );
    let files = strings(&[
        &format!("{ROOT}/package.json"),
        &format!("{ROOT}/src/pages/home.js"),
        &format!("{ROOT}/src/colors.stylex.js"),
        &format!("{ROOT}/src/components/button.js"),
        &format!("{ROOT}/node_modules/stylex-lib-dist-main/package.json"),
        &format!("{ROOT}/node_modules/stylex-lib-dist-main/dist/index.jsx"),
        &format!("{ROOT}/node_modules/stylex-lib-dist-exports-with-main/package.json"),
        &format!("{ROOT}/node_modules/stylex-lib-dist-exports-with-main/dist/colors.stylex.js"),
        &format!("{pnpm_lib}/package.json"),
        &format!("{pnpm_lib}/dist/index.jsx"),
        &format!("{pnpm_scoped}/package.json"),
        &format!("{pnpm_scoped}/dist/colors.stylex.js"),
        &format!("{WORKSPACE_ROOT}/package.json"),
        &format!("{WORKSPACE_ROOT}/src/pages/home.js"),
    ]);
    let packages = vec![
        (
            ROOT.to_string(),
            descriptor(
                Some("application-pnpm"),
                None,
                None,
                &[
                    "stylex-lib-dist-main",
                    "stylex-lib-dist-exports-with-main",
                    "stylex-lib-pnpm",
                    "@stylex/lib-exports-pnpm",
                ],
            ),
        ),
        (
            format!("{ROOT}/node_modules/stylex-lib-dist-main"),
            descriptor(Some("stylex-lib-dist-main"), Some("./dist/index.jsx"), None, &[]),
        ),
        (
            format!("{ROOT}/node_modules/stylex-lib-dist-exports-with-main"),
            descriptor(
                Some("stylex-lib-dist-exports-with-main"),
                Some("./dist/index.jsx"),
                Some(vec![single("./colors.stylex", "./dist/colors.stylex.js")]),
                &[],
            ),
        ),
        (
            pnpm_lib,
            descriptor(Some("stylex-lib-pnpm"), Some("./dist/index.jsx"), None, &[]),
        ),
        (
            pnpm_scoped,
            descriptor(
                Some("@stylex/lib-exports-pnpm"),
                None,
                Some(vec![single("./colors.stylex", "./dist/colors.stylex.js")]),
                &[],
            ),
        ),
        (
            WORKSPACE_ROOT.to_string(),
            descriptor(Some("workspace-pnpm"), None, None, &[]),
        ),
    ];
    FileSystem { files, packages }
}

fn resolved(
    import_path_str: &str,
    source_file_path: &str,
    root_path: &str,
    aliases: Vec<(String, Vec<String>)>,
) -> String {
    let fs = fixture();
    let mut seen = PackageDescriptorCache::new();
    match resolve_file_path(import_path_str, source_file_path, root_path, &aliases, &fs, &mut seen)
    {
        Ok(p) => p,
        Err(_) => String::new(),
    }
}

#[test]
fn resolve_regular_local_import_from_src() {
    let import_path_str = "../colors.stylex.js";
    let source_file_path = format!("{}/src/pages/home.js", ROOT);
    let expected_result = format!("{}/{}", ROOT, "src/colors.stylex.js");
    assert_eq!(
        resolved(import_path_str, &source_file_path, ROOT, Default::default()),
        expected_result
    );
}

#[test]
fn resolve_regular_local_import_from_same_level_directory() {
    let import_path_str = "../components/button.js";
    let source_file_path = format!("{}/src/pages/home.js", ROOT);
    let expected_result = format!("{}/{}", ROOT, "src/components/button.js");
    assert_eq!(
        resolved(import_path_str, &source_file_path, ROOT, Default::default()),
        expected_result
    );
}

#[test]
fn resolve_regular_local_import_from_alias() {
    let import_path_str = "@/components/button.js";
    let source_file_path = format!("{}/src/pages/home.js", ROOT);
    let aliases = vec![("@/*".to_string(), vec![format!("{}/src/*", ROOT)])];
    let expected_result = format!("{}/{}", ROOT, "src/components/button.js");
    assert_eq!(resolved(import_path_str, &source_file_path, ROOT, aliases), expected_result);
}

#[test]
fn resolve_regular_local_import_from_workspace_alias() {
    let import_path_str = "@/components/button";
    let source_file_path = format!("{}/src/pages/home.js", WORKSPACE_ROOT);
    let aliases = vec![(
        "@/*".to_string(),
        vec!["/work/fixtures/application-pnpm/src/*".to_string()],
    )];
    let expected_result = "/work/fixtures/application-pnpm/src/components/button.js".to_string();
    assert_eq!(
        resolved(import_path_str, &source_file_path, WORKSPACE_ROOT, aliases),
        expected_result
    );
}

#[test]
fn resolve_regular_external_import() {
    let import_path_str = "stylex-lib-dist-main";
    let source_file_path = format!("{}/src/pages/home.js", ROOT);
    let expected_result =
        format!("{}/{}", ROOT, "node_modules/stylex-lib-dist-main/dist/index.jsx");
    assert_eq!(
        resolved(import_path_str, &source_file_path, ROOT, Default::default()),
        expected_result
    );
}

#[test]
fn resolve_regular_external_import_with_exports_dist() {
    let import_path_str = "stylex-lib-dist-exports-with-main/colors.stylex";
    let source_file_path = format!("{}/src/pages/home.js", ROOT);
    let expected_result = format!(
        "{}/{}",
        ROOT, "node_modules/stylex-lib-dist-exports-with-main/dist/colors.stylex.js"
    );
    assert_eq!(
        resolved(import_path_str, &source_file_path, ROOT, Default::default()),
        expected_result
    );
}

#[test]
fn resolve_package_with_pnpm_path() {
    let import_path_str = "stylex-lib-pnpm";
    let source_file_path = format!("{}/src/pages/home.js", ROOT);
    let expected_result = format!(
        "{}/{}",
        ROOT, "node_modules/.pnpm/stylex-lib-pnpm@0.1.0/node_modules/stylex-lib-pnpm/dist/index.jsx"
    );
    assert_eq!(
        resolved(import_path_str, &source_file_path, ROOT, Default::default()),
        expected_result
    );
}

#[test]
fn resolve_organisation_package_with_pnpm_path() {
    let import_path_str = "@stylex/lib-exports-pnpm/colors.stylex";
    let source_file_path = format!("{}/src/pages/home.js", ROOT);
    let expected_result = format!(
        "{}/{}",
        ROOT,
        "node_modules/.pnpm/@stylex+lib-exports-pnpm@0.1.0/node_modules/@stylex/lib-exports-pnpm/dist/colors.stylex.js"
    );
    assert_eq!(
        resolved(import_path_str, &source_file_path, ROOT, Default::default()),
        expected_result
    );
}
