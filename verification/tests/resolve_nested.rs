use stylex_path_resolver::fs_model::{find_closest_node_modules, FileSystem};
use stylex_path_resolver::package::{ExportsTarget, PackageDescriptor, PackageDescriptorCache};
use stylex_path_resolver::resolvers::resolve_file_path;

fn strings(items: &[&str]) -> Vec<String> {
    items.iter().map(|s| s.to_string()).collect()
}

fn descriptor(
    name: Option<&str>,
    main: Option<&str>,
    exports: Option<Vec<(String, ExportsTarget)>>,
    dependencies: &[&str],
) -> PackageDescriptor {
    PackageDescriptor {
        name: name.map(|s| s.to_string()),
        main: main.map(|s| s.to_string()),
        exports,
        dependencies: strings(dependencies),
    }
}

fn single(key: &str, target: &str) -> (String, ExportsTarget) {
    (key.to_string(), ExportsTarget::Single(target.to_string()))
}

fn conditional(key: &str, pairs: &[(&str, &str)]) -> (String, ExportsTarget) {
    (
        key.to_string(),
        ExportsTarget::Conditional(
            pairs.iter().map(|(c, p)| (c.to_string(), p.to_string())).collect(),
        ),
    )
}

const EXPORTS_ROOT: &str = "/work/fixtures/exports";
const NESTED_ROOT: &str = "/work/fixtures/exports/node_modules/stylex-lib-dist-main";

/// The `exports` fixture: packages selected through their `exports` maps,
/// one of them acting as the session root itself and carrying its own
/// nested `node_modules`.
fn fixture() -> FileSystem {
    let files = strings(&[
        &format!("{NESTED_ROOT}/package.json"),
        &format!("{NESTED_ROOT}/dist/index.jsx"),
        &format!("{NESTED_ROOT}/node_modules/stylex-lib-extra/package.json"),
        &format!("{EXPORTS_ROOT}/node_modules/stylex-lib-dist-exports-with-main/package.json"),
        &format!(
            "{EXPORTS_ROOT}/node_modules/stylex-lib-dist-exports-with-main/dist/colors.stylex.js"
        ),
        &format!("{EXPORTS_ROOT}/node_modules/stylex-lib-dist-exports/package.json"),
        &format!("{EXPORTS_ROOT}/node_modules/stylex-lib-dist-exports/dist/colors.stylex.js"),
        &format!("{EXPORTS_ROOT}/node_modules/stylex-lib-dist-exports-commonjs-esm/package.json"),
        &format!("{EXPORTS_ROOT}/node_modules/stylex-lib-dist-exports-commonjs-esm/dist/index.js"),
        &format!(
            "{EXPORTS_ROOT}/node_modules/stylex-lib-dist-exports-commonjs-esm/dist/index.cjs"
        ),
        &format!(
            "{EXPORTS_ROOT}/node_modules/stylex-lib-dist-exports-commonjs-esm/dist/colors.stylex.cjs"
        ),
    ]);
    let packages = vec![
        (
            NESTED_ROOT.to_string(),
            descriptor(Some("stylex-lib-dist-main"), Some("./dist/index.jsx"), None, &[]),
        ),
        (
            format!("{NESTED_ROOT}/node_modules/stylex-lib-extra"),
            descriptor(Some("stylex-lib-extra"), Some("./index.js"), None, &[]),
        ),
        (
            format!("{EXPORTS_ROOT}/node_modules/stylex-lib-dist-exports-with-main"),
            descriptor(
                Some("stylex-lib-dist-exports-with-main"),
                Some("./dist/index.jsx"),
                Some(vec![single("./colors.stylex", "./dist/colors.stylex.js")]),
                &[],
            ),
        ),
        (
            format!("{EXPORTS_ROOT}/node_modules/stylex-lib-dist-exports"),
            descriptor(
                Some("stylex-lib-dist-exports"),
                None,
                Some(vec![single("./colors.stylex", "./dist/colors.stylex.js")]),
                &[],
            ),
        ),
        (
            format!("{EXPORTS_ROOT}/node_modules/stylex-lib-dist-exports-commonjs-esm"),
            descriptor(
                Some("stylex-lib-dist-exports-commonjs-esm"),
                None,
                Some(vec![
                    conditional(
                        ".",
                        &[("import", "./dist/index.js"), ("require", "./dist/index.cjs")],
                    ),
                    conditional(
                        "./colors.stylex",
                        &[
                            ("import", "./dist/colors.stylex.mjs"),
                            ("require", "./dist/colors.stylex.cjs"),
                        ],
                    ),
                ]),
                &[],
            ),
        ),
    ];
    FileSystem { files, packages }
}

fn resolved(import_path_str: &str, source_file_path: &str, root_path: &str) -> String {
    let fs = fixture();
    let mut seen = PackageDescriptorCache::new();
    let aliases: Vec<(String, Vec<String>)> = Vec::new();
    match resolve_file_path(import_path_str, source_file_path, root_path, &aliases, &fs, &mut seen)
    {
        Ok(p) => p,
        Err(_) => String::new(),
    }
}

#[test]
fn resolve_regular_nested_import() {
    let import_path_str = "stylex-lib-dist-exports-with-main/colors.stylex";
    let source_file_path = format!("{}/dist/index.jsx", NESTED_ROOT);
    let expected_result = format!(
        "{}/{}",
        EXPORTS_ROOT, "node_modules/stylex-lib-dist-exports-with-main/dist/colors.stylex.js"
    );
    assert_eq!(resolved(import_path_str, &source_file_path, NESTED_ROOT), expected_result);
}

#[test]
fn resolve_nested_import_with_exports_and_nested_node_modules() {
    let import_path_str = "stylex-lib-dist-exports/colors.stylex";
    let source_file_path = format!("{}/dist/index.jsx", NESTED_ROOT);
    let expected_result = format!(
        "{}/{}",
        EXPORTS_ROOT, "node_modules/stylex-lib-dist-exports/dist/colors.stylex.js"
    );
    assert_eq!(resolved(import_path_str, &source_file_path, NESTED_ROOT), expected_result);

    let fs = fixture();
    let closest_node_modules = find_closest_node_modules(&fs, NESTED_ROOT);
    assert_eq!(
        match closest_node_modules {
            Some(p) => p,
            None => String::new(),
        },
        format!("{}/node_modules", NESTED_ROOT)
    );
}

#[test]
fn resolve_commonjs_exports() {
    let import_path_str = "stylex-lib-dist-exports-commonjs-esm/colors.stylex";
    let source_file_path = format!("{}/dist/index.jsx", EXPORTS_ROOT);
    let expected_result = format!(
        "{}/{}",
        EXPORTS_ROOT, "node_modules/stylex-lib-dist-exports-commonjs-esm/dist/colors.stylex.cjs"
    );
    assert_eq!(resolved(import_path_str, &source_file_path, EXPORTS_ROOT), expected_result);

    let fs = fixture();
    let closest_node_modules = find_closest_node_modules(&fs, EXPORTS_ROOT);
    assert_eq!(
        match closest_node_modules {
            Some(p) => p,
            None => String::new(),
        },
        format!("{}/node_modules", EXPORTS_ROOT)
    );
}

#[test]
fn resolve_esm_exports() {
    let import_path_str = "stylex-lib-dist-exports-commonjs-esm";
    let source_file_path = format!("{}/dist/index.jsx", EXPORTS_ROOT);
    let expected_result = format!(
        "{}/{}",
        EXPORTS_ROOT, "node_modules/stylex-lib-dist-exports-commonjs-esm/dist/index.js"
    );
    assert_eq!(resolved(import_path_str, &source_file_path, EXPORTS_ROOT), expected_result);

    let fs = fixture();
    let closest_node_modules = find_closest_node_modules(&fs, EXPORTS_ROOT);
    assert_eq!(
        match closest_node_modules {
            Some(p) => p,
            None => String::new(),
        },
        format!("{}/node_modules", EXPORTS_ROOT)
    );
}
