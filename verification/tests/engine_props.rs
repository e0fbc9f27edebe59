use stylex_path_resolver::exports::target_rank;
use stylex_path_resolver::fs_model::{find_closest_package_json_folder, find_closest_path, FileSystem};
use stylex_path_resolver::laws::resolve_file_path_twice;
use stylex_path_resolver::package::{
    ExportsTarget, PackageDescriptor, PackageDescriptorCache, ResolveError,
};
use stylex_path_resolver::prober::package_name_split;
use stylex_path_resolver::resolvers::{resolve_file_path, resolve_path};
use stylex_path_resolver::utils::relative_path;

fn strings(items: &[&str]) -> Vec<String> {
    items.iter().map(|s| s.to_string()).collect()
}

fn descriptor(
    name: Option<&str>,
    main: Option<&str>,
    exports: Option<Vec<(String, ExportsTarget)>>,
    dependencies: &[&str],
) -> PackageDescriptor {
    PackageDescriptor {
        name: name.map(|s| s.to_string()),
        main: main.map(|s| s.to_string()),
        exports,
        dependencies: strings(dependencies),
    }
}

fn single(key: &str, target: &str) -> (String, ExportsTarget) {
    (key.to_string(), ExportsTarget::Single(target.to_string()))
}

const ROOT: &str = "/work/app";

/// A small tree with both `.ts` and `.js` variants of one module, a package
/// whose exports map misses a probed sub-path, and a dependency installed
/// outside any `node_modules`.
fn fixture() -> FileSystem {
    let files = strings(&[
        &format!("{ROOT}/package.json"),
        &format!("{ROOT}/src/pages/home.js"),
        &format!("{ROOT}/src/colors.stylex.ts"),
        &format!("{ROOT}/src/colors.stylex.js"),
        &format!("{ROOT}/src/only.stylex.js.tsx"),
        &format!("{ROOT}/node_modules/stylex-lib-partial/package.json"),
        &format!("{ROOT}/node_modules/stylex-lib-partial/colors.stylex.js"),
        &format!("{ROOT}/node_modules/stylex-lib-partial/dist/other.js"),
        &format!("{ROOT}/node_modules/stylex-lib-plain/package.json"),
        &format!("{ROOT}/node_modules/stylex-lib-plain/dist/colors.stylex.js"),
    ]);
    let packages = vec![
        (
            ROOT.to_string(),
            descriptor(Some("app"), None, None, &["stylex-lib-partial", "stylex-lib-plain"]),
        ),
        (
            format!("{ROOT}/node_modules/stylex-lib-partial"),
            descriptor(
                Some("stylex-lib-partial"),
                None,
                Some(vec![single("./other", "./dist/other.js")]),
                &[],
            ),
        ),
        (
            format!("{ROOT}/node_modules/stylex-lib-plain"),
            descriptor(
                Some("stylex-lib-plain"),
                None,
                Some(vec![single("./colors.stylex", "./dist/colors.stylex.js")]),
                &[],
            ),
        ),
    ];
    FileSystem { files, packages }
}

fn resolved(import_path_str: &str, source_file_path: &str) -> Result<String, ResolveError> {
    let fs = fixture();
    let mut seen = PackageDescriptorCache::new();
    let aliases: Vec<(String, Vec<String>)> = Vec::new();
    resolve_file_path(import_path_str, source_file_path, ROOT, &aliases, &fs, &mut seen)
}

#[test]
fn explicit_extension_is_never_probed_further() {
    // `only.stylex.js` does not exist, while `only.stylex.js.tsx` does: a
    // specifier with an explicit recognized extension must not pick it up.
    let source = format!("{ROOT}/src/pages/home.js");
    let r = resolved("../only.stylex.js", &source);
    assert!(matches!(r, Err(ResolveError::NotFound { .. })));
    if let Err(ResolveError::NotFound { specifier, importer }) = r {
        assert_eq!(specifier, "../only.stylex.js");
        assert_eq!(importer, source);
    }
}

#[test]
fn extension_priority_prefers_ts_over_js() {
    // Both `colors.stylex.ts` and `colors.stylex.js` exist: `.ts` wins.
    let source = format!("{ROOT}/src/pages/home.js");
    let r = resolved("../colors.stylex", &source);
    assert_eq!(r.unwrap_or_default(), format!("{ROOT}/src/colors.stylex.ts"));
}

#[test]
fn unsupported_exports_shape_falls_back_to_plain_probing() {
    // The exports map only advertises `./other`: the requested sub-path is
    // recovered by joining the package directory and probing extensions.
    let source = format!("{ROOT}/src/pages/home.js");
    let r = resolved("stylex-lib-partial/colors.stylex", &source);
    assert_eq!(
        r.unwrap_or_default(),
        format!("{ROOT}/node_modules/stylex-lib-partial/colors.stylex.js")
    );
}

#[test]
fn exports_map_selects_advertised_file() {
    let source = format!("{ROOT}/src/pages/home.js");
    let r = resolved("stylex-lib-plain/colors.stylex", &source);
    assert_eq!(
        r.unwrap_or_default(),
        format!("{ROOT}/node_modules/stylex-lib-plain/dist/colors.stylex.js")
    );
}

#[test]
fn alias_resolves_like_relative_specifier() {
    // alias `@/*` -> `<root>/src/*` makes the aliased specifier resolve
    // identically to the equivalent relative specifier
    let fs = fixture();
    let source = format!("{ROOT}/src/pages/home.js");
    let aliases = vec![("@/*".to_string(), vec![format!("{ROOT}/src/*")])];
    let none: Vec<(String, Vec<String>)> = Vec::new();
    let mut seen = PackageDescriptorCache::new();
    let via_alias =
        resolve_file_path("@/colors.stylex.js", &source, ROOT, &aliases, &fs, &mut seen);
    let via_relative =
        resolve_file_path("../colors.stylex.js", &source, ROOT, &none, &fs, &mut seen);
    assert_eq!(via_alias.unwrap_or_default(), via_relative.unwrap_or_default());
    assert_eq!(
        resolve_file_path("@/colors.stylex.js", &source, ROOT, &aliases, &fs, &mut seen)
            .unwrap_or_default(),
        format!("{ROOT}/src/colors.stylex.js")
    );
}

#[test]
fn absolute_specifier_resolves_without_probing() {
    let source = format!("{ROOT}/src/pages/home.js");
    let r = resolved(&format!("{ROOT}/src/colors.stylex.js"), &source);
    assert_eq!(r.unwrap_or_default(), format!("{ROOT}/src/colors.stylex.js"));
}

#[test]
fn missing_file_reports_not_found() {
    let source = format!("{ROOT}/src/pages/home.js");
    let r = resolved("./does-not-exist", &source);
    assert!(matches!(r, Err(ResolveError::NotFound { .. })));
}

#[test]
fn missing_root_descriptor_reports_malformed() {
    // A file outside the root and outside any node_modules needs the root
    // package's dependency set; without a root descriptor that is an error.
    let fs = FileSystem { files: strings(&["/elsewhere/lib/colors.stylex.js"]), packages: vec![] };
    let mut seen = PackageDescriptorCache::new();
    let r = resolve_path(&fs, "/elsewhere/lib/colors.stylex.js", ROOT, &mut seen);
    assert!(
        matches!(r, Err(ResolveError::MalformedPackageDescriptor { dir }) if dir == ROOT)
    );
}

#[test]
fn resolution_is_idempotent_and_cache_only_grows() {
    let fs = fixture();
    let mut seen = PackageDescriptorCache::new();
    let aliases: Vec<(String, Vec<String>)> = Vec::new();
    let source = format!("{ROOT}/src/pages/home.js");
    let (first, second) = resolve_file_path_twice(
        "stylex-lib-plain/colors.stylex",
        &source,
        ROOT,
        &aliases,
        &fs,
        &mut seen,
    );
    assert_eq!(first.unwrap_or_default(), second.unwrap_or_default());
    let len_after = seen.entries.len();
    // a third resolution adds nothing new to the cache
    let third = resolve_file_path(
        "stylex-lib-plain/colors.stylex",
        &source,
        ROOT,
        &aliases,
        &fs,
        &mut seen,
    );
    assert_eq!(third.unwrap_or_default(), format!(
        "{ROOT}/node_modules/stylex-lib-plain/dist/colors.stylex.js"
    ));
    assert_eq!(seen.entries.len(), len_after);
}

#[test]
fn resolve_path_rewrites_local_file() {
    let fs = fixture();
    let mut seen = PackageDescriptorCache::new();
    let r = resolve_path(&fs, &format!("{ROOT}/src/pages/../colors.stylex.js"), ROOT, &mut seen);
    assert_eq!(r.unwrap_or_default(), "src/colors.stylex.js");
}

#[test]
fn resolve_path_keeps_node_modules_tail_verbatim() {
    let fs = fixture();
    let mut seen = PackageDescriptorCache::new();
    let r = resolve_path(
        &fs,
        "/other/store/node_modules/stylex-lib-plain/dist/colors.stylex.js",
        ROOT,
        &mut seen,
    );
    assert_eq!(r.unwrap_or_default(), "node_modules/stylex-lib-plain/dist/colors.stylex.js");
}

#[test]
fn resolve_path_attributes_outside_file_to_dependency() {
    // A file that lives outside the root and outside node_modules is
    // attributed to the declared dependency whose name closes its path.
    let mut fs = fixture();
    fs.files.push(format!("/work/store/stylex-lib-plain/colors.stylex.js"));
    let mut seen = PackageDescriptorCache::new();
    let r = resolve_path(&fs, "/work/store/stylex-lib-plain/colors.stylex.js", ROOT, &mut seen);
    assert_eq!(r.unwrap_or_default(), "node_modules/stylex-lib-plain/dist/colors.stylex.js");
}

#[test]
fn relative_path_climbs_and_descends() {
    assert_eq!(relative_path("/a/b/c.js", "/a"), "b/c.js");
    assert_eq!(relative_path("/a/x/../b/c.js", "/a/d"), "../b/c.js");
    assert_eq!(relative_path("/a", "/a"), "");
}

#[test]
fn resolution_cleans_redundant_segments() {
    // `.` and repeated `..` segments written in a specifier disappear from
    // the resolved path
    let source = format!("{ROOT}/src/pages/home.js");
    let r = resolved("./.././colors.stylex.js", &source);
    assert_eq!(r.unwrap_or_default(), format!("{ROOT}/src/colors.stylex.js"));
}

#[test]
fn target_rank_orders_dual_package_targets() {
    assert_eq!(target_rank("./dist/index.js"), 0);
    assert_eq!(target_rank("./dist/index.cjs"), 1);
    assert_eq!(target_rank("./dist/index.mjs"), 2);
    assert_eq!(target_rank("./dist/index.json"), 3);
}

#[test]
fn package_name_split_handles_scopes() {
    let (name, sub) = package_name_split("@scope/lib/colors.stylex");
    assert_eq!(name, "@scope/lib");
    assert_eq!(sub, "colors.stylex");
    let (name, sub) = package_name_split("plain-lib");
    assert_eq!(name, "plain-lib");
    assert_eq!(sub, "");
    let (name, sub) = package_name_split("plain-lib/deep/file.js");
    assert_eq!(name, "plain-lib");
    assert_eq!(sub, "deep/file.js");
}

#[test]
fn closest_package_json_folder_is_found() {
    let fs = fixture();
    let found = find_closest_package_json_folder(&fs, &format!("{ROOT}/src/pages"));
    assert_eq!(
        match found {
            Some(p) => p,
            None => String::new(),
        },
        ROOT
    );
}

#[test]
fn find_closest_path_walks_upward() {
    let fs = fixture();
    let found = find_closest_path(&fs, &format!("{ROOT}/src/pages"), "node_modules");
    assert_eq!(
        match found {
            Some(p) => p,
            None => String::new(),
        },
        format!("{ROOT}/node_modules")
    );
    let missing = find_closest_path(&fs, "/work/app/src/pages", "vendor");
    assert!(missing.is_none());
}
