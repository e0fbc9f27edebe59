//! Library-wide laws: properties of the resolution engine that hold for all
//! inputs, stated over the same spec functions the public contracts use.

use vstd::prelude::*;
use crate::fs_model::FileSystem;
use crate::package::{cache_consistent, PackageDescriptorCache, ResolveError};
use crate::paths::{
    clean_fold, ext_token_recognized, has_recognized_ext, is_clean_abs, is_rooted, spec_clean,
    spec_ext_of_name, spec_extensions, spec_file_name, spec_join, spec_parent, spec_probe_path,
};
use crate::prober::SpecProbe;
use crate::resolvers::{
    resolve_file_path, spec_candidates, spec_probe_all, spec_probe_pair, spec_probe_row,
    spec_resolve_file_path, spec_resolve_path, SpecCands,
};
use crate::text::{ends_with_seq, last_pos, lemma_last_pos, occurs_at};

verus! {

/// The outcome a resolution result stands for, up to string identity.
pub open spec fn spec_outcome(r: Result<String, ResolveError>) -> SpecProbe {
    match r {
        Ok(p) => SpecProbe::Found(p@),
        Err(ResolveError::NotFound { specifier, importer }) => SpecProbe::Absent,
        Err(ResolveError::MalformedPackageDescriptor { dir }) => SpecProbe::Failed(dir@),
    }
}

/// Idempotence: resolving the same specifier twice from the same importer
/// against the same file system yields the identical outcome, and the
/// second call keeps every cache entry the first one made — the cache only
/// ever grows, and its content never influences the result.
pub fn resolve_file_path_twice(
    import_path_str: &str,
    source_file_path: &str,
    root_path: &str,
    aliases: &Vec<(String, Vec<String>)>,
    fs: &FileSystem,
    package_json_seen: &mut PackageDescriptorCache,
) -> (r: (Result<String, ResolveError>, Result<String, ResolveError>))
    requires
        is_rooted(source_file_path@),
        is_clean_abs(root_path@),
        cache_consistent(*old(package_json_seen), *fs),
    ensures
        spec_outcome(r.0) == spec_outcome(r.1),
        old(package_json_seen).entries@.is_prefix_of(final(package_json_seen).entries@),
{
    let first = resolve_file_path(
        import_path_str,
        source_file_path,
        root_path,
        aliases,
        fs,
        package_json_seen,
    );
    let second = resolve_file_path(
        import_path_str,
        source_file_path,
        root_path,
        aliases,
        fs,
        package_json_seen,
    );
    (first, second)
}

/// Cleaning under a root resolves every `..`: no segment of the cleaned
/// form of an absolute path is `..`. This is what guarantees that a
/// workspace alias crossing a sibling package yields a final string cleaned
/// of `..` segments.
pub proof fn lemma_clean_rooted_no_parent(segs: Seq<Seq<char>>)
    ensures
        forall|i: int|
            0 <= i < clean_fold(segs, true).len() ==> clean_fold(segs, true)[i] != ".."@,
    decreases segs.len(),
{
    if segs.len() > 0 {
        lemma_clean_rooted_no_parent(segs.drop_last());
        let prev = clean_fold(segs.drop_last(), true);
        let s = segs.last();
        if s == ".."@ && prev.len() > 0 {
            assert(prev.last() != ".."@);
            assert(forall|i: int|
                0 <= i < prev.drop_last().len() ==> prev.drop_last()[i] == prev[i]);
        }
    }
}

/// A path that ends in a recognized extension, and whose file name carries
/// an extension token at all, is probed as itself: `spec_probe_path` never
/// appends anything to it, whatever extension the probe loop is at.
pub proof fn lemma_probe_keeps_recognized(p: Seq<char>, e: Seq<char>)
    requires
        has_recognized_ext(p),
        spec_ext_of_name(spec_file_name(p)) is Some,
    ensures
        spec_probe_path(p, e) == p,
{
    reveal_strlit(".");
    reveal_strlit("..");
    reveal_strlit("/");
    reveal_strlit(".tsx");
    reveal_strlit(".ts");
    reveal_strlit(".jsx");
    reveal_strlit(".js");
    reveal_strlit(".mjs");
    reveal_strlit(".cjs");
    reveal_strlit(".mdx");
    reveal_strlit(".md");
    let f = spec_file_name(p);
    lemma_last_pos(f, "."@);
    let i = last_pos(f, "."@)->Some_0;
    assert(occurs_at(f, "."@, i));
    assert(0 <= i && i + 1 <= f.len());
    assert(f[i] == '.') by {
        assert(f.subrange(i, i + 1)[0] == f[i]);
    }
    let t = f.subrange(i + 1, f.len() as int);
    // the token holds no dot: `i` is the last one
    assert forall|m: int| 0 <= m < t.len() implies t[m] != '.' by {
        if t[m] == '.' {
            assert(f.subrange(i + 1 + m, i + 1 + m + 1) =~= "."@);
            assert(occurs_at(f, "."@, i + 1 + m));
        }
    }
    let k = choose|k: int|
        0 <= k < spec_extensions().len() && ends_with_seq(p, spec_extensions()[k]);
    let ext = spec_extensions()[k];
    // the file name is a suffix of `p`, so the token is a suffix of `p`
    lemma_last_pos(p, "/"@);
    let off = p.len() - f.len();
    match last_pos(p, "/"@) {
        Some(j) => {
            assert(occurs_at(p, "/"@, j));
            assert(f == p.subrange(j + 1, p.len() as int));
            assert(off == j + 1);
        },
        None => {
            assert(f == p);
            assert(off == 0);
            assert(f =~= p.subrange(0, p.len() as int));
        },
    }
    assert forall|m: int| 0 <= m < f.len() implies f[m] == p[off + m] by {
        assert(p.subrange(off, p.len() as int)[m] == p[off + m]);
        assert(f =~= p.subrange(off, p.len() as int));
    }
    assert forall|m: int| 0 <= m < t.len() implies t[m] == p[p.len() - t.len() + m] by {
        assert(t[m] == f[i + 1 + m]);
        assert(f[i + 1 + m] == p[off + i + 1 + m]);
    }
    assert(t =~= p.subrange(p.len() - t.len(), p.len() as int));
    // the token is shorter than the matched extension: the extension starts
    // with a dot, while the token holds none
    assert(ext[0] == '.');
    if t.len() >= ext.len() {
        assert(t[t.len() - ext.len()] == p[p.len() - ext.len()]);
        assert(p[p.len() - ext.len()] == ext[0]);
        assert(false);
    }
    // so the token is a suffix of the extension itself
    assert(ext.subrange(ext.len() - t.len(), ext.len() as int) =~= t);
    assert(ends_with_seq(ext, t));
    assert(ext_token_recognized(t));
}

/// For a relative specifier that carries a recognized extension, candidate
/// construction never touches the extension list: the candidate set is the
/// single resolved path of the joined import, or empty when that path
/// cannot be attributed.
pub proof fn lemma_explicit_extension_single_candidate(
    fs: FileSystem,
    import: Seq<char>,
    sd: Seq<char>,
    root: Seq<char>,
    aliases: Seq<(Seq<char>, Seq<Seq<char>>)>,
)
    requires
        import.len() > 0,
        import[0] == '.',
        has_recognized_ext(import),
    ensures
        spec_candidates(fs, import, sd, root, aliases) == (match spec_resolve_path(
            fs,
            spec_join(sd, import),
            root,
        ) {
            SpecProbe::Failed(d) => SpecCands::Fail(d),
            SpecProbe::Absent => SpecCands::Cands(Seq::<Seq<char>>::empty()),
            SpecProbe::Found(p) => SpecCands::Cands(seq![p]),
        }),
        (spec_candidates(fs, import, sd, root, aliases) matches SpecCands::Cands(cs) ==> cs.len()
            <= 1),
{
}

/// A single candidate that the probe transform leaves alone faces exactly
/// one class of filesystem checks: probing it under every extension always
/// tests the same pair of locations, so the whole probe loop reduces to one
/// existence check pair.
pub proof fn lemma_single_check_class(fs: FileSystem, c: Seq<char>, root: Seq<char>, k: int)
    requires
        0 <= k < spec_extensions().len(),
        forall|e: Seq<char>| #[trigger] spec_probe_path(spec_clean(c), e) == spec_clean(c),
    ensures
        spec_probe_all(fs, seq![c], root, k) == spec_probe_pair(fs, spec_clean(c), root),
    decreases spec_extensions().len() - k,
{
    assert(seq![c].len() == 1 && seq![c][0] == c);
    assert(spec_probe_path(spec_clean(c), spec_extensions()[k]) == spec_clean(c));
    match spec_probe_pair(fs, spec_clean(c), root) {
        Some(q) => {
            assert(spec_probe_row(fs, seq![c], root, k, 0) == Some(q));
        },
        None => {
            assert(spec_probe_row(fs, seq![c], root, k, 1) is None);
            assert(spec_probe_row(fs, seq![c], root, k, 0) is None);
            if k + 1 < spec_extensions().len() {
                lemma_single_check_class(fs, c, root, k + 1);
            } else {
                assert(spec_probe_all(fs, seq![c], root, k + 1) is None);
            }
        },
    }
}

/// For a relative specifier with an explicit recognized extension whose
/// resolved candidate keeps an extension token, the whole resolution is a
/// single existence check pair on that candidate: no additional extension
/// is ever probed.
pub proof fn lemma_explicit_extension_one_check(
    fs: FileSystem,
    import: Seq<char>,
    source: Seq<char>,
    root: Seq<char>,
    aliases: Seq<(Seq<char>, Seq<Seq<char>>)>,
    sd: Seq<char>,
    p: Seq<char>,
)
    requires
        import.len() > 0,
        import[0] == '.',
        has_recognized_ext(import),
        spec_parent(source) == Some(sd),
        spec_resolve_path(fs, spec_join(sd, import), root) == SpecProbe::Found(p),
        forall|e: Seq<char>| #[trigger] spec_probe_path(spec_clean(p), e) == spec_clean(p),
    ensures
        spec_resolve_file_path(fs, import, source, root, aliases) == (match spec_probe_pair(
            fs,
            spec_clean(p),
            root,
        ) {
            Some(q) => SpecProbe::Found(q),
            None => SpecProbe::Absent,
        }),
{
    lemma_explicit_extension_single_candidate(fs, import, sd, root, aliases);
    lemma_single_check_class(fs, p, root, 0);
}

/// Extension priority is load-bearing: for an extensionless relative
/// specifier whose `.tsx` join cannot be attributed but whose `.ts` join
/// resolves to an existing, probe-stable path, resolution returns that
/// `.ts` path — whatever later extensions (such as `.js`) would also have
/// yielded.
#[verifier::rlimit(60)]
pub proof fn lemma_ts_priority(
    fs: FileSystem,
    import: Seq<char>,
    source: Seq<char>,
    root: Seq<char>,
    aliases: Seq<(Seq<char>, Seq<Seq<char>>)>,
    sd: Seq<char>,
    p_ts: Seq<char>,
    q: Seq<char>,
)
    requires
        import.len() > 0,
        import[0] == '.',
        !has_recognized_ext(import),
        spec_parent(source) == Some(sd),
        crate::resolvers::spec_rel_cands(fs, sd, import, root, 2) is Cands,
        spec_resolve_path(fs, spec_join(sd, import + ".tsx"@), root) == SpecProbe::Absent,
        spec_resolve_path(fs, spec_join(sd, import + ".ts"@), root) == SpecProbe::Found(p_ts),
        forall|e: Seq<char>| #[trigger] spec_probe_path(spec_clean(p_ts), e) == spec_clean(p_ts),
        spec_probe_pair(fs, spec_clean(p_ts), root) == Some(q),
    ensures
        spec_resolve_file_path(fs, import, source, root, aliases) == SpecProbe::Found(q),
{
    let cands = crate::resolvers::spec_rel_cands(fs, sd, import, root, 0);
    assert(spec_extensions()[0] == ".tsx"@);
    assert(spec_extensions()[1] == ".ts"@);
    assert(crate::resolvers::spec_rel_cands(fs, sd, import, root, 0)
        == crate::resolvers::spec_rel_cands(fs, sd, import, root, 1));
    let rest = crate::resolvers::spec_rel_cands(fs, sd, import, root, 2);
    let rest_cs = rest->Cands_0;
    assert(cands == SpecCands::Cands(seq![p_ts] + rest_cs));
    let cs = seq![p_ts] + rest_cs;
    assert(cs[0] == p_ts);
    assert(cs.len() > 0);
    assert(spec_probe_path(spec_clean(cs[0]), spec_extensions()[0]) == spec_clean(p_ts));
    assert(spec_probe_row(fs, cs, root, 0, 0) == Some(q));
    assert(spec_probe_all(fs, cs, root, 0) == Some(q));
    assert(spec_candidates(fs, import, sd, root, aliases) == SpecCands::Cands(cs));
}

} // verus!
