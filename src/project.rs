//! Which logical service a source file belongs to, which files are left out,
//! and the analysis of a whole set of parsed files.
use vstd::prelude::*;

use crate::analysis::{key_sorted, no_duplicates, sort_and_dedup};
use crate::syntax::Node;
use crate::visitor::{detect_queries, file_occurrences, occurrence_of, query_well_formed, Occurrence};
use crate::{query_views, MongoQuery};

verus! {

/// A service: the file-path patterns that select its files, and the
/// patterns of files to leave out (a `*` in them is ignored).
#[derive(Debug, Clone)]
pub struct ServiceConfig {
    pub name: String,
    pub patterns: Vec<String>,
    pub excluded_files: Vec<String>,
}

/// The services of a project, each under its own key (see `well_formed`);
/// the first service whose patterns select a file owns it.
#[derive(Debug, Clone)]
pub struct ProjectConfig {
    pub services: Vec<(String, ServiceConfig)>,
}

fn chars_of(s: &str) -> (r: Vec<char>)
    ensures
        r@ == s@,
{
    let n = s.unicode_len();
    let mut r: Vec<char> = Vec::new();
    let mut i: usize = 0;
    while i < n
        invariant
            n == s@.len(),
            i <= n,
            r@ == s@.take(i as int),
        decreases n - i,
    {
        r.push(s.get_char(i));
        assert(r@ =~= s@.take(i + 1));
        i = i + 1;
    }
    assert(s@.take(i as int) =~= s@);
    r
}

fn owned(s: &str) -> (r: String)
    ensures
        r@ == s@,
{
    String::from_str(s)
}

impl ProjectConfig {
    /// Service keys are distinct, as the keys of a map are.
    pub open spec fn well_formed(&self) -> bool {
        forall|i: int, j: int|
            0 <= i < j < self.services@.len() ==> (#[trigger] self.services@[i]).0@
                != (#[trigger] self.services@[j]).0@
    }

    /// Whether the service keys are distinct.
    pub fn has_distinct_keys(&self) -> (r: bool)
        ensures
            r == self.well_formed(),
    {
        let svcs = &self.services;
        let mut j: usize = 0;
        while j < svcs.len()
            invariant
                j <= svcs.len(),
                svcs == self.services,
                forall|a: int, b: int|
                    0 <= a < b < j ==> (#[trigger] svcs@[a]).0@ != (#[trigger] svcs@[b]).0@,
            decreases svcs.len() - j,
        {
            let mut i: usize = 0;
            while i < j
                invariant
                    i <= j,
                    j < svcs.len(),
                    svcs == self.services,
                    forall|a: int, b: int|
                        0 <= a < b < j ==> (#[trigger] svcs@[a]).0@ != (#[trigger] svcs@[b]).0@,
                    forall|a: int| 0 <= a < i ==> (#[trigger] svcs@[a]).0@ != svcs@[j as int].0@,
                decreases j - i,
            {
                if crate::text::str_eq(svcs[i].0.as_str(), svcs[j].0.as_str()) {
                    return false;
                }
                i = i + 1;
            }
            j = j + 1;
        }
        true
    }

    /// A service's entry as it is built by `default`.
    pub open spec fn has_entry(&self, i: int, key: Seq<char>, patterns: Seq<Seq<char>>) -> bool {
        &&& self.services@[i].0@ == key
        &&& self.services@[i].1.name@ == key
        &&& crate::text::strs(self.services@[i].1.patterns@) == patterns
        &&& crate::text::strs(self.services@[i].1.excluded_files@) == seq![
            "*.spec.ts"@,
            "*.test.ts"@,
        ]
    }
}

impl Default for ProjectConfig {
    /// A user service (files matching `user.*\.ts` or `auth.*\.ts`) and a
    /// product service (`product.*\.ts` or `catalog.*\.ts`), both leaving out
    /// spec and test files.
    fn default() -> (r: Self)
        ensures
            r.services@.len() == 2,
            r.well_formed(),
            r.has_entry(0, "user-service"@, seq!["user.*\\.ts"@, "auth.*\\.ts"@]),
            r.has_entry(1, "product-service"@, seq!["product.*\\.ts"@, "catalog.*\\.ts"@]),
    {
        let user = ServiceConfig {
            name: owned("user-service"),
            patterns: vec![owned("user.*\\.ts"), owned("auth.*\\.ts")],
            excluded_files: vec![owned("*.spec.ts"), owned("*.test.ts")],
        };
        let product = ServiceConfig {
            name: owned("product-service"),
            patterns: vec![owned("product.*\\.ts"), owned("catalog.*\\.ts")],
            excluded_files: vec![owned("*.spec.ts"), owned("*.test.ts")],
        };
        let r = ProjectConfig {
            services: vec![(owned("user-service"), user), (owned("product-service"), product)],
        };
        proof {
            reveal_strlit("user-service");
            reveal_strlit("product-service");
        }
        assert("user-service"@.len() != "product-service"@.len());
        assert(crate::text::strs(r.services@[0].1.patterns@) =~= seq![
            "user.*\\.ts"@,
            "auth.*\\.ts"@,
        ]);
        assert(crate::text::strs(r.services@[1].1.patterns@) =~= seq![
            "product.*\\.ts"@,
            "catalog.*\\.ts"@,
        ]);
        assert(crate::text::strs(r.services@[0].1.excluded_files@) =~= seq![
            "*.spec.ts"@,
            "*.test.ts"@,
        ]);
        assert(crate::text::strs(r.services@[1].1.excluded_files@) =~= seq![
            "*.spec.ts"@,
            "*.test.ts"@,
        ]);
        r
    }
}

/// Whether `pat` occurs in `text` as a contiguous run.
pub open spec fn has_sub(text: Seq<char>, pat: Seq<char>) -> bool {
    exists|i: int|
        0 <= i && i + pat.len() <= text.len() && #[trigger] text.subrange(i, i + pat.len()) == pat
}

fn contains_sub(text: &Vec<char>, pat: &Vec<char>) -> (r: bool)
    ensures
        r == has_sub(text@, pat@),
{
    let n = text.len();
    let m = pat.len();
    if m > n {
        return false;
    }
    let mut i: usize = 0;
    while i <= n - m
        invariant
            n == text@.len(),
            m == pat@.len(),
            m <= n,
            i <= n - m + 1,
            forall|k: int| 0 <= k < i ==> #[trigger] text@.subrange(k, k + m) != pat@,
        decreases n - m + 1 - i,
    {
        let mut j: usize = 0;
        while j < m && text[i + j] == pat[j]
            invariant
                n == text@.len(),
                m == pat@.len(),
                i + m <= n,
                j <= m,
                forall|k: int| 0 <= k < j ==> text@[i + k] == pat@[k],
            decreases m - j,
        {
            j = j + 1;
        }
        if j == m {
            assert(text@.subrange(i as int, i + m) =~= pat@);
            return true;
        }
        assert(text@.subrange(i as int, i + m)[j as int] != pat@[j as int]);
        i = i + 1;
    }
    assert forall|k: int| 0 <= k && k + m <= n implies #[trigger] text@.subrange(k, k + m)
        != pat@ by {
        assert(k < i);
    }
    false
}

/// `s` without its `*` characters.
pub open spec fn strip_stars(s: Seq<char>) -> Seq<char>
    decreases s.len(),
{
    if s.len() == 0 {
        s
    } else if s.last() == '*' {
        strip_stars(s.drop_last())
    } else {
        strip_stars(s.drop_last()).push(s.last())
    }
}

fn without_stars(s: &str) -> (r: Vec<char>)
    ensures
        r@ == strip_stars(s@),
{
    let cs = chars_of(s);
    let mut r: Vec<char> = Vec::new();
    let mut i: usize = 0;
    assert(cs@.take(0) =~= Seq::<char>::empty());
    while i < cs.len()
        invariant
            i <= cs.len(),
            cs@ == s@,
            r@ == strip_stars(cs@.take(i as int)),
        decreases cs.len() - i,
    {
        assert(cs@.take(i + 1).drop_last() =~= cs@.take(i as int));
        if cs[i] != '*' {
            r.push(cs[i]);
        }
        i = i + 1;
    }
    assert(cs@.take(i as int) =~= cs@);
    r
}

/// A file excluded by a service: one of its exclusion patterns, without its
/// `*` characters, occurs in the path.
pub open spec fn is_excluded(path: Seq<char>, svc: ServiceConfig) -> bool {
    exists|k: int|
        0 <= k < svc.excluded_files@.len() && has_sub(
            path,
            strip_stars(#[trigger] svc.excluded_files@[k]@),
        )
}

/// Whether one of the service's exclusion patterns, without its `*`
/// characters, occurs in the path.
pub fn should_exclude_file(file_path: &str, config: &ServiceConfig) -> (r: bool)
    ensures
        r == is_excluded(file_path@, *config),
{
    let path = chars_of(file_path);
    let mut k: usize = 0;
    while k < config.excluded_files.len()
        invariant
            k <= config.excluded_files.len(),
            path@ == file_path@,
            forall|j: int|
                0 <= j < k ==> !has_sub(
                    file_path@,
                    strip_stars(#[trigger] config.excluded_files@[j]@),
                ),
        decreases config.excluded_files.len() - k,
    {
        let pat = without_stars(config.excluded_files[k].as_str());
        if contains_sub(&path, &pat) {
            return true;
        }
        k = k + 1;
    }
    false
}

/// Whether `regex::Regex::new` accepts a pattern.
pub uninterp spec fn regex_compiles(pattern: Seq<char>) -> bool;

/// What `regex::Regex::is_match` answers for a compiled pattern and a text.
pub uninterp spec fn regex_finds(pattern: Seq<char>, text: Seq<char>) -> bool;

/// Relies on `regex::Regex::new`, which fails on an invalid (or too large)
/// pattern, and on `regex::Regex::is_match`, which tells whether the
/// pattern matches anywhere in the text; both depend on their arguments
/// alone.
#[verifier::external_body]
fn regex_is_match(pattern: &str, text: &str) -> (r: Option<bool>)
    ensures
        regex_compiles(pattern@) ==> r == Some(regex_finds(pattern@, text@)),
        !regex_compiles(pattern@) ==> r is None,
{
    match regex::Regex::new(pattern) {
        Ok(re) => Some(re.is_match(text)),
        Err(_) => None,
    }
}

/// Whether a service pattern selects a path: as a regular expression where
/// it is one, else as literal text.
pub open spec fn pattern_selects(pattern: Seq<char>, path: Seq<char>) -> bool {
    if regex_compiles(pattern) {
        regex_finds(pattern, path)
    } else {
        has_sub(path, pattern)
    }
}

/// Whether one of a service's patterns selects a path.
pub open spec fn service_selects(svc: ServiceConfig, path: Seq<char>) -> bool {
    exists|k: int|
        0 <= k < svc.patterns@.len() && pattern_selects(#[trigger] svc.patterns@[k]@, path)
}

/// The key of the first service, from the `i`-th on, that selects a path.
pub open spec fn selecting_service(
    svcs: Seq<(String, ServiceConfig)>,
    path: Seq<char>,
    i: int,
) -> Option<Seq<char>>
    decreases svcs.len() - i,
{
    if i < 0 || i >= svcs.len() {
        None
    } else if service_selects(svcs[i].1, path) {
        Some(svcs[i].0@)
    } else {
        selecting_service(svcs, path, i + 1)
    }
}

/// The service that owns a path: the first configured service that selects
/// it, else one named after words in the path.
pub open spec fn service_of(path: Seq<char>, config: ProjectConfig) -> Seq<char> {
    match selecting_service(config.services@, path, 0) {
        Some(s) => s,
        None => if has_sub(path, "user"@) || has_sub(path, "auth"@) {
            "user-service"@
        } else if has_sub(path, "product"@) || has_sub(path, "catalog"@) {
            "product-service"@
        } else {
            "unknown-service"@
        },
    }
}

fn pattern_matches(pattern: &str, path: &str, path_chars: &Vec<char>) -> (r: bool)
    requires
        path_chars@ == path@,
    ensures
        r == pattern_selects(pattern@, path@),
{
    match regex_is_match(pattern, path) {
        Some(b) => b,
        None => contains_sub(path_chars, &chars_of(pattern)),
    }
}

/// The service that owns a file: the first configured service, in order,
/// one of whose patterns selects the path; else `user-service` for a path
/// that holds `user` or `auth`, `product-service` for one that holds
/// `product` or `catalog`, and `unknown-service` otherwise.
pub fn determine_service(file_path: &str, config: &ProjectConfig) -> (r: String)
    ensures
        r@ == service_of(file_path@, *config),
{
    let path = chars_of(file_path);
    let svcs = &config.services;
    let mut i: usize = 0;
    while i < svcs.len()
        invariant
            i <= svcs.len(),
            svcs == config.services,
            path@ == file_path@,
            selecting_service(svcs@, file_path@, 0) == selecting_service(
                svcs@,
                file_path@,
                i as int,
            ),
        decreases svcs.len() - i,
    {
        let svc = &svcs[i].1;
        let mut k: usize = 0;
        while k < svc.patterns.len()
            invariant
                k <= svc.patterns.len(),
                i < svcs.len(),
                svcs == config.services,
                svc == svcs@[i as int].1,
                path@ == file_path@,
                selecting_service(svcs@, file_path@, 0) == selecting_service(
                    svcs@,
                    file_path@,
                    i as int,
                ),
                forall|j: int|
                    0 <= j < k ==> !pattern_selects(#[trigger] svc.patterns@[j]@, file_path@),
            decreases svc.patterns.len() - k,
        {
            if pattern_matches(svc.patterns[k].as_str(), file_path, &path) {
                return svcs[i].0.clone();
            }
            k = k + 1;
        }
        i = i + 1;
    }
    if contains_sub(&path, &chars_of("user")) || contains_sub(&path, &chars_of("auth")) {
        owned("user-service")
    } else if contains_sub(&path, &chars_of("product")) || contains_sub(
        &path,
        &chars_of("catalog"),
    ) {
        owned("product-service")
    } else {
        owned("unknown-service")
    }
}

/// The first service listed under key `key`.
pub open spec fn service_named(svcs: Seq<(String, ServiceConfig)>, key: Seq<char>, i: int) -> Option<
    ServiceConfig,
>
    decreases svcs.len() - i,
{
    if i < 0 || i >= svcs.len() {
        None
    } else if svcs[i].0@ == key {
        Some(svcs[i].1)
    } else {
        service_named(svcs, key, i + 1)
    }
}

fn find_service(config: &ProjectConfig, key: &str) -> (r: Option<usize>)
    ensures
        match r {
            Some(i) => i < config.services@.len() && service_named(config.services@, key@, 0)
                == Some(config.services@[i as int].1),
            None => service_named(config.services@, key@, 0) is None,
        },
{
    let svcs = &config.services;
    let mut i: usize = 0;
    while i < svcs.len()
        invariant
            i <= svcs.len(),
            svcs == config.services,
            service_named(svcs@, key@, 0) == service_named(svcs@, key@, i as int),
        decreases svcs.len() - i,
    {
        if crate::text::str_eq(svcs[i].0.as_str(), key) {
            return Some(i);
        }
        i = i + 1;
    }
    None
}

/// One source file: its path, and its syntax tree, or `None` where it could
/// not be parsed.
#[derive(Debug)]
pub struct SourceFile {
    pub path: String,
    pub module: Option<Vec<Node>>,
}

/// The service under which a file is analyzed: that which owns it, provided
/// the configuration lists it and it does not exclude the file, and the file
/// was parsed.
pub open spec fn analyzed_service(f: SourceFile, config: ProjectConfig) -> Option<Seq<char>> {
    let s = service_of(f.path@, config);
    match service_named(config.services@, s, 0) {
        Some(svc) => if !is_excluded(f.path@, svc) && f.module is Some {
            Some(s)
        } else {
            None
        },
        None => None,
    }
}

/// The call-sites that one file contributes.
pub open spec fn file_contribution(f: SourceFile, config: ProjectConfig) -> Seq<Occurrence> {
    match analyzed_service(f, config) {
        Some(s) => file_occurrences(f.module->0@, f.path@, s),
        None => Seq::empty(),
    }
}

/// Whether `path` is the path of a file that was parsed.
pub open spec fn is_parsed_file(files: Seq<SourceFile>, path: Seq<char>) -> bool {
    exists|i: int| 0 <= i < files.len() && #[trigger] files[i].path@ == path && files[i].module is Some
}

/// Whatever a file contributes names that file, which was parsed; a file
/// that could not be parsed contributes nothing.
pub proof fn lemma_contribution_names_parsed_file(
    files: Seq<SourceFile>,
    i: int,
    config: ProjectConfig,
    o: Occurrence,
)
    requires
        0 <= i < files.len(),
        file_contribution(files[i], config).contains(o),
    ensures
        files[i].module is Some,
        o.file == files[i].path@,
        is_parsed_file(files, o.file),
{
    let f = files[i];
    let s = analyzed_service(f, config)->0;
    crate::visitor::lemma_file_occurrences(f.module->0@, f.path@, s);
    let c = file_contribution(f, config);
    let m = choose|m: int| 0 <= m < c.len() && c[m] == o;
    assert(c[m].file == f.path@);
}

/// Whether one of the first `n` files contributes call-site `o`.
pub open spec fn from_some_file(
    files: Seq<SourceFile>,
    n: int,
    config: ProjectConfig,
    o: Occurrence,
) -> bool {
    exists|j: int| 0 <= j < n && #[trigger] file_contribution(files[j], config).contains(o)
}

/// The call-sites of all the files, each file analyzed on its own, then
/// ordered by file, line and method with exact duplicates removed. A file
/// that could not be parsed contributes nothing; the others contribute all
/// their call-sites.
pub fn analyze_sources(files: &Vec<SourceFile>, config: &ProjectConfig) -> (r: Vec<MongoQuery>)
    requires
        config.well_formed(),
    ensures
        key_sorted(query_views(r@)),
        no_duplicates(query_views(r@)),
        forall|k: int| 0 <= k < r@.len() ==> query_well_formed(#[trigger] r@[k]),
        forall|k: int|
            0 <= k < r@.len() ==> from_some_file(
                files@,
                files@.len() as int,
                *config,
                occurrence_of(#[trigger] r@[k]),
            ),
        forall|i: int, o: Occurrence|
            0 <= i < files@.len() && #[trigger] file_contribution(files@[i], *config).contains(o)
                ==> exists|k: int| 0 <= k < r@.len() && occurrence_of(#[trigger] r@[k]) == o,
        forall|k: int| 0 <= k < r@.len() ==> is_parsed_file(files@, (#[trigger] r@[k]).file@),
{
    let mut all: Vec<MongoQuery> = Vec::new();
    let mut i: usize = 0;
    while i < files.len()
        invariant
            i <= files.len(),
            forall|k: int| 0 <= k < all@.len() ==> query_well_formed(#[trigger] all@[k]),
            forall|k: int|
                0 <= k < all@.len() ==> from_some_file(
                    files@,
                    i as int,
                    *config,
                    occurrence_of(#[trigger] all@[k]),
                ),
            forall|j: int, o: Occurrence|
                0 <= j < i && #[trigger] file_contribution(files@[j], *config).contains(o)
                    ==> exists|k: int| 0 <= k < all@.len() && occurrence_of(#[trigger] all@[k]) == o,
        decreases files.len() - i,
    {
        let f = &files[i];
        let service = determine_service(f.path.as_str(), config);
        let ghost before = all@;
        match find_service(config, service.as_str()) {
            Some(si) => {
                if !should_exclude_file(f.path.as_str(), &config.services[si].1) {
                    match &f.module {
                        Some(module) => {
                            let mut found = detect_queries(module, f.path.clone(), service);
                            let ghost fv = found@;
                            assert(fv.map_values(|q: MongoQuery| occurrence_of(q))
                                == file_contribution(files@[i as int], *config));
                            all.append(&mut found);
                            assert forall|k: int| 0 <= k < all@.len() implies from_some_file(
                                files@,
                                i + 1,
                                *config,
                                occurrence_of(#[trigger] all@[k]),
                            ) by {
                                if k >= before.len() {
                                    let m = k - before.len();
                                    assert(all@[k] == fv[m]);
                                    assert(file_contribution(files@[i as int], *config)[m]
                                        == occurrence_of(fv[m]));
                                    assert(file_contribution(files@[i as int], *config).contains(
                                        occurrence_of(all@[k]),
                                    ));
                                } else {
                                    assert(all@[k] == before[k]);
                                    assert(from_some_file(files@, i as int, *config, occurrence_of(before[k])));
                                    let j = choose|j: int|
                                        0 <= j < i && #[trigger] file_contribution(files@[j], *config).contains(
                                            occurrence_of(before[k]),
                                        );
                                    assert(file_contribution(files@[j], *config).contains(
                                        occurrence_of(all@[k]),
                                    ));
                                }
                            }
                            assert forall|j: int, o: Occurrence|
                                0 <= j < i + 1 && #[trigger] file_contribution(
                                    files@[j],
                                    *config,
                                ).contains(o) implies exists|k: int|
                                0 <= k < all@.len() && occurrence_of(#[trigger] all@[k]) == o by {
                                if j == i {
                                    let c = file_contribution(files@[j], *config);
                                    let m = choose|m: int| 0 <= m < c.len() && c[m] == o;
                                    assert(occurrence_of(fv[m]) == o);
                                    assert(all@[before.len() + m] == fv[m]);
                                } else {
                                    let k = choose|k: int|
                                        0 <= k < before.len() && occurrence_of(before[k]) == o;
                                    assert(all@[k] == before[k]);
                                }
                            }
                            assert forall|k: int| 0 <= k < all@.len() implies query_well_formed(
                                #[trigger] all@[k],
                            ) by {
                                if k >= before.len() {
                                    assert(all@[k] == fv[k - before.len()]);
                                } else {
                                    assert(all@[k] == before[k]);
                                }
                            }
                        },
                        None => {},
                    }
                }
            },
            None => {},
        }
        i = i + 1;
    }
    let r = sort_and_dedup(&all);
    let ghost av = query_views(all@);
    let ghost rv = query_views(r@);
    assert forall|k: int| 0 <= k < r@.len() implies query_well_formed(#[trigger] r@[k])
        && from_some_file(files@, files@.len() as int, *config, occurrence_of(r@[k])) by {
        assert(rv.to_set().contains(rv[k]));
        assert(av.to_set().contains(rv[k]));
        let m = choose|m: int| 0 <= m < av.len() && av[m] == rv[k];
        assert(all@[m]@ == r@[k]@);
        assert(occurrence_of(all@[m]) == occurrence_of(r@[k]));
        assert(query_well_formed(all@[m]));
        assert(from_some_file(files@, files@.len() as int, *config, occurrence_of(all@[m])));
        let j = choose|j: int|
            0 <= j < files@.len() && #[trigger] file_contribution(files@[j], *config).contains(
                occurrence_of(all@[m]),
            );
        assert(file_contribution(files@[j], *config).contains(occurrence_of(r@[k])));
        assert(0 <= j < files@.len());
    }
    assert forall|k: int| 0 <= k < r@.len() implies is_parsed_file(files@, (#[trigger] r@[k]).file@) by {
        assert(from_some_file(files@, files@.len() as int, *config, occurrence_of(r@[k])));
        let j = choose|j: int|
            0 <= j < files@.len() && #[trigger] file_contribution(files@[j], *config).contains(
                occurrence_of(r@[k]),
            );
        lemma_contribution_names_parsed_file(files@, j, *config, occurrence_of(r@[k]));
    }

    assert forall|i: int, o: Occurrence|
        0 <= i < files@.len() && #[trigger] file_contribution(files@[i], *config).contains(o)
            implies exists|k: int| 0 <= k < r@.len() && occurrence_of(#[trigger] r@[k]) == o by {
        let m = choose|m: int| 0 <= m < all@.len() && occurrence_of(all@[m]) == o;
        assert(av.to_set().contains(av[m]));
        assert(rv.to_set().contains(av[m]));
        let k = choose|k: int| 0 <= k < rv.len() && rv[k] == av[m];
        assert(r@[k]@ == all@[m]@);
        assert(occurrence_of(r@[k]) == occurrence_of(all@[m]));
    }
    r
}

} // verus!
