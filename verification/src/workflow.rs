use vstd::prelude::*;
use vstd::string::StrSliceExecFns;
use vstd::string::StringExecFns;

use crate::config::{
    Cache, CacheSubmodule, CacheSubmoduleV, ConfigFile, ConfigFileV, DependenciesV,
    FindDependency, FindDependencyV, GitSubmodule, LocalDependency,
};
use crate::error::ProjectError;
use crate::text::{char_is_space, is_space};

verus! {

// ---------------------------------------------------------------------------
// Deriving a dependency's name from its repository address: the last
// `/`-delimited path segment, with any trailing `.`-delimited extension
// stripped.
// ---------------------------------------------------------------------------

pub open spec fn after_last_slash(s: Seq<char>) -> Seq<char>
    decreases s.len(),
{
    if s.len() == 0 {
        Seq::empty()
    } else if s.last() == '/' {
        Seq::empty()
    } else {
        after_last_slash(s.drop_last()).push(s.last())
    }
}

pub open spec fn before_first_dot(s: Seq<char>) -> Seq<char>
    decreases s.len(),
{
    if s.len() == 0 {
        Seq::empty()
    } else if s[0] == '.' {
        Seq::empty()
    } else {
        seq![s[0]] + before_first_dot(s.drop_first())
    }
}

/// The display name a repository address gets.
pub open spec fn submodule_name_spec(repo: Seq<char>) -> Seq<char> {
    before_first_dot(after_last_slash(repo))
}

pub proof fn lemma_after_last_slash(s: Seq<char>, k: int)
    requires
        0 <= k <= s.len(),
        forall|j: int| k <= j < s.len() ==> s[j] != '/',
        k > 0 ==> s[k - 1] == '/',
    ensures
        after_last_slash(s) == s.skip(k),
    decreases s.len(),
{
    if k == s.len() {
        if k > 0 {
            assert(s.last() == '/');
        }
        assert(s.skip(k) =~= Seq::<char>::empty());
        if k == 0 {
            assert(after_last_slash(s) =~= s.skip(k));
        }
    } else {
        assert(s.last() != '/');
        lemma_after_last_slash(s.drop_last(), k);
        assert(s.drop_last().skip(k).push(s.last()) =~= s.skip(k));
    }
}

proof fn lemma_before_first_dot(s: Seq<char>, j: int)
    requires
        0 <= j <= s.len(),
        forall|i: int| 0 <= i < j ==> s[i] != '.',
        j == s.len() || s[j] == '.',
    ensures
        before_first_dot(s) == s.take(j),
    decreases j,
{
    if j == 0 {
        assert(s.take(0) =~= Seq::<char>::empty());
    } else {
        assert(s[0] != '.');
        lemma_before_first_dot(s.drop_first(), j - 1);
        assert(seq![s[0]] + s.drop_first().take(j - 1) =~= s.take(j));
    }
}

/// Derive the name a fetched repository is known by: the final path
/// segment of the address, without its extension.
pub fn submodule_name(repo: &str) -> (r: String)
    ensures
        r@ == submodule_name_spec(repo@),
{
    let len = repo.unicode_len();
    let mut k = len;
    while k > 0 && repo.get_char(k - 1) != '/'
        invariant
            k <= len,
            len == repo@.len(),
            forall|j: int| k <= j < len ==> repo@[j] != '/',
        decreases k,
    {
        k = k - 1;
    }
    proof {
        lemma_after_last_slash(repo@, k as int);
    }
    let tail = repo.substring_char(k, len);
    proof {
        assert(tail@ =~= after_last_slash(repo@));
    }
    let tlen = tail.unicode_len();
    let mut j: usize = 0;
    while j < tlen && tail.get_char(j) != '.'
        invariant
            j <= tlen,
            tlen == tail@.len(),
            forall|i: int| 0 <= i < j ==> tail@[i] != '.',
        decreases tlen - j,
    {
        j = j + 1;
    }
    proof {
        lemma_before_first_dot(tail@, j as int);
    }
    let head = tail.substring_char(0, j);
    let r = String::from_str(head);
    proof {
        assert(r@ =~= submodule_name_spec(repo@));
    }
    r
}

/// Where a fetched repository is placed, relative to the project root.
pub open spec fn submodule_target_path_spec(repo: Seq<char>) -> Seq<char> {
    "external/"@ + submodule_name_spec(repo)
}

pub fn submodule_target_path(repo: &str) -> (r: String)
    ensures
        r@ == submodule_target_path_spec(repo@),
{
    let mut out = String::from_str("external/");
    let name = submodule_name(repo);
    out.append(name.as_str());
    out
}

// ---------------------------------------------------------------------------
// The dependency cache.
// ---------------------------------------------------------------------------

/// The display name of a cache entry: the derived repository name, with the
/// pinned tag and branch appended when present.
pub open spec fn cache_entry_name_spec(
    repo: Seq<char>,
    tag: Option<Seq<char>>,
    branch: Option<Seq<char>>,
) -> Seq<char> {
    submodule_name_spec(repo) + (match tag {
        Some(t) => " - tags/"@ + t,
        None => Seq::empty(),
    }) + (match branch {
        Some(b) => " - branch/"@ + b,
        None => Seq::empty(),
    })
}

pub fn cache_entry_name(repo: &str, tag: &Option<String>, branch: &Option<String>) -> (r: String)
    ensures
        r@ == cache_entry_name_spec(repo@, tag.deep_view(), branch.deep_view()),
{
    let mut out = submodule_name(repo);
    match tag {
        Some(t) => {
            out.append(" - tags/");
            out.append(t.as_str());
        },
        None => {},
    }
    match branch {
        Some(b) => {
            out.append(" - branch/");
            out.append(b.as_str());
        },
        None => {},
    }
    proof {
        assert(out@ =~= cache_entry_name_spec(repo@, tag.deep_view(), branch.deep_view()));
    }
    out
}

/// Append one fetched submodule to the cache, under its derived display
/// name.  The caller persists the cache right afterwards, so that a later
/// failure cannot lose the entry.
pub fn cache_git_submodule(cache: &mut Cache, submodule: GitSubmodule)
    ensures
        final(cache).deep_view().git_submodules == old(cache).deep_view().git_submodules.push(
            CacheSubmoduleV {
                name: cache_entry_name_spec(
                    submodule.repo@,
                    submodule.tag.deep_view(),
                    submodule.branch.deep_view(),
                ),
                submodule: submodule.deep_view(),
            },
        ),
{
    let name = cache_entry_name(&submodule.repo, &submodule.tag, &submodule.branch);
    let ghost pre = cache.deep_view().git_submodules;
    let ghost prev = cache.git_submodules@;
    let entry = CacheSubmodule { name, submodule };
    cache.git_submodules.push(entry);
    proof {
        let dv2 = cache.deep_view().git_submodules;
        let target = pre.push(entry.deep_view());
        assert(dv2.len() == target.len());
        assert forall|k: int| 0 <= k < dv2.len() implies dv2[k] == target[k] by {
            assert(dv2[k] == cache.git_submodules@[k].deep_view());
            if k < prev.len() {
                assert(cache.git_submodules@[k] == prev[k]);
                assert(pre[k] == prev[k].deep_view());
            } else {
                assert(cache.git_submodules@[k] == entry);
            }
        }
        assert(dv2 =~= target);
    }
}

// ---------------------------------------------------------------------------
// The acquisition workflow: which phase follows which, and which failures
// abort rather than warn.
// ---------------------------------------------------------------------------

/// The phases of fetching a git-hosted dependency, in order: add the
/// submodule, initialize it recursively, pin it to a tag or branch, and
/// register it as a local dependency.
#[derive(Clone, Copy, Debug, PartialEq, Eq, Structural)]
pub enum AcquirePhase {
    Add,
    Init,
    Pin,
    Register,
    Complete,
}

/// What the workflow does after one phase: go on to the given phase, go on
/// after displaying a warning, or abort the whole acquisition.
#[derive(Clone, Copy, Debug, PartialEq, Eq, Structural)]
pub enum AcquireOutcome {
    Continue(AcquirePhase),
    Warn(AcquirePhase),
    Fail,
}

/// The acquisition policy.  A failed submodule-add aborts the workflow; a
/// failed recursive init or a failed checkout only warns, and the workflow
/// goes on.  The pin phase is skipped when no tag and no branch was given.
pub open spec fn spec_acquire_next(phase: AcquirePhase, ok: bool, has_pin: bool) -> AcquireOutcome {
    match phase {
        AcquirePhase::Add => if ok {
            AcquireOutcome::Continue(AcquirePhase::Init)
        } else {
            AcquireOutcome::Fail
        },
        AcquirePhase::Init => {
            let next = if has_pin {
                AcquirePhase::Pin
            } else {
                AcquirePhase::Register
            };
            if ok {
                AcquireOutcome::Continue(next)
            } else {
                AcquireOutcome::Warn(next)
            }
        },
        AcquirePhase::Pin => if ok {
            AcquireOutcome::Continue(AcquirePhase::Register)
        } else {
            AcquireOutcome::Warn(AcquirePhase::Register)
        },
        AcquirePhase::Register => AcquireOutcome::Continue(AcquirePhase::Complete),
        AcquirePhase::Complete => AcquireOutcome::Continue(AcquirePhase::Complete),
    }
}

pub fn acquire_next(phase: AcquirePhase, ok: bool, has_pin: bool) -> (r: AcquireOutcome)
    ensures
        r == spec_acquire_next(phase, ok, has_pin),
{
    match phase {
        AcquirePhase::Add => {
            if ok {
                AcquireOutcome::Continue(AcquirePhase::Init)
            } else {
                AcquireOutcome::Fail
            }
        },
        AcquirePhase::Init => {
            let next = if has_pin {
                AcquirePhase::Pin
            } else {
                AcquirePhase::Register
            };
            if ok {
                AcquireOutcome::Continue(next)
            } else {
                AcquireOutcome::Warn(next)
            }
        },
        AcquirePhase::Pin => {
            if ok {
                AcquireOutcome::Continue(AcquirePhase::Register)
            } else {
                AcquireOutcome::Warn(AcquirePhase::Register)
            }
        },
        AcquirePhase::Register => AcquireOutcome::Continue(AcquirePhase::Complete),
        AcquirePhase::Complete => AcquireOutcome::Continue(AcquirePhase::Complete),
    }
}

/// The arguments of the checkout that pins a fetched submodule: with a tag
/// and a branch, check the tag out onto a new branch; with only a tag,
/// detach at the tag; with only a branch, create and switch to it; with
/// neither, no checkout runs at all.
pub open spec fn spec_checkout_args(tag: Option<Seq<char>>, branch: Option<Seq<char>>) -> Option<
    Seq<Seq<char>>,
> {
    match (tag, branch) {
        (Some(t), Some(b)) => Some(seq!["checkout"@, "tags/"@ + t, "-b"@, b]),
        (Some(t), None) => Some(seq!["checkout"@, "tags/"@ + t]),
        (None, Some(b)) => Some(seq!["checkout"@, "-b"@, b]),
        (None, None) => None,
    }
}

pub fn checkout_args(tag: &Option<String>, branch: &Option<String>) -> (r: Option<Vec<String>>)
    ensures
        match r {
            Some(v) => spec_checkout_args(tag.deep_view(), branch.deep_view()) == Some(
                v.deep_view(),
            ),
            None => spec_checkout_args(tag.deep_view(), branch.deep_view()) is None,
        },
{
    match (tag, branch) {
        (Some(t), Some(b)) => {
            let mut tags = String::from_str("tags/");
            tags.append(t.as_str());
            let v = vec![
                String::from_str("checkout"),
                tags,
                String::from_str("-b"),
                b.clone(),
            ];
            proof {
                assert(v.deep_view() =~= seq!["checkout"@, "tags/"@ + t@, "-b"@, b@]);
            }
            Some(v)
        },
        (Some(t), None) => {
            let mut tags = String::from_str("tags/");
            tags.append(t.as_str());
            let v = vec![String::from_str("checkout"), tags];
            proof {
                assert(v.deep_view() =~= seq!["checkout"@, "tags/"@ + t@]);
            }
            Some(v)
        },
        (None, Some(b)) => {
            let v = vec![String::from_str("checkout"), String::from_str("-b"), b.clone()];
            proof {
                assert(v.deep_view() =~= seq!["checkout"@, "-b"@, b@]);
            }
            Some(v)
        },
        (None, None) => None,
    }
}

// ---------------------------------------------------------------------------
// Registering dependencies in a configuration.
// ---------------------------------------------------------------------------

/// Append a located dependency, and its name to the link list when it is a
/// project dependency.
pub fn add_find_dependency(
    config: &mut ConfigFile,
    name: String,
    required: bool,
    as_project_dependency: bool,
)
    ensures
        final(config).deep_view() == (ConfigFileV {
            dependencies: DependenciesV {
                find: old(config).deep_view().dependencies.find.push(
                    FindDependencyV { name: name@, required, custom_link_name: None },
                ),
                local: old(config).deep_view().dependencies.local,
                project_dependencies: if as_project_dependency {
                    old(config).deep_view().dependencies.project_dependencies.push(name@)
                } else {
                    old(config).deep_view().dependencies.project_dependencies
                },
            },
            ..old(config).deep_view()
        }),
{
    let ghost pre = config.deep_view();
    let entry = FindDependency { name: name.clone(), required, custom_link_name: None };
    let ghost prev_find = config.dependencies.find@;
    config.dependencies.find.push(entry);
    proof {
        let dv2 = config.deep_view().dependencies.find;
        let target = pre.dependencies.find.push(
            FindDependencyV { name: name@, required, custom_link_name: None },
        );
        assert(dv2.len() == target.len());
        assert forall|k: int| 0 <= k < dv2.len() implies dv2[k] == target[k] by {
            assert(dv2[k] == config.dependencies.find@[k].deep_view());
            if k < prev_find.len() {
                assert(config.dependencies.find@[k] == prev_find[k]);
                assert(pre.dependencies.find[k] == prev_find[k].deep_view());
            } else {
                assert(config.dependencies.find@[k] == entry);
            }
        }
        assert(dv2 =~= target);
    }
    if as_project_dependency {
        let ghost prev_pd = config.dependencies.project_dependencies@;
        config.dependencies.project_dependencies.push(name);
        proof {
            let dv2 = config.deep_view().dependencies.project_dependencies;
            let target = pre.dependencies.project_dependencies.push(name@);
            assert(dv2.len() == target.len());
            assert forall|k: int| 0 <= k < dv2.len() implies dv2[k] == target[k] by {
                assert(dv2[k] == config.dependencies.project_dependencies@[k].deep_view());
                if k < prev_pd.len() {
                    assert(config.dependencies.project_dependencies@[k] == prev_pd[k]);
                    assert(pre.dependencies.project_dependencies[k] == prev_pd[k].deep_view());
                }
            }
            assert(dv2 =~= target);
        }
    }
    proof {
        assert(config.deep_view() =~~= (ConfigFileV {
            dependencies: DependenciesV {
                find: pre.dependencies.find.push(
                    FindDependencyV { name: name@, required, custom_link_name: None },
                ),
                local: pre.dependencies.local,
                project_dependencies: if as_project_dependency {
                    pre.dependencies.project_dependencies.push(name@)
                } else {
                    pre.dependencies.project_dependencies
                },
            },
            ..pre
        }));
    }
}

/// Append a local dependency, and its name to the link list when it is a
/// project dependency.
pub fn add_local_dependency(
    config: &mut ConfigFile,
    dep: LocalDependency,
    as_project_dependency: bool,
)
    ensures
        final(config).deep_view() == (ConfigFileV {
            dependencies: DependenciesV {
                find: old(config).deep_view().dependencies.find,
                local: old(config).deep_view().dependencies.local.push(dep.deep_view()),
                project_dependencies: if as_project_dependency {
                    old(config).deep_view().dependencies.project_dependencies.push(dep.name@)
                } else {
                    old(config).deep_view().dependencies.project_dependencies
                },
            },
            ..old(config).deep_view()
        }),
{
    let ghost pre = config.deep_view();
    let name = dep.name.clone();
    let ghost dep_v = dep.deep_view();
    let ghost prev_local = config.dependencies.local@;
    config.dependencies.local.push(dep);
    proof {
        let dv2 = config.deep_view().dependencies.local;
        let target = pre.dependencies.local.push(dep_v);
        assert(dv2.len() == target.len());
        assert forall|k: int| 0 <= k < dv2.len() implies dv2[k] == target[k] by {
            assert(dv2[k] == config.dependencies.local@[k].deep_view());
            if k < prev_local.len() {
                assert(config.dependencies.local@[k] == prev_local[k]);
                assert(pre.dependencies.local[k] == prev_local[k].deep_view());
            }
        }
        assert(dv2 =~= target);
    }
    if as_project_dependency {
        let ghost prev_pd = config.dependencies.project_dependencies@;
        config.dependencies.project_dependencies.push(name);
        proof {
            let dv2 = config.deep_view().dependencies.project_dependencies;
            let target = pre.dependencies.project_dependencies.push(dep_v.name);
            assert(dv2.len() == target.len());
            assert forall|k: int| 0 <= k < dv2.len() implies dv2[k] == target[k] by {
                assert(dv2[k] == config.dependencies.project_dependencies@[k].deep_view());
                if k < prev_pd.len() {
                    assert(config.dependencies.project_dependencies@[k] == prev_pd[k]);
                    assert(pre.dependencies.project_dependencies[k] == prev_pd[k].deep_view());
                }
            }
            assert(dv2 =~= target);
        }
    }
    proof {
        assert(config.deep_view() =~~= (ConfigFileV {
            dependencies: DependenciesV {
                find: pre.dependencies.find,
                local: pre.dependencies.local.push(dep_v),
                project_dependencies: if as_project_dependency {
                    pre.dependencies.project_dependencies.push(dep_v.name)
                } else {
                    pre.dependencies.project_dependencies
                },
            },
            ..pre
        }));
    }
}

/// Replay a cached entry: register its stored local dependency exactly as
/// the original acquisition did.
pub fn add_cached_dependency(
    config: &mut ConfigFile,
    submodule: GitSubmodule,
    as_project_dependency: bool,
)
    ensures
        final(config).deep_view() == (ConfigFileV {
            dependencies: DependenciesV {
                find: old(config).deep_view().dependencies.find,
                local: old(config).deep_view().dependencies.local.push(
                    submodule.local_setup.deep_view(),
                ),
                project_dependencies: if as_project_dependency {
                    old(config).deep_view().dependencies.project_dependencies.push(
                        submodule.local_setup.name@,
                    )
                } else {
                    old(config).deep_view().dependencies.project_dependencies
                },
            },
            ..old(config).deep_view()
        }),
{
    let GitSubmodule { local_setup, .. } = submodule;
    add_local_dependency(config, local_setup, as_project_dependency);
}

// ---------------------------------------------------------------------------
// Command arguments and prompt-input splitting.
// ---------------------------------------------------------------------------

/// Whether to rebuild before running: no argument rebuilds, `skip_build`
/// does not, anything else is rejected.
pub fn run_mode(arg: &Option<String>) -> (r: Result<bool, ProjectError>)
    ensures
        match arg {
            None => r == Ok::<bool, ProjectError>(true),
            Some(a) => if a@ == "skip_build"@ {
                r == Ok::<bool, ProjectError>(false)
            } else {
                r == Err::<bool, ProjectError>(ProjectError::UnknownArgument(*a))
            },
        },
{
    match arg {
        None => Ok(true),
        Some(a) => {
            if crate::text::str_eq(a.as_str(), "skip_build") {
                Ok(false)
            } else {
                Err(ProjectError::UnknownArgument(a.clone()))
            }
        },
    }
}

/// Whether to remove the generated build script too: no argument cleans
/// the build directory only, `all` cleans both, anything else is rejected.
pub fn clean_mode(arg: &Option<String>) -> (r: Result<bool, ProjectError>)
    ensures
        match arg {
            None => r == Ok::<bool, ProjectError>(false),
            Some(a) => if a@ == "all"@ {
                r == Ok::<bool, ProjectError>(true)
            } else {
                r == Err::<bool, ProjectError>(ProjectError::UnknownArgument(*a))
            },
        },
{
    match arg {
        None => Ok(false),
        Some(a) => {
            if crate::text::str_eq(a.as_str(), "all") {
                Ok(true)
            } else {
                Err(ProjectError::UnknownArgument(a.clone()))
            }
        },
    }
}

/// The number of whitespace-separated tokens, counted from position `i`.
pub open spec fn count_tokens_from(s: Seq<char>, i: int, in_token: bool) -> nat
    decreases s.len() - i,
{
    if i < 0 || i >= s.len() {
        0
    } else if is_space(s[i]) {
        count_tokens_from(s, i + 1, false)
    } else if in_token {
        count_tokens_from(s, i + 1, true)
    } else {
        1 + count_tokens_from(s, i + 1, true)
    }
}

pub open spec fn count_tokens(s: Seq<char>) -> nat {
    count_tokens_from(s, 0, false)
}

/// A variable line offered at the prompt is acceptable when it is empty or
/// names a variable and at least one value.
pub fn dep_flag_validation(input: &str) -> (r: bool)
    ensures
        r == (input@.len() == 0 || count_tokens(input@) > 1),
{
    let len = input.unicode_len();
    if len == 0 {
        return true;
    }
    let mut count: u64 = 0;
    let mut in_token = false;
    let mut i: usize = 0;
    while i < len
        invariant
            i <= len,
            len == input@.len(),
            count <= i,
            count + count_tokens_from(input@, i as int, in_token) == count_tokens(input@),
        decreases len - i,
    {
        let c = input.get_char(i);
        if char_is_space(c) {
            in_token = false;
        } else {
            if !in_token {
                count = count + 1;
            }
            in_token = true;
        }
        i = i + 1;
    }
    count > 1
}

/// The first whitespace-separated token.
pub open spec fn first_token(s: Seq<char>) -> Seq<char>
    decreases s.len(),
{
    if s.len() == 0 {
        Seq::empty()
    } else if is_space(s[0]) {
        first_token(s.drop_first())
    } else {
        leading_nonspace(s)
    }
}

pub open spec fn leading_nonspace(s: Seq<char>) -> Seq<char>
    decreases s.len(),
{
    if s.len() == 0 || is_space(s[0]) {
        Seq::empty()
    } else {
        seq![s[0]] + leading_nonspace(s.drop_first())
    }
}

proof fn lemma_first_token(s: Seq<char>, a: int, b: int)
    requires
        0 <= a <= b <= s.len(),
        forall|i: int| 0 <= i < a ==> is_space(s[i]),
        forall|i: int| a <= i < b ==> !is_space(s[i]),
        a < b,
        b == s.len() || is_space(s[b]),
    ensures
        first_token(s) == s.subrange(a, b),
    decreases a,
{
    if a == 0 {
        lemma_leading_nonspace(s, b);
    } else {
        lemma_first_token(s.drop_first(), a - 1, b - 1);
        assert(s.drop_first().subrange(a - 1, b - 1) =~= s.subrange(a, b));
    }
}

proof fn lemma_leading_nonspace(s: Seq<char>, b: int)
    requires
        0 <= b <= s.len(),
        forall|i: int| 0 <= i < b ==> !is_space(s[i]),
        b == s.len() || is_space(s[b]),
    ensures
        leading_nonspace(s) == s.take(b),
    decreases b,
{
    if b == 0 {
        assert(s.take(0) =~= Seq::<char>::empty());
    } else {
        lemma_leading_nonspace(s.drop_first(), b - 1);
        assert(seq![s[0]] + s.drop_first().take(b - 1) =~= s.take(b));
    }
}

/// All characters from `i` on are whitespace, so no token starts there.
proof fn lemma_no_tokens(s: Seq<char>, i: int)
    requires
        0 <= i <= s.len(),
        forall|j: int| i <= j < s.len() ==> is_space(s[j]),
    ensures
        count_tokens_from(s, i, false) == 0,
    decreases s.len() - i,
{
    if i < s.len() {
        lemma_no_tokens(s, i + 1);
    }
}

/// Split a variable line into its name, the first token, and its value,
/// the rest of the line after as many characters as the name has.
pub fn split_flag(input: &str) -> (r: (String, String))
    requires
        count_tokens(input@) >= 1,
    ensures
        r.0@ == first_token(input@),
        r.1@ == input@.skip(first_token(input@).len() as int),
{
    let len = input.unicode_len();
    let mut a: usize = 0;
    while a < len && char_is_space(input.get_char(a))
        invariant
            a <= len,
            len == input@.len(),
            forall|i: int| 0 <= i < a ==> is_space(input@[i]),
        decreases len - a,
    {
        a = a + 1;
    }
    if a == len {
        proof {
            lemma_no_tokens(input@, 0);
            assert(false);
        }
        return (String::new(), String::new());
    }
    let mut b = a;
    while b < len && !char_is_space(input.get_char(b))
        invariant
            a <= b <= len,
            len == input@.len(),
            forall|i: int| a <= i < b ==> !is_space(input@[i]),
        decreases len - b,
    {
        b = b + 1;
    }
    proof {
        lemma_first_token(input@, a as int, b as int);
    }
    let name = String::from_str(input.substring_char(a, b));
    let token_len = b - a;
    let value = String::from_str(input.substring_char(token_len, len));
    proof {
        assert(name@ =~= first_token(input@));
        assert(value@ =~= input@.skip(first_token(input@).len() as int));
    }
    (name, value)
}

/// An optional answer at a prompt: an empty line stands for no answer.
pub fn nonempty_opt(s: String) -> (r: Option<String>)
    ensures
        r == (if s@.len() == 0 {
            Option::<String>::None
        } else {
            Option::<String>::Some(s)
        }),
{
    if s.as_str().unicode_len() == 0 {
        None
    } else {
        Some(s)
    }
}

/// A dependency path offered at the prompt may be anything but the project
/// directory itself.
pub fn not_own_folder_validator(input: &str) -> (r: bool)
    ensures
        r == (input@ != "./"@),
{
    !crate::text::str_eq(input, "./")
}

} // verus!
