use vstd::prelude::*;
use vstd::string::StrSliceExecFns;
use vstd::string::StringExecFns;

use crate::codec::{
    entries_items, files_val, finds_items, lemma_entries_inverse, lemma_entries_val_wf,
    lemma_files_inverse, lemma_files_val_wf, lemma_finds_inverse, lemma_finds_val_wf,
    lemma_locals_inverse, lemma_locals_val_wf, lemma_strings_inverse, lemma_strings_val_wf,
    locals_items, strings_val, val_entries, val_files, val_finds, val_locals, val_strings,
};
use crate::config::{
    spec_default_minimum_required, spec_default_version, spec_files_all, CMake, CMakeV, Cache,
    CacheV, ConfigFile, ConfigFileV, Dependencies, DependenciesV, Project, ProjectV,
};
use crate::doc::{
    char_at, lemma_match_at_concat, match_at, match_at_exec, parse_val, parse_val_exec,
    render_val, render_val_exec, val_wf, Val, ValV,
};
use crate::version::Decimal;

verus! {

// ---------------------------------------------------------------------------
// The persisted documents: one `key = value` line for each field of the
// configuration, in a fixed order, and one line for the dependency cache.
// A document missing a field keeps that field's default.
// ---------------------------------------------------------------------------

pub open spec fn render_line(prefix: Seq<char>, v: ValV) -> Seq<char> {
    prefix + render_val(v) + seq!['\n']
}

/// The outcome of looking for one `key = value` line: the key is absent, or
/// the line is malformed, or the value stands there and the text continues
/// at the returned position.
pub enum FieldParse {
    Absent,
    Bad,
    Found(ValV, int),
}

pub open spec fn parse_field(s: Seq<char>, i: int, prefix: Seq<char>) -> FieldParse {
    if !match_at(s, i, prefix) {
        FieldParse::Absent
    } else {
        match parse_val(s, i + prefix.len()) {
            Some((v, j)) => if char_at(s, j, '\n') {
                FieldParse::Found(v, j + 1)
            } else {
                FieldParse::Bad
            },
            None => FieldParse::Bad,
        }
    }
}

/// A rendered line parses back to its value.
pub proof fn lemma_parse_render_line(prefix: Seq<char>, v: ValV, s: Seq<char>, i: int)
    requires
        val_wf(v),
        match_at(s, i, render_line(prefix, v)),
    ensures
        parse_field(s, i, prefix) == FieldParse::Found(v, i + render_line(prefix, v).len()),
{
    let rv = render_val(v);
    assert(render_line(prefix, v) =~= prefix + (rv + seq!['\n']));
    lemma_match_at_concat(s, i, prefix, rv + seq!['\n']);
    let j = i + prefix.len();
    lemma_match_at_concat(s, j, rv, seq!['\n']);
    assert(s.subrange(j + rv.len(), j + rv.len() + 1)[0] == s[j + rv.len()]);
    assert(s[j + rv.len()] == '\n');
    crate::doc::lemma_parse_render_val(v, s, j);
    assert(char_at(s, j + rv.len(), '\n'));
}

// ----- the typed field readers, each substituting its default when the -----
// ----- key is absent                                                   -----

pub open spec fn take_string_field(s: Seq<char>, i: int, prefix: Seq<char>, dflt: Seq<char>) -> Option<
    (Seq<char>, int),
> {
    match parse_field(s, i, prefix) {
        FieldParse::Absent => Some((dflt, i)),
        FieldParse::Bad => None,
        FieldParse::Found(v, j) => match v {
            ValV::S(x) => Some((x, j)),
            _ => None,
        },
    }
}

pub open spec fn take_decimal_field(s: Seq<char>, i: int, prefix: Seq<char>, dflt: Decimal) -> Option<
    (Decimal, int),
> {
    match parse_field(s, i, prefix) {
        FieldParse::Absent => Some((dflt, i)),
        FieldParse::Bad => None,
        FieldParse::Found(v, j) => match v {
            ValV::D(d) => Some((d, j)),
            _ => None,
        },
    }
}

pub open spec fn take_val_field(s: Seq<char>, i: int, prefix: Seq<char>) -> Option<
    (Option<ValV>, int),
> {
    match parse_field(s, i, prefix) {
        FieldParse::Absent => Some((None, i)),
        FieldParse::Bad => None,
        FieldParse::Found(v, j) => Some((Some(v), j)),
    }
}

// ----- the configuration document -----

pub open spec fn config_wf(c: ConfigFileV) -> bool {
    c.project.version.well_formed() && c.cmake.minimum_required.well_formed()
}

pub open spec fn cfg_line1(c: ConfigFileV) -> Seq<char> {
    render_line("project.name = "@, ValV::S(c.project.name))
}

pub open spec fn cfg_line2(c: ConfigFileV) -> Seq<char> {
    render_line("project.version = "@, ValV::D(c.project.version))
}

pub open spec fn cfg_line3(c: ConfigFileV) -> Seq<char> {
    render_line("cmake.minimum_required = "@, ValV::D(c.cmake.minimum_required))
}

pub open spec fn cfg_line4(c: ConfigFileV) -> Seq<char> {
    render_line("cmake.files = "@, files_val(c.cmake.files))
}

pub open spec fn cfg_line5(c: ConfigFileV) -> Seq<char> {
    render_line("dependencies.find = "@, ValV::L(finds_items(c.dependencies.find)))
}

pub open spec fn cfg_line6(c: ConfigFileV) -> Seq<char> {
    render_line("dependencies.local = "@, ValV::L(locals_items(c.dependencies.local)))
}

pub open spec fn cfg_line7(c: ConfigFileV) -> Seq<char> {
    render_line(
        "dependencies.project_dependencies = "@,
        strings_val(c.dependencies.project_dependencies),
    )
}

pub open spec fn config_doc(c: ConfigFileV) -> Seq<char> {
    cfg_line1(c) + (cfg_line2(c) + (cfg_line3(c) + (cfg_line4(c) + (cfg_line5(c) + (cfg_line6(c)
        + cfg_line7(c))))))
}

pub open spec fn parse_config_doc(s: Seq<char>) -> Option<ConfigFileV> {
    match take_string_field(s, 0, "project.name = "@, "Unnamed Project"@) {
        None => None,
        Some((name, i1)) => match take_decimal_field(
            s,
            i1,
            "project.version = "@,
            spec_default_version(),
        ) {
            None => None,
            Some((version, i2)) => match take_decimal_field(
                s,
                i2,
                "cmake.minimum_required = "@,
                spec_default_minimum_required(),
            ) {
                None => None,
                Some((minreq, i3)) => match take_val_field(s, i3, "cmake.files = "@) {
                    None => None,
                    Some((fv, i4)) => match (match fv {
                        None => Some(spec_files_all()),
                        Some(v) => val_files(v),
                    }) {
                        None => None,
                        Some(files) => match take_val_field(s, i4, "dependencies.find = "@) {
                            None => None,
                            Some((dv, i5)) => match (match dv {
                                None => Some(Seq::empty()),
                                Some(v) => val_finds(v),
                            }) {
                                None => None,
                                Some(finds) => match take_val_field(
                                    s,
                                    i5,
                                    "dependencies.local = "@,
                                ) {
                                    None => None,
                                    Some((lv, i6)) => match (match lv {
                                        None => Some(Seq::empty()),
                                        Some(v) => val_locals(v),
                                    }) {
                                        None => None,
                                        Some(locals) => match take_val_field(
                                            s,
                                            i6,
                                            "dependencies.project_dependencies = "@,
                                        ) {
                                            None => None,
                                            Some((pv, i7)) => match (match pv {
                                                None => Some(Seq::empty()),
                                                Some(v) => val_strings(v),
                                            }) {
                                                None => None,
                                                Some(projdeps) => if i7 == s.len() {
                                                    Some(
                                                        ConfigFileV {
                                                            project: ProjectV { name, version },
                                                            cmake: CMakeV {
                                                                minimum_required: minreq,
                                                                files,
                                                            },
                                                            dependencies: DependenciesV {
                                                                find: finds,
                                                                local: locals,
                                                                project_dependencies: projdeps,
                                                            },
                                                        },
                                                    )
                                                } else {
                                                    None
                                                },
                                            },
                                        },
                                    },
                                },
                            },
                        },
                    },
                },
            },
        },
    }
}

/// Each line of a rendered configuration document parses as its field.
#[verifier::rlimit(100)]
proof fn lemma_config_doc_fields(c: ConfigFileV)
    requires
        config_wf(c),
    ensures
        ({
            let s = config_doc(c);
            let p1 = cfg_line1(c).len() as int;
            let p2 = p1 + cfg_line2(c).len();
            let p3 = p2 + cfg_line3(c).len();
            let p4 = p3 + cfg_line4(c).len();
            let p5 = p4 + cfg_line5(c).len();
            let p6 = p5 + cfg_line6(c).len();
            let p7 = p6 + cfg_line7(c).len();
            &&& parse_field(s, 0, "project.name = "@) == FieldParse::Found(
                ValV::S(c.project.name),
                p1,
            )
            &&& parse_field(s, p1, "project.version = "@) == FieldParse::Found(
                ValV::D(c.project.version),
                p2,
            )
            &&& parse_field(s, p2, "cmake.minimum_required = "@) == FieldParse::Found(
                ValV::D(c.cmake.minimum_required),
                p3,
            )
            &&& parse_field(s, p3, "cmake.files = "@) == FieldParse::Found(
                files_val(c.cmake.files),
                p4,
            )
            &&& parse_field(s, p4, "dependencies.find = "@) == FieldParse::Found(
                ValV::L(finds_items(c.dependencies.find)),
                p5,
            )
            &&& parse_field(s, p5, "dependencies.local = "@) == FieldParse::Found(
                ValV::L(locals_items(c.dependencies.local)),
                p6,
            )
            &&& parse_field(s, p6, "dependencies.project_dependencies = "@) == FieldParse::Found(
                strings_val(c.dependencies.project_dependencies),
                p7,
            )
            &&& p7 == s.len()
        }),
{
    let s = config_doc(c);
    let l1 = cfg_line1(c);
    let l2 = cfg_line2(c);
    let l3 = cfg_line3(c);
    let l4 = cfg_line4(c);
    let l5 = cfg_line5(c);
    let l6 = cfg_line6(c);
    let l7 = cfg_line7(c);
    assert(match_at(s, 0, s)) by {
        assert(s.subrange(0, s.len() as int) =~= s);
    }
    lemma_match_at_concat(s, 0, l1, l2 + (l3 + (l4 + (l5 + (l6 + l7)))));
    let p1 = l1.len() as int;
    lemma_match_at_concat(s, p1, l2, l3 + (l4 + (l5 + (l6 + l7))));
    let p2 = p1 + l2.len();
    lemma_match_at_concat(s, p2, l3, l4 + (l5 + (l6 + l7)));
    let p3 = p2 + l3.len();
    lemma_match_at_concat(s, p3, l4, l5 + (l6 + l7));
    let p4 = p3 + l4.len();
    lemma_match_at_concat(s, p4, l5, l6 + l7);
    let p5 = p4 + l5.len();
    lemma_match_at_concat(s, p5, l6, l7);
    let p6 = p5 + l6.len();
    lemma_files_val_wf(c.cmake.files);
    lemma_finds_val_wf(c.dependencies.find);
    lemma_locals_val_wf(c.dependencies.local);
    lemma_strings_val_wf(c.dependencies.project_dependencies);
    lemma_parse_render_line("project.name = "@, ValV::S(c.project.name), s, 0);
    lemma_parse_render_line("project.version = "@, ValV::D(c.project.version), s, p1);
    lemma_parse_render_line("cmake.minimum_required = "@, ValV::D(c.cmake.minimum_required), s, p2);
    lemma_parse_render_line("cmake.files = "@, files_val(c.cmake.files), s, p3);
    lemma_parse_render_line(
        "dependencies.find = "@,
        ValV::L(finds_items(c.dependencies.find)),
        s,
        p4,
    );
    lemma_parse_render_line(
        "dependencies.local = "@,
        ValV::L(locals_items(c.dependencies.local)),
        s,
        p5,
    );
    lemma_parse_render_line(
        "dependencies.project_dependencies = "@,
        strings_val(c.dependencies.project_dependencies),
        s,
        p6,
    );
}

/// Parsing a serialized configuration gives back exactly the configuration.
#[verifier::rlimit(100)]
pub proof fn lemma_config_round_trip(c: ConfigFileV)
    requires
        config_wf(c),
    ensures
        parse_config_doc(config_doc(c)) == Some(c),
{
    let s = config_doc(c);
    lemma_config_doc_fields(c);
    let p1 = cfg_line1(c).len() as int;
    let p2 = p1 + cfg_line2(c).len();
    let p3 = p2 + cfg_line3(c).len();
    let p4 = p3 + cfg_line4(c).len();
    let p5 = p4 + cfg_line5(c).len();
    let p6 = p5 + cfg_line6(c).len();
    let p7 = p6 + cfg_line7(c).len();
    lemma_files_inverse(c.cmake.files);
    lemma_finds_inverse(c.dependencies.find);
    lemma_locals_inverse(c.dependencies.local);
    lemma_strings_inverse(c.dependencies.project_dependencies);
    assert(take_string_field(s, 0, "project.name = "@, "Unnamed Project"@) == Some(
        (c.project.name, p1),
    ));
    assert(take_decimal_field(s, p1, "project.version = "@, spec_default_version()) == Some(
        (c.project.version, p2),
    ));
    assert(take_decimal_field(s, p2, "cmake.minimum_required = "@, spec_default_minimum_required())
        == Some((c.cmake.minimum_required, p3)));
    assert(take_val_field(s, p3, "cmake.files = "@) == Some((Some(files_val(c.cmake.files)), p4)));
    assert(take_val_field(s, p4, "dependencies.find = "@) == Some(
        (Some(ValV::L(finds_items(c.dependencies.find))), p5),
    ));
    assert(take_val_field(s, p5, "dependencies.local = "@) == Some(
        (Some(ValV::L(locals_items(c.dependencies.local))), p6),
    ));
    assert(take_val_field(s, p6, "dependencies.project_dependencies = "@) == Some(
        (Some(strings_val(c.dependencies.project_dependencies)), p7),
    ));
    let parsed = ConfigFileV {
        project: ProjectV { name: c.project.name, version: c.project.version },
        cmake: CMakeV { minimum_required: c.cmake.minimum_required, files: c.cmake.files },
        dependencies: DependenciesV {
            find: c.dependencies.find,
            local: c.dependencies.local,
            project_dependencies: c.dependencies.project_dependencies,
        },
    };
    assert(parse_config_doc(s) == Some(parsed));
    assert(parsed =~~= c);
}

/// Serialization is injective: two well-formed configurations with the
/// same document text are the same configuration.  Together with the hash
/// being computed over the document text, this is what makes the staleness
/// hash sensitive to every field and to the order of every list.
pub proof fn lemma_config_doc_injective(c1: ConfigFileV, c2: ConfigFileV)
    requires
        config_wf(c1),
        config_wf(c2),
        config_doc(c1) == config_doc(c2),
    ensures
        c1 == c2,
{
    lemma_config_round_trip(c1);
    lemma_config_round_trip(c2);
}

// ----- the cache document -----

pub open spec fn cache_doc(c: CacheV) -> Seq<char> {
    render_line("git_submodules = "@, ValV::L(entries_items(c.git_submodules)))
}

pub open spec fn parse_cache_doc(s: Seq<char>) -> Option<CacheV> {
    match take_val_field(s, 0, "git_submodules = "@) {
        None => None,
        Some((ev, i)) => match (match ev {
            None => Some(Seq::empty()),
            Some(v) => val_entries(v),
        }) {
            None => None,
            Some(es) => if i == s.len() {
                Some(CacheV { git_submodules: es })
            } else {
                None
            },
        },
    }
}

/// Parsing a serialized cache gives back exactly the cache.
pub proof fn lemma_cache_round_trip(c: CacheV)
    ensures
        parse_cache_doc(cache_doc(c)) == Some(c),
{
    let s = cache_doc(c);
    let v = ValV::L(entries_items(c.git_submodules));
    assert(match_at(s, 0, s)) by {
        assert(s.subrange(0, s.len() as int) =~= s);
    }
    lemma_entries_val_wf(c.git_submodules);
    lemma_parse_render_line("git_submodules = "@, v, s, 0);
    lemma_entries_inverse(c.git_submodules);
    assert(parse_cache_doc(s) == Some(CacheV { git_submodules: c.git_submodules }));
    assert(CacheV { git_submodules: c.git_submodules } =~~= c);
}



// ---------------------------------------------------------------------------
// Serializing and parsing, executable.
// ---------------------------------------------------------------------------

/// Whether a configuration's version fields are well formed, decided at
/// run time.  Configurations built or parsed by this crate always are.
pub fn config_versions_ok(c: &ConfigFile) -> (r: bool)
    ensures
        r == config_wf(c.deep_view()),
{
    c.project.version.check_well_formed() && c.cmake.minimum_required.check_well_formed()
}

/// Append one `key = value` line.
fn append_line(out: &mut String, prefix: &str, v: &Val)
    requires
        val_wf(v.deep_view()),
    ensures
        final(out)@ == old(out)@ + render_line(prefix@, v.deep_view()),
{
    out.append(prefix);
    let piece = render_val_exec(v);
    out.append(piece.as_str());
    out.append("\n");
    proof {
        reveal_strlit("\n");
        assert(out@ =~= old(out)@ + render_line(prefix@, v.deep_view()));
    }
}

/// Render a configuration as its persisted document.
pub fn serialize_config(c: &ConfigFile) -> (r: String)
    requires
        config_wf(c.deep_view()),
    ensures
        r@ == config_doc(c.deep_view()),
{
    let ghost cv = c.deep_view();
    let mut out = String::new();
    let name = Val::S(c.project.name.clone());
    let version = Val::D(c.project.version);
    let minreq = Val::D(c.cmake.minimum_required);
    let files = crate::codec::files_to_val(&c.cmake.files);
    let finds = crate::codec::finds_to_val(&c.dependencies.find);
    let locals = crate::codec::locals_to_val(&c.dependencies.local);
    let projdeps = crate::codec::strings_to_val(&c.dependencies.project_dependencies);
    proof {
        lemma_files_val_wf(cv.cmake.files);
        lemma_finds_val_wf(cv.dependencies.find);
        lemma_locals_val_wf(cv.dependencies.local);
        lemma_strings_val_wf(cv.dependencies.project_dependencies);
    }
    append_line(&mut out, "project.name = ", &name);
    append_line(&mut out, "project.version = ", &version);
    append_line(&mut out, "cmake.minimum_required = ", &minreq);
    append_line(&mut out, "cmake.files = ", &files);
    append_line(&mut out, "dependencies.find = ", &finds);
    append_line(&mut out, "dependencies.local = ", &locals);
    append_line(&mut out, "dependencies.project_dependencies = ", &projdeps);
    proof {
        assert(out@ =~= config_doc(cv));
    }
    out
}

/// The outcome of looking for one line, with the value as data.
pub enum Field {
    Absent,
    Bad,
    Found(Val, usize),
}

/// Look for one `key = value` line at position `i`.
fn parse_field_exec(s: &str, i: usize, prefix: &str) -> (r: Field)
    requires
        i <= s@.len(),
    ensures
        match r {
            Field::Absent => parse_field(s@, i as int, prefix@) is Absent,
            Field::Bad => parse_field(s@, i as int, prefix@) is Bad,
            Field::Found(v, j) => parse_field(s@, i as int, prefix@) == FieldParse::Found(
                v.deep_view(),
                j as int,
            ) && i < j <= s@.len(),
        },
{
    if !match_at_exec(s, i, prefix) {
        return Field::Absent;
    }
    let len = s.unicode_len();
    let p_len = prefix.unicode_len();
    match parse_val_exec(s, i + p_len) {
        None => Field::Bad,
        Some((v, j)) => {
            if j < len && s.get_char(j) == '\n' {
                Field::Found(v, j + 1)
            } else {
                Field::Bad
            }
        },
    }
}

fn take_string_exec(s: &str, i: usize, prefix: &str, dflt: String) -> (r: Option<(String, usize)>)
    requires
        i <= s@.len(),
    ensures
        match r {
            Some((x, j)) => take_string_field(s@, i as int, prefix@, dflt@) == Some(
                (x@, j as int),
            ) && i <= j <= s@.len(),
            None => take_string_field(s@, i as int, prefix@, dflt@) is None,
        },
{
    match parse_field_exec(s, i, prefix) {
        Field::Absent => Some((dflt, i)),
        Field::Bad => None,
        Field::Found(v, j) => match v {
            Val::S(x) => Some((x, j)),
            _ => None,
        },
    }
}

fn take_decimal_exec(s: &str, i: usize, prefix: &str, dflt: Decimal) -> (r: Option<
    (Decimal, usize),
>)
    requires
        i <= s@.len(),
    ensures
        match r {
            Some((d, j)) => take_decimal_field(s@, i as int, prefix@, dflt) == Some(
                (d, j as int),
            ) && i <= j <= s@.len(),
            None => take_decimal_field(s@, i as int, prefix@, dflt) is None,
        },
{
    match parse_field_exec(s, i, prefix) {
        Field::Absent => Some((dflt, i)),
        Field::Bad => None,
        Field::Found(v, j) => match v {
            Val::D(d) => Some((d, j)),
            _ => None,
        },
    }
}

fn take_val_exec(s: &str, i: usize, prefix: &str) -> (r: Option<(Option<Val>, usize)>)
    requires
        i <= s@.len(),
    ensures
        match r {
            Some((ov, j)) => take_val_field(s@, i as int, prefix@) == Some(
                (ov.deep_view(), j as int),
            ) && i <= j <= s@.len(),
            None => take_val_field(s@, i as int, prefix@) is None,
        },
{
    match parse_field_exec(s, i, prefix) {
        Field::Absent => Some((None, i)),
        Field::Bad => None,
        Field::Found(v, j) => Some((Some(v), j)),
    }
}

/// Read a configuration back from its persisted document; a document
/// missing a field yields that field's default, a malformed document
/// yields nothing.
pub fn parse_config(s: &str) -> (r: Option<ConfigFile>)
    ensures
        match r {
            Some(c) => parse_config_doc(s@) == Some(c.deep_view()),
            None => parse_config_doc(s@) is None,
        },
{
    let len = s.unicode_len();
    let (name, i1) = match take_string_exec(s, 0, "project.name = ", String::from_str(
        "Unnamed Project",
    )) {
        Some(x) => x,
        None => {
            return None;
        },
    };
    let (version, i2) = match take_decimal_exec(
        s,
        i1,
        "project.version = ",
        Decimal { mantissa: 1, scale: 0 },
    ) {
        Some(x) => x,
        None => {
            return None;
        },
    };
    let (minreq, i3) = match take_decimal_exec(
        s,
        i2,
        "cmake.minimum_required = ",
        Decimal { mantissa: 315, scale: 2 },
    ) {
        Some(x) => x,
        None => {
            return None;
        },
    };
    let (fv, i4) = match take_val_exec(s, i3, "cmake.files = ") {
        Some(x) => x,
        None => {
            return None;
        },
    };
    let files = match fv {
        None => crate::config::ProjectFiles::all(),
        Some(v) => match crate::codec::val_to_files(v) {
            Some(f) => f,
            None => {
                return None;
            },
        },
    };
    let (dv, i5) = match take_val_exec(s, i4, "dependencies.find = ") {
        Some(x) => x,
        None => {
            return None;
        },
    };
    let finds = match dv {
        None => {
            let empty: Vec<crate::config::FindDependency> = Vec::new();
            proof {
                assert(empty.deep_view() =~= Seq::<crate::config::FindDependencyV>::empty());
            }
            empty
        },
        Some(v) => match crate::codec::val_to_finds(v) {
            Some(f) => f,
            None => {
                return None;
            },
        },
    };
    let (lv, i6) = match take_val_exec(s, i5, "dependencies.local = ") {
        Some(x) => x,
        None => {
            return None;
        },
    };
    let locals = match lv {
        None => {
            let empty: Vec<crate::config::LocalDependency> = Vec::new();
            proof {
                assert(empty.deep_view() =~= Seq::<crate::config::LocalDependencyV>::empty());
            }
            empty
        },
        Some(v) => match crate::codec::val_to_locals(v) {
            Some(l) => l,
            None => {
                return None;
            },
        },
    };
    let (pv, i7) = match take_val_exec(s, i6, "dependencies.project_dependencies = ") {
        Some(x) => x,
        None => {
            return None;
        },
    };
    let projdeps = match pv {
        None => {
            let empty: Vec<String> = Vec::new();
            proof {
                assert(empty.deep_view() =~= Seq::<Seq<char>>::empty());
            }
            empty
        },
        Some(v) => match crate::codec::val_to_strings(v) {
            Some(x) => x,
            None => {
                return None;
            },
        },
    };
    if i7 != len {
        return None;
    }
    let c = ConfigFile {
        project: Project { name, version },
        cmake: CMake { minimum_required: minreq, files },
        dependencies: Dependencies {
            find: finds,
            local: locals,
            project_dependencies: projdeps,
        },
    };
    proof {
        assert(parse_config_doc(s@) == Some(c.deep_view()));
    }
    Some(c)
}

/// Render the dependency cache as its persisted document.
pub fn serialize_cache(c: &Cache) -> (r: String)
    ensures
        r@ == cache_doc(c.deep_view()),
{
    let mut out = String::new();
    let entries = crate::codec::entries_to_val(&c.git_submodules);
    proof {
        lemma_entries_val_wf(c.deep_view().git_submodules);
    }
    append_line(&mut out, "git_submodules = ", &entries);
    proof {
        assert(out@ =~= cache_doc(c.deep_view()));
    }
    out
}

/// Read the dependency cache back from its persisted document.
pub fn parse_cache(s: &str) -> (r: Option<Cache>)
    ensures
        match r {
            Some(c) => parse_cache_doc(s@) == Some(c.deep_view()),
            None => parse_cache_doc(s@) is None,
        },
{
    let len = s.unicode_len();
    let (ev, i) = match take_val_exec(s, 0, "git_submodules = ") {
        Some(x) => x,
        None => {
            return None;
        },
    };
    let entries = match ev {
        None => {
            let empty: Vec<crate::config::CacheSubmodule> = Vec::new();
            proof {
                assert(empty.deep_view() =~= Seq::<crate::config::CacheSubmoduleV>::empty());
            }
            empty
        },
        Some(v) => match crate::codec::val_to_entries(v) {
            Some(es) => es,
            None => {
                return None;
            },
        },
    };
    if i != len {
        return None;
    }
    let c = Cache { git_submodules: entries };
    proof {
        assert(parse_cache_doc(s@) == Some(c.deep_view()));
    }
    Some(c)
}

} // verus!
