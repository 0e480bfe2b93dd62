use vstd::prelude::*;
use vstd::string::StrSliceExecFns;
use vstd::string::StringExecFns;

use crate::config::{ConfigFile, ConfigFileV, IncludeType, ProjectFiles, ProjectFilesV, SourceType};
use crate::document::{config_doc, config_wf, serialize_config};
use crate::text::{dec_digits, str_eq, u64_to_string};
use crate::version::{pow10, Decimal};

verus! {

// ---------------------------------------------------------------------------
// The staleness hash: a Fowler-Noll-Vo hash of the configuration's
// serialized document, so that any change to any field, and any change of
// order within a list, changes the hashed text.
// ---------------------------------------------------------------------------

pub open spec fn fnv_step(h: u64, c: char) -> u64 {
    vstd::wrapping::u64_specs::wrapping_mul(h ^ (c as u64), 0x100000001b3u64)
}

pub open spec fn fnv64(s: Seq<char>) -> u64
    decreases s.len(),
{
    if s.len() == 0 {
        0xcbf29ce484222325u64
    } else {
        fnv_step(fnv64(s.drop_last()), s.last())
    }
}

pub open spec fn config_hash_spec(c: ConfigFileV) -> u64 {
    fnv64(config_doc(c))
}

fn fnv64_str(s: &str) -> (r: u64)
    ensures
        r == fnv64(s@),
{
    let len = s.unicode_len();
    let mut h: u64 = 0xcbf29ce484222325;
    let mut i: usize = 0;
    while i < len
        invariant
            i <= len,
            len == s@.len(),
            h == fnv64(s@.take(i as int)),
        decreases len - i,
    {
        let c = s.get_char(i);
        h = (h ^ (c as u64)).wrapping_mul(0x100000001b3);
        proof {
            assert(s@.take(i as int + 1).drop_last() =~= s@.take(i as int));
            assert(s@.take(i as int + 1).last() == s@[i as int]);
        }
        i = i + 1;
    }
    proof {
        assert(s@.take(len as int) =~= s@);
    }
    h
}

/// The content hash of a configuration.
pub fn config_hash(c: &ConfigFile) -> (r: u64)
    requires
        config_wf(c.deep_view()),
    ensures
        r == config_hash_spec(c.deep_view()),
{
    let doc = serialize_config(c);
    fnv64_str(doc.as_str())
}

/// The first line of a generated build script: a comment with the hash.
#[verifier::opaque]
pub open spec fn hash_line_spec(c: ConfigFileV) -> Seq<char> {
    "# "@ + dec_digits(config_hash_spec(c) as nat) + "\n"@
}

pub fn hash_line(c: &ConfigFile) -> (r: String)
    requires
        config_wf(c.deep_view()),
    ensures
        r@ == hash_line_spec(c.deep_view()),
{
    let mut out = String::from_str("# ");
    let h = config_hash(c);
    let digits = u64_to_string(h);
    out.append(digits.as_str());
    out.append("\n");
    proof {
        reveal(hash_line_spec);
        assert(out@ =~= hash_line_spec(c.deep_view()));
    }
    out
}

/// Whether an existing script's first line no longer carries the hash of
/// the configuration: any mismatch means the script must be regenerated.
pub fn is_stale(first_line: &str, c: &ConfigFile) -> (r: bool)
    requires
        config_wf(c.deep_view()),
    ensures
        r == (first_line@ != hash_line_spec(c.deep_view())),
{
    let expected = hash_line(c);
    !str_eq(first_line, expected.as_str())
}

// ---------------------------------------------------------------------------
// Text helpers shared by the resolver and the emitter.
// ---------------------------------------------------------------------------

/// A version as the build tool reads it: no fractional part when the value
/// is whole.
pub open spec fn render_decimal_plain(d: Decimal) -> Seq<char> {
    if d.scale == 0 {
        dec_digits(d.mantissa as nat)
    } else {
        dec_digits((d.mantissa as nat) / pow10(d.scale as nat)) + "."@ + crate::doc::frac_digits(
            (d.mantissa as nat) % pow10(d.scale as nat),
            d.scale as nat,
        )
    }
}

pub fn render_decimal_plain_exec(d: Decimal) -> (r: String)
    requires
        d.scale <= 19,
    ensures
        r@ == render_decimal_plain(d),
{
    if d.scale == 0 {
        let s = u64_to_string(d.mantissa);
        proof {
            assert(s@ =~= render_decimal_plain(d));
        }
        s
    } else {
        let full = crate::doc::render_decimal_exec(d);
        proof {
            reveal_strlit(".");
            assert(crate::doc::render_decimal(d) =~= render_decimal_plain(d));
        }
        full
    }
}

pub open spec fn spaces(n: nat) -> Seq<char>
    decreases n,
{
    if n == 0 {
        Seq::empty()
    } else {
        spaces((n - 1) as nat).push(' ')
    }
}

/// A name padded with spaces to twenty characters, as the variable
/// assignments are aligned.
pub open spec fn pad20(s: Seq<char>) -> Seq<char> {
    if s.len() >= 20 {
        s
    } else {
        s + spaces((20 - s.len()) as nat)
    }
}

fn append_pad20(out: &mut String, s: &str)
    ensures
        final(out)@ == old(out)@ + pad20(s@),
{
    out.append(s);
    let len = s.unicode_len();
    let mut i = len;
    while i < 20
        invariant
            len <= i <= 20 || (len >= 20 && i == len),
            len == s@.len(),
            len < 20 ==> out@ == old(out)@ + s@ + spaces((i - len) as nat),
            len >= 20 ==> out@ == old(out)@ + s@ && i == len,
        decreases 20 - i,
    {
        out.append(" ");
        proof {
            reveal_strlit(" ");
            assert(spaces((i + 1 - len) as nat) =~= spaces((i - len) as nat).push(' '));
            assert(out@ =~= old(out)@ + s@ + spaces((i + 1 - len) as nat));
        }
        i = i + 1;
    }
    proof {
        if s@.len() < 20 {
            assert(out@ =~= old(out)@ + pad20(s@));
        } else {
            assert(spaces(0) =~= Seq::<char>::empty());
            assert(out@ =~= old(out)@ + pad20(s@));
        }
    }
}

/// One quoted base-relative path followed by a space: `"path/item" `.
pub open spec fn quoted_path_item(path: Seq<char>, item: Seq<char>) -> Seq<char> {
    "\""@ + path + "/"@ + item + "\" "@
}

pub open spec fn quoted_items(path: Seq<char>, items: Seq<Seq<char>>) -> Seq<char>
    decreases items.len(),
{
    if items.len() == 0 {
        Seq::empty()
    } else {
        quoted_items(path, items.drop_last()) + quoted_path_item(path, items.last())
    }
}

fn append_quoted_items(out: &mut String, path: &str, items: &Vec<String>)
    ensures
        final(out)@ == old(out)@ + quoted_items(path@, items.deep_view()),
{
    let n = items.len();
    let mut i: usize = 0;
    while i < n
        invariant
            i <= n,
            n == items.len(),
            out@ == old(out)@ + quoted_items(path@, items.deep_view().take(i as int)),
        decreases n - i,
    {
        out.append("\"");
        out.append(path);
        out.append("/");
        out.append(items[i].as_str());
        out.append("\" ");
        proof {
            let dv = items.deep_view();
            assert(dv.take(i as int + 1).drop_last() =~= dv.take(i as int));
            assert(dv.take(i as int + 1).last() == dv[i as int]);
            assert(out@ =~= old(out)@ + quoted_items(path@, dv.take(i as int + 1)));
        }
        i = i + 1;
    }
    proof {
        assert(items.deep_view().take(n as int) =~= items.deep_view());
    }
}

/// The base directory itself when the listed directory is `.`, else the
/// directory under the base.
pub open spec fn dir_path(path: Seq<char>, dir: Seq<char>) -> Seq<char> {
    if dir == "."@ {
        path
    } else {
        path + "/"@ + dir
    }
}

fn append_dir_path(out: &mut String, path: &str, dir: &str)
    ensures
        final(out)@ == old(out)@ + dir_path(path@, dir@),
{
    if str_eq(dir, ".") {
        out.append(path);
    } else {
        out.append(path);
        out.append("/");
        out.append(dir);
        proof {
            assert(out@ =~= old(out)@ + dir_path(path@, dir@));
        }
    }
}

/// The four glob patterns of one directory: `"d/*.cpp" "d/*.c" "d/*.hpp"
/// "d/*.h" `.
pub open spec fn glob_dir_piece(path: Seq<char>, dir: Seq<char>) -> Seq<char> {
    "\""@ + dir_path(path, dir) + "/*.cpp\" \""@ + dir_path(path, dir) + "/*.c\" \""@ + dir_path(
        path,
        dir,
    ) + "/*.hpp\" \""@ + dir_path(path, dir) + "/*.h\" "@
}

pub open spec fn glob_dirs_string(path: Seq<char>, dirs: Seq<Seq<char>>) -> Seq<char>
    decreases dirs.len(),
{
    if dirs.len() == 0 {
        Seq::empty()
    } else {
        glob_dirs_string(path, dirs.drop_last()) + glob_dir_piece(path, dirs.last())
    }
}

fn append_glob_dirs(out: &mut String, path: &str, dirs: &Vec<String>)
    ensures
        final(out)@ == old(out)@ + glob_dirs_string(path@, dirs.deep_view()),
{
    let n = dirs.len();
    let mut i: usize = 0;
    while i < n
        invariant
            i <= n,
            n == dirs.len(),
            out@ == old(out)@ + glob_dirs_string(path@, dirs.deep_view().take(i as int)),
        decreases n - i,
    {
        out.append("\"");
        append_dir_path(out, path, dirs[i].as_str());
        out.append("/*.cpp\" \"");
        append_dir_path(out, path, dirs[i].as_str());
        out.append("/*.c\" \"");
        append_dir_path(out, path, dirs[i].as_str());
        out.append("/*.hpp\" \"");
        append_dir_path(out, path, dirs[i].as_str());
        out.append("/*.h\" ");
        proof {
            let dv = dirs.deep_view();
            assert(dv.take(i as int + 1).drop_last() =~= dv.take(i as int));
            assert(dv.take(i as int + 1).last() == dv[i as int]);
            assert(out@ =~= old(out)@ + glob_dirs_string(path@, dv.take(i as int + 1)));
        }
        i = i + 1;
    }
    proof {
        assert(dirs.deep_view().take(n as int) =~= dirs.deep_view());
    }
}

/// One quoted include directory: `"d" `.
pub open spec fn inc_dir_piece(path: Seq<char>, dir: Seq<char>) -> Seq<char> {
    "\""@ + dir_path(path, dir) + "\" "@
}

pub open spec fn inc_dirs_string(path: Seq<char>, dirs: Seq<Seq<char>>) -> Seq<char>
    decreases dirs.len(),
{
    if dirs.len() == 0 {
        Seq::empty()
    } else {
        inc_dirs_string(path, dirs.drop_last()) + inc_dir_piece(path, dirs.last())
    }
}

fn append_inc_dirs(out: &mut String, path: &str, dirs: &Vec<String>)
    ensures
        final(out)@ == old(out)@ + inc_dirs_string(path@, dirs.deep_view()),
{
    let n = dirs.len();
    let mut i: usize = 0;
    while i < n
        invariant
            i <= n,
            n == dirs.len(),
            out@ == old(out)@ + inc_dirs_string(path@, dirs.deep_view().take(i as int)),
        decreases n - i,
    {
        out.append("\"");
        append_dir_path(out, path, dirs[i].as_str());
        out.append("\" ");
        proof {
            let dv = dirs.deep_view();
            assert(dv.take(i as int + 1).drop_last() =~= dv.take(i as int));
            assert(dv.take(i as int + 1).last() == dv[i as int]);
            assert(out@ =~= old(out)@ + inc_dirs_string(path@, dv.take(i as int + 1)));
        }
        i = i + 1;
    }
    proof {
        assert(dirs.deep_view().take(n as int) =~= dirs.deep_view());
    }
}

/// Names joined with a space before each, as the link statements list them.
pub open spec fn space_joined(names: Seq<Seq<char>>) -> Seq<char>
    decreases names.len(),
{
    if names.len() == 0 {
        Seq::empty()
    } else {
        space_joined(names.drop_last()) + " "@ + names.last()
    }
}

fn append_space_joined(out: &mut String, names: &Vec<String>)
    ensures
        final(out)@ == old(out)@ + space_joined(names.deep_view()),
{
    let n = names.len();
    let mut i: usize = 0;
    while i < n
        invariant
            i <= n,
            n == names.len(),
            out@ == old(out)@ + space_joined(names.deep_view().take(i as int)),
        decreases n - i,
    {
        out.append(" ");
        out.append(names[i].as_str());
        proof {
            let dv = names.deep_view();
            assert(dv.take(i as int + 1).drop_last() =~= dv.take(i as int));
            assert(dv.take(i as int + 1).last() == dv[i as int]);
            assert(out@ =~= old(out)@ + space_joined(dv.take(i as int + 1)));
        }
        i = i + 1;
    }
    proof {
        assert(names.deep_view().take(n as int) =~= names.deep_view());
    }
}

// ---------------------------------------------------------------------------
// The file inclusion resolver.
// ---------------------------------------------------------------------------

/// All paths of the groups with the given source mode, in declared order.
pub open spec fn mode_paths(groups: Seq<(SourceType, Seq<Seq<char>>)>, mode: SourceType) -> Seq<
    Seq<char>,
>
    decreases groups.len(),
{
    if groups.len() == 0 {
        Seq::empty()
    } else {
        mode_paths(groups.drop_last(), mode) + (if groups.last().0 == mode {
            groups.last().1
        } else {
            Seq::empty()
        })
    }
}

/// All directories of the groups with the given include visibility.
pub open spec fn visibility_dirs(
    groups: Seq<(IncludeType, Seq<Seq<char>>)>,
    mode: IncludeType,
) -> Seq<Seq<char>>
    decreases groups.len(),
{
    if groups.len() == 0 {
        Seq::empty()
    } else {
        visibility_dirs(groups.drop_last(), mode) + (if groups.last().0 == mode {
            groups.last().1
        } else {
            Seq::empty()
        })
    }
}

fn append_all(dst: &mut Vec<String>, src: &Vec<String>)
    ensures
        final(dst).deep_view() == old(dst).deep_view() + src.deep_view(),
{
    let n = src.len();
    let mut i: usize = 0;
    while i < n
        invariant
            i <= n,
            n == src.len(),
            dst.deep_view() == old(dst).deep_view() + src.deep_view().take(i as int),
        decreases n - i,
    {
        let ghost pre = dst.deep_view();
        let ghost prev = dst@;
        dst.push(src[i].clone());
        proof {
            let dv2 = dst.deep_view();
            let target = old(dst).deep_view() + src.deep_view().take(i as int + 1);
            assert(src.deep_view().len() == n);
            assert(dv2.len() == prev.len() + 1);
            assert(pre.len() == prev.len());
            assert(pre.len() == old(dst).deep_view().len() + i);
            assert(dv2.len() == target.len());
            assert forall|k: int| 0 <= k < dv2.len() implies dv2[k] == target[k] by {
                assert(dv2[k] == dst@[k].deep_view());
                if k < prev.len() {
                    assert(dst@[k] == prev[k]);
                    assert(pre[k] == prev[k].deep_view());
                } else {
                    assert(dst@[k] == src@[i as int]);
                    assert(src.deep_view()[i as int] == src@[i as int].deep_view());
                }
            }
            assert(dv2 =~= target);
        }
        i = i + 1;
    }
    proof {
        assert(src.deep_view().take(n as int) =~= src.deep_view());
        assert(dst.deep_view() =~= old(dst).deep_view() + src.deep_view());
    }
}

fn collect_mode_paths(groups: &Vec<(SourceType, Vec<String>)>, mode: SourceType) -> (r: Vec<
    String,
>)
    ensures
        r.deep_view() == mode_paths(groups.deep_view(), mode),
{
    let mut out: Vec<String> = Vec::new();
    let n = groups.len();
    let mut i: usize = 0;
    proof {
        assert(out.deep_view() =~= mode_paths(groups.deep_view().take(0), mode));
    }
    while i < n
        invariant
            i <= n,
            n == groups.len(),
            out.deep_view() == mode_paths(groups.deep_view().take(i as int), mode),
        decreases n - i,
    {
        let ghost dv = groups.deep_view();
        if groups[i].0 == mode {
            append_all(&mut out, &groups[i].1);
        }
        proof {
            assert(dv.take(i as int + 1).drop_last() =~= dv.take(i as int));
            assert(dv.take(i as int + 1).last() == dv[i as int]);
            if dv[i as int].0 == mode {
                assert(out.deep_view() =~= mode_paths(dv.take(i as int + 1), mode));
            } else {
                assert(out.deep_view() + Seq::<Seq<char>>::empty() =~= out.deep_view());
                assert(out.deep_view() =~= mode_paths(dv.take(i as int + 1), mode));
            }
        }
        i = i + 1;
    }
    proof {
        assert(groups.deep_view().take(n as int) =~= groups.deep_view());
    }
    out
}

fn collect_visibility_dirs(groups: &Vec<(IncludeType, Vec<String>)>, mode: IncludeType) -> (r: Vec<
    String,
>)
    ensures
        r.deep_view() == visibility_dirs(groups.deep_view(), mode),
{
    let mut out: Vec<String> = Vec::new();
    let n = groups.len();
    let mut i: usize = 0;
    proof {
        assert(out.deep_view() =~= visibility_dirs(groups.deep_view().take(0), mode));
    }
    while i < n
        invariant
            i <= n,
            n == groups.len(),
            out.deep_view() == visibility_dirs(groups.deep_view().take(i as int), mode),
        decreases n - i,
    {
        let ghost dv = groups.deep_view();
        if groups[i].0 == mode {
            append_all(&mut out, &groups[i].1);
        }
        proof {
            assert(dv.take(i as int + 1).drop_last() =~= dv.take(i as int));
            assert(dv.take(i as int + 1).last() == dv[i as int]);
            if dv[i as int].0 == mode {
                assert(out.deep_view() =~= visibility_dirs(dv.take(i as int + 1), mode));
            } else {
                assert(out.deep_view() + Seq::<Seq<char>>::empty() =~= out.deep_view());
                assert(out.deep_view() =~= visibility_dirs(dv.take(i as int + 1), mode));
            }
        }
        i = i + 1;
    }
    proof {
        assert(groups.deep_view().take(n as int) =~= groups.deep_view());
    }
    out
}

/// A glob discovery statement.  The first statement binds the variable;
/// every later one appends to it.
pub open spec fn glob_stmt(
    source_name: Seq<char>,
    glob_type: Seq<char>,
    path: Seq<char>,
    dirs: Seq<Seq<char>>,
    initialized: bool,
) -> Seq<char> {
    if dirs.len() == 0 {
        Seq::empty()
    } else if initialized {
        "file("@ + glob_type + " "@ + source_name + "_"@ + glob_type + " "@ + glob_dirs_string(
            path,
            dirs,
        ) + ")\n"@ + "list(APPEND "@ + source_name + " ${"@ + source_name + "_"@ + glob_type
            + "})\n"@
    } else {
        "file("@ + glob_type + " "@ + source_name + " "@ + glob_dirs_string(path, dirs) + ")\n"@
    }
}

fn append_glob_stmt(
    out: &mut String,
    source_name: &str,
    glob_type: &str,
    path: &str,
    dirs: &Vec<String>,
    initialized: bool,
)
    ensures
        final(out)@ == old(out)@ + glob_stmt(
            source_name@,
            glob_type@,
            path@,
            dirs.deep_view(),
            initialized,
        ),
{
    if dirs.len() == 0 {
        proof {
            assert(out@ =~= old(out)@ + glob_stmt(
                source_name@,
                glob_type@,
                path@,
                dirs.deep_view(),
                initialized,
            ));
        }
        return ;
    }
    if initialized {
        out.append("file(");
        out.append(glob_type);
        out.append(" ");
        out.append(source_name);
        out.append("_");
        out.append(glob_type);
        out.append(" ");
        append_glob_dirs(out, path, dirs);
        out.append(")\n");
        out.append("list(APPEND ");
        out.append(source_name);
        out.append(" ${");
        out.append(source_name);
        out.append("_");
        out.append(glob_type);
        out.append("})\n");
        proof {
            assert(out@ =~= old(out)@ + glob_stmt(
                source_name@,
                glob_type@,
                path@,
                dirs.deep_view(),
                initialized,
            ));
        }
    } else {
        out.append("file(");
        out.append(glob_type);
        out.append(" ");
        out.append(source_name);
        out.append(" ");
        append_glob_dirs(out, path, dirs);
        out.append(")\n");
        proof {
            assert(out@ =~= old(out)@ + glob_stmt(
                source_name@,
                glob_type@,
                path@,
                dirs.deep_view(),
                initialized,
            ));
        }
    }
}

/// The literal file list statement, absent when no single files are named.
pub open spec fn set_part_spec(
    source_name: Seq<char>,
    path: Seq<char>,
    individual: Seq<Seq<char>>,
) -> Seq<char> {
    if individual.len() > 0 {
        "set("@ + source_name + " "@ + quoted_items(path, individual) + ")\n"@
    } else {
        Seq::empty()
    }
}

/// The removal statement for excluded files, absent when none are named.
pub open spec fn exclude_part_spec(
    source_name: Seq<char>,
    path: Seq<char>,
    excludes: Seq<Seq<char>>,
) -> Seq<char> {
    if excludes.len() > 0 {
        "list(REMOVE_ITEM "@ + source_name + " "@ + quoted_items(path, excludes) + ")\n"@
    } else {
        Seq::empty()
    }
}

/// The statements that bind the resolved source set of a file-selection
/// rule to the variable `source_name`: a literal list for single files, one
/// merged discovery statement per glob mode, and a final removal statement
/// for the excluded files.  An empty rule emits nothing.
#[verifier::opaque]
pub open spec fn source_files_text(
    source_name: Seq<char>,
    path: Seq<char>,
    files: ProjectFilesV,
) -> Seq<char> {
    if files.source_files.len() == 0 {
        Seq::empty()
    } else {
        let individual = mode_paths(files.source_files, SourceType::File);
        let glob_dirs = mode_paths(files.source_files, SourceType::Glob);
        let recurse_dirs = mode_paths(files.source_files, SourceType::GlobRecurse);
        let init1 = individual.len() > 0;
        let init2 = init1 || glob_dirs.len() > 0;
        set_part_spec(source_name, path, individual) + glob_stmt(
            source_name,
            "GLOB"@,
            path,
            glob_dirs,
            init1,
        ) + glob_stmt(source_name, "GLOB_RECURSE"@, path, recurse_dirs, init2)
            + exclude_part_spec(source_name, path, files.exclude_files)
    }
}

fn append_set_part(out: &mut String, source_name: &str, path: &str, individual: &Vec<String>)
    ensures
        final(out)@ == old(out)@ + set_part_spec(source_name@, path@, individual.deep_view()),
{
    if individual.len() > 0 {
        out.append("set(");
        out.append(source_name);
        out.append(" ");
        append_quoted_items(out, path, individual);
        out.append(")\n");
        proof {
            assert(out@ =~= old(out)@ + set_part_spec(
                source_name@,
                path@,
                individual.deep_view(),
            ));
        }
    } else {
        proof {
            assert(out@ =~= old(out)@ + set_part_spec(
                source_name@,
                path@,
                individual.deep_view(),
            ));
        }
    }
}

fn append_exclude_part(out: &mut String, source_name: &str, path: &str, excludes: &Vec<String>)
    ensures
        final(out)@ == old(out)@ + exclude_part_spec(source_name@, path@, excludes.deep_view()),
{
    if excludes.len() > 0 {
        out.append("list(REMOVE_ITEM ");
        out.append(source_name);
        out.append(" ");
        append_quoted_items(out, path, excludes);
        out.append(")\n");
        proof {
            assert(out@ =~= old(out)@ + exclude_part_spec(
                source_name@,
                path@,
                excludes.deep_view(),
            ));
        }
    } else {
        proof {
            assert(out@ =~= old(out)@ + exclude_part_spec(
                source_name@,
                path@,
                excludes.deep_view(),
            ));
        }
    }
}

/// Append the source-binding statements of a file-selection rule.
pub fn append_source_files(out: &mut String, source_name: &str, path: &str, files: &ProjectFiles)
    ensures
        final(out)@ == old(out)@ + source_files_text(source_name@, path@, files.deep_view()),
{
    let ghost fv = files.deep_view();
    if files.source_files.len() == 0 {
        proof {
            reveal(source_files_text);
            assert(out@ =~= old(out)@ + source_files_text(source_name@, path@, fv));
        }
        return ;
    }
    let individual = collect_mode_paths(&files.source_files, SourceType::File);
    let glob_dirs = collect_mode_paths(&files.source_files, SourceType::Glob);
    let recurse_dirs = collect_mode_paths(&files.source_files, SourceType::GlobRecurse);
    let ghost a = set_part_spec(source_name@, path@, individual.deep_view());
    let ghost b = glob_stmt(
        source_name@,
        "GLOB"@,
        path@,
        glob_dirs.deep_view(),
        individual.len() > 0,
    );
    let ghost c = glob_stmt(
        source_name@,
        "GLOB_RECURSE"@,
        path@,
        recurse_dirs.deep_view(),
        individual.len() > 0 || glob_dirs.len() > 0,
    );
    let ghost d = exclude_part_spec(source_name@, path@, files.exclude_files.deep_view());
    append_set_part(out, source_name, path, &individual);
    let initialized = individual.len() > 0;
    append_glob_stmt(out, source_name, "GLOB", path, &glob_dirs, initialized);
    let initialized = initialized || glob_dirs.len() > 0;
    append_glob_stmt(out, source_name, "GLOB_RECURSE", path, &recurse_dirs, initialized);
    append_exclude_part(out, source_name, path, &files.exclude_files);
    proof {
        reveal(source_files_text);
        assert(source_files_text(source_name@, path@, fv) == a + b + c + d);
        assert(out@ =~= old(out)@ + (a + b + c + d));
    }
}

/// One directory-visibility statement, omitted when the group is empty.
pub open spec fn include_stmt(
    name: Seq<char>,
    visibility: Seq<char>,
    path: Seq<char>,
    dirs: Seq<Seq<char>>,
) -> Seq<char> {
    if dirs.len() == 0 {
        Seq::empty()
    } else {
        "target_include_directories("@ + name + " "@ + visibility + " "@ + inc_dirs_string(
            path,
            dirs,
        ) + ")\n"@
    }
}

/// The include-directory statements of a file-selection rule: one for the
/// public directories and one for the interface-only directories.
#[verifier::opaque]
pub open spec fn include_dirs_text(name: Seq<char>, path: Seq<char>, files: ProjectFilesV) -> Seq<
    char,
> {
    include_stmt(name, "PUBLIC"@, path, visibility_dirs(files.include_dirs, IncludeType::Public))
        + include_stmt(
        name,
        "INTERFACE"@,
        path,
        visibility_dirs(files.include_dirs, IncludeType::Interface),
    )
}

fn append_include_stmt(out: &mut String, name: &str, visibility: &str, path: &str, dirs: &Vec<
    String,
>)
    ensures
        final(out)@ == old(out)@ + include_stmt(name@, visibility@, path@, dirs.deep_view()),
{
    if dirs.len() > 0 {
        out.append("target_include_directories(");
        out.append(name);
        out.append(" ");
        out.append(visibility);
        out.append(" ");
        append_inc_dirs(out, path, dirs);
        out.append(")\n");
        proof {
            assert(out@ =~= old(out)@ + include_stmt(name@, visibility@, path@, dirs.deep_view()));
        }
    } else {
        proof {
            assert(out@ =~= old(out)@ + include_stmt(name@, visibility@, path@, dirs.deep_view()));
        }
    }
}

/// Append the include-directory statements of a file-selection rule.
pub fn append_include_dirs(out: &mut String, name: &str, path: &str, files: &ProjectFiles)
    ensures
        final(out)@ == old(out)@ + include_dirs_text(name@, path@, files.deep_view()),
{
    let ghost fv = files.deep_view();
    let pub_dirs = collect_visibility_dirs(&files.include_dirs, IncludeType::Public);
    let int_dirs = collect_visibility_dirs(&files.include_dirs, IncludeType::Interface);
    let ghost a = include_stmt(name@, "PUBLIC"@, path@, pub_dirs.deep_view());
    let ghost b = include_stmt(name@, "INTERFACE"@, path@, int_dirs.deep_view());
    append_include_stmt(out, name, "PUBLIC", path, &pub_dirs);
    append_include_stmt(out, name, "INTERFACE", path, &int_dirs);
    proof {
        reveal(include_dirs_text);
        assert(include_dirs_text(name@, path@, fv) == a + b);
        assert(out@ =~= old(out)@ + (a + b));
    }
}

// ---------------------------------------------------------------------------
// The dependency emitter and the script compiler.
// ---------------------------------------------------------------------------

pub uninterp spec fn upper_of(s: Seq<char>) -> Seq<char>;

/// Relies on str::to_uppercase: the uppercase form of a string depends on
/// its characters alone.
#[verifier::external_body]
fn to_uppercase(s: &str) -> (r: String)
    ensures
        r@ == upper_of(s@),
{
    s.to_uppercase()
}

/// One package-search statement.
pub open spec fn find_line(f: crate::config::FindDependencyV) -> Seq<char> {
    "find_package("@ + f.name + (if f.required {
        " REQUIRED"@
    } else {
        Seq::empty()
    }) + ")\n"@
}

pub open spec fn find_lines(fs: Seq<crate::config::FindDependencyV>) -> Seq<char>
    decreases fs.len(),
{
    if fs.len() == 0 {
        Seq::empty()
    } else {
        find_lines(fs.drop_last()) + find_line(fs.last())
    }
}

/// The located-dependency section: one statement per dependency, then a
/// blank line when any were emitted.
pub open spec fn find_section(fs: Seq<crate::config::FindDependencyV>) -> Seq<char> {
    find_lines(fs) + (if fs.len() > 0 {
        "\n"@
    } else {
        Seq::empty()
    })
}

fn append_find_section(out: &mut String, fs: &Vec<crate::config::FindDependency>)
    ensures
        final(out)@ == old(out)@ + find_section(fs.deep_view()),
{
    let n = fs.len();
    let mut i: usize = 0;
    while i < n
        invariant
            i <= n,
            n == fs.len(),
            out@ == old(out)@ + find_lines(fs.deep_view().take(i as int)),
        decreases n - i,
    {
        out.append("find_package(");
        out.append(fs[i].name.as_str());
        if fs[i].required {
            out.append(" REQUIRED");
        }
        out.append(")\n");
        proof {
            let dv = fs.deep_view();
            assert(dv.take(i as int + 1).drop_last() =~= dv.take(i as int));
            assert(dv.take(i as int + 1).last() == dv[i as int]);
            assert(out@ =~= old(out)@ + find_lines(dv.take(i as int + 1)));
        }
        i = i + 1;
    }
    if n > 0 {
        out.append("\n");
    }
    proof {
        assert(fs.deep_view().take(n as int) =~= fs.deep_view());
        assert(out@ =~= old(out)@ + find_section(fs.deep_view()));
    }
}

/// One build-variable assignment, its name padded for alignment.
pub open spec fn var_line(p: (Seq<char>, Seq<char>)) -> Seq<char> {
    "set("@ + pad20(p.0) + " "@ + p.1 + ")\n"@
}

pub open spec fn var_lines(ps: Seq<(Seq<char>, Seq<char>)>) -> Seq<char>
    decreases ps.len(),
{
    if ps.len() == 0 {
        Seq::empty()
    } else {
        var_lines(ps.drop_last()) + var_line(ps.last())
    }
}

fn append_var_lines(out: &mut String, ps: &Vec<(String, String)>)
    ensures
        final(out)@ == old(out)@ + var_lines(ps.deep_view()),
{
    let n = ps.len();
    let mut i: usize = 0;
    while i < n
        invariant
            i <= n,
            n == ps.len(),
            out@ == old(out)@ + var_lines(ps.deep_view().take(i as int)),
        decreases n - i,
    {
        out.append("set(");
        append_pad20(out, ps[i].0.as_str());
        out.append(" ");
        out.append(ps[i].1.as_str());
        out.append(")\n");
        proof {
            let dv = ps.deep_view();
            assert(dv.take(i as int + 1).drop_last() =~= dv.take(i as int));
            assert(dv.take(i as int + 1).last() == dv[i as int]);
            assert(out@ =~= old(out)@ + var_lines(dv.take(i as int + 1)));
        }
        i = i + 1;
    }
    proof {
        assert(ps.deep_view().take(n as int) =~= ps.deep_view());
    }
}

/// The statements of one local dependency: a nested-subdirectory statement,
/// or the library target built from its discovered sources.
pub open spec fn local_body(l: crate::config::LocalDependencyV) -> Seq<char> {
    match l.local_type {
        crate::config::LocalTypeV::CMake => "add_subdirectory("@ + l.path + ")\n"@,
        crate::config::LocalTypeV::Source { files, dependencies } => {
            let src_name = upper_of(l.name) + "_SOURCES"@;
            source_files_text(src_name, l.path, files) + (if files.source_files.len() == 0 {
                "add_library("@ + l.name + " INTERFACE)\n"@
            } else {
                "add_library("@ + l.name + " ${"@ + src_name + "})\n"@
            }) + include_dirs_text(l.name, l.path, files) + (if dependencies.len() > 0 {
                "target_link_libraries("@ + l.name + " PUBLIC "@ + space_joined(dependencies)
                    + ")\n"@
            } else {
                Seq::empty()
            })
        },
    }
}

/// One local dependency's block: its variables, its statements, and a
/// closing blank line.
pub open spec fn local_block(l: crate::config::LocalDependencyV) -> Seq<char> {
    var_lines(l.variables) + local_body(l) + "\n"@
}

pub open spec fn locals_section(ls: Seq<crate::config::LocalDependencyV>) -> Seq<char>
    decreases ls.len(),
{
    if ls.len() == 0 {
        Seq::empty()
    } else {
        locals_section(ls.drop_last()) + local_block(ls.last())
    }
}

#[verifier::rlimit(100)]
fn append_local_block(out: &mut String, l: &crate::config::LocalDependency)
    ensures
        final(out)@ == old(out)@ + local_block(l.deep_view()),
{
    let ghost lv = l.deep_view();
    append_var_lines(out, &l.variables);
    let ghost snap1 = out@;
    match &l.local_type {
        crate::config::LocalType::CMake => {
            out.append("add_subdirectory(");
            out.append(l.path.as_str());
            out.append(")\n");
            proof {
                assert(out@ =~= snap1 + local_body(lv));
            }
        },
        crate::config::LocalType::Source { files, dependencies } => {
            let mut src_name = to_uppercase(l.name.as_str());
            src_name.append("_SOURCES");
            let ghost sn = upper_of(lv.name) + "_SOURCES"@;
            proof {
                assert(src_name@ =~= sn);
            }
            append_source_files(out, src_name.as_str(), l.path.as_str(), files);
            let ghost snap2 = out@;
            if files.source_files.len() == 0 {
                out.append("add_library(");
                out.append(l.name.as_str());
                out.append(" INTERFACE)\n");
            } else {
                out.append("add_library(");
                out.append(l.name.as_str());
                out.append(" ${");
                out.append(src_name.as_str());
                out.append("})\n");
            }
            proof {
                if files.deep_view().source_files.len() == 0 {
                    assert(out@ =~= snap2 + ("add_library("@ + lv.name + " INTERFACE)\n"@));
                } else {
                    assert(out@ =~= snap2 + ("add_library("@ + lv.name + " ${"@ + sn + "})\n"@));
                }
            }
            append_include_dirs(out, l.name.as_str(), l.path.as_str(), files);
            let ghost snap4 = out@;
            if dependencies.len() > 0 {
                out.append("target_link_libraries(");
                out.append(l.name.as_str());
                out.append(" PUBLIC ");
                append_space_joined(out, dependencies);
                out.append(")\n");
                proof {
                    assert(out@ =~= snap4 + ("target_link_libraries("@ + lv.name + " PUBLIC "@
                        + space_joined(dependencies.deep_view()) + ")\n"@));
                }
            }
            proof {
                assert(out@ =~= snap1 + local_body(lv));
            }
        },
    }
    out.append("\n");
    proof {
        assert(out@ =~= old(out)@ + local_block(lv));
    }
}

fn append_locals_section(out: &mut String, ls: &Vec<crate::config::LocalDependency>)
    ensures
        final(out)@ == old(out)@ + locals_section(ls.deep_view()),
{
    let n = ls.len();
    let mut i: usize = 0;
    while i < n
        invariant
            i <= n,
            n == ls.len(),
            out@ == old(out)@ + locals_section(ls.deep_view().take(i as int)),
        decreases n - i,
    {
        append_local_block(out, &ls[i]);
        proof {
            let dv = ls.deep_view();
            assert(dv.take(i as int + 1).drop_last() =~= dv.take(i as int));
            assert(dv.take(i as int + 1).last() == dv[i as int]);
            assert(out@ =~= old(out)@ + locals_section(dv.take(i as int + 1)));
        }
        i = i + 1;
    }
    proof {
        assert(ls.deep_view().take(n as int) =~= ls.deep_view());
    }
}

/// The fixed opening of the generated script: the hash comment, the
/// minimum-version and project statements, and the global flags.
pub open spec fn header_text(c: ConfigFileV) -> Seq<char> {
    hash_line_spec(c) + "\n"@ + "cmake_minimum_required(VERSION "@ + render_decimal_plain(
        c.cmake.minimum_required,
    ) + ")\n"@ + "project(\""@ + c.project.name + "\")\n"@ + "\n#Project Config Flags:\n"@
        + "set(CMAKE_BUILD_TYPE Debug)\n"@ + "set(CMAKE_EXPORT_COMPILE_COMMANDS ON)\n"@
        + "\n#Project Dependencies: \n"@
}

fn append_header(out: &mut String, c: &ConfigFile)
    requires
        config_wf(c.deep_view()),
    ensures
        final(out)@ == old(out)@ + header_text(c.deep_view()),
{
    let line = hash_line(c);
    out.append(line.as_str());
    out.append("\n");
    out.append("cmake_minimum_required(VERSION ");
    let minreq = render_decimal_plain_exec(c.cmake.minimum_required);
    out.append(minreq.as_str());
    out.append(")\n");
    out.append("project(\"");
    out.append(c.project.name.as_str());
    out.append("\")\n");
    out.append("\n#Project Config Flags:\n");
    out.append("set(CMAKE_BUILD_TYPE Debug)\n");
    out.append("set(CMAKE_EXPORT_COMPILE_COMMANDS ON)\n");
    out.append("\n#Project Dependencies: \n");
    proof {
        assert(out@ =~= old(out)@ + header_text(c.deep_view()));
    }
}

/// Everything of the generated script up to and including the executable
/// statement.
pub open spec fn compile_body(c: ConfigFileV) -> Seq<char> {
    header_text(c) + find_section(c.dependencies.find) + locals_section(c.dependencies.local)
        + "#Project Files:\n"@ + source_files_text("SOURCES"@, "src"@, c.cmake.files)
        + "add_executable(\"${PROJECT_NAME}\" ${SOURCES})\n"@
}

/// The final link statement, suppressed entirely when the project has no
/// project dependencies.
pub open spec fn link_part(c: ConfigFileV) -> Seq<char> {
    if c.dependencies.project_dependencies.len() > 0 {
        "target_link_libraries(\"${PROJECT_NAME}\" PRIVATE "@ + space_joined(
            c.dependencies.project_dependencies,
        ) + ")\n"@
    } else {
        Seq::empty()
    }
}

/// The whole generated build script.
pub open spec fn compile_spec(c: ConfigFileV) -> Seq<char> {
    compile_body(c) + link_part(c)
}

/// Render a configuration into its build script.  The text is a pure
/// function of the configuration: the same configuration always compiles
/// to the same script.
#[verifier::rlimit(100)]
pub fn compile(c: &ConfigFile) -> (r: String)
    requires
        config_wf(c.deep_view()),
    ensures
        r@ == compile_spec(c.deep_view()),
{
    let ghost cv = c.deep_view();
    let mut out = String::new();
    append_header(&mut out, c);
    append_find_section(&mut out, &c.dependencies.find);
    append_locals_section(&mut out, &c.dependencies.local);
    out.append("#Project Files:\n");
    append_source_files(&mut out, "SOURCES", "src", &c.cmake.files);
    out.append("add_executable(\"${PROJECT_NAME}\" ${SOURCES})\n");
    proof {
        assert(out@ =~= compile_body(cv));
    }
    if c.dependencies.project_dependencies.len() > 0 {
        out.append("target_link_libraries(\"${PROJECT_NAME}\" PRIVATE ");
        append_space_joined(&mut out, &c.dependencies.project_dependencies);
        out.append(")\n");
        proof {
            assert(out@ =~= compile_body(cv) + link_part(cv));
        }
    } else {
        proof {
            assert(out@ =~= compile_body(cv) + link_part(cv));
        }
    }
    out
}

/// Compiling is deterministic: equal configurations always compile to
/// identical text.
pub proof fn lemma_compile_deterministic(c1: ConfigFileV, c2: ConfigFileV)
    requires
        c1 == c2,
    ensures
        compile_spec(c1) == compile_spec(c2),
{
}

/// A configuration without project dependencies compiles to a script that
/// ends at the executable statement: no link statement, and in particular
/// none with zero arguments, is emitted.
pub proof fn lemma_empty_project_dependencies(c: ConfigFileV)
    requires
        c.dependencies.project_dependencies.len() == 0,
    ensures
        compile_spec(c) == compile_body(c),
{
    assert(link_part(c) == Seq::<char>::empty());
    assert(compile_spec(c) =~= compile_body(c));
}

} // verus!
