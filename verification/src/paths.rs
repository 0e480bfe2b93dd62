use vstd::prelude::*;
use vstd::string::StrSliceExecFns;
use vstd::string::StringExecFns;

use crate::text::{char_is_space, is_space};
use crate::workflow::after_last_slash;

verus! {

// ---------------------------------------------------------------------------
// Tidying a path typed at a prompt: whitespace is trimmed, a leading `./`
// and a trailing `/` are dropped.
// ---------------------------------------------------------------------------

pub open spec fn trim_front(s: Seq<char>) -> Seq<char>
    decreases s.len(),
{
    if s.len() > 0 && is_space(s[0]) {
        trim_front(s.drop_first())
    } else {
        s
    }
}

pub open spec fn trim_back(s: Seq<char>) -> Seq<char>
    decreases s.len(),
{
    if s.len() > 0 && is_space(s.last()) {
        trim_back(s.drop_last())
    } else {
        s
    }
}

pub open spec fn trimmed(s: Seq<char>) -> Seq<char> {
    trim_back(trim_front(s))
}

/// The trimmed path, with a leading `./` (recognized on the original text)
/// dropped from the trimmed text.
pub open spec fn stripped(s: Seq<char>) -> Seq<char> {
    let t0 = trimmed(s);
    if s.len() >= 2 && s[0] == '.' && s[1] == '/' {
        if t0.len() >= 2 {
            t0.skip(2)
        } else {
            Seq::empty()
        }
    } else {
        t0
    }
}

/// A path can be tidied when something remains of it.
pub open spec fn path_formater_ok(s: Seq<char>) -> bool {
    stripped(s).len() > 0
}

pub open spec fn spec_path_formater(s: Seq<char>) -> Seq<char> {
    if stripped(s).last() == '/' {
        stripped(s).drop_last()
    } else {
        stripped(s)
    }
}

proof fn lemma_trim_front(s: Seq<char>, a: int)
    requires
        0 <= a <= s.len(),
        forall|i: int| 0 <= i < a ==> is_space(s[i]),
        a == s.len() || !is_space(s[a]),
    ensures
        trim_front(s) == s.skip(a),
    decreases a,
{
    if a == 0 {
        assert(s.skip(0) =~= s);
    } else {
        assert(is_space(s[0]));
        lemma_trim_front(s.drop_first(), a - 1);
        assert(s.drop_first().skip(a - 1) =~= s.skip(a));
    }
}

proof fn lemma_trim_back(t: Seq<char>, b: int)
    requires
        0 <= b <= t.len(),
        forall|j: int| b <= j < t.len() ==> is_space(t[j]),
        b == 0 || !is_space(t[b - 1]),
    ensures
        trim_back(t) == t.take(b),
    decreases t.len(),
{
    if b == t.len() {
        assert(t.take(b) =~= t);
    } else {
        assert(is_space(t.last()));
        lemma_trim_back(t.drop_last(), b);
        assert(t.drop_last().take(b) =~= t.take(b));
    }
}

/// Tidy a path typed at a prompt.
pub fn path_formater(path: &str) -> (r: String)
    requires
        path_formater_ok(path@),
    ensures
        r@ == spec_path_formater(path@),
{
    let len = path.unicode_len();
    let mut a: usize = 0;
    while a < len && char_is_space(path.get_char(a))
        invariant
            a <= len,
            len == path@.len(),
            forall|i: int| 0 <= i < a ==> is_space(path@[i]),
        decreases len - a,
    {
        a = a + 1;
    }
    let mut b = len;
    while b > a && char_is_space(path.get_char(b - 1))
        invariant
            a <= b <= len,
            len == path@.len(),
            forall|j: int| b <= j < len ==> is_space(path@[j]),
        decreases b,
    {
        b = b - 1;
    }
    proof {
        lemma_trim_front(path@, a as int);
        lemma_trim_back(path@.skip(a as int), b - a);
        assert(path@.skip(a as int).take(b - a) =~= path@.subrange(a as int, b as int));
        assert(trimmed(path@) == path@.subrange(a as int, b as int));
    }
    let dot_slash = len >= 2 && path.get_char(0) == '.' && path.get_char(1) == '/';
    let start = if dot_slash {
        if b - a >= 2 {
            a + 2
        } else {
            b
        }
    } else {
        a
    };
    proof {
        assert(stripped(path@) =~= path@.subrange(start as int, b as int));
    }
    let end = if path.get_char(b - 1) == '/' {
        b - 1
    } else {
        b
    };
    let r = String::from_str(path.substring_char(start, end));
    proof {
        assert(r@ =~= spec_path_formater(path@));
    }
    r
}

/// Tidy a path typed at a prompt, or nothing when nothing would remain of
/// it.
pub fn path_formater_checked(path: &str) -> (r: Option<String>)
    ensures
        match r {
            Some(x) => path_formater_ok(path@) && x@ == spec_path_formater(path@),
            None => !path_formater_ok(path@),
        },
{
    let len = path.unicode_len();
    let mut a: usize = 0;
    while a < len && char_is_space(path.get_char(a))
        invariant
            a <= len,
            len == path@.len(),
            forall|i: int| 0 <= i < a ==> is_space(path@[i]),
        decreases len - a,
    {
        a = a + 1;
    }
    let mut b = len;
    while b > a && char_is_space(path.get_char(b - 1))
        invariant
            a <= b <= len,
            len == path@.len(),
            forall|j: int| b <= j < len ==> is_space(path@[j]),
        decreases b,
    {
        b = b - 1;
    }
    proof {
        lemma_trim_front(path@, a as int);
        lemma_trim_back(path@.skip(a as int), b - a);
        assert(path@.skip(a as int).take(b - a) =~= path@.subrange(a as int, b as int));
        assert(trimmed(path@) == path@.subrange(a as int, b as int));
    }
    let dot_slash = len >= 2 && path.get_char(0) == '.' && path.get_char(1) == '/';
    let start = if dot_slash {
        if b - a >= 2 {
            a + 2
        } else {
            b
        }
    } else {
        a
    };
    proof {
        assert(stripped(path@) =~= path@.subrange(start as int, b as int));
    }
    if start >= b {
        return None;
    }
    Some(path_formater(path))
}

// ---------------------------------------------------------------------------
// Folder autocompletion: the pure choice logic behind the interactive
// prompt.  The surrounding code lists the directories; these functions pick
// and shape the suggestions.
// ---------------------------------------------------------------------------

/// A folder-autocompleting prompt rooted at a base directory.
#[derive(Clone, Debug, PartialEq)]
pub struct FolderAutocomplete(pub String);

/// The typed text up to and including its last `/`.
pub open spec fn typed_prefix(s: Seq<char>) -> Seq<char> {
    s.take(s.len() - after_last_slash(s).len())
}

/// The typed text after its last `/`.
pub open spec fn typed_segment(s: Seq<char>) -> Seq<char> {
    after_last_slash(s)
}

pub open spec fn starts_with(f: Seq<char>, seg: Seq<char>) -> bool {
    seg.len() <= f.len() && f.take(seg.len() as int) == seg
}

/// The suggestions offered for the typed text: each listed folder name
/// beginning with the typed last segment, completed to a full path.
pub open spec fn suggestions_spec(
    prefix: Seq<char>,
    seg: Seq<char>,
    names: Seq<Seq<char>>,
) -> Seq<Seq<char>>
    decreases names.len(),
{
    if names.len() == 0 {
        Seq::empty()
    } else {
        suggestions_spec(prefix, seg, names.drop_last()) + (if starts_with(names.last(), seg) {
            seq![prefix + names.last()]
        } else {
            Seq::empty()
        })
    }
}

fn str_starts_with(f: &str, seg_str: &str) -> (r: bool)
    ensures
        r == starts_with(f@, seg_str@),
{
    let f_len = f.unicode_len();
    let s_len = seg_str.unicode_len();
    if s_len > f_len {
        return false;
    }
    let mut i: usize = 0;
    while i < s_len
        invariant
            i <= s_len <= f_len,
            f_len == f@.len(),
            s_len == seg_str@.len(),
            forall|k: int| 0 <= k < i ==> f@[k] == seg_str@[k],
        decreases s_len - i,
    {
        if f.get_char(i) != seg_str.get_char(i) {
            proof {
                assert(f@.take(s_len as int)[i as int] == f@[i as int]);
            }
            return false;
        }
        i = i + 1;
    }
    proof {
        assert(f@.take(s_len as int) =~= seg_str@);
    }
    true
}

/// Offer each listed folder name that begins with the last typed path
/// segment, completed to a full path.
pub fn folder_suggestions(input: &str, names: &Vec<String>) -> (r: Vec<String>)
    ensures
        r.deep_view() == suggestions_spec(
            typed_prefix(input@),
            typed_segment(input@),
            names.deep_view(),
        ),
{
    let len = input.unicode_len();
    let mut k = len;
    while k > 0 && input.get_char(k - 1) != '/'
        invariant
            k <= len,
            len == input@.len(),
            forall|j: int| k <= j < len ==> input@[j] != '/',
        decreases k,
    {
        k = k - 1;
    }
    proof {
        crate::workflow::lemma_after_last_slash(input@, k as int);
    }
    let prefix = String::from_str(input.substring_char(0, k));
    let seg = String::from_str(input.substring_char(k, len));
    proof {
        assert(prefix@ =~= typed_prefix(input@));
        assert(seg@ =~= typed_segment(input@));
    }
    let mut out: Vec<String> = Vec::new();
    let n = names.len();
    let mut i: usize = 0;
    while i < n
        invariant
            i <= n,
            n == names.len(),
            prefix@ == typed_prefix(input@),
            seg@ == typed_segment(input@),
            out.deep_view() == suggestions_spec(
                prefix@,
                seg@,
                names.deep_view().take(i as int),
            ),
        decreases n - i,
    {
        let ghost pre = out.deep_view();
        let ghost prev = out@;
        let ghost dv = names.deep_view();
        if str_starts_with(names[i].as_str(), seg.as_str()) {
            let mut full = prefix.clone();
            full.append(names[i].as_str());
            out.push(full);
            proof {
                let dv2 = out.deep_view();
                let target = pre.push(prefix@ + dv[i as int]);
                assert(dv2.len() == target.len());
                assert forall|t: int| 0 <= t < dv2.len() implies dv2[t] == target[t] by {
                    assert(dv2[t] == out@[t].deep_view());
                    if t < prev.len() {
                        assert(out@[t] == prev[t]);
                        assert(pre[t] == prev[t].deep_view());
                    } else {
                        assert(out@[t] == full);
                    }
                }
                assert(dv2 =~= target);
            }
        }
        proof {
            assert(dv.take(i as int + 1).drop_last() =~= dv.take(i as int));
            assert(dv.take(i as int + 1).last() == dv[i as int]);
            if starts_with(dv[i as int], seg@) {
                assert(out.deep_view() =~= suggestions_spec(
                    prefix@,
                    seg@,
                    dv.take(i as int + 1),
                ));
            } else {
                assert(out.deep_view() + Seq::<Seq<char>>::empty() =~= out.deep_view());
                assert(out.deep_view() =~= suggestions_spec(
                    prefix@,
                    seg@,
                    dv.take(i as int + 1),
                ));
            }
        }
        i = i + 1;
    }
    proof {
        assert(names.deep_view().take(n as int) =~= names.deep_view());
    }
    out
}

/// The completion a highlighted or first suggestion yields: the suggestion
/// with a `/` appended, ready for descending further.
pub open spec fn completion_spec(
    highlighted: Option<Seq<char>>,
    first_suggestion: Option<Seq<char>>,
) -> Option<Seq<char>> {
    match highlighted {
        Some(v) => Some(v + "/"@),
        None => match first_suggestion {
            Some(v) => Some(v + "/"@),
            None => None,
        },
    }
}

pub fn completion_choice(highlighted: Option<String>, first_suggestion: Option<String>) -> (r:
    Option<String>)
    ensures
        match r {
            Some(v) => completion_spec(highlighted.deep_view(), first_suggestion.deep_view())
                == Some(v@),
            None => completion_spec(highlighted.deep_view(), first_suggestion.deep_view())
                is None,
        },
{
    match highlighted {
        Some(v) => {
            let mut out = v;
            out.append("/");
            Some(out)
        },
        None => match first_suggestion {
            Some(v) => {
                let mut out = v;
                out.append("/");
                Some(out)
            },
            None => None,
        },
    }
}

} // verus!
