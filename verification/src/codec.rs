use vstd::prelude::*;

use crate::config::{
    CMakeV, CacheSubmoduleV, CacheV, ConfigFileV, DependenciesV, FindDependencyV, GitSubmoduleV,
    IncludeType, LocalDependencyV, LocalTypeV, ProjectFilesV, ProjectV, SourceType,
};
use crate::doc::{val_seq_view, Val, ValV};

verus! {

broadcast use vstd::std_specs::vec::axiom_vec_decreases_to_view, vstd::seq::axiom_seq_index_decreases;

// ---------------------------------------------------------------------------
// The value-tree encoding of each configuration type.  Every `x_val`
// builds the encoding of a value; every `val_x` reads one back, refusing
// values of the wrong shape.  The `lemma_x_inverse` lemmas state that
// reading an encoding yields the encoded value.
// ---------------------------------------------------------------------------

/// `val_seq_view` of a sequence extended on the right.
pub proof fn lemma_val_seq_view_push(s: Seq<Val>, v: Val)
    ensures
        val_seq_view(s.push(v)) == val_seq_view(s) + seq![crate::doc::val_view(v)],
    decreases s.len(),
{
    if s.len() == 0 {
        assert(s.push(v).drop_first() =~= Seq::<Val>::empty());
        assert(s.push(v)[0] == v);
        assert(val_seq_view(Seq::<Val>::empty()) == Seq::<ValV>::empty());
        assert(val_seq_view(s) == Seq::<ValV>::empty());
        assert(val_seq_view(s.push(v)) =~= val_seq_view(s) + seq![crate::doc::val_view(v)]);
    } else {
        lemma_val_seq_view_push(s.drop_first(), v);
        assert(s.push(v).drop_first() =~= s.drop_first().push(v));
        assert(s.push(v)[0] == s[0]);
        assert(val_seq_view(s.push(v)) =~= val_seq_view(s) + seq![crate::doc::val_view(v)]);
    }
}

// ----- lists of strings -----

pub open spec fn strings_items(xs: Seq<Seq<char>>) -> Seq<ValV>
    decreases xs.len(),
{
    if xs.len() == 0 {
        Seq::empty()
    } else {
        strings_items(xs.drop_last()).push(ValV::S(xs.last()))
    }
}

pub open spec fn strings_val(xs: Seq<Seq<char>>) -> ValV {
    ValV::L(strings_items(xs))
}

pub open spec fn items_strings(items: Seq<ValV>) -> Option<Seq<Seq<char>>>
    decreases items.len(),
{
    if items.len() == 0 {
        Some(Seq::empty())
    } else {
        match items.last() {
            ValV::S(x) => match items_strings(items.drop_last()) {
                Some(r) => Some(r.push(x)),
                None => None,
            },
            _ => None,
        }
    }
}

pub open spec fn val_strings(v: ValV) -> Option<Seq<Seq<char>>> {
    match v {
        ValV::L(items) => items_strings(items),
        _ => None,
    }
}

pub proof fn lemma_strings_inverse(xs: Seq<Seq<char>>)
    ensures
        val_strings(strings_val(xs)) == Some(xs),
    decreases xs.len(),
{
    if xs.len() == 0 {
        assert(items_strings(strings_items(xs)) == Some(Seq::<Seq<char>>::empty()));
        assert(xs =~= Seq::<Seq<char>>::empty());
    } else {
        lemma_strings_inverse(xs.drop_last());
        let pre = strings_items(xs.drop_last());
        assert(strings_items(xs) == pre.push(ValV::S(xs.last())));
        assert(strings_items(xs).last() == ValV::S(xs.last()));
        assert(strings_items(xs).drop_last() =~= pre);
        assert(xs.drop_last().push(xs.last()) =~= xs);
    }
}

/// Encode a list of strings.
pub fn strings_to_val(xs: &Vec<String>) -> (r: Val)
    ensures
        r.deep_view() == strings_val(xs.deep_view()),
{
    let mut items: Vec<Val> = Vec::new();
    let n = xs.len();
    let mut i: usize = 0;
    while i < n
        invariant
            i <= n,
            n == xs.len(),
            val_seq_view(items@) == strings_items(xs.deep_view().take(i as int)),
        decreases n - i,
    {
        let ghost pre = items@;
        items.push(Val::S(xs[i].clone()));
        proof {
            lemma_val_seq_view_push(pre, Val::S(xs@[i as int]));
            let dv = xs.deep_view();
            assert(dv.take(i as int + 1).drop_last() =~= dv.take(i as int));
            assert(dv.take(i as int + 1).last() == dv[i as int]);
            assert(val_seq_view(items@) =~= strings_items(dv.take(i as int + 1)));
        }
        i = i + 1;
    }
    proof {
        assert(xs.deep_view().take(n as int) =~= xs.deep_view());
    }
    Val::L(items)
}

/// Any list element that is not a string makes the whole list unreadable.
proof fn lemma_items_strings_none(items: Seq<ValV>, k: int)
    requires
        0 <= k < items.len(),
        !(items[k] is S),
    ensures
        items_strings(items) is None,
    decreases items.len(),
{
    if k == items.len() - 1 {
    } else {
        lemma_items_strings_none(items.drop_last(), k);
    }
}

/// Decode a list of strings.
pub fn val_to_strings(v: Val) -> (r: Option<Vec<String>>)
    ensures
        match r {
            Some(xs) => val_strings(v.deep_view()) == Some(xs.deep_view()),
            None => val_strings(v.deep_view()) is None,
        },
{
    match v {
        Val::L(items) => {
            proof {
                crate::doc::lemma_val_seq_view(items@);
            }
            let mut out: Vec<String> = Vec::new();
            let n = items.len();
            let mut i: usize = 0;
            while i < n
                invariant
                    i <= n,
                    n == items.len(),
                    v.deep_view() == ValV::L(val_seq_view(items@)),
                    val_seq_view(items@).len() == n,
                    forall|k: int|
                        0 <= k < n ==> val_seq_view(items@)[k] == crate::doc::val_view(
                            #[trigger] items@[k],
                        ),
                    items_strings(val_seq_view(items@).take(i as int)) == Some(out.deep_view()),
                decreases n - i,
            {
                let ghost iv = val_seq_view(items@);
                match &items[i] {
                    Val::S(x) => {
                        let ghost pre = out.deep_view();
                        out.push(x.clone());
                        proof {
                            assert(iv.take(i as int + 1).drop_last() =~= iv.take(i as int));
                            assert(iv.take(i as int + 1).last() == iv[i as int]);
                            assert(iv[i as int] == ValV::S(x@));
                            assert(out.deep_view() =~= pre.push(x@));
                        }
                    },
                    _ => {
                        proof {
                            let x = items@[i as int];
                            assert(x is D || x is B || x is L);
                            assert(!(iv[i as int] is S));
                            lemma_items_strings_none(iv, i as int);
                        }
                        return None;
                    },
                }
                i = i + 1;
            }
            proof {
                assert(val_seq_view(items@).take(n as int) =~= val_seq_view(items@));
            }
            Some(out)
        },
        _ => None,
    }
}

// ----- the mode keywords -----

pub open spec fn source_type_val(t: SourceType) -> ValV {
    match t {
        SourceType::File => ValV::S("file"@),
        SourceType::Glob => ValV::S("glob"@),
        SourceType::GlobRecurse => ValV::S("glob_recurse"@),
    }
}

pub open spec fn val_source_type(v: ValV) -> Option<SourceType> {
    if v == ValV::S("file"@) {
        Some(SourceType::File)
    } else if v == ValV::S("glob"@) {
        Some(SourceType::Glob)
    } else if v == ValV::S("glob_recurse"@) {
        Some(SourceType::GlobRecurse)
    } else {
        None
    }
}

pub proof fn lemma_source_type_inverse(t: SourceType)
    ensures
        val_source_type(source_type_val(t)) == Some(t),
{
    reveal_strlit("file");
    reveal_strlit("glob");
    reveal_strlit("glob_recurse");
    assert("glob"@[0] != "file"@[0]);
    assert("glob_recurse"@.len() != "file"@.len());
    assert("glob_recurse"@.len() != "glob"@.len());
}

fn source_type_to_val(t: SourceType) -> (r: Val)
    ensures
        r.deep_view() == source_type_val(t),
{
    match t {
        SourceType::File => Val::S(String::from_str("file")),
        SourceType::Glob => Val::S(String::from_str("glob")),
        SourceType::GlobRecurse => Val::S(String::from_str("glob_recurse")),
    }
}

fn val_to_source_type(v: &Val) -> (r: Option<SourceType>)
    ensures
        r == val_source_type(v.deep_view()),
{
    match v {
        Val::S(x) => {
            if crate::text::str_eq(x.as_str(), "file") {
                Some(SourceType::File)
            } else if crate::text::str_eq(x.as_str(), "glob") {
                Some(SourceType::Glob)
            } else if crate::text::str_eq(x.as_str(), "glob_recurse") {
                Some(SourceType::GlobRecurse)
            } else {
                None
            }
        },
        _ => None,
    }
}

pub open spec fn include_type_val(t: IncludeType) -> ValV {
    match t {
        IncludeType::Public => ValV::S("public"@),
        IncludeType::Interface => ValV::S("interface"@),
    }
}

pub open spec fn val_include_type(v: ValV) -> Option<IncludeType> {
    if v == ValV::S("public"@) {
        Some(IncludeType::Public)
    } else if v == ValV::S("interface"@) {
        Some(IncludeType::Interface)
    } else {
        None
    }
}

pub proof fn lemma_include_type_inverse(t: IncludeType)
    ensures
        val_include_type(include_type_val(t)) == Some(t),
{
    reveal_strlit("public");
    reveal_strlit("interface");
    assert("interface"@.len() != "public"@.len());
}

fn include_type_to_val(t: IncludeType) -> (r: Val)
    ensures
        r.deep_view() == include_type_val(t),
{
    match t {
        IncludeType::Public => Val::S(String::from_str("public")),
        IncludeType::Interface => Val::S(String::from_str("interface")),
    }
}

fn val_to_include_type(v: &Val) -> (r: Option<IncludeType>)
    ensures
        r == val_include_type(v.deep_view()),
{
    match v {
        Val::S(x) => {
            if crate::text::str_eq(x.as_str(), "public") {
                Some(IncludeType::Public)
            } else if crate::text::str_eq(x.as_str(), "interface") {
                Some(IncludeType::Interface)
            } else {
                None
            }
        },
        _ => None,
    }
}



// ----- optional strings, encoded as a list of zero or one strings -----

pub open spec fn opt_str_val(o: Option<Seq<char>>) -> ValV {
    match o {
        None => ValV::L(Seq::empty()),
        Some(x) => ValV::L(seq![ValV::S(x)]),
    }
}

pub open spec fn val_opt_str(v: ValV) -> Option<Option<Seq<char>>> {
    match v {
        ValV::L(items) => if items.len() == 0 {
            Some(None)
        } else if items.len() == 1 {
            match items[0] {
                ValV::S(x) => Some(Some(x)),
                _ => None,
            }
        } else {
            None
        },
        _ => None,
    }
}

pub proof fn lemma_opt_str_inverse(o: Option<Seq<char>>)
    ensures
        val_opt_str(opt_str_val(o)) == Some(o),
{
}

fn opt_str_to_val(o: &Option<String>) -> (r: Val)
    ensures
        r.deep_view() == opt_str_val(o.deep_view()),
{
    match o {
        None => {
            let empty: Vec<Val> = Vec::new();
            proof {
                assert(val_seq_view(empty@) =~= Seq::<ValV>::empty());
            }
            Val::L(empty)
        },
        Some(x) => {
            let items = vec![Val::S(x.clone())];
            proof {
                crate::doc::lemma_val_seq_view(items@);
                assert(val_seq_view(items@) =~= seq![ValV::S(x@)]);
            }
            Val::L(items)
        },
    }
}

fn val_to_opt_str(v: Val) -> (r: Option<Option<String>>)
    ensures
        match r {
            Some(o) => val_opt_str(v.deep_view()) == Some(o.deep_view()),
            None => val_opt_str(v.deep_view()) is None,
        },
{
    match v {
        Val::L(items) => {
            proof {
                crate::doc::lemma_val_seq_view(items@);
            }
            if items.len() == 0 {
                Some(None)
            } else if items.len() == 1 {
                let mut items = items;
                let first = items.pop().unwrap();
                match first {
                    Val::S(x) => Some(Some(x)),
                    _ => None,
                }
            } else {
                None
            }
        },
        _ => None,
    }
}

// ----- name-value pairs (build variables) -----

pub open spec fn var_val(p: (Seq<char>, Seq<char>)) -> ValV {
    ValV::L(seq![ValV::S(p.0), ValV::S(p.1)])
}

pub open spec fn val_var(v: ValV) -> Option<(Seq<char>, Seq<char>)> {
    match v {
        ValV::L(items) => if items.len() == 2 {
            match (items[0], items[1]) {
                (ValV::S(a), ValV::S(b)) => Some((a, b)),
                _ => None,
            }
        } else {
            None
        },
        _ => None,
    }
}

pub open spec fn vars_items(ps: Seq<(Seq<char>, Seq<char>)>) -> Seq<ValV>
    decreases ps.len(),
{
    if ps.len() == 0 {
        Seq::empty()
    } else {
        vars_items(ps.drop_last()).push(var_val(ps.last()))
    }
}

pub open spec fn items_vars(items: Seq<ValV>) -> Option<Seq<(Seq<char>, Seq<char>)>>
    decreases items.len(),
{
    if items.len() == 0 {
        Some(Seq::empty())
    } else {
        match val_var(items.last()) {
            Some(p) => match items_vars(items.drop_last()) {
                Some(r) => Some(r.push(p)),
                None => None,
            },
            None => None,
        }
    }
}

pub open spec fn val_vars(v: ValV) -> Option<Seq<(Seq<char>, Seq<char>)>> {
    match v {
        ValV::L(items) => items_vars(items),
        _ => None,
    }
}

pub proof fn lemma_vars_inverse(ps: Seq<(Seq<char>, Seq<char>)>)
    ensures
        val_vars(ValV::L(vars_items(ps))) == Some(ps),
    decreases ps.len(),
{
    if ps.len() == 0 {
        assert(ps =~= Seq::<(Seq<char>, Seq<char>)>::empty());
    } else {
        lemma_vars_inverse(ps.drop_last());
        let pre = vars_items(ps.drop_last());
        assert(vars_items(ps).last() == var_val(ps.last()));
        assert(vars_items(ps).drop_last() =~= pre);
        assert(val_var(var_val(ps.last())) == Some(ps.last()));
        assert(ps.drop_last().push(ps.last()) =~= ps);
    }
}

fn var_to_val(p: &(String, String)) -> (r: Val)
    ensures
        r.deep_view() == var_val(p.deep_view()),
{
    let items = vec![Val::S(p.0.clone()), Val::S(p.1.clone())];
    proof {
        crate::doc::lemma_val_seq_view(items@);
        assert(val_seq_view(items@) =~= seq![ValV::S(p.0@), ValV::S(p.1@)]);
    }
    Val::L(items)
}

fn val_to_var(v: Val) -> (r: Option<(String, String)>)
    ensures
        match r {
            Some(p) => val_var(v.deep_view()) == Some(p.deep_view()),
            None => val_var(v.deep_view()) is None,
        },
{
    match v {
        Val::L(items) => {
            proof {
                crate::doc::lemma_val_seq_view(items@);
            }
            if items.len() == 2 {
                let mut items = items;
                let second = items.pop().unwrap();
                let first = items.pop().unwrap();
                match (first, second) {
                    (Val::S(a), Val::S(b)) => Some((a, b)),
                    _ => None,
                }
            } else {
                None
            }
        },
        _ => None,
    }
}

pub fn vars_to_val(ps: &Vec<(String, String)>) -> (r: Val)
    ensures
        r.deep_view() == ValV::L(vars_items(ps.deep_view())),
{
    let mut items: Vec<Val> = Vec::new();
    let n = ps.len();
    let mut i: usize = 0;
    while i < n
        invariant
            i <= n,
            n == ps.len(),
            val_seq_view(items@) == vars_items(ps.deep_view().take(i as int)),
        decreases n - i,
    {
        let ghost pre = items@;
        let item = var_to_val(&ps[i]);
        items.push(item);
        proof {
            lemma_val_seq_view_push(pre, item);
            let dv = ps.deep_view();
            assert(dv.take(i as int + 1).drop_last() =~= dv.take(i as int));
            assert(dv.take(i as int + 1).last() == dv[i as int]);
            assert(val_seq_view(items@) =~= vars_items(dv.take(i as int + 1)));
        }
        i = i + 1;
    }
    proof {
        assert(ps.deep_view().take(n as int) =~= ps.deep_view());
    }
    Val::L(items)
}

proof fn lemma_items_vars_none(items: Seq<ValV>, k: int)
    requires
        0 <= k < items.len(),
        val_var(items[k]) is None,
    ensures
        items_vars(items) is None,
    decreases items.len(),
{
    if k < items.len() - 1 {
        lemma_items_vars_none(items.drop_last(), k);
    }
}

pub fn val_to_vars(v: Val) -> (r: Option<Vec<(String, String)>>)
    ensures
        match r {
            Some(ps) => val_vars(v.deep_view()) == Some(ps.deep_view()),
            None => val_vars(v.deep_view()) is None,
        },
{
    match v {
        Val::L(items) => {
            proof {
                crate::doc::lemma_val_seq_view(items@);
            }
            let mut out: Vec<(String, String)> = Vec::new();
            let n = items.len();
            let mut i: usize = 0;
            while i < n
                invariant
                    i <= n,
                    n == items.len(),
                    v.deep_view() == ValV::L(val_seq_view(items@)),
                    val_seq_view(items@).len() == n,
                    forall|k: int|
                        0 <= k < n ==> val_seq_view(items@)[k] == crate::doc::val_view(
                            #[trigger] items@[k],
                        ),
                    items_vars(val_seq_view(items@).take(i as int)) == Some(out.deep_view()),
                decreases n - i,
            {
                let ghost iv = val_seq_view(items@);
                let ghost pre = out.deep_view();
                let item = clone_val(&items[i]);
                match val_to_var(item) {
                    Some(p) => {
                        out.push(p);
                        proof {
                            assert(iv.take(i as int + 1).drop_last() =~= iv.take(i as int));
                            assert(iv.take(i as int + 1).last() == iv[i as int]);
                            assert(out.deep_view() =~= pre.push(
                                (out.deep_view().last().0, out.deep_view().last().1),
                            ));
                        }
                    },
                    None => {
                        proof {
                            lemma_items_vars_none(iv, i as int);
                        }
                        return None;
                    },
                }
                i = i + 1;
            }
            proof {
                assert(val_seq_view(items@).take(n as int) =~= val_seq_view(items@));
            }
            Some(out)
        },
        _ => None,
    }
}

/// Duplicate a value, so that a borrowed list element can be decoded by
/// value.
fn clone_val(v: &Val) -> (r: Val)
    ensures
        r.deep_view() == v.deep_view(),
    decreases *v,
{
    match v {
        Val::S(x) => Val::S(x.clone()),
        Val::D(d) => Val::D(*d),
        Val::B(b) => Val::B(*b),
        Val::L(items) => {
            let mut out: Vec<Val> = Vec::new();
            let n = items.len();
            let mut i: usize = 0;
            proof {
                crate::doc::lemma_val_seq_view(items@);
            }
            while i < n
                invariant
                    i <= n,
                    n == items.len(),
                    (decreases_to!(*v => items@)),
                    val_seq_view(items@).len() == n,
                    forall|k: int|
                        0 <= k < n ==> val_seq_view(items@)[k] == crate::doc::val_view(
                            #[trigger] items@[k],
                        ),
                    val_seq_view(out@) == val_seq_view(items@).take(i as int),
                decreases n - i,
            {
                let ghost pre = out@;
                let c = clone_val(&items[i]);
                out.push(c);
                proof {
                    lemma_val_seq_view_push(pre, c);
                    assert(val_seq_view(out@) =~= val_seq_view(items@).take(i as int + 1));
                }
                i = i + 1;
            }
            proof {
                assert(val_seq_view(items@).take(n as int) =~= val_seq_view(items@));
            }
            Val::L(out)
        },
    }
}



// ----- groups of paths under one source mode -----

pub open spec fn src_group_val(g: (SourceType, Seq<Seq<char>>)) -> ValV {
    ValV::L(seq![source_type_val(g.0), strings_val(g.1)])
}

pub open spec fn val_src_group(v: ValV) -> Option<(SourceType, Seq<Seq<char>>)> {
    match v {
        ValV::L(items) => if items.len() == 2 {
            match (val_source_type(items[0]), val_strings(items[1])) {
                (Some(t), Some(xs)) => Some((t, xs)),
                _ => None,
            }
        } else {
            None
        },
        _ => None,
    }
}

pub open spec fn src_groups_items(gs: Seq<(SourceType, Seq<Seq<char>>)>) -> Seq<ValV>
    decreases gs.len(),
{
    if gs.len() == 0 {
        Seq::empty()
    } else {
        src_groups_items(gs.drop_last()).push(src_group_val(gs.last()))
    }
}

pub open spec fn items_src_groups(items: Seq<ValV>) -> Option<Seq<(SourceType, Seq<Seq<char>>)>>
    decreases items.len(),
{
    if items.len() == 0 {
        Some(Seq::empty())
    } else {
        match val_src_group(items.last()) {
            Some(g) => match items_src_groups(items.drop_last()) {
                Some(r) => Some(r.push(g)),
                None => None,
            },
            None => None,
        }
    }
}

pub open spec fn val_src_groups(v: ValV) -> Option<Seq<(SourceType, Seq<Seq<char>>)>> {
    match v {
        ValV::L(items) => items_src_groups(items),
        _ => None,
    }
}

pub proof fn lemma_src_groups_inverse(gs: Seq<(SourceType, Seq<Seq<char>>)>)
    ensures
        val_src_groups(ValV::L(src_groups_items(gs))) == Some(gs),
    decreases gs.len(),
{
    if gs.len() == 0 {
        assert(gs =~= Seq::<(SourceType, Seq<Seq<char>>)>::empty());
    } else {
        lemma_src_groups_inverse(gs.drop_last());
        let pre = src_groups_items(gs.drop_last());
        assert(src_groups_items(gs).last() == src_group_val(gs.last()));
        assert(src_groups_items(gs).drop_last() =~= pre);
        lemma_source_type_inverse(gs.last().0);
        lemma_strings_inverse(gs.last().1);
        assert(val_src_group(src_group_val(gs.last())) == Some((gs.last().0, gs.last().1)));
        assert((gs.last().0, gs.last().1) == gs.last());
        assert(gs.drop_last().push(gs.last()) =~= gs);
    }
}

fn src_group_to_val(g: &(SourceType, Vec<String>)) -> (r: Val)
    ensures
        r.deep_view() == src_group_val(g.deep_view()),
{
    let mode = source_type_to_val(g.0);
    let paths = strings_to_val(&g.1);
    let items = vec![mode, paths];
    proof {
        crate::doc::lemma_val_seq_view(items@);
        assert(val_seq_view(items@) =~= seq![mode.deep_view(), paths.deep_view()]);
    }
    Val::L(items)
}

fn val_to_src_group(v: Val) -> (r: Option<(SourceType, Vec<String>)>)
    ensures
        match r {
            Some(g) => val_src_group(v.deep_view()) == Some(g.deep_view()),
            None => val_src_group(v.deep_view()) is None,
        },
{
    match v {
        Val::L(items) => {
            proof {
                crate::doc::lemma_val_seq_view(items@);
            }
            if items.len() == 2 {
                let mut items = items;
                let second = items.pop().unwrap();
                let first = items.pop().unwrap();
                let mode = match val_to_source_type(&first) {
                    Some(t) => t,
                    None => {
                        return None;
                    },
                };
                match val_to_strings(second) {
                    Some(xs) => Some((mode, xs)),
                    None => None,
                }
            } else {
                None
            }
        },
        _ => None,
    }
}

pub fn src_groups_to_val(gs: &Vec<(SourceType, Vec<String>)>) -> (r: Val)
    ensures
        r.deep_view() == ValV::L(src_groups_items(gs.deep_view())),
{
    let mut items: Vec<Val> = Vec::new();
    let n = gs.len();
    let mut i: usize = 0;
    while i < n
        invariant
            i <= n,
            n == gs.len(),
            val_seq_view(items@) == src_groups_items(gs.deep_view().take(i as int)),
        decreases n - i,
    {
        let ghost pre = items@;
        let item = src_group_to_val(&gs[i]);
        items.push(item);
        proof {
            lemma_val_seq_view_push(pre, item);
            let dv = gs.deep_view();
            assert(dv.take(i as int + 1).drop_last() =~= dv.take(i as int));
            assert(dv.take(i as int + 1).last() == dv[i as int]);
            assert(val_seq_view(items@) =~= src_groups_items(dv.take(i as int + 1)));
        }
        i = i + 1;
    }
    proof {
        assert(gs.deep_view().take(n as int) =~= gs.deep_view());
    }
    Val::L(items)
}

proof fn lemma_items_src_groups_none(items: Seq<ValV>, k: int)
    requires
        0 <= k < items.len(),
        val_src_group(items[k]) is None,
    ensures
        items_src_groups(items) is None,
    decreases items.len(),
{
    if k < items.len() - 1 {
        lemma_items_src_groups_none(items.drop_last(), k);
    }
}

pub fn val_to_src_groups(v: Val) -> (r: Option<Vec<(SourceType, Vec<String>)>>)
    ensures
        match r {
            Some(gs) => val_src_groups(v.deep_view()) == Some(gs.deep_view()),
            None => val_src_groups(v.deep_view()) is None,
        },
{
    match v {
        Val::L(items) => {
            proof {
                crate::doc::lemma_val_seq_view(items@);
            }
            let mut out: Vec<(SourceType, Vec<String>)> = Vec::new();
            let n = items.len();
            let mut i: usize = 0;
            while i < n
                invariant
                    i <= n,
                    n == items.len(),
                    v.deep_view() == ValV::L(val_seq_view(items@)),
                    val_seq_view(items@).len() == n,
                    forall|k: int|
                        0 <= k < n ==> val_seq_view(items@)[k] == crate::doc::val_view(
                            #[trigger] items@[k],
                        ),
                    items_src_groups(val_seq_view(items@).take(i as int)) == Some(out.deep_view()),
                decreases n - i,
            {
                let ghost iv = val_seq_view(items@);
                let ghost pre = out.deep_view();
                let item = clone_val(&items[i]);
                match val_to_src_group(item) {
                    Some(g) => {
                        out.push(g);
                        proof {
                            assert(iv.take(i as int + 1).drop_last() =~= iv.take(i as int));
                            assert(iv.take(i as int + 1).last() == iv[i as int]);
                            assert(out.deep_view() =~= pre.push(out.deep_view().last()));
                        }
                    },
                    None => {
                        proof {
                            lemma_items_src_groups_none(iv, i as int);
                        }
                        return None;
                    },
                }
                i = i + 1;
            }
            proof {
                assert(val_seq_view(items@).take(n as int) =~= val_seq_view(items@));
            }
            Some(out)
        },
        _ => None,
    }
}

// ----- groups of include directories under one visibility -----

pub open spec fn inc_group_val(g: (IncludeType, Seq<Seq<char>>)) -> ValV {
    ValV::L(seq![include_type_val(g.0), strings_val(g.1)])
}

pub open spec fn val_inc_group(v: ValV) -> Option<(IncludeType, Seq<Seq<char>>)> {
    match v {
        ValV::L(items) => if items.len() == 2 {
            match (val_include_type(items[0]), val_strings(items[1])) {
                (Some(t), Some(xs)) => Some((t, xs)),
                _ => None,
            }
        } else {
            None
        },
        _ => None,
    }
}

pub open spec fn inc_groups_items(gs: Seq<(IncludeType, Seq<Seq<char>>)>) -> Seq<ValV>
    decreases gs.len(),
{
    if gs.len() == 0 {
        Seq::empty()
    } else {
        inc_groups_items(gs.drop_last()).push(inc_group_val(gs.last()))
    }
}

pub open spec fn items_inc_groups(items: Seq<ValV>) -> Option<Seq<(IncludeType, Seq<Seq<char>>)>>
    decreases items.len(),
{
    if items.len() == 0 {
        Some(Seq::empty())
    } else {
        match val_inc_group(items.last()) {
            Some(g) => match items_inc_groups(items.drop_last()) {
                Some(r) => Some(r.push(g)),
                None => None,
            },
            None => None,
        }
    }
}

pub open spec fn val_inc_groups(v: ValV) -> Option<Seq<(IncludeType, Seq<Seq<char>>)>> {
    match v {
        ValV::L(items) => items_inc_groups(items),
        _ => None,
    }
}

pub proof fn lemma_inc_groups_inverse(gs: Seq<(IncludeType, Seq<Seq<char>>)>)
    ensures
        val_inc_groups(ValV::L(inc_groups_items(gs))) == Some(gs),
    decreases gs.len(),
{
    if gs.len() == 0 {
        assert(gs =~= Seq::<(IncludeType, Seq<Seq<char>>)>::empty());
    } else {
        lemma_inc_groups_inverse(gs.drop_last());
        let pre = inc_groups_items(gs.drop_last());
        assert(inc_groups_items(gs).last() == inc_group_val(gs.last()));
        assert(inc_groups_items(gs).drop_last() =~= pre);
        lemma_include_type_inverse(gs.last().0);
        lemma_strings_inverse(gs.last().1);
        assert(val_inc_group(inc_group_val(gs.last())) == Some((gs.last().0, gs.last().1)));
        assert((gs.last().0, gs.last().1) == gs.last());
        assert(gs.drop_last().push(gs.last()) =~= gs);
    }
}

fn inc_group_to_val(g: &(IncludeType, Vec<String>)) -> (r: Val)
    ensures
        r.deep_view() == inc_group_val(g.deep_view()),
{
    let mode = include_type_to_val(g.0);
    let dirs = strings_to_val(&g.1);
    let items = vec![mode, dirs];
    proof {
        crate::doc::lemma_val_seq_view(items@);
        assert(val_seq_view(items@) =~= seq![mode.deep_view(), dirs.deep_view()]);
    }
    Val::L(items)
}

fn val_to_inc_group(v: Val) -> (r: Option<(IncludeType, Vec<String>)>)
    ensures
        match r {
            Some(g) => val_inc_group(v.deep_view()) == Some(g.deep_view()),
            None => val_inc_group(v.deep_view()) is None,
        },
{
    match v {
        Val::L(items) => {
            proof {
                crate::doc::lemma_val_seq_view(items@);
            }
            if items.len() == 2 {
                let mut items = items;
                let second = items.pop().unwrap();
                let first = items.pop().unwrap();
                let mode = match val_to_include_type(&first) {
                    Some(t) => t,
                    None => {
                        return None;
                    },
                };
                match val_to_strings(second) {
                    Some(xs) => Some((mode, xs)),
                    None => None,
                }
            } else {
                None
            }
        },
        _ => None,
    }
}

pub fn inc_groups_to_val(gs: &Vec<(IncludeType, Vec<String>)>) -> (r: Val)
    ensures
        r.deep_view() == ValV::L(inc_groups_items(gs.deep_view())),
{
    let mut items: Vec<Val> = Vec::new();
    let n = gs.len();
    let mut i: usize = 0;
    while i < n
        invariant
            i <= n,
            n == gs.len(),
            val_seq_view(items@) == inc_groups_items(gs.deep_view().take(i as int)),
        decreases n - i,
    {
        let ghost pre = items@;
        let item = inc_group_to_val(&gs[i]);
        items.push(item);
        proof {
            lemma_val_seq_view_push(pre, item);
            let dv = gs.deep_view();
            assert(dv.take(i as int + 1).drop_last() =~= dv.take(i as int));
            assert(dv.take(i as int + 1).last() == dv[i as int]);
            assert(val_seq_view(items@) =~= inc_groups_items(dv.take(i as int + 1)));
        }
        i = i + 1;
    }
    proof {
        assert(gs.deep_view().take(n as int) =~= gs.deep_view());
    }
    Val::L(items)
}

proof fn lemma_items_inc_groups_none(items: Seq<ValV>, k: int)
    requires
        0 <= k < items.len(),
        val_inc_group(items[k]) is None,
    ensures
        items_inc_groups(items) is None,
    decreases items.len(),
{
    if k < items.len() - 1 {
        lemma_items_inc_groups_none(items.drop_last(), k);
    }
}

pub fn val_to_inc_groups(v: Val) -> (r: Option<Vec<(IncludeType, Vec<String>)>>)
    ensures
        match r {
            Some(gs) => val_inc_groups(v.deep_view()) == Some(gs.deep_view()),
            None => val_inc_groups(v.deep_view()) is None,
        },
{
    match v {
        Val::L(items) => {
            proof {
                crate::doc::lemma_val_seq_view(items@);
            }
            let mut out: Vec<(IncludeType, Vec<String>)> = Vec::new();
            let n = items.len();
            let mut i: usize = 0;
            while i < n
                invariant
                    i <= n,
                    n == items.len(),
                    v.deep_view() == ValV::L(val_seq_view(items@)),
                    val_seq_view(items@).len() == n,
                    forall|k: int|
                        0 <= k < n ==> val_seq_view(items@)[k] == crate::doc::val_view(
                            #[trigger] items@[k],
                        ),
                    items_inc_groups(val_seq_view(items@).take(i as int)) == Some(out.deep_view()),
                decreases n - i,
            {
                let ghost iv = val_seq_view(items@);
                let ghost pre = out.deep_view();
                let item = clone_val(&items[i]);
                match val_to_inc_group(item) {
                    Some(g) => {
                        out.push(g);
                        proof {
                            assert(iv.take(i as int + 1).drop_last() =~= iv.take(i as int));
                            assert(iv.take(i as int + 1).last() == iv[i as int]);
                            assert(out.deep_view() =~= pre.push(out.deep_view().last()));
                        }
                    },
                    None => {
                        proof {
                            lemma_items_inc_groups_none(iv, i as int);
                        }
                        return None;
                    },
                }
                i = i + 1;
            }
            proof {
                assert(val_seq_view(items@).take(n as int) =~= val_seq_view(items@));
            }
            Some(out)
        },
        _ => None,
    }
}

// ----- the whole file-selection rule -----

pub open spec fn files_val(f: ProjectFilesV) -> ValV {
    ValV::L(
        seq![
            ValV::L(src_groups_items(f.source_files)),
            ValV::L(inc_groups_items(f.include_dirs)),
            strings_val(f.exclude_files),
        ],
    )
}

pub open spec fn val_files(v: ValV) -> Option<ProjectFilesV> {
    match v {
        ValV::L(items) => if items.len() == 3 {
            match (val_src_groups(items[0]), val_inc_groups(items[1]), val_strings(items[2])) {
                (Some(sf), Some(id), Some(ex)) => Some(
                    ProjectFilesV { source_files: sf, include_dirs: id, exclude_files: ex },
                ),
                _ => None,
            }
        } else {
            None
        },
        _ => None,
    }
}

pub proof fn lemma_files_inverse(f: ProjectFilesV)
    ensures
        val_files(files_val(f)) == Some(f),
{
    lemma_src_groups_inverse(f.source_files);
    lemma_inc_groups_inverse(f.include_dirs);
    lemma_strings_inverse(f.exclude_files);
    assert(val_files(files_val(f)) == Some(
        ProjectFilesV {
            source_files: f.source_files,
            include_dirs: f.include_dirs,
            exclude_files: f.exclude_files,
        },
    ));
    assert(ProjectFilesV {
        source_files: f.source_files,
        include_dirs: f.include_dirs,
        exclude_files: f.exclude_files,
    } =~= f);
}

pub fn files_to_val(f: &crate::config::ProjectFiles) -> (r: Val)
    ensures
        r.deep_view() == files_val(f.deep_view()),
{
    let sf = src_groups_to_val(&f.source_files);
    let id = inc_groups_to_val(&f.include_dirs);
    let ex = strings_to_val(&f.exclude_files);
    let items = vec![sf, id, ex];
    proof {
        crate::doc::lemma_val_seq_view(items@);
        assert(val_seq_view(items@) =~= seq![sf.deep_view(), id.deep_view(), ex.deep_view()]);
    }
    Val::L(items)
}

pub fn val_to_files(v: Val) -> (r: Option<crate::config::ProjectFiles>)
    ensures
        match r {
            Some(f) => val_files(v.deep_view()) == Some(f.deep_view()),
            None => val_files(v.deep_view()) is None,
        },
{
    match v {
        Val::L(items) => {
            proof {
                crate::doc::lemma_val_seq_view(items@);
            }
            if items.len() == 3 {
                let mut items = items;
                let third = items.pop().unwrap();
                let second = items.pop().unwrap();
                let first = items.pop().unwrap();
                let sf = match val_to_src_groups(first) {
                    Some(x) => x,
                    None => {
                        return None;
                    },
                };
                let id = match val_to_inc_groups(second) {
                    Some(x) => x,
                    None => {
                        return None;
                    },
                };
                let ex = match val_to_strings(third) {
                    Some(x) => x,
                    None => {
                        return None;
                    },
                };
                Some(crate::config::ProjectFiles { source_files: sf, include_dirs: id, exclude_files: ex })
            } else {
                None
            }
        },
        _ => None,
    }
}



// ----- located (find) dependencies -----

pub open spec fn find_val(f: FindDependencyV) -> ValV {
    ValV::L(seq![ValV::S(f.name), ValV::B(f.required), opt_str_val(f.custom_link_name)])
}

pub open spec fn val_find(v: ValV) -> Option<FindDependencyV> {
    match v {
        ValV::L(items) => if items.len() == 3 {
            match (items[0], items[1], val_opt_str(items[2])) {
                (ValV::S(name), ValV::B(required), Some(link)) => Some(
                    FindDependencyV { name, required, custom_link_name: link },
                ),
                _ => None,
            }
        } else {
            None
        },
        _ => None,
    }
}

pub open spec fn finds_items(fs: Seq<FindDependencyV>) -> Seq<ValV>
    decreases fs.len(),
{
    if fs.len() == 0 {
        Seq::empty()
    } else {
        finds_items(fs.drop_last()).push(find_val(fs.last()))
    }
}

pub open spec fn items_finds(items: Seq<ValV>) -> Option<Seq<FindDependencyV>>
    decreases items.len(),
{
    if items.len() == 0 {
        Some(Seq::empty())
    } else {
        match val_find(items.last()) {
            Some(f) => match items_finds(items.drop_last()) {
                Some(r) => Some(r.push(f)),
                None => None,
            },
            None => None,
        }
    }
}

pub open spec fn val_finds(v: ValV) -> Option<Seq<FindDependencyV>> {
    match v {
        ValV::L(items) => items_finds(items),
        _ => None,
    }
}

pub proof fn lemma_finds_inverse(fs: Seq<FindDependencyV>)
    ensures
        val_finds(ValV::L(finds_items(fs))) == Some(fs),
    decreases fs.len(),
{
    if fs.len() == 0 {
        assert(fs =~= Seq::<FindDependencyV>::empty());
    } else {
        lemma_finds_inverse(fs.drop_last());
        let pre = finds_items(fs.drop_last());
        assert(finds_items(fs).last() == find_val(fs.last()));
        assert(finds_items(fs).drop_last() =~= pre);
        lemma_opt_str_inverse(fs.last().custom_link_name);
        assert(val_find(find_val(fs.last())) == Some(
            FindDependencyV {
                name: fs.last().name,
                required: fs.last().required,
                custom_link_name: fs.last().custom_link_name,
            },
        ));
        assert(FindDependencyV {
            name: fs.last().name,
            required: fs.last().required,
            custom_link_name: fs.last().custom_link_name,
        } =~= fs.last());
        assert(fs.drop_last().push(fs.last()) =~= fs);
    }
}

fn find_to_val(f: &crate::config::FindDependency) -> (r: Val)
    ensures
        r.deep_view() == find_val(f.deep_view()),
{
    let name = Val::S(f.name.clone());
    let required = Val::B(f.required);
    let link = opt_str_to_val(&f.custom_link_name);
    let items = vec![name, required, link];
    proof {
        crate::doc::lemma_val_seq_view(items@);
        assert(val_seq_view(items@) =~= seq![
            name.deep_view(),
            required.deep_view(),
            link.deep_view(),
        ]);
    }
    Val::L(items)
}

fn val_to_find(v: Val) -> (r: Option<crate::config::FindDependency>)
    ensures
        match r {
            Some(f) => val_find(v.deep_view()) == Some(f.deep_view()),
            None => val_find(v.deep_view()) is None,
        },
{
    match v {
        Val::L(items) => {
            proof {
                crate::doc::lemma_val_seq_view(items@);
            }
            if items.len() == 3 {
                let mut items = items;
                let third = items.pop().unwrap();
                let second = items.pop().unwrap();
                let first = items.pop().unwrap();
                let name = match first {
                    Val::S(x) => x,
                    _ => {
                        return None;
                    },
                };
                let required = match second {
                    Val::B(b) => b,
                    _ => {
                        return None;
                    },
                };
                let link = match val_to_opt_str(third) {
                    Some(o) => o,
                    None => {
                        return None;
                    },
                };
                Some(crate::config::FindDependency { name, required, custom_link_name: link })
            } else {
                None
            }
        },
        _ => None,
    }
}

pub fn finds_to_val(fs: &Vec<crate::config::FindDependency>) -> (r: Val)
    ensures
        r.deep_view() == ValV::L(finds_items(fs.deep_view())),
{
    let mut items: Vec<Val> = Vec::new();
    let n = fs.len();
    let mut i: usize = 0;
    while i < n
        invariant
            i <= n,
            n == fs.len(),
            val_seq_view(items@) == finds_items(fs.deep_view().take(i as int)),
        decreases n - i,
    {
        let ghost pre = items@;
        let item = find_to_val(&fs[i]);
        items.push(item);
        proof {
            lemma_val_seq_view_push(pre, item);
            let dv = fs.deep_view();
            assert(dv.take(i as int + 1).drop_last() =~= dv.take(i as int));
            assert(dv.take(i as int + 1).last() == dv[i as int]);
            assert(val_seq_view(items@) =~= finds_items(dv.take(i as int + 1)));
        }
        i = i + 1;
    }
    proof {
        assert(fs.deep_view().take(n as int) =~= fs.deep_view());
    }
    Val::L(items)
}

proof fn lemma_items_finds_none(items: Seq<ValV>, k: int)
    requires
        0 <= k < items.len(),
        val_find(items[k]) is None,
    ensures
        items_finds(items) is None,
    decreases items.len(),
{
    if k < items.len() - 1 {
        lemma_items_finds_none(items.drop_last(), k);
    }
}

pub fn val_to_finds(v: Val) -> (r: Option<Vec<crate::config::FindDependency>>)
    ensures
        match r {
            Some(fs) => val_finds(v.deep_view()) == Some(fs.deep_view()),
            None => val_finds(v.deep_view()) is None,
        },
{
    match v {
        Val::L(items) => {
            proof {
                crate::doc::lemma_val_seq_view(items@);
            }
            let mut out: Vec<crate::config::FindDependency> = Vec::new();
            let n = items.len();
            let mut i: usize = 0;
            while i < n
                invariant
                    i <= n,
                    n == items.len(),
                    v.deep_view() == ValV::L(val_seq_view(items@)),
                    val_seq_view(items@).len() == n,
                    forall|k: int|
                        0 <= k < n ==> val_seq_view(items@)[k] == crate::doc::val_view(
                            #[trigger] items@[k],
                        ),
                    items_finds(val_seq_view(items@).take(i as int)) == Some(out.deep_view()),
                decreases n - i,
            {
                let ghost iv = val_seq_view(items@);
                let ghost pre = out.deep_view();
                let item = clone_val(&items[i]);
                match val_to_find(item) {
                    Some(f) => {
                        out.push(f);
                        proof {
                            assert(iv.take(i as int + 1).drop_last() =~= iv.take(i as int));
                            assert(iv.take(i as int + 1).last() == iv[i as int]);
                            assert(out.deep_view() =~= pre.push(out.deep_view().last()));
                        }
                    },
                    None => {
                        proof {
                            lemma_items_finds_none(iv, i as int);
                        }
                        return None;
                    },
                }
                i = i + 1;
            }
            proof {
                assert(val_seq_view(items@).take(n as int) =~= val_seq_view(items@));
            }
            Some(out)
        },
        _ => None,
    }
}

// ----- the kind of a local dependency -----

pub open spec fn local_type_val(t: LocalTypeV) -> ValV {
    match t {
        LocalTypeV::CMake => ValV::L(seq![ValV::S("cmake"@)]),
        LocalTypeV::Source { files, dependencies } => ValV::L(
            seq![ValV::S("source"@), files_val(files), strings_val(dependencies)],
        ),
    }
}

pub open spec fn val_local_type(v: ValV) -> Option<LocalTypeV> {
    match v {
        ValV::L(items) => if items.len() == 1 && items[0] == ValV::S("cmake"@) {
            Some(LocalTypeV::CMake)
        } else if items.len() == 3 && items[0] == ValV::S("source"@) {
            match (val_files(items[1]), val_strings(items[2])) {
                (Some(f), Some(deps)) => Some(LocalTypeV::Source { files: f, dependencies: deps }),
                _ => None,
            }
        } else {
            None
        },
        _ => None,
    }
}

pub proof fn lemma_local_type_inverse(t: LocalTypeV)
    ensures
        val_local_type(local_type_val(t)) == Some(t),
{
    match t {
        LocalTypeV::CMake => {},
        LocalTypeV::Source { files, dependencies } => {
            lemma_files_inverse(files);
            lemma_strings_inverse(dependencies);
        },
    }
}

fn local_type_to_val(t: &crate::config::LocalType) -> (r: Val)
    ensures
        r.deep_view() == local_type_val(t.deep_view()),
{
    match t {
        crate::config::LocalType::CMake => {
            let items = vec![Val::S(String::from_str("cmake"))];
            proof {
                crate::doc::lemma_val_seq_view(items@);
                assert(val_seq_view(items@) =~= seq![ValV::S("cmake"@)]);
            }
            Val::L(items)
        },
        crate::config::LocalType::Source { files, dependencies } => {
            let tag = Val::S(String::from_str("source"));
            let f = files_to_val(files);
            let deps = strings_to_val(dependencies);
            let items = vec![tag, f, deps];
            proof {
                crate::doc::lemma_val_seq_view(items@);
                assert(val_seq_view(items@) =~= seq![
                    tag.deep_view(),
                    f.deep_view(),
                    deps.deep_view(),
                ]);
            }
            Val::L(items)
        },
    }
}

fn val_to_local_type(v: Val) -> (r: Option<crate::config::LocalType>)
    ensures
        match r {
            Some(t) => val_local_type(v.deep_view()) == Some(t.deep_view()),
            None => val_local_type(v.deep_view()) is None,
        },
{
    match v {
        Val::L(items) => {
            proof {
                crate::doc::lemma_val_seq_view(items@);
            }
            if items.len() == 1 {
                let is_cmake = match &items[0] {
                    Val::S(x) => crate::text::str_eq(x.as_str(), "cmake"),
                    _ => false,
                };
                if is_cmake {
                    Some(crate::config::LocalType::CMake)
                } else {
                    None
                }
            } else if items.len() == 3 {
                let mut items = items;
                let third = items.pop().unwrap();
                let second = items.pop().unwrap();
                let first = items.pop().unwrap();
                let is_source = match &first {
                    Val::S(x) => crate::text::str_eq(x.as_str(), "source"),
                    _ => false,
                };
                if !is_source {
                    return None;
                }
                let f = match val_to_files(second) {
                    Some(x) => x,
                    None => {
                        return None;
                    },
                };
                let deps = match val_to_strings(third) {
                    Some(x) => x,
                    None => {
                        return None;
                    },
                };
                Some(crate::config::LocalType::Source { files: f, dependencies: deps })
            } else {
                None
            }
        },
        _ => None,
    }
}

// ----- local dependencies -----

pub open spec fn local_val(l: LocalDependencyV) -> ValV {
    ValV::L(
        seq![
            ValV::S(l.path),
            ValV::S(l.name),
            local_type_val(l.local_type),
            ValV::L(vars_items(l.variables)),
        ],
    )
}

pub open spec fn val_local(v: ValV) -> Option<LocalDependencyV> {
    match v {
        ValV::L(items) => if items.len() == 4 {
            match (items[0], items[1], val_local_type(items[2]), val_vars(items[3])) {
                (ValV::S(path), ValV::S(name), Some(t), Some(vars)) => Some(
                    LocalDependencyV { path, name, local_type: t, variables: vars },
                ),
                _ => None,
            }
        } else {
            None
        },
        _ => None,
    }
}

pub open spec fn locals_items(ls: Seq<LocalDependencyV>) -> Seq<ValV>
    decreases ls.len(),
{
    if ls.len() == 0 {
        Seq::empty()
    } else {
        locals_items(ls.drop_last()).push(local_val(ls.last()))
    }
}

pub open spec fn items_locals(items: Seq<ValV>) -> Option<Seq<LocalDependencyV>>
    decreases items.len(),
{
    if items.len() == 0 {
        Some(Seq::empty())
    } else {
        match val_local(items.last()) {
            Some(l) => match items_locals(items.drop_last()) {
                Some(r) => Some(r.push(l)),
                None => None,
            },
            None => None,
        }
    }
}

pub open spec fn val_locals(v: ValV) -> Option<Seq<LocalDependencyV>> {
    match v {
        ValV::L(items) => items_locals(items),
        _ => None,
    }
}

pub proof fn lemma_local_inverse(l: LocalDependencyV)
    ensures
        val_local(local_val(l)) == Some(l),
{
    lemma_local_type_inverse(l.local_type);
    lemma_vars_inverse(l.variables);
    assert(val_local(local_val(l)) == Some(
        LocalDependencyV {
            path: l.path,
            name: l.name,
            local_type: l.local_type,
            variables: l.variables,
        },
    ));
    assert(LocalDependencyV {
        path: l.path,
        name: l.name,
        local_type: l.local_type,
        variables: l.variables,
    } =~= l);
}

pub proof fn lemma_locals_inverse(ls: Seq<LocalDependencyV>)
    ensures
        val_locals(ValV::L(locals_items(ls))) == Some(ls),
    decreases ls.len(),
{
    if ls.len() == 0 {
        assert(ls =~= Seq::<LocalDependencyV>::empty());
    } else {
        lemma_locals_inverse(ls.drop_last());
        let pre = locals_items(ls.drop_last());
        assert(locals_items(ls).last() == local_val(ls.last()));
        assert(locals_items(ls).drop_last() =~= pre);
        lemma_local_inverse(ls.last());
        assert(ls.drop_last().push(ls.last()) =~= ls);
    }
}

pub fn local_to_val(l: &crate::config::LocalDependency) -> (r: Val)
    ensures
        r.deep_view() == local_val(l.deep_view()),
{
    let path = Val::S(l.path.clone());
    let name = Val::S(l.name.clone());
    let t = local_type_to_val(&l.local_type);
    let vars = vars_to_val(&l.variables);
    let items = vec![path, name, t, vars];
    proof {
        crate::doc::lemma_val_seq_view(items@);
        assert(val_seq_view(items@) =~= seq![
            path.deep_view(),
            name.deep_view(),
            t.deep_view(),
            vars.deep_view(),
        ]);
    }
    Val::L(items)
}

pub fn val_to_local(v: Val) -> (r: Option<crate::config::LocalDependency>)
    ensures
        match r {
            Some(l) => val_local(v.deep_view()) == Some(l.deep_view()),
            None => val_local(v.deep_view()) is None,
        },
{
    match v {
        Val::L(items) => {
            proof {
                crate::doc::lemma_val_seq_view(items@);
            }
            if items.len() == 4 {
                let mut items = items;
                let fourth = items.pop().unwrap();
                let third = items.pop().unwrap();
                let second = items.pop().unwrap();
                let first = items.pop().unwrap();
                let path = match first {
                    Val::S(x) => x,
                    _ => {
                        return None;
                    },
                };
                let name = match second {
                    Val::S(x) => x,
                    _ => {
                        return None;
                    },
                };
                let t = match val_to_local_type(third) {
                    Some(x) => x,
                    None => {
                        return None;
                    },
                };
                let vars = match val_to_vars(fourth) {
                    Some(x) => x,
                    None => {
                        return None;
                    },
                };
                Some(crate::config::LocalDependency { path, name, local_type: t, variables: vars })
            } else {
                None
            }
        },
        _ => None,
    }
}

pub fn locals_to_val(ls: &Vec<crate::config::LocalDependency>) -> (r: Val)
    ensures
        r.deep_view() == ValV::L(locals_items(ls.deep_view())),
{
    let mut items: Vec<Val> = Vec::new();
    let n = ls.len();
    let mut i: usize = 0;
    while i < n
        invariant
            i <= n,
            n == ls.len(),
            val_seq_view(items@) == locals_items(ls.deep_view().take(i as int)),
        decreases n - i,
    {
        let ghost pre = items@;
        let item = local_to_val(&ls[i]);
        items.push(item);
        proof {
            lemma_val_seq_view_push(pre, item);
            let dv = ls.deep_view();
            assert(dv.take(i as int + 1).drop_last() =~= dv.take(i as int));
            assert(dv.take(i as int + 1).last() == dv[i as int]);
            assert(val_seq_view(items@) =~= locals_items(dv.take(i as int + 1)));
        }
        i = i + 1;
    }
    proof {
        assert(ls.deep_view().take(n as int) =~= ls.deep_view());
    }
    Val::L(items)
}

proof fn lemma_items_locals_none(items: Seq<ValV>, k: int)
    requires
        0 <= k < items.len(),
        val_local(items[k]) is None,
    ensures
        items_locals(items) is None,
    decreases items.len(),
{
    if k < items.len() - 1 {
        lemma_items_locals_none(items.drop_last(), k);
    }
}

pub fn val_to_locals(v: Val) -> (r: Option<Vec<crate::config::LocalDependency>>)
    ensures
        match r {
            Some(ls) => val_locals(v.deep_view()) == Some(ls.deep_view()),
            None => val_locals(v.deep_view()) is None,
        },
{
    match v {
        Val::L(items) => {
            proof {
                crate::doc::lemma_val_seq_view(items@);
            }
            let mut out: Vec<crate::config::LocalDependency> = Vec::new();
            let n = items.len();
            let mut i: usize = 0;
            while i < n
                invariant
                    i <= n,
                    n == items.len(),
                    v.deep_view() == ValV::L(val_seq_view(items@)),
                    val_seq_view(items@).len() == n,
                    forall|k: int|
                        0 <= k < n ==> val_seq_view(items@)[k] == crate::doc::val_view(
                            #[trigger] items@[k],
                        ),
                    items_locals(val_seq_view(items@).take(i as int)) == Some(out.deep_view()),
                decreases n - i,
            {
                let ghost iv = val_seq_view(items@);
                let ghost pre = out.deep_view();
                let item = clone_val(&items[i]);
                match val_to_local(item) {
                    Some(l) => {
                        out.push(l);
                        proof {
                            assert(iv.take(i as int + 1).drop_last() =~= iv.take(i as int));
                            assert(iv.take(i as int + 1).last() == iv[i as int]);
                            assert(out.deep_view() =~= pre.push(out.deep_view().last()));
                        }
                    },
                    None => {
                        proof {
                            lemma_items_locals_none(iv, i as int);
                        }
                        return None;
                    },
                }
                i = i + 1;
            }
            proof {
                assert(val_seq_view(items@).take(n as int) =~= val_seq_view(items@));
            }
            Some(out)
        },
        _ => None,
    }
}

// ----- cached git submodules -----

pub open spec fn submodule_val(g: GitSubmoduleV) -> ValV {
    ValV::L(
        seq![
            ValV::S(g.repo),
            opt_str_val(g.tag),
            opt_str_val(g.branch),
            local_val(g.local_setup),
        ],
    )
}

pub open spec fn val_submodule(v: ValV) -> Option<GitSubmoduleV> {
    match v {
        ValV::L(items) => if items.len() == 4 {
            match (items[0], val_opt_str(items[1]), val_opt_str(items[2]), val_local(items[3])) {
                (ValV::S(repo), Some(tag), Some(branch), Some(setup)) => Some(
                    GitSubmoduleV { repo, tag, branch, local_setup: setup },
                ),
                _ => None,
            }
        } else {
            None
        },
        _ => None,
    }
}

pub proof fn lemma_submodule_inverse(g: GitSubmoduleV)
    ensures
        val_submodule(submodule_val(g)) == Some(g),
{
    lemma_opt_str_inverse(g.tag);
    lemma_opt_str_inverse(g.branch);
    lemma_local_inverse(g.local_setup);
    assert(val_submodule(submodule_val(g)) == Some(
        GitSubmoduleV {
            repo: g.repo,
            tag: g.tag,
            branch: g.branch,
            local_setup: g.local_setup,
        },
    ));
    assert(GitSubmoduleV {
        repo: g.repo,
        tag: g.tag,
        branch: g.branch,
        local_setup: g.local_setup,
    } =~= g);
}

pub fn submodule_to_val(g: &crate::config::GitSubmodule) -> (r: Val)
    ensures
        r.deep_view() == submodule_val(g.deep_view()),
{
    let repo = Val::S(g.repo.clone());
    let tag = opt_str_to_val(&g.tag);
    let branch = opt_str_to_val(&g.branch);
    let setup = local_to_val(&g.local_setup);
    let items = vec![repo, tag, branch, setup];
    proof {
        crate::doc::lemma_val_seq_view(items@);
        assert(val_seq_view(items@) =~= seq![
            repo.deep_view(),
            tag.deep_view(),
            branch.deep_view(),
            setup.deep_view(),
        ]);
    }
    Val::L(items)
}

pub fn val_to_submodule(v: Val) -> (r: Option<crate::config::GitSubmodule>)
    ensures
        match r {
            Some(g) => val_submodule(v.deep_view()) == Some(g.deep_view()),
            None => val_submodule(v.deep_view()) is None,
        },
{
    match v {
        Val::L(items) => {
            proof {
                crate::doc::lemma_val_seq_view(items@);
            }
            if items.len() == 4 {
                let mut items = items;
                let fourth = items.pop().unwrap();
                let third = items.pop().unwrap();
                let second = items.pop().unwrap();
                let first = items.pop().unwrap();
                let repo = match first {
                    Val::S(x) => x,
                    _ => {
                        return None;
                    },
                };
                let tag = match val_to_opt_str(second) {
                    Some(o) => o,
                    None => {
                        return None;
                    },
                };
                let branch = match val_to_opt_str(third) {
                    Some(o) => o,
                    None => {
                        return None;
                    },
                };
                let setup = match val_to_local(fourth) {
                    Some(l) => l,
                    None => {
                        return None;
                    },
                };
                Some(crate::config::GitSubmodule { repo, tag, branch, local_setup: setup })
            } else {
                None
            }
        },
        _ => None,
    }
}

pub open spec fn entry_val(e: CacheSubmoduleV) -> ValV {
    ValV::L(seq![ValV::S(e.name), submodule_val(e.submodule)])
}

pub open spec fn val_entry(v: ValV) -> Option<CacheSubmoduleV> {
    match v {
        ValV::L(items) => if items.len() == 2 {
            match (items[0], val_submodule(items[1])) {
                (ValV::S(name), Some(g)) => Some(CacheSubmoduleV { name, submodule: g }),
                _ => None,
            }
        } else {
            None
        },
        _ => None,
    }
}

pub open spec fn entries_items(es: Seq<CacheSubmoduleV>) -> Seq<ValV>
    decreases es.len(),
{
    if es.len() == 0 {
        Seq::empty()
    } else {
        entries_items(es.drop_last()).push(entry_val(es.last()))
    }
}

pub open spec fn items_entries(items: Seq<ValV>) -> Option<Seq<CacheSubmoduleV>>
    decreases items.len(),
{
    if items.len() == 0 {
        Some(Seq::empty())
    } else {
        match val_entry(items.last()) {
            Some(e) => match items_entries(items.drop_last()) {
                Some(r) => Some(r.push(e)),
                None => None,
            },
            None => None,
        }
    }
}

pub open spec fn val_entries(v: ValV) -> Option<Seq<CacheSubmoduleV>> {
    match v {
        ValV::L(items) => items_entries(items),
        _ => None,
    }
}

pub proof fn lemma_entries_inverse(es: Seq<CacheSubmoduleV>)
    ensures
        val_entries(ValV::L(entries_items(es))) == Some(es),
    decreases es.len(),
{
    if es.len() == 0 {
        assert(es =~= Seq::<CacheSubmoduleV>::empty());
    } else {
        lemma_entries_inverse(es.drop_last());
        let pre = entries_items(es.drop_last());
        assert(entries_items(es).last() == entry_val(es.last()));
        assert(entries_items(es).drop_last() =~= pre);
        lemma_submodule_inverse(es.last().submodule);
        assert(val_entry(entry_val(es.last())) == Some(
            CacheSubmoduleV { name: es.last().name, submodule: es.last().submodule },
        ));
        assert(CacheSubmoduleV { name: es.last().name, submodule: es.last().submodule }
            =~= es.last());
        assert(es.drop_last().push(es.last()) =~= es);
    }
}

fn entry_to_val(e: &crate::config::CacheSubmodule) -> (r: Val)
    ensures
        r.deep_view() == entry_val(e.deep_view()),
{
    let name = Val::S(e.name.clone());
    let sub = submodule_to_val(&e.submodule);
    let items = vec![name, sub];
    proof {
        crate::doc::lemma_val_seq_view(items@);
        assert(val_seq_view(items@) =~= seq![name.deep_view(), sub.deep_view()]);
    }
    Val::L(items)
}

fn val_to_entry(v: Val) -> (r: Option<crate::config::CacheSubmodule>)
    ensures
        match r {
            Some(e) => val_entry(v.deep_view()) == Some(e.deep_view()),
            None => val_entry(v.deep_view()) is None,
        },
{
    match v {
        Val::L(items) => {
            proof {
                crate::doc::lemma_val_seq_view(items@);
            }
            if items.len() == 2 {
                let mut items = items;
                let second = items.pop().unwrap();
                let first = items.pop().unwrap();
                let name = match first {
                    Val::S(x) => x,
                    _ => {
                        return None;
                    },
                };
                let sub = match val_to_submodule(second) {
                    Some(g) => g,
                    None => {
                        return None;
                    },
                };
                Some(crate::config::CacheSubmodule { name, submodule: sub })
            } else {
                None
            }
        },
        _ => None,
    }
}

pub fn entries_to_val(es: &Vec<crate::config::CacheSubmodule>) -> (r: Val)
    ensures
        r.deep_view() == ValV::L(entries_items(es.deep_view())),
{
    let mut items: Vec<Val> = Vec::new();
    let n = es.len();
    let mut i: usize = 0;
    while i < n
        invariant
            i <= n,
            n == es.len(),
            val_seq_view(items@) == entries_items(es.deep_view().take(i as int)),
        decreases n - i,
    {
        let ghost pre = items@;
        let item = entry_to_val(&es[i]);
        items.push(item);
        proof {
            lemma_val_seq_view_push(pre, item);
            let dv = es.deep_view();
            assert(dv.take(i as int + 1).drop_last() =~= dv.take(i as int));
            assert(dv.take(i as int + 1).last() == dv[i as int]);
            assert(val_seq_view(items@) =~= entries_items(dv.take(i as int + 1)));
        }
        i = i + 1;
    }
    proof {
        assert(es.deep_view().take(n as int) =~= es.deep_view());
    }
    Val::L(items)
}

proof fn lemma_items_entries_none(items: Seq<ValV>, k: int)
    requires
        0 <= k < items.len(),
        val_entry(items[k]) is None,
    ensures
        items_entries(items) is None,
    decreases items.len(),
{
    if k < items.len() - 1 {
        lemma_items_entries_none(items.drop_last(), k);
    }
}

pub fn val_to_entries(v: Val) -> (r: Option<Vec<crate::config::CacheSubmodule>>)
    ensures
        match r {
            Some(es) => val_entries(v.deep_view()) == Some(es.deep_view()),
            None => val_entries(v.deep_view()) is None,
        },
{
    match v {
        Val::L(items) => {
            proof {
                crate::doc::lemma_val_seq_view(items@);
            }
            let mut out: Vec<crate::config::CacheSubmodule> = Vec::new();
            let n = items.len();
            let mut i: usize = 0;
            while i < n
                invariant
                    i <= n,
                    n == items.len(),
                    v.deep_view() == ValV::L(val_seq_view(items@)),
                    val_seq_view(items@).len() == n,
                    forall|k: int|
                        0 <= k < n ==> val_seq_view(items@)[k] == crate::doc::val_view(
                            #[trigger] items@[k],
                        ),
                    items_entries(val_seq_view(items@).take(i as int)) == Some(out.deep_view()),
                decreases n - i,
            {
                let ghost iv = val_seq_view(items@);
                let ghost pre = out.deep_view();
                let item = clone_val(&items[i]);
                match val_to_entry(item) {
                    Some(e) => {
                        out.push(e);
                        proof {
                            assert(iv.take(i as int + 1).drop_last() =~= iv.take(i as int));
                            assert(iv.take(i as int + 1).last() == iv[i as int]);
                            assert(out.deep_view() =~= pre.push(out.deep_view().last()));
                        }
                    },
                    None => {
                        proof {
                            lemma_items_entries_none(iv, i as int);
                        }
                        return None;
                    },
                }
                i = i + 1;
            }
            proof {
                assert(val_seq_view(items@).take(n as int) =~= val_seq_view(items@));
            }
            Some(out)
        },
        _ => None,
    }
}



// ---------------------------------------------------------------------------
// Every encoding is well formed: the only decimals a document holds stand in
// the two version fields.
// ---------------------------------------------------------------------------

use crate::doc::{items_wf, val_wf};

pub proof fn lemma_strings_val_wf(xs: Seq<Seq<char>>)
    ensures
        val_wf(strings_val(xs)),
        items_wf(strings_items(xs)),
    decreases xs.len(),
{
    if xs.len() > 0 {
        lemma_strings_val_wf(xs.drop_last());
        let pre = strings_items(xs.drop_last());
        assert forall|k: int| 0 <= k < strings_items(xs).len() implies val_wf(
            #[trigger] strings_items(xs)[k],
        ) by {
            if k < pre.len() {
                assert(strings_items(xs)[k] == pre[k]);
            } else {
                assert(strings_items(xs)[k] == ValV::S(xs.last()));
            }
        }
    }
}

pub proof fn lemma_opt_str_val_wf(o: Option<Seq<char>>)
    ensures
        val_wf(opt_str_val(o)),
{
    match o {
        None => {
            assert(items_wf(Seq::<ValV>::empty()));
        },
        Some(x) => {
            assert forall|k: int| 0 <= k < 1 implies val_wf(#[trigger] seq![ValV::S(x)][k]) by {
                assert(seq![ValV::S(x)][k] == ValV::S(x));
            }
        },
    }
}

pub proof fn lemma_vars_val_wf(ps: Seq<(Seq<char>, Seq<char>)>)
    ensures
        items_wf(vars_items(ps)),
        val_wf(ValV::L(vars_items(ps))),
    decreases ps.len(),
{
    if ps.len() > 0 {
        lemma_vars_val_wf(ps.drop_last());
        let pre = vars_items(ps.drop_last());
        let lastv = var_val(ps.last());
        assert(val_wf(lastv)) by {
            let items = seq![ValV::S(ps.last().0), ValV::S(ps.last().1)];
            assert forall|k: int| 0 <= k < 2 implies val_wf(#[trigger] items[k]) by {
                if k == 0 {
                    assert(items[k] == ValV::S(ps.last().0));
                } else {
                    assert(items[k] == ValV::S(ps.last().1));
                }
            }
        }
        assert forall|k: int| 0 <= k < vars_items(ps).len() implies val_wf(
            #[trigger] vars_items(ps)[k],
        ) by {
            if k < pre.len() {
                assert(vars_items(ps)[k] == pre[k]);
            } else {
                assert(vars_items(ps)[k] == lastv);
            }
        }
    }
}

pub proof fn lemma_src_groups_val_wf(gs: Seq<(SourceType, Seq<Seq<char>>)>)
    ensures
        items_wf(src_groups_items(gs)),
    decreases gs.len(),
{
    if gs.len() > 0 {
        lemma_src_groups_val_wf(gs.drop_last());
        let pre = src_groups_items(gs.drop_last());
        let lastv = src_group_val(gs.last());
        assert(val_wf(lastv)) by {
            lemma_strings_val_wf(gs.last().1);
            let items = seq![source_type_val(gs.last().0), strings_val(gs.last().1)];
            assert forall|k: int| 0 <= k < 2 implies val_wf(#[trigger] items[k]) by {
                if k == 0 {
                    assert(items[k] == source_type_val(gs.last().0));
                    assert(val_wf(source_type_val(gs.last().0)));
                } else {
                    assert(items[k] == strings_val(gs.last().1));
                }
            }
        }
        assert forall|k: int| 0 <= k < src_groups_items(gs).len() implies val_wf(
            #[trigger] src_groups_items(gs)[k],
        ) by {
            if k < pre.len() {
                assert(src_groups_items(gs)[k] == pre[k]);
            } else {
                assert(src_groups_items(gs)[k] == lastv);
            }
        }
    }
}

pub proof fn lemma_inc_groups_val_wf(gs: Seq<(IncludeType, Seq<Seq<char>>)>)
    ensures
        items_wf(inc_groups_items(gs)),
    decreases gs.len(),
{
    if gs.len() > 0 {
        lemma_inc_groups_val_wf(gs.drop_last());
        let pre = inc_groups_items(gs.drop_last());
        let lastv = inc_group_val(gs.last());
        assert(val_wf(lastv)) by {
            lemma_strings_val_wf(gs.last().1);
            let items = seq![include_type_val(gs.last().0), strings_val(gs.last().1)];
            assert forall|k: int| 0 <= k < 2 implies val_wf(#[trigger] items[k]) by {
                if k == 0 {
                    assert(items[k] == include_type_val(gs.last().0));
                    assert(val_wf(include_type_val(gs.last().0)));
                } else {
                    assert(items[k] == strings_val(gs.last().1));
                }
            }
        }
        assert forall|k: int| 0 <= k < inc_groups_items(gs).len() implies val_wf(
            #[trigger] inc_groups_items(gs)[k],
        ) by {
            if k < pre.len() {
                assert(inc_groups_items(gs)[k] == pre[k]);
            } else {
                assert(inc_groups_items(gs)[k] == lastv);
            }
        }
    }
}

pub proof fn lemma_files_val_wf(f: ProjectFilesV)
    ensures
        val_wf(files_val(f)),
{
    lemma_src_groups_val_wf(f.source_files);
    lemma_inc_groups_val_wf(f.include_dirs);
    lemma_strings_val_wf(f.exclude_files);
    let items = seq![
        ValV::L(src_groups_items(f.source_files)),
        ValV::L(inc_groups_items(f.include_dirs)),
        strings_val(f.exclude_files),
    ];
    assert forall|k: int| 0 <= k < 3 implies val_wf(#[trigger] items[k]) by {
        if k == 0 {
            assert(items[k] == ValV::L(src_groups_items(f.source_files)));
        } else if k == 1 {
            assert(items[k] == ValV::L(inc_groups_items(f.include_dirs)));
        } else {
            assert(items[k] == strings_val(f.exclude_files));
        }
    }
}

pub proof fn lemma_finds_val_wf(fs: Seq<FindDependencyV>)
    ensures
        items_wf(finds_items(fs)),
    decreases fs.len(),
{
    if fs.len() > 0 {
        lemma_finds_val_wf(fs.drop_last());
        let pre = finds_items(fs.drop_last());
        let lastv = find_val(fs.last());
        assert(val_wf(lastv)) by {
            lemma_opt_str_val_wf(fs.last().custom_link_name);
            let items = seq![
                ValV::S(fs.last().name),
                ValV::B(fs.last().required),
                opt_str_val(fs.last().custom_link_name),
            ];
            assert forall|k: int| 0 <= k < 3 implies val_wf(#[trigger] items[k]) by {
                if k == 0 {
                    assert(items[k] == ValV::S(fs.last().name));
                } else if k == 1 {
                    assert(items[k] == ValV::B(fs.last().required));
                } else {
                    assert(items[k] == opt_str_val(fs.last().custom_link_name));
                }
            }
        }
        assert forall|k: int| 0 <= k < finds_items(fs).len() implies val_wf(
            #[trigger] finds_items(fs)[k],
        ) by {
            if k < pre.len() {
                assert(finds_items(fs)[k] == pre[k]);
            } else {
                assert(finds_items(fs)[k] == lastv);
            }
        }
    }
}

pub proof fn lemma_local_type_val_wf(t: LocalTypeV)
    ensures
        val_wf(local_type_val(t)),
{
    match t {
        LocalTypeV::CMake => {
            let items = seq![ValV::S("cmake"@)];
            assert forall|k: int| 0 <= k < 1 implies val_wf(#[trigger] items[k]) by {
                assert(items[k] == ValV::S("cmake"@));
            }
        },
        LocalTypeV::Source { files, dependencies } => {
            lemma_files_val_wf(files);
            lemma_strings_val_wf(dependencies);
            let items = seq![ValV::S("source"@), files_val(files), strings_val(dependencies)];
            assert forall|k: int| 0 <= k < 3 implies val_wf(#[trigger] items[k]) by {
                if k == 0 {
                    assert(items[k] == ValV::S("source"@));
                } else if k == 1 {
                    assert(items[k] == files_val(files));
                } else {
                    assert(items[k] == strings_val(dependencies));
                }
            }
        },
    }
}

pub proof fn lemma_local_val_wf(l: LocalDependencyV)
    ensures
        val_wf(local_val(l)),
{
    lemma_local_type_val_wf(l.local_type);
    lemma_vars_val_wf(l.variables);
    let items = seq![
        ValV::S(l.path),
        ValV::S(l.name),
        local_type_val(l.local_type),
        ValV::L(vars_items(l.variables)),
    ];
    assert forall|k: int| 0 <= k < 4 implies val_wf(#[trigger] items[k]) by {
        if k == 0 {
            assert(items[k] == ValV::S(l.path));
        } else if k == 1 {
            assert(items[k] == ValV::S(l.name));
        } else if k == 2 {
            assert(items[k] == local_type_val(l.local_type));
        } else {
            assert(items[k] == ValV::L(vars_items(l.variables)));
        }
    }
}

pub proof fn lemma_locals_val_wf(ls: Seq<LocalDependencyV>)
    ensures
        items_wf(locals_items(ls)),
    decreases ls.len(),
{
    if ls.len() > 0 {
        lemma_locals_val_wf(ls.drop_last());
        let pre = locals_items(ls.drop_last());
        let lastv = local_val(ls.last());
        lemma_local_val_wf(ls.last());
        assert forall|k: int| 0 <= k < locals_items(ls).len() implies val_wf(
            #[trigger] locals_items(ls)[k],
        ) by {
            if k < pre.len() {
                assert(locals_items(ls)[k] == pre[k]);
            } else {
                assert(locals_items(ls)[k] == lastv);
            }
        }
    }
}

pub proof fn lemma_submodule_val_wf(g: GitSubmoduleV)
    ensures
        val_wf(submodule_val(g)),
{
    lemma_opt_str_val_wf(g.tag);
    lemma_opt_str_val_wf(g.branch);
    lemma_local_val_wf(g.local_setup);
    let items = seq![
        ValV::S(g.repo),
        opt_str_val(g.tag),
        opt_str_val(g.branch),
        local_val(g.local_setup),
    ];
    assert forall|k: int| 0 <= k < 4 implies val_wf(#[trigger] items[k]) by {
        if k == 0 {
            assert(items[k] == ValV::S(g.repo));
        } else if k == 1 {
            assert(items[k] == opt_str_val(g.tag));
        } else if k == 2 {
            assert(items[k] == opt_str_val(g.branch));
        } else {
            assert(items[k] == local_val(g.local_setup));
        }
    }
}

pub proof fn lemma_entries_val_wf(es: Seq<CacheSubmoduleV>)
    ensures
        items_wf(entries_items(es)),
    decreases es.len(),
{
    if es.len() > 0 {
        lemma_entries_val_wf(es.drop_last());
        let pre = entries_items(es.drop_last());
        let lastv = entry_val(es.last());
        assert(val_wf(lastv)) by {
            lemma_submodule_val_wf(es.last().submodule);
            let items = seq![ValV::S(es.last().name), submodule_val(es.last().submodule)];
            assert forall|k: int| 0 <= k < 2 implies val_wf(#[trigger] items[k]) by {
                if k == 0 {
                    assert(items[k] == ValV::S(es.last().name));
                } else {
                    assert(items[k] == submodule_val(es.last().submodule));
                }
            }
        }
        assert forall|k: int| 0 <= k < entries_items(es).len() implies val_wf(
            #[trigger] entries_items(es)[k],
        ) by {
            if k < pre.len() {
                assert(entries_items(es)[k] == pre[k]);
            } else {
                assert(entries_items(es)[k] == lastv);
            }
        }
    }
}

} // verus!
