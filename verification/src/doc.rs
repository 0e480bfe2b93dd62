use vstd::prelude::*;
use vstd::string::StrSliceExecFns;
use vstd::string::StringExecFns;

use crate::text::{dec_digits, digit_char, push_char, u64_to_string};
use crate::version::{pow10, Decimal};

verus! {

broadcast use vstd::std_specs::vec::axiom_vec_decreases_to_view, vstd::seq::axiom_seq_index_decreases;

/// One value of the persisted document language: a quoted string, a decimal
/// number, a boolean, or a bracketed list of values.
pub enum Val {
    S(String),
    D(Decimal),
    B(bool),
    L(Vec<Val>),
}

/// The mathematical shape of a [`Val`].
#[verifier::ext_equal]
pub enum ValV {
    S(Seq<char>),
    D(Decimal),
    B(bool),
    L(Seq<ValV>),
}

pub open spec fn val_view(v: Val) -> ValV
    decreases v,
{
    match v {
        Val::S(s) => ValV::S(s@),
        Val::D(d) => ValV::D(d),
        Val::B(b) => ValV::B(b),
        Val::L(items) => ValV::L(val_seq_view(items@)),
    }
}

pub open spec fn val_seq_view(s: Seq<Val>) -> Seq<ValV>
    decreases s,
{
    if s.len() == 0 {
        Seq::empty()
    } else {
        seq![val_view(s[0])] + val_seq_view(s.drop_first())
    }
}

impl DeepView for Val {
    type V = ValV;

    open spec fn deep_view(&self) -> ValV {
        val_view(*self)
    }
}

/// Well-formedness of a value: every decimal in it is normalized and in
/// range.
pub open spec fn val_wf(v: ValV) -> bool
    decreases v, 0nat,
{
    match v {
        ValV::S(_) => true,
        ValV::D(d) => d.well_formed(),
        ValV::B(_) => true,
        ValV::L(items) => items_wf(items),
    }
}

/// Well-formedness of every value of a sequence.
pub open spec fn items_wf(items: Seq<ValV>) -> bool
    decreases items, 1nat,
{
    forall|i: int| 0 <= i < items.len() ==> val_wf(#[trigger] items[i])
}

// ---------------------------------------------------------------------------
// Rendering, at the specification level.
// ---------------------------------------------------------------------------

/// How one character appears inside a quoted string: backslash, quote,
/// newline and carriage return are escaped, everything else stands as is.
pub open spec fn escape_char(c: char) -> Seq<char> {
    if c == '\\' {
        seq!['\\', '\\']
    } else if c == '"' {
        seq!['\\', '"']
    } else if c == '\n' {
        seq!['\\', 'n']
    } else if c == '\r' {
        seq!['\\', 'r']
    } else {
        seq![c]
    }
}

pub open spec fn escape_str(s: Seq<char>) -> Seq<char>
    decreases s.len(),
{
    if s.len() == 0 {
        Seq::empty()
    } else {
        escape_char(s[0]) + escape_str(s.drop_first())
    }
}

pub open spec fn render_string(s: Seq<char>) -> Seq<char> {
    seq!['"'] + escape_str(s) + seq!['"']
}

/// `width` decimal digits of `n`, zero-padded on the left.
pub open spec fn frac_digits(n: nat, width: nat) -> Seq<char>
    decreases width,
{
    if width == 0 {
        Seq::empty()
    } else {
        frac_digits(n / 10, (width - 1) as nat) + seq![digit_char((n % 10) as int)]
    }
}

/// A decimal always renders with a fractional part, so that the document
/// keeps the value recognizable as a decimal: `1` renders as `1.0`,
/// `3.15` as `3.15`.
pub open spec fn render_decimal(d: Decimal) -> Seq<char> {
    if d.scale == 0 {
        dec_digits(d.mantissa as nat) + seq!['.', '0']
    } else {
        dec_digits((d.mantissa as nat) / pow10(d.scale as nat)) + seq!['.'] + frac_digits(
            (d.mantissa as nat) % pow10(d.scale as nat),
            d.scale as nat,
        )
    }
}

pub open spec fn render_bool(b: bool) -> Seq<char> {
    if b {
        "true"@
    } else {
        "false"@
    }
}

pub open spec fn render_val(v: ValV) -> Seq<char>
    decreases v, 0nat,
{
    match v {
        ValV::S(s) => render_string(s),
        ValV::D(d) => render_decimal(d),
        ValV::B(b) => render_bool(b),
        ValV::L(items) => seq!['['] + render_items(items) + seq![']'],
    }
}

/// The comma-and-space-joined renderings of a list's items.
pub open spec fn render_items(items: Seq<ValV>) -> Seq<char>
    decreases items, 1nat,
{
    if items.len() == 0 {
        Seq::empty()
    } else if items.len() == 1 {
        render_val(items[0])
    } else {
        render_val(items[0]) + seq![',', ' '] + render_items(items.drop_first())
    }
}

// ---------------------------------------------------------------------------
// Rendering, executable.
// ---------------------------------------------------------------------------

/// `width` digits of `n`, zero padded.
fn frac_digits_exec(n: u64, width: u64) -> (r: String)
    ensures
        r@ == frac_digits(n as nat, width as nat),
    decreases width,
{
    if width == 0 {
        String::new()
    } else {
        let mut s = frac_digits_exec(n / 10, width - 1);
        let d = u64_to_string(n % 10);
        s.append(d.as_str());
        proof {
            assert(dec_digits((n % 10) as nat) =~= seq![digit_char((n % 10) as int)]);
            assert(s@ =~= frac_digits(n as nat, width as nat));
        }
        s
    }
}

/// Exact power of ten.
pub fn pow10_u64(e: u64) -> (r: u64)
    requires
        e <= 19,
    ensures
        r == pow10(e as nat),
        r >= 1,
{
    let mut r: u64 = 1;
    let mut i: u64 = 0;
    proof {
        crate::version::lemma_pow10_19();
    }
    while i < e
        invariant
            i <= e <= 19,
            r == pow10(i as nat),
            pow10(19) < u64::MAX,
        decreases e - i,
    {
        proof {
            crate::version::lemma_pow10_mono(i as nat + 1, 19);
        }
        r = r * 10;
        i = i + 1;
    }
    proof {
        crate::version::lemma_pow10_pos(e as nat);
    }
    r
}

/// Render a decimal, always with a fractional part.
pub fn render_decimal_exec(d: Decimal) -> (r: String)
    requires
        d.scale <= 19,
    ensures
        r@ == render_decimal(d),
{
    if d.scale == 0 {
        let mut s = u64_to_string(d.mantissa);
        s.append(".0");
        proof {
            reveal_strlit(".0");
            assert(s@ =~= render_decimal(d));
        }
        s
    } else {
        let p = pow10_u64(d.scale);
        let mut s = u64_to_string(d.mantissa / p);
        s.append(".");
        let f = frac_digits_exec(d.mantissa % p, d.scale);
        s.append(f.as_str());
        proof {
            reveal_strlit(".");
            assert(s@ =~= render_decimal(d));
        }
        s
    }
}

/// Append the escaped form of `c` to `out`.
fn push_escaped(out: &mut String, c: char)
    ensures
        final(out)@ == old(out)@ + escape_char(c),
{
    if c == '\\' {
        out.append("\\\\");
        proof {
            reveal_strlit("\\\\");
            assert(old(out)@ + "\\\\"@ =~= old(out)@ + escape_char(c));
        }
    } else if c == '"' {
        out.append("\\\"");
        proof {
            reveal_strlit("\\\"");
            assert(old(out)@ + "\\\""@ =~= old(out)@ + escape_char(c));
        }
    } else if c == '\n' {
        out.append("\\n");
        proof {
            reveal_strlit("\\n");
            assert(old(out)@ + "\\n"@ =~= old(out)@ + escape_char(c));
        }
    } else if c == '\r' {
        out.append("\\r");
        proof {
            reveal_strlit("\\r");
            assert(old(out)@ + "\\r"@ =~= old(out)@ + escape_char(c));
        }
    } else {
        push_char(out, c);
        proof {
            assert(old(out)@.push(c) =~= old(out)@ + escape_char(c));
        }
    }
}

/// `escape_str` of a sequence extended on the right.
proof fn lemma_escape_snoc(s: Seq<char>, c: char)
    ensures
        escape_str(s.push(c)) == escape_str(s) + escape_char(c),
    decreases s.len(),
{
    if s.len() == 0 {
        assert(s.push(c).drop_first() =~= Seq::<char>::empty());
        assert(s.push(c)[0] == c);
        assert(escape_str(s.push(c)) == escape_char(c) + escape_str(Seq::<char>::empty()));
        assert(escape_str(s.push(c)) =~= escape_str(s) + escape_char(c));
    } else {
        lemma_escape_snoc(s.drop_first(), c);
        assert(s.push(c).drop_first() =~= s.drop_first().push(c));
        assert(s.push(c)[0] == s[0]);
        assert(escape_str(s.push(c)) == escape_char(s[0]) + escape_str(s.drop_first().push(c)));
        assert(escape_str(s.push(c)) =~= escape_str(s) + escape_char(c));
    }
}

/// Append the quoted, escaped form of `s` to `out`.
fn append_quoted(out: &mut String, s: &str)
    ensures
        final(out)@ == old(out)@ + render_string(s@),
{
    out.append("\"");
    proof {
        reveal_strlit("\"");
    }
    let len = s.unicode_len();
    let mut i: usize = 0;
    while i < len
        invariant
            i <= len,
            len == s@.len(),
            out@ == old(out)@ + seq!['"'] + escape_str(s@.take(i as int)),
        decreases len - i,
    {
        let c = s.get_char(i);
        push_escaped(out, c);
        proof {
            assert(s@.take(i as int).push(s@[i as int]) =~= s@.take(i as int + 1));
            lemma_escape_snoc(s@.take(i as int), s@[i as int]);
        }
        i = i + 1;
    }
    out.append("\"");
    proof {
        assert(s@.take(len as int) =~= s@);
        assert(out@ =~= old(out)@ + render_string(s@));
    }
}

/// Render one value.
pub fn render_val_exec(v: &Val) -> (r: String)
    requires
        val_wf(v.deep_view()),
    ensures
        r@ == render_val(v.deep_view()),
    decreases *v, 0nat,
{
    match v {
        Val::S(s) => {
            let mut out = String::new();
            append_quoted(&mut out, s.as_str());
            proof {
                assert(out@ =~= render_val(v.deep_view()));
            }
            out
        },
        Val::D(d) => {
            let out = render_decimal_exec(*d);
            out
        },
        Val::B(b) => {
            if *b {
                String::from_str("true")
            } else {
                String::from_str("false")
            }
        },
        Val::L(items) => {
            let mut out = String::from_str("[");
            proof {
                reveal_strlit("[");
            }
            render_items_onto(&mut out, items, 0);
            out.append("]");
            proof {
                reveal_strlit("]");
                assert(val_seq_view(items@).skip(0) =~= val_seq_view(items@));
                assert(out@ =~= render_val(v.deep_view()));
            }
            out
        },
    }
}

/// `val_seq_view` keeps length and maps indices one-for-one.
pub proof fn lemma_val_seq_view(s: Seq<Val>)
    ensures
        val_seq_view(s).len() == s.len(),
        forall|i: int| 0 <= i < s.len() ==> val_seq_view(s)[i] == val_view(#[trigger] s[i]),
    decreases s,
{
    if s.len() > 0 {
        lemma_val_seq_view(s.drop_first());
        assert forall|i: int| 0 <= i < s.len() implies val_seq_view(s)[i] == val_view(
            #[trigger] s[i],
        ) by {
            if i > 0 {
                assert(s.drop_first()[i - 1] == s[i]);
                assert(val_seq_view(s)[i] == val_seq_view(s.drop_first())[i - 1]);
            }
        }
    }
}

/// Append the rendering of `items[start..]`, comma-and-space joined.
fn render_items_onto(out: &mut String, items: &Vec<Val>, start: usize)
    requires
        start <= items.len(),
        items_wf(val_seq_view(items@)),
    ensures
        final(out)@ == old(out)@ + render_items(val_seq_view(items@).skip(start as int)),
    decreases items@, (items.len() - start) as nat,
{
    proof {
        lemma_val_seq_view(items@);
    }
    if start < items.len() {
        let piece = render_val_exec(&items[start]);
        out.append(piece.as_str());
        proof {
            assert(val_seq_view(items@).skip(start as int)[0] == val_view(items@[start as int]));
        }
        if start + 1 < items.len() {
            out.append(", ");
            render_items_onto(out, items, start + 1);
            proof {
                reveal_strlit(", ");
                let tail = val_seq_view(items@).skip(start as int);
                assert(tail.drop_first() =~= val_seq_view(items@).skip(start as int + 1));
                assert(tail.len() == items.len() - start);
                assert(out@ =~= old(out)@ + render_items(tail));
            }
        } else {
            proof {
                let tail = val_seq_view(items@).skip(start as int);
                assert(tail.len() == 1);
                assert(out@ =~= old(out)@ + render_items(tail));
            }
        }
    } else {
        proof {
            let tail = val_seq_view(items@).skip(start as int);
            assert(tail.len() == 0);
            assert(out@ =~= old(out)@ + render_items(tail));
        }
    }
}



// ---------------------------------------------------------------------------
// Parsing, at the specification level.
// ---------------------------------------------------------------------------

pub open spec fn char_at(s: Seq<char>, i: int, c: char) -> bool {
    0 <= i < s.len() && s[i] == c
}

pub open spec fn match_at(s: Seq<char>, i: int, w: Seq<char>) -> bool {
    0 <= i && i + w.len() <= s.len() && s.subrange(i, i + w.len()) == w
}

/// The value of a decimal digit character, or -1 for any other character.
pub open spec fn digit_val(c: char) -> int {
    if 48 <= c as int && c as int <= 57 {
        c as int - 48
    } else {
        -1
    }
}

/// The longest run of digit characters from position `i`, with the position
/// after the run.
pub open spec fn parse_digits(s: Seq<char>, i: int) -> (Seq<char>, int)
    decreases s.len() - i,
{
    if 0 <= i < s.len() && digit_val(s[i]) >= 0 {
        let (rest, j) = parse_digits(s, i + 1);
        (seq![s[i]] + rest, j)
    } else {
        (Seq::empty(), i)
    }
}

/// The numeric value of a digit run, most significant digit first.
pub open spec fn digits_value(ds: Seq<char>) -> int
    decreases ds.len(),
{
    if ds.len() == 0 {
        0
    } else {
        digits_value(ds.drop_last()) * 10 + digit_val(ds.last())
    }
}

/// The character an escape sequence stands for, if the character after the
/// backslash is a legal escape.
pub open spec fn unescape_char(c: char) -> Option<char> {
    if c == '\\' {
        Some('\\')
    } else if c == '"' {
        Some('"')
    } else if c == 'n' {
        Some('\n')
    } else if c == 'r' {
        Some('\r')
    } else {
        None
    }
}

/// The body of a quoted string from position `i` (the opening quote already
/// consumed) up to its closing quote: the unescaped content and the position
/// after the closing quote.
pub open spec fn parse_str_body(s: Seq<char>, i: int) -> Option<(Seq<char>, int)>
    decreases s.len() - i,
{
    if i < 0 || i >= s.len() {
        None
    } else if s[i] == '"' {
        Some((Seq::empty(), i + 1))
    } else if s[i] == '\\' {
        if i + 1 < s.len() {
            match unescape_char(s[i + 1]) {
                Some(u) => match parse_str_body(s, i + 2) {
                    Some((cs, j)) => Some((seq![u] + cs, j)),
                    None => None,
                },
                None => None,
            }
        } else {
            None
        }
    } else {
        match parse_str_body(s, i + 1) {
            Some((cs, j)) => Some((seq![s[i]] + cs, j)),
            None => None,
        }
    }
}

/// A decimal number `digits.digits`, rejected when a digit run is empty or
/// longer than nineteen digits or the value cannot be represented; the result
/// is normalized.
pub open spec fn parse_decimal(s: Seq<char>, i: int) -> Option<(Decimal, int)> {
    let (ip, j) = parse_digits(s, i);
    let (fp, k) = parse_digits(s, j + 1);
    if ip.len() == 0 || ip.len() > 19 {
        None
    } else if !char_at(s, j, '.') {
        None
    } else if fp.len() == 0 || fp.len() > 19 {
        None
    } else {
        let m = digits_value(ip) * pow10(fp.len()) + digits_value(fp);
        if m >= pow10(19) {
            None
        } else {
            let d = crate::version::spec_normalize(m as u64, fp.len() as u64);
            if d.mantissa >= 1000000000000000000u64 {
                None
            } else {
                Some((d, k))
            }
        }
    }
}

/// One value: a quoted string, a list, a boolean or a decimal, recognized by
/// its first characters.
pub open spec fn parse_val(s: Seq<char>, i: int) -> Option<(ValV, int)>
    decreases s.len() - i, 0nat,
{
    if i < 0 || i >= s.len() {
        None
    } else if s[i] == '"' {
        match parse_str_body(s, i + 1) {
            Some((cs, j)) => Some((ValV::S(cs), j)),
            None => None,
        }
    } else if s[i] == '[' {
        if char_at(s, i + 1, ']') {
            Some((ValV::L(Seq::empty()), i + 2))
        } else {
            match parse_items(s, i + 1) {
                Some((vs, j)) => if char_at(s, j, ']') {
                    Some((ValV::L(vs), j + 1))
                } else {
                    None
                },
                None => None,
            }
        }
    } else if match_at(s, i, "true"@) {
        Some((ValV::B(true), i + "true"@.len()))
    } else if match_at(s, i, "false"@) {
        Some((ValV::B(false), i + "false"@.len()))
    } else if digit_val(s[i]) >= 0 {
        match parse_decimal(s, i) {
            Some((d, j)) => Some((ValV::D(d), j)),
            None => None,
        }
    } else {
        None
    }
}

/// One or more values joined by a comma and a space.
pub open spec fn parse_items(s: Seq<char>, i: int) -> Option<(Seq<ValV>, int)>
    decreases s.len() - i, 1nat,
{
    if i < 0 || i > s.len() {
        None
    } else {
        match parse_val(s, i) {
            Some((v, j)) => if !(i < j <= s.len()) {
                None
            } else if char_at(s, j, ',') && char_at(s, j + 1, ' ') {
                match parse_items(s, j + 2) {
                    Some((vs, k)) => Some((seq![v] + vs, k)),
                    None => None,
                }
            } else {
                Some((seq![v], j))
            },
            None => None,
        }
    }
}



// ---------------------------------------------------------------------------
// Parsing, executable.
// ---------------------------------------------------------------------------

/// A parse result with `p` prepended to the parsed content.
pub open spec fn prepend_content(p: Seq<char>, r: Option<(Seq<char>, int)>) -> Option<
    (Seq<char>, int),
> {
    match r {
        Some((cs, j)) => Some((p + cs, j)),
        None => None,
    }
}

proof fn lemma_prepend_content_assoc(p1: Seq<char>, p2: Seq<char>, r: Option<(Seq<char>, int)>)
    ensures
        prepend_content(p1, prepend_content(p2, r)) == prepend_content(p1 + p2, r),
{
    match r {
        Some((cs, j)) => {
            assert(p1 + (p2 + cs) =~= (p1 + p2) + cs);
        },
        None => {},
    }
}

fn unescape_char_exec(c: char) -> (r: Option<char>)
    ensures
        r == unescape_char(c),
{
    if c == '\\' {
        Some('\\')
    } else if c == '"' {
        Some('"')
    } else if c == 'n' {
        Some('\n')
    } else if c == 'r' {
        Some('\r')
    } else {
        None
    }
}

/// The value of a digit character.
fn char_digit(c: char) -> (r: Option<u64>)
    ensures
        match r {
            Some(d) => digit_val(c) == d as int && d < 10,
            None => digit_val(c) == -1,
        },
{
    let u = c as u32;
    if 48 <= u && u <= 57 {
        Some((u - 48) as u64)
    } else {
        None
    }
}

/// Whether the characters of `w` stand in `s` at position `i`.
pub fn match_at_exec(s: &str, i: usize, w: &str) -> (r: bool)
    requires
        i <= s@.len(),
    ensures
        r == match_at(s@, i as int, w@),
{
    let s_len = s.unicode_len();
    let w_len = w.unicode_len();
    if s_len - i < w_len {
        return false;
    }
    let mut j: usize = 0;
    while j < w_len
        invariant
            j <= w_len,
            i + w_len <= s_len,
            s_len == s@.len(),
            w_len == w@.len(),
            forall|k: int| 0 <= k < j ==> s@[i + k] == w@[k],
        decreases w_len - j,
    {
        if s.get_char(i + j) != w.get_char(j) {
            proof {
                assert(s@.subrange(i as int, i + w@.len())[j as int] == s@[i + j]);
            }
            return false;
        }
        j = j + 1;
    }
    proof {
        assert(s@.subrange(i as int, i + w@.len()) =~= w@);
    }
    true
}

/// The body of a quoted string, from just after the opening quote.
fn parse_str_body_exec(s: &str, start: usize) -> (r: Option<(String, usize)>)
    requires
        start <= s@.len(),
    ensures
        match r {
            Some((cs, j)) => parse_str_body(s@, start as int) == Some((cs@, j as int)) && start
                < j <= s@.len(),
            None => parse_str_body(s@, start as int) is None,
        },
{
    let len = s.unicode_len();
    let mut i = start;
    let mut acc = String::new();
    while i < len
        invariant
            start <= i <= len,
            len == s@.len(),
            parse_str_body(s@, start as int) == prepend_content(
                acc@,
                parse_str_body(s@, i as int),
            ),
        decreases len - i,
    {
        let c = s.get_char(i);
        if c == '"' {
            proof {
                assert(acc@ + Seq::<char>::empty() =~= acc@);
            }
            return Some((acc, i + 1));
        } else if c == '\\' {
            if i + 1 >= len {
                return None;
            }
            let c2 = s.get_char(i + 1);
            match unescape_char_exec(c2) {
                None => {
                    return None;
                },
                Some(u) => {
                    proof {
                        assert(parse_str_body(s@, i as int) == prepend_content(
                            seq![u],
                            parse_str_body(s@, i as int + 2),
                        ));
                        lemma_prepend_content_assoc(
                            acc@,
                            seq![u],
                            parse_str_body(s@, i as int + 2),
                        );
                        assert(acc@ + seq![u] =~= acc@.push(u));
                    }
                    push_char(&mut acc, u);
                    i = i + 2;
                },
            }
        } else {
            proof {
                assert(parse_str_body(s@, i as int) == prepend_content(
                    seq![c],
                    parse_str_body(s@, i as int + 1),
                ));
                lemma_prepend_content_assoc(acc@, seq![c], parse_str_body(s@, i as int + 1));
                assert(acc@ + seq![c] =~= acc@.push(c));
            }
            push_char(&mut acc, c);
            i = i + 1;
        }
    }
    None
}

/// A digit-run result with `p` prepended to the run.
pub open spec fn prepend_digits(p: Seq<char>, r: (Seq<char>, int)) -> (Seq<char>, int) {
    (p + r.0, r.1)
}

/// Every digit run has a value below ten to the power of its length.
proof fn lemma_digits_value_bound(ds: Seq<char>)
    requires
        forall|i: int| 0 <= i < ds.len() ==> digit_val(#[trigger] ds[i]) >= 0,
    ensures
        0 <= digits_value(ds) < pow10(ds.len()),
    decreases ds.len(),
{
    crate::version::lemma_pow10_pos(ds.len());
    if ds.len() > 0 {
        lemma_digits_value_bound(ds.drop_last());
    }
}

/// Scan a digit run: its value and end position, or nothing when the run is
/// longer than nineteen digits.
fn scan_digits(s: &str, start: usize) -> (r: Option<(u64, usize)>)
    requires
        start <= s@.len(),
    ensures
        match r {
            Some((v, j)) => {
                &&& parse_digits(s@, start as int) == (
                    s@.subrange(start as int, j as int),
                    j as int,
                )
                &&& v as int == digits_value(parse_digits(s@, start as int).0)
                &&& start <= j <= s@.len()
                &&& j - start <= 19
                &&& v < pow10((j - start) as nat)
            },
            None => parse_digits(s@, start as int).0.len() > 19,
        },
{
    let len = s.unicode_len();
    let mut i = start;
    let mut acc: u64 = 0;
    proof {
        crate::version::lemma_pow10_19();
    }
    while i < len && char_digit(s.get_char(i)).is_some()
        invariant
            start <= i <= len,
            len == s@.len(),
            i - start <= 19,
            parse_digits(s@, start as int) == prepend_digits(
                s@.subrange(start as int, i as int),
                parse_digits(s@, i as int),
            ),
            forall|k: int| start <= k < i ==> digit_val(#[trigger] s@[k]) >= 0,
            acc as int == digits_value(s@.subrange(start as int, i as int)),
            acc < pow10((i - start) as nat),
            pow10(19) == 10000000000000000000,
        decreases len - i,
    {
        let c = s.get_char(i);
        let d = char_digit(c).unwrap();
        if i - start == 19 {
            proof {
                assert(parse_digits(s@, i as int).0.len() >= 1);
                assert(parse_digits(s@, start as int).0.len() == (i - start)
                    + parse_digits(s@, i as int).0.len());
            }
            return None;
        }
        proof {
            crate::version::lemma_pow10_mono((i - start + 1) as nat, 19);
            crate::version::lemma_pow10_mono((i - start) as nat, 19);
            let pre = s@.subrange(start as int, i as int);
            let pre2 = s@.subrange(start as int, i as int + 1);
            assert(pre2 =~= pre.push(s@[i as int]));
            assert(pre2.drop_last() =~= pre);
            assert(digits_value(pre2) == digits_value(pre) * 10 + digit_val(s@[i as int]));
            assert(parse_digits(s@, i as int) == prepend_digits(
                seq![s@[i as int]],
                parse_digits(s@, i as int + 1),
            ));
            assert(pre + (seq![s@[i as int]] + parse_digits(s@, i as int + 1).0) =~= pre2
                + parse_digits(s@, i as int + 1).0);
        }
        acc = acc * 10 + d;
        i = i + 1;
    }
    proof {
        assert(parse_digits(s@, i as int) == (Seq::<char>::empty(), i as int));
        assert(s@.subrange(start as int, i as int) + Seq::<char>::empty() =~= s@.subrange(
            start as int,
            i as int,
        ));
    }
    Some((acc, i))
}

/// A decimal number at position `start`.
fn parse_decimal_exec(s: &str, start: usize) -> (r: Option<(Decimal, usize)>)
    requires
        start <= s@.len(),
    ensures
        match r {
            Some((d, j)) => parse_decimal(s@, start as int) == Some((d, j as int)) && start < j
                <= s@.len() && d.well_formed(),
            None => parse_decimal(s@, start as int) is None,
        },
{
    let len = s.unicode_len();
    proof {
        crate::version::lemma_pow10_19();
    }
    let (ipv, j) = match scan_digits(s, start) {
        None => {
            return None;
        },
        Some(x) => x,
    };
    if j == start {
        return None;
    }
    if j >= len {
        return None;
    }
    if s.get_char(j) != '.' {
        return None;
    }
    let (fpv, k) = match scan_digits(s, j + 1) {
        None => {
            return None;
        },
        Some(x) => x,
    };
    if k == j + 1 {
        return None;
    }
    let flen = k - (j + 1);
    let p = pow10_u64(flen as u64);
    proof {
        assert((ipv as u128) * (p as u128) + (fpv as u128) <= (u64::MAX as u128) * (u64::MAX
            as u128) + (u64::MAX as u128)) by (nonlinear_arith)
            requires
                ipv <= u64::MAX,
                p <= u64::MAX,
                fpv <= u64::MAX,
        ;
    }
    let m128: u128 = (ipv as u128) * (p as u128) + (fpv as u128);
    if m128 >= 10000000000000000000u128 {
        return None;
    }
    let m = m128 as u64;
    let d = crate::version::Decimal::new(m, flen as u64);
    if d.mantissa >= 1000000000000000000u64 {
        return None;
    }
    proof {
        crate::version::lemma_pow10_mono(flen as nat, 19);
    }
    Some((d, k))
}

/// How an executable parse result relates to the specification's.
pub open spec fn val_matches(r: Option<(Val, usize)>, sp: Option<(ValV, int)>, slen: nat) -> bool {
    match (r, sp) {
        (Some((v, j)), Some((vv, jj))) => v.deep_view() == vv && j == jj && j <= slen,
        (None, None) => true,
        _ => false,
    }
}

/// One value at position `i`.
pub fn parse_val_exec(s: &str, i: usize) -> (r: Option<(Val, usize)>)
    requires
        i <= s@.len(),
    ensures
        match r {
            Some((v, j)) => parse_val(s@, i as int) == Some((v.deep_view(), j as int)) && i < j
                <= s@.len(),
            None => parse_val(s@, i as int) is None,
        },
    decreases s@.len() - i, 0nat,
{
    let len = s.unicode_len();
    if i >= len {
        return None;
    }
    let c = s.get_char(i);
    if c == '"' {
        match parse_str_body_exec(s, i + 1) {
            Some((cs, j)) => Some((Val::S(cs), j)),
            None => None,
        }
    } else if c == '[' {
        if i + 1 < len && s.get_char(i + 1) == ']' {
            let empty: Vec<Val> = Vec::new();
            proof {
                assert(val_seq_view(empty@) =~= Seq::<ValV>::empty());
            }
            Some((Val::L(empty), i + 2))
        } else {
            match parse_items_exec(s, i + 1) {
                Some((vs, j)) => {
                    if j < len && s.get_char(j) == ']' {
                        Some((Val::L(vs), j + 1))
                    } else {
                        None
                    }
                },
                None => None,
            }
        }
    } else if match_at_exec(s, i, "true") {
        proof {
            reveal_strlit("true");
        }
        let w_len = "true".unicode_len();
        Some((Val::B(true), i + w_len))
    } else if match_at_exec(s, i, "false") {
        proof {
            reveal_strlit("false");
        }
        let w_len = "false".unicode_len();
        Some((Val::B(false), i + w_len))
    } else {
        match char_digit(c) {
            Some(_) => match parse_decimal_exec(s, i) {
                Some((d, j)) => Some((Val::D(d), j)),
                None => None,
            },
            None => None,
        }
    }
}

/// One or more comma-and-space-joined values at position `i`.
pub fn parse_items_exec(s: &str, i: usize) -> (r: Option<(Vec<Val>, usize)>)
    requires
        i <= s@.len(),
    ensures
        match r {
            Some((vs, j)) => parse_items(s@, i as int) == Some((val_seq_view(vs@), j as int))
                && i < j <= s@.len(),
            None => parse_items(s@, i as int) is None,
        },
    decreases s@.len() - i, 1nat,
{
    let len = s.unicode_len();
    match parse_val_exec(s, i) {
        None => None,
        Some((v, j)) => {
            let comma_space = j < len && s.get_char(j) == ',' && j + 1 < len && s.get_char(j + 1)
                == ' ';
            if comma_space {
                match parse_items_exec(s, j + 2) {
                    None => None,
                    Some((rest, k)) => {
                        let mut out = rest;
                        out.insert(0, v);
                        proof {
                            assert(out@.drop_first() =~= rest@);
                            assert(val_seq_view(out@) =~= seq![v.deep_view()] + val_seq_view(
                                rest@,
                            ));
                        }
                        Some((out, k))
                    },
                }
            } else {
                let single = vec![v];
                proof {
                    assert(single@.drop_first() =~= Seq::<Val>::empty());
                    assert(val_seq_view(single@.drop_first()) == Seq::<ValV>::empty());
                    assert(single@[0] == v);
                    assert(val_seq_view(single@) =~= seq![v.deep_view()]);
                }
                Some((single, j))
            }
        },
    }
}



// ---------------------------------------------------------------------------
// Every rendering parses back to the value it came from.
// ---------------------------------------------------------------------------

pub proof fn lemma_match_at_concat(s: Seq<char>, i: int, w1: Seq<char>, w2: Seq<char>)
    requires
        match_at(s, i, w1 + w2),
    ensures
        match_at(s, i, w1),
        match_at(s, i + w1.len(), w2),
{
    let big = s.subrange(i, i + (w1 + w2).len());
    assert(s.subrange(i, i + w1.len()) =~= w1) by {
        assert forall|k: int| 0 <= k < w1.len() implies s.subrange(i, i + w1.len())[k] == w1[
            k
        ] by {
            assert(big[k] == s[i + k]);
            assert(big[k] == (w1 + w2)[k]);
        }
    }
    assert(s.subrange(i + w1.len(), i + w1.len() + w2.len()) =~= w2) by {
        assert forall|k: int| 0 <= k < w2.len() implies s.subrange(
            i + w1.len(),
            i + w1.len() + w2.len(),
        )[k] == w2[k] by {
            assert(big[w1.len() + k] == s[i + w1.len() + k]);
            assert(big[w1.len() + k] == (w1 + w2)[w1.len() + k]);
        }
    }
}

/// The decimal digits of `n` are digit characters and carry the value `n`.
proof fn lemma_dec_digits_props(n: nat)
    ensures
        dec_digits(n).len() >= 1,
        forall|i: int| 0 <= i < dec_digits(n).len() ==> digit_val(#[trigger] dec_digits(n)[i])
            >= 0,
        digits_value(dec_digits(n)) == n,
    decreases n,
{
    if n < 10 {
        assert(digit_val(digit_char(n as int)) == n);
        assert(seq![digit_char(n as int)].drop_last() =~= Seq::<char>::empty());
        assert(digits_value(Seq::<char>::empty()) == 0);
        assert(seq![digit_char(n as int)].last() == digit_char(n as int));
    } else {
        lemma_dec_digits_props(n / 10);
        let a = dec_digits(n / 10);
        let d = digit_char((n % 10) as int);
        assert(digit_val(d) == n % 10);
        assert((a + seq![d]).drop_last() =~= a);
        assert((a + seq![d]).last() == d);
        assert forall|i: int| 0 <= i < dec_digits(n).len() implies digit_val(
            #[trigger] dec_digits(n)[i],
        ) >= 0 by {
            if i < a.len() {
                assert(dec_digits(n)[i] == a[i]);
            } else {
                assert(dec_digits(n)[i] == d);
            }
        }
        assert(digits_value(dec_digits(n)) == digits_value(a) * 10 + (n % 10));
        vstd::arithmetic::div_mod::lemma_fundamental_div_mod(n as int, 10);
    }
}

/// A number below `pow10(k)` needs at most `k` digits.
proof fn lemma_dec_digits_len(n: nat, k: nat)
    requires
        n < pow10(k),
        k >= 1,
    ensures
        dec_digits(n).len() <= k,
    decreases n,
{
    if n >= 10 {
        assert(pow10(1) == 10 * pow10(0));
        if k == 1 {
            assert(false);
        }
        assert(pow10(k) == 10 * pow10((k - 1) as nat));
        vstd::arithmetic::div_mod::lemma_multiply_divide_lt(n as int, 10, pow10((k - 1) as nat) as int);
        lemma_dec_digits_len(n / 10, (k - 1) as nat);
    }
}

/// Zero-padded fractional digits: exact width, digit characters, value `n`.
proof fn lemma_frac_digits_props(n: nat, w: nat)
    requires
        n < pow10(w),
    ensures
        frac_digits(n, w).len() == w,
        forall|i: int| 0 <= i < w ==> digit_val(#[trigger] frac_digits(n, w)[i]) >= 0,
        digits_value(frac_digits(n, w)) == n,
    decreases w,
{
    if w == 0 {
        assert(pow10(0) == 1);
    } else {
        assert(pow10(w) == 10 * pow10((w - 1) as nat));
        vstd::arithmetic::div_mod::lemma_multiply_divide_lt(n as int, 10, pow10((w - 1) as nat) as int);
        lemma_frac_digits_props(n / 10, (w - 1) as nat);
        let a = frac_digits(n / 10, (w - 1) as nat);
        let d = digit_char((n % 10) as int);
        assert(digit_val(d) == n % 10);
        assert((a + seq![d]).drop_last() =~= a);
        assert((a + seq![d]).last() == d);
        assert forall|i: int| 0 <= i < w implies digit_val(#[trigger] frac_digits(n, w)[i])
            >= 0 by {
            if i < a.len() {
                assert(frac_digits(n, w)[i] == a[i]);
            } else {
                assert(frac_digits(n, w)[i] == d);
            }
        }
        assert(digits_value(frac_digits(n, w)) == digits_value(a) * 10 + (n % 10));
        vstd::arithmetic::div_mod::lemma_fundamental_div_mod(n as int, 10);
    }
}

/// A digit run bounded by a non-digit (or the end) parses to exactly itself.
proof fn lemma_parse_digits_exact(ds: Seq<char>, s: Seq<char>, i: int)
    requires
        forall|k: int| 0 <= k < ds.len() ==> digit_val(#[trigger] ds[k]) >= 0,
        match_at(s, i, ds),
        i + ds.len() == s.len() || digit_val(s[i + ds.len()]) < 0,
    ensures
        parse_digits(s, i) == (ds, i + ds.len()),
    decreases ds.len(),
{
    if ds.len() == 0 {
        assert(ds =~= Seq::<char>::empty());
    } else {
        assert(s.subrange(i, i + ds.len())[0] == s[i]);
        assert(s[i] == ds[0]);
        assert(ds =~= seq![ds[0]] + ds.drop_first());
        lemma_match_at_concat(s, i, seq![ds[0]], ds.drop_first());
        lemma_parse_digits_exact(ds.drop_first(), s, i + 1);
        assert(seq![s[i]] + ds.drop_first() =~= ds);
    }
}

/// Escaped string content followed by a closing quote parses back to the
/// content.
proof fn lemma_parse_escaped(cs: Seq<char>, s: Seq<char>, i: int)
    requires
        match_at(s, i, escape_str(cs) + seq!['"']),
    ensures
        parse_str_body(s, i) == Some((cs, i + escape_str(cs).len() + 1)),
    decreases cs.len(),
{
    if cs.len() == 0 {
        assert(escape_str(cs) + seq!['"'] =~= seq!['"']);
        assert(s.subrange(i, i + 1)[0] == s[i]);
        assert(cs =~= Seq::<char>::empty());
    } else {
        let e0 = escape_char(cs[0]);
        let rest = escape_str(cs.drop_first());
        assert(escape_str(cs) == e0 + rest);
        assert((e0 + rest) + seq!['"'] =~= e0 + (rest + seq!['"']));
        lemma_match_at_concat(s, i, e0, rest + seq!['"']);
        if cs[0] == '\\' || cs[0] == '"' || cs[0] == '\n' || cs[0] == '\r' {
            assert(s.subrange(i, i + 2)[0] == s[i]);
            assert(s.subrange(i, i + 2)[1] == s[i + 1]);
            assert(unescape_char(s[i + 1]) == Some(cs[0]));
            lemma_parse_escaped(cs.drop_first(), s, i + 2);
            assert(seq![cs[0]] + cs.drop_first() =~= cs);
        } else {
            assert(s.subrange(i, i + 1)[0] == s[i]);
            assert(s[i] == cs[0]);
            lemma_parse_escaped(cs.drop_first(), s, i + 1);
            assert(seq![cs[0]] + cs.drop_first() =~= cs);
        }
    }
}

/// A rendered well-formed decimal, bounded by a non-digit, parses back to
/// itself.
proof fn lemma_parse_render_decimal(d: Decimal, s: Seq<char>, i: int)
    requires
        d.well_formed(),
        match_at(s, i, render_decimal(d)),
        i + render_decimal(d).len() == s.len() || digit_val(s[i + render_decimal(d).len()]) < 0,
    ensures
        parse_decimal(s, i) == Some((d, i + render_decimal(d).len())),
{
    crate::version::lemma_pow10_19();
    assert(pow10(19) == 10 * pow10(18));
    let m = d.mantissa as nat;
    if d.scale == 0 {
        let ip = dec_digits(m);
        lemma_dec_digits_props(m);
        lemma_dec_digits_len(m, 18);
        assert(render_decimal(d) == ip + seq!['.', '0']);
        assert(ip + seq!['.', '0'] =~= (ip + seq!['.']) + seq!['0']);
        lemma_match_at_concat(s, i, ip + seq!['.'], seq!['0']);
        lemma_match_at_concat(s, i, ip, seq!['.']);
        let j = i + ip.len();
        assert(s.subrange(j, j + 1)[0] == s[j]);
        assert(s[j] == '.');
        lemma_parse_digits_exact(ip, s, i);
        assert(s.subrange(j + 1, j + 2)[0] == s[j + 1]);
        assert(s[j + 1] == '0');
        assert(digit_val('0') == 0);
        assert forall|k: int| 0 <= k < 1 implies digit_val(#[trigger] seq!['0'][k]) >= 0 by {
            assert(seq!['0'][k] == '0');
        }
        lemma_parse_digits_exact(seq!['0'], s, j + 1);
        assert(seq!['0'].drop_last() =~= Seq::<char>::empty());
        assert(digits_value(Seq::<char>::empty()) == 0);
        assert(digits_value(seq!['0']) == 0);
        assert(pow10(1) == 10 * pow10(0));
        let mv = digits_value(ip) * pow10(1) + digits_value(seq!['0']);
        assert(mv == m * 10);
        assert(m * 10 < pow10(19)) by (nonlinear_arith)
            requires
                m < pow10(18),
                pow10(19) == 10 * pow10(18),
        ;
        vstd::arithmetic::div_mod::lemma_mod_multiples_basic(m as int, 10);
        vstd::arithmetic::div_mod::lemma_div_multiples_vanish(m as int, 10);
        assert((m * 10) % 10 == 0);
        assert((m * 10) / 10 == m) by {
            assert(m * 10 == 10 * m);
        }
        assert(crate::version::spec_normalize((mv as u64) as u64, 1u64)
            == crate::version::spec_normalize(d.mantissa, 0));
        assert(crate::version::spec_normalize(d.mantissa, 0) == d);
    } else {
        let sc = d.scale as nat;
        let p = pow10(sc);
        crate::version::lemma_pow10_pos(sc);
        vstd::arithmetic::div_mod::lemma_mod_bound(m as int, p as int);
        vstd::arithmetic::div_mod::lemma_div_nonincreasing(m as int, p as int);
        vstd::arithmetic::div_mod::lemma_div_pos_is_pos(m as int, p as int);
        let ip = dec_digits(m / p);
        let fp = frac_digits(m % p, sc);
        lemma_dec_digits_props(m / p);
        lemma_dec_digits_len(m / p, 18);
        lemma_frac_digits_props(m % p, sc);
        assert(render_decimal(d) == ip + seq!['.'] + fp);
        assert(ip + seq!['.'] + fp =~= ip + (seq!['.'] + fp));
        lemma_match_at_concat(s, i, ip, seq!['.'] + fp);
        let j = i + ip.len();
        lemma_match_at_concat(s, j, seq!['.'], fp);
        assert(s.subrange(j, j + 1)[0] == s[j]);
        assert(s[j] == '.');
        lemma_parse_digits_exact(ip, s, i);
        lemma_parse_digits_exact(fp, s, j + 1);
        let mv = digits_value(ip) * pow10(fp.len()) + digits_value(fp);
        vstd::arithmetic::div_mod::lemma_fundamental_div_mod(m as int, p as int);
        assert(digits_value(ip) == m / p);
        assert(digits_value(fp) == m % p);
        assert(fp.len() == sc);
        assert(pow10(fp.len()) == p);
        let q = (m / p) as int;
        assert(mv == q * p + (m % p));
        assert(q * p == p * q) by (nonlinear_arith);
        assert(m == p * q + (m % p));
        assert(mv == m);
        crate::version::lemma_pow10_mono(18, 19);
        assert(crate::version::spec_normalize(d.mantissa, d.scale) == d);
    }
}



/// The first character of a rendering tells the kind of the value apart.
proof fn lemma_render_val_first(v: ValV)
    ensures
        render_val(v).len() >= 1,
        v is S ==> render_val(v)[0] == '"',
        v is D ==> digit_val(render_val(v)[0]) >= 0,
        v is B ==> render_val(v)[0] == 't' || render_val(v)[0] == 'f',
        v is L ==> render_val(v)[0] == '[',
{
    reveal_strlit("true");
    reveal_strlit("false");
    match v {
        ValV::S(cs) => {
            assert(render_val(v)[0] == '"');
        },
        ValV::D(d) => {
            let m = d.mantissa as nat;
            if d.scale == 0 {
                lemma_dec_digits_props(m);
                assert(digit_val(dec_digits(m)[0]) >= 0);
                assert(render_val(v)[0] == dec_digits(m)[0]);
            } else {
                let p = pow10(d.scale as nat);
                lemma_dec_digits_props(m / p);
                assert(digit_val(dec_digits(m / p)[0]) >= 0);
                assert(render_val(v)[0] == dec_digits(m / p)[0]);
            }
        },
        ValV::B(b) => {
            if b {
                assert(render_val(v)[0] == 't');
            } else {
                assert(render_val(v)[0] == 'f');
            }
        },
        ValV::L(items) => {
            assert(render_val(v)[0] == '[');
        },
    }
}

/// A rendered well-formed value, bounded by a non-digit (or the end of the
/// text), parses back to exactly itself.
pub proof fn lemma_parse_render_val(v: ValV, s: Seq<char>, i: int)
    requires
        val_wf(v),
        match_at(s, i, render_val(v)),
        i + render_val(v).len() == s.len() || digit_val(s[i + render_val(v).len()]) < 0,
    ensures
        parse_val(s, i) == Some((v, i + render_val(v).len())),
    decreases v, 0nat,
{
    reveal_strlit("true");
    reveal_strlit("false");
    let r = render_val(v);
    lemma_render_val_first(v);
    assert(s.subrange(i, i + r.len())[0] == s[i]);
    assert(s[i] == r[0]);
    match v {
        ValV::S(cs) => {
            assert(r =~= seq!['"'] + (escape_str(cs) + seq!['"']));
            lemma_match_at_concat(s, i, seq!['"'], escape_str(cs) + seq!['"']);
            lemma_parse_escaped(cs, s, i + 1);
            assert(parse_str_body(s, i + 1) == Some((cs, i + 1 + escape_str(cs).len() + 1)));
            assert(r.len() == escape_str(cs).len() + 2);
            match parse_val(s, i) {
                Some((vv, jj)) => {
                    assert(vv =~~= v);
                    assert(jj == i + r.len());
                },
                None => {
                    assert(false);
                },
            }
        },
        ValV::D(d) => {
            assert(digit_val(s[i]) >= 0);
            if match_at(s, i, "true"@) {
                assert(s.subrange(i, i + "true"@.len())[0] == s[i]);
                assert(false);
            }
            if match_at(s, i, "false"@) {
                assert(s.subrange(i, i + "false"@.len())[0] == s[i]);
                assert(false);
            }
            lemma_parse_render_decimal(d, s, i);
            assert(parse_val(s, i) == Some((v, i + render_val(v).len())));
        },
        ValV::B(b) => {
            if !b {
                if match_at(s, i, "true"@) {
                    assert(s.subrange(i, i + "true"@.len())[0] == s[i]);
                    assert(false);
                }
            }
            assert(parse_val(s, i) == Some((v, i + render_val(v).len())));
        },
        ValV::L(items) => {
            if items.len() == 0 {
                assert(render_items(items) == Seq::<char>::empty());
                assert(r =~= seq!['[', ']']);
                assert(s.subrange(i, i + 2)[1] == s[i + 1]);
                assert(s[i + 1] == ']');
                assert(char_at(s, i + 1, ']'));
                assert(items =~= Seq::<ValV>::empty());
                assert(parse_val(s, i) == Some((v, i + render_val(v).len())));
            } else {
                let ri = render_items(items);
                assert(r =~= seq!['['] + (ri + seq![']']));
                lemma_match_at_concat(s, i, seq!['['], ri + seq![']']);
                lemma_match_at_concat(s, i + 1, ri, seq![']']);
                assert(s.subrange(i + 1 + ri.len(), i + 1 + ri.len() + 1)[0] == s[i + 1
                    + ri.len()]);
                assert(char_at(s, i + 1 + ri.len(), ']'));
                assert(val_wf(items[0]));
                lemma_render_val_first(items[0]);
                if items.len() == 1 {
                    assert(ri[0] == render_val(items[0])[0]);
                } else {
                    assert(ri == render_val(items[0]) + seq![',', ' '] + render_items(
                        items.drop_first(),
                    ));
                    assert(ri[0] == render_val(items[0])[0]);
                }
                assert(s.subrange(i + 1, i + 1 + ri.len())[0] == s[i + 1]);
                assert(s[i + 1] == ri[0]);
                assert(s[i + 1] != ']');
                lemma_parse_render_items(items, s, i + 1);
                assert(parse_val(s, i) == Some((v, i + render_val(v).len())));
            }
        },
    }
}

/// A rendered, well-formed item sequence bounded by a closing bracket parses
/// back to exactly itself.
proof fn lemma_parse_render_items(items: Seq<ValV>, s: Seq<char>, i: int)
    requires
        items.len() >= 1,
        items_wf(items),
        match_at(s, i, render_items(items)),
        char_at(s, i + render_items(items).len(), ']'),
    ensures
        parse_items(s, i) == Some((items, i + render_items(items).len())),
    decreases items, 1nat,
{
    let h = items[0];
    let rh = render_val(h);
    assert(val_wf(h));
    lemma_render_val_first(h);
    if items.len() == 1 {
        assert(render_items(items) == rh);
        let j = i + rh.len();
        lemma_parse_render_val(h, s, i);
        assert(s[j] == ']');
        assert(!char_at(s, j, ','));
        assert(seq![h] =~= items);
    } else {
        let rest = items.drop_first();
        let rr = render_items(rest);
        assert(render_items(items) == rh + seq![',', ' '] + rr);
        assert(rh + seq![',', ' '] + rr =~= rh + (seq![',', ' '] + rr));
        lemma_match_at_concat(s, i, rh, seq![',', ' '] + rr);
        let j = i + rh.len();
        lemma_match_at_concat(s, j, seq![',', ' '], rr);
        assert(s.subrange(j, j + 2)[0] == s[j]);
        assert(s.subrange(j, j + 2)[1] == s[j + 1]);
        assert(s[j] == ',' && s[j + 1] == ' ');
        lemma_parse_render_val(h, s, i);
        assert(char_at(s, j, ',') && char_at(s, j + 1, ' '));
        assert(items_wf(rest)) by {
            assert forall|k: int| 0 <= k < rest.len() implies val_wf(#[trigger] rest[k]) by {
                assert(rest[k] == items[k + 1]);
            }
        }
        lemma_parse_render_items(rest, s, j + 2);
        assert(seq![h] + rest =~= items);
    }
}

} // verus!
