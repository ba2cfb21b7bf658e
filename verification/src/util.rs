//! File-name sanitising, JSON path lookups, and splitting of OBJ text that
//! carries its material library inline.
use vstd::prelude::*;

use crate::json::{opt_view, path_keys, spec_nested, JsonView, Value};
use crate::text::{
    chars_of, is_control, is_whitespace, is_ws, lemma_strip_front, push_char, string_from_chars,
    lemma_strip_both_keeps, lemma_strip_both_shape, lemma_strip_both_within, strip_both, strip_front, trim, trim_bounds, trim_chars, trim_pred,
};

verus! {

// ---------------------------------------------------------------------------
// JSON lookups
// ---------------------------------------------------------------------------

/// The value reached by following the object keys of `path` from `value`.
pub fn nested_value<'a>(value: &'a Value, path: &[&str]) -> (r: Option<&'a Value>)
    ensures
        opt_view(r) == spec_nested(value@, path_keys(path@)),
{
    let mut current = value;
    let mut i: usize = 0;
    while i < path.len()
        invariant
            i <= path@.len(),
            spec_nested(value@, path_keys(path@.take(i as int))) == Some(current@),
        decreases path.len() - i,
    {
        let ghost keys = path_keys(path@.take(i + 1));
        assert(keys.drop_last() =~= path_keys(path@.take(i as int)));
        assert(keys.last() == path@[i as int]@);
        match current.get(path[i]) {
            Some(next) => {
                current = next;
            },
            None => {
                proof {
                    assert(path_keys(path@).take(i + 1) =~= keys);
                    assert(spec_nested(value@, keys) is None);
                    lemma_nested_none_extends(value@, path_keys(path@), i as int + 1);
                }
                return None;
            },
        }
        i += 1;
    }
    assert(path@.take(path@.len() as int) =~= path@);
    Some(current)
}

/// Once a path prefix leads nowhere, so does the whole path.
proof fn lemma_nested_none_extends(v: JsonView, path: Seq<Seq<char>>, k: int)
    requires
        0 <= k <= path.len(),
        spec_nested(v, path.take(k)) is None,
    ensures
        spec_nested(v, path) is None,
    decreases path.len() - k,
{
    if k == path.len() {
        assert(path.take(k) =~= path);
    } else {
        assert(path.take(k + 1).drop_last() =~= path.take(k));
        lemma_nested_none_extends(v, path, k + 1);
    }
}

/// The text `to_string` gives for a boolean.
pub open spec fn bool_text(b: bool) -> Seq<char> {
    if b {
        seq!['t', 'r', 'u', 'e']
    } else {
        seq!['f', 'a', 'l', 's', 'e']
    }
}

/// The text of a string, number or boolean value.
pub open spec fn spec_value_string(v: JsonView) -> Option<Seq<char>> {
    match v {
        JsonView::Str(t) => Some(t),
        JsonView::Number(t, _) => Some(t),
        JsonView::Bool(b) => Some(bool_text(b)),
        _ => None,
    }
}

/// The text of a string, number or boolean value; nothing for other values.
pub fn value_to_string(value: &Value) -> (r: Option<String>)
    ensures
        r matches Some(s) ==> spec_value_string(value@) == Some(s@),
        r is None ==> spec_value_string(value@) is None,
{
    match value {
        Value::String(text) => Some(text.clone()),
        Value::Number(number) => Some(number.text.clone()),
        Value::Bool(flag) => {
            let mut s = String::new();
            if *flag {
                push_char(&mut s, 't');
                push_char(&mut s, 'r');
                push_char(&mut s, 'u');
                push_char(&mut s, 'e');
            } else {
                push_char(&mut s, 'f');
                push_char(&mut s, 'a');
                push_char(&mut s, 'l');
                push_char(&mut s, 's');
                push_char(&mut s, 'e');
            }
            assert(s@ =~= bool_text(*flag));
            Some(s)
        },
        _ => None,
    }
}

/// The text at `path`, when the path leads to a string, number or boolean.
pub open spec fn spec_nested_string(v: JsonView, path: Seq<Seq<char>>) -> Option<Seq<char>> {
    match spec_nested(v, path) {
        Some(inner) => spec_value_string(inner),
        None => None,
    }
}

/// `nested_value` followed by `value_to_string`.
pub fn nested_string(value: &Value, path: &[&str]) -> (r: Option<String>)
    ensures
        r matches Some(s) ==> spec_nested_string(value@, path_keys(path@)) == Some(s@),
        r is None ==> spec_nested_string(value@, path_keys(path@)) is None,
{
    match nested_value(value, path) {
        Some(inner) => value_to_string(inner),
        None => None,
    }
}

// ---------------------------------------------------------------------------
// File names
// ---------------------------------------------------------------------------

/// Characters that Windows refuses in file names, and control characters.
pub open spec fn is_unsafe_filename_char(c: char) -> bool {
    c == '<' || c == '>' || c == ':' || c == '"' || c == '/' || c == '\\' || c == '|' || c == '?'
        || c == '*' || is_control(c)
}

pub open spec fn sanitize_char(c: char) -> char {
    if is_unsafe_filename_char(c) {
        '_'
    } else {
        c
    }
}

/// The fallback file name.
pub open spec fn component_word() -> Seq<char> {
    seq!['c', 'o', 'm', 'p', 'o', 'n', 'e', 'n', 't']
}

/// Each unsafe character becomes `_`; then leading and trailing spaces and
/// dots go, then leading and trailing whitespace; an empty result becomes
/// `component`.
pub open spec fn spec_sanitize_filename(name: Seq<char>) -> Seq<char> {
    let cleaned = name.map_values(|c: char| sanitize_char(c));
    let trimmed = trim(strip_both(cleaned, trim_pred(true)));
    if trimmed.len() == 0 {
        component_word()
    } else {
        trimmed
    }
}

fn sanitize_one(c: char) -> (r: char)
    ensures
        r == sanitize_char(c),
{
    if c == '<' || c == '>' || c == ':' || c == '"' || c == '/' || c == '\\' || c == '|' || c
        == '?' || c == '*' || c <= '\u{1f}' || ('\u{7f}' <= c && c <= '\u{9f}') {
        '_'
    } else {
        c
    }
}

/// A sanitised file name is never empty and holds no character that
/// Windows refuses in file names, nor a control character.
pub proof fn lemma_sanitized_name_is_safe(name: Seq<char>)
    ensures
        spec_sanitize_filename(name).len() > 0,
        forall|i: int|
            0 <= i < spec_sanitize_filename(name).len() ==> !is_unsafe_filename_char(
                #[trigger] spec_sanitize_filename(name)[i],
            ),
{
    let cleaned = name.map_values(|c: char| sanitize_char(c));
    let mid = strip_both(cleaned, trim_pred(true));
    let t = trim(mid);
    lemma_strip_both_within(cleaned, trim_pred(true));
    lemma_strip_both_within(mid, |c: char| is_ws(c));
    assert forall|i: int| 0 <= i < t.len() implies !is_unsafe_filename_char(#[trigger] t[i]) by {
        let j = choose|j: int| 0 <= j < mid.len() && mid[j] == t[i];
        let k = choose|k: int| 0 <= k < cleaned.len() && cleaned[k] == mid[j];
        assert(cleaned[k] == sanitize_char(name[k]));
    }
    let r = spec_sanitize_filename(name);
    if t.len() == 0 {
        assert forall|i: int| 0 <= i < r.len() implies !is_unsafe_filename_char(#[trigger] r[i]) by {
            assert(r == component_word());
        }
    }
}

/// No whitespace character other than the space and the control
/// characters: the names on which sanitising settles at once.
pub open spec fn no_odd_whitespace(name: Seq<char>) -> bool {
    forall|i: int| 0 <= i < name.len() && is_ws(#[trigger] name[i]) ==> name[i] == ' ' || is_control(
        name[i],
    )
}

/// For a name with no whitespace but spaces and control characters, the
/// sanitised name neither starts nor ends with a space or a dot, and
/// sanitising it again changes nothing.
pub proof fn lemma_sanitize_settles(name: Seq<char>)
    requires
        no_odd_whitespace(name),
    ensures
        spec_sanitize_filename(name)[0] != ' ' && spec_sanitize_filename(name)[0] != '.',
        spec_sanitize_filename(name).last() != ' ' && spec_sanitize_filename(name).last() != '.',
        spec_sanitize_filename(spec_sanitize_filename(name)) == spec_sanitize_filename(name),
{
    let p = trim_pred(true);
    let q = |c: char| is_ws(c);
    let cleaned = name.map_values(|c: char| sanitize_char(c));
    let mid = strip_both(cleaned, p);
    lemma_strip_both_within(cleaned, p);
    lemma_strip_both_shape(cleaned, p);
    lemma_sanitized_name_is_safe(name);
    // The only whitespace left after cleaning is the space.
    assert forall|i: int| 0 <= i < mid.len() && is_ws(#[trigger] mid[i]) implies mid[i] == ' ' by {
        let k = choose|k: int| 0 <= k < cleaned.len() && cleaned[k] == mid[i];
        assert(cleaned[k] == sanitize_char(name[k]));
        if !is_unsafe_filename_char(name[k]) {
            assert(name[k] == mid[i]);
        }
    }
    if mid.len() > 0 {
        assert(!is_ws(mid[0]));
        assert(mid.last() == mid[mid.len() - 1]);
        assert(!is_ws(mid.last()));
    }
    lemma_strip_both_keeps(mid, q);
    assert(trim(mid) == mid);
    let r = spec_sanitize_filename(name);
    assert(r.len() > 0);
    if mid.len() == 0 {
        assert(r == component_word());
    } else {
        assert(r == mid);
    }
    assert(!p(r[0]) && !p(r.last()));
    // Sanitising `r` again: every character is safe, and the ends are kept.
    let c2 = r.map_values(|c: char| sanitize_char(c));
    assert forall|i: int| 0 <= i < r.len() implies c2[i] == r[i] by {
        assert(!is_unsafe_filename_char(r[i]));
    }
    assert(c2 =~= r);
    lemma_strip_both_keeps(r, p);
    if r == component_word() {
        assert(!is_ws(r[0]) && !is_ws(r.last()));
    } else {
        assert(!is_ws(r[0]) && !is_ws(r.last()));
    }
    lemma_strip_both_keeps(r, q);
}

/// A file name made safe for Windows.
pub fn sanitize_filename(name: &str) -> (r: String)
    ensures
        r@ == spec_sanitize_filename(name@),
{
    let chars = chars_of(name);
    let mut cleaned: Vec<char> = Vec::new();
    let mut i: usize = 0;
    while i < chars.len()
        invariant
            i <= chars@.len(),
            cleaned@ == chars@.take(i as int).map_values(|c: char| sanitize_char(c)),
        decreases chars.len() - i,
    {
        cleaned.push(sanitize_one(chars[i]));
        assert(chars@.take(i + 1).map_values(|c: char| sanitize_char(c)) =~= chars@.take(
            i as int,
        ).map_values(|c: char| sanitize_char(c)).push(sanitize_char(chars@[i as int])));
        i += 1;
    }
    assert(chars@.take(chars@.len() as int) =~= chars@);
    let (lo, hi) = trim_bounds(cleaned.as_slice(), true);
    let mut middle: Vec<char> = Vec::new();
    let mut k = lo;
    while k < hi
        invariant
            lo <= k <= hi <= cleaned@.len(),
            middle@ == cleaned@.subrange(lo as int, k as int),
        decreases hi - k,
    {
        middle.push(cleaned[k]);
        assert(cleaned@.subrange(lo as int, k + 1) =~= cleaned@.subrange(lo as int, k as int).push(
            cleaned@[k as int],
        ));
        k += 1;
    }
    let trimmed = trim_chars(middle.as_slice());
    if trimmed.len() == 0 {
        let r = string_from_chars(&['c', 'o', 'm', 'p', 'o', 'n', 'e', 'n', 't']);
        assert(r@ =~= component_word());
        r
    } else {
        string_from_chars(trimmed.as_slice())
    }
}

// ---------------------------------------------------------------------------
// OBJ / MTL
// ---------------------------------------------------------------------------

/// A line without the `\r` of a `\r\n` ending.
pub open spec fn strip_cr(l: Seq<char>) -> Seq<char> {
    if l.len() > 0 && l.last() == '\r' {
        l.drop_last()
    } else {
        l
    }
}

/// The lines finished so far, and the line being read, after reading `s`.
pub open spec fn lines_state(s: Seq<char>) -> (Seq<Seq<char>>, Seq<char>)
    decreases s.len(),
{
    if s.len() == 0 {
        (seq![], seq![])
    } else {
        let (done, cur) = lines_state(s.drop_last());
        if s.last() == '\n' {
            (done.push(strip_cr(cur)), seq![])
        } else {
            (done, cur.push(s.last()))
        }
    }
}

/// `str::lines`: the text split at each `\n`, a `\r` before it dropped, and
/// no empty line after a final `\n`.
pub open spec fn lines(s: Seq<char>) -> Seq<Seq<char>> {
    let (done, cur) = lines_state(s);
    if cur.len() == 0 {
        done
    } else {
        done.push(cur)
    }
}

/// The lines joined with `\n` between them.
pub open spec fn join_lines(ls: Seq<Seq<char>>) -> Seq<char>
    decreases ls.len(),
{
    if ls.len() == 0 {
        seq![]
    } else if ls.len() == 1 {
        ls[0]
    } else {
        join_lines(ls.drop_last()) + seq!['\n'] + ls.last()
    }
}

/// The first whitespace-separated word of a line (`split_whitespace().next()`),
/// empty when there is none.
pub open spec fn first_token(l: Seq<char>) -> Seq<char> {
    take_word(strip_front(l, |c: char| is_ws(c)))
}

pub open spec fn take_word(s: Seq<char>) -> Seq<char>
    decreases s.len(),
{
    if s.len() == 0 || is_ws(s[0]) {
        seq![]
    } else {
        seq![s[0]] + take_word(s.drop_first())
    }
}

pub open spec fn newmtl_word() -> Seq<char> {
    seq!['n', 'e', 'w', 'm', 't', 'l']
}

/// The OBJ statements that end a material section.
pub open spec fn is_stop_token(t: Seq<char>) -> bool {
    ||| t == newmtl_word()
    ||| t == seq!['v']
    ||| t == seq!['v', 't']
    ||| t == seq!['v', 'n']
    ||| t == seq!['f']
    ||| t == seq!['o']
    ||| t == seq!['g']
    ||| t == seq!['s']
    ||| t == seq!['u', 's', 'e', 'm', 't', 'l']
    ||| t == seq!['m', 't', 'l', 'l', 'i', 'b']
}

pub open spec fn starts_with(l: Seq<char>, p: Seq<char>) -> bool {
    l.len() >= p.len() && l.subrange(0, p.len() as int) == p
}

/// The lines from `j` on, up to the first one whose first word ends a section.
pub open spec fn continuation(ls: Seq<Seq<char>>, j: int) -> Seq<Seq<char>>
    decreases ls.len() - j,
{
    if 0 <= j < ls.len() && !is_stop_token(first_token(ls[j])) {
        seq![ls[j]] + continuation(ls, j + 1)
    } else {
        seq![]
    }
}

/// The material lines that line `i` opens: itself and its continuation when
/// it starts with `newmtl`, nothing otherwise.
pub open spec fn section_at(ls: Seq<Seq<char>>, i: int) -> Seq<Seq<char>> {
    if starts_with(ls[i], newmtl_word()) {
        seq![ls[i]] + continuation(ls, i + 1)
    } else {
        seq![]
    }
}

/// The material lines opened by the first `i` lines, in order.
pub open spec fn sections_upto(ls: Seq<Seq<char>>, i: int) -> Seq<Seq<char>>
    decreases i,
{
    if i <= 0 {
        seq![]
    } else {
        sections_upto(ls, i - 1) + section_at(ls, i - 1)
    }
}

/// A text ending in a newline: `\n` is added unless it ends with one.
pub open spec fn ensure_final_newline(t: Seq<char>) -> Seq<char> {
    if t.len() > 0 && t.last() == '\n' {
        t
    } else {
        t.push('\n')
    }
}

/// The OBJ text of `content`: all its lines, each ended by a newline.
pub open spec fn spec_obj_text(content: Seq<char>) -> Seq<char> {
    ensure_final_newline(join_lines(lines(content)))
}

/// The MTL text of `content`: every `newmtl` section, with a final newline
/// unless it is empty.
pub open spec fn spec_mtl_text(content: Seq<char>) -> Seq<char> {
    let ls = lines(content);
    let m = join_lines(sections_upto(ls, ls.len() as int));
    if m.len() == 0 {
        m
    } else {
        ensure_final_newline(m)
    }
}

pub open spec fn views(v: Seq<Vec<char>>) -> Seq<Seq<char>> {
    v.map_values(|l: Vec<char>| l@)
}

fn copy_chars(v: &Vec<char>) -> (r: Vec<char>)
    ensures
        r@ == v@,
{
    let mut r: Vec<char> = Vec::new();
    let mut i: usize = 0;
    while i < v.len()
        invariant
            i <= v@.len(),
            r@ == v@.take(i as int),
        decreases v.len() - i,
    {
        r.push(v[i]);
        assert(v@.take(i + 1) =~= v@.take(i as int).push(v@[i as int]));
        i += 1;
    }
    assert(v@.take(v@.len() as int) =~= v@);
    r
}

/// `str::lines`, as character vectors.
pub fn split_lines(chars: &Vec<char>) -> (r: Vec<Vec<char>>)
    ensures
        views(r@) == lines(chars@),
{
    let mut done: Vec<Vec<char>> = Vec::new();
    let mut cur: Vec<char> = Vec::new();
    let mut i: usize = 0;
    while i < chars.len()
        invariant
            i <= chars@.len(),
            lines_state(chars@.take(i as int)) == (views(done@), cur@),
        decreases chars.len() - i,
    {
        let c = chars[i];
        let ghost pre = chars@.take(i as int);
        assert(chars@.take(i + 1).drop_last() =~= pre);
        assert(chars@.take(i + 1).last() == c);
        if c == '\n' {
            let mut line = cur;
            let n = line.len();
            if n > 0 && line[n - 1] == '\r' {
                line.pop();
                assert(line@ =~= strip_cr(cur@));
            }
            let ghost old_done = done@;
            done.push(line);
            assert(views(done@) =~= views(old_done).push(strip_cr(cur@)));
            cur = Vec::new();
            assert(cur@ =~= seq![]);
        } else {
            cur.push(c);
        }
        i += 1;
    }
    assert(chars@.take(chars@.len() as int) =~= chars@);
    if cur.len() > 0 {
        let ghost old_done = done@;
        done.push(cur);
        assert(views(done@) =~= views(old_done).push(cur@));
    }
    done
}

/// `lines.join("\n")`.
fn join_with_newlines(ls: &Vec<Vec<char>>) -> (r: Vec<char>)
    ensures
        r@ == join_lines(views(ls@)),
{
    let mut out: Vec<char> = Vec::new();
    let mut i: usize = 0;
    while i < ls.len()
        invariant
            i <= ls@.len(),
            out@ == join_lines(views(ls@).take(i as int)),
        decreases ls.len() - i,
    {
        let ghost before = out@;
        let ghost t = views(ls@).take(i + 1);
        assert(t.drop_last() =~= views(ls@).take(i as int));
        assert(t.last() == ls@[i as int]@);
        if i > 0 {
            out.push('\n');
        }
        let line = &ls[i];
        let mut k: usize = 0;
        let ghost mid = out@;
        while k < line.len()
            invariant
                k <= line@.len(),
                out@ == mid + line@.take(k as int),
            decreases line.len() - k,
        {
            out.push(line[k]);
            assert(line@.take(k + 1) =~= line@.take(k as int).push(line@[k as int]));
            k += 1;
        }
        assert(line@.take(line@.len() as int) =~= line@);
        if i == 0 {
            assert(t.len() == 1);
            assert(out@ =~= join_lines(t));
        } else {
            assert(out@ =~= before + seq!['\n'] + line@);
        }
        i += 1;
    }
    assert(views(ls@).take(ls@.len() as int) =~= views(ls@));
    out
}

fn chars_equal(a: &Vec<char>, b: &[char]) -> (r: bool)
    ensures
        r == (a@ == b@),
{
    if a.len() != b.len() {
        return false;
    }
    let mut i: usize = 0;
    while i < a.len()
        invariant
            a@.len() == b@.len(),
            i <= a@.len(),
            forall|k: int| 0 <= k < i ==> a@[k] == b@[k],
        decreases a.len() - i,
    {
        if a[i] != b[i] {
            return false;
        }
        i += 1;
    }
    assert(a@ =~= b@);
    true
}

/// The first whitespace-separated word of a line.
fn first_token_of(l: &Vec<char>) -> (r: Vec<char>)
    ensures
        r@ == first_token(l@),
{
    let ghost p = |c: char| is_ws(c);
    let n = l.len();
    let mut lo: usize = 0;
    while lo < n && is_whitespace(l[lo])
        invariant
            lo <= n == l@.len(),
            forall|i: int| 0 <= i < lo ==> is_ws(#[trigger] l@[i]),
        decreases n - lo,
    {
        lo += 1;
    }
    proof {
        lemma_strip_front(l@, p, lo as int);
    }
    let ghost rest = l@.subrange(lo as int, n as int);
    let mut r: Vec<char> = Vec::new();
    let mut k = lo;
    while k < n && !is_whitespace(l[k])
        invariant
            lo <= k <= n == l@.len(),
            rest == l@.subrange(lo as int, n as int),
            r@ == l@.subrange(lo as int, k as int),
            forall|i: int| lo <= i < k ==> !is_ws(#[trigger] l@[i]),
            take_word(rest) == r@ + take_word(l@.subrange(k as int, n as int)),
        decreases n - k,
    {
        let ghost tail = l@.subrange(k as int, n as int);
        assert(tail.drop_first() =~= l@.subrange(k + 1, n as int));
        r.push(l[k]);
        assert(l@.subrange(lo as int, k + 1) =~= l@.subrange(lo as int, k as int).push(l@[k as int]));
        assert(r@ + take_word(l@.subrange(k + 1, n as int)) =~= l@.subrange(lo as int, k as int) + (
        seq![l@[k as int]] + take_word(tail.drop_first())));
        k += 1;
    }
    assert(take_word(l@.subrange(k as int, n as int)) =~= seq![]);
    assert(r@ + seq![] =~= r@);
    r
}

fn is_stop(t: &Vec<char>) -> (r: bool)
    ensures
        r == is_stop_token(t@),
{
    let w_newmtl = ['n', 'e', 'w', 'm', 't', 'l'];
    let w_v = ['v'];
    let w_vt = ['v', 't'];
    let w_vn = ['v', 'n'];
    let w_f = ['f'];
    let w_o = ['o'];
    let w_g = ['g'];
    let w_s = ['s'];
    let w_usemtl = ['u', 's', 'e', 'm', 't', 'l'];
    let w_mtllib = ['m', 't', 'l', 'l', 'i', 'b'];
    assert(w_newmtl@ =~= newmtl_word());
    assert(w_v@ =~= seq!['v']);
    assert(w_vt@ =~= seq!['v', 't']);
    assert(w_vn@ =~= seq!['v', 'n']);
    assert(w_f@ =~= seq!['f']);
    assert(w_o@ =~= seq!['o']);
    assert(w_g@ =~= seq!['g']);
    assert(w_s@ =~= seq!['s']);
    assert(w_usemtl@ =~= seq!['u', 's', 'e', 'm', 't', 'l']);
    assert(w_mtllib@ =~= seq!['m', 't', 'l', 'l', 'i', 'b']);
    chars_equal(t, &w_newmtl) || chars_equal(t, &w_v) || chars_equal(t, &w_vt) || chars_equal(
        t,
        &w_vn,
    ) || chars_equal(t, &w_f) || chars_equal(t, &w_o) || chars_equal(t, &w_g) || chars_equal(
        t,
        &w_s,
    ) || chars_equal(t, &w_usemtl) || chars_equal(t, &w_mtllib)
}

fn starts_with_newmtl(l: &Vec<char>) -> (r: bool)
    ensures
        r == starts_with(l@, newmtl_word()),
{
    if l.len() < 6 {
        return false;
    }
    let r = l[0] == 'n' && l[1] == 'e' && l[2] == 'w' && l[3] == 'm' && l[4] == 't' && l[5] == 'l';
    assert(r == (l@.subrange(0, 6) =~= newmtl_word()));
    r
}

proof fn lemma_continuation_prefix(ls: Seq<Seq<char>>, k: int, j: int)
    requires
        0 <= k <= j <= ls.len(),
        forall|m: int| k <= m < j ==> !is_stop_token(#[trigger] first_token(ls[m])),
    ensures
        continuation(ls, k) == ls.subrange(k, j) + continuation(ls, j),
    decreases j - k,
{
    if k == j {
        assert(ls.subrange(k, j) =~= seq![]);
        assert(seq![] + continuation(ls, j) =~= continuation(ls, j));
    } else {
        lemma_continuation_prefix(ls, k + 1, j);
        assert(ls.subrange(k, j) =~= seq![ls[k]] + ls.subrange(k + 1, j));
        assert(seq![ls[k]] + (ls.subrange(k + 1, j) + continuation(ls, j)) =~= (seq![ls[k]]
            + ls.subrange(k + 1, j)) + continuation(ls, j));
    }
}

/// `a` is `b` with some lines left out: its lines are lines of `b`, taken
/// in order, each position of `b` at most once.
pub open spec fn is_line_subsequence(a: Seq<Seq<char>>, b: Seq<Seq<char>>) -> bool {
    exists|idx: Seq<int>|
        #![trigger idx.len()]
        idx.len() == a.len() && (forall|k: int|
            0 <= k < a.len() ==> 0 <= #[trigger] idx[k] < b.len() && b[idx[k]] == a[k]) && (forall|
            k1: int,
            k2: int,
        | 0 <= k1 < k2 < a.len() ==> #[trigger] idx[k1] < #[trigger] idx[k2])
}

/// Every line that starts with `newmtl` has `newmtl` as its first word
/// (no line starts `newmtl` followed directly by another non-space
/// character).
pub open spec fn newmtl_lines_are_words(ls: Seq<Seq<char>>) -> bool {
    forall|m: int|
        0 <= m < ls.len() && starts_with(#[trigger] ls[m], newmtl_word()) ==> first_token(ls[m])
            == newmtl_word()
}

proof fn lemma_continuation_shape(ls: Seq<Seq<char>>, j: int)
    requires
        0 <= j <= ls.len(),
    ensures
        j + continuation(ls, j).len() <= ls.len(),
        forall|k: int|
            0 <= k < continuation(ls, j).len() ==> #[trigger] continuation(ls, j)[k] == ls[j + k]
                && !is_stop_token(first_token(ls[j + k])),
        j + continuation(ls, j).len() == ls.len() || is_stop_token(
            first_token(ls[j + continuation(ls, j).len()]),
        ),
    decreases ls.len() - j,
{
    if j < ls.len() && !is_stop_token(first_token(ls[j])) {
        lemma_continuation_shape(ls, j + 1);
        let c = continuation(ls, j);
        let c1 = continuation(ls, j + 1);
        assert(c == seq![ls[j]] + c1);
        assert forall|k: int| 0 <= k < c.len() implies #[trigger] c[k] == ls[j + k]
            && !is_stop_token(first_token(ls[j + k])) by {
            if k > 0 {
                assert(c[k] == c1[k - 1]);
            }
        }
    }
}

proof fn lemma_sections_index(ls: Seq<Seq<char>>, i: int) -> (idx: Seq<int>)
    requires
        0 <= i <= ls.len(),
        newmtl_lines_are_words(ls),
    ensures
        idx.len() == sections_upto(ls, i).len(),
        forall|k: int|
            0 <= k < idx.len() ==> 0 <= #[trigger] idx[k] < ls.len() && ls[idx[k]] == sections_upto(
                ls,
                i,
            )[k],
        forall|k1: int, k2: int| 0 <= k1 < k2 < idx.len() ==> #[trigger] idx[k1] < #[trigger] idx[k2],
        forall|k: int, j: int|
            0 <= k < idx.len() && i <= j < ls.len() && starts_with(#[trigger] ls[j], newmtl_word())
                ==> #[trigger] idx[k] < j,
    decreases i,
{
    if i == 0 {
        Seq::empty()
    } else {
        let prev = lemma_sections_index(ls, i - 1);
        let s0 = sections_upto(ls, i - 1);
        assert(sections_upto(ls, i) == s0 + section_at(ls, i - 1));
        if !starts_with(ls[i - 1], newmtl_word()) {
            assert(section_at(ls, i - 1) =~= seq![]);
            assert(sections_upto(ls, i) =~= s0);
            prev
        } else {
            let a = i - 1;
            lemma_continuation_shape(ls, i);
            let cont = continuation(ls, i);
            let c = cont.len();
            let sec = section_at(ls, a);
            assert(sec == seq![ls[a]] + cont);
            let fresh = Seq::new((c + 1) as nat, |k: int| a + k);
            let idx = prev + fresh;
            let all = sections_upto(ls, i);
            assert(all == s0 + sec);
            assert forall|k: int| 0 <= k < idx.len() implies 0 <= #[trigger] idx[k] < ls.len()
                && ls[idx[k]] == all[k] by {
                if k < prev.len() {
                    assert(idx[k] == prev[k]);
                    assert(all[k] == s0[k]);
                } else {
                    let m = k - prev.len();
                    assert(idx[k] == a + m);
                    assert(all[k] == sec[m]);
                    if m > 0 {
                        assert(sec[m] == cont[m - 1]);
                    }
                }
            }
            assert forall|k1: int, k2: int| 0 <= k1 < k2 < idx.len() implies #[trigger] idx[k1]
                < #[trigger] idx[k2] by {
                if k2 < prev.len() {
                    assert(idx[k1] == prev[k1] && idx[k2] == prev[k2]);
                } else if k1 < prev.len() {
                    assert(idx[k1] == prev[k1]);
                    assert(prev[k1] < a);
                } else {
                    assert(idx[k1] == a + (k1 - prev.len()));
                }
            }
            assert forall|k: int, j: int|
                0 <= k < idx.len() && i <= j < ls.len() && starts_with(#[trigger] ls[j], newmtl_word())
                    implies #[trigger] idx[k] < j by {
                assert(first_token(ls[j]) == newmtl_word());
                assert(is_stop_token(first_token(ls[j])));
                if j <= a + c {
                    assert(cont[j - i] == ls[j]);
                    assert(!is_stop_token(first_token(ls[i + (j - i)])));
                }
                if k < prev.len() {
                    assert(idx[k] == prev[k]);
                    assert(prev[k] < a);
                } else {
                    assert(idx[k] == a + (k - prev.len()));
                }
            }
            idx
        }
    }
}

/// The material lines are lines of the input taken in order, each at most
/// as often as it occurs, provided every line starting `newmtl` has
/// `newmtl` as its first word: a line is never written into two material
/// sections.
pub proof fn lemma_mtl_lines_come_from_input(content: Seq<char>)
    requires
        newmtl_lines_are_words(lines(content)),
    ensures
        is_line_subsequence(
            sections_upto(lines(content), lines(content).len() as int),
            lines(content),
        ),
{
    let ls = lines(content);
    let idx = lemma_sections_index(ls, ls.len() as int);
    assert(idx.len() == sections_upto(ls, ls.len() as int).len());
}

/// A material section holds one `newmtl` line, its first: no later line of
/// the section has `newmtl` as its first word.
pub proof fn lemma_section_has_one_newmtl(ls: Seq<Seq<char>>, i: int)
    requires
        0 <= i < ls.len(),
    ensures
        forall|k: int|
            1 <= k < section_at(ls, i).len() ==> first_token(#[trigger] section_at(ls, i)[k])
                != newmtl_word(),
{
    lemma_continuation_shape(ls, i + 1);
    if starts_with(ls[i], newmtl_word()) {
        let cont = continuation(ls, i + 1);
        let sec = section_at(ls, i);
        assert forall|k: int| 1 <= k < sec.len() implies first_token(#[trigger] sec[k])
            != newmtl_word() by {
            assert(sec[k] == cont[k - 1]);
            assert(cont[k - 1] == ls[i + 1 + (k - 1)]);
        }
    }
}

/// A text ending in a newline.
fn with_final_newline(mut t: Vec<char>) -> (r: Vec<char>)
    ensures
        r@ == ensure_final_newline(t@),
{
    let n = t.len();
    if n > 0 && t[n - 1] == '\n' {
        t
    } else {
        t.push('\n');
        t
    }
}

/// Splits OBJ text in two: the OBJ text itself (every line, newline-ended),
/// and the material sections (`newmtl` lines and the lines after each up to
/// the next OBJ statement), newline-ended unless empty.
pub fn split_obj_and_mtl(content: &str) -> (r: (String, String))
    ensures
        r.0@ == spec_obj_text(content@),
        r.1@ == spec_mtl_text(content@),
{
    let chars = chars_of(content);
    let ls = split_lines(&chars);
    let ghost lv = views(ls@);
    let mut mtl: Vec<Vec<char>> = Vec::new();
    let mut i: usize = 0;
    while i < ls.len()
        invariant
            i <= ls@.len(),
            lv == views(ls@),
            views(mtl@) == sections_upto(lv, i as int),
        decreases ls.len() - i,
    {
        assert(lv[i as int] == ls@[i as int]@);
        if starts_with_newmtl(&ls[i]) {
            let ghost base = views(mtl@);
            mtl.push(copy_chars(&ls[i]));
            assert(views(mtl@) =~= base + seq![lv[i as int]]);
            let mut j = i + 1;
            while j < ls.len()
                invariant
                    i < j <= ls@.len(),
                    lv == views(ls@),
                    views(mtl@) == base + seq![lv[i as int]] + lv.subrange(i + 1, j as int),
                    forall|m: int| i + 1 <= m < j ==> !is_stop_token(#[trigger] first_token(lv[m])),
                ensures
                    i < j <= ls@.len(),
                    views(mtl@) == base + seq![lv[i as int]] + lv.subrange(i + 1, j as int),
                    forall|m: int| i + 1 <= m < j ==> !is_stop_token(#[trigger] first_token(lv[m])),
                    j == ls@.len() || is_stop_token(first_token(lv[j as int])),
                decreases ls.len() - j,
            {
                let token = first_token_of(&ls[j]);
                assert(lv[j as int] == ls@[j as int]@);
                if is_stop(&token) {
                    break;
                }
                let ghost before = views(mtl@);
                mtl.push(copy_chars(&ls[j]));
                assert(views(mtl@) =~= before.push(lv[j as int]));
                assert(lv.subrange(i + 1, j + 1) =~= lv.subrange(i + 1, j as int).push(lv[j as int]));
                assert(views(mtl@) =~= base + seq![lv[i as int]] + lv.subrange(i + 1, j + 1));
                j += 1;
            }
            proof {
                lemma_continuation_prefix(lv, i + 1, j as int);
                if j < ls.len() {
                    assert(continuation(lv, j as int) =~= seq![]);
                } else {
                    assert(continuation(lv, j as int) =~= seq![]);
                }
                assert(lv.subrange(i + 1, j as int) + seq![] =~= lv.subrange(i + 1, j as int));
                assert(section_at(lv, i as int) =~= seq![lv[i as int]] + lv.subrange(i + 1, j as int));
                assert(sections_upto(lv, i + 1) == sections_upto(lv, i as int) + section_at(
                    lv,
                    i as int,
                ));
                assert(views(mtl@) =~= sections_upto(lv, i + 1));
            }
        } else {
            assert(section_at(lv, i as int) =~= seq![]);
            assert(sections_upto(lv, i + 1) =~= sections_upto(lv, i as int));
        }
        i += 1;
    }
    let obj = with_final_newline(join_with_newlines(&ls));
    let mtl_joined = join_with_newlines(&mtl);
    let mtl_chars = if mtl_joined.len() == 0 {
        mtl_joined
    } else {
        with_final_newline(mtl_joined)
    };
    (string_from_chars(obj.as_slice()), string_from_chars(mtl_chars.as_slice()))
}

} // verus!
