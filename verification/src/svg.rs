//! Text handling of EasyEDA symbol sources: whitespace-normalised labels and
//! the tokens of SVG path data.
use vstd::prelude::*;

use crate::text::{
    chars_of, is_ascii_alpha, is_whitespace, is_ws, string_from_chars, trim, trim_chars,
};

verus! {

// ---------------------------------------------------------------------------
// Words
// ---------------------------------------------------------------------------

/// The words found so far, and the word being read, after reading `s`.
pub open spec fn words_state(s: Seq<char>) -> (Seq<Seq<char>>, Seq<char>)
    decreases s.len(),
{
    if s.len() == 0 {
        (Seq::empty(), Seq::empty())
    } else {
        let (done, cur) = words_state(s.drop_last());
        if is_ws(s.last()) {
            if cur.len() > 0 {
                (done.push(cur), Seq::empty())
            } else {
                (done, Seq::empty())
            }
        } else {
            (done, cur.push(s.last()))
        }
    }
}

/// `split_whitespace`: the maximal runs of non-whitespace characters.
pub open spec fn words(s: Seq<char>) -> Seq<Seq<char>> {
    let (done, cur) = words_state(s);
    if cur.len() > 0 {
        done.push(cur)
    } else {
        done
    }
}

/// The parts joined with one `sep` between each two.
pub open spec fn join_with(parts: Seq<Seq<char>>, sep: char) -> Seq<char>
    decreases parts.len(),
{
    if parts.len() == 0 {
        Seq::empty()
    } else if parts.len() == 1 {
        parts[0]
    } else {
        join_with(parts.drop_last(), sep) + seq![sep] + parts.last()
    }
}

/// A label's text with each run of whitespace made one space and none at
/// either end.
pub open spec fn spec_normalize_text_value(text: Seq<char>) -> Seq<char> {
    join_with(words(text), ' ')
}

fn push_part(out: &mut Vec<char>, count: usize, part: &Vec<char>, Ghost(parts): Ghost<Seq<Seq<char>>>)
    requires
        old(out)@ == join_with(parts, ' '),
        count == parts.len(),
    ensures
        final(out)@ == join_with(parts.push(part@), ' '),
{
    if count > 0 {
        out.push(' ');
    }
    let mut k: usize = 0;
    let ghost mid = out@;
    while k < part.len()
        invariant
            k <= part@.len(),
            out@ == mid + part@.take(k as int),
        decreases part.len() - k,
    {
        out.push(part[k]);
        assert(part@.take(k + 1) =~= part@.take(k as int).push(part@[k as int]));
        k += 1;
    }
    assert(part@.take(k as int) =~= part@);
    assert(parts.push(part@).drop_last() =~= parts);
    if count == 0 {
        assert(out@ =~= join_with(parts.push(part@), ' '));
    } else {
        assert(out@ =~= join_with(parts, ' ') + seq![' '] + part@);
    }
}

/// A label's text with its whitespace normalised.
pub fn normalize_text_value(text: &str) -> (r: String)
    ensures
        r@ == spec_normalize_text_value(text@),
{
    let chars = chars_of(text);
    let mut out: Vec<char> = Vec::new();
    let mut count: usize = 0;
    let mut cur: Vec<char> = Vec::new();
    let ghost mut done: Seq<Seq<char>> = Seq::empty();
    let mut i: usize = 0;
    while i < chars.len()
        invariant
            i <= chars@.len(),
            words_state(chars@.take(i as int)) == (done, cur@),
            out@ == join_with(done, ' '),
            count == done.len(),
            count <= i,
        decreases chars.len() - i,
    {
        let c = chars[i];
        assert(chars@.take(i + 1).drop_last() =~= chars@.take(i as int));
        assert(chars@.take(i + 1).last() == c);
        if is_whitespace(c) {
            if cur.len() > 0 {
                push_part(&mut out, count, &cur, Ghost(done));
                proof {
                    done = done.push(cur@);
                }
                count += 1;
                cur = Vec::new();
                assert(cur@ =~= Seq::<char>::empty());
            }
        } else {
            cur.push(c);
        }
        i += 1;
    }
    assert(chars@.take(i as int) =~= text@);
    if cur.len() > 0 {
        push_part(&mut out, count, &cur, Ghost(done));
    }
    string_from_chars(out.as_slice())
}

/// Words as `split_whitespace` gives them: each is non-empty and holds no
/// whitespace.
pub open spec fn proper_words(ws: Seq<Seq<char>>) -> bool {
    forall|k: int|
        0 <= k < ws.len() ==> (#[trigger] ws[k]).len() > 0 && forall|j: int|
            0 <= j < ws[k].len() ==> !is_ws(#[trigger] ws[k][j])
}

proof fn lemma_words_state_proper(s: Seq<char>)
    ensures
        proper_words(words_state(s).0),
        forall|j: int| 0 <= j < words_state(s).1.len() ==> !is_ws(#[trigger] words_state(s).1[j]),
    decreases s.len(),
{
    if s.len() > 0 {
        lemma_words_state_proper(s.drop_last());
        let (done, cur) = words_state(s.drop_last());
        if !is_ws(s.last()) {
            let c2 = cur.push(s.last());
            assert forall|j: int| 0 <= j < c2.len() implies !is_ws(#[trigger] c2[j]) by {
                if j < cur.len() {
                    assert(c2[j] == cur[j]);
                }
            }
        } else if cur.len() > 0 {
            let d2 = done.push(cur);
            assert forall|k: int| 0 <= k < d2.len() implies (#[trigger] d2[k]).len() > 0
                && forall|j: int| 0 <= j < d2[k].len() ==> !is_ws(#[trigger] d2[k][j]) by {
                if k < done.len() {
                    assert(d2[k] == done[k]);
                }
            }
        }
    }
}

proof fn lemma_words_proper(s: Seq<char>)
    ensures
        proper_words(words(s)),
{
    lemma_words_state_proper(s);
    let (done, cur) = words_state(s);
    if cur.len() > 0 {
        let d2 = done.push(cur);
        assert forall|k: int| 0 <= k < d2.len() implies (#[trigger] d2[k]).len() > 0 && forall|j: int|
            0 <= j < d2[k].len() ==> !is_ws(#[trigger] d2[k][j]) by {
            if k < done.len() {
                assert(d2[k] == done[k]);
            }
        }
    }
}

/// Reading characters that are not whitespace only extends the word being
/// read.
proof fn lemma_words_state_extend(s: Seq<char>, w: Seq<char>)
    requires
        forall|j: int| 0 <= j < w.len() ==> !is_ws(#[trigger] w[j]),
    ensures
        words_state(s + w) == (words_state(s).0, words_state(s).1 + w),
    decreases w.len(),
{
    if w.len() == 0 {
        assert(s + w =~= s);
        assert(words_state(s).1 + w =~= words_state(s).1);
    } else {
        let w2 = w.drop_last();
        lemma_words_state_extend(s, w2);
        assert((s + w).drop_last() =~= s + w2);
        assert((s + w).last() == w.last());
        assert(words_state(s).1 + w2 + seq![w.last()] =~= words_state(s).1 + w);
    }
}

/// Proper words joined by single spaces are read back as the same words,
/// the last one still being read.
proof fn lemma_words_state_of_join(ps: Seq<Seq<char>>)
    requires
        proper_words(ps),
        ps.len() > 0,
    ensures
        words_state(join_with(ps, ' ')) == (ps.drop_last(), ps.last()),
        join_with(ps, ' ').len() > 0,
    decreases ps.len(),
{
    if ps.len() == 1 {
        let e: Seq<char> = Seq::empty();
        assert(ps[0].len() > 0);
        lemma_words_state_extend(e, ps[0]);
        assert(e + ps[0] =~= ps[0]);
        assert(e + ps[0] =~= ps[0]);
        assert(ps.drop_last() =~= Seq::<Seq<char>>::empty());
        assert(words_state(e).1 + ps[0] =~= ps[0]);
    } else {
        let front = ps.drop_last();
        assert forall|k: int| 0 <= k < front.len() implies (#[trigger] front[k]).len() > 0
            && forall|j: int| 0 <= j < front[k].len() ==> !is_ws(#[trigger] front[k][j]) by {
            assert(front[k] == ps[k]);
        }
        lemma_words_state_of_join(front);
        let a = join_with(front, ' ');
        let sp = a + seq![' '];
        assert(sp.drop_last() =~= a);
        assert(is_ws(sp.last()));
        assert(front.last().len() > 0);
        assert(front.drop_last().push(front.last()) =~= front);
        assert(words_state(sp) == (front, Seq::<char>::empty()));
        let last = ps.last();
        assert(last == ps[ps.len() - 1]);
        lemma_words_state_extend(sp, last);
        assert(join_with(ps, ' ') == sp + last);
        assert(Seq::<char>::empty() + last =~= last);
    }
}

/// The words of proper words joined by single spaces are those words.
pub proof fn lemma_words_of_join(ps: Seq<Seq<char>>)
    requires
        proper_words(ps),
    ensures
        words(join_with(ps, ' ')) == ps,
{
    if ps.len() == 0 {
        assert(words(Seq::<char>::empty()) =~= ps);
    } else {
        lemma_words_state_of_join(ps);
        assert(ps.last().len() > 0);
        assert(ps.drop_last().push(ps.last()) =~= ps);
    }
}

/// Proper words joined by single spaces: no whitespace at either end, and
/// each whitespace character is a lone space between two words.
pub open spec fn single_spaced(r: Seq<char>) -> bool {
    &&& r.len() > 0 ==> !is_ws(r[0]) && !is_ws(r.last())
    &&& forall|i: int|
        0 <= i < r.len() && is_ws(#[trigger] r[i]) ==> r[i] == ' ' && i + 1 < r.len() && !is_ws(
            r[i + 1],
        )
}

proof fn lemma_join_single_spaced(ps: Seq<Seq<char>>)
    requires
        proper_words(ps),
    ensures
        single_spaced(join_with(ps, ' ')),
        ps.len() > 0 ==> join_with(ps, ' ').len() > 0,
    decreases ps.len(),
{
    let r = join_with(ps, ' ');
    if ps.len() == 1 {
        assert(ps[0].len() > 0);
        assert forall|i: int| 0 <= i < r.len() && is_ws(#[trigger] r[i]) implies r[i] == ' ' && i
            + 1 < r.len() && !is_ws(r[i + 1]) by {
            assert(!is_ws(ps[0][i]));
        }
        assert(!is_ws(ps[0][ps[0].len() - 1]));
    } else if ps.len() > 1 {
        let front = ps.drop_last();
        assert forall|k: int| 0 <= k < front.len() implies (#[trigger] front[k]).len() > 0
            && forall|j: int| 0 <= j < front[k].len() ==> !is_ws(#[trigger] front[k][j]) by {
            assert(front[k] == ps[k]);
        }
        lemma_join_single_spaced(front);
        let a = join_with(front, ' ');
        let w = ps.last();
        assert(w == ps[ps.len() - 1]);
        assert(w.len() > 0);
        assert(r == a + seq![' '] + w);
        assert(r[0] == a[0]);
        assert(r.last() == w[w.len() - 1]);
        assert(!is_ws(w[w.len() - 1]));
        assert forall|i: int| 0 <= i < r.len() && is_ws(#[trigger] r[i]) implies r[i] == ' ' && i
            + 1 < r.len() && !is_ws(r[i + 1]) by {
            if i < a.len() {
                assert(r[i] == a[i]);
                if i + 1 < a.len() {
                    assert(r[i + 1] == a[i + 1]);
                } else {
                    assert(a[i] == a.last());
                }
            } else if i == a.len() {
                assert(r[i + 1] == w[0]);
                assert(!is_ws(w[0]));
            } else {
                assert(r[i] == w[i - a.len() - 1]);
                assert(!is_ws(w[i - a.len() - 1]));
            }
        }
    }
}

/// Normalising keeps the words of the text, in order; the result has no
/// whitespace at either end and only lone spaces between words; and
/// normalising it again changes nothing.
pub proof fn lemma_normalize_text_laws(text: Seq<char>)
    ensures
        words(spec_normalize_text_value(text)) == words(text),
        single_spaced(spec_normalize_text_value(text)),
        spec_normalize_text_value(spec_normalize_text_value(text)) == spec_normalize_text_value(
            text,
        ),
{
    lemma_words_proper(text);
    lemma_words_of_join(words(text));
    lemma_join_single_spaced(words(text));
}

// ---------------------------------------------------------------------------
// SVG path tokens
// ---------------------------------------------------------------------------

/// The tokens with `cur`, trimmed, added unless it is blank.
pub open spec fn flush(tokens: Seq<Seq<char>>, cur: Seq<char>) -> Seq<Seq<char>> {
    if trim(cur).len() > 0 {
        tokens.push(trim(cur))
    } else {
        tokens
    }
}

/// The tokens found so far, and the token being read, after reading `s`:
/// a letter is a token of its own; a comma or whitespace ends a token; a
/// sign starts a new number unless the token so far is empty, `e` or `E`.
pub open spec fn token_state(s: Seq<char>) -> (Seq<Seq<char>>, Seq<char>)
    decreases s.len(),
{
    if s.len() == 0 {
        (Seq::empty(), Seq::empty())
    } else {
        let (ts, cur) = token_state(s.drop_last());
        let ch = s.last();
        if is_ascii_alpha(ch) {
            (flush(ts, cur).push(seq![ch]), Seq::empty())
        } else if ch == ',' || is_ws(ch) {
            (flush(ts, cur), Seq::empty())
        } else if (ch == '-' || ch == '+') && cur.len() > 0 && cur != seq!['e'] && cur != seq!['E'] {
            (flush(ts, cur), seq![ch])
        } else {
            (ts, cur.push(ch))
        }
    }
}

/// The tokens of SVG path data.
pub open spec fn spec_svg_tokens(text: Seq<char>) -> Seq<Seq<char>> {
    let (ts, cur) = token_state(text);
    flush(ts, cur)
}

fn flush_into(tokens: &mut Vec<String>, cur: &Vec<char>)
    ensures
        final(tokens)@.map_values(|t: String| t@) == flush(
            old(tokens)@.map_values(|t: String| t@),
            cur@,
        ),
{
    let t = trim_chars(cur.as_slice());
    if t.len() > 0 {
        let ghost before = tokens@.map_values(|t: String| t@);
        tokens.push(string_from_chars(t.as_slice()));
        assert(tokens@.map_values(|t: String| t@) =~= before.push(t@));
    }
}

fn is_single(cur: &Vec<char>, c: char) -> (r: bool)
    ensures
        r == (cur@ == seq![c]),
{
    if cur.len() == 1 && cur[0] == c {
        assert(cur@ =~= seq![c]);
        true
    } else {
        false
    }
}

/// Splits SVG path data into command letters and numbers.
pub fn tokenize_svg_path(text: &str) -> (tokens: Vec<String>)
    ensures
        tokens@.map_values(|t: String| t@) == spec_svg_tokens(text@),
{
    let chars = chars_of(text);
    let mut tokens: Vec<String> = Vec::new();
    let mut cur: Vec<char> = Vec::new();
    let mut i: usize = 0;
    assert(tokens@.map_values(|t: String| t@) =~= Seq::<Seq<char>>::empty());
    while i < chars.len()
        invariant
            i <= chars@.len(),
            token_state(chars@.take(i as int)) == (tokens@.map_values(|t: String| t@), cur@),
        decreases chars.len() - i,
    {
        let ch = chars[i];
        assert(chars@.take(i + 1).drop_last() =~= chars@.take(i as int));
        assert(chars@.take(i + 1).last() == ch);
        if ('a' <= ch && ch <= 'z') || ('A' <= ch && ch <= 'Z') {
            flush_into(&mut tokens, &cur);
            let ghost before = tokens@.map_values(|t: String| t@);
            let mut one = String::new();
            crate::text::push_char(&mut one, ch);
            tokens.push(one);
            assert(tokens@.map_values(|t: String| t@) =~= before.push(seq![ch]));
            cur = Vec::new();
        } else if ch == ',' || is_whitespace(ch) {
            flush_into(&mut tokens, &cur);
            cur = Vec::new();
        } else if (ch == '-' || ch == '+') && cur.len() > 0 && !is_single(&cur, 'e') && !is_single(
            &cur,
            'E',
        ) {
            flush_into(&mut tokens, &cur);
            cur = Vec::new();
            cur.push(ch);
            assert(cur@ =~= seq![ch]);
        } else {
            cur.push(ch);
        }
        assert(cur@ == token_state(chars@.take(i + 1)).1);
        i += 1;
    }
    assert(chars@.take(i as int) =~= text@);
    flush_into(&mut tokens, &cur);
    tokens
}

} // verus!
