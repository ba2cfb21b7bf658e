//! Batch export: the options, which targets they select, the LCSC IDs in the
//! input text, the checkpoint of finished IDs, and the running summary.
use std::path::PathBuf;

use vstd::prelude::*;

use crate::error::{is_other_error, AppError};
use crate::text::{
    chars_of, is_digit, is_ws, lemma_strip_back, lemma_strip_front, push_char, push_str,
    string_from_chars, trim, trim_chars,
};
use crate::util::{lines, lines_state, split_lines, strip_cr, views};

verus! {

#[derive(Debug, Clone)]
pub struct BatchOptions {
    pub input: PathBuf,
    pub output: PathBuf,
    pub schlib: bool,
    pub pcblib: bool,
    pub full: bool,
    pub parallel: usize,
    pub continue_on_error: bool,
    pub force: bool,
}

#[derive(Debug, Clone)]
pub struct BatchSummary {
    pub total: usize,
    pub skipped: usize,
    pub success: usize,
    pub failed: usize,
    pub failed_ids: Vec<String>,
    pub output: PathBuf,
}

/// Which libraries a batch writes.
#[derive(Debug, Clone, Copy, PartialEq, Eq)]
pub struct ExportTargets {
    pub schlib: bool,
    pub pcblib: bool,
}

impl ExportTargets {
    /// The targets the options ask for; `--full` selects both. Refused when
    /// `parallel` is 0 or no target is selected.
    pub fn resolve(options: &BatchOptions) -> (r: Result<ExportTargets, AppError>)
        ensures
            options.parallel == 0 ==> is_other_error(r, "--parallel must be at least 1"@),
            options.parallel != 0 && !(options.schlib || options.pcblib || options.full)
                ==> is_other_error(
                r,
                "at least one export target must be selected (--schlib, --pcblib, or --full)"@,
            ),
            options.parallel != 0 && (options.schlib || options.pcblib || options.full) ==> r
                == Ok::<ExportTargets, AppError>(
                ExportTargets {
                    schlib: options.schlib || options.full,
                    pcblib: options.pcblib || options.full,
                },
            ),
    {
        if options.parallel == 0 {
            return Err(AppError::Other(String::from_str("--parallel must be at least 1")));
        }
        let schlib = options.schlib || options.full;
        let pcblib = options.pcblib || options.full;
        if !schlib && !pcblib {
            return Err(
                AppError::Other(
                    String::from_str(
                        "at least one export target must be selected (--schlib, --pcblib, or --full)",
                    ),
                ),
            );
        }
        Ok(ExportTargets { schlib, pcblib })
    }
}

impl BatchSummary {
    /// The summary before any export: `pending` IDs to export, `skipped`
    /// already recorded in the checkpoint.
    pub fn start(pending: usize, skipped: usize, output: PathBuf) -> (s: BatchSummary)
        requires
            pending + skipped <= usize::MAX,
        ensures
            s.total == pending + skipped,
            s.skipped == skipped,
            s.success == 0,
            s.failed == 0,
            s.failed_ids@.len() == 0,
            s.output == output,
    {
        BatchSummary {
            total: pending + skipped,
            skipped,
            success: 0,
            failed: 0,
            failed_ids: Vec::new(),
            output,
        }
    }

    /// Records the outcome of exporting `id`: a success is counted; a failure
    /// is counted and its ID kept. Returns whether the batch goes on, which
    /// after a failure it does only with `continue_on_error`.
    pub fn record(&mut self, id: String, succeeded: bool, continue_on_error: bool) -> (keep_going:
        bool)
        requires
            old(self).success < usize::MAX,
            old(self).failed < usize::MAX,
        ensures
            final(self).total == old(self).total,
            final(self).skipped == old(self).skipped,
            final(self).output == old(self).output,
            succeeded ==> final(self).success == old(self).success + 1 && final(self).failed == old(
                self,
            ).failed && final(self).failed_ids@ == old(self).failed_ids@ && keep_going,
            !succeeded ==> final(self).success == old(self).success && final(self).failed == old(
                self,
            ).failed + 1 && final(self).failed_ids@ == old(self).failed_ids@.push(id)
                && keep_going == continue_on_error,
    {
        if succeeded {
            self.success = self.success + 1;
            true
        } else {
            self.failed = self.failed + 1;
            self.failed_ids.push(id);
            continue_on_error
        }
    }

    /// Records a task of a parallel batch that ended without reporting which
    /// ID it held: it counts as a failure.
    pub fn record_lost_task(&mut self)
        requires
            old(self).failed < usize::MAX,
        ensures
            final(self).failed == old(self).failed + 1,
            final(self).success == old(self).success,
            final(self).failed_ids@ == old(self).failed_ids@,
            final(self).total == old(self).total,
            final(self).skipped == old(self).skipped,
            final(self).output == old(self).output,
    {
        self.failed = self.failed + 1;
    }

    /// After a parallel batch: whether it ends in an error, which it does
    /// when something failed and `continue_on_error` is off.
    pub fn parallel_batch_failed(&self, continue_on_error: bool) -> (r: bool)
        ensures
            r == (self.failed > 0 && !continue_on_error),
    {
        self.failed > 0 && !continue_on_error
    }
}

/// Whether a batch with this many pending IDs runs them in parallel.
pub fn runs_in_parallel(parallel: usize, pending: usize) -> (r: bool)
    ensures
        r == (parallel > 1 && pending > 1),
{
    parallel > 1 && pending > 1
}

// ---------------------------------------------------------------------------
// LCSC IDs in free text
// ---------------------------------------------------------------------------

/// The end of the run of ASCII digits that starts at `j`.
pub open spec fn digits_end(s: Seq<char>, j: int) -> int
    decreases s.len() - j,
{
    if 0 <= j < s.len() && is_digit(s[j]) {
        digits_end(s, j + 1)
    } else {
        j
    }
}

/// Whether an ID starts at `i`: a `C` or `c` followed by at least one digit.
pub open spec fn id_starts_at(s: Seq<char>, i: int) -> bool {
    0 <= i < s.len() && (s[i] == 'C' || s[i] == 'c') && digits_end(s, i + 1) > i + 1
}

/// The IDs found scanning from `i`, in order and with repeats, each written
/// `C` followed by its digits. After an ID the scan goes on after its digits.
pub open spec fn ids_from(s: Seq<char>, i: int) -> Seq<Seq<char>>
    decreases s.len() - i,
{
    if i < 0 || i >= s.len() {
        seq![]
    } else if id_starts_at(s, i) {
        proof {
            lemma_digits_end_bounds(s, i + 1);
        }
        seq![seq!['C'] + s.subrange(i + 1, digits_end(s, i + 1))] + ids_from(
            s,
            digits_end(s, i + 1),
        )
    } else {
        ids_from(s, i + 1)
    }
}

/// `xs` appended to `acc`, leaving out each element already present.
pub open spec fn dedup_into(acc: Seq<Seq<char>>, xs: Seq<Seq<char>>) -> Seq<Seq<char>>
    decreases xs.len(),
{
    if xs.len() == 0 {
        acc
    } else if acc.contains(xs[0]) {
        dedup_into(acc, xs.drop_first())
    } else {
        dedup_into(acc.push(xs[0]), xs.drop_first())
    }
}

/// The distinct IDs of the text, each where it first occurs.
pub open spec fn spec_lcsc_ids(s: Seq<char>) -> Seq<Seq<char>> {
    dedup_into(seq![], ids_from(s, 0))
}

pub open spec fn string_views(v: Seq<String>) -> Seq<Seq<char>> {
    v.map_values(|x: String| x@)
}

pub proof fn lemma_digits_end_bounds(s: Seq<char>, j: int)
    requires
        0 <= j <= s.len(),
    ensures
        j <= digits_end(s, j) <= s.len(),
        forall|k: int| j <= k < digits_end(s, j) ==> is_digit(#[trigger] s[k]),
        digits_end(s, j) == s.len() || !is_digit(s[digits_end(s, j)]),
    decreases s.len() - j,
{
    if j < s.len() && is_digit(s[j]) {
        lemma_digits_end_bounds(s, j + 1);
    }
}

fn contains_string(v: &Vec<String>, x: &String) -> (r: bool)
    ensures
        r == string_views(v@).contains(x@),
{
    let mut i: usize = 0;
    while i < v.len()
        invariant
            i <= v@.len(),
            forall|k: int| 0 <= k < i ==> v@[k]@ != x@,
        decreases v.len() - i,
    {
        if v[i] == *x {
            assert(string_views(v@)[i as int] == x@);
            return true;
        }
        i += 1;
    }
    assert forall|k: int| 0 <= k < string_views(v@).len() implies string_views(v@)[k] != x@ by {
        assert(string_views(v@)[k] == v@[k]@);
    }
    false
}

/// The distinct LCSC IDs in a text, in the order they first occur: each is a
/// `C` or `c` followed by ASCII digits, written with an upper-case `C`.
pub fn parse_lcsc_ids(text: &str) -> (ids: Vec<String>)
    ensures
        string_views(ids@) == spec_lcsc_ids(text@),
{
    let s = chars_of(text);
    let n = s.len();
    let mut ids: Vec<String> = Vec::new();
    let mut index: usize = 0;
    assert(string_views(ids@) =~= seq![]);
    while index < n
        invariant
            index <= n == s@.len(),
            s@ == text@,
            dedup_into(string_views(ids@), ids_from(s@, index as int)) == spec_lcsc_ids(text@),
        decreases n - index,
    {
        let c = s[index];
        if c == 'C' || c == 'c' {
            let start = index + 1;
            let mut end = start;
            while end < n && '0' <= s[end] && s[end] <= '9'
                invariant
                    start <= end <= n == s@.len(),
                    forall|k: int| start <= k < end ==> is_digit(#[trigger] s@[k]),
                decreases n - end,
            {
                end += 1;
            }
            proof {
                lemma_digits_end_bounds(s@, start as int);
                lemma_digits_end_from(s@, start as int, end as int);
            }
            if end > start {
                let mut id = String::new();
                push_char(&mut id, 'C');
                let mut k = start;
                while k < end
                    invariant
                        start <= k <= end <= n == s@.len(),
                        id@ == seq!['C'] + s@.subrange(start as int, k as int),
                    decreases end - k,
                {
                    push_char(&mut id, s[k]);
                    assert(s@.subrange(start as int, k + 1) =~= s@.subrange(start as int, k as int).push(
                        s@[k as int],
                    ));
                    k += 1;
                }
                let ghost before = string_views(ids@);
                let ghost xs = ids_from(s@, index as int);
                assert(id_starts_at(s@, index as int));
                assert(xs == seq![id@] + ids_from(s@, end as int));
                assert(xs[0] == id@);
                assert(xs.drop_first() =~= ids_from(s@, end as int));
                if !contains_string(&ids, &id) {
                    ids.push(id);
                    assert(string_views(ids@) =~= before.push(id@));
                }
                index = end;
                continue;
            }
        }
        assert(!id_starts_at(s@, index as int));
        index += 1;
    }
    assert(ids_from(s@, n as int) =~= seq![]);
    ids
}

proof fn lemma_digits_end_from(s: Seq<char>, start: int, end: int)
    requires
        0 <= start <= end <= s.len(),
        forall|k: int| start <= k < end ==> is_digit(#[trigger] s[k]),
        end == s.len() || !is_digit(s[end]),
    ensures
        digits_end(s, start) == end,
    decreases end - start,
{
    if start < end {
        lemma_digits_end_from(s, start + 1, end);
    }
}

proof fn lemma_dedup_into_facts(acc: Seq<Seq<char>>, xs: Seq<Seq<char>>)
    requires
        acc.no_duplicates(),
    ensures
        dedup_into(acc, xs).no_duplicates(),
        forall|x: Seq<char>|
            dedup_into(acc, xs).contains(x) <==> (acc.contains(x) || xs.contains(x)),
    decreases xs.len(),
{
    if xs.len() > 0 {
        let next = if acc.contains(xs[0]) {
            acc
        } else {
            acc.push(xs[0])
        };
        if !acc.contains(xs[0]) {
            assert forall|a: int, b: int| 0 <= a < b < next.len() implies next[a] != next[b] by {
                if b == next.len() - 1 {
                    assert(acc.contains(acc[a]));
                }
            }
            assert forall|x: Seq<char>| next.contains(x) <==> (acc.contains(x) || x == xs[0]) by {
                if next.contains(x) {
                    let m = choose|m: int| 0 <= m < next.len() && next[m] == x;
                    if m < acc.len() {
                        assert(acc[m] == x);
                    }
                }
                if acc.contains(x) {
                    let m = choose|m: int| 0 <= m < acc.len() && acc[m] == x;
                    assert(next[m] == x);
                }
                if x == xs[0] {
                    assert(next[acc.len() as int] == x);
                }
            }
        }
        lemma_dedup_into_facts(next, xs.drop_first());
        assert forall|x: Seq<char>| xs.contains(x) <==> (x == xs[0] || xs.drop_first().contains(x)) by {
            if xs.contains(x) {
                let m = choose|m: int| 0 <= m < xs.len() && xs[m] == x;
                if m > 0 {
                    assert(xs.drop_first()[m - 1] == x);
                }
            }
            if xs.drop_first().contains(x) {
                let m = choose|m: int| 0 <= m < xs.drop_first().len() && xs.drop_first()[m] == x;
                assert(xs[m + 1] == x);
            }
            if x == xs[0] {
                assert(xs[0] == x);
            }
        }
    }
}

/// An ID as the batch input is scanned for: `C` and at least one ASCII digit.
pub open spec fn is_lcsc_id(id: Seq<char>) -> bool {
    id.len() >= 2 && id[0] == 'C' && forall|k: int| 1 <= k < id.len() ==> is_digit(#[trigger] id[k])
}

proof fn lemma_ids_from_shape(s: Seq<char>, i: int)
    ensures
        forall|x: Seq<char>| ids_from(s, i).contains(x) ==> is_lcsc_id(x),
    decreases s.len() - i,
{
    if i < 0 || i >= s.len() {
    } else if id_starts_at(s, i) {
        let e = digits_end(s, i + 1);
        lemma_digits_end_bounds(s, i + 1);
        lemma_ids_from_shape(s, e);
        let id = seq!['C'] + s.subrange(i + 1, e);
        assert forall|k: int| 1 <= k < id.len() implies is_digit(#[trigger] id[k]) by {
            assert(id[k] == s[i + k]);
        }
        let xs = ids_from(s, i);
        assert forall|x: Seq<char>| xs.contains(x) implies is_lcsc_id(x) by {
            let m = choose|m: int| 0 <= m < xs.len() && xs[m] == x;
            if m > 0 {
                assert(ids_from(s, e)[m - 1] == x);
            }
        }
    } else {
        lemma_ids_from_shape(s, i + 1);
    }
}

/// The IDs read from a text are distinct, each is a `C` and ASCII digits, and
/// every ID that occurs in the text is among them.
pub proof fn lemma_lcsc_ids_laws(s: Seq<char>)
    ensures
        spec_lcsc_ids(s).no_duplicates(),
        forall|x: Seq<char>| #[trigger] spec_lcsc_ids(s).contains(x) ==> is_lcsc_id(x),
        forall|x: Seq<char>| spec_lcsc_ids(s).contains(x) <==> ids_from(s, 0).contains(x),
{
    let empty: Seq<Seq<char>> = seq![];
    lemma_dedup_into_facts(empty, ids_from(s, 0));
    lemma_ids_from_shape(s, 0);
}

/// The IDs written one per line, as `ids.join("\n")` writes them.
pub open spec fn joined_lines(xs: Seq<Seq<char>>) -> Seq<char>
    decreases xs.len(),
{
    if xs.len() == 0 {
        seq![]
    } else if xs.len() == 1 {
        xs[0]
    } else {
        xs[0] + seq!['\n'] + joined_lines(xs.drop_first())
    }
}

proof fn lemma_digits_end_shift(p: Seq<char>, t: Seq<char>, j: int)
    requires
        0 <= j,
    ensures
        digits_end(p + t, p.len() + j) == p.len() + digits_end(t, j),
    decreases t.len() - j,
{
    if j < t.len() {
        assert((p + t)[p.len() + j] == t[j]);
        if is_digit(t[j]) {
            lemma_digits_end_shift(p, t, j + 1);
        }
    }
}

/// Scanning after a prefix finds what scanning the rest alone finds.
proof fn lemma_ids_from_shift(p: Seq<char>, t: Seq<char>, j: int)
    requires
        0 <= j,
    ensures
        ids_from(p + t, p.len() + j) == ids_from(t, j),
    decreases t.len() - j,
{
    let s = p + t;
    let i = p.len() + j;
    if j < t.len() {
        assert(s[i] == t[j]);
        lemma_digits_end_shift(p, t, j + 1);
        if id_starts_at(t, j) {
            let d = digits_end(t, j + 1);
            lemma_digits_end_bounds(t, j + 1);
            lemma_ids_from_shift(p, t, d);
            assert(s.subrange(i + 1, p.len() + d) =~= t.subrange(j + 1, d));
        } else {
            lemma_ids_from_shift(p, t, j + 1);
        }
    }
}

/// Well-formed IDs written one per line are read back as they are.
proof fn lemma_ids_from_joined(xs: Seq<Seq<char>>)
    requires
        forall|k: int| 0 <= k < xs.len() ==> is_lcsc_id(#[trigger] xs[k]),
    ensures
        ids_from(joined_lines(xs), 0) == xs,
    decreases xs.len(),
{
    if xs.len() == 0 {
        assert(ids_from(joined_lines(xs), 0) =~= xs);
    } else {
        let id = xs[0];
        assert(is_lcsc_id(id));
        let s = joined_lines(xs);
        let n = id.len() as int;
        let tail = xs.drop_first();
        assert forall|k: int| 0 <= k < tail.len() implies is_lcsc_id(#[trigger] tail[k]) by {
            assert(tail[k] == xs[k + 1]);
        }
        lemma_ids_from_joined(tail);
        let rest: Seq<char> = if xs.len() == 1 {
            seq![]
        } else {
            seq!['\n'] + joined_lines(tail)
        };
        assert(s =~= id + rest);
        assert forall|k: int| 1 <= k < n implies is_digit(#[trigger] s[k]) by {
            assert(s[k] == id[k]);
        }
        if xs.len() > 1 {
            assert(s[n] == '\n');
        }
        lemma_digits_end_from(s, 1, n);
        assert(s[0] == 'C');
        assert(id_starts_at(s, 0));
        assert(seq!['C'] + s.subrange(1, n) =~= id);
        assert(ids_from(s, 0) == seq![id] + ids_from(s, n));
        if xs.len() == 1 {
            assert(ids_from(s, n) =~= Seq::<Seq<char>>::empty());
            assert(seq![id] + Seq::<Seq<char>>::empty() =~= xs);
        } else {
            assert(!id_starts_at(s, n));
            assert(ids_from(s, n) == ids_from(s, n + 1));
            let pre = id + seq!['\n'];
            assert(s =~= pre + joined_lines(tail));
            lemma_ids_from_shift(pre, joined_lines(tail), 0);
            assert(ids_from(s, n + 1) == tail);
            assert(seq![id] + tail =~= xs);
        }
    }
}

/// Deduplicating a sequence that has no repeats keeps it whole.
proof fn lemma_dedup_distinct(acc: Seq<Seq<char>>, xs: Seq<Seq<char>>)
    requires
        (acc + xs).no_duplicates(),
    ensures
        dedup_into(acc, xs) == acc + xs,
    decreases xs.len(),
{
    if xs.len() == 0 {
        assert(acc + xs =~= acc);
    } else {
        let all = acc + xs;
        if acc.contains(xs[0]) {
            let m = choose|m: int| 0 <= m < acc.len() && acc[m] == xs[0];
            assert(all[m] == all[acc.len() as int]);
        }
        assert(acc.push(xs[0]) + xs.drop_first() =~= all);
        lemma_dedup_distinct(acc.push(xs[0]), xs.drop_first());
    }
}

/// Reading the IDs of a text back from those IDs written one per line
/// gives the same IDs in the same order.
pub proof fn lemma_lcsc_ids_reparse(s: Seq<char>)
    ensures
        spec_lcsc_ids(joined_lines(spec_lcsc_ids(s))) == spec_lcsc_ids(s),
{
    let ids = spec_lcsc_ids(s);
    lemma_lcsc_ids_laws(s);
    assert forall|k: int| 0 <= k < ids.len() implies is_lcsc_id(#[trigger] ids[k]) by {
        assert(ids.contains(ids[k]));
    }
    lemma_ids_from_joined(ids);
    let e: Seq<Seq<char>> = seq![];
    assert(e + ids =~= ids);
    lemma_dedup_distinct(e, ids);
}

// ---------------------------------------------------------------------------
// Checkpoint
// ---------------------------------------------------------------------------

/// The set of IDs a checkpoint text records: its lines, trimmed, that are
/// not blank.
pub open spec fn checkpoint_ids(content: Seq<char>) -> Set<Seq<char>> {
    Set::new(
        |id: Seq<char>|
            exists|i: int|
                0 <= i < lines(content).len() && #[trigger] trim(lines(content)[i]) == id
                    && id.len() > 0,
    )
}

/// The IDs recorded in a checkpoint text, each once.
pub fn parse_checkpoint(content: &str) -> (ids: Vec<String>)
    ensures
        string_views(ids@).to_set() == checkpoint_ids(content@),
        string_views(ids@).no_duplicates(),
{
    let chars = chars_of(content);
    let ls = split_lines(&chars);
    let ghost lv = views(ls@);
    let mut ids: Vec<String> = Vec::new();
    let mut i: usize = 0;
    assert(string_views(ids@) =~= seq![]);
    while i < ls.len()
        invariant
            i <= ls@.len(),
            lv == views(ls@),
            lv == lines(content@),
            string_views(ids@).no_duplicates(),
            forall|id: Seq<char>|
                string_views(ids@).contains(id) <==> (exists|k: int|
                    0 <= k < i && #[trigger] trim(lv[k]) == id && id.len() > 0),
        decreases ls.len() - i,
    {
        let t = trim_chars(ls[i].as_slice());
        assert(lv[i as int] == ls@[i as int]@);
        assert(t@ == trim(lv[i as int]));
        let ghost before = string_views(ids@);
        if t.len() > 0 {
            let id = string_from_chars(t.as_slice());
            if !contains_string(&ids, &id) {
                ids.push(id);
                assert(string_views(ids@) =~= before.push(t@));
                assert(string_views(ids@)[before.len() as int] == t@);
                assert forall|a: int, b: int|
                    0 <= a < b < string_views(ids@).len() implies string_views(ids@)[a]
                    != string_views(ids@)[b] by {
                    if b == string_views(ids@).len() - 1 {
                        assert(before[a] == string_views(ids@)[a]);
                        assert(before.contains(before[a]));
                    } else {
                        assert(before[a] == string_views(ids@)[a]);
                        assert(before[b] == string_views(ids@)[b]);
                    }
                }
            }
        }
        assert(string_views(ids@) == before || (t@.len() > 0 && !before.contains(t@)
            && string_views(ids@) == before.push(t@)));
        assert(t@.len() > 0 ==> string_views(ids@).contains(t@));
        assert forall|id: Seq<char>|
            string_views(ids@).contains(id) <==> (exists|k: int|
                0 <= k < i + 1 && #[trigger] trim(lv[k]) == id && id.len() > 0) by {
            if string_views(ids@).contains(id) {
                let m = choose|m: int| 0 <= m < string_views(ids@).len() && string_views(ids@)[m] == id;
                if m < before.len() {
                    assert(before[m] == id);
                    assert(before.contains(id));
                    let k = choose|k: int| 0 <= k < i && #[trigger] trim(lv[k]) == id && id.len() > 0;
                    assert(0 <= k < i + 1 && trim(lv[k]) == id && id.len() > 0);
                } else {
                    assert(id == t@);
                    assert(trim(lv[i as int]) == id && id.len() > 0);
                }
            }
            if exists|k: int| 0 <= k < i + 1 && #[trigger] trim(lv[k]) == id && id.len() > 0 {
                let k = choose|k: int| 0 <= k < i + 1 && #[trigger] trim(lv[k]) == id && id.len() > 0;
                if k < i {
                    assert(before.contains(id));
                    let m = choose|m: int| 0 <= m < before.len() && before[m] == id;
                    assert(string_views(ids@)[m] == id);
                } else {
                    assert(id == t@);
                }
            }
        }
        i += 1;
    }
    assert(string_views(ids@).to_set() =~= checkpoint_ids(content@));
    ids
}

/// The line that records one finished ID in the checkpoint.
pub open spec fn spec_checkpoint_line(id: Seq<char>) -> Seq<char> {
    id.push('\n')
}

/// `writeln!(file, "{id}")`: the text appended to the checkpoint for `id`.
pub fn checkpoint_line(id: &str) -> (r: String)
    ensures
        r@ == spec_checkpoint_line(id@),
{
    let mut r = String::new();
    push_str(&mut r, id);
    push_char(&mut r, '\n');
    r
}

proof fn lemma_lines_state_extend(c: Seq<char>, w: Seq<char>)
    requires
        forall|k: int| 0 <= k < w.len() ==> w[k] != '\n',
    ensures
        lines_state(c + w) == (lines_state(c).0, lines_state(c).1 + w),
    decreases w.len(),
{
    if w.len() == 0 {
        assert(c + w =~= c);
        assert(lines_state(c).1 + w =~= lines_state(c).1);
    } else {
        assert((c + w).drop_last() =~= c + w.drop_last());
        assert((c + w).last() == w.last());
        lemma_lines_state_extend(c, w.drop_last());
        assert(lines_state(c).1 + w.drop_last() + seq![w.last()] =~= lines_state(c).1 + w);
        assert((lines_state(c).1 + w.drop_last()).push(w.last()) =~= lines_state(c).1 + w);
    }
}

proof fn lemma_trim_of_solid(w: Seq<char>)
    requires
        w.len() > 0,
        !is_ws(w[0]),
        !is_ws(w.last()),
    ensures
        trim(w) == w,
{
    let p = |c: char| is_ws(c);
    lemma_strip_front(w, p, 0);
    assert(w.subrange(0, w.len() as int) =~= w);
    lemma_strip_back(w, p, w.len() as int);
}

/// Reading a checkpoint after appending the line of an ID gives the IDs read
/// before with that ID added; the text still ends with a newline.
pub proof fn lemma_checkpoint_append(c: Seq<char>, id: Seq<char>)
    requires
        is_lcsc_id(id),
        c.len() == 0 || c.last() == '\n',
    ensures
        checkpoint_ids(c + spec_checkpoint_line(id)) == checkpoint_ids(c).insert(id),
        (c + spec_checkpoint_line(id)).last() == '\n',
{
    let (done, cur) = lines_state(c);
    if c.len() > 0 {
        assert(cur == Seq::<char>::empty());
    } else {
        assert(cur == Seq::<char>::empty());
    }
    assert forall|k: int| 0 <= k < id.len() implies id[k] != '\n' by {
        if k > 0 {
            assert(is_digit(id[k]));
        }
    }
    lemma_lines_state_extend(c, id);
    let c2 = c + spec_checkpoint_line(id);
    assert(c2 =~= (c + id).push('\n'));
    assert(c2.drop_last() =~= c + id);
    assert(cur + id =~= id);
    assert(id.last() != '\r') by {
        assert(is_digit(id[id.len() - 1]));
    }
    assert(strip_cr(id) == id);
    assert(lines(c2) == done.push(id));
    assert(lines(c) == done);
    assert(is_digit(id.last()));
    lemma_trim_of_solid(id);
    let l2 = lines(c2);
    assert forall|x: Seq<char>| checkpoint_ids(c2).contains(x) <==> checkpoint_ids(c).insert(id).contains(x) by {
        if checkpoint_ids(c2).contains(x) {
            let i = choose|i: int| 0 <= i < l2.len() && #[trigger] trim(l2[i]) == x && x.len() > 0;
            if i < done.len() {
                assert(l2[i] == done[i]);
                assert(trim(lines(c)[i]) == x);
            } else {
                assert(x == id);
            }
        }
        if checkpoint_ids(c).contains(x) {
            let i = choose|i: int| 0 <= i < lines(c).len() && #[trigger] trim(lines(c)[i]) == x && x.len() > 0;
            assert(l2[i] == done[i]);
            assert(trim(l2[i]) == x);
        }
        if x == id {
            assert(l2[done.len() as int] == id);
            assert(trim(l2[done.len() as int]) == x);
        }
    }
    assert(checkpoint_ids(c2) =~= checkpoint_ids(c).insert(id));
}

/// The IDs not yet finished, in order, and how many were skipped.
pub open spec fn spec_pending(ids: Seq<Seq<char>>, completed: Set<Seq<char>>) -> Seq<Seq<char>> {
    ids.filter(|id: Seq<char>| !completed.contains(id))
}

/// Splits the IDs into those still to export, in order, and the count of
/// those the checkpoint already records.
pub fn partition_pending(ids: Vec<String>, completed: &Vec<String>) -> (r: (Vec<String>, usize))
    ensures
        string_views(r.0@) == spec_pending(string_views(ids@), string_views(completed@).to_set()),
        r.1 + r.0@.len() == ids@.len(),
{
    let ghost done = string_views(completed@).to_set();
    let mut pending: Vec<String> = Vec::new();
    let mut skipped: usize = 0;
    let mut i: usize = 0;
    assert(string_views(ids@).take(0) =~= seq![]);
    assert(string_views(pending@) =~= seq![]);
    while i < ids.len()
        invariant
            i <= ids@.len(),
            done == string_views(completed@).to_set(),
            string_views(pending@) == spec_pending(string_views(ids@).take(i as int), done),
            skipped + pending@.len() == i,
        decreases ids.len() - i,
    {
        let ghost before = string_views(pending@);
        assert(string_views(ids@).take(i + 1).drop_last() =~= string_views(ids@).take(i as int));
        assert(string_views(ids@).take(i + 1).last() == ids@[i as int]@);
        proof {
            string_views(ids@).take(i as int).lemma_filter_push(
                ids@[i as int]@,
                |id: Seq<char>| !done.contains(id),
            );
            assert(string_views(ids@).take(i as int).push(ids@[i as int]@) =~= string_views(
                ids@,
            ).take(i + 1));
        }
        if contains_string(completed, &ids[i]) {
            skipped += 1;
        } else {
            pending.push(ids[i].clone());
            assert(string_views(pending@) =~= before.push(ids@[i as int]@));
        }
        i += 1;
    }
    assert(string_views(ids@).take(ids@.len() as int) =~= string_views(ids@));
    (pending, skipped)
}

/// The IDs a run exports, in order, and how many it skips: with `force`
/// every ID is exported again and none is skipped; otherwise the IDs the
/// checkpoint records are skipped.
pub fn plan_pending(ids: Vec<String>, completed: &Vec<String>, force: bool) -> (r: (
    Vec<String>,
    usize,
))
    ensures
        force ==> r.0@ == ids@ && r.1 == 0,
        !force ==> string_views(r.0@) == spec_pending(
            string_views(ids@),
            string_views(completed@).to_set(),
        ),
        r.1 + r.0@.len() == ids@.len(),
{
    if force {
        (ids, 0)
    } else {
        partition_pending(ids, completed)
    }
}

/// The error for an input with no ID in it.
pub fn ids_or_error(ids: Vec<String>) -> (r: Result<Vec<String>, AppError>)
    ensures
        ids@.len() == 0 ==> is_other_error(r, "no valid LCSC IDs found in batch input"@),
        ids@.len() > 0 ==> r == Ok::<Vec<String>, AppError>(ids),
{
    if ids.len() == 0 {
        Err(AppError::Other(String::from_str("no valid LCSC IDs found in batch input")))
    } else {
        Ok(ids)
    }
}

} // verus!
