//! The decisions of the LCEDA client: which search result to take, when a
//! failed request is retried and after how long, what the search and
//! component payloads yield.
use vstd::prelude::*;

use crate::error::AppError;
use crate::json::{path_keys, spec_get, JsonView, Value};
use crate::lceda::models::{opt_string_view, spec_lcsc_id, SearchItem, SearchItemView};
use crate::text::{
    chars_eq_ignore_case, chars_of, eq_ignore_case, is_digit, trim, trim_chars,
};
use crate::util::{nested_string, spec_nested_string};

verus! {

/// How many times a request is tried in all.
pub const MAX_REQUEST_ATTEMPTS: usize = 3;

/// The wait before the first retry, in milliseconds.
pub const RETRY_BASE_DELAY_MS: u64 = 250;

// ---------------------------------------------------------------------------
// Retrying
// ---------------------------------------------------------------------------

/// HTTP statuses worth another try: 408, 425, 429, 500, 502, 503, 504.
pub open spec fn spec_is_retryable_status(status: u16) -> bool {
    status == 408 || status == 425 || status == 429 || status == 500 || status == 502 || status
        == 503 || status == 504
}

/// Whether a response status is worth another try.
pub fn is_retryable_status(status: u16) -> (r: bool)
    ensures
        r == spec_is_retryable_status(status),
{
    status == 408 || status == 425 || status == 429 || status == 500 || status == 502 || status
        == 503 || status == 504
}

/// Whether a failed request is worth another try: it timed out, could not
/// connect, or got a retryable status.
pub fn should_retry_request_error(is_timeout: bool, is_connect: bool, status: Option<u16>) -> (r:
    bool)
    ensures
        r == (is_timeout || is_connect || (status matches Some(s) && spec_is_retryable_status(s))),
{
    is_timeout || is_connect || match status {
        Some(s) => is_retryable_status(s),
        None => false,
    }
}

/// `2^n`.
pub open spec fn doubling(n: nat) -> nat
    decreases n,
{
    if n == 0 {
        1
    } else {
        2 * doubling((n - 1) as nat)
    }
}

/// The wait before retrying after attempt `attempt` (counted from 0), in
/// milliseconds: the base delay doubled once per attempt, at most 8 times.
pub open spec fn spec_retry_delay_ms(attempt: nat) -> nat {
    (RETRY_BASE_DELAY_MS * doubling(if attempt < 8 {
        attempt
    } else {
        8
    })) as nat
}

/// The wait, in milliseconds, before retrying after attempt `attempt`.
pub fn retry_delay_for_attempt(attempt: usize) -> (ms: u64)
    ensures
        ms == spec_retry_delay_ms(attempt as nat),
{
    let shift: usize = if attempt < 8 {
        attempt
    } else {
        8
    };
    let mut factor: u64 = 1;
    let mut k: usize = 0;
    while k < shift
        invariant
            k <= shift <= 8,
            factor == doubling(k as nat),
            factor <= 256,
        decreases shift - k,
    {
        proof {
            lemma_doubling_bound(k as nat);
        }
        factor = factor * 2;
        k += 1;
    }
    RETRY_BASE_DELAY_MS * factor
}

proof fn lemma_doubling_bound(k: nat)
    requires
        k < 8,
    ensures
        doubling(k) <= 128,
        doubling(k + 1) == 2 * doubling(k),
{
    reveal_with_fuel(doubling, 9);
    if k == 0 {
    } else if k == 1 {
    } else if k == 2 {
    } else if k == 3 {
    } else if k == 4 {
    } else if k == 5 {
    } else if k == 6 {
    } else {
        assert(k == 7);
    }
}

/// The retry delay doubles from one attempt to the next, up to the eighth,
/// and stays there.
pub proof fn lemma_retry_delay_doubles(attempt: nat)
    ensures
        attempt < 8 ==> spec_retry_delay_ms(attempt + 1) == 2 * spec_retry_delay_ms(attempt),
        attempt >= 8 ==> spec_retry_delay_ms(attempt) == 64000,
{
    if attempt < 8 {
        lemma_doubling_bound(attempt);
    } else {
        assert(doubling(8) == 256) by {
            reveal_with_fuel(doubling, 9);
        }
    }
}

/// What follows a failed attempt.
#[derive(Debug, Clone, Copy, PartialEq, Eq)]
pub enum RetryStep {
    /// Wait this many milliseconds, then try again.
    Retry { delay_ms: u64 },
    /// Report the error.
    GiveUp,
}

/// After attempt `attempt` (counted from 0) failed: another try when the
/// error is retryable and attempts are left, else give up.
pub fn after_failed_attempt(attempt: usize, retryable: bool) -> (r: RetryStep)
    ensures
        (attempt + 1 < MAX_REQUEST_ATTEMPTS && retryable) ==> r == (RetryStep::Retry {
            delay_ms: spec_retry_delay_ms(attempt as nat) as u64,
        }),
        !(attempt + 1 < MAX_REQUEST_ATTEMPTS && retryable) ==> r == RetryStep::GiveUp,
{
    if attempt < MAX_REQUEST_ATTEMPTS - 1 && retryable {
        RetryStep::Retry { delay_ms: retry_delay_for_attempt(attempt) }
    } else {
        RetryStep::GiveUp
    }
}

// ---------------------------------------------------------------------------
// Choosing a search result
// ---------------------------------------------------------------------------

/// A keyword that is an LCSC part number: after trimming, `C` or `c` and at
/// least one ASCII digit.
pub open spec fn spec_is_lcsc_id_keyword(keyword: Seq<char>) -> bool {
    let t = trim(keyword);
    t.len() >= 2 && (t[0] == 'C' || t[0] == 'c') && forall|i: int|
        1 <= i < t.len() ==> is_digit(#[trigger] t[i])
}

fn is_lcsc_id_chars(t: &Vec<char>) -> (r: bool)
    ensures
        r == (t@.len() >= 2 && (t@[0] == 'C' || t@[0] == 'c') && forall|i: int|
            1 <= i < t@.len() ==> is_digit(#[trigger] t@[i])),
{
    if t.len() < 2 || !(t[0] == 'C' || t[0] == 'c') {
        return false;
    }
    let mut i: usize = 1;
    while i < t.len()
        invariant
            1 <= i <= t@.len(),
            forall|k: int| 1 <= k < i ==> is_digit(#[trigger] t@[k]),
        decreases t.len() - i,
    {
        if !('0' <= t[i] && t[i] <= '9') {
            return false;
        }
        i += 1;
    }
    true
}

/// Whether a search keyword is an LCSC part number.
pub fn is_lcsc_id_keyword(keyword: &str) -> (r: bool)
    ensures
        r == spec_is_lcsc_id_keyword(keyword@),
{
    let chars = chars_of(keyword);
    let t = trim_chars(chars.as_slice());
    is_lcsc_id_chars(&t)
}

/// Whether an item's LCSC part number equals `t` up to ASCII case.
pub open spec fn item_has_lcsc_id(item: SearchItemView, t: Seq<char>) -> bool {
    spec_lcsc_id(item) matches Some(id) && eq_ignore_case(id, t)
}

/// The first position from `i` on whose item has the part number `t`.
pub open spec fn first_match_from(items: Seq<SearchItemView>, t: Seq<char>, i: int) -> Option<int>
    decreases items.len() - i,
{
    if i < 0 || i >= items.len() {
        None
    } else if item_has_lcsc_id(items[i], t) {
        Some(i)
    } else {
        first_match_from(items, t, i + 1)
    }
}

pub open spec fn item_views(items: Seq<SearchItem>) -> Seq<SearchItemView> {
    items.map_values(|x: SearchItem| x@)
}

/// The position of the first item whose part number is the keyword, when
/// the keyword is a part number.
pub open spec fn spec_exact_match(keyword: Seq<char>, items: Seq<SearchItemView>) -> Option<int> {
    if spec_is_lcsc_id_keyword(trim(keyword)) {
        first_match_from(items, trim(keyword), 0)
    } else {
        None
    }
}

proof fn lemma_trim_idempotent(s: Seq<char>)
    ensures
        trim(trim(s)) == trim(s),
{
    use_trim_facts(s);
}

proof fn use_trim_facts(s: Seq<char>)
    ensures
        trim(trim(s)) == trim(s),
{
    let t = trim(s);
    let p = |c: char| crate::text::is_ws(c);
    crate::text::lemma_trim_shape(s);
    if t.len() > 0 {
        crate::text::lemma_strip_front(t, p, 0);
        assert(t.subrange(0, t.len() as int) =~= t);
        crate::text::lemma_strip_back(t, p, t.len() as int);
    } else {
        assert(crate::text::strip_front(t, p) == t);
    }
}

/// The first item whose LCSC part number is the keyword, ignoring ASCII
/// case, when the (trimmed) keyword is a part number.
pub fn find_exact_lcsc_id_match<'a>(keyword: &str, items: &'a [SearchItem]) -> (r: Option<
    &'a SearchItem,
>)
    ensures
        match (r, spec_exact_match(keyword@, item_views(items@))) {
            (Some(x), Some(j)) => 0 <= j < items@.len() && x@ == items@[j]@,
            (None, None) => true,
            _ => false,
        },
{
    let chars = chars_of(keyword);
    let t = trim_chars(chars.as_slice());
    proof {
        lemma_trim_idempotent(keyword@);
    }
    if !is_lcsc_id_chars(&t) {
        return None;
    }
    let ghost iv = item_views(items@);
    assert(spec_exact_match(keyword@, iv) == first_match_from(iv, t@, 0));
    let mut i: usize = 0;
    while i < items.len()
        invariant
            i <= items@.len(),
            iv == item_views(items@),
            t@ == trim(keyword@),
            spec_exact_match(keyword@, iv) == first_match_from(iv, t@, 0),
            first_match_from(iv, t@, 0) == first_match_from(iv, t@, i as int),
        decreases items.len() - i,
    {
        assert(iv[i as int] == items@[i as int]@);
        let found = items[i].lcsc_id();
        let hit = match &found {
            Some(id) => {
                let idc = chars_of(id.as_str());
                chars_eq_ignore_case(&idc, &t)
            },
            None => false,
        };
        assert(hit == item_has_lcsc_id(iv[i as int], t@));
        if hit {
            assert(first_match_from(iv, t@, i as int) == Some(i as int));
            return Some(&items[i]);
        }
        i += 1;
    }
    None
}

/// The position of the item a selection takes: with index 1, the first
/// exact part-number match if there is one; otherwise position `index - 1`.
pub open spec fn spec_selected_position(
    keyword: Seq<char>,
    index: usize,
    items: Seq<SearchItemView>,
) -> int {
    if index == 1 && spec_exact_match(keyword, items) is Some {
        spec_exact_match(keyword, items).unwrap()
    } else {
        index - 1
    }
}

proof fn lemma_first_match_from(items: Seq<SearchItemView>, t: Seq<char>, i: int, j: int)
    requires
        0 <= i <= j < items.len(),
        spec_lcsc_id(items[j]) matches Some(id) && eq_ignore_case(id, t),
        forall|k: int|
            i <= k < j ==> !(spec_lcsc_id(#[trigger] items[k]) matches Some(id) && eq_ignore_case(
                id,
                t,
            )),
    ensures
        first_match_from(items, t, i) == Some(j),
    decreases j - i,
{
    if i < j {
        lemma_first_match_from(items, t, i + 1, j);
    }
}

proof fn lemma_no_match_from(items: Seq<SearchItemView>, t: Seq<char>, i: int)
    requires
        0 <= i,
        forall|k: int|
            i <= k < items.len() ==> !(spec_lcsc_id(#[trigger] items[k]) matches Some(id)
                && eq_ignore_case(id, t)),
    ensures
        first_match_from(items, t, i) is None,
    decreases items.len() - i,
{
    if i < items.len() {
        lemma_no_match_from(items, t, i + 1);
    }
}

/// With the default index, a keyword that is an LCSC part number selects
/// the first item whose LCSC part number (as `SearchItem::lcsc_id` gives
/// it: the product code, else the `Supplier Part` attribute) equals the
/// trimmed keyword ignoring ASCII case; when no item has it, the first item.
pub proof fn lemma_default_index_selects_exact_part(
    keyword: Seq<char>,
    items: Seq<SearchItemView>,
)
    requires
        spec_is_lcsc_id_keyword(keyword),
        items.len() > 0,
    ensures
        forall|j: int|
            0 <= j < items.len() && (spec_lcsc_id(#[trigger] items[j]) matches Some(id)
                && eq_ignore_case(id, trim(keyword))) && (forall|k: int|
                0 <= k < j ==> !(spec_lcsc_id(#[trigger] items[k]) matches Some(id)
                    && eq_ignore_case(id, trim(keyword)))) ==> spec_selected_position(
                keyword,
                1,
                items,
            ) == j,
        (forall|k: int|
            0 <= k < items.len() ==> !(spec_lcsc_id(#[trigger] items[k]) matches Some(id)
                && eq_ignore_case(id, trim(keyword)))) ==> spec_selected_position(keyword, 1, items)
            == 0,
{
    lemma_trim_idempotent(keyword);
    let t = trim(keyword);
    assert(spec_is_lcsc_id_keyword(trim(keyword)));
    assert forall|j: int|
        0 <= j < items.len() && (spec_lcsc_id(#[trigger] items[j]) matches Some(id)
            && eq_ignore_case(id, t)) && (forall|k: int|
            0 <= k < j ==> !(spec_lcsc_id(#[trigger] items[k]) matches Some(id) && eq_ignore_case(
                id,
                t,
            ))) implies spec_selected_position(keyword, 1, items) == j by {
        lemma_first_match_from(items, t, 0, j);
    }
    if forall|k: int|
        0 <= k < items.len() ==> !(spec_lcsc_id(#[trigger] items[k]) matches Some(id)
            && eq_ignore_case(id, t)) {
        lemma_no_match_from(items, t, 0);
    }
}

/// Picks the search result that `index` (1-based) selects. No results is
/// the error `NoResults`; an index outside `1..=len` is `InvalidIndex`.
/// With index 1, an item whose part number is the keyword wins.
pub fn select_from_items(keyword: &str, index: usize, items: &[SearchItem]) -> (r: Result<
    SearchItem,
    AppError,
>)
    ensures
        items@.len() == 0 ==> (r matches Err(AppError::NoResults(k)) && k@ == keyword@),
        items@.len() > 0 && !(1 <= index <= items@.len()) ==> (r matches Err(
            AppError::InvalidIndex { keyword: k, index: i, max: m },
        ) && k@ == keyword@ && i == index && m == items@.len()),
        items@.len() > 0 && 1 <= index <= items@.len() ==> (r matches Ok(item) && item@
            == items@[spec_selected_position(keyword@, index, item_views(items@))]@),
{
    if items.len() == 0 {
        return Err(AppError::NoResults(String::from_str(keyword)));
    }
    if !(1 <= index && index <= items.len()) {
        return Err(
            AppError::InvalidIndex {
                keyword: String::from_str(keyword),
                index,
                max: items.len(),
            },
        );
    }
    if index == 1 {
        if let Some(item) = find_exact_lcsc_id_match(keyword, items) {
            return Ok(item.clone());
        }
    }
    Ok(items[index - 1].clone())
}

// ---------------------------------------------------------------------------
// Payloads
// ---------------------------------------------------------------------------

/// The text of a member that is a string, else empty.
pub open spec fn text_or_empty(v: Option<JsonView>) -> Seq<char> {
    match v {
        Some(JsonView::Str(t)) => t,
        _ => Seq::empty(),
    }
}

/// The text of a member that is a string.
pub open spec fn text_member(v: Option<JsonView>) -> Option<Seq<char>> {
    match v {
        Some(JsonView::Str(t)) => Some(t),
        _ => None,
    }
}

/// The `attributes` member of a result row, `null` when it has none.
pub open spec fn attributes_of(raw: JsonView) -> JsonView {
    match spec_get(raw, "attributes"@) {
        Some(a) => a,
        None => JsonView::Null,
    }
}

/// The rows of a search payload: its `result` member when that is an array.
pub open spec fn search_rows(payload: JsonView) -> Seq<JsonView> {
    match spec_get(payload, "result"@) {
        Some(JsonView::Array(a)) => a,
        _ => Seq::empty(),
    }
}

/// The search item made from row `i` of a search payload.
pub open spec fn spec_search_item(raw: JsonView, i: int) -> SearchItemView {
    SearchItemView {
        index: (i + 1) as usize,
        display_title: text_or_empty(spec_get(raw, "display_title"@)),
        title: text_or_empty(spec_get(raw, "title"@)),
        manufacturer: text_or_empty(spec_get(attributes_of(raw), "Manufacturer"@)),
        model_uuid: text_member(spec_get(attributes_of(raw), "3D Model"@)),
        raw,
    }
}

fn member_text(v: Option<&Value>, key: &str) -> (r: Option<String>)
    ensures
        opt_string_view(r) == text_member(
            match v {
                Some(x) => spec_get(x@, key@),
                None => None,
            },
        ),
{
    match v {
        Some(x) => match x.get(key) {
            Some(m) => match m.as_str() {
                Some(t) => Some(t.clone()),
                None => None,
            },
            None => None,
        },
        None => None,
    }
}

fn text_or_default(o: Option<String>) -> (r: String)
    ensures
        r@ == (match opt_string_view(o) {
            Some(t) => t,
            None => Seq::empty(),
        }),
{
    match o {
        Some(t) => t,
        None => String::new(),
    }
}

/// The search items of a search payload, numbered from 1 in row order.
pub fn search_items_from_payload(payload: &Value) -> (items: Vec<SearchItem>)
    ensures
        items@.len() == search_rows(payload@).len(),
        forall|i: int|
            0 <= i < items@.len() ==> (#[trigger] items@[i])@ == spec_search_item(
                search_rows(payload@)[i],
                i,
            ),
{
    let results = match payload.get("result") {
        Some(v) => match v.as_array() {
            Some(a) => a,
            None => {
                return Vec::new();
            },
        },
        None => {
            return Vec::new();
        },
    };
    let ghost rows = search_rows(payload@);
    assert(rows =~= results@.map_values(|x: Value| x@));
    let mut items: Vec<SearchItem> = Vec::new();
    let mut i: usize = 0;
    while i < results.len()
        invariant
            i <= results@.len(),
            rows == results@.map_values(|x: Value| x@),
            items@.len() == i,
            forall|k: int|
                0 <= k < i ==> (#[trigger] items@[k])@ == spec_search_item(rows[k], k),
        decreases results.len() - i,
    {
        let raw = &results[i];
        assert(rows[i as int] == raw@);
        let attrs = raw.get("attributes");
        let display_title = text_or_default(member_text(Some(raw), "display_title"));
        let title = text_or_default(member_text(Some(raw), "title"));
        let manufacturer = text_or_default(member_text(attrs, "Manufacturer"));
        let model_uuid = member_text(attrs, "3D Model");
        proof {
            match attrs {
                Some(a) => {
                    assert(attributes_of(raw@) == a@);
                },
                None => {
                    assert(attributes_of(raw@) == JsonView::Null);
                },
            }
        }
        let item = SearchItem {
            index: i + 1,
            display_title,
            title,
            manufacturer,
            model_uuid,
            raw: raw.clone(),
        };
        items.push(item);
        i += 1;
    }
    items
}

/// The `code` of a component payload, 0 when it has no integer code.
pub open spec fn response_code(detail: JsonView) -> i64 {
    match spec_get(detail, "code"@) {
        Some(JsonView::Number(_, Some(n))) => n,
        _ => 0,
    }
}

/// The 3D model UUID a component payload resolves a seed UUID to: its
/// `result.3d_model_uuid` when its code is 0 and that is present, else the seed.
pub open spec fn spec_resolved_model_uuid(seed: Seq<char>, detail: JsonView) -> Seq<char> {
    if response_code(detail) == 0 && spec_nested_string(
        detail,
        seq!["result"@, "3d_model_uuid"@],
    ) is Some {
        spec_nested_string(detail, seq!["result"@, "3d_model_uuid"@]).unwrap()
    } else {
        seed
    }
}

/// The 3D model UUID that a component payload gives for a seed UUID.
pub fn resolve_model_uuid(seed: &str, detail: &Value) -> (r: String)
    ensures
        r@ == spec_resolved_model_uuid(seed@, detail@),
{
    let code: i64 = match detail.get("code") {
        Some(c) => match c.as_i64() {
            Some(n) => n,
            None => 0,
        },
        None => 0,
    };
    if code == 0 {
        let p = ["result", "3d_model_uuid"];
        assert(path_keys(p@) =~= seq!["result"@, "3d_model_uuid"@]);
        if let Some(model_uuid) = nested_string(detail, &p) {
            return model_uuid;
        }
    }
    String::from_str(seed)
}

/// The seed 3D model UUID of an item; `MissingModelUuid` when it has none.
pub fn seed_model_uuid(item: &SearchItem) -> (r: Result<&String, AppError>)
    ensures
        match (r, item.model_uuid) {
            (Ok(u), Some(m)) => u@ == m@,
            (Err(e), None) => e == AppError::MissingModelUuid,
            _ => false,
        },
{
    match &item.model_uuid {
        Some(u) => Ok(u),
        None => Err(AppError::MissingModelUuid),
    }
}

} // verus!
