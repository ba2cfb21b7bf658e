//! The decisions of the export workflows: the name a library is written
//! under, the 3D model UUIDs tried for a footprint, and the OBJ text.
use vstd::prelude::*;

use crate::json::{path_keys, Value};
use crate::lceda::models::{non_blank, opt_string_view, spec_display_name, SearchItem};
use crate::text::{
    chars_eq_ignore_case, chars_of, eq_ignore_case, is_blank, is_blank_str, push_str,
};
use crate::util::{nested_string, spec_nested_string};
use crate::json::JsonView;

verus! {

/// The name a library is exported under: the item's display name, unless
/// that is blank, in which case the payload's `result.display_title` when
/// it is not blank, else the display name.
pub open spec fn spec_export_component_name(item: crate::lceda::models::SearchItemView, data: JsonView) -> Seq<char> {
    let shown = spec_display_name(item);
    if is_blank(shown) {
        match non_blank(spec_nested_string(data, seq!["result"@, "display_title"@])) {
            Some(t) => t,
            None => shown,
        }
    } else {
        shown
    }
}

/// The name a symbol or footprint library is exported under.
pub fn export_component_name(item: &SearchItem, data: &Value) -> (r: String)
    ensures
        r@ == spec_export_component_name(item@, data@),
{
    let shown = item.display_name();
    if is_blank_str(shown) {
        let p = ["result", "display_title"];
        assert(path_keys(p@) =~= seq!["result"@, "display_title"@]);
        match nested_string(data, &p) {
            Some(t) => if is_blank_str(t.as_str()) {
                String::from_str(shown)
            } else {
                t
            },
            None => String::from_str(shown),
        }
    } else {
        String::from_str(shown)
    }
}

/// Adds a model UUID to the candidates unless one equal to it, ignoring
/// ASCII case, is already there.
pub open spec fn spec_add_candidate(cs: Seq<Seq<char>>, uuid: Seq<char>) -> Seq<Seq<char>> {
    if exists|i: int| 0 <= i < cs.len() && eq_ignore_case(#[trigger] cs[i], uuid) {
        cs
    } else {
        cs.push(uuid)
    }
}

pub open spec fn string_views(v: Seq<String>) -> Seq<Seq<char>> {
    v.map_values(|x: String| x@)
}

/// Adds a model UUID to try, unless it is already among the candidates.
pub fn add_model_candidate(candidates: &mut Vec<String>, uuid: String)
    ensures
        string_views(final(candidates)@) == spec_add_candidate(string_views(old(candidates)@), uuid@),
{
    let u = chars_of(uuid.as_str());
    let ghost cs = string_views(candidates@);
    let mut i: usize = 0;
    while i < candidates.len()
        invariant
            i <= candidates@.len(),
            cs == string_views(candidates@),
            u@ == uuid@,
            forall|k: int| 0 <= k < i ==> !eq_ignore_case(#[trigger] cs[k], uuid@),
        decreases candidates.len() - i,
    {
        let c = chars_of(candidates[i].as_str());
        assert(cs[i as int] == candidates@[i as int]@);
        if chars_eq_ignore_case(&c, &u) {
            return;
        }
        i += 1;
    }
    candidates.push(uuid);
    assert(string_views(candidates@) =~= cs.push(uuid@));
}

/// No two candidates are equal ignoring ASCII case.
pub open spec fn distinct_ignoring_case(cs: Seq<Seq<char>>) -> bool {
    forall|i: int, j: int| 0 <= i < j < cs.len() ==> !eq_ignore_case(#[trigger] cs[i], #[trigger] cs[j])
}

/// Adding a candidate keeps the candidates distinct ignoring ASCII case,
/// and the added UUID is then among them up to case.
pub proof fn lemma_add_candidate_keeps_distinct(cs: Seq<Seq<char>>, uuid: Seq<char>)
    requires
        distinct_ignoring_case(cs),
    ensures
        distinct_ignoring_case(spec_add_candidate(cs, uuid)),
        exists|i: int|
            0 <= i < spec_add_candidate(cs, uuid).len() && eq_ignore_case(
                #[trigger] spec_add_candidate(cs, uuid)[i],
                uuid,
            ),
{
    let r = spec_add_candidate(cs, uuid);
    if exists|i: int| 0 <= i < cs.len() && eq_ignore_case(#[trigger] cs[i], uuid) {
        let i = choose|i: int| 0 <= i < cs.len() && eq_ignore_case(#[trigger] cs[i], uuid);
        assert(eq_ignore_case(r[i], uuid));
    } else {
        assert forall|i: int, j: int| 0 <= i < j < r.len() implies !eq_ignore_case(
            #[trigger] r[i],
            #[trigger] r[j],
        ) by {
            if j == cs.len() {
                assert(r[i] == cs[i]);
                assert(!eq_ignore_case(cs[i], uuid));
            } else {
                assert(r[i] == cs[i]);
                assert(r[j] == cs[j]);
            }
        }
        assert(r[cs.len() as int] == uuid);
        assert(eq_ignore_case(uuid, uuid));
    }
}

/// The model UUIDs a footprint export tries first: the footprint payload's
/// `result.model_3d.uri`, then the item's own model UUID, each when not
/// blank and not already there.
pub open spec fn spec_initial_candidates(footprint_data: JsonView, item_model: Option<Seq<char>>) -> Seq<Seq<char>> {
    let first: Seq<Seq<char>> = match non_blank(
        spec_nested_string(footprint_data, seq!["result"@, "model_3d"@, "uri"@]),
    ) {
        Some(u) => seq![u],
        None => Seq::empty(),
    };
    match non_blank(item_model) {
        Some(u) => spec_add_candidate(first, u),
        None => first,
    }
}

/// The model UUIDs a footprint export tries, against their two sources:
/// the footprint's `result.model_3d.uri` and the item's own model UUID.
/// When the uri is not blank it is tried first; when the item's UUID is not
/// blank it is tried too (unless the uri is the same UUID up to ASCII
/// case); every candidate comes from one of the two sources; and no two are
/// equal ignoring ASCII case.
pub proof fn lemma_initial_candidates_cover_sources(
    footprint_data: JsonView,
    item_model: Option<Seq<char>>,
)
    ensures
        ({
            let cs = spec_initial_candidates(footprint_data, item_model);
            let uri = non_blank(
                spec_nested_string(footprint_data, seq!["result"@, "model_3d"@, "uri"@]),
            );
            &&& uri matches Some(u) ==> cs.len() > 0 && cs[0] == u
            &&& non_blank(item_model) matches Some(m) ==> exists|i: int|
                0 <= i < cs.len() && eq_ignore_case(#[trigger] cs[i], m)
            &&& forall|i: int|
                0 <= i < cs.len() ==> uri == Some(#[trigger] cs[i]) || non_blank(item_model)
                    == Some(cs[i])
            &&& distinct_ignoring_case(cs)
            &&& cs.len() <= 2
        }),
{
    let uri = non_blank(spec_nested_string(footprint_data, seq!["result"@, "model_3d"@, "uri"@]));
    let first: Seq<Seq<char>> = match uri {
        Some(u) => seq![u],
        None => Seq::empty(),
    };
    assert(distinct_ignoring_case(first));
    let cs = spec_initial_candidates(footprint_data, item_model);
    match non_blank(item_model) {
        Some(m) => {
            lemma_add_candidate_keeps_distinct(first, m);
            assert(cs == spec_add_candidate(first, m));
            assert forall|i: int| 0 <= i < cs.len() implies uri == Some(#[trigger] cs[i])
                || non_blank(item_model) == Some(cs[i]) by {
                if i < first.len() {
                    assert(cs[i] == first[i]);
                }
            }
            if uri is Some {
                assert(cs[0] == first[0]);
            }
        },
        None => {},
    }
}

/// The model UUIDs a footprint export tries first.
pub fn initial_model_candidates(footprint_data: &Value, item: &SearchItem) -> (r: Vec<String>)
    ensures
        string_views(r@) == spec_initial_candidates(footprint_data@, opt_string_view(item.model_uuid)),
{
    let mut candidates: Vec<String> = Vec::new();
    let p = ["result", "model_3d", "uri"];
    assert(path_keys(p@) =~= seq!["result"@, "model_3d"@, "uri"@]);
    match nested_string(footprint_data, &p) {
        Some(u) => {
            if !is_blank_str(u.as_str()) {
                candidates.push(u);
            }
        },
        None => {},
    }
    let ghost first = string_views(candidates@);
    assert(first =~= (match non_blank(
        spec_nested_string(footprint_data@, seq!["result"@, "model_3d"@, "uri"@]),
    ) {
        Some(u) => seq![u],
        None => Seq::<Seq<char>>::empty(),
    }));
    match &item.model_uuid {
        Some(u) => {
            if !is_blank_str(u.as_str()) {
                add_model_candidate(&mut candidates, u.clone());
            }
        },
        None => {},
    }
    assert(string_views(candidates@) =~= spec_initial_candidates(
        footprint_data@,
        opt_string_view(item.model_uuid),
    ));
    candidates
}

/// The OBJ file text: a `mtllib` line naming the material file, then the
/// OBJ text.
pub open spec fn spec_obj_file_text(base_name: Seq<char>, obj_text: Seq<char>) -> Seq<char> {
    "mtllib "@ + base_name + ".mtl\n"@ + obj_text
}

/// The OBJ file text for a model whose files are named `base_name`.
pub fn obj_file_text(base_name: &str, obj_text: &str) -> (r: String)
    ensures
        r@ == spec_obj_file_text(base_name@, obj_text@),
{
    let mut r = String::from_str("mtllib ");
    push_str(&mut r, base_name);
    push_str(&mut r, ".mtl\n");
    push_str(&mut r, obj_text);
    r
}

/// A file name: the sanitised base name with an extension.
pub open spec fn spec_library_file_name(component_name: Seq<char>, extension: Seq<char>) -> Seq<char> {
    crate::util::spec_sanitize_filename(component_name) + seq!['.'] + extension
}

/// The file a library of `component_name` is written to, e.g. `extension`
/// `SchLib` or `PcbLib`.
pub fn library_file_name(component_name: &str, extension: &str) -> (r: String)
    ensures
        r@ == spec_library_file_name(component_name@, extension@),
{
    let mut r = crate::util::sanitize_filename(component_name);
    crate::text::push_char(&mut r, '.');
    push_str(&mut r, extension);
    r
}

} // verus!
