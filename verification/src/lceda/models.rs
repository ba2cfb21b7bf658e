//! One row of an LCEDA search result, and what the library reads from it.
use vstd::prelude::*;

use crate::json::{path_keys, spec_get, spec_nested, JsonView, Value};
use crate::text::{is_blank, is_blank_str, push_str};
use crate::util::{
    component_word, nested_string, sanitize_filename, spec_nested_string, spec_sanitize_filename,
};

verus! {

/// A search result: its 1-based position, the titles and manufacturer the
/// search listed, the 3D model UUID it named, and the whole result row.
#[derive(Debug)]
pub struct SearchItem {
    pub index: usize,
    pub display_title: String,
    pub title: String,
    pub manufacturer: String,
    pub model_uuid: Option<String>,
    pub raw: Value,
}

/// A search result as mathematics.
pub struct SearchItemView {
    pub index: usize,
    pub display_title: Seq<char>,
    pub title: Seq<char>,
    pub manufacturer: Seq<char>,
    pub model_uuid: Option<Seq<char>>,
    pub raw: JsonView,
}

pub open spec fn opt_string_view(o: Option<String>) -> Option<Seq<char>> {
    match o {
        Some(s) => Some(s@),
        None => None,
    }
}

impl View for SearchItem {
    type V = SearchItemView;

    open spec fn view(&self) -> SearchItemView {
        SearchItemView {
            index: self.index,
            display_title: self.display_title@,
            title: self.title@,
            manufacturer: self.manufacturer@,
            model_uuid: opt_string_view(self.model_uuid),
            raw: self.raw@,
        }
    }
}

impl Clone for SearchItem {
    fn clone(&self) -> (r: Self)
        ensures
            r@ == self@,
    {
        let model_uuid = match &self.model_uuid {
            Some(u) => Some(u.clone()),
            None => None,
        };
        SearchItem {
            index: self.index,
            display_title: self.display_title.clone(),
            title: self.title.clone(),
            manufacturer: self.manufacturer.clone(),
            model_uuid,
            raw: self.raw.clone(),
        }
    }
}

/// The name shown for an item: its display title, else its title, else
/// `component`.
pub open spec fn spec_display_name(item: SearchItemView) -> Seq<char> {
    if item.display_title.len() > 0 {
        item.display_title
    } else if item.title.len() > 0 {
        item.title
    } else {
        component_word()
    }
}

/// An optional text, kept only when it is not blank.
pub open spec fn non_blank(o: Option<Seq<char>>) -> Option<Seq<char>> {
    match o {
        Some(v) => if is_blank(v) {
            None
        } else {
            Some(v)
        },
        None => None,
    }
}

/// An optional text, kept only when it is not empty.
pub open spec fn non_empty(o: Option<Seq<char>>) -> Option<Seq<char>> {
    match o {
        Some(v) => if v.len() == 0 {
            None
        } else {
            Some(v)
        },
        None => None,
    }
}

pub open spec fn or_else(a: Option<Seq<char>>, b: Option<Seq<char>>) -> Option<Seq<char>> {
    match a {
        Some(v) => Some(v),
        None => b,
    }
}

/// The LCSC part number: the `product_code` of the row, else the
/// `Supplier Part` attribute, whichever is first not blank.
pub open spec fn spec_lcsc_id(item: SearchItemView) -> Option<Seq<char>> {
    non_blank(
        or_else(
            non_blank(spec_nested_string(item.raw, seq!["product_code"@])),
            spec_nested_string(item.raw, seq!["attributes"@, "Supplier Part"@]),
        ),
    )
}

/// The symbol UUID: `symbol.uuid` of the row, else its `Symbol` attribute.
pub open spec fn spec_symbol_uuid(item: SearchItemView) -> Option<Seq<char>> {
    or_else(
        spec_nested_string(item.raw, seq!["symbol"@, "uuid"@]),
        spec_nested_string(item.raw, seq!["attributes"@, "Symbol"@]),
    )
}

/// The footprint UUID: `footprint.uuid` of the row, else its `Footprint` attribute.
pub open spec fn spec_footprint_uuid(item: SearchItemView) -> Option<Seq<char>> {
    or_else(
        spec_nested_string(item.raw, seq!["footprint"@, "uuid"@]),
        spec_nested_string(item.raw, seq!["attributes"@, "Footprint"@]),
    )
}

/// The string at `outer.inner` of a row, when there is one.
pub open spec fn has_text_at(raw: JsonView, outer: Seq<char>, inner: Seq<char>, u: Seq<char>) -> bool {
    spec_get(raw, outer) matches Some(o) && spec_get(o, inner) == Some(JsonView::Str(u))
}

/// Whether the row has any value at `outer.inner`.
pub open spec fn has_value_at(raw: JsonView, outer: Seq<char>, inner: Seq<char>) -> bool {
    spec_get(raw, outer) matches Some(o) && spec_get(o, inner) is Some
}

proof fn lemma_two_step(raw: JsonView, outer: Seq<char>, inner: Seq<char>)
    ensures
        spec_nested(raw, seq![outer, inner]) == (match spec_get(raw, outer) {
            Some(o) => spec_get(o, inner),
            None => None,
        }),
{
    let path = seq![outer, inner];
    let one = seq![outer];
    let none = Seq::<Seq<char>>::empty();
    assert(path.drop_last() =~= one);
    assert(path.last() == inner);
    assert(one.drop_last() =~= none);
    assert(one.last() == outer);
    assert(spec_nested(raw, none) == Some(raw));
    assert(spec_nested(raw, one) == spec_get(raw, outer));
}

/// The footprint UUID is the row's `footprint.uuid` string when the row has
/// one; only when the row has no `footprint.uuid` does the `Footprint`
/// attribute give it.
pub proof fn lemma_footprint_uuid_prefers_row(item: SearchItemView, u: Seq<char>)
    ensures
        has_text_at(item.raw, "footprint"@, "uuid"@, u) ==> spec_footprint_uuid(item) == Some(u),
        !has_value_at(item.raw, "footprint"@, "uuid"@) && has_text_at(
            item.raw,
            "attributes"@,
            "Footprint"@,
            u,
        ) ==> spec_footprint_uuid(item) == Some(u),
        !has_value_at(item.raw, "footprint"@, "uuid"@) && !has_value_at(
            item.raw,
            "attributes"@,
            "Footprint"@,
        ) ==> spec_footprint_uuid(item) is None,
{
    lemma_two_step(item.raw, "footprint"@, "uuid"@);
    lemma_two_step(item.raw, "attributes"@, "Footprint"@);
}

/// The symbol UUID is the row's `symbol.uuid` string when the row has one;
/// only when the row has no `symbol.uuid` does the `Symbol` attribute give
/// it.
pub proof fn lemma_symbol_uuid_prefers_row(item: SearchItemView, u: Seq<char>)
    ensures
        has_text_at(item.raw, "symbol"@, "uuid"@, u) ==> spec_symbol_uuid(item) == Some(u),
        !has_value_at(item.raw, "symbol"@, "uuid"@) && has_text_at(
            item.raw,
            "attributes"@,
            "Symbol"@,
            u,
        ) ==> spec_symbol_uuid(item) == Some(u),
        !has_value_at(item.raw, "symbol"@, "uuid"@) && !has_value_at(
            item.raw,
            "attributes"@,
            "Symbol"@,
        ) ==> spec_symbol_uuid(item) is None,
{
    lemma_two_step(item.raw, "symbol"@, "uuid"@);
    lemma_two_step(item.raw, "attributes"@, "Symbol"@);
}

/// The STEP file name: the footprint's display title, else the display
/// name, made safe, with `.step` added.
pub open spec fn spec_step_filename(item: SearchItemView) -> Seq<char> {
    let base = match non_empty(spec_nested_string(item.raw, seq!["footprint"@, "display_title"@])) {
        Some(t) => t,
        None => spec_display_name(item),
    };
    spec_sanitize_filename(base) + ".step"@
}

/// The OBJ base name: the title, else the display name, made safe.
pub open spec fn spec_obj_basename(item: SearchItemView) -> Seq<char> {
    spec_sanitize_filename(
        if item.title.len() > 0 {
            item.title
        } else {
            spec_display_name(item)
        },
    )
}

fn keep_non_blank(o: Option<String>) -> (r: Option<String>)
    ensures
        opt_string_view(r) == non_blank(opt_string_view(o)),
{
    match o {
        Some(v) => if is_blank_str(v.as_str()) {
            None
        } else {
            Some(v)
        },
        None => None,
    }
}

impl SearchItem {
    /// The name shown for this item.
    pub fn display_name(&self) -> (r: &str)
        ensures
            r@ == spec_display_name(self@),
    {
        if self.display_title.as_str().is_empty() == false {
            self.display_title.as_str()
        } else if self.title.as_str().is_empty() == false {
            self.title.as_str()
        } else {
            proof {
                reveal_strlit("component");
                assert("component"@ =~= component_word());
            }
            "component"
        }
    }

    /// The LCSC part number of this item.
    pub fn lcsc_id(&self) -> (r: Option<String>)
        ensures
            opt_string_view(r) == spec_lcsc_id(self@),
    {
        let p1 = ["product_code"];
        let p2 = ["attributes", "Supplier Part"];
        assert(path_keys(p1@) =~= seq!["product_code"@]);
        assert(path_keys(p2@) =~= seq!["attributes"@, "Supplier Part"@]);
        let first = keep_non_blank(nested_string(&self.raw, &p1));
        let either = match first {
            Some(v) => Some(v),
            None => nested_string(&self.raw, &p2),
        };
        keep_non_blank(either)
    }

    /// The file name for this item's STEP model.
    pub fn choose_step_filename(&self) -> (r: String)
        ensures
            r@ == spec_step_filename(self@),
    {
        let p = ["footprint", "display_title"];
        assert(path_keys(p@) =~= seq!["footprint"@, "display_title"@]);
        let base = match nested_string(&self.raw, &p) {
            Some(t) => if t.as_str().is_empty() == false {
                t
            } else {
                String::from_str(self.display_name())
            },
            None => String::from_str(self.display_name()),
        };
        let mut r = sanitize_filename(base.as_str());
        push_str(&mut r, ".step");
        r
    }

    /// The base name for this item's OBJ and MTL files.
    pub fn choose_obj_basename(&self) -> (r: String)
        ensures
            r@ == spec_obj_basename(self@),
    {
        if self.title.as_str().is_empty() == false {
            sanitize_filename(self.title.as_str())
        } else {
            sanitize_filename(self.display_name())
        }
    }

    /// The UUID of this item's symbol.
    pub fn symbol_uuid(&self) -> (r: Option<String>)
        ensures
            opt_string_view(r) == spec_symbol_uuid(self@),
    {
        let p1 = ["symbol", "uuid"];
        let p2 = ["attributes", "Symbol"];
        assert(path_keys(p1@) =~= seq!["symbol"@, "uuid"@]);
        assert(path_keys(p2@) =~= seq!["attributes"@, "Symbol"@]);
        match nested_string(&self.raw, &p1) {
            Some(v) => Some(v),
            None => nested_string(&self.raw, &p2),
        }
    }

    /// The UUID of this item's footprint.
    pub fn footprint_uuid(&self) -> (r: Option<String>)
        ensures
            opt_string_view(r) == spec_footprint_uuid(self@),
    {
        let p1 = ["footprint", "uuid"];
        let p2 = ["attributes", "Footprint"];
        assert(path_keys(p1@) =~= seq!["footprint"@, "uuid"@]);
        assert(path_keys(p2@) =~= seq!["attributes"@, "Footprint"@]);
        match nested_string(&self.raw, &p1) {
            Some(v) => Some(v),
            None => nested_string(&self.raw, &p2),
        }
    }
}

} // verus!
