//! Extraction: turning one parsed page into a structured recipe.
//!
//! Every field of a [`Recipe`] is read off the page by a structural
//! container query; only the main title is required. A page without a main
//! title yields [`ExtractError::MissingTitle`] and nothing else.

use vstd::prelude::*;

use crate::page::{
    collect_texts_under, collect_texts_under2, find_first_class_text, find_first_src_under,
    first_class_text_in_forest, src_of_first_tagged_under, texts_under2_forest,
    texts_under_forest, PageModel, PageNode,
};

verus! {

/// A structured recipe, the value one successful harvest task produces.
///
/// `side_ingredients` and `side_instructions` are non-empty only when
/// `side_title` is set; a recipe may declare a side title with no extracted
/// items.
#[derive(Debug, PartialEq)]
pub struct Recipe {
    pub title: String,
    pub side_title: Option<String>,
    pub image_url: Option<String>,
    pub times: Vec<String>,
    pub main_ingredients: Vec<String>,
    pub main_instructions: Vec<String>,
    pub side_ingredients: Vec<String>,
    pub side_instructions: Vec<String>,
}

/// The one fatal extraction failure: the page has no main title.
#[derive(Debug, Clone, Copy, PartialEq, Eq, Structural)]
pub enum ExtractError {
    MissingTitle,
}

/// The main title of a page: the text of the first element classed `mainTitle`.
pub open spec fn page_title(ns: Seq<PageNode>) -> Option<Seq<char>> {
    first_class_text_in_forest(ns, "mainTitle"@)
}

/// The side-dish title: the text of the first element classed `sideTitle`.
pub open spec fn page_side_title(ns: Seq<PageNode>) -> Option<Seq<char>> {
    first_class_text_in_forest(ns, "sideTitle"@)
}

/// The recipe image URL: the `src` of the first `img` element inside an
/// element classed `recipe_image`.
pub open spec fn page_image_url(ns: Seq<PageNode>) -> Option<Seq<char>> {
    src_of_first_tagged_under(ns, "recipe_image"@, "img"@)
}

/// The timing labels: the texts of all `time` elements inside an element
/// classed `times`, in document order.
pub open spec fn page_times(ns: Seq<PageNode>) -> Seq<Seq<char>> {
    texts_under_forest(ns, "times"@, "time"@, false)
}

/// The main ingredient items: `li` texts inside `ingredients` inside
/// `mainInformation`, in document order.
pub open spec fn page_main_ingredients(ns: Seq<PageNode>) -> Seq<Seq<char>> {
    texts_under2_forest(ns, "mainInformation"@, "ingredients"@, "li"@, false, false)
}

/// The main instruction items: `li` texts inside `instructions` inside
/// `mainInformation`, in document order.
pub open spec fn page_main_instructions(ns: Seq<PageNode>) -> Seq<Seq<char>> {
    texts_under2_forest(ns, "mainInformation"@, "instructions"@, "li"@, false, false)
}

/// The side-dish ingredient items, scoped to the `side_dish_section` container.
pub open spec fn page_side_ingredients(ns: Seq<PageNode>) -> Seq<Seq<char>> {
    texts_under2_forest(ns, "side_dish_section"@, "ingredients"@, "li"@, false, false)
}

/// The side-dish instruction items, scoped to the `side_dish_section` container.
pub open spec fn page_side_instructions(ns: Seq<PageNode>) -> Seq<Seq<char>> {
    texts_under2_forest(ns, "side_dish_section"@, "instructions"@, "li"@, false, false)
}

/// What extraction promises of a produced recipe: every field is exactly
/// the value its query reads off the page, and the side lists are filled
/// only when the page declares a side title.
pub open spec fn recipe_matches_page(rec: Recipe, ns: Seq<PageNode>) -> bool {
    &&& page_title(ns) == Some(rec.title@)
    &&& rec.side_title.deep_view() == page_side_title(ns)
    &&& rec.image_url.deep_view() == page_image_url(ns)
    &&& rec.times.deep_view() == page_times(ns)
    &&& rec.main_ingredients.deep_view() == page_main_ingredients(ns)
    &&& rec.main_instructions.deep_view() == page_main_instructions(ns)
    &&& rec.side_ingredients.deep_view() == (if page_side_title(ns) is Some {
        page_side_ingredients(ns)
    } else {
        Seq::<Seq<char>>::empty()
    })
    &&& rec.side_instructions.deep_view() == (if page_side_title(ns) is Some {
        page_side_instructions(ns)
    } else {
        Seq::<Seq<char>>::empty()
    })
}

/// A recipe is well formed when its side lists are empty unless a side
/// title is present. Extraction establishes this; rendering relies on it
/// only in that an absent side title omits the side block wholesale.
pub open spec fn recipe_wf(rec: Recipe) -> bool {
    rec.side_title is None ==> rec.side_ingredients@.len() == 0
        && rec.side_instructions@.len() == 0
}

/// Extract a structured recipe from one parsed page.
///
/// Succeeds exactly when the page has a main title; every other absence
/// degrades to `None` or to an empty list.
pub fn extract(page: &PageModel) -> (r: Result<Recipe, ExtractError>)
    ensures
        match r {
            Ok(rec) => recipe_matches_page(rec, page.nodes@) && recipe_wf(rec),
            Err(e) => page_title(page.nodes@) is None && e == ExtractError::MissingTitle,
        },
        r is Ok <==> page_title(page.nodes@) is Some,
{
    let title = match find_first_class_text(page, &"mainTitle".to_owned()) {
        Some(t) => t,
        None => {
            return Err(ExtractError::MissingTitle);
        },
    };
    let side_title = find_first_class_text(page, &"sideTitle".to_owned());
    let image_url = find_first_src_under(page, &"recipe_image".to_owned(), &"img".to_owned());
    let times = collect_texts_under(page, &"times".to_owned(), &"time".to_owned());
    let main_ingredients = collect_texts_under2(
        page,
        &"mainInformation".to_owned(),
        &"ingredients".to_owned(),
        &"li".to_owned(),
    );
    let main_instructions = collect_texts_under2(
        page,
        &"mainInformation".to_owned(),
        &"instructions".to_owned(),
        &"li".to_owned(),
    );
    let has_side = side_title.is_some();
    let side_ingredients: Vec<String> = if has_side {
        collect_texts_under2(
            page,
            &"side_dish_section".to_owned(),
            &"ingredients".to_owned(),
            &"li".to_owned(),
        )
    } else {
        Vec::new()
    };
    let side_instructions: Vec<String> = if has_side {
        collect_texts_under2(
            page,
            &"side_dish_section".to_owned(),
            &"instructions".to_owned(),
            &"li".to_owned(),
        )
    } else {
        Vec::new()
    };
    proof {
        if !has_side {
            assert(side_ingredients.deep_view() =~= Seq::<Seq<char>>::empty());
            assert(side_instructions.deep_view() =~= Seq::<Seq<char>>::empty());
        }
    }
    Ok(
        Recipe {
            title,
            side_title,
            image_url,
            times,
            main_ingredients,
            main_instructions,
            side_ingredients,
            side_instructions,
        },
    )
}

/// Extraction is a function of the page alone: two recipes extracted from
/// the same page agree, field for field. Extracting the same page twice
/// therefore yields structurally equal values.
pub proof fn lemma_extract_deterministic(r1: Recipe, r2: Recipe, ns: Seq<PageNode>)
    requires
        recipe_matches_page(r1, ns),
        recipe_matches_page(r2, ns),
    ensures
        r1.title@ == r2.title@,
        r1.side_title.deep_view() == r2.side_title.deep_view(),
        r1.image_url.deep_view() == r2.image_url.deep_view(),
        r1.times.deep_view() == r2.times.deep_view(),
        r1.main_ingredients.deep_view() == r2.main_ingredients.deep_view(),
        r1.main_instructions.deep_view() == r2.main_instructions.deep_view(),
        r1.side_ingredients.deep_view() == r2.side_ingredients.deep_view(),
        r1.side_instructions.deep_view() == r2.side_instructions.deep_view(),
{
}

} // verus!
