use recipe_harvest::document::{ingredients_text, recipes_document};
use recipe_harvest::harvest::{
    collect_outcomes, harvest_page, record_outcome, HarvestFailure, HarvestResult, TaskOutcome,
};
use recipe_harvest::page::{PageModel, PageNode};
use recipe_harvest::recipe::ExtractError;

fn leaf(tag: &str, text: &str) -> PageNode {
    PageNode {
        tag: tag.to_string(),
        classes: vec![],
        src: None,
        text: text.to_string(),
        children: vec![],
    }
}

fn classed(class: &str, text: &str, children: Vec<PageNode>) -> PageNode {
    PageNode {
        tag: "div".to_string(),
        classes: vec![class.to_string()],
        src: None,
        text: text.to_string(),
        children,
    }
}

fn list_section(class: &str, items: &[&str]) -> PageNode {
    classed(class, "", items.iter().map(|t| leaf("li", t)).collect())
}

/// Page A: main ingredients eggs and milk, no side dish.
fn page_a() -> PageModel {
    PageModel {
        nodes: vec![
            classed("mainTitle", "A", vec![]),
            classed(
                "mainInformation",
                "",
                vec![list_section("ingredients", &["eggs", "milk"])],
            ),
        ],
    }
}

/// Page B: main ingredient flour, side dish "Side Salad" with butter.
fn page_b() -> PageModel {
    PageModel {
        nodes: vec![
            classed("mainTitle", "B", vec![]),
            classed("sideTitle", "Side Salad", vec![]),
            classed(
                "mainInformation",
                "",
                vec![list_section("ingredients", &["flour"])],
            ),
            classed(
                "side_dish_section",
                "",
                vec![list_section("ingredients", &["butter"])],
            ),
        ],
    }
}

fn outcome_of(page: &PageModel) -> TaskOutcome {
    match harvest_page(page) {
        Ok((ingredients, fragment)) => TaskOutcome::Harvested { ingredients, fragment },
        Err(ExtractError::MissingTitle) => {
            TaskOutcome::Failed { failure: HarvestFailure::MissingTitle }
        }
    }
}

#[test]
fn appends_are_contiguous_and_independent() {
    let mut result = HarvestResult::new();
    result.append_ingredients(vec!["eggs".to_string(), "milk".to_string()]);
    result.append_recipe("fragment-one".to_string());
    result.append_ingredients(vec!["flour".to_string()]);
    assert_eq!(
        result.ingredients,
        vec!["eggs".to_string(), "milk".to_string(), "flour".to_string()]
    );
    assert_eq!(result.recipe_fragments, vec!["fragment-one".to_string()]);
}

#[test]
fn three_url_scenario() {
    // Three URLs: A and B harvest, C's fetch fails. The run completes, the
    // shopping list is the multiset {eggs, milk, flour, butter}, and the
    // document holds exactly the two fragments.
    let outcomes = vec![
        outcome_of(&page_a()),
        outcome_of(&page_b()),
        TaskOutcome::Failed { failure: HarvestFailure::Fetch },
    ];
    let result = collect_outcomes(outcomes);

    let mut sorted = result.ingredients.clone();
    sorted.sort();
    assert_eq!(
        sorted,
        vec![
            "butter".to_string(),
            "eggs".to_string(),
            "flour".to_string(),
            "milk".to_string()
        ]
    );
    assert_eq!(result.recipe_fragments.len(), 2);
    let a_fragment = &result.recipe_fragments[0];
    let b_fragment = &result.recipe_fragments[1];
    assert!(a_fragment.contains("{\\noindent\\Large A}"));
    assert!(!a_fragment.contains("Side"));
    assert!(b_fragment.contains("{\\noindent\\Large B}"));
    assert!(b_fragment.contains("{\\noindent\\large Side Salad}"));
    assert!(b_fragment.contains("    \\item[] butter\n"));
}

#[test]
fn completion_order_only_reorders_the_aggregates() {
    // The same two tasks, arriving in either order: each collection holds
    // the same items as a multiset.
    let one = collect_outcomes(vec![outcome_of(&page_a()), outcome_of(&page_b())]);
    let two = collect_outcomes(vec![outcome_of(&page_b()), outcome_of(&page_a())]);

    let mut ingredients_one = one.ingredients.clone();
    let mut ingredients_two = two.ingredients.clone();
    ingredients_one.sort();
    ingredients_two.sort();
    assert_eq!(ingredients_one, ingredients_two);

    let mut fragments_one = one.recipe_fragments.clone();
    let mut fragments_two = two.recipe_fragments.clone();
    fragments_one.sort();
    fragments_two.sort();
    assert_eq!(fragments_one, fragments_two);
}

#[test]
fn failed_outcome_contributes_nothing() {
    let mut result = HarvestResult::new();
    record_outcome(
        &mut result,
        TaskOutcome::Failed { failure: HarvestFailure::MissingTitle },
    );
    record_outcome(&mut result, TaskOutcome::Failed { failure: HarvestFailure::Fetch });
    assert!(result.ingredients.is_empty());
    assert!(result.recipe_fragments.is_empty());
}

#[test]
fn missing_title_page_contributes_nothing() {
    let untitled = PageModel {
        nodes: vec![classed(
            "mainInformation",
            "",
            vec![list_section("ingredients", &["ghost pepper"])],
        )],
    };
    let outcomes = vec![outcome_of(&untitled), outcome_of(&page_a())];
    let result = collect_outcomes(outcomes);
    assert_eq!(result.ingredients, vec!["eggs".to_string(), "milk".to_string()]);
    assert_eq!(result.recipe_fragments.len(), 1);
    assert!(!ingredients_text(&result.ingredients).contains("ghost pepper"));
}

#[test]
fn all_failures_still_complete() {
    let outcomes = vec![
        TaskOutcome::Failed { failure: HarvestFailure::Fetch },
        TaskOutcome::Failed { failure: HarvestFailure::Fetch },
    ];
    let result = collect_outcomes(outcomes);
    assert!(result.ingredients.is_empty());
    assert!(result.recipe_fragments.is_empty());
    assert_eq!(
        recipes_document(&result.recipe_fragments),
        "\n\\documentclass[12pt]{article}\n\n\\usepackage{fullpage}\n\\usepackage{fontspec}\n\\usepackage{multicol}\n\\usepackage{graphicx}\n\n\\setmainfont{Andika}\n\n\\pagestyle{empty}\n\n\\begin{document}\n\n\\end{document}\n"
    );
}

#[test]
fn shopping_list_is_one_item_per_line() {
    let items = vec!["eggs".to_string(), "2 cups milk".to_string()];
    assert_eq!(ingredients_text(&items), "eggs\n2 cups milk\n");
}

#[test]
fn duplicate_ingredients_are_preserved() {
    // Two recipes both needing eggs produce two egg lines: the list is
    // never deduplicated.
    let outcomes = vec![outcome_of(&page_a()), outcome_of(&page_a())];
    let result = collect_outcomes(outcomes);
    assert_eq!(
        result.ingredients,
        vec![
            "eggs".to_string(),
            "milk".to_string(),
            "eggs".to_string(),
            "milk".to_string()
        ]
    );
}

#[test]
fn document_wraps_fragments_with_page_breaks() {
    let fragments = vec!["first".to_string(), "second".to_string()];
    let document = recipes_document(&fragments);
    assert!(document.starts_with("\n\\documentclass[12pt]{article}\n"));
    assert!(document.contains("first\n\\newpage\nsecond\n\\newpage\n"));
    assert!(document.ends_with("\n\\end{document}\n"));
}
