use recipe_harvest::page::{PageModel, PageNode};
use recipe_harvest::recipe::{extract, ExtractError};

fn leaf(tag: &str, text: &str) -> PageNode {
    PageNode {
        tag: tag.to_string(),
        classes: vec![],
        src: None,
        text: text.to_string(),
        children: vec![],
    }
}

fn classed(class: &str, text: &str, children: Vec<PageNode>) -> PageNode {
    PageNode {
        tag: "div".to_string(),
        classes: vec![class.to_string()],
        src: None,
        text: text.to_string(),
        children,
    }
}

fn img(src: Option<&str>) -> PageNode {
    PageNode {
        tag: "img".to_string(),
        classes: vec![],
        src: src.map(|s| s.to_string()),
        text: String::new(),
        children: vec![],
    }
}

fn list_section(class: &str, items: &[&str]) -> PageNode {
    classed(
        class,
        "",
        items.iter().map(|t| leaf("li", t)).collect(),
    )
}

fn full_page() -> PageModel {
    PageModel {
        nodes: vec![
            classed("mainTitle", "Lentil Stew", vec![]),
            classed("sideTitle", "Garlic Bread", vec![]),
            classed("recipe_image", "", vec![img(Some("http://host/images/stew.png"))]),
            classed(
                "times",
                "",
                vec![leaf("time", "Prep: 10 min"), leaf("time", "Cook: 30 min")],
            ),
            classed(
                "mainInformation",
                "",
                vec![
                    list_section("ingredients", &["lentils", "carrots"]),
                    list_section("instructions", &["chop", "simmer"]),
                ],
            ),
            classed(
                "side_dish_section",
                "",
                vec![
                    list_section("ingredients", &["bread", "garlic"]),
                    list_section("instructions", &["toast"]),
                ],
            ),
        ],
    }
}

#[test]
fn extracts_every_field() {
    let page = full_page();
    let rec = extract(&page).unwrap();
    assert_eq!(rec.title, "Lentil Stew");
    assert_eq!(rec.side_title, Some("Garlic Bread".to_string()));
    assert_eq!(rec.image_url, Some("http://host/images/stew.png".to_string()));
    assert_eq!(rec.times, vec!["Prep: 10 min".to_string(), "Cook: 30 min".to_string()]);
    assert_eq!(rec.main_ingredients, vec!["lentils".to_string(), "carrots".to_string()]);
    assert_eq!(rec.main_instructions, vec!["chop".to_string(), "simmer".to_string()]);
    assert_eq!(rec.side_ingredients, vec!["bread".to_string(), "garlic".to_string()]);
    assert_eq!(rec.side_instructions, vec!["toast".to_string()]);
}

#[test]
fn extraction_is_idempotent() {
    let page = full_page();
    let first = extract(&page).unwrap();
    let second = extract(&page).unwrap();
    assert_eq!(first, second);
}

#[test]
fn missing_title_is_fatal() {
    let page = PageModel {
        nodes: vec![
            classed("sideTitle", "Garlic Bread", vec![]),
            classed(
                "mainInformation",
                "",
                vec![list_section("ingredients", &["lentils"])],
            ),
        ],
    };
    assert_eq!(extract(&page), Err(ExtractError::MissingTitle));
}

#[test]
fn absences_degrade_gracefully() {
    let page = PageModel {
        nodes: vec![classed("mainTitle", "Plain Toast", vec![])],
    };
    let rec = extract(&page).unwrap();
    assert_eq!(rec.title, "Plain Toast");
    assert_eq!(rec.side_title, None);
    assert_eq!(rec.image_url, None);
    assert!(rec.times.is_empty());
    assert!(rec.main_ingredients.is_empty());
    assert!(rec.main_instructions.is_empty());
    assert!(rec.side_ingredients.is_empty());
    assert!(rec.side_instructions.is_empty());
}

#[test]
fn side_lists_stay_empty_without_side_title() {
    // A side-dish container exists, but no side title: the recipe must not
    // pick its items up.
    let page = PageModel {
        nodes: vec![
            classed("mainTitle", "Soup", vec![]),
            classed(
                "side_dish_section",
                "",
                vec![list_section("ingredients", &["bread"])],
            ),
        ],
    };
    let rec = extract(&page).unwrap();
    assert_eq!(rec.side_title, None);
    assert!(rec.side_ingredients.is_empty());
    assert!(rec.side_instructions.is_empty());
}

#[test]
fn queries_are_structural_not_positional() {
    // Reordering sibling sections must not change what is extracted.
    let mut nodes = full_page().nodes;
    nodes.reverse();
    let page = PageModel { nodes };
    let rec = extract(&page).unwrap();
    assert_eq!(rec.title, "Lentil Stew");
    assert_eq!(rec.main_ingredients, vec!["lentils".to_string(), "carrots".to_string()]);
    assert_eq!(rec.side_ingredients, vec!["bread".to_string(), "garlic".to_string()]);
}

#[test]
fn image_without_src_gives_none() {
    let page = PageModel {
        nodes: vec![
            classed("mainTitle", "Soup", vec![]),
            classed("recipe_image", "", vec![img(None)]),
        ],
    };
    let rec = extract(&page).unwrap();
    assert_eq!(rec.image_url, None);
}

#[test]
fn nested_containers_are_found_at_depth() {
    // The title may sit anywhere below the top level.
    let page = PageModel {
        nodes: vec![classed(
            "wrapper",
            "",
            vec![classed("inner", "", vec![classed("mainTitle", "Deep Dish", vec![])])],
        )],
    };
    let rec = extract(&page).unwrap();
    assert_eq!(rec.title, "Deep Dish");
}

#[test]
fn first_title_in_document_order_wins() {
    let page = PageModel {
        nodes: vec![
            classed("mainTitle", "First", vec![]),
            classed("mainTitle", "Second", vec![]),
        ],
    };
    assert_eq!(extract(&page).unwrap().title, "First");
}

#[test]
fn all_matching_containers_contribute_in_document_order() {
    // Two separate times containers: every time element below either is
    // collected, in document order.
    let page = PageModel {
        nodes: vec![
            classed("mainTitle", "Stew", vec![]),
            classed("times", "", vec![leaf("time", "Prep: 10 min")]),
            classed("times", "", vec![leaf("time", "Cook: 30 min")]),
        ],
    };
    let rec = extract(&page).unwrap();
    assert_eq!(rec.times, vec!["Prep: 10 min".to_string(), "Cook: 30 min".to_string()]);
}

#[test]
fn inner_container_must_sit_below_outer() {
    // A single element carrying both container classes does not chain with
    // itself: its items need an `ingredients` ancestor strictly below a
    // `mainInformation` ancestor.
    let both = PageNode {
        tag: "div".to_string(),
        classes: vec!["mainInformation".to_string(), "ingredients".to_string()],
        src: None,
        text: String::new(),
        children: vec![leaf("li", "stray item")],
    };
    let page = PageModel {
        nodes: vec![classed("mainTitle", "Stew", vec![]), both],
    };
    let rec = extract(&page).unwrap();
    assert!(rec.main_ingredients.is_empty());
}
