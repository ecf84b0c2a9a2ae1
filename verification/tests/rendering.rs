use recipe_harvest::recipe::Recipe;
use recipe_harvest::render::{image_filename, render_fragment};

fn strings(items: &[&str]) -> Vec<String> {
    items.iter().map(|s| s.to_string()).collect()
}

fn plain_recipe() -> Recipe {
    Recipe {
        title: "Omelette".to_string(),
        side_title: None,
        image_url: None,
        times: strings(&["Prep: 5 min", "Cook: 5 min"]),
        main_ingredients: strings(&["eggs", "milk"]),
        main_instructions: strings(&["whisk", "fry"]),
        side_ingredients: vec![],
        side_instructions: vec![],
    }
}

#[test]
fn renders_title_times_and_lists() {
    let fragment = render_fragment(&plain_recipe());
    assert_eq!(
        fragment,
        "{\\noindent\\Large Omelette}\n\n\\medskip\n\
         Prep: 5 min Cook: 5 min \n\n\\bigskip\n\
         {\\noindent\\large Ingredients}\n\\begin{itemize}\n    \\item[] eggs\n    \\item[] milk\n\\end{itemize}\n\
         \\bigskip\n{\\noindent\\large Instructions}\n\\begin{enumerate}\n    \\item whisk\n    \\item fry\n\\end{enumerate}\n\\bigskip\n"
    );
}

#[test]
fn no_side_title_means_no_side_headings() {
    let fragment = render_fragment(&plain_recipe());
    assert!(!fragment.contains("Side Dish"));
    assert!(!fragment.contains("\\noindent\\large Side"));
}

#[test]
fn side_title_brings_side_headings() {
    let mut rec = plain_recipe();
    rec.side_title = Some("Side Salad".to_string());
    rec.side_ingredients = strings(&["lettuce"]);
    rec.side_instructions = strings(&["toss"]);
    let fragment = render_fragment(&rec);
    assert!(fragment.contains("{\\noindent\\large Side Salad}\n\n"));
    assert!(fragment.contains("{\\noindent\\large Side Dish Ingredients}\n"));
    assert!(fragment.contains("{\\noindent\\large Side Dish Instructions}\n"));
    assert!(fragment.contains("    \\item[] lettuce\n"));
    assert!(fragment.contains("    \\item toss\n"));
}

#[test]
fn side_sections_may_be_empty() {
    // A declared side title with no extracted items still gets its (empty)
    // sections.
    let mut rec = plain_recipe();
    rec.side_title = Some("Side Salad".to_string());
    let fragment = render_fragment(&rec);
    assert!(fragment.contains(
        "{\\noindent\\large Side Dish Ingredients}\n\\begin{itemize}\n\\end{itemize}\n"
    ));
    assert!(fragment.contains(
        "{\\noindent\\large Side Dish Instructions}\n\\begin{enumerate}\n\\end{enumerate}\n"
    ));
}

#[test]
fn image_directive_uses_derived_filename() {
    let mut rec = plain_recipe();
    rec.image_url = Some("http://host/images/omelette.png".to_string());
    let fragment = render_fragment(&rec);
    assert!(fragment.starts_with(
        "\\begin{center}\\includegraphics[height=3in]{omelette.png}\\end{center}\n\n"
    ));
}

#[test]
fn trailing_slash_url_skips_image_but_keeps_recipe() {
    let mut rec = plain_recipe();
    rec.image_url = Some("http://host/images/".to_string());
    let fragment = render_fragment(&rec);
    assert!(!fragment.contains("\\includegraphics"));
    assert!(fragment.contains("{\\noindent\\Large Omelette}"));
    assert!(fragment.contains("    \\item[] eggs\n"));
}

#[test]
fn empty_lists_render_as_empty_bodies() {
    let rec = Recipe {
        title: "Water".to_string(),
        side_title: None,
        image_url: None,
        times: vec![],
        main_ingredients: vec![],
        main_instructions: vec![],
        side_ingredients: vec![],
        side_instructions: vec![],
    };
    let fragment = render_fragment(&rec);
    assert!(fragment.contains("\\begin{itemize}\n\\end{itemize}\n"));
    assert!(fragment.contains("\\begin{enumerate}\n\\end{enumerate}\n"));
}

#[test]
fn filename_is_final_path_segment() {
    assert_eq!(
        image_filename(&"http://host/a/b/pic.jpg".to_string()),
        Some("pic.jpg".to_string())
    );
}

#[test]
fn filename_of_trailing_slash_is_none() {
    assert_eq!(image_filename(&"http://host/a/b/".to_string()), None);
}

#[test]
fn filename_without_slashes_is_whole_url() {
    assert_eq!(image_filename(&"picture.png".to_string()), Some("picture.png".to_string()));
}

#[test]
fn filename_of_empty_url_is_none() {
    assert_eq!(image_filename(&String::new()), None);
}
