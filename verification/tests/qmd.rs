use sempkg::qmd::{
    after_question, after_registration, collection_args, format_results, isolated_home,
    isolation_variables, project_db_path, qmd_db_path, search_plan, update_args, NextQuestion,
    SearchResult,
};

#[test]
fn a_collection_is_searched_first() {
    let plan = search_plan("q", Some("c"));
    assert_eq!(plan.len(), 4);
    assert_eq!(plan[0].collection.as_deref(), Some("c"));
    assert_eq!(plan[1].collection, None);
    assert_eq!(plan[2].wanted, "%q%");
    let plan = search_plan("q", None);
    assert_eq!(plan.len(), 2);
    assert!(plan[0].statement.contains("MATCH ?1"));
    assert!(matches!(after_question(4, 1, false), NextQuestion::Ask(1)));
    assert!(matches!(after_question(4, 1, true), NextQuestion::Answered));
    assert!(matches!(after_question(4, 4, false), NextQuestion::Failed));
}

#[test]
fn the_tool_is_kept_to_its_own_home() {
    assert!(isolated_home("/p").starts_with("/p/.sempkg/"));
    assert!(isolation_variables().contains(&"XDG_CONFIG_HOME".to_string()));
    assert_eq!(project_db_path("/p"), "/p/.sempkg/qmd/index/index.sqlite");
    assert!(qmd_db_path("/b").starts_with("/b/"));
    assert_eq!(update_args("/db"), vec!["--index", "/db", "update"]);
    assert_eq!(
        collection_args("/db", "/p", "c", "*.md"),
        vec!["--index", "/db", "collection", "add", "/p", "--name", "c", "--pattern", "*.md"]
    );
    assert!(after_registration(&Err("Collection ALREADY exists".to_string())).is_ok());
    assert_eq!(
        after_registration(&Err("disk full".to_string())),
        Err("disk full".to_string())
    );
    assert!(after_registration(&Ok(String::new())).is_ok());
}

#[test]
fn answers_of_the_tool_are_shown() {
    let r = |p: &str, s: &str| SearchResult { path: p.to_string(), snippet: s.to_string() };
    assert_eq!(format_results(&vec![], "q"), "No results for 'q'.");
    assert_eq!(
        format_results(&vec![r("a", "x"), r("b", "y")], "q"),
        "**a**\n\nx\n\n---\n\n**b**\n\ny"
    );
}
