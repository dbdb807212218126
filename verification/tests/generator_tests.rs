use canon::generator::{
    join_repo_path, markdown_link_bounds, normalize_spec_title, path_file_name,
    render_generator_question, spec_h1_title, strip_markdown_inline_markup,
    validate_generator_spec_title, validate_generator_template, wildcard_match,
};

#[test]
fn question_replaces_every_placeholder() {
    assert_eq!(render_generator_question("Spec:\n{content}\nEnd", "BODY"), "Spec:\nBODY\nEnd");
    assert_eq!(render_generator_question("{content}/{content}", "x"), "x/x");
    assert_eq!(render_generator_question("no placeholder", "x"), "no placeholder");
    assert_eq!(render_generator_question("{conten}", "x"), "{conten}");
}

#[test]
fn template_needs_exactly_one_placeholder() {
    assert_eq!(validate_generator_template("Q {content}", 3), Ok(()));
    assert_eq!(
        validate_generator_template("Q", 3),
        Err("expectation 3 q_template must contain exactly one {content} placeholder".to_string())
    );
    assert_eq!(
        validate_generator_template("{content}{content}", 12),
        Err("expectation 12 q_template must contain exactly one {content} placeholder".to_string())
    );
}

#[test]
fn h1_title_is_first_heading_line() {
    assert_eq!(spec_h1_title("intro\n  # Title Here \nmore"), Some("Title Here".to_string()));
    assert_eq!(spec_h1_title("## Sub\n# Main\r\n"), Some("Main".to_string()));
    assert_eq!(spec_h1_title("#   \n#NoSpace\ntext"), None);
    assert_eq!(spec_h1_title(""), None);
}

#[test]
fn markup_is_stripped_and_links_keep_labels() {
    assert_eq!(strip_markdown_inline_markup("The `Fast` [Path](x.md) _API_*"), "The Fast Path API");
    assert_eq!(strip_markdown_inline_markup("[broken link"), "[broken link");
    assert_eq!(strip_markdown_inline_markup("[a] (b)"), "[a] (b)");
}

#[test]
fn link_bounds_find_label_and_target_ends() {
    let chars: Vec<char> = "x [ab](cd) y".chars().collect();
    assert_eq!(markdown_link_bounds(&chars, 2), Some((5, 9)));
    let no_paren: Vec<char> = "[ab] cd".chars().collect();
    assert_eq!(markdown_link_bounds(&no_paren, 0), None);
}

#[test]
fn titles_normalise_to_kebab_slugs() {
    assert_eq!(normalize_spec_title("The `Fast` [Path](x.md) API!"), Some("the-fast-path-api".to_string()));
    assert_eq!(normalize_spec_title("  --Hello, World--  "), Some("hello-world".to_string()));
    assert_eq!(normalize_spec_title("Ünïcode Ok"), Some("ünïcode-ok".to_string()));
    assert_eq!(normalize_spec_title("!!!"), None);
}

#[test]
fn spec_file_name_must_match_title() {
    assert_eq!(validate_generator_spec_title("specs/fast-path.md", "# Fast Path\n", 2), Ok(()));
    assert_eq!(
        validate_generator_spec_title("specs/other.md", "# Fast Path\n", 2),
        Err("expectation 2 generated spec specs/other.md H1 title normalizes to fast-path.md, but filename is other.md".to_string())
    );
    assert_eq!(
        validate_generator_spec_title("specs/a.md", "no title", 4),
        Err("expectation 4 generated spec specs/a.md must contain an H1 title".to_string())
    );
    assert_eq!(
        validate_generator_spec_title("specs/a.md", "# ???", 4),
        Err("expectation 4 generated spec specs/a.md H1 title must normalize to a filename".to_string())
    );
    assert_eq!(
        validate_generator_spec_title("specs/..", "# A", 5),
        Err("expectation 5 generated spec path is invalid: specs/..".to_string())
    );
}

#[test]
fn file_name_is_last_component() {
    assert_eq!(path_file_name("a/b.md"), Some("b.md".to_string()));
    assert_eq!(path_file_name("a/b/"), Some("b".to_string()));
    assert_eq!(path_file_name("a/."), Some("a".to_string()));
    assert_eq!(path_file_name("a/.."), None);
    assert_eq!(path_file_name("/"), None);
    assert_eq!(path_file_name(""), None);
}

#[test]
fn repo_paths_join_under_config_dir() {
    assert_eq!(join_repo_path("", "specs/*.md"), "specs/*.md");
    assert_eq!(join_repo_path("cfg//", "x"), "cfg/x");
    assert_eq!(join_repo_path("cfg", "x"), "cfg/x");
}

#[test]
fn wildcards_match_prefix_middle_and_suffix() {
    assert!(wildcard_match("*.md", "a.md"));
    assert!(!wildcard_match("*.md", "a.txt"));
    assert!(wildcard_match("a*b*c", "aXbYc"));
    assert!(wildcard_match("a*b", "ab"));
    assert!(!wildcard_match("a*b", "a"));
    assert!(wildcard_match("abc", "abc"));
    assert!(!wildcard_match("abc", "abcd"));
    assert!(wildcard_match("*", ""));
    assert!(!wildcard_match("ab*ba", "aba"));
}
