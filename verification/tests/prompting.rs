use infini::code2prompt::{
    Code2Prompt,
    wrap_code_block,
    label,
    should_include,
    extract_undefined_variables,
    split_csv,
};

#[test]
fn settings_start_from_the_path_alone() {
    let c = Code2Prompt::new("./src");
    assert_eq!(c.path, "./src");
    assert!(c.filter.is_none());
    assert!(!c.line_number);
    let d = Code2Prompt::default();
    assert_eq!(d.path, "");
}

#[test]
fn wrap_without_numbers_keeps_the_code() {
    let r = wrap_code_block("fn main() {}\n", "rs", false);
    assert_eq!(r, "```````rs\nfn main() {}\n\n```````");
}

#[test]
fn wrap_with_numbers_adds_the_gutter() {
    let r = wrap_code_block("alpha\nbeta", "txt", true);
    assert_eq!(r, "```````txt\n   1 | alpha\n   2 | beta\n\n```````");
}

#[test]
fn wrap_strips_carriage_returns_and_counts_wide() {
    let r = wrap_code_block("a\r\nb\n", "", true);
    assert_eq!(r, "```````\n   1 | a\n   2 | b\n\n```````");

    let many: String = "x\n".repeat(12);
    let r2 = wrap_code_block(&many, "", true);
    assert!(r2.contains("  10 | x\n"));
    assert!(r2.contains("  12 | x\n"));
}

#[test]
fn labels_follow_file_name_rules() {
    assert_eq!(label("src/main.rs"), "main.rs");
    assert_eq!(label("/usr/bin/"), "bin");
    assert_eq!(label("."), ".");
    assert_eq!(label("/"), "/");
    assert_eq!(label(""), "");
    assert_eq!(label("a/.."), "a/..");
    assert_eq!(label("a/./"), "a");
    assert_eq!(label(".hidden"), ".hidden");
}

#[test]
fn filters_admit_and_drop_files() {
    let none: Option<String> = None;
    assert!(should_include("rs", "main.rs", "src", &none, &none, &none, &none));

    let exclude = Some("tmp, log".to_string());
    assert!(!should_include("log", "x.log", "", &none, &exclude, &none, &none));
    assert!(should_include("rs", "x.rs", "", &none, &exclude, &none, &none));

    let filter = Some("rs,toml".to_string());
    assert!(should_include("toml", "t", "", &filter, &none, &none, &none));
    assert!(!should_include("md", "m", "", &filter, &none, &none, &none));

    let exclude_files = Some("lock.json, secret.txt".to_string());
    assert!(!should_include("txt", "secret.txt", "", &none, &none, &exclude_files, &none));

    let exclude_folders = Some("target, vendor".to_string());
    assert!(!should_include("rs", "f.rs", "target/debug", &none, &none, &none, &exclude_folders));
    assert!(!should_include("rs", "f.rs", "vendor", &none, &none, &none, &exclude_folders));
    assert!(should_include("rs", "f.rs", "targets", &none, &none, &none, &exclude_folders));
}

#[test]
fn csv_terms_are_trimmed() {
    let terms = split_csv(" a ,b,  c d ");
    let texts: Vec<String> = terms.into_iter().map(|v| v.into_iter().collect()).collect();
    assert_eq!(texts, vec!["a".to_string(), "b".to_string(), "c d".to_string()]);
}

#[test]
fn tree_merges_paths_and_renders_guides() {
    let comps = |parts: &[&str]| -> Vec<String> {
        parts.iter().map(|p| p.to_string()).collect()
    };
    let t = infini::tree::Tree::new("project");
    let t = t.insert_path(&comps(&["src", "main.rs"]), 0);
    let t = t.insert_path(&comps(&["src", "lib.rs"]), 0);
    let t = t.insert_path(&comps(&["README.md"]), 0);
    let rendered = infini::tree::render_tree(&t);
    assert_eq!(
        rendered,
        "project\n\u{251c}\u{2500}\u{2500} src\n\u{2502}   \u{251c}\u{2500}\u{2500} main.rs\n\u{2502}   \u{2514}\u{2500}\u{2500} lib.rs\n\u{2514}\u{2500}\u{2500} README.md\n"
    );
}

#[test]
fn tree_does_not_duplicate_components() {
    let path: Vec<String> = vec!["a".to_string(), "b".to_string()];
    let t = infini::tree::Tree::new(".");
    let t = t.insert_path(&path, 0);
    let t = t.insert_path(&path, 0);
    assert_eq!(t.leaves.len(), 1);
    assert_eq!(t.leaves[0].root, "a");
    assert_eq!(t.leaves[0].leaves.len(), 1);
    assert_eq!(t.leaves[0].leaves[0].root, "b");
}

#[test]
fn template_scan_finds_unregistered_variables() {
    let template = "Project Path: {{ absolute_code_path }}\n```\n{{ source_tree }}\n```\n{{#each files}}{{#if code}}`{{path}}`:\n{{code}}{{/if}}{{/each}}";
    let vars = extract_undefined_variables(template);
    assert_eq!(
        vars,
        vec!["absolute_code_path".to_string(), "source_tree".to_string()]
    );
    assert!(extract_undefined_variables("{{ git_diff }} {{path}}").is_empty());
    assert_eq!(
        extract_undefined_variables("{{x}} and {{x}}"),
        vec!["x".to_string(), "x".to_string()]
    );
}
