use nuxt_auto_import_replacer::cli::Cli;

fn mk_args(v: &[&str]) -> Vec<String> {
    v.iter().map(|s| s.to_string()).collect()
}

#[test]
fn test_cli_default_values() {
    let args = Cli::parse_from(mk_args(&["nuxt-auto-import-replacer"]));

    assert_eq!(args.target, "src");
    assert!(!args.dry_run);
    assert!(!args.verbose);
}

#[test]
fn test_cli_with_arguments() {
    let args = Cli::parse_from(mk_args(&[
        "nuxt-auto-import-replacer",
        "--target",
        "my_project",
        "--dry-run",
        "--verbose",
    ]));

    assert_eq!(args.target, "my_project");
    assert!(args.dry_run);
    assert!(args.verbose);
}

#[test]
fn test_cli_with_short_options() {
    let args = Cli::parse_from(mk_args(&["nuxt-auto-import-replacer", "-t", "my_project", "-d", "-v"]));

    assert_eq!(args.target, "my_project");
    assert!(args.dry_run);
    assert!(args.verbose);
}

#[test]
fn test_cli_empty_argument_list() {
    let args = Cli::parse_from(Vec::new());

    assert_eq!(args.target, "src");
    assert!(!args.dry_run);
    assert!(!args.verbose);
}

#[test]
fn test_cli_unknown_arguments_ignored() {
    let args = Cli::parse_from(mk_args(&["nuxt-auto-import-replacer", "--frobnicate", "-d"]));

    assert_eq!(args.target, "src");
    assert!(args.dry_run);
    assert!(!args.verbose);
}

#[test]
fn test_cli_trailing_target_without_value() {
    let args = Cli::parse_from(mk_args(&["nuxt-auto-import-replacer", "-v", "--target"]));

    assert_eq!(args.target, "src");
    assert!(!args.dry_run);
    assert!(args.verbose);
}

#[test]
fn test_cli_later_target_wins() {
    let args = Cli::parse_from(mk_args(&["nuxt-auto-import-replacer", "-t", "one", "-t", "two"]));

    assert_eq!(args.target, "two");
}
