use cliply::App;
use cliply::CliplyError;

fn sample_app() -> App {
    let mut app = App::new("Test App", "1.0.0", "Alexander Abraham");
    app.add_arg("greet", " generic greeting for the user", "false");
    app.add_arg("cgreet", "custom greeting for the user", "true");
    app
}

fn argv(items: &[&str]) -> Vec<String> {
    items.iter().map(|s| s.to_string()).collect()
}

#[test]
fn long_form_with_value_is_found() {
    let app = sample_app();
    let args = argv(&["prog", "--cgreet", "World"]);
    assert!(app.arg_was_used("cgreet", &args));
    assert_eq!(app.get_arg_data("cgreet", &args), Ok("World".to_string()));
    assert!(!app.arg_was_used("greet", &args));
}

#[test]
fn version_flag_renders_version_text() {
    let app = sample_app();
    let args = argv(&["prog", "-v"]);
    assert!(app.version_is(&args));
    assert!(!app.help_is(&args));
    assert_eq!(app.version_info(), "Test App v.1.0.0\nby Alexander Abraham.");
}

#[test]
fn long_form_without_value_fails() {
    let app = sample_app();
    let args = argv(&["prog", "--cgreet"]);
    let err = app.get_arg_data("cgreet", &args).unwrap_err();
    assert_eq!(err.to_string(), "No data supplied to \"--cgreet\".");
}

#[test]
fn no_arguments_requests_nothing() {
    let app = sample_app();
    let args = argv(&["prog"]);
    assert!(!app.version_is(&args));
    assert!(!app.help_is(&args));
    assert!(!app.arg_was_used("greet", &args));
    assert!(!app.arg_was_used("cgreet", &args));
}

#[test]
fn long_form_value_after_other_tokens() {
    let app = sample_app();
    let args = argv(&["prog", "x", "--cgreet", "Hi", "--cgreet", "Other"]);
    assert_eq!(app.get_arg_data("cgreet", &args), Ok("Hi".to_string()));
}

#[test]
fn short_form_last_fails() {
    let app = sample_app();
    let args = argv(&["prog", "-c"]);
    let err = app.get_arg_data("cgreet", &args).unwrap_err();
    assert_eq!(err.details, "No data supplied to \"-c\".");
}

#[test]
fn bare_form_last_fails() {
    let app = sample_app();
    let args = argv(&["prog", "other", "cgreet"]);
    let err = app.get_arg_data("cgreet", &args).unwrap_err();
    assert_eq!(err.details, "No data supplied to \"cgreet\".");
}

#[test]
fn short_form_wins_over_long_form() {
    let app = sample_app();
    let args = argv(&["prog", "--cgreet", "A", "-c", "B"]);
    assert_eq!(app.get_arg_data("cgreet", &args), Ok("B".to_string()));
}

#[test]
fn short_and_bare_values_are_found() {
    let app = sample_app();
    assert_eq!(
        app.get_arg_data("cgreet", &argv(&["prog", "-c", "Bob"])),
        Ok("Bob".to_string())
    );
    assert_eq!(
        app.get_arg_data("cgreet", &argv(&["prog", "cgreet", "Ann"])),
        Ok("Ann".to_string())
    );
}

#[test]
fn absent_valued_flag_gives_empty_data() {
    let app = sample_app();
    let args = argv(&["prog", "--greet"]);
    assert_eq!(app.get_arg_data("cgreet", &args), Ok(String::new()));
}

#[test]
fn unknown_flag_fails() {
    let app = sample_app();
    let args = argv(&["prog", "--nope", "x"]);
    let err = app.get_arg_data("nope", &args).unwrap_err();
    assert_eq!(err.details, "Unknown flag \"nope\".");
}

#[test]
fn presence_flag_has_no_data() {
    let app = sample_app();
    let args = argv(&["prog", "--greet", "x"]);
    let err = app.get_arg_data("greet", &args).unwrap_err();
    assert_eq!(err.details, "Flag \"greet\" takes no data.");
}

#[test]
fn all_three_forms_count_as_used() {
    let app = sample_app();
    assert!(app.arg_was_used("greet", &argv(&["prog", "-g"])));
    assert!(app.arg_was_used("greet", &argv(&["prog", "--greet"])));
    assert!(app.arg_was_used("greet", &argv(&["prog", "greet"])));
    assert!(!app.arg_was_used("greet", &argv(&["prog", "-x", "---greet", "greeting", "g"])));
}

#[test]
fn program_name_is_not_a_flag() {
    let app = sample_app();
    assert!(!app.arg_was_used("greet", &argv(&["greet"])));
    assert!(!app.arg_was_used("greet", &argv(&["-g", "other"])));
}

#[test]
fn help_and_version_need_exactly_one_argument() {
    let app = sample_app();
    for tok in ["-h", "--help", "help"] {
        assert!(app.help_is(&argv(&["prog", tok])));
        assert!(!app.version_is(&argv(&["prog", tok])));
    }
    for tok in ["-v", "--version", "version"] {
        assert!(app.version_is(&argv(&["prog", tok])));
        assert!(!app.help_is(&argv(&["prog", tok])));
    }
    assert!(!app.version_is(&argv(&["prog", "-v", "x"])));
    assert!(!app.help_is(&argv(&["prog", "-h", "-h"])));
    assert!(!app.help_is(&argv(&["prog", "-x"])));
}

#[test]
fn repeated_queries_agree() {
    let app = sample_app();
    let args = argv(&["prog", "-c", "Hey", "greet"]);
    assert_eq!(app.get_arg_data("cgreet", &args), app.get_arg_data("cgreet", &args));
    assert_eq!(app.arg_was_used("greet", &args), app.arg_was_used("greet", &args));
    assert_eq!(app.version_is(&args), app.version_is(&args));
    assert_eq!(app.help_is(&args), app.help_is(&args));
}

#[test]
fn help_text_lists_flags_in_declaration_order() {
    let app = sample_app();
    let expected = "-g --greet greet         generic greeting for the user\n\
                    -c --cgreet cgreet DATA  custom greeting for the user\n\
                    -h --help help           displays this message\n\
                    -v --version version     displays app info";
    assert_eq!(app.help_info(), expected);
}

#[test]
fn help_text_without_flags() {
    let app = App::new("a", "b", "c");
    assert_eq!(
        app.help_info(),
        "-h --help help           displays this message\n-v --version version     displays app info"
    );
}

#[test]
fn redeclaring_a_flag_replaces_it() {
    let mut app = sample_app();
    app.add_arg("greet", "say hi", "true");
    assert_eq!(app.args.len(), 2);
    let args = argv(&["prog", "greet", "you"]);
    assert_eq!(app.get_arg_data("greet", &args), Ok("you".to_string()));
    assert!(app.help_info().starts_with("-g --greet greet DATA  say hi\n"));
}

#[test]
fn new_app_keeps_identity() {
    let app = App::new("n", "v", "a");
    assert_eq!(app.name, "n");
    assert_eq!(app.version, "v");
    assert_eq!(app.author, "a");
    assert!(app.args.is_empty());
    assert_eq!(app.version_info(), "n v.v\nby a.");
}

#[test]
fn error_keeps_its_message() {
    let e = CliplyError::new("boom");
    assert_eq!(e.details, "boom");
    assert_eq!(e.clone(), CliplyError::new("boom"));
    assert_ne!(e.clone(), CliplyError::new("other"));
    assert_eq!(e.to_string(), "boom");
}
