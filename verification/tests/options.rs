use nanoda::config::{default_true, Config, ConfigError, ExportSource, PpTarget};

fn plain() -> Config {
    Config {
        export_file_path: Some("a.export".to_string()),
        use_stdin: false,
        permitted_axioms: None,
        unpermitted_axiom_hard_error: false,
        num_threads: 1,
        nat_extension: true,
        string_extension: true,
        pp_declars: None,
        unknown_pp_declar_hard_error: true,
        pp_output_path: None,
        pp_to_stdout: false,
        print_success_message: false,
        print_axioms: true,
        unsafe_permit_all_axioms: false,
    }
}

fn fault(c: Config) -> ConfigError {
    match c.validate() {
        Ok(_) => panic!("accepted"),
        Err(e) => e,
    }
}

#[test]
fn on_by_default() {
    assert!(default_true());
}

#[test]
fn one_input_is_accepted() {
    assert!(plain().validate().is_ok());
    let mut c = plain();
    c.export_file_path = None;
    c.use_stdin = true;
    assert!(c.validate().is_ok());
}

#[test]
fn no_input_is_refused() {
    let mut c = plain();
    c.export_file_path = None;
    let e = fault(c);
    assert_eq!(e, ConfigError::NoInput);
    assert_eq!(
        e.message(),
        "incompatible config options: must specify a path to an export file OR set `use_stdin: true`"
    );
}

#[test]
fn two_inputs_are_refused() {
    let mut c = plain();
    c.use_stdin = true;
    let e = fault(c);
    assert_eq!(e, ConfigError::TwoInputs);
    assert_eq!(
        e.message(),
        "incompatible config options: if an export file path is given, `use_stdin` cannot be `true`"
    );
}

#[test]
fn permitting_everything_excludes_errors_and_lists() {
    let mut c = plain();
    c.unsafe_permit_all_axioms = true;
    assert!(c.validate().is_ok());
    let mut c = plain();
    c.unsafe_permit_all_axioms = true;
    c.unpermitted_axiom_hard_error = true;
    let e = fault(c);
    assert_eq!(e, ConfigError::PermitAllAndHardError);
    assert_eq!(
        e.message(),
        "incompatible config options: unsafe_permit_all_axioms && unpermitted_axioms_hard_error"
    );
    let mut c = plain();
    c.unsafe_permit_all_axioms = true;
    c.permitted_axioms = Some(vec!["propext".to_string()]);
    let e = fault(c);
    assert_eq!(e, ConfigError::PermitAllAndList);
    assert_eq!(
        e.message(),
        "incompatible config options: unsafe_permit_all_axioms && nonempty permitted_axioms list"
    );
}

#[test]
fn a_path_comes_before_standard_output() {
    let mut c = plain();
    assert!(c.pp_target().is_none());
    c.pp_to_stdout = true;
    assert!(matches!(c.pp_target(), Some(PpTarget::Stdout)));
    c.pp_output_path = Some("out.txt".to_string());
    match c.pp_target() {
        Some(PpTarget::File(p)) => assert_eq!(p, "out.txt"),
        _ => panic!("no file"),
    }
}

#[test]
fn a_path_comes_before_standard_input() {
    let mut c = plain();
    match c.export_source() {
        Some(ExportSource::File(p)) => assert_eq!(p, "a.export"),
        _ => panic!("no file"),
    }
    c.export_file_path = None;
    assert!(c.export_source().is_none());
    c.use_stdin = true;
    assert!(matches!(c.export_source(), Some(ExportSource::Stdin)));
}
