use compiler_bot::parser::ParserResult;
use compiler_bot::pipeline::{
    build_compilation_request, classify_result, plan_response, BuildError, ExecutionResult,
    RunOutcome,
};

fn result_with_status(status: &str) -> ExecutionResult {
    ExecutionResult {
        status: status.to_string(),
        compiler_output: String::new(),
        program_output: String::new(),
        url: String::new(),
    }
}

fn test_compiler(name: &str, language: &str) -> wandbox::Compiler {
    wandbox::Compiler {
        name: name.to_string(),
        version: "1.0".to_string(),
        language: language.to_string(),
        display_name: name.to_string(),
        templates: Vec::new(),
        compiler_option_raw: true,
        runtime_option_raw: true,
        display_compile_command: String::new(),
        switches: Vec::new(),
    }
}

fn test_catalog() -> wandbox::Catalog {
    wandbox::Catalog {
        compilers: vec![
            test_compiler("gcc-head", "C++"),
            test_compiler("clang-head", "C++"),
            test_compiler("python-dev", "Python"),
        ],
    }
}

fn parsed(target: &str, code: &str, stdin: &str, options: &[&str]) -> ParserResult {
    ParserResult {
        url: String::new(),
        stdin: stdin.to_string(),
        target: target.to_string(),
        code: code.to_string(),
        options: options.iter().map(|o| o.to_string()).collect(),
    }
}

#[test]
fn zero_status_classifies_as_success() {
    assert_eq!(classify_result(&result_with_status("0")), RunOutcome::Success);
}

#[test]
fn nonzero_status_classifies_as_failure() {
    assert_eq!(classify_result(&result_with_status("1")), RunOutcome::Failure);
    assert_eq!(classify_result(&result_with_status("137")), RunOutcome::Failure);
    assert_eq!(classify_result(&result_with_status("")), RunOutcome::Failure);
}

#[test]
fn build_resolves_compiler_name_case_insensitively() {
    let cat = test_catalog();
    let pr = parsed("GCC-Head", "int main(){}", "data", &["-O2", "-Wall"]);
    let b = build_compilation_request(&pr, &cat).expect("target should resolve");
    assert_eq!(b.request.compiler, "gcc-head");
    assert_eq!(b.language, "C++");
    assert_eq!(b.request.code, "int main(){}");
    assert_eq!(b.request.stdin, "data");
    assert_eq!(b.request.compiler_option_raw, "-O2\n-Wall");
    assert!(b.request.save);
    assert_eq!(b.request.options, "");
    assert_eq!(b.request.runtime_option_raw, "");
}

#[test]
fn build_falls_back_to_first_compiler_of_language() {
    let cat = test_catalog();
    let pr = parsed("python", "print(1)", "", &[]);
    let b = build_compilation_request(&pr, &cat).expect("language should resolve");
    assert_eq!(b.request.compiler, "python-dev");
    assert_eq!(b.language, "Python");
    assert_eq!(b.request.compiler_option_raw, "");
}

#[test]
fn build_rejects_unknown_target() {
    let cat = test_catalog();
    let pr = parsed("cobol-9000", "x", "", &[]);
    assert!(matches!(build_compilation_request(&pr, &cat), Err(BuildError::UnknownTarget)));
}

#[test]
fn options_survive_request_building_in_order() {
    let cat = test_catalog();
    let opts = ["-O2", "-Wall", "-O2", "-std=c++20"];
    let pr = parsed("c++", "x", "", &opts);
    let b = build_compilation_request(&pr, &cat).expect("language should resolve");
    let round: Vec<&str> = b.request.compiler_option_raw.split('\n').collect();
    assert_eq!(round, opts.to_vec());
}

#[test]
fn languages_are_listed_once_in_first_appearance_order() {
    let cat = wandbox::Catalog {
        compilers: vec![
            test_compiler("gcc-head", "C++"),
            test_compiler("clang-head", "c++"),
            test_compiler("python-dev", "Python"),
            test_compiler("gcc-12", "C++"),
        ],
    };
    let langs = compiler_bot::pipeline::supported_languages(&cat);
    assert_eq!(langs, vec!["C++".to_string(), "Python".to_string()]);
}

#[test]
fn ok_outcome_is_shown_reacted_and_counted() {
    let outcome = Ok(result_with_status("1"));
    let plan = plan_response(&outcome, &"C++".to_string(), true);
    assert!(plan.retract_processing);
    assert!(plan.show_result);
    assert!(!plan.success_reaction);
    let ev = plan.record_stats.expect("stats are enabled");
    assert_eq!(ev.language, "C++");
    assert!(ev.failed);
}

#[test]
fn successful_outcome_gets_success_reaction() {
    let outcome = Ok(result_with_status("0"));
    let plan = plan_response(&outcome, &"C++".to_string(), true);
    assert!(plan.success_reaction);
    let ev = plan.record_stats.expect("stats are enabled");
    assert!(!ev.failed);
}

#[test]
fn disabled_stats_record_nothing() {
    let outcome = Ok(result_with_status("0"));
    let plan = plan_response(&outcome, &"C++".to_string(), false);
    assert!(plan.record_stats.is_none());
    assert!(plan.show_result);
}

#[test]
fn transport_error_retracts_and_counts_nothing() {
    let outcome = Err("connection reset".to_string());
    let plan = plan_response(&outcome, &"C++".to_string(), true);
    assert!(plan.retract_processing);
    assert!(!plan.show_result);
    assert!(plan.record_stats.is_none());
}
