use shipc::err::{CmdErr, ErrorKind};
use shipc::launch::{
    classify_tool_outcome, plan_launch, process_exit_code, runc_args, simulated_exit_status,
    tar_args, umoci_args, LaunchAction, FAILURE_EXIT_CODE,
};

#[test]
fn test_mode_simulates_and_reports_success() {
    assert_eq!(plan_launch(true), LaunchAction::Simulate);
    assert_eq!(simulated_exit_status(), Some(0));
}

#[test]
fn normal_mode_invokes_the_runtime() {
    assert_eq!(plan_launch(false), LaunchAction::Invoke);
}

#[test]
fn exit_code_relays_the_container_status() {
    assert_eq!(process_exit_code(&Ok(Some(7))), 7);
    assert_eq!(process_exit_code(&Ok(Some(0))), 0);
}

#[test]
fn exit_code_is_failure_for_signals_and_errors() {
    assert_eq!(process_exit_code(&Ok(None)), FAILURE_EXIT_CODE);
    assert_eq!(
        process_exit_code(&Err(CmdErr {
            kind: ErrorKind::User,
            message: String::from("x"),
            secondary: None,
        })),
        FAILURE_EXIT_CODE
    );
    assert!(FAILURE_EXIT_CODE != 0);
}

#[test]
fn tool_that_cannot_launch_is_internal() {
    let e = classify_tool_outcome(false, false, String::from("no such file"), "Cannot execute tar", "Failed to un-tar image")
        .err()
        .unwrap();
    assert_eq!(e.kind, ErrorKind::Internal);
    assert_eq!(e.message, "Cannot execute tar");
    assert_eq!(e.secondary, Some(String::from("no such file")));
}

#[test]
fn tool_that_exits_nonzero_is_user_error_with_stderr() {
    let e = classify_tool_outcome(true, false, String::from("bad archive"), "Cannot execute tar", "Failed to un-tar image")
        .err()
        .unwrap();
    assert_eq!(e.kind, ErrorKind::User);
    assert_eq!(e.message, "Failed to un-tar image");
    assert_eq!(e.secondary, Some(String::from("bad archive")));
}

#[test]
fn tool_that_succeeds_is_ok() {
    assert!(classify_tool_outcome(true, true, String::new(), "a", "b").is_ok());
}

#[test]
fn tar_arguments_strip_one_component() {
    let args = tar_args(&b"/tmp/ws/image".to_vec(), &b"/images/app.tar.gz".to_vec());
    let expected: Vec<Vec<u8>> = vec![
        b"--strip-components".to_vec(),
        b"1".to_vec(),
        b"-C".to_vec(),
        b"/tmp/ws/image".to_vec(),
        b"-xf".to_vec(),
        b"/images/app.tar.gz".to_vec(),
    ];
    assert_eq!(args, expected);
}

#[test]
fn umoci_arguments_unpack_into_bundle() {
    let args = umoci_args(&b"/img".to_vec(), false);
    let expected: Vec<Vec<u8>> = vec![
        b"unpack".to_vec(),
        b"--image".to_vec(),
        b"/img".to_vec(),
        b"bundle".to_vec(),
    ];
    assert_eq!(args, expected);
    let rootless = umoci_args(&b"/img".to_vec(), true);
    let expected_rootless: Vec<Vec<u8>> = vec![
        b"unpack".to_vec(),
        b"--image".to_vec(),
        b"/img".to_vec(),
        b"--rootless".to_vec(),
        b"bundle".to_vec(),
    ];
    assert_eq!(rootless, expected_rootless);
}

#[test]
fn runc_arguments_run_the_named_instance() {
    let args = runc_args(false, &b"/unused".to_vec(), &b"abc234def5677".to_vec());
    let expected: Vec<Vec<u8>> = vec![b"run".to_vec(), b"abc234def5677".to_vec()];
    assert_eq!(args, expected);
    let rootless = runc_args(true, &b"/ws/root".to_vec(), &b"abc234def5677".to_vec());
    let expected_rootless: Vec<Vec<u8>> = vec![
        b"--root".to_vec(),
        b"/ws/root".to_vec(),
        b"run".to_vec(),
        b"abc234def5677".to_vec(),
    ];
    assert_eq!(rootless, expected_rootless);
}

#[test]
fn check_turns_conditions_into_results() {
    assert!(shipc::err::check(true, "whatever").is_ok());
    let e = shipc::err::check(false, "Volume should be origin:destination").err().unwrap();
    assert_eq!(e.kind, ErrorKind::User);
    assert_eq!(e.message, "Volume should be origin:destination");
}
