use falsh::errors::ShellError;
use falsh::lines::classify_input;
use falsh::lines::prompt_for;
use falsh::lines::rc_line_action;
use falsh::lines::split_pipeline;
use falsh::lines::LineAction;
use falsh::pipeline::plan_stage;
use falsh::pipeline::BuiltinCall;
use falsh::pipeline::StagePlan;

#[test]
fn two_stage_pipeline_plans_echo_then_wc() {
    let stages = split_pipeline("echo hello | wc -w");
    assert_eq!(stages, vec!["echo hello", "wc -w"]);

    let first = plan_stage(&stages[0]).unwrap().unwrap();
    match first {
        StagePlan::Exec(es) => {
            assert_eq!(es.program, "echo");
            assert_eq!(es.args, vec!["hello"]);
            assert_eq!(es.stdin_file, None);
            assert_eq!(es.stdout_file, None);
        }
        other => panic!("expected an external stage, got {:?}", other),
    }

    let second = plan_stage(&stages[1]).unwrap().unwrap();
    match second {
        StagePlan::Exec(es) => {
            assert_eq!(es.program, "wc");
            assert_eq!(es.args, vec!["-w"]);
        }
        other => panic!("expected an external stage, got {:?}", other),
    }
}

#[test]
fn output_redirection_is_taken_out() {
    let plan = plan_stage("cmd > out.txt").unwrap().unwrap();
    match plan {
        StagePlan::Exec(es) => {
            assert_eq!(es.program, "cmd");
            assert_eq!(es.args, Vec::<String>::new());
            assert_eq!(es.stdout_file, Some("out.txt".to_string()));
            assert_eq!(es.stdin_file, None);
        }
        other => panic!("expected an external stage, got {:?}", other),
    }
}

#[test]
fn input_redirection_is_taken_out() {
    let plan = plan_stage("cmd2 < out.txt").unwrap().unwrap();
    match plan {
        StagePlan::Exec(es) => {
            assert_eq!(es.program, "cmd2");
            assert_eq!(es.args, Vec::<String>::new());
            assert_eq!(es.stdin_file, Some("out.txt".to_string()));
            assert_eq!(es.stdout_file, None);
        }
        other => panic!("expected an external stage, got {:?}", other),
    }
}

#[test]
fn both_redirections_with_arguments() {
    let plan = plan_stage("sort -r < in.txt > out.txt").unwrap().unwrap();
    match plan {
        StagePlan::Exec(es) => {
            assert_eq!(es.program, "sort");
            assert_eq!(es.args, vec!["-r"]);
            assert_eq!(es.stdin_file, Some("in.txt".to_string()));
            assert_eq!(es.stdout_file, Some("out.txt".to_string()));
        }
        other => panic!("expected an external stage, got {:?}", other),
    }
}

#[test]
fn missing_output_filename_is_a_parse_error() {
    let r = plan_stage("echo hi >");
    assert!(matches!(r, Err(ShellError::Parse)));
}

#[test]
fn missing_input_filename_is_a_parse_error() {
    let r = plan_stage("cat <");
    assert!(matches!(r, Err(ShellError::Parse)));
}

#[test]
fn empty_stage_is_skipped() {
    assert!(matches!(plan_stage(""), Ok(None)));
    assert!(matches!(plan_stage("   "), Ok(None)));
    let stages = split_pipeline("a | | b");
    assert_eq!(stages, vec!["a", "", "b"]);
    assert!(matches!(plan_stage(&stages[1]), Ok(None)));
}

#[test]
fn cd_is_a_builtin_with_its_argument() {
    let plan = plan_stage("cd nonexistent_dir").unwrap().unwrap();
    assert_eq!(
        plan,
        StagePlan::Builtin(BuiltinCall::Cd("nonexistent_dir".to_string()))
    );
}

#[test]
fn cd_without_argument_is_a_usage_error() {
    let r = plan_stage("cd");
    match r {
        Err(ShellError::Usage { builtin }) => assert_eq!(builtin, "cd"),
        other => panic!("expected a usage error, got {:?}", other),
    }
}

#[test]
fn pwd_and_path_tool_are_builtins() {
    assert_eq!(
        plan_stage("pwd").unwrap().unwrap(),
        StagePlan::Builtin(BuiltinCall::Pwd)
    );
    assert_eq!(
        plan_stage("pathTool").unwrap().unwrap(),
        StagePlan::Builtin(BuiltinCall::PathTool)
    );
}

#[test]
fn add_to_path_builtin_sees_temp_flag() {
    let plan = plan_stage("addToPath /opt/bin --temp").unwrap().unwrap();
    assert_eq!(
        plan,
        StagePlan::Builtin(BuiltinCall::AddToPath {
            path: "/opt/bin".to_string(),
            temporary: true,
        })
    );
    let plan = plan_stage("addToPath /opt/bin").unwrap().unwrap();
    assert_eq!(
        plan,
        StagePlan::Builtin(BuiltinCall::AddToPath {
            path: "/opt/bin".to_string(),
            temporary: false,
        })
    );
    let r = plan_stage("addToPath");
    match r {
        Err(ShellError::Usage { builtin }) => assert_eq!(builtin, "addToPath"),
        other => panic!("expected a usage error, got {:?}", other),
    }
}

#[test]
fn export_builtin_carries_its_arguments() {
    let plan = plan_stage("export A=1 B=2").unwrap().unwrap();
    assert_eq!(
        plan,
        StagePlan::Builtin(BuiltinCall::Export(vec![
            "A=1".to_string(),
            "B=2".to_string()
        ]))
    );
}

#[test]
fn interactive_line_classification() {
    assert!(matches!(classify_input("   "), LineAction::Empty));
    assert!(matches!(classify_input(""), LineAction::Empty));
    assert!(matches!(classify_input("  exit  "), LineAction::Exit));
    match classify_input("  ls -l ") {
        LineAction::Run(cmd) => assert_eq!(cmd, "ls -l"),
        other => panic!("expected a command, got {:?}", other),
    }
}

#[test]
fn prompt_is_cwd_and_marker() {
    assert_eq!(prompt_for("/home/u"), "/home/u> ");
}

#[test]
fn startup_script_lines_are_selected() {
    assert_eq!(rc_line_action(""), None);
    assert_eq!(rc_line_action("   "), None);
    assert_eq!(rc_line_action("# a comment"), None);
    assert_eq!(rc_line_action("   # indented comment"), None);
    assert_eq!(rc_line_action("  echo hi "), Some("echo hi".to_string()));
}
