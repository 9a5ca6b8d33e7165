use rustspeak::cli::{
    split_spaces, BuilderMutable, CLICore, CmdParamNumConstraints, CmdParamStrConstraints, CommandBuilder,
    CommandImpl, CommandParam, CommandParamTy, InputError, UsageBuilder, UsageSubBuilder,
};
use std::cell::RefCell;

struct Recorder {
    tag: &'static str,
    fail: bool,
}

impl CommandImpl<RefCell<Vec<String>>> for Recorder {
    fn execute(&self, ctx: &RefCell<Vec<String>>, input: &[&str]) -> Result<(), String> {
        ctx.borrow_mut().push(format!("{}:{}", self.tag, input.join(",")));
        if self.fail {
            Err(String::from("boom"))
        } else {
            Ok(())
        }
    }
}

fn param(name: &str) -> CommandParam<f64> {
    CommandParam { name: name.to_string(), ty: CommandParamTy::String(CmdParamStrConstraints::Any) }
}

fn sample_cli() -> CLICore<RefCell<Vec<String>>, f64> {
    let user = CommandBuilder::new()
        .name("User")
        .desc("Shows A User")
        .params(UsageBuilder::<BuilderMutable, f64>::new().required(param("name")).optional(param("action")))
        .add_aliases(&["U", "usr"])
        .cmd_impl(Box::new(Recorder { tag: "user", fail: false }))
        .build();
    let stop = CommandBuilder::new()
        .name("stop")
        .cmd_impl(Box::new(Recorder { tag: "stop", fail: true }))
        .build();
    let stop_again = CommandBuilder::new()
        .name("STOP")
        .cmd_impl(Box::new(Recorder { tag: "stop2", fail: false }))
        .build();
    assert_eq!(user.name(), "user");
    assert_eq!(user.desc().as_deref(), Some("shows a user"));
    CLICore::new(vec![user, stop, stop_again])
}

#[test]
fn lines_split_at_every_space() {
    assert_eq!(split_spaces("a b"), vec!["a", "b"]);
    assert_eq!(split_spaces("a  b "), vec!["a", "", "b", ""]);
    assert_eq!(split_spaces(""), vec![""]);
}

#[test]
fn unknown_commands_are_reported() {
    let ctx = RefCell::new(vec![]);
    match sample_cli().process(&ctx, "Help me") {
        Err(InputError::CommandNotFound { name }) => assert_eq!(name, "help"),
        _ => panic!("expected an unknown command"),
    }
    assert!(ctx.borrow().is_empty());
}

#[test]
fn missing_arguments_are_reported() {
    let ctx = RefCell::new(vec![]);
    match sample_cli().process(&ctx, "user") {
        Err(InputError::ArgumentCnt { name, expected, got }) => {
            assert_eq!(name, "user");
            assert_eq!(expected, 1);
            assert_eq!(got, 0);
        },
        _ => panic!("expected too few arguments"),
    }
}

#[test]
fn commands_run_with_the_words_after_their_name() {
    let ctx = RefCell::new(vec![]);
    assert!(sample_cli().process(&ctx, "USER bob delete").is_ok());
    assert_eq!(ctx.borrow().clone(), vec![String::from("user:bob,delete")]);
}

#[test]
fn the_command_added_last_under_a_name_runs() {
    let ctx = RefCell::new(vec![]);
    assert!(sample_cli().process(&ctx, "stop").is_ok());
    assert_eq!(ctx.borrow().clone(), vec![String::from("stop2:")]);
}

#[test]
fn failing_commands_report_their_error() {
    let ctx = RefCell::new(vec![]);
    let failing = CommandBuilder::new().name("kill").cmd_impl(Box::new(Recorder { tag: "kill", fail: true })).build();
    let cli: CLICore<RefCell<Vec<String>>, f64> = CLICore::new(vec![failing]);
    match cli.process(&ctx, "kill now") {
        Err(InputError::ExecError { name, error }) => {
            assert_eq!(name, "kill");
            assert_eq!(error, "boom");
        },
        _ => panic!("expected a failed command"),
    }
}

#[test]
fn resolve_names_the_command_and_arguments() {
    let c = sample_cli();
    match c.resolve("user a b") {
        Ok((i, args)) => {
            assert_eq!(i, 0);
            assert_eq!(args, vec!["a", "b"]);
        },
        Err(_) => panic!("expected a command"),
    }
}

#[test]
fn usage_shapes() {
    let u = UsageBuilder::<BuilderMutable, f64>::new()
        .required(param("a"))
        .optional_prefixed_prefix(String::from("--"))
        .optional_prefixed(param("b"))
        .finish();
    assert_eq!(u.required().len(), 1);
    assert_eq!(u.optional().len(), 0);
    assert_eq!(u.optional_prefixed().len(), 1);
    assert_eq!(u.optional_prefixed_prefix().as_deref(), Some("--"));
    let s = UsageSubBuilder::<BuilderMutable, f64>::new().required(param("slots")).finish();
    assert_eq!(s.required().len(), 1);
    let ty: CommandParamTy<f64> = CommandParamTy::Int(CmdParamNumConstraints::Any);
    assert_eq!(ty.as_str(), "integer");
}
