use karel::syntax::{RuntimeError, StepOutcome, SyntaxError, SyntaxParser};
use karel::world::{ActionError, Config, Direction, Karel, QueryError};

fn run_program(sources: Vec<&str>, karel: &mut Karel) -> Result<(), RuntimeError> {
    let mut parser = SyntaxParser::new(sources.into_iter().map(String::from).collect());
    parser.run(karel)
}

fn words(parser: &SyntaxParser, i: usize) -> Vec<String> {
    parser.line(i).iter().map(|w| w.iter().collect()).collect()
}

fn facing_south(config: Config) -> Karel {
    let mut karel = Karel::new(config);
    karel.action(karel::world::Action::TurnLeft).unwrap();
    karel.action(karel::world::Action::TurnLeft).unwrap();
    karel
}

#[test]
fn move_north_from_origin_fails() {
    let mut karel = Karel::new(Config::default());
    let r = run_program(vec!["def main\nmove\nturn-left\nmove\nenddef"], &mut karel);
    assert_eq!(r, Err(RuntimeError::RuntimeActionError(ActionError::MoveOutOfBounds)));
    assert_eq!(karel.read_karel().0, &(0, 0));
    assert_eq!(karel.read_karel().1, &Direction::North);
}

#[test]
fn repeat_put_three_times() {
    let mut karel = Karel::new(Config::default());
    let r = run_program(vec!["def main\nrepeat 3\nput\nendrepeat\nenddef"], &mut karel);
    assert_eq!(r, Ok(()));
    assert_eq!(karel.get_gamefield((0, 0)), Ok(3));
}

#[test]
fn loader_strips_comments_and_blank_lines() {
    let parser = SyntaxParser::new(vec![
        String::from("# library\n  def helper   # a procedure\n\tput\nenddef\n"),
        String::from("\n\ndef main\r\n  call   helper\r\nenddef"),
    ]);
    assert_eq!(parser.line_count(), 6);
    assert_eq!(words(&parser, 0), vec!["def", "helper"]);
    assert_eq!(words(&parser, 1), vec!["put"]);
    assert_eq!(words(&parser, 2), vec!["enddef"]);
    assert_eq!(words(&parser, 3), vec!["def", "main"]);
    assert_eq!(words(&parser, 4), vec!["call", "helper"]);
    assert_eq!(words(&parser, 5), vec!["enddef"]);
}

#[test]
fn library_procedure_is_callable() {
    let mut karel = Karel::new(Config::default());
    let r = run_program(
        vec!["def two\nput\nput\nenddef", "def main\ncall two\nenddef"],
        &mut karel,
    );
    assert_eq!(r, Ok(()));
    assert_eq!(karel.get_gamefield((0, 0)), Ok(2));
}

#[test]
fn no_main_is_reported() {
    let mut karel = Karel::new(Config::default());
    let r = run_program(vec!["def other\nput\nenddef"], &mut karel);
    assert_eq!(r, Err(RuntimeError::NoEntryPointDefined));
}

#[test]
fn unclosed_blocks() {
    for program in [
        "def main\nput",
        "def main\nif north\nput\nenddef",
        "def main\nrepeat 2\nput\nenddef",
        "def main\nwhile beeper\nenddef",
        "def main\ndef inner\nput\nenddef",
    ] {
        let mut karel = Karel::new(Config::default());
        let r = run_program(vec![program], &mut karel);
        let expected = if program == "def main\nput" || program == "def main\ndef inner\nput\nenddef" {
            Err(RuntimeError::RuntimeSyntaxError(SyntaxError::UnexpectedEndOfFile))
        } else {
            Err(RuntimeError::RuntimeSyntaxError(SyntaxError::WrongBlockEnd(
                program.lines().count() - 1,
            )))
        };
        assert_eq!(r, expected, "{}", program);
    }
}

#[test]
fn unclosed_block_in_skipped_branch() {
    let mut karel = Karel::new(Config::default());
    let r = run_program(vec!["def main\nif south\nrepeat 2\nput"], &mut karel);
    assert_eq!(r, Err(RuntimeError::RuntimeSyntaxError(SyntaxError::UnexpectedEndOfFile)));
    assert_eq!(karel.get_gamefield((0, 0)), Ok(0));
}

#[test]
fn mismatched_terminator() {
    let mut karel = Karel::new(Config::default());
    let r = run_program(vec!["def main\nif north\nput\nendrepeat\nendif\nenddef"], &mut karel);
    assert_eq!(r, Err(RuntimeError::RuntimeSyntaxError(SyntaxError::WrongBlockEnd(3))));
    assert_eq!(karel.get_gamefield((0, 0)), Ok(1));
}

#[test]
fn repeat_zero_skips_body() {
    let mut karel = Karel::new(Config::default());
    let r = run_program(
        vec!["def main\nrepeat 0\nput\nput\nendrepeat\nturn-left\nenddef"],
        &mut karel,
    );
    assert_eq!(r, Ok(()));
    assert_eq!(karel.get_gamefield((0, 0)), Ok(0));
    assert_eq!(karel.read_karel().1, &Direction::West);
}

#[test]
fn nested_if_in_skipped_branch_does_nothing() {
    let mut karel = facing_south(Config::default());
    let r = run_program(
        vec!["def main\nif north\nif south\nmove\nendif\nmove\nput\nendif\nenddef"],
        &mut karel,
    );
    assert_eq!(r, Ok(()));
    assert_eq!(karel.read_karel().0, &(0, 0));
    assert_eq!(karel.get_gamefield((0, 0)), Ok(0));
}

#[test]
fn taken_if_runs_body() {
    let mut karel = facing_south(Config::default());
    let r = run_program(vec!["def main\nif south\nmove\nendif\nput\nenddef"], &mut karel);
    assert_eq!(r, Ok(()));
    assert_eq!(karel.read_karel().0, &(0, 1));
    assert_eq!(karel.get_gamefield((0, 1)), Ok(1));
}

#[test]
fn nested_calls_return_to_call_sites() {
    let mut karel = facing_south(Config::default());
    let program = "def step\nmove\nenddef\n\
                   def outer\ncall step\nput\ncall step\nenddef\n\
                   def main\ncall outer\nturn-left\ncall step\nput\nenddef";
    let r = run_program(vec![program], &mut karel);
    // South twice to (0, 2) with one item left on (0, 1); facing East from
    // row 0, the last step leaves the grid.
    assert_eq!(r, Err(RuntimeError::RuntimeActionError(ActionError::MoveOutOfBounds)));
    assert_eq!(karel.read_karel().1, &Direction::East);
    assert_eq!(karel.get_gamefield((0, 1)), Ok(1));
    assert_eq!(karel.read_karel().0, &(0, 2));
    assert_eq!(karel.get_gamefield((0, 2)), Ok(0));
}

#[test]
fn nested_calls_with_turns() {
    let mut karel = facing_south(Config::default());
    let program = "def step\nmove\nenddef\n\
                   def twice\ncall step\ncall step\nenddef\n\
                   def main\ncall twice\nput\ncall twice\nput\nenddef";
    let r = run_program(vec![program], &mut karel);
    assert_eq!(r, Ok(()));
    assert_eq!(karel.get_gamefield((0, 2)), Ok(1));
    assert_eq!(karel.get_gamefield((0, 4)), Ok(1));
    assert_eq!(karel.read_karel().0, &(0, 4));
}

#[test]
fn recursion_through_call() {
    let mut karel = Karel::new(Config::default());
    karel.set_gamefield((0, 0), 3).unwrap();
    let program = "def unwind\ntake\nif beeper\ncall unwind\nendif\nput\nput\nenddef\n\
                   def main\ncall unwind\nturn-left\nenddef";
    let r = run_program(vec![program], &mut karel);
    assert_eq!(r, Ok(()));
    // Three levels each take one item and put two back.
    assert_eq!(karel.get_gamefield((0, 0)), Ok(6));
    assert_eq!(karel.read_karel().1, &Direction::West);
}

#[test]
fn while_loop_collects_items() {
    let mut karel = Karel::new(Config::default());
    karel.set_gamefield((0, 0), 4).unwrap();
    let r = run_program(vec!["def main\nwhile beeper\ntake\nendwhile\nput\nenddef"], &mut karel);
    assert_eq!(r, Ok(()));
    assert_eq!(karel.get_gamefield((0, 0)), Ok(1));
}

#[test]
fn while_false_skips_body() {
    let mut karel = Karel::new(Config::default());
    let r = run_program(vec!["def main\nwhile beeper\ntake\nendwhile\nput\nenddef"], &mut karel);
    assert_eq!(r, Ok(()));
    assert_eq!(karel.get_gamefield((0, 0)), Ok(1));
}

#[test]
fn die_leaves_innermost_block() {
    let mut karel = Karel::new(Config::default());
    let r = run_program(
        vec!["def main\nrepeat 5\nput\ndie\nput\nendrepeat\nturn-left\nenddef"],
        &mut karel,
    );
    assert_eq!(r, Ok(()));
    assert_eq!(karel.get_gamefield((0, 0)), Ok(1));
    assert_eq!(karel.read_karel().1, &Direction::West);
}

#[test]
fn falling_into_def_skips_it() {
    let mut karel = Karel::new(Config::default());
    let r = run_program(vec!["def main\ndef inner\nput\nenddef\nturn-left\nenddef"], &mut karel);
    assert_eq!(r, Ok(()));
    assert_eq!(karel.get_gamefield((0, 0)), Ok(0));
    assert_eq!(karel.read_karel().1, &Direction::West);
}

#[test]
fn last_definition_wins() {
    let mut karel = Karel::new(Config::default());
    let r = run_program(
        vec!["def f\nput\nenddef\ndef f\nput\nput\nenddef\ndef main\ncall f\nenddef"],
        &mut karel,
    );
    assert_eq!(r, Ok(()));
    assert_eq!(karel.get_gamefield((0, 0)), Ok(2));
}

#[test]
fn syntax_errors() {
    let cases: Vec<(&str, SyntaxError)> = vec![
        ("def main\nrepeat x\nendrepeat\nenddef", SyntaxError::NotANumber(1)),
        ("def main\nrepeat -1\nendrepeat\nenddef", SyntaxError::NotANumber(1)),
        ("def main\nrepeat 99999999999999999999999\nendrepeat\nenddef", SyntaxError::NotANumber(1)),
        ("def main\nrepeat\nendrepeat\nenddef", SyntaxError::NotEnoughArguments(1)),
        ("def main\nif\nendif\nenddef", SyntaxError::NotEnoughArguments(1)),
        ("def main\nif sky\nendif\nenddef", SyntaxError::NotDefined(1)),
        ("def main\ncall\nenddef", SyntaxError::NotEnoughArguments(1)),
        ("def main\ncall nowhere\nenddef", SyntaxError::MethodNotDefined(1)),
        ("def main\njump\nenddef", SyntaxError::NotDefined(1)),
    ];
    for (program, error) in cases {
        let mut karel = Karel::new(Config::default());
        let r = run_program(vec![program], &mut karel);
        assert_eq!(r, Err(RuntimeError::RuntimeSyntaxError(error)), "{}", program);
    }
}

#[test]
fn query_error_ends_run() {
    let mut karel = Karel::new(Config::default());
    let r = run_program(vec!["def main\nif wall\nput\nendif\nenddef"], &mut karel);
    assert_eq!(r, Err(RuntimeError::RuntimeQueryError(QueryError::OutOfBounds)));
}

#[test]
fn ignored_runtime_errors_skip_and_continue() {
    let mut karel = Karel::new(Config::default());
    let mut parser = SyntaxParser::new(vec![String::from(
        "def main\nmove\ntake\nif wall\nput\nendif\nput\nenddef",
    )]);
    parser.set_ignore_runtime_errors(true);
    assert_eq!(parser.run(&mut karel), Ok(()));
    assert_eq!(karel.read_karel().0, &(0, 0));
    assert_eq!(karel.get_gamefield((0, 0)), Ok(1));
}

#[test]
fn ignored_runtime_errors_keep_syntax_errors() {
    let mut karel = Karel::new(Config::default());
    let mut parser = SyntaxParser::new(vec![String::from("def main\nmove\nfly\nenddef")]);
    parser.set_ignore_runtime_errors(true);
    assert_eq!(
        parser.run(&mut karel),
        Err(RuntimeError::RuntimeSyntaxError(SyntaxError::NotDefined(2)))
    );
}

#[test]
fn stepping_one_line_at_a_time() {
    let mut karel = Karel::new(Config::default());
    let mut parser = SyntaxParser::new(vec![String::from("def main\nput\nturn-left\nenddef")]);
    assert_eq!(parser.step(&mut karel), Ok(StepOutcome::Running));
    assert_eq!(karel.get_gamefield((0, 0)), Ok(1));
    assert_eq!(karel.read_karel().1, &Direction::North);
    assert_eq!(parser.step(&mut karel), Ok(StepOutcome::Running));
    assert_eq!(karel.read_karel().1, &Direction::West);
    assert_eq!(parser.step(&mut karel), Ok(StepOutcome::Finished));
    assert_eq!(parser.step(&mut karel), Ok(StepOutcome::Finished));
}

#[test]
fn endless_loop_hits_step_limit() {
    let mut karel = Karel::new(Config::default());
    let mut parser = SyntaxParser::new(vec![String::from(
        "def main\nwhile north\nturn-left\nturn-left\nturn-left\nturn-left\nendwhile\nenddef",
    )]);
    assert_eq!(parser.run_steps(&mut karel, 1000), Err(RuntimeError::StepLimitReached));
}
