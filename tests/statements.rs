use pipelines::split::collect;
use pipelines::types::Pipeline;

fn parse(text: &str) -> Vec<Pipeline> {
    let mut pipelines = Vec::new();
    let mut error = None;
    collect(&mut pipelines, &mut error, text);
    assert!(error.is_none());
    pipelines
}

#[test]
fn quoted_process() {
    let mut pipelines = parse("let A = \"$(seq 1 10)\"");
    let jobs = pipelines.remove(0).jobs;
    assert_eq!("let", jobs[0].args[0]);
    assert_eq!("A", jobs[0].args[1]);
    assert_eq!("=", jobs[0].args[2]);
    assert_eq!("\"$(seq 1 10)\"", jobs[0].args[3]);
    assert_eq!(4, jobs[0].args.len());
}

#[test]
fn process() {
    let mut pipelines = parse("let A = $(seq 1 10)");
    let jobs = pipelines.remove(0).jobs;
    assert_eq!("let", jobs[0].args[0]);
    assert_eq!("A", jobs[0].args[1]);
    assert_eq!("=", jobs[0].args[2]);
    assert_eq!("$(seq 1 10)", jobs[0].args[3]);
    assert_eq!(4, jobs[0].args.len());
}

#[test]
fn single_job_no_args() {
    let mut pipelines = parse("cat");
    let jobs = pipelines.remove(0).jobs;
    assert_eq!(1, jobs.len());
    assert_eq!("cat", jobs[0].command);
    assert_eq!(1, jobs[0].args.len());
}

#[test]
fn single_job_with_single_character_arguments() {
    let mut pipelines = parse("echo a b c");
    let jobs = pipelines.remove(0).jobs;
    assert_eq!(1, jobs.len());
    assert_eq!("echo", jobs[0].args[0]);
    assert_eq!("a", jobs[0].args[1]);
    assert_eq!("b", jobs[0].args[2]);
    assert_eq!("c", jobs[0].args[3]);
    assert_eq!(4, jobs[0].args.len());
}

#[test]
fn job_with_args() {
    let mut pipelines = parse("ls -al dir");
    let jobs = pipelines.remove(0).jobs;
    assert_eq!(1, jobs.len());
    assert_eq!("ls", jobs[0].command);
    assert_eq!("-al", jobs[0].args[1]);
    assert_eq!("dir", jobs[0].args[2]);
}

#[test]
fn parse_empty_string() {
    let pipelines = parse("");
    assert_eq!(0, pipelines.len());
}

#[test]
fn multiple_white_space_between_words() {
    let mut pipelines = parse("ls \t -al\t\tdir");
    let jobs = pipelines.remove(0).jobs;
    assert_eq!(1, jobs.len());
    assert_eq!("ls", jobs[0].command);
    assert_eq!("-al", jobs[0].args[1]);
    assert_eq!("dir", jobs[0].args[2]);
}

#[test]
fn trailing_whitespace() {
    let pipelines = parse("ls -al\t ");
    assert_eq!(1, pipelines.len());
    assert_eq!("ls", pipelines[0].jobs[0].command);
    assert_eq!("-al", pipelines[0].jobs[0].args[1]);
}

#[test]
fn double_quoting() {
    let mut pipelines = parse("echo \"Hello World\" \"From Rust\"");
    let jobs = pipelines.remove(0).jobs;
    assert_eq!(3, jobs[0].args.len());
    assert_eq!("\"Hello World\"", jobs[0].args[1]);
    assert_eq!("\"From Rust\"", jobs[0].args[2]);
}

#[test]
fn double_quoting_contains_single() {
    let mut pipelines = parse("echo \"Hello 'Rusty' World\"");
    let jobs = pipelines.remove(0).jobs;
    assert_eq!(2, jobs[0].args.len());
    assert_eq!("\"Hello \'Rusty\' World\"", jobs[0].args[1]);
}

#[test]
fn multi_quotes() {
    let mut pipelines = parse("echo \"Hello \"Rusty\" World\"");
    let jobs = pipelines.remove(0).jobs;
    assert_eq!(2, jobs[0].args.len());
    assert_eq!("\"Hello \"Rusty\" World\"", jobs[0].args[1]);

    let mut pipelines = parse("echo \'Hello \'Rusty\' World\'");
    let jobs = pipelines.remove(0).jobs;
    assert_eq!(2, jobs[0].args.len());
    assert_eq!("\'Hello \'Rusty\' World\'", jobs[0].args[1]);
}

#[test]
fn all_whitespace() {
    let pipelines = parse("  \t ");
    assert_eq!(0, pipelines.len());
}

#[test]
fn not_background_job() {
    let mut pipelines = parse("echo hello world");
    let jobs = pipelines.remove(0).jobs;
    assert_eq!(false, jobs[0].background);
}

#[test]
fn background_job() {
    let mut pipelines = parse("echo hello world&");
    let jobs = pipelines.remove(0).jobs;
    assert_eq!(true, jobs[0].background);
}

#[test]
fn background_job_with_space() {
    let mut pipelines = parse("echo hello world &");
    let jobs = pipelines.remove(0).jobs;
    assert_eq!(true, jobs[0].background);
}

#[test]
fn leading_whitespace() {
    let mut pipelines = parse("    \techo");
    let jobs = pipelines.remove(0).jobs;
    assert_eq!(1, jobs.len());
    assert_eq!("echo", jobs[0].command);
}

#[test]
fn single_quoting() {
    let mut pipelines = parse("echo '#!!;\"\\'");
    let jobs = pipelines.remove(0).jobs;
    assert_eq!("'#!!;\"\\'", jobs[0].args[1]);
}

#[test]
fn mixed_quoted_and_unquoted() {
    let mut pipelines = parse("echo 123 456 \"ABC 'DEF' GHI\" 789 one'  'two");
    let jobs = pipelines.remove(0).jobs;
    assert_eq!("123", jobs[0].args[1]);
    assert_eq!("456", jobs[0].args[2]);
    assert_eq!("\"ABC 'DEF' GHI\"", jobs[0].args[3]);
    assert_eq!("789", jobs[0].args[4]);
    assert_eq!("one'  'two", jobs[0].args[5]);
}

#[test]
fn several_blank_lines() {
    let pipelines = parse("\n\n\n");
    assert_eq!(0, pipelines.len());
}

#[test]
fn pipelines_with_redirection() {
    let pipelines = parse("cat | echo hello | cat < stuff > other");
    assert_eq!(3, pipelines[0].jobs.len());
    assert_eq!("cat", &pipelines[0].jobs[0].args[0]);
    assert_eq!("echo", &pipelines[0].jobs[1].args[0]);
    assert_eq!("hello", &pipelines[0].jobs[1].args[1]);
    assert_eq!("cat", &pipelines[0].jobs[2].args[0]);
    assert_eq!("stuff", &pipelines[0].stdin.as_ref().unwrap().file);
    assert_eq!("other", &pipelines[0].stdout.as_ref().unwrap().file);
    assert!(!pipelines[0].stdout.as_ref().unwrap().append);
}

#[test]
fn pipeline_with_redirection_append() {
    let pipelines = parse("cat | echo hello | cat < stuff >> other");
    assert_eq!(3, pipelines[0].jobs.len());
    assert_eq!("stuff", &pipelines[0].stdin.as_ref().unwrap().file);
    assert_eq!("other", &pipelines[0].stdout.as_ref().unwrap().file);
    assert!(pipelines[0].stdout.as_ref().unwrap().append);
}

#[test]
fn pipelines_with_redirection_reverse_order() {
    let pipelines = parse("cat | echo hello | cat > stuff < other");
    assert_eq!(3, pipelines[0].jobs.len());
    assert_eq!("other", &pipelines[0].stdin.as_ref().unwrap().file);
    assert_eq!("stuff", &pipelines[0].stdout.as_ref().unwrap().file);
}
