use pipelines::split::{collect, parse_pipeline, ParseError};
use pipelines::trim::PipelineIterator;
use pipelines::types::Pipeline;

fn parse_all(text: &str) -> (Vec<Pipeline>, Option<&'static str>) {
    let mut pipelines = Vec::new();
    let mut error: Option<&str> = None;
    collect(&mut pipelines, &mut error, text);
    let error = error.map(|e| {
        if e == ParseError::MissingOutputFile.message() {
            ParseError::MissingOutputFile.message()
        } else {
            ParseError::MissingInputFile.message()
        }
    });
    (pipelines, error)
}

fn args_of(p: &Pipeline) -> Vec<Vec<String>> {
    p.jobs.iter().map(|j| j.args.clone()).collect()
}

#[test]
fn white_statements_yield_nothing() {
    for text in ["", " ", "\t", "\r\n", " \t\r\n \n"] {
        let (pipelines, error) = parse_all(text);
        assert_eq!(0, pipelines.len());
        assert!(error.is_none());
    }
}

#[test]
fn blank_runs_split_like_one_space() {
    let (a, _) = parse_all("ls -al dir");
    let (b, _) = parse_all("ls \t -al\t\tdir");
    assert_eq!(args_of(&a[0]), args_of(&b[0]));
    assert_eq!(vec![vec!["ls".to_string(), "-al".to_string(), "dir".to_string()]], args_of(&a[0]));
}

#[test]
fn ampersand_ends_the_statement() {
    let (pipelines, _) = parse_all("echo hi & ls -l");
    assert_eq!(1, pipelines[0].jobs.len());
    assert_eq!(vec!["echo", "hi"], pipelines[0].jobs[0].args);
    assert!(pipelines[0].jobs[0].background);
}

#[test]
fn ampersand_marks_only_the_last_job() {
    let (pipelines, _) = parse_all("cat file | grep x&");
    assert_eq!(2, pipelines[0].jobs.len());
    assert!(!pipelines[0].jobs[0].background);
    assert!(pipelines[0].jobs[1].background);
    assert_eq!(vec!["grep", "x"], pipelines[0].jobs[1].args);
}

#[test]
fn redirection_order_does_not_matter() {
    let (a, _) = parse_all("cmd < a > b");
    let (b, _) = parse_all("cmd > b < a");
    for p in [&a[0], &b[0]] {
        assert_eq!(vec![vec!["cmd".to_string()]], args_of(p));
        assert_eq!("a", p.stdin.as_ref().unwrap().file);
        assert!(!p.stdin.as_ref().unwrap().append);
        assert_eq!("b", p.stdout.as_ref().unwrap().file);
        assert!(!p.stdout.as_ref().unwrap().append);
    }
}

#[test]
fn double_angle_appends() {
    let (a, _) = parse_all("cmd >> log");
    assert_eq!("log", a[0].stdout.as_ref().unwrap().file);
    assert!(a[0].stdout.as_ref().unwrap().append);
    let (b, _) = parse_all("cmd > log");
    assert_eq!("log", b[0].stdout.as_ref().unwrap().file);
    assert!(!b[0].stdout.as_ref().unwrap().append);
}

#[test]
fn three_jobs_and_two_files() {
    let (pipelines, _) = parse_all("cat | echo hello | cat < stuff > other");
    assert_eq!(
        vec![vec!["cat".to_string()], vec!["echo".to_string(), "hello".to_string()], vec![
            "cat".to_string()
        ]],
        args_of(&pipelines[0])
    );
    assert_eq!("stuff", pipelines[0].stdin.as_ref().unwrap().file);
    assert_eq!("other", pipelines[0].stdout.as_ref().unwrap().file);
    assert!(!pipelines[0].stdout.as_ref().unwrap().append);
}

#[test]
fn missing_output_file() {
    let (pipelines, error) = parse_all("cmd >");
    assert_eq!(0, pipelines.len());
    assert_eq!(Some("missing standard output file argument after '>'"), error);
    let (pipelines, error) = parse_all("cmd >>  ");
    assert_eq!(0, pipelines.len());
    assert_eq!(Some("missing standard output file argument after '>'"), error);
}

#[test]
fn missing_input_file() {
    let (pipelines, error) = parse_all("cmd < \t");
    assert_eq!(0, pipelines.len());
    assert_eq!(Some("missing standard input file argument after '<'"), error);
}

#[test]
fn other_operator_before_a_file_name() {
    let (pipelines, error) = parse_all("cmd > <in");
    assert_eq!(0, pipelines.len());
    assert_eq!(Some("missing standard output file argument after '>'"), error);
    let (pipelines, error) = parse_all("cmd < >out");
    assert_eq!(0, pipelines.len());
    assert_eq!(Some("missing standard input file argument after '<'"), error);
}

#[test]
fn an_error_keeps_earlier_pipelines() {
    let mut pipelines = Vec::new();
    let mut error: Option<&str> = None;
    collect(&mut pipelines, &mut error, "ls");
    collect(&mut pipelines, &mut error, "cat <");
    assert_eq!(1, pipelines.len());
    assert_eq!("ls", pipelines[0].jobs[0].command);
    assert_eq!(Some("missing standard input file argument after '<'"), error);
}

#[test]
fn third_redirection_is_ignored() {
    let (pipelines, error) = parse_all("cat < a > b < c");
    assert!(error.is_none());
    assert_eq!("a", pipelines[0].stdin.as_ref().unwrap().file);
    assert_eq!("b", pipelines[0].stdout.as_ref().unwrap().file);
    assert_eq!(vec![vec!["cat".to_string()]], args_of(&pipelines[0]));
}

#[test]
fn redirections_without_blanks() {
    let (pipelines, _) = parse_all("sort<in>>out");
    assert_eq!(vec![vec!["sort".to_string()]], args_of(&pipelines[0]));
    assert_eq!("in", pipelines[0].stdin.as_ref().unwrap().file);
    assert_eq!("out", pipelines[0].stdout.as_ref().unwrap().file);
    assert!(pipelines[0].stdout.as_ref().unwrap().append);
}

#[test]
fn escaped_blank_in_file_name() {
    let (pipelines, _) = parse_all("cat > my\\ file | ignored");
    assert_eq!("my\\ file", pipelines[0].stdout.as_ref().unwrap().file);
}

#[test]
fn quoted_operators_are_text() {
    let (pipelines, _) = parse_all("echo 'a | b' \"c > d\" e\\&f");
    assert_eq!(
        vec![vec![
            "echo".to_string(),
            "'a | b'".to_string(),
            "\"c > d\"".to_string(),
            "e\\&f".to_string()
        ]],
        args_of(&pipelines[0])
    );
    assert!(pipelines[0].stdout.is_none());
}

#[test]
fn substitution_keeps_its_blanks_and_pipes() {
    let (pipelines, _) = parse_all("echo $(ls | wc) x");
    assert_eq!(
        vec![vec!["echo".to_string(), "$(ls | wc)".to_string(), "x".to_string()]],
        args_of(&pipelines[0])
    );
}

#[test]
fn dollar_without_parenthesis() {
    let (pipelines, _) = parse_all("echo $ x $HOME");
    assert_eq!(
        vec![vec!["echo".to_string(), "$".to_string(), "x".to_string(), "$HOME".to_string()]],
        args_of(&pipelines[0])
    );
}

#[test]
fn empty_jobs_are_not_kept() {
    let (pipelines, _) = parse_all("a || b |");
    assert_eq!(vec![vec!["a".to_string()], vec!["b".to_string()]], args_of(&pipelines[0]));
}

#[test]
fn unterminated_quote_is_no_error() {
    let (pipelines, error) = parse_all("echo \"open | quote");
    assert!(error.is_none());
    assert_eq!(
        vec![vec!["echo".to_string(), "\"open | quote".to_string()]],
        args_of(&pipelines[0])
    );
}

#[test]
fn statement_without_operators_is_one_argument() {
    let (pipelines, _) = parse_all("'abc");
    assert_eq!(vec![vec!["'abc".to_string()]], args_of(&pipelines[0]));
    assert!(!pipelines[0].jobs[0].background);
}

#[test]
fn trimmer_yields_once() {
    let mut statements = PipelineIterator::new(" \t ls -l ");
    assert_eq!(Some("ls -l "), statements.next());
    assert_eq!(None, statements.next());
    let mut blank = PipelineIterator::new("\t\r\n");
    assert_eq!(None, blank.next());
}

#[test]
fn parse_pipeline_on_a_trimmed_statement() {
    match parse_pipeline("grep -v x < in.txt") {
        Ok(p) => {
            assert_eq!("grep", p.jobs[0].command);
            assert_eq!("in.txt", p.stdin.unwrap().file);
            assert!(p.stdout.is_none());
        }
        Err(_) => panic!("expected a pipeline"),
    }
    assert!(matches!(parse_pipeline("x >"), Err(ParseError::MissingOutputFile)));
    assert!(matches!(parse_pipeline("x <"), Err(ParseError::MissingInputFile)));
}
