use csv::{ReaderBuilder, StringRecord, WriterBuilder};
use cutr::{get_args, Cli, Event, Output, Phase, Request, Run, Source};

fn names(list: &[&str]) -> Vec<String> {
    list.iter().map(|name| name.to_string()).collect()
}

fn fields(list: &str, files: &[&str], delimiter: char) -> Cli {
    get_args(Some(list), None, None, names(files), delimiter).unwrap()
}

fn bytes(list: &str, files: &[&str]) -> Cli {
    get_args(None, Some(list), None, names(files), '\t').unwrap()
}

fn chars(list: &str, files: &[&str]) -> Cli {
    get_args(None, None, Some(list), names(files), '\t').unwrap()
}

/// What a run wrote, and how it ended.
#[derive(Debug, PartialEq)]
struct Outcome {
    out: String,
    diagnostics: Vec<String>,
    finished: bool,
}

/// Runs `cli` over sources held in memory. A source without content cannot
/// be opened; one whose content is no UTF-8 cannot be read.
fn drive(cli: Cli, contents: &[(&str, Option<&[u8]>)]) -> Outcome {
    let mut run = Run::new(cli);
    let mut out: Vec<u8> = Vec::new();
    let mut diagnostics = Vec::new();
    let mut lines: Vec<Result<String, ()>> = Vec::new();
    let mut records: Vec<Result<StringRecord, ()>> = Vec::new();
    let mut delimiter = b'\t';
    let mut content: &[u8] = &[];
    let mut unread = false;
    loop {
        let event = match run.request() {
            Request::Open(source) => {
                let name = match source {
                    Source::Stdin => "-".to_string(),
                    Source::File(name) => name,
                };
                let found = contents.iter().find(|(known, _)| *known == name);
                match found.and_then(|(_, content)| *content) {
                    Some(bytes) => {
                        content = bytes;
                        unread = true;
                        Event::Opened
                    }
                    None => Event::OpenFailed("No such file or directory (os error 2)".to_string()),
                }
            }
            Request::ReadLine => {
                if unread {
                    lines = content
                        .split(|byte| *byte == b'\n')
                        .map(|line| String::from_utf8(line.to_vec()).map_err(|_| ()))
                        .collect();
                    if content.is_empty() || content.ends_with(b"\n") {
                        lines.pop();
                    }
                    lines.reverse();
                    unread = false;
                }
                match lines.pop() {
                    Some(Ok(line)) => Event::Line(line),
                    Some(Err(())) => Event::ReadFailed,
                    None => Event::EndOfInput,
                }
            }
            Request::ReadRecord(byte) => {
                if unread {
                    delimiter = byte;
                    records = ReaderBuilder::new()
                        .has_headers(false)
                        .delimiter(byte)
                        .from_reader(content)
                        .into_records()
                        .map(|record| record.map_err(|_| ()))
                        .collect();
                    records.reverse();
                    unread = false;
                }
                match records.pop() {
                    Some(Ok(record)) => Event::Record(record),
                    Some(Err(())) => Event::ReadFailed,
                    None => Event::EndOfInput,
                }
            }
            Request::Finish => {
                let out = String::from_utf8(out).unwrap();
                return Outcome { out, diagnostics, finished: true };
            }
            Request::Fail => {
                let out = String::from_utf8(out).unwrap();
                return Outcome { out, diagnostics, finished: false };
            }
        };
        match run.step(event) {
            Output::Nothing => {}
            Output::Line(text) => {
                out.extend_from_slice(text.as_bytes());
                out.push(b'\n');
            }
            Output::Record(list) => {
                let mut writer = WriterBuilder::new().delimiter(delimiter).from_writer(&mut out);
                writer.write_record(list.iter()).unwrap();
                writer.flush().unwrap();
            }
            Output::Diagnostic(text) => diagnostics.push(text),
        }
    }
}

#[test]
fn first_field_of_tab_separated_rows() {
    let input: &[u8] = b"Author\tYear\tTitle\nChristian, Emile\t1865\tStanzas\n";
    let outcome = drive(fields("1", &["books.tsv"], '\t'), &[("books.tsv", Some(input))]);
    assert_eq!(outcome.out, "Author\nChristian, Emile\n");
    assert!(outcome.diagnostics.is_empty());
    assert!(outcome.finished);
}

#[test]
fn several_fields_are_joined_by_the_delimiter() {
    let input: &[u8] = b"Author\tYear\tTitle\nSham\t1865\tStanzas\n";
    let outcome = drive(fields("3,1", &["books.tsv"], '\t'), &[("books.tsv", Some(input))]);
    assert_eq!(outcome.out, "Title\tAuthor\nStanzas\tSham\n");
    let outcome = drive(fields("2-3", &["books.tsv"], '\t'), &[("books.tsv", Some(input))]);
    assert_eq!(outcome.out, "Year\tTitle\n1865\tStanzas\n");
}

#[test]
fn quoted_fields_keep_their_delimiters() {
    let input: &[u8] = b"name,motto\n\"Sham, Captain\",\"never, ever\"\n";
    let outcome = drive(fields("1", &["crew.csv"], ','), &[("crew.csv", Some(input))]);
    assert_eq!(outcome.out, "name\n\"Sham, Captain\"\n");
}

#[test]
fn characters_of_every_line() {
    let input: &[u8] = "ábc\nxy\n\nlast".as_bytes();
    let outcome = drive(chars("1,3", &["-"]), &[("-", Some(input))]);
    assert_eq!(outcome.out, "ác\nx\n\nls\n");
    assert!(outcome.finished);
}

#[test]
fn bytes_of_every_line() {
    let input: &[u8] = "ábc\nxyz\n".as_bytes();
    let outcome = drive(bytes("2-3", &["-"]), &[("-", Some(input))]);
    assert_eq!(outcome.out, "\u{fffd}b\nyz\n");
}

#[test]
fn sources_are_read_in_their_order() {
    let outcome = drive(
        chars("1", &["two", "one", "two"]),
        &[("one", Some(b"a\nb\n")), ("two", Some(b"x\n"))],
    );
    assert_eq!(outcome.out, "x\na\nb\nx\n");
    assert!(outcome.finished);
}

#[test]
fn a_source_that_cannot_be_opened_is_passed_over() {
    let outcome = drive(
        chars("1", &["missing", "one", "gone"]),
        &[("one", Some(b"a\n")), ("gone", None)],
    );
    assert_eq!(outcome.out, "a\n");
    assert_eq!(
        outcome.diagnostics,
        [
            "missing: No such file or directory (os error 2)",
            "gone: No such file or directory (os error 2)"
        ]
    );
    assert!(outcome.finished);
}

#[test]
fn a_failure_to_read_ends_the_run() {
    let outcome = drive(
        chars("1", &["one", "bad", "two"]),
        &[("one", Some(b"a\n")), ("bad", Some(b"b\n\xff\nc\n")), ("two", Some(b"x\n"))],
    );
    assert_eq!(outcome.out, "a\nb\n");
    assert!(outcome.diagnostics.is_empty());
    assert!(!outcome.finished);
}

#[test]
fn no_sources_no_work() {
    let outcome = drive(chars("1", &[]), &[]);
    assert_eq!(outcome, Outcome { out: String::new(), diagnostics: Vec::new(), finished: true });
}

#[test]
fn the_requests_of_a_run() {
    let mut run = Run::new(fields("1", &["-", "data.csv"], ';'));
    assert_eq!(run.phase(), Phase::Opening);
    assert_eq!(run.position(), 0);
    assert_eq!(run.request(), Request::Open(Source::Stdin));
    assert_eq!(run.step(Event::Opened), Output::Nothing);
    assert_eq!(run.phase(), Phase::Reading);
    assert_eq!(run.request(), Request::ReadRecord(b';'));
    let record = StringRecord::from(vec!["a", "b"]);
    assert_eq!(run.step(Event::Record(record)), Output::Record(vec!["a".to_string()]));
    assert_eq!(run.request(), Request::ReadRecord(b';'));
    assert_eq!(run.step(Event::EndOfInput), Output::Nothing);
    assert_eq!(run.position(), 1);
    assert_eq!(run.request(), Request::Open(Source::File("data.csv".to_string())));
    assert_eq!(
        run.step(Event::OpenFailed("Permission denied (os error 13)".to_string())),
        Output::Diagnostic("data.csv: Permission denied (os error 13)".to_string())
    );
    assert_eq!(run.phase(), Phase::Finished);
    assert_eq!(run.position(), 2);
    assert_eq!(run.request(), Request::Finish);
}

#[test]
fn lines_are_asked_for_characters_and_bytes() {
    let mut run = Run::new(chars("1", &["a"]));
    run.step(Event::Opened);
    assert_eq!(run.request(), Request::ReadLine);
    let mut run = Run::new(bytes("1", &["a"]));
    run.step(Event::Opened);
    assert_eq!(run.request(), Request::ReadLine);
    assert_eq!(run.step(Event::ReadFailed), Output::Nothing);
    assert_eq!(run.phase(), Phase::Failed);
    assert_eq!(run.request(), Request::Fail);
}

#[test]
fn only_a_lone_hyphen_is_standard_input() {
    for name in ["--", "-a", "", " -", "./-"] {
        let run = Run::new(chars("1", &[name]));
        assert_eq!(run.request(), Request::Open(Source::File(name.to_string())));
    }
}

#[test]
fn the_delimiter_is_cut_to_a_byte() {
    let mut run = Run::new(fields("1", &["a"], 'é'));
    run.step(Event::Opened);
    assert_eq!(run.request(), Request::ReadRecord(0xe9));
    let mut run = Run::new(fields("1", &["a"], 'Ł'));
    run.step(Event::Opened);
    assert_eq!(run.request(), Request::ReadRecord(0x41));
}

#[test]
fn events_that_answer_nothing_are_ignored() {
    let mut run = Run::new(chars("1", &["a", "b"]));
    assert_eq!(run.step(Event::Line("xyz".to_string())), Output::Nothing);
    assert_eq!(run.step(Event::EndOfInput), Output::Nothing);
    assert_eq!(run.step(Event::ReadFailed), Output::Nothing);
    assert_eq!(run.phase(), Phase::Opening);
    assert_eq!(run.position(), 0);
    run.step(Event::Opened);
    assert_eq!(run.step(Event::Opened), Output::Nothing);
    assert_eq!(run.step(Event::OpenFailed("late".to_string())), Output::Nothing);
    let record = StringRecord::from(vec!["a", "b"]);
    assert_eq!(run.step(Event::Record(record)), Output::Nothing);
    assert_eq!(run.phase(), Phase::Reading);
    assert_eq!(run.position(), 0);
    assert_eq!(run.step(Event::Line("xyz".to_string())), Output::Line("x".to_string()));

    let mut run = Run::new(fields("1", &["a"], ','));
    run.step(Event::Opened);
    assert_eq!(run.step(Event::Line("x,y".to_string())), Output::Nothing);
    assert_eq!(run.phase(), Phase::Reading);
}

#[test]
fn a_run_that_is_over_stays_over() {
    let mut run = Run::new(chars("1", &["a"]));
    run.step(Event::Opened);
    run.step(Event::EndOfInput);
    assert_eq!(run.phase(), Phase::Finished);
    for event in [Event::Opened, Event::Line("x".to_string()), Event::ReadFailed] {
        assert_eq!(run.step(event), Output::Nothing);
        assert_eq!(run.phase(), Phase::Finished);
        assert_eq!(run.request(), Request::Finish);
    }
    let mut run = Run::new(chars("1", &["a", "b"]));
    run.step(Event::Opened);
    run.step(Event::ReadFailed);
    for event in [Event::Opened, Event::Line("x".to_string()), Event::EndOfInput] {
        assert_eq!(run.step(event), Output::Nothing);
        assert_eq!(run.phase(), Phase::Failed);
        assert_eq!(run.position(), 0);
        assert_eq!(run.request(), Request::Fail);
    }
}
