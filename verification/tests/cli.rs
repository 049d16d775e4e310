use hayagriva_ffi::cli::{
    load_citation_groups, locales_for, missing_argument, next_value, parse_args,
    parse_bibliography, read_citation_groups, resolve_citation_groups, style_report, usage, Args,
    Failure, OutputFormat,
};
use hayagriva_ffi::styles::read_style;

const USAGE: &str = "usage: cargo run --bin hayagriva_lite -- --bib <file.bib> [--style <style-name>] [--locale <locale>] [--plain] --cite <file.txt>";

fn args(list: &[&str]) -> Vec<String> {
    list.iter().map(|a| a.to_string()).collect()
}

#[test]
fn arguments_make_a_configuration() {
    match parse_args(args(&["--bib", "refs.bib", "--cite", "cites.txt"])) {
        Ok(Args::Run(config)) => {
            assert_eq!(config.bib_path, "refs.bib");
            assert_eq!(config.cite_path, "cites.txt");
            assert!(config.style_name.is_none() && config.locale.is_none());
            assert_eq!(config.output_format, OutputFormat::Vt100);
        },
        _ => panic!("expected a configuration"),
    }
    match parse_args(args(&[
        "--plain", "--style", "apa", "--locale", "de-DE", "--cite", "a", "--bib", "b", "--style", "ieee",
    ])) {
        Ok(Args::Run(config)) => {
            assert_eq!(config.style_name.as_deref(), Some("ieee"));
            assert_eq!(config.locale.as_deref(), Some("de-DE"));
            assert_eq!(config.bib_path, "b");
            assert_eq!(config.output_format, OutputFormat::Plain);
        },
        _ => panic!("expected a configuration"),
    }
}

#[test]
fn help_is_asked_for() {
    assert!(matches!(parse_args(args(&["--bib", "x", "-h"])), Ok(Args::Help)));
    assert!(matches!(parse_args(args(&["--help", "--nonsense"])), Ok(Args::Help)));
}

#[test]
fn argument_errors_end_with_the_usage() {
    let err = |list: &[&str]| match parse_args(args(list)) {
        Err(m) => m,
        Ok(_) => panic!("expected an error"),
    };
    assert_eq!(err(&["--nonsense"]), format!("unknown argument: --nonsense\n\n{USAGE}"));
    assert_eq!(err(&["--cite"]), format!("missing value for --cite\n\n{USAGE}"));
    assert_eq!(err(&[]), format!("missing required argument: --bib\n\n{USAGE}"));
    assert_eq!(err(&["--bib", "b"]), format!("missing required argument: --cite\n\n{USAGE}"));
    assert_eq!(missing_argument("--bib"), format!("missing required argument: --bib\n\n{USAGE}"));
    assert_eq!(usage(), USAGE);
}

#[test]
fn next_value_takes_the_front_argument() {
    let mut rest = args(&["a", "b"]);
    assert_eq!(next_value(&mut rest, "--bib"), Ok("a".to_string()));
    assert_eq!(rest, args(&["b"]));
    let mut none: Vec<String> = Vec::new();
    assert_eq!(next_value(&mut none, "--x"), Err(format!("missing value for --x\n\n{USAGE}")));
}

#[test]
fn citation_files_hold_one_group_per_line() {
    let input = "banks doe\n# a comment\n\n  zhang , li \r\nsolo\n";
    let groups = read_citation_groups(input, "cites.txt").unwrap();
    assert_eq!(
        groups,
        vec![vec!["banks".to_string(), "doe".to_string()], vec!["zhang".to_string(), "li".to_string()], vec!["solo".to_string()]]
    );
    assert_eq!(read_citation_groups("", "c").unwrap(), Vec::<Vec<String>>::new());
}

#[test]
fn empty_keys_are_refused_with_their_line() {
    assert_eq!(
        read_citation_groups("ok\n\na,,b\n", "cites.txt").unwrap_err(),
        "invalid citation group at cites.txt:3"
    );
    assert_eq!(read_citation_groups("a,\n", "c.txt").unwrap_err(), "invalid citation group at c.txt:1");
}

#[test]
fn a_citation_file_without_groups_fails() {
    let failure = load_citation_groups("# nothing\n\n", "c").err().unwrap();
    assert!(matches!(failure, Failure::NoCitationGroups));
    assert_eq!(failure.exit_code(), 7);
    assert_eq!(failure.message(), "citation text file does not contain any citation groups");
    let failure = load_citation_groups("a,,b", "c").err().unwrap();
    assert_eq!(failure.exit_code(), 6);
    assert_eq!(failure.message(), "invalid citation group at c:1");
    assert_eq!(load_citation_groups("x y", "c").ok().unwrap(), vec![vec!["x".to_string(), "y".to_string()]]);
}

#[test]
fn failures_have_their_exit_codes() {
    assert_eq!(Failure::Usage("u".to_string()).exit_code(), 2);
    assert_eq!(Failure::Bibliography("b".to_string()).exit_code(), 3);
    assert_eq!(Failure::Style("s".to_string()).exit_code(), 4);
    assert_eq!(Failure::Locale("l".to_string()).exit_code(), 5);
    assert_eq!(Failure::UnknownKey("k".to_string()).exit_code(), 8);
    assert_eq!(Failure::Locale("l".to_string()).message(), "l");
}

#[test]
fn bibliography_errors_name_the_file() {
    let message = parse_bibliography("@article{x,\n title = {A}\n date = {2020}\n}", "refs.bib").err().unwrap();
    assert!(message.starts_with("failed to parse bibliography `refs.bib`:\n"));
    assert!(message.len() > "failed to parse bibliography `refs.bib`:\n".len());
}

#[test]
fn unknown_keys_name_the_bibliography() {
    let library = parse_bibliography("@book{doe, author = {Doe, Jane}, title = {A Book}, date = {2020}}", "refs.bib").unwrap();
    let groups = vec![vec!["doe".to_string()], vec!["doe".to_string(), "roe".to_string()]];
    assert_eq!(
        resolve_citation_groups(&library, &groups, "refs.bib").err().unwrap(),
        "citation key `roe` was not found in `refs.bib`"
    );
    let fine = vec![vec!["doe".to_string()], vec!["doe".to_string(), "doe".to_string()]];
    let resolved = resolve_citation_groups(&library, &fine, "refs.bib").unwrap();
    assert_eq!(resolved.iter().map(|g| g.len()).collect::<Vec<_>>(), vec![1, 2]);
}

#[test]
fn a_style_report_has_its_sections() {
    let library = parse_bibliography("@book{doe, author = {Doe, Jane}, title = {A Book}, date = {2020}}", "refs.bib").unwrap();
    let groups = vec![vec!["doe".to_string()]];
    let resolved = resolve_citation_groups(&library, &groups, "refs.bib").unwrap();
    let style = read_style("apa").unwrap();
    let locales = locales_for(&None).unwrap();
    let lines = style_report(&library, &style, &None, &locales, &resolved, OutputFormat::Plain);
    assert!(lines[0].starts_with("default-locale: "));
    assert_eq!(lines[1], "-- cite --");
    assert!(lines[2].contains("Doe"));
    assert_eq!(lines[3], "-- bibliography --");
    assert_eq!(lines.len(), 5);
    assert!(lines[4].contains("A Book"));
    assert_eq!(lines[4], lines[4].trim());
}

#[test]
fn a_chosen_locale_must_be_embedded() {
    assert!(locales_for(&Some("de-DE".to_string())).is_ok());
    assert_eq!(
        locales_for(&Some("xx-YY".to_string())).err().unwrap(),
        "embedded locale not found: `xx-YY`"
    );
    assert!(!locales_for(&None).unwrap().codes().is_empty());
}
