use te::help_parser::{parse_help_output, Argument};

fn one(help: &str) -> Argument {
    let args = parse_help_output(help);
    assert_eq!(args.len(), 1, "expected one flag in {:?}", help);
    args[0].clone()
}

#[test]
fn test_parse_basic_options() {
    let help = r#"
Usage: mycommand [OPTIONS]

Options:
  -h, --help       Print help
  -v, --verbose    Enable verbose output
  --output <FILE>  Output file path
  --count [NUM]    Number of items
        "#;

    let args = parse_help_output(help);
    assert!(args.len() >= 2);

    let verbose = args.iter().find(|a| a.name == "--verbose");
    assert!(verbose.is_some());
    assert!(!verbose.unwrap().takes_value);
}

#[test]
fn test_parse_with_values() {
    let help = r#"
Options:
  --input <FILE>   Input file (required)
  --config [CFG]   Config file (optional)
        "#;

    let args = parse_help_output(help);

    let input = args.iter().find(|a| a.name == "--input");
    assert!(input.is_some());
    assert!(input.unwrap().takes_value);
    assert!(input.unwrap().required);

    let config = args.iter().find(|a| a.name == "--config");
    assert!(config.is_some());
    assert!(config.unwrap().takes_value);
    assert!(!config.unwrap().required);
}

#[test]
fn short_and_long_flag_keeps_the_second() {
    let a = one("  -h, --help       Print help");
    assert_eq!(a.name, "--help");
    assert_eq!(a.description, "Print help");
    assert!(!a.takes_value);
    assert!(!a.required);
}

#[test]
fn angle_placeholder_is_required() {
    let a = one("  --output <FILE>  Output file path");
    assert_eq!(a.name, "--output");
    assert_eq!(a.description, "Output file path");
    assert!(a.takes_value);
    assert!(a.required);
}

#[test]
fn square_placeholder_is_optional() {
    let a = one("  --count [NUM]    Number of items");
    assert_eq!(a.name, "--count");
    assert_eq!(a.description, "Number of items");
    assert!(a.takes_value);
    assert!(!a.required);
}

#[test]
fn full_help_text_in_line_order() {
    let help = "Usage: mycommand [OPTIONS]\n\nOptions:\n  -h, --help       Print help\n  -v, --verbose    Enable verbose output\n  --output <FILE>  Output file path\n  --count [NUM]    Number of items\n";
    let args = parse_help_output(help);
    let names: Vec<&str> = args.iter().map(|a| a.name.as_str()).collect();
    assert_eq!(names, vec!["--help", "--verbose", "--output", "--count"]);
    assert_eq!(args[1].description, "Enable verbose output");
}

#[test]
fn empty_text_gives_no_flags() {
    assert!(parse_help_output("").is_empty());
    assert!(parse_help_output("\n\n").is_empty());
    assert!(parse_help_output("Usage: tool [OPTIONS]\nno flags here").is_empty());
}

#[test]
fn lone_short_flag_is_kept() {
    let a = one("  -v    Verbose");
    assert_eq!(a.name, "-v");
    assert_eq!(a.description, "Verbose");
}

#[test]
fn line_without_description_is_skipped() {
    assert!(parse_help_output("  -h, --help").is_empty());
    assert!(parse_help_output("  --verbose     ").is_empty());
    assert!(parse_help_output("  --verbose").is_empty());
}

#[test]
fn short_flag_followed_by_letters_is_skipped() {
    assert!(parse_help_output("  -ab   Not a flag").is_empty());
}

#[test]
fn second_flag_without_description_falls_back_to_first() {
    let a = one("  -v -x");
    assert_eq!(a.name, "-v");
    assert_eq!(a.description, "-x");
}

#[test]
fn placeholder_without_description_becomes_the_description() {
    let a = one("  --output <FILE>");
    assert_eq!(a.name, "--output");
    assert_eq!(a.description, "<FILE>");
    assert!(!a.takes_value);
    assert!(!a.required);
}

#[test]
fn empty_placeholder_is_not_a_placeholder() {
    let a = one("  --output <>  Output");
    assert_eq!(a.description, "<>  Output");
    assert!(!a.takes_value);
}

#[test]
fn second_flag_may_be_short() {
    let a = one("  --all, -a   Everything");
    assert_eq!(a.name, "-a");
}

#[test]
fn description_is_trimmed_and_line_breaks_split() {
    let args = parse_help_output("  --count [NUM]    Number of items  \r\n\t--dry-run\tDo nothing\n");
    assert_eq!(args.len(), 2);
    assert_eq!(args[0].description, "Number of items");
    assert_eq!(args[1].name, "--dry-run");
    assert_eq!(args[1].description, "Do nothing");
}

#[test]
fn duplicate_flags_are_kept() {
    let args = parse_help_output("  --x  one\n  --x  two\n");
    assert_eq!(args.len(), 2);
    assert_eq!(args[0].name, "--x");
    assert_eq!(args[1].name, "--x");
    assert_eq!(args[1].description, "two");
}

#[test]
fn agrees_with_the_pattern_on_well_formed_help() {
    let pattern = regex::Regex::new(
        r"(?m)^\s*(-[a-zA-Z]|--[\w-]+)(?:[\s,]+(-[a-zA-Z]|--[\w-]+))?(?:\s+<([^>]+)>|\s+\[([^\]]+)\])?\s+(.+?)$",
    )
    .unwrap();
    let help = "Usage: tool [OPTIONS] <PATH>\n\nOptions:\n  -h, --help          Print help\n  -V, --version       Print version\n  -o, --output <FILE> Where to write\n  --depth [N]         How deep to go\n  -q                  Quiet\n      --no-color      Plain output\n";
    let ours = parse_help_output(help);
    let theirs: Vec<(String, String, bool, bool)> = pattern
        .captures_iter(help)
        .map(|c| {
            let name = c.get(2).or_else(|| c.get(1)).unwrap().as_str().to_string();
            let description = c.get(5).unwrap().as_str().trim().to_string();
            (name, description, c.get(3).is_some(), c.get(3).is_some() || c.get(4).is_some())
        })
        .collect();
    let ours: Vec<(String, String, bool, bool)> = ours
        .into_iter()
        .map(|a| (a.name, a.description, a.required, a.takes_value))
        .collect();
    assert_eq!(ours.len(), 6);
    assert_eq!(ours, theirs);
}
