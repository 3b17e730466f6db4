use rustcc::cli::{parse_args, usage_text, Args, CliError, CompilationMode};

fn args(v: Vec<&str>) -> Vec<String> {
    v.into_iter().map(|s| s.to_string()).collect()
}

#[test]
fn main_no_args() {
    let parsed = parse_args(args(vec![""]));
    assert_eq!(parsed, Err(CliError::NoFileArg));
}

#[test]
fn main_one_arg() {
    let file = "Cargo.toml";
    let parsed = parse_args(args(vec!["", file]));
    assert_eq!(
        parsed,
        Ok(Args { file: file.to_string(), mode: CompilationMode::Full })
    );
}

#[test]
fn main_flag_with_no_file() {
    let parsed = parse_args(args(vec!["", "--lex"]));
    assert_eq!(parsed, Err(CliError::NoFileArg));
}

#[test]
fn main_flag_with_file() {
    let file = "Cargo.toml";
    let parsed = parse_args(args(vec!["", file, "--lex"]));
    assert_eq!(
        parsed,
        Ok(Args { file: file.to_string(), mode: CompilationMode::Lex })
    );
}

#[test]
fn main_flag_with_file_order_shouldnt_matter() {
    let file = "Cargo.toml";
    assert_eq!(
        parse_args(args(vec!["", file, "--lex"])),
        parse_args(args(vec!["", "--lex", file]))
    );
}

#[test]
fn every_flag_selects_its_mode() {
    let cases = [
        ("--lex", CompilationMode::Lex),
        ("--parse", CompilationMode::Parse),
        ("--tacky", CompilationMode::Tacky),
        ("--codegen", CompilationMode::Codegen),
        ("-S", CompilationMode::NakedAssembly),
        ("--full", CompilationMode::Full),
    ];
    for (flag, mode) in cases {
        assert_eq!(parse_args(args(vec!["cc", "a.c", flag])).unwrap().mode, mode);
    }
}

#[test]
fn first_flag_and_first_file_win() {
    let parsed = parse_args(args(vec!["cc", "-S", "a.c", "--lex", "b.c"])).unwrap();
    assert_eq!(parsed, Args { file: "a.c".to_string(), mode: CompilationMode::NakedAssembly });
}

#[test]
fn empty_command_line_has_no_file() {
    assert_eq!(parse_args(Vec::new()), Err(CliError::NoFileArg));
    assert_eq!(CliError::NoFileArg.message(), "No file was provided");
    assert_eq!(CliError::NoSuchFile.message(), "File doesn't exist");
    assert!(usage_text().starts_with("Usage:\n"));
}
