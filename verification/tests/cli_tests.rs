use walletui::cli::{
    combine_entries, normalize_master_key, parse_command, parse_import_args, CliError, Command, ImportCommand,
};
use walletui::import::ImportFormat;
use walletui::storage::PasswordEntry;

fn args(items: &[&str]) -> Vec<String> {
    items.iter().map(|s| s.to_string()).collect()
}

#[test]
fn first_argument_selects_command() {
    assert_eq!(parse_command(&args(&[])), Command::Interactive);
    assert_eq!(parse_command(&args(&["-h"])), Command::Help);
    assert_eq!(parse_command(&args(&["--help", "x"])), Command::Help);
    assert_eq!(parse_command(&args(&["import", "a.csv"])), Command::Import(args(&["a.csv"])));
    assert_eq!(parse_command(&args(&["other"])), Command::Interactive);
}

#[test]
fn import_arguments() {
    assert_eq!(
        parse_import_args(&args(&["a.tsv", "--format", "tsv", "--replace"])),
        Ok(ImportCommand::Run { path: "a.tsv".into(), format: ImportFormat::Tsv, replace: true })
    );
    assert_eq!(
        parse_import_args(&args(&["a.csv"])),
        Ok(ImportCommand::Run { path: "a.csv".into(), format: ImportFormat::Csv, replace: false })
    );
    assert_eq!(parse_import_args(&args(&["--format"])), Err(CliError::MissingFormatValue));
    assert_eq!(
        parse_import_args(&args(&["--format", "xls"])),
        Err(CliError::UnsupportedFormat("xls".into()))
    );
    assert_eq!(parse_import_args(&args(&["-x"])), Err(CliError::UnknownOption("-x".into())));
    assert_eq!(parse_import_args(&args(&["a", "b"])), Err(CliError::TooManyPaths));
    assert_eq!(parse_import_args(&args(&["--replace"])), Err(CliError::MissingPath));
    assert_eq!(parse_import_args(&args(&["a", "b", "-h"])), Err(CliError::TooManyPaths));
    assert_eq!(parse_import_args(&args(&["a", "-h", "b", "c"])), Ok(ImportCommand::Help));
}

#[test]
fn master_key_loses_trailing_line_breaks() {
    assert_eq!(normalize_master_key("pw\r\n"), Some("pw".to_string()));
    assert_eq!(normalize_master_key(" pw \n\n"), Some(" pw ".to_string()));
    assert_eq!(normalize_master_key("\r\n"), None);
    assert_eq!(normalize_master_key(""), None);
}

#[test]
fn imported_records_follow_existing_ones() {
    let a = PasswordEntry { title: "a".into(), ..PasswordEntry::default() };
    let b = PasswordEntry { title: "b".into(), ..PasswordEntry::default() };
    let (all, added) = combine_entries(vec![a.clone()], vec![b.clone(), b.clone()]);
    assert_eq!(all, vec![a, b.clone(), b]);
    assert_eq!(added, 2);
}
