use walletui::import::{
    looks_like_header, parse_delimited_line, parse_entries, row_to_entry, split_lines, ImportError,
    ImportFormat, LineError,
};

#[test]
fn parses_csv_with_header_and_quotes() {
    let input = "category,title,username,password,notes\nwork,GitHub,alice,\"s,ecret\",\"has \"\"2fa\"\"\"\n";
    let entries = parse_entries(input, ImportFormat::Csv).unwrap();
    assert_eq!(entries.len(), 1);
    assert_eq!(entries[0].title, "GitHub");
    assert_eq!(entries[0].password, "s,ecret");
    assert_eq!(entries[0].notes, "has \"2fa\"");
}

#[test]
fn parses_tsv_without_notes() {
    let input = "bank\tCard\tbob\tpin\n";
    let entries = parse_entries(input, ImportFormat::Tsv).unwrap();
    assert_eq!(entries[0].category, "bank");
    assert_eq!(entries[0].notes, "");
}

#[test]
fn format_names_and_delimiters() {
    assert_eq!(ImportFormat::parse("csv").unwrap(), ImportFormat::Csv);
    assert_eq!(ImportFormat::parse("tsv").unwrap(), ImportFormat::Tsv);
    assert_eq!(
        ImportFormat::parse("CSV"),
        Err(ImportError::UnsupportedFormat("CSV".to_string()))
    );
    assert_eq!(ImportFormat::Csv.delimiter(), ',');
    assert_eq!(ImportFormat::Tsv.delimiter(), '\t');
}

#[test]
fn chinese_header_is_skipped_and_blank_lines_ignored() {
    let input = " 分类 ,名称,账号,密码\r\n\n   \nwork,Mail,me,pw,\r\n";
    let entries = parse_entries(input, ImportFormat::Csv).unwrap();
    assert_eq!(entries.len(), 1);
    assert_eq!(entries[0].title, "Mail");
    assert_eq!(entries[0].notes, "");
}

#[test]
fn empty_category_becomes_default() {
    let entries = parse_entries(" ,Site,u,p", ImportFormat::Csv).unwrap();
    assert_eq!(entries[0].category, "默认");
    assert_eq!(entries[0].password, "p");
}

#[test]
fn errors_carry_line_numbers() {
    assert_eq!(
        parse_entries("a,b,c\n", ImportFormat::Csv),
        Err(ImportError::WrongFieldCount { line: 1 })
    );
    assert_eq!(
        parse_entries("a,b,c,d\n\na, ,c,d\n", ImportFormat::Csv),
        Err(ImportError::EmptyTitle { line: 3 })
    );
    assert_eq!(
        parse_entries("a,b,c,d,e,f\nx,\"open,c,d\n", ImportFormat::Csv),
        Err(ImportError::UnclosedQuote { line: 2 })
    );
    assert_eq!(parse_entries("", ImportFormat::Csv).unwrap().len(), 0);
}

#[test]
fn line_splitting_follows_quotes() {
    assert_eq!(parse_delimited_line("a,,b", ','), Ok(vec!["a".to_string(), String::new(), "b".to_string()]));
    assert_eq!(parse_delimited_line("", ','), Ok(vec![String::new()]));
    assert_eq!(parse_delimited_line("x\"y,z", ','), Ok(vec!["x\"y".to_string(), "z".to_string()]));
    assert_eq!(parse_delimited_line("\"a\"b,c", ','), Ok(vec!["ab".to_string(), "c".to_string()]));
    assert_eq!(parse_delimited_line("\"a", ','), Err(LineError::UnclosedQuote));
    assert_eq!(parse_delimited_line("a\tb,c", '\t'), Ok(vec!["a".to_string(), "b,c".to_string()]));
}

#[test]
fn lines_like_std() {
    for text in ["", "a", "a\n", "a\nb", "a\r\nb\r\n", "\n\n", "a\r", "a\rb\n"] {
        let expected: Vec<String> = text.lines().map(|l| l.to_string()).collect();
        assert_eq!(split_lines(text), expected, "{:?}", text);
    }
}

#[test]
fn header_and_rows() {
    let header: Vec<String> = ["Category", "NAME", "account", "Password"].iter().map(|s| s.to_string()).collect();
    assert!(looks_like_header(&header));
    let short: Vec<String> = ["category", "title", "username"].iter().map(|s| s.to_string()).collect();
    assert!(!looks_like_header(&short));
    let row: Vec<String> = ["w", "t", "u", "p", " n "].iter().map(|s| s.to_string()).collect();
    let e = row_to_entry(4, &row).unwrap();
    assert_eq!(e.notes, "n");
    let long: Vec<String> = ["1", "2", "3", "4", "5", "6"].iter().map(|s| s.to_string()).collect();
    assert_eq!(row_to_entry(7, &long), Err(ImportError::WrongFieldCount { line: 7 }));
}

#[test]
fn quoted_fields_read_back_exactly() {
    let line = "\"a,b\",\"c\"\"d\",\"\",\"\t\"";
    assert_eq!(
        parse_delimited_line(line, ','),
        Ok(vec!["a,b".to_string(), "c\"d".to_string(), String::new(), "\t".to_string()])
    );
    assert_eq!(
        parse_delimited_line("\"x\ty\"\t\"\"\"\"", '\t'),
        Ok(vec!["x\ty".to_string(), "\"".to_string()])
    );
}
