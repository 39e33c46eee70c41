use vstd::prelude::*;

use crate::storage::{EntryView, PasswordEntry, views};
use crate::text::{chars_of, lowercase, owned, push_char, string_from_chars, to_lowercase, trim, trim_str};

verus! {

/// The layout of a file to import.
#[derive(Debug, Clone, Copy, PartialEq, Eq)]
pub enum ImportFormat {
    Csv,
    Tsv,
}

/// Why an import failed.
#[derive(Debug, Clone, PartialEq, Eq)]
pub enum ImportError {
    /// The format name is neither `csv` nor `tsv`.
    UnsupportedFormat(String),
    /// A quoted field is not closed on the given (1-based) line.
    UnclosedQuote { line: usize },
    /// The given line does not have 4 or 5 fields.
    WrongFieldCount { line: usize },
    /// The given line has an empty title.
    EmptyTitle { line: usize },
}

/// Why a single line could not be split into fields.
#[derive(Debug, Clone, Copy, PartialEq, Eq)]
pub enum LineError {
    UnclosedQuote,
}

/// The views of a sequence of strings.
pub open spec fn strs(v: Seq<String>) -> Seq<Seq<char>> {
    v.map_values(|s: String| s@)
}

/// The field separator of a format.
pub open spec fn format_delimiter(f: ImportFormat) -> char {
    match f {
        ImportFormat::Csv => ',',
        ImportFormat::Tsv => '\t',
    }
}

/// Two strings hold the same text.
pub fn same_text(a: &str, b: &str) -> (r: bool)
    ensures
        r == (a@ == b@),
{
    owned(a) == owned(b)
}

impl ImportFormat {
    /// Reads a format name: `csv` or `tsv`, exactly.
    pub fn parse(value: &str) -> (r: Result<ImportFormat, ImportError>)
        ensures
            value@ == "csv"@ ==> r == Ok::<ImportFormat, ImportError>(ImportFormat::Csv),
            value@ == "tsv"@ ==> r == Ok::<ImportFormat, ImportError>(ImportFormat::Tsv),
            value@ != "csv"@ && value@ != "tsv"@ ==> (r matches Err(ImportError::UnsupportedFormat(v)) && v@ == value@),
    {
        proof {
            reveal_strlit("csv");
            reveal_strlit("tsv");
            assert("csv"@[0] != "tsv"@[0]);
        }
        if same_text(value, "csv") {
            Ok(ImportFormat::Csv)
        } else if same_text(value, "tsv") {
            Ok(ImportFormat::Tsv)
        } else {
            Err(ImportError::UnsupportedFormat(owned(value)))
        }
    }

    /// The field separator: a comma for CSV, a tab for TSV.
    pub fn delimiter(self) -> (r: char)
        ensures
            r == format_delimiter(self),
    {
        match self {
            ImportFormat::Csv => ',',
            ImportFormat::Tsv => '\t',
        }
    }
}

/// A line without the carriage return that ends it, if any.
pub open spec fn strip_cr(s: Seq<char>) -> Seq<char> {
    if s.len() > 0 && s.last() == '\r' {
        s.drop_last()
    } else {
        s
    }
}

/// Splitting `s` into lines from position `i`, with the finished lines `done` and the
/// line being read `cur` (`str::lines`: `\n` or `\r\n` ends a line, and a final line
/// ending adds no empty line).
pub open spec fn scan_lines(s: Seq<char>, i: int, done: Seq<Seq<char>>, cur: Seq<char>) -> Seq<Seq<char>>
    decreases s.len() - i,
{
    if i >= s.len() {
        if cur.len() > 0 {
            done.push(cur)
        } else {
            done
        }
    } else if s[i] == '\n' {
        scan_lines(s, i + 1, done.push(strip_cr(cur)), Seq::empty())
    } else {
        scan_lines(s, i + 1, done, cur.push(s[i]))
    }
}

/// The lines of a text.
pub open spec fn lines_of(s: Seq<char>) -> Seq<Seq<char>> {
    scan_lines(s, 0, Seq::empty(), Seq::empty())
}

/// Splits a text into lines as `str::lines` does.
pub fn split_lines(content: &str) -> (r: Vec<String>)
    ensures
        strs(r@) == lines_of(content@),
        r@.len() <= content@.len(),
{
    let chars = chars_of(content);
    let mut done: Vec<String> = Vec::new();
    let mut cur: Vec<char> = Vec::new();
    let mut i: usize = 0;
    assert(strs(done@) =~= Seq::<Seq<char>>::empty());
    assert(cur@ =~= Seq::<char>::empty());
    while i < chars.len()
        invariant
            i <= chars.len(),
            chars@ == content@,
            lines_of(content@) == scan_lines(content@, i as int, strs(done@), cur@),
            done@.len() + (if cur@.len() > 0 { 1int } else { 0int }) <= i,
        decreases chars.len() - i,
    {
        let c = chars[i];
        if c == '\n' {
            let mut line = cur;
            if line.len() > 0 && line[line.len() - 1] == '\r' {
                line.pop();
            }
            assert(line@ == strip_cr(cur@));
            let ghost before = strs(done@);
            done.push(string_from_chars(&line));
            assert(strs(done@) =~= before.push(strip_cr(cur@)));
            cur = Vec::new();
        } else {
            cur.push(c);
        }
        i = i + 1;
    }
    if cur.len() > 0 {
        let ghost before = strs(done@);
        done.push(string_from_chars(&cur));
        assert(strs(done@) =~= before.push(cur@));
    }
    done
}

/// Reading a line's fields from position `i`: the finished fields, the field being
/// read, and whether a quoted part is open. Fails when a quote is left open.
pub open spec fn scan_fields(
    line: Seq<char>,
    d: char,
    i: int,
    fields: Seq<Seq<char>>,
    cur: Seq<char>,
    quoted: bool,
) -> Option<Seq<Seq<char>>>
    decreases line.len() - i,
{
    if i >= line.len() {
        if quoted {
            None
        } else {
            Some(fields.push(cur))
        }
    } else {
        let ch = line[i];
        if quoted {
            if ch == '"' {
                if i + 1 < line.len() && line[i + 1] == '"' {
                    scan_fields(line, d, i + 2, fields, cur.push('"'), true)
                } else {
                    scan_fields(line, d, i + 1, fields, cur, false)
                }
            } else {
                scan_fields(line, d, i + 1, fields, cur.push(ch), true)
            }
        } else if ch == '"' && cur.len() == 0 {
            scan_fields(line, d, i + 1, fields, cur, true)
        } else if ch == d {
            scan_fields(line, d, i + 1, fields.push(cur), Seq::empty(), false)
        } else {
            scan_fields(line, d, i + 1, fields, cur.push(ch), false)
        }
    }
}

/// The fields of a delimited line: a field that starts with `"` runs to the next lone
/// `"`, a doubled `""` inside it stands for one `"`.
pub open spec fn split_fields(line: Seq<char>, d: char) -> Option<Seq<Seq<char>>> {
    scan_fields(line, d, 0, Seq::empty(), Seq::empty(), false)
}

/// Splits one line into fields.
pub fn parse_delimited_line(line: &str, delimiter: char) -> (r: Result<Vec<String>, LineError>)
    ensures
        match split_fields(line@, delimiter) {
            None => r == Err::<Vec<String>, LineError>(LineError::UnclosedQuote),
            Some(fs) => r matches Ok(v) && strs(v@) == fs,
        },
{
    let chars = chars_of(line);
    let mut fields: Vec<String> = Vec::new();
    let mut current = String::new();
    let mut in_quotes = false;
    let mut i: usize = 0;
    assert(strs(fields@) =~= Seq::<Seq<char>>::empty());
    while i < chars.len()
        invariant
            i <= chars.len(),
            chars@ == line@,
            split_fields(line@, delimiter) == scan_fields(line@, delimiter, i as int, strs(fields@), current@, in_quotes),
        decreases chars.len() - i,
    {
        let ch = chars[i];
        if in_quotes {
            if ch == '"' {
                if i + 1 < chars.len() && chars[i + 1] == '"' {
                    push_char(&mut current, '"');
                    i = i + 1;
                } else {
                    in_quotes = false;
                }
            } else {
                push_char(&mut current, ch);
            }
        } else if ch == '"' && current.as_str().is_empty() {
            in_quotes = true;
        } else if ch == delimiter {
            let ghost before = strs(fields@);
            let ghost cur = current@;
            fields.push(current);
            assert(strs(fields@) =~= before.push(cur));
            current = String::new();
        } else {
            push_char(&mut current, ch);
        }
        i = i + 1;
    }
    if in_quotes {
        return Err(LineError::UnclosedQuote);
    }
    let ghost before = strs(fields@);
    let ghost cur = current@;
    fields.push(current);
    assert(strs(fields@) =~= before.push(cur));
    Ok(fields)
}

/// A field as compared with header names: trimmed and lowercased.
pub open spec fn normalized(s: Seq<char>) -> Seq<char> {
    lowercase(trim(s))
}

/// The first four fields name the columns, in English or Chinese.
pub open spec fn is_header(fields: Seq<Seq<char>>) -> bool {
    &&& fields.len() >= 4
    &&& (normalized(fields[0]) == "category"@ || normalized(fields[0]) == "分类"@)
    &&& (normalized(fields[1]) == "title"@ || normalized(fields[1]) == "name"@ || normalized(fields[1]) == "名称"@)
    &&& (normalized(fields[2]) == "username"@ || normalized(fields[2]) == "account"@ || normalized(fields[2]) == "账号"@)
    &&& (normalized(fields[3]) == "password"@ || normalized(fields[3]) == "密码"@)
}

/// Whether a row of fields is the header row.
pub fn looks_like_header(fields: &Vec<String>) -> (r: bool)
    ensures
        r == is_header(strs(fields@)),
{
    let mut norm: Vec<String> = Vec::new();
    let mut i: usize = 0;
    while i < fields.len()
        invariant
            i <= fields.len(),
            norm@.len() == i,
            forall|k: int| 0 <= k < i ==> #[trigger] norm@[k]@ == normalized(fields@[k]@),
        decreases fields.len() - i,
    {
        let t = trim_str(fields[i].as_str());
        norm.push(to_lowercase(t.as_str()));
        i = i + 1;
    }
    if norm.len() < 4 {
        return false;
    }
    let c0 = same_text(norm[0].as_str(), "category") || same_text(norm[0].as_str(), "分类");
    let c1 = same_text(norm[1].as_str(), "title") || same_text(norm[1].as_str(), "name")
        || same_text(norm[1].as_str(), "名称");
    let c2 = same_text(norm[2].as_str(), "username") || same_text(norm[2].as_str(), "account")
        || same_text(norm[2].as_str(), "账号");
    let c3 = same_text(norm[3].as_str(), "password") || same_text(norm[3].as_str(), "密码");
    c0 && c1 && c2 && c3
}

/// The category given to a record whose category is left empty.
pub open spec fn default_category() -> Seq<char> {
    "默认"@
}

/// The record a row of fields stands for, or why it is refused.
pub open spec fn row_entry(line: usize, fields: Seq<Seq<char>>) -> Result<EntryView, ImportError> {
    if fields.len() < 4 || fields.len() > 5 {
        Err(ImportError::WrongFieldCount { line })
    } else {
        let category = if trim(fields[0]).len() == 0 {
            default_category()
        } else {
            trim(fields[0])
        };
        let notes = if fields.len() == 5 {
            trim(fields[4])
        } else {
            Seq::empty()
        };
        if trim(fields[1]).len() == 0 {
            Err(ImportError::EmptyTitle { line })
        } else {
            Ok(
                EntryView {
                    category,
                    title: trim(fields[1]),
                    username: trim(fields[2]),
                    password: fields[3],
                    notes,
                },
            )
        }
    }
}

/// Turns one row into a record.
pub fn row_to_entry(line: usize, fields: &Vec<String>) -> (r: Result<PasswordEntry, ImportError>)
    ensures
        match row_entry(line, strs(fields@)) {
            Err(e) => r == Err::<PasswordEntry, ImportError>(e),
            Ok(e) => r matches Ok(v) && v@ == e,
        },
{
    if fields.len() < 4 || fields.len() > 5 {
        return Err(ImportError::WrongFieldCount { line });
    }
    let notes = if fields.len() == 5 {
        trim_str(fields[4].as_str())
    } else {
        String::new()
    };
    let mut entry = PasswordEntry {
        category: trim_str(fields[0].as_str()),
        title: trim_str(fields[1].as_str()),
        username: trim_str(fields[2].as_str()),
        password: fields[3].clone(),
        notes,
    };
    if entry.category.as_str().is_empty() {
        entry.category = owned("默认");
    }
    if entry.title.as_str().is_empty() {
        return Err(ImportError::EmptyTitle { line });
    }
    Ok(entry)
}

/// A row: its 1-based line number and its fields.
pub open spec fn row_views(rows: Seq<(usize, Vec<String>)>) -> Seq<(usize, Seq<Seq<char>>)> {
    rows.map_values(|r: (usize, Vec<String>)| (r.0, strs(r.1@)))
}

/// The non-blank lines among the first `k`, split into fields and numbered from 1;
/// fails at the first line with an open quote.
pub open spec fn collect_rows(lines: Seq<Seq<char>>, d: char, k: nat) -> Result<Seq<(usize, Seq<Seq<char>>)>, ImportError>
    decreases k,
{
    if k == 0 {
        Ok(Seq::empty())
    } else {
        match collect_rows(lines, d, (k - 1) as nat) {
            Err(e) => Err(e),
            Ok(rows) => if trim(lines[k - 1]).len() == 0 {
                Ok(rows)
            } else {
                match split_fields(lines[k - 1], d) {
                    None => Err(ImportError::UnclosedQuote { line: k as usize }),
                    Some(fs) => Ok(rows.push((k as usize, fs))),
                }
            },
        }
    }
}

/// The rows without a leading header row.
pub open spec fn data_rows(rows: Seq<(usize, Seq<Seq<char>>)>) -> Seq<(usize, Seq<Seq<char>>)> {
    if rows.len() > 0 && is_header(rows[0].1) {
        rows.drop_first()
    } else {
        rows
    }
}

/// The records of the first `k` rows; fails at the first refused row.
pub open spec fn collect_entries(rows: Seq<(usize, Seq<Seq<char>>)>, k: nat) -> Result<Seq<EntryView>, ImportError>
    decreases k,
{
    if k == 0 {
        Ok(Seq::empty())
    } else {
        match collect_entries(rows, (k - 1) as nat) {
            Err(e) => Err(e),
            Ok(es) => match row_entry(rows[k - 1].0, rows[k - 1].1) {
                Err(e) => Err(e),
                Ok(e) => Ok(es.push(e)),
            },
        }
    }
}

/// What importing `content` in the given format gives: every line is split first, then
/// a header row is dropped, then the rows become records.
pub open spec fn parsed_entries(content: Seq<char>, format: ImportFormat) -> Result<Seq<EntryView>, ImportError> {
    let lines = lines_of(content);
    match collect_rows(lines, format_delimiter(format), lines.len()) {
        Err(e) => Err(e),
        Ok(rows) => collect_entries(data_rows(rows), data_rows(rows).len()),
    }
}

proof fn lemma_collect_rows_error_stays(lines: Seq<Seq<char>>, d: char, m: nat, n: nat, e: ImportError)
    requires
        m <= n,
        collect_rows(lines, d, m) == Err::<Seq<(usize, Seq<Seq<char>>)>, ImportError>(e),
    ensures
        collect_rows(lines, d, n) == Err::<Seq<(usize, Seq<Seq<char>>)>, ImportError>(e),
    decreases n,
{
    if n > m {
        lemma_collect_rows_error_stays(lines, d, m, (n - 1) as nat, e);
    }
}

proof fn lemma_collect_entries_error_stays(rows: Seq<(usize, Seq<Seq<char>>)>, m: nat, n: nat, e: ImportError)
    requires
        m <= n,
        collect_entries(rows, m) == Err::<Seq<EntryView>, ImportError>(e),
    ensures
        collect_entries(rows, n) == Err::<Seq<EntryView>, ImportError>(e),
    decreases n,
{
    if n > m {
        lemma_collect_entries_error_stays(rows, m, (n - 1) as nat, e);
    }
}

/// Reads the records of an import file's text.
pub fn parse_entries(content: &str, format: ImportFormat) -> (r: Result<Vec<PasswordEntry>, ImportError>)
    ensures
        match parsed_entries(content@, format) {
            Err(e) => r == Err::<Vec<PasswordEntry>, ImportError>(e),
            Ok(es) => r matches Ok(v) && views(v@) == es,
        },
{
    let delimiter = format.delimiter();
    let lines = split_lines(content);
    let ghost line_views = strs(lines@);
    let mut rows: Vec<(usize, Vec<String>)> = Vec::new();
    let mut i: usize = 0;
    assert(row_views(rows@) =~= Seq::<(usize, Seq<Seq<char>>)>::empty());
    while i < lines.len()
        invariant
            i <= lines.len(),
            lines@.len() <= content@.len(),
            line_views == strs(lines@),
            line_views == lines_of(content@),
            delimiter == format_delimiter(format),
            collect_rows(line_views, delimiter, i as nat) == Ok::<Seq<(usize, Seq<Seq<char>>)>, ImportError>(row_views(rows@)),
        decreases lines.len() - i,
    {
        let line = &lines[i];
        assert(line@ == line_views[i as int]);
        let blank = trim_str(line.as_str()).as_str().is_empty();
        if !blank {
            match parse_delimited_line(line.as_str(), delimiter) {
                Ok(fields) => {
                    let ghost before = row_views(rows@);
                    rows.push((i + 1, fields));
                    assert(row_views(rows@) =~= before.push(((i + 1) as usize, strs(fields@))));
                },
                Err(_) => {
                    proof {
                        lemma_collect_rows_error_stays(
                            line_views, delimiter, (i + 1) as nat, lines@.len(),
                            ImportError::UnclosedQuote { line: (i + 1) as usize },
                        );
                    }
                    return Err(ImportError::UnclosedQuote { line: i + 1 });
                },
            }
        }
        i = i + 1;
    }
    assert(collect_rows(line_views, delimiter, line_views.len()) == Ok::<Seq<(usize, Seq<Seq<char>>)>, ImportError>(row_views(rows@)));
    let ghost all_rows = row_views(rows@);
    if rows.len() > 0 && looks_like_header(&rows[0].1) {
        assert(all_rows[0].1 == strs(rows@[0].1@));
        rows.remove(0);
        assert(row_views(rows@) =~= all_rows.drop_first());
    } else {
        assert(rows.len() > 0 ==> all_rows[0].1 == strs(rows@[0].1@));
    }
    let ghost data = row_views(rows@);
    assert(data == data_rows(all_rows));
    let mut entries: Vec<PasswordEntry> = Vec::new();
    let mut k: usize = 0;
    assert(views(entries@) =~= Seq::<EntryView>::empty());
    while k < rows.len()
        invariant
            k <= rows.len(),
            data == row_views(rows@),
            line_views == lines_of(content@),
            delimiter == format_delimiter(format),
            collect_rows(line_views, delimiter, line_views.len()) == Ok::<Seq<(usize, Seq<Seq<char>>)>, ImportError>(all_rows),
            data == data_rows(all_rows),
            collect_entries(data, k as nat) == Ok::<Seq<EntryView>, ImportError>(views(entries@)),
        decreases rows.len() - k,
    {
        let row = &rows[k];
        assert(data[k as int] == (row.0, strs(row.1@)));
        match row_to_entry(row.0, &row.1) {
            Ok(entry) => {
                let ghost before = views(entries@);
                entries.push(entry);
                assert(views(entries@) =~= before.push(entry@));
            },
            Err(e) => {
                proof {
                    assert(row_entry(data[k as int].0, data[k as int].1) == Err::<EntryView, ImportError>(e));
                    assert(collect_entries(data, (k + 1) as nat) == Err::<Seq<EntryView>, ImportError>(e));
                    lemma_collect_entries_error_stays(data, (k + 1) as nat, data.len(), e);
                }
                return Err(e);
            },
        }
        k = k + 1;
    }
    Ok(entries)
}

/// Fields written one after another with the delimiter between them.
pub open spec fn join_fields(fs: Seq<Seq<char>>, d: char) -> Seq<char>
    decreases fs.len(),
{
    if fs.len() == 0 {
        Seq::empty()
    } else if fs.len() == 1 {
        fs[0]
    } else {
        join_fields(fs.drop_last(), d).push(d) + fs.last()
    }
}

/// No field holds the delimiter.
pub open spec fn free_of(fs: Seq<Seq<char>>, d: char) -> bool {
    forall|k: int| 0 <= k < fs.len() ==> !(#[trigger] fs[k]).contains(d)
}

proof fn lemma_join_extend(fields: Seq<Seq<char>>, cur: Seq<char>, ch: char, d: char)
    ensures
        join_fields(fields.push(cur.push(ch)), d) == join_fields(fields.push(cur), d).push(ch),
{
    let a = fields.push(cur.push(ch));
    let b = fields.push(cur);
    assert(a.drop_last() =~= fields);
    assert(b.drop_last() =~= fields);
    if fields.len() == 0 {
        assert(join_fields(a, d) == cur.push(ch));
    } else {
        assert(join_fields(a, d) =~= join_fields(b, d).push(ch));
    }
}

proof fn lemma_scan_plain(line: Seq<char>, d: char, i: int, fields: Seq<Seq<char>>, cur: Seq<char>)
    requires
        0 <= i <= line.len(),
        d != '"',
        !line.contains('"'),
        free_of(fields, d),
        !cur.contains(d),
        join_fields(fields.push(cur), d) == line.take(i),
    ensures
        scan_fields(line, d, i, fields, cur, false) matches Some(fs) && join_fields(fs, d) == line
            && free_of(fs, d),
    decreases line.len() - i,
{
    if i >= line.len() {
        assert(line.take(i) =~= line);
        let fs = fields.push(cur);
        assert forall|k: int| 0 <= k < fs.len() implies !(#[trigger] fs[k]).contains(d) by {
            if k < fields.len() {
                assert(fs[k] == fields[k]);
            }
        }
    } else {
        let ch = line[i];
        assert(ch != '"') by {
            if ch == '"' {
                assert(line.contains('"'));
            }
        }
        if ch == d {
            let f2 = fields.push(cur);
            let e: Seq<char> = Seq::empty();
            assert(f2.push(e).drop_last() =~= f2);
            assert(join_fields(f2.push(e), d) =~= join_fields(f2, d).push(d));
            assert(line.take(i + 1) =~= line.take(i).push(d));
            assert forall|k: int| 0 <= k < f2.len() implies !(#[trigger] f2[k]).contains(d) by {
                if k < fields.len() {
                    assert(f2[k] == fields[k]);
                }
            }
            assert(!e.contains(d));
            lemma_scan_plain(line, d, i + 1, f2, e);
        } else {
            lemma_join_extend(fields, cur, ch, d);
            assert(line.take(i + 1) =~= line.take(i).push(ch));
            assert(!cur.push(ch).contains(d)) by {
                if cur.push(ch).contains(d) {
                    let j = choose|j: int| 0 <= j < cur.push(ch).len() && cur.push(ch)[j] == d;
                    if j < cur.len() {
                        assert(cur.contains(d));
                    }
                }
            }
            lemma_scan_plain(line, d, i + 1, fields, cur.push(ch));
        }
    }
}

/// A line without quote characters is cut exactly at its delimiters: the fields,
/// joined with the delimiter, give the line back, and none of them holds it.
pub proof fn lemma_unquoted_line_splits_at_delimiters(line: Seq<char>, d: char)
    requires
        d != '"',
        !line.contains('"'),
    ensures
        split_fields(line, d) matches Some(fs) && join_fields(fs, d) == line && free_of(fs, d),
{
    let e: Seq<Seq<char>> = Seq::empty();
    let c: Seq<char> = Seq::empty();
    assert(e.push(c).len() == 1);
    assert(join_fields(e.push(c), d) == c);
    assert(line.take(0) =~= c);
    lemma_scan_plain(line, d, 0, e, c);
}

/// A field's text with every `"` doubled.
pub open spec fn escape_quotes(v: Seq<char>) -> Seq<char>
    decreases v.len(),
{
    if v.len() == 0 {
        Seq::empty()
    } else if v[0] == '"' {
        seq!['"', '"'] + escape_quotes(v.drop_first())
    } else {
        seq![v[0]] + escape_quotes(v.drop_first())
    }
}

/// A field written in quotes, with inner quotes doubled.
pub open spec fn quote_field(v: Seq<char>) -> Seq<char> {
    seq!['"'] + escape_quotes(v) + seq!['"']
}

/// Fields written in quotes and separated by the delimiter.
pub open spec fn quoted_line(fs: Seq<Seq<char>>, d: char) -> Seq<char>
    decreases fs.len(),
{
    if fs.len() == 0 {
        Seq::empty()
    } else if fs.len() == 1 {
        quote_field(fs[0])
    } else {
        quote_field(fs[0]) + seq![d] + quoted_line(fs.drop_first(), d)
    }
}

proof fn lemma_shift_window(line: Seq<char>, i: int, a: Seq<char>, b: Seq<char>)
    requires
        0 <= i,
        i + a.len() + b.len() <= line.len(),
        line.subrange(i, i + a.len() + b.len()) == a + b,
    ensures
        line.subrange(i + a.len(), i + a.len() + b.len()) == b,
        forall|k: int| 0 <= k < a.len() ==> line[i + k] == a[k],
        a.len() > 0 ==> line[i] == a[0],
        a.len() > 1 ==> line[i + 1] == a[1],
{
    assert forall|k: int| 0 <= k < b.len() implies line.subrange(i + a.len(), i + a.len() + b.len())[k] == b[k] by {
        assert(line.subrange(i, i + a.len() + b.len())[a.len() + k] == line[i + a.len() + k]);
        assert((a + b)[a.len() + k] == b[k]);
    }
    assert(line.subrange(i + a.len(), i + a.len() + b.len()) =~= b);
    assert forall|k: int| 0 <= k < a.len() implies line[i + k] == a[k] by {
        assert(line.subrange(i, i + a.len() + b.len())[k] == line[i + k]);
        assert((a + b)[k] == a[k]);
    }
    if a.len() > 0 {
        assert(line[i + 0] == a[0]);
    }
    if a.len() > 1 {
        assert(line[i + 1] == a[1]);
    }
}

proof fn lemma_skip_parts(line: Seq<char>, i: int, a: Seq<char>, b: Seq<char>)
    requires
        0 <= i <= line.len(),
        line.skip(i) == a + b,
    ensures
        line.skip(i + a.len()) == b,
        line.subrange(i, i + a.len()) == a,
        forall|k: int| 0 <= k < a.len() ==> line[i + k] == a[k],
        a.len() > 0 ==> line[i] == a[0],
{
    assert(line.skip(i).len() == a.len() + b.len());
    assert forall|k: int| 0 <= k < a.len() implies line[i + k] == a[k] by {
        assert(line.skip(i)[k] == line[i + k]);
        assert((a + b)[k] == a[k]);
    }
    assert forall|k: int| 0 <= k < b.len() implies line.skip(i + a.len())[k] == b[k] by {
        assert(line.skip(i)[a.len() + k] == line[i + a.len() + k]);
        assert((a + b)[a.len() + k] == b[k]);
    }
    assert(line.skip(i + a.len()) =~= b);
    assert(line.subrange(i, i + a.len()) =~= a);
    if a.len() > 0 {
        assert(line[i + 0] == a[0]);
    }
}

proof fn lemma_scan_escaped(
    line: Seq<char>,
    d: char,
    i: int,
    fields: Seq<Seq<char>>,
    cur: Seq<char>,
    v: Seq<char>,
)
    requires
        0 <= i,
        i + escape_quotes(v).len() + 1 <= line.len(),
        line.subrange(i, i + escape_quotes(v).len() + 1) == escape_quotes(v) + seq!['"'],
        i + escape_quotes(v).len() + 1 == line.len() || line[i + escape_quotes(v).len() + 1] != '"',
    ensures
        scan_fields(line, d, i, fields, cur, true) == scan_fields(
            line,
            d,
            i + escape_quotes(v).len() + 1,
            fields,
            cur + v,
            false,
        ),
    decreases v.len(),
{
    let e = escape_quotes(v);
    let n = e.len() as int;
    if v.len() == 0 {
        assert(e.len() == 0);
        assert(line.subrange(i, i + 1)[0] == line[i]);
        assert((e + seq!['"'])[0] == '"');
        assert(line[i] == '"');
        assert(cur + v =~= cur);
    } else {
        let rest = v.drop_first();
        let er = escape_quotes(rest);
        if v[0] == '"' {
            assert(e == seq!['"', '"'] + er);
            assert(e + seq!['"'] =~= seq!['"', '"'] + (er + seq!['"']));
            lemma_shift_window(line, i, seq!['"', '"'], er + seq!['"']);
            assert(line[i] == '"');
            assert(line[i + 1] == '"');
            lemma_scan_escaped(line, d, i + 2, fields, cur.push('"'), rest);
            assert(cur.push('"') + rest =~= cur + v);
        } else {
            assert(e == seq![v[0]] + er);
            assert(e + seq!['"'] =~= seq![v[0]] + (er + seq!['"']));
            lemma_shift_window(line, i, seq![v[0]], er + seq!['"']);
            assert(line[i] == v[0]);
            lemma_scan_escaped(line, d, i + 1, fields, cur.push(v[0]), rest);
            assert(cur.push(v[0]) + rest =~= cur + v);
        }
    }
}

proof fn lemma_scan_quoted_fields(line: Seq<char>, d: char, i: int, fields: Seq<Seq<char>>, fs: Seq<Seq<char>>)
    requires
        d != '"',
        fs.len() > 0,
        0 <= i <= line.len(),
        line.skip(i) == quoted_line(fs, d),
    ensures
        scan_fields(line, d, i, fields, Seq::empty(), false) == Some(fields + fs),
    decreases fs.len(),
{
    let v = fs[0];
    let q = quote_field(v);
    let e = escape_quotes(v);
    let after = i + 1 + e.len() + 1;
    let empty: Seq<char> = Seq::empty();
    if fs.len() == 1 {
        assert(line.skip(i) == q);
        assert(q =~= seq!['"'] + (e + seq!['"']));
        lemma_skip_parts(line, i, seq!['"'], e + seq!['"']);
        assert(line.skip(i + 1) =~= e + seq!['"'] + Seq::<char>::empty());
        lemma_skip_parts(line, i + 1, e + seq!['"'], Seq::<char>::empty());
        assert(line.len() == after) by {
            assert(line.skip(after).len() == 0);
        }
        assert(line[i] == '"');
        lemma_scan_escaped(line, d, i + 1, fields, empty, v);
        assert(empty + v =~= v);
        assert(fields.push(v) =~= fields + fs);
    } else {
        let tail = quoted_line(fs.drop_first(), d);
        assert(line.skip(i) == q + seq![d] + tail);
        assert(q + seq![d] + tail =~= seq!['"'] + (e + seq!['"'] + (seq![d] + tail)));
        lemma_skip_parts(line, i, seq!['"'], e + seq!['"'] + (seq![d] + tail));
        lemma_skip_parts(line, i + 1, e + seq!['"'], seq![d] + tail);
        lemma_skip_parts(line, after, seq![d], tail);
        assert(line[after] == d);
        assert(line[i] == '"');
        lemma_scan_escaped(line, d, i + 1, fields, empty, v);
        assert(empty + v =~= v);
        lemma_scan_quoted_fields(line, d, after + 1, fields.push(v), fs.drop_first());
        assert(fields.push(v) + fs.drop_first() =~= fields + fs);
    }
}

/// Any field values, written in quotes with their inner quotes doubled and separated by
/// the delimiter, are read back exactly, whatever delimiters or quotes they hold.
pub proof fn lemma_quoted_fields_read_back(fs: Seq<Seq<char>>, d: char)
    requires
        d != '"',
        fs.len() > 0,
    ensures
        split_fields(quoted_line(fs, d), d) == Some(fs),
{
    let line = quoted_line(fs, d);
    assert(line.skip(0) =~= line);
    lemma_scan_quoted_fields(line, d, 0, Seq::empty(), fs);
    assert(Seq::<Seq<char>>::empty() + fs =~= fs);
}

/// A row of 4 or 5 fields with a non-blank title becomes the record whose category,
/// title, username, password and notes are fields 0, 1, 2, 3 and 4 (trimmed, except the
/// password; a blank category becomes 默认, a missing notes field empty notes); other field
/// counts and blank titles are refused with the row's line number.
pub proof fn lemma_row_fields_land_in_record(line: usize, fields: Seq<Seq<char>>)
    ensures
        fields.len() < 4 || fields.len() > 5 ==> row_entry(line, fields) == Err::<EntryView, ImportError>(
            ImportError::WrongFieldCount { line },
        ),
        4 <= fields.len() <= 5 && trim(fields[1]).len() == 0 ==> row_entry(line, fields) == Err::<
            EntryView,
            ImportError,
        >(ImportError::EmptyTitle { line }),
        4 <= fields.len() <= 5 && trim(fields[1]).len() > 0 ==> (row_entry(line, fields) matches Ok(e) && {
            &&& e.category == (if trim(fields[0]).len() == 0 { "默认"@ } else { trim(fields[0]) })
            &&& e.title == trim(fields[1])
            &&& e.username == trim(fields[2])
            &&& e.password == fields[3]
            &&& e.notes == (if fields.len() == 5 { trim(fields[4]) } else { Seq::<char>::empty() })
        }),
{
}

/// Importing a text of one non-blank line whose fields are not a header gives exactly
/// the record that row makes (or that row's error, reported at line 1).
pub proof fn lemma_single_line_import(content: Seq<char>, format: ImportFormat, fields: Seq<Seq<char>>)
    requires
        lines_of(content).len() == 1,
        trim(lines_of(content)[0]).len() > 0,
        split_fields(lines_of(content)[0], format_delimiter(format)) == Some(fields),
        !is_header(fields),
    ensures
        parsed_entries(content, format) == (match row_entry(1, fields) {
            Err(e) => Err::<Seq<EntryView>, ImportError>(e),
            Ok(e) => Ok(seq![e]),
        }),
{
    let lines = lines_of(content);
    let d = format_delimiter(format);
    assert(collect_rows(lines, d, 0) == Ok::<Seq<(usize, Seq<Seq<char>>)>, ImportError>(Seq::empty()));
    let rows = Seq::<(usize, Seq<Seq<char>>)>::empty().push((1usize, fields));
    assert(collect_rows(lines, d, 1) == Ok::<Seq<(usize, Seq<Seq<char>>)>, ImportError>(rows));
    assert(data_rows(rows) == rows);
    assert(collect_entries(rows, 0) == Ok::<Seq<EntryView>, ImportError>(Seq::empty()));
    match row_entry(1, fields) {
        Err(e) => {},
        Ok(e) => {
            assert(Seq::<EntryView>::empty().push(e) =~= seq![e]);
        },
    }
}

} // verus!
