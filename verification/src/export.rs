use vstd::prelude::*;
use vstd::string::{StringExecFns, StrSliceExecFns};
use crate::rows::GradingScaleTableRowData;
use crate::text::{dec_digits, points_text};

verus! {

/// The index of the last occurrence of `c` in `s`, or `-1`.
pub open spec fn rfind_char(s: Seq<char>, c: char) -> int
    decreases s.len(),
{
    if s.len() == 0 {
        -1
    } else if s.last() == c {
        s.len() - 1
    } else {
        rfind_char(s.drop_last(), c)
    }
}

/// `rfind_char` returns the position of the last occurrence.
proof fn lemma_rfind_char_at(s: Seq<char>, c: char, j: int)
    requires
        0 <= j < s.len(),
        s[j] == c,
        forall|k: int| j < k < s.len() ==> s[k] != c,
    ensures
        rfind_char(s, c) == j,
    decreases s.len(),
{
    if j < s.len() - 1 {
        lemma_rfind_char_at(s.drop_last(), c, j);
    }
}

/// `rfind_char` reports absence as `-1`.
proof fn lemma_rfind_char_missing(s: Seq<char>, c: char)
    requires
        forall|k: int| 0 <= k < s.len() ==> s[k] != c,
    ensures
        rfind_char(s, c) == -1,
    decreases s.len(),
{
    if s.len() > 0 {
        lemma_rfind_char_missing(s.drop_last(), c);
    }
}

/// The extension of a path: what follows the last dot of the file
/// name (the part after the last slash), unless that dot begins the
/// name; `None` otherwise.
pub open spec fn file_extension(path: Seq<char>) -> Option<Seq<char>> {
    let name = path.skip(rfind_char(path, '/') + 1);
    let dot = rfind_char(name, '.');
    if dot <= 0 {
        None
    } else {
        Some(name.skip(dot + 1))
    }
}

/// The display cells of one scale row: grade number, band minimum,
/// band maximum, and the percentage with a percent sign.
pub open spec fn row_cells(row: GradingScaleTableRowData) -> Seq<Seq<char>> {
    seq![
        dec_digits(row.grade as nat),
        points_text(row.min.halves()),
        points_text(row.max.halves()),
        dec_digits(row.pct as nat).push('%'),
    ]
}

/// One line of the delimited export: the cells joined by commas.
pub open spec fn csv_line(row: GradingScaleTableRowData) -> Seq<char> {
    row_cells(row)[0] + seq![','] + row_cells(row)[1] + seq![','] + row_cells(row)[2] + seq![',']
        + row_cells(row)[3] + seq!['\n']
}

/// The whole delimited export: one line per row, no header.
pub open spec fn scale_csv_text(rows: Seq<GradingScaleTableRowData>) -> Seq<char>
    decreases rows.len(),
{
    if rows.len() == 0 {
        Seq::empty()
    } else {
        scale_csv_text(rows.drop_last()) + csv_line(rows.last())
    }
}

/// One line of the key-value export: the grade number as the key, the
/// band and percentage as a quoted tuple.
pub open spec fn toml_line(row: GradingScaleTableRowData) -> Seq<char> {
    row_cells(row)[0] + " = \"("@ + row_cells(row)[1] + seq![','] + row_cells(row)[2] + seq![',']
        + row_cells(row)[3] + ")\"\n"@
}

/// The whole key-value export: one line per row, keys in grade order.
pub open spec fn scale_toml_text(rows: Seq<GradingScaleTableRowData>) -> Seq<char>
    decreases rows.len(),
{
    if rows.len() == 0 {
        Seq::empty()
    } else {
        scale_toml_text(rows.drop_last()) + toml_line(rows.last())
    }
}

/// An export failure; `msg` spells it out.
#[derive(Debug, Clone, PartialEq)]
pub struct ExportError {
    details: String,
}

impl ExportError {
    /// The failure text.
    pub closed spec fn spec_msg(&self) -> Seq<char> {
        self.details@
    }

    pub fn msg(&self) -> (r: String)
        ensures
            r@ == self.spec_msg(),
    {
        self.details.clone()
    }
}

/// What an export produces, ready for a destination: delimited text,
/// key-value text, or a grid of worksheet cells.
#[derive(Debug, Clone)]
pub enum ExportContent {
    Csv(String),
    Toml(String),
    Xlsx(Vec<[String; 4]>),
}

/// Renders scale rows as delimited text.
pub struct CsvExporter;

/// Renders scale rows as key-value text.
pub struct TomlExporter;

/// Renders scale rows as a worksheet cell grid.
pub struct XlsxExporter;

impl CsvExporter {
    /// The delimited text for the rows: their cells joined by commas,
    /// one line per row.
    pub fn export(data: &Vec<GradingScaleTableRowData>) -> (r: String)
        ensures
            r@ == scale_csv_text(data@),
    {
        let mut out = String::new();
        let mut i: usize = 0;
        while i < data.len()
            invariant
                i <= data@.len(),
                out@ == scale_csv_text(data@.take(i as int)),
            decreases data@.len() - i,
        {
            let cells = data[i].as_str_array();
            out.append(cells[0].as_str());
            out.append(",");
            out.append(cells[1].as_str());
            out.append(",");
            out.append(cells[2].as_str());
            out.append(",");
            out.append(cells[3].as_str());
            out.append("\n");
            proof {
                reveal_strlit(",");
                reveal_strlit("\n");
                let t = data@.take(i + 1);
                assert(t.drop_last() =~= data@.take(i as int));
                assert(t.last() == data@[i as int]);
                assert(","@ =~= seq![',']);
                assert("\n"@ =~= seq!['\n']);
                assert(out@ =~= scale_csv_text(t));
            }
            i += 1;
        }
        proof {
            assert(data@.take(data@.len() as int) =~= data@);
        }
        out
    }
}

impl TomlExporter {
    /// The key-value text for the rows: `grade = "(min,max,pct)"`
    /// lines in grade order.
    pub fn export(data: &Vec<GradingScaleTableRowData>) -> (r: String)
        ensures
            r@ == scale_toml_text(data@),
    {
        let mut out = String::new();
        let mut i: usize = 0;
        while i < data.len()
            invariant
                i <= data@.len(),
                out@ == scale_toml_text(data@.take(i as int)),
            decreases data@.len() - i,
        {
            let cells = data[i].as_str_array();
            out.append(cells[0].as_str());
            out.append(" = \"(");
            out.append(cells[1].as_str());
            out.append(",");
            out.append(cells[2].as_str());
            out.append(",");
            out.append(cells[3].as_str());
            out.append(")\"\n");
            proof {
                reveal_strlit(",");
                let t = data@.take(i + 1);
                assert(t.drop_last() =~= data@.take(i as int));
                assert(t.last() == data@[i as int]);
                assert(","@ =~= seq![',']);
                assert(out@ =~= scale_toml_text(t));
            }
            i += 1;
        }
        proof {
            assert(data@.take(data@.len() as int) =~= data@);
        }
        out
    }
}

impl XlsxExporter {
    /// The worksheet cells for the rows: a `Note`/`min`/`max`/`%`
    /// header line, then one line of cells per row.
    pub fn export(data: &Vec<GradingScaleTableRowData>) -> (r: Vec<[String; 4]>)
        ensures
            r@.len() == data@.len() + 1,
            r@[0]@[0]@ == "Note"@ && r@[0]@[1]@ == "min"@ && r@[0]@[2]@ == "max"@ && r@[0]@[3]@
                == "%"@,
            forall|i: int| 0 <= i < data@.len() ==> {
                let cells = #[trigger] r@[i + 1]@;
                &&& cells[0]@ == row_cells(data@[i])[0]
                &&& cells[1]@ == row_cells(data@[i])[1]
                &&& cells[2]@ == row_cells(data@[i])[2]
                &&& cells[3]@ == row_cells(data@[i])[3]
            },
    {
        let mut out: Vec<[String; 4]> = Vec::new();
        let header = [
            String::from_str("Note"),
            String::from_str("min"),
            String::from_str("max"),
            String::from_str("%"),
        ];
        out.push(header);
        let mut i: usize = 0;
        while i < data.len()
            invariant
                i <= data@.len(),
                out@.len() == i + 1,
                out@[0]@[0]@ == "Note"@ && out@[0]@[1]@ == "min"@ && out@[0]@[2]@ == "max"@
                    && out@[0]@[3]@ == "%"@,
                forall|j: int| 0 <= j < i ==> {
                    let cells = #[trigger] out@[j + 1]@;
                    &&& cells[0]@ == row_cells(data@[j])[0]
                    &&& cells[1]@ == row_cells(data@[j])[1]
                    &&& cells[2]@ == row_cells(data@[j])[2]
                    &&& cells[3]@ == row_cells(data@[j])[3]
                },
            decreases data@.len() - i,
        {
            out.push(data[i].as_str_array());
            i += 1;
        }
        out
    }
}

/// Renders the rows for the destination the path asks for, chosen by
/// its extension; any other extension is not supported.
pub fn export(path: &str, data: &Vec<GradingScaleTableRowData>) -> (r: Result<
    ExportContent,
    ExportError,
>)
    ensures
        ({
            let ext = file_extension(path@);
            match r {
                Ok(c) => match c {
                    ExportContent::Csv(text) => ext == Some("csv"@) && text@ == scale_csv_text(
                        data@,
                    ),
                    ExportContent::Toml(text) => ext == Some("toml"@) && text@ == scale_toml_text(
                        data@,
                    ),
                    ExportContent::Xlsx(rows) => ext == Some("xlsx"@) && rows@.len() == data@.len()
                        + 1 && rows@[0]@[0]@ == "Note"@ && forall|i: int| 0 <= i < data@.len()
                        ==> (#[trigger] rows@[i + 1]@)[0]@ == row_cells(data@[i])[0]
                            && rows@[i + 1]@[1]@ == row_cells(data@[i])[1]
                            && rows@[i + 1]@[2]@ == row_cells(data@[i])[2]
                            && rows@[i + 1]@[3]@ == row_cells(data@[i])[3],
                },
                Err(e) => ext != Some("csv"@) && ext != Some("toml"@) && ext != Some("xlsx"@)
                    && e.spec_msg() == "File type not supported."@,
            }
        }),
{
    let len = path.unicode_len();
    // the file name begins after the last slash
    let mut name_start: usize = 0;
    let mut k: usize = 0;
    while k < len
        invariant
            k <= len == path@.len(),
            name_start <= k,
            name_start > 0 ==> path@[name_start - 1] == '/',
            forall|m: int| name_start <= m < k ==> path@[m] != '/',
        decreases len - k,
    {
        if path.get_char(k) == '/' {
            name_start = k + 1;
        }
        k += 1;
    }
    proof {
        if name_start > 0 {
            lemma_rfind_char_at(path@, '/', name_start - 1);
        } else {
            lemma_rfind_char_missing(path@, '/');
        }
    }
    let ghost name = path@.skip(rfind_char(path@, '/') + 1);
    proof {
        assert(name =~= path@.subrange(name_start as int, len as int));
    }
    // the extension begins after the last dot of the name
    let mut dot: usize = name_start;
    let mut k2: usize = name_start;
    while k2 < len
        invariant
            name_start <= k2 <= len == path@.len(),
            name_start <= dot <= k2,
            dot > name_start ==> path@[dot - 1] == '.',
            forall|m: int| dot <= m < k2 ==> path@[m] != '.',
            dot == name_start ==> forall|m: int| name_start <= m < k2 ==> path@[m] != '.',
        decreases len - k2,
    {
        if path.get_char(k2) == '.' {
            dot = k2 + 1;
        }
        k2 += 1;
    }
    let unsupported = ExportError {
        details: String::from_str("File type not supported."),
    };
    proof {
        if dot > name_start {
            assert(name[dot - 1 - name_start] == path@[dot - 1]);
            assert forall|m: int| dot - name_start <= m < name.len() implies name[m] != '.' by {
                assert(name[m] == path@[name_start + m]);
            }
            lemma_rfind_char_at(name, '.', dot - 1 - name_start);
        } else {
            assert forall|m: int| 0 <= m < name.len() implies name[m] != '.' by {
                assert(name[m] == path@[name_start + m]);
            }
            lemma_rfind_char_missing(name, '.');
        }
    }
    if dot == name_start || dot == name_start + 1 {
        // no dot in the name, or a dot that begins it: no extension
        return Err(unsupported);
    }
    proof {
        assert(file_extension(path@) == Some(name.skip(dot - name_start as int)));
        assert(name.skip(dot - name_start as int) =~= path@.subrange(dot as int, len as int));
    }
    if crate::text::region_matches(path, dot, len, "csv") {
        Ok(ExportContent::Csv(CsvExporter::export(data)))
    } else if crate::text::region_matches(path, dot, len, "toml") {
        Ok(ExportContent::Toml(TomlExporter::export(data)))
    } else if crate::text::region_matches(path, dot, len, "xlsx") {
        Ok(ExportContent::Xlsx(XlsxExporter::export(data)))
    } else {
        Err(unsupported)
    }
}

} // verus!
