//! Settings, export formats, date formats and the plain records the app stores.

use vstd::prelude::*;
use crate::text::{chars_of, owned, push_char, str_eq, string_of};

verus! {

/// The default date format name, `YYYY-MM-DD`.
pub fn default_date_format() -> (s: String)
    ensures
        s@ == "YYYY-MM-DD"@,
{
    owned("YYYY-MM-DD")
}

/// Persistent user settings.
#[derive(Clone, Debug, PartialEq)]
pub struct Settings {
    pub export_folder: String,
    pub export_format: String,
    pub template_folder: String,
    pub date_format: String,
    pub padding_columns: u32,
}

impl Default for Settings {
    /// Empty folders, CSV export, `YYYY-MM-DD` dates and no padding columns.
    fn default() -> (s: Self)
        ensures
            s.export_folder@ == Seq::<char>::empty(),
            s.export_format@ == "csv"@,
            s.template_folder@ == Seq::<char>::empty(),
            s.date_format@ == "YYYY-MM-DD"@,
            s.padding_columns == 0,
    {
        Settings {
            export_folder: String::new(),
            export_format: owned("csv"),
            template_folder: String::new(),
            date_format: default_date_format(),
            padding_columns: 0,
        }
    }
}

/// A named category together with the values it may take.
#[derive(Clone, Debug, PartialEq)]
pub struct CategoryDefinition {
    pub name: String,
    pub values: Vec<String>,
}

/// A saved set of category/value pairs, stored as a template file.
#[derive(Clone, Debug, PartialEq)]
pub struct Template {
    pub name: String,
    pub categories: Vec<(String, String)>,
}

/// A template as a template listing hands it over: its name and its pairs.
#[derive(Clone, Debug, PartialEq)]
pub struct TemplateData {
    pub name: String,
    pub categories: Vec<(String, String)>,
}

/// The pages of the application: home, settings, workday registration,
/// template maker and category manager.
#[derive(Clone, Copy, Debug, PartialEq, Eq, Structural)]
pub enum AppPage {
    Home,
    Settings,
    RegisterWorkday,
    TemplateMaker,
    CategoryManager,
}

/// The file format of an export.
#[derive(Clone, Copy, Debug, PartialEq, Eq, Structural)]
pub enum ExportFormat {
    Csv,
    Xlsx,
}

/// The name under which an export format is stored in the settings.
pub open spec fn export_format_name(f: ExportFormat) -> Seq<char> {
    match f {
        ExportFormat::Csv => "csv"@,
        ExportFormat::Xlsx => "xlsx"@,
    }
}

/// The export format a stored name selects: `xlsx` selects XLSX, anything else CSV.
pub open spec fn export_format_from_name(s: Seq<char>) -> ExportFormat {
    if s == "xlsx"@ {
        ExportFormat::Xlsx
    } else {
        ExportFormat::Csv
    }
}

impl ExportFormat {
    /// The stored name of this format.
    pub fn as_str(&self) -> (r: &'static str)
        ensures
            r@ == export_format_name(*self),
    {
        match self {
            ExportFormat::Csv => "csv",
            ExportFormat::Xlsx => "xlsx",
        }
    }

    /// Reads a stored format name; any name other than `xlsx` gives CSV.
    pub fn from_str(s: &str) -> (r: Self)
        ensures
            r == export_format_from_name(s@),
    {
        if str_eq(s, "xlsx") {
            ExportFormat::Xlsx
        } else {
            ExportFormat::Csv
        }
    }
}

impl Default for ExportFormat {
    /// CSV.
    fn default() -> (r: Self)
        ensures
            r == ExportFormat::Csv,
    {
        ExportFormat::Csv
    }
}

impl std::str::FromStr for ExportFormat {
    type Err = ();

    /// Never fails; the format is `ExportFormat::from_str(s)`.
    fn from_str(s: &str) -> Result<ExportFormat, ()>
        returns
            Ok::<ExportFormat, ()>(export_format_from_name(s@)),
    {
        Ok(ExportFormat::from_str(s))
    }
}

/// The date layouts an export can use.
#[derive(Clone, Copy, Debug, PartialEq, Eq, Structural)]
pub enum DateFormat {
    YyyyMmDd,
    YyyyDotMmDotDd,
    DdMmYyyy,
    DdDotMmDotYyyy,
}

/// The stored name of a date format.
pub open spec fn date_format_name(f: DateFormat) -> Seq<char> {
    match f {
        DateFormat::YyyyMmDd => "YYYY-MM-DD"@,
        DateFormat::YyyyDotMmDotDd => "YYYY.MM.DD"@,
        DateFormat::DdMmYyyy => "DD-MM-YYYY"@,
        DateFormat::DdDotMmDotYyyy => "DD.MM.YYYY"@,
    }
}

/// The date format a stored name selects; unknown names select `YYYY-MM-DD`.
pub open spec fn date_format_from_name(s: Seq<char>) -> DateFormat {
    if s == "YYYY.MM.DD"@ {
        DateFormat::YyyyDotMmDotDd
    } else if s == "DD-MM-YYYY"@ {
        DateFormat::DdMmYyyy
    } else if s == "DD.MM.YYYY"@ {
        DateFormat::DdDotMmDotYyyy
    } else {
        DateFormat::YyyyMmDd
    }
}

/// The pieces of `s` between occurrences of `sep`, as `str::split` yields them.
pub open spec fn split_on(s: Seq<char>, sep: char) -> Seq<Seq<char>>
    decreases s.len(),
{
    if s.len() == 0 {
        seq![Seq::<char>::empty()]
    } else {
        let p = split_on(s.drop_last(), sep);
        if s.last() == sep {
            p.push(Seq::<char>::empty())
        } else {
            p.update(p.len() - 1, p.last().push(s.last()))
        }
    }
}

/// `a`, `sep`, `b`, `sep`, `c`.
pub open spec fn joined3(a: Seq<char>, sep: char, b: Seq<char>, c: Seq<char>) -> Seq<char> {
    a + seq![sep] + b + seq![sep] + c
}

/// What `format_date` makes of `s`: a date of exactly three `-`-separated parts
/// (year, month, day) laid out as the format says; anything else unchanged.
pub open spec fn formatted_date(f: DateFormat, s: Seq<char>) -> Seq<char> {
    let p = split_on(s, '-');
    if p.len() != 3 {
        s
    } else {
        match f {
            DateFormat::DdDotMmDotYyyy => joined3(p[2], '.', p[1], p[0]),
            DateFormat::DdMmYyyy => joined3(p[2], '-', p[1], p[0]),
            DateFormat::YyyyDotMmDotDd => joined3(p[0], '.', p[1], p[2]),
            DateFormat::YyyyMmDd => joined3(p[0], '-', p[1], p[2]),
        }
    }
}

/// `split_on` always yields at least one piece.
pub proof fn lemma_split_on_nonempty(s: Seq<char>, sep: char)
    ensures
        split_on(s, sep).len() >= 1,
    decreases s.len(),
{
    if s.len() > 0 {
        lemma_split_on_nonempty(s.drop_last(), sep);
    }
}

/// Splits `s` at every `-`.
fn split_dash(s: &Vec<char>) -> (parts: Vec<Vec<char>>)
    ensures
        parts.len() == split_on(s@, '-').len(),
        forall|k: int| 0 <= k < parts.len() ==> #[trigger] parts@[k]@ == split_on(s@, '-')[k],
{
    let mut parts: Vec<Vec<char>> = Vec::new();
    let mut cur: Vec<char> = Vec::new();
    let mut i: usize = 0;
    assert(s@.take(0) =~= Seq::<char>::empty());
    while i < s.len()
        invariant
            i <= s.len(),
            parts.len() + 1 == split_on(s@.take(i as int), '-').len(),
            forall|k: int|
                0 <= k < parts.len() ==> #[trigger] parts@[k]@ == split_on(s@.take(i as int), '-')[k],
            cur@ == split_on(s@.take(i as int), '-').last(),
        decreases s.len() - i,
    {
        let c = s[i];
        let ghost before = s@.take(i as int);
        proof {
            lemma_split_on_nonempty(before, '-');
        }
        assert(s@.take(i + 1).drop_last() =~= before);
        if c == '-' {
            parts.push(cur);
            cur = Vec::new();
        } else {
            cur.push(c);
        }
        i += 1;
    }
    assert(s@.take(s.len() as int) =~= s@);
    parts.push(cur);
    parts
}

/// The characters `a`, `sep`, `b`, `sep`, `c` as a `String`.
fn join3(a: &Vec<char>, sep: char, b: &Vec<char>, c: &Vec<char>) -> (r: String)
    ensures
        r@ == joined3(a@, sep, b@, c@),
{
    let mut r = string_of(a);
    push_char(&mut r, sep);
    let mut i: usize = 0;
    while i < b.len()
        invariant
            i <= b.len(),
            r@ == a@ + seq![sep] + b@.take(i as int),
        decreases b.len() - i,
    {
        push_char(&mut r, b[i]);
        i += 1;
        assert(b@.take(i as int) =~= b@.take(i - 1).push(b@[i - 1]));
    }
    assert(b@.take(b.len() as int) =~= b@);
    push_char(&mut r, sep);
    let mut j: usize = 0;
    while j < c.len()
        invariant
            j <= c.len(),
            r@ == a@ + seq![sep] + b@ + seq![sep] + c@.take(j as int),
        decreases c.len() - j,
    {
        push_char(&mut r, c[j]);
        j += 1;
        assert(c@.take(j as int) =~= c@.take(j - 1).push(c@[j - 1]));
    }
    assert(c@.take(c.len() as int) =~= c@);
    r
}

impl DateFormat {
    /// The stored name of this format.
    pub fn as_str(&self) -> (r: &'static str)
        ensures
            r@ == date_format_name(*self),
    {
        match self {
            DateFormat::YyyyMmDd => "YYYY-MM-DD",
            DateFormat::YyyyDotMmDotDd => "YYYY.MM.DD",
            DateFormat::DdMmYyyy => "DD-MM-YYYY",
            DateFormat::DdDotMmDotYyyy => "DD.MM.YYYY",
        }
    }

    /// Reads a stored format name; unknown names give `YYYY-MM-DD`.
    pub fn from_name(s: &str) -> (r: Self)
        ensures
            r == date_format_from_name(s@),
    {
        if str_eq(s, "YYYY.MM.DD") {
            DateFormat::YyyyDotMmDotDd
        } else if str_eq(s, "DD-MM-YYYY") {
            DateFormat::DdMmYyyy
        } else if str_eq(s, "DD.MM.YYYY") {
            DateFormat::DdDotMmDotYyyy
        } else {
            DateFormat::YyyyMmDd
        }
    }

    /// Lays out an ISO date (`YYYY-MM-DD`) in this format. Input that does
    /// not split into exactly three `-`-separated parts comes back unchanged.
    pub fn format_date(&self, iso_date: &str) -> (r: String)
        ensures
            r@ == formatted_date(*self, iso_date@),
    {
        let cs = chars_of(iso_date);
        let parts = split_dash(&cs);
        if parts.len() != 3 {
            return owned(iso_date);
        }
        let y = &parts[0];
        let m = &parts[1];
        let d = &parts[2];
        match self {
            DateFormat::DdDotMmDotYyyy => join3(d, '.', m, y),
            DateFormat::DdMmYyyy => join3(d, '-', m, y),
            DateFormat::YyyyDotMmDotDd => join3(y, '.', m, d),
            DateFormat::YyyyMmDd => join3(y, '-', m, d),
        }
    }
}

impl Default for DateFormat {
    /// `YYYY-MM-DD`.
    fn default() -> (r: Self)
        ensures
            r == DateFormat::YyyyMmDd,
    {
        DateFormat::YyyyMmDd
    }
}

impl std::str::FromStr for DateFormat {
    type Err = ();

    /// Never fails; the format is `DateFormat::from_name(s)`.
    fn from_str(s: &str) -> (parsed: Result<DateFormat, ()>)
        ensures
            parsed == Ok::<DateFormat, ()>(date_format_from_name(s@)),
    {
        Ok(DateFormat::from_name(s))
    }
}

/// Reading back the stored name of an export format gives the same format.
pub proof fn law_export_format_name_roundtrip(f: ExportFormat)
    ensures
        export_format_from_name(export_format_name(f)) == f,
{
    reveal_strlit("csv");
    reveal_strlit("xlsx");
    assert("csv"@.len() != "xlsx"@.len());
}

/// Reading back the stored name of a date format gives the same format.
pub proof fn law_date_format_name_roundtrip(f: DateFormat)
    ensures
        date_format_from_name(date_format_name(f)) == f,
{
    reveal_strlit("YYYY-MM-DD");
    reveal_strlit("YYYY.MM.DD");
    reveal_strlit("DD-MM-YYYY");
    reveal_strlit("DD.MM.YYYY");
    let a = "YYYY-MM-DD"@;
    let b = "YYYY.MM.DD"@;
    let c = "DD-MM-YYYY"@;
    let d = "DD.MM.YYYY"@;
    assert(a[4] != b[4]);
    assert(a[0] != c[0]);
    assert(a[0] != d[0]);
    assert(b[0] != c[0]);
    assert(b[0] != d[0]);
    assert(c[2] != d[2]);
}

/// Joining pieces with `sep` between consecutive ones.
pub open spec fn join_on(parts: Seq<Seq<char>>, sep: char) -> Seq<char>
    decreases parts.len(),
{
    if parts.len() == 0 {
        Seq::<char>::empty()
    } else if parts.len() == 1 {
        parts[0]
    } else {
        join_on(parts.drop_last(), sep) + seq![sep] + parts.last()
    }
}

/// Joining the pieces of a split with the separator gives back the input.
pub proof fn lemma_join_split(s: Seq<char>, sep: char)
    ensures
        join_on(split_on(s, sep), sep) == s,
    decreases s.len(),
{
    if s.len() > 0 {
        let t = s.drop_last();
        let p = split_on(t, sep);
        lemma_join_split(t, sep);
        lemma_split_on_nonempty(t, sep);
        if s.last() == sep {
            let q = p.push(Seq::<char>::empty());
            assert(q.drop_last() =~= p);
            assert(s =~= t + seq![sep] + Seq::<char>::empty());
        } else {
            let q = p.update(p.len() - 1, p.last().push(s.last()));
            if p.len() == 1 {
                assert(s =~= t.push(s.last()));
            } else {
                assert(q.drop_last() =~= p.drop_last());
                assert(q.last() == p.last().push(s.last()));
                assert(join_on(p, sep) == join_on(p.drop_last(), sep) + seq![sep] + p.last());
                assert(join_on(q, sep) == join_on(q.drop_last(), sep) + seq![sep] + q.last());
                assert(s =~= t.push(s.last()));
                assert(t == join_on(p.drop_last(), sep) + seq![sep] + p.last());
                assert(s =~= join_on(p.drop_last(), sep) + seq![sep] + p.last().push(s.last()));
            }
        }
    }
}

/// Formatting as `YYYY-MM-DD` leaves every input exactly as it was.
pub proof fn law_iso_format_is_identity(s: Seq<char>)
    ensures
        formatted_date(DateFormat::YyyyMmDd, s) == s,
{
    let p = split_on(s, '-');
    if p.len() == 3 {
        lemma_join_split(s, '-');
        let p2 = p.drop_last();
        assert(p2.drop_last() =~= seq![p[0]]);
        assert(p2.last() == p[1]);
        assert(join_on(p2.drop_last(), '-') == p[0]);
        assert(join_on(p2, '-') == join_on(p2.drop_last(), '-') + seq!['-'] + p2.last());
        assert(join_on(p, '-') == join_on(p2, '-') + seq!['-'] + p.last());
        assert(join_on(p, '-') =~= joined3(p[0], '-', p[1], p[2]));
    }
}

/// The pieces of a split never hold the separator.
proof fn lemma_split_pieces_lack_sep(s: Seq<char>, sep: char)
    ensures
        forall|k: int, j: int|
            0 <= k < split_on(s, sep).len() && 0 <= j < split_on(s, sep)[k].len() ==> split_on(s, sep)[k][j] != sep,
    decreases s.len(),
{
    if s.len() > 0 {
        let t = s.drop_last();
        lemma_split_pieces_lack_sep(t, sep);
        lemma_split_on_nonempty(t, sep);
        let p = split_on(t, sep);
        let q = split_on(s, sep);
        assert forall|k: int, j: int| 0 <= k < q.len() && 0 <= j < q[k].len() implies q[k][j] != sep by {
            if s.last() == sep {
                if k < p.len() {
                    assert(q[k] == p[k]);
                }
            } else if k < p.len() - 1 {
                assert(q[k] == p[k]);
            } else {
                assert(q[k] == p.last().push(s.last()));
                if j < p.last().len() {
                    assert(q[k][j] == p[p.len() - 1][j]);
                }
            }
        }
    }
}

/// A piece without the separator splits into itself.
proof fn lemma_split_single(a: Seq<char>, sep: char)
    requires
        forall|j: int| 0 <= j < a.len() ==> a[j] != sep,
    ensures
        split_on(a, sep) == seq![a],
    decreases a.len(),
{
    if a.len() > 0 {
        lemma_split_single(a.drop_last(), sep);
        assert(a.drop_last().push(a.last()) =~= a);
        assert(seq![a.drop_last()].update(0, a.drop_last().push(a.last())) =~= seq![a]);
    } else {
        assert(a =~= Seq::<char>::empty());
    }
}

/// Splitting `a`, the separator, `b` gives the pieces of `a`, then those of `b`.
proof fn lemma_split_concat(a: Seq<char>, b: Seq<char>, sep: char)
    ensures
        split_on(a + seq![sep] + b, sep) == split_on(a, sep) + split_on(b, sep),
    decreases b.len(),
{
    let s = a + seq![sep] + b;
    lemma_split_on_nonempty(a, sep);
    if b.len() == 0 {
        assert(s.drop_last() =~= a);
        assert(s.last() == sep);
        assert(split_on(a, sep).push(Seq::<char>::empty()) =~= split_on(a, sep) + seq![Seq::<char>::empty()]);
    } else {
        let b2 = b.drop_last();
        lemma_split_concat(a, b2, sep);
        lemma_split_on_nonempty(b2, sep);
        assert(s.drop_last() =~= a + seq![sep] + b2);
        assert(s.last() == b.last());
        let pa = split_on(a, sep);
        let pb = split_on(b2, sep);
        if b.last() == sep {
            assert((pa + pb).push(Seq::<char>::empty()) =~= pa + pb.push(Seq::<char>::empty()));
        } else {
            let q = pa + pb;
            assert(q.last() == pb.last());
            assert(q.update(q.len() - 1, q.last().push(b.last())) =~= pa + pb.update(
                pb.len() - 1,
                pb.last().push(b.last()),
            ));
        }
    }
}

/// Formatting as `DD-MM-YYYY` twice gives back the input.
pub proof fn law_day_first_format_is_an_involution(s: Seq<char>)
    ensures
        formatted_date(DateFormat::DdMmYyyy, formatted_date(DateFormat::DdMmYyyy, s)) == s,
{
    let p = split_on(s, '-');
    if p.len() == 3 {
        lemma_split_pieces_lack_sep(s, '-');
        assert forall|j: int| 0 <= j < p[0].len() implies #[trigger] p[0][j] != '-' by {}
        assert forall|j: int| 0 <= j < p[1].len() implies #[trigger] p[1][j] != '-' by {}
        assert forall|j: int| 0 <= j < p[2].len() implies #[trigger] p[2][j] != '-' by {}
        lemma_split_single(p[0], '-');
        lemma_split_single(p[1], '-');
        lemma_split_single(p[2], '-');
        lemma_split_concat(p[2], p[1], '-');
        lemma_split_concat(p[2] + seq!['-'] + p[1], p[0], '-');
        let t = joined3(p[2], '-', p[1], p[0]);
        assert(t == (p[2] + seq!['-'] + p[1]) + seq!['-'] + p[0]);
        assert(split_on(t, '-') =~= seq![p[2], p[1], p[0]]);
        law_iso_format_is_identity(s);
    }
}

} // verus!
