//! Output formats: which are known, and the table and CSV renderings of a
//! result.

use vstd::prelude::*;
use crate::adapters::{language_line, registry, Adapter};
use crate::protocol::{Cell, QueryResult};
use crate::text::{
    chars_of, join_texts, lemma_join_texts_step, owned, push_char, push_str, replace_all,
    replace_text,
};

verus! {

/// The widest a cell is shown in a table, in characters.
pub const MAX_CELL_WIDTH: usize = 60;

/// What `format!("{:?}", s)` gives for a string: its Rust debug form.
pub uninterp spec fn debug_text(s: Seq<char>) -> Seq<char>;

/// `format!("{s:?}")`.
#[verifier::external_body]
fn debug_quoted(s: &str) -> (r: String)
    ensures
        r@ == debug_text(s@),
{
    format!("{s:?}")
}

/// Whether `format` names an output format: `table`, `json` or `csv`.
pub open spec fn known_format(format: Seq<char>) -> bool {
    format == "table"@ || format == "json"@ || format == "csv"@
}

/// Accepts the known formats; refuses any other with a message that quotes it.
pub fn validate_format(format: &str) -> (r: Result<(), String>)
    ensures
        r is Ok <==> known_format(format@),
        r matches Err(e) ==> e@ == "unsupported format "@ + debug_text(format@),
{
    if crate::text::same_text(format, "table") || crate::text::same_text(format, "json")
        || crate::text::same_text(format, "csv") {
        Ok(())
    } else {
        let mut e = owned("unsupported format ");
        let q = debug_quoted(format);
        push_str(&mut e, q.as_str());
        Err(e)
    }
}

/// One line per adapter, naming its language and extensions.
pub fn supported_languages() -> (r: Vec<String>)
    ensures
        r@.map_values(|s: String| s@) == registry().map_values(|a: Adapter| language_line(a)),
{
    crate::adapters::supported_languages()
}

// ---------------------------------------------------------------------------
// Cells as text.
// ---------------------------------------------------------------------------

/// The JSON text of a value that is not a string.
pub open spec fn json_text(c: Cell) -> Seq<char> {
    match c {
        Cell::Null => "null"@,
        Cell::Bool(b) => if b {
            "true"@
        } else {
            "false"@
        },
        Cell::Number(t) => t@,
        Cell::Text(t) => t@,
        Cell::Other(t) => t@,
    }
}

/// A value as a table shows it before shortening: a string as it is,
/// nothing for null, anything else as JSON.
pub open spec fn display_text(c: Cell) -> Seq<char> {
    match c {
        Cell::Text(t) => t@,
        Cell::Null => Seq::empty(),
        _ => json_text(c),
    }
}

fn json_string(c: &Cell) -> (r: String)
    ensures
        r@ == json_text(*c),
{
    match c {
        Cell::Null => owned("null"),
        Cell::Bool(b) => if *b {
            owned("true")
        } else {
            owned("false")
        },
        Cell::Number(t) => t.clone(),
        Cell::Text(t) => t.clone(),
        Cell::Other(t) => t.clone(),
    }
}

fn display_string(c: &Cell) -> (r: String)
    ensures
        r@ == display_text(*c),
{
    match c {
        Cell::Text(t) => t.clone(),
        Cell::Null => String::new(),
        _ => json_string(c),
    }
}

/// The number of UTF-8 bytes of a character.
pub open spec fn utf8_width(c: char) -> nat {
    vstd::utf8::encode_scalar(c as u32).len()
}

/// The number of UTF-8 bytes of the first `k` characters of `s`.
pub open spec fn bytes_upto(s: Seq<char>, k: int) -> nat
    decreases k,
{
    if k <= 0 {
        0
    } else {
        bytes_upto(s, k - 1) + utf8_width(s[k - 1])
    }
}

/// The number of UTF-8 bytes of `s`: what `str::len` counts.
pub open spec fn byte_len(s: Seq<char>) -> nat {
    bytes_upto(s, s.len() as int)
}

fn char_width(c: char) -> (r: usize)
    ensures
        r == utf8_width(c),
        1 <= r <= 4,
{
    let v = c as u32;
    if v <= 0x7F {
        1
    } else if v <= 0x7FF {
        2
    } else if v <= 0xFFFF {
        3
    } else {
        4
    }
}

proof fn lemma_bytes_upto_grows(s: Seq<char>, a: int, b: int)
    requires
        0 <= a <= b <= s.len(),
    ensures
        bytes_upto(s, a) + (b - a) <= bytes_upto(s, b) <= bytes_upto(s, a) + 4 * (b - a),
    decreases b - a,
{
    if a < b {
        lemma_bytes_upto_grows(s, a, b - 1);
        assert(1 <= utf8_width(s[b - 1]) <= 4) by {
            let v = s[b - 1] as u32;
            assert(vstd::utf8::encode_scalar(v).len() >= 1);
        }
    }
}

/// The number of characters of `s` that take exactly `n` bytes, where a
/// character boundary falls at byte `n`.
pub open spec fn cut_point(s: Seq<char>, n: nat) -> Option<int> {
    if exists|k: int| 0 <= k <= s.len() && bytes_upto(s, k) == n {
        Some(choose|k: int| 0 <= k <= s.len() && bytes_upto(s, k) == n)
    } else {
        None
    }
}

/// Whether a table can show `s`: it is at most 60 characters, or its first
/// 60 characters have a character boundary at byte 57 (where the text is
/// cut before `...`).
pub open spec fn fits_cell(s: Seq<char>) -> bool {
    s.len() <= 60 || cut_point(s.take(60), 57) is Some
}

/// A text as a table cell: as it is up to 60 characters, else its first 57
/// bytes and `...`.
pub open spec fn shorten(s: Seq<char>) -> Seq<char> {
    if s.len() <= 60 {
        s
    } else {
        s.take(cut_point(s.take(60), 57)->0) + "..."@
    }
}

/// A value as a table shows it.
pub open spec fn display(c: Cell) -> Seq<char> {
    shorten(display_text(c))
}

/// A value as a table shows it: its text, cut to 57 bytes and `...` where
/// it is longer than 60 characters.
fn display_cell(c: &Cell) -> (r: String)
    requires
        fits_cell(display_text(*c)),
    ensures
        r@ == display(*c),
        r@.len() <= 63,
{
    let text = display_string(c);
    let v = chars_of(text.as_str());
    if v.len() <= MAX_CELL_WIDTH {
        return text;
    }
    let ghost s = v@.take(60);
    let mut k: usize = 0;
    let mut bytes: usize = 0;
    proof {
        reveal_strlit("...");
    }
    while bytes < 57 && k < 60
        invariant
            v@.len() > 60,
            s == v@.take(60),
            k <= 60,
            bytes == bytes_upto(s, k as int),
            bytes <= 57 + 4,
            cut_point(s, 57) is Some,
            forall|j: int| 0 <= j < k ==> bytes_upto(s, j) < 57,
        decreases 60 - k,
    {
        proof {
            lemma_bytes_upto_grows(s, k as int, k + 1);
        }
        bytes = bytes + char_width(v[k]);
        k = k + 1;
    }
    proof {
        let c = choose|c: int| 0 <= c <= s.len() && bytes_upto(s, c) == 57;
        if c < k {
            assert(bytes_upto(s, c) < 57);
        } else if c > k {
            lemma_bytes_upto_grows(s, k as int, c);
        }
        assert(c == k);
        assert(v@.take(k as int) =~= s.take(k as int));
    }
    let mut r = String::new();
    let mut m: usize = 0;
    while m < k
        invariant
            k <= 60 < v@.len(),
            m <= k,
            r@ == v@.take(m as int),
        decreases k - m,
    {
        push_char(&mut r, v[m]);
        m = m + 1;
        assert(r@ =~= v@.take(m as int));
    }
    push_str(&mut r, "...");
    r
}

// ---------------------------------------------------------------------------
// Tables.
// ---------------------------------------------------------------------------

/// The width of column `j` over the first `n` rows: the most bytes of its
/// name and of its shown values.
pub open spec fn width_upto(cols: Seq<Seq<char>>, rows: Seq<Seq<Cell>>, j: int, n: int) -> nat
    decreases n,
{
    if n <= 0 {
        byte_len(cols[j])
    } else {
        let w = width_upto(cols, rows, j, n - 1);
        if j < rows[n - 1].len() && byte_len(display(rows[n - 1][j])) > w {
            byte_len(display(rows[n - 1][j]))
        } else {
            w
        }
    }
}

pub open spec fn column_width(r: &QueryResult, j: int) -> nat {
    width_upto(r.column_texts(), r.row_cells(), j, r.row_cells().len() as int)
}

/// Whether column `j` is right-aligned: every row has a null or a number
/// there, and some row a number.
pub open spec fn numeric(rows: Seq<Seq<Cell>>, j: int) -> bool {
    &&& forall|k: int|
        0 <= k < rows.len() ==> j < (#[trigger] rows[k]).len() && (rows[k][j] is Null || rows[k][j] is Number)
    &&& exists|k: int| 0 <= k < rows.len() && j < (#[trigger] rows[k]).len() && rows[k][j] is Number
}

pub open spec fn spaces(n: int) -> Seq<char> {
    Seq::new(n as nat, |i: int| ' ')
}

pub open spec fn dashes(n: int) -> Seq<char> {
    Seq::new(n as nat, |i: int| '-')
}

/// `s` padded with spaces on the right to `w` characters.
pub open spec fn pad_right(s: Seq<char>, w: int) -> Seq<char> {
    if w > s.len() {
        s + spaces(w - s.len())
    } else {
        s
    }
}

/// `s` padded with spaces on the left to `w` characters.
pub open spec fn pad_left(s: Seq<char>, w: int) -> Seq<char> {
    if w > s.len() {
        spaces(w - s.len()) + s
    } else {
        s
    }
}

pub open spec fn header_line(r: &QueryResult) -> Seq<char> {
    join_texts(
        Seq::new(r.columns@.len(), |j: int| pad_right(r.column_texts()[j], column_width(r, j) as int)),
        "  "@,
    ).push('\n')
}

pub open spec fn rule_line(r: &QueryResult) -> Seq<char> {
    join_texts(Seq::new(r.columns@.len(), |j: int| dashes(column_width(r, j) as int)), "  "@).push('\n')
}

/// The cell of column `j` of a row, padded to the column's width.
pub open spec fn table_cell(r: &QueryResult, row: Seq<Cell>, j: int) -> Seq<char> {
    if numeric(r.row_cells(), j) {
        pad_left(display(row[j]), column_width(r, j) as int)
    } else {
        pad_right(display(row[j]), column_width(r, j) as int)
    }
}

pub open spec fn row_line(r: &QueryResult, row: Seq<Cell>) -> Seq<char> {
    join_texts(Seq::new(row.len(), |j: int| table_cell(r, row, j)), "  "@).push('\n')
}

/// The lines of the first `n` rows.
pub open spec fn row_lines(r: &QueryResult, n: int) -> Seq<char>
    decreases n,
{
    if n <= 0 {
        Seq::empty()
    } else {
        row_lines(r, n - 1) + row_line(r, r.row_cells()[n - 1])
    }
}

/// A result as a table: the column names, a rule of dashes, and the rows,
/// each column as wide as its widest entry in bytes, numeric columns
/// aligned right; nothing where there are no columns.
pub open spec fn table_text(r: &QueryResult) -> Seq<char> {
    if r.columns@.len() == 0 {
        Seq::empty()
    } else {
        header_line(r) + rule_line(r) + row_lines(r, r.rows@.len() as int)
    }
}

/// What the table of `r` needs: no row longer than the columns, every
/// value showable, every column name's length in bytes a `usize`.
pub open spec fn renderable(r: &QueryResult) -> bool {
    &&& forall|k: int| 0 <= k < r.rows@.len() ==> (#[trigger] r.rows@[k])@.len() <= r.columns@.len()
    &&& forall|k: int, j: int|
        0 <= k < r.rows@.len() && 0 <= j < r.rows@[k]@.len() ==> fits_cell(display_text(#[trigger] r.rows@[k]@[j]))
    &&& forall|j: int| 0 <= j < r.columns@.len() ==> byte_len(#[trigger] r.columns@[j]@) <= usize::MAX
}

/// Whether the table of `r` can be rendered.
pub fn can_render_table(r: &QueryResult) -> (ok: bool)
    ensures
        ok == renderable(r),
{
    let mut k: usize = 0;
    while k < r.rows.len()
        invariant
            k <= r.rows@.len(),
            forall|q: int| 0 <= q < k ==> (#[trigger] r.rows@[q])@.len() <= r.columns@.len(),
            forall|q: int, j: int|
                0 <= q < k && 0 <= j < r.rows@[q]@.len() ==> fits_cell(display_text(#[trigger] r.rows@[q]@[j])),
        decreases r.rows.len() - k,
    {
        let row = &r.rows[k];
        if row.len() > r.columns.len() {
            assert(r.rows@[k as int]@.len() > r.columns@.len());
            return false;
        }
        let mut j: usize = 0;
        while j < row.len()
            invariant
                row@ == r.rows@[k as int]@,
                k < r.rows@.len(),
                j <= row@.len(),
                forall|m: int| 0 <= m < j ==> fits_cell(display_text(#[trigger] row@[m])),
            decreases row.len() - j,
        {
            if !cell_fits(&row[j]) {
                assert(!fits_cell(display_text(r.rows@[k as int]@[j as int])));
                return false;
            }
            j = j + 1;
        }
        k = k + 1;
    }
    let mut j: usize = 0;
    while j < r.columns.len()
        invariant
            j <= r.columns@.len(),
            forall|m: int| 0 <= m < j ==> byte_len(#[trigger] r.columns@[m]@) <= usize::MAX,
        decreases r.columns.len() - j,
    {
        if byte_len_checked(r.columns[j].as_str()).is_none() {
            assert(byte_len(r.columns@[j as int]@) > usize::MAX);
            return false;
        }
        j = j + 1;
    }
    true
}

/// The number of UTF-8 bytes of `s`, where it is a `usize`.
fn byte_len_checked(s: &str) -> (r: Option<usize>)
    ensures
        match r {
            Some(n) => n == byte_len(s@),
            None => byte_len(s@) > usize::MAX,
        },
{
    let v = chars_of(s);
    let mut n: usize = 0;
    let mut k: usize = 0;
    while k < v.len()
        invariant
            v@ == s@,
            k <= v@.len(),
            n == bytes_upto(v@, k as int),
        decreases v.len() - k,
    {
        let w = char_width(v[k]);
        if n > usize::MAX - w {
            proof {
                assert(bytes_upto(v@, k + 1) == n + w);
                lemma_bytes_upto_grows(v@, k + 1, v@.len() as int);
            }
            return None;
        }
        n = n + w;
        k = k + 1;
    }
    Some(n)
}

/// Whether a table can show the value.
fn cell_fits(c: &Cell) -> (r: bool)
    ensures
        r == fits_cell(display_text(*c)),
{
    let text = display_string(c);
    let v = chars_of(text.as_str());
    if v.len() <= MAX_CELL_WIDTH {
        return true;
    }
    let ghost s = v@.take(60);
    let mut k: usize = 0;
    let mut bytes: usize = 0;
    while k < 60 && bytes < 57
        invariant
            v@.len() > 60,
            s == v@.take(60),
            k <= 60,
            bytes == bytes_upto(s, k as int),
            bytes <= 57 + 4,
            forall|j: int| 0 <= j < k ==> bytes_upto(s, j) < 57,
        decreases 60 - k,
    {
        proof {
            lemma_bytes_upto_grows(s, k as int, k + 1);
        }
        bytes = bytes + char_width(v[k]);
        k = k + 1;
    }
    proof {
        if exists|c: int| 0 <= c <= s.len() && bytes_upto(s, c) == 57 {
            let c = choose|c: int| 0 <= c <= s.len() && bytes_upto(s, c) == 57;
            if c < k {
                assert(bytes_upto(s, c) < 57);
            } else if c > k {
                lemma_bytes_upto_grows(s, k as int, c);
            }
        }
    }
    bytes == 57
}

/// Whether column `j` is right-aligned: a number or null in every row, and
/// a number in some row.
fn numeric_column(r: &QueryResult, j: usize) -> (b: bool)
    ensures
        b == numeric(r.row_cells(), j as int),
{
    let ghost rows = r.row_cells();
    let mut has_number = false;
    let mut k: usize = 0;
    while k < r.rows.len()
        invariant
            rows == r.row_cells(),
            k <= rows.len(),
            rows.len() == r.rows@.len(),
            forall|q: int| 0 <= q < k ==> j < (#[trigger] rows[q]).len() && (rows[q][j as int] is Null || rows[q][j as int] is Number),
            has_number == exists|q: int| 0 <= q < k && j < (#[trigger] rows[q]).len() && rows[q][j as int] is Number,
        decreases r.rows.len() - k,
    {
        let row = &r.rows[k];
        assert(rows[k as int] == row@);
        if j >= row.len() {
            return false;
        }
        match &row[j] {
            Cell::Null => {},
            Cell::Number(_) => {
                has_number = true;
            },
            _ => {
                return false;
            },
        }
        k = k + 1;
    }
    has_number
}

/// Appends `s` padded with spaces to `w` characters, on the right or, where
/// `left` is set, on the left.
fn push_padded(out: &mut String, s: &str, w: usize, left: bool)
    ensures
        final(out)@ == old(out)@ + if left {
            pad_left(s@, w as int)
        } else {
            pad_right(s@, w as int)
        },
{
    let v = chars_of(s);
    let ghost before = out@;
    if left {
        push_spaces(out, w, v.len());
        push_str(out, s);
        assert(out@ =~= before + pad_left(s@, w as int));
    } else {
        push_str(out, s);
        push_spaces(out, w, v.len());
        assert(out@ =~= before + pad_right(s@, w as int));
    }
}

/// Appends `w - n` spaces, or none where `n` is at least `w`.
fn push_spaces(out: &mut String, w: usize, n: usize)
    ensures
        final(out)@ == old(out)@ + if w > n {
            spaces(w - n)
        } else {
            Seq::empty()
        },
{
    let ghost before = out@;
    if w > n {
        let mut k: usize = 0;
        while k < w - n
            invariant
                w > n,
                k <= w - n,
                out@ == before + spaces(k as int),
            decreases w - n - k,
        {
            push_char(out, ' ');
            k = k + 1;
            assert(out@ =~= before + spaces(k as int));
        }
    } else {
        assert(out@ =~= before + Seq::<char>::empty());
    }
}

/// The width of every column.
fn column_widths(r: &QueryResult) -> (w: Vec<usize>)
    requires
        renderable(r),
    ensures
        w@.len() == r.columns@.len(),
        forall|j: int| 0 <= j < w@.len() ==> w@[j] == column_width(r, j),
{
    let ghost cols = r.column_texts();
    let ghost rows = r.row_cells();
    let n = r.columns.len();
    let mut w: Vec<usize> = Vec::new();
    let mut j: usize = 0;
    while j < n
        invariant
            renderable(r),
            cols == r.column_texts(),
            n == r.columns@.len(),
            j <= n,
            w@.len() == j,
            forall|q: int| 0 <= q < j ==> w@[q] == width_upto(cols, rows, q, 0),
        decreases n - j,
    {
        assert(byte_len(r.columns@[j as int]@) <= usize::MAX);
        let b = match byte_len_checked(r.columns[j].as_str()) {
            Some(b) => b,
            None => 0,
        };
        w.push(b);
        j = j + 1;
    }
    let mut k: usize = 0;
    while k < r.rows.len()
        invariant
            renderable(r),
            cols == r.column_texts(),
            rows == r.row_cells(),
            rows.len() == r.rows@.len(),
            n == r.columns@.len(),
            w@.len() == n,
            k <= rows.len(),
            forall|q: int| 0 <= q < n ==> w@[q] == width_upto(cols, rows, q, k as int),
        decreases r.rows.len() - k,
    {
        let row = &r.rows[k];
        assert(rows[k as int] == row@);
        assert(row@.len() <= n);
        let mut m: usize = 0;
        while m < row.len()
            invariant
                renderable(r),
                cols == r.column_texts(),
                rows == r.row_cells(),
                rows.len() == r.rows@.len(),
                k < rows.len(),
                row@ == rows[k as int],
                row@ == r.rows@[k as int]@,
                row@.len() <= n,
                n == r.columns@.len(),
                w@.len() == n,
                m <= row@.len(),
                forall|q: int| 0 <= q < m ==> w@[q] == width_upto(cols, rows, q, k + 1),
                forall|q: int| m <= q < n ==> w@[q] == width_upto(cols, rows, q, k as int),
            decreases row.len() - m,
        {
            assert(fits_cell(display_text(r.rows@[k as int]@[m as int])));
            let d = display_cell(&row[m]);
            let b = match byte_len_checked(d.as_str()) {
                Some(b) => b,
                None => {
                    proof {
                        lemma_bytes_upto_grows(d@, 0, d@.len() as int);
                    }
                    0
                },
            };
            if b > w[m] {
                w.set(m, b);
            }
            m = m + 1;
        }
        proof {
            assert forall|q: int| m <= q < n implies w@[q] == width_upto(cols, rows, q, k + 1) by {
                assert(!(q < rows[k as int].len()));
            }
        }
        k = k + 1;
    }
    w
}

/// A result as a table, as `table_text` lays it out.
pub fn render_table(r: &QueryResult) -> (out: String)
    requires
        renderable(r),
    ensures
        out@ == table_text(r),
{
    let n = r.columns.len();
    if n == 0 {
        return String::new();
    }
    let widths = column_widths(r);
    let mut numeric_cols: Vec<bool> = Vec::new();
    let mut j: usize = 0;
    while j < n
        invariant
            n == r.columns@.len(),
            j <= n,
            numeric_cols@.len() == j,
            forall|q: int| 0 <= q < j ==> numeric_cols@[q] == numeric(r.row_cells(), q),
        decreases n - j,
    {
        numeric_cols.push(numeric_column(r, j));
        j = j + 1;
    }
    let sep = "  ";
    proof {
        reveal_strlit("  ");
    }
    let mut out = String::new();
    // The column names.
    let ghost heads = Seq::new(n as nat, |q: int| pad_right(r.column_texts()[q], column_width(r, q) as int));
    let mut j: usize = 0;
    while j < n
        invariant
            n == r.columns@.len(),
            widths@.len() == n,
            forall|q: int| 0 <= q < n ==> widths@[q] == column_width(r, q),
            heads == Seq::new(n as nat, |q: int| pad_right(r.column_texts()[q], column_width(r, q) as int)),
            sep@ == "  "@,
            j <= n,
            out@ == join_texts(heads.take(j as int), "  "@),
        decreases n - j,
    {
        proof {
            lemma_join_texts_step(heads, "  "@, j as int);
        }
        let ghost before = out@;
        if j > 0 {
            push_str(&mut out, sep);
        }
        push_padded(&mut out, r.columns[j].as_str(), widths[j], false);
        proof {
            if j == 0 {
                assert(before =~= Seq::<char>::empty());
                assert(out@ =~= heads[0]);
            } else {
                assert(out@ =~= join_texts(heads.take(j as int), "  "@) + "  "@ + heads[j as int]);
            }
        }
        j = j + 1;
    }
    assert(heads.take(n as int) =~= heads);
    push_char(&mut out, '\n');
    let ghost header = out@;
    assert(header == header_line(r));
    // The rule of dashes.
    let ghost rules = Seq::new(n as nat, |q: int| dashes(column_width(r, q) as int));
    let mut j: usize = 0;
    let mut line = String::new();
    while j < n
        invariant
            n == r.columns@.len(),
            widths@.len() == n,
            forall|q: int| 0 <= q < n ==> widths@[q] == column_width(r, q),
            rules == Seq::new(n as nat, |q: int| dashes(column_width(r, q) as int)),
            sep@ == "  "@,
            j <= n,
            line@ == join_texts(rules.take(j as int), "  "@),
        decreases n - j,
    {
        proof {
            lemma_join_texts_step(rules, "  "@, j as int);
        }
        let ghost before = line@;
        if j > 0 {
            push_str(&mut line, sep);
        }
        let ghost mid = line@;
        let mut k: usize = 0;
        let wj = widths[j];
        while k < wj
            invariant
                k <= wj,
                line@ == mid + dashes(k as int),
            decreases wj - k,
        {
            push_char(&mut line, '-');
            k = k + 1;
            assert(line@ =~= mid + dashes(k as int));
        }
        proof {
            if j == 0 {
                assert(before =~= Seq::<char>::empty());
                assert(line@ =~= rules[0]);
            } else {
                assert(line@ =~= join_texts(rules.take(j as int), "  "@) + "  "@ + rules[j as int]);
            }
        }
        j = j + 1;
    }
    assert(rules.take(n as int) =~= rules);
    push_char(&mut line, '\n');
    push_str(&mut out, line.as_str());
    assert(out@ == header_line(r) + rule_line(r));
    // The rows.
    let ghost top = out@;
    let mut k: usize = 0;
    while k < r.rows.len()
        invariant
            renderable(r),
            n == r.columns@.len(),
            widths@.len() == n,
            forall|q: int| 0 <= q < n ==> widths@[q] == column_width(r, q),
            numeric_cols@.len() == n,
            forall|q: int| 0 <= q < n ==> numeric_cols@[q] == numeric(r.row_cells(), q),
            sep@ == "  "@,
            k <= r.rows@.len(),
            out@ == top + row_lines(r, k as int),
        decreases r.rows.len() - k,
    {
        let row = &r.rows[k];
        assert(r.row_cells()[k as int] == row@);
        let ghost cells = Seq::new(row@.len(), |q: int| table_cell(r, row@, q));
        let mut line = String::new();
        let mut m: usize = 0;
        while m < row.len()
            invariant
                renderable(r),
                k < r.rows@.len(),
                row@ == r.rows@[k as int]@,
                row@.len() <= n,
                n == r.columns@.len(),
                widths@.len() == n,
                forall|q: int| 0 <= q < n ==> widths@[q] == column_width(r, q),
                numeric_cols@.len() == n,
                forall|q: int| 0 <= q < n ==> numeric_cols@[q] == numeric(r.row_cells(), q),
                cells == Seq::new(row@.len(), |q: int| table_cell(r, row@, q)),
                sep@ == "  "@,
                m <= row@.len(),
                line@ == join_texts(cells.take(m as int), "  "@),
            decreases row.len() - m,
        {
            proof {
                lemma_join_texts_step(cells, "  "@, m as int);
            }
            let ghost before = line@;
            if m > 0 {
                push_str(&mut line, sep);
            }
            assert(fits_cell(display_text(r.rows@[k as int]@[m as int])));
            let d = display_cell(&row[m]);
            push_padded(&mut line, d.as_str(), widths[m], numeric_cols[m]);
            proof {
                if m == 0 {
                    assert(before =~= Seq::<char>::empty());
                    assert(line@ =~= cells[0]);
                } else {
                    assert(line@ =~= join_texts(cells.take(m as int), "  "@) + "  "@ + cells[m as int]);
                }
            }
            m = m + 1;
        }
        assert(cells.take(m as int) =~= cells);
        push_char(&mut line, '\n');
        let ghost prev = out@;
        push_str(&mut out, line.as_str());
        assert(out@ =~= top + row_lines(r, k + 1));
        k = k + 1;
    }
    out
}

// ---------------------------------------------------------------------------
// CSV.
// ---------------------------------------------------------------------------

/// A value as a CSV field: a string quoted (its quotes doubled) where it
/// holds a comma, a quote or a line break; anything else as JSON.
pub open spec fn csv_field(c: Cell) -> Seq<char> {
    match c {
        Cell::Text(t) => if t@.contains(',') || t@.contains('"') || t@.contains('\n') {
            seq!['"'] + replace_all(t@, "\""@, "\"\""@) + seq!['"']
        } else {
            t@
        },
        _ => json_text(c),
    }
}

/// The CSV line of a row.
pub open spec fn csv_line(row: Seq<Cell>) -> Seq<char> {
    join_texts(row.map_values(|c: Cell| csv_field(c)), ","@).push('\n')
}

pub open spec fn csv_rows(rows: Seq<Seq<Cell>>, n: int) -> Seq<char>
    decreases n,
{
    if n <= 0 {
        Seq::empty()
    } else {
        csv_rows(rows, n - 1) + csv_line(rows[n - 1])
    }
}

/// A result as CSV: the column names, then a line per row.
pub open spec fn csv_text(r: &QueryResult) -> Seq<char> {
    join_texts(r.column_texts(), ","@).push('\n') + csv_rows(r.row_cells(), r.rows@.len() as int)
}

fn csv_value(c: &Cell) -> (r: String)
    ensures
        r@ == csv_field(*c),
{
    match c {
        Cell::Text(t) => {
            let v = chars_of(t.as_str());
            if crate::text::has_char(&v, ',') || crate::text::has_char(&v, '"') || crate::text::has_char(&v, '\n') {
                proof {
                    reveal_strlit("\"");
                }
                let mut out = String::new();
                push_char(&mut out, '"');
                let doubled = replace_text(t.as_str(), "\"", "\"\"");
                push_str(&mut out, doubled.as_str());
                push_char(&mut out, '"');
                out
            } else {
                t.clone()
            }
        },
        _ => json_string(c),
    }
}

/// The items joined with `,`.
fn push_joined(out: &mut String, items: &Vec<String>)
    ensures
        final(out)@ == old(out)@ + join_texts(items@.map_values(|s: String| s@), ","@),
{
    let ghost iv = items@.map_values(|s: String| s@);
    let ghost start = out@;
    let mut k: usize = 0;
    proof {
        reveal_strlit(",");
    }
    assert(iv.take(0) =~= Seq::<Seq<char>>::empty());
    assert(start + join_texts(iv.take(0), ","@) =~= start);
    while k < items.len()
        invariant
            iv == items@.map_values(|s: String| s@),
            ","@ == seq![','],
            k <= items@.len(),
            out@ == start + join_texts(iv.take(k as int), ","@),
        decreases items.len() - k,
    {
        proof {
            lemma_join_texts_step(iv, ","@, k as int);
        }
        if k > 0 {
            push_char(out, ',');
        }
        push_str(out, items[k].as_str());
        proof {
            if k == 0 {
                assert(out@ =~= start + join_texts(iv.take(1), ","@));
            } else {
                assert(out@ =~= start + join_texts(iv.take(k + 1), ","@));
            }
        }
        k = k + 1;
    }
    assert(iv.take(k as int) =~= iv);
}

/// A result as CSV, as `csv_text` lays it out.
pub fn render_csv(r: &QueryResult) -> (out: String)
    ensures
        out@ == csv_text(r),
{
    let mut out = String::new();
    push_joined(&mut out, &r.columns);
    push_char(&mut out, '\n');
    assert(out@ =~= join_texts(r.column_texts(), ","@).push('\n'));
    let ghost top = out@;
    let mut k: usize = 0;
    while k < r.rows.len()
        invariant
            k <= r.rows@.len(),
            out@ == top + csv_rows(r.row_cells(), k as int),
        decreases r.rows.len() - k,
    {
        let row = &r.rows[k];
        let mut fields: Vec<String> = Vec::new();
        let mut m: usize = 0;
        while m < row.len()
            invariant
                m <= row@.len(),
                fields@.len() == m,
                forall|q: int| 0 <= q < m ==> (#[trigger] fields@[q])@ == csv_field(row@[q]),
            decreases row.len() - m,
        {
            fields.push(csv_value(&row[m]));
            m = m + 1;
        }
        assert(fields@.map_values(|s: String| s@) =~= row@.map_values(|c: Cell| csv_field(c)));
        push_joined(&mut out, &fields);
        push_char(&mut out, '\n');
        assert(r.row_cells()[k as int] == row@);
        assert(out@ =~= top + csv_rows(r.row_cells(), k + 1));
        k = k + 1;
    }
    out
}

} // verus!
