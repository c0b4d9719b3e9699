//! Points of an ASCII point cloud file.
//!
//! A header of lines names the columns, the number of points and the kind of data; what
//! follows it holds one point to a line, where blank lines count for nothing. Only the
//! columns `x`, `y` and `z` are read.
//!
//! Every point is one that the model holds: no text of the header is taken for a row, and
//! no file is refused for the way in which its lines end.
use vstd::prelude::*;
use vstd::utf8::{decode_utf8, encode_utf8, valid_utf8};

use crate::point::{cloud_of, is_sound, Point};
use crate::scalar::{finite, pz, settled, Triple};
use crate::text::{
    after_line, characters, count_of, decoding_adds_up, first_line, first_word_starts_the_line,
    has_no_feed, joined, lines, next_line, parse_count, same_text, split_words, texts, utf8_text,
    without_return, words, written_line_is_read_back, written_lines_are_read_back, Line,
};

verus! {

/// What a header says, and the lines that follow it.
pub struct HeaderModel {
    pub fields: Seq<Seq<char>>,
    /// The number of points, where the header has one.
    pub points: Option<usize>,
    pub ascii: bool,
    pub body: Seq<Seq<char>>,
}

/// Whether a line starts with this word.
pub open spec fn keyed(w: Seq<Seq<char>>, key: Seq<char>) -> bool {
    w.len() > 0 && w[0] == key
}

/// Reads the lines of a header, up to the one that says what data follows; `fields` and
/// `points` are what earlier lines said. Later lines of a kind replace earlier ones, and
/// unknown lines are passed over. `None` where the number of points or the kind of data is
/// missing from its line, where that number cannot be read, and where no line says what data
/// follows.
pub open spec fn header_of(
    lines: Seq<Seq<char>>,
    fields: Seq<Seq<char>>,
    points: Option<usize>,
) -> Option<HeaderModel>
    decreases lines.len(),
{
    if lines.len() == 0 {
        None
    } else {
        let w = words(lines[0]);
        let rest = lines.drop_first();
        if keyed(w, "FIELDS"@) {
            header_of(rest, w.drop_first(), points)
        } else if keyed(w, "POINTS"@) {
            if w.len() < 2 {
                None
            } else {
                match count_of(w[1]) {
                    Some(n) => header_of(rest, fields, Some(n)),
                    None => None,
                }
            }
        } else if keyed(w, "DATA"@) {
            if w.len() < 2 {
                None
            } else {
                Some(HeaderModel { fields, points, ascii: w[1] == "ascii"@, body: rest })
            }
        } else {
            header_of(rest, fields, points)
        }
    }
}

/// The header that some lines start with.
pub open spec fn whole_header(lines: Seq<Seq<char>>) -> Option<HeaderModel> {
    header_of(lines, Seq::empty(), None)
}

/// The first column of this name.
pub open spec fn column(fields: Seq<Seq<char>>, name: Seq<char>) -> Option<nat>
    decreases fields.len(),
{
    if fields.len() == 0 {
        None
    } else if fields[0] == name {
        Some(0)
    } else {
        match column(fields.drop_first(), name) {
            Some(i) => Some(i + 1),
            None => None,
        }
    }
}

/// Which columns hold the three coordinates.
#[derive(Clone, Copy, Debug, PartialEq, Eq, Structural)]
pub struct Columns {
    pub x: usize,
    pub y: usize,
    pub z: usize,
}

/// The texts of the three coordinates of a point.
pub struct CellTexts {
    pub x: Seq<char>,
    pub y: Seq<char>,
    pub z: Seq<char>,
}

/// The three coordinates on a line, where it has so many columns.
pub open spec fn row_of(line: Seq<char>, columns: Columns) -> Option<CellTexts> {
    let w = words(line);
    if columns.x < w.len() && columns.y < w.len() && columns.z < w.len() {
        Some(CellTexts { x: w[columns.x as int], y: w[columns.y as int], z: w[columns.z as int] })
    } else {
        None
    }
}

/// The lines that hold anything but white space. The others are no rows.
pub open spec fn filled(lines: Seq<Seq<char>>) -> Seq<Seq<char>>
    decreases lines.len(),
{
    if lines.len() == 0 {
        Seq::empty()
    } else if words(lines[0]).len() == 0 {
        filled(lines.drop_first())
    } else {
        seq![lines[0]] + filled(lines.drop_first())
    }
}

/// The first `limit` rows of a list of lines, or all where there are fewer. `None` where
/// one of them lacks a coordinate. What follows them is not looked at.
pub open spec fn rows_of(lines: Seq<Seq<char>>, columns: Columns, limit: nat) -> Option<
    Seq<CellTexts>,
> {
    let all = filled(lines);
    let n = if all.len() < limit {
        all.len()
    } else {
        limit
    };
    if forall|i: int| 0 <= i < n ==> row_of(#[trigger] all[i], columns) is Some {
        Some(Seq::new(n, |i: int| row_of(all[i], columns).unwrap()))
    } else {
        None
    }
}

/// The rows of a file, and how many of them are read at most.
pub struct TableModel {
    pub rows: Seq<CellTexts>,
    pub limit: usize,
}

/// How many rows are read at most: as many as the header announces, and one at least.
pub open spec fn limit_of(points: usize) -> usize {
    if points == 0 {
        1
    } else {
        points
    }
}

/// The columns of the coordinates, where a header names all three.
pub open spec fn columns_of(fields: Seq<Seq<char>>) -> Option<(nat, nat, nat)> {
    match (column(fields, "x"@), column(fields, "y"@), column(fields, "z"@)) {
        (Some(x), Some(y), Some(z)) => Some((x, y, z)),
        _ => None,
    }
}

/// What the lines of a file hold. `None` where the header cannot be read, does not name the
/// three columns, does not say how many points there are or announces other than ASCII
/// data, and where a row lacks a coordinate.
pub open spec fn table_of_lines(lines: Seq<Seq<char>>) -> Option<TableModel> {
    match whole_header(lines) {
        Some(h) => match (columns_of(h.fields), h.points) {
            (Some((x, y, z)), Some(points)) => if h.ascii {
                match rows_of(
                    h.body,
                    Columns { x: x as usize, y: y as usize, z: z as usize },
                    limit_of(points) as nat,
                ) {
                    Some(rows) => Some(TableModel { rows, limit: limit_of(points) }),
                    None => None,
                }
            } else {
                None
            },
            _ => None,
        },
        None => None,
    }
}

/// What a file holds, where its bytes are UTF-8.
pub open spec fn table_of(bytes: Seq<u8>) -> Option<TableModel> {
    if valid_utf8(bytes) {
        table_of_lines(lines(decode_utf8(bytes)))
    } else {
        None
    }
}

/// A header, as it is read, and where the text that follows it starts.
#[derive(Debug)]
struct Header {
    fields: Vec<String>,
    points: Option<usize>,
    ascii: bool,
    body: usize,
}

impl Header {
    /// What the header of a text says.
    closed spec fn model(self, text: Seq<char>) -> HeaderModel {
        HeaderModel {
            fields: texts(self.fields@),
            points: self.points,
            ascii: self.ascii,
            body: lines(text.skip(self.body as int)),
        }
    }
}

/// The lines of a text that has any are the first one and those that follow it.
proof fn lemma_lines_step(text: Seq<char>)
    requires
        text.len() > 0,
    ensures
        lines(text).len() > 0,
        lines(text)[0] == first_line(text),
        lines(text).drop_first() == lines(after_line(text)),
{
    assert(lines(text).drop_first() =~= lines(after_line(text)));
}

/// Reads a header.
fn read_header(text: &Vec<char>) -> (r: Option<Header>)
    ensures
        match r {
            Some(h) => h.body <= text.len() && whole_header(lines(text@)) == Some(h.model(text@)),
            None => whole_header(lines(text@)) is None,
        },
{
    let mut fields: Vec<String> = Vec::new();
    let mut points: Option<usize> = None;
    let mut i: usize = 0;
    assert(texts(fields@) == Seq::<Seq<char>>::empty());
    assert(text@.skip(0) == text@);
    while i < text.len()
        invariant
            i <= text.len(),
            whole_header(lines(text@)) == header_of(
                lines(text@.skip(i as int)),
                texts(fields@),
                points,
            ),
        decreases text.len() - i,
    {
        let ghost rest = text@.skip(i as int);
        proof {
            lemma_lines_step(rest);
        }
        let line: Line = next_line(text, i);
        let w: Vec<String> = split_words(text, line.start, line.end);
        let ghost ws = words(first_line(rest));
        assert(texts(w@) == ws);
        if w.len() > 0 {
            assert(ws[0] == w@[0]@);
            if same_text(w[0].as_str(), "FIELDS") {
                let mut names: Vec<String> = Vec::new();
                let mut k: usize = 1;
                while k < w.len()
                    invariant
                        1 <= k <= w.len(),
                        ws == texts(w@),
                        texts(names@) == ws.subrange(1, k as int),
                    decreases w.len() - k,
                {
                    let ghost taken = texts(names@);
                    names.push(w[k].clone());
                    assert(texts(names@) == taken.push(ws[k as int]));
                    k = k + 1;
                    assert(texts(names@) == ws.subrange(1, k as int));
                }
                assert(ws.subrange(1, k as int) == ws.drop_first());
                fields = names;
            } else if same_text(w[0].as_str(), "POINTS") {
                if w.len() < 2 {
                    return None;
                }
                match parse_count(w[1].as_str()) {
                    Some(n) => {
                        points = Some(n);
                    },
                    None => return None,
                }
            } else if same_text(w[0].as_str(), "DATA") {
                if w.len() < 2 {
                    return None;
                }
                let ascii: bool = same_text(w[1].as_str(), "ascii");
                return Some(Header { fields, points, ascii, body: line.next });
            }
        }
        i = line.next;
    }
    assert(text@.skip(i as int).len() == 0);
    None
}

/// Finds the first column of this name.
fn find_column(fields: &Vec<String>, name: &str) -> (r: Option<usize>)
    ensures
        match r {
            Some(i) => column(texts(fields@), name@) == Some(i as nat),
            None => column(texts(fields@), name@) is None,
        },
{
    let ghost all = texts(fields@);
    let mut i: usize = 0;
    assert(all.skip(0) == all);
    while i < fields.len()
        invariant
            i <= fields.len(),
            all == texts(fields@),
            match column(all.skip(i as int), name@) {
                Some(k) => column(all, name@) == Some((k + i) as nat),
                None => column(all, name@) is None,
            },
        decreases fields.len() - i,
    {
        let ghost rest = all.skip(i as int);
        assert(rest[0] == fields@[i as int]@);
        assert(rest.drop_first() == all.skip(i + 1));
        if same_text(fields[i].as_str(), name) {
            return Some(i);
        }
        i = i + 1;
    }
    None
}

/// The texts of the three coordinates of a point, not read as numbers yet.
#[derive(Debug)]
pub struct Cells {
    pub x: String,
    pub y: String,
    pub z: String,
}

impl View for Cells {
    type V = CellTexts;

    open spec fn view(&self) -> CellTexts {
        CellTexts { x: self.x@, y: self.y@, z: self.z@ }
    }
}

/// The rows of a file, and how many of them are read at most.
#[derive(Debug)]
pub struct Table {
    pub rows: Vec<Cells>,
    pub limit: usize,
}

/// The texts of a list of rows.
pub open spec fn row_texts(rows: Seq<Cells>) -> Seq<CellTexts> {
    Seq::new(rows.len(), |i: int| rows[i]@)
}

impl View for Table {
    type V = TableModel;

    open spec fn view(&self) -> TableModel {
        TableModel { rows: row_texts(self.rows@), limit: self.limit }
    }
}

/// Collects the first `limit` rows of a text from `start` on.
fn read_rows(text: &Vec<char>, start: usize, columns: Columns, limit: usize) -> (r: Option<
    Vec<Cells>,
>)
    requires
        start <= text.len(),
    ensures
        match r {
            Some(rows) => rows_of(lines(text@.skip(start as int)), columns, limit as nat) == Some(
                row_texts(rows@),
            ),
            None => rows_of(lines(text@.skip(start as int)), columns, limit as nat) is None,
        },
{
    let ghost all = filled(lines(text@.skip(start as int)));
    let ghost mut read: Seq<Seq<char>> = Seq::empty();
    let mut out: Vec<Cells> = Vec::new();
    let mut i: usize = start;
    assert(read + all == all);
    while i < text.len() && out.len() < limit
        invariant
            start <= i <= text.len(),
            out.len() <= limit,
            all == filled(lines(text@.skip(start as int))),
            all == read + filled(lines(text@.skip(i as int))),
            read.len() == out.len(),
            forall|k: int|
                0 <= k < out.len() ==> row_of(#[trigger] read[k], columns) == Some(out@[k]@),
        decreases text.len() - i,
    {
        let ghost rest = text@.skip(i as int);
        proof {
            lemma_lines_step(rest);
        }
        let line: Line = next_line(text, i);
        let w: Vec<String> = split_words(text, line.start, line.end);
        let ghost content = first_line(rest);
        let ghost ws = words(content);
        let ghost tail = filled(lines(text@.skip(line.next as int)));
        assert(texts(w@) == ws);
        if w.len() > 0 {
            assert(all == read + (seq![content] + tail));
            assert(all[read.len() as int] == content);
            if columns.x >= w.len() || columns.y >= w.len() || columns.z >= w.len() {
                return None;
            }
            let cells: Cells = Cells {
                x: w[columns.x].clone(),
                y: w[columns.y].clone(),
                z: w[columns.z].clone(),
            };
            assert(row_of(content, columns) == Some(cells@));
            out.push(cells);
            proof {
                let longer = read.push(content);
                assert(read + (seq![content] + tail) == longer + tail);
                assert forall|k: int| 0 <= k < out.len() implies row_of(
                    #[trigger] longer[k],
                    columns,
                ) == Some(out@[k]@) by {
                    if k < read.len() {
                        assert(longer[k] == read[k]);
                    }
                }
                read = longer;
            }
        }
        i = line.next;
    }
    proof {
        if i >= text.len() {
            assert(text@.skip(i as int).len() == 0);
            assert(all == read);
        }
        assert forall|k: int| 0 <= k < out.len() implies row_of(#[trigger] all[k], columns) == Some(
            out@[k]@,
        ) by {
            assert(all[k] == read[k]);
        }
        assert(rows_of(lines(text@.skip(start as int)), columns, limit as nat).unwrap()
            =~= row_texts(out@));
    }
    Some(out)
}

/// Reads the header and the rows of a file.
pub fn pcd_table(bytes: &[u8]) -> (r: Option<Table>)
    ensures
        match r {
            Some(table) => table_of(bytes@) == Some(table@),
            None => table_of(bytes@) is None,
        },
{
    let s: &str = match utf8_text(bytes) {
        Some(s) => s,
        None => return None,
    };
    let text: Vec<char> = characters(s);
    let h: Header = match read_header(&text) {
        Some(h) => h,
        None => return None,
    };
    let x: usize = match find_column(&h.fields, "x") {
        Some(i) => i,
        None => return None,
    };
    let y: usize = match find_column(&h.fields, "y") {
        Some(i) => i,
        None => return None,
    };
    let z: usize = match find_column(&h.fields, "z") {
        Some(i) => i,
        None => return None,
    };
    let points: usize = match h.points {
        Some(n) => n,
        None => return None,
    };
    if !h.ascii {
        return None;
    }
    let limit: usize = if points == 0 {
        1
    } else {
        points
    };
    match read_rows(&text, h.body, Columns { x, y, z }, limit) {
        Some(rows) => Some(Table { rows, limit }),
        None => None,
    }
}

/// The points of some rows that were read as numbers, each with a +Z normal. `None` where
/// one of them is none, and where there is no row.
pub open spec fn selected(readings: Seq<Option<Triple>>) -> Option<Seq<Point>> {
    if readings.len() > 0 && forall|i: int|
        0 <= i < readings.len() ==> #[trigger] readings[i] is Some {
        Some(
            Seq::new(
                readings.len(),
                |i: int| Point { pos: settled(readings[i].unwrap()), normal: pz() },
            ),
        )
    } else {
        None
    }
}

/// Makes points of the rows that were read as numbers.
pub fn pcd_select(readings: &[Option<Triple>]) -> (r: Option<Vec<Point>>)
    ensures
        cloud_of(r) == selected(readings@),
{
    let mut out: Vec<Point> = Vec::new();
    let mut i: usize = 0;
    while i < readings.len()
        invariant
            0 <= i <= readings.len(),
            forall|k: int| 0 <= k < i ==> #[trigger] readings@[k] is Some,
            out@ == Seq::new(
                i as nat,
                |k: int| Point { pos: settled(readings@[k].unwrap()), normal: pz() },
            ),
        decreases readings.len() - i,
    {
        match readings[i] {
            Some(v) => out.push(Point { pos: finite(v), normal: pz() }),
            None => return None,
        }
        i = i + 1;
    }
    if out.len() == 0 {
        None
    } else {
        Some(out)
    }
}

/// Whether a number reader may give this for a text.
pub open spec fn gives<F: Fn(&str) -> Option<u32>>(
    number: F,
    text: Seq<char>,
    r: Option<u32>,
) -> bool {
    exists|s: &str| s@ == text && #[trigger] call_ensures(number, (s,), r)
}

/// Whether a number reader may give this for a row: all three coordinates, or nothing
/// where one of them is no number.
pub open spec fn row_gives<F: Fn(&str) -> Option<u32>>(
    number: F,
    row: CellTexts,
    r: Option<Triple>,
) -> bool {
    match r {
        Some(v) => gives(number, row.x, Some(v.x)) && gives(number, row.y, Some(v.y)) && gives(
            number,
            row.z,
            Some(v.z),
        ),
        None => gives(number, row.x, None) || gives(number, row.y, None) || gives(
            number,
            row.z,
            None,
        ),
    }
}

/// Whether a number reader may give these for the rows.
pub open spec fn rows_give<F: Fn(&str) -> Option<u32>>(
    number: F,
    rows: Seq<CellTexts>,
    readings: Seq<Option<Triple>>,
) -> bool {
    readings.len() == rows.len() && forall|i: int|
        0 <= i < rows.len() ==> row_gives(number, rows[i], #[trigger] readings[i])
}

/// Whether this is the cloud of a file, for a number reader.
pub open spec fn is_pcd_cloud<F: Fn(&str) -> Option<u32>>(
    number: F,
    bytes: Seq<u8>,
    cloud: Option<Seq<Point>>,
) -> bool {
    match table_of(bytes) {
        Some(table) => exists|readings: Seq<Option<Triple>>| #[trigger]
            rows_give(number, table.rows, readings) && cloud == selected(readings),
        None => cloud is None,
    }
}

/// Reads one number.
fn read_number<F: Fn(&str) -> Option<u32>>(number: &F, text: &String) -> (r: Option<u32>)
    requires
        forall|s: &str| call_requires(*number, (s,)),
    ensures
        gives(*number, text@, r),
{
    let s: &str = text.as_str();
    let r: Option<u32> = number(s);
    assert(call_ensures(*number, (s,), r));
    r
}

/// Reads the three numbers of a row.
fn read_row<F: Fn(&str) -> Option<u32>>(number: &F, row: &Cells) -> (r: Option<Triple>)
    requires
        forall|s: &str| call_requires(*number, (s,)),
    ensures
        row_gives(*number, row@, r),
{
    let x: u32 = match read_number(number, &row.x) {
        Some(x) => x,
        None => return None,
    };
    let y: u32 = match read_number(number, &row.y) {
        Some(y) => y,
        None => return None,
    };
    let z: u32 = match read_number(number, &row.z) {
        Some(z) => z,
        None => return None,
    };
    Some(Triple { x, y, z })
}

/// Collects the points of an ASCII point cloud file. `number` reads a text as a single
/// precision number and gives its pattern. `None` on input that is malformed: where the
/// header cannot be read, and where a row lacks a coordinate or holds a text that is no
/// number.
pub fn pcd_points<F: Fn(&str) -> Option<u32>>(bytes: &[u8], number: &F) -> (r: Option<Vec<Point>>)
    requires
        forall|s: &str| call_requires(*number, (s,)),
    ensures
        is_pcd_cloud(*number, bytes@, cloud_of(r)),
{
    let table: Table = match pcd_table(bytes) {
        Some(table) => table,
        None => return None,
    };
    let mut readings: Vec<Option<Triple>> = Vec::new();
    let mut i: usize = 0;
    while i < table.rows.len()
        invariant
            0 <= i <= table.rows.len(),
            readings.len() == i,
            forall|s: &str| call_requires(*number, (s,)),
            forall|k: int|
                0 <= k < i ==> row_gives(*number, table@.rows[k], #[trigger] readings@[k]),
        decreases table.rows.len() - i,
    {
        readings.push(read_row(number, &table.rows[i]));
        i = i + 1;
    }
    let r: Option<Vec<Point>> = pcd_select(readings.as_slice());
    proof {
        let rows = table_of(bytes@).unwrap().rows;
        let cloud = cloud_of(r);
        assert(rows_give(*number, rows, readings@) && cloud == selected(readings@));
        assert(exists|readings: Seq<Option<Triple>>| #[trigger]
            rows_give(*number, rows, readings) && cloud == selected(readings));
    }
    r
}

/// A point cloud file that can be read has points, all at finite positions and with +Z
/// normals: one for each of its rows, and no more than its header announces, or one where
/// that is none.
pub proof fn pcd_cloud_is_sound<F: Fn(&str) -> Option<u32>>(
    number: F,
    bytes: Seq<u8>,
    points: Seq<Point>,
)
    requires
        is_pcd_cloud(number, bytes, Some(points)),
    ensures
        is_sound(points),
        forall|i: int| 0 <= i < points.len() ==> (#[trigger] points[i]).normal == pz(),
        points.len() == table_of(bytes).unwrap().rows.len(),
        points.len() <= table_of(bytes).unwrap().limit,
{
    let table = table_of(bytes).unwrap();
    let readings = choose|readings: Seq<Option<Triple>>| #[trigger]
        rows_give(number, table.rows, readings) && Some(points) == selected(readings);
    assert forall|i: int| 0 <= i < points.len() implies (#[trigger] points[i]).pos.all_finite()
        && points[i].normal == pz() by {
        assert(readings[i] is Some);
    }
}

/// A number reader that answers each text in one way makes one cloud of a file.
pub proof fn pcd_cloud_is_determined<F: Fn(&str) -> Option<u32>>(
    number: F,
    bytes: Seq<u8>,
    a: Option<Seq<Point>>,
    b: Option<Seq<Point>>,
)
    requires
        forall|text: Seq<char>, r: Option<u32>, s: Option<u32>| #[trigger]
            gives(number, text, r) && #[trigger] gives(number, text, s) ==> r == s,
        is_pcd_cloud(number, bytes, a),
        is_pcd_cloud(number, bytes, b),
    ensures
        a == b,
{
    if let Some(table) = table_of(bytes) {
        let x = choose|x: Seq<Option<Triple>>| #[trigger]
            rows_give(number, table.rows, x) && a == selected(x);
        let y = choose|y: Seq<Option<Triple>>| #[trigger]
            rows_give(number, table.rows, y) && b == selected(y);
        assert forall|i: int| 0 <= i < x.len() implies x[i] == y[i] by {
            assert(row_gives(number, table.rows[i], x[i]));
            assert(row_gives(number, table.rows[i], y[i]));
        }
        assert(x =~= y);
    }
}

/// Whether a line says what data follows.
pub open spec fn is_data_line(line: Seq<char>) -> bool {
    keyed(words(line), "DATA"@)
}

/// Whether some lines say what data follows.
pub open spec fn has_data_line(ls: Seq<Seq<char>>) -> bool {
    exists|i: int| 0 <= i < ls.len() && is_data_line(#[trigger] ls[i])
}

/// Whether these lines are a whole header: the last one says what data follows, and no
/// other does.
pub open spec fn is_whole_header(ls: Seq<Seq<char>>) -> bool {
    &&& ls.len() > 0
    &&& is_data_line(ls.last())
    &&& !has_data_line(ls.drop_last())
}

/// Lines of which none says what data follows are no header.
proof fn lemma_header_needs_data_line(
    ls: Seq<Seq<char>>,
    fields: Seq<Seq<char>>,
    points: Option<usize>,
)
    requires
        !has_data_line(ls),
    ensures
        header_of(ls, fields, points) is None,
    decreases ls.len(),
{
    if ls.len() > 0 {
        let rest = ls.drop_first();
        let w = words(ls[0]);
        assert(!is_data_line(ls[0]));
        if has_data_line(rest) {
            let i = choose|i: int| 0 <= i < rest.len() && is_data_line(#[trigger] rest[i]);
            assert(is_data_line(ls[i + 1]));
        }
        lemma_header_needs_data_line(rest, fields, points);
        lemma_header_needs_data_line(rest, w.drop_first(), points);
        if w.len() > 1 && count_of(w[1]) is Some {
            lemma_header_needs_data_line(rest, fields, Some(count_of(w[1]).unwrap()));
        }
    }
}

/// A whole header says the same whatever follows it, and just that is its body.
proof fn lemma_header_stops(
    ls: Seq<Seq<char>>,
    more: Seq<Seq<char>>,
    fields: Seq<Seq<char>>,
    points: Option<usize>,
)
    requires
        is_whole_header(ls),
    ensures
        header_of(ls + more, fields, points) == (match header_of(ls, fields, points) {
            Some(h) => Some(HeaderModel { body: more, ..h }),
            None => None,
        }),
    decreases ls.len(),
{
    reveal_strlit("FIELDS");
    reveal_strlit("POINTS");
    reveal_strlit("DATA");
    let rest = ls.drop_first();
    let w = words(ls[0]);
    assert((ls + more)[0] == ls[0]);
    assert((ls + more).drop_first() == rest + more);
    if rest.len() == 0 {
        assert(rest + more == more);
        assert(w[0] != "FIELDS"@ && w[0] != "POINTS"@) by {
            assert(w[0].len() == 4);
        }
    } else {
        assert(!is_data_line(ls[0])) by {
            assert(ls.drop_last()[0] == ls[0]);
        }
        if has_data_line(rest.drop_last()) {
            let shorter = rest.drop_last();
            let i = choose|i: int| 0 <= i < shorter.len() && is_data_line(#[trigger] shorter[i]);
            assert(is_data_line(ls.drop_last()[i + 1]));
        }
        lemma_header_stops(rest, more, fields, points);
        lemma_header_stops(rest, more, w.drop_first(), points);
        if w.len() > 1 && count_of(w[1]) is Some {
            lemma_header_stops(rest, more, fields, Some(count_of(w[1]).unwrap()));
        }
    }
}

/// Rows are read from just behind the header, however its lines end: a text of header lines
/// and some more says in its header what those lines say, and the lines that follow are
/// those of the rest.
pub proof fn rows_follow_the_header(ls: Seq<Seq<char>>, text: Seq<char>)
    requires
        forall|i: int| 0 <= i < ls.len() ==> has_no_feed(#[trigger] ls[i]),
        is_whole_header(ls.map_values(|l: Seq<char>| without_return(l))),
    ensures
        whole_header(lines(joined(ls) + text)) == (match whole_header(
            ls.map_values(|l: Seq<char>| without_return(l)),
        ) {
            Some(h) => Some(HeaderModel { body: lines(text), ..h }),
            None => None,
        }),
{
    written_lines_are_read_back(ls, text);
    lemma_header_stops(
        ls.map_values(|l: Seq<char>| without_return(l)),
        lines(text),
        Seq::empty(),
        None,
    );
}

/// A line with a carriage return at its end.
pub open spec fn returned(line: Seq<char>) -> Seq<char> {
    line.push('\r')
}

/// A file says the same whether its lines end with line feeds or with carriage returns and
/// line feeds.
pub proof fn line_ends_do_not_matter(ls: Seq<Seq<char>>)
    requires
        forall|i: int|
            0 <= i < ls.len() ==> has_no_feed(#[trigger] ls[i]) && without_return(ls[i]) == ls[i],
    ensures
        lines(joined(ls.map_values(|l: Seq<char>| returned(l)))) == lines(joined(ls)),
        table_of_lines(lines(joined(ls.map_values(|l: Seq<char>| returned(l)))))
            == table_of_lines(lines(joined(ls))),
{
    let ended = ls.map_values(|l: Seq<char>| returned(l));
    let none = Seq::<char>::empty();
    assert forall|i: int| 0 <= i < ended.len() implies has_no_feed(#[trigger] ended[i]) by {
        assert(has_no_feed(ls[i]));
        assert forall|k: int| 0 <= k < ended[i].len() implies #[trigger] ended[i][k] != '\n' by {
            if k < ls[i].len() {
                assert(ended[i][k] == ls[i][k]);
            }
        }
    }
    written_lines_are_read_back(ls, none);
    written_lines_are_read_back(ended, none);
    assert(joined(ls) + none == joined(ls));
    assert(joined(ended) + none == joined(ended));
    assert(ls.map_values(|l: Seq<char>| without_return(l)) =~= ended.map_values(
        |l: Seq<char>| without_return(l),
    )) by {
        assert forall|i: int| 0 <= i < ls.len() implies without_return(#[trigger] ls[i])
            == without_return(ended[i]) by {
            assert(returned(ls[i]).drop_last() == ls[i]);
        }
    }
}

/// A comment line at the start of a file changes nothing.
pub proof fn leading_comment_changes_nothing(comment: Seq<char>, bytes: Seq<u8>)
    requires
        comment.len() > 0,
        comment[0] == '#',
        has_no_feed(comment),
    ensures
        table_of(encode_utf8(comment + seq!['\n']) + bytes) == table_of(bytes),
{
    let line = comment + seq!['\n'];
    vstd::utf8::encode_utf8_valid_utf8(line);
    vstd::utf8::encode_utf8_decode_utf8(line);
    decoding_adds_up(encode_utf8(line), bytes);
    if valid_utf8(bytes) {
        let text = decode_utf8(bytes);
        written_line_is_read_back(comment, text);
        let first = without_return(comment);
        assert(first.len() > 0 && first[0] == '#');
        first_word_starts_the_line(first);
        reveal_strlit("FIELDS");
        reveal_strlit("POINTS");
        reveal_strlit("DATA");
        let all = seq![first] + lines(text);
        assert(all[0] == first);
        assert(all.drop_first() =~= lines(text));
        let w = words(first);
        assert(w[0][0] == '#');
        assert(!keyed(w, "FIELDS"@) && !keyed(w, "POINTS"@) && !keyed(w, "DATA"@));
    }
}

/// The same comment line leaves the cloud of a file as it is.
pub proof fn leading_comment_leaves_the_cloud<F: Fn(&str) -> Option<u32>>(
    number: F,
    comment: Seq<char>,
    bytes: Seq<u8>,
    cloud: Option<Seq<Point>>,
)
    requires
        comment.len() > 0,
        comment[0] == '#',
        has_no_feed(comment),
    ensures
        is_pcd_cloud(number, encode_utf8(comment + seq!['\n']) + bytes, cloud) <==> is_pcd_cloud(
            number,
            bytes,
            cloud,
        ),
{
    leading_comment_changes_nothing(comment, bytes);
}

/// A file has no cloud, whatever its rows hold, where it is no UTF-8, where no line says what
/// data follows or one says it is not ASCII, where the columns are not named, and where the
/// number of points is not given.
pub proof fn unreadable_header_has_no_cloud<F: Fn(&str) -> Option<u32>>(
    number: F,
    bytes: Seq<u8>,
    cloud: Option<Seq<Point>>,
)
    requires
        is_pcd_cloud(number, bytes, cloud),
        ({
            let ls = lines(decode_utf8(bytes));
            ||| !valid_utf8(bytes)
            ||| !has_data_line(ls)
            ||| match whole_header(ls) {
                Some(h) => columns_of(h.fields) is None || h.points is None || !h.ascii,
                None => true,
            }
        }),
    ensures
        cloud is None,
{
    let ls = lines(decode_utf8(bytes));
    if !has_data_line(ls) {
        lemma_header_needs_data_line(ls, Seq::empty(), None);
    }
}

/// A file has no cloud where one of the rows that are read lacks a coordinate.
pub proof fn short_row_has_no_cloud<F: Fn(&str) -> Option<u32>>(
    number: F,
    bytes: Seq<u8>,
    columns: Columns,
    i: int,
    cloud: Option<Seq<Point>>,
)
    requires
        is_pcd_cloud(number, bytes, cloud),
        valid_utf8(bytes),
        ({
            let h = whole_header(lines(decode_utf8(bytes)));
            &&& h is Some && h.unwrap().points is Some
            &&& columns_of(h.unwrap().fields) == Some(
                (columns.x as nat, columns.y as nat, columns.z as nat),
            )
            &&& 0 <= i < filled(h.unwrap().body).len()
            &&& i < limit_of(h.unwrap().points.unwrap())
            &&& row_of(filled(h.unwrap().body)[i], columns) is None
        }),
    ensures
        cloud is None,
{
}

/// A file has no cloud where one of the rows that are read holds a text that cannot be read
/// as a number.
pub proof fn row_without_numbers_has_no_cloud<F: Fn(&str) -> Option<u32>>(
    number: F,
    bytes: Seq<u8>,
    i: int,
    cloud: Option<Seq<Point>>,
)
    requires
        is_pcd_cloud(number, bytes, cloud),
        ({
            let rows = table_of(bytes).unwrap().rows;
            &&& 0 <= i < rows.len()
            &&& forall|v: Triple| !row_gives(number, rows[i], Some(v))
        }),
    ensures
        cloud is None,
{
    if let Some(table) = table_of(bytes) {
        let readings = choose|readings: Seq<Option<Triple>>| #[trigger]
            rows_give(number, table.rows, readings) && cloud == selected(readings);
        assert(row_gives(number, table.rows[i], readings[i]));
        if let Some(v) = readings[i] {
            assert(row_gives(number, table.rows[i], Some(v)));
        }
    }
}

/// Whether the first word of a line is this one.
pub open spec fn opens_with(line: Seq<char>, key: Seq<char>) -> bool {
    words(line).len() > 0 && words(line)[0] == key
}

/// Whether no line of a list opens with this word.
pub open spec fn none_opens_with(ls: Seq<Seq<char>>, key: Seq<char>) -> bool {
    forall|i: int| 0 <= i < ls.len() ==> !opens_with(#[trigger] ls[i], key)
}

/// The three words that a header is read by differ.
proof fn lemma_keys_differ()
    ensures
        "FIELDS"@ != "POINTS"@,
        "FIELDS"@ != "DATA"@,
        "POINTS"@ != "DATA"@,
{
    reveal_strlit("FIELDS");
    reveal_strlit("POINTS");
    reveal_strlit("DATA");
    assert("FIELDS"@[0] == 'F' && "POINTS"@[0] == 'P' && "DATA"@[0] == 'D');
}

/// What some lines of a header leave known, which do not end it; `None` where a number of
/// points among them cannot be read.
spec fn known_after(ls: Seq<Seq<char>>, fields: Seq<Seq<char>>, points: Option<usize>) -> Option<
    (Seq<Seq<char>>, Option<usize>),
>
    decreases ls.len(),
{
    if ls.len() == 0 {
        Some((fields, points))
    } else {
        let w = words(ls[0]);
        let rest = ls.drop_first();
        if opens_with(ls[0], "FIELDS"@) {
            known_after(rest, w.drop_first(), points)
        } else if opens_with(ls[0], "POINTS"@) {
            if w.len() >= 2 && count_of(w[1]) is Some {
                known_after(rest, fields, count_of(w[1]))
            } else {
                None
            }
        } else {
            known_after(rest, fields, points)
        }
    }
}

/// A header is read on from what its first lines leave known.
proof fn lemma_header_goes_on(
    ls: Seq<Seq<char>>,
    more: Seq<Seq<char>>,
    fields: Seq<Seq<char>>,
    points: Option<usize>,
)
    requires
        none_opens_with(ls, "DATA"@),
    ensures
        header_of(ls + more, fields, points) == (match known_after(ls, fields, points) {
            Some((f, p)) => header_of(more, f, p),
            None => None,
        }),
    decreases ls.len(),
{
    lemma_keys_differ();
    if ls.len() == 0 {
        assert(ls + more =~= more);
    } else {
        let rest = ls.drop_first();
        let w = words(ls[0]);
        assert((ls + more)[0] == ls[0]);
        assert((ls + more).drop_first() =~= rest + more);
        assert(!opens_with(ls[0], "DATA"@));
        assert forall|i: int| 0 <= i < rest.len() implies !opens_with(#[trigger] rest[i], "DATA"@) by {
            assert(rest[i] == ls[i + 1]);
        }
        lemma_header_goes_on(rest, more, fields, points);
        lemma_header_goes_on(rest, more, w.drop_first(), points);
        if w.len() > 1 {
            lemma_header_goes_on(rest, more, fields, count_of(w[1]));
        }
    }
}

/// What is known changes only by lines that say it anew, and is lost only by a number of
/// points that cannot be read.
proof fn lemma_known_stays(
    ls: Seq<Seq<char>>,
    fields: Seq<Seq<char>>,
    points: Option<usize>,
)
    ensures
        known_after(ls, fields, points) is Some <==> (forall|i: int|
            0 <= i < ls.len() && opens_with(#[trigger] ls[i], "POINTS"@) ==> words(ls[i]).len() >= 2
                && count_of(words(ls[i])[1]) is Some),
        known_after(ls, fields, points) matches Some((f, p)) ==> {
            &&& none_opens_with(ls, "FIELDS"@) ==> f == fields
            &&& none_opens_with(ls, "POINTS"@) ==> p == points
        },
    decreases ls.len(),
{
    lemma_keys_differ();
    if ls.len() > 0 {
        let rest = ls.drop_first();
        let w = words(ls[0]);
        lemma_known_stays(rest, fields, points);
        lemma_known_stays(rest, w.drop_first(), points);
        if w.len() > 1 {
            lemma_known_stays(rest, fields, count_of(w[1]));
        }
        assert forall|i: int| 0 <= i < rest.len() implies #[trigger] rest[i] == ls[i + 1] by {}
        assert(forall|i: int| 0 < i < ls.len() ==> #[trigger] ls[i] == rest[i - 1]);
        if none_opens_with(ls, "FIELDS"@) {
            assert(none_opens_with(rest, "FIELDS"@));
            assert(!opens_with(ls[0], "FIELDS"@));
        }
        if none_opens_with(ls, "POINTS"@) {
            assert(none_opens_with(rest, "POINTS"@));
            assert(!opens_with(ls[0], "POINTS"@));
        }
        if known_after(ls, fields, points) is Some {
            assert forall|i: int|
                0 <= i < ls.len() && opens_with(#[trigger] ls[i], "POINTS"@) implies words(
                ls[i],
            ).len() >= 2 && count_of(words(ls[i])[1]) is Some by {
                if i > 0 {
                    assert(opens_with(rest[i - 1], "POINTS"@));
                }
            }
        }
        if forall|i: int|
            0 <= i < ls.len() && opens_with(#[trigger] ls[i], "POINTS"@) ==> words(ls[i]).len() >= 2
                && count_of(words(ls[i])[1]) is Some {
            assert forall|i: int|
                0 <= i < rest.len() && opens_with(#[trigger] rest[i], "POINTS"@) implies words(
                rest[i],
            ).len() >= 2 && count_of(words(rest[i])[1]) is Some by {
                assert(opens_with(ls[i + 1], "POINTS"@));
            }
        }
    }
}

/// A line of a header whose first word is none of the three that it is read by changes
/// nothing, wherever it stands: the header, and so all that is read of the file, is the same
/// with and without it.
pub proof fn other_header_lines_change_nothing(
    before: Seq<Seq<char>>,
    line: Seq<char>,
    after: Seq<Seq<char>>,
)
    requires
        none_opens_with(before, "DATA"@),
        !opens_with(line, "FIELDS"@),
        !opens_with(line, "POINTS"@),
        !opens_with(line, "DATA"@),
    ensures
        whole_header(before + seq![line] + after) == whole_header(before + after),
        table_of_lines(before + seq![line] + after) == table_of_lines(before + after),
{
    let none = Seq::<Seq<char>>::empty();
    let led = seq![line] + after;
    lemma_header_goes_on(before, led, none, None);
    lemma_header_goes_on(before, after, none, None);
    assert(before + seq![line] + after =~= before + led);
    assert(led[0] == line);
    assert(led.drop_first() =~= after);
    if let Some((f, p)) = known_after(before, none, None) {
        assert(header_of(led, f, p) == header_of(after, f, p));
    }
}

/// A header can be read just where a line says what data follows, with the word for it, and
/// every number of points before that is one. Its body is what follows that line, and it is
/// ASCII where that word says so.
pub proof fn header_ends_at_its_data_line(
    before: Seq<Seq<char>>,
    data: Seq<char>,
    body: Seq<Seq<char>>,
)
    requires
        none_opens_with(before, "DATA"@),
        opens_with(data, "DATA"@),
    ensures
        whole_header(before) is None,
        whole_header(before + seq![data] + body) is Some <==> words(data).len() >= 2 && forall|
            i: int,
        |
            0 <= i < before.len() && opens_with(#[trigger] before[i], "POINTS"@) ==> words(
                before[i],
            ).len() >= 2 && count_of(words(before[i])[1]) is Some,
        whole_header(before + seq![data] + body) matches Some(h) ==> {
            &&& h.body == body
            &&& h.ascii <==> words(data)[1] == "ascii"@
            &&& none_opens_with(before, "FIELDS"@) ==> h.fields.len() == 0
            &&& none_opens_with(before, "POINTS"@) ==> h.points is None
        },
{
    lemma_keys_differ();
    let none = Seq::<Seq<char>>::empty();
    let led = seq![data] + body;
    lemma_header_goes_on(before, led, none, None);
    lemma_header_goes_on(before, none, none, None);
    assert(before + none =~= before);
    lemma_known_stays(before, none, None);
    assert(before + seq![data] + body =~= before + led);
    assert(led[0] == data);
    assert(led.drop_first() =~= body);
}

/// The columns of a header are the words that follow the first one of the last line that
/// names any.
pub proof fn last_fields_line_names_the_columns(
    before: Seq<Seq<char>>,
    fields: Seq<char>,
    between: Seq<Seq<char>>,
    data: Seq<char>,
    body: Seq<Seq<char>>,
)
    requires
        none_opens_with(before, "DATA"@),
        opens_with(fields, "FIELDS"@),
        none_opens_with(between, "DATA"@),
        none_opens_with(between, "FIELDS"@),
        opens_with(data, "DATA"@),
    ensures
        whole_header(before + seq![fields] + between + seq![data] + body) matches Some(h)
            ==> h.fields.len() == words(fields).len() - 1 && forall|i: int|
            0 <= i < h.fields.len() ==> #[trigger] h.fields[i] == words(fields)[i + 1],
{
    lemma_keys_differ();
    let none = Seq::<Seq<char>>::empty();
    let tail = seq![data] + body;
    let rest = between + tail;
    let led = seq![fields] + rest;
    lemma_header_goes_on(before, led, none, None);
    assert(before + seq![fields] + between + seq![data] + body =~= before + led);
    assert(led[0] == fields && led.drop_first() =~= rest);
    assert(tail[0] == data);
    if let Some((f, p)) = known_after(before, none, None) {
        let named = words(fields).drop_first();
        lemma_header_goes_on(between, tail, named, p);
        lemma_known_stays(between, named, p);
    }
}

/// The number of points of a header is the second word of the last line that gives one.
pub proof fn last_points_line_gives_the_number(
    before: Seq<Seq<char>>,
    points: Seq<char>,
    between: Seq<Seq<char>>,
    data: Seq<char>,
    body: Seq<Seq<char>>,
)
    requires
        none_opens_with(before, "DATA"@),
        opens_with(points, "POINTS"@),
        none_opens_with(between, "DATA"@),
        none_opens_with(between, "POINTS"@),
        opens_with(data, "DATA"@),
    ensures
        whole_header(before + seq![points] + between + seq![data] + body) matches Some(h)
            ==> h.points is Some && h.points == count_of(words(points)[1]),
{
    lemma_keys_differ();
    let none = Seq::<Seq<char>>::empty();
    let tail = seq![data] + body;
    let rest = between + tail;
    let led = seq![points] + rest;
    lemma_header_goes_on(before, led, none, None);
    assert(before + seq![points] + between + seq![data] + body =~= before + led);
    assert(led[0] == points && led.drop_first() =~= rest);
    assert(tail[0] == data);
    if let Some((f, p)) = known_after(before, none, None) {
        if words(points).len() > 1 && count_of(words(points)[1]) is Some {
            lemma_header_goes_on(between, tail, f, count_of(words(points)[1]));
            lemma_known_stays(between, f, count_of(words(points)[1]));
        }
    }
}

/// A column is the first one with its name, and it is missing where none has that name.
pub proof fn columns_are_the_first_of_their_name(fields: Seq<Seq<char>>, name: Seq<char>)
    ensures
        match column(fields, name) {
            Some(i) => i < fields.len() && fields[i as int] == name && forall|k: int|
                0 <= k < i ==> #[trigger] fields[k] != name,
            None => forall|k: int| 0 <= k < fields.len() ==> #[trigger] fields[k] != name,
        },
    decreases fields.len(),
{
    if fields.len() > 0 {
        let rest = fields.drop_first();
        columns_are_the_first_of_their_name(rest, name);
        assert(forall|k: int| 0 < k < fields.len() ==> #[trigger] fields[k] == rest[k - 1]);
    }
}

/// Whether this is the first of some words that is this one.
pub open spec fn is_first(fields: Seq<Seq<char>>, name: Seq<char>, i: nat) -> bool {
    i < fields.len() && fields[i as int] == name && forall|k: int|
        0 <= k < i ==> #[trigger] fields[k] != name
}

/// The coordinates are in the first columns that are named `x`, `y` and `z`, and all three
/// must be named.
pub proof fn coordinates_are_found_by_name(fields: Seq<Seq<char>>)
    ensures
        match columns_of(fields) {
            Some((x, y, z)) => is_first(fields, seq!['x'], x) && is_first(fields, seq!['y'], y)
                && is_first(fields, seq!['z'], z),
            None => !fields.contains(seq!['x']) || !fields.contains(seq!['y']) || !fields.contains(
                seq!['z'],
            ),
        },
{
    reveal_strlit("x");
    reveal_strlit("y");
    reveal_strlit("z");
    assert("x"@ =~= seq!['x']);
    assert("y"@ =~= seq!['y']);
    assert("z"@ =~= seq!['z']);
    columns_are_the_first_of_their_name(fields, "x"@);
    columns_are_the_first_of_their_name(fields, "y"@);
    columns_are_the_first_of_their_name(fields, "z"@);
}

/// The rows of a list of lines are its lines in their order, without those that hold nothing
/// but white space.
pub proof fn only_blank_lines_are_no_rows(line: Seq<char>, more: Seq<Seq<char>>)
    ensures
        filled(Seq::<Seq<char>>::empty()).len() == 0,
        words(line).len() == 0 ==> filled(seq![line] + more) == filled(more),
        words(line).len() > 0 ==> filled(seq![line] + more) == seq![line] + filled(more),
{
    let all = seq![line] + more;
    assert(all[0] == line);
    assert(all.drop_first() =~= more);
}

/// The rows that are read are the first ones, as many as the limit allows, and each holds
/// the words of its line in the three columns. They are not read where one of those lines
/// has too few words.
pub proof fn rows_hold_the_words_of_their_columns(
    lines: Seq<Seq<char>>,
    columns: Columns,
    limit: nat,
)
    ensures
        ({
            let all = filled(lines);
            match rows_of(lines, columns, limit) {
                Some(rows) => {
                    &&& rows.len() <= all.len() && rows.len() <= limit
                    &&& rows.len() == all.len() || rows.len() == limit
                    &&& forall|i: int|
                        0 <= i < rows.len() ==> {
                            let w = words(all[i]);
                            &&& columns.x < w.len() && columns.y < w.len() && columns.z < w.len()
                            &&& (#[trigger] rows[i]).x == w[columns.x as int]
                            &&& rows[i].y == w[columns.y as int]
                            &&& rows[i].z == w[columns.z as int]
                        }
                },
                None => exists|i: int|
                    0 <= i < all.len() && i < limit && {
                        let w = words(#[trigger] all[i]);
                        columns.x >= w.len() || columns.y >= w.len() || columns.z >= w.len()
                    },
            }
        }),
{
    let all = filled(lines);
    if let Some(rows) = rows_of(lines, columns, limit) {
        assert forall|i: int| 0 <= i < rows.len() implies ({
            let w = words(all[i]);
            &&& columns.x < w.len() && columns.y < w.len() && columns.z < w.len()
            &&& (#[trigger] rows[i]).x == w[columns.x as int]
            &&& rows[i].y == w[columns.y as int]
            &&& rows[i].z == w[columns.z as int]
        }) by {
            assert(row_of(all[i], columns) is Some);
        }
    }
}

/// A file is read where its bytes are a text and its header can be read, names the three
/// columns, gives the number of points and announces ASCII data, and where its rows can be
/// read: as many as announced, and one at least. Those are what it holds.
pub proof fn tables_are_headers_and_rows(text: Seq<char>, bytes: Seq<u8>)
    ensures
        table_of(encode_utf8(text)) == table_of_lines(lines(text)),
        !valid_utf8(bytes) ==> table_of(bytes) is None,
        whole_header(lines(text)) is None ==> table_of_lines(lines(text)) is None,
        whole_header(lines(text)) matches Some(h) ==> match (columns_of(h.fields), h.points) {
            (Some((x, y, z)), Some(n)) => {
                let rows = rows_of(
                    h.body,
                    Columns { x: x as usize, y: y as usize, z: z as usize },
                    if n == 0 {
                        1
                    } else {
                        n as nat
                    },
                );
                &&& !h.ascii || rows is None ==> table_of_lines(lines(text)) is None
                &&& h.ascii && rows is Some ==> (table_of_lines(lines(text)) matches Some(t)
                    && t.rows == rows.unwrap() && t.limit >= 1 && (n > 0 ==> t.limit == n) && (n
                    == 0 ==> t.limit == 1))
            },
            _ => table_of_lines(lines(text)) is None,
        },
{
    vstd::utf8::encode_utf8_valid_utf8(text);
    vstd::utf8::encode_utf8_decode_utf8(text);
}

/// The points of a file: one for each row, at the numbers that the reader gives for its three
/// texts, or at the origin where one of those is not finite, and with a +Z normal. A file has
/// no points only where it cannot be read, has no row or holds a text that is no number.
pub proof fn points_stand_where_their_rows_say<F: Fn(&str) -> Option<u32>>(
    number: F,
    bytes: Seq<u8>,
    cloud: Option<Seq<Point>>,
)
    requires
        is_pcd_cloud(number, bytes, cloud),
    ensures
        cloud matches Some(points) ==> {
            &&& table_of(bytes) is Some
            &&& points.len() == table_of(bytes).unwrap().rows.len()
            &&& points.len() > 0
            &&& forall|i: int|
                0 <= i < points.len() ==> {
                    let row = table_of(bytes).unwrap().rows[i];
                    &&& exists|x: &str, y: &str, z: &str, v: Triple|
                        {
                            &&& x@ == row.x && y@ == row.y && z@ == row.z
                            &&& #[trigger] call_ensures(number, (x,), Some(v.x))
                            &&& #[trigger] call_ensures(number, (y,), Some(v.y))
                            &&& #[trigger] call_ensures(number, (z,), Some(v.z))
                            &&& points[i].pos == settled(v)
                        }
                    &&& (#[trigger] points[i]).normal == (Triple { x: 0, y: 0, z: 0x3f80_0000 })
                }
        },
        cloud is None && table_of(bytes) is Some && table_of(bytes).unwrap().rows.len() > 0
            ==> exists|i: int, s: &str|
            0 <= i < table_of(bytes).unwrap().rows.len() && #[trigger] call_ensures(
                number,
                (s,),
                None,
            ) && {
                let row = #[trigger] table_of(bytes).unwrap().rows[i];
                s@ == row.x || s@ == row.y || s@ == row.z
            },
{
    if let Some(table) = table_of(bytes) {
        let readings = choose|readings: Seq<Option<Triple>>| #[trigger]
            rows_give(number, table.rows, readings) && cloud == selected(readings);
        if let Some(points) = cloud {
            assert forall|i: int| 0 <= i < points.len() implies ({
                let row = table.rows[i];
                &&& exists|x: &str, y: &str, z: &str, v: Triple|
                    {
                        &&& x@ == row.x && y@ == row.y && z@ == row.z
                        &&& #[trigger] call_ensures(number, (x,), Some(v.x))
                        &&& #[trigger] call_ensures(number, (y,), Some(v.y))
                        &&& #[trigger] call_ensures(number, (z,), Some(v.z))
                        &&& points[i].pos == settled(v)
                    }
                &&& (#[trigger] points[i]).normal == (Triple { x: 0, y: 0, z: 0x3f80_0000 })
            }) by {
                let row = table.rows[i];
                assert(readings[i] is Some);
                let v = readings[i].unwrap();
                assert(row_gives(number, row, readings[i]));
                let x = choose|s: &str|
                    s@ == row.x && #[trigger] call_ensures(number, (s,), Some(v.x));
                let y = choose|s: &str|
                    s@ == row.y && #[trigger] call_ensures(number, (s,), Some(v.y));
                let z = choose|s: &str|
                    s@ == row.z && #[trigger] call_ensures(number, (s,), Some(v.z));
                assert(call_ensures(number, (x,), Some(v.x)) && call_ensures(
                    number,
                    (y,),
                    Some(v.y),
                ) && call_ensures(number, (z,), Some(v.z)));
            }
        } else if table.rows.len() > 0 {
            let i = choose|i: int| 0 <= i < readings.len() && #[trigger] readings[i] is None;
            let row = table.rows[i];
            assert(row_gives(number, row, readings[i]));
            let s = choose|s: &str|
                (s@ == row.x || s@ == row.y || s@ == row.z) && #[trigger] call_ensures(
                    number,
                    (s,),
                    None,
                );
            assert(call_ensures(number, (s,), None::<u32>));
        }
    }
}

} // verus!
