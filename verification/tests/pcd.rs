use lana_khora::pcd::{pcd_points, pcd_select, pcd_table, Table};
use lana_khora::point::Point;
use lana_khora::scalar::{origin, pz, Triple};

fn triple(x: f32, y: f32, z: f32) -> Triple {
    Triple { x: x.to_bits(), y: y.to_bits(), z: z.to_bits() }
}

fn point(x: f32, y: f32, z: f32) -> Point {
    Point { pos: triple(x, y, z), normal: pz() }
}

fn number(s: &str) -> Option<u32> {
    s.parse::<f32>().ok().map(f32::to_bits)
}

fn read(text: &str) -> Option<Vec<Point>> {
    pcd_points(text.as_bytes(), &number)
}

fn cells(table: &Table) -> Vec<(&str, &str, &str)> {
    table.rows.iter().map(|c| (c.x.as_str(), c.y.as_str(), c.z.as_str())).collect()
}

const HEAD: &str = "# .PCD v.7\nVERSION .7\nFIELDS x y z\nSIZE 4 4 4\nPOINTS 2\nDATA ascii\n";

#[test]
fn ascii_file_is_read() {
    let text = format!("{HEAD}1 2 3\n-4.5 5e1 6\n");
    assert_eq!(read(&text), Some(vec![point(1.0, 2.0, 3.0), point(-4.5, 50.0, 6.0)]));
}

#[test]
fn columns_are_found_by_name() {
    let text = "FIELDS rgb z y normal x\nPOINTS 1\nDATA ascii\n7 3 2 0 1\n";
    assert_eq!(read(text), Some(vec![point(1.0, 2.0, 3.0)]));
    let twice = "FIELDS x x y z\nPOINTS 1\nDATA ascii\n1 9 2 3\n";
    assert_eq!(read(twice), Some(vec![point(1.0, 2.0, 3.0)]));
}

#[test]
fn no_more_points_than_announced() {
    let text = format!("{HEAD}1 0 0\n2 0 0\n3 0 0\n");
    assert_eq!(read(&text), Some(vec![point(1.0, 0.0, 0.0), point(2.0, 0.0, 0.0)]));
}

#[test]
fn one_point_at_least() {
    let body = "1 0 0\n2 0 0\n";
    assert_eq!(
        read(&format!("FIELDS x y z\nPOINTS 0\nDATA ascii\n{body}")),
        Some(vec![point(1.0, 0.0, 0.0)])
    );
}

#[test]
fn rows_that_cannot_be_read_spoil_the_file() {
    assert_eq!(read(&format!("{HEAD}1 2 3\n1 2\n")), None);
    assert_eq!(read(&format!("{HEAD}1 2\n1 2 3\n")), None);
    assert_eq!(read(&format!("{HEAD}1 2 3,\n4 5 6\n")), None);
    assert_eq!(read(&format!("{HEAD}1 2 3\nx y z\n")), None);
    assert!(pcd_table(format!("{HEAD}1 2 3\nx y z\n").as_bytes()).is_some());
    assert!(pcd_table(format!("{HEAD}1 2 3\nx y\n").as_bytes()).is_none());
    assert_eq!(read(&format!("{HEAD}a b c\n")), None);
    assert_eq!(read(&format!("{HEAD}# 2 3\n1 2 3\n")), None);
    assert_eq!(read(HEAD), None);
}

#[test]
fn blank_lines_are_no_rows() {
    let text = format!("{HEAD}\n1 2 3\n \t\n\r\n4 5 6 7\n\n");
    assert_eq!(read(&text), Some(vec![point(1.0, 2.0, 3.0), point(4.0, 5.0, 6.0)]));
    assert_eq!(read(&format!("{HEAD}\n \n\n")), None);
}

#[test]
fn what_follows_the_announced_rows_is_not_read() {
    let text = format!("{HEAD}1 2 3\n4 5 6\nx\n");
    assert_eq!(read(&text), Some(vec![point(1.0, 2.0, 3.0), point(4.0, 5.0, 6.0)]));
}

#[test]
fn fewer_rows_than_announced_are_all_read() {
    assert_eq!(read(&format!("{HEAD}1 2 3\n")), Some(vec![point(1.0, 2.0, 3.0)]));
}

#[test]
fn numbers_that_are_not_finite_are_settled() {
    let text = format!("{HEAD}NaN 0 0\n1 inf 2\n");
    let o = Point { pos: origin(), normal: pz() };
    assert_eq!(read(&text), Some(vec![o, o]));
}

#[test]
fn later_lines_replace_earlier_ones() {
    let text = "FIELDS a b c\nFIELDS x y z\nPOINTS 1\nPOINTS 2\nDATA ascii\n1 2 3\n4 5 6\n7 8 9\n";
    assert_eq!(read(text), Some(vec![point(1.0, 2.0, 3.0), point(4.0, 5.0, 6.0)]));
}

#[test]
fn bad_headers_are_refused() {
    let row = "1 2 3\n";
    for head in [
        "FIELDS x y z\nPOINTS 1\nDATA binary\n",
        "FIELDS x y z\nPOINTS 1\nDATA binary_compressed\n",
        "FIELDS x y z\nPOINTS 1\nDATA\n",
        "FIELDS x y z\nPOINTS\nDATA ascii\n",
        "FIELDS x y z\nPOINTS many\nDATA ascii\n",
        "FIELDS x y z\nPOINTS -1\nDATA ascii\n",
        "FIELDS x y\nPOINTS 1\nDATA ascii\n",
        "FIELDS y z\nPOINTS 1\nDATA ascii\n",
        "FIELDS x z\nPOINTS 1\nDATA ascii\n",
        "FIELDS\nPOINTS 1\nDATA ascii\n",
        "POINTS 1\nDATA ascii\n",
        "FIELDS x y z\nDATA ascii\n",
        "FIELDS x y z\npoints 1\nDATA ascii\n",
        "fields x y z\nPOINTS 1\nDATA ascii\n",
    ] {
        assert_eq!(read(&format!("{head}{row}")), None, "{head}");
    }
}

#[test]
fn file_without_data_line_has_no_rows() {
    assert_eq!(read("FIELDS x y z\nPOINTS 1\n1 2 3\n"), None);
    assert_eq!(read("FIELDS x y z\nPOINTS 1\n1 2 3"), None);
    assert_eq!(read("FIELDS x y z\r\nPOINTS 1\r\n1 2 3\r\n"), None);
    let many = "FIELDS x y z\r\nPOINTS 1\r\n\r\n\r\n\r\n\r\n\r\n1 2 3\r\n";
    assert!(pcd_table(many.as_bytes()).is_none());
    assert_eq!(read(""), None);
}

#[test]
fn bytes_that_are_no_text_are_refused() {
    let mut bytes = HEAD.as_bytes().to_vec();
    bytes.extend_from_slice(b"1 2 3\n\xff\n");
    assert!(pcd_table(&bytes).is_none());
}

#[test]
fn data_line_without_an_end_has_no_rows() {
    for text in ["FIELDS x y z\nPOINTS 1\nDATA ascii", "FIELDS x y z\nPOINTS 1\nDATA ascii\n"] {
        assert!(pcd_table(text.as_bytes()).unwrap().rows.is_empty());
        assert_eq!(read(text), None);
    }
}

#[test]
fn body_starts_behind_the_header() {
    let text = "FIELDS x y z \u{e9}\u{20ac}\u{1f600}\nPOINTS 7\nDATA ascii\n1 2 3\n4 5 6";
    let table = pcd_table(text.as_bytes()).unwrap();
    assert_eq!(table.limit, 7);
    assert_eq!(cells(&table), vec![("1", "2", "3"), ("4", "5", "6")]);
}

#[test]
fn carriage_returns_do_not_matter() {
    let text = "FIELDS x y z\r\nPOINTS 2\r\nDATA ascii\r\n1 2 3\r\n4 5 6\r\n";
    assert_eq!(read(text), Some(vec![point(1.0, 2.0, 3.0), point(4.0, 5.0, 6.0)]));
    assert_eq!(read(text), read(&text.replace('\r', "")));
    let long = "# a\r\n# b\r\n# c\r\n# d\r\nVERSION .7\r\nFIELDS x y z\r\nPOINTS 2\r\n\
                DATA ascii 8 9\r\n1 2 3\r\n4 5 6\r\n";
    let table = pcd_table(long.as_bytes()).unwrap();
    assert_eq!(cells(&table), vec![("1", "2", "3"), ("4", "5", "6")]);
}

#[test]
fn leading_comments_change_nothing() {
    let text = format!("{HEAD}1 2 3\n-4.5 5e1 6\n");
    for comment in ["#", "# DATA ascii", "#FIELDS a b", "# \u{e9}\u{1f600}\r", "# POINTS x"] {
        let longer = format!("{comment}\n{text}");
        assert_eq!(read(&longer), read(&text), "{comment}");
        let broken = format!("{comment}\n{}", &HEAD[..30]);
        assert_eq!(read(&broken), None);
    }
}

#[test]
fn words_are_parted_by_any_white_space() {
    let text = "\u{3000}FIELDS\u{a0}x\ty\u{2003}z\u{85}\nPOINTS 1\nDATA ascii\n\u{2028}1\u{205f}2\x0b3\n";
    assert_eq!(read(text), Some(vec![point(1.0, 2.0, 3.0)]));
}

#[test]
fn selection() {
    let a = triple(1.0, 2.0, 3.0);
    let b = triple(4.0, 5.0, 6.0);
    let pa = Point { pos: a, normal: pz() };
    let pb = Point { pos: b, normal: pz() };
    assert_eq!(pcd_select(&[Some(a), Some(b), Some(a)]), Some(vec![pa, pb, pa]));
    assert_eq!(pcd_select(&[Some(a), None, Some(b)]), None);
    assert_eq!(pcd_select(&[None]), None);
    assert_eq!(pcd_select(&[]), None);
}
