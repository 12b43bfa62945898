use redis_dashboard::layout::scale_percent;
use redis_dashboard::layout::Layout;
use redis_dashboard::layout::Size;
use redis_dashboard::message::PublishMessage;
use redis_dashboard::render::border_cells;
use redis_dashboard::render::format_time;
use redis_dashboard::render::format_u64;
use redis_dashboard::render::header_labels;
use redis_dashboard::render::render_rows;
use redis_dashboard::render::BorderPart;
use redis_dashboard::table::EntryList;

#[test]
fn layout_arithmetic_for_82_by_24() {
    let l = Layout::new(Size::new(82, 24));
    assert_eq!(l.topic_width, 32);
    assert_eq!(l.value_width, 32);
    assert_eq!(l.time_width, 9);
    assert_eq!(l.count_width, 6);
    assert_eq!(l.topic_start, 1);
    assert_eq!(l.value_start, 33);
    assert_eq!(l.time_start, 65);
    assert_eq!(l.count_start, 74);
    assert_eq!(l.rows, 23);
}

#[test]
fn scale_percent_truncates() {
    assert_eq!(scale_percent(40, 80), 32);
    assert_eq!(scale_percent(12, 80), 9);
    assert_eq!(scale_percent(8, 80), 6);
    assert_eq!(scale_percent(33, 10), 3);
    assert_eq!(scale_percent(0, 100), 0);
}

#[test]
fn degenerate_dimensions_give_zero_widths() {
    let l = Layout::new(Size::new(2, 1));
    assert_eq!(l.topic_width, 0);
    assert_eq!(l.value_width, 0);
    assert_eq!(l.time_width, 0);
    assert_eq!(l.count_width, 0);
    assert_eq!(l.rows, 0);
    let l = Layout::new(Size::new(-5, -5));
    assert_eq!(l.topic_width, 0);
    assert_eq!(l.rows, -6);
}

#[test]
fn time_formatting_is_padded_clock_text() {
    // 1 h, 2 min, 3 s, 4 ms into the day
    let t = 3_600_000 + 2 * 60_000 + 3 * 1_000 + 4;
    assert_eq!(format_time(t), "01:02:03.004");
    assert_eq!(format_time(0), "00:00:00.000");
    assert_eq!(format_time(86_399_999), "23:59:59.999");
    // a timestamp beyond one day wraps to its time of day
    assert_eq!(format_time(86_400_000 + 61_000), "00:01:01.000");
}

#[test]
fn count_formatting_is_plain_decimal() {
    assert_eq!(format_u64(0), "0");
    assert_eq!(format_u64(7), "7");
    assert_eq!(format_u64(10), "10");
    assert_eq!(format_u64(12345), "12345");
    assert_eq!(format_u64(u64::MAX), "18446744073709551615");
}

#[test]
fn rows_follow_table_order_and_clip_to_capacity() {
    let mut list = EntryList::new();
    list.add(&PublishMessage::new(String::from("a"), String::from("1"), 1_000));
    list.add(&PublishMessage::new(String::from("b"), String::from("2"), 2_000));
    list.add(&PublishMessage::new(String::from("c"), String::from("3"), 3_000));
    let layout = Layout::new(Size::new(82, 24));
    let rows = render_rows(&list, &layout);
    assert_eq!(rows.len(), 3);
    assert_eq!(rows[0].row, 2);
    assert_eq!(rows[0].topic, "a");
    assert_eq!(rows[0].value, "1");
    assert_eq!(rows[0].time, "00:00:01.000");
    assert_eq!(rows[0].count, "1");
    assert_eq!(rows[2].row, 4);
    assert_eq!(rows[2].topic, "c");
    // a two-row capacity clips the third entry
    let small = Layout::new(Size::new(82, 3));
    let rows = render_rows(&list, &small);
    assert_eq!(rows.len(), 2);
    // a degenerate height draws nothing
    let none = Layout::new(Size::new(82, 0));
    assert_eq!(render_rows(&list, &none).len(), 0);
}

#[test]
fn header_has_the_four_labels() {
    let (a, b, c, d) = header_labels();
    assert_eq!(a, "Topic");
    assert_eq!(b, "Value");
    assert_eq!(c, "Time");
    assert_eq!(d, "Count");
}

#[test]
fn border_of_a_three_by_two_terminal() {
    let cells = border_cells(Size::new(3, 2));
    // 2 horizontal cells per edge, 1 vertical per edge, 4 corners
    assert_eq!(cells.len(), 2 * 2 + 2 * 1 + 4);
    assert!(matches!(cells[0].part, BorderPart::Horizontal));
    assert_eq!((cells[0].row, cells[0].col), (0, 0));
    assert_eq!((cells[1].row, cells[1].col), (0, 1));
    // bottom edge sits on row height-1
    assert_eq!((cells[2].row, cells[2].col), (1, 0));
    assert_eq!((cells[3].row, cells[3].col), (1, 1));
    // vertical edges
    assert!(matches!(cells[4].part, BorderPart::Vertical));
    assert_eq!((cells[4].row, cells[4].col), (0, 0));
    assert_eq!((cells[5].row, cells[5].col), (0, 2));
    // corners last
    assert!(matches!(cells[6].part, BorderPart::TopLeft));
    assert_eq!((cells[6].row, cells[6].col), (0, 0));
    assert!(matches!(cells[7].part, BorderPart::TopRight));
    assert_eq!((cells[7].row, cells[7].col), (0, 2));
    assert!(matches!(cells[8].part, BorderPart::BottomLeft));
    assert_eq!((cells[8].row, cells[8].col), (1, 0));
    assert!(matches!(cells[9].part, BorderPart::BottomRight));
    assert_eq!((cells[9].row, cells[9].col), (1, 2));
}

#[test]
fn border_of_a_degenerate_terminal_is_corners_only() {
    let cells = border_cells(Size::new(0, 0));
    assert_eq!(cells.len(), 4);
    assert!(matches!(cells[0].part, BorderPart::TopLeft));
    // the far corners land at negative coordinates the renderer skips
    assert_eq!((cells[1].row, cells[1].col), (0, -1));
    assert_eq!((cells[3].row, cells[3].col), (-1, -1));
}
