use domrs::ToText;
use hex_logo::geometry::{create_path_points, Point};
use hex_logo::shapes::{
    create_svg_line, create_svg_path, create_svg_rect, create_svg_text, Font,
};

fn bold(size: u32) -> Font {
    Font { family: "Roboto".to_string(), weight: "bold".to_string(), size }
}

#[test]
fn rect_of_the_canvas() {
    let rect = create_svg_rect(0, 0, 700_000_000, 700_000_000, "#33691E");
    assert_eq!(
        rect.to_text(0, 2),
        "<rect x=\"0.0\" y=\"0.0\" width=\"700.0\" height=\"700.0\" stroke=\"none\" fill=\"#33691E\"/>"
    );
}

#[test]
fn rect_rounds_its_measures() {
    let rect = create_svg_rect(-1_250_000, 2_350_000, 10_049_999, 99_950_000, "none");
    assert_eq!(
        rect.to_text(0, 2),
        "<rect x=\"-1.2\" y=\"2.4\" width=\"10.0\" height=\"100.0\" stroke=\"none\" fill=\"none\"/>"
    );
}

#[test]
fn path_through_the_hexagon() {
    let points = create_path_points(350_000_000, 350_000_000, 315_000_000);
    let path = create_svg_path(&points, "#64DD17");
    assert_eq!(
        path.to_text(0, 2),
        "<path d=\"M 622.8,192.5 L 350.0,35.0 L 77.2,192.5 L 77.2,507.5 L 350.0,665.0 L 622.8,507.5 Z\" stroke=\"none\" fill=\"#64DD17\"/>"
    );
}

#[test]
fn path_keeps_the_order_of_its_points() {
    let points = vec![
        Point { x: 1_000_000, y: 2_000_000 },
        Point { x: 3_000_000, y: 4_000_000 },
        Point { x: 5_000_000, y: 6_000_000 },
        Point { x: -7_000_000, y: 8_000_000 },
        Point { x: 9_000_000, y: -10_000_000 },
        Point { x: 11_000_000, y: 12_000_000 },
    ];
    let path = create_svg_path(&points, "red");
    assert_eq!(
        path.to_text(0, 2),
        "<path d=\"M 1.0,2.0 L 3.0,4.0 L 5.0,6.0 L -7.0,8.0 L 9.0,-10.0 L 11.0,12.0 Z\" stroke=\"none\" fill=\"red\"/>"
    );
}

fn path_data_of(points: &[Point]) -> String {
    let text = create_svg_path(points, "x").to_text(0, 2);
    let from = text.find("d=\"").unwrap() + 3;
    let to = from + text[from..].find('"').unwrap();
    text[from..to].to_string()
}

#[test]
fn path_data_is_one_move_five_lines_and_the_close() {
    let mut r: i64 = 1;
    while r < 2_000_000_000_000 {
        let d = path_data_of(&create_path_points(-r / 3, r / 7, r));
        let words: Vec<&str> = d.split(' ').collect();
        assert_eq!(words.len(), 13);
        assert_eq!(words[0], "M");
        assert_eq!(words[12], "Z");
        for i in 0..6 {
            if i > 0 {
                assert_eq!(words[2 * i], "L");
            }
            let pair: Vec<&str> = words[2 * i + 1].split(',').collect();
            assert_eq!(pair.len(), 2);
            for number in pair {
                let digits = number.strip_prefix('-').unwrap_or(number);
                let parts: Vec<&str> = digits.split('.').collect();
                assert_eq!(parts.len(), 2);
                assert!(!parts[0].is_empty() && parts[0].chars().all(|c| c.is_ascii_digit()));
                assert!(parts[1].len() == 1 && parts[1].chars().all(|c| c.is_ascii_digit()));
            }
        }
        r = r * 7 + 3;
    }
}

#[test]
fn line_of_the_first_stroke() {
    let line = create_svg_line(
        77_201_998,
        239_750_000,
        460_250_000,
        665_000_000,
        "#33691E",
        7_000_000,
    );
    assert_eq!(
        line.to_text(0, 2),
        "<line x1=\"77.2\" y1=\"239.8\" x2=\"460.2\" y2=\"665.0\" stroke=\"#33691E\" stroke-width=\"7.0\" stroke-linecap=\"square\"/>"
    );
}

#[test]
fn line_rounds_its_width() {
    let line = create_svg_line(0, 0, -1_000_000, 1_000_000, "black", 2_550_000);
    assert_eq!(
        line.to_text(0, 2),
        "<line x1=\"0.0\" y1=\"0.0\" x2=\"-1.0\" y2=\"1.0\" stroke=\"black\" stroke-width=\"2.6\" stroke-linecap=\"square\"/>"
    );
}

#[test]
fn text_of_a_label() {
    let text = create_svg_text(
        120_000_000,
        640_500_000,
        "Decision",
        &bold(96),
        "#64DD17",
        "#33691E",
    );
    assert_eq!(
        text.to_text(0, 2),
        "<text x=\"120.0\" y=\"640.5\" font-family=\"Roboto\" font-weight=\"bold\" font-size=\"96\" fill=\"#64DD17\" stroke=\"#33691E\" stroke-width=\"4\">Decision</text>"
    );
}

#[test]
fn text_writes_the_font_size_as_it_is() {
    let zero = create_svg_text(0, 0, "a", &bold(0), "f", "s").to_text(0, 2);
    assert!(zero.contains(" font-size=\"0\" "));
    let most = create_svg_text(0, 0, "a", &bold(u32::MAX), "f", "s").to_text(0, 2);
    assert!(most.contains(" font-size=\"4294967295\" "));
}

#[test]
fn text_without_content() {
    let text = create_svg_text(0, 0, "", &bold(12), "f", "s");
    assert!(text.to_text(0, 2).ends_with(" stroke-width=\"4\"></text>"));
}
