use syncmob::qr::{draw, lay_out, QUIET};

#[test]
fn codes_are_laid_out_with_a_margin() {
    let text = "syncmob://pair?v=1";
    let l = draw(text).unwrap();
    let code = qrcode::QrCode::new(text.as_bytes()).unwrap();
    assert_eq!(l.total, code.width() + 8);
    let mut expected = Vec::new();
    let colors = code.to_colors();
    for y in 0..code.width() {
        for x in 0..code.width() {
            if colors[y * code.width() + x] == qrcode::Color::Dark {
                expected.push((x + 4, y + 4));
            }
        }
    }
    assert_eq!(l.cells, expected);
    assert!(l.cells.contains(&(QUIET, QUIET)));
}

#[test]
fn different_texts_have_different_codes() {
    assert_ne!(draw("a").unwrap().cells, draw("b").unwrap().cells);
}

#[test]
fn too_long_a_text_has_no_code() {
    assert!(draw(&"x".repeat(5000)).is_err());
}

#[test]
fn cells_are_counted_row_by_row() {
    let l = lay_out(2, &[true, false, false, true]).unwrap();
    assert_eq!(l.total, 10);
    assert_eq!(l.cells, vec![(4, 4), (5, 5)]);
    match lay_out(0, &[]) {
        Err(why) => assert_eq!(why, "пустой QR-код"),
        Ok(_) => panic!("drawn"),
    }
}
