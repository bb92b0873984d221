use rmprog::color::select_color;

const PALETTE: [&str; 7] = ["red", "green", "yellow", "blue", "cyan", "magenta", "white"];

#[test]
fn requested_color_wins() {
    assert_eq!(select_color(&"blue".to_string()), "blue");
    assert_eq!(select_color(&"orange".to_string()), "orange");
}

#[test]
fn empty_request_draws_from_palette() {
    for _ in 0..32 {
        let c = select_color(&String::new());
        assert!(PALETTE.contains(&c.as_str()), "not a palette color: {}", c);
    }
}
