use chess_rs::board::Board;
use chess_rs::lookup_tables::LookupTables;
use regex::Regex;

fn pattern() -> Regex {
    Regex::new(
        r"^([rnbqkpRNBQKP/1-8]+)\s+(w|b)\s+([KQkq]+|-)\s+(-|[a-h][36])\s*(\d*)\s*(\d*)\s*$",
    )
    .unwrap()
}

fn is_read(l: &LookupTables, text: &str) -> bool {
    Board::from_fen(text, l).err() != Some("invalid fen".to_string())
}

#[test]
fn separators_and_counters_are_those_of_the_pattern() {
    let l = LookupTables::generate().unwrap();
    let re = pattern();
    let placement = "4k3/8/8/8/8/8/8/4K3";
    let mut gaps: Vec<String> = Vec::new();
    for code in 0u32..0x3100 {
        if let Some(c) = char::from_u32(code) {
            if c.is_whitespace() || c.is_control() || code % 97 == 0 {
                gaps.push(c.to_string());
            }
        }
    }
    gaps.push(String::new());
    gaps.push("  \t".to_string());
    for gap in &gaps {
        let texts = [
            format!("{placement}{gap}w - - 0 1"),
            format!("{placement} w{gap}- - 0 1"),
            format!("{placement} w -{gap}- 0 1"),
            format!("{placement} w - -{gap}0 1"),
            format!("{placement} w - - 0{gap}1"),
            format!("{placement} w - - 0 1{gap}"),
        ];
        for text in texts {
            assert_eq!(is_read(&l, &text), re.is_match(&text), "{:?}", text);
        }
    }
}

#[test]
fn digits_of_every_script_are_those_of_the_pattern() {
    let l = LookupTables::generate().unwrap();
    let re = pattern();
    let digit = Regex::new(r"^\d$").unwrap();
    let placement = "4k3/8/8/8/8/8/8/4K3";
    let mut code = 0u32;
    while code < 0x20000 {
        if let Some(c) = char::from_u32(code) {
            if c.is_numeric() || code % 101 == 0 {
                let foreign = digit.is_match(&c.to_string()) && !c.is_ascii_digit();
                let texts = [
                    (format!("{placement} w - - {c} 1"), 0, 1),
                    (format!("{placement} w - - 3{c}"), 0, 0),
                    (format!("{placement} w - - 3 4{c}5"), 3, 0),
                ];
                for (text, half, full) in texts {
                    let expected = re.is_match(&text);
                    assert_eq!(is_read(&l, &text), expected, "{:?}", text);
                    if foreign {
                        let b = Board::from_fen(&text, &l).unwrap();
                        assert_eq!(b.state.half_moves, half, "{:?}", text);
                        assert_eq!(b.state.full_moves, full, "{:?}", text);
                    }
                }
            }
        }
        code += 1;
    }
}
