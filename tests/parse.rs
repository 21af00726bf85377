use mandelbrot::parse::{
    find_separator, join_pair, parse_bounds, parse_pair, parse_usize, split_pair, ParseError,
};

#[test]
fn test_parse_pair() {
    assert_eq!(parse_pair::<i32>("", ','), None);
    assert_eq!(parse_pair::<i32>("10", ','), None);
    assert_eq!(parse_pair::<i32>(",10", ','), None);
    assert_eq!(parse_pair::<i32>("10,20", ','), Some((10, 20)));
    assert_eq!(parse_pair::<i32>("10,20xy", ','), None);
    assert_eq!(parse_pair::<f64>("0.5x", 'x'), None);
    assert_eq!(parse_pair::<f64>("0.5x1.5", 'x'), Some((0.5, 1.5)));
}

#[test]
fn parse_pair_reads_complex_parts() {
    assert_eq!(parse_pair::<f64>("1.25,-0.0625", ','), Some((1.25, -0.0625)));
    assert_eq!(parse_pair::<f64>(", -0.0625", ','), None);
}

#[test]
fn parse_pair_cuts_at_first_separator() {
    assert_eq!(parse_pair::<i32>("1,2,3", ','), None);
    assert_eq!(parse_pair::<i32>("10,", ','), None);
    assert_eq!(parse_pair::<i32>("-3,+4", ','), Some((-3, 4)));
}

#[test]
fn find_separator_gives_first_position() {
    assert_eq!(find_separator("a,b,c", ','), Some(1));
    assert_eq!(find_separator(",", ','), Some(0));
    assert_eq!(find_separator("abc", ','), None);
    assert_eq!(find_separator("", ','), None);
    assert_eq!(find_separator("\u{e9}x\u{e9}", 'x'), Some(1));
}

#[test]
fn split_pair_gives_both_sides() {
    assert_eq!(split_pair("12x34x5", 'x'), Ok(("12".to_string(), "34x5".to_string())));
    assert_eq!(split_pair("x", 'x'), Ok((String::new(), String::new())));
    assert_eq!(split_pair("\u{e9}x\u{e8}", 'x'), Ok(("\u{e9}".to_string(), "\u{e8}".to_string())));
    assert_eq!(split_pair("1234", 'x'), Err(ParseError::SeparatorNotFound));
}

#[test]
fn join_pair_needs_both_sides() {
    assert_eq!(join_pair(Some(1), Some(2)), Some((1, 2)));
    assert_eq!(join_pair(Some(1), None), None);
    assert_eq!(join_pair::<i32>(None, Some(2)), None);
    assert_eq!(join_pair::<i32>(None, None), None);
}

#[test]
fn parse_usize_reads_decimal_text() {
    assert_eq!(parse_usize("0"), Some(0));
    assert_eq!(parse_usize("750"), Some(750));
    assert_eq!(parse_usize("+42"), Some(42));
    assert_eq!(parse_usize("007"), Some(7));
    assert_eq!(parse_usize("18446744073709551615"), Some(usize::MAX));
    assert_eq!(parse_usize("18446744073709551616"), None);
    assert_eq!(parse_usize("99999999999999999999x"), None);
    assert_eq!(parse_usize(""), None);
    assert_eq!(parse_usize("+"), None);
    assert_eq!(parse_usize("-1"), None);
    assert_eq!(parse_usize(" 1"), None);
    assert_eq!(parse_usize("1.5"), None);
    assert_eq!(parse_usize("++1"), None);
}

#[test]
fn parse_bounds_reads_dimensions() {
    assert_eq!(parse_bounds("1000x750", 'x'), Ok((1000, 750)));
    assert_eq!(parse_bounds("4x4", 'x'), Ok((4, 4)));
    assert_eq!(parse_bounds("1000", 'x'), Err(ParseError::SeparatorNotFound));
    assert_eq!(parse_bounds("", 'x'), Err(ParseError::SeparatorNotFound));
    assert_eq!(parse_bounds("x750", 'x'), Err(ParseError::InvalidNumber));
    assert_eq!(parse_bounds("1000x", 'x'), Err(ParseError::InvalidNumber));
    assert_eq!(parse_bounds("10x20xy", 'x'), Err(ParseError::InvalidNumber));
    assert_eq!(parse_bounds("ax2", 'x'), Err(ParseError::InvalidNumber));
}

#[test]
fn parse_bounds_agrees_with_std_parse() {
    for text in ["0x0", "+1x+2", "12x-3", "1x 2", "5x5x", "99999999999999999999x1"] {
        let expected = match text.find('x') {
            None => Err(ParseError::SeparatorNotFound),
            Some(i) => match (text[..i].parse::<usize>(), text[i + 1..].parse::<usize>()) {
                (Ok(a), Ok(b)) => Ok((a, b)),
                _ => Err(ParseError::InvalidNumber),
            },
        };
        assert_eq!(parse_bounds(text, 'x'), expected, "{}", text);
    }
}
