use rowbinary::error::IntFault;
use rowbinary::metadata::type_util::is_balanced_brackets;
use rowbinary::metadata::type_util::split_to_fields;
use rowbinary::metadata::type_util::FindSkip;
use rowbinary::text::char_is_whitespace;
use rowbinary::text::eq_lit;
use rowbinary::text::find_char;
use rowbinary::text::from_chars;
use rowbinary::text::parse_int_chars;
use rowbinary::text::strip_quotes_chars;
use rowbinary::text::render_int;
use rowbinary::text::render_nat;
use rowbinary::text::to_chars;
use rowbinary::text::trim_chars;

fn next(state: &mut u64) -> u64 {
    *state = state.wrapping_mul(6364136223846793005).wrapping_add(1442695040888963407);
    *state >> 33
}

fn random_text(state: &mut u64, alphabet: &[char], max: u64) -> String {
    let count = next(state) % (max + 1);
    (0..count).map(|_| alphabet[(next(state) % alphabet.len() as u64) as usize]).collect()
}

#[test]
fn white_space_is_what_std_takes_for_it() {
    for code in 0..=0x10ffffu32 {
        if let Some(c) = char::from_u32(code) {
            assert_eq!(char_is_whitespace(c), c.is_whitespace(), "{:x}", code);
        }
    }
}

#[test]
fn trimming_is_what_std_does() {
    let alphabet = [' ', '\t', '\n', '\u{a0}', '\u{3000}', 'a', '(', ',', '\u{e9}'];
    let mut state = 3u64;
    for _ in 0..5000 {
        let text = random_text(&mut state, &alphabet, 8);
        let chars = to_chars(&text);
        assert_eq!(chars, text.chars().collect::<Vec<char>>());
        assert_eq!(from_chars(trim_chars(&chars)), text.trim());
        assert_eq!(from_chars(&chars), text);
    }
}

#[test]
fn integers_are_read_as_std_reads_them() {
    let alphabet = ['0', '1', '9', '+', '-', ' ', 'x'];
    let mut state = 5u64;
    for _ in 0..20000 {
        let text = random_text(&mut state, &alphabet, 6);
        let chars = to_chars(&text);
        let ours = parse_int_chars(&chars, -128, 127);
        match text.parse::<i8>() {
            Ok(v) => assert_eq!(ours, Ok(v as i128), "{:?}", text),
            Err(_) => assert!(ours.is_err(), "{:?}", text),
        }
        let ours = parse_int_chars(&chars, 0, 255);
        match text.parse::<u8>() {
            Ok(v) => assert_eq!(ours, Ok(v as i128), "{:?}", text),
            Err(_) => assert!(ours.is_err(), "{:?}", text),
        }
    }
    assert_eq!(parse_int_chars(&to_chars(""), 0, 9), Err(IntFault::Empty));
    assert_eq!(parse_int_chars(&to_chars("+"), 0, 9), Err(IntFault::InvalidDigit));
    assert_eq!(parse_int_chars(&to_chars("-"), -9, 9), Err(IntFault::InvalidDigit));
    assert_eq!(parse_int_chars(&to_chars("-1"), 0, 9), Err(IntFault::InvalidDigit));
    assert_eq!(parse_int_chars(&to_chars("10"), 0, 9), Err(IntFault::PosOverflow));
    assert_eq!(parse_int_chars(&to_chars("-10"), -9, 9), Err(IntFault::NegOverflow));
    assert_eq!(parse_int_chars(&to_chars("99x"), 0, 9), Err(IntFault::InvalidDigit));
    assert_eq!(
        parse_int_chars(&to_chars("18446744073709551615"), 0, u64::MAX as i128),
        Ok(u64::MAX as i128)
    );
    assert_eq!(
        parse_int_chars(&to_chars("18446744073709551616"), 0, u64::MAX as i128),
        Err(IntFault::PosOverflow)
    );
    assert_eq!(parse_int_chars(&to_chars("-18446744073709551616"), -(1i128 << 64), 0), Ok(-(1i128 << 64)));
}

#[test]
fn integers_are_written_as_std_writes_them() {
    for v in [0i128, 1, 9, 10, 99, 100, 255, -1, -10, -128, i64::MIN as i128, i128::MAX, i128::MIN + 1] {
        let mut out = String::from("n=");
        render_int(&mut out, v);
        assert_eq!(out, format!("n={}", v));
    }
    for v in [0u128, 7, 10, 12345678901234567890, u128::MAX] {
        let mut out = String::new();
        render_nat(&mut out, v);
        assert_eq!(out, v.to_string());
    }
}

#[test]
fn searching_and_stripping() {
    let chars = to_chars("a b='c',d");
    assert_eq!(find_char(&chars, '='), Some(3));
    assert_eq!(find_char(&chars, '?'), None);
    assert_eq!(from_chars(strip_quotes_chars(&to_chars("'a b'"))), "a b");
    assert_eq!(from_chars(strip_quotes_chars(&to_chars("''"))), "");
    assert_eq!(from_chars(strip_quotes_chars(&to_chars("'"))), "'");
    assert_eq!(from_chars(strip_quotes_chars(&to_chars("'a"))), "'a");
    assert_eq!(from_chars(strip_quotes_chars(&to_chars("a'"))), "a'");
    assert_eq!(from_chars(strip_quotes_chars(&to_chars("a'b'c"))), "a'b'c");
    assert_eq!(from_chars(strip_quotes_chars(&to_chars("''a''"))), "'a'");
    assert_eq!(from_chars(strip_quotes_chars(&to_chars(""))), "");
    assert!(eq_lit(&to_chars("Map"), "Map"));
    assert!(!eq_lit(&to_chars("Map"), "Mapp"));
    assert!(!eq_lit(&to_chars("Map"), "Mat"));
    assert!(eq_lit(&to_chars(""), ""));
}

fn naive_balanced(s: &str) -> bool {
    let mut stack = Vec::new();
    for c in s.chars() {
        match c {
            '(' => stack.push(c),
            ')' => {
                if stack.pop().is_none() {
                    return false;
                }
            }
            _ => (),
        }
    }
    stack.is_empty()
}

fn naive_find_skip(s: &str, p: char, skip: usize) -> Option<usize> {
    s.chars().enumerate().filter(|&(_, c)| c == p).nth(skip).map(|(idx, _)| idx)
}

fn naive_split(inner: &str) -> Vec<String> {
    let mut fields: Vec<String> = Vec::new();
    let mut remaining = inner;
    let mut skip = 0;
    while !remaining.is_empty() {
        if let Some(idx) = naive_find_skip(remaining, ',', skip) {
            let field = &remaining[..idx];
            if naive_balanced(field) {
                fields.push(field.trim().to_owned());
                remaining = &remaining[(idx + 1)..];
                skip = 0;
            } else {
                skip += 1;
            }
        } else {
            fields.push(remaining.trim().to_owned());
            remaining = "";
        }
    }
    fields
}

#[test]
fn splitting_follows_the_skip_count_search() {
    let alphabet = ['(', ')', ',', ',', ' ', 'a', 'b'];
    let mut state = 9u64;
    for _ in 0..20000 {
        let text = random_text(&mut state, &alphabet, 12);
        let chars = to_chars(&text);
        assert_eq!(is_balanced_brackets(&chars), naive_balanced(&text), "{:?}", text);
        let skip = (next(&mut state) % 4) as usize;
        assert_eq!(text.find_skip(',', skip), naive_find_skip(&text, ',', skip), "{:?}", text);
        assert_eq!(chars.as_slice().find_skip('(', skip), naive_find_skip(&text, '(', skip), "{:?}", text);
        let fields: Vec<String> = split_to_fields(&chars).iter().map(|f| from_chars(f)).collect();
        assert_eq!(fields, naive_split(&text), "{:?}", text);
    }
}
