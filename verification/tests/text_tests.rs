use atosaki::procinfo::{parse_child_pids, parse_cmdline, ProcEntry, ProcTable};
use atosaki::text::{chars_of, decimal, parse_i32_chars, replace_chars, string_of, trim_chars};

fn v(s: &str) -> Vec<char> {
    s.chars().collect()
}

#[test]
fn replace_is_left_to_right_and_non_overlapping() {
    let r = replace_chars(&v("aaaa"), &v("aa"), &v("b"));
    assert_eq!(r, v("bb"));
    let r = replace_chars(&v("aaa"), &v("aa"), &v("x"));
    assert_eq!(r, v("xa"));
    let r = replace_chars(&v("no marker here"), &v("$$pid$$"), &v("7"));
    assert_eq!(r, v("no marker here"));
    let r = replace_chars(&v("kill $$pid$$ $$pid$$"), &v("$$pid$$"), &v("42"));
    assert_eq!(r, v("kill 42 42"));
}

#[test]
fn decimal_matches_to_string() {
    for x in [0i64, 7, 10, 99, 100, -1, -10, 2147483647, -2147483648, i64::MAX, i64::MIN] {
        assert_eq!(decimal(x), v(&x.to_string()));
    }
}

#[test]
fn chars_round_trip() {
    let s = "héllo wörld";
    assert_eq!(string_of(&chars_of(s)), s.to_string());
}

#[test]
fn trim_matches_str_trim() {
    for s in ["  a b  ", "\t\n x\u{3000}", "", "   ", "abc", "\u{85}y\u{A0}"] {
        assert_eq!(trim_chars(&v(s)), v(s.trim()));
    }
}

#[test]
fn parse_matches_str_parse() {
    for s in ["0", "42", "-42", "+7", "-", "+", "", "2147483647", "2147483648", "-2147483648",
        "-2147483649", "99999999999999999999", "1a", "--1", "+-1", " 1", "007"] {
        assert_eq!(parse_i32_chars(&v(s)), s.parse::<i32>().ok(), "parsing {:?}", s);
    }
}

#[test]
fn child_pids_split_on_white_space() {
    assert_eq!(parse_child_pids("12 34\n"), vec![12, 34]);
    assert_eq!(parse_child_pids(""), Vec::<i32>::new());
    assert_eq!(parse_child_pids("  5   x  6 "), vec![5, 6]);
    assert_eq!(parse_child_pids("99999999999 3"), vec![3]);
}

#[test]
fn cmdline_joins_arguments() {
    assert_eq!(parse_cmdline("nvim\0file.txt\0"), Some("nvim file.txt".to_string()));
    assert_eq!(parse_cmdline("\0\0"), None);
    assert_eq!(parse_cmdline(""), None);
}

#[test]
fn proc_table_lookups() {
    let table = ProcTable {
        entries: vec![
            ProcEntry { pid: 10, children: Some("11 12".to_string()), cmdline: Some("zsh\0".to_string()) },
            ProcEntry { pid: 11, children: None, cmdline: None },
            ProcEntry { pid: 10, children: Some("99".to_string()), cmdline: Some("other".to_string()) },
        ],
    };
    assert_eq!(table.get_child_pids(10), vec![11, 12]);
    assert_eq!(table.get_child_pids(11), Vec::<i32>::new());
    assert_eq!(table.get_child_pids(77), Vec::<i32>::new());
    assert_eq!(table.get_cmdline(10), Some("zsh".to_string()));
    assert_eq!(table.get_cmdline(11), None);
    assert_eq!(table.get_cmdline(77), None);
}

#[test]
fn decimal_parses_back() {
    for x in [0i32, 1, -1, 9, 10, 12345, i32::MAX, i32::MIN] {
        assert_eq!(parse_i32_chars(&decimal(x as i64)), Some(x));
    }
}
