use rust4diva::text::{
    contains_char, ends_with, escape_default, find_char, i64_to_string, join, lines,
    parent_dir_name, parent_path, parse_i32, path_parts, replace, split_once, starts_with,
    str_eq, strings_contain, strip_ends, u64_to_string,
};

#[test]
fn lines_split_like_std() {
    assert_eq!(lines("a\nb\r\nc"), vec!["a", "b", "c"]);
    assert_eq!(lines("a\n"), vec!["a"]);
    assert_eq!(lines(""), Vec::<String>::new());
    assert_eq!(lines("\n\nx"), vec!["", "", "x"]);
    let s = "one\r\ntwo\n\nthree\r\n";
    let std_lines: Vec<String> = s.lines().map(|l| l.to_string()).collect();
    assert_eq!(lines(s), std_lines);
}

#[test]
fn parse_i32_reads_decimal_numbers() {
    assert_eq!(parse_i32("42"), Some(42));
    assert_eq!(parse_i32("-7"), Some(-7));
    assert_eq!(parse_i32("+5"), Some(5));
    assert_eq!(parse_i32("2147483647"), Some(i32::MAX));
    assert_eq!(parse_i32("-2147483648"), Some(i32::MIN));
    assert_eq!(parse_i32("2147483648"), None);
    assert_eq!(parse_i32(""), None);
    assert_eq!(parse_i32("-"), None);
    assert_eq!(parse_i32("12a"), None);
}

#[test]
fn numbers_are_written_in_decimal() {
    assert_eq!(u64_to_string(0), "0");
    assert_eq!(u64_to_string(1761390), "1761390");
    assert_eq!(i64_to_string(-15), "-15");
    assert_eq!(i64_to_string(i64::MIN), i64::MIN.to_string());
    assert_eq!(u64_to_string(u64::MAX), u64::MAX.to_string());
}

#[test]
fn split_once_takes_the_first_separator() {
    assert_eq!(split_once("a=b=c", '='), Some(("a".to_string(), "b=c".to_string())));
    assert_eq!(split_once("=x", '='), Some(("".to_string(), "x".to_string())));
    assert_eq!(split_once("abc", '='), None);
}

#[test]
fn prefixes_and_suffixes() {
    assert!(starts_with("divamodmanager:dma/12", "divamodmanager:"));
    assert!(!starts_with("div", "diva"));
    assert!(ends_with("mod.rar", ".rar"));
    assert!(!ends_with("mod.zip", ".rar"));
    assert!(contains_char("a/b", '/'));
    assert!(!contains_char("ab", '/'));
    assert_eq!(find_char(&vec!['x', 'y', 'y'], 'y'), Some(1));
    assert_eq!(find_char(&vec!['x'], 'z'), None);
    assert!(str_eq("All Mods", "All Mods"));
    assert!(!str_eq("All Mods", "all mods"));
}

#[test]
fn strip_ends_takes_off_quotes() {
    assert_eq!(strip_ends("\"/home/steam\""), "/home/steam");
    assert_eq!(strip_ends("\""), "");
    assert_eq!(strip_ends(""), "");
}

#[test]
fn escape_default_matches_std() {
    for s in ["plain", "tab\there", "line\nbreak", "quote\"s", "back\\slash", "caf\u{e9}", "\u{1}"] {
        assert_eq!(escape_default(s), s.escape_default().to_string());
    }
}

#[test]
fn replace_matches_std() {
    assert_eq!(replace("a<br>b<br>", "<br>", "\n"), "a\nb\n");
    assert_eq!(replace("aaa", "aa", "b"), "aaa".replace("aa", "b"));
    assert_eq!(replace("none", "<br>", "\n"), "none");
}

#[test]
fn path_components_and_parents() {
    assert_eq!(path_parts("/games/diva/mods/cool/config.toml"), vec!["games", "diva", "mods", "cool", "config.toml"]);
    assert_eq!(path_parts("./a//b/"), vec!["a", "b"]);
    assert_eq!(parent_dir_name("/games/mods/cool/config.toml"), Some("cool".to_string()));
    assert_eq!(parent_dir_name("config.toml"), None);
    assert_eq!(parent_dir_name("../config.toml"), None);
    assert_eq!(parent_path("/games/mods/cool/config.toml"), "/games/mods/cool");
    assert_eq!(parent_path("/games/"), "/");
    assert_eq!(parent_path("/top"), "/");
    assert_eq!(parent_path("file"), "");
    assert_eq!(parent_path("a//b//"), "a");
}

#[test]
fn join_puts_one_separator_between() {
    assert_eq!(join("/games/diva", "mods"), "/games/diva/mods");
    assert_eq!(join("/games/diva/", "mods"), "/games/diva/mods");
    assert_eq!(join("", "mods"), "mods");
    assert_eq!(join("/games", "/abs"), "/abs");
}

#[test]
fn strings_contain_finds_equal_strings() {
    let v = vec!["a".to_string(), "1761390".to_string()];
    assert!(strings_contain(&v, "1761390"));
    assert!(!strings_contain(&v, "176139"));
}
