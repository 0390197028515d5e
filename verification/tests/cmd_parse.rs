use igrep::ui::cmd_parse::contexts_from_groups;
use igrep::ui::cmd_parse::group;
use igrep::ui::cmd_parse::parse_ab;
use igrep::ui::cmd_parse::parse_number;
use igrep::ui::cmd_parse::split_globs;
use igrep::ui::cmd_parse::SearchCmd;
use igrep::ui::cmd_parse::CMD_RE;
use igrep::ui::cmd_parse::CMD_RE_Q;
use regex::Regex;

#[test]
fn test_re() {
    let text = "\"传输速度\" *.rs *.json --a100b23";
    let re = Regex::new(CMD_RE_Q).unwrap();
    let ms = re.captures(text).unwrap();
    ms.iter().enumerate().for_each(|s| {
        if let Some(re) = s.1 {
            println!("{}--{}", s.0, re.as_str());
        } else {
            println!("{}--None", s.0);
        }
    });
    println!("----------------");
    let text = "传输速度 *.rs *.json --a100b23";
    let re = Regex::new(CMD_RE).unwrap();
    let ms = re.captures(text).unwrap();
    ms.iter().enumerate().for_each(|s| {
        if let Some(re) = s.1 {
            println!("{}--{}", s.0, re.as_str());
        } else {
            println!("{}--None", s.0);
        }
    });
}

#[test]
fn test_ab() {
    let text = "\"传输速度\" *.rs *.json --a100b23";
    let re = Regex::new(CMD_RE_Q).unwrap();
    let ms = re.captures(text).unwrap();
    let ab = ms.get(3).unwrap().as_str();
    let ab = parse_ab(ab).unwrap();
    println!("{},{}", ab.0, ab.1);
    assert_eq!(ab, (100, 23));
}

#[test]
fn test_cmd_1() {
    let text = "\"传输速度\" *.rs *.json --a100b23".to_owned();
    let cmd = SearchCmd::parse(&text).unwrap();
    let sc = SearchCmd {
        pattern: "传输速度".to_owned(),
        golb: Some(vec!["*.rs".to_owned(), "*.json".to_owned()]),
        before_context: 23,
        after_context: 100,
    };
    assert_eq!(cmd, sc);
}

#[test]
fn test_cmd_2() {
    let sc = SearchCmd {
        pattern: "传输-速度".to_owned(),
        golb: Some(vec!["*.rs".to_owned(), "*.json".to_owned()]),
        before_context: 23,
        after_context: 100,
    };
    let text = "传输-速度 *.rs *.json --a100b23".to_owned();
    let cmd = SearchCmd::parse(&text).unwrap();
    assert_eq!(cmd, sc);
}

#[test]
fn test_cmd_3() {
    let sc = SearchCmd {
        pattern: "传输速度".to_owned(),
        golb: Some(vec!["*.rs".to_owned(), "*.json".to_owned()]),
        before_context: 100,
        after_context: 100,
    };
    let text = "传输速度 *.rs *.json --100".to_owned();
    let cmd = SearchCmd::parse(&text).unwrap();
    assert_eq!(cmd, sc);
}

#[test]
fn test_cmd_4() {
    let sc = SearchCmd {
        pattern: "传输速度".to_owned(),
        golb: Some(vec!["*.rs".to_owned(), "*.json".to_owned()]),
        before_context: 0,
        after_context: 0,
    };
    let text = "传输速度 *.rs *.json ".to_owned();
    let cmd = SearchCmd::parse(&text).unwrap();
    assert_eq!(cmd, sc);
}

#[test]
fn test_cmd_5() {
    let sc = SearchCmd {
        pattern: "传输 速度".to_owned(),
        golb: Some(vec!["*.rs".to_owned(), "*.json".to_owned()]),
        before_context: 0,
        after_context: 0,
    };
    let text = "\"传输 速度\" *.rs *.json ".to_owned();
    let cmd = SearchCmd::parse(&text).unwrap();
    assert_eq!(cmd, sc);
}

#[test]
fn test_cmd_6() {
    let sc = SearchCmd {
        pattern: "传输-- 速度".to_owned(),
        golb: Some(Vec::new()),
        before_context: 0,
        after_context: 0,
    };
    let text = "\"传输-- 速度\"".to_owned();
    let cmd = SearchCmd::parse(&text).unwrap();
    assert_eq!(cmd, sc);
}

#[test]
fn test_cmd_7() {
    let sc = SearchCmd {
        pattern: "传输--速度".to_owned(),
        golb: Some(Vec::new()),
        before_context: 0,
        after_context: 0,
    };
    let text = "传输--速度".to_owned();
    let cmd = SearchCmd::parse(&text).unwrap();
    assert_eq!(cmd, sc);
}

#[test]
fn test_cmd_8() {
    let sc = SearchCmd {
        pattern: "传输-- 速度".to_owned(),
        golb: Some(Vec::new()),
        before_context: 22,
        after_context: 10,
    };
    let text = "\"传输-- 速度\"--b22a10".to_owned();
    let cmd = SearchCmd::parse(&text).unwrap();
    assert_eq!(cmd, sc);
}

#[test]
fn test_cmd_9() {
    let sc = SearchCmd {
        pattern: "传输--速度".to_owned(),
        golb: Some(Vec::new()),
        before_context: 100,
        after_context: 100,
    };
    let text = "传输--速度 --100".to_owned();
    let cmd = SearchCmd::parse(&text).unwrap();
    assert_eq!(cmd, sc);
}

#[test]
fn plain_word_is_the_pattern() {
    let cmd = SearchCmd::parse(&"needle".to_owned()).unwrap();
    let sc = SearchCmd {
        pattern: "needle".to_owned(),
        golb: None,
        before_context: 0,
        after_context: 0,
    };
    assert_eq!(cmd, sc);
}

#[test]
fn empty_text_is_no_command() {
    assert_eq!(SearchCmd::parse(&String::new()), None);
}

#[test]
fn text_without_pattern_is_no_command() {
    assert_eq!(SearchCmd::parse(&" ".to_owned()), None);
    assert_eq!(SearchCmd::parse(&"\"\" x".to_owned()), None);
}

#[test]
fn captures_decide_the_command() {
    assert_eq!(SearchCmd::from_captures(None), None);
    assert_eq!(SearchCmd::from_captures(Some(vec![Some("x".to_owned()), None])), None);
    let groups = vec![
        Some("foo *.rs --b2".to_owned()),
        Some("foo".to_owned()),
        Some(" *.rs ".to_owned()),
        Some("--b2".to_owned()),
    ];
    let sc = SearchCmd {
        pattern: "foo".to_owned(),
        golb: Some(vec!["*.rs".to_owned()]),
        before_context: 2,
        after_context: 0,
    };
    assert_eq!(SearchCmd::from_captures(Some(groups)), Some(sc));
    let groups = vec![Some("foo".to_owned()), Some("foo".to_owned()), None, None];
    let sc = SearchCmd {
        pattern: "foo".to_owned(),
        golb: None,
        before_context: 0,
        after_context: 0,
    };
    assert_eq!(SearchCmd::from_captures(Some(groups)), Some(sc));
}

#[test]
fn context_sizes_from_text() {
    assert_eq!(parse_ab("--5"), Some((5, 5)));
    assert_eq!(parse_ab("--a3"), Some((3, 0)));
    assert_eq!(parse_ab("--b4"), Some((0, 4)));
    assert_eq!(parse_ab("--a3b2"), Some((3, 2)));
    assert_eq!(parse_ab("--b2a3"), Some((3, 2)));
    assert_eq!(parse_ab("--7a1"), Some((1, 7)));
    assert_eq!(parse_ab("x --12 y"), Some((12, 12)));
    assert_eq!(parse_ab("no sizes"), None);
    assert_eq!(parse_ab("--"), None);
    assert_eq!(parse_ab(""), None);
}

#[test]
fn context_sizes_from_groups() {
    let a = "a12".to_owned();
    let b = "b7".to_owned();
    let n = "9".to_owned();
    assert_eq!(contexts_from_groups(None, None), (0, 0));
    assert_eq!(contexts_from_groups(Some(&a), None), (12, 0));
    assert_eq!(contexts_from_groups(Some(&b), None), (0, 7));
    assert_eq!(contexts_from_groups(Some(&n), None), (9, 9));
    assert_eq!(contexts_from_groups(Some(&n), Some(&b)), (9, 7));
    assert_eq!(contexts_from_groups(Some(&a), Some(&n)), (9, 9));
    let bad = "ax".to_owned();
    assert_eq!(contexts_from_groups(Some(&n), Some(&bad)), (0, 9));
    let empty = String::new();
    assert_eq!(contexts_from_groups(Some(&empty), None), (0, 0));
}

#[test]
fn numbers() {
    assert_eq!(parse_number("0"), 0);
    assert_eq!(parse_number("007"), 7);
    assert_eq!(parse_number("123"), 123);
    assert_eq!(parse_number("+123"), 123);
    assert_eq!(parse_number(""), 0);
    assert_eq!(parse_number("+"), 0);
    assert_eq!(parse_number("-1"), 0);
    assert_eq!(parse_number("12a"), 0);
    assert_eq!(parse_number(" 12"), 0);
    assert_eq!(parse_number("１２"), 0);
    assert_eq!(parse_number("99999999999999999999999999"), 0);
    assert_eq!(parse_number(&usize::MAX.to_string()), usize::MAX);
    for text in ["5", "+5", "x", "", "18446744073709551616", "0018"] {
        assert_eq!(parse_number(text), usize::from_str_radix(text, 10).unwrap_or_default());
    }
}

#[test]
fn globs_are_the_words_between_spaces() {
    assert_eq!(split_globs(""), Vec::<String>::new());
    assert_eq!(split_globs("   "), Vec::<String>::new());
    assert_eq!(split_globs(" *.rs *.json "), vec!["*.rs".to_owned(), "*.json".to_owned()]);
    assert_eq!(split_globs("a   b"), vec!["a".to_owned(), "b".to_owned()]);
    assert_eq!(split_globs("one"), vec!["one".to_owned()]);
}

#[test]
fn whitespace_is_cut_at_the_ends_only() {
    assert_eq!(split_globs("\t*.rs \n"), vec!["*.rs".to_owned()]);
    assert_eq!(split_globs("\u{3000}a\tb c\u{a0}"), vec!["a\tb".to_owned(), "c".to_owned()]);
    for text in [" a b ", "\ta\t", "x", " \u{2003}y z\r\n"] {
        let expected: Vec<String> =
            text.trim().split(' ').filter(|g| !g.is_empty()).map(|g| g.to_owned()).collect();
        assert_eq!(split_globs(text), expected);
    }
}

#[test]
fn groups_of_a_capture() {
    let groups = vec![Some("whole".to_owned()), None, Some(String::new())];
    assert_eq!(group(&groups, 0), Some(&"whole".to_owned()));
    assert_eq!(group(&groups, 1), None);
    assert_eq!(group(&groups, 2), Some(&String::new()));
    assert_eq!(group(&groups, 3), None);
    assert_eq!(group(&groups, usize::MAX), None);
}
