//! Texts, numbers, times, the cache and panels.
use news_lab::cache::{
    cache_file_name, get, get_with_ttl, hash_key, is_entry_extension, put, put_with_ttl,
    DisplayItem,
};
use news_lab::json::{extract_json, pick_json, reply_json, sanitize_json_strings, strip_code_fences};
use news_lab::number::{i64_text, parse_u32, parse_u64, u64_text};
use news_lab::order::{distinct_entries, flatten, sort_entries};
use news_lab::fetcher::NewsItem;
use news_lab::percent::{percent_decode, urlencoding};
use news_lab::prompts::{enc, fill, mask, NEWS};
use news_lab::text::{
    align_right, contains, ends_with, join, lines, replace, split_chars, split_once,
    split_whitespace, starts_with, strip_prefix, strip_suffix, take_chars, trim, trim_end_matches,
};
use news_lab::time::{back_by_days, cutoff_before, format_date_or, is_recent, Timestamp};
use news_lab::ui::{
    border, clickable, content_rows, padding, panel_color, separator_line, title_lines,
    wrap_display, PanelColor,
};
use news_lab::unicode::normalize_text;

#[test]
fn text_operations_agree_with_those_of_strings() {
    for s in ["", " a b ", "a\r\nb\n\nc", "\u{3000}全 形\u{a0}", "a,b,,c", "xxaxx", "🎓é"] {
        assert_eq!(trim(s), s.trim());
        assert_eq!(lines(s), s.lines().map(|l| l.to_string()).collect::<Vec<String>>());
        assert_eq!(
            split_whitespace(s),
            s.split_whitespace().map(|l| l.to_string()).collect::<Vec<String>>()
        );
        assert_eq!(
            split_chars(s, &[',', 'a']),
            s.split([',', 'a']).map(|l| l.to_string()).collect::<Vec<String>>()
        );
        assert_eq!(
            split_once(s, 'a'),
            s.split_once('a').map(|(x, y)| (x.to_string(), y.to_string()))
        );
        assert_eq!(replace(s, "x", "yy"), s.replace("x", "yy"));
        assert_eq!(trim_end_matches(s, "x"), s.trim_end_matches("x"));
        assert_eq!(take_chars(s, 2), s.chars().take(2).collect::<String>());
        assert_eq!(contains(s, "a"), s.contains("a"));
        assert_eq!(starts_with(s, "a"), s.starts_with("a"));
        assert_eq!(ends_with(s, "c"), s.ends_with("c"));
        assert_eq!(strip_prefix(s, "a"), s.strip_prefix("a").map(|x| x.to_string()));
        assert_eq!(strip_suffix(s, "c"), s.strip_suffix("c").map(|x| x.to_string()));
        assert_eq!(align_right(s, 6), format!("{:>6}", s));
    }
    assert_eq!(join(&["a".to_string(), "b".to_string()], ", "), "a, b");
    assert_eq!(normalize_text("React.js ÄÖ"), "reactjsäö");
}

#[test]
fn numbers_are_written_and_read() {
    for n in [0, 7, 10, 999, u64::MAX] {
        assert_eq!(u64_text(n), n.to_string());
        assert_eq!(parse_u64(&u64_text(n)), Some(n));
    }
    assert_eq!(i64_text(i64::MIN), i64::MIN.to_string());
    for s in ["", "+5", "-5", "007", "5 ", "4294967295", "4294967296", "٣"] {
        assert_eq!(parse_u32(s), s.parse::<u32>().ok());
    }
}

#[test]
fn encoding_is_undone_by_decoding() {
    for s in ["a b", "機器 & ML?", "50% + 1", "~-_."] {
        assert_eq!(percent_decode(&urlencoding(s)), s);
    }
    assert_eq!(urlencoding("a 機~"), "a+%E6%A9%9F~");
    assert_eq!(percent_decode("a%zz+%4"), "a%zz %4");
    assert_eq!(percent_decode("%FF"), "\u{fffd}");
}

#[test]
fn json_is_found_in_replies() {
    assert_eq!(strip_code_fences(" ```json\n{\"a\": 1}\n``` "), "{\"a\": 1}");
    assert_eq!(strip_code_fences("plain"), "plain");
    assert_eq!(extract_json("Here it is: {\"a\":\n1} ok"), "{\"a\":\n1}");
    assert_eq!(extract_json("none"), "none");
    assert_eq!(pick_json("x", Some("{}".to_string())), "{}");
    assert_eq!(reply_json("{\"a\": \"x\ny\"}"), "{\"a\": \"x\\ny\"}");
}

#[test]
fn line_breaks_in_strings_are_escaped() {
    assert_eq!(sanitize_json_strings("{\n\"a\": \"b\nc\r\"}\n"), "{\n\"a\": \"b\\nc\\r\"}\n");
    assert_eq!(sanitize_json_strings(r#"{"a": "q\"\n"}"#), r#"{"a": "q\"\n"}"#);
    assert_eq!(sanitize_json_strings("\"\\"), "\"\\");
    let once = sanitize_json_strings("{\"a\": \"b\nc\"}");
    assert_eq!(sanitize_json_strings(&once), once);
}

#[test]
fn keys_of_the_cache() {
    assert_eq!(hash_key(&[]), "cbf29ce484222325");
    assert_eq!(hash_key(&[""]), "af63f14c8602103b");
    assert_eq!(hash_key(&["ab", "c"]), "d2f9c72db52487bd");
    assert_ne!(hash_key(&["ab", "c"]), hash_key(&["a", "bc"]));
    assert_eq!(cache_file_name(&["x"]), format!("{}.json", hash_key(&["x"])));
    assert_eq!(hash_key(&["news", "機"]).len(), 16);
    assert!(is_entry_extension(Some("json")) && !is_entry_extension(Some("txt")));
    assert!(!is_entry_extension(None));
}

#[test]
fn the_cache_gives_back_what_was_put() {
    let item = || DisplayItem {
        title: "t".to_string(),
        content: "c".to_string(),
        url: "u".to_string(),
        color: "cyan".to_string(),
    };
    let (items, left) = get(put(vec![item()], 1000), 1600).unwrap();
    assert_eq!(items[0].title, "t");
    assert_eq!(left, 3000);
    assert!(get(put(vec![item()], 1000), 4600).is_none());
    assert_eq!(get_with_ttl(put_with_ttl(7, 1000), 900, 10), Some((7, 10)));
    assert_eq!(get_with_ttl(put_with_ttl(7, 1000), 1000, 0), None);
}

#[test]
fn times_and_days() {
    let t = Timestamp { secs: 1714979289, nanos: 0 };
    assert_eq!(format_date_or(Some(t), "未知"), "2024-05-06");
    assert_eq!(format_date_or(None, "未知"), "未知");
    assert_eq!(format_date_or(Some(Timestamp { secs: i64::MAX, nanos: 0 }), "?"), "?");
    assert_eq!(back_by_days(t, 1).secs, 1714892889);
    assert_eq!(cutoff_before(t, 0), None);
    assert!(is_recent(Some(t), cutoff_before(t, 1)));
    assert!(!is_recent(Some(back_by_days(t, 2)), cutoff_before(t, 1)));
    assert!(is_recent(None, cutoff_before(t, 1)));
}

#[test]
fn lists_keep_the_first_of_each_key_and_order_by_time() {
    let n = |url: &str, secs: Option<i64>| NewsItem {
        title: String::new(),
        url: url.to_string(),
        source: String::new(),
        published: secs.map(|secs| Timestamp { secs, nanos: 0 }),
        description: String::new(),
    };
    let all = flatten(vec![vec![n("a", Some(1)), n("b", None)], vec![], vec![n("a", Some(7)), n("c", Some(3))]]);
    let d = distinct_entries(all);
    let s = sort_entries(d);
    let urls: Vec<&str> = s.iter().map(|x| x.url.as_str()).collect();
    assert_eq!(urls, vec!["c", "a", "b"]);
}

#[test]
fn texts_are_wrapped_at_words() {
    assert_eq!(wrap_display("aa bb cc", 5), vec!["aa bb", "cc"]);
    assert_eq!(wrap_display("", 5), vec![""]);
    assert_eq!(wrap_display("技術雷達", 4), vec!["技術", "雷達"]);
    assert_eq!(wrap_display("a 技術雷達 b", 4), vec!["a", "技術", "雷達", "b"]);
    assert_eq!(wrap_display("abcdefg", 3), vec!["abc", "def", "g"]);
}

#[test]
fn panels_have_borders_and_rows() {
    assert_eq!(border('╭', '╮').chars().count(), 76);
    assert_eq!(padding("技術", 10), 6);
    assert_eq!(padding("x", 0), 0);
    let t = title_lines(&"w".repeat(100));
    assert_eq!((t[0].text.len(), t[0].pad), (72, 0));
    assert_eq!((t[1].text.len(), t[1].pad), (28, 42));
    let rows = content_rows("技術\n\nb");
    assert_eq!(rows.len(), 3);
    assert_eq!(rows[0], format!("│ 技術{} │", " ".repeat(68)));
    assert_eq!(rows[1], format!("│ {} │", " ".repeat(72)));
    assert_eq!(panel_color("magenta"), PanelColor::Magenta);
    assert_eq!(panel_color("pink"), PanelColor::White);
    assert_eq!(clickable("u"), "\x1b]8;;u\x1b\\u\x1b]8;;\x1b\\");
    assert_eq!(separator_line().chars().count(), 76);
}

#[test]
fn prompts_are_masked_and_filled() {
    let m = enc(NEWS);
    assert_ne!(m, NEWS.as_bytes());
    assert_eq!(m[0], NEWS.as_bytes()[0] ^ 0x4e);
    assert_eq!(mask(&m), NEWS.as_bytes());
    assert_eq!(fill("{a}-{b}-{a}", &[("{a}", "{b}"), ("{b}", "x")]), "x-x-x");
}
