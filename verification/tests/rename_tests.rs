use qbit_renamer::logger::{set_log_file, LogFile, LogUnwrap};
use qbit_renamer::rename::{
    apply_rename_rules_to_file, file_renames, first_torrent, torrent_rename, TorrentFile,
    TorrentInfo,
};
use qbit_renamer::replacer::CompoundReplacer;
use qbit_renamer::rules::{parse_rule, rules_from_lines, split_lines};

fn replacer(rules: &[(&str, &str)]) -> CompoundReplacer {
    let pairs: Vec<(String, String)> =
        rules.iter().map(|(p, r)| (p.to_string(), r.to_string())).collect();
    match CompoundReplacer::new(&pairs) {
        Ok(replacer) => replacer,
        Err(e) => panic!("pattern refused: {}", e.pattern),
    }
}

fn file(name: &str, index: u32) -> TorrentFile {
    TorrentFile { name: name.to_string(), index }
}

fn strings(items: &[&str]) -> Vec<String> {
    items.iter().map(|s| s.to_string()).collect()
}

fn string_pair(a: &str, b: &str) -> (String, String) {
    (a.to_string(), b.to_string())
}

#[test]
fn rules_see_the_stem_only() {
    let r = replacer(&[(r"\.", " "), ("mkv", "avi"), ("gz", "xz")]);
    assert_eq!(apply_rename_rules_to_file("a.b.mkv", &r), "a b.mkv");
    assert_eq!(apply_rename_rules_to_file("mkv.mkv", &r), "avi.mkv");
    assert_eq!(apply_rename_rules_to_file("a.gz.tar.gz", &r), "a xz.tar.gz");
    assert_eq!(apply_rename_rules_to_file("a.b.7z.001", &r), "a b.7z.001");
}

#[test]
fn a_name_without_extension_is_transformed_as_a_whole() {
    let r = replacer(&[("e", "E")]);
    assert_eq!(apply_rename_rules_to_file("readme", &r), "rEadmE");
    assert_eq!(apply_rename_rules_to_file("readme.", &r), "rEadmE.");
    assert_eq!(apply_rename_rules_to_file("", &r), "");
}

#[test]
fn a_hidden_file_keeps_its_name_as_extension() {
    let r = replacer(&[("e", "E")]);
    assert_eq!(apply_rename_rules_to_file(".env", &r), ".env");
}

#[test]
fn no_rules_rename_no_file() {
    let r = replacer(&[]);
    for name in ["a.b.mkv", "x.tar.gz", ".f", "f.", "", "小丑.mkv"] {
        assert_eq!(apply_rename_rules_to_file(name, &r), name);
    }
    assert!(file_renames(&vec![file("a.b", 0), file("c", 1)], &r).is_empty());
}

#[test]
fn only_changed_files_are_renamed_in_listing_order() {
    let r = replacer(&[(r"\.", " ")]);
    let files = vec![file("a.b.mkv", 0), file("plain.mkv", 1), file("dir/c.d.txt", 2), file("e", 3)];
    let plan = file_renames(&files, &r);
    assert_eq!(plan.len(), 2);
    assert_eq!(plan[0].old_path, "a.b.mkv");
    assert_eq!(plan[0].new_path, "a b.mkv");
    assert_eq!(plan[1].old_path, "dir/c.d.txt");
    assert_eq!(plan[1].new_path, "dir/c d.txt");
}

#[test]
fn a_torrent_is_renamed_only_if_its_name_changes() {
    let r = replacer(&[(r"\.", " ")]);
    let changed = TorrentInfo { hash: "abc".to_string(), name: "Title.2024.BluRay".to_string() };
    assert_eq!(torrent_rename(&changed, &r), Some("Title 2024 BluRay".to_string()));
    let same = TorrentInfo { hash: "abc".to_string(), name: "Title 2024".to_string() };
    assert_eq!(torrent_rename(&same, &r), None);
}

#[test]
fn the_first_torrent_of_a_listing_is_taken() {
    assert!(first_torrent(vec![]).is_none());
    let listing = vec![
        TorrentInfo { hash: "h1".to_string(), name: "one".to_string() },
        TorrentInfo { hash: "h2".to_string(), name: "two".to_string() },
    ];
    let first = first_torrent(listing).unwrap();
    assert_eq!(first.hash, "h1");
    assert_eq!(first.name, "one");
}

#[test]
fn the_first_log_file_stays() {
    let mut log = LogFile::new();
    assert_eq!(log.path(), None);
    set_log_file(&mut log, "first.log".to_string());
    assert_eq!(log.path(), Some("first.log"));
    set_log_file(&mut log, "second.log".to_string());
    assert_eq!(log.path(), Some("first.log"));
}

#[test]
fn log_unwrap_gives_the_value() {
    assert_eq!(Some(5).log_unwrap("nothing there"), 5);
    let ok: Result<&str, String> = Ok("fine");
    assert_eq!(ok.log_unwrap("failed"), "fine");
}

#[test]
fn a_rule_argument_splits_at_its_last_equals_sign() {
    assert_eq!(parse_rule("a=b"), Some(string_pair("a", "b")));
    assert_eq!(parse_rule("a=b=c"), Some(string_pair("a=b", "c")));
    assert_eq!(parse_rule(r"\.="), Some(string_pair(r"\.", "")));
    assert_eq!(parse_rule("=x"), Some(string_pair("", "x")));
    assert_eq!(parse_rule("="), Some(string_pair("", "")));
    assert_eq!(parse_rule("【高清】=小丑"), Some(string_pair("【高清】", "小丑")));
    assert_eq!(parse_rule("rules.txt"), None);
    assert_eq!(parse_rule(""), None);
}

#[test]
fn lines_end_at_line_feeds() {
    assert_eq!(split_lines(""), Vec::<String>::new());
    assert_eq!(split_lines("a"), strings(&["a"]));
    assert_eq!(split_lines("a\n"), strings(&["a"]));
    assert_eq!(split_lines("a\nb"), strings(&["a", "b"]));
    assert_eq!(split_lines("a\r\nb\r\n"), strings(&["a", "b"]));
    assert_eq!(split_lines("\n\na\n"), strings(&["", "", "a"]));
    assert_eq!(split_lines("a\rb\nc\r"), strings(&["a\rb", "c\r"]));
    assert_eq!(split_lines("\r\n"), strings(&[""]));
    assert_eq!(split_lines("小\n丑"), strings(&["小", "丑"]));
}

#[test]
fn split_lines_agrees_with_std() {
    for text in ["", "a", "a\n", "\n", "a\r\n\r\nb", "a\r", "\r", "\r\r\n", "x\ny\nz\n\n", "\n\r\n"] {
        let expected: Vec<String> = text.lines().map(|l| l.to_string()).collect();
        assert_eq!(split_lines(text), expected);
    }
}

#[test]
fn lines_are_paired_into_rules() {
    assert_eq!(rules_from_lines(&strings(&[])), vec![]);
    assert_eq!(rules_from_lines(&strings(&["a"])), vec![]);
    assert_eq!(rules_from_lines(&strings(&["a", "1"])), vec![string_pair("a", "1")]);
    assert_eq!(
        rules_from_lines(&strings(&["a", "1", "b", "", "c"])),
        vec![string_pair("a", "1"), string_pair("b", "")]
    );
}

#[test]
fn a_rules_file_gives_the_rules_it_spells_out() {
    let rules = rules_from_lines(&split_lines("\\.\n \r\nmkv\navi\nleft over"));
    assert_eq!(rules, vec![string_pair(r"\.", " "), string_pair("mkv", "avi")]);
    let r = match CompoundReplacer::new(&rules) {
        Ok(r) => r,
        Err(e) => panic!("pattern refused: {}", e.pattern),
    };
    assert_eq!(r.replace("a.mkv"), "a avi");
}
