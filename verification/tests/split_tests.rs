use qbit_renamer::digits::is_decimal_digit;
use regex_automata::dfa::{dense, Automaton, StartKind};
use regex_automata::nfa::thompson;
use regex_automata::{Anchored, Input};
use qbit_renamer::chars::{chars_of, find_last};
use qbit_renamer::split::{find_split, split_filename};

fn split(name: &str) -> (String, String) {
    split_filename(name)
}

fn pair(stem: &str, extension: &str) -> (String, String) {
    (stem.to_string(), extension.to_string())
}

fn rejoined(name: &str) -> String {
    let (stem, extension) = split_filename(name);
    if extension.is_empty() {
        stem
    } else {
        format!("{}.{}", stem, extension)
    }
}

#[test]
fn test_2025_02_17_16_36_27() {
    assert_eq!(split_filename(""), ("".into(), "".into()));
    assert_eq!(split_filename("."), (".".into(), "".into()));
    assert_eq!(split_filename("f"), ("f".into(), "".into()));
    assert_eq!(split_filename(".f"), ("".into(), "f".into()));
    assert_eq!(split_filename("f."), ("f.".into(), "".into()));
    assert_eq!(split_filename("a.b.c.d.f"), ("a.b.c.d".into(), "f".into()));
    assert_eq!(split_filename("abc.tar.gz"), ("abc".into(), "tar.gz".into()));
    assert_eq!(split_filename("abc.7z.001"), ("abc".into(), "7z.001".into()));
    assert_eq!(split_filename("file.with.dots.txt"), ("file.with.dots".into(), "txt".into()));
    assert_eq!(split_filename("no_extension"), ("no_extension".into(), "".into()));
}

#[test]
fn compressed_tar_extensions_are_one_unit() {
    assert_eq!(split("a.tar.gz"), pair("a", "tar.gz"));
    assert_eq!(split("a.tar.xz"), pair("a", "tar.xz"));
    assert_eq!(split("a.tar.bz2"), pair("a", "tar.bz2"));
    assert_eq!(split("my.backup.tar.xz"), pair("my.backup", "tar.xz"));
    assert_eq!(split(".tar.gz"), pair("", "tar.gz"));
}

#[test]
fn compressed_cpio_extensions_are_one_unit() {
    assert_eq!(split("a.cpio.gz"), pair("a", "cpio.gz"));
    assert_eq!(split("a.cpio.bz2"), pair("a", "cpio.bz2"));
    assert_eq!(split("a.cpio.xz"), pair("a.cpio", "xz"));
}

#[test]
fn numbered_volumes_are_one_unit() {
    assert_eq!(split("a.7z.001"), pair("a", "7z.001"));
    assert_eq!(split("a.rar.123"), pair("a", "rar.123"));
    assert_eq!(split("a.zip.999"), pair("a", "zip.999"));
    assert_eq!(split("season.1.zip.010"), pair("season.1", "zip.010"));
}

#[test]
fn a_volume_number_has_exactly_three_digits() {
    assert_eq!(split("a.7z.01"), pair("a.7z", "01"));
    assert_eq!(split("a.7z.0001"), pair("a.7z", "0001"));
    assert_eq!(split("a.7z.0a1"), pair("a.7z", "0a1"));
    assert_eq!(split("a.tgz.001"), pair("a.tgz", "001"));
}

#[test]
fn a_compound_shape_needs_its_leading_dot() {
    assert_eq!(split("tar.gz"), pair("tar", "gz"));
    assert_eq!(split("7z.001"), pair("7z", "001"));
    assert_eq!(split("xtar.gz"), pair("xtar", "gz"));
    assert_eq!(split("a.x7z.001"), pair("a.x7z", "001"));
}

#[test]
fn shapes_are_case_sensitive() {
    assert_eq!(split("a.TAR.GZ"), pair("a.TAR", "GZ"));
    assert_eq!(split("a.Zip.001"), pair("a.Zip", "001"));
}

#[test]
fn boundary_names() {
    assert_eq!(split(".."), pair("..", ""));
    assert_eq!(split("a..b"), pair("a.", "b"));
    assert_eq!(split("a.b."), pair("a.b.", ""));
    assert_eq!(split(".hidden"), pair("", "hidden"));
    assert_eq!(split(".hidden.txt"), pair(".hidden", "txt"));
}

#[test]
fn names_beyond_ascii() {
    assert_eq!(split("小丑2.mkv"), pair("小丑2", "mkv"));
    assert_eq!(split("проект.tar.gz"), pair("проект", "tar.gz"));
    assert_eq!(split("a.日本語"), pair("a", "日本語"));
    assert_eq!(split("a.zip.١٢٣"), pair("a", "zip.١٢٣"));
    assert_eq!(split("a.zip.１２３"), pair("a", "zip.１２３"));
    assert_eq!(split("a.zip.①②③"), pair("a.zip", "①②③"));
}

#[test]
fn splitting_loses_nothing() {
    for name in [
        "", ".", "f", ".f", "f.", "a.b.c.d.f", "abc.tar.gz", "abc.7z.001", "no_extension", "a..b",
        "..", "小丑2.mkv", "a.zip.١٢٣", ".tar.gz", "x.cpio.bz2",
    ] {
        assert_eq!(rejoined(name), name);
    }
}

#[test]
fn find_split_gives_the_index_of_the_separating_dot() {
    assert_eq!(find_split(&chars_of("abc.tar.gz")), Some(3));
    assert_eq!(find_split(&chars_of("abc.7z.001")), Some(3));
    assert_eq!(find_split(&chars_of("小丑.b.c")), Some(4));
    assert_eq!(find_split(&chars_of("abc")), None);
    assert_eq!(find_split(&chars_of("abc.")), None);
    assert_eq!(find_split(&chars_of("")), None);
}

#[test]
fn chars_of_keeps_every_character() {
    assert_eq!(chars_of("a.小"), vec!['a', '.', '小']);
    assert_eq!(chars_of(""), Vec::<char>::new());
}

#[test]
fn decimal_digits_of_several_scripts() {
    for c in ['0', '5', '9', '٠', '٩', '０', '９', '𝟎', '𝟿', '𑛐', '𑛣'] {
        assert!(is_decimal_digit(c));
    }
    for c in ['a', '.', '/', ':', '①', 'Ⅳ', '½', '一', ' '] {
        assert!(!is_decimal_digit(c));
    }
}

#[test]
fn decimal_digits_agree_with_the_digit_class_of_regex() {
    let digit = regex::Regex::new(r"^\d$").unwrap();
    let mut buffer = [0u8; 4];
    let mut code: u32 = 0;
    while code <= 0x10FFFF {
        if let Some(c) = char::from_u32(code) {
            assert_eq!(is_decimal_digit(c), digit.is_match(c.encode_utf8(&mut buffer)), "U+{:04X}", code);
        }
        code += 1;
    }
}

#[test]
fn find_last_gives_the_last_occurrence() {
    assert_eq!(find_last(&chars_of("a=b=c"), '='), Some(3));
    assert_eq!(find_last(&chars_of("="), '='), Some(0));
    assert_eq!(find_last(&chars_of("abc"), '='), None);
    assert_eq!(find_last(&chars_of(""), '='), None);
    assert_eq!(find_last(&chars_of("a.b.c"), '.'), Some(3));
}

fn reverse_automaton() -> dense::DFA<Vec<u32>> {
    dense::Builder::new()
        .configure(dense::Config::new().start_kind(StartKind::Anchored))
        .thompson(thompson::Config::new().reverse(true))
        .build(r"\.(tar\.(?:gz|xz|bz2)|cpio\.(?:gz|bz2)|(?:7z|rar|zip)\.\d{3}|[^.]+)")
        .unwrap()
}

fn split_by_automaton(dfa: &dense::DFA<Vec<u32>>, filename: &str) -> (String, String) {
    let input = Input::new(filename).anchored(Anchored::Yes);
    match dfa.try_search_rev(&input) {
        Ok(Some(index)) => {
            let (main, ext) = filename.split_at(index.offset());
            (main.into(), ext[1..].into())
        }
        Ok(None) | Err(_) => (filename.to_string(), String::new()),
    }
}

#[test]
fn split_agrees_with_an_end_anchored_automaton() {
    let dfa = reverse_automaton();
    let segments = [
        "", "a", "tar", "gz", "xz", "bz2", "cpio", "7z", "rar", "zip", "001", "01", "0001", "1a2",
        "١٢٣", "小丑", "TAR", "xtar", "7", "12３",
    ];
    let mut names: Vec<String> = vec![String::new()];
    for a in segments {
        names.push(a.to_string());
        for b in segments {
            names.push(format!("{}.{}", a, b));
            for c in segments {
                names.push(format!("{}.{}.{}", a, b, c));
                for d in ["", "gz", "001", "a", "١٢٣"] {
                    names.push(format!("{}.{}.{}.{}", a, b, c, d));
                }
            }
        }
    }
    for name in &names {
        assert_eq!(split_filename(name), split_by_automaton(&dfa, name), "{:?}", name);
    }
}
